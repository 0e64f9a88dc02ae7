//! Fixed-size digests: Keccak-256 candidate digests and their ordering as
//! big-endian unsigned integers.

use vstd::prelude::*;

verus! {

/// `256^k`.
pub open spec fn pow256(k: nat) -> nat
    decreases k,
{
    if k == 0 {
        1
    } else {
        256 * pow256((k - 1) as nat)
    }
}

/// The value of a byte sequence read as a big-endian unsigned integer.
pub open spec fn be_value(s: Seq<u8>) -> nat
    decreases s.len(),
{
    if s.len() == 0 {
        0
    } else {
        s[0] as nat * pow256((s.len() - 1) as nat) + be_value(s.drop_first())
    }
}

/// Whether `digest` lies at or below the bound `difficulty`, both read as
/// big-endian unsigned integers.
pub open spec fn meets_difficulty(digest: Seq<u8>, difficulty: Seq<u8>) -> bool {
    be_value(digest) <= be_value(difficulty)
}

/// The eight little-endian bytes of `n`.
pub open spec fn le_bytes(n: u64) -> Seq<u8> {
    seq![
        n as u8,
        (n >> 8u64) as u8,
        (n >> 16u64) as u8,
        (n >> 24u64) as u8,
        (n >> 32u64) as u8,
        (n >> 40u64) as u8,
        (n >> 48u64) as u8,
        (n >> 56u64) as u8,
    ]
}

/// The Keccak-256 digest of a byte string.
pub uninterp spec fn keccak256(data: Seq<u8>) -> Seq<u8>;

/// The digest of a candidate: the hash of the challenge, then the identity,
/// then the nonce in little-endian bytes.
pub open spec fn candidate_digest(challenge: Seq<u8>, identity: Seq<u8>, nonce: u64) -> Seq<u8> {
    keccak256(challenge + identity + le_bytes(nonce))
}

/// A big-endian value of `k` bytes is below `256^k`.
pub proof fn lemma_be_value_bound(s: Seq<u8>)
    ensures
        be_value(s) < pow256(s.len()),
    decreases s.len(),
{
    if s.len() > 0 {
        let p = pow256((s.len() - 1) as nat);
        lemma_be_value_bound(s.drop_first());
        let h = s[0] as nat;
        let r = be_value(s.drop_first());
        assert(h * p + r < 256 * p) by (nonlinear_arith)
            requires
                h <= 255,
                r < p,
        ;
    }
}

/// Of two byte strings of one length, the one with the smaller leading byte
/// has the smaller big-endian value.
proof fn lemma_be_value_leading_byte(s: Seq<u8>, t: Seq<u8>)
    requires
        s.len() == t.len(),
        s.len() > 0,
        s[0] < t[0],
    ensures
        be_value(s) < be_value(t),
{
    let p = pow256((s.len() - 1) as nat);
    lemma_be_value_bound(s.drop_first());
    let hs = s[0] as nat;
    let ht = t[0] as nat;
    let rs = be_value(s.drop_first());
    let rt = be_value(t.drop_first());
    assert(hs * p + rs < ht * p + rt) by (nonlinear_arith)
        requires
            hs + 1 <= ht,
            rs < p,
    ;
}

/// Compares two digests as big-endian unsigned integers, byte by byte from the
/// most significant end.
pub fn digest_le(a: &[u8; 32], b: &[u8; 32]) -> (r: bool)
    ensures
        r == meets_difficulty(a@, b@),
{
    let mut i: usize = 0;
    assert(a@.subrange(0, 32) =~= a@);
    assert(b@.subrange(0, 32) =~= b@);
    while i < 32
        invariant
            0 <= i <= 32,
            a@.len() == 32,
            b@.len() == 32,
            meets_difficulty(a@, b@) == (be_value(a@.subrange(i as int, 32))
                <= be_value(b@.subrange(i as int, 32))),
        decreases 32 - i,
    {
        let x = a[i];
        let y = b[i];
        let ghost sa = a@.subrange(i as int, 32);
        let ghost sb = b@.subrange(i as int, 32);
        if x != y {
            proof {
                if x < y {
                    lemma_be_value_leading_byte(sa, sb);
                } else {
                    lemma_be_value_leading_byte(sb, sa);
                }
            }
            return x < y;
        }
        assert(sa.drop_first() =~= a@.subrange(i + 1, 32));
        assert(sb.drop_first() =~= b@.subrange(i + 1, 32));
        i = i + 1;
    }
    assert(a@.subrange(32, 32) =~= Seq::<u8>::empty());
    assert(b@.subrange(32, 32) =~= Seq::<u8>::empty());
    true
}

/// The little-endian bytes of a nonce.
pub fn nonce_le_bytes(n: u64) -> (r: [u8; 8])
    ensures
        r@ == le_bytes(n),
{
    let r: [u8; 8] = [
        n as u8,
        (n >> 8u64) as u8,
        (n >> 16u64) as u8,
        (n >> 24u64) as u8,
        (n >> 32u64) as u8,
        (n >> 40u64) as u8,
        (n >> 48u64) as u8,
        (n >> 56u64) as u8,
    ];
    assert(r@ =~= le_bytes(n));
    r
}

/// Relies on solana_sdk::keccak::hashv: the Keccak-256 digest of the slices
/// fed to one hasher in order, which is the digest of their concatenation.
#[verifier::external_body]
fn keccak_hashv(a: &[u8], b: &[u8], c: &[u8]) -> (r: [u8; 32])
    ensures
        r@ == keccak256(a@ + b@ + c@),
{
    solana_sdk::keccak::hashv(&[a, b, c]).to_bytes()
}

/// The digest of one candidate nonce for the given challenge and identity.
pub fn hash_candidate(challenge: &[u8; 32], identity: &[u8; 32], nonce: u64) -> (r: [u8; 32])
    ensures
        r@ == candidate_digest(challenge@, identity@, nonce),
{
    let bytes = nonce_le_bytes(nonce);
    keccak_hashv(challenge.as_slice(), identity.as_slice(), bytes.as_slice())
}

} // verus!
