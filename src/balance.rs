//! How the miner's token balance is shown.

use vstd::prelude::*;

verus! {

/// What a lookup of the miner's token account came to.
#[derive(Clone, Debug)]
pub enum TokenBalance {
    /// The account exists and holds this amount, already formatted.
    Held(String),
    /// There is no token account yet.
    NoAccount,
    /// The lookup failed.
    Unavailable,
}

/// The balance as shown to the user: the formatted amount, zero when there is
/// no account, and an error marker when the lookup failed.
pub fn display_balance(b: TokenBalance) -> (r: String)
    ensures
        match b {
            TokenBalance::Held(s) => r@ == s@,
            TokenBalance::NoAccount => r@ == "0.00"@,
            TokenBalance::Unavailable => r@ == "Err"@,
        },
{
    match b {
        TokenBalance::Held(s) => s,
        TokenBalance::NoAccount => String::from_str("0.00"),
        TokenBalance::Unavailable => String::from_str("Err"),
    }
}

} // verus!
