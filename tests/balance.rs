use ore_miner::balance::{display_balance, TokenBalance};

#[test]
fn balance_display() {
    assert_eq!(display_balance(TokenBalance::Held("12.5".to_string())), "12.5");
    assert_eq!(display_balance(TokenBalance::NoAccount), "0.00");
    assert_eq!(display_balance(TokenBalance::Unavailable), "Err");
}
