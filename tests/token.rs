use arcade_markets::token::{ArcadeToken, Message, Operation, TokenError};

fn who(name: &str) -> String {
    name.to_string()
}

#[test]
fn mint_transfer_burn() {
    let mut t = ArcadeToken::new();
    t.mint(&who("ann"), 100);
    assert_eq!(t.balance(&who("ann")), 100);
    assert_eq!(t.total_supply, 100);
    assert_eq!(t.transfer(&who("ann"), &who("ben"), 30), Ok(()));
    assert_eq!((t.balance(&who("ann")), t.balance(&who("ben"))), (70, 30));
    assert_eq!(t.burn(&who("ben"), 30), Ok(()));
    assert_eq!(t.balance(&who("ben")), 0);
    assert_eq!(t.total_supply, 70);
    let state = t.token_state();
    assert_eq!(state.total_supply, 70);
    assert_eq!(state.accounts.len(), 1);
    assert_eq!(state.accounts[0].owner, "ann");
    assert_eq!(state.accounts[0].balance, 70);
}

#[test]
fn overdrafts_are_refused() {
    let mut t = ArcadeToken::new();
    t.mint(&who("ann"), 10);
    assert_eq!(t.transfer(&who("ann"), &who("ben"), 11), Err(TokenError::InsufficientBalance));
    assert_eq!(t.burn(&who("ann"), 11), Err(TokenError::InsufficientBalanceToBurn));
    assert_eq!(t.balance(&who("ann")), 10);
    assert_eq!(t.total_supply, 10);
}

#[test]
fn self_transfer_keeps_balance_and_mint_saturates() {
    let mut t = ArcadeToken::new();
    t.mint(&who("ann"), 10);
    assert_eq!(t.transfer(&who("ann"), &who("ann"), 10), Ok(()));
    assert_eq!(t.balance(&who("ann")), 10);
    t.mint(&who("ann"), u128::MAX);
    assert_eq!(t.balance(&who("ann")), u128::MAX);
    assert_eq!(t.total_supply, u128::MAX);
}

#[test]
fn requests_and_credits() {
    let mut t = ArcadeToken::new();
    let op = Operation::Mint { owner: who("cat"), amount: 5 };
    assert_eq!(t.execute_operation(&who("admin"), op), Ok(()));
    let op = Operation::Transfer { to: who("dan"), amount: 2 };
    assert_eq!(t.execute_operation(&who("cat"), op), Ok(()));
    let op = Operation::Burn { amount: 9 };
    assert_eq!(t.execute_operation(&who("cat"), op), Err(TokenError::InsufficientBalanceToBurn));
    t.execute_message(Message::Credit { owner: who("dan"), amount: 1 });
    assert_eq!((t.balance(&who("cat")), t.balance(&who("dan"))), (3, 3));
    assert_eq!(t.total_supply, 6);
}
