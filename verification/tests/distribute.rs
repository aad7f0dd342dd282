use fury_contracts::distribute::{calculate_total_distribution, populate_distribution_details, Distributor};
use fury_contracts::token::TokenError;

const NOW: u64 = 1_571_797_419_879_305_533;

fn s(x: &str) -> String {
    x.to_string()
}

#[test]
fn a_round_hands_out_two_thousand() {
    let details = populate_distribution_details();
    assert_eq!(details.len(), 2);
    assert_eq!(calculate_total_distribution(&details), 2000);
}

#[test]
fn distribution_needs_the_balance() {
    let d = Distributor::instantiate(&s("Crll Token"), &s("CRLL"), 6, NOW).unwrap();
    assert_eq!(d.distribute_to_accounts(&s("caller"), None).err(), Some(TokenError::BalanceQueryFailed));
    assert_eq!(
        d.distribute_to_accounts(&s("caller"), Some(1999)).err(),
        Some(TokenError::CannotSub { balance: 1999, amount: 2000 })
    );
    let res = d.distribute_to_accounts(&s("caller"), Some(2000)).unwrap();
    assert!(res.messages.is_empty());
    let attrs: Vec<(String, String)> = res.attributes.iter().map(|a| (a.key.clone(), a.value.clone())).collect();
    assert_eq!(attrs.len(), 6);
    assert_eq!(attrs[0], (s("action"), s("transfer vested tokens")));
    assert_eq!(attrs[1], (s("address"), s("caller")));
}

#[test]
fn the_distributor_checks_its_token() {
    assert_eq!(Distributor::instantiate(&s("Cr"), &s("CRLL"), 6, NOW).err(), Some(TokenError::InvalidName));
    assert_eq!(Distributor::instantiate(&s("Crll Token"), &s("CRLL"), 19, NOW).err(), Some(TokenError::InvalidDecimals));
    let d = Distributor::instantiate(&s("Crll Token"), &s("CRLL"), 6, NOW).unwrap();
    assert_eq!(d.query_token_info().err(), Some(TokenError::TokenInfoMissing));
    assert_eq!(d.query_balance(&s("anyone")), 0);
}

#[test]
fn transfers_without_funds_are_refused() {
    let mut d = Distributor::instantiate(&s("Crll Token"), &s("CRLL"), 6, NOW).unwrap();
    assert_eq!(d.execute_transfer(&s("a"), s("b"), 0).err(), Some(TokenError::InvalidZeroAmount));
    assert_eq!(d.execute_transfer(&s("a"), s("b"), 5).err(), Some(TokenError::CannotSub { balance: 0, amount: 5 }));
    assert_eq!(d.execute_send(&s("a"), s("b"), 5, vec![]).err(), Some(TokenError::CannotSub { balance: 0, amount: 5 }));
}
