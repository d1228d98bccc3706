use escrow_voting::faucet::{Contract, REQUEST_GAP_LIMITER};
use escrow_voting::CoreError;

fn s(x: &str) -> String {
    x.to_string()
}

#[test]
fn admin_faucet_builds_the_transfer() {
    let mut f = Contract::default();
    let t = f.admin_faucet(&s("token"), s("rx"), 42);
    assert_eq!(t.ft_contract_id, "token");
    assert_eq!(t.receiver_id, "rx");
    assert_eq!(t.amount, 42);
}

#[test]
fn request_grants_once_per_window() {
    let mut f = Contract::default();
    let t = f.ft_request_funds(&s("caller"), &s("token"), &s("rx"), 5, 1_000).unwrap();
    assert_eq!(t.receiver_id, "rx");
    assert_eq!(t.amount, 5);
    // A second request within the hour is rejected.
    assert_eq!(
        f.ft_request_funds(&s("caller"), &s("token"), &s("rx"), 5, 2_000).err(),
        Some(CoreError::Validation)
    );
    // Another receiver is fine.
    assert!(f.ft_request_funds(&s("caller"), &s("token"), &s("ry"), 5, 2_000).is_ok());
    // Once the window has passed the receiver is purged and served again.
    let later = 1_000 + REQUEST_GAP_LIMITER;
    assert!(f.ft_request_funds(&s("caller"), &s("token"), &s("rx"), 5, later).is_ok());
}

#[test]
fn request_respects_allowance_and_blacklist() {
    let mut f = Contract::default();
    let too_much = 10_000_000_000_000_000_000_001u128;
    assert_eq!(
        f.ft_request_funds(&s("caller"), &s("token"), &s("rx"), too_much, 1_000).err(),
        Some(CoreError::Validation)
    );
    f.add_to_blacklist(s("caller"));
    assert!(f.is_blacklisted(&s("caller")));
    assert_eq!(
        f.ft_request_funds(&s("caller"), &s("token"), &s("rx"), 5, 1_000).err(),
        Some(CoreError::Authorization)
    );
    f.remove_from_blacklist(&s("caller"));
    assert!(!f.is_blacklisted(&s("caller")));
    assert!(f.ft_request_funds(&s("caller"), &s("token"), &s("rx"), 5, 1_000).is_ok());
}

#[test]
fn batch_blacklist_and_clear() {
    let mut f = Contract::default();
    f.batch_add_to_blacklist(vec![s("a"), s("b"), s("c")]);
    assert!(f.is_blacklisted(&s("a")));
    assert!(f.is_blacklisted(&s("b")));
    assert!(f.is_blacklisted(&s("c")));
    assert!(!f.is_blacklisted(&s("d")));
    // Clearing the cooldowns readmits a recent receiver at the same time.
    assert!(f.ft_request_funds(&s("z"), &s("token"), &s("rx"), 5, 1_000).is_ok());
    assert_eq!(
        f.ft_request_funds(&s("z"), &s("token"), &s("rx"), 5, 1_500).err(),
        Some(CoreError::Validation)
    );
    f.clear_recent_receivers();
    assert!(f.ft_request_funds(&s("z"), &s("token"), &s("rx"), 5, 1_500).is_ok());
}
