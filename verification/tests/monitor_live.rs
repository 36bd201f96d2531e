use arb_strategy::monitor_live::{
    is_upbit_ioc_rejection_message, to_ascii_lowercase, IocRejectTracker,
};

#[test]
fn test_is_upbit_ioc_rejection_message() {
    assert!(is_upbit_ioc_rejection_message("Invalid time_in_force: IOC is not supported"));
    assert!(is_upbit_ioc_rejection_message("validation error: ord_type"));
    assert!(!is_upbit_ioc_rejection_message("network timeout"));
}

#[test]
fn rejection_phrases_any_case() {
    assert!(is_upbit_ioc_rejection_message("ORD_TYPE invalid"));
    assert!(is_upbit_ioc_rejection_message("Not Supported"));
    assert!(!is_upbit_ioc_rejection_message("insufficient funds"));
    assert!(!is_upbit_ioc_rejection_message(""));
}

#[test]
fn ascii_lowercase_leaves_other_characters() {
    assert_eq!(to_ascii_lowercase("AbC-ÄÖ_1"), "abc-ÄÖ_1");
}

#[test]
fn cooldown_after_block_count_rejections() {
    let mut t = IocRejectTracker::new();
    let now = 1_000_000i64;
    assert_eq!(t.record_reject("BTC", 3, 30, now), None);
    assert_eq!(t.record_reject("BTC", 3, 30, now), None);
    assert_eq!(t.record_reject("BTC", 3, 30, now), Some(now + 30 * 60_000));
    assert_eq!(t.cooldown_until("BTC", now + 1), Some(now + 30 * 60_000));
    assert_eq!(t.cooldown_until("ETH", now + 1), None);
}

#[test]
fn expired_cooldown_is_reset() {
    let mut t = IocRejectTracker::new();
    let now = 0i64;
    assert_eq!(t.record_reject("XRP", 1, 1, now), Some(60_000));
    assert_eq!(t.cooldown_until("XRP", 60_000), None);
    // the count starts again from zero
    assert_eq!(t.record_reject("XRP", 2, 1, 70_000), None);
    assert_eq!(t.record_reject("XRP", 2, 1, 70_000), Some(130_000));
}

#[test]
fn clear_forgets_rejections() {
    let mut t = IocRejectTracker::new();
    assert_eq!(t.record_reject("SOL", 2, 5, 0), None);
    t.clear("SOL");
    assert_eq!(t.record_reject("SOL", 2, 5, 0), None);
    assert_eq!(t.cooldown_until("SOL", 0), None);
}
