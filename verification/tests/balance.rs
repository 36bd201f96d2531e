use arb_strategy::balance::BalanceTracker;
use arb_strategy::decimal::Dec;

const NOW: u64 = 1_000_000;

#[test]
fn test_initial_balance() {
    let bt = BalanceTracker::new(Dec::from_int(1_000_000), Dec::from_int(500));
    let (upbit, bybit) = bt.available();
    assert_eq!(upbit, Dec::from_int(1_000_000));
    assert_eq!(bybit, Dec::from_int(500));
}

#[test]
fn test_reserve_success() {
    let mut bt = BalanceTracker::new(Dec::from_int(1_000_000), Dec::from_int(500));
    let token = bt.reserve(Dec::from_int(100_000), Dec::from_int(50), NOW);
    assert!(token.is_some());

    let (upbit, bybit) = bt.available();
    assert_eq!(upbit, Dec::from_int(900_000));
    assert_eq!(bybit, Dec::from_int(450));
}

#[test]
fn test_reserve_insufficient_upbit() {
    let mut bt = BalanceTracker::new(Dec::from_int(50_000), Dec::from_int(500));
    let token = bt.reserve(Dec::from_int(100_000), Dec::from_int(50), NOW);
    assert!(token.is_none());

    let (upbit, bybit) = bt.available();
    assert_eq!(upbit, Dec::from_int(50_000));
    assert_eq!(bybit, Dec::from_int(500));
}

#[test]
fn test_reserve_insufficient_bybit() {
    let mut bt = BalanceTracker::new(Dec::from_int(1_000_000), Dec::from_int(30));
    let token = bt.reserve(Dec::from_int(100_000), Dec::from_int(50), NOW);
    assert!(token.is_none());

    // nothing is taken from Upbit either
    let (upbit, bybit) = bt.available();
    assert_eq!(upbit, Dec::from_int(1_000_000));
    assert_eq!(bybit, Dec::from_int(30));
}

#[test]
fn test_commit() {
    let mut bt = BalanceTracker::new(Dec::from_int(1_000_000), Dec::from_int(500));
    let mut token = bt.reserve(Dec::from_int(100_000), Dec::from_int(50), NOW).unwrap();

    // filled below the reservation: the difference comes back
    bt.commit(&mut token, Dec::from_int(90_000), Dec::from_int(45));

    let (upbit, bybit) = bt.available();
    assert_eq!(upbit, Dec::from_int(910_000));
    assert_eq!(bybit, Dec::from_int(455));
}

#[test]
fn test_release() {
    let mut bt = BalanceTracker::new(Dec::from_int(1_000_000), Dec::from_int(500));
    let mut token = bt.reserve(Dec::from_int(100_000), Dec::from_int(50), NOW).unwrap();

    bt.release(&mut token);

    let (upbit, bybit) = bt.available();
    assert_eq!(upbit, Dec::from_int(1_000_000));
    assert_eq!(bybit, Dec::from_int(500));
}

#[test]
fn test_on_exit() {
    let mut bt = BalanceTracker::new(Dec::from_int(1_000_000), Dec::from_int(500));
    bt.on_exit(Dec::from_int(50_000), Dec::from_int(30));

    let (upbit, bybit) = bt.available();
    assert_eq!(upbit, Dec::from_int(1_050_000));
    assert_eq!(bybit, Dec::from_int(530));
}

#[test]
fn test_drop_releases_uncommitted() {
    let mut bt = BalanceTracker::new(Dec::from_int(1_000_000), Dec::from_int(500));
    {
        let token = bt.reserve(Dec::from_int(100_000), Dec::from_int(50), NOW).unwrap();
        // the token goes away without being settled
        bt.release_on_drop(token);
    }

    let (upbit, bybit) = bt.available();
    assert_eq!(upbit, Dec::from_int(1_000_000));
    assert_eq!(bybit, Dec::from_int(500));
}

#[test]
fn test_drop_does_not_release_committed() {
    let mut bt = BalanceTracker::new(Dec::from_int(1_000_000), Dec::from_int(500));
    {
        let mut token = bt.reserve(Dec::from_int(100_000), Dec::from_int(50), NOW).unwrap();
        bt.commit(&mut token, Dec::from_int(100_000), Dec::from_int(50));
        // the token goes away after the commit: nothing is given back
        bt.release_on_drop(token);
    }

    let (upbit, bybit) = bt.available();
    assert_eq!(upbit, Dec::from_int(900_000));
    assert_eq!(bybit, Dec::from_int(450));
}

#[test]
fn test_multiple_reserves_sequential() {
    let mut bt = BalanceTracker::new(Dec::from_int(1_000_000), Dec::from_int(500));

    let t1 = bt.reserve(Dec::from_int(300_000), Dec::from_int(150), NOW);
    assert!(t1.is_some());

    let t2 = bt.reserve(Dec::from_int(300_000), Dec::from_int(150), NOW);
    assert!(t2.is_some());

    let (upbit, bybit) = bt.available();
    assert_eq!(upbit, Dec::from_int(400_000));
    assert_eq!(bybit, Dec::from_int(200));

    let t3 = bt.reserve(Dec::from_int(500_000), Dec::from_int(250), NOW);
    assert!(t3.is_none());
}

#[test]
fn test_sweep_expired() {
    let mut bt = BalanceTracker::with_ttl(Dec::from_int(1_000_000), Dec::from_int(500), 10);

    let _token = bt.reserve(Dec::from_int(100_000), Dec::from_int(50), NOW).unwrap();

    let (upbit, _) = bt.available();
    assert_eq!(upbit, Dec::from_int(900_000));

    // 20 ms later the reservation has expired
    let released = bt.sweep_expired_reservations(NOW + 20);
    assert_eq!(released, 1);

    let (upbit, bybit) = bt.available();
    assert_eq!(upbit, Dec::from_int(1_000_000));
    assert_eq!(bybit, Dec::from_int(500));
}

#[test]
fn test_reserved_total() {
    let mut bt = BalanceTracker::new(Dec::from_int(1_000_000), Dec::from_int(500));
    let _t1 = bt.reserve(Dec::from_int(100_000), Dec::from_int(50), NOW).unwrap();
    let _t2 = bt.reserve(Dec::from_int(200_000), Dec::from_int(100), NOW).unwrap();

    let (upbit_reserved, bybit_reserved) = bt.reserved_total();
    assert_eq!(upbit_reserved, Dec::from_int(300_000));
    assert_eq!(bybit_reserved, Dec::from_int(150));
}

#[test]
fn test_has_in_flight() {
    let mut bt = BalanceTracker::new(Dec::from_int(1_000_000), Dec::from_int(500));
    assert!(!bt.has_in_flight_reservations());

    let _token = bt.reserve(Dec::from_int(100_000), Dec::from_int(50), NOW).unwrap();
    assert!(bt.has_in_flight_reservations());
}

#[test]
fn test_concurrent_reserve_total_limit() {
    let mut bt = BalanceTracker::new(Dec::from_int(100), Dec::from_int(100));
    let mut tokens = Vec::new();

    for _ in 0..10 {
        if let Some(token) = bt.reserve(Dec::from_int(10), Dec::from_int(10), NOW) {
            tokens.push(token);
        }
    }

    assert_eq!(tokens.len(), 10);

    let extra = bt.reserve(Dec::from_int(10), Dec::from_int(10), NOW);
    assert!(extra.is_none());

    let (upbit, bybit) = bt.available();
    assert_eq!(upbit, Dec::zero());
    assert_eq!(bybit, Dec::zero());
}

#[test]
fn test_active_reservation_count() {
    let mut bt = BalanceTracker::new(Dec::from_int(1_000_000), Dec::from_int(500));
    assert_eq!(bt.active_reservation_count(), 0);

    let _t1 = bt.reserve(Dec::from_int(100_000), Dec::from_int(50), NOW).unwrap();
    assert_eq!(bt.active_reservation_count(), 1);

    let mut t2 = bt.reserve(Dec::from_int(100_000), Dec::from_int(50), NOW).unwrap();
    assert_eq!(bt.active_reservation_count(), 2);

    bt.commit(&mut t2, Dec::from_int(100_000), Dec::from_int(50));
    assert_eq!(bt.active_reservation_count(), 1);
}

#[test]
fn release_after_commit_changes_nothing() {
    let mut bt = BalanceTracker::new(Dec::from_int(1_000), Dec::from_int(100));
    let mut token = bt.reserve(Dec::from_int(400), Dec::from_int(40), NOW).unwrap();
    bt.commit(&mut token, Dec::from_int(400), Dec::from_int(40));
    assert!(token.is_settled());
    bt.release(&mut token);
    let (upbit, bybit) = bt.available();
    assert_eq!(upbit, Dec::from_int(600));
    assert_eq!(bybit, Dec::from_int(60));
}

#[test]
fn sweep_keeps_young_reservations() {
    let mut bt = BalanceTracker::with_ttl(Dec::from_int(1_000), Dec::from_int(100), 1_000);
    let _old = bt.reserve(Dec::from_int(100), Dec::from_int(10), NOW).unwrap();
    let _young = bt.reserve(Dec::from_int(200), Dec::from_int(20), NOW + 900).unwrap();
    assert_eq!(bt.sweep_expired_reservations(NOW + 1_500), 1);
    assert_eq!(bt.active_reservation_count(), 1);
    let (upbit, bybit) = bt.available();
    assert_eq!(upbit, Dec::from_int(800));
    assert_eq!(bybit, Dec::from_int(80));
}

#[test]
fn commit_above_reservation_takes_the_difference() {
    let mut bt = BalanceTracker::new(Dec::from_int(1_000), Dec::from_int(100));
    let mut token = bt.reserve(Dec::from_int(400), Dec::from_int(40), NOW).unwrap();
    bt.commit(&mut token, Dec::from_int(450), Dec::from_int(42));
    let (upbit, bybit) = bt.available();
    assert_eq!(upbit, Dec::from_int(550));
    assert_eq!(bybit, Dec::from_int(58));
}

#[test]
fn set_available_overrides() {
    let mut bt = BalanceTracker::new(Dec::from_int(1), Dec::from_int(2));
    bt.set_available(Dec::new(12345, 2), Dec::new(5, 1));
    assert_eq!(bt.available(), (Dec::new(12345, 2), Dec::new(5, 1)));
}

#[test]
fn exactness_tests_pass_for_ordinary_amounts() {
    let mut bt = BalanceTracker::new(Dec::new(1_000_000, 0), Dec::new(5_000, 2));
    let up = Dec::new(100_000, 0);
    let by = Dec::new(1_234, 2);
    assert!(bt.reserve_is_exact(&up, &by));
    let mut token = bt.reserve(up, by, NOW).unwrap();
    assert!(bt.reserved_total_is_exact());
    assert!(bt.sweep_is_exact(NOW + 1));
    assert!(bt.commit_is_exact(&token, &Dec::new(99_000, 0), &Dec::new(1_230, 2)));
    assert!(bt.release_is_exact(&token));
    bt.release(&mut token);
    assert_eq!(bt.available(), (Dec::new(1_000_000, 0), Dec::new(5_000, 2)));
}

#[test]
fn exactness_tests_refuse_amounts_near_the_limit() {
    let huge = Dec::from_i128_with_scale(79_228_162_514_264_337_593_543_950_335, 0);
    let bt = BalanceTracker::new(huge, Dec::new(1, 0));
    assert!(!bt.reserve_is_exact(&Dec::new(-1, 0), &Dec::new(1, 0)));
    assert!(!bt.reserved_total_is_exact());
    assert!(!bt.sweep_is_exact(NOW));
}

#[test]
fn release_after_reserve_restores_and_second_release_is_noop() {
    let mut bt = BalanceTracker::new(Dec::new(1000, 0), Dec::new(500, 0));
    let mut t = bt.reserve(Dec::new(100, 0), Dec::new(50, 0), NOW).unwrap();
    bt.release(&mut t);
    assert_eq!(bt.available(), (Dec::new(1000, 0), Dec::new(500, 0)));
    bt.release(&mut t);
    assert_eq!(bt.available(), (Dec::new(1000, 0), Dec::new(500, 0)));
    assert_eq!(bt.active_reservation_count(), 0);
}

#[test]
fn commit_after_reserve_charges_fill_against_prior_balance() {
    let mut bt = BalanceTracker::new(Dec::from_int(1_000_000), Dec::from_int(500));
    let mut token = bt.reserve(Dec::from_int(100_000), Dec::from_int(50), NOW).unwrap();
    bt.commit(&mut token, Dec::from_int(120_000), Dec::from_int(45));
    let (upbit, bybit) = bt.available();
    assert_eq!(upbit, Dec::from_int(880_000));
    assert_eq!(bybit, Dec::from_int(455));
    assert_eq!(bt.reserved_total(), (Dec::zero(), Dec::zero()));
    assert_eq!(bt.active_reservation_count(), 0);
    bt.release_on_drop(token);
    assert_eq!(bt.available(), (Dec::from_int(880_000), Dec::from_int(455)));
}

#[test]
fn release_twice_then_drop_returns_once() {
    let mut bt = BalanceTracker::new(Dec::from_int(1_000_000), Dec::from_int(500));
    let mut token = bt.reserve(Dec::from_int(100_000), Dec::from_int(50), NOW).unwrap();
    bt.release(&mut token);
    bt.release(&mut token);
    bt.release_on_drop(token);
    assert_eq!(bt.available(), (Dec::from_int(1_000_000), Dec::from_int(500)));
    assert_eq!(bt.reserved_total(), (Dec::zero(), Dec::zero()));
}

#[test]
fn sweep_after_expiry_hands_back_only_old_reservations() {
    let mut bt = BalanceTracker::new(Dec::from_int(1_000_000), Dec::from_int(500));
    let _old = bt.reserve(Dec::from_int(100_000), Dec::from_int(50), NOW).unwrap();
    let _young = bt.reserve(Dec::from_int(200_000), Dec::from_int(20), NOW + 300_000).unwrap();
    let swept = bt.sweep_expired_reservations(NOW + 360_001);
    assert_eq!(swept, 1);
    assert_eq!(bt.available(), (Dec::from_int(800_000), Dec::from_int(480)));
    assert_eq!(bt.reserved_total(), (Dec::from_int(200_000), Dec::from_int(20)));
    assert_eq!(bt.active_reservation_count(), 1);
}

#[test]
fn available_plus_reserved_is_conserved() {
    let mut bt = BalanceTracker::new(Dec::from_int(1_000_000), Dec::from_int(500));
    let mut a = bt.reserve(Dec::from_int(300_000), Dec::from_int(100), NOW).unwrap();
    let b = bt.reserve(Dec::from_int(200_000), Dec::from_int(150), NOW).unwrap();
    assert!(bt.reserve(Dec::from_int(600_000), Dec::from_int(10), NOW).is_none());
    bt.release(&mut a);
    let _c = bt.reserve(Dec::from_int(50_000), Dec::from_int(5), NOW).unwrap();
    bt.release_on_drop(b);
    let (ua, ba) = bt.available();
    let (ru, rb) = bt.reserved_total();
    assert_eq!(ua.add(&ru), Dec::from_int(1_000_000));
    assert_eq!(ba.add(&rb), Dec::from_int(500));
    assert_eq!(ru, Dec::from_int(50_000));
}
