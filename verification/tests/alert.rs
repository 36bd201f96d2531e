use arb_strategy::alert::AlertKind;

#[test]
fn alert_kind_levels() {
    assert_eq!(AlertKind::EntryExecuted.level(), "info");
    assert_eq!(AlertKind::ExitExecuted.level(), "info");
    assert_eq!(AlertKind::DailySummary.level(), "info");
    assert_eq!(AlertKind::ConnectionLost.level(), "warn");
    assert_eq!(AlertKind::BalanceInsufficient.level(), "warn");
    assert_eq!(AlertKind::DbConnectionLost.level(), "warn");
    assert_eq!(AlertKind::FundingBlockEntry.level(), "warn");
    assert_eq!(AlertKind::ReconciliationMismatch.level(), "warn");
    assert_eq!(AlertKind::Error.level(), "warn");
    assert_eq!(AlertKind::KillSwitchTriggered.level(), "critical");
    assert_eq!(AlertKind::KillSwitchComplete.level(), "critical");
    assert_eq!(AlertKind::LegFailure.level(), "critical");
    assert_eq!(AlertKind::EmergencyCloseFailure.level(), "critical");
}

#[test]
fn alert_kind_is_critical() {
    assert!(AlertKind::KillSwitchTriggered.is_critical());
    assert!(AlertKind::LegFailure.is_critical());
    assert!(!AlertKind::EntryExecuted.is_critical());
    assert!(!AlertKind::Error.is_critical());
}

#[test]
fn alert_kind_event_types() {
    assert_eq!(AlertKind::EntryExecuted.event_type(), "entry_executed");
    assert_eq!(AlertKind::ExitExecuted.event_type(), "exit_executed");
    assert_eq!(AlertKind::KillSwitchTriggered.event_type(), "kill_switch_triggered");
    assert_eq!(AlertKind::KillSwitchComplete.event_type(), "kill_switch_complete");
    assert_eq!(AlertKind::LegFailure.event_type(), "leg_failure");
    assert_eq!(AlertKind::EmergencyCloseFailure.event_type(), "emergency_close_failure");
    assert_eq!(AlertKind::ReconciliationMismatch.event_type(), "reconciliation_mismatch");
    assert_eq!(AlertKind::ConnectionLost.event_type(), "connection_lost");
    assert_eq!(AlertKind::BalanceInsufficient.event_type(), "balance_insufficient");
    assert_eq!(AlertKind::DbConnectionLost.event_type(), "db_connection_lost");
    assert_eq!(AlertKind::FundingBlockEntry.event_type(), "funding_block_entry");
    assert_eq!(AlertKind::Error.event_type(), "error");
    assert_eq!(AlertKind::DailySummary.event_type(), "daily_summary");
}
