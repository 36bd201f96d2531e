//! The kinds of operational alerts, with their severity and type name.

use vstd::prelude::*;

verus! {

/// The kind of an alert event.
#[derive(Debug, Clone, Copy, PartialEq, Eq, Structural)]
pub enum AlertKind {
    EntryExecuted,
    ExitExecuted,
    KillSwitchTriggered,
    KillSwitchComplete,
    LegFailure,
    EmergencyCloseFailure,
    ReconciliationMismatch,
    ConnectionLost,
    BalanceInsufficient,
    DbConnectionLost,
    FundingBlockEntry,
    Error,
    DailySummary,
}

/// Severity of an alert kind.
pub open spec fn kind_level(k: AlertKind) -> Seq<char> {
    match k {
        AlertKind::EntryExecuted | AlertKind::ExitExecuted | AlertKind::DailySummary => "info"@,
        AlertKind::ConnectionLost
        | AlertKind::BalanceInsufficient
        | AlertKind::DbConnectionLost
        | AlertKind::FundingBlockEntry
        | AlertKind::ReconciliationMismatch
        | AlertKind::Error => "warn"@,
        AlertKind::KillSwitchTriggered
        | AlertKind::KillSwitchComplete
        | AlertKind::LegFailure
        | AlertKind::EmergencyCloseFailure => "critical"@,
    }
}

/// Type name of an alert kind.
pub open spec fn kind_event_type(k: AlertKind) -> Seq<char> {
    match k {
        AlertKind::EntryExecuted => "entry_executed"@,
        AlertKind::ExitExecuted => "exit_executed"@,
        AlertKind::KillSwitchTriggered => "kill_switch_triggered"@,
        AlertKind::KillSwitchComplete => "kill_switch_complete"@,
        AlertKind::LegFailure => "leg_failure"@,
        AlertKind::EmergencyCloseFailure => "emergency_close_failure"@,
        AlertKind::ReconciliationMismatch => "reconciliation_mismatch"@,
        AlertKind::ConnectionLost => "connection_lost"@,
        AlertKind::BalanceInsufficient => "balance_insufficient"@,
        AlertKind::DbConnectionLost => "db_connection_lost"@,
        AlertKind::FundingBlockEntry => "funding_block_entry"@,
        AlertKind::Error => "error"@,
        AlertKind::DailySummary => "daily_summary"@,
    }
}

impl AlertKind {
    /// Severity: `info`, `warn` or `critical`.
    pub fn level(&self) -> (r: String)
        ensures
            r@ == kind_level(*self),
    {
        match self {
            AlertKind::EntryExecuted | AlertKind::ExitExecuted | AlertKind::DailySummary => {
                "info".to_string()
            },
            AlertKind::ConnectionLost
            | AlertKind::BalanceInsufficient
            | AlertKind::DbConnectionLost
            | AlertKind::FundingBlockEntry
            | AlertKind::ReconciliationMismatch
            | AlertKind::Error => "warn".to_string(),
            AlertKind::KillSwitchTriggered
            | AlertKind::KillSwitchComplete
            | AlertKind::LegFailure
            | AlertKind::EmergencyCloseFailure => "critical".to_string(),
        }
    }

    /// Whether the severity is `critical`.
    pub fn is_critical(&self) -> (r: bool)
        ensures
            r == (kind_level(*self) == "critical"@),
    {
        let l = self.level();
        l == "critical".to_string()
    }

    /// Type name, as stored with the alert.
    pub fn event_type(&self) -> (r: String)
        ensures
            r@ == kind_event_type(*self),
    {
        match self {
            AlertKind::EntryExecuted => "entry_executed".to_string(),
            AlertKind::ExitExecuted => "exit_executed".to_string(),
            AlertKind::KillSwitchTriggered => "kill_switch_triggered".to_string(),
            AlertKind::KillSwitchComplete => "kill_switch_complete".to_string(),
            AlertKind::LegFailure => "leg_failure".to_string(),
            AlertKind::EmergencyCloseFailure => "emergency_close_failure".to_string(),
            AlertKind::ReconciliationMismatch => "reconciliation_mismatch".to_string(),
            AlertKind::ConnectionLost => "connection_lost".to_string(),
            AlertKind::BalanceInsufficient => "balance_insufficient".to_string(),
            AlertKind::DbConnectionLost => "db_connection_lost".to_string(),
            AlertKind::FundingBlockEntry => "funding_block_entry".to_string(),
            AlertKind::Error => "error".to_string(),
            AlertKind::DailySummary => "daily_summary".to_string(),
        }
    }
}

/// The critical alerts are exactly the kill switch, leg failure and
/// failed emergency close events; every other kind is sent through the
/// ordinary queue.
pub proof fn law_critical_kinds(k: AlertKind)
    ensures
        (kind_level(k) == "critical"@) <==> (k == AlertKind::KillSwitchTriggered || k
            == AlertKind::KillSwitchComplete || k == AlertKind::LegFailure || k
            == AlertKind::EmergencyCloseFailure),
{
    reveal_strlit("critical");
    reveal_strlit("info");
    reveal_strlit("warn");
    assert("info"@.len() != "critical"@.len());
    assert("warn"@.len() != "critical"@.len());
}

} // verus!
