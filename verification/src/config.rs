//! Strategy settings: the defaults of the optional settings and the
//! validation rules.
//!
//! The validation rules are checked in a fixed order and the first one that
//! fails is reported.  Settings that are floating point numbers are compared
//! by the caller; `ValidationInput` carries the outcome of each such
//! comparison, and everything else as it is.

use vstd::prelude::*;

use crate::decimal::{unit, Dec};

verus! {

/// Default Bybit contract category.
pub fn default_bybit_category() -> (r: String)
    ensures
        r@ == "linear"@,
{
    "linear".to_string()
}

/// Default wait for an order to fill, in seconds.
pub fn default_order_timeout_sec() -> (r: u64)
    ensures
        r == 5,
{
    5
}

/// Default number of order retries.
pub fn default_max_retry_count() -> (r: u32)
    ensures
        r == 2,
{
    2
}

/// Default order type.
pub fn default_order_type() -> (r: String)
    ensures
        r@ == "limit_ioc"@,
{
    "limit_ioc".to_string()
}

/// Default of the switches that are on unless set.
pub fn default_true() -> (r: bool)
    ensures
        r,
{
    true
}

/// Default window of the high-water mark, in days.
pub fn default_hwm_window_days() -> (r: u32)
    ensures
        r == 7,
{
    7
}

/// Default largest age of a cached exchange rate, in minutes.
pub fn default_max_forex_age_min() -> (r: u64)
    ensures
        r == 10,
{
    10
}

/// Default wait after a sharp exchange-rate move, in minutes.
pub fn default_forex_stabilization_minutes() -> (r: u64)
    ensures
        r == 5,
{
    5
}

/// Default block on entries before a funding settlement, in minutes.
pub fn default_funding_block_before_min() -> (r: u64)
    ensures
        r == 60,
{
    60
}

/// Default block on entries after a funding settlement, in minutes.
pub fn default_funding_block_after_min() -> (r: u64)
    ensures
        r == 15,
{
    15
}

/// Default forced close of major coins before funding, in minutes.
pub fn default_funding_force_close_minutes_major() -> (r: u64)
    ensures
        r == 15,
{
    15
}

/// Default forced close of other coins before funding, in minutes.
pub fn default_funding_force_close_minutes_alt() -> (r: u64)
    ensures
        r == 30,
{
    30
}

/// Default list of major coins.
pub fn default_funding_major_coins() -> (r: Vec<String>)
    ensures
        r@.len() == 2,
        r@[0]@ == "BTC"@,
        r@[1]@ == "ETH"@,
{
    let mut v: Vec<String> = Vec::new();
    v.push("BTC".to_string());
    v.push("ETH".to_string());
    v
}

/// Default largest stay in pending exchange recovery, in hours.
pub fn default_pending_recovery_timeout_hours() -> (r: u64)
    ensures
        r == 2,
{
    2
}

/// Default shutdown policy.
pub fn default_shutdown_policy() -> (r: String)
    ensures
        r@ == "keep"@,
{
    "keep".to_string()
}

/// The order types that the executor knows.
pub open spec fn valid_order_type(s: Seq<char>) -> bool {
    s == "limit_ioc"@ || s == "limit_gtc_cancel"@ || s == "market"@
}

/// The shutdown policies that the monitor knows.
pub open spec fn valid_shutdown_policy(s: Seq<char>) -> bool {
    s == "keep"@ || s == "close_all"@ || s == "close_if_profitable"@
}

/// Whether `s` is one of the known order types.
pub fn is_valid_order_type(s: &String) -> (r: bool)
    ensures
        r == valid_order_type(s@),
{
    *s == "limit_ioc".to_string() || *s == "limit_gtc_cancel".to_string() || *s
        == "market".to_string()
}

/// Whether `s` is one of the known shutdown policies.
pub fn is_valid_shutdown_policy(s: &String) -> (r: bool)
    ensures
        r == valid_shutdown_policy(s@),
{
    *s == "keep".to_string() || *s == "close_all".to_string() || *s
        == "close_if_profitable".to_string()
}

/// A broken validation rule.
#[derive(Clone, Debug, PartialEq, Eq)]
pub enum ConfigError {
    CoinsEmpty,
    MaxCoinsZero,
    WindowSizeZero,
    EntryZNotPositive,
    ExitZNegative,
    EntryNotAboveExit,
    MaxPositionRatioOutOfRange,
    MinStddevNotPositive,
    MaxSpreadStddevNegative,
    MinExpectedRoiNegative,
    MinPositionNegative,
    GracePeriodZero,
    OrderTimeoutZero,
    InvalidOrderType(String),
    MaxSlippageNegative,
    PostExecGateNegative,
    EmergencySlippageEmpty,
    EmergencyFallbackNotPositive,
    MaxDustNegative,
    MaxDailyLossPctNotPositive,
    MaxDrawdownPctNotPositive,
    MaxSingleLossPctNotPositive,
    MaxDailyLossUsdtNotPositive,
    MaxDrawdownUsdtNotPositive,
    MaxSingleLossUsdtNotPositive,
    MaxOrderSizeNotPositive,
    MaxRolling24hLossNotPositive,
    HwmWindowZero,
    MaxUnrealizedLossNotPositive,
    ForexAgeZero,
    ForexAlertNotPositive,
    FundingBlockBeforeZero,
    FundingExcludeNotAboveAlert,
    InvalidShutdownPolicy(String),
}

/// The message of each broken rule, as the settings loader reports it.
pub open spec fn config_error_message(e: ConfigError) -> Seq<char> {
    match e {
        ConfigError::CoinsEmpty => "coins must not be empty"@,
        ConfigError::MaxCoinsZero => "max_coins must be greater than 0 when auto_select is enabled"@,
        ConfigError::WindowSizeZero => "window_size must be greater than 0"@,
        ConfigError::EntryZNotPositive => "entry_z_threshold must be positive"@,
        ConfigError::ExitZNegative => "exit_z_threshold must be non-negative"@,
        ConfigError::EntryNotAboveExit => "entry_z_threshold must be greater than exit_z_threshold"@,
        ConfigError::MaxPositionRatioOutOfRange => "max_position_ratio must be in (0, 1.0]"@,
        ConfigError::MinStddevNotPositive => "min_stddev_threshold must be positive"@,
        ConfigError::MaxSpreadStddevNegative => "max_spread_stddev must be non-negative"@,
        ConfigError::MinExpectedRoiNegative => "min_expected_roi must be non-negative"@,
        ConfigError::MinPositionNegative => "min_position_usdt must be non-negative"@,
        ConfigError::GracePeriodZero => "grace_period_hours must be greater than 0"@,
        ConfigError::OrderTimeoutZero => "order_timeout_sec must be greater than 0"@,
        ConfigError::MaxSlippageNegative => "max_slippage_pct must be non-negative"@,
        ConfigError::PostExecGateNegative => "post_exec_pnl_gate_ratio must be non-negative"@,
        ConfigError::EmergencySlippageEmpty => "emergency_wide_ioc_slippage_pct must not be empty"@,
        ConfigError::EmergencyFallbackNotPositive => "emergency_price_fallback_margin_pct must be positive"@,
        ConfigError::MaxDustNegative => "max_dust_usdt must be non-negative"@,
        ConfigError::MaxDailyLossPctNotPositive => "max_daily_loss_pct must be positive"@,
        ConfigError::MaxDrawdownPctNotPositive => "max_drawdown_pct must be positive"@,
        ConfigError::MaxSingleLossPctNotPositive => "max_single_loss_pct must be positive"@,
        ConfigError::MaxDailyLossUsdtNotPositive => "max_daily_loss_usdt must be positive"@,
        ConfigError::MaxDrawdownUsdtNotPositive => "max_drawdown_usdt must be positive"@,
        ConfigError::MaxSingleLossUsdtNotPositive => "max_single_loss_usdt must be positive"@,
        ConfigError::MaxOrderSizeNotPositive => "max_order_size_usdt must be positive"@,
        ConfigError::MaxRolling24hLossNotPositive => "max_rolling_24h_loss_usdt must be positive"@,
        ConfigError::HwmWindowZero => "hwm_window_days must be greater than 0"@,
        ConfigError::MaxUnrealizedLossNotPositive => "max_unrealized_loss_pct must be positive"@,
        ConfigError::ForexAgeZero => "max_forex_age_min must be greater than 0"@,
        ConfigError::ForexAlertNotPositive => "forex_change_alert_pct must be positive"@,
        ConfigError::FundingBlockBeforeZero => "funding_block_before_min must be greater than 0"@,
        ConfigError::FundingExcludeNotAboveAlert => "funding_exclude_ratio must be greater than funding_alert_ratio"@,
        ConfigError::InvalidOrderType(got) => "order_type must be one of [\"limit_ioc\", \"limit_gtc_cancel\", \"market\"], got: "@ + got@,
        ConfigError::InvalidShutdownPolicy(got) => "shutdown_policy must be one of [\"keep\", \"close_all\", \"close_if_profitable\"], got: "@ + got@,
    }
}

impl ConfigError {
    /// The message of the broken rule.
    pub fn message(&self) -> (r: String)
        ensures
            r@ == config_error_message(*self),
    {
        match self {
            ConfigError::CoinsEmpty => "coins must not be empty".to_string(),
            ConfigError::MaxCoinsZero => "max_coins must be greater than 0 when auto_select is enabled".to_string(),
            ConfigError::WindowSizeZero => "window_size must be greater than 0".to_string(),
            ConfigError::EntryZNotPositive => "entry_z_threshold must be positive".to_string(),
            ConfigError::ExitZNegative => "exit_z_threshold must be non-negative".to_string(),
            ConfigError::EntryNotAboveExit => "entry_z_threshold must be greater than exit_z_threshold".to_string(),
            ConfigError::MaxPositionRatioOutOfRange => "max_position_ratio must be in (0, 1.0]".to_string(),
            ConfigError::MinStddevNotPositive => "min_stddev_threshold must be positive".to_string(),
            ConfigError::MaxSpreadStddevNegative => "max_spread_stddev must be non-negative".to_string(),
            ConfigError::MinExpectedRoiNegative => "min_expected_roi must be non-negative".to_string(),
            ConfigError::MinPositionNegative => "min_position_usdt must be non-negative".to_string(),
            ConfigError::GracePeriodZero => "grace_period_hours must be greater than 0".to_string(),
            ConfigError::OrderTimeoutZero => "order_timeout_sec must be greater than 0".to_string(),
            ConfigError::MaxSlippageNegative => "max_slippage_pct must be non-negative".to_string(),
            ConfigError::PostExecGateNegative => "post_exec_pnl_gate_ratio must be non-negative".to_string(),
            ConfigError::EmergencySlippageEmpty => "emergency_wide_ioc_slippage_pct must not be empty".to_string(),
            ConfigError::EmergencyFallbackNotPositive => "emergency_price_fallback_margin_pct must be positive".to_string(),
            ConfigError::MaxDustNegative => "max_dust_usdt must be non-negative".to_string(),
            ConfigError::MaxDailyLossPctNotPositive => "max_daily_loss_pct must be positive".to_string(),
            ConfigError::MaxDrawdownPctNotPositive => "max_drawdown_pct must be positive".to_string(),
            ConfigError::MaxSingleLossPctNotPositive => "max_single_loss_pct must be positive".to_string(),
            ConfigError::MaxDailyLossUsdtNotPositive => "max_daily_loss_usdt must be positive".to_string(),
            ConfigError::MaxDrawdownUsdtNotPositive => "max_drawdown_usdt must be positive".to_string(),
            ConfigError::MaxSingleLossUsdtNotPositive => "max_single_loss_usdt must be positive".to_string(),
            ConfigError::MaxOrderSizeNotPositive => "max_order_size_usdt must be positive".to_string(),
            ConfigError::MaxRolling24hLossNotPositive => "max_rolling_24h_loss_usdt must be positive".to_string(),
            ConfigError::HwmWindowZero => "hwm_window_days must be greater than 0".to_string(),
            ConfigError::MaxUnrealizedLossNotPositive => "max_unrealized_loss_pct must be positive".to_string(),
            ConfigError::ForexAgeZero => "max_forex_age_min must be greater than 0".to_string(),
            ConfigError::ForexAlertNotPositive => "forex_change_alert_pct must be positive".to_string(),
            ConfigError::FundingBlockBeforeZero => "funding_block_before_min must be greater than 0".to_string(),
            ConfigError::FundingExcludeNotAboveAlert => "funding_exclude_ratio must be greater than funding_alert_ratio".to_string(),
            ConfigError::InvalidOrderType(got) => {
                let mut m = "order_type must be one of [\"limit_ioc\", \"limit_gtc_cancel\", \"market\"], got: ".to_string();
                m.append(got.as_str());
                m
            },
            ConfigError::InvalidShutdownPolicy(got) => {
                let mut m = "shutdown_policy must be one of [\"keep\", \"close_all\", \"close_if_profitable\"], got: ".to_string();
                m.append(got.as_str());
                m
            },
        }
    }
}

/// What validation reads of the settings.  The `*_le_zero`, `*_lt_zero`
/// and similar flags are the comparisons of floating point settings, as
/// their names say (for example `entry_z_le_zero` is
/// `entry_z_threshold <= 0.0`).
#[derive(Clone, Debug)]
pub struct ValidationInput {
    pub coin_count: usize,
    pub auto_select: bool,
    pub max_coins: usize,
    pub window_size: usize,
    pub entry_z_le_zero: bool,
    pub exit_z_lt_zero: bool,
    pub entry_z_le_exit_z: bool,
    pub max_position_ratio: Dec,
    pub min_stddev_le_zero: bool,
    pub max_spread_stddev_lt_zero: bool,
    pub min_expected_roi_lt_zero: bool,
    pub min_position_usdt: Dec,
    pub grace_period_hours: u64,
    pub order_timeout_sec: u64,
    pub order_type: String,
    pub max_slippage_lt_zero: bool,
    pub post_exec_gate_lt_zero: bool,
    pub emergency_slippage_steps: usize,
    pub emergency_fallback_le_zero: bool,
    pub max_dust_lt_zero: bool,
    pub max_daily_loss_pct_le_zero: bool,
    pub max_drawdown_pct_le_zero: bool,
    pub max_single_loss_pct_le_zero: bool,
    pub max_daily_loss_usdt_le_zero: bool,
    pub max_drawdown_usdt_le_zero: bool,
    pub max_single_loss_usdt_le_zero: bool,
    pub max_order_size_le_zero: bool,
    pub max_rolling_24h_loss_le_zero: bool,
    pub hwm_window_days: u32,
    pub max_unrealized_loss_le_zero: bool,
    pub max_forex_age_min: u64,
    pub forex_change_alert_le_zero: bool,
    pub funding_block_before_min: u64,
    pub funding_exclude_le_alert: bool,
    pub shutdown_policy: String,
}

/// The first broken rule, in the order in which the rules are checked.
pub open spec fn first_config_error(c: ValidationInput) -> Option<ConfigError> {
    if !c.auto_select && c.coin_count == 0 {
        Some(ConfigError::CoinsEmpty)
    } else if c.auto_select && c.max_coins == 0 {
        Some(ConfigError::MaxCoinsZero)
    } else if c.window_size == 0 {
        Some(ConfigError::WindowSizeZero)
    } else if c.entry_z_le_zero {
        Some(ConfigError::EntryZNotPositive)
    } else if c.exit_z_lt_zero {
        Some(ConfigError::ExitZNegative)
    } else if c.entry_z_le_exit_z {
        Some(ConfigError::EntryNotAboveExit)
    } else if c.max_position_ratio.val() <= 0 || c.max_position_ratio.val() > unit(0) {
        Some(ConfigError::MaxPositionRatioOutOfRange)
    } else if c.min_stddev_le_zero {
        Some(ConfigError::MinStddevNotPositive)
    } else if c.max_spread_stddev_lt_zero {
        Some(ConfigError::MaxSpreadStddevNegative)
    } else if c.min_expected_roi_lt_zero {
        Some(ConfigError::MinExpectedRoiNegative)
    } else if c.min_position_usdt.val() < 0 {
        Some(ConfigError::MinPositionNegative)
    } else if c.grace_period_hours == 0 {
        Some(ConfigError::GracePeriodZero)
    } else if c.order_timeout_sec == 0 {
        Some(ConfigError::OrderTimeoutZero)
    } else if !valid_order_type(c.order_type@) {
        Some(ConfigError::InvalidOrderType(c.order_type))
    } else if c.max_slippage_lt_zero {
        Some(ConfigError::MaxSlippageNegative)
    } else if c.post_exec_gate_lt_zero {
        Some(ConfigError::PostExecGateNegative)
    } else if c.emergency_slippage_steps == 0 {
        Some(ConfigError::EmergencySlippageEmpty)
    } else if c.emergency_fallback_le_zero {
        Some(ConfigError::EmergencyFallbackNotPositive)
    } else if c.max_dust_lt_zero {
        Some(ConfigError::MaxDustNegative)
    } else if c.max_daily_loss_pct_le_zero {
        Some(ConfigError::MaxDailyLossPctNotPositive)
    } else if c.max_drawdown_pct_le_zero {
        Some(ConfigError::MaxDrawdownPctNotPositive)
    } else if c.max_single_loss_pct_le_zero {
        Some(ConfigError::MaxSingleLossPctNotPositive)
    } else if c.max_daily_loss_usdt_le_zero {
        Some(ConfigError::MaxDailyLossUsdtNotPositive)
    } else if c.max_drawdown_usdt_le_zero {
        Some(ConfigError::MaxDrawdownUsdtNotPositive)
    } else if c.max_single_loss_usdt_le_zero {
        Some(ConfigError::MaxSingleLossUsdtNotPositive)
    } else if c.max_order_size_le_zero {
        Some(ConfigError::MaxOrderSizeNotPositive)
    } else if c.max_rolling_24h_loss_le_zero {
        Some(ConfigError::MaxRolling24hLossNotPositive)
    } else if c.hwm_window_days == 0 {
        Some(ConfigError::HwmWindowZero)
    } else if c.max_unrealized_loss_le_zero {
        Some(ConfigError::MaxUnrealizedLossNotPositive)
    } else if c.max_forex_age_min == 0 {
        Some(ConfigError::ForexAgeZero)
    } else if c.forex_change_alert_le_zero {
        Some(ConfigError::ForexAlertNotPositive)
    } else if c.funding_block_before_min == 0 {
        Some(ConfigError::FundingBlockBeforeZero)
    } else if c.funding_exclude_le_alert {
        Some(ConfigError::FundingExcludeNotAboveAlert)
    } else if !valid_shutdown_policy(c.shutdown_policy@) {
        Some(ConfigError::InvalidShutdownPolicy(c.shutdown_policy))
    } else {
        None
    }
}

/// Every rule of the settings holds.
pub open spec fn all_rules_hold(c: ValidationInput) -> bool {
    &&& c.auto_select || c.coin_count > 0
    &&& !c.auto_select || c.max_coins > 0
    &&& c.window_size > 0
    &&& !c.entry_z_le_zero
    &&& !c.exit_z_lt_zero
    &&& !c.entry_z_le_exit_z
    &&& 0 < c.max_position_ratio.val() <= unit(0)
    &&& !c.min_stddev_le_zero
    &&& !c.max_spread_stddev_lt_zero
    &&& !c.min_expected_roi_lt_zero
    &&& c.min_position_usdt.val() >= 0
    &&& c.grace_period_hours > 0
    &&& c.order_timeout_sec > 0
    &&& valid_order_type(c.order_type@)
    &&& !c.max_slippage_lt_zero
    &&& !c.post_exec_gate_lt_zero
    &&& c.emergency_slippage_steps > 0
    &&& !c.emergency_fallback_le_zero
    &&& !c.max_dust_lt_zero
    &&& !c.max_daily_loss_pct_le_zero
    &&& !c.max_drawdown_pct_le_zero
    &&& !c.max_single_loss_pct_le_zero
    &&& !c.max_daily_loss_usdt_le_zero
    &&& !c.max_drawdown_usdt_le_zero
    &&& !c.max_single_loss_usdt_le_zero
    &&& !c.max_order_size_le_zero
    &&& !c.max_rolling_24h_loss_le_zero
    &&& c.hwm_window_days > 0
    &&& !c.max_unrealized_loss_le_zero
    &&& c.max_forex_age_min > 0
    &&& !c.forex_change_alert_le_zero
    &&& c.funding_block_before_min > 0
    &&& !c.funding_exclude_le_alert
    &&& valid_shutdown_policy(c.shutdown_policy@)
}

/// The rule that error `e` reports is broken in `c`.
pub open spec fn reports_broken_rule(c: ValidationInput, e: ConfigError) -> bool {
    match e {
        ConfigError::CoinsEmpty => !c.auto_select && c.coin_count == 0,
        ConfigError::MaxCoinsZero => c.auto_select && c.max_coins == 0,
        ConfigError::WindowSizeZero => c.window_size == 0,
        ConfigError::EntryZNotPositive => c.entry_z_le_zero,
        ConfigError::ExitZNegative => c.exit_z_lt_zero,
        ConfigError::EntryNotAboveExit => c.entry_z_le_exit_z,
        ConfigError::MaxPositionRatioOutOfRange => !(0 < c.max_position_ratio.val() <= unit(0)),
        ConfigError::MinStddevNotPositive => c.min_stddev_le_zero,
        ConfigError::MaxSpreadStddevNegative => c.max_spread_stddev_lt_zero,
        ConfigError::MinExpectedRoiNegative => c.min_expected_roi_lt_zero,
        ConfigError::MinPositionNegative => c.min_position_usdt.val() < 0,
        ConfigError::GracePeriodZero => c.grace_period_hours == 0,
        ConfigError::OrderTimeoutZero => c.order_timeout_sec == 0,
        ConfigError::InvalidOrderType(t) => t == c.order_type && !valid_order_type(c.order_type@),
        ConfigError::MaxSlippageNegative => c.max_slippage_lt_zero,
        ConfigError::PostExecGateNegative => c.post_exec_gate_lt_zero,
        ConfigError::EmergencySlippageEmpty => c.emergency_slippage_steps == 0,
        ConfigError::EmergencyFallbackNotPositive => c.emergency_fallback_le_zero,
        ConfigError::MaxDustNegative => c.max_dust_lt_zero,
        ConfigError::MaxDailyLossPctNotPositive => c.max_daily_loss_pct_le_zero,
        ConfigError::MaxDrawdownPctNotPositive => c.max_drawdown_pct_le_zero,
        ConfigError::MaxSingleLossPctNotPositive => c.max_single_loss_pct_le_zero,
        ConfigError::MaxDailyLossUsdtNotPositive => c.max_daily_loss_usdt_le_zero,
        ConfigError::MaxDrawdownUsdtNotPositive => c.max_drawdown_usdt_le_zero,
        ConfigError::MaxSingleLossUsdtNotPositive => c.max_single_loss_usdt_le_zero,
        ConfigError::MaxOrderSizeNotPositive => c.max_order_size_le_zero,
        ConfigError::MaxRolling24hLossNotPositive => c.max_rolling_24h_loss_le_zero,
        ConfigError::HwmWindowZero => c.hwm_window_days == 0,
        ConfigError::MaxUnrealizedLossNotPositive => c.max_unrealized_loss_le_zero,
        ConfigError::ForexAgeZero => c.max_forex_age_min == 0,
        ConfigError::ForexAlertNotPositive => c.forex_change_alert_le_zero,
        ConfigError::FundingBlockBeforeZero => c.funding_block_before_min == 0,
        ConfigError::FundingExcludeNotAboveAlert => c.funding_exclude_le_alert,
        ConfigError::InvalidShutdownPolicy(p) => p == c.shutdown_policy && !valid_shutdown_policy(
            c.shutdown_policy@,
        ),
    }
}

/// Validation accepts exactly the settings that keep every rule, and the
/// error it gives names a rule that is broken; so settings that break one
/// rule only are refused with that rule's error.
pub proof fn law_validation_accepts_exactly_valid(c: ValidationInput)
    ensures
        first_config_error(c) is None <==> all_rules_hold(c),
        first_config_error(c) matches Some(e) ==> reports_broken_rule(c, e),
        c.exit_z_lt_zero ==> first_config_error(c) is Some,
{
}

impl ValidationInput {
    /// Checks the rules in order; the first broken one is the error.
    pub fn validate(&self) -> (r: Result<(), ConfigError>)
        ensures
            r is Ok <==> first_config_error(*self) is None,
            r is Err ==> first_config_error(*self) == Some(r->Err_0),
    {
        if !self.auto_select && self.coin_count == 0 {
            return Err(ConfigError::CoinsEmpty);
        }
        if self.auto_select && self.max_coins == 0 {
            return Err(ConfigError::MaxCoinsZero);
        }
        if self.window_size == 0 {
            return Err(ConfigError::WindowSizeZero);
        }
        if self.entry_z_le_zero {
            return Err(ConfigError::EntryZNotPositive);
        }
        if self.exit_z_lt_zero {
            return Err(ConfigError::ExitZNegative);
        }
        if self.entry_z_le_exit_z {
            return Err(ConfigError::EntryNotAboveExit);
        }
        let zero = Dec::zero();
        let one = Dec::one();
        if self.max_position_ratio.le(&zero) || self.max_position_ratio.gt(&one) {
            return Err(ConfigError::MaxPositionRatioOutOfRange);
        }
        if self.min_stddev_le_zero {
            return Err(ConfigError::MinStddevNotPositive);
        }
        if self.max_spread_stddev_lt_zero {
            return Err(ConfigError::MaxSpreadStddevNegative);
        }
        if self.min_expected_roi_lt_zero {
            return Err(ConfigError::MinExpectedRoiNegative);
        }
        if self.min_position_usdt.lt(&zero) {
            return Err(ConfigError::MinPositionNegative);
        }
        if self.grace_period_hours == 0 {
            return Err(ConfigError::GracePeriodZero);
        }
        if self.order_timeout_sec == 0 {
            return Err(ConfigError::OrderTimeoutZero);
        }
        if !is_valid_order_type(&self.order_type) {
            return Err(ConfigError::InvalidOrderType(self.order_type.clone()));
        }
        if self.max_slippage_lt_zero {
            return Err(ConfigError::MaxSlippageNegative);
        }
        if self.post_exec_gate_lt_zero {
            return Err(ConfigError::PostExecGateNegative);
        }
        if self.emergency_slippage_steps == 0 {
            return Err(ConfigError::EmergencySlippageEmpty);
        }
        if self.emergency_fallback_le_zero {
            return Err(ConfigError::EmergencyFallbackNotPositive);
        }
        if self.max_dust_lt_zero {
            return Err(ConfigError::MaxDustNegative);
        }
        if self.max_daily_loss_pct_le_zero {
            return Err(ConfigError::MaxDailyLossPctNotPositive);
        }
        if self.max_drawdown_pct_le_zero {
            return Err(ConfigError::MaxDrawdownPctNotPositive);
        }
        if self.max_single_loss_pct_le_zero {
            return Err(ConfigError::MaxSingleLossPctNotPositive);
        }
        if self.max_daily_loss_usdt_le_zero {
            return Err(ConfigError::MaxDailyLossUsdtNotPositive);
        }
        if self.max_drawdown_usdt_le_zero {
            return Err(ConfigError::MaxDrawdownUsdtNotPositive);
        }
        if self.max_single_loss_usdt_le_zero {
            return Err(ConfigError::MaxSingleLossUsdtNotPositive);
        }
        if self.max_order_size_le_zero {
            return Err(ConfigError::MaxOrderSizeNotPositive);
        }
        if self.max_rolling_24h_loss_le_zero {
            return Err(ConfigError::MaxRolling24hLossNotPositive);
        }
        if self.hwm_window_days == 0 {
            return Err(ConfigError::HwmWindowZero);
        }
        if self.max_unrealized_loss_le_zero {
            return Err(ConfigError::MaxUnrealizedLossNotPositive);
        }
        if self.max_forex_age_min == 0 {
            return Err(ConfigError::ForexAgeZero);
        }
        if self.forex_change_alert_le_zero {
            return Err(ConfigError::ForexAlertNotPositive);
        }
        if self.funding_block_before_min == 0 {
            return Err(ConfigError::FundingBlockBeforeZero);
        }
        if self.funding_exclude_le_alert {
            return Err(ConfigError::FundingExcludeNotAboveAlert);
        }
        if !is_valid_shutdown_policy(&self.shutdown_policy) {
            return Err(ConfigError::InvalidShutdownPolicy(self.shutdown_policy.clone()));
        }
        Ok(())
    }
}

/// The selection and timing settings as a settings file may give them,
/// each one optional.
pub struct OptionalSelectionSettings {
    pub auto_select: Option<bool>,
    pub max_coins: Option<usize>,
    pub reselect_interval_min: Option<u64>,
    pub blacklist: Option<Vec<String>>,
    pub position_ttl_hours: Option<u64>,
    pub grace_period_hours: Option<u64>,
    pub entry_cooldown_sec: Option<u64>,
    pub max_cache_age_sec: Option<u64>,
}

/// The selection and timing settings with every missing one defaulted.
pub struct SelectionSettings {
    pub auto_select: bool,
    pub max_coins: usize,
    pub reselect_interval_min: u64,
    pub blacklist: Vec<String>,
    pub position_ttl_hours: u64,
    pub grace_period_hours: u64,
    pub entry_cooldown_sec: u64,
    pub max_cache_age_sec: u64,
}

/// `o`'s value, or `d` when missing.
pub open spec fn or_default<T>(o: Option<T>, d: T) -> T {
    match o {
        Some(v) => v,
        None => d,
    }
}

/// Fills the missing settings with their defaults: automatic selection
/// off, 5 coins, reselection every 10 minutes, no blacklist, a 24 hour
/// position TTL with a 4 hour grace period, a 10 second entry cooldown and
/// quotes at most 5 seconds old.
pub fn resolve_selection_settings(raw: OptionalSelectionSettings) -> (r: SelectionSettings)
    ensures
        r.auto_select == or_default(raw.auto_select, false),
        r.max_coins == or_default(raw.max_coins, 5),
        r.reselect_interval_min == or_default(raw.reselect_interval_min, 10),
        raw.blacklist matches Some(b) ==> r.blacklist@ == b@,
        raw.blacklist is None ==> r.blacklist@.len() == 0,
        r.position_ttl_hours == or_default(raw.position_ttl_hours, 24),
        r.grace_period_hours == or_default(raw.grace_period_hours, 4),
        r.entry_cooldown_sec == or_default(raw.entry_cooldown_sec, 10),
        r.max_cache_age_sec == or_default(raw.max_cache_age_sec, 5),
{
    SelectionSettings {
        auto_select: match raw.auto_select {
            Some(v) => v,
            None => false,
        },
        max_coins: match raw.max_coins {
            Some(v) => v,
            None => 5,
        },
        reselect_interval_min: match raw.reselect_interval_min {
            Some(v) => v,
            None => 10,
        },
        blacklist: match raw.blacklist {
            Some(v) => v,
            None => Vec::new(),
        },
        position_ttl_hours: match raw.position_ttl_hours {
            Some(v) => v,
            None => 24,
        },
        grace_period_hours: match raw.grace_period_hours {
            Some(v) => v,
            None => 4,
        },
        entry_cooldown_sec: match raw.entry_cooldown_sec {
            Some(v) => v,
            None => 10,
        },
        max_cache_age_sec: match raw.max_cache_age_sec {
            Some(v) => v,
            None => 5,
        },
    }
}

} // verus!
