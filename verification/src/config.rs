//! Configuration values and their defaults.
use vstd::prelude::*;
use core::time::Duration;

use crate::process::duration_nanos;

verus! {

/// `[general]` settings.
#[derive(Debug, Clone)]
pub struct GeneralConfig {
    pub refresh_interval: u64,
    pub default_signal: String,
    pub graceful_timeout: u64,
    pub confirm_before_kill: bool,
}

impl Default for GeneralConfig {
    fn default() -> (r: Self)
        ensures
            r.refresh_interval == 1,
            r.default_signal@ == "SIGTERM"@,
            r.graceful_timeout == 10,
            r.confirm_before_kill,
    {
        GeneralConfig {
            refresh_interval: 1,
            default_signal: String::from_str("SIGTERM"),
            graceful_timeout: 10,
            confirm_before_kill: true,
        }
    }
}

/// `[display]` settings.
#[derive(Debug, Clone)]
pub struct DisplayConfig {
    pub show_tree: bool,
    pub color_theme: String,
    pub mask_env_values: bool,
}

impl Default for DisplayConfig {
    fn default() -> (r: Self)
        ensures
            r.show_tree,
            r.color_theme@ == "auto"@,
            r.mask_env_values,
    {
        DisplayConfig { show_tree: true, color_theme: String::from_str("auto"), mask_env_values: true }
    }
}

/// `[filter]` settings: opt-in runtimes.
#[derive(Debug, Clone, Copy, PartialEq, Eq, Structural)]
pub struct FilterConfig {
    pub include_bun: bool,
    pub include_tsx: bool,
    pub include_ts_node: bool,
}

impl Default for FilterConfig {
    fn default() -> (r: Self)
        ensures
            !r.include_bun,
            !r.include_tsx,
            !r.include_ts_node,
    {
        FilterConfig { include_bun: false, include_tsx: false, include_ts_node: false }
    }
}

/// The whole configuration.
#[derive(Debug, Clone)]
pub struct Config {
    pub general: GeneralConfig,
    pub display: DisplayConfig,
    pub filter: FilterConfig,
}

impl Default for Config {
    fn default() -> (r: Self)
        ensures
            r.general.refresh_interval == 1,
            r.general.default_signal@ == "SIGTERM"@,
            r.general.graceful_timeout == 10,
            r.general.confirm_before_kill,
            r.display.show_tree,
            r.display.color_theme@ == "auto"@,
            r.display.mask_env_values,
            !r.filter.include_bun,
            !r.filter.include_tsx,
            !r.filter.include_ts_node,
    {
        Config {
            general: GeneralConfig::default(),
            display: DisplayConfig::default(),
            filter: FilterConfig::default(),
        }
    }
}

impl Config {
    /// Returns `refresh_interval` as a `Duration`.
    pub fn refresh_duration(&self) -> (d: Duration)
        ensures
            duration_nanos(d) == self.general.refresh_interval as int * 1_000_000_000,
    {
        Duration::from_secs(self.general.refresh_interval)
    }

    /// Returns `graceful_timeout` as a `Duration`.
    pub fn graceful_duration(&self) -> (d: Duration)
        ensures
            duration_nanos(d) == self.general.graceful_timeout as int * 1_000_000_000,
    {
        Duration::from_secs(self.general.graceful_timeout)
    }
}

} // verus!
