//! The daemon's configuration, with its defaults.

use vstd::prelude::*;

verus! {

/// Settings of the coverage runs.
#[derive(Debug, Clone)]
pub struct CoverageConfig {
    pub enabled: bool,
    pub timeout_secs: u64,
    pub extra_args: Vec<String>,
}

/// Settings of the mutation runs.
#[derive(Debug, Clone)]
pub struct MutationConfig {
    pub enabled: bool,
    pub timeout_secs: u64,
    pub extra_args: Vec<String>,
    pub filter_uncovered: bool,
}

/// Settings of the background daemon.
#[derive(Debug, Clone)]
pub struct DaemonConfig {
    pub debounce_ms: u64,
    pub full_sweep_interval_secs: u64,
    pub socket_path: Option<String>,
}

/// Settings of the report.
#[derive(Debug, Clone)]
pub struct OutputConfig {
    pub level: String,
    pub show_diff_hunks: bool,
}

/// All settings.
#[derive(Debug, Clone)]
pub struct Config {
    pub coverage: CoverageConfig,
    pub mutation: MutationConfig,
    pub daemon: DaemonConfig,
    pub output: OutputConfig,
}

/// A switch that is on unless configured off.
pub fn default_true() -> (r: bool)
    ensures
        r,
{
    true
}

/// Coverage runs time out after five minutes.
pub fn default_coverage_timeout() -> (r: u64)
    ensures
        r == 300,
{
    300
}

/// Mutation runs time out after ten minutes.
pub fn default_mutation_timeout() -> (r: u64)
    ensures
        r == 600,
{
    600
}

/// File changes are gathered for half a second before a run.
pub fn default_debounce_ms() -> (r: u64)
    ensures
        r == 500,
{
    500
}

/// A full sweep runs every five minutes.
pub fn default_full_sweep_interval() -> (r: u64)
    ensures
        r == 300,
{
    300
}

/// Findings are reported from level `warning` up.
pub fn default_level() -> (r: String)
    ensures
        r@ == "warning"@,
{
    String::from_str("warning")
}

impl CoverageConfig {
    pub open spec fn is_default(&self) -> bool {
        self.enabled && self.timeout_secs == 300 && self.extra_args@.len() == 0
    }
}

impl MutationConfig {
    pub open spec fn is_default(&self) -> bool {
        self.enabled && self.timeout_secs == 600 && self.extra_args@.len() == 0 && self.filter_uncovered
    }
}

impl DaemonConfig {
    pub open spec fn is_default(&self) -> bool {
        self.debounce_ms == 500 && self.full_sweep_interval_secs == 300 && self.socket_path is None
    }
}

impl OutputConfig {
    pub open spec fn is_default(&self) -> bool {
        self.level@ == "warning"@ && self.show_diff_hunks
    }
}

impl Config {
    pub open spec fn is_default(&self) -> bool {
        self.coverage.is_default() && self.mutation.is_default() && self.daemon.is_default()
            && self.output.is_default()
    }
}

impl Default for CoverageConfig {
    fn default() -> (r: Self)
        ensures
            r.is_default(),
    {
        CoverageConfig { enabled: default_true(), timeout_secs: default_coverage_timeout(), extra_args: Vec::new() }
    }
}

impl Default for MutationConfig {
    fn default() -> (r: Self)
        ensures
            r.is_default(),
    {
        MutationConfig {
            enabled: default_true(),
            timeout_secs: default_mutation_timeout(),
            extra_args: Vec::new(),
            filter_uncovered: default_true(),
        }
    }
}

impl Default for DaemonConfig {
    fn default() -> (r: Self)
        ensures
            r.is_default(),
    {
        DaemonConfig {
            debounce_ms: default_debounce_ms(),
            full_sweep_interval_secs: default_full_sweep_interval(),
            socket_path: None,
        }
    }
}

impl Default for OutputConfig {
    fn default() -> (r: Self)
        ensures
            r.is_default(),
    {
        OutputConfig { level: default_level(), show_diff_hunks: default_true() }
    }
}

impl Default for Config {
    fn default() -> (r: Self)
        ensures
            r.is_default(),
    {
        Config {
            coverage: CoverageConfig::default(),
            mutation: MutationConfig::default(),
            daemon: DaemonConfig::default(),
            output: OutputConfig::default(),
        }
    }
}

/// The configuration that applies, given what `ctl.toml` and the `[package.metadata.ctl]` table
/// of `Cargo.toml` hold (`None` where the file is missing or does not parse): `ctl.toml` wins,
/// then `Cargo.toml`, then the defaults.
pub fn load(ctl_toml: Option<Config>, cargo_toml: Option<Config>) -> (r: Config)
    ensures
        match ctl_toml {
            Some(c) => r == c,
            None => match cargo_toml {
                Some(c) => r == c,
                None => r.is_default(),
            },
        },
{
    match (ctl_toml, cargo_toml) {
        (Some(c), _) => c,
        (None, Some(c)) => c,
        (None, None) => Config::default(),
    }
}

} // verus!
