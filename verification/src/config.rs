//! Settings: where Prometheus and Loki are, what the metric list shows, and
//! where logs go. Every section and field has a default.

use vstd::prelude::*;

verus! {

/// All settings.
#[derive(Clone, Debug)]
pub struct Config {
    pub prometheus: PrometheusConfig,
    pub loki: LokiConfig,
    pub display: DisplayConfig,
    pub logging: LoggingConfig,
}

/// Where Prometheus is; without a base URL the built-in sample metrics are shown.
#[derive(Clone, Debug)]
pub struct PrometheusConfig {
    pub base_url: Option<String>,
}

/// Where Loki is and which labels name hosts and logs.
#[derive(Clone, Debug)]
pub struct LokiConfig {
    pub base_url: Option<String>,
    pub host_label: String,
    pub log_label: String,
    pub poll_secs: u64,
    pub lookback_secs: u64,
}

/// What the metric list shows.
#[derive(Clone, Debug)]
pub struct DisplayConfig {
    pub max_metrics: Option<usize>,
    pub initial_metric: Option<String>,
    pub refresh_secs: Option<u64>,
}

/// Where log output goes and how much of it.
#[derive(Clone, Debug)]
pub struct LoggingConfig {
    pub path: String,
    pub level: String,
}

/// The default log file.
pub fn default_log_path() -> (s: String)
    ensures
        s@ == "cranberry.log"@,
{
    String::from_str("cranberry.log")
}

/// The default log level.
pub fn default_log_level() -> (s: String)
    ensures
        s@ == "info"@,
{
    String::from_str("info")
}

/// The default label that names a host in Loki.
pub fn default_loki_host_label() -> (s: String)
    ensures
        s@ == "host"@,
{
    String::from_str("host")
}

/// The default Loki address.
pub fn default_loki_base_url() -> (s: Option<String>)
    ensures
        s matches Some(u) && u@ == "http://127.0.0.1:3100"@,
{
    Some(String::from_str("http://127.0.0.1:3100"))
}

/// The default label that names a log in Loki.
pub fn default_loki_log_label() -> (s: String)
    ensures
        s@ == "job"@,
{
    String::from_str("job")
}

/// The default interval between log polls, in seconds.
pub fn default_loki_poll_secs() -> (n: u64)
    ensures
        n == 1,
{
    1
}

/// The default look-back window of a first log query, in seconds.
pub fn default_loki_lookback_secs() -> (n: u64)
    ensures
        n == 300,
{
    300
}

impl Default for PrometheusConfig {
    fn default() -> (c: Self)
        ensures
            c.base_url is None,
    {
        PrometheusConfig { base_url: None }
    }
}

impl Default for LokiConfig {
    fn default() -> (c: Self)
        ensures
            c.base_url matches Some(u) && u@ == "http://127.0.0.1:3100"@,
            c.host_label@ == "host"@,
            c.log_label@ == "job"@,
            c.poll_secs == 1,
            c.lookback_secs == 300,
    {
        LokiConfig {
            base_url: default_loki_base_url(),
            host_label: default_loki_host_label(),
            log_label: default_loki_log_label(),
            poll_secs: default_loki_poll_secs(),
            lookback_secs: default_loki_lookback_secs(),
        }
    }
}

impl Default for DisplayConfig {
    fn default() -> (c: Self)
        ensures
            c.max_metrics is None,
            c.initial_metric is None,
            c.refresh_secs is None,
    {
        DisplayConfig { max_metrics: None, initial_metric: None, refresh_secs: None }
    }
}

impl Default for LoggingConfig {
    fn default() -> (c: Self)
        ensures
            c.path@ == "cranberry.log"@,
            c.level@ == "info"@,
    {
        LoggingConfig { path: default_log_path(), level: default_log_level() }
    }
}

impl Default for Config {
    fn default() -> (c: Self)
        ensures
            c.prometheus.base_url is None,
            c.loki.base_url matches Some(u) && u@ == "http://127.0.0.1:3100"@,
            c.loki.host_label@ == "host"@,
            c.loki.log_label@ == "job"@,
            c.loki.poll_secs == 1,
            c.loki.lookback_secs == 300,
            c.display.max_metrics is None,
            c.display.initial_metric is None,
            c.display.refresh_secs is None,
            c.logging.path@ == "cranberry.log"@,
            c.logging.level@ == "info"@,
    {
        Config {
            prometheus: PrometheusConfig::default(),
            loki: LokiConfig::default(),
            display: DisplayConfig::default(),
            logging: LoggingConfig::default(),
        }
    }
}

} // verus!
