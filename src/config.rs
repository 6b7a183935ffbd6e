use vstd::prelude::*;

verus! {

/// The directories to sample.
pub struct SizeConfig {
    pub dirs: Vec<String>,
}

/// The configuration read once at startup.
pub struct Config {
    pub size: SizeConfig,
    /// Value of the `instance` label on every gauge.
    pub instance: String,
    /// Port on which the metrics endpoint listens.
    pub port: u16,
}

/// Name of the exported gauge.
pub const DIRECTORY_SIZE_METRIC: &'static str = "server_directory_size";

/// Help text of the exported gauge.
pub const DIRECTORY_SIZE_HELP: &'static str = "Directory size in bytes";

/// Name of the label that holds the directory path.
pub const DIRECTORY_LABEL: &'static str = "directory";

/// Name of the label that holds the instance name.
pub const INSTANCE_LABEL: &'static str = "instance";

/// Path under which the metrics are served.
pub const METRICS_PATH: &'static str = "/metrics";

/// Seconds between two sampling cycles.
pub const SAMPLE_INTERVAL_SECS: u64 = 10;

} // verus!
