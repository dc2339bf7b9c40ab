//! The command line of the basic form.

use vstd::prelude::*;

verus! {

/// The command-line options.
pub struct Cli {
    /// Use the provided config file instead of the default.
    pub config: Option<String>,
    /// Configure the log level.
    pub log_level: Option<String>,
    /// Enable dry-run mode, i.e. no files are being moved.
    pub dry_run: Option<bool>,
}

} // verus!
