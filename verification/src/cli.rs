//! The command-line surface's plain argument types.

use vstd::prelude::*;

verus! {

/// The parcel-control-number argument shared by the per-parcel commands:
/// dashed or bare (`12-34-56-78-90-123-4567` or `12345678901234567`).
#[derive(Debug)]
pub struct PcnArg {
    pub pcn: String,
}

/// `auth` subcommands.
#[derive(Debug)]
pub enum AuthCmd {
    /// Report credential state. This tool needs none.
    Status,
}

/// `config` subcommands.
#[derive(Debug)]
pub enum ConfigCmd {
    /// Print the resolved config file path.
    Path,
    /// Show the effective configuration.
    Show,
    /// Set a config key.
    SetKey { key: String, value: String },
    /// Remove a config key.
    Unset { key: String },
}

} // verus!
