//! The commands of the installer, as plain values.
use vstd::prelude::*;

verus! {

/// How an install or update runs.
#[derive(Clone, Copy, Debug)]
pub struct InstallOpts {
    /// How many chunk downloads may run at once.
    pub max_download_workers: usize,
    /// How many bytes of chunks may wait in memory.
    pub max_memory_usage: usize,
    /// Report sizes instead of installing.
    pub info: bool,
    /// Write chunks without checking their hashes.
    pub skip_verify: bool,
}

/// One command of the installer.
#[derive(Debug)]
pub enum Commands {
    Login { email: String, password: Option<String> },
    Logout,
    Library,
    Install {
        slug: String,
        version: Option<String>,
        base_path: Option<String>,
        path: Option<String>,
        os: Option<crate::product::BuildOs>,
        install_opts: InstallOpts,
    },
    Uninstall { slug: String, keep: bool },
    ListUpdates,
    Update { slug: String, version: Option<String>, install_opts: InstallOpts },
    Launch {
        slug: String,
        wine_prefix: Option<String>,
        wine_bin: Option<String>,
        no_wine: bool,
        wrapper: Option<String>,
    },
    Info { slug: String },
    Verify { slug: String },
}

/// A parsed command line.
#[derive(Debug)]
pub struct Cli {
    pub command: Commands,
}

impl Cli {
    /// Whether the library must be synced before the command runs: for
    /// every command but login, logout, uninstall and verify.
    pub fn needs_sync(&self) -> (r: bool)
        ensures
            r == !(self.command is Login || self.command is Logout || self.command is Uninstall
                || self.command is Verify),
    {
        match &self.command {
            Commands::Login { .. } | Commands::Logout | Commands::Uninstall { .. } | Commands::Verify {
                ..
            } => false,
            _ => true,
        }
    }
}

} // verus!
