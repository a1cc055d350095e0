//! The commands that the stower understands, as the command line gives them.
use vstd::prelude::*;

verus! {

/// The parsed command line.
pub struct Cli {
    pub command: Command,
}

/// One command of the stower.
#[allow(inconsistent_fields)]
pub enum Command {
    /// Show packages status, alias for `sync -d`.
    Status {
        /// Name of package(s) to display; omit to display all in the current system.
        packages: Option<Vec<String>>,
    },
    /// Sync packages in source with system.
    Sync {
        /// Name (or glob) of package(s) to sync; omit to sync all that are on the system.
        packages: Option<Vec<String>>,
        /// Only check for differences; no file changes on the system.
        diff: bool,
        /// Override the current file on the system when conflicts happen.
        force: bool,
    },
    /// Stow files into a package.
    Stow {
        /// Name of the package to stow into.
        package: String,
        /// File(s) to stow; a directory stands for every file in it.
        paths: Vec<String>,
    },
    /// Remove selected packages.
    Remove {
        /// Name of the package to remove.
        packages: Option<String>,
        /// File(s) to remove; none removes the whole package.
        files: Option<Vec<String>>,
        /// Remove all packages.
        all: bool,
        /// Remove everything, including the files on the system.
        purge: bool,
    },
    /// List the packages that are in the source.
    List {
        /// Name of the package to list in detail; omit to list all by name.
        package: Option<String>,
        /// List all the files of the packages.
        full: bool,
    },
}

} // verus!
