//! Staging-and-archive assembly for themed lockscreen packages.
//!
//! The library models filesystem paths and file contents as byte vectors,
//! computes the staging layout and the exact sequence of filesystem actions
//! an archive build needs, patches the package metadata, and generates the
//! version number that names the packaged artifact.  Performing the actions
//! (copying, renaming, invoking the external archiver) is left to a thin
//! unverified shell around the library.

pub mod archivefiles;
pub mod cli;
pub mod names;
pub mod paths;
pub mod pipeline;
pub mod run;
pub mod utils;
pub mod zip_command;

use vstd::prelude::*;

verus! {

/// Byte value of the path separator used throughout the path model.
pub open spec fn sep() -> u8 {
    47u8
}

} // verus!
