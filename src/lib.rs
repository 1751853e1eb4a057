//! Counts the packages upgraded today in a package-manager transaction log,
//! telling real version upgrades apart from rebuilds of the same version.
use vstd::prelude::*;

pub mod filter;
pub mod package;
pub mod stats;
pub mod summary;
pub mod text;
pub mod version;

verus! {

/// The ways in which the log's text can fail to have the expected shape.
#[derive(Debug, Clone, Copy, PartialEq, Eq, Structural)]
pub enum ParseError {
    /// A version token holds no dash.
    InvalidVersion,
    /// What follows a version's first dash is not an unsigned 32-bit number.
    InvalidRelease,
    /// An upgrade line does not name a package and its two versions.
    InvalidLine,
    /// An upgrade line holds no bracketed timestamp.
    MissingTimestamp,
    /// An upgrade line's timestamp cannot be read as a date and time.
    InvalidTimestamp,
}

} // verus!
