//! The kinds of system that the commands tell apart.

use vstd::prelude::*;

verus! {

/// The kind of system a command runs on.
#[derive(Clone, Copy, Debug, PartialEq, Eq, Structural)]
pub enum Platform {
    /// A single file tree under `/`; applications are bundles.
    MacOs,
    /// A single file tree under `/`.
    Linux,
    /// Drive letters; applications are shortcuts.
    Windows,
    /// Anything else.
    Unknown,
}

} // verus!
