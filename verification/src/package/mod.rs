//! Packages, and the ways to find out whether one is installed.

use vstd::prelude::*;

pub mod macos;
mod package;

pub use self::package::{Package, PackageView};

verus! {

/// A way to find out whether a package is installed on this host.
pub trait Detect {
    /// What can go wrong with this way of looking.
    type Error;

    /// Determines whether `pkg` is installed. An `Err` says that the question
    /// could not be answered; it is handed to the caller as it is.
    fn detect(&self, pkg: &Package) -> Result<bool, Self::Error>;
}

} // verus!
