//! Whether a package is available to the system user, as Android's package
//! restrictions record it.

use vstd::prelude::*;

verus! {

/// The install state of a package for the system user.
#[derive(Debug, Clone, Copy, PartialEq, Eq, Structural)]
pub struct SystemUserPackageState {
    /// The package is installed for the user.
    pub installed: bool,
    /// The package is hidden from the user.
    pub hidden: bool,
}

impl Default for SystemUserPackageState {
    /// A package with no recorded restriction: installed and not hidden.
    fn default() -> (r: Self)
        ensures
            r.installed,
            !r.hidden,
    {
        SystemUserPackageState { installed: true, hidden: false }
    }
}

impl SystemUserPackageState {
    /// Whether the package can be used: installed and not hidden, as
    /// Android's `PackageUserState.isAvailable` says.
    pub fn is_available(self) -> (r: bool)
        ensures
            r == (self.installed && !self.hidden),
    {
        self.installed && !self.hidden
    }
}

} // verus!
