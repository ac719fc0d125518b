//! The manager's configuration: the packages kept as system apps and as
//! privileged system apps. Reading and writing it as TOML is left to the
//! program around the library.

use vstd::prelude::*;
use crate::package_set::PackageSet;

verus! {

/// The packages of each group.
pub struct App {
    /// Packages kept under `/system/app`.
    pub system_app: PackageSet,
    /// Packages kept under `/system/priv-app`.
    pub priv_app: PackageSet,
}

impl App {
    /// Both groups are well-formed sets.
    pub open spec fn wf(&self) -> bool {
        self.system_app.wf() && self.priv_app.wf()
    }

    /// No package is in both groups.
    pub open spec fn groups_disjoint(&self) -> bool {
        self.system_app@.disjoint(self.priv_app@)
    }
}

/// The manager's configuration.
pub struct Config {
    /// The packages of each group.
    pub app: App,
}

impl Default for Config {
    /// The configuration with both groups empty, used when no file exists.
    fn default() -> (c: Self)
        ensures
            c.app.wf(),
            c.app.system_app@ == Set::<Seq<char>>::empty(),
            c.app.priv_app@ == Set::<Seq<char>>::empty(),
    {
        Config { app: App { system_app: PackageSet::new(), priv_app: PackageSet::new() } }
    }
}

} // verus!
