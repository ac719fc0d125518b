//! The boot-time service's configuration: the packages to keep as system
//! apps and as privileged system apps. Reading it from TOML is left to the
//! program around the library, which hands the parsed groups in.

use vstd::prelude::*;
use crate::package_set::PackageSet;

verus! {

/// The packages of each group.
pub struct App {
    /// Packages kept under `/system/app`.
    pub system_app: PackageSet,
    /// Packages kept under `/system/priv-app`.
    pub priv_app: PackageSet,
}

impl App {
    /// Both groups are well-formed sets.
    pub open spec fn wf(&self) -> bool {
        self.system_app.wf() && self.priv_app.wf()
    }
}

/// The boot-time service's configuration.
pub struct Config {
    app: App,
}

impl Config {
    /// The system-app group.
    pub closed spec fn system_apps(&self) -> Set<Seq<char>> {
        self.app.system_app@
    }

    /// The priv-app group.
    pub closed spec fn priv_apps(&self) -> Set<Seq<char>> {
        self.app.priv_app@
    }

    /// The configuration is well formed.
    pub closed spec fn wf(&self) -> bool {
        self.app.wf()
    }

    /// A configuration with both groups empty, as it is before a file is
    /// loaded and as it is written when none exists.
    pub fn new() -> (c: Self)
        ensures
            c.wf(),
            c.system_apps() == Set::<Seq<char>>::empty(),
            c.priv_apps() == Set::<Seq<char>>::empty(),
    {
        Config { app: App { system_app: PackageSet::new(), priv_app: PackageSet::new() } }
    }

    /// A configuration with the given groups, as a file records them.
    pub fn from_app(app: App) -> (c: Self)
        requires
            app.wf(),
        ensures
            c.wf(),
            c.system_apps() == app.system_app@,
            c.priv_apps() == app.priv_app@,
    {
        Config { app }
    }

    /// Takes the groups of a configuration that was loaded from the file.
    pub fn apply_loaded(&mut self, loaded: Config)
        requires
            loaded.wf(),
        ensures
            final(self).wf(),
            final(self).system_apps() == loaded.system_apps(),
            final(self).priv_apps() == loaded.priv_apps(),
    {
        self.app = loaded.app;
    }

    /// A copy of the groups.
    pub fn get(&self) -> (r: App)
        requires
            self.wf(),
        ensures
            r.wf(),
            r.system_app@ == self.system_apps(),
            r.priv_app@ == self.priv_apps(),
    {
        App { system_app: self.app.system_app.clone(), priv_app: self.app.priv_app.clone() }
    }
}

} // verus!
