//! How the manager learns which user apps are installed for the system
//! user: from `pm list packages -3 --user 0`, or, when that fails, from the
//! package metadata (`packages.xml` filtered by `package-restrictions.xml`).

use vstd::prelude::*;
use crate::manager::{filter_installed_for_system_user, installed_for_user_spec, parse_pm_list_output, pm_list_names_spec};
use crate::package_set::{PackageMap, PackageSet};
use crate::pm::PmOutput;
use crate::text::{string_of, trim_spec, trim_str};

verus! {

/// Why the installed user apps could not be listed.
#[derive(Debug, Clone, PartialEq, Eq)]
pub enum InstalledAppsError {
    /// `pm list packages` failed; its error output, trimmed.
    PmListFailed(String),
    /// `packages.xml` names user apps, and no package restrictions could be
    /// found to tell which are installed for the system user.
    NoRestrictions,
    /// Neither `pm` nor the package metadata could list the apps.
    ListFailed {
        /// Why `pm` failed.
        pm: String,
        /// Why the package metadata failed.
        fallback: String,
    },
}

impl InstalledAppsError {
    /// A sentence that describes the error.
    pub fn message(&self) -> (r: String)
        ensures
            self matches InstalledAppsError::PmListFailed(e) ==> r@ == "`pm list packages -3 --user 0` failed: "@
                + e@,
            self is NoRestrictions ==> r@ == "No readable package-restrictions metadata was found for system user 0"@,
            self matches InstalledAppsError::ListFailed { pm, fallback } ==> r@
                == "Failed to list installed user apps for system user 0 via `pm list packages -3 --user 0` and package metadata fallback: "@
                + pm@ + ": "@ + fallback@,
    {
        match self {
            InstalledAppsError::PmListFailed(e) => {
                let mut text = "`pm list packages -3 --user 0` failed: ".to_string();
                text.append(e.as_str());
                text
            },
            InstalledAppsError::NoRestrictions => {
                "No readable package-restrictions metadata was found for system user 0".to_string()
            },
            InstalledAppsError::ListFailed { pm, fallback } => {
                let mut text =
                    "Failed to list installed user apps for system user 0 via `pm list packages -3 --user 0` and package metadata fallback: ".to_string();
                text.append(pm.as_str());
                text.append(": ");
                text.append(fallback.as_str());
                text
            },
        }
    }
}

/// The user apps that `pm list packages -3 --user 0` lists, or why it
/// failed.
pub fn list_installed_user_apps_from_pm(output: &PmOutput) -> (r: Result<PackageSet, InstalledAppsError>)
    ensures
        output.success ==> (r matches Ok(s) && s.wf() && s@ == pm_list_names_spec(output.stdout@)),
        !output.success ==> (r matches Err(InstalledAppsError::PmListFailed(e)) && e@ == trim_spec(
            output.stderr@,
        )),
{
    if !output.success {
        let trimmed = trim_str(output.stderr.as_str());
        return Err(InstalledAppsError::PmListFailed(string_of(trimmed.as_slice())));
    }
    Ok(parse_pm_list_output(output.stdout.as_str()))
}

/// The user apps installed for the system user, by the package metadata:
/// the user apps that `packages.xml` knows, filtered by the system user's
/// package restrictions. With no user apps known the restrictions are not
/// needed; without restrictions the known apps cannot be filtered.
pub fn list_installed_user_apps_from_packages_xml(
    known: PackageSet,
    restrictions: Option<PackageMap<bool>>,
) -> (r: Result<PackageSet, InstalledAppsError>)
    requires
        known.wf(),
        restrictions matches Some(m) ==> m.wf(),
    ensures
        known@.is_empty() ==> (r matches Ok(s) && s.wf() && s@ == known@),
        !known@.is_empty() && restrictions is None ==> r matches Err(InstalledAppsError::NoRestrictions),
        !known@.is_empty() && restrictions is Some ==> (r matches Ok(s) && s.wf() && s@ == known@.filter(
            |p: Seq<char>| installed_for_user_spec(restrictions->0@, p),
        )),
{
    if known.is_empty() {
        return Ok(known);
    }
    match restrictions {
        None => Err(InstalledAppsError::NoRestrictions),
        Some(states) => Ok(filter_installed_for_system_user(known, &states)),
    }
}

/// The user apps installed for the system user: what `pm` listed; when
/// `pm` failed, what the package metadata gives, asked only then; when that
/// fails too, an error with both reasons.
pub fn list_installed_user_apps<F: FnOnce() -> Result<PackageSet, String>>(
    from_pm: Result<PackageSet, String>,
    from_metadata: F,
) -> (r: Result<PackageSet, InstalledAppsError>)
    requires
        from_pm is Err ==> call_requires(from_metadata, ()),
    ensures
        from_pm matches Ok(s) ==> (r matches Ok(x) && x == s),
        from_pm matches Err(pm) ==> exists|m: Result<PackageSet, String>|
            call_ensures(from_metadata, (), m) && match m {
                Ok(s) => r matches Ok(x) && x == s,
                Err(f) => r matches Err(InstalledAppsError::ListFailed { pm: p, fallback: b }) && p@
                    == pm@ && b@ == f@,
            },
{
    match from_pm {
        Ok(packages) => Ok(packages),
        Err(pm) => match from_metadata() {
            Ok(packages) => Ok(packages),
            Err(fallback) => Err(InstalledAppsError::ListFailed { pm, fallback }),
        },
    }
}

} // verus!
