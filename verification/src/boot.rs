//! The decisions of the boot-time service: whether a package is installed
//! for the system user, where its data lives, which staged package
//! directories are stale, and how the overlays over `/system/app` and
//! `/system/priv-app` are mounted.
//!
//! The service reads files and runs `pm` itself; these functions take what
//! it read and decide what comes next.

use vstd::prelude::*;
use crate::install_path::{path_parent, path_parent_of};
use crate::manager::string_views;
use crate::package_set::{PackageMap, PackageSet};
use crate::package_state::SystemUserPackageState;
use crate::pm::{PmOutput, missing_package_spec, parse_pm_path_output, pm_path_failure_indicates_missing_package, pm_path_output_spec};
use crate::text::{
    chars_eq,
    chars_of,
    opt_view,
    split_chars,
    split_spec,
    split_words,
    string_of,
    trim_spec,
    trim_str,
    words_spec,
};

verus! {

/// Why the boot-time service could not resolve a package.
#[derive(Debug, Clone, PartialEq, Eq)]
pub enum BootError {
    /// `pm path` failed, and not because the package is missing.
    PmPathFailed {
        /// The package asked for.
        package: String,
        /// Its error output, trimmed, or a note that there was none.
        detail: String,
    },
    /// The package restrictions could not be read, and the `pm path`
    /// probe that stands in for them failed too.
    InstallCheckFailed {
        /// Why the restrictions could not be read.
        restrictions: String,
        /// Why the probe failed.
        probe: String,
    },
    /// The APK path that `pm path` printed has no parent directory.
    ApkWithoutParent {
        /// The package asked for.
        package: String,
    },
}

/// What a failed `pm path` is reported with: its trimmed error output, or
/// `no error output`.
pub open spec fn pm_failure_detail_spec(stderr: Seq<char>) -> Seq<char> {
    if trim_spec(stderr).len() == 0 {
        "no error output"@
    } else {
        trim_spec(stderr)
    }
}

impl BootError {
    /// A sentence that describes the error.
    pub fn message(&self) -> (r: String)
        ensures
            self matches BootError::PmPathFailed { package, detail } ==> r@ == "`pm path --user 0 "@
                + package@ + "` failed: "@ + detail@,
            self matches BootError::InstallCheckFailed { restrictions, probe } ==> r@
                == "Fallback `pm path --user 0` probe also failed: "@ + probe@ + ": "@ + restrictions@,
            self matches BootError::ApkWithoutParent { package } ==> r@ == "package "@ + package@
                + " apk path has no parent"@,
    {
        match self {
            BootError::PmPathFailed { package, detail } => {
                let mut text = "`pm path --user 0 ".to_string();
                text.append(package.as_str());
                text.append("` failed: ");
                text.append(detail.as_str());
                text
            },
            BootError::InstallCheckFailed { restrictions, probe } => {
                let mut text = "Fallback `pm path --user 0` probe also failed: ".to_string();
                text.append(probe.as_str());
                text.append(": ");
                text.append(restrictions.as_str());
                text
            },
            BootError::ApkWithoutParent { package } => {
                let mut text = "package ".to_string();
                text.append(package.as_str());
                text.append(" apk path has no parent");
                text
            },
        }
    }
}

/// Whether `pm path --user 0 <package>` shows the package to the system
/// user: when it succeeds, whether it printed an APK path; when it fails
/// because the package is missing, no; else an error.
pub fn check_package_visible_to_system_user_with_pm(package: &str, output: &PmOutput) -> (r: Result<
    bool,
    BootError,
>)
    ensures
        output.success ==> (r matches Ok(v) && v == (pm_path_output_spec(output.stdout@).len() > 0)),
        !output.success && missing_package_spec(output.stdout@, output.stderr@) ==> (r matches Ok(v)
            && !v),
        !output.success && !missing_package_spec(output.stdout@, output.stderr@) ==> (r matches Err(
            BootError::PmPathFailed { package: p, detail: d },
        ) && p@ == package@ && d@ == pm_failure_detail_spec(output.stderr@)),
{
    if output.success {
        let paths = parse_pm_path_output(output.stdout.as_str());
        return Ok(paths.len() > 0);
    }
    if pm_path_failure_indicates_missing_package(output.stdout.as_str(), output.stderr.as_str()) {
        return Ok(false);
    }
    let trimmed = trim_str(output.stderr.as_str());
    let detail = if trimmed.len() == 0 {
        "no error output".to_string()
    } else {
        string_of(trimmed.as_slice())
    };
    Err(BootError::PmPathFailed { package: package.to_string(), detail })
}

/// Whether the system user's package restrictions make `package` available:
/// its recorded state, or installed and not hidden when none is recorded.
pub open spec fn available_spec(states: Map<Seq<char>, SystemUserPackageState>, package: Seq<char>) -> bool {
    if states.contains_key(package) {
        states[package].installed && !states[package].hidden
    } else {
        true
    }
}

/// Whether the system user's package restrictions make `package` available.
pub fn package_available_for_system_user(
    states: &PackageMap<SystemUserPackageState>,
    package: &str,
) -> (r: bool)
    requires
        states.wf(),
    ensures
        r == available_spec(states@, package@),
{
    let state = match states.get(package) {
        Some(s) => s,
        None => SystemUserPackageState::default(),
    };
    state.is_available()
}

/// What reading the system user's package restrictions gave.
pub enum RestrictionsOutcome {
    /// The states that the first readable file records.
    States(PackageMap<SystemUserPackageState>),
    /// No restrictions file exists.
    Absent,
    /// Files exist, and none could be read; the last reason.
    Failed(String),
}

/// The first step of the install check: the answer of the restrictions
/// when they were read, `None` when `pm path` must be asked.
pub fn is_installed_from_restrictions(outcome: &RestrictionsOutcome, package: &str) -> (r: Option<bool>)
    requires
        outcome matches RestrictionsOutcome::States(s) ==> s.wf(),
    ensures
        match outcome {
            RestrictionsOutcome::States(s) => r == Some(available_spec(s@, package@)),
            _ => r is None,
        },
{
    match outcome {
        RestrictionsOutcome::States(states) => Some(package_available_for_system_user(states, package)),
        _ => None,
    }
}

/// The install check when `pm path` had to be asked: the probe's answer;
/// when the probe fails too after the restrictions failed, both reasons.
pub fn is_installed_from_pm_probe(
    outcome: &RestrictionsOutcome,
    package: &str,
    output: &PmOutput,
) -> (r: Result<bool, BootError>)
    ensures
        match check_outcome_spec(package@, output) {
            Ok(v) => r matches Ok(w) && w == v,
            Err(probe) => match outcome {
                RestrictionsOutcome::Failed(e) => r matches Err(
                    BootError::InstallCheckFailed { restrictions: a, probe: b },
                ) && a@ == e@ && b@ == probe,
                _ => r matches Err(BootError::PmPathFailed { package: p, detail: d }) && p@
                    == package@ && d@ == pm_failure_detail_spec(output.stderr@),
            },
        },
{
    match check_package_visible_to_system_user_with_pm(package, output) {
        Ok(v) => Ok(v),
        Err(e) => match outcome {
            RestrictionsOutcome::Failed(reason) => {
                let probe = e.message();
                Err(BootError::InstallCheckFailed { restrictions: reason.clone(), probe })
            },
            _ => Err(e),
        },
    }
}

/// What `check_package_visible_to_system_user_with_pm` gives: the answer,
/// or the message of its error.
pub open spec fn check_outcome_spec(package: Seq<char>, output: &PmOutput) -> Result<bool, Seq<char>> {
    if output.success {
        Ok(pm_path_output_spec(output.stdout@).len() > 0)
    } else if missing_package_spec(output.stdout@, output.stderr@) {
        Ok(false)
    } else {
        Err("`pm path --user 0 "@ + package + "` failed: "@ + pm_failure_detail_spec(output.stderr@))
    }
}

/// The next step in finding a package's data path once the install check
/// has answered.
#[derive(Debug, Clone, PartialEq, Eq)]
pub enum DataPathStep {
    /// The search is over, with this result.
    Resolved(Option<String>),
    /// `pm path` must be asked for the APK's directory.
    QueryPm,
}

/// Where a package's data lives, given the directory that `packages.xml`
/// gave (if any) and the install check (`None` when it failed): nowhere
/// when the package is not installed for the system user; the
/// `packages.xml` directory when there is one and the check did not say no;
/// else, after a failed check, nowhere; else ask `pm path`.
pub open spec fn data_path_step_spec(packages_xml_dir: Option<Seq<char>>, installed: Option<bool>) -> Option<
    Option<Seq<char>>,
> {
    match installed {
        Some(false) => Some(None),
        Some(true) => match packages_xml_dir {
            Some(d) => Some(Some(d)),
            None => None,
        },
        None => Some(packages_xml_dir),
    }
}

/// The next step in finding a package's data path once the install check
/// has answered; `Resolved(r)` stands for `Some(r)` of the spec, `QueryPm`
/// for `None`.
pub fn data_path_after_install_check(packages_xml_dir: Option<String>, installed: Option<bool>) -> (r:
    DataPathStep)
    ensures
        match data_path_step_spec(opt_view(packages_xml_dir), installed) {
            Some(d) => r matches DataPathStep::Resolved(p) && opt_view(p) == d,
            None => r matches DataPathStep::QueryPm,
        },
{
    match installed {
        Some(false) => DataPathStep::Resolved(None),
        Some(true) => match packages_xml_dir {
            Some(d) => DataPathStep::Resolved(Some(d)),
            None => DataPathStep::QueryPm,
        },
        None => DataPathStep::Resolved(packages_xml_dir),
    }
}

/// The directory of the first APK that a `pm path` printed, by
/// `path_parent_of`: nothing when it failed or printed none.
pub open spec fn pm_data_path_spec(output: &PmOutput) -> Option<Option<Seq<char>>> {
    if !output.success || pm_path_output_spec(output.stdout@).len() == 0 {
        Some(None)
    } else {
        match path_parent_of(pm_path_output_spec(output.stdout@)[0]) {
            Some(d) => Some(Some(d)),
            None => None,
        }
    }
}

/// A package's data directory from what `pm path` printed: the directory of
/// its first APK; nothing when `pm path` failed or printed no APK; an
/// error when that APK path has no parent.
pub fn data_path_from_pm_output(package: &str, output: &PmOutput) -> (r: Result<
    Option<String>,
    BootError,
>)
    ensures
        match pm_data_path_spec(output) {
            Some(d) => r matches Ok(p) && opt_view(p) == d,
            None => r matches Err(BootError::ApkWithoutParent { package: p }) && p@ == package@,
        },
{
    if !output.success {
        return Ok(None);
    }
    let paths = parse_pm_path_output(output.stdout.as_str());
    if paths.len() == 0 {
        return Ok(None);
    }
    assert(paths@[0]@ == pm_path_output_spec(output.stdout@)[0]);
    match path_parent(paths[0].as_str()) {
        Some(d) => Ok(Some(d)),
        None => Err(BootError::ApkWithoutParent { package: package.to_string() }),
    }
}

/// The mount point that a line of `/proc/self/mountinfo` records: its fifth
/// field, fields being separated by white space.
pub open spec fn mount_point_of_line(line: Seq<char>) -> Option<Seq<char>> {
    if words_spec(line).len() > 4 {
        Some(words_spec(line)[4])
    } else {
        None
    }
}

/// Whether some line of `mountinfo` records `target` as its mount point.
pub open spec fn mount_target_spec(mountinfo: Seq<char>, target: Seq<char>) -> bool {
    exists|i: int|
        0 <= i < split_spec(mountinfo, '\n').len() && #[trigger] mount_point_of_line(
            split_spec(mountinfo, '\n')[i],
        ) == Some(target)
}

/// Whether something is mounted on `target`, by the contents of
/// `/proc/self/mountinfo`.
pub fn is_mount_target(mountinfo: &str, target: &str) -> (r: bool)
    ensures
        r == mount_target_spec(mountinfo@, target@),
{
    let chars = chars_of(mountinfo);
    let lines = split_chars(chars.as_slice(), '\n');
    let wanted = chars_of(target);
    let ghost sp = split_spec(mountinfo@, '\n');
    let mut i: usize = 0;
    while i < lines.len()
        invariant
            sp == split_spec(mountinfo@, '\n'),
            lines@.len() == sp.len(),
            forall|k: int| 0 <= k < lines@.len() ==> #[trigger] lines@[k]@ == sp[k],
            wanted@ == target@,
            i <= sp.len(),
            forall|k: int| 0 <= k < i ==> #[trigger] mount_point_of_line(sp[k]) != Some(target@),
        decreases lines.len() - i,
    {
        let words = split_words(lines[i].as_slice());
        if words.len() > 4 && chars_eq(words[4].as_slice(), wanted.as_slice()) {
            assert(mount_point_of_line(sp[i as int]) == Some(target@));
            return true;
        }
        assert(mount_point_of_line(sp[i as int]) != Some(target@));
        i = i + 1;
    }
    false
}

/// The options of an overlay mount: its lower, upper and work directories.
pub open spec fn overlay_options_spec(lower: Seq<char>, upper: Seq<char>, work: Seq<char>) -> Seq<char> {
    "lowerdir="@ + lower + ",upperdir="@ + upper + ",workdir="@ + work
}

/// The options of an overlay mount.
pub fn overlay_mount_options(lower: &str, upper: &str, work: &str) -> (r: String)
    ensures
        r@ == overlay_options_spec(lower@, upper@, work@),
{
    let mut text = "lowerdir=".to_string();
    text.append(lower);
    text.append(",upperdir=");
    text.append(upper);
    text.append(",workdir=");
    text.append(work);
    text
}

/// What to do about the overlay on a target directory.
#[derive(Debug, Clone, PartialEq, Eq)]
pub enum OverlayMount {
    /// Something is already mounted there; leave it.
    AlreadyMounted,
    /// Mount an overlay there with these options.
    Mount {
        /// The mount options.
        options: String,
    },
}

/// What to do about the overlay of `lower`, `upper` and `work` on `target`,
/// once the directories exist, given the contents of
/// `/proc/self/mountinfo`: nothing when something is mounted there already,
/// else mount the overlay.
pub fn mount_overlyfs(lower: &str, upper: &str, work: &str, target: &str, mountinfo: &str) -> (r:
    OverlayMount)
    ensures
        mount_target_spec(mountinfo@, target@) ==> r is AlreadyMounted,
        !mount_target_spec(mountinfo@, target@) ==> (r matches OverlayMount::Mount { options }
            && options@ == overlay_options_spec(lower@, upper@, work@)),
{
    if is_mount_target(mountinfo, target) {
        return OverlayMount::AlreadyMounted;
    }
    OverlayMount::Mount { options: overlay_mount_options(lower, upper, work) }
}

/// The names among `names` that `keep` does not hold, in order.
pub open spec fn stale_names_spec(names: Seq<Seq<char>>, keep: Set<Seq<char>>) -> Seq<Seq<char>>
    decreases names.len(),
{
    if names.len() == 0 {
        Seq::empty()
    } else {
        let prev = stale_names_spec(names.drop_last(), keep);
        if keep.contains(names.last()) {
            prev
        } else {
            prev.push(names.last())
        }
    }
}

/// The entries of a staged package directory to remove: those whose names
/// are not packages to keep, in the order given.
pub fn stale_entries(names: &[String], keep: &PackageSet) -> (r: Vec<String>)
    requires
        keep.wf(),
    ensures
        string_views(r@) == stale_names_spec(string_views(names@), keep@),
{
    let mut out: Vec<String> = Vec::new();
    let mut i: usize = 0;
    assert(string_views(names@).take(0) =~= Seq::<Seq<char>>::empty());
    assert(string_views(out@) =~= Seq::<Seq<char>>::empty());
    while i < names.len()
        invariant
            i <= names@.len(),
            keep.wf(),
            string_views(out@) == stale_names_spec(string_views(names@).take(i as int), keep@),
        decreases names.len() - i,
    {
        assert(string_views(names@).take(i + 1).drop_last() =~= string_views(names@).take(i as int));
        assert(string_views(names@).take(i + 1).last() == names@[i as int]@);
        if !keep.contains(names[i].as_str()) {
            let ghost before = out@;
            let name = names[i].clone();
            out.push(name);
            assert(string_views(out@) =~= string_views(before).push(names@[i as int]@));
        }
        i = i + 1;
    }
    assert(string_views(names@).take(names@.len() as int) =~= string_views(names@));
    out
}

/// The name of the directory that a package is staged in before it
/// replaces the package's directory: `.<package>.tmp`.
pub fn staging_dir_name(package: &str) -> (r: String)
    ensures
        r@ == "."@ + package@ + ".tmp"@,
{
    let mut text = ".".to_string();
    text.append(package);
    text.append(".tmp");
    text
}

/// A package that is not installed for the system user gets no data path,
/// whatever `packages.xml` records.
pub proof fn law_uninstalled_package_has_no_data_path(packages_xml_dir: Option<Seq<char>>)
    ensures
        data_path_step_spec(packages_xml_dir, Some(false)) == Some(None::<Seq<char>>),
{
}

/// The directory that `packages.xml` gives is used, without asking `pm`,
/// unless the package is known not to be installed for the system user.
pub proof fn law_packages_xml_dir_is_preferred(dir: Seq<char>, installed: Option<bool>)
    requires
        installed != Some(false),
    ensures
        data_path_step_spec(Some(dir), installed) == Some(Some(dir)),
{
}

/// A `pm path` that printed an APK path never counts as a missing package.
pub proof fn law_listed_apk_is_not_missing(stdout: Seq<char>, stderr: Seq<char>)
    requires
        pm_path_output_spec(stdout).len() > 0,
    ensures
        !missing_package_spec(stdout, stderr),
{
}

/// A package with no recorded restriction is available to the system user.
pub proof fn law_unrecorded_package_is_available(
    states: Map<Seq<char>, SystemUserPackageState>,
    package: Seq<char>,
)
    requires
        !states.contains_key(package),
    ensures
        available_spec(states, package),
{
}

/// The cleanup removes exactly the entries that are not packages to keep:
/// no kept package is removed, and every other entry is.
pub proof fn law_stale_entries_spare_kept_packages(names: Seq<Seq<char>>, keep: Set<Seq<char>>)
    ensures
        forall|k: int|
            0 <= k < stale_names_spec(names, keep).len() ==> !keep.contains(
                #[trigger] stale_names_spec(names, keep)[k],
            ),
        forall|i: int|
            0 <= i < names.len() && !keep.contains(#[trigger] names[i]) ==> stale_names_spec(
                names,
                keep,
            ).contains(names[i]),
    decreases names.len(),
{
    if names.len() > 0 {
        let prev = names.drop_last();
        law_stale_entries_spare_kept_packages(prev, keep);
        let sp = stale_names_spec(prev, keep);
        assert forall|i: int| 0 <= i < names.len() && !keep.contains(#[trigger] names[i]) implies stale_names_spec(
            names,
            keep,
        ).contains(names[i]) by {
            if i < names.len() - 1 {
                assert(prev[i] == names[i]);
                let k = choose|k: int| 0 <= k < sp.len() && sp[k] == prev[i];
                if !keep.contains(names.last()) {
                    assert(sp.push(names.last())[k] == names[i]);
                }
            } else {
                assert(sp.push(names.last())[sp.len() as int] == names[i]);
            }
        }
    }
}

} // verus!
