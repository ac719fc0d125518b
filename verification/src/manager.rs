//! The manager's rules: editing the groups of the configuration, parsing
//! the package lists that Android's tools print, deciding which packages are
//! user apps, and the report of `inspect`.

use vstd::prelude::*;
use crate::manager_config::{App, Config};
use crate::package_set::{PackageMap, PackageSet, sorted_names};
use crate::text::{
    chars_of, contains_chars, contains_spec, split_chars, split_spec, starts_with,
    starts_with_spec, string_of, suffix_from, trim_chars, trim_spec, lemma_trim_idempotent,
    lemma_split_nonempty,
};

verus! {

/// Why the manager refused a change.
#[derive(Debug, Clone, PartialEq, Eq)]
pub enum ManagerError {
    /// The package is already in the other group.
    AlreadyInGroup {
        /// The package.
        package: String,
        /// The group that holds it.
        group: String,
    },
    /// These packages were given for both groups, in order.
    GroupOverlap(Vec<String>),
}

/// The characters of each string.
pub open spec fn string_views(v: Seq<String>) -> Seq<Seq<char>> {
    Seq::new(v.len(), |i: int| v[i]@)
}

/// `names` joined with `sep` between them.
pub open spec fn join_spec(names: Seq<Seq<char>>, sep: Seq<char>) -> Seq<char>
    decreases names.len(),
{
    if names.len() == 0 {
        Seq::<char>::empty()
    } else if names.len() == 1 {
        names[0]
    } else {
        join_spec(names.drop_last(), sep) + sep + names.last()
    }
}

/// `names` joined with `sep` between them.
pub fn join_names(names: &[String], sep: &str) -> (r: String)
    ensures
        r@ == join_spec(string_views(names@), sep@),
{
    let mut out = String::new();
    let mut i: usize = 0;
    assert(string_views(names@.take(0)) =~= Seq::<Seq<char>>::empty());
    while i < names.len()
        invariant
            i <= names@.len(),
            out@ == join_spec(string_views(names@.take(i as int)), sep@),
        decreases names.len() - i,
    {
        if i > 0 {
            out.append(sep);
        }
        out.append(names[i].as_str());
        i = i + 1;
        assert(string_views(names@.take(i as int)).drop_last() =~= string_views(
            names@.take(i - 1),
        ));
        assert(string_views(names@.take(i as int)).last() == names@[i - 1]@);
        if i == 1 {
            assert(string_views(names@.take(0)) =~= Seq::<Seq<char>>::empty());
            assert(out@ =~= string_views(names@.take(1))[0]);
        }
    }
    assert(names@.take(names@.len() as int) =~= names@);
    out
}

impl ManagerError {
    /// A sentence that describes the error.
    pub fn message(&self) -> (r: String)
        ensures
            self matches ManagerError::GroupOverlap(d) ==> r@ == "Packages cannot exist in both system and priv groups: "@
                + join_spec(string_views(d@), ", "@),
            self matches ManagerError::AlreadyInGroup { package, group } ==> r@ == "Package `"@
                + package@ + "` already exists in "@ + group@,
    {
        match self {
            ManagerError::AlreadyInGroup { package, group } => {
                let mut text = "Package `".to_string();
                text.append(package.as_str());
                text.append("` already exists in ");
                text.append(group.as_str());
                text
            },
            ManagerError::GroupOverlap(duplicates) => {
                let mut text = "Packages cannot exist in both system and priv groups: ".to_string();
                let joined = join_names(duplicates.as_slice(), ", ");
                text.append(joined.as_str());
                text
            },
        }
    }
}

/// Appending text without the separator extends the last piece of a split.
proof fn lemma_split_plain_suffix(x: Seq<char>, b: Seq<char>, sep: char)
    requires
        forall|j: int| 0 <= j < b.len() ==> b[j] != sep,
    ensures
        split_spec(x + b, sep) == split_spec(x, sep).update(
            split_spec(x, sep).len() - 1,
            split_spec(x, sep).last() + b,
        ),
    decreases b.len(),
{
    lemma_split_nonempty(x, sep);
    if b.len() == 0 {
        assert(x + b =~= x);
        assert(split_spec(x, sep).last() + b =~= split_spec(x, sep).last());
        assert(split_spec(x, sep).update(split_spec(x, sep).len() - 1, split_spec(x, sep).last())
            =~= split_spec(x, sep));
    } else {
        let b0 = b.drop_last();
        lemma_split_plain_suffix(x, b0, sep);
        assert((x + b).drop_last() =~= x + b0);
        assert((x + b).last() == b.last());
        let sx = split_spec(x, sep);
        let r = split_spec(x + b0, sep);
        assert(r == sx.update(sx.len() - 1, sx.last() + b0));
        assert(r.len() == sx.len());
        assert(r.last() == sx.last() + b0);
        assert(b.last() != sep);
        assert(split_spec(x + b, sep) == r.update(r.len() - 1, r.last().push(b.last())));
        assert((sx.last() + b0).push(b.last()) =~= sx.last() + b);
        assert(split_spec(x + b, sep) =~= split_spec(x, sep).update(
            split_spec(x, sep).len() - 1,
            split_spec(x, sep).last() + b,
        ));
    }
}

/// Names without the separator, joined by it, split back into the names.
proof fn lemma_split_join(names: Seq<Seq<char>>, sep: char)
    requires
        names.len() >= 1,
        forall|i: int, j: int|
            0 <= i < names.len() && 0 <= j < names[i].len() ==> #[trigger] names[i][j] != sep,
    ensures
        split_spec(join_spec(names, seq![sep]), sep) == names,
    decreases names.len(),
{
    if names.len() == 1 {
        lemma_split_plain_suffix(Seq::<char>::empty(), names[0], sep);
        assert(Seq::<char>::empty() + names[0] =~= names[0]);
        assert(split_spec(Seq::<char>::empty(), sep) == seq![Seq::<char>::empty()]);
        assert(split_spec(names[0], sep) =~= names);
    } else {
        let init = names.drop_last();
        lemma_split_join(init, sep);
        let y = join_spec(init, seq![sep]);
        let ys = y + seq![sep];
        assert(ys.drop_last() =~= y);
        assert(split_spec(ys, sep) == split_spec(y, sep).push(Seq::<char>::empty()));
        lemma_split_plain_suffix(ys, names.last(), sep);
        assert(join_spec(names, seq![sep]) =~= ys + names.last());
        assert(Seq::<char>::empty() + names.last() =~= names.last());
        assert(split_spec(join_spec(names, seq![sep]), sep) =~= names);
    }
}

/// The names that `inspect` prints for a group, joined by commas, read back
/// as the comma-separated list of `replace`, give the same group: when every
/// name is non-empty, holds no comma and has no white space at its ends.
pub proof fn law_csv_round_trip(names: Seq<Seq<char>>)
    requires
        forall|i: int| 0 <= i < names.len() ==> #[trigger] names[i].len() > 0 && trim_spec(names[i]) == names[i],
        forall|i: int, j: int|
            0 <= i < names.len() && 0 <= j < names[i].len() ==> #[trigger] names[i][j] != ',',
    ensures
        csv_names_spec(join_spec(names, ","@)) == names.to_set(),
{
    reveal_strlit(",");
    assert(","@ =~= seq![',']);
    let joined = join_spec(names, ","@);
    if names.len() == 0 {
        assert(joined =~= Seq::<char>::empty());
        assert(split_spec(joined, ',') == seq![Seq::<char>::empty()]);
        lemma_trim_idempotent(Seq::<char>::empty());
        assert(trim_spec(Seq::<char>::empty()) =~= Seq::<char>::empty()) by {
            reveal_with_fuel(crate::text::trim_start_spec, 2);
            reveal_with_fuel(crate::text::trim_end_spec, 2);
        }
        assert(csv_names_spec(joined) =~= names.to_set());
    } else {
        lemma_split_join(names, ',');
        assert forall|k: Seq<char>| csv_names_spec(joined).contains(k) <==> names.to_set().contains(k) by {
            if names.to_set().contains(k) {
                let i = choose|i: int| 0 <= i < names.len() && names[i] == k;
                assert(trim_spec(split_spec(joined, ',')[i]) == k);
            }
        }
        assert(csv_names_spec(joined) =~= names.to_set());
    }
}

/// Refuses `package` when `existing_packages`, the other group, holds it.
pub fn ensure_not_in_other_group(existing_packages: &PackageSet, package: &str, group_name: &str) -> (r:
    Result<(), ManagerError>)
    requires
        existing_packages.wf(),
    ensures
        r is Ok <==> !existing_packages@.contains(package@),
        r matches Err(e) ==> e matches ManagerError::AlreadyInGroup { package: p, group: g } && p@
            == package@ && g@ == group_name@,
{
    if existing_packages.contains(package) {
        let p = package.to_string();
        let g = group_name.to_string();
        return Err(ManagerError::AlreadyInGroup { package: p, group: g });
    }
    Ok(())
}

/// The names in a comma-separated list: each entry trimmed of white space,
/// empty entries ignored.
pub open spec fn csv_names_spec(input: Seq<char>) -> Set<Seq<char>> {
    Set::new(
        |k: Seq<char>|
            k.len() > 0 && exists|i: int|
                0 <= i < split_spec(input, ',').len() && #[trigger] trim_spec(
                    split_spec(input, ',')[i],
                ) == k,
    )
}

/// The set of `pieces[..n]` trimmed, without empty ones.
spec fn trimmed_pieces_upto(pieces: Seq<Seq<char>>, n: int) -> Set<Seq<char>> {
    Set::new(
        |k: Seq<char>| k.len() > 0 && exists|i: int| 0 <= i < n && #[trigger] trim_spec(pieces[i]) == k,
    )
}

/// The package names in a comma-separated list, trimmed, without empty
/// entries.
pub fn parse_package_csv(input: &str) -> (r: PackageSet)
    ensures
        r.wf(),
        r@ == csv_names_spec(input@),
        forall|k: Seq<char>| #[trigger] r@.contains(k) ==> k.len() > 0 && trim_spec(k) == k,
{
    let chars = chars_of(input);
    let pieces = split_chars(chars.as_slice(), ',');
    let ghost sp = split_spec(input@, ',');
    let mut out = PackageSet::new();
    let mut i: usize = 0;
    assert(out@ =~= trimmed_pieces_upto(sp, 0));
    while i < pieces.len()
        invariant
            pieces@.len() == sp.len(),
            forall|k: int| 0 <= k < pieces@.len() ==> #[trigger] pieces@[k]@ == sp[k],
            i <= sp.len(),
            out.wf(),
            out@ == trimmed_pieces_upto(sp, i as int),
        decreases pieces.len() - i,
    {
        let entry = trim_chars(pieces[i].as_slice());
        if entry.len() > 0 {
            let name = string_of(entry.as_slice());
            out.insert(name.as_str());
        }
        assert(out@ =~= trimmed_pieces_upto(sp, i + 1));
        i = i + 1;
    }
    assert(out@ =~= csv_names_spec(input@));
    assert forall|k: Seq<char>| #[trigger] out@.contains(k) implies k.len() > 0 && trim_spec(k)
        == k by {
        let j = choose|j: int| 0 <= j < sp.len() && #[trigger] trim_spec(sp[j]) == k;
        lemma_trim_idempotent(sp[j]);
    }
    out
}

/// Refuses two groups that share packages; the error lists the shared
/// packages in order.
pub fn validate_package_sets(system_packages: &PackageSet, priv_packages: &PackageSet) -> (r: Result<
    (),
    ManagerError,
>)
    requires
        system_packages.wf(),
        priv_packages.wf(),
    ensures
        r is Ok <==> system_packages@.disjoint(priv_packages@),
        r matches Err(e) ==> e matches ManagerError::GroupOverlap(d) && sorted_names(
            string_views(d@),
        ) && forall|k: Seq<char>|
            #[trigger] string_views(d@).contains(k) <==> (system_packages@.contains(k)
                && priv_packages@.contains(k)),
{
    let common = system_packages.intersection(priv_packages);
    if common.is_empty() {
        assert(system_packages@.disjoint(priv_packages@)) by {
            assert forall|k: Seq<char>| system_packages@.contains(k) implies !priv_packages@.contains(
                k,
            ) by {
                assert(!common@.contains(k));
            }
        }
        return Ok(());
    }
    let duplicates = common.to_vec();
    proof {
        common.lemma_order();
        assert(string_views(duplicates@) =~= common.name_order());
        let k = choose|k: Seq<char>| common@.contains(k);
        assert(common@ != Set::<Seq<char>>::empty());
        assert(exists|k: Seq<char>| common@.contains(k)) by {
            if !exists|k: Seq<char>| common@.contains(k) {
                assert(common@ =~= Set::<Seq<char>>::empty());
            }
        }
        assert(system_packages@.contains(k) && priv_packages@.contains(k));
    }
    Err(ManagerError::GroupOverlap(duplicates))
}

/// `package:`
pub open spec fn package_prefix() -> Seq<char> {
    seq!['p', 'a', 'c', 'k', 'a', 'g', 'e', ':']
}

/// The name on a line `package:<name>` that Android's `pm` prints, with
/// white space trimmed around the line and the name.
pub open spec fn package_line_name(line: Seq<char>) -> Option<Seq<char>> {
    let t = trim_spec(line);
    if starts_with_spec(t, package_prefix()) {
        let n = trim_spec(t.subrange(8, t.len() as int));
        if n.len() > 0 {
            Some(n)
        } else {
            None
        }
    } else {
        None
    }
}

/// The name on a line `package:<name>`, if it is one.
pub fn package_line(line: &[char]) -> (r: Option<Vec<char>>)
    ensures
        match r {
            Some(n) => package_line_name(line@) == Some(n@),
            None => package_line_name(line@) is None,
        },
{
    let t = trim_chars(line);
    let prefix = ['p', 'a', 'c', 'k', 'a', 'g', 'e', ':'];
    assert(prefix@ =~= package_prefix());
    if !starts_with(t.as_slice(), prefix.as_slice()) {
        return None;
    }
    let rest = suffix_from(t.as_slice(), 8);
    let n = trim_chars(rest.as_slice());
    if n.len() > 0 {
        Some(n)
    } else {
        None
    }
}

/// The packages that `pm list packages` lists: one `package:<name>` per line.
pub open spec fn pm_list_names_spec(stdout: Seq<char>) -> Set<Seq<char>> {
    Set::new(
        |k: Seq<char>|
            exists|i: int|
                0 <= i < split_spec(stdout, '\n').len() && #[trigger] package_line_name(
                    split_spec(stdout, '\n')[i],
                ) == Some(k),
    )
}

/// The set of the names on `lines[..n]`.
spec fn line_names_upto(lines: Seq<Seq<char>>, n: int) -> Set<Seq<char>> {
    Set::new(|k: Seq<char>| exists|i: int| 0 <= i < n && #[trigger] package_line_name(lines[i]) == Some(k))
}

/// The packages that the output of `pm list packages` names, one per line
/// as `package:<name>`; other lines are ignored.
pub fn parse_pm_list_output(stdout: &str) -> (r: PackageSet)
    ensures
        r.wf(),
        r@ == pm_list_names_spec(stdout@),
{
    let chars = chars_of(stdout);
    let lines = split_chars(chars.as_slice(), '\n');
    let ghost sp = split_spec(stdout@, '\n');
    let mut out = PackageSet::new();
    let mut i: usize = 0;
    assert(out@ =~= line_names_upto(sp, 0));
    while i < lines.len()
        invariant
            lines@.len() == sp.len(),
            forall|k: int| 0 <= k < lines@.len() ==> #[trigger] lines@[k]@ == sp[k],
            i <= sp.len(),
            out.wf(),
            out@ == line_names_upto(sp, i as int),
        decreases lines.len() - i,
    {
        match package_line(lines[i].as_slice()) {
            Some(n) => {
                let name = string_of(n.as_slice());
                out.insert(name.as_str());
            },
            None => {},
        }
        assert(out@ =~= line_names_upto(sp, i + 1));
        i = i + 1;
    }
    assert(out@ =~= pm_list_names_spec(stdout@));
    out
}

/// `/data/app/`
pub open spec fn data_app_prefix() -> Seq<char> {
    seq!['/', 'd', 'a', 't', 'a', '/', 'a', 'p', 'p', '/']
}

/// `/mnt/expand/`
pub open spec fn mnt_expand_prefix() -> Seq<char> {
    seq!['/', 'm', 'n', 't', '/', 'e', 'x', 'p', 'a', 'n', 'd', '/']
}

/// `/app/`
pub open spec fn app_segment() -> Seq<char> {
    seq!['/', 'a', 'p', 'p', '/']
}

/// Whether a package of `packages.xml` is a user app: by its public flags
/// when it has them (`FLAG_SYSTEM`, bit 0, clear), else by its legacy
/// `system` attribute, else by where its code lives.
pub open spec fn is_user_app_spec(
    public_flags: Option<i64>,
    legacy_system: Option<bool>,
    code_path: Seq<char>,
) -> bool {
    match public_flags {
        Some(flags) => flags % 2 == 0,
        None => match legacy_system {
            Some(system) => !system,
            None => starts_with_spec(code_path, data_app_prefix()) || (starts_with_spec(
                code_path,
                mnt_expand_prefix(),
            ) && contains_spec(code_path, app_segment())),
        },
    }
}

/// Whether a package of `packages.xml` is a user app.
pub fn is_user_app(public_flags: Option<i64>, legacy_system: Option<bool>, code_path: &str) -> (r:
    bool)
    ensures
        r == is_user_app_spec(public_flags, legacy_system, code_path@),
{
    if let Some(public_flags) = public_flags {
        let r = public_flags & 1 == 0;
        assert(r == (public_flags % 2 == 0)) by (bit_vector)
            requires
                r == (public_flags & 1 == 0),
        ;
        return r;
    }
    if let Some(legacy_system) = legacy_system {
        return !legacy_system;
    }
    let path = chars_of(code_path);
    let data_app = ['/', 'd', 'a', 't', 'a', '/', 'a', 'p', 'p', '/'];
    let mnt_expand = ['/', 'm', 'n', 't', '/', 'e', 'x', 'p', 'a', 'n', 'd', '/'];
    let app = ['/', 'a', 'p', 'p', '/'];
    assert(data_app@ =~= data_app_prefix());
    assert(mnt_expand@ =~= mnt_expand_prefix());
    assert(app@ =~= app_segment());
    starts_with(path.as_slice(), data_app.as_slice()) || (starts_with(
        path.as_slice(),
        mnt_expand.as_slice(),
    ) && contains_chars(path.as_slice(), app.as_slice()))
}

/// Whether a package counts as installed for the system user: unless its
/// package restrictions say it is not installed.
pub open spec fn installed_for_user_spec(states: Map<Seq<char>, bool>, package: Seq<char>) -> bool {
    !states.contains_key(package) || states[package]
}

/// The packages that are installed for the system user, by its package
/// restrictions; a package with no recorded state counts as installed.
pub fn filter_installed_for_system_user(packages: PackageSet, system_user_package_states: &PackageMap<
    bool,
>) -> (r: PackageSet)
    requires
        packages.wf(),
        system_user_package_states.wf(),
    ensures
        r.wf(),
        r@ == packages@.filter(
            |p: Seq<char>| installed_for_user_spec(system_user_package_states@, p),
        ),
{
    let names = packages.to_vec();
    let ghost keep = |p: Seq<char>| installed_for_user_spec(system_user_package_states@, p);
    let mut out = PackageSet::new();
    let mut i: usize = 0;
    proof {
        packages.lemma_order();
    }
    #[verifier::loop_isolation(false)]
    while i < names.len()
        invariant
            i <= names@.len(),
            out.wf(),
            out@ == Set::new(|k: Seq<char>| exists|j: int| 0 <= j < i && #[trigger] names@[j]@ == k).filter(keep),
        decreases names.len() - i,
    {
        let installed = match system_user_package_states.get(names[i].as_str()) {
            Some(b) => b,
            None => true,
        };
        if installed {
            out.insert(names[i].as_str());
        }
        assert(out@ =~= Set::new(|k: Seq<char>| exists|j: int| 0 <= j < i + 1 && #[trigger] names@[j]@ == k).filter(keep));
        i = i + 1;
    }
    proof {
        assert forall|k: Seq<char>| packages@.contains(k) implies exists|j: int|
            0 <= j < names@.len() && #[trigger] names@[j]@ == k by {
            assert(packages.name_order().contains(k));
            let j = choose|j: int| 0 <= j < packages.name_order().len() && packages.name_order()[j] == k;
            assert(names@[j]@ == k);
        }
        assert forall|k: Seq<char>| (exists|j: int| 0 <= j < names@.len() && #[trigger] names@[j]@ == k) implies packages@.contains(k) by {
            let j = choose|j: int| 0 <= j < names@.len() && #[trigger] names@[j]@ == k;
            assert(packages.name_order()[j] == k);
            assert(packages.name_order().contains(k));
        }
        assert(out@ =~= packages@.filter(keep));
    }
    out
}

/// What `inspect` reports, each list in the order of the names.
#[derive(Debug, Clone, PartialEq, Eq)]
pub struct InspectOutput {
    /// The packages of the system-app group.
    pub system_app: Vec<String>,
    /// The packages of the priv-app group.
    pub priv_app: Vec<String>,
    /// The user apps installed for the system user.
    pub installed_user_apps: Vec<String>,
    /// The configured packages that are not installed user apps.
    pub missing_configured_apps: Vec<String>,
}

/// `v` lists the members of `s` in increasing order.
pub open spec fn lists_in_order(v: Seq<String>, s: Set<Seq<char>>) -> bool {
    &&& sorted_names(string_views(v))
    &&& forall|k: Seq<char>| #[trigger] string_views(v).contains(k) <==> s.contains(k)
}

/// The members of a set, in order.
fn names_in_order(s: &PackageSet) -> (r: Vec<String>)
    requires
        s.wf(),
    ensures
        lists_in_order(r@, s@),
{
    let r = s.to_vec();
    proof {
        s.lemma_order();
        assert(string_views(r@) =~= s.name_order());
    }
    r
}

/// The report of `inspect`: both groups, the installed user apps, and the
/// configured packages that are not installed, each in the order of the
/// names.
pub fn build_inspect_output(config: &App, installed_user_apps: &PackageSet) -> (r: InspectOutput)
    requires
        config.wf(),
        installed_user_apps.wf(),
    ensures
        lists_in_order(r.system_app@, config.system_app@),
        lists_in_order(r.priv_app@, config.priv_app@),
        lists_in_order(r.installed_user_apps@, installed_user_apps@),
        lists_in_order(
            r.missing_configured_apps@,
            config.system_app@.union(config.priv_app@).difference(installed_user_apps@),
        ),
{
    let configured = config.system_app.union(&config.priv_app);
    let missing = configured.difference(installed_user_apps);
    InspectOutput {
        system_app: names_in_order(&config.system_app),
        priv_app: names_in_order(&config.priv_app),
        installed_user_apps: names_in_order(installed_user_apps),
        missing_configured_apps: names_in_order(&missing),
    }
}

/// The plain-text report of `inspect`: one line per list, `key=` and the
/// names joined by commas.
pub open spec fn inspect_text_spec(o: InspectOutput) -> Seq<char> {
    "system_app="@ + join_spec(string_views(o.system_app@), ","@) + "\n"@ + "priv_app="@ + join_spec(
        string_views(o.priv_app@),
        ","@,
    ) + "\n"@ + "installed_user_apps="@ + join_spec(string_views(o.installed_user_apps@), ","@)
        + "\n"@ + "missing_configured_apps="@ + join_spec(
        string_views(o.missing_configured_apps@),
        ","@,
    ) + "\n"@
}

/// The plain-text report of `inspect`.
pub fn format_inspect_text(output: &InspectOutput) -> (r: String)
    ensures
        r@ == inspect_text_spec(*output),
{
    let mut text = "system_app=".to_string();
    let part = join_names(output.system_app.as_slice(), ",");
    text.append(part.as_str());
    text.append("\n");
    text.append("priv_app=");
    let part = join_names(output.priv_app.as_slice(), ",");
    text.append(part.as_str());
    text.append("\n");
    text.append("installed_user_apps=");
    let part = join_names(output.installed_user_apps.as_slice(), ",");
    text.append(part.as_str());
    text.append("\n");
    text.append("missing_configured_apps=");
    let part = join_names(output.missing_configured_apps.as_slice(), ",");
    text.append(part.as_str());
    text.append("\n");
    text
}

/// A change to the configuration that the manager's command line asks for.
pub enum ConfigCommand {
    /// Add a package to the priv-app group.
    AddPrivApp(String),
    /// Remove a package from the priv-app group.
    RemovePrivApp(String),
    /// Add a package to the system-app group.
    AddSystemApp(String),
    /// Remove a package from the system-app group.
    RemoveSystemApp(String),
    /// Replace both groups by comma-separated lists.
    Replace {
        /// The system-app packages.
        system: String,
        /// The priv-app packages.
        priv_app: String,
    },
}

/// Applies `command` to `config`: a package is added to a group unless the
/// other group holds it; removal always succeeds; a replacement is refused
/// when the two lists share a package. A refused command leaves the
/// configuration as it was. A command keeps the groups disjoint when they
/// were.
pub fn apply_command(config: &mut Config, command: &ConfigCommand) -> (r: Result<(), ManagerError>)
    requires
        old(config).app.wf(),
    ensures
        final(config).app.wf(),
        r is Err ==> final(config).app.system_app@ == old(config).app.system_app@
            && final(config).app.priv_app@ == old(config).app.priv_app@,
        old(config).app.groups_disjoint() ==> final(config).app.groups_disjoint(),
        match command {
            ConfigCommand::AddPrivApp(p) => (r matches Err(e) ==> e matches ManagerError::AlreadyInGroup {
                package: q,
                group: g,
            } && q@ == p@ && g@ == "system-app"@) && (r is Ok <==> !old(config).app.system_app@.contains(p@))
                && (r is Ok ==> final(config).app.priv_app@ == old(config).app.priv_app@.insert(p@)
                && final(config).app.system_app@ == old(config).app.system_app@),
            ConfigCommand::AddSystemApp(p) => (r matches Err(e) ==> e matches ManagerError::AlreadyInGroup {
                package: q,
                group: g,
            } && q@ == p@ && g@ == "priv-app"@) && (r is Ok <==> !old(config).app.priv_app@.contains(p@))
                && (r is Ok ==> final(config).app.system_app@ == old(config).app.system_app@.insert(
                p@,
            ) && final(config).app.priv_app@ == old(config).app.priv_app@),
            ConfigCommand::RemovePrivApp(p) => r is Ok && final(config).app.priv_app@ == old(
                config,
            ).app.priv_app@.remove(p@) && final(config).app.system_app@ == old(
                config,
            ).app.system_app@,
            ConfigCommand::RemoveSystemApp(p) => r is Ok && final(config).app.system_app@ == old(
                config,
            ).app.system_app@.remove(p@) && final(config).app.priv_app@ == old(
                config,
            ).app.priv_app@,
            ConfigCommand::Replace { system, priv_app } => (r matches Err(e) ==> e matches ManagerError::GroupOverlap(
                d,
            ) && sorted_names(string_views(d@)) && forall|k: Seq<char>|
                #[trigger] string_views(d@).contains(k) <==> (csv_names_spec(system@).contains(k)
                    && csv_names_spec(priv_app@).contains(k))) && (r is Ok <==> csv_names_spec(
                system@,
            ).disjoint(csv_names_spec(priv_app@))) && (r is Ok ==> final(config).app.system_app@
                == csv_names_spec(system@) && final(config).app.priv_app@ == csv_names_spec(
                priv_app@,
            )),
        },
{
    match command {
        ConfigCommand::AddPrivApp(package) => {
            ensure_not_in_other_group(&config.app.system_app, package.as_str(), "system-app")?;
            config.app.priv_app.insert(package.as_str());
            Ok(())
        },
        ConfigCommand::RemovePrivApp(package) => {
            config.app.priv_app.remove(package.as_str());
            Ok(())
        },
        ConfigCommand::AddSystemApp(package) => {
            ensure_not_in_other_group(&config.app.priv_app, package.as_str(), "priv-app")?;
            config.app.system_app.insert(package.as_str());
            Ok(())
        },
        ConfigCommand::RemoveSystemApp(package) => {
            config.app.system_app.remove(package.as_str());
            Ok(())
        },
        ConfigCommand::Replace { system, priv_app } => {
            let system_packages = parse_package_csv(system.as_str());
            let priv_packages = parse_package_csv(priv_app.as_str());
            validate_package_sets(&system_packages, &priv_packages)?;
            config.app.system_app = system_packages;
            config.app.priv_app = priv_packages;
            Ok(())
        },
    }
}

} // verus!
