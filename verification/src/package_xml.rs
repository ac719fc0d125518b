//! What the package parsers read from one element of Android's package
//! settings (`packages.xml`) and package restrictions
//! (`package-restrictions.xml`): its attributes, as plain values.
//!
//! When an attribute occurs more than once, the last occurrence counts, as
//! the parsers assign each occurrence in turn.

use vstd::prelude::*;
use crate::manager::is_user_app_spec;
use crate::numbers::{parse_i64_radix, parse_i64_spec};
use crate::package_state::SystemUserPackageState;
use crate::text::{chars_of, eq_ignore_ascii_case, eq_ignore_ascii_case_spec};
use crate::package_set::{PackageMap, PackageSet};
use crate::xml_events::{
    ElementReader,
    EventView,
    XmlAttribute,
    XmlElement,
    XmlParseError,
    attrs_spec,
    bytes_eq,
    events_well_ended,
    lemma_skip_others,
    skip_others,
};
use crate::xmlish::{parse_boolish, parse_boolish_spec};

verus! {

/// The attributes of an element, as (name, value) pairs.
pub open spec fn attr_views(attrs: Seq<XmlAttribute>) -> Seq<(Seq<u8>, Seq<char>)> {
    Seq::new(attrs.len(), |i: int| (attrs[i].key@, attrs[i].value@))
}

/// `name`
pub open spec fn key_name() -> Seq<u8> {
    seq![110u8, 97u8, 109u8, 101u8]
}

/// `codePath`
pub open spec fn key_code_path() -> Seq<u8> {
    seq![99u8, 111u8, 100u8, 101u8, 80u8, 97u8, 116u8, 104u8]
}

/// `publicFlags`
pub open spec fn key_public_flags() -> Seq<u8> {
    seq![112u8, 117u8, 98u8, 108u8, 105u8, 99u8, 70u8, 108u8, 97u8, 103u8, 115u8]
}

/// `system`
pub open spec fn key_system() -> Seq<u8> {
    seq![115u8, 121u8, 115u8, 116u8, 101u8, 109u8]
}

/// `inst`
pub open spec fn key_inst() -> Seq<u8> {
    seq![105u8, 110u8, 115u8, 116u8]
}

/// `installed`
pub open spec fn key_installed() -> Seq<u8> {
    seq![105u8, 110u8, 115u8, 116u8, 97u8, 108u8, 108u8, 101u8, 100u8]
}

/// `hidden`
pub open spec fn key_hidden() -> Seq<u8> {
    seq![104u8, 105u8, 100u8, 100u8, 101u8, 110u8]
}

/// `blocked`
pub open spec fn key_blocked() -> Seq<u8> {
    seq![98u8, 108u8, 111u8, 99u8, 107u8, 101u8, 100u8]
}

/// `package`
pub open spec fn tag_package() -> Seq<u8> {
    seq![112u8, 97u8, 99u8, 107u8, 97u8, 103u8, 101u8]
}

/// `pkg`
pub open spec fn tag_pkg() -> Seq<u8> {
    seq![112u8, 107u8, 103u8]
}

/// `true`
pub open spec fn word_true() -> Seq<char> {
    seq!['t', 'r', 'u', 'e']
}

/// `false`
pub open spec fn word_false() -> Seq<char> {
    seq!['f', 'a', 'l', 's', 'e']
}

/// The value of the last attribute named `key`.
pub open spec fn last_attr(attrs: Seq<(Seq<u8>, Seq<char>)>, key: Seq<u8>) -> Option<Seq<char>>
    decreases attrs.len(),
{
    if attrs.len() == 0 {
        None
    } else if attrs.last().0 == key {
        Some(attrs.last().1)
    } else {
        last_attr(attrs.drop_last(), key)
    }
}

/// The user app that a `<package>` element of `packages.xml` describes: its
/// name, when it has a name and a code path and is a user app by
/// `is_user_app_spec` (public flags parsed as a decimal `i64`, the legacy
/// `system` attribute compared with `true` in any ASCII case).
pub open spec fn package_user_app_spec(attrs: Seq<(Seq<u8>, Seq<char>)>) -> Option<Seq<char>> {
    let flags = match last_attr(attrs, key_public_flags()) {
        Some(v) => parse_i64_spec(v, 10),
        None => None,
    };
    let legacy = match last_attr(attrs, key_system()) {
        Some(v) => Some(eq_ignore_ascii_case_spec(v, word_true())),
        None => None,
    };
    match (last_attr(attrs, key_name()), last_attr(attrs, key_code_path())) {
        (Some(n), Some(c)) => if is_user_app_spec(flags, legacy, c) {
            Some(n)
        } else {
            None
        },
        _ => None,
    }
}

/// The value of the last attribute named `k1` or `k2`.
pub open spec fn last_attr_of_two(attrs: Seq<(Seq<u8>, Seq<char>)>, k1: Seq<u8>, k2: Seq<u8>) -> Option<
    Seq<char>,
>
    decreases attrs.len(),
{
    if attrs.len() == 0 {
        None
    } else if attrs.last().0 == k1 || attrs.last().0 == k2 {
        Some(attrs.last().1)
    } else {
        last_attr_of_two(attrs.drop_last(), k1, k2)
    }
}

/// The install flag of a `<pkg>` element for the manager: `false` only when
/// its last `inst` or `installed` attribute is `false` in any ASCII case.
pub open spec fn installed_flag_spec(attrs: Seq<(Seq<u8>, Seq<char>)>) -> bool {
    match last_attr_of_two(attrs, key_inst(), key_installed()) {
        Some(v) => !eq_ignore_ascii_case_spec(v, word_false()),
        None => true,
    }
}

/// A flag that each attribute named `k1` or `k2` sets, in turn, when its
/// value spells a boolean, starting from `init`.
pub open spec fn boolish_flag_spec(
    attrs: Seq<(Seq<u8>, Seq<char>)>,
    k1: Seq<u8>,
    k2: Seq<u8>,
    init: bool,
) -> bool
    decreases attrs.len(),
{
    if attrs.len() == 0 {
        init
    } else {
        let prev = boolish_flag_spec(attrs.drop_last(), k1, k2, init);
        if attrs.last().0 == k1 || attrs.last().0 == k2 {
            match parse_boolish_spec(attrs.last().1) {
                Some(b) => b,
                None => prev,
            }
        } else {
            prev
        }
    }
}

/// The state of a package for the system user that a `<pkg>` element
/// records: installed unless `inst`/`installed` says otherwise, hidden when
/// `hidden`/`blocked` says so.
pub open spec fn package_state_spec(attrs: Seq<(Seq<u8>, Seq<char>)>) -> SystemUserPackageState {
    SystemUserPackageState {
        installed: boolish_flag_spec(attrs, key_inst(), key_installed(), true),
        hidden: boolish_flag_spec(attrs, key_hidden(), key_blocked(), false),
    }
}

/// The last attribute of `attrs[..n]` named `key`.
fn last_attribute(attrs: &[XmlAttribute], key: &[u8]) -> (r: Option<String>)
    ensures
        match r {
            Some(v) => last_attr(attr_views(attrs@), key@) == Some(v@),
            None => last_attr(attr_views(attrs@), key@) is None,
        },
{
    let mut i: usize = attrs.len();
    assert(attr_views(attrs@).take(attrs@.len() as int) =~= attr_views(attrs@));
    while i > 0
        invariant
            i <= attrs@.len(),
            last_attr(attr_views(attrs@), key@) == last_attr(attr_views(attrs@).take(i as int), key@),
        decreases i,
    {
        assert(attr_views(attrs@).take(i as int).drop_last() =~= attr_views(attrs@).take(i - 1));
        if bytes_eq(attrs[i - 1].key.as_slice(), key) {
            return Some(attrs[i - 1].value.clone());
        }
        i = i - 1;
    }
    None
}

/// The last attribute named `k1` or `k2`.
fn last_attribute_of_two(attrs: &[XmlAttribute], k1: &[u8], k2: &[u8]) -> (r: Option<String>)
    ensures
        match r {
            Some(v) => last_attr_of_two(attr_views(attrs@), k1@, k2@) == Some(v@),
            None => last_attr_of_two(attr_views(attrs@), k1@, k2@) is None,
        },
{
    let mut i: usize = attrs.len();
    assert(attr_views(attrs@).take(attrs@.len() as int) =~= attr_views(attrs@));
    while i > 0
        invariant
            i <= attrs@.len(),
            last_attr_of_two(attr_views(attrs@), k1@, k2@) == last_attr_of_two(
                attr_views(attrs@).take(i as int),
                k1@,
                k2@,
            ),
        decreases i,
    {
        assert(attr_views(attrs@).take(i as int).drop_last() =~= attr_views(attrs@).take(i - 1));
        if bytes_eq(attrs[i - 1].key.as_slice(), k1) || bytes_eq(attrs[i - 1].key.as_slice(), k2) {
            return Some(attrs[i - 1].value.clone());
        }
        i = i - 1;
    }
    None
}

/// The user app that a `<package>` element of `packages.xml` describes, if
/// it describes one.
pub fn package_user_app(attrs: &[XmlAttribute]) -> (r: Option<String>)
    ensures
        match r {
            Some(n) => package_user_app_spec(attr_views(attrs@)) == Some(n@),
            None => package_user_app_spec(attr_views(attrs@)) is None,
        },
{
    let k_name = [110u8, 97u8, 109u8, 101u8];
    let k_code = [99u8, 111u8, 100u8, 101u8, 80u8, 97u8, 116u8, 104u8];
    let k_flags = [112u8, 117u8, 98u8, 108u8, 105u8, 99u8, 70u8, 108u8, 97u8, 103u8, 115u8];
    let k_system = [115u8, 121u8, 115u8, 116u8, 101u8, 109u8];
    assert(k_name@ =~= key_name());
    assert(k_code@ =~= key_code_path());
    assert(k_flags@ =~= key_public_flags());
    assert(k_system@ =~= key_system());
    let public_flags = match last_attribute(attrs, k_flags.as_slice()) {
        Some(v) => {
            let digits = chars_of(v.as_str());
            parse_i64_radix(digits.as_slice(), 10)
        },
        None => None,
    };
    let t = ['t', 'r', 'u', 'e'];
    assert(t@ =~= word_true());
    let legacy_system = match last_attribute(attrs, k_system.as_slice()) {
        Some(v) => {
            let chars = chars_of(v.as_str());
            Some(eq_ignore_ascii_case(chars.as_slice(), t.as_slice()))
        },
        None => None,
    };
    let name = last_attribute(attrs, k_name.as_slice());
    let code_path = last_attribute(attrs, k_code.as_slice());
    match (name, code_path) {
        (Some(n), Some(c)) => {
            if crate::manager::is_user_app(public_flags, legacy_system, c.as_str()) {
                Some(n)
            } else {
                None
            }
        },
        _ => None,
    }
}

/// The name that a `<pkg>` element of `package-restrictions.xml` records,
/// with whether the package counts as installed for the manager.
pub fn package_install_entry(attrs: &[XmlAttribute]) -> (r: Option<(String, bool)>)
    ensures
        match r {
            Some((n, installed)) => last_attr(attr_views(attrs@), key_name()) == Some(n@)
                && installed == installed_flag_spec(attr_views(attrs@)),
            None => last_attr(attr_views(attrs@), key_name()) is None,
        },
{
    let k_name = [110u8, 97u8, 109u8, 101u8];
    let k_inst = [105u8, 110u8, 115u8, 116u8];
    let k_installed = [105u8, 110u8, 115u8, 116u8, 97u8, 108u8, 108u8, 101u8, 100u8];
    assert(k_name@ =~= key_name());
    assert(k_inst@ =~= key_inst());
    assert(k_installed@ =~= key_installed());
    let f = ['f', 'a', 'l', 's', 'e'];
    assert(f@ =~= word_false());
    let installed = match last_attribute_of_two(attrs, k_inst.as_slice(), k_installed.as_slice()) {
        Some(v) => {
            let chars = chars_of(v.as_str());
            !eq_ignore_ascii_case(chars.as_slice(), f.as_slice())
        },
        None => true,
    };
    match last_attribute(attrs, k_name.as_slice()) {
        Some(n) => Some((n, installed)),
        None => None,
    }
}

/// A flag set in turn by each attribute named `k1` or `k2` whose value spells
/// a boolean, starting from `init`.
fn boolish_flag(attrs: &[XmlAttribute], k1: &[u8], k2: &[u8], init: bool) -> (r: bool)
    ensures
        r == boolish_flag_spec(attr_views(attrs@), k1@, k2@, init),
{
    let mut flag = init;
    let mut i: usize = 0;
    assert(attr_views(attrs@).take(0) =~= Seq::<(Seq<u8>, Seq<char>)>::empty());
    while i < attrs.len()
        invariant
            i <= attrs@.len(),
            flag == boolish_flag_spec(attr_views(attrs@).take(i as int), k1@, k2@, init),
        decreases attrs.len() - i,
    {
        assert(attr_views(attrs@).take(i + 1).drop_last() =~= attr_views(attrs@).take(i as int));
        if bytes_eq(attrs[i].key.as_slice(), k1) || bytes_eq(attrs[i].key.as_slice(), k2) {
            match parse_boolish(attrs[i].value.as_str()) {
                Some(b) => {
                    flag = b;
                },
                None => {},
            }
        }
        i = i + 1;
    }
    assert(attr_views(attrs@).take(attrs@.len() as int) =~= attr_views(attrs@));
    flag
}

/// The name that a `<pkg>` element of `package-restrictions.xml` records,
/// with the package's state for the system user.
pub fn package_state_entry(attrs: &[XmlAttribute]) -> (r: Option<(String, SystemUserPackageState)>)
    ensures
        match r {
            Some((n, state)) => last_attr(attr_views(attrs@), key_name()) == Some(n@) && state
                == package_state_spec(attr_views(attrs@)),
            None => last_attr(attr_views(attrs@), key_name()) is None,
        },
{
    let k_name = [110u8, 97u8, 109u8, 101u8];
    let k_inst = [105u8, 110u8, 115u8, 116u8];
    let k_installed = [105u8, 110u8, 115u8, 116u8, 97u8, 108u8, 108u8, 101u8, 100u8];
    let k_hidden = [104u8, 105u8, 100u8, 100u8, 101u8, 110u8];
    let k_blocked = [98u8, 108u8, 111u8, 99u8, 107u8, 101u8, 100u8];
    assert(k_name@ =~= key_name());
    assert(k_inst@ =~= key_inst());
    assert(k_installed@ =~= key_installed());
    assert(k_hidden@ =~= key_hidden());
    assert(k_blocked@ =~= key_blocked());
    let state = SystemUserPackageState {
        installed: boolish_flag(attrs, k_inst.as_slice(), k_installed.as_slice(), true),
        hidden: boolish_flag(attrs, k_hidden.as_slice(), k_blocked.as_slice(), false),
    };
    match last_attribute(attrs, k_name.as_slice()) {
        Some(n) => Some((n, state)),
        None => None,
    }
}

/// The code path that a `<package>` element records, when its name is
/// `package`: `Some(code_path)` for a match (the path itself optional),
/// `None` for another package.
pub fn package_code_path_entry(attrs: &[XmlAttribute], package: &str) -> (r: Option<Option<String>>)
    ensures
        match r {
            Some(c) => last_attr(attr_views(attrs@), key_name()) == Some(package@) && match c {
                Some(p) => last_attr(attr_views(attrs@), key_code_path()) == Some(p@),
                None => last_attr(attr_views(attrs@), key_code_path()) is None,
            },
            None => last_attr(attr_views(attrs@), key_name()) != Some(package@),
        },
{
    let k_name = [110u8, 97u8, 109u8, 101u8];
    let k_code = [99u8, 111u8, 100u8, 101u8, 80u8, 97u8, 116u8, 104u8];
    assert(k_name@ =~= key_name());
    assert(k_code@ =~= key_code_path());
    match last_attribute(attrs, k_name.as_slice()) {
        Some(n) => {
            let a = chars_of(n.as_str());
            let b = chars_of(package);
            if crate::text::chars_eq(a.as_slice(), b.as_slice()) {
                Some(last_attribute(attrs, k_code.as_slice()))
            } else {
                None
            }
        },
        None => None,
    }
}

/// A tag as the parsers see it: its name and its attributes as
/// (name, value) pairs.
pub type ElementView = (Seq<u8>, Seq<(Seq<u8>, Seq<char>)>);

/// The tags `els`, as the parsers see them.
pub open spec fn element_views(els: Seq<XmlElement>) -> Seq<ElementView> {
    Seq::new(els.len(), |i: int| (els[i].name@, attr_views(els[i].attributes@)))
}

/// Whether a tag names a package entry of `package-restrictions.xml`:
/// `pkg`, or `package` in older files.
pub open spec fn is_restriction_tag(name: Seq<u8>) -> bool {
    name == tag_pkg() || name == tag_package()
}

/// The user apps that the `<package>` tags among `els` describe.
pub open spec fn user_apps_spec(els: Seq<ElementView>) -> Set<Seq<char>>
    decreases els.len(),
{
    if els.len() == 0 {
        Set::empty()
    } else {
        let prev = user_apps_spec(els.drop_last());
        let e = els.last();
        if e.0 == tag_package() {
            match package_user_app_spec(e.1) {
                Some(n) => prev.insert(n),
                None => prev,
            }
        } else {
            prev
        }
    }
}

/// The install flag of each package that a `<pkg>` (or `<package>`) tag
/// among `els` names; a later tag for the same name replaces an earlier one.
pub open spec fn install_states_spec(els: Seq<ElementView>) -> Map<Seq<char>, bool>
    decreases els.len(),
{
    if els.len() == 0 {
        Map::empty()
    } else {
        let prev = install_states_spec(els.drop_last());
        let e = els.last();
        if is_restriction_tag(e.0) {
            match last_attr(e.1, key_name()) {
                Some(n) => prev.insert(n, installed_flag_spec(e.1)),
                None => prev,
            }
        } else {
            prev
        }
    }
}

/// The state for the system user of each package that a `<pkg>` (or
/// `<package>`) tag among `els` names; a later tag for the same name
/// replaces an earlier one.
pub open spec fn system_user_states_spec(els: Seq<ElementView>) -> Map<Seq<char>, SystemUserPackageState>
    decreases els.len(),
{
    if els.len() == 0 {
        Map::empty()
    } else {
        let prev = system_user_states_spec(els.drop_last());
        let e = els.last();
        if is_restriction_tag(e.0) {
            match last_attr(e.1, key_name()) {
                Some(n) => prev.insert(n, package_state_spec(e.1)),
                None => prev,
            }
        } else {
            prev
        }
    }
}

/// The code path of the first `<package>` tag among `els` named `package`;
/// `None` when there is no such tag or it has no code path.
pub open spec fn code_path_spec(els: Seq<ElementView>, package: Seq<char>) -> Option<Seq<char>>
    decreases els.len(),
{
    if els.len() == 0 {
        None
    } else if els[0].0 == tag_package() && last_attr(els[0].1, key_name()) == Some(package) {
        last_attr(els[0].1, key_code_path())
    } else {
        code_path_spec(els.drop_first(), package)
    }
}

/// The user apps that the `<package>` tags among `els` describe.
pub fn user_apps_from_elements(els: &[XmlElement]) -> (s: PackageSet)
    ensures
        s.wf(),
        s@ == user_apps_spec(element_views(els@)),
{
    let k_package = [112u8, 97u8, 99u8, 107u8, 97u8, 103u8, 101u8];
    assert(k_package@ =~= tag_package());
    let mut s = PackageSet::new();
    let mut i: usize = 0;
    assert(element_views(els@).take(0) =~= Seq::<ElementView>::empty());
    while i < els.len()
        invariant
            i <= els@.len(),
            k_package@ == tag_package(),
            s.wf(),
            s@ == user_apps_spec(element_views(els@).take(i as int)),
        decreases els.len() - i,
    {
        assert(element_views(els@).take(i + 1).drop_last() =~= element_views(els@).take(i as int));
        if bytes_eq(els[i].name.as_slice(), k_package.as_slice()) {
            match package_user_app(els[i].attributes.as_slice()) {
                Some(n) => {
                    s.insert(n.as_str());
                },
                None => {},
            }
        }
        i = i + 1;
    }
    assert(element_views(els@).take(els@.len() as int) =~= element_views(els@));
    s
}

/// The install flag of each package that a `<pkg>` (or `<package>`) tag
/// among `els` names.
pub fn install_states_from_elements(els: &[XmlElement]) -> (m: PackageMap<bool>)
    ensures
        m.wf(),
        m@ == install_states_spec(element_views(els@)),
{
    let k_package = [112u8, 97u8, 99u8, 107u8, 97u8, 103u8, 101u8];
    let k_pkg = [112u8, 107u8, 103u8];
    assert(k_package@ =~= tag_package());
    assert(k_pkg@ =~= tag_pkg());
    let mut m: PackageMap<bool> = PackageMap::new();
    let mut i: usize = 0;
    assert(element_views(els@).take(0) =~= Seq::<ElementView>::empty());
    while i < els.len()
        invariant
            i <= els@.len(),
            k_package@ == tag_package(),
            k_pkg@ == tag_pkg(),
            m.wf(),
            m@ == install_states_spec(element_views(els@).take(i as int)),
        decreases els.len() - i,
    {
        assert(element_views(els@).take(i + 1).drop_last() =~= element_views(els@).take(i as int));
        if bytes_eq(els[i].name.as_slice(), k_pkg.as_slice()) || bytes_eq(
            els[i].name.as_slice(),
            k_package.as_slice(),
        ) {
            match package_install_entry(els[i].attributes.as_slice()) {
                Some((n, installed)) => {
                    m.insert(n.as_str(), installed);
                },
                None => {},
            }
        }
        i = i + 1;
    }
    assert(element_views(els@).take(els@.len() as int) =~= element_views(els@));
    m
}

/// The state for the system user of each package that a `<pkg>` (or
/// `<package>`) tag among `els` names.
pub fn system_user_states_from_elements(els: &[XmlElement]) -> (m: PackageMap<SystemUserPackageState>)
    ensures
        m.wf(),
        m@ == system_user_states_spec(element_views(els@)),
{
    let k_package = [112u8, 97u8, 99u8, 107u8, 97u8, 103u8, 101u8];
    let k_pkg = [112u8, 107u8, 103u8];
    assert(k_package@ =~= tag_package());
    assert(k_pkg@ =~= tag_pkg());
    let mut m: PackageMap<SystemUserPackageState> = PackageMap::new();
    let mut i: usize = 0;
    assert(element_views(els@).take(0) =~= Seq::<ElementView>::empty());
    while i < els.len()
        invariant
            i <= els@.len(),
            k_package@ == tag_package(),
            k_pkg@ == tag_pkg(),
            m.wf(),
            m@ == system_user_states_spec(element_views(els@).take(i as int)),
        decreases els.len() - i,
    {
        assert(element_views(els@).take(i + 1).drop_last() =~= element_views(els@).take(i as int));
        if bytes_eq(els[i].name.as_slice(), k_pkg.as_slice()) || bytes_eq(
            els[i].name.as_slice(),
            k_package.as_slice(),
        ) {
            match package_state_entry(els[i].attributes.as_slice()) {
                Some((n, state)) => {
                    m.insert(n.as_str(), state);
                },
                None => {},
            }
        }
        i = i + 1;
    }
    assert(element_views(els@).take(els@.len() as int) =~= element_views(els@));
    m
}

/// The code path of the first `<package>` tag among `els` named `package`.
pub fn code_path_from_elements(els: &[XmlElement], package: &str) -> (r: Option<String>)
    ensures
        match r {
            Some(p) => code_path_spec(element_views(els@), package@) == Some(p@),
            None => code_path_spec(element_views(els@), package@) is None,
        },
{
    let k_package = [112u8, 97u8, 99u8, 107u8, 97u8, 103u8, 101u8];
    assert(k_package@ =~= tag_package());
    let mut i: usize = 0;
    assert(element_views(els@).skip(0) =~= element_views(els@));
    while i < els.len()
        invariant
            i <= els@.len(),
            k_package@ == tag_package(),
            code_path_spec(element_views(els@), package@) == code_path_spec(
                element_views(els@).skip(i as int),
                package@,
            ),
        decreases els.len() - i,
    {
        assert(element_views(els@).skip(i as int).drop_first() =~= element_views(els@).skip(i + 1));
        if bytes_eq(els[i].name.as_slice(), k_package.as_slice()) {
            match package_code_path_entry(els[i].attributes.as_slice(), package) {
                Some(c) => {
                    return c;
                },
                None => {},
            }
        }
        i = i + 1;
    }
    None
}

/// Which tags a reader of package metadata keeps.
pub enum TagFilter {
    /// `<package>` tags, as in `packages.xml`.
    Package,
    /// `<pkg>` and `<package>` tags, as in `package-restrictions.xml`.
    Restriction,
}

/// Whether a tag named `name` is one that `filter` keeps.
pub open spec fn tag_wanted(filter: TagFilter, name: Seq<u8>) -> bool {
    match filter {
        TagFilter::Package => name == tag_package(),
        TagFilter::Restriction => is_restriction_tag(name),
    }
}

/// The tags that `filter` keeps among the events `ev`, each with its
/// attributes, up to the end of the document; `None` when the reader fails
/// first, or when a kept tag has a malformed attribute or a value that
/// cannot be decoded. Attributes of other tags are not read.
pub open spec fn read_tags(ev: Seq<EventView>, filter: TagFilter) -> Option<Seq<ElementView>>
    decreases ev.len(),
{
    if ev.len() == 0 {
        Some(Seq::empty())
    } else {
        match ev[0] {
            EventView::End => Some(Seq::empty()),
            EventView::Fail => None,
            EventView::Other => read_tags(ev.drop_first(), filter),
            EventView::Tag(t) => if tag_wanted(filter, t.0) {
                match attrs_spec(t.1) {
                    None => None,
                    Some(a) => match read_tags(ev.drop_first(), filter) {
                        Some(rest) => Some(seq![(t.0, a)] + rest),
                        None => None,
                    },
                }
            } else {
                read_tags(ev.drop_first(), filter)
            },
        }
    }
}

/// What the reader of one package's code path gives for the events `ev`:
/// the code path of the first `<package>` tag named `package` (`Some(None)`
/// when that tag has none, or there is no such tag before the end); `None`
/// when the reader fails first, or when a `<package>` tag before it has a
/// malformed attribute or a value that cannot be decoded. Later events are
/// not read.
pub open spec fn read_code_path(ev: Seq<EventView>, package: Seq<char>) -> Option<Option<Seq<char>>>
    decreases ev.len(),
{
    if ev.len() == 0 {
        Some(None)
    } else {
        match ev[0] {
            EventView::End => Some(None),
            EventView::Fail => None,
            EventView::Other => read_code_path(ev.drop_first(), package),
            EventView::Tag(t) => if t.0 == tag_package() {
                match attrs_spec(t.1) {
                    None => None,
                    Some(a) => if last_attr(a, key_name()) == Some(package) {
                        Some(last_attr(a, key_code_path()))
                    } else {
                        read_code_path(ev.drop_first(), package)
                    },
                }
            } else {
                read_code_path(ev.drop_first(), package)
            },
        }
    }
}

/// Events that are not tags, ends or errors change nothing that the
/// readers give.
pub proof fn lemma_readers_skip_others(ev: Seq<EventView>, filter: TagFilter, package: Seq<char>)
    ensures
        read_tags(skip_others(ev), filter) == read_tags(ev, filter),
        read_code_path(skip_others(ev), package) == read_code_path(ev, package),
    decreases ev.len(),
{
    if ev.len() > 0 && ev[0] is Other {
        lemma_readers_skip_others(ev.drop_first(), filter, package);
    }
}

/// `a` followed by the tags of `r`, when there are.
pub open spec fn prepend_tags(a: Seq<ElementView>, r: Option<Seq<ElementView>>) -> Option<Seq<ElementView>> {
    match r {
        Some(rest) => Some(a + rest),
        None => None,
    }
}

/// The kept tags of a document read with `reader`, each with its attributes:
/// reads up to the end, or to the first error.
pub fn read_kept_tags(reader: &mut ElementReader, filter: TagFilter, k1: &[u8], k2: &[u8]) -> (r: Result<
    Vec<XmlElement>,
    XmlParseError,
>)
    requires
        events_well_ended(old(reader).pending()),
        forall|n: Seq<u8>| tag_wanted(filter, n) <==> (n == k1@ || n == k2@),
    ensures
        match read_tags(old(reader).pending(), filter) {
            Some(els) => r matches Ok(v) && element_views(v@) == els,
            None => r is Err,
        },
{
    let ghost all = old(reader).pending();
    let mut elements: Vec<XmlElement> = Vec::new();
    assert(element_views(elements@) =~= Seq::<ElementView>::empty());
    proof {
        match read_tags(all, filter) {
            Some(rest) => {
                assert(Seq::<ElementView>::empty() + rest =~= rest);
            },
            None => {},
        }
    }
    loop
        invariant
            all == old(reader).pending(),
            events_well_ended(reader.pending()),
            forall|n: Seq<u8>| tag_wanted(filter, n) <==> (n == k1@ || n == k2@),
            read_tags(all, filter) == prepend_tags(element_views(elements@), read_tags(reader.pending(), filter)),
        decreases reader.pending().len(),
    {
        let ghost ev = reader.pending();
        proof {
            lemma_skip_others(ev);
            lemma_readers_skip_others(ev, filter, Seq::empty());
        }
        let ghost sk = skip_others(ev);
        let next = reader.next_element();
        match next {
            Err(e) => {
                return Err(e);
            },
            Ok(None) => {
                assert(element_views(elements@) + Seq::<ElementView>::empty() =~= element_views(elements@));
                return Ok(elements);
            },
            Ok(Some(tag)) => {
                let name = reader.element_name(&tag);
                if bytes_eq(name.as_slice(), k1) || bytes_eq(name.as_slice(), k2) {
                    match reader.element_attributes(&tag) {
                        Ok(attributes) => {
                            let ghost before = elements@;
                            let ghost e = (name@, attr_views(attributes@));
                            elements.push(XmlElement { name, attributes });
                            proof {
                                assert(element_views(elements@) =~= element_views(before).push(e));
                                match read_tags(sk.drop_first(), filter) {
                                    Some(rest) => {
                                        assert(element_views(before) + (seq![e] + rest) =~= element_views(elements@) + rest);
                                    },
                                    None => {},
                                }
                            }
                        },
                        Err(e) => {
                            return Err(e);
                        },
                    }
                }
            },
        }
    }
}

} // verus!
