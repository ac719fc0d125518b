//! The manager's readers of Android's package metadata: the user apps of
//! `packages.xml` and the install flags of the system user's
//! `package-restrictions.xml`.
//!
//! The tags are those that `quick-xml` yields for the document,
//! `xml_events_of`; the result is the interpretation of package tags in
//! `package_xml` of exactly those tags.

use vstd::prelude::*;
use crate::package_set::{PackageMap, PackageSet};
use crate::package_xml::{
    TagFilter,
    install_states_from_elements,
    install_states_spec,
    read_kept_tags,
    read_tags,
    tag_package,
    tag_pkg,
    user_apps_from_elements,
    user_apps_spec,
};
use crate::xml_events::{ElementReader, XmlParseError, xml_events_of};

verus! {

/// The user apps that `packages.xml` describes: the names of its
/// `<package>` tags that have a code path and are user apps. An error when
/// the document is not well-formed or a `<package>` tag has a malformed
/// attribute.
pub fn parse_packages_xml_user_apps(contents: &str) -> (r: Result<PackageSet, XmlParseError>)
    ensures
        match read_tags(xml_events_of(contents@), TagFilter::Package) {
            Some(els) => r matches Ok(s) && s.wf() && s@ == user_apps_spec(els),
            None => r is Err,
        },
{
    let k_package = [112u8, 97u8, 99u8, 107u8, 97u8, 103u8, 101u8];
    assert(k_package@ =~= tag_package());
    let mut reader = ElementReader::new(contents);
    let elements = read_kept_tags(&mut reader, TagFilter::Package, k_package.as_slice(), k_package.as_slice())?;
    Ok(user_apps_from_elements(elements.as_slice()))
}

/// Whether each package that the system user's `package-restrictions.xml`
/// names is installed for that user, by its `<pkg>` (or `<package>`) tags.
/// An error when the document is not well-formed or such a tag has a
/// malformed attribute.
pub fn parse_package_restrictions_xml(contents: &str) -> (r: Result<PackageMap<bool>, XmlParseError>)
    ensures
        match read_tags(xml_events_of(contents@), TagFilter::Restriction) {
            Some(els) => r matches Ok(m) && m.wf() && m@ == install_states_spec(els),
            None => r is Err,
        },
{
    let k_package = [112u8, 97u8, 99u8, 107u8, 97u8, 103u8, 101u8];
    let k_pkg = [112u8, 107u8, 103u8];
    assert(k_package@ =~= tag_package());
    assert(k_pkg@ =~= tag_pkg());
    let mut reader = ElementReader::new(contents);
    let elements = read_kept_tags(&mut reader, TagFilter::Restriction, k_pkg.as_slice(), k_package.as_slice())?;
    Ok(install_states_from_elements(elements.as_slice()))
}

} // verus!
