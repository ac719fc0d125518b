//! The boot-time readers of Android's package metadata: the code path of
//! one package in `packages.xml`, and the state of every package for the
//! system user in `package-restrictions.xml`.
//!
//! The tags are those that `quick-xml` yields for the document,
//! `xml_events_of`; the result is the interpretation of package tags in
//! `package_xml` of exactly those tags.

use vstd::prelude::*;
use crate::package_set::PackageMap;
use crate::package_state::SystemUserPackageState;
use crate::package_xml::{
    TagFilter,
    attr_views,
    lemma_readers_skip_others,
    package_code_path_entry,
    read_code_path,
    read_kept_tags,
    read_tags,
    system_user_states_from_elements,
    system_user_states_spec,
    tag_package,
    tag_pkg,
};
use crate::text::opt_view;
use crate::xml_events::{
    ElementReader,
    XmlParseError,
    bytes_eq,
    events_well_ended,
    lemma_skip_others,
    skip_others,
    xml_events_of,
};

verus! {

/// The code path that `packages.xml` records for `package`: that of the
/// first `<package>` tag with that name, read no further than that tag;
/// `None` when there is no such tag or it has no code path. An error when
/// the document is not well-formed before that tag, or a `<package>` tag up
/// to it has a malformed attribute.
pub fn parse_package_code_path(contents: &str, package: &str) -> (r: Result<Option<String>, XmlParseError>)
    ensures
        match read_code_path(xml_events_of(contents@), package@) {
            Some(c) => r matches Ok(p) && opt_view(p) == c,
            None => r is Err,
        },
{
    let k_package = [112u8, 97u8, 99u8, 107u8, 97u8, 103u8, 101u8];
    assert(k_package@ =~= tag_package());
    let mut reader = ElementReader::new(contents);
    let ghost all = xml_events_of(contents@);
    assert(read_code_path(all, package@) == read_code_path(reader.pending(), package@));
    loop
        invariant
            all == xml_events_of(contents@),
            k_package@ == tag_package(),
            events_well_ended(reader.pending()),
            read_code_path(all, package@) == read_code_path(reader.pending(), package@),
        decreases reader.pending().len(),
    {
        let ghost ev = reader.pending();
        proof {
            lemma_skip_others(ev);
            lemma_readers_skip_others(ev, TagFilter::Package, package@);
        }
        match reader.next_element() {
            Err(e) => {
                return Err(e);
            },
            Ok(None) => {
                return Ok(None);
            },
            Ok(Some(tag)) => {
                let name = reader.element_name(&tag);
                if bytes_eq(name.as_slice(), k_package.as_slice()) {
                    match reader.element_attributes(&tag) {
                        Ok(attributes) => {
                            match package_code_path_entry(attributes.as_slice(), package) {
                                Some(c) => {
                                    return Ok(c);
                                },
                                None => {},
                            }
                        },
                        Err(e) => {
                            return Err(e);
                        },
                    }
                }
            },
        }
    }
}

/// The state for the system user of each package that
/// `package-restrictions.xml` names by a `<pkg>` (or `<package>`) tag. An
/// error when the document is not well-formed or such a tag has a
/// malformed attribute.
pub fn parse_package_restrictions_xml(contents: &str) -> (r: Result<
    PackageMap<SystemUserPackageState>,
    XmlParseError,
>)
    ensures
        match read_tags(xml_events_of(contents@), TagFilter::Restriction) {
            Some(els) => r matches Ok(m) && m.wf() && m@ == system_user_states_spec(els),
            None => r is Err,
        },
{
    let k_package = [112u8, 97u8, 99u8, 107u8, 97u8, 103u8, 101u8];
    let k_pkg = [112u8, 107u8, 103u8];
    assert(k_package@ =~= tag_package());
    assert(k_pkg@ =~= tag_pkg());
    let mut reader = ElementReader::new(contents);
    let elements = read_kept_tags(&mut reader, TagFilter::Restriction, k_pkg.as_slice(), k_package.as_slice())?;
    Ok(system_user_states_from_elements(elements.as_slice()))
}

} // verus!
