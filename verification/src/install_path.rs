//! Where Android installs user apps, and how a recorded code path is turned
//! into the directory that holds an app's APKs.
//!
//! Paths are handled as text. What the file system says of a path (whether
//! it is a directory, a file, whether its parent exists) is gathered by the
//! caller and handed in as `CodePathFacts`.

use vstd::prelude::*;
use crate::manager::{data_app_prefix, mnt_expand_prefix};
use crate::text::{
    chars_eq,
    chars_of,
    eq_ignore_ascii_case,
    eq_ignore_ascii_case_spec,
    opt_view,
    split_chars,
    split_spec,
    starts_with,
    starts_with_spec,
    strip_prefix,
};

verus! {

/// `path` with each backslash replaced by a slash.
pub open spec fn slashes_spec(path: Seq<char>) -> Seq<char> {
    Seq::new(path.len(), |i: int| if path[i] == '\\' { '/' } else { path[i] })
}

/// `/data/app-private/`
pub open spec fn data_app_private_prefix() -> Seq<char> {
    seq!['/', 'd', 'a', 't', 'a', '/', 'a', 'p', 'p', '-', 'p', 'r', 'i', 'v', 'a', 't', 'e', '/']
}

/// `app`
pub open spec fn app_word() -> Seq<char> {
    seq!['a', 'p', 'p']
}

/// `apk`
pub open spec fn apk_word() -> Seq<char> {
    seq!['a', 'p', 'k']
}

/// Whether `normalized` lies under the app directory of an adopted storage
/// volume: `/mnt/expand/<volume>/app`, the volume's name not empty, then the
/// end or a slash.
pub open spec fn adopted_storage_spec(normalized: Seq<char>) -> bool {
    starts_with_spec(normalized, mnt_expand_prefix()) && {
        let parts = split_spec(
            normalized.subrange(mnt_expand_prefix().len() as int, normalized.len() as int),
            '/',
        );
        parts.len() >= 2 && parts[0].len() > 0 && parts[1] == app_word()
    }
}

/// Whether `path`, with backslashes read as slashes, lies under a directory
/// where Android installs user apps: `/data/app/`, `/data/app-private/`, or
/// the app directory of an adopted storage volume.
pub open spec fn known_user_app_prefix_spec(path: Seq<char>) -> bool {
    let n = slashes_spec(path);
    starts_with_spec(n, data_app_prefix()) || starts_with_spec(n, data_app_private_prefix())
        || adopted_storage_spec(n)
}

/// `path` with each backslash replaced by a slash.
fn forward_slashes(path: &str) -> (out: Vec<char>)
    ensures
        out@ == slashes_spec(path@),
{
    let chars = chars_of(path);
    let mut out: Vec<char> = Vec::new();
    let mut i: usize = 0;
    while i < chars.len()
        invariant
            chars@ == path@,
            i <= chars@.len(),
            out@ =~= slashes_spec(path@).take(i as int),
        decreases chars.len() - i,
    {
        if chars[i] == '\\' {
            out.push('/');
        } else {
            out.push(chars[i]);
        }
        i = i + 1;
    }
    out
}

/// Whether a path with forward slashes lies under the app directory of an
/// adopted storage volume.
pub fn is_adopted_storage_app_path(normalized: &[char]) -> (r: bool)
    ensures
        r == adopted_storage_spec(normalized@),
{
    let mnt_expand = ['/', 'm', 'n', 't', '/', 'e', 'x', 'p', 'a', 'n', 'd', '/'];
    assert(mnt_expand@ =~= mnt_expand_prefix());
    let rest = match strip_prefix(normalized, mnt_expand.as_slice()) {
        Some(rest) => rest,
        None => {
            return false;
        },
    };
    let parts = split_chars(rest.as_slice(), '/');
    let app = ['a', 'p', 'p'];
    assert(app@ =~= app_word());
    if parts.len() < 2 {
        return false;
    }
    let volume_named = parts[0].len() > 0;
    let app_dir = chars_eq(parts[1].as_slice(), app.as_slice());
    assert(parts@[0]@ == split_spec(rest@, '/')[0]);
    assert(parts@[1]@ == split_spec(rest@, '/')[1]);
    volume_named && app_dir
}

/// Whether `path` lies under a directory where Android installs user apps.
pub fn has_known_user_app_prefix(path: &str) -> (r: bool)
    ensures
        r == known_user_app_prefix_spec(path@),
{
    let normalized = forward_slashes(path);
    let data_app = ['/', 'd', 'a', 't', 'a', '/', 'a', 'p', 'p', '/'];
    let data_app_private = [
        '/',
        'd',
        'a',
        't',
        'a',
        '/',
        'a',
        'p',
        'p',
        '-',
        'p',
        'r',
        'i',
        'v',
        'a',
        't',
        'e',
        '/',
    ];
    assert(data_app@ =~= data_app_prefix());
    assert(data_app_private@ =~= data_app_private_prefix());
    starts_with(normalized.as_slice(), data_app.as_slice()) || starts_with(
        normalized.as_slice(),
        data_app_private.as_slice(),
    ) || is_adopted_storage_app_path(normalized.as_slice())
}

/// Whether an existing path is one of a user app's: it lies under a known
/// install directory.
pub fn is_known_existing_user_app_path(path: &str) -> (r: bool)
    ensures
        r == known_user_app_prefix_spec(path@),
{
    has_known_user_app_prefix(path)
}

/// What the file system says of a recorded code path.
#[derive(Debug, Clone, Copy, PartialEq, Eq, Structural)]
pub struct CodePathFacts {
    /// The path is a directory.
    pub is_dir: bool,
    /// The path is a file.
    pub is_file: bool,
    /// The path has a parent, and it exists.
    pub parent_exists: bool,
}

/// What `std::path::Path::extension` gives for `path` on Unix: the part of
/// the file name after its last dot, if any.
pub uninterp spec fn path_extension_of(path: Seq<char>) -> Option<Seq<char>>;

/// What `std::path::Path::parent` gives for `path` on Unix: the path
/// without its last component, if it has one.
pub uninterp spec fn path_parent_of(path: Seq<char>) -> Option<Seq<char>>;

/// `std::path::Path::extension`: the extension of the path's file name.
/// Trusted: the result is `path_extension_of` of the path; what that is on
/// given text is not stated.
#[verifier::external_body]
fn path_extension(path: &str) -> (r: Option<String>)
    ensures
        opt_view(r) == path_extension_of(path@),
{
    match std::path::Path::new(path).extension() {
        Some(e) => Some(e.to_string_lossy().into_owned()),
        None => None,
    }
}

/// `std::path::Path::parent`: the path without its last component.
/// Trusted: the result is `path_parent_of` of the path; what that is on
/// given text is not stated.
#[verifier::external_body]
pub(crate) fn path_parent(path: &str) -> (r: Option<String>)
    ensures
        opt_view(r) == path_parent_of(path@),
{
    match std::path::Path::new(path).parent() {
        Some(p) => Some(p.to_string_lossy().into_owned()),
        None => None,
    }
}

/// The directory that holds an app's APKs, given a recorded code path, the
/// path's extension and parent, and what the file system says of it: the
/// path itself when it is a directory under a known install location; else,
/// when it is an APK (by its extension, in any ASCII case) or a file, its
/// parent when that exists and lies under a known install location.
pub open spec fn resolve_code_path_spec(
    path: Seq<char>,
    facts: CodePathFacts,
    extension: Option<Seq<char>>,
    parent: Option<Seq<char>>,
) -> Option<Seq<char>> {
    if facts.is_dir && known_user_app_prefix_spec(path) {
        Some(path)
    } else if (match extension {
        Some(e) => eq_ignore_ascii_case_spec(e, apk_word()),
        None => false,
    }) || facts.is_file {
        match parent {
            Some(p) => if facts.parent_exists && known_user_app_prefix_spec(p) {
                Some(p)
            } else {
                None
            },
            None => None,
        }
    } else {
        None
    }
}

/// The directory that holds an app's APKs, given a recorded code path and
/// the path's extension and parent.
pub fn resolve_code_path(
    path: &str,
    facts: CodePathFacts,
    extension: Option<String>,
    parent: Option<String>,
) -> (r: Option<String>)
    ensures
        opt_view(r) == resolve_code_path_spec(path@, facts, opt_view(extension), opt_view(parent)),
{
    if facts.is_dir && is_known_existing_user_app_path(path) {
        return Some(path.to_string());
    }
    let apk = ['a', 'p', 'k'];
    assert(apk@ =~= apk_word());
    let is_apk = match &extension {
        Some(e) => {
            let chars = chars_of(e.as_str());
            eq_ignore_ascii_case(chars.as_slice(), apk.as_slice())
        },
        None => false,
    };
    if !(is_apk || facts.is_file) {
        return None;
    }
    match parent {
        Some(p) => {
            if facts.parent_exists && is_known_existing_user_app_path(p.as_str()) {
                Some(p)
            } else {
                None
            }
        },
        None => None,
    }
}

/// The directory that holds an app's APKs, given a recorded code path and
/// what the file system says of it.
pub fn normalize_user_app_code_path(path: &str, facts: CodePathFacts) -> (r: Option<String>)
    ensures
        opt_view(r) == resolve_code_path_spec(
            path@,
            facts,
            path_extension_of(path@),
            path_parent_of(path@),
        ),
{
    let extension = path_extension(path);
    let parent = path_parent(path);
    resolve_code_path(path, facts, extension, parent)
}

} // verus!
