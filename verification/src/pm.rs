//! The output of Android's package manager tool, `pm`, as the library reads
//! it: what `pm path` prints for a package, and when its failure means that
//! the package is missing.

use vstd::prelude::*;
use crate::manager::{package_line, package_line_name, string_views};
use crate::text::{
    chars_of,
    contains_chars,
    contains_spec,
    split_chars,
    split_spec,
    string_of,
    to_ascii_lower_spec,
    to_ascii_lowercase,
    trim_spec,
    trim_str,
};

verus! {

/// What a run of `pm` gave back: whether it exited with success, and its
/// standard output and standard error, decoded.
#[derive(Debug, Clone, PartialEq, Eq)]
pub struct PmOutput {
    /// The process exited with status zero.
    pub success: bool,
    /// What it printed on standard output.
    pub stdout: String,
    /// What it printed on standard error.
    pub stderr: String,
}

/// The names of the lines `package:<name>` among `lines`, in order.
pub open spec fn line_names_spec(lines: Seq<Seq<char>>) -> Seq<Seq<char>>
    decreases lines.len(),
{
    if lines.len() == 0 {
        Seq::empty()
    } else {
        let prev = line_names_spec(lines.drop_last());
        match package_line_name(lines.last()) {
            Some(n) => prev.push(n),
            None => prev,
        }
    }
}

/// The APK paths that `pm path` prints, one `package:<path>` per line, in
/// order; other lines are ignored.
pub open spec fn pm_path_output_spec(stdout: Seq<char>) -> Seq<Seq<char>> {
    line_names_spec(split_spec(stdout, '\n'))
}

/// Whether the lower-cased error text of `pm` says that a package is
/// unknown or not installed.
pub open spec fn missing_package_phrase(lower: Seq<char>) -> bool {
    ||| contains_spec(lower, "unknown package"@)
    ||| contains_spec(lower, "package not found"@)
    ||| contains_spec(lower, "package was not found"@)
    ||| contains_spec(lower, "unable to find package"@)
    ||| contains_spec(lower, "not installed for"@)
}

/// Whether a failed `pm path` means that the package is missing: it printed
/// no APK path, and its error output is empty or says so.
pub open spec fn missing_package_spec(stdout: Seq<char>, stderr: Seq<char>) -> bool {
    &&& pm_path_output_spec(stdout).len() == 0
    &&& (trim_spec(stderr).len() == 0 || missing_package_phrase(to_ascii_lower_spec(trim_spec(stderr))))
}

/// The APK paths that the output of `pm path` lists, in order.
pub fn parse_pm_path_output(stdout: &str) -> (r: Vec<String>)
    ensures
        string_views(r@) == pm_path_output_spec(stdout@),
{
    let chars = chars_of(stdout);
    let lines = split_chars(chars.as_slice(), '\n');
    let ghost sp = split_spec(stdout@, '\n');
    let mut out: Vec<String> = Vec::new();
    let mut i: usize = 0;
    assert(sp.take(0) =~= Seq::<Seq<char>>::empty());
    assert(string_views(out@) =~= Seq::<Seq<char>>::empty());
    while i < lines.len()
        invariant
            lines@.len() == sp.len(),
            forall|k: int| 0 <= k < lines@.len() ==> #[trigger] lines@[k]@ == sp[k],
            i <= sp.len(),
            string_views(out@) == line_names_spec(sp.take(i as int)),
        decreases lines.len() - i,
    {
        assert(sp.take(i + 1).drop_last() =~= sp.take(i as int));
        assert(sp.take(i + 1).last() == lines@[i as int]@);
        match package_line(lines[i].as_slice()) {
            Some(n) => {
                let path = string_of(n.as_slice());
                let ghost before = out@;
                out.push(path);
                assert(string_views(out@) =~= string_views(before).push(path@));
            },
            None => {},
        }
        i = i + 1;
    }
    assert(sp.take(sp.len() as int) =~= sp);
    out
}

/// Whether `needle` occurs in `hay`, both given as text.
fn contains_text(hay: &[char], needle: &str) -> (r: bool)
    ensures
        r == contains_spec(hay@, needle@),
{
    let n = chars_of(needle);
    contains_chars(hay, n.as_slice())
}

/// Whether a failed `pm path` means that the package is missing.
pub fn pm_path_failure_indicates_missing_package(stdout: &str, stderr: &str) -> (r: bool)
    ensures
        r == missing_package_spec(stdout@, stderr@),
{
    let paths = parse_pm_path_output(stdout);
    if paths.len() > 0 {
        return false;
    }
    let trimmed = trim_str(stderr);
    if trimmed.len() == 0 {
        return true;
    }
    let lower = to_ascii_lowercase(trimmed.as_slice());
    contains_text(lower.as_slice(), "unknown package") || contains_text(
        lower.as_slice(),
        "package not found",
    ) || contains_text(lower.as_slice(), "package was not found") || contains_text(
        lower.as_slice(),
        "unable to find package",
    ) || contains_text(lower.as_slice(), "not installed for")
}

} // verus!
