//! Validation of Android package names: at least two segments separated by
//! dots, each starting with an ASCII letter and made of ASCII letters,
//! digits and underscores.

use vstd::prelude::*;
use crate::text::{
    chars_of,
    lemma_split_covers,
    lemma_split_first,
    lemma_split_without_separator,
    split_chars,
    split_spec,
    string_of,
};

verus! {

/// What is wrong with a package name, over a string type `S`.
#[derive(Debug, Clone, PartialEq, Eq)]
pub enum PackageNameFault<S> {
    /// The name is empty.
    Empty,
    /// The name has no dot.
    TooFewSegments,
    /// The name has an empty segment.
    EmptySegment,
    /// This segment does not start with an ASCII letter.
    InvalidSegmentStart(S),
    /// This segment holds a character other than an ASCII letter, digit or
    /// underscore.
    InvalidSegmentCharacter(S),
}

/// Why a package name is not valid: the name, and what is wrong with it.
#[derive(Debug, Clone, PartialEq, Eq)]
pub struct PackageNameError {
    /// The name that was checked.
    pub package: String,
    /// What is wrong with it.
    pub fault: PackageNameFault<String>,
}

/// A fault with its segment taken by its characters.
pub open spec fn fault_view(f: PackageNameFault<String>) -> PackageNameFault<Seq<char>> {
    match f {
        PackageNameFault::Empty => PackageNameFault::Empty,
        PackageNameFault::TooFewSegments => PackageNameFault::TooFewSegments,
        PackageNameFault::EmptySegment => PackageNameFault::EmptySegment,
        PackageNameFault::InvalidSegmentStart(s) => PackageNameFault::InvalidSegmentStart(s@),
        PackageNameFault::InvalidSegmentCharacter(s) => PackageNameFault::InvalidSegmentCharacter(s@),
    }
}

/// The sentence that reports `fault` in the package name `p`.
pub open spec fn fault_message_spec(p: Seq<char>, fault: PackageNameFault<Seq<char>>) -> Seq<char> {
    match fault {
        PackageNameFault::Empty => "Package name must not be empty"@,
        PackageNameFault::TooFewSegments => "Package name `"@ + p + "` must contain at least two segments"@,
        PackageNameFault::EmptySegment => "Package name `"@ + p + "` must not contain empty segments"@,
        PackageNameFault::InvalidSegmentStart(s) => "Package name `"@ + p + "` has invalid segment `"@ + s
            + "`: each segment must start with an ASCII letter"@,
        PackageNameFault::InvalidSegmentCharacter(s) => "Package name `"@ + p
            + "` has invalid segment `"@ + s
            + "`: only ASCII letters, digits, and underscores are allowed"@,
    }
}

impl PackageNameError {
    /// A sentence that describes the error.
    pub fn message(&self) -> (r: String)
        ensures
            r@ == fault_message_spec(self.package@, fault_view(self.fault)),
    {
        match &self.fault {
            PackageNameFault::Empty => "Package name must not be empty".to_string(),
            PackageNameFault::TooFewSegments => {
                let mut text = "Package name `".to_string();
                text.append(self.package.as_str());
                text.append("` must contain at least two segments");
                text
            },
            PackageNameFault::EmptySegment => {
                let mut text = "Package name `".to_string();
                text.append(self.package.as_str());
                text.append("` must not contain empty segments");
                text
            },
            PackageNameFault::InvalidSegmentStart(seg) => {
                let mut text = "Package name `".to_string();
                text.append(self.package.as_str());
                text.append("` has invalid segment `");
                text.append(seg.as_str());
                text.append("`: each segment must start with an ASCII letter");
                text
            },
            PackageNameFault::InvalidSegmentCharacter(seg) => {
                let mut text = "Package name `".to_string();
                text.append(self.package.as_str());
                text.append("` has invalid segment `");
                text.append(seg.as_str());
                text.append("`: only ASCII letters, digits, and underscores are allowed");
                text
            },
        }
    }
}

/// An ASCII letter.
pub open spec fn is_ascii_letter_spec(c: char) -> bool {
    ('a' <= c <= 'z') || ('A' <= c <= 'Z')
}

/// A character allowed after the first of a segment: an ASCII letter, an
/// ASCII digit or `_`.
pub open spec fn is_segment_char_spec(c: char) -> bool {
    is_ascii_letter_spec(c) || ('0' <= c <= '9') || c == '_'
}

/// What is wrong with one segment, if anything.
pub open spec fn segment_fault(seg: Seq<char>) -> Option<PackageNameFault<Seq<char>>> {
    if seg.len() == 0 {
        Some(PackageNameFault::EmptySegment)
    } else if !is_ascii_letter_spec(seg[0]) {
        Some(PackageNameFault::InvalidSegmentStart(seg))
    } else if exists|i: int| 1 <= i < seg.len() && !is_segment_char_spec(#[trigger] seg[i]) {
        Some(PackageNameFault::InvalidSegmentCharacter(seg))
    } else {
        None
    }
}

/// The fault of the first faulty segment, if any.
pub open spec fn first_segment_fault(segs: Seq<Seq<char>>) -> Option<PackageNameFault<Seq<char>>>
    decreases segs.len(),
{
    if segs.len() == 0 {
        None
    } else {
        match segment_fault(segs[0]) {
            Some(f) => Some(f),
            None => first_segment_fault(segs.drop_first()),
        }
    }
}

/// What is wrong with the package name `p`, if anything.
pub open spec fn package_name_fault(p: Seq<char>) -> Option<PackageNameFault<Seq<char>>> {
    if p.len() == 0 {
        Some(PackageNameFault::Empty)
    } else if split_spec(p, '.').len() < 2 {
        Some(PackageNameFault::TooFewSegments)
    } else {
        first_segment_fault(split_spec(p, '.'))
    }
}

/// Whether `c` is an ASCII letter.
fn is_ascii_letter(c: char) -> (r: bool)
    ensures
        r == is_ascii_letter_spec(c),
{
    (c >= 'a' && c <= 'z') || (c >= 'A' && c <= 'Z')
}

/// What is wrong with one segment, if anything.
fn check_segment(seg: &[char]) -> (r: Result<(), PackageNameFault<String>>)
    ensures
        match r {
            Ok(()) => segment_fault(seg@) is None,
            Err(f) => segment_fault(seg@) == Some(fault_view(f)),
        },
{
    if seg.len() == 0 {
        return Err(PackageNameFault::EmptySegment);
    }
    if !is_ascii_letter(seg[0]) {
        return Err(PackageNameFault::InvalidSegmentStart(string_of(seg)));
    }
    let mut i: usize = 1;
    while i < seg.len()
        invariant
            1 <= i <= seg@.len(),
            is_ascii_letter_spec(seg@[0]),
            forall|k: int| 1 <= k < i ==> is_segment_char_spec(#[trigger] seg@[k]),
        decreases seg.len() - i,
    {
        let c = seg[i];
        if !(is_ascii_letter(c) || (c >= '0' && c <= '9') || c == '_') {
            assert(!is_segment_char_spec(seg@[i as int]));
            return Err(PackageNameFault::InvalidSegmentCharacter(string_of(seg)));
        }
        i = i + 1;
    }
    Ok(())
}

/// Checks that `package` is a valid Android package name: at least two
/// non-empty segments separated by `.`, each starting with an ASCII letter
/// and made only of ASCII letters, digits and underscores. The error names
/// the first rule broken, checking segments in order.
pub fn validate_package_name(package: &str) -> (r: Result<(), PackageNameError>)
    ensures
        match r {
            Ok(()) => package_name_fault(package@) is None,
            Err(e) => e.package@ == package@ && package_name_fault(package@) == Some(
                fault_view(e.fault),
            ),
        },
{
    let chars = chars_of(package);
    if chars.len() == 0 {
        return Err(PackageNameError { package: package.to_string(), fault: PackageNameFault::Empty });
    }
    let segments = split_chars(chars.as_slice(), '.');
    if segments.len() < 2 {
        return Err(
            PackageNameError { package: package.to_string(), fault: PackageNameFault::TooFewSegments },
        );
    }
    let ghost segs = split_spec(package@, '.');
    let mut i: usize = 0;
    assert(segs.skip(0) =~= segs);
    while i < segments.len()
        invariant
            package@.len() > 0,
            segs == split_spec(package@, '.'),
            segs.len() >= 2,
            segments@.len() == segs.len(),
            forall|k: int| 0 <= k < segments@.len() ==> #[trigger] segments@[k]@ == segs[k],
            i <= segs.len(),
            first_segment_fault(segs) == first_segment_fault(segs.skip(i as int)),
        decreases segments.len() - i,
    {
        assert(segs.skip(i as int)[0] == segs[i as int]);
        assert(segs.skip(i as int).drop_first() =~= segs.skip(i + 1));
        match check_segment(segments[i].as_slice()) {
            Ok(()) => {},
            Err(fault) => {
                return Err(PackageNameError { package: package.to_string(), fault });
            },
        }
        i = i + 1;
    }
    assert(segs.skip(i as int) =~= Seq::<Seq<char>>::empty());
    Ok(())
}

/// Whether `package` is a valid Android package name.
pub fn is_valid_package_name(package: &str) -> (r: bool)
    ensures
        r == (package_name_fault(package@) is None),
{
    validate_package_name(package).is_ok()
}

/// When no segment of `segs` is faulty, each one is sound.
proof fn lemma_no_segment_fault(segs: Seq<Seq<char>>)
    requires
        first_segment_fault(segs) is None,
    ensures
        forall|k: int| 0 <= k < segs.len() ==> segment_fault(#[trigger] segs[k]) is None,
    decreases segs.len(),
{
    if segs.len() > 0 {
        lemma_no_segment_fault(segs.drop_first());
        assert forall|k: int| 0 <= k < segs.len() implies segment_fault(#[trigger] segs[k]) is None by {
            if k > 0 {
                assert(segs[k] == segs.drop_first()[k - 1]);
            }
        }
    }
}

/// A valid package name starts with an ASCII letter, holds a dot, and is
/// made only of ASCII letters, digits, underscores and dots.
pub proof fn law_valid_name_shape(p: Seq<char>)
    requires
        package_name_fault(p) is None,
    ensures
        p.len() > 0,
        ('a' <= p[0] <= 'z') || ('A' <= p[0] <= 'Z'),
        exists|i: int| 0 <= i < p.len() && p[i] == '.',
        forall|i: int|
            0 <= i < p.len() ==> {
                let c = #[trigger] p[i];
                c == '.' || ('a' <= c <= 'z') || ('A' <= c <= 'Z') || ('0' <= c <= '9') || c == '_'
            },
{
    let segs = split_spec(p, '.');
    lemma_no_segment_fault(segs);
    lemma_split_covers(p, '.');
    lemma_split_first(p, '.');
    assert(segment_fault(segs[0]) is None);
    if forall|i: int| 0 <= i < p.len() ==> p[i] != '.' {
        lemma_split_without_separator(p, '.');
    }
    assert forall|i: int| 0 <= i < p.len() implies {
        let c = #[trigger] p[i];
        c == '.' || ('a' <= c <= 'z') || ('A' <= c <= 'Z') || ('0' <= c <= '9') || c == '_'
    } by {
        if p[i] != '.' {
            let (k, j) = choose|k: int, j: int|
                0 <= k < segs.len() && 0 <= j < segs[k].len() && #[trigger] segs[k][j] == #[trigger] p[i];
            assert(segment_fault(segs[k]) is None);
            if j > 0 {
                assert(is_segment_char_spec(segs[k][j]));
            }
        }
    }
}

/// A segment that starts with an ASCII letter of either case and holds only
/// ASCII letters of either case, digits and underscores.
pub open spec fn well_formed_segment(seg: Seq<char>) -> bool {
    &&& seg.len() > 0
    &&& ('a' <= seg[0] <= 'z') || ('A' <= seg[0] <= 'Z')
    &&& forall|j: int|
        0 <= j < seg.len() ==> {
            let c = #[trigger] seg[j];
            ('a' <= c <= 'z') || ('A' <= c <= 'Z') || ('0' <= c <= '9') || c == '_'
        }
}

/// Well-formed segments have no fault.
proof fn lemma_well_formed_segments(segs: Seq<Seq<char>>)
    requires
        forall|k: int| 0 <= k < segs.len() ==> well_formed_segment(#[trigger] segs[k]),
    ensures
        first_segment_fault(segs) is None,
    decreases segs.len(),
{
    if segs.len() > 0 {
        let rest = segs.drop_first();
        assert forall|k: int| 0 <= k < rest.len() implies well_formed_segment(#[trigger] rest[k]) by {
            assert(rest[k] == segs[k + 1]);
        }
        lemma_well_formed_segments(rest);
        let seg = segs[0];
        assert(well_formed_segment(seg));
        assert forall|i: int| 1 <= i < seg.len() implies is_segment_char_spec(#[trigger] seg[i]) by {
            let c = seg[i];
            assert(('a' <= c <= 'z') || ('A' <= c <= 'Z') || ('0' <= c <= '9') || c == '_');
        }
    }
}

/// A name of at least two dot-separated segments, each starting with an
/// ASCII letter of either case and holding only ASCII letters of either
/// case, digits and underscores, is valid.
pub proof fn law_well_formed_name_is_valid(p: Seq<char>)
    requires
        split_spec(p, '.').len() >= 2,
        forall|k: int|
            0 <= k < split_spec(p, '.').len() ==> well_formed_segment(#[trigger] split_spec(p, '.')[k]),
    ensures
        package_name_fault(p) is None,
{
    if p.len() == 0 {
        assert(split_spec(p, '.') == seq![Seq::<char>::empty()]);
    }
    lemma_well_formed_segments(split_spec(p, '.'));
}

} // verus!
