//! Android keeps its package metadata in a file and its backups. The
//! readers try the candidate files in order: a missing file is skipped, a
//! file that cannot be read or parsed is remembered, and the first file
//! that loads decides. Only when none loads does the last failure count.

use vstd::prelude::*;

verus! {

/// What became of one candidate file.
pub enum CandidateOutcome<T> {
    /// The file does not exist.
    Missing,
    /// The file exists and could not be read or parsed; why.
    Failed(String),
    /// The file was read and parsed.
    Loaded(T),
}

impl<T> CandidateOutcome<T> {
    /// Whether the file loaded, after which no later candidate is tried.
    pub fn is_loaded(&self) -> (r: bool)
        ensures
            r == (self is Loaded),
    {
        match self {
            CandidateOutcome::Loaded(_) => true,
            _ => false,
        }
    }
}

/// What a scan of `outcomes`, in order, gives: the value of the first that
/// loaded; else the reason of the last that failed; else nothing.
pub open spec fn first_loaded_spec<T>(outcomes: Seq<CandidateOutcome<T>>) -> Result<Option<T>, Seq<char>>
    decreases outcomes.len(),
{
    if outcomes.len() == 0 {
        Ok(None)
    } else {
        match outcomes[0] {
            CandidateOutcome::Loaded(v) => Ok(Some(v)),
            CandidateOutcome::Missing => first_loaded_spec(outcomes.drop_first()),
            CandidateOutcome::Failed(e) => match first_loaded_spec(outcomes.drop_first()) {
                Ok(None) => Err(e@),
                other => other,
            },
        }
    }
}

/// The result of a scan of the candidate files, given what became of each,
/// in order.
pub fn first_loaded<T>(outcomes: Vec<CandidateOutcome<T>>) -> (r: Result<Option<T>, String>)
    ensures
        match first_loaded_spec(outcomes@) {
            Ok(v) => r matches Ok(w) && w == v,
            Err(e) => r matches Err(m) && m@ == e,
        },
{
    let ghost all = outcomes@;
    let ghost n = outcomes@.len();
    let mut rest = outcomes;
    let mut acc: Result<Option<T>, String> = Ok(None);
    assert(all.subrange(n as int, n as int) =~= Seq::<CandidateOutcome<T>>::empty());
    while rest.len() > 0
        invariant
            rest@ == all.subrange(0, rest@.len() as int),
            rest@.len() <= n,
            n == all.len(),
            match first_loaded_spec(all.subrange(rest@.len() as int, n as int)) {
                Ok(v) => acc matches Ok(w) && w == v,
                Err(e) => acc matches Err(m) && m@ == e,
            },
        decreases rest.len(),
    {
        let k = rest.len() - 1;
        let last = rest.pop().unwrap();
        assert(all.subrange(k as int, n as int).drop_first() =~= all.subrange(k + 1, n as int));
        assert(all.subrange(k as int, n as int)[0] == last);
        acc = match last {
            CandidateOutcome::Loaded(v) => Ok(Some(v)),
            CandidateOutcome::Missing => acc,
            CandidateOutcome::Failed(e) => match acc {
                Ok(None) => Err(e),
                other => other,
            },
        };
    }
    assert(all.subrange(0, n as int) =~= all);
    acc
}

/// The first candidate that loads decides, whatever the later ones hold: a
/// current file that loads, even empty, is never passed over for a stale
/// backup.
pub proof fn law_first_loaded_candidate_decides<T>(outcomes: Seq<CandidateOutcome<T>>, i: int)
    requires
        0 <= i < outcomes.len(),
        outcomes[i] is Loaded,
        forall|j: int| 0 <= j < i ==> !(#[trigger] outcomes[j] is Loaded),
    ensures
        first_loaded_spec(outcomes) == Ok::<Option<T>, Seq<char>>(Some(outcomes[i]->Loaded_0)),
    decreases i,
{
    if i > 0 {
        assert(outcomes.drop_first()[i - 1] == outcomes[i]);
        assert forall|j: int| 0 <= j < i - 1 implies !(#[trigger] outcomes.drop_first()[j] is Loaded) by {
            assert(outcomes.drop_first()[j] == outcomes[j + 1]);
        }
        law_first_loaded_candidate_decides(outcomes.drop_first(), i - 1);
        assert(!(outcomes[0] is Loaded));
    }
}

/// When no candidate loads, the scan fails with the reason of the last
/// candidate that failed.
pub proof fn law_last_failure_is_reported<T>(outcomes: Seq<CandidateOutcome<T>>, i: int)
    requires
        0 <= i < outcomes.len(),
        outcomes[i] is Failed,
        forall|j: int| 0 <= j < outcomes.len() ==> !(#[trigger] outcomes[j] is Loaded),
        forall|j: int| i < j < outcomes.len() ==> #[trigger] outcomes[j] is Missing,
    ensures
        first_loaded_spec(outcomes) == Err::<Option<T>, Seq<char>>(outcomes[i]->Failed_0@),
    decreases outcomes.len(),
{
    let rest = outcomes.drop_first();
    if i > 0 {
        assert forall|j: int| 0 <= j < rest.len() implies !(#[trigger] rest[j] is Loaded) by {
            assert(rest[j] == outcomes[j + 1]);
        }
        assert forall|j: int| i - 1 < j < rest.len() implies #[trigger] rest[j] is Missing by {
            assert(rest[j] == outcomes[j + 1]);
        }
        assert(rest[i - 1] == outcomes[i]);
        law_last_failure_is_reported(rest, i - 1);
        assert(!(outcomes[0] is Loaded));
    } else {
        lemma_all_missing(rest);
    }
}

/// A scan of candidates that are all missing finds nothing.
proof fn lemma_all_missing<T>(outcomes: Seq<CandidateOutcome<T>>)
    requires
        forall|j: int| 0 <= j < outcomes.len() ==> #[trigger] outcomes[j] is Missing,
    ensures
        first_loaded_spec(outcomes) == Ok::<Option<T>, Seq<char>>(None),
    decreases outcomes.len(),
{
    if outcomes.len() > 0 {
        let rest = outcomes.drop_first();
        assert forall|j: int| 0 <= j < rest.len() implies #[trigger] rest[j] is Missing by {
            assert(rest[j] == outcomes[j + 1]);
        }
        lemma_all_missing(rest);
        assert(outcomes[0] is Missing);
    }
}

} // verus!
