//! The bounded search's decision core: the error taxonomy, the zero/one/many
//! selection policy over the collected candidates, and the resolution of a
//! bounded walk's outcome into exactly one path or one specific error.

use crate::fs_model::{collect_matches, matches_in_tree, views_of, FsEntry};
use vstd::prelude::*;

verus! {

/// The four terminal failure kinds of a bounded search: none is retried.
#[derive(Debug, PartialEq, Eq)]
pub enum SearchError {
    /// The bounded search did not finish within the allotted window.
    Timeout,
    /// The background traversal failed to run to completion.
    JoinError,
    /// Traversal found no matching file; carries the searched root.
    NoProjectsFound(String),
    /// Traversal found two or more matching files; carries them all, in
    /// discovery order as merged.
    MultipleProjectsFound(Vec<String>),
}

/// What the wait on the background walk came back with: the merged
/// candidates, or the window elapsed first, or the walk was lost.
pub enum WalkOutcome {
    Completed(Vec<String>),
    TimedOut,
    JoinFailed,
}

/// The selection policy's obligation on a result `r` for a search rooted at
/// `root` that found the candidate paths `found`: no candidate fails with
/// the root, exactly one succeeds with that candidate, two or more fail
/// with all of them.
pub open spec fn selection_post(
    root: Seq<char>,
    found: Seq<Seq<char>>,
    r: Result<String, SearchError>,
) -> bool {
    &&& (found.len() == 0 ==> (r matches Err(SearchError::NoProjectsFound(p)) && p@ == root))
    &&& (found.len() == 1 ==> (r matches Ok(p) && p@ == found[0]))
    &&& (found.len() >= 2 ==> (r matches Err(SearchError::MultipleProjectsFound(v))
        && views_of(v@) == found))
}

/// Applies the zero/one/many selection policy to the merged candidates.
pub fn select_project(root: &str, candidates: Vec<String>) -> (r: Result<String, SearchError>)
    ensures
        selection_post(root@, views_of(candidates@), r),
{
    if candidates.len() == 0 {
        Err(SearchError::NoProjectsFound(root.to_owned()))
    } else if candidates.len() == 1 {
        let mut v = candidates;
        let p = v.pop().unwrap();
        Ok(p)
    } else {
        Err(SearchError::MultipleProjectsFound(candidates))
    }
}

/// A worker's single merge into the shared result collection: the worker's
/// whole private buffer moves to the end of the shared candidates, in one
/// step, and the buffer is left empty. Merging in any order leaves the
/// selection unaffected, as `lemma_selection_order_insensitive` states.
pub fn merge_candidates(shared: &mut Vec<String>, buffer: &mut Vec<String>)
    ensures
        final(shared)@ == old(shared)@ + old(buffer)@,
        final(buffer)@ == Seq::<String>::empty(),
{
    shared.append(buffer);
}

/// The orchestrator's obligation on a result for one walk outcome: a timed
/// out wait fails with Timeout, a lost walk fails with JoinError, and a
/// completed walk is resolved by the selection policy.
pub open spec fn search_post(
    root: Seq<char>,
    outcome: WalkOutcome,
    r: Result<String, SearchError>,
) -> bool {
    match outcome {
        WalkOutcome::TimedOut => r matches Err(SearchError::Timeout),
        WalkOutcome::JoinFailed => r matches Err(SearchError::JoinError),
        WalkOutcome::Completed(v) => selection_post(root, views_of(v@), r),
    }
}

/// Resolves what the bounded wait on the background walk came back with:
/// exactly one candidate on success, or one of the four terminal errors.
pub fn resolve_outcome(root: &str, outcome: WalkOutcome) -> (r: Result<String, SearchError>)
    ensures
        search_post(root@, outcome, r),
{
    match outcome {
        WalkOutcome::TimedOut => Err(SearchError::Timeout),
        WalkOutcome::JoinFailed => Err(SearchError::JoinError),
        WalkOutcome::Completed(v) => select_project(root, v),
    }
}

/// The whole search on a modelled tree: collect every matching file
/// reachable from the root without following symbolic links, then select.
/// Exactly one match succeeds with that match; no match fails with
/// NoProjectsFound carrying the root; two or more fail with
/// MultipleProjectsFound carrying exactly the matches, in traversal order.
pub fn find_project_in_tree(root: &str, entries: &Vec<FsEntry>) -> (r: Result<
    String,
    SearchError,
>)
    ensures
        selection_post(root@, matches_in_tree(root@, entries@), r),
{
    let found = collect_matches(root, entries);
    select_project(root, found)
}

/// Two results agree when they succeed alike, with the same path, or fail
/// alike, with the same error kind and the same carried paths.
pub open spec fn same_outcome(
    r1: Result<String, SearchError>,
    r2: Result<String, SearchError>,
) -> bool {
    match (r1, r2) {
        (Ok(p1), Ok(p2)) => p1@ == p2@,
        (Err(e1), Err(e2)) => match (e1, e2) {
            (SearchError::Timeout, SearchError::Timeout) => true,
            (SearchError::JoinError, SearchError::JoinError) => true,
            (SearchError::NoProjectsFound(a), SearchError::NoProjectsFound(b)) => a@ == b@,
            (
                SearchError::MultipleProjectsFound(a),
                SearchError::MultipleProjectsFound(b),
            ) => views_of(a@) == views_of(b@),
            _ => false,
        },
        _ => false,
    }
}

/// The kind of a search result, with the carried paths abstracted away.
pub enum OutcomeKind {
    Found,
    NothingFound,
    Ambiguous,
    TimedOut,
    Lost,
}

/// The kind of outcome a result names.
pub open spec fn kind_of(r: Result<String, SearchError>) -> OutcomeKind {
    match r {
        Ok(_) => OutcomeKind::Found,
        Err(SearchError::Timeout) => OutcomeKind::TimedOut,
        Err(SearchError::JoinError) => OutcomeKind::Lost,
        Err(SearchError::NoProjectsFound(_)) => OutcomeKind::NothingFound,
        Err(SearchError::MultipleProjectsFound(_)) => OutcomeKind::Ambiguous,
    }
}

/// The order in which the workers' buffers were merged never affects what
/// the selection decides: two searches whose merged candidates hold the
/// same paths, in any order, resolve to the same kind of outcome, and a
/// unique match succeeds with the same path in both.
pub proof fn lemma_selection_order_insensitive(
    root: Seq<char>,
    found1: Seq<Seq<char>>,
    found2: Seq<Seq<char>>,
    r1: Result<String, SearchError>,
    r2: Result<String, SearchError>,
)
    requires
        found1.to_multiset() == found2.to_multiset(),
        selection_post(root, found1, r1),
        selection_post(root, found2, r2),
    ensures
        kind_of(r1) == kind_of(r2),
        (r1 is Ok && r2 is Ok) ==> r1->Ok_0@ == r2->Ok_0@,
{
    found1.to_multiset_ensures();
    found2.to_multiset_ensures();
    assert(found1.len() == found2.len());
    if found1.len() == 1 {
        assert(found1.contains(found1[0]));
        assert(found2.to_multiset().count(found1[0]) > 0);
        assert(found2.contains(found1[0]));
        let j = choose|j: int| 0 <= j < found2.len() && found2[j] == found1[0];
        assert(found2[j] == found1[0]);
        assert(found2[0] == found1[0]);
    }
}

/// Repeated searches of an unchanged tree resolve alike: any two results
/// the selection policy admits for one root and one collection of found
/// candidates name the same outcome.
pub proof fn lemma_selection_deterministic(
    root: Seq<char>,
    found: Seq<Seq<char>>,
    r1: Result<String, SearchError>,
    r2: Result<String, SearchError>,
)
    requires
        selection_post(root, found, r1),
        selection_post(root, found, r2),
    ensures
        same_outcome(r1, r2),
{
}

} // verus!
