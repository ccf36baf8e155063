//! The fixed project-descriptor filter: which file names carry the
//! project-descriptor extension, and the walker's per-entry descent decision.

use vstd::prelude::*;

verus! {

/// The fixed suffix that identifies a project-descriptor file, dot included.
pub open spec fn project_suffix() -> Seq<char> {
    seq!['.', 'k', 'i', 'c', 'a', 'd', '_', 'p', 'r', 'o']
}

/// A file name carries the project-descriptor extension exactly when it ends
/// with the fixed suffix and keeps at least one character in front of it: a
/// name that is nothing but the suffix is a dot-file without an extension.
pub open spec fn is_project_file_name(name: Seq<char>) -> bool {
    name.len() > project_suffix().len() && name.subrange(
        name.len() - project_suffix().len(),
        name.len() as int,
    ) == project_suffix()
}

/// Decides whether a file name carries the project-descriptor extension.
pub fn has_project_extension(name: &str) -> (r: bool)
    ensures
        r == is_project_file_name(name@),
{
    let n = name.unicode_len();
    proof {
        reveal_strlit(".kicad_pro");
        assert(".kicad_pro"@ =~= project_suffix());
    }
    if n <= 10 {
        return false;
    }
    let suffix: &str = ".kicad_pro";
    let mut i: usize = 0;
    while i < 10
        invariant
            i <= 10,
            10 < n,
            n == name@.len(),
            suffix@ == project_suffix(),
            forall|j: int| 0 <= j < i ==> name@[n - 10 + j] == project_suffix()[j],
        decreases 10 - i,
    {
        if name.get_char(n - 10 + i) != suffix.get_char(i) {
            proof {
                assert(name@.subrange(n - 10, n as int)[i as int] == name@[n - 10 + i]);
            }
            return false;
        }
        i += 1;
    }
    proof {
        assert(name@.subrange(n - 10, n as int) =~= project_suffix());
    }
    true
}

/// The walker's per-entry eligibility decision: an entry may be visited only
/// while cancellation has not been requested, and only if it is a directory
/// or a regular file whose name carries the project-descriptor extension.
pub fn should_visit(cancelled: bool, is_dir: bool, is_file: bool, name: &str) -> (r: bool)
    ensures
        r == (!cancelled && (is_dir || (is_file && is_project_file_name(name@)))),
{
    !cancelled && (is_dir || (is_file && has_project_extension(name)))
}

} // verus!
