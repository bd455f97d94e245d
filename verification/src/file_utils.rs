use vstd::prelude::*;

verus! {

/// Creation of a file or directory is wanted only when the path does
/// not exist yet; an existing path is left exactly as it is.
pub open spec fn creation_needed(existing: Seq<Seq<char>>, path: Seq<char>) -> bool {
    !existing.contains(path)
}

/// Decision logic for file and directory creation.  The file system
/// itself is the caller's part; it hands in the listing of paths that
/// already exist and performs only the creations decided here, then
/// records them.
pub struct FileUtils {}

impl FileUtils {
    /// Decides whether a path still has to be created.
    pub fn needs_creation(existing: &Vec<String>, path: &String) -> (r: bool)
        ensures
            r == creation_needed(existing.deep_view(), path@),
    {
        let n: usize = existing.len();
        let mut k: usize = 0;
        while k < n
            invariant
                0 <= k <= n,
                n == existing.len(),
                forall|j: int| 0 <= j < k ==> existing.deep_view()[j] != path@,
            decreases n - k,
        {
            if existing[k].eq(path) {
                assert(existing.deep_view()[k as int] == path@);
                assert(existing.deep_view().contains(path@));
                return false;
            }
            k += 1;
        }
        assert forall|j: int| 0 <= j < existing.deep_view().len() implies existing.deep_view()[j]
            != path@ by {}
        assert(!existing.deep_view().contains(path@));
        true
    }

    /// Records that a path was created.
    pub fn record_created(existing: &mut Vec<String>, path: &String)
        ensures
            final(existing).deep_view() == old(existing).deep_view().push(path@),
    {
        existing.push(path.clone());
        assert(existing.deep_view() =~~= old(existing).deep_view().push(path@));
    }
}

/// Creating the same path twice is idempotent: once a creation has
/// been recorded, a second creation of that path is no longer needed,
/// so the second call performs nothing and what exists is unchanged.
pub proof fn lemma_creation_idempotent(existing: Seq<Seq<char>>, path: Seq<char>)
    ensures
        !creation_needed(existing.push(path), path),
{
    assert(existing.push(path)[existing.len() as int] == path);
    assert(existing.push(path).contains(path));
}

} // verus!
