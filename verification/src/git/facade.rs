//! The repository a diff or a commit message is read from.
use vstd::prelude::*;

verus! {

/// Names the repository that diffs and commit messages are read from.
pub struct GitFacade {
    pub repo_root: String,
}

impl GitFacade {
    /// A facade for the repository at `repo_root`.
    pub fn new(repo_root: String) -> (g: Self)
        ensures
            g.repo_root@ == repo_root@,
    {
        GitFacade { repo_root }
    }
}

} // verus!
