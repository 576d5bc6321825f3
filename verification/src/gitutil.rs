//! Bookkeeping for skipping externally version-controlled folders during
//! a walk. The walk itself, and the recognition of a repository root,
//! happen outside; this module decides whether to descend and remembers
//! every skipped folder.

use vstd::prelude::*;

use crate::tree::string_eq;

verus! {

pub open spec fn contains_path(ps: Seq<String>, p: Seq<char>) -> bool {
    exists|k: int| 0 <= k < ps.len() && ps[k]@ == p
}

pub open spec fn path_views(ps: Seq<String>) -> Seq<Seq<char>> {
    ps.map_values(|s: String| s@)
}

/// The folders a walk has decided to skip because they are repository
/// roots.
pub struct GitIgnore {
    pub ignored_paths: Vec<String>,
}

impl GitIgnore {
    /// A fresh walk has skipped nothing.
    pub fn new() -> (r: GitIgnore)
        ensures
            r.ignored_paths@.len() == 0,
    {
        GitIgnore { ignored_paths: Vec::new() }
    }

    /// Record one directory of the walk: a path already skipped, or one
    /// recognized as a repository root, is not descended into; the latter
    /// is remembered. Everything else is descended into unchanged.
    pub fn note_directory(&mut self, path: &String, is_repository_root: bool) -> (descend: bool)
        ensures
            contains_path(old(self).ignored_paths@, path@) ==> !descend
                && final(self).ignored_paths@ == old(self).ignored_paths@,
            !contains_path(old(self).ignored_paths@, path@) && is_repository_root ==> !descend
                && path_views(final(self).ignored_paths@) == path_views(
                old(self).ignored_paths@,
            ).push(path@),
            !contains_path(old(self).ignored_paths@, path@) && !is_repository_root ==> descend
                && final(self).ignored_paths@ == old(self).ignored_paths@,
    {
        let mut k: usize = 0;
        while k < self.ignored_paths.len()
            invariant
                k <= self.ignored_paths@.len(),
                forall|j: int| 0 <= j < k ==> self.ignored_paths@[j]@ != path@,
                self.ignored_paths@ == old(self).ignored_paths@,
            decreases self.ignored_paths@.len() - k,
        {
            if string_eq(&self.ignored_paths[k], path) {
                return false;
            }
            k = k + 1;
        }
        if is_repository_root {
            let ghost before = self.ignored_paths@;
            self.ignored_paths.push(path.clone());
            proof {
                assert(path_views(self.ignored_paths@) =~= path_views(before).push(path@));
            }
            false
        } else {
            true
        }
    }
}

} // verus!
