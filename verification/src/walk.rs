//! The decision logic of the tree walker.
//!
//! The walk itself is filesystem work done by the surrounding program; this
//! module fixes the two decisions that shape it: the depth cap that the
//! recursion flag imposes, and which entries the walk yields as renameable.
use vstd::prelude::*;

verus! {

/// The depth cap of a walk: unlimited when recursive, otherwise only the
/// direct children of the root (depth 1).
pub fn max_walk_depth(recursive: bool) -> (r: Option<usize>)
    ensures
        recursive ==> r is None,
        !recursive ==> r == Some(1usize),
{
    if recursive {
        None
    } else {
        Some(1)
    }
}

/// Whether a walk bounded by `limit` visits an entry at `depth`.
/// The root itself is at depth 0.
pub open spec fn spec_within_depth(depth: usize, limit: Option<usize>) -> bool {
    match limit {
        None => true,
        Some(l) => depth <= l,
    }
}

/// Executable counterpart of [`spec_within_depth`].
pub fn within_depth(depth: usize, limit: Option<usize>) -> (r: bool)
    ensures
        r == spec_within_depth(depth, limit),
{
    match limit {
        None => true,
        Some(l) => depth <= l,
    }
}

/// Whether an entry of the walk is renameable: the root directory never
/// is, and a non-file entry only is when directories are included.
pub open spec fn spec_entry_is_candidate(include_dir: bool, is_file: bool, is_root: bool) -> bool {
    !is_root && (include_dir || is_file)
}

/// Executable counterpart of [`spec_entry_is_candidate`].
pub fn entry_is_candidate(include_dir: bool, is_file: bool, is_root: bool) -> (r: bool)
    ensures
        r == spec_entry_is_candidate(include_dir, is_file, is_root),
{
    !is_root && (include_dir || is_file)
}

/// Whether a walk yields an entry at `depth` as renameable: the entry
/// must lie within the depth cap the recursion flag imposes and pass the
/// candidate filter; the root is the entry at depth 0.
pub open spec fn spec_walk_yields(
    recursive: bool,
    include_dir: bool,
    depth: usize,
    is_file: bool,
) -> bool {
    &&& spec_within_depth(
        depth,
        if recursive {
            None
        } else {
            Some(1usize)
        },
    )
    &&& spec_entry_is_candidate(include_dir, is_file, depth == 0)
}

/// A non-recursive walk yields only direct children of the root,
/// whatever the inclusion flags say: deeper entries are outside the
/// depth cap, and the root itself is never a candidate.
pub proof fn lemma_nonrecursive_walk_yields_only_direct_children(include_dir: bool)
    ensures
        forall|depth: usize, is_file: bool|
            spec_walk_yields(false, include_dir, depth, is_file) ==> depth == 1,
{
}

} // verus!
