//! Finding the patches that change given files.

use crate::error::Error;
use crate::oid::CommitId;
use crate::patchname::PatchName;
use crate::stack::Stack;
use crate::state::{names_of, StateView};
use crate::text::find_byte;
use vstd::prelude::*;
use vstd::slice::*;

verus! {

/// The first position at or after `i` that holds `sep`, or the length of `buf`.
pub open spec fn next_sep(buf: Seq<u8>, sep: u8, i: int) -> int
    decreases buf.len() - i,
{
    if 0 <= i < buf.len() && buf[i] != sep {
        next_sep(buf, sep, i + 1)
    } else {
        i
    }
}

/// The pieces of `buf` from `start` on that stand between separators and
/// are not empty.
pub open spec fn pieces_from(buf: Seq<u8>, sep: u8, start: int) -> Seq<Seq<u8>>
    decreases buf.len() - start,
{
    if start < 0 || start >= buf.len() {
        Seq::empty()
    } else {
        let end = next_sep(buf, sep, start);
        let rest = if start <= end < buf.len() {
            pieces_from(buf, sep, end + 1)
        } else {
            Seq::empty()
        };
        if start < end <= buf.len() {
            seq![buf.subrange(start, end)] + rest
        } else {
            rest
        }
    }
}

/// The next separator stands where no byte before it is a separator.
pub proof fn lemma_next_sep(buf: Seq<u8>, sep: u8, i: int, end: int)
    requires
        0 <= i <= end <= buf.len(),
        forall|j: int| i <= j < end ==> buf[j] != sep,
        end == buf.len() || buf[end] == sep,
    ensures
        next_sep(buf, sep, i) == end,
    decreases end - i,
{
    if i < end {
        lemma_next_sep(buf, sep, i + 1, end);
    }
}

/// The views of a sequence of byte strings.
pub open spec fn byte_views(items: Seq<Vec<u8>>) -> Seq<Seq<u8>> {
    Seq::new(items.len(), |i: int| items[i]@)
}

/// Splits a list of paths that end in NUL bytes into the paths; empty
/// pieces are left out.
pub fn split_paths(buf: &[u8]) -> (paths: Vec<Vec<u8>>)
    ensures
        byte_views(paths@) == pieces_from(buf@, 0u8, 0),
{
    let n = buf.len();
    let mut paths: Vec<Vec<u8>> = Vec::new();
    let mut start: usize = 0;
    while start < n
        invariant
            start <= n,
            n == buf@.len(),
            byte_views(paths@) + pieces_from(buf@, 0u8, start as int) == pieces_from(buf@, 0u8, 0),
        decreases n - start,
    {
        let rest = slice_subrange(buf, start, n);
        let end = match find_byte(rest, 0u8) {
            Some(at) => start + at,
            None => n,
        };
        proof {
            assert forall|j: int| start <= j < end implies buf@[j] != 0u8 by {
                assert(rest@[j - start] == buf@[j]);
            }
            lemma_next_sep(buf@, 0u8, start as int, end as int);
        }
        if end > start {
            let piece = slice_to_vec(slice_subrange(buf, start, end));
            paths.push(piece);
        }
        if end < n {
            start = end + 1;
        } else {
            start = n;
        }
    }
    paths
}

/// Fails where the stack has no applied patch.
pub fn require_applied(stack: &Stack) -> (checked: Result<(), Error>)
    ensures
        checked is Ok <==> stack@.state.applied.len() > 0,
        checked is Err ==> checked.unwrap_err() is NoAppliedPatches,
{
    if stack.applied().len() == 0 {
        Err(Error::NoAppliedPatches)
    } else {
        Ok(())
    }
}

/// Whether `commit` is one of `revs`.
pub fn is_among(commit: &CommitId, revs: &Vec<CommitId>) -> (found: bool)
    ensures
        found == revs@.contains(*commit),
{
    let mut i: usize = 0;
    while i < revs.len()
        invariant
            i <= revs.len(),
            forall|j: int| 0 <= j < i ==> revs@[j] != *commit,
        decreases revs.len() - i,
    {
        if revs[i].same(commit) {
            return true;
        }
        i += 1;
    }
    false
}

/// Whether the applied patch at `i` has its commit among `revs`.
pub open spec fn touches(state: StateView, revs: Seq<CommitId>, i: int) -> bool {
    state.patch_map().contains_key(state.applied[i]) && revs.contains(
        state.patch_map()[state.applied[i]].commit,
    )
}

/// The names of those of the first `n` applied patches whose commits are
/// among `revs`, in the order of the stack.
pub open spec fn touching(state: StateView, revs: Seq<CommitId>, n: int) -> Seq<Seq<char>>
    decreases n,
{
    if n <= 0 {
        Seq::empty()
    } else {
        let before = touching(state, revs, n - 1);
        if touches(state, revs, n - 1) {
            before.push(state.applied[n - 1])
        } else {
            before
        }
    }
}

/// The applied patches whose commits are among `revs`, bottom first.
pub fn patches_among(stack: &Stack, revs: &Vec<CommitId>) -> (found: Vec<PatchName>)
    requires
        stack.wf(),
    ensures
        names_of(found@) == touching(stack@.state, revs@, stack@.state.applied.len() as int),
{
    let applied = stack.applied();
    let mut found: Vec<PatchName> = Vec::new();
    let mut i: usize = 0;
    while i < applied.len()
        invariant
            i <= applied.len(),
            stack.wf(),
            names_of(applied@) == stack@.state.applied,
            names_of(found@) == touching(stack@.state, revs@, i as int),
        decreases applied.len() - i,
    {
        let keep = match stack.get_patch(&applied[i]) {
            Some(patch) => is_among(&patch.commit, revs),
            None => false,
        };
        if keep {
            found.push(applied[i].duplicate());
        }
        i += 1;
    }
    found
}

} // verus!
