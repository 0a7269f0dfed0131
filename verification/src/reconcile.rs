//! Keeping the reference of each patch in step with the stack state.
//!
//! Every patch of a stack has a reference of its own, so that its commit can
//! be named and is kept by the store. Tools that work on the store directly
//! can move, add or remove such references. The plan made here puts them
//! right: it is a list of guarded edits for the caller to carry out in order.

use crate::patchname::{valid_name, PatchName};
use crate::refname::{get_patch_refname, patch_refname_view};
use crate::refs::{
    copy_bytes, EditView, ExistingRef, Expect, ExpectView, RefEdit, RefTarget, RefView,
    TargetView, edit_views, ref_views,
};
use crate::state::{keys_of, row_position, rows_of, StackState, StateView};
use crate::text::utf8_to_string;
use vstd::prelude::*;
use vstd::slice::*;
use vstd::string::*;
use vstd::utf8::*;

pub mod laws;

verus! {

/// Whether `name` begins with `prefix`.
pub open spec fn starts_with(name: Seq<u8>, prefix: Seq<u8>) -> bool {
    name.len() >= prefix.len() && name.subrange(0, prefix.len() as int) == prefix
}

/// The patch name that stands in a reference name behind a prefix of
/// `prefix_len` bytes, if what stands there is a valid patch name.
pub open spec fn carried_name(prefix_len: int, name: Seq<u8>) -> Option<Seq<char>> {
    let rest = name.subrange(prefix_len, name.len() as int);
    if valid_utf8(rest) && valid_name(decode_utf8(rest)) {
        Some(decode_utf8(rest))
    } else {
        None
    }
}

/// The bytes with which the name of every patch reference of a branch begins.
pub open spec fn patch_ref_prefix(branch: Seq<char>) -> Seq<u8> {
    encode_utf8(patch_refname_view(branch, Seq::empty()))
}

/// The bytes of the name of the reference of a patch.
pub open spec fn patch_ref_bytes(branch: Seq<char>, patch: Seq<char>) -> Seq<u8> {
    encode_utf8(patch_refname_view(branch, patch))
}

/// Whether the reference at `i` belongs to the patch `patch`.
pub open spec fn carries(prefix: Seq<u8>, refs: Seq<RefView>, i: int, patch: Seq<char>) -> bool {
    starts_with(refs[i].name, prefix) && carried_name(prefix.len() as int, refs[i].name) == Some(
        patch,
    )
}

/// Whether one of the first `n` references belongs to the patch `patch`.
pub open spec fn claimed_before(prefix: Seq<u8>, refs: Seq<RefView>, n: int, patch: Seq<char>) -> bool {
    exists|j: int| 0 <= j < n && j < refs.len() && #[trigger] carries(prefix, refs, j, patch)
}

/// Log message of the edit that moves a patch reference to its commit.
pub open spec fn log_broken() -> Seq<char> {
    "fixup broken patch ref"@
}

/// Log message of the edit that replaces a symbolic patch reference.
pub open spec fn log_symbolic() -> Seq<char> {
    "fixup symbolic patch ref"@
}

/// Log message of the edit that creates the reference of a patch.
pub open spec fn log_missing() -> Seq<char> {
    "fixup missing patch ref"@
}

/// What is done about the reference at `i`.
///
/// A reference outside the namespace of the branch is left alone. One that
/// belongs to a known patch, and is the first to do so, is left alone if it
/// holds the commit of the patch, and is made to hold it otherwise. Every
/// other reference of the namespace is deleted.
pub open spec fn fixup(v: StateView, prefix: Seq<u8>, refs: Seq<RefView>, i: int) -> Option<EditView> {
    let r = refs[i];
    let delete = Some(
        EditView::Delete { name: r.name, expected: ExpectView::MustExistAndMatch(r.target) },
    );
    if !starts_with(r.name, prefix) {
        None
    } else {
        match carried_name(prefix.len() as int, r.name) {
            None => delete,
            Some(patch) => {
                if !v.keys().contains(patch) || claimed_before(prefix, refs, i, patch) {
                    delete
                } else {
                    let commit = v.patch_map()[patch].commit;
                    match r.target {
                        TargetView::Direct(id) => {
                            if id == commit {
                                None
                            } else {
                                Some(
                                    EditView::Update {
                                        name: r.name,
                                        expected: ExpectView::MustExistAndMatch(r.target),
                                        new: commit,
                                        log: log_broken(),
                                    },
                                )
                            }
                        },
                        TargetView::Symbolic(_) => Some(
                            EditView::Update {
                                name: r.name,
                                expected: ExpectView::ExistingMustMatch(r.target),
                                new: commit,
                                log: log_symbolic(),
                            },
                        ),
                    }
                }
            },
        }
    }
}

/// The edits for the first `n` references, in their order.
pub open spec fn fixups(v: StateView, prefix: Seq<u8>, refs: Seq<RefView>, n: int) -> Seq<EditView>
    decreases n,
{
    if n <= 0 {
        Seq::empty()
    } else {
        let before = fixups(v, prefix, refs, n - 1);
        match fixup(v, prefix, refs, n - 1) {
            Some(edit) => before.push(edit),
            None => before,
        }
    }
}

/// What is done about the patch in row `k` of the table: its reference is
/// created where no reference belongs to it.
pub open spec fn creation(v: StateView, branch: Seq<char>, refs: Seq<RefView>, k: int) -> Option<
    EditView,
> {
    let (patch, state) = v.patches[k];
    if claimed_before(patch_ref_prefix(branch), refs, refs.len() as int, patch) {
        None
    } else {
        Some(
            EditView::Update {
                name: patch_ref_bytes(branch, patch),
                expected: ExpectView::MustNotExist,
                new: state.commit,
                log: log_missing(),
            },
        )
    }
}

/// The edits for the first `n` rows of the table, in their order.
pub open spec fn creations(v: StateView, branch: Seq<char>, refs: Seq<RefView>, n: int) -> Seq<
    EditView,
>
    decreases n,
{
    if n <= 0 {
        Seq::empty()
    } else {
        let before = creations(v, branch, refs, n - 1);
        match creation(v, branch, refs, n - 1) {
            Some(edit) => before.push(edit),
            None => before,
        }
    }
}

/// The plan that puts the patch references of a branch right: first the
/// edits of the references found, then the creation of those that are missing.
pub open spec fn patch_ref_plan(v: StateView, branch: Seq<char>, refs: Seq<RefView>) -> Seq<EditView> {
    fixups(v, patch_ref_prefix(branch), refs, refs.len() as int) + creations(
        v,
        branch,
        refs,
        v.patches.len() as int,
    )
}

pub(crate) fn bytes_start_with(name: &Vec<u8>, prefix: &Vec<u8>) -> (found: bool)
    ensures
        found == starts_with(name@, prefix@),
{
    if name.len() < prefix.len() {
        return false;
    }
    let mut i: usize = 0;
    while i < prefix.len()
        invariant
            i <= prefix.len() <= name.len(),
            forall|j: int| 0 <= j < i ==> name@[j] == prefix@[j],
        decreases prefix.len() - i,
    {
        if name[i] != prefix[i] {
            return false;
        }
        i += 1;
    }
    assert(name@.subrange(0, prefix.len() as int) =~= prefix@);
    true
}

/// The patch name behind the first `prefix_len` bytes of a reference name.
fn carried(prefix_len: usize, name: &Vec<u8>) -> (patch: Option<PatchName>)
    requires
        prefix_len <= name.len(),
    ensures
        match carried_name(prefix_len as int, name@) {
            Some(p) => patch is Some && patch.unwrap()@ == p && patch.unwrap().wf(),
            None => patch is None,
        },
{
    let rest = slice_subrange(name.as_slice(), prefix_len, name.len());
    match utf8_to_string(rest) {
        Some(text) => match PatchName::from_str(text.as_str()) {
            Ok(patch) => Some(patch),
            Err(_) => None,
        },
        None => None,
    }
}

/// One more reference is looked at: a patch is claimed then if it was
/// claimed before or if this reference belongs to it.
pub proof fn lemma_claimed_step(prefix: Seq<u8>, refs: Seq<RefView>, i: int, patch: Seq<char>)
    requires
        0 <= i < refs.len(),
    ensures
        claimed_before(prefix, refs, i + 1, patch) == (claimed_before(prefix, refs, i, patch)
            || carries(prefix, refs, i, patch)),
{
    if claimed_before(prefix, refs, i + 1, patch) {
        let j = choose|j: int|
            0 <= j < i + 1 && j < refs.len() && #[trigger] carries(prefix, refs, j, patch);
    }
    if claimed_before(prefix, refs, i, patch) {
        let j = choose|j: int|
            0 <= j < i && j < refs.len() && #[trigger] carries(prefix, refs, j, patch);
    }
}

/// In a table without a name twice, the map gives for the name of a row the
/// patch of that row.
pub proof fn lemma_patch_map_row(v: StateView, k: int)
    requires
        v.keys().no_duplicates(),
        0 <= k < v.patches.len(),
    ensures
        v.keys().contains(v.patches[k].0),
        v.patch_map()[v.patches[k].0] == v.patches[k].1,
{
    let keys = v.keys();
    let name = v.patches[k].0;
    assert(keys[k] == name);
    let found = keys.index_of(name);
}

/// Plans the edits that put the patch references of a branch right.
///
/// `existing` holds the references that the store lists. For each of them
/// that lies in the namespace of the branch: if it is the first that belongs
/// to a patch of the state, it is left alone where it holds the commit of
/// that patch, and otherwise made to hold it, under the guard that it still
/// has the value found; if it belongs to no patch of the state, it is
/// deleted under the same guard. For each patch to which no reference
/// belongs, the reference is created under the guard that it does not exist.
/// The state itself is not changed.
pub fn ensure_patch_refs(branch_name: &str, state: &StackState, existing: &Vec<ExistingRef>) -> (plan:
    Vec<RefEdit>)
    requires
        state.wf(),
    ensures
        edit_views(plan@) == patch_ref_plan(state@, branch_name@, ref_views(existing@)),
{
    let prefix_name = get_patch_refname(branch_name, "");
    let prefix = prefix_name.as_str().as_bytes_vec();
    let rows = state.patches();
    let ghost v = state@;
    let ghost refs = ref_views(existing@);
    proof {
        reveal_strlit("");
        state.lemma_wf();
    }
    let mut claimed: Vec<bool> = Vec::new();
    while claimed.len() < rows.len()
        invariant
            claimed.len() <= rows.len(),
            forall|k: int| 0 <= k < claimed.len() ==> !claimed@[k],
        decreases rows.len() - claimed.len(),
    {
        claimed.push(false);
    }
    let mut plan: Vec<RefEdit> = Vec::new();
    let mut i: usize = 0;
    while i < existing.len()
        invariant
            i <= existing.len(),
            claimed.len() == rows.len(),
            v == state@,
            rows_of(rows@) == v.patches,
            v.keys() == keys_of(rows@),
            v.keys().no_duplicates(),
            refs == ref_views(existing@),
            prefix@ == patch_ref_prefix(branch_name@),
            forall|k: int|
                0 <= k < rows.len() ==> claimed@[k] == claimed_before(
                    prefix@,
                    refs,
                    i as int,
                    (#[trigger] rows@[k]).name@,
                ),
            edit_views(plan@) == fixups(v, prefix@, refs, i as int),
        decreases existing.len() - i,
    {
        let found = &existing[i];
        let ghost before = plan@;
        let ghost claimed_then = claimed@;
        proof {
            assert forall|k: int| 0 <= k < rows.len() implies claimed_before(
                prefix@,
                refs,
                i + 1,
                (#[trigger] rows@[k]).name@,
            ) == (claimed_then[k] || carries(prefix@, refs, i as int, rows@[k].name@)) by {
                lemma_claimed_step(prefix@, refs, i as int, rows@[k].name@);
            }
        }
        if bytes_start_with(&found.name, &prefix) {
            let mut kept: Option<usize> = None;
            match carried(prefix.len(), &found.name) {
                Some(patch) => {
                    match row_position(rows, &patch) {
                        Some(k) => {
                            assert(v.keys()[k as int] == patch@);
                            if !claimed[k] {
                                kept = Some(k);
                            }
                        },
                        None => {},
                    }
                },
                None => {},
            }
            match kept {
                Some(k) => {
                    claimed.set(k, true);
                    let commit = rows[k].state.commit;
                    proof {
                        lemma_patch_map_row(v, k as int);
                        assert forall|m: int| 0 <= m < rows.len() && m != k implies rows@[m].name@
                            != rows@[k as int].name@ by {
                            assert(v.keys()[m] == rows@[m].name@);
                        }
                    }
                    match &found.target {
                        RefTarget::Direct(id) => {
                            if !id.same(&commit) {
                                plan.push(
                                    RefEdit::Update {
                                        name: copy_bytes(&found.name),
                                        expected: Expect::MustExistAndMatch(found.target.duplicate()),
                                        new: commit,
                                        log: String::from_str("fixup broken patch ref"),
                                    },
                                );
                                assert(edit_views(plan@) =~= edit_views(before).push(
                                    plan@[before.len() as int]@,
                                ));
                            }
                        },
                        RefTarget::Symbolic(_) => {
                            plan.push(
                                RefEdit::Update {
                                    name: copy_bytes(&found.name),
                                    expected: Expect::ExistingMustMatch(found.target.duplicate()),
                                    new: commit,
                                    log: String::from_str("fixup symbolic patch ref"),
                                },
                            );
                            assert(edit_views(plan@) =~= edit_views(before).push(
                                plan@[before.len() as int]@,
                            ));
                        },
                    }
                },
                None => {
                    proof {
                        assert forall|m: int| 0 <= m < rows.len() && carries(
                            prefix@,
                            refs,
                            i as int,
                            (#[trigger] rows@[m]).name@,
                        ) implies claimed_then[m] by {
                            assert(v.keys()[m] == rows@[m].name@);
                        }
                    }
                    plan.push(
                        RefEdit::Delete {
                            name: copy_bytes(&found.name),
                            expected: Expect::MustExistAndMatch(found.target.duplicate()),
                        },
                    );
                    assert(edit_views(plan@) =~= edit_views(before).push(
                        plan@[before.len() as int]@,
                    ));
                },
            }
        }
        i += 1;
    }
    let ghost fixed = edit_views(plan@);
    let mut k: usize = 0;
    while k < rows.len()
        invariant
            k <= rows.len(),
            claimed.len() == rows.len(),
            rows_of(rows@) == v.patches,
            refs == ref_views(existing@),
            prefix@ == patch_ref_prefix(branch_name@),
            forall|m: int|
                0 <= m < rows.len() ==> claimed@[m] == claimed_before(
                    prefix@,
                    refs,
                    refs.len() as int,
                    (#[trigger] rows@[m]).name@,
                ),
            edit_views(plan@) == fixed + creations(v, branch_name@, refs, k as int),
        decreases rows.len() - k,
    {
        let ghost before = plan@;
        if !claimed[k] {
            let refname = get_patch_refname(branch_name, rows[k].name.as_str());
            plan.push(
                RefEdit::Update {
                    name: refname.as_str().as_bytes_vec(),
                    expected: Expect::MustNotExist,
                    new: rows[k].state.commit,
                    log: String::from_str("fixup missing patch ref"),
                },
            );
            assert(edit_views(plan@) =~= edit_views(before).push(plan@[before.len() as int]@));
        }
        k += 1;
    }
    plan
}

} // verus!
