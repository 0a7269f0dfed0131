//! Reconciliation settles the patch references: carried out once, it
//! leaves nothing to do for a second time.

use crate::patchname::valid_name;
use crate::reconcile::{
    carried_name, carries, claimed_before, creation, creations, fixup, fixups, patch_ref_bytes,
    patch_ref_plan, patch_ref_prefix, starts_with, lemma_patch_map_row,
};
use crate::refname::patch_refname_view;
use crate::refs::{apply_all, EditView, RefMap, RefView, TargetView};
use crate::state::{consistent, StateView};
use vstd::prelude::*;
use vstd::utf8::*;

verus! {

/// The encoding of two texts in a row is the encoding of the first followed
/// by that of the second.
pub proof fn lemma_encode_concat(a: Seq<char>, b: Seq<char>)
    ensures
        encode_utf8(a + b) == encode_utf8(a) + encode_utf8(b),
    decreases a.len(),
{
    if a.len() > 0 {
        assert((a + b).drop_first() =~= a.drop_first() + b);
        lemma_encode_concat(a.drop_first(), b);
    }
}

/// The name of the reference of a patch is the prefix of the branch
/// followed by the encoded name of the patch.
pub proof fn lemma_patch_ref_bytes(branch: Seq<char>, patch: Seq<char>)
    ensures
        patch_ref_bytes(branch, patch) == patch_ref_prefix(branch) + encode_utf8(patch),
        starts_with(patch_ref_bytes(branch, patch), patch_ref_prefix(branch)),
        patch_ref_bytes(branch, patch).subrange(
            patch_ref_prefix(branch).len() as int,
            patch_ref_bytes(branch, patch).len() as int,
        ) == encode_utf8(patch),
{
    let head = patch_refname_view(branch, Seq::empty());
    lemma_encode_concat(head, patch);
    let prefix = patch_ref_prefix(branch);
    let whole = patch_ref_bytes(branch, patch);
    assert(whole.subrange(0, prefix.len() as int) =~= prefix);
}

/// The reference of a patch with a valid name belongs to that patch.
pub proof fn lemma_own_ref_carries(branch: Seq<char>, patch: Seq<char>)
    requires
        valid_name(patch),
    ensures
        starts_with(patch_ref_bytes(branch, patch), patch_ref_prefix(branch)),
        carried_name(patch_ref_prefix(branch).len() as int, patch_ref_bytes(branch, patch))
            == Some(patch),
{
    lemma_patch_ref_bytes(branch, patch);
    encode_utf8_valid_utf8(patch);
    encode_utf8_decode_utf8(patch);
}

/// A reference that belongs to a patch has the name of the reference of
/// that patch.
pub proof fn lemma_carrier_is_own_ref(branch: Seq<char>, name: Seq<u8>, patch: Seq<char>)
    requires
        starts_with(name, patch_ref_prefix(branch)),
        carried_name(patch_ref_prefix(branch).len() as int, name) == Some(patch),
    ensures
        name == patch_ref_bytes(branch, patch),
{
    let prefix = patch_ref_prefix(branch);
    let rest = name.subrange(prefix.len() as int, name.len() as int);
    decode_utf8_encode_utf8(rest);
    lemma_patch_ref_bytes(branch, patch);
}

/// Whether no two references of a listing have the same name.
pub open spec fn distinct_names(refs: Seq<RefView>) -> bool {
    forall|i: int, j: int|
        0 <= i < refs.len() && 0 <= j < refs.len() && i != j ==> (#[trigger] refs[i]).name != (
        #[trigger] refs[j]).name
}

/// Whether `refs` lists the references of `store`: each once, with what it
/// holds, and no other.
pub open spec fn lists(refs: Seq<RefView>, store: RefMap) -> bool {
    &&& distinct_names(refs)
    &&& forall|i: int|
        0 <= i < refs.len() ==> store.contains_key((#[trigger] refs[i]).name) && store[refs[i].name]
            == refs[i].target
    &&& forall|name: Seq<u8>| #[trigger]
        store.contains_key(name) ==> exists|i: int|
            0 <= i < refs.len() && (#[trigger] refs[i]).name == name
}

/// Whether the patch references of a branch are as the state asks: every
/// reference in the namespace of the branch is the reference of a patch of
/// the state and holds its commit, and every patch of the state has its
/// reference.
pub open spec fn settled(v: StateView, branch: Seq<char>, store: RefMap) -> bool {
    &&& forall|name: Seq<u8>|
        #[trigger] store.contains_key(name) && starts_with(name, patch_ref_prefix(branch))
            ==> exists|k: int|
            0 <= k < v.patches.len() && name == patch_ref_bytes(branch, (#[trigger] v.patches[k]).0)
                && store[name] == TargetView::Direct(v.patches[k].1.commit)
    &&& forall|k: int|
        0 <= k < v.patches.len() ==> store.contains_key(
            patch_ref_bytes(branch, (#[trigger] v.patches[k]).0),
        )
}

/// Every name of the table of a consistent state is a valid patch name.
pub proof fn lemma_keys_valid(v: StateView, k: int)
    requires
        consistent(v),
        0 <= k < v.patches.len(),
    ensures
        valid_name(v.patches[k].0),
        v.keys()[k] == v.patches[k].0,
        v.keys().contains(v.patches[k].0),
        v.patch_map()[v.patches[k].0] == v.patches[k].1,
{
    let keys = v.keys();
    let listed = v.listed();
    let i = choose|i: int| 0 <= i < listed.len() && listed[i] == keys[k];
    lemma_patch_map_row(v, k);
}

/// Where the patch references are settled, reconciliation plans nothing.
pub proof fn lemma_settled_plan_is_empty(
    v: StateView,
    branch: Seq<char>,
    refs: Seq<RefView>,
    store: RefMap,
)
    requires
        consistent(v),
        lists(refs, store),
        settled(v, branch, store),
    ensures
        patch_ref_plan(v, branch, refs) == Seq::<EditView>::empty(),
{
    lemma_no_fixups(v, branch, refs, store, refs.len() as int);
    lemma_no_creations(v, branch, refs, store, v.patches.len() as int);
}

proof fn lemma_no_fixups(v: StateView, branch: Seq<char>, refs: Seq<RefView>, store: RefMap, n: int)
    requires
        consistent(v),
        lists(refs, store),
        settled(v, branch, store),
        0 <= n <= refs.len(),
    ensures
        fixups(v, patch_ref_prefix(branch), refs, n) == Seq::<EditView>::empty(),
    decreases n,
{
    let prefix = patch_ref_prefix(branch);
    if n > 0 {
        lemma_no_fixups(v, branch, refs, store, n - 1);
        let found = refs[n - 1];
        if starts_with(found.name, prefix) {
            let k = choose|k: int|
                0 <= k < v.patches.len() && found.name == patch_ref_bytes(
                    branch,
                    (#[trigger] v.patches[k]).0,
                ) && store[found.name] == TargetView::Direct(v.patches[k].1.commit);
            let patch = v.patches[k].0;
            lemma_keys_valid(v, k);
            lemma_own_ref_carries(branch, patch);
            if claimed_before(prefix, refs, n - 1, patch) {
                let j = choose|j: int|
                    0 <= j < n - 1 && j < refs.len() && #[trigger] carries(prefix, refs, j, patch);
                lemma_carrier_is_own_ref(branch, refs[j].name, patch);
            }
        }
    }
}

proof fn lemma_no_creations(
    v: StateView,
    branch: Seq<char>,
    refs: Seq<RefView>,
    store: RefMap,
    n: int,
)
    requires
        consistent(v),
        lists(refs, store),
        settled(v, branch, store),
        0 <= n <= v.patches.len(),
    ensures
        creations(v, branch, refs, n) == Seq::<EditView>::empty(),
    decreases n,
{
    let prefix = patch_ref_prefix(branch);
    if n > 0 {
        lemma_no_creations(v, branch, refs, store, n - 1);
        let patch = v.patches[n - 1].0;
        lemma_keys_valid(v, n - 1);
        lemma_own_ref_carries(branch, patch);
        let name = patch_ref_bytes(branch, patch);
        let i = choose|i: int| 0 <= i < refs.len() && (#[trigger] refs[i]).name == name;
        assert(carries(prefix, refs, i, patch));
    }
}

/// Whether the reference at `j` stays: it is the first that belongs to a
/// patch of the state.
pub open spec fn keeps(v: StateView, prefix: Seq<u8>, refs: Seq<RefView>, j: int) -> bool {
    starts_with(refs[j].name, prefix) && match carried_name(prefix.len() as int, refs[j].name) {
        Some(patch) => v.keys().contains(patch) && !claimed_before(prefix, refs, j, patch),
        None => false,
    }
}

/// The commit of the patch to which the reference at `j` belongs.
pub open spec fn kept_commit(v: StateView, prefix: Seq<u8>, refs: Seq<RefView>, j: int) -> TargetView {
    TargetView::Direct(v.patch_map()[carried_name(prefix.len() as int, refs[j].name).unwrap()].commit)
}

/// What holds of the reference at `j` in a store in which the edits for the
/// first `n` references were carried out.
pub open spec fn fixed_at(
    v: StateView,
    prefix: Seq<u8>,
    refs: Seq<RefView>,
    n: int,
    s: RefMap,
    j: int,
) -> bool {
    let name = refs[j].name;
    if j >= n || !starts_with(name, prefix) {
        s.contains_key(name) && s[name] == refs[j].target
    } else if keeps(v, prefix, refs, j) {
        s.contains_key(name) && s[name] == kept_commit(v, prefix, refs, j)
    } else {
        !s.contains_key(name)
    }
}

/// What holds of a store in which the edits for the first `n` references
/// were carried out.
pub open spec fn after_fixups(
    v: StateView,
    prefix: Seq<u8>,
    refs: Seq<RefView>,
    store: RefMap,
    n: int,
    s: RefMap,
) -> bool {
    &&& forall|j: int| 0 <= j < refs.len() ==> #[trigger] fixed_at(v, prefix, refs, n, s, j)
    &&& forall|name: Seq<u8>| #[trigger] s.contains_key(name) ==> store.contains_key(name)
}

/// The edits for the first `n` references pass, and bring the store to
/// what [`after_fixups`] says.
pub proof fn lemma_fixups_applied(
    v: StateView,
    branch: Seq<char>,
    refs: Seq<RefView>,
    store: RefMap,
    n: int,
)
    requires
        consistent(v),
        lists(refs, store),
        0 <= n <= refs.len(),
    ensures
        after_fixups(
            v,
            patch_ref_prefix(branch),
            refs,
            store,
            n,
            apply_all(store, fixups(v, patch_ref_prefix(branch), refs, n)),
        ),
    decreases n,
{
    let prefix = patch_ref_prefix(branch);
    if n > 0 {
        lemma_fixups_applied(v, branch, refs, store, n - 1);
        let before = apply_all(store, fixups(v, prefix, refs, n - 1));
        let after = apply_all(store, fixups(v, prefix, refs, n));
        match fixup(v, prefix, refs, n - 1) {
            None => {
                assert forall|j: int| 0 <= j < refs.len() implies #[trigger] fixed_at(
                    v,
                    prefix,
                    refs,
                    n,
                    after,
                    j,
                ) by {
                    assert(fixed_at(v, prefix, refs, n - 1, before, j));
                }
            },
            Some(edit) => {
                let edits = fixups(v, prefix, refs, n);
                assert(edits.drop_last() =~= fixups(v, prefix, refs, n - 1));
                assert forall|j: int| 0 <= j < refs.len() implies #[trigger] fixed_at(
                    v,
                    prefix,
                    refs,
                    n,
                    after,
                    j,
                ) by {
                    assert(fixed_at(v, prefix, refs, n - 1, before, j));
                }
            },
        }
    }
}

/// Whether the reference `name` was created for one of the first `k` rows
/// of the table.
pub open spec fn created_before(
    v: StateView,
    branch: Seq<char>,
    refs: Seq<RefView>,
    k: int,
    name: Seq<u8>,
) -> bool {
    exists|r: int|
        0 <= r < k && r < v.patches.len() && #[trigger] creation(v, branch, refs, r) is Some && name
            == patch_ref_bytes(branch, v.patches[r].0)
}

/// What holds of row `r` of the table in a store in which the references
/// of the first `k` rows were created where they were missing.
pub open spec fn created_at(
    v: StateView,
    branch: Seq<char>,
    refs: Seq<RefView>,
    k: int,
    s: RefMap,
    r: int,
) -> bool {
    r < k && creation(v, branch, refs, r) is Some ==> s.contains_key(
        patch_ref_bytes(branch, v.patches[r].0),
    ) && s[patch_ref_bytes(branch, v.patches[r].0)] == TargetView::Direct(v.patches[r].1.commit)
}

/// What holds of a store in which all edits of the references found were
/// carried out, and the creations for the first `k` rows of the table.
pub open spec fn after_creations(
    v: StateView,
    branch: Seq<char>,
    refs: Seq<RefView>,
    store: RefMap,
    k: int,
    s: RefMap,
) -> bool {
    &&& forall|j: int|
        0 <= j < refs.len() ==> #[trigger] fixed_at(
            v,
            patch_ref_prefix(branch),
            refs,
            refs.len() as int,
            s,
            j,
        )
    &&& forall|r: int| 0 <= r < v.patches.len() ==> #[trigger] created_at(v, branch, refs, k, s, r)
    &&& forall|name: Seq<u8>| #[trigger]
        s.contains_key(name) ==> store.contains_key(name) || created_before(
            v,
            branch,
            refs,
            k,
            name,
        )
}

/// The creations for the first `k` rows pass, and bring the store to what
/// [`after_creations`] says.
pub proof fn lemma_creations_applied(
    v: StateView,
    branch: Seq<char>,
    refs: Seq<RefView>,
    store: RefMap,
    k: int,
)
    requires
        consistent(v),
        lists(refs, store),
        0 <= k <= v.patches.len(),
    ensures
        after_creations(
            v,
            branch,
            refs,
            store,
            k,
            apply_all(
                apply_all(store, fixups(v, patch_ref_prefix(branch), refs, refs.len() as int)),
                creations(v, branch, refs, k),
            ),
        ),
    decreases k,
{
    let prefix = patch_ref_prefix(branch);
    let fixed = apply_all(store, fixups(v, prefix, refs, refs.len() as int));
    if k == 0 {
        lemma_fixups_applied(v, branch, refs, store, refs.len() as int);
        let s = apply_all(fixed, creations(v, branch, refs, 0));
        assert forall|r: int| 0 <= r < v.patches.len() implies #[trigger] created_at(
            v,
            branch,
            refs,
            k,
            s,
            r,
        ) by {}
    } else {
        lemma_creations_applied(v, branch, refs, store, k - 1);
        let before = apply_all(fixed, creations(v, branch, refs, k - 1));
        let after = apply_all(fixed, creations(v, branch, refs, k));
        let patch = v.patches[k - 1].0;
        let name = patch_ref_bytes(branch, patch);
        lemma_keys_valid(v, k - 1);
        lemma_own_ref_carries(branch, patch);
        match creation(v, branch, refs, k - 1) {
            None => {
                assert forall|r: int| 0 <= r < v.patches.len() implies #[trigger] created_at(
                    v,
                    branch,
                    refs,
                    k,
                    after,
                    r,
                ) by {
                    assert(created_at(v, branch, refs, k - 1, before, r));
                }
                assert forall|m: Seq<u8>| #[trigger] after.contains_key(m) implies store.contains_key(
                    m,
                ) || created_before(v, branch, refs, k, m) by {
                    if !store.contains_key(m) {
                        let r = choose|r: int|
                            0 <= r < k - 1 && r < v.patches.len() && #[trigger] creation(
                                v,
                                branch,
                                refs,
                                r,
                            ) is Some && m == patch_ref_bytes(branch, v.patches[r].0);
                    }
                }
            },
            Some(edit) => {
                let edits = creations(v, branch, refs, k);
                assert(edits.drop_last() =~= creations(v, branch, refs, k - 1));
                // No reference found has the name of the reference to create.
                assert forall|j: int| 0 <= j < refs.len() implies (#[trigger] refs[j]).name
                    != name by {
                    if refs[j].name == name {
                        assert(carries(prefix, refs, j, patch));
                    }
                }
                // So the store does not hold it yet.
                assert(!before.contains_key(name)) by {
                    if before.contains_key(name) {
                        if store.contains_key(name) {
                            let i = choose|i: int|
                                0 <= i < refs.len() && (#[trigger] refs[i]).name == name;
                        } else {
                            let r = choose|r: int|
                                0 <= r < k - 1 && r < v.patches.len() && #[trigger] creation(
                                    v,
                                    branch,
                                    refs,
                                    r,
                                ) is Some && name == patch_ref_bytes(branch, v.patches[r].0);
                            lemma_keys_valid(v, r);
                            lemma_own_ref_carries(branch, v.patches[r].0);
                        }
                    }
                }
                assert forall|j: int| 0 <= j < refs.len() implies #[trigger] fixed_at(
                    v,
                    prefix,
                    refs,
                    refs.len() as int,
                    after,
                    j,
                ) by {
                    assert(fixed_at(v, prefix, refs, refs.len() as int, before, j));
                }
                assert forall|r: int| 0 <= r < v.patches.len() implies #[trigger] created_at(
                    v,
                    branch,
                    refs,
                    k,
                    after,
                    r,
                ) by {
                    assert(created_at(v, branch, refs, k - 1, before, r));
                }
                assert forall|m: Seq<u8>| #[trigger] after.contains_key(m) implies store.contains_key(
                    m,
                ) || created_before(v, branch, refs, k, m) by {
                    if m != name && !store.contains_key(m) {
                        let r = choose|r: int|
                            0 <= r < k - 1 && r < v.patches.len() && #[trigger] creation(
                                v,
                                branch,
                                refs,
                                r,
                            ) is Some && m == patch_ref_bytes(branch, v.patches[r].0);
                    }
                }
            },
        }
    }
}

/// Edits carried out one list after another are the edits of both lists
/// carried out in a row.
pub proof fn lemma_apply_all_concat(store: RefMap, first: Seq<EditView>, second: Seq<EditView>)
    ensures
        apply_all(store, first + second) == apply_all(apply_all(store, first), second),
    decreases second.len(),
{
    if second.len() > 0 {
        lemma_apply_all_concat(store, first, second.drop_last());
        assert((first + second).drop_last() =~= first + second.drop_last());
    }
}

/// Reconciliation settles the patch references: after its plan was carried
/// out on a store, the references in the namespace of the branch are those
/// of the patches of the state, each with the commit of its patch.
pub proof fn lemma_plan_settles(v: StateView, branch: Seq<char>, refs: Seq<RefView>, store: RefMap)
    requires
        consistent(v),
        lists(refs, store),
    ensures
        settled(v, branch, apply_all(store, patch_ref_plan(v, branch, refs))),
{
    let prefix = patch_ref_prefix(branch);
    let n = refs.len() as int;
    let rows = v.patches.len() as int;
    let fixes = fixups(v, prefix, refs, n);
    let makes = creations(v, branch, refs, rows);
    lemma_apply_all_concat(store, fixes, makes);
    lemma_creations_applied(v, branch, refs, store, rows);
    let s = apply_all(store, patch_ref_plan(v, branch, refs));
    assert forall|name: Seq<u8>| #[trigger]
        s.contains_key(name) && starts_with(name, prefix) implies exists|k: int|
        0 <= k < v.patches.len() && name == patch_ref_bytes(branch, (#[trigger] v.patches[k]).0)
            && s[name] == TargetView::Direct(v.patches[k].1.commit) by {
        if store.contains_key(name) {
            let j = choose|j: int| 0 <= j < refs.len() && (#[trigger] refs[j]).name == name;
            assert(fixed_at(v, prefix, refs, n, s, j));
            let patch = carried_name(prefix.len() as int, name).unwrap();
            lemma_carrier_is_own_ref(branch, name, patch);
            let k = choose|k: int| 0 <= k < v.keys().len() && v.keys()[k] == patch;
            lemma_keys_valid(v, k);
        } else {
            let r = choose|r: int|
                0 <= r < rows && r < v.patches.len() && #[trigger] creation(v, branch, refs, r)
                    is Some && name == patch_ref_bytes(branch, v.patches[r].0);
            assert(created_at(v, branch, refs, rows, s, r));
        }
    }
    assert forall|k: int| 0 <= k < v.patches.len() implies s.contains_key(
        patch_ref_bytes(branch, (#[trigger] v.patches[k]).0),
    ) by {
        let patch = v.patches[k].0;
        let name = patch_ref_bytes(branch, patch);
        lemma_keys_valid(v, k);
        assert(created_at(v, branch, refs, rows, s, k));
        if creation(v, branch, refs, k) is None {
            let j = choose|j: int|
                0 <= j < n && j < refs.len() && #[trigger] carries(prefix, refs, j, patch);
            lemma_carrier_is_own_ref(branch, refs[j].name, patch);
            if claimed_before(prefix, refs, j, patch) {
                let i = choose|i: int|
                    0 <= i < j && i < refs.len() && #[trigger] carries(prefix, refs, i, patch);
                lemma_carrier_is_own_ref(branch, refs[i].name, patch);
            }
            assert(fixed_at(v, prefix, refs, n, s, j));
        }
    }
}

/// Reconciliation is idempotent: once its plan for a state was carried
/// out, a second reconciliation for the same state, on any listing of the
/// references as they are then, plans no edit.
pub proof fn lemma_reconciliation_is_idempotent(
    v: StateView,
    branch: Seq<char>,
    refs: Seq<RefView>,
    store: RefMap,
    refs_after: Seq<RefView>,
)
    requires
        consistent(v),
        lists(refs, store),
        lists(refs_after, apply_all(store, patch_ref_plan(v, branch, refs))),
    ensures
        patch_ref_plan(v, branch, refs_after) == Seq::<EditView>::empty(),
{
    lemma_plan_settles(v, branch, refs, store);
    lemma_settled_plan_is_empty(
        v,
        branch,
        refs_after,
        apply_all(store, patch_ref_plan(v, branch, refs)),
    );
}

} // verus!
