use std::collections::BTreeMap;

use stgit::error::Error;
use stgit::oid::CommitId;
use stgit::patchname::PatchName;
use stgit::refs::{ExistingRef, Expect, RefEdit, RefTarget};
use stgit::stack::{BranchInfo, InitializationPolicy, Publish, Stack, StoredState};
use stgit::state::{PatchEntry, PatchState, StackState, StateError};
use stgit::transaction::{Checkout, ConflictPolicy, Merge, Phase, PushRequest, Transaction};

fn id(byte: u8) -> CommitId {
    CommitId::from_bytes([byte; 20])
}

fn name(text: &str) -> PatchName {
    PatchName::from_str(text).unwrap()
}

fn names(texts: &[&str]) -> Vec<PatchName> {
    texts.iter().map(|t| name(t)).collect()
}

fn row(text: &str, byte: u8) -> PatchEntry {
    PatchEntry { name: name(text), state: PatchState { commit: id(byte) } }
}

fn branch(head: u8) -> BranchInfo {
    BranchInfo { name: "main".to_string(), refname: "refs/heads/main".to_string(), head: id(head) }
}

/// An initialized stack without patches, on a branch at commit 10, whose
/// state is held by commit 50.
fn empty_stack() -> Stack {
    Stack::from_branch(
        branch(10),
        Some(StoredState {
            commit: id(50),
            state: StackState::new(id(10)),
            first_applied_parent: None,
        }),
        InitializationPolicy::RequireInitialized,
        &Vec::new(),
    )
    .unwrap()
    .stack
}

/// A stack with p1 and p2 applied and p3 unapplied, on a branch at commit 2.
fn full_stack(head: u8) -> Stack {
    Stack::from_branch(
        branch(head),
        Some(StoredState {
            commit: id(50),
            state: StackState::from_parts(
                Some(id(49)),
                id(2),
                names(&["p1", "p2"]),
                names(&["p3"]),
                names(&["h1"]),
                vec![row("p1", 1), row("p2", 2), row("p3", 3), row("h1", 4)],
            )
            .unwrap(),
            first_applied_parent: Some(id(10)),
        }),
        InitializationPolicy::RequireInitialized,
        &Vec::new(),
    )
    .unwrap()
    .stack
}

fn begin(stack: Stack) -> Transaction {
    stack.setup_transaction().use_index_and_worktree(true).transact().unwrap()
}

/// The state reference of a store: a publication passes only if the
/// reference is as the publication expects.
struct StateRef {
    refs: BTreeMap<String, RefTarget>,
}

impl StateRef {
    fn holding(commit: u8) -> StateRef {
        let mut refs = BTreeMap::new();
        refs.insert("refs/stacks/main".to_string(), RefTarget::Direct(id(commit)));
        StateRef { refs }
    }

    fn publish(&mut self, request: &Publish, recorded: CommitId) -> Result<(), Error> {
        request.check(self.refs.get(&request.refname))?;
        self.refs.insert(request.refname.clone(), RefTarget::Direct(recorded));
        Ok(())
    }

    fn value(&self) -> Option<&RefTarget> {
        self.refs.get("refs/stacks/main")
    }
}

#[test]
fn push_two_patches_then_pop_one() {
    let mut tx = begin(empty_stack());
    tx.new_unapplied(&name("p1"), id(1), 0).unwrap();
    tx.new_unapplied(&name("p2"), id(2), 1).unwrap();
    assert_eq!(tx.unapplied(), &names(&["p1", "p2"]));
    assert_eq!(tx.top(), id(10));
    tx.push_patch(&name("p1"), Merge::Clean(id(11))).unwrap();
    assert_eq!(tx.top(), id(11));
    tx.push_patch(&name("p2"), Merge::Clean(id(12))).unwrap();
    assert_eq!(tx.applied(), &names(&["p1", "p2"]));
    assert!(tx.unapplied().is_empty());
    assert_eq!(tx.top(), id(12));
    assert_eq!(tx.get_patch(&name("p1")), Some(PatchState { commit: id(11) }));

    tx.pop_patches(&name("p2")).unwrap();
    assert_eq!(tx.applied(), &names(&["p1"]));
    assert_eq!(tx.unapplied(), &names(&["p2"]));
    assert_eq!(tx.top(), id(11));

    let done = tx.execute("pop", &Vec::new());
    assert_eq!(done.status, Ok(()));
    assert_eq!(done.stack.applied(), &names(&["p1"]));
    assert_eq!(done.stack.unapplied(), &names(&["p2"]));
    assert_eq!(done.stack.head(), id(11));
    assert_eq!(done.stack.get_branch_head(), id(11));
    assert_eq!(done.checkout, Some(Checkout { commit: id(11), discard_changes: false }));
    assert_eq!(
        done.branch_edit,
        Some(RefEdit::Update {
            name: b"refs/heads/main".to_vec(),
            expected: Expect::MustExistAndMatch(RefTarget::Direct(id(10))),
            new: id(11),
            log: "pop".to_string(),
        })
    );
    assert_eq!(
        done.ref_edits,
        vec![
            RefEdit::Update {
                name: b"refs/patches/main/p1".to_vec(),
                expected: Expect::MustNotExist,
                new: id(11),
                log: "fixup missing patch ref".to_string(),
            },
            RefEdit::Update {
                name: b"refs/patches/main/p2".to_vec(),
                expected: Expect::MustNotExist,
                new: id(12),
                log: "fixup missing patch ref".to_string(),
            },
        ]
    );
}

#[test]
fn popping_from_the_middle_pops_all_above() {
    let mut tx = begin(full_stack(2));
    tx.pop_patches(&name("p1")).unwrap();
    assert!(tx.applied().is_empty());
    assert_eq!(tx.unapplied(), &names(&["p1", "p2", "p3"]));
    assert_eq!(tx.top(), id(10));
    assert_eq!(tx.pop_patches(&name("p1")), Err(Error::NoSuchPatch("p1".to_string())));
}

#[test]
fn success_publishes_a_state_that_follows_the_one_before() {
    let stack = full_stack(2);
    let before = stack.state_commit();
    assert_eq!(before, Some(id(50)));
    let mut tx = begin(stack);
    tx.push_patch(&name("p3"), Merge::Clean(id(33))).unwrap();
    let done = tx.execute("push", &Vec::new());
    assert_eq!(done.status, Ok(()));
    let publish = done.publish.unwrap();
    assert_eq!(publish.state.prev(), before);
    assert_eq!(publish.expected, Expect::ExistingMustMatch(RefTarget::Direct(id(50))));
    assert_eq!(publish.refname, "refs/stacks/main");
    assert_eq!(publish.message, "push");
    assert_eq!(publish.state.applied(), &names(&["p1", "p2", "p3"]));
    assert_eq!(publish.state.head(), id(33));
    assert_eq!(&publish.state, done.stack.state());

    let mut store = StateRef::holding(50);
    assert_eq!(store.publish(&publish, id(51)), Ok(()));
    assert_eq!(store.value(), Some(&RefTarget::Direct(id(51))));
}

#[test]
fn second_push_conflicts_and_the_transaction_halts() {
    let mut tx = empty_stack()
        .setup_transaction()
        .use_index_and_worktree(true)
        .conflict_policy(ConflictPolicy::Halt)
        .transact()
        .unwrap();
    tx.new_unapplied(&name("p1"), id(1), 0).unwrap();
    tx.new_unapplied(&name("p2"), id(2), 1).unwrap();
    tx.push_patch(&name("p1"), Merge::Clean(id(11))).unwrap();
    assert_eq!(
        tx.push_patch(&name("p2"), Merge::Conflict),
        Err(Error::CausedConflicts("`p2` does not apply cleanly".to_string()))
    );
    assert_eq!(tx.phase(), Phase::Halted);
    assert_eq!(tx.conflict(), Some(&name("p2")));
    assert_eq!(tx.applied(), &names(&["p1"]));
    // A halted transaction accepts no further operation.
    assert_eq!(tx.push_patch(&name("p2"), Merge::Clean(id(12))), Err(Error::Halted));
    assert_eq!(tx.pop_patches(&name("p1")), Err(Error::Halted));

    let done = tx.execute("push", &Vec::new());
    assert_eq!(done.status, Ok(()));
    assert_eq!(done.conflict, Some(name("p2")));
    assert_eq!(done.stack.applied(), &names(&["p1"]));
    assert_eq!(done.stack.unapplied(), &names(&["p2"]));
    // The working copy keeps the conflict: nothing is checked out over it.
    assert_eq!(done.checkout, None);
    let publish = done.publish.unwrap();
    assert_eq!(publish.state.applied(), &names(&["p1"]));
    assert_eq!(publish.state.head(), id(11));
}

#[test]
fn conflict_under_rollback_publishes_nothing() {
    let stack = empty_stack();
    let untouched = stack.clone();
    let mut tx = begin(stack);
    tx.new_unapplied(&name("p1"), id(1), 0).unwrap();
    tx.new_unapplied(&name("p2"), id(2), 1).unwrap();
    tx.push_patch(&name("p1"), Merge::Clean(id(11))).unwrap();
    assert!(tx.push_patch(&name("p2"), Merge::Conflict).is_err());
    assert_eq!(tx.phase(), Phase::Conflicted);

    let done = tx.execute("push", &Vec::new());
    assert_eq!(
        done.status,
        Err(Error::CausedConflicts("`p2` does not apply cleanly".to_string()))
    );
    assert_eq!(done.conflict, Some(name("p2")));
    assert!(done.publish.is_none());
    assert!(done.branch_edit.is_none());
    assert!(done.ref_edits.is_empty());
    assert_eq!(done.stack, untouched);
    // The working copy is put back as it was before the transaction.
    assert_eq!(done.checkout, Some(Checkout { commit: id(10), discard_changes: true }));

    // The state reference is as it was.
    let store = StateRef::holding(50);
    assert_eq!(store.value(), Some(&RefTarget::Direct(id(50))));
}

#[test]
fn failed_validation_publishes_nothing() {
    for (order, defect) in [
        (names(&["p3", "p3"]), StateError::DuplicateName),
        (names(&["p3", "p1"]), StateError::DuplicateName),
        (names(&["p3", "p7"]), StateError::DanglingName),
        (Vec::new(), StateError::UnlistedPatch),
    ] {
        let stack = full_stack(2);
        let untouched = stack.clone();
        let mut tx = begin(stack);
        tx.reorder_unapplied(order).unwrap();
        let done = tx.execute("reorder", &Vec::new());
        assert_eq!(done.status, Err(Error::InconsistentState(defect)));
        assert!(done.publish.is_none());
        assert!(done.branch_edit.is_none());
        assert!(done.ref_edits.is_empty());
        assert_eq!(done.checkout, None);
        assert_eq!(done.conflict, None);
        assert_eq!(done.stack, untouched);
    }
    // With nothing to publish the state reference stays as it was.
    let store = StateRef::holding(50);
    assert_eq!(store.value(), Some(&RefTarget::Direct(id(50))));
}

#[test]
fn staging_refuses_names_in_use_and_bad_positions() {
    let mut tx = begin(full_stack(2));
    assert_eq!(
        tx.new_unapplied(&name("p1"), id(9), 0),
        Err(Error::PatchExists("p1".to_string()))
    );
    assert_eq!(tx.new_unapplied(&name("p9"), id(9), 5), Err(Error::BadPosition));
    assert_eq!(tx.push_patch(&name("p1"), Merge::Clean(id(9))), Err(Error::NoSuchPatch("p1".to_string())));
    assert_eq!(tx.applied(), &names(&["p1", "p2"]));
    assert_eq!(tx.unapplied(), &names(&["p3"]));
}

#[test]
fn transaction_refuses_a_moved_head_unless_allowed() {
    let started = full_stack(77).setup_transaction().transact();
    assert_eq!(started.err(), Some(Error::HeadTopMismatch));
    let started = full_stack(77).setup_transaction().allow_bad_head(true).transact();
    assert!(started.is_ok());
}

#[test]
fn two_publications_from_the_same_state() {
    // Two transactions start from the same snapshot.
    let mut first = begin(full_stack(2));
    let mut second = begin(full_stack(2));
    first.push_patch(&name("p3"), Merge::Clean(id(33))).unwrap();
    second.pop_patches(&name("p2")).unwrap();
    let first = first.execute("push", &Vec::new());
    let second = second.execute("pop", &Vec::new());
    let first = first.publish.unwrap();
    let second = second.publish.unwrap();
    assert_eq!(first.expected, second.expected);

    let mut store = StateRef::holding(50);
    assert_eq!(store.publish(&first, id(51)), Ok(()));
    assert_eq!(store.publish(&second, id(52)), Err(Error::ConcurrentModification));
    assert_eq!(store.value(), Some(&RefTarget::Direct(id(51))));
}

#[test]
fn reordering_replaces_the_list() {
    let mut tx = begin(full_stack(2));
    tx.pop_patches(&name("p1")).unwrap();
    assert_eq!(tx.unapplied(), &names(&["p1", "p2", "p3"]));
    tx.reorder_unapplied(names(&["p3", "p1", "p2"])).unwrap();
    assert_eq!(tx.unapplied(), &names(&["p3", "p1", "p2"]));
    assert_eq!(tx.reorder_hidden(names(&["h1"])), Ok(()));
    let done = tx.execute("reorder", &Vec::new());
    assert_eq!(done.status, Ok(()));
    assert_eq!(done.stack.unapplied(), &names(&["p3", "p1", "p2"]));
    assert_eq!(done.stack.get_branch_head(), id(10));
}

#[test]
fn hiding_and_unhiding() {
    let mut tx = begin(full_stack(2));
    tx.hide_patch(&name("p3")).unwrap();
    assert!(tx.unapplied().is_empty());
    assert_eq!(tx.hidden(), &names(&["h1", "p3"]));
    assert_eq!(tx.hide_patch(&name("p1")), Err(Error::NoSuchPatch("p1".to_string())));
    tx.unhide_patch(&name("h1")).unwrap();
    assert_eq!(tx.unapplied(), &names(&["h1"]));
    assert_eq!(tx.hidden(), &names(&["p3"]));
    assert_eq!(tx.unhide_patch(&name("h1")), Err(Error::NoSuchPatch("h1".to_string())));
}

#[test]
fn reset_keeps_the_common_bottom() {
    let mut tx = begin(full_stack(2));
    let target = StackState::from_parts(
        None,
        id(8),
        names(&["p1", "p3"]),
        names(&["p2"]),
        Vec::new(),
        vec![row("p1", 1), row("p2", 2), row("p3", 8)],
    )
    .unwrap();
    assert_eq!(tx.reset_to_state(&target), Ok(1));
    assert_eq!(tx.applied(), &names(&["p1", "p3"]));
    assert_eq!(tx.unapplied(), &names(&["p2"]));
    assert!(tx.hidden().is_empty());
    assert_eq!(tx.top(), id(8));

    // The same name with another commit does not count as kept.
    let mut tx = begin(full_stack(2));
    let target = StackState::from_parts(
        None,
        id(2),
        names(&["p1", "p2"]),
        Vec::new(),
        Vec::new(),
        vec![row("p1", 9), row("p2", 2)],
    )
    .unwrap();
    assert_eq!(tx.reset_to_state(&target), Ok(0));
}

#[test]
fn nothing_is_checked_out_without_use_of_the_working_copy() {
    let mut tx = full_stack(2).setup_transaction().transact().unwrap();
    tx.pop_patches(&name("p2")).unwrap();
    let done = tx.execute("pop", &Vec::new());
    assert_eq!(done.status, Ok(()));
    assert_eq!(done.checkout, None);
    assert!(done.branch_edit.is_some());
}

#[test]
fn discard_changes_is_handed_on() {
    let mut tx = full_stack(2)
        .setup_transaction()
        .use_index_and_worktree(true)
        .discard_changes(true)
        .transact()
        .unwrap();
    tx.pop_patches(&name("p2")).unwrap();
    let done = tx.execute("pop", &Vec::new());
    assert_eq!(done.checkout, Some(Checkout { commit: id(1), discard_changes: true }));
}

#[test]
fn state_errors_have_names() {
    assert_ne!(StateError::DuplicateName, StateError::DanglingName);
    assert_eq!(
        Error::InconsistentState(StateError::UnlistedPatch),
        Error::InconsistentState(StateError::UnlistedPatch)
    );
}

#[test]
fn partial_reset_changes_only_the_named_patches() {
    // The stack has p1 and p2 applied, p3 unapplied and h1 hidden.
    let target = StackState::from_parts(
        None,
        id(8),
        names(&["p1", "p2"]),
        names(&["n1"]),
        Vec::new(),
        vec![row("p1", 1), row("p2", 22), row("n1", 30)],
    )
    .unwrap();

    // p2 changes its commit, n1 is new, p3 is not in the target.
    let mut tx = begin(full_stack(2));
    let popped = tx.reset_to_state_partially(&target, &names(&["p2", "n1", "p3"])).unwrap();
    assert_eq!(popped, names(&["p2"]));
    assert_eq!(tx.applied(), &names(&["p1"]));
    assert_eq!(tx.unapplied(), &names(&["p2", "n1"]));
    assert_eq!(tx.hidden(), &names(&["h1"]));
    assert_eq!(tx.get_patch(&name("p2")), Some(PatchState { commit: id(22) }));
    assert_eq!(tx.get_patch(&name("n1")), Some(PatchState { commit: id(30) }));
    assert_eq!(tx.get_patch(&name("p3")), None);
    assert_eq!(tx.get_patch(&name("h1")), Some(PatchState { commit: id(4) }));
    let done = tx.execute("reset", &Vec::new());
    assert_eq!(done.status, Ok(()));

    // A patch with the same commit in both stays where it is.
    let mut tx = begin(full_stack(2));
    let popped = tx.reset_to_state_partially(&target, &names(&["p1"])).unwrap();
    assert!(popped.is_empty());
    assert_eq!(tx.applied(), &names(&["p1", "p2"]));
    assert_eq!(tx.unapplied(), &names(&["p3"]));

    // Deleting the bottom patch pops all applied patches.
    let mut tx = begin(full_stack(2));
    let without_p1 = StackState::new(id(8));
    let popped = tx.reset_to_state_partially(&without_p1, &names(&["p1", "h1"])).unwrap();
    assert_eq!(popped, names(&["p1", "p2"]));
    assert!(tx.applied().is_empty());
    assert_eq!(tx.unapplied(), &names(&["p2", "p3"]));
    assert!(tx.hidden().is_empty());
    assert_eq!(tx.get_patch(&name("p1")), None);
}

#[test]
fn conflict_under_rollback_keeps_what_was_published_before() {
    // The first transaction pushes p1 and is published.
    let mut tx = begin(empty_stack());
    tx.new_unapplied(&name("p1"), id(1), 0).unwrap();
    tx.new_unapplied(&name("p2"), id(2), 1).unwrap();
    tx.push_patch(&name("p1"), Merge::Clean(id(11))).unwrap();
    let done = tx.execute("push", &Vec::new());
    assert_eq!(done.status, Ok(()));
    let mut store = StateRef::holding(50);
    store.publish(&done.publish.unwrap(), id(51)).unwrap();
    let mut stack = done.stack;
    stack.published(id(51));

    // The second transaction meets a conflict and is given up.
    let before = stack.clone();
    let mut tx = begin(stack);
    assert!(tx.push_patch(&name("p2"), Merge::Conflict).is_err());
    let done = tx.execute("push", &Vec::new());
    assert_eq!(
        done.status,
        Err(Error::CausedConflicts("`p2` does not apply cleanly".to_string()))
    );
    assert!(done.publish.is_none());
    // Exactly the result of p1 is left: the stack, the state reference and
    // the working copy are as the first transaction left them.
    assert_eq!(done.stack, before);
    assert_eq!(done.stack.applied(), &names(&["p1"]));
    assert_eq!(done.stack.unapplied(), &names(&["p2"]));
    assert_eq!(done.checkout, Some(Checkout { commit: id(11), discard_changes: true }));
    assert_eq!(store.value(), Some(&RefTarget::Direct(id(51))));
}

#[test]
fn patches_are_updated_and_deleted() {
    let mut tx = begin(full_stack(2));
    tx.update_patch(&name("p2"), id(20)).unwrap();
    assert_eq!(tx.get_patch(&name("p2")), Some(PatchState { commit: id(20) }));
    assert_eq!(tx.top(), id(20));
    assert_eq!(tx.update_patch(&name("p9"), id(9)), Err(Error::NoSuchPatch("p9".to_string())));

    assert_eq!(tx.delete_patch(&name("p1")), Err(Error::NoSuchPatch("p1".to_string())));
    tx.delete_patch(&name("p3")).unwrap();
    tx.delete_patch(&name("h1")).unwrap();
    assert!(tx.unapplied().is_empty());
    assert!(tx.hidden().is_empty());
    assert_eq!(tx.get_patch(&name("p3")), None);
    let done = tx.execute("delete", &Vec::new());
    assert_eq!(done.status, Ok(()));
    assert_eq!(done.stack.state().patches().len(), 2);
    assert_eq!(done.stack.head(), id(20));
}

#[test]
fn push_request_says_what_the_store_has_to_do() {
    let tx = begin(full_stack(2));
    // The top is the commit of p2; a patch that stands on it needs no merge.
    assert_eq!(tx.push_request(&name("p3"), id(2)), Ok(PushRequest::FastForward(id(3))));
    assert_eq!(
        tx.push_request(&name("p3"), id(1)),
        Ok(PushRequest::Merge { base: id(1), ours: id(2), theirs: id(3) })
    );
    assert_eq!(
        tx.push_request(&name("p9"), id(1)),
        Err(Error::NoSuchPatch("p9".to_string()))
    );
}
