use stgit::error::Error;
use stgit::oid::CommitId;
use stgit::patchname::PatchName;
use stgit::refs::{ExistingRef, Expect, RefEdit, RefTarget};
use stgit::stack::{
    open_decision, BranchInfo, ConfigEdit, InitializationPolicy, OpenPlan, Stack, StoredState,
};
use stgit::state::{PatchEntry, PatchState, StackState};

fn id(byte: u8) -> CommitId {
    CommitId::from_bytes([byte; 20])
}

fn name(text: &str) -> PatchName {
    PatchName::from_str(text).unwrap()
}

fn names(texts: &[&str]) -> Vec<PatchName> {
    texts.iter().map(|t| name(t)).collect()
}

fn row(text: &str, byte: u8) -> PatchEntry {
    PatchEntry { name: name(text), state: PatchState { commit: id(byte) } }
}

fn direct(refname: &str, byte: u8) -> ExistingRef {
    ExistingRef { name: refname.as_bytes().to_vec(), target: RefTarget::Direct(id(byte)) }
}

fn branch(head: u8) -> BranchInfo {
    BranchInfo { name: "main".to_string(), refname: "refs/heads/main".to_string(), head: id(head) }
}

fn stored() -> StoredState {
    StoredState {
        commit: id(50),
        state: StackState::from_parts(
            Some(id(49)),
            id(2),
            names(&["p1", "p2"]),
            names(&["p3"]),
            Vec::new(),
            vec![row("p1", 1), row("p2", 2), row("p3", 3)],
        )
        .unwrap(),
        first_applied_parent: Some(id(10)),
    }
}

fn open(policy: InitializationPolicy, stored: Option<StoredState>) -> Result<Stack, Error> {
    Stack::from_branch(branch(2), stored, policy, &Vec::new()).map(|opened| opened.stack)
}

#[test]
fn decisions_on_opening() {
    assert_eq!(open_decision(true, InitializationPolicy::AutoInitialize, "main"), Ok(OpenPlan::Load));
    assert_eq!(open_decision(true, InitializationPolicy::RequireInitialized, "main"), Ok(OpenPlan::Load));
    assert_eq!(open_decision(true, InitializationPolicy::AllowUninitialized, "main"), Ok(OpenPlan::Load));
    assert_eq!(
        open_decision(true, InitializationPolicy::MustInitialize, "main"),
        Err(Error::AlreadyInitialized("main".to_string()))
    );
    assert_eq!(open_decision(false, InitializationPolicy::AutoInitialize, "main"), Ok(OpenPlan::Initialize));
    assert_eq!(open_decision(false, InitializationPolicy::MustInitialize, "main"), Ok(OpenPlan::Initialize));
    assert_eq!(open_decision(false, InitializationPolicy::AllowUninitialized, "main"), Ok(OpenPlan::Uninitialized));
    assert_eq!(
        open_decision(false, InitializationPolicy::RequireInitialized, "main"),
        Err(Error::NotInitialized("main".to_string()))
    );
}

#[test]
fn initializing_a_stack_on_a_branch_without_state() {
    let opened =
        Stack::from_branch(branch(2), None, InitializationPolicy::AutoInitialize, &Vec::new())
            .unwrap();
    let stack = &opened.stack;
    assert!(stack.is_initialized());
    assert!(stack.applied().is_empty());
    assert!(stack.unapplied().is_empty());
    assert!(stack.hidden().is_empty());
    assert_eq!(stack.base(), id(2));
    assert_eq!(stack.head(), id(2));
    assert_eq!(stack.get_stack_refname(), "refs/stacks/main");
    assert_eq!(stack.state_commit(), None);
    let publish = opened.initialize.unwrap();
    assert_eq!(publish.refname, "refs/stacks/main");
    assert_eq!(publish.expected, Expect::MustNotExist);
    assert_eq!(publish.message, "initialize");
    assert_eq!(publish.reflog, "initialize");
    assert_eq!(publish.state, StackState::new(id(2)));
    // The commit that records the state has no parent, and what it holds
    // decodes back to the same empty snapshot.
    assert_eq!(publish.state.prev(), None);
    let read = StackState::from_tree(&publish.state.to_tree()).unwrap();
    assert_eq!(&read, opened.stack.state());
    assert!(read.applied().is_empty() && read.unapplied().is_empty() && read.hidden().is_empty());
    assert!(opened.ref_edits.is_empty());
}

#[test]
fn commit_request_is_guarded_by_the_previous_state() {
    let first = StackState::new(id(2));
    let request = first.commit("refs/stacks/main", "initialize");
    assert_eq!(request.refname, "refs/stacks/main");
    assert_eq!(request.expected, Expect::MustNotExist);
    assert_eq!(request.message, "initialize");
    assert_eq!(request.state, first);

    let later = first.advance_head(id(3), id(40));
    let request = later.commit("refs/stacks/main", "moved");
    assert_eq!(request.expected, Expect::ExistingMustMatch(RefTarget::Direct(id(40))));
    assert_eq!(request.reflog, "moved");
    assert_eq!(request.state.head(), id(3));
}

#[test]
fn must_initialize_refuses_an_existing_stack() {
    assert_eq!(
        open(InitializationPolicy::MustInitialize, Some(stored())),
        Err(Error::AlreadyInitialized("main".to_string()))
    );
}

#[test]
fn require_initialized_refuses_a_missing_stack() {
    assert_eq!(
        open(InitializationPolicy::RequireInitialized, None),
        Err(Error::NotInitialized("main".to_string()))
    );
}

#[test]
fn allow_uninitialized_gives_an_empty_stack() {
    let opened =
        Stack::from_branch(branch(2), None, InitializationPolicy::AllowUninitialized, &Vec::new())
            .unwrap();
    assert!(!opened.stack.is_initialized());
    assert!(opened.initialize.is_none());
    assert!(opened.stack.applied().is_empty());
}

#[test]
fn loading_takes_over_the_stored_state() {
    let listing = vec![
        direct("refs/patches/main/p1", 1),
        direct("refs/patches/main/p2", 2),
        direct("refs/patches/main/stray", 8),
    ];
    let opened = Stack::from_branch(
        branch(2),
        Some(stored()),
        InitializationPolicy::RequireInitialized,
        &listing,
    )
    .unwrap();
    let stack = &opened.stack;
    assert!(stack.is_initialized());
    assert!(opened.initialize.is_none());
    assert_eq!(stack.applied(), &names(&["p1", "p2"]));
    assert_eq!(stack.unapplied(), &names(&["p3"]));
    assert_eq!(stack.base(), id(10));
    assert_eq!(stack.top(), id(2));
    assert_eq!(stack.state_commit(), Some(id(50)));
    assert_eq!(stack.get_branch_name(), "main");
    assert_eq!(stack.get_branch_refname(), "refs/heads/main");
    assert_eq!(stack.get_branch_head(), id(2));
    assert!(stack.has_patch(&name("p3")));
    assert_eq!(stack.get_patch(&name("p1")), Some(PatchState { commit: id(1) }));
    assert_eq!(stack.patch_refname(&name("p1")), "refs/patches/main/p1");
    assert_eq!(stack.patch_revspec("p1^"), "refs/patches/main/p1^");
    assert_eq!(
        opened.ref_edits,
        vec![
            RefEdit::Delete {
                name: b"refs/patches/main/stray".to_vec(),
                expected: Expect::MustExistAndMatch(RefTarget::Direct(id(8))),
            },
            RefEdit::Update {
                name: b"refs/patches/main/p3".to_vec(),
                expected: Expect::MustNotExist,
                new: id(3),
                log: "fixup missing patch ref".to_string(),
            },
        ]
    );
}

#[test]
fn base_is_the_branch_head_without_applied_patches() {
    let found = StoredState {
        commit: id(50),
        state: StackState::from_parts(
            None,
            id(2),
            Vec::new(),
            names(&["p3"]),
            Vec::new(),
            vec![row("p3", 3)],
        )
        .unwrap(),
        first_applied_parent: None,
    };
    let stack = open(InitializationPolicy::AutoInitialize, Some(found)).unwrap();
    assert_eq!(stack.base(), id(2));
}

#[test]
fn first_applied_patch_needs_a_parent() {
    let mut found = stored();
    found.first_applied_parent = None;
    assert_eq!(
        open(InitializationPolicy::AutoInitialize, Some(found)),
        Err(Error::PatchWithoutParent("p1".to_string()))
    );
}

#[test]
fn head_top_mismatch_is_detected() {
    let stack = open(InitializationPolicy::AutoInitialize, Some(stored())).unwrap();
    assert!(stack.is_head_top());
    assert_eq!(stack.check_head_top_mismatch(), Ok(()));

    let moved = Stack::from_branch(
        branch(77),
        Some(stored()),
        InitializationPolicy::AutoInitialize,
        &Vec::new(),
    )
    .unwrap()
    .stack;
    assert!(!moved.is_head_top());
    assert_eq!(moved.check_head_top_mismatch(), Err(Error::HeadTopMismatch));

    // Without applied patches a moved head is no mismatch.
    let empty = Stack::from_branch(
        branch(77),
        Some(StoredState {
            commit: id(50),
            state: StackState::new(id(2)),
            first_applied_parent: None,
        }),
        InitializationPolicy::AutoInitialize,
        &Vec::new(),
    )
    .unwrap()
    .stack;
    assert!(!empty.is_head_top());
    assert_eq!(empty.check_head_top_mismatch(), Ok(()));
}

#[test]
fn external_modifications_are_logged_under_a_guard() {
    let moved = Stack::from_branch(
        branch(77),
        Some(stored()),
        InitializationPolicy::AutoInitialize,
        &Vec::new(),
    )
    .unwrap()
    .stack;
    let (stack, publish) = moved.log_external_mods(id(50), None);
    assert_eq!(stack.head(), id(77));
    assert_eq!(stack.state().prev(), Some(id(50)));
    assert_eq!(stack.applied(), &names(&["p1", "p2"]));
    assert!(stack.is_head_top());
    assert_eq!(publish.refname, "refs/stacks/main");
    assert_eq!(publish.expected, Expect::ExistingMustMatch(RefTarget::Direct(id(50))));
    assert_eq!(
        publish.message,
        "external modifications\n\nModifications by tools other than StGit (e.g. git).\n"
    );
    assert_eq!(publish.reflog, "external modifications");
    assert_eq!(&publish.state, stack.state());

    let (_, publish) = stack.log_external_mods(id(51), Some("repair"));
    assert_eq!(publish.message, "repair");
    assert_eq!(publish.reflog, "external modifications");
}

#[test]
fn clearing_the_log_forgets_the_previous_state() {
    let mut stack = open(InitializationPolicy::AutoInitialize, Some(stored())).unwrap();
    assert_eq!(stack.state().prev(), Some(id(49)));
    let publish = stack.clear_state_log("clear log");
    assert_eq!(stack.state().prev(), None);
    assert_eq!(publish.state.prev(), None);
    assert_eq!(publish.expected, Expect::ExistingMustMatch(RefTarget::Direct(id(50))));
    assert_eq!(publish.message, "clear log");
    assert_eq!(stack.applied(), &names(&["p1", "p2"]));
    stack.published(id(60));
    assert_eq!(stack.state_commit(), Some(id(60)));
}

#[test]
fn deinitialize_deletes_patch_references_then_the_state_reference() {
    let stack = open(InitializationPolicy::AutoInitialize, Some(stored())).unwrap();
    let listing = vec![
        direct("refs/heads/main", 2),
        direct("refs/patches/main/p1", 1),
        direct("refs/patches/mainline/p1", 1),
        direct("refs/patches/main/stray", 5),
        direct("refs/stacks/main", 50),
    ];
    let plan = stack.deinitialize(&direct("refs/stacks/main", 50), &listing);
    assert_eq!(
        plan.edits,
        vec![
            RefEdit::Delete {
                name: b"refs/patches/main/p1".to_vec(),
                expected: Expect::MustExistAndMatch(RefTarget::Direct(id(1))),
            },
            RefEdit::Delete {
                name: b"refs/patches/main/stray".to_vec(),
                expected: Expect::MustExistAndMatch(RefTarget::Direct(id(5))),
            },
            RefEdit::Delete {
                name: b"refs/stacks/main".to_vec(),
                expected: Expect::MustExistAndMatch(RefTarget::Direct(id(50))),
            },
        ]
    );
    assert_eq!(plan.config_section, "branch.main.stgit");
}

#[test]
fn protection_lives_in_the_configuration() {
    let stack = open(InitializationPolicy::AutoInitialize, Some(stored())).unwrap();
    assert!(stack.is_protected(Some(true)));
    assert!(!stack.is_protected(Some(false)));
    assert!(!stack.is_protected(None));
    assert_eq!(stack.config_subsection(), "main.stgit");
    assert_eq!(
        stack.set_protected(true),
        ConfigEdit::SetProtect { subsection: "main.stgit".to_string() }
    );
    assert_eq!(
        stack.set_protected(false),
        ConfigEdit::ClearProtect { subsection: "main.stgit".to_string() }
    );
}

#[test]
fn update_head_follows_the_branch() {
    let mut stack = open(InitializationPolicy::AutoInitialize, Some(stored())).unwrap();
    stack.update_head("refs/heads/main".to_string(), id(90));
    assert_eq!(stack.get_branch_head(), id(90));
    assert!(!stack.is_head_top());
}
