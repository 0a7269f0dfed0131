use std::collections::BTreeMap;

use stgit::oid::CommitId;
use stgit::patchname::PatchName;
use stgit::reconcile::ensure_patch_refs;
use stgit::refs::{ExistingRef, Expect, RefEdit, RefTarget};
use stgit::state::{PatchEntry, PatchState, StackState};

fn id(byte: u8) -> CommitId {
    CommitId::from_bytes([byte; 20])
}

fn name(text: &str) -> PatchName {
    PatchName::from_str(text).unwrap()
}

fn names(texts: &[&str]) -> Vec<PatchName> {
    texts.iter().map(|t| name(t)).collect()
}

fn row(text: &str, byte: u8) -> PatchEntry {
    PatchEntry { name: name(text), state: PatchState { commit: id(byte) } }
}

fn direct(refname: &str, byte: u8) -> ExistingRef {
    ExistingRef { name: refname.as_bytes().to_vec(), target: RefTarget::Direct(id(byte)) }
}

fn state() -> StackState {
    StackState::from_parts(
        None,
        id(2),
        names(&["p1", "p2"]),
        names(&["p3"]),
        Vec::new(),
        vec![row("p1", 1), row("p2", 2), row("p3", 3)],
    )
    .unwrap()
}

/// A store of references that carries out edits as a store does: an edit
/// passes only if the reference is as the edit expects.
struct Store {
    refs: BTreeMap<Vec<u8>, RefTarget>,
}

impl Store {
    fn of(listing: &[ExistingRef]) -> Store {
        let mut refs = BTreeMap::new();
        for found in listing {
            refs.insert(found.name.clone(), found.target.clone());
        }
        Store { refs }
    }

    fn listing(&self) -> Vec<ExistingRef> {
        self.refs
            .iter()
            .map(|(name, target)| ExistingRef { name: name.clone(), target: target.clone() })
            .collect()
    }

    fn apply(&mut self, edit: &RefEdit) -> bool {
        match edit {
            RefEdit::Update { name, expected, new, .. } => {
                if !expected.admits(self.refs.get(name)) {
                    return false;
                }
                self.refs.insert(name.clone(), RefTarget::Direct(*new));
                true
            }
            RefEdit::Delete { name, expected } => {
                if !expected.admits(self.refs.get(name)) {
                    return false;
                }
                self.refs.remove(name);
                true
            }
        }
    }
}

#[test]
fn good_references_are_left_alone() {
    let listing = vec![
        direct("refs/heads/main", 2),
        direct("refs/patches/main/p1", 1),
        direct("refs/patches/main/p2", 2),
        direct("refs/patches/main/p3", 3),
        direct("refs/patches/other/p9", 9),
    ];
    assert_eq!(ensure_patch_refs("main", &state(), &listing), Vec::new());
}

#[test]
fn a_reference_that_points_elsewhere_is_moved() {
    let listing = vec![
        direct("refs/patches/main/p1", 1),
        direct("refs/patches/main/p2", 7),
        direct("refs/patches/main/p3", 3),
    ];
    let plan = ensure_patch_refs("main", &state(), &listing);
    assert_eq!(
        plan,
        vec![RefEdit::Update {
            name: b"refs/patches/main/p2".to_vec(),
            expected: Expect::MustExistAndMatch(RefTarget::Direct(id(7))),
            new: id(2),
            log: "fixup broken patch ref".to_string(),
        }]
    );
}

#[test]
fn a_symbolic_reference_is_made_direct() {
    let symbolic = RefTarget::Symbolic(b"refs/heads/main".to_vec());
    let listing = vec![
        ExistingRef { name: b"refs/patches/main/p1".to_vec(), target: symbolic.clone() },
        direct("refs/patches/main/p2", 2),
        direct("refs/patches/main/p3", 3),
    ];
    let plan = ensure_patch_refs("main", &state(), &listing);
    assert_eq!(
        plan,
        vec![RefEdit::Update {
            name: b"refs/patches/main/p1".to_vec(),
            expected: Expect::ExistingMustMatch(symbolic),
            new: id(1),
            log: "fixup symbolic patch ref".to_string(),
        }]
    );
}

#[test]
fn renamed_reference_is_deleted_and_missing_one_recreated() {
    // The reference of p2 was renamed to p2-old directly in the store.
    let listing = vec![
        direct("refs/patches/main/p1", 1),
        direct("refs/patches/main/p2-old", 2),
        direct("refs/patches/main/p3", 3),
    ];
    let state = state();
    let plan = ensure_patch_refs("main", &state, &listing);
    assert_eq!(
        plan,
        vec![
            RefEdit::Delete {
                name: b"refs/patches/main/p2-old".to_vec(),
                expected: Expect::MustExistAndMatch(RefTarget::Direct(id(2))),
            },
            RefEdit::Update {
                name: b"refs/patches/main/p2".to_vec(),
                expected: Expect::MustNotExist,
                new: id(2),
                log: "fixup missing patch ref".to_string(),
            },
        ]
    );
    // The membership of the lists is not altered.
    assert_eq!(state.applied(), &names(&["p1", "p2"]));
    assert_eq!(state.unapplied(), &names(&["p3"]));
    assert!(state.hidden().is_empty());
}

#[test]
fn references_that_carry_no_patch_name_are_deleted() {
    let listing = vec![
        direct("refs/patches/main/p1", 1),
        direct("refs/patches/main/p2", 2),
        direct("refs/patches/main/p3", 3),
        direct("refs/patches/main/nested/name", 4),
        ExistingRef {
            name: b"refs/patches/main/\xff\xfe".to_vec(),
            target: RefTarget::Direct(id(5)),
        },
        direct("refs/patches/main/x.lock", 6),
    ];
    let plan = ensure_patch_refs("main", &state(), &listing);
    let deleted: Vec<Vec<u8>> = plan
        .iter()
        .map(|edit| match edit {
            RefEdit::Delete { name, .. } => name.clone(),
            other => panic!("unexpected edit {:?}", other),
        })
        .collect();
    assert_eq!(
        deleted,
        vec![
            b"refs/patches/main/nested/name".to_vec(),
            b"refs/patches/main/\xff\xfe".to_vec(),
            b"refs/patches/main/x.lock".to_vec(),
        ]
    );
}

#[test]
fn reconciliation_is_idempotent() {
    let listing = vec![
        direct("refs/heads/main", 2),
        direct("refs/patches/main/p1", 9),
        direct("refs/patches/main/gone", 4),
        ExistingRef {
            name: b"refs/patches/main/p3".to_vec(),
            target: RefTarget::Symbolic(b"refs/heads/main".to_vec()),
        },
    ];
    let state = state();
    let mut store = Store::of(&listing);
    let plan = ensure_patch_refs("main", &state, &store.listing());
    assert_eq!(plan.len(), 4);
    for edit in &plan {
        assert!(store.apply(edit));
    }
    assert_eq!(
        store.listing(),
        vec![
            direct("refs/heads/main", 2),
            direct("refs/patches/main/p1", 1),
            direct("refs/patches/main/p2", 2),
            direct("refs/patches/main/p3", 3),
        ]
    );
    assert_eq!(ensure_patch_refs("main", &state, &store.listing()), Vec::new());
}

#[test]
fn an_edit_is_refused_when_the_reference_changed_meanwhile() {
    let listing = vec![direct("refs/patches/main/p1", 9)];
    let plan = ensure_patch_refs("main", &state(), &listing);
    // Someone moves the reference before the plan is carried out.
    let mut store = Store::of(&[direct("refs/patches/main/p1", 8)]);
    assert!(!store.apply(&plan[0]));
    assert_eq!(store.listing(), vec![direct("refs/patches/main/p1", 8)]);
}

#[test]
fn expectations_admit_what_they_describe() {
    let held = RefTarget::Direct(id(1));
    let other = RefTarget::Direct(id(2));
    assert!(Expect::MustNotExist.admits(None));
    assert!(!Expect::MustNotExist.admits(Some(&held)));
    assert!(Expect::MustExistAndMatch(held.clone()).admits(Some(&held)));
    assert!(!Expect::MustExistAndMatch(held.clone()).admits(Some(&other)));
    assert!(!Expect::MustExistAndMatch(held.clone()).admits(None));
    assert!(Expect::ExistingMustMatch(held.clone()).admits(Some(&held)));
    assert!(Expect::ExistingMustMatch(held.clone()).admits(None));
    assert!(!Expect::ExistingMustMatch(held.clone()).admits(Some(&other)));
}
