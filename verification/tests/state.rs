use stgit::oid::CommitId;
use stgit::patchname::PatchName;
use stgit::state::{PatchEntry, PatchState, StackState, StateError};

fn id(byte: u8) -> CommitId {
    CommitId::from_bytes([byte; 20])
}

fn name(text: &str) -> PatchName {
    PatchName::from_str(text).unwrap()
}

fn names(texts: &[&str]) -> Vec<PatchName> {
    texts.iter().map(|t| name(t)).collect()
}

fn row(text: &str, byte: u8) -> PatchEntry {
    PatchEntry { name: name(text), state: PatchState { commit: id(byte) } }
}

#[test]
fn new_state_is_empty() {
    let state = StackState::new(id(7));
    assert!(state.applied().is_empty());
    assert!(state.unapplied().is_empty());
    assert!(state.hidden().is_empty());
    assert!(state.patches().is_empty());
    assert_eq!(state.prev(), None);
    assert_eq!(state.head(), id(7));
    assert_eq!(state.top(), id(7));
}

#[test]
fn from_parts_accepts_consistent_parts() {
    let state = StackState::from_parts(
        Some(id(9)),
        id(2),
        names(&["p1", "p2"]),
        names(&["p3"]),
        names(&["p4"]),
        vec![row("p1", 1), row("p2", 2), row("p3", 3), row("p4", 4)],
    )
    .unwrap();
    assert_eq!(state.applied(), &names(&["p1", "p2"]));
    assert_eq!(state.unapplied(), &names(&["p3"]));
    assert_eq!(state.hidden(), &names(&["p4"]));
    assert_eq!(state.prev(), Some(id(9)));
    assert_eq!(state.top(), id(2));
    assert!(state.has_patch(&name("p3")));
    assert!(!state.has_patch(&name("p5")));
    assert_eq!(state.get_patch(&name("p4")), Some(PatchState { commit: id(4) }));
    assert_eq!(state.get_patch(&name("p5")), None);
}

#[test]
fn from_parts_rejects_a_name_in_two_lists() {
    let made = StackState::from_parts(
        None,
        id(1),
        names(&["p1"]),
        names(&["p1"]),
        Vec::new(),
        vec![row("p1", 1)],
    );
    assert_eq!(made, Err(StateError::DuplicateName));
}

#[test]
fn from_parts_rejects_a_name_twice_in_one_list() {
    let made = StackState::from_parts(
        None,
        id(1),
        Vec::new(),
        Vec::new(),
        names(&["h", "h"]),
        vec![row("h", 1)],
    );
    assert_eq!(made, Err(StateError::DuplicateName));
}

#[test]
fn from_parts_rejects_a_row_twice() {
    let made = StackState::from_parts(
        None,
        id(1),
        names(&["p1"]),
        Vec::new(),
        Vec::new(),
        vec![row("p1", 1), row("p1", 2)],
    );
    assert_eq!(made, Err(StateError::DuplicateName));
}

#[test]
fn from_parts_rejects_a_listed_name_without_row() {
    let made = StackState::from_parts(
        None,
        id(1),
        names(&["p1", "p2"]),
        Vec::new(),
        Vec::new(),
        vec![row("p1", 1)],
    );
    assert_eq!(made, Err(StateError::DanglingName));
}

#[test]
fn from_parts_rejects_a_row_without_listed_name() {
    let made = StackState::from_parts(
        None,
        id(1),
        names(&["p1"]),
        Vec::new(),
        Vec::new(),
        vec![row("p1", 1), row("p2", 2)],
    );
    assert_eq!(made, Err(StateError::UnlistedPatch));
}

#[test]
fn advance_head_keeps_the_patches() {
    let state = StackState::from_parts(
        None,
        id(1),
        names(&["p1"]),
        names(&["p2"]),
        Vec::new(),
        vec![row("p1", 1), row("p2", 2)],
    )
    .unwrap();
    let advanced = state.duplicate().advance_head(id(5), id(6));
    assert_eq!(advanced.head(), id(5));
    assert_eq!(advanced.prev(), Some(id(6)));
    assert_eq!(advanced.applied(), state.applied());
    assert_eq!(advanced.unapplied(), state.unapplied());
    assert_eq!(advanced.hidden(), state.hidden());
    assert_eq!(advanced.patches(), state.patches());
}

#[test]
fn commit_ids_in_hexadecimal() {
    let mut bytes = [0u8; 20];
    bytes[0] = 0xab;
    bytes[1] = 0x01;
    bytes[19] = 0xf0;
    let hex = CommitId::from_bytes(bytes).to_hex();
    assert_eq!(hex, "ab010000000000000000000000000000000000f0");
    assert!(id(3).same(&id(3)));
    assert!(!id(3).same(&id(4)));
}
