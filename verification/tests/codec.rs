use stgit::oid::CommitId;
use stgit::patchname::PatchName;
use stgit::state::codec::DecodeError;
use stgit::state::{PatchEntry, PatchState, StackState, StateError};

fn id(byte: u8) -> CommitId {
    CommitId::from_bytes([byte; 20])
}

fn name(text: &str) -> PatchName {
    PatchName::from_str(text).unwrap()
}

fn names(texts: &[&str]) -> Vec<PatchName> {
    texts.iter().map(|t| name(t)).collect()
}

fn row(text: &str, byte: u8) -> PatchEntry {
    PatchEntry { name: name(text), state: PatchState { commit: id(byte) } }
}

fn len(n: u64) -> Vec<u8> {
    n.to_le_bytes().to_vec()
}

fn put_name(out: &mut Vec<u8>, text: &str) {
    out.extend(len(text.len() as u64));
    out.extend(text.as_bytes());
}

/// The encoding of a state without a previous state, written by hand.
fn encode(head: u8, lists: [&[&str]; 3], table: &[(&str, u8)]) -> Vec<u8> {
    let mut out = vec![5u8, 0u8];
    out.extend([head; 20]);
    for list in lists {
        out.extend(len(list.len() as u64));
        for text in list {
            put_name(&mut out, text);
        }
    }
    out.extend(len(table.len() as u64));
    for (text, commit) in table {
        put_name(&mut out, text);
        out.extend([*commit; 20]);
    }
    out
}

#[test]
fn empty_state_is_written_byte_by_byte() {
    let encoded = StackState::new(id(7)).to_tree();
    let mut expected = vec![5u8, 0u8];
    expected.extend([7u8; 20]);
    expected.extend([0u8; 32]);
    assert_eq!(encoded, expected);
}

#[test]
fn empty_state_decodes_back() {
    let state = StackState::new(id(7));
    let read = StackState::from_tree(&state.to_tree()).unwrap();
    assert_eq!(read, state);
    assert!(read.applied().is_empty());
    assert!(read.unapplied().is_empty());
    assert!(read.hidden().is_empty());
    assert_eq!(read.prev(), None);
}

#[test]
fn state_is_written_byte_by_byte() {
    let state = StackState::from_parts(
        Some(id(9)),
        id(2),
        names(&["p1"]),
        Vec::new(),
        names(&["hé"]),
        vec![row("p1", 1), row("hé", 4)],
    )
    .unwrap();
    let mut expected = vec![5u8, 1u8];
    expected.extend([9u8; 20]);
    expected.extend([2u8; 20]);
    expected.extend([1, 0, 0, 0, 0, 0, 0, 0, 2, 0, 0, 0, 0, 0, 0, 0, b'p', b'1']);
    expected.extend([0u8; 8]);
    expected.extend([1, 0, 0, 0, 0, 0, 0, 0, 3, 0, 0, 0, 0, 0, 0, 0, b'h', 0xc3, 0xa9]);
    expected.extend([2, 0, 0, 0, 0, 0, 0, 0]);
    expected.extend([2, 0, 0, 0, 0, 0, 0, 0, b'p', b'1']);
    expected.extend([1u8; 20]);
    expected.extend([3, 0, 0, 0, 0, 0, 0, 0, b'h', 0xc3, 0xa9]);
    expected.extend([4u8; 20]);
    assert_eq!(state.to_tree(), expected);
}

#[test]
fn round_trip_keeps_the_state() {
    let state = StackState::from_parts(
        Some(id(9)),
        id(2),
        names(&["p1", "p2"]),
        names(&["p3"]),
        names(&["h1", "grüße"]),
        vec![row("p2", 2), row("p1", 1), row("grüße", 5), row("p3", 3), row("h1", 4)],
    )
    .unwrap();
    let read = StackState::from_tree(&state.to_tree()).unwrap();
    assert_eq!(read, state);
    assert_eq!(read.applied(), &names(&["p1", "p2"]));
    assert_eq!(read.hidden(), &names(&["h1", "grüße"]));
    assert_eq!(read.get_patch(&name("p3")), Some(PatchState { commit: id(3) }));
    assert_eq!(read.to_tree(), state.to_tree());
}

#[test]
fn hand_written_encoding_is_read() {
    let encoded = encode(2, [&["p1"], &["p2"], &[]], &[("p1", 1), ("p2", 2)]);
    let read = StackState::from_tree(&encoded).unwrap();
    assert_eq!(read.head(), id(2));
    assert_eq!(read.applied(), &names(&["p1"]));
    assert_eq!(read.unapplied(), &names(&["p2"]));
    assert_eq!(read.top(), id(1));
}

#[test]
fn malformed_bytes_are_refused() {
    let good = encode(2, [&["p1"], &["p2"], &[]], &[("p1", 1), ("p2", 2)]);
    assert!(StackState::from_tree(&good).is_ok());
    // Nothing at all.
    assert_eq!(StackState::from_tree(&[]), Err(DecodeError::Malformed));
    // Another version.
    let mut bad = good.clone();
    bad[0] = 4;
    assert_eq!(StackState::from_tree(&bad), Err(DecodeError::Malformed));
    // A flag that is neither 0 nor 1.
    let mut bad = good.clone();
    bad[1] = 2;
    assert_eq!(StackState::from_tree(&bad), Err(DecodeError::Malformed));
    // Cut short at every length: a list or a name is missing.
    for cut in 0..good.len() {
        assert_eq!(StackState::from_tree(&good[..cut]), Err(DecodeError::Malformed));
    }
    // Bytes left over.
    let mut bad = good.clone();
    bad.push(0);
    assert_eq!(StackState::from_tree(&bad), Err(DecodeError::Malformed));
    // A count that promises more than there is.
    let mut bad = good.clone();
    bad[22] = 0xff;
    assert_eq!(StackState::from_tree(&bad), Err(DecodeError::Malformed));
    // A name that is no UTF-8.
    let mut bad = good.clone();
    bad[22 + 8 + 8] = 0xff;
    assert_eq!(StackState::from_tree(&bad), Err(DecodeError::Malformed));
    // A name that is no patch name.
    let bad = encode(2, [&["p 1"], &[], &[]], &[("p 1", 1)]);
    assert_eq!(StackState::from_tree(&bad), Err(DecodeError::Malformed));
}

#[test]
fn inconsistent_contents_are_refused() {
    let twice = encode(2, [&["p1"], &["p1"], &[]], &[("p1", 1)]);
    assert_eq!(
        StackState::from_tree(&twice),
        Err(DecodeError::Inconsistent(StateError::DuplicateName))
    );
    let dangling = encode(2, [&["p1"], &["p2"], &[]], &[("p1", 1)]);
    assert_eq!(
        StackState::from_tree(&dangling),
        Err(DecodeError::Inconsistent(StateError::DanglingName))
    );
    let unlisted = encode(2, [&["p1"], &[], &[]], &[("p1", 1), ("p2", 2)]);
    assert_eq!(
        StackState::from_tree(&unlisted),
        Err(DecodeError::Inconsistent(StateError::UnlistedPatch))
    );
}

#[test]
fn lists_of_a_read_state_are_disjoint_and_covered() {
    let state = StackState::from_parts(
        None,
        id(2),
        names(&["p1", "p2"]),
        names(&["p3"]),
        names(&["h1"]),
        vec![row("p1", 1), row("p2", 2), row("p3", 3), row("h1", 4)],
    )
    .unwrap();
    let read = StackState::from_tree(&state.to_tree()).unwrap();
    let mut all: Vec<&PatchName> = Vec::new();
    all.extend(read.applied());
    all.extend(read.unapplied());
    all.extend(read.hidden());
    for (i, one) in all.iter().enumerate() {
        assert!(read.has_patch(one));
        for other in &all[i + 1..] {
            assert_ne!(one, other);
        }
    }
    assert_eq!(all.len(), read.patches().len());
}
