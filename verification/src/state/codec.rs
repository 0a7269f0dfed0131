//! The encoding of a stack state.
//!
//! A state is stored as a sequence of bytes: a version byte; the previous
//! state, as a byte that says whether there is one, followed by its id; the
//! head; the three lists of names; and the table of patches. A list is its
//! length followed by its names, a name is the length of its UTF-8 bytes
//! followed by these bytes, and a length is eight bytes, lowest first. A row
//! of the table is a name followed by the id of its commit.

use crate::oid::{id_of, CommitId};
use crate::patchname::{valid_name, PatchName};
use crate::state::{
    all_wf, keys_of, names_of, parts_defect, row_names, rows_of, rows_wf, PatchEntry,
    PatchState, StackState, StateError, StateView,
};
use crate::text::utf8_to_string;
use vstd::bytes::*;
use vstd::prelude::*;
use vstd::slice::*;
use vstd::string::*;
use vstd::utf8::*;

verus! {

/// The version of the encoding.
pub const FORMAT_VERSION: u8 = 5;

/// Why bytes encode no stack state.
#[derive(Clone, Copy, Debug, PartialEq, Eq, Structural)]
pub enum DecodeError {
    /// The bytes do not follow the encoding: the version is another, a list
    /// or a name is cut short or missing, a name is no valid patch name, or
    /// bytes are left over.
    Malformed,
    /// The bytes follow the encoding, and what they hold is no stack state.
    Inconsistent(StateError),
}

/// The encoding of a length.
pub open spec fn enc_len(n: nat) -> Seq<u8> {
    spec_u64_to_le_bytes(n as u64)
}

/// The encoding of a name.
pub open spec fn enc_name(name: Seq<char>) -> Seq<u8> {
    enc_len(encode_utf8(name).len()) + encode_utf8(name)
}

/// The encoding of names in a row.
pub open spec fn enc_names(names: Seq<Seq<char>>) -> Seq<u8>
    decreases names.len(),
{
    if names.len() == 0 {
        Seq::empty()
    } else {
        enc_name(names[0]) + enc_names(names.drop_first())
    }
}

/// The encoding of a list of names.
pub open spec fn enc_list(names: Seq<Seq<char>>) -> Seq<u8> {
    enc_len(names.len()) + enc_names(names)
}

/// The encoding of one row of the table.
pub open spec fn enc_row(row: (Seq<char>, PatchState)) -> Seq<u8> {
    enc_name(row.0) + row.1.commit@
}

/// The encoding of rows in a row.
pub open spec fn enc_rows(rows: Seq<(Seq<char>, PatchState)>) -> Seq<u8>
    decreases rows.len(),
{
    if rows.len() == 0 {
        Seq::empty()
    } else {
        enc_row(rows[0]) + enc_rows(rows.drop_first())
    }
}

/// The encoding of the table.
pub open spec fn enc_table(rows: Seq<(Seq<char>, PatchState)>) -> Seq<u8> {
    enc_len(rows.len()) + enc_rows(rows)
}

/// The encoding of the previous state.
pub open spec fn enc_prev(prev: Option<CommitId>) -> Seq<u8> {
    match prev {
        Some(commit) => seq![1u8] + commit@,
        None => seq![0u8],
    }
}

/// The encoding of a stack state.
pub open spec fn encoding(v: StateView) -> Seq<u8> {
    seq![FORMAT_VERSION] + enc_prev(v.prev) + v.head@ + enc_list(v.applied) + enc_list(v.unapplied)
        + enc_list(v.hidden) + enc_table(v.patches)
}

/// Names in a row with one more name behind them.
pub proof fn lemma_enc_names_push(names: Seq<Seq<char>>, name: Seq<char>)
    ensures
        enc_names(names.push(name)) == enc_names(names) + enc_name(name),
    decreases names.len(),
{
    let all = names.push(name);
    if names.len() == 0 {
        assert(enc_names(all) =~= enc_name(name) + enc_names(all.drop_first()));
    } else {
        assert(all.drop_first() =~= names.drop_first().push(name));
        lemma_enc_names_push(names.drop_first(), name);
    }
}

/// Rows in a row with one more row behind them.
pub proof fn lemma_enc_rows_push(rows: Seq<(Seq<char>, PatchState)>, row: (Seq<char>, PatchState))
    ensures
        enc_rows(rows.push(row)) == enc_rows(rows) + enc_row(row),
    decreases rows.len(),
{
    let all = rows.push(row);
    if rows.len() == 0 {
        assert(all.drop_first() =~= Seq::<(Seq<char>, PatchState)>::empty());
        assert(enc_rows(all) =~= enc_row(row) + enc_rows(all.drop_first()));
    } else {
        assert(all.drop_first() =~= rows.drop_first().push(row));
        lemma_enc_rows_push(rows.drop_first(), row);
    }
}

fn put_bytes(out: &mut Vec<u8>, bytes: &[u8])
    ensures
        final(out)@ == old(out)@ + bytes@,
{
    let mut i: usize = 0;
    while i < bytes.len()
        invariant
            i <= bytes.len(),
            out@ == old(out)@ + bytes@.take(i as int),
        decreases bytes.len() - i,
    {
        out.push(bytes[i]);
        i += 1;
    }
}

fn put_len(out: &mut Vec<u8>, n: usize)
    ensures
        final(out)@ == old(out)@ + enc_len(n as nat),
{
    let bytes = u64_to_le_bytes(n as u64);
    put_bytes(out, bytes.as_slice());
}

fn put_id(out: &mut Vec<u8>, id: &CommitId)
    ensures
        final(out)@ == old(out)@ + id@,
{
    put_bytes(out, vstd::array::array_as_slice(id.as_bytes()));
}

fn put_name(out: &mut Vec<u8>, name: &PatchName)
    ensures
        final(out)@ == old(out)@ + enc_name(name@),
        fits(encode_utf8(name@).len()),
{
    let bytes = name.as_str().as_bytes_vec();
    put_len(out, bytes.len());
    put_bytes(out, bytes.as_slice());
}

fn put_list(out: &mut Vec<u8>, names: &Vec<PatchName>)
    ensures
        final(out)@ == old(out)@ + enc_list(names_of(names@)),
        fits(names@.len()),
        forall|j: int|
            0 <= j < names@.len() ==> fits(encode_utf8(#[trigger] names_of(names@)[j]).len()),
{
    put_len(out, names.len());
    let ghost head = out@;
    let ghost all = names_of(names@);
    let mut i: usize = 0;
    while i < names.len()
        invariant
            i <= names.len(),
            all == names_of(names@),
            out@ == head + enc_names(all.take(i as int)),
            forall|j: int| 0 <= j < i ==> fits(encode_utf8(#[trigger] all[j]).len()),
        decreases names.len() - i,
    {
        put_name(out, &names[i]);
        proof {
            assert(all.take(i + 1) =~= all.take(i as int).push(names@[i as int]@));
            lemma_enc_names_push(all.take(i as int), names@[i as int]@);
        }
        i += 1;
    }
    assert(all.take(names.len() as int) =~= all);
}

fn put_table(out: &mut Vec<u8>, rows: &Vec<PatchEntry>)
    ensures
        final(out)@ == old(out)@ + enc_table(rows_of(rows@)),
        fits(rows@.len()),
        forall|j: int|
            0 <= j < rows@.len() ==> fits(
                encode_utf8(#[trigger] row_names(rows_of(rows@))[j]).len(),
            ),
{
    put_len(out, rows.len());
    let ghost head = out@;
    let ghost all = rows_of(rows@);
    let mut i: usize = 0;
    assert(out@ =~= head + enc_rows(all.take(0)));
    while i < rows.len()
        invariant
            i <= rows.len(),
            all == rows_of(rows@),
            out@ == head + enc_rows(all.take(i as int)),
            forall|j: int| 0 <= j < i ==> fits(encode_utf8(#[trigger] row_names(all)[j]).len()),
        decreases rows.len() - i,
    {
        put_name(out, &rows[i].name);
        put_id(out, &rows[i].state.commit);
        proof {
            let row = (rows@[i as int].name@, rows@[i as int].state);
            assert(all.take(i + 1) =~= all.take(i as int).push(row));
            lemma_enc_rows_push(all.take(i as int), row);
        }
        i += 1;
    }
    assert(all.take(rows.len() as int) =~= all);
}

/// Reads a length at `at`: the value of eight bytes, which is no length
/// where it exceeds the number of bytes there are.
pub open spec fn parse_len(b: Seq<u8>, at: int) -> Option<(nat, int)> {
    if 0 <= at && at + 8 <= b.len() {
        let n = spec_u64_from_le_bytes(b.subrange(at, at + 8)) as nat;
        if n <= b.len() {
            Some((n, at + 8))
        } else {
            None
        }
    } else {
        None
    }
}

/// Reads an id at `at`.
pub open spec fn parse_id(b: Seq<u8>, at: int) -> Option<(CommitId, int)> {
    if 0 <= at && at + 20 <= b.len() {
        Some((id_of(b.subrange(at, at + 20)), at + 20))
    } else {
        None
    }
}

/// Reads a name at `at`: it must be valid UTF-8 and a valid patch name.
pub open spec fn parse_name(b: Seq<u8>, at: int) -> Option<(Seq<char>, int)> {
    match parse_len(b, at) {
        Some((n, p)) => {
            let bytes = b.subrange(p, p + n);
            if p + n <= b.len() && valid_utf8(bytes) && valid_name(decode_utf8(bytes)) {
                Some((decode_utf8(bytes), p + n))
            } else {
                None
            }
        },
        None => None,
    }
}

/// Reads `count` names from `at` on.
pub open spec fn parse_names(b: Seq<u8>, at: int, count: nat) -> Option<(Seq<Seq<char>>, int)>
    decreases count,
{
    if count == 0 {
        Some((Seq::empty(), at))
    } else {
        match parse_name(b, at) {
            Some((name, p)) => match parse_names(b, p, (count - 1) as nat) {
                Some((rest, q)) => Some((seq![name] + rest, q)),
                None => None,
            },
            None => None,
        }
    }
}

/// Reads a list of names at `at`.
pub open spec fn parse_list(b: Seq<u8>, at: int) -> Option<(Seq<Seq<char>>, int)> {
    match parse_len(b, at) {
        Some((n, p)) => parse_names(b, p, n),
        None => None,
    }
}

/// Reads a row of the table at `at`.
pub open spec fn parse_row(b: Seq<u8>, at: int) -> Option<((Seq<char>, PatchState), int)> {
    match parse_name(b, at) {
        Some((name, p)) => match parse_id(b, p) {
            Some((commit, q)) => Some(((name, PatchState { commit }), q)),
            None => None,
        },
        None => None,
    }
}

/// Reads `count` rows from `at` on.
pub open spec fn parse_rows(b: Seq<u8>, at: int, count: nat) -> Option<
    (Seq<(Seq<char>, PatchState)>, int),
>
    decreases count,
{
    if count == 0 {
        Some((Seq::empty(), at))
    } else {
        match parse_row(b, at) {
            Some((row, p)) => match parse_rows(b, p, (count - 1) as nat) {
                Some((rest, q)) => Some((seq![row] + rest, q)),
                None => None,
            },
            None => None,
        }
    }
}

/// Reads the table at `at`.
pub open spec fn parse_table(b: Seq<u8>, at: int) -> Option<(Seq<(Seq<char>, PatchState)>, int)> {
    match parse_len(b, at) {
        Some((n, p)) => parse_rows(b, p, n),
        None => None,
    }
}

/// Reads the previous state at `at`.
pub open spec fn parse_prev(b: Seq<u8>, at: int) -> Option<(Option<CommitId>, int)> {
    if 0 <= at < b.len() {
        if b[at] == 0u8 {
            Some((None, at + 1))
        } else if b[at] == 1u8 {
            match parse_id(b, at + 1) {
                Some((commit, p)) => Some((Some(commit), p)),
                None => None,
            }
        } else {
            None
        }
    } else {
        None
    }
}

/// Reads the lists and the table from `at` on, to the end of the bytes.
pub open spec fn parse_lists(b: Seq<u8>, prev: Option<CommitId>, head: CommitId, at: int) -> Option<
    StateView,
> {
    match parse_list(b, at) {
        Some((applied, second)) => match parse_list(b, second) {
            Some((unapplied, third)) => match parse_list(b, third) {
                Some((hidden, table)) => match parse_table(b, table) {
                    Some((patches, end)) => if end == b.len() {
                        Some(StateView { prev, head, applied, unapplied, hidden, patches })
                    } else {
                        None
                    },
                    None => None,
                },
                None => None,
            },
            None => None,
        },
        None => None,
    }
}

/// What bytes that follow the encoding hold.
pub open spec fn parse(b: Seq<u8>) -> Option<StateView> {
    if b.len() == 0 || b[0] != FORMAT_VERSION {
        None
    } else {
        match parse_prev(b, 1) {
            Some((prev, p)) => match parse_id(b, p) {
                Some((head, q)) => parse_lists(b, prev, head, q),
                None => None,
            },
            None => None,
        }
    }
}

/// The stack state that bytes encode, or why they encode none.
pub open spec fn decoded(b: Seq<u8>) -> Result<StateView, DecodeError> {
    match parse(b) {
        None => Err(DecodeError::Malformed),
        Some(v) => match parts_defect(v.listed(), v.keys()) {
            Some(defect) => Err(DecodeError::Inconsistent(defect)),
            None => Ok(v),
        },
    }
}

/// Whether `part` stands in `b` at `at`.
pub open spec fn holds_at(b: Seq<u8>, at: int, part: Seq<u8>) -> bool {
    0 <= at && at + part.len() <= b.len() && b.subrange(at, at + part.len()) == part
}

/// Two parts in a row stand where each of them stands.
pub proof fn lemma_holds_split(b: Seq<u8>, at: int, first: Seq<u8>, second: Seq<u8>)
    requires
        holds_at(b, at, first + second),
    ensures
        holds_at(b, at, first),
        holds_at(b, at + first.len(), second),
{
    let both = first + second;
    let whole = b.subrange(at, at + both.len());
    assert(b.subrange(at, at + first.len()) =~= whole.subrange(0, first.len() as int));
    assert(whole.subrange(0, first.len() as int) =~= first);
    assert(b.subrange(at + first.len(), at + first.len() + second.len()) =~= whole.subrange(
        first.len() as int,
        both.len() as int,
    ));
    assert(whole.subrange(first.len() as int, both.len() as int) =~= second);
}

/// Whether a length can be encoded.
pub open spec fn fits(n: nat) -> bool {
    n <= u64::MAX
}

/// Whether names can be encoded and read again: each is a valid patch
/// name whose bytes are not too many.
pub open spec fn names_fit(names: Seq<Seq<char>>) -> bool {
    forall|i: int|
        0 <= i < names.len() ==> valid_name(#[trigger] names[i]) && fits(
            encode_utf8(names[i]).len(),
        )
}

/// Whether a state can be encoded and read again.
pub open spec fn state_fits(v: StateView) -> bool {
    &&& fits(v.applied.len()) && names_fit(v.applied)
    &&& fits(v.unapplied.len()) && names_fit(v.unapplied)
    &&& fits(v.hidden.len()) && names_fit(v.hidden)
    &&& fits(v.patches.len()) && names_fit(row_names(v.patches))
}

proof fn lemma_read_len(b: Seq<u8>, at: int, n: nat)
    requires
        holds_at(b, at, enc_len(n)),
        fits(n),
        n <= b.len(),
    ensures
        enc_len(n).len() == 8,
        parse_len(b, at) == Some((n, at + 8)),
{
    lemma_auto_spec_u64_to_from_le_bytes();
}

proof fn lemma_read_id(b: Seq<u8>, at: int, id: CommitId)
    requires
        holds_at(b, at, id@),
    ensures
        id@.len() == 20,
        parse_id(b, at) == Some((id, at + 20)),
{
    id.lemma_view(id);
    id.lemma_id_of();
}

proof fn lemma_read_name(b: Seq<u8>, at: int, name: Seq<char>)
    requires
        holds_at(b, at, enc_name(name)),
        valid_name(name),
        fits(encode_utf8(name).len()),
    ensures
        enc_name(name).len() >= 8,
        parse_name(b, at) == Some((name, at + enc_name(name).len())),
{
    let bytes = encode_utf8(name);
    lemma_auto_spec_u64_to_from_le_bytes();
    lemma_holds_split(b, at, enc_len(bytes.len()), bytes);
    lemma_read_len(b, at, bytes.len());
    encode_utf8_valid_utf8(name);
    encode_utf8_decode_utf8(name);
}

proof fn lemma_read_names(b: Seq<u8>, at: int, names: Seq<Seq<char>>)
    requires
        holds_at(b, at, enc_names(names)),
        names_fit(names),
    ensures
        enc_names(names).len() >= 8 * names.len(),
        parse_names(b, at, names.len()) == Some((names, at + enc_names(names).len())),
    decreases names.len(),
{
    if names.len() > 0 {
        let rest = names.drop_first();
        lemma_holds_split(b, at, enc_name(names[0]), enc_names(rest));
        lemma_read_name(b, at, names[0]);
        lemma_read_names(b, at + enc_name(names[0]).len(), rest);
    }
}

proof fn lemma_read_list(b: Seq<u8>, at: int, names: Seq<Seq<char>>)
    requires
        holds_at(b, at, enc_list(names)),
        fits(names.len()),
        names_fit(names),
    ensures
        parse_list(b, at) == Some((names, at + enc_list(names).len())),
{
    lemma_auto_spec_u64_to_from_le_bytes();
    lemma_holds_split(b, at, enc_len(names.len()), enc_names(names));
    lemma_read_names(b, at + 8, names);
    lemma_read_len(b, at, names.len());
}

proof fn lemma_read_rows(b: Seq<u8>, at: int, rows: Seq<(Seq<char>, PatchState)>)
    requires
        holds_at(b, at, enc_rows(rows)),
        names_fit(row_names(rows)),
    ensures
        enc_rows(rows).len() >= 8 * rows.len(),
        parse_rows(b, at, rows.len()) == Some((rows, at + enc_rows(rows).len())),
    decreases rows.len(),
{
    if rows.len() > 0 {
        let rest = rows.drop_first();
        let row = rows[0];
        assert(row_names(rows)[0] == row.0);
        lemma_holds_split(b, at, enc_row(row), enc_rows(rest));
        lemma_holds_split(b, at, enc_name(row.0), row.1.commit@);
        lemma_read_name(b, at, row.0);
        lemma_read_id(b, at + enc_name(row.0).len(), row.1.commit);
        assert forall|i: int| 0 <= i < rest.len() implies valid_name(
            #[trigger] row_names(rest)[i],
        ) && fits(encode_utf8(row_names(rest)[i]).len()) by {
            assert(row_names(rest)[i] == row_names(rows)[i + 1]);
        }
        lemma_read_rows(b, at + enc_row(row).len(), rest);
    }
}

proof fn lemma_read_table(b: Seq<u8>, at: int, rows: Seq<(Seq<char>, PatchState)>)
    requires
        holds_at(b, at, enc_table(rows)),
        fits(rows.len()),
        names_fit(row_names(rows)),
    ensures
        parse_table(b, at) == Some((rows, at + enc_table(rows).len())),
{
    lemma_auto_spec_u64_to_from_le_bytes();
    lemma_holds_split(b, at, enc_len(rows.len()), enc_rows(rows));
    lemma_read_rows(b, at + 8, rows);
    lemma_read_len(b, at, rows.len());
}

/// What was written can be read: the encoding of a state holds that state.
pub proof fn lemma_round_trip(v: StateView)
    requires
        state_fits(v),
    ensures
        parse(encoding(v)) == Some(v),
{
    let b = encoding(v);
    let version = seq![FORMAT_VERSION];
    let prev = enc_prev(v.prev);
    let head = v.head@;
    let l1 = enc_list(v.applied);
    let l2 = enc_list(v.unapplied);
    let l3 = enc_list(v.hidden);
    let table = enc_table(v.patches);
    assert(b.subrange(0, b.len() as int) =~= b);
    lemma_holds_split(b, 0, version + prev + head + l1 + l2 + l3, table);
    lemma_holds_split(b, 0, version + prev + head + l1 + l2, l3);
    lemma_holds_split(b, 0, version + prev + head + l1, l2);
    lemma_holds_split(b, 0, version + prev + head, l1);
    lemma_holds_split(b, 0, version + prev, head);
    lemma_holds_split(b, 0, version, prev);
    let at_head: int = 1 + prev.len() as int;
    match v.prev {
        Some(commit) => {
            lemma_holds_split(b, 1, seq![1u8], commit@);
            lemma_read_id(b, 2, commit);
        },
        None => {},
    }
    lemma_read_id(b, at_head, v.head);
    let at_applied: int = at_head + 20;
    lemma_read_list(b, at_applied, v.applied);
    let at_unapplied: int = at_applied + l1.len();
    lemma_read_list(b, at_unapplied, v.unapplied);
    let at_hidden: int = at_unapplied + l2.len();
    lemma_read_list(b, at_hidden, v.hidden);
    let at_table: int = at_hidden + l3.len();
    lemma_read_table(b, at_table, v.patches);
}

fn take_len(bytes: &[u8], at: usize) -> (taken: Option<(usize, usize)>)
    ensures
        match parse_len(bytes@, at as int) {
            Some((n, p)) => taken is Some && taken.unwrap().0 as nat == n && taken.unwrap().1 as int
                == p && p <= bytes@.len(),
            None => taken is None,
        },
{
    let len = bytes.len();
    if at > len || len - at < 8 {
        return None;
    }
    let n = u64_from_le_bytes(slice_subrange(bytes, at, at + 8));
    if n > len as u64 {
        return None;
    }
    Some((n as usize, at + 8))
}

fn take_id(bytes: &[u8], at: usize) -> (taken: Option<(CommitId, usize)>)
    ensures
        match parse_id(bytes@, at as int) {
            Some((id, p)) => taken is Some && taken.unwrap().0 == id && taken.unwrap().1 as int == p
                && p <= bytes@.len(),
            None => taken is None,
        },
{
    let len = bytes.len();
    if at > len || len - at < 20 {
        return None;
    }
    match CommitId::from_slice(slice_subrange(bytes, at, at + 20)) {
        Some(id) => Some((id, at + 20)),
        None => None,
    }
}

fn take_name(bytes: &[u8], at: usize) -> (taken: Option<(PatchName, usize)>)
    ensures
        match parse_name(bytes@, at as int) {
            Some((name, p)) => taken is Some && taken.unwrap().0@ == name && taken.unwrap().0.wf()
                && taken.unwrap().1 == p && p <= bytes@.len(),
            None => taken is None,
        },
{
    let (n, p) = match take_len(bytes, at) {
        Some(found) => found,
        None => {
            return None;
        },
    };
    if bytes.len() - p < n {
        return None;
    }
    let text = match utf8_to_string(slice_subrange(bytes, p, p + n)) {
        Some(text) => text,
        None => {
            return None;
        },
    };
    match PatchName::from_str(text.as_str()) {
        Ok(name) => Some((name, p + n)),
        Err(_) => None,
    }
}

fn take_list(bytes: &[u8], at: usize) -> (taken: Option<(Vec<PatchName>, usize)>)
    ensures
        match parse_list(bytes@, at as int) {
            Some((names, p)) => taken is Some && names_of(taken.unwrap().0@) == names && all_wf(
                taken.unwrap().0@,
            ) && taken.unwrap().1 == p && p <= bytes@.len(),
            None => taken is None,
        },
{
    let (count, start) = match take_len(bytes, at) {
        Some(found) => found,
        None => {
            return None;
        },
    };
    let ghost b = bytes@;
    let mut names: Vec<PatchName> = Vec::new();
    let mut pos: usize = start;
    let mut i: usize = 0;
    while i < count
        invariant
            i <= count,
            b == bytes@,
            pos <= b.len(),
            all_wf(names@),
            parse_list(b, at as int) == parse_names(b, start as int, count as nat),
            parse_names(b, start as int, count as nat) == match parse_names(
                b,
                pos as int,
                (count - i) as nat,
            ) {
                Some((rest, q)) => Some((names_of(names@) + rest, q)),
                None => None,
            },
        decreases count - i,
    {
        let ghost here = pos as int;
        proof {
            let left = (count - i) as nat;
            assert(parse_names(b, here, left) == match parse_name(b, here) {
                Some((name, p)) => match parse_names(b, p, (left - 1) as nat) {
                    Some((rest, q)) => Some((seq![name] + rest, q)),
                    None => None,
                },
                None => None,
            });
        }
        match take_name(bytes, pos) {
            Some((name, next)) => {
                names.push(name);
                pos = next;
            },
            None => {
                return None;
            },
        }
        i += 1;
    }
    Some((names, pos))
}

fn take_table(bytes: &[u8], at: usize) -> (taken: Option<(Vec<PatchEntry>, usize)>)
    ensures
        match parse_table(bytes@, at as int) {
            Some((rows, p)) => taken is Some && rows_of(taken.unwrap().0@) == rows && rows_wf(
                taken.unwrap().0@,
            ) && taken.unwrap().1 == p && p <= bytes@.len(),
            None => taken is None,
        },
{
    let (count, start) = match take_len(bytes, at) {
        Some(found) => found,
        None => {
            return None;
        },
    };
    let ghost b = bytes@;
    let mut rows: Vec<PatchEntry> = Vec::new();
    let mut pos: usize = start;
    let mut i: usize = 0;
    while i < count
        invariant
            i <= count,
            b == bytes@,
            pos <= b.len(),
            rows_wf(rows@),
            parse_table(b, at as int) == parse_rows(b, start as int, count as nat),
            parse_rows(b, start as int, count as nat) == match parse_rows(
                b,
                pos as int,
                (count - i) as nat,
            ) {
                Some((rest, q)) => Some((rows_of(rows@) + rest, q)),
                None => None,
            },
        decreases count - i,
    {
        let ghost here = pos as int;
        proof {
            let left = (count - i) as nat;
            assert(parse_rows(b, here, left) == match parse_row(b, here) {
                Some((row, p)) => match parse_rows(b, p, (left - 1) as nat) {
                    Some((rest, q)) => Some((seq![row] + rest, q)),
                    None => None,
                },
                None => None,
            });
        }
        let (name, after_name) = match take_name(bytes, pos) {
            Some(found) => found,
            None => {
                return None;
            },
        };
        let (commit, next) = match take_id(bytes, after_name) {
            Some(found) => found,
            None => {
                return None;
            },
        };
        let ghost row = (name@, PatchState { commit });
        rows.push(PatchEntry { name, state: PatchState { commit } });
        pos = next;
        i += 1;
    }
    proof {
        assert(parse_rows(b, pos as int, 0) == Some(
            (Seq::<(Seq<char>, PatchState)>::empty(), pos as int),
        ));
    }
    Some((rows, pos))
}

impl StackState {
    /// Reads a state from its encoding.
    ///
    /// Bytes that do not follow the encoding are refused as malformed.
    /// Bytes that follow it are refused where a name stands twice, where a
    /// listed name has no row in the table, and where a row belongs to no
    /// list.
    pub fn from_tree(encoded: &[u8]) -> (read: Result<StackState, DecodeError>)
        ensures
            match decoded(encoded@) {
                Ok(v) => read is Ok && read.unwrap()@ == v && read.unwrap().wf(),
                Err(error) => read == Err::<StackState, DecodeError>(error),
            },
    {
        if encoded.len() == 0 || encoded[0] != FORMAT_VERSION {
            return Err(DecodeError::Malformed);
        }
        let (prev, after_prev) = if encoded.len() < 2 {
            return Err(DecodeError::Malformed);
        } else if encoded[1] == 0u8 {
            (None, 2usize)
        } else if encoded[1] == 1u8 {
            match take_id(encoded, 2) {
                Some((commit, p)) => (Some(commit), p),
                None => {
                    return Err(DecodeError::Malformed);
                },
            }
        } else {
            return Err(DecodeError::Malformed);
        };
        let (head, after_head) = match take_id(encoded, after_prev) {
            Some(found) => found,
            None => {
                return Err(DecodeError::Malformed);
            },
        };
        let (applied, after_applied) = match take_list(encoded, after_head) {
            Some(found) => found,
            None => {
                return Err(DecodeError::Malformed);
            },
        };
        let (unapplied, after_unapplied) = match take_list(encoded, after_applied) {
            Some(found) => found,
            None => {
                return Err(DecodeError::Malformed);
            },
        };
        let (hidden, after_hidden) = match take_list(encoded, after_unapplied) {
            Some(found) => found,
            None => {
                return Err(DecodeError::Malformed);
            },
        };
        let (patches, end) = match take_table(encoded, after_hidden) {
            Some(found) => found,
            None => {
                return Err(DecodeError::Malformed);
            },
        };
        if end != encoded.len() {
            return Err(DecodeError::Malformed);
        }
        proof {
            let v = parse(encoded@).unwrap();
            assert(v.keys() =~= keys_of(patches@));
        }
        match StackState::from_parts(prev, head, applied, unapplied, hidden, patches) {
            Ok(state) => Ok(state),
            Err(defect) => Err(DecodeError::Inconsistent(defect)),
        }
    }

    /// Writes the state in its encoding. What is written can be read
    /// again, and gives this state.
    pub fn to_tree(&self) -> (encoded: Vec<u8>)
        requires
            self.wf(),
        ensures
            encoded@ == encoding(self@),
            decoded(encoded@) == Ok::<StateView, DecodeError>(self@),
    {
        let mut out: Vec<u8> = Vec::new();
        out.push(FORMAT_VERSION);
        match self.prev() {
            Some(commit) => {
                out.push(1u8);
                put_id(&mut out, &commit);
            },
            None => {
                out.push(0u8);
            },
        }
        assert(out@ =~= seq![FORMAT_VERSION] + enc_prev(self@.prev));
        put_id(&mut out, &self.head());
        put_list(&mut out, self.applied());
        put_list(&mut out, self.unapplied());
        put_list(&mut out, self.hidden());
        put_table(&mut out, self.patches());
        proof {
            let v = self@;
            self.lemma_wf();
            let listed = v.listed();
            let a = v.applied.len() as int;
            let u = v.unapplied.len() as int;
            assert forall|i: int| 0 <= i < v.patches.len() implies valid_name(
                #[trigger] row_names(v.patches)[i],
            ) by {
                let key = v.keys()[i];
                let at = choose|at: int| 0 <= at < listed.len() && listed[at] == key;
            }
            lemma_round_trip(v);
        }
        out
    }
}

} // verus!
