//! Conversions between strings, characters and bytes.

use bstr::ByteSlice;
use vstd::prelude::*;
use vstd::string::*;
use vstd::utf8::*;

verus! {

/// The characters of `s`, in order.
pub fn chars_of(s: &str) -> (chars: Vec<char>)
    ensures
        chars@ == s@,
{
    let mut chars: Vec<char> = Vec::new();
    for c in it: s.chars()
        invariant
            chars@ == it.seq().take(it.index@),
    {
        chars.push(c);
    }
    chars
}

/// Collects characters into a string with `String::from_iter`; the string
/// holds exactly the given characters, in order.
#[verifier::external_body]
pub(crate) fn string_of(chars: &Vec<char>) -> (s: String)
    ensures
        s@ == chars@,
{
    String::from_iter(chars.iter())
}

/// Checks `bytes` with `bstr::ByteSlice::to_str`, which returns the bytes as a
/// string slice exactly when they are valid UTF-8; the owned copy holds the
/// same bytes.
#[verifier::external_body]
pub(crate) fn utf8_to_string(bytes: &[u8]) -> (decoded: Option<String>)
    ensures
        decoded is Some <==> valid_utf8(bytes@),
        decoded is Some ==> decoded.unwrap()@ == decode_utf8(bytes@),
{
    match bytes.to_str() {
        Ok(s) => Some(String::from(s)),
        Err(_) => None,
    }
}

/// The text that `bstr::ByteSlice::to_str_lossy` makes of bytes: the
/// characters that the bytes encode, with a replacement character for each
/// part that is no valid UTF-8.
pub uninterp spec fn lossy_text(bytes: Seq<u8>) -> Seq<char>;

/// Converts bytes to text with `bstr::ByteSlice::to_str_lossy`. The result is
/// named [`lossy_text`]; for valid UTF-8 it is the text that the bytes encode.
#[verifier::external_body]
pub(crate) fn to_str_lossy(bytes: &[u8]) -> (text: String)
    ensures
        text@ == lossy_text(bytes@),
        valid_utf8(bytes@) ==> text@ == decode_utf8(bytes@),
{
    bytes.to_str_lossy().into_owned()
}

/// Searches with `bstr::ByteSlice::find_byte`, which returns the index of the
/// first occurrence of the byte, or `None` where the byte does not occur.
#[verifier::external_body]
pub(crate) fn find_byte(haystack: &[u8], byte: u8) -> (found: Option<usize>)
    ensures
        match found {
            Some(at) => at < haystack@.len() && haystack@[at as int] == byte && forall|j: int|
                0 <= j < at ==> haystack@[j] != byte,
            None => forall|j: int| 0 <= j < haystack@.len() ==> haystack@[j] != byte,
        },
{
    haystack.find_byte(byte)
}

/// Whether the item at `q` comes before the item at `p` when items are put
/// in the order of their keys and items with the same key keep their order.
pub open spec fn precedes(keys: Seq<usize>, q: int, p: int) -> bool {
    keys[q] < keys[p] || (keys[q] == keys[p] && q < p)
}

/// How many of the first `n` items come before the item at `p`.
pub open spec fn rank_among(keys: Seq<usize>, p: int, n: int) -> int
    decreases n,
{
    if n <= 0 {
        0
    } else {
        rank_among(keys, p, n - 1) + if precedes(keys, n - 1, p) {
            1int
        } else {
            0int
        }
    }
}

/// The place of the item at `p` in the order of the keys.
pub open spec fn rank(keys: Seq<usize>, p: int) -> int {
    rank_among(keys, p, keys.len() as int)
}

/// The place of an item lies within the sequence.
pub proof fn lemma_rank_bounds(keys: Seq<usize>, p: int)
    requires
        0 <= p < keys.len(),
    ensures
        0 <= rank(keys, p) < keys.len(),
{
    lemma_rank_among_bounds(keys, p, keys.len() as int);
}

proof fn lemma_rank_among_bounds(keys: Seq<usize>, p: int, n: int)
    requires
        0 <= p < keys.len(),
        0 <= n <= keys.len(),
    ensures
        0 <= rank_among(keys, p, n),
        n <= p ==> rank_among(keys, p, n) <= n,
        n > p ==> rank_among(keys, p, n) <= n - 1,
    decreases n,
{
    if n > 0 {
        lemma_rank_among_bounds(keys, p, n - 1);
    }
}

/// Whether `order` lists the positions `0`, `1`, ... below `n` in their order.
pub open spec fn is_identity(order: Seq<usize>, n: nat) -> bool {
    order.len() == n && forall|i: int| 0 <= i < n ==> order[i] == i
}

/// Sorts positions by their keys with `slice::sort_by_key`, which is stable:
/// each position comes to stand at its rank, that is behind the positions
/// with a smaller key and behind the earlier positions with the same key.
#[verifier::external_body]
pub(crate) fn sort_positions(order: &mut Vec<usize>, keys: &Vec<usize>)
    requires
        is_identity(old(order)@, keys@.len()),
    ensures
        final(order)@.len() == keys@.len(),
        forall|i: int| 0 <= i < keys@.len() ==> (#[trigger] final(order)@[i]) < keys@.len(),
        forall|p: int| 0 <= p < keys@.len() ==> final(order)@[#[trigger] rank(keys@, p)] == p,
{
    order.sort_by_key(|position| keys[*position]);
}

/// The positions of `keys` in the order of the keys, positions with the
/// same key in their own order.
pub fn stable_order(keys: &Vec<usize>) -> (order: Vec<usize>)
    ensures
        order@.len() == keys@.len(),
        forall|i: int| 0 <= i < keys@.len() ==> (#[trigger] order@[i]) < keys@.len(),
        forall|p: int| 0 <= p < keys@.len() ==> order@[#[trigger] rank(keys@, p)] == p,
{
    let mut order: Vec<usize> = Vec::new();
    let mut i: usize = 0;
    while i < keys.len()
        invariant
            i <= keys.len(),
            is_identity(order@, i as nat),
        decreases keys.len() - i,
    {
        order.push(i);
        i += 1;
    }
    sort_positions(&mut order, keys);
    order
}

/// Appends the characters of `text`.
pub fn push_str_chars(out: &mut Vec<char>, text: &str)
    ensures
        final(out)@ == old(out)@ + text@,
{
    let chars = chars_of(text);
    let mut i: usize = 0;
    while i < chars.len()
        invariant
            i <= chars.len(),
            out@ == old(out)@ + chars@.take(i as int),
        decreases chars.len() - i,
    {
        out.push(chars[i]);
        i += 1;
    }
}

} // verus!
