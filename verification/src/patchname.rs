//! Names that identify the patches of a stack.

use crate::text::{chars_of, string_of};
use vstd::prelude::*;
use vstd::string::*;

verus! {

/// Why a string cannot be a patch name.
#[derive(Clone, Copy, Debug, PartialEq, Eq, Structural)]
pub enum InvalidName {
    /// The name has no characters.
    Empty,
    /// The name has more characters than the length limit admits.
    TooLong,
    /// The name holds a control character, a space or one of `~^:?*[\/`.
    ForbiddenChar,
    /// The name holds `..` or `@{`.
    ForbiddenSequence,
    /// The name starts with `.` or `-`.
    BadStart,
    /// The name ends with `.` or with `.lock`.
    BadEnd,
    /// The name is `@`.
    Reserved,
}

/// Characters that no patch name may hold.
pub open spec fn forbidden_char(c: char) -> bool {
    (c as u32) < 0x20 || c == '\u{7f}' || c == ' ' || c == '~' || c == '^' || c == ':' || c == '?'
        || c == '*' || c == '[' || c == '\\' || c == '/'
}

/// Pairs of characters that may not stand side by side in a patch name.
pub open spec fn forbidden_pair(a: char, b: char) -> bool {
    (a == '.' && b == '.') || (a == '@' && b == '{')
}

/// Whether a forbidden character stands in `s`.
pub open spec fn has_forbidden_char(s: Seq<char>) -> bool {
    exists|i: int| 0 <= i < s.len() && forbidden_char(#[trigger] s[i])
}

/// Whether a forbidden pair of characters stands in `s`.
pub open spec fn has_forbidden_sequence(s: Seq<char>) -> bool {
    exists|i: int| 0 <= i < s.len() - 1 && forbidden_pair(#[trigger] s[i], s[i + 1])
}

/// The suffix that marks lock files of the reference store.
pub open spec fn lock_suffix() -> Seq<char> {
    seq!['.', 'l', 'o', 'c', 'k']
}

/// Whether `s` ends with `suffix`.
pub open spec fn ends_with(s: Seq<char>, suffix: Seq<char>) -> bool {
    s.len() >= suffix.len() && s.subrange(s.len() - suffix.len(), s.len() as int) == suffix
}

/// The length limit in force: a limit of zero stands for no limit.
pub open spec fn effective_limit(limit: Option<usize>) -> Option<usize> {
    match limit {
        Some(n) if n > 0 => Some(n),
        _ => None,
    }
}

/// Whether a name of `len` characters is longer than the limit admits.
pub open spec fn exceeds(len: nat, limit: Option<usize>) -> bool {
    match effective_limit(limit) {
        Some(n) => len > n,
        None => false,
    }
}

/// The first reason, in the order of the variants of [`InvalidName`], for
/// which `s` cannot be a patch name under the given length limit, if any.
pub open spec fn name_defect(s: Seq<char>, limit: Option<usize>) -> Option<InvalidName> {
    if s.len() == 0 {
        Some(InvalidName::Empty)
    } else if exceeds(s.len(), limit) {
        Some(InvalidName::TooLong)
    } else if has_forbidden_char(s) {
        Some(InvalidName::ForbiddenChar)
    } else if has_forbidden_sequence(s) {
        Some(InvalidName::ForbiddenSequence)
    } else if s[0] == '.' || s[0] == '-' {
        Some(InvalidName::BadStart)
    } else if s.last() == '.' || ends_with(s, lock_suffix()) {
        Some(InvalidName::BadEnd)
    } else if s == seq!['@'] {
        Some(InvalidName::Reserved)
    } else {
        None
    }
}

/// Whether `s` can be a patch name when no length limit is in force.
pub open spec fn valid_name(s: Seq<char>) -> bool {
    name_defect(s, None) is None
}

fn is_forbidden_char(c: char) -> (forbidden: bool)
    ensures
        forbidden == forbidden_char(c),
{
    (c as u32) < 0x20 || c == '\u{7f}' || c == ' ' || c == '~' || c == '^' || c == ':' || c == '?'
        || c == '*' || c == '[' || c == '\\' || c == '/'
}

fn find_forbidden_char(chars: &Vec<char>) -> (found: bool)
    ensures
        found == has_forbidden_char(chars@),
{
    let mut i: usize = 0;
    while i < chars.len()
        invariant
            i <= chars.len(),
            forall|j: int| 0 <= j < i ==> !forbidden_char(#[trigger] chars@[j]),
        decreases chars.len() - i,
    {
        if is_forbidden_char(chars[i]) {
            return true;
        }
        i += 1;
    }
    false
}

fn find_forbidden_sequence(chars: &Vec<char>) -> (found: bool)
    ensures
        found == has_forbidden_sequence(chars@),
{
    if chars.len() < 2 {
        return false;
    }
    let mut i: usize = 0;
    while i < chars.len() - 1
        invariant
            chars.len() >= 2,
            i <= chars.len() - 1,
            forall|j: int| 0 <= j < i ==> !forbidden_pair(#[trigger] chars@[j], chars@[j + 1]),
        decreases chars.len() - i,
    {
        let a = chars[i];
        let b = chars[i + 1];
        if (a == '.' && b == '.') || (a == '@' && b == '{') {
            return true;
        }
        i += 1;
    }
    false
}

fn has_lock_suffix(chars: &Vec<char>) -> (found: bool)
    ensures
        found == ends_with(chars@, lock_suffix()),
{
    let n = chars.len();
    if n < 5 {
        return false;
    }
    let found = chars[n - 5] == '.' && chars[n - 4] == 'l' && chars[n - 3] == 'o' && chars[n - 2]
        == 'c' && chars[n - 1] == 'k';
    proof {
        let tail = chars@.subrange(n - 5, n as int);
        if found {
            assert(tail =~= lock_suffix());
        }
    }
    found
}

fn check_chars(chars: &Vec<char>, length_limit: Option<usize>) -> (checked: Result<(), InvalidName>)
    ensures
        match name_defect(chars@, length_limit) {
            Some(defect) => checked == Err::<(), InvalidName>(defect),
            None => checked is Ok,
        },
{
    let n = chars.len();
    if n == 0 {
        return Err(InvalidName::Empty);
    }
    match length_limit {
        Some(limit) => {
            if limit > 0 && n > limit {
                return Err(InvalidName::TooLong);
            }
        },
        None => {},
    }
    if find_forbidden_char(chars) {
        return Err(InvalidName::ForbiddenChar);
    }
    if find_forbidden_sequence(chars) {
        return Err(InvalidName::ForbiddenSequence);
    }
    if chars[0] == '.' || chars[0] == '-' {
        return Err(InvalidName::BadStart);
    }
    if chars[n - 1] == '.' || has_lock_suffix(chars) {
        return Err(InvalidName::BadEnd);
    }
    if n == 1 && chars[0] == '@' {
        proof {
            assert(chars@ =~= seq!['@']);
        }
        return Err(InvalidName::Reserved);
    }
    Ok(())
}

/// Characters that a made name keeps as they are: ASCII letters, digits and `_`.
pub open spec fn is_word_char(c: char) -> bool {
    ('a' <= c && c <= 'z') || ('A' <= c && c <= 'Z') || ('0' <= c && c <= '9') || c == '_'
}

/// Blank characters, which are skipped in front of the subject line.
pub open spec fn is_blank(c: char) -> bool {
    c == ' ' || c == '\t' || c == '\n' || c == '\r'
}

/// The first position at or after `i` that holds no blank character.
pub open spec fn skip_blank(s: Seq<char>, i: int) -> int
    decreases s.len() - i,
{
    if 0 <= i < s.len() && is_blank(s[i]) {
        skip_blank(s, i + 1)
    } else {
        i
    }
}

/// The first position at or after `i` that holds a line feed, or the length of `s`.
pub open spec fn line_end(s: Seq<char>, i: int) -> int
    decreases s.len() - i,
{
    if 0 <= i < s.len() && s[i] != '\n' {
        line_end(s, i + 1)
    } else {
        i
    }
}

/// The subject of a text: its first line that is not blank, without the
/// blanks in front of it.
pub open spec fn subject(s: Seq<char>) -> Seq<char> {
    let start = skip_blank(s, 0);
    s.subrange(start, line_end(s, start))
}

/// Word characters kept, every run of other characters turned into one `-`,
/// and no `-` in front.
pub open spec fn slug(s: Seq<char>) -> Seq<char>
    decreases s.len(),
{
    if s.len() == 0 {
        Seq::empty()
    } else {
        let front = slug(s.drop_last());
        let c = s.last();
        if is_word_char(c) {
            front.push(c)
        } else if front.len() > 0 && front.last() != '-' {
            front.push('-')
        } else {
            front
        }
    }
}

/// The first characters of `s`, as many as the limit admits.
pub open spec fn clip(s: Seq<char>, limit: Option<usize>) -> Seq<char> {
    match effective_limit(limit) {
        Some(n) if n < s.len() => s.take(n as int),
        _ => s,
    }
}

/// `s` without a `-` at its end.
pub open spec fn trim_dash(s: Seq<char>) -> Seq<char> {
    if s.len() > 0 && s.last() == '-' {
        s.drop_last()
    } else {
        s
    }
}

/// The name that a text suggests; empty where the subject has no word character.
pub open spec fn candidate_name(text: Seq<char>, limit: Option<usize>) -> Seq<char> {
    trim_dash(clip(slug(subject(text)), limit))
}

/// The name given to a patch whose text suggests none.
pub open spec fn default_name() -> Seq<char> {
    seq!['p', 'a', 't', 'c', 'h']
}

/// The name made of a text: the candidate, or, where that is empty and an
/// empty candidate is allowed, the default name cut to the limit.
pub open spec fn made_name(text: Seq<char>, allow_empty: bool, limit: Option<usize>) -> Option<
    Seq<char>,
> {
    let candidate = candidate_name(text, limit);
    if candidate.len() > 0 {
        Some(candidate)
    } else if allow_empty {
        Some(clip(default_name(), limit))
    } else {
        None
    }
}

/// The shape of every slug: word characters and single dashes, a word
/// character in front.
pub open spec fn slug_shaped(s: Seq<char>) -> bool {
    &&& forall|i: int| 0 <= i < s.len() ==> is_word_char(#[trigger] s[i]) || s[i] == '-'
    &&& s.len() > 0 ==> is_word_char(s[0])
    &&& forall|i: int| 0 <= i < s.len() - 1 && #[trigger] s[i] == '-' ==> s[i + 1] != '-'
}

/// Every slug has the shape of a slug.
pub proof fn lemma_slug_shaped(s: Seq<char>)
    ensures
        slug_shaped(slug(s)),
    decreases s.len(),
{
    if s.len() > 0 {
        lemma_slug_shaped(s.drop_last());
    }
}

/// A slug-shaped sequence that does not end in `-` and is not empty is a valid name.
pub proof fn lemma_shaped_is_valid(s: Seq<char>)
    requires
        slug_shaped(s),
        s.len() > 0,
        s.last() != '-',
    ensures
        valid_name(s),
{
}

/// Every name that [`made_name`] gives is a valid name within the limit.
pub proof fn lemma_made_name_valid(text: Seq<char>, allow_empty: bool, limit: Option<usize>)
    ensures
        match made_name(text, allow_empty, limit) {
            Some(name) => name_defect(name, limit) is None && valid_name(name),
            None => !allow_empty,
        },
{
    let full = slug(subject(text));
    lemma_slug_shaped(subject(text));
    let clipped = clip(full, limit);
    let candidate = trim_dash(clipped);
    if candidate.len() > 0 {
        lemma_shaped_is_valid(candidate);
    } else if allow_empty {
        let name = clip(default_name(), limit);
        lemma_shaped_is_valid(name);
    }
}

fn word_char(c: char) -> (word: bool)
    ensures
        word == is_word_char(c),
{
    ('a' <= c && c <= 'z') || ('A' <= c && c <= 'Z') || ('0' <= c && c <= '9') || c == '_'
}

/// The slug of the subject of `text`.
fn subject_slug(text: &Vec<char>) -> (out: Vec<char>)
    ensures
        out@ == slug(subject(text@)),
{
    let n = text.len();
    let mut start: usize = 0;
    while start < n && (text[start] == ' ' || text[start] == '\t' || text[start] == '\n'
        || text[start] == '\r')
        invariant
            start <= n,
            n == text.len(),
            skip_blank(text@, 0) == skip_blank(text@, start as int),
        decreases n - start,
    {
        start += 1;
    }
    let mut out: Vec<char> = Vec::new();
    let mut i: usize = start;
    while i < n && text[i] != '\n'
        invariant
            start <= i <= n,
            n == text.len(),
            line_end(text@, start as int) == line_end(text@, i as int),
            out@ == slug(text@.subrange(start as int, i as int)),
        decreases n - i,
    {
        let c = text[i];
        proof {
            let next = text@.subrange(start as int, i + 1);
            assert(next.drop_last() =~= text@.subrange(start as int, i as int));
        }
        if word_char(c) {
            out.push(c);
        } else if out.len() > 0 && out[out.len() - 1] != '-' {
            out.push('-');
        }
        i += 1;
    }
    out
}

/// Cuts `chars` to the limit and takes a `-` from its end.
fn clip_and_trim(chars: &mut Vec<char>, length_limit: Option<usize>)
    ensures
        final(chars)@ == trim_dash(clip(old(chars)@, length_limit)),
{
    match length_limit {
        Some(limit) => {
            if limit > 0 && limit < chars.len() {
                chars.truncate(limit);
            }
        },
        None => {},
    }
    if chars.len() > 0 && chars[chars.len() - 1] == '-' {
        chars.pop();
    }
}

/// The character of a decimal digit.
pub open spec fn digit_char(d: nat) -> char
    recommends
        d < 10,
{
    ((48 + d) as u8) as char
}

/// The decimal digits of `k`, most significant first.
pub open spec fn decimal(k: nat) -> Seq<char>
    decreases k,
{
    if k < 10 {
        seq![digit_char(k)]
    } else {
        decimal(k / 10).push(digit_char(k % 10))
    }
}

/// The `k`-th name tried in place of `name`: the name itself, then the name
/// followed by `-1`, `-2` and so on.
pub open spec fn numbered(name: Seq<char>, k: nat) -> Seq<char> {
    if k == 0 {
        name
    } else {
        name + seq!['-'] + decimal(k)
    }
}

/// Number of names that a search for a free name tries before it gives up.
pub const SEARCH_LIMIT: u64 = 0xffff_ffff_ffff_ffff;

/// Whether `name` is one of the given names.
pub open spec fn listed(name: Seq<char>, names: Seq<PatchName>) -> bool {
    exists|i: int| 0 <= i < names.len() && (#[trigger] names[i])@ == name
}

/// Whether `name` is in use: one of the taken or of the disallowed names.
pub open spec fn in_use(name: Seq<char>, taken: Seq<PatchName>, disallow: Seq<PatchName>) -> bool {
    listed(name, taken) || listed(name, disallow)
}

/// The first of the names tried from the `k`-th on that is not in use.
pub open spec fn first_free(
    name: Seq<char>,
    taken: Seq<PatchName>,
    disallow: Seq<PatchName>,
    k: nat,
) -> Option<Seq<char>>
    decreases SEARCH_LIMIT - k,
{
    if k >= SEARCH_LIMIT {
        None
    } else if !in_use(numbered(name, k), taken, disallow) {
        Some(numbered(name, k))
    } else {
        first_free(name, taken, disallow, k + 1)
    }
}

/// The name that stands for `name` where the taken and the disallowed names
/// are in use; `None` where every name tried is in use.
pub open spec fn uniquified(name: Seq<char>, taken: Seq<PatchName>, disallow: Seq<PatchName>) -> Option<
    Seq<char>,
> {
    first_free(name, taken, disallow, 0)
}

/// The decimal digits of a number are digits, and there is one at least.
pub proof fn lemma_decimal_digits(k: nat)
    ensures
        decimal(k).len() > 0,
        forall|i: int| 0 <= i < decimal(k).len() ==> '0' <= #[trigger] decimal(k)[i] <= '9',
    decreases k,
{
    if k >= 10 {
        lemma_decimal_digits(k / 10);
    }
}

/// A valid name followed by `-` and digits is a valid name.
proof fn lemma_suffixed_valid(name: Seq<char>, digits: Seq<char>)
    requires
        valid_name(name),
        digits.len() > 0,
        forall|i: int| 0 <= i < digits.len() ==> '0' <= #[trigger] digits[i] <= '9',
    ensures
        valid_name(name + seq!['-'] + digits),
{
    let s = name + seq!['-'] + digits;
    assert(s != seq!['@']) by {
        if s == seq!['@'] {
            assert(seq!['@'].len() == 1);
        }
    }
}

/// A valid name followed by a number is a valid name.
pub proof fn lemma_numbered_valid(name: Seq<char>, k: nat)
    requires
        valid_name(name),
    ensures
        valid_name(numbered(name, k)),
{
    if k > 0 {
        lemma_decimal_digits(k);
        lemma_suffixed_valid(name, decimal(k));
    }
}

/// The name that [`uniquified`] gives is in use nowhere, and is a valid name
/// where `name` is one.
pub proof fn lemma_first_free(
    name: Seq<char>,
    taken: Seq<PatchName>,
    disallow: Seq<PatchName>,
    k: nat,
)
    ensures
        match first_free(name, taken, disallow, k) {
            Some(free) => !in_use(free, taken, disallow) && (valid_name(name) ==> valid_name(free)),
            None => true,
        },
    decreases SEARCH_LIMIT - k,
{
    if k < SEARCH_LIMIT {
        if !in_use(numbered(name, k), taken, disallow) {
            if valid_name(name) {
                lemma_numbered_valid(name, k);
            }
        } else {
            lemma_first_free(name, taken, disallow, k + 1);
        }
    }
}

/// The number that decimal digits stand for.
pub open spec fn digits_value(digits: Seq<char>) -> nat
    decreases digits.len(),
{
    if digits.len() == 0 {
        0
    } else {
        (digits_value(digits.drop_last()) * 10 + (digits.last() as u32 - 48)) as nat
    }
}

/// The decimal digits of a number stand for that number.
pub proof fn lemma_decimal_value(k: nat)
    ensures
        digits_value(decimal(k)) == k,
    decreases k,
{
    if k < 10 {
        let digits = decimal(k);
        assert(digits_value(digits.drop_last()) == 0);
    } else {
        lemma_decimal_value(k / 10);
        let digits = decimal(k);
        assert(digits.drop_last() =~= decimal(k / 10));
    }
}

/// Different numbers give different names.
pub proof fn lemma_numbered_injective(name: Seq<char>, j: nat, k: nat)
    requires
        numbered(name, j) == numbered(name, k),
    ensures
        j == k,
{
    lemma_decimal_digits(j);
    lemma_decimal_digits(k);
    if j > 0 && k > 0 {
        let a = numbered(name, j);
        let b = numbered(name, k);
        let n = name.len() as int;
        assert(a.subrange(n + 1, a.len() as int) =~= decimal(j));
        assert(b.subrange(n + 1, b.len() as int) =~= decimal(k));
        lemma_decimal_value(j);
        lemma_decimal_value(k);
    }
}

/// Of the first `m + 1` names tried, one does not stand among `m` names.
proof fn lemma_one_is_left(name: Seq<char>, used: Seq<Seq<char>>, m: nat)
    requires
        used.len() == m,
    ensures
        exists|k: nat| k <= m && !used.contains(#[trigger] numbered(name, k)),
    decreases m,
{
    let last = numbered(name, m);
    if used.contains(last) {
        let at = choose|i: int| 0 <= i < used.len() && used[i] == last;
        let rest = used.remove(at);
        lemma_one_is_left(name, rest, (m - 1) as nat);
        let k = choose|k: nat| k <= m - 1 && !rest.contains(#[trigger] numbered(name, k));
        let wanted = numbered(name, k);
        if used.contains(wanted) {
            let j = choose|j: int| 0 <= j < used.len() && used[j] == wanted;
            if j == at {
                lemma_numbered_injective(name, k, m);
            } else if j < at {
                assert(rest[j] == wanted);
            } else {
                assert(rest[j - 1] == wanted);
            }
        }
    }
}

/// Where a later name is free, the search from an earlier one finds a name.
proof fn lemma_search_finds(
    name: Seq<char>,
    taken: Seq<PatchName>,
    disallow: Seq<PatchName>,
    from: nat,
    free: nat,
)
    requires
        from <= free < SEARCH_LIMIT,
        !in_use(numbered(name, free), taken, disallow),
    ensures
        first_free(name, taken, disallow, from) is Some,
    decreases free - from,
{
    if from < free && in_use(numbered(name, from), taken, disallow) {
        lemma_search_finds(name, taken, disallow, from + 1, free);
    }
}

/// A free name is always found where fewer names are in use than the search
/// tries: the search gives up on no stack that a machine can hold.
pub proof fn lemma_uniquify_succeeds(name: Seq<char>, taken: Seq<PatchName>, disallow: Seq<PatchName>)
    requires
        taken.len() + disallow.len() < SEARCH_LIMIT,
    ensures
        uniquified(name, taken, disallow) is Some,
{
    let m = taken.len() + disallow.len();
    let used = Seq::new(
        m,
        |i: int|
            if i < taken.len() {
                taken[i]@
            } else {
                disallow[i - taken.len()]@
            },
    );
    lemma_one_is_left(name, used, m);
    let free = choose|k: nat| k <= m && !used.contains(#[trigger] numbered(name, k));
    let wanted = numbered(name, free);
    if listed(wanted, taken) {
        let i = choose|i: int| 0 <= i < taken.len() && (#[trigger] taken[i])@ == wanted;
        assert(used[i] == wanted);
    }
    if listed(wanted, disallow) {
        let i = choose|i: int| 0 <= i < disallow.len() && (#[trigger] disallow[i])@ == wanted;
        assert(used[taken.len() + i] == wanted);
    }
    lemma_search_finds(name, taken, disallow, 0, free);
}

/// Whether two lists hold the same names in the same order.
pub open spec fn same_names(a: Seq<PatchName>, b: Seq<PatchName>) -> bool {
    a.len() == b.len() && forall|i: int| 0 <= i < a.len() ==> (#[trigger] a[i])@ == b[i]@
}

proof fn lemma_listed_same(name: Seq<char>, a: Seq<PatchName>, b: Seq<PatchName>)
    requires
        same_names(a, b),
    ensures
        listed(name, a) == listed(name, b),
{
    if listed(name, a) {
        let i = choose|i: int| 0 <= i < a.len() && (#[trigger] a[i])@ == name;
        assert(b[i]@ == name);
    }
    if listed(name, b) {
        let i = choose|i: int| 0 <= i < b.len() && (#[trigger] b[i])@ == name;
        assert(a[i]@ == name);
    }
}

proof fn lemma_first_free_same(
    name: Seq<char>,
    taken: Seq<PatchName>,
    disallow: Seq<PatchName>,
    taken_again: Seq<PatchName>,
    disallow_again: Seq<PatchName>,
    k: nat,
)
    requires
        same_names(taken, taken_again),
        same_names(disallow, disallow_again),
    ensures
        first_free(name, taken, disallow, k) == first_free(name, taken_again, disallow_again, k),
    decreases SEARCH_LIMIT - k,
{
    if k < SEARCH_LIMIT {
        lemma_listed_same(numbered(name, k), taken, taken_again);
        lemma_listed_same(numbered(name, k), disallow, disallow_again);
        lemma_first_free_same(name, taken, disallow, taken_again, disallow_again, k + 1);
    }
}

/// The name found for a patch is determined by the names given: the same
/// name with the same lists of names gives the same result, whenever and
/// wherever it is asked for.
pub proof fn lemma_uniquify_is_deterministic(
    name: Seq<char>,
    taken: Seq<PatchName>,
    disallow: Seq<PatchName>,
    taken_again: Seq<PatchName>,
    disallow_again: Seq<PatchName>,
)
    requires
        same_names(taken, taken_again),
        same_names(disallow, disallow_again),
    ensures
        uniquified(name, taken, disallow) == uniquified(name, taken_again, disallow_again),
{
    lemma_first_free_same(name, taken, disallow, taken_again, disallow_again, 0);
}

fn is_listed(name: &String, names: &Vec<PatchName>) -> (found: bool)
    ensures
        found == listed(name@, names@),
{
    let mut i: usize = 0;
    while i < names.len()
        invariant
            i <= names.len(),
            forall|j: int| 0 <= j < i ==> (#[trigger] names@[j])@ != name@,
        decreases names.len() - i,
    {
        if names[i].name.eq(name) {
            return true;
        }
        i += 1;
    }
    false
}

/// Appends the decimal digits of `k`.
pub fn push_decimal(k: u64, out: &mut Vec<char>)
    ensures
        final(out)@ == old(out)@ + decimal(k as nat),
    decreases k,
{
    if k >= 10 {
        push_decimal(k / 10, out);
    }
    let d: u8 = (k % 10) as u8;
    let c: char = (48u8 + d) as char;
    out.push(c);
}

/// The name of one patch within a stack.
#[derive(Clone, Debug, PartialEq, Eq, Hash)]
pub struct PatchName {
    name: String,
}

impl View for PatchName {
    type V = Seq<char>;

    closed spec fn view(&self) -> Seq<char> {
        self.name@
    }
}

impl PatchName {
    /// What holds of every patch name: it passes [`valid_name`].
    pub open spec fn wf(&self) -> bool {
        valid_name(self@)
    }

    /// Checks a candidate name against the character rules and the length limit.
    pub fn validate(name: &str, length_limit: Option<usize>) -> (checked: Result<(), InvalidName>)
        ensures
            match name_defect(name@, length_limit) {
                Some(defect) => checked == Err::<(), InvalidName>(defect),
                None => checked is Ok,
            },
    {
        let chars = chars_of(name);
        check_chars(&chars, length_limit)
    }

    /// Makes a patch name of a string that obeys the character rules.
    pub fn from_str(name: &str) -> (made: Result<PatchName, InvalidName>)
        ensures
            match name_defect(name@, None) {
                Some(defect) => made == Err::<PatchName, InvalidName>(defect),
                None => made is Ok && made.unwrap()@ == name@ && made.unwrap().wf(),
            },
    {
        match PatchName::validate(name, None) {
            Ok(()) => Ok(PatchName { name: String::from_str(name) }),
            Err(defect) => Err(defect),
        }
    }

    /// Derives a name from free text such as a commit message.
    ///
    /// The name is taken from the subject line: word characters are kept,
    /// every run of other characters becomes one `-`, the result is cut to
    /// the length limit and ends in no `-`. Where nothing is left, the
    /// default name `patch` is given if `allow_empty` holds, and the text is
    /// rejected as empty otherwise.
    pub fn make(from_text: &str, allow_empty: bool, length_limit: Option<usize>) -> (made: Result<
        PatchName,
        InvalidName,
    >)
        ensures
            match made_name(from_text@, allow_empty, length_limit) {
                Some(name) => made is Ok && made.unwrap()@ == name && made.unwrap().wf()
                    && name_defect(name, length_limit) is None,
                None => made == Err::<PatchName, InvalidName>(InvalidName::Empty),
            },
    {
        proof {
            lemma_made_name_valid(from_text@, allow_empty, length_limit);
        }
        let text = chars_of(from_text);
        let mut chars = subject_slug(&text);
        clip_and_trim(&mut chars, length_limit);
        if chars.len() > 0 {
            Ok(PatchName { name: string_of(&chars) })
        } else if allow_empty {
            let mut fallback: Vec<char> = Vec::new();
            fallback.push('p');
            fallback.push('a');
            fallback.push('t');
            fallback.push('c');
            fallback.push('h');
            match length_limit {
                Some(limit) => {
                    if limit > 0 && limit < fallback.len() {
                        fallback.truncate(limit);
                    }
                },
                None => {},
            }
            Ok(PatchName { name: string_of(&fallback) })
        } else {
            Err(InvalidName::Empty)
        }
    }

    /// Finds a name for this patch that is not in use.
    ///
    /// The names tried are this name, then this name followed by `-1`, by `-2`
    /// and so on. The first that is neither among `taken` nor among
    /// `disallow` is returned; the same inputs always give the same name.
    /// `None` is returned only where all `SEARCH_LIMIT` names tried are in use.
    pub fn uniquify(&self, taken: &Vec<PatchName>, disallow: &Vec<PatchName>) -> (unique: Option<
        PatchName,
    >)
        requires
            self.wf(),
        ensures
            match uniquified(self@, taken@, disallow@) {
                Some(free) => unique is Some && unique.unwrap()@ == free && unique.unwrap().wf(),
                None => unique is None,
            },
            unique is Some ==> !in_use(unique.unwrap()@, taken@, disallow@),
    {
        proof {
            lemma_first_free(self@, taken@, disallow@, 0);
        }
        let mut k: u64 = 0;
        while k < SEARCH_LIMIT
            invariant
                self.wf(),
                uniquified(self@, taken@, disallow@) == first_free(
                    self@,
                    taken@,
                    disallow@,
                    k as nat,
                ),
            decreases SEARCH_LIMIT - k,
        {
            let mut candidate = self.name.clone();
            if k > 0 {
                let mut suffix: Vec<char> = Vec::new();
                suffix.push('-');
                push_decimal(k, &mut suffix);
                let tail = string_of(&suffix);
                candidate.append(tail.as_str());
                assert(candidate@ =~= numbered(self@, k as nat));
            }
            if !is_listed(&candidate, taken) && !is_listed(&candidate, disallow) {
                proof {
                    lemma_numbered_valid(self@, k as nat);
                }
                return Some(PatchName { name: candidate });
            }
            k += 1;
        }
        None
    }

    /// The length limit of made names that a configured value stands for:
    /// 30 characters where nothing is configured, and no limit where the
    /// value is zero or negative.
    pub fn length_limit(configured: Option<i64>) -> (limit: Option<usize>)
        ensures
            limit == match configured {
                None => Some(30usize),
                Some(value) => if 0 < value <= usize::MAX {
                    Some(value as usize)
                } else {
                    None
                },
            },
    {
        match configured {
            None => Some(30),
            Some(value) => {
                if value > 0 && value as u64 <= usize::MAX as u64 {
                    Some(value as usize)
                } else {
                    None
                }
            },
        }
    }

    /// The name as a string slice.
    pub fn as_str(&self) -> (s: &str)
        ensures
            s@ == self@,
    {
        self.name.as_str()
    }

    /// The number of characters in the name.
    pub fn len(&self) -> (n: usize)
        ensures
            n == self@.len(),
    {
        self.name.as_str().unicode_len()
    }

    /// Whether two names are the same.
    pub fn same(&self, other: &PatchName) -> (equal: bool)
        ensures
            equal == (self@ == other@),
    {
        self.name.eq(&other.name)
    }

    /// A copy of the name.
    pub fn duplicate(&self) -> (copy: PatchName)
        ensures
            copy@ == self@,
            copy == *self,
    {
        PatchName { name: self.name.clone() }
    }
}

} // verus!
