//! Revisions as the user writes them.

use crate::text::{chars_of, string_of};
use vstd::prelude::*;
use vstd::string::*;

verus! {

/// The first position at or after `i` that holds `:`, or the length of `s`.
pub open spec fn colon_at(s: Seq<char>, i: int) -> int
    decreases s.len() - i,
{
    if 0 <= i < s.len() && s[i] != ':' {
        colon_at(s, i + 1)
    } else {
        i
    }
}

/// The branch that a revision names in front of its first `:`, if it has one.
pub open spec fn branch_of(spec: Seq<char>) -> Option<Seq<char>> {
    let at = colon_at(spec, 0);
    if at < spec.len() {
        Some(spec.take(at))
    } else {
        None
    }
}

/// What a revision names within its branch: what stands behind the first
/// `:`, or the whole where there is no `:`; nothing where nothing stands
/// behind the `:`.
pub open spec fn spec_of(spec: Seq<char>) -> Option<Seq<char>> {
    let at = colon_at(spec, 0);
    if at >= spec.len() {
        Some(spec)
    } else if at + 1 == spec.len() {
        None
    } else {
        Some(spec.skip(at + 1))
    }
}

/// Splits a revision of the form `branch:spec` at its first `:`.
pub fn parse_branch_and_spec(spec: &str) -> (parts: (Option<String>, Option<String>))
    ensures
        match branch_of(spec@) {
            Some(branch) => parts.0 is Some && parts.0.unwrap()@ == branch,
            None => parts.0 is None,
        },
        match spec_of(spec@) {
            Some(rest) => parts.1 is Some && parts.1.unwrap()@ == rest,
            None => parts.1 is None,
        },
{
    let chars = chars_of(spec);
    let n = chars.len();
    let mut at: usize = 0;
    let mut branch: Vec<char> = Vec::new();
    while at < n && chars[at] != ':'
        invariant
            at <= n,
            n == chars@.len(),
            colon_at(chars@, 0) == colon_at(chars@, at as int),
            branch@ == chars@.take(at as int),
        decreases n - at,
    {
        branch.push(chars[at]);
        assert(chars@.take(at + 1) =~= chars@.take(at as int).push(chars@[at as int]));
        at += 1;
    }
    if at >= n {
        return (None, Some(String::from_str(spec)));
    }
    let mut rest: Vec<char> = Vec::new();
    let mut i: usize = at + 1;
    while i < n
        invariant
            at + 1 <= i <= n,
            n == chars@.len(),
            rest@ == chars@.subrange(at + 1, i as int),
        decreases n - i,
    {
        rest.push(chars[i]);
        assert(chars@.subrange(at + 1, i + 1) =~= chars@.subrange(at + 1, i as int).push(
            chars@[i as int],
        ));
        i += 1;
    }
    assert(chars@.subrange(at + 1, n as int) =~= chars@.skip(at + 1));
    if rest.len() == 0 {
        (Some(string_of(&branch)), None)
    } else {
        (Some(string_of(&branch)), Some(string_of(&rest)))
    }
}

} // verus!
