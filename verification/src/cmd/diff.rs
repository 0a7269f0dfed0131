//! Revision ranges of a diff.

use crate::error::Error;
use crate::text::{chars_of, string_of};
use vstd::prelude::*;
use vstd::string::*;

verus! {

/// A revision range as the user wrote it.
#[derive(Clone, Debug, PartialEq, Eq)]
pub enum RevRange {
    /// One revision: `rev`.
    Single(String),
    /// All from a revision on: `rev..`.
    From(String),
    /// From one revision to another: `rev1..rev2`.
    Between(String, String),
}

/// The mathematical value of a [`RevRange`].
pub enum RangeView {
    Single(Seq<char>),
    From(Seq<char>),
    Between(Seq<char>, Seq<char>),
}

impl View for RevRange {
    type V = RangeView;

    open spec fn view(&self) -> RangeView {
        match self {
            RevRange::Single(rev) => RangeView::Single(rev@),
            RevRange::From(rev) => RangeView::From(rev@),
            RevRange::Between(rev1, rev2) => RangeView::Between(rev1@, rev2@),
        }
    }
}

/// The first position at or after `i` at which `..` begins, or the length
/// of `s` where there is none.
pub open spec fn find_dots(s: Seq<char>, i: int) -> int
    decreases s.len() - i,
{
    if i < 0 || i >= s.len() {
        s.len() as int
    } else if i + 1 < s.len() && s[i] == '.' && s[i + 1] == '.' {
        i
    } else {
        find_dots(s, i + 1)
    }
}

/// The text that says why a range without a first revision is refused.
pub open spec fn no_opening_text() -> Seq<char> {
    "no opening revision supplied"@
}

/// The range that a text stands for; `None` where the text begins with `..`.
pub open spec fn range_of(text: Seq<char>) -> Option<RangeView> {
    let at = find_dots(text, 0);
    if at >= text.len() {
        Some(RangeView::Single(text))
    } else if at == 0 {
        None
    } else if at + 2 == text.len() {
        Some(RangeView::From(text.take(at)))
    } else {
        Some(RangeView::Between(text.take(at), text.skip(at + 2)))
    }
}

/// Reads a revision range: `rev`, `rev..` or `rev1..rev2`, split at the
/// first `..`. A range without a revision in front of the dots is refused.
pub fn parse_range(range: &str) -> (parsed: Result<RevRange, Error>)
    ensures
        match range_of(range@) {
            Some(found) => parsed is Ok && parsed.unwrap()@ == found,
            None => parsed matches Err(Error::InvalidRevision(text, reason)) && text@ == range@
                && reason@ == no_opening_text(),
        },
{
    let chars = chars_of(range);
    let n = chars.len();
    let mut at: usize = 0;
    while at < n && !(at + 1 < n && chars[at] == '.' && chars[at + 1] == '.')
        invariant
            at <= n,
            n == chars@.len(),
            find_dots(chars@, 0) == find_dots(chars@, at as int),
        decreases n - at,
    {
        at += 1;
    }
    if at >= n {
        return Ok(RevRange::Single(String::from_str(range)));
    }
    if at == 0 {
        return Err(
            Error::InvalidRevision(
                String::from_str(range),
                String::from_str("no opening revision supplied"),
            ),
        );
    }
    let mut first: Vec<char> = Vec::new();
    let mut i: usize = 0;
    while i < at
        invariant
            i <= at < n,
            n == chars@.len(),
            first@ == chars@.take(i as int),
        decreases at - i,
    {
        first.push(chars[i]);
        i += 1;
    }
    if at + 2 == n {
        return Ok(RevRange::From(string_of(&first)));
    }
    let mut second: Vec<char> = Vec::new();
    let mut j: usize = at + 2;
    while j < n
        invariant
            at + 2 <= j <= n,
            n == chars@.len(),
            second@ == chars@.subrange(at + 2, j as int),
        decreases n - j,
    {
        second.push(chars[j]);
        assert(chars@.subrange(at + 2, j + 1) =~= chars@.subrange(at + 2, j as int).push(
            chars@[j as int],
        ));
        j += 1;
    }
    Ok(RevRange::Between(string_of(&first), string_of(&second)))
}

/// The revision specification of a range whose revisions were resolved to
/// ids; `HEAD` where no range was given.
pub open spec fn revspec_of(resolved: Option<RangeView>) -> Seq<char> {
    match resolved {
        None => "HEAD"@,
        Some(RangeView::Single(id)) => id,
        Some(RangeView::From(id)) => id + ".."@,
        Some(RangeView::Between(id1, id2)) => id1 + ".."@ + id2,
    }
}

/// Writes the revision specification of a resolved range.
pub fn format_revspec(resolved: Option<&RevRange>) -> (revspec: String)
    ensures
        revspec@ == revspec_of(
            match resolved {
                Some(range) => Some(range@),
                None => None,
            },
        ),
{
    match resolved {
        None => String::from_str("HEAD"),
        Some(RevRange::Single(id)) => id.clone(),
        Some(RevRange::From(id)) => {
            let mut revspec = id.clone();
            revspec.append("..");
            revspec
        },
        Some(RevRange::Between(id1, id2)) => {
            let mut revspec = id1.clone();
            revspec.append("..");
            revspec.append(id2.as_str());
            revspec
        },
    }
}

} // verus!
