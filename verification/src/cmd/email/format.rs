//! Formatting patches as mail files.

use crate::error::Error;
use crate::oid::{hex_of, CommitId};
use crate::text::{lemma_rank_bounds, rank, stable_order};
use vstd::prelude::*;
use vstd::string::*;

verus! {

/// An option as it is handed through to the formatter: `--long`, or
/// `--long=value` where the option has a value. The option `thread` is
/// written without a value where its value is empty.
pub open spec fn passthrough_view(id: Seq<char>, long: Seq<char>, value: Option<Seq<char>>) -> Seq<
    char,
> {
    match value {
        None => "--"@ + long,
        Some(text) => if id == "thread"@ && text.len() == 0 {
            "--"@ + long
        } else {
            "--"@ + long + "="@ + text
        },
    }
}

/// Writes an option as it is handed through to the formatter.
pub fn passthrough_arg(id: &str, long: &str, value: Option<&str>) -> (arg: String)
    ensures
        arg@ == passthrough_view(
            id@,
            long@,
            match value {
                Some(text) => Some(text@),
                None => None,
            },
        ),
{
    let mut arg = String::from_str("--");
    arg.append(long);
    match value {
        None => {},
        Some(text) => {
            let bare = String::from_str(id).eq(&String::from_str("thread")) && text.unicode_len()
                == 0;
            if !bare {
                arg.append("=");
                arg.append(text);
            }
        },
    }
    arg
}

/// The range of commits from below the first patch to the last patch.
pub open spec fn commit_range(base: CommitId, last: CommitId) -> Seq<char> {
    hex_of(base@) + ".."@ + hex_of(last@)
}

/// The positions at which options were given on the command line.
pub open spec fn indices_of(options: Seq<(usize, String)>) -> Seq<usize> {
    Seq::new(options.len(), |i: int| options[i].0)
}

/// Puts together the arguments of the formatter.
///
/// First come the options that are handed through, in the order in which
/// they stood on the command line, then the options given for the formatter
/// as they are, then the range of commits to format.
pub fn format_arguments(
    passthrough: &Vec<(usize, String)>,
    formatter_options: &Vec<String>,
    base: &CommitId,
    last: &CommitId,
) -> (args: Vec<String>)
    ensures
        args@.len() == passthrough@.len() + formatter_options@.len() + 1,
        forall|p: int|
            0 <= p < passthrough@.len() ==> 0 <= #[trigger] rank(indices_of(passthrough@), p)
                < passthrough@.len() && args@[rank(indices_of(passthrough@), p)]@
                == passthrough@[p].1@,
        forall|j: int|
            0 <= j < formatter_options@.len() ==> (#[trigger] args@[passthrough@.len() + j])@
                == formatter_options@[j]@,
        args@[(passthrough@.len() + formatter_options@.len()) as int]@ == commit_range(*base, *last),
{
    let n = passthrough.len();
    let mut keys: Vec<usize> = Vec::new();
    let mut i: usize = 0;
    while i < n
        invariant
            i <= n,
            n == passthrough@.len(),
            keys@ == indices_of(passthrough@).take(i as int),
        decreases n - i,
    {
        keys.push(passthrough[i].0);
        assert(indices_of(passthrough@).take(i + 1) =~= indices_of(passthrough@).take(
            i as int,
        ).push(passthrough@[i as int].0));
        i += 1;
    }
    assert(keys@ =~= indices_of(passthrough@));
    let order = stable_order(&keys);
    let mut args: Vec<String> = Vec::new();
    let mut k: usize = 0;
    while k < n
        invariant
            k <= n,
            n == passthrough@.len(),
            order@.len() == n,
            args@.len() == k,
            forall|i: int| 0 <= i < n ==> (#[trigger] order@[i]) < n,
            forall|i: int| 0 <= i < k ==> (#[trigger] args@[i])@ == passthrough@[order@[i] as int].1@,
        decreases n - k,
    {
        args.push(passthrough[order[k]].1.clone());
        k += 1;
    }
    proof {
        assert forall|p: int| 0 <= p < n implies 0 <= #[trigger] rank(keys@, p) < n && args@[rank(
            keys@,
            p,
        )]@ == passthrough@[p].1@ by {
            lemma_rank_bounds(keys@, p);
        }
    }
    let m = formatter_options.len();
    let mut j: usize = 0;
    while j < m
        invariant
            j <= m,
            m == formatter_options@.len(),
            n == passthrough@.len(),
            args@.len() == n + j,
            forall|p: int|
                0 <= p < n ==> 0 <= #[trigger] rank(keys@, p) < n && args@[rank(keys@, p)]@
                    == passthrough@[p].1@,
            forall|i: int| 0 <= i < j ==> (#[trigger] args@[n + i])@ == formatter_options@[i]@,
        decreases m - j,
    {
        args.push(formatter_options[j].clone());
        j += 1;
    }
    let mut range = base.to_hex();
    range.append("..");
    range.append(last.to_hex().as_str());
    args.push(range);
    args
}

/// The text that says that an empty patch cannot be formatted.
pub open spec fn empty_patch_text(name: Seq<char>) -> Seq<char> {
    "cannot format empty patch `"@ + name + "`"@
}

/// Checks the patches that are to be formatted: there must be one at
/// least, and none of them may be empty. `empty` names the first patch
/// without changes, if there is one.
pub fn check_patches_to_format(count: usize, empty: Option<&str>) -> (checked: Result<(), Error>)
    ensures
        if count == 0 {
            checked matches Err(Error::Usage(text)) && text@ == "no patches to format"@
        } else {
            match empty {
                Some(name) => checked matches Err(Error::Usage(text)) && text@ == empty_patch_text(
                    name@,
                ),
                None => checked is Ok,
            }
        },
{
    if count == 0 {
        return Err(Error::Usage(String::from_str("no patches to format")));
    }
    match empty {
        Some(name) => {
            let mut text = String::from_str("cannot format empty patch `");
            text.append(name);
            text.append("`");
            Err(Error::Usage(text))
        },
        None => Ok(()),
    }
}

} // verus!
