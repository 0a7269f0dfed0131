//! Importing commits as patches.

use crate::error::Error;
use crate::oid::CommitId;
use crate::patchname::{line_end, made_name, name_defect, uniquified, InvalidName, PatchName};
use crate::state::PatchState;
use crate::text::{chars_of, lossy_text, push_str_chars, string_of, to_str_lossy, utf8_to_string};
use crate::transaction::{Phase, Transaction, TransactionView};
use vstd::prelude::*;
use vstd::string::*;
use vstd::utf8::*;

verus! {

/// The top and the bottom of the change that a commit stands for: the
/// commit over its parent, or the other way round to revert it.
pub fn pick_ends(revert: bool, commit: CommitId, parent: CommitId) -> (ends: (CommitId, CommitId))
    ensures
        ends == if revert {
            (parent, commit)
        } else {
            (commit, parent)
        },
{
    if revert {
        (parent, commit)
    } else {
        (commit, parent)
    }
}

/// The name under which a patch is imported, before it is made unique.
///
/// A name that the user gave is taken as it is. Else the name of the patch
/// that is imported is taken, with `revert-` in front where the patch is
/// reverted. Else the name is made of the message of the commit.
pub open spec fn wanted_name(
    given: Option<Seq<char>>,
    source: Option<Seq<char>>,
    revert: bool,
    message: Seq<char>,
    limit: Option<usize>,
) -> Result<Seq<char>, InvalidName> {
    match given {
        Some(name) => Ok(name),
        None => match source {
            Some(name) => if revert {
                match name_defect("revert-"@ + name, None) {
                    Some(defect) => Err(defect),
                    None => Ok("revert-"@ + name),
                }
            } else {
                Ok(name)
            },
            None => match made_name(message, false, limit) {
                Some(name) => Ok(name),
                None => Err(InvalidName::Empty),
            },
        },
    }
}

/// Chooses the name under which a patch is imported, and makes it unique
/// among the names in `disallow`.
pub fn pick_patch_name(
    given: Option<&PatchName>,
    source: Option<&PatchName>,
    revert: bool,
    message: &str,
    length_limit: Option<usize>,
    disallow: &Vec<PatchName>,
) -> (picked: Result<PatchName, Error>)
    requires
        given is Some ==> given.unwrap().wf(),
        source is Some ==> source.unwrap().wf(),
    ensures
        match wanted_name(
            match given {
                Some(name) => Some(name@),
                None => None,
            },
            match source {
                Some(name) => Some(name@),
                None => None,
            },
            revert,
            message@,
            length_limit,
        ) {
            Err(defect) => picked matches Err(Error::InvalidName(d)) && d == defect,
            Ok(wanted) => match uniquified(wanted, Seq::empty(), disallow@) {
                Some(free) => picked is Ok && picked.unwrap()@ == free && picked.unwrap().wf(),
                None => picked matches Err(Error::NoFreeName),
            },
        },
{
    let wanted = match given {
        Some(name) => name.duplicate(),
        None => match source {
            Some(name) => {
                if revert {
                    let mut text = String::from_str("revert-");
                    text.append(name.as_str());
                    match PatchName::from_str(text.as_str()) {
                        Ok(made) => made,
                        Err(defect) => {
                            return Err(Error::InvalidName(defect));
                        },
                    }
                } else {
                    name.duplicate()
                }
            },
            None => match PatchName::make(message, false, length_limit) {
                Ok(made) => made,
                Err(defect) => {
                    return Err(Error::InvalidName(defect));
                },
            },
        },
    };
    let taken: Vec<PatchName> = Vec::new();
    match wanted.uniquify(&taken, disallow) {
        Some(free) => Ok(free),
        None => Err(Error::NoFreeName),
    }
}

/// Chooses the name under which a commit is imported from the bytes of its
/// message, of which the text is taken without regard to faulty encoding.
pub fn pick_patch_name_of_commit(
    given: Option<&PatchName>,
    source: Option<&PatchName>,
    revert: bool,
    message: &[u8],
    length_limit: Option<usize>,
    disallow: &Vec<PatchName>,
) -> (picked: Result<PatchName, Error>)
    requires
        given is Some ==> given.unwrap().wf(),
        source is Some ==> source.unwrap().wf(),
    ensures
        match wanted_name(
            match given {
                Some(name) => Some(name@),
                None => None,
            },
            match source {
                Some(name) => Some(name@),
                None => None,
            },
            revert,
            lossy_text(message@),
            length_limit,
        ) {
            Err(defect) => picked matches Err(Error::InvalidName(d)) && d == defect,
            Ok(wanted) => match uniquified(wanted, Seq::empty(), disallow@) {
                Some(free) => picked is Ok && picked.unwrap()@ == free && picked.unwrap().wf(),
                None => picked matches Err(Error::NoFreeName),
            },
        },
{
    let text = to_str_lossy(message);
    pick_patch_name(given, source, revert, text.as_str(), length_limit, disallow)
}

/// The message of the commit that reverts a commit.
///
/// The subject is the first line of the message of the commit, and the body
/// what follows it; a message that is no text gives the id as the subject.
pub open spec fn revert_text(message: Option<Seq<char>>, id: Seq<char>) -> Seq<char> {
    let (subject, body) = match message {
        Some(text) => {
            let end = line_end(text, 0);
            if end < text.len() {
                (text.take(end), text.skip(end + 1))
            } else {
                (text, Seq::<char>::empty())
            }
        },
        None => (id, Seq::<char>::empty()),
    };
    "Revert \""@ + subject + "\"\n\nThis reverts commit "@ + id + ".\n\n"@ + body
}

/// Writes the message of the commit that reverts a commit, given the text
/// of its message, if it is text, and its id.
pub fn revert_message_of_text(message: Option<&str>, commit_id: &str) -> (text: String)
    ensures
        text@ == revert_text(
            match message {
                Some(m) => Some(m@),
                None => None,
            },
            commit_id@,
        ),
{
    let mut out: Vec<char> = Vec::new();
    push_str_chars(&mut out, "Revert \"");
    let mut body: Vec<char> = Vec::new();
    match message {
        Some(m) => {
            let chars = chars_of(m);
            let n = chars.len();
            let mut end: usize = 0;
            let ghost head = out@;
            while end < n && chars[end] != '\n'
                invariant
                    end <= n,
                    n == chars@.len(),
                    line_end(chars@, 0) == line_end(chars@, end as int),
                    out@ == head + chars@.take(end as int),
                decreases n - end,
            {
                out.push(chars[end]);
                end += 1;
            }
            if end < n {
                let mut i: usize = end + 1;
                while i < n
                    invariant
                        end + 1 <= i <= n,
                        n == chars@.len(),
                        body@ == chars@.subrange(end + 1, i as int),
                    decreases n - i,
                {
                    body.push(chars[i]);
                    assert(chars@.subrange(end + 1, i + 1) =~= chars@.subrange(
                        end + 1,
                        i as int,
                    ).push(chars@[i as int]));
                    i += 1;
                }
            }
        },
        None => {
            push_str_chars(&mut out, commit_id);
        },
    }
    push_str_chars(&mut out, "\"\n\nThis reverts commit ");
    push_str_chars(&mut out, commit_id);
    push_str_chars(&mut out, ".\n\n");
    let mut i: usize = 0;
    let ghost head = out@;
    while i < body.len()
        invariant
            i <= body.len(),
            out@ == head + body@.take(i as int),
        decreases body.len() - i,
    {
        out.push(body[i]);
        i += 1;
    }
    string_of(&out)
}

/// Writes the message of the commit that reverts a commit, given the bytes
/// of its message and its id.
pub fn revert_message(message: &[u8], commit_id: &str) -> (text: String)
    ensures
        text@ == revert_text(
            if valid_utf8(message@) {
                Some(decode_utf8(message@))
            } else {
                None
            },
            commit_id@,
        ),
{
    match utf8_to_string(message) {
        Some(decoded) => revert_message_of_text(Some(decoded.as_str()), commit_id),
        None => revert_message_of_text(None, commit_id),
    }
}

/// The format in which an imported commit is shown where none is configured.
pub open spec fn default_expose_format() -> Seq<char> {
    "format:%B%n(imported from commit %H)%n"@
}

/// The format in which the message of an imported commit is written when
/// the commit is exposed: the configured one, if one is configured and is
/// text, and the default otherwise.
pub fn expose_format(configured: Option<&[u8]>) -> (format: String)
    ensures
        format@ == match configured {
            Some(bytes) if valid_utf8(bytes@) => decode_utf8(bytes@),
            _ => default_expose_format(),
        },
{
    let found = match configured {
        Some(bytes) => utf8_to_string(bytes),
        None => None,
    };
    match found {
        Some(text) => text,
        None => String::from_str("format:%B%n(imported from commit %H)%n"),
    }
}

/// Checks options that go with one imported patch only.
pub fn check_single_pick(picks: usize, has_name: bool, has_parent: bool) -> (checked: Result<
    (),
    Error,
>)
    ensures
        if picks > 1 && has_name {
            checked matches Err(Error::Usage(text)) && text@
                == "--name can only be specified with one patch"@
        } else if picks > 1 && has_parent {
            checked matches Err(Error::Usage(text)) && text@
                == "--parent can only be specified with one patch"@
        } else {
            checked is Ok
        },
{
    if picks > 1 {
        if has_name {
            return Err(
                Error::Usage(String::from_str("--name can only be specified with one patch")),
            );
        }
        if has_parent {
            return Err(
                Error::Usage(String::from_str("--parent can only be specified with one patch")),
            );
        }
    }
    Ok(())
}

/// The transaction after the first `n` of the new patches were staged as
/// unapplied patches, the `i`-th at position `i`; `None` where one of them
/// could not be staged.
pub open spec fn staged_picks(
    tx: TransactionView,
    picks: Seq<(PatchName, CommitId)>,
    n: int,
) -> Option<TransactionView>
    decreases n,
{
    if n <= 0 {
        Some(tx)
    } else {
        match staged_picks(tx, picks, n - 1) {
            None => None,
            Some(before) => {
                let (name, commit) = picks[n - 1];
                if before.phase == Phase::Building && !before.keys().contains(name@) && n - 1
                    <= before.unapplied.len() {
                    Some(
                        TransactionView {
                            unapplied: before.unapplied.insert(n - 1, name@),
                            patches: before.patches.push((name@, PatchState { commit })),
                            ..before
                        },
                    )
                } else {
                    None
                }
            },
        }
    }
}

/// Whether the staging of new patches stopped at the patch at `k`: the
/// patches before it are staged in `stopped`, and `error` says why the
/// patch at `k` is not.
pub open spec fn stopped_at(
    tx: TransactionView,
    picks: Seq<(PatchName, CommitId)>,
    k: int,
    stopped: TransactionView,
    error: Error,
) -> bool {
    &&& 0 <= k < picks.len()
    &&& staged_picks(tx, picks, k) == Some(stopped)
    &&& staged_picks(tx, picks, k + 1) is None
    &&& if stopped.phase != Phase::Building {
        error is Halted
    } else if stopped.keys().contains(picks[k].0@) {
        error matches Error::PatchExists(name) && name@ == picks[k].0@
    } else {
        error is BadPosition
    }
}

/// Stages new patches in front of the unapplied patches, in their order.
///
/// The staging stops at the first patch that cannot be staged; the patches
/// before it stay staged.
pub fn stage_picks(trans: &mut Transaction, picks: &Vec<(PatchName, CommitId)>) -> (staged: Result<
    (),
    Error,
>)
    requires
        old(trans).wf(),
        forall|i: int| 0 <= i < picks@.len() ==> (#[trigger] picks@[i]).0.wf(),
    ensures
        final(trans).wf(),
        match staged_picks(old(trans)@, picks@, picks@.len() as int) {
            Some(after) => staged is Ok && final(trans)@ == after,
            None => staged is Err && exists|k: int|
                stopped_at(old(trans)@, picks@, k, final(trans)@, staged.unwrap_err()),
        },
{
    let mut i: usize = 0;
    while i < picks.len()
        invariant
            i <= picks.len(),
            trans.wf(),
            forall|j: int| 0 <= j < picks@.len() ==> (#[trigger] picks@[j]).0.wf(),
            staged_picks(old(trans)@, picks@, i as int) == Some(trans@),
        decreases picks.len() - i,
    {
        match trans.new_unapplied(&picks[i].0, picks[i].1, i) {
            Ok(()) => {},
            Err(error) => {
                proof {
                    lemma_staged_picks_stay_none(old(trans)@, picks@, i + 1, picks@.len() as int);
                    assert(stopped_at(old(trans)@, picks@, i as int, trans@, error));
                }
                return Err(error);
            },
        }
        i += 1;
    }
    Ok(())
}

/// Once a patch could not be staged, none of the later ones is.
pub proof fn lemma_staged_picks_stay_none(
    tx: TransactionView,
    picks: Seq<(PatchName, CommitId)>,
    k: int,
    n: int,
)
    requires
        0 <= k <= n,
        staged_picks(tx, picks, k) is None,
    ensures
        staged_picks(tx, picks, n) is None,
    decreases n - k,
{
    if k < n {
        lemma_staged_picks_stay_none(tx, picks, k, n - 1);
    }
}

} // verus!
