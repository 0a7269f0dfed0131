//! Transactions: staged changes of a stack that are published as a whole or
//! not at all.
//!
//! A transaction starts from the state of a stack and works on copies of its
//! lists. Nothing it does reaches the store: what has to happen there comes
//! out of [`Transaction::execute`] as plain requests, and there is a request
//! to publish only where the staged lists make a stack state and no
//! conflict forbids it.

use crate::error::Error;
use crate::oid::CommitId;
use crate::patchname::PatchName;
use crate::reconcile::{ensure_patch_refs, patch_ref_plan};
use crate::refs::{
    admits, edit_views, ref_views, EditView, ExistingRef, Expect, ExpectView, RefEdit, RefTarget,
    TargetView,
};
use crate::stack::{guard_after, Publish, PublishView, Stack, StackView};
use crate::state::{
    all_wf, copy_names, copy_rows, keys_of, names_of, parts_defect, position, row_position,
    rows_of, rows_wf, PatchEntry, PatchState, StackState, StateView,
};
use vstd::prelude::*;
use vstd::string::*;

verus! {

/// What becomes of a transaction in which a patch does not apply cleanly.
#[derive(Clone, Copy, Debug, PartialEq, Eq, Structural)]
pub enum ConflictPolicy {
    /// The transaction is given up: nothing is published and the working
    /// copy is put back as it was.
    Rollback,
    /// The transaction stops at the patch: what was staged before it is
    /// published, and the working copy keeps the conflict for the user.
    Halt,
}

/// How a transaction is to be carried out.
#[derive(Clone, Copy, Debug, PartialEq, Eq, Structural)]
pub struct Options {
    /// Whether the index and the working copy follow the stack.
    pub use_index_and_worktree: bool,
    /// Whether the transaction may start although the tip of the branch is
    /// not the top of the stack.
    pub allow_bad_head: bool,
    /// Whether changes of the working copy that are not committed may be
    /// thrown away.
    pub discard_changes: bool,
    /// What a conflict leads to.
    pub conflict_policy: ConflictPolicy,
}

/// Where a transaction stands.
#[derive(Clone, Copy, Debug, PartialEq, Eq, Structural)]
pub enum Phase {
    /// Operations are accepted.
    Building,
    /// A conflict stopped the transaction; what was staged will be published.
    Halted,
    /// A conflict stopped the transaction; nothing will be published.
    Conflicted,
}

/// What the store made of pushing one patch onto the top of the stack.
#[derive(Clone, Copy, Debug, PartialEq, Eq)]
pub enum Merge {
    /// The patch applies; this commit holds it on the new top.
    Clean(CommitId),
    /// The patch leaves conflicts.
    Conflict,
}

/// What the store has to do to push a patch onto the top of the stack.
#[derive(Clone, Copy, Debug, PartialEq, Eq)]
pub enum PushRequest {
    /// Nothing: the commit of the patch stands on the top already, and is
    /// pushed as it is.
    FastForward(CommitId),
    /// Merge the changes that `theirs` makes to `base` onto `ours`.
    Merge { base: CommitId, ours: CommitId, theirs: CommitId },
}

/// Sets the options of a transaction before it starts.
#[derive(Debug)]
pub struct TransactionBuilder {
    stack: Stack,
    options: Options,
}

/// A transaction in which operations are staged.
#[derive(Debug)]
pub struct Transaction {
    stack: Stack,
    options: Options,
    applied: Vec<PatchName>,
    unapplied: Vec<PatchName>,
    hidden: Vec<PatchName>,
    patches: Vec<PatchEntry>,
    conflict: Option<PatchName>,
    phase: Phase,
}

/// The mathematical value of a [`Transaction`].
pub struct TransactionView {
    /// The stack as it was when the transaction began.
    pub stack: StackView,
    pub options: Options,
    pub applied: Seq<Seq<char>>,
    pub unapplied: Seq<Seq<char>>,
    pub hidden: Seq<Seq<char>>,
    pub patches: Seq<(Seq<char>, PatchState)>,
    /// The patch that did not apply cleanly, if there was one.
    pub conflict: Option<Seq<char>>,
    pub phase: Phase,
}

impl View for Transaction {
    type V = TransactionView;

    closed spec fn view(&self) -> TransactionView {
        TransactionView {
            stack: self.stack@,
            options: self.options,
            applied: names_of(self.applied@),
            unapplied: names_of(self.unapplied@),
            hidden: names_of(self.hidden@),
            patches: rows_of(self.patches@),
            conflict: match self.conflict {
                Some(name) => Some(name@),
                None => None,
            },
            phase: self.phase,
        }
    }
}

/// The options of a transaction for which nothing was set.
pub open spec fn default_options() -> Options {
    Options {
        use_index_and_worktree: false,
        allow_bad_head: false,
        discard_changes: false,
        conflict_policy: ConflictPolicy::Rollback,
    }
}

impl TransactionView {
    /// The names of the table.
    pub open spec fn keys(self) -> Seq<Seq<char>> {
        crate::state::row_names(self.patches)
    }

    /// The commit on top of the staged applied patches, or the base of the
    /// stack where none is applied.
    pub open spec fn top(self) -> CommitId {
        if self.applied.len() > 0 && self.keys().contains(self.applied.last()) {
            self.patches[index_of_first_key(self.keys(), self.applied.last())].1.commit
        } else {
            self.stack.base
        }
    }
}

/// The first position at which `name` stands among `keys`.
pub open spec fn index_of_first_key(keys: Seq<Seq<char>>, name: Seq<char>) -> int {
    choose|i: int| 0 <= i < keys.len() && keys[i] == name && forall|j: int| 0 <= j < i ==> keys[j] != name
}

/// The text that says which patch did not apply cleanly.
pub open spec fn conflict_text(name: Seq<char>) -> Seq<char> {
    "`"@ + name + "` does not apply cleanly"@
}

/// The text that says that `name` did not apply cleanly.
pub fn conflict_message(name: &str) -> (text: String)
    ensures
        text@ == conflict_text(name@),
{
    let mut text = String::from_str("`");
    text.append(name);
    text.append("` does not apply cleanly");
    text
}

impl TransactionBuilder {
    /// The stack that the transaction will change, and the options set so far.
    pub closed spec fn view(&self) -> (StackView, Options) {
        (self.stack@, self.options)
    }

    /// What holds of every builder: its stack is well formed and initialized.
    pub closed spec fn wf(&self) -> bool {
        self.stack.wf() && self.stack@.is_initialized
    }

    /// Starts the setup of a transaction on `stack`, with the default options.
    pub fn new(stack: Stack) -> (builder: TransactionBuilder)
        requires
            stack.wf(),
            stack@.is_initialized,
        ensures
            builder.wf(),
            builder.view() == (stack@, default_options()),
    {
        TransactionBuilder {
            stack,
            options: Options {
                use_index_and_worktree: false,
                allow_bad_head: false,
                discard_changes: false,
                conflict_policy: ConflictPolicy::Rollback,
            },
        }
    }

    /// Sets whether the index and the working copy follow the stack.
    pub fn use_index_and_worktree(self, allow: bool) -> (builder: TransactionBuilder)
        requires
            self.wf(),
        ensures
            builder.wf(),
            builder.view() == (
                self.view().0,
                Options { use_index_and_worktree: allow, ..self.view().1 },
            ),
    {
        let mut builder = self;
        builder.options.use_index_and_worktree = allow;
        builder
    }

    /// Sets whether the transaction may start with a tip of the branch that
    /// is not the top of the stack.
    pub fn allow_bad_head(self, allow: bool) -> (builder: TransactionBuilder)
        requires
            self.wf(),
        ensures
            builder.wf(),
            builder.view() == (self.view().0, Options { allow_bad_head: allow, ..self.view().1 }),
    {
        let mut builder = self;
        builder.options.allow_bad_head = allow;
        builder
    }

    /// Sets whether changes that are not committed may be thrown away.
    pub fn discard_changes(self, discard: bool) -> (builder: TransactionBuilder)
        requires
            self.wf(),
        ensures
            builder.wf(),
            builder.view() == (self.view().0, Options { discard_changes: discard, ..self.view().1 }),
    {
        let mut builder = self;
        builder.options.discard_changes = discard;
        builder
    }

    /// Sets what a conflict leads to.
    pub fn conflict_policy(self, policy: ConflictPolicy) -> (builder: TransactionBuilder)
        requires
            self.wf(),
        ensures
            builder.wf(),
            builder.view() == (self.view().0, Options { conflict_policy: policy, ..self.view().1 }),
    {
        let mut builder = self;
        builder.options.conflict_policy = policy;
        builder
    }

    /// Starts the transaction: its lists are copies of those of the stack.
    ///
    /// The start is refused where patches are applied, the tip of the branch
    /// is not the top of the stack, and the options do not allow that.
    pub fn transact(self) -> (started: Result<Transaction, Error>)
        requires
            self.wf(),
        ensures
            match started {
                Ok(tx) => {
                    &&& tx.wf()
                    &&& tx@ == (TransactionView {
                        stack: self.view().0,
                        options: self.view().1,
                        applied: self.view().0.state.applied,
                        unapplied: self.view().0.state.unapplied,
                        hidden: self.view().0.state.hidden,
                        patches: self.view().0.state.patches,
                        conflict: None,
                        phase: Phase::Building,
                    })
                    &&& (self.view().1.allow_bad_head || self.view().0.state.applied.len() == 0
                        || self.view().0.state.head == self.view().0.branch_head)
                },
                Err(error) => {
                    &&& error is HeadTopMismatch
                    &&& !self.view().1.allow_bad_head
                    &&& self.view().0.state.applied.len() > 0
                    &&& self.view().0.state.head != self.view().0.branch_head
                },
            },
    {
        if !self.options.allow_bad_head {
            match self.stack.check_head_top_mismatch() {
                Ok(()) => {},
                Err(error) => {
                    return Err(Error::HeadTopMismatch);
                },
            }
        }
        let applied = copy_names(self.stack.state().applied());
        let unapplied = copy_names(self.stack.state().unapplied());
        let hidden = copy_names(self.stack.state().hidden());
        let patches = copy_rows(self.stack.state().patches());
        Ok(
            Transaction {
                stack: self.stack,
                options: self.options,
                applied,
                unapplied,
                hidden,
                patches,
                conflict: None,
                phase: Phase::Building,
            },
        )
    }
}

impl Transaction {
    /// What holds of every transaction: it works on a well-formed,
    /// initialized stack, and it has halted exactly if a conflict is recorded.
    pub closed spec fn wf(&self) -> bool {
        &&& self.stack.wf()
        &&& self.stack@.is_initialized
        &&& all_wf(self.applied@)
        &&& all_wf(self.unapplied@)
        &&& all_wf(self.hidden@)
        &&& rows_wf(self.patches@)
        &&& (self.conflict is Some ==> self.conflict.unwrap().wf())
        &&& (self.phase == Phase::Building <==> self.conflict is None)
    }

    /// The staged applied patches, bottom first.
    pub fn applied(&self) -> (names: &Vec<PatchName>)
        ensures
            names_of(names@) == self@.applied,
    {
        &self.applied
    }

    /// The staged unapplied patches.
    pub fn unapplied(&self) -> (names: &Vec<PatchName>)
        ensures
            names_of(names@) == self@.unapplied,
    {
        &self.unapplied
    }

    /// The staged hidden patches.
    pub fn hidden(&self) -> (names: &Vec<PatchName>)
        ensures
            names_of(names@) == self@.hidden,
    {
        &self.hidden
    }

    /// Where the transaction stands.
    pub fn phase(&self) -> (phase: Phase)
        ensures
            phase == self@.phase,
    {
        self.phase
    }

    /// The patch that did not apply cleanly, if there was one.
    pub fn conflict(&self) -> (name: Option<&PatchName>)
        ensures
            match name {
                Some(n) => self@.conflict == Some(n@),
                None => self@.conflict is None,
            },
    {
        self.conflict.as_ref()
    }

    /// The staged patch of this name, if there is one.
    pub fn get_patch(&self, name: &PatchName) -> (patch: Option<PatchState>)
        ensures
            match patch {
                Some(state) => self@.keys().contains(name@) && self@.patches[index_of_first_key(
                    self@.keys(),
                    name@,
                )].1 == state,
                None => !self@.keys().contains(name@),
            },
    {
        assert(self@.keys() =~= keys_of(self.patches@));
        match row_position(&self.patches, name) {
            Some(i) => {
                proof {
                    lemma_first_key(self@.keys(), name@, i as int);
                }
                Some(self.patches[i].state)
            },
            None => None,
        }
    }

    /// The commit on which the next patch is pushed: that of the last
    /// staged applied patch, or the base of the stack.
    pub fn top(&self) -> (top: CommitId)
        ensures
            top == self@.top(),
    {
        let n = self.applied.len();
        if n == 0 {
            self.stack.base()
        } else {
            match self.get_patch(&self.applied[n - 1]) {
                Some(state) => state.commit,
                None => self.stack.base(),
            }
        }
    }
}

/// The table with the commit of every row named `name` replaced.
pub open spec fn with_commit(
    patches: Seq<(Seq<char>, PatchState)>,
    name: Seq<char>,
    commit: CommitId,
) -> Seq<(Seq<char>, PatchState)> {
    Seq::new(
        patches.len(),
        |i: int|
            if patches[i].0 == name {
                (name, PatchState { commit })
            } else {
                patches[i]
            },
    )
}

/// The list without the first occurrence of `name`.
pub open spec fn without_first(names: Seq<Seq<char>>, name: Seq<char>) -> Seq<Seq<char>> {
    names.remove(index_of_first_key(names, name))
}

/// The commit that a table gives for a name.
pub open spec fn commit_of(patches: Seq<(Seq<char>, PatchState)>, name: Seq<char>) -> Option<
    CommitId,
> {
    let keys = crate::state::row_names(patches);
    if keys.contains(name) {
        Some(patches[index_of_first_key(keys, name)].1.commit)
    } else {
        None
    }
}

/// Whether the staged stack and a state have the same patch with the same
/// commit at position `i` of their applied lists.
pub open spec fn agree_at(tx: TransactionView, target: StateView, i: int) -> bool {
    &&& 0 <= i < tx.applied.len()
    &&& i < target.applied.len()
    &&& tx.applied[i] == target.applied[i]
    &&& commit_of(tx.patches, tx.applied[i]) == commit_of(target.patches, tx.applied[i])
}

/// The number of applied patches, counted from `i`, that stay in place when
/// the staged stack is reset to a state.
pub open spec fn kept_from(tx: TransactionView, target: StateView, i: int) -> int
    decreases tx.applied.len() - i,
{
    if agree_at(tx, target, i) {
        kept_from(tx, target, i + 1)
    } else {
        i
    }
}

/// Sets the commit of every row named `name`.
fn set_commit(patches: &mut Vec<PatchEntry>, name: &PatchName, commit: CommitId)
    requires
        rows_wf(old(patches)@),
        name.wf(),
    ensures
        rows_wf(final(patches)@),
        rows_of(final(patches)@) == with_commit(rows_of(old(patches)@), name@, commit),
{
    let mut i: usize = 0;
    while i < patches.len()
        invariant
            i <= patches.len(),
            patches.len() == old(patches).len(),
            rows_wf(patches@),
            name.wf(),
            forall|j: int|
                0 <= j < i ==> (#[trigger] patches@[j]).name@ == old(patches)@[j].name@
                    && patches@[j].state == if old(patches)@[j].name@ == name@ {
                    PatchState { commit }
                } else {
                    old(patches)@[j].state
                },
            forall|j: int| i <= j < patches.len() ==> #[trigger] patches@[j] == old(patches)@[j],
        decreases patches.len() - i,
    {
        if patches[i].name.same(name) {
            patches.set(i, PatchEntry { name: name.duplicate(), state: PatchState { commit } });
        }
        i += 1;
    }
}

impl Transaction {
    /// Stages a new patch, put at `insert_pos` among the unapplied patches.
    ///
    /// Refused where the transaction has halted, where the stack holds a
    /// patch of this name, and where the position lies behind the end of
    /// the list; the transaction is then as it was.
    pub fn new_unapplied(&mut self, name: &PatchName, commit: CommitId, insert_pos: usize) -> (staged:
        Result<(), Error>)
        requires
            old(self).wf(),
            name.wf(),
        ensures
            final(self).wf(),
            match staged {
                Ok(()) => {
                    &&& old(self)@.phase == Phase::Building
                    &&& !old(self)@.keys().contains(name@)
                    &&& insert_pos <= old(self)@.unapplied.len()
                    &&& final(self)@ == (TransactionView {
                        unapplied: old(self)@.unapplied.insert(insert_pos as int, name@),
                        patches: old(self)@.patches.push((name@, PatchState { commit })),
                        ..old(self)@
                    })
                },
                Err(error) => {
                    &&& final(self)@ == old(self)@
                    &&& if old(self)@.phase != Phase::Building {
                        error is Halted
                    } else if old(self)@.keys().contains(name@) {
                        error matches Error::PatchExists(n) && n@ == name@
                    } else {
                        error is BadPosition && insert_pos > old(self)@.unapplied.len()
                    }
                },
            },
    {
        assert(self@.keys() =~= keys_of(self.patches@));
        match self.phase {
            Phase::Building => {},
            _ => {
                return Err(Error::Halted);
            },
        }
        match row_position(&self.patches, name) {
            Some(at) => {
                assert(self@.keys()[at as int] == name@);
                return Err(Error::PatchExists(String::from_str(name.as_str())));
            },
            None => {},
        }
        if insert_pos > self.unapplied.len() {
            return Err(Error::BadPosition);
        }
        let ghost before = *self;
        self.unapplied.insert(insert_pos, name.duplicate());
        self.patches.push(PatchEntry { name: name.duplicate(), state: PatchState { commit } });
        proof {
            assert(names_of(self.unapplied@) =~= names_of(before.unapplied@).insert(
                insert_pos as int,
                name@,
            ));
            assert(rows_of(self.patches@) =~= rows_of(before.patches@).push(
                (name@, PatchState { commit }),
            ));
        }
        Ok(())
    }

    /// Says what the store has to do before the patch `name` is pushed:
    /// `parent` is the first parent of the commit of the patch.
    pub fn push_request(&self, name: &PatchName, parent: CommitId) -> (request: Result<
        PushRequest,
        Error,
    >)
        ensures
            match commit_of(self@.patches, name@) {
                None => request matches Err(Error::NoSuchPatch(n)) && n@ == name@,
                Some(commit) => request == Ok::<PushRequest, Error>(
                    if parent == self@.top() {
                        PushRequest::FastForward(commit)
                    } else {
                        PushRequest::Merge { base: parent, ours: self@.top(), theirs: commit }
                    },
                ),
            },
    {
        let top = self.top();
        match self.get_patch(name) {
            None => Err(Error::NoSuchPatch(String::from_str(name.as_str()))),
            Some(patch) => {
                if parent.same(&top) {
                    Ok(PushRequest::FastForward(patch.commit))
                } else {
                    Ok(PushRequest::Merge { base: parent, ours: top, theirs: patch.commit })
                }
            },
        }
    }

    /// Stages the push of an unapplied patch, given what the store made of
    /// applying it on the current top.
    ///
    /// A patch that applies moves to the top of the applied patches and
    /// takes the commit that holds it there. A patch that leaves conflicts
    /// stays where it is: the conflict is recorded under its name and the
    /// transaction stops, halted or conflicted as the policy says.
    pub fn push_patch(&mut self, name: &PatchName, merged: Merge) -> (pushed: Result<(), Error>)
        requires
            old(self).wf(),
            name.wf(),
        ensures
            final(self).wf(),
            match pushed {
                Ok(()) => {
                    &&& old(self)@.phase == Phase::Building
                    &&& old(self)@.unapplied.contains(name@)
                    &&& merged is Clean
                    &&& final(self)@ == (TransactionView {
                        applied: old(self)@.applied.push(name@),
                        unapplied: without_first(old(self)@.unapplied, name@),
                        patches: with_commit(old(self)@.patches, name@, merged->Clean_0),
                        ..old(self)@
                    })
                },
                Err(error) => {
                    if old(self)@.phase != Phase::Building {
                        error is Halted && final(self)@ == old(self)@
                    } else if !old(self)@.unapplied.contains(name@) {
                        &&& error matches Error::NoSuchPatch(n) && n@ == name@
                        &&& final(self)@ == old(self)@
                    } else {
                        &&& merged is Conflict
                        &&& error matches Error::CausedConflicts(text) && text@ == conflict_text(
                            name@,
                        )
                        &&& final(self)@ == (TransactionView {
                            conflict: Some(name@),
                            phase: if old(self)@.options.conflict_policy == ConflictPolicy::Halt {
                                Phase::Halted
                            } else {
                                Phase::Conflicted
                            },
                            ..old(self)@
                        })
                    }
                },
            },
    {
        match self.phase {
            Phase::Building => {},
            _ => {
                return Err(Error::Halted);
            },
        }
        let found = position(&self.unapplied, name);
        let at = match found {
            Some(at) => at,
            None => {
                return Err(Error::NoSuchPatch(String::from_str(name.as_str())));
            },
        };
        proof {
            lemma_first_key(names_of(self.unapplied@), name@, at as int);
        }
        match merged {
            Merge::Clean(commit) => {
                let ghost before = *self;
                let moved = self.unapplied.remove(at);
                self.applied.push(moved);
                set_commit(&mut self.patches, name, commit);
                proof {
                    assert(names_of(self.unapplied@) =~= names_of(before.unapplied@).remove(
                        at as int,
                    ));
                    assert(names_of(self.applied@) =~= names_of(before.applied@).push(name@));
                }
                Ok(())
            },
            Merge::Conflict => {
                self.conflict = Some(name.duplicate());
                self.phase = match self.options.conflict_policy {
                    ConflictPolicy::Halt => Phase::Halted,
                    ConflictPolicy::Rollback => Phase::Conflicted,
                };
                Err(Error::CausedConflicts(conflict_message(name.as_str())))
            },
        }
    }

    /// Stages the pop of an applied patch and of all patches above it: they
    /// go to the front of the unapplied patches, in their order.
    pub fn pop_patches(&mut self, lowest: &PatchName) -> (popped: Result<(), Error>)
        requires
            old(self).wf(),
        ensures
            final(self).wf(),
            match popped {
                Ok(()) => {
                    let at = index_of_first_key(old(self)@.applied, lowest@);
                    &&& old(self)@.phase == Phase::Building
                    &&& old(self)@.applied.contains(lowest@)
                    &&& final(self)@ == (TransactionView {
                        applied: old(self)@.applied.take(at),
                        unapplied: old(self)@.applied.skip(at) + old(self)@.unapplied,
                        ..old(self)@
                    })
                },
                Err(error) => {
                    &&& final(self)@ == old(self)@
                    &&& if old(self)@.phase != Phase::Building {
                        error is Halted
                    } else {
                        &&& !old(self)@.applied.contains(lowest@)
                        &&& error matches Error::NoSuchPatch(n) && n@ == lowest@
                    }
                },
            },
    {
        match self.phase {
            Phase::Building => {},
            _ => {
                return Err(Error::Halted);
            },
        }
        let at = match position(&self.applied, lowest) {
            Some(at) => at,
            None => {
                return Err(Error::NoSuchPatch(String::from_str(lowest.as_str())));
            },
        };
        let ghost before = *self;
        proof {
            lemma_first_key(names_of(self.applied@), lowest@, at as int);
        }
        let mut popped = self.applied.split_off(at);
        popped.append(&mut self.unapplied);
        self.unapplied = popped;
        proof {
            assert(names_of(self.applied@) =~= names_of(before.applied@).take(at as int));
            assert(names_of(self.unapplied@) =~= names_of(before.applied@).skip(at as int)
                + names_of(before.unapplied@));
            assert forall|j: int| 0 <= j < self.unapplied@.len() implies (
            #[trigger] self.unapplied@[j]).wf() by {
                let n = before.applied@.len() - at;
            }
        }
        Ok(())
    }

    /// Stages hiding an unapplied patch: it goes to the end of the hidden patches.
    pub fn hide_patch(&mut self, name: &PatchName) -> (hidden: Result<(), Error>)
        requires
            old(self).wf(),
        ensures
            final(self).wf(),
            match hidden {
                Ok(()) => {
                    &&& old(self)@.phase == Phase::Building
                    &&& old(self)@.unapplied.contains(name@)
                    &&& final(self)@ == (TransactionView {
                        unapplied: without_first(old(self)@.unapplied, name@),
                        hidden: old(self)@.hidden.push(name@),
                        ..old(self)@
                    })
                },
                Err(error) => {
                    &&& final(self)@ == old(self)@
                    &&& if old(self)@.phase != Phase::Building {
                        error is Halted
                    } else {
                        &&& !old(self)@.unapplied.contains(name@)
                        &&& error matches Error::NoSuchPatch(n) && n@ == name@
                    }
                },
            },
    {
        match self.phase {
            Phase::Building => {},
            _ => {
                return Err(Error::Halted);
            },
        }
        let at = match position(&self.unapplied, name) {
            Some(at) => at,
            None => {
                return Err(Error::NoSuchPatch(String::from_str(name.as_str())));
            },
        };
        let ghost before = *self;
        proof {
            lemma_first_key(names_of(self.unapplied@), name@, at as int);
        }
        let moved = self.unapplied.remove(at);
        self.hidden.push(moved);
        proof {
            assert(names_of(self.unapplied@) =~= names_of(before.unapplied@).remove(at as int));
            assert(names_of(self.hidden@) =~= names_of(before.hidden@).push(name@));
        }
        Ok(())
    }

    /// Stages unhiding a hidden patch: it goes to the end of the unapplied patches.
    pub fn unhide_patch(&mut self, name: &PatchName) -> (unhidden: Result<(), Error>)
        requires
            old(self).wf(),
        ensures
            final(self).wf(),
            match unhidden {
                Ok(()) => {
                    &&& old(self)@.phase == Phase::Building
                    &&& old(self)@.hidden.contains(name@)
                    &&& final(self)@ == (TransactionView {
                        hidden: without_first(old(self)@.hidden, name@),
                        unapplied: old(self)@.unapplied.push(name@),
                        ..old(self)@
                    })
                },
                Err(error) => {
                    &&& final(self)@ == old(self)@
                    &&& if old(self)@.phase != Phase::Building {
                        error is Halted
                    } else {
                        &&& !old(self)@.hidden.contains(name@)
                        &&& error matches Error::NoSuchPatch(n) && n@ == name@
                    }
                },
            },
    {
        match self.phase {
            Phase::Building => {},
            _ => {
                return Err(Error::Halted);
            },
        }
        let at = match position(&self.hidden, name) {
            Some(at) => at,
            None => {
                return Err(Error::NoSuchPatch(String::from_str(name.as_str())));
            },
        };
        let ghost before = *self;
        proof {
            lemma_first_key(names_of(self.hidden@), name@, at as int);
        }
        let moved = self.hidden.remove(at);
        self.unapplied.push(moved);
        proof {
            assert(names_of(self.hidden@) =~= names_of(before.hidden@).remove(at as int));
            assert(names_of(self.unapplied@) =~= names_of(before.unapplied@).push(name@));
        }
        Ok(())
    }
}

/// A working copy that is to show the tree of a commit.
#[derive(Clone, Copy, Debug, PartialEq, Eq)]
pub struct Checkout {
    /// The commit whose tree the working copy is to show.
    pub commit: CommitId,
    /// Whether changes that are not committed may be thrown away.
    pub discard_changes: bool,
}

/// What a transaction comes to: how it ended, and what the caller has to
/// carry out in the store, in the order of the fields.
#[derive(Debug)]
pub struct Executed {
    /// The stack after the transaction: with the new state where one is
    /// published, as it was otherwise.
    pub stack: Stack,
    /// Whether the transaction succeeded.
    pub status: Result<(), Error>,
    /// The working copy to establish, if any.
    pub checkout: Option<Checkout>,
    /// The publication of the new state.
    pub publish: Option<Publish>,
    /// The edit that moves the branch to its new tip.
    pub branch_edit: Option<RefEdit>,
    /// The edits that put the patch references right.
    pub ref_edits: Vec<RefEdit>,
    /// The patch that did not apply cleanly, if there was one.
    pub conflict: Option<PatchName>,
}

/// The state that a transaction publishes: the staged lists, the staged top
/// as the head, and as predecessor the commit that held the state when the
/// transaction began.
pub open spec fn staged_state(tx: TransactionView) -> StateView {
    StateView {
        prev: tx.stack.state_commit,
        head: tx.top(),
        applied: tx.applied,
        unapplied: tx.unapplied,
        hidden: tx.hidden,
        patches: tx.patches,
    }
}

/// The first fault of the staged lists, if they make no stack state.
pub open spec fn staged_defect(tx: TransactionView) -> Option<crate::state::StateError> {
    parts_defect(tx.applied + tx.unapplied + tx.hidden, tx.keys())
}

/// Whether the transaction publishes: no conflict forbids it and the staged
/// lists make a stack state.
pub open spec fn publishes(tx: TransactionView) -> bool {
    tx.phase != Phase::Conflicted && staged_defect(tx) is None
}

/// The publication of a transaction that publishes.
pub open spec fn staged_publish(tx: TransactionView, log_message: Seq<char>) -> PublishView {
    PublishView {
        refname: tx.stack.stack_refname,
        expected: guard_after(tx.stack.state_commit),
        state: staged_state(tx),
        message: log_message,
        reflog: log_message,
    }
}

/// The edit of the branch reference of a transaction that publishes.
pub open spec fn staged_branch_edit(tx: TransactionView, log_message: Seq<char>) -> Option<EditView> {
    if tx.top() != tx.stack.branch_head {
        Some(
            EditView::Update {
                name: vstd::utf8::encode_utf8(tx.stack.branch_refname),
                expected: ExpectView::MustExistAndMatch(TargetView::Direct(tx.stack.branch_head)),
                new: tx.top(),
                log: log_message,
            },
        )
    } else {
        None
    }
}

/// The working copy that a transaction asks for.
///
/// Without use of the working copy there is none. After a conflict that
/// gives the transaction up, it is the one of before the transaction. After
/// a transaction that built to its end and moved the top, it is the one of
/// the new top. A halted transaction leaves the working copy as the
/// conflict left it, and one whose lists make no state touches nothing.
pub open spec fn staged_checkout(tx: TransactionView) -> Option<Checkout> {
    if !tx.options.use_index_and_worktree {
        None
    } else if tx.phase == Phase::Conflicted {
        Some(Checkout { commit: tx.stack.branch_head, discard_changes: true })
    } else if tx.phase == Phase::Building && staged_defect(tx) is None && tx.top()
        != tx.stack.branch_head {
        Some(Checkout { commit: tx.top(), discard_changes: tx.options.discard_changes })
    } else {
        None
    }
}

/// The value of the state reference after the caller has carried out what
/// a transaction asked for: `recorded` is the commit in which the store
/// recorded the published state.
pub open spec fn state_ref_after(
    current: Option<TargetView>,
    publish: Option<PublishView>,
    recorded: CommitId,
) -> Option<TargetView> {
    match publish {
        Some(request) => if admits(request.expected, current) {
            Some(TargetView::Direct(recorded))
        } else {
            current
        },
        None => current,
    }
}

/// A transaction whose lists make no stack state, or that met a conflict
/// under the policy to roll back, leaves the state reference as it was.
pub proof fn lemma_failed_transaction_publishes_nothing(
    tx: TransactionView,
    done: Executed,
    log_message: Seq<char>,
    current: Option<TargetView>,
    recorded: CommitId,
)
    requires
        executed(tx, log_message, done),
        !publishes(tx),
    ensures
        done.status is Err,
        done.publish is None,
        done.branch_edit is None,
        done.ref_edits@.len() == 0,
        done.stack@ == tx.stack,
        state_ref_after(
            current,
            match done.publish {
                Some(p) => Some(p@),
                None => None,
            },
            recorded,
        ) == current,
{
}

/// A transaction that succeeds publishes a state whose predecessor is the
/// commit that held the state of the stack when the transaction began, under
/// the guard that the state reference still holds that commit.
pub proof fn lemma_published_state_follows(tx: TransactionView, done: Executed, log_message: Seq<char>)
    requires
        executed(tx, log_message, done),
        done.status is Ok,
    ensures
        publishes(tx),
        done.publish is Some,
        done.publish.unwrap()@.state.prev == tx.stack.state_commit,
        done.publish.unwrap()@.expected == guard_after(tx.stack.state_commit),
        done.stack@.state == done.publish.unwrap()@.state,
{
}

/// Of two publications made from the same state, the second is refused
/// once the first has passed: the state reference then holds the commit of
/// the first, which is not what the second expects.
pub proof fn lemma_second_publish_is_refused(
    prev: Option<CommitId>,
    current: Option<TargetView>,
    first: CommitId,
)
    requires
        admits(guard_after(prev), current),
        prev != Some(first),
    ensures
        !admits(guard_after(prev), Some(TargetView::Direct(first))),
{
}

/// What [`Transaction::execute`] gives for a transaction and a log message.
pub open spec fn executed(tx: TransactionView, log_message: Seq<char>, done: Executed) -> bool {
    &&& done.checkout == staged_checkout(tx)
    &&& match done.conflict {
        Some(name) => tx.conflict == Some(name@),
        None => tx.conflict is None,
    }
    &&& if tx.phase == Phase::Conflicted {
        &&& done.status matches Err(Error::CausedConflicts(text)) && tx.conflict is Some && text@
            == conflict_text(tx.conflict.unwrap())
        &&& done.publish is None
        &&& done.branch_edit is None
        &&& done.ref_edits@.len() == 0
        &&& done.stack@ == tx.stack
    } else {
        match staged_defect(tx) {
            Some(defect) => {
                &&& done.status matches Err(Error::InconsistentState(d)) && d == defect
                &&& done.publish is None
                &&& done.branch_edit is None
                &&& done.ref_edits@.len() == 0
                &&& done.stack@ == tx.stack
            },
            None => {
                &&& done.status is Ok
                &&& done.publish is Some
                &&& done.publish.unwrap()@ == staged_publish(tx, log_message)
                &&& done.publish.unwrap().state.wf()
                &&& match done.branch_edit {
                    Some(edit) => staged_branch_edit(tx, log_message) == Some(edit@),
                    None => staged_branch_edit(tx, log_message) is None,
                }
                &&& done.stack@ == (StackView {
                    state: staged_state(tx),
                    branch_head: tx.top(),
                    ..tx.stack
                })
            },
        }
    }
}

impl Transaction {
    /// Stages a new order of the unapplied patches.
    ///
    /// The order is taken as it is given. Whether it holds the same patches
    /// as before is found out when the transaction ends: an order that
    /// drops, adds or repeats a patch makes no stack state.
    pub fn reorder_unapplied(&mut self, order: Vec<PatchName>) -> (reordered: Result<(), Error>)
        requires
            old(self).wf(),
            all_wf(order@),
        ensures
            final(self).wf(),
            match reordered {
                Ok(()) => {
                    &&& old(self)@.phase == Phase::Building
                    &&& final(self)@ == (TransactionView {
                        unapplied: names_of(order@),
                        ..old(self)@
                    })
                },
                Err(error) => {
                    &&& final(self)@ == old(self)@
                    &&& old(self)@.phase != Phase::Building
                    &&& error is Halted
                },
            },
    {
        match self.phase {
            Phase::Building => {},
            _ => {
                return Err(Error::Halted);
            },
        }
        self.unapplied = order;
        Ok(())
    }

    /// Stages a new order of the hidden patches, in the same way.
    pub fn reorder_hidden(&mut self, order: Vec<PatchName>) -> (reordered: Result<(), Error>)
        requires
            old(self).wf(),
            all_wf(order@),
        ensures
            final(self).wf(),
            match reordered {
                Ok(()) => {
                    &&& old(self)@.phase == Phase::Building
                    &&& final(self)@ == (TransactionView { hidden: names_of(order@), ..old(self)@ })
                },
                Err(error) => {
                    &&& final(self)@ == old(self)@
                    &&& old(self)@.phase != Phase::Building
                    &&& error is Halted
                },
            },
    {
        match self.phase {
            Phase::Building => {},
            _ => {
                return Err(Error::Halted);
            },
        }
        self.hidden = order;
        Ok(())
    }

    /// Stages a reset of the whole stack to another state.
    ///
    /// The staged lists and the table become those of `target`. The number
    /// returned says how many applied patches stay in place: those at the
    /// bottom that both stacks have under the same name with the same
    /// commit. The applied patches above them are popped, and those of the
    /// target above them are pushed in the order of the target.
    pub fn reset_to_state(&mut self, target: &StackState) -> (reset: Result<usize, Error>)
        requires
            old(self).wf(),
            target.wf(),
        ensures
            final(self).wf(),
            match reset {
                Ok(kept) => {
                    &&& old(self)@.phase == Phase::Building
                    &&& kept == kept_from(old(self)@, target@, 0)
                    &&& final(self)@ == (TransactionView {
                        applied: target@.applied,
                        unapplied: target@.unapplied,
                        hidden: target@.hidden,
                        patches: target@.patches,
                        ..old(self)@
                    })
                },
                Err(error) => {
                    &&& error is Halted
                    &&& old(self)@.phase != Phase::Building
                    &&& final(self)@ == old(self)@
                },
            },
    {
        match self.phase {
            Phase::Building => {},
            _ => {
                return Err(Error::Halted);
            },
        }
        let theirs = target.applied();
        let ghost tx = self@;
        proof {
            target.lemma_wf();
        }
        let mut kept: usize = 0;
        loop
            invariant
                kept <= self.applied.len(),
                kept <= theirs.len(),
                tx == self@,
                names_of(theirs@) == target@.applied,
                target.wf(),
                target@.keys().no_duplicates(),
                kept_from(tx, target@, 0) == kept_from(tx, target@, kept as int),
            ensures
                kept_from(tx, target@, 0) == kept,
            decreases self.applied.len() - kept,
        {
            if kept >= self.applied.len() || kept >= theirs.len() {
                break ;
            }
            let name = &self.applied[kept];
            if !name.same(&theirs[kept]) {
                break ;
            }
            let ours = self.get_patch(name);
            let other = target.get_patch(name);
            proof {
                if target@.keys().contains(name@) {
                    let keys = target@.keys();
                    let at = keys.index_of(name@);
                    lemma_first_key(keys, name@, at);
                }
            }
            let agree = match ours {
                Some(mine) => match other {
                    Some(their) => mine.commit.same(&their.commit),
                    None => false,
                },
                None => other.is_none(),
            };
            if !agree {
                break ;
            }
            kept += 1;
        }
        self.applied = copy_names(target.applied());
        self.unapplied = copy_names(target.unapplied());
        self.hidden = copy_names(target.hidden());
        self.patches = copy_rows(target.patches());
        Ok(kept)
    }

    /// Ends the transaction.
    ///
    /// `existing` lists the references of the store. Where a conflict gave
    /// the transaction up, or the staged lists make no stack state, nothing
    /// is to be published and the stack is as it was. Otherwise the staged
    /// state is to be published, with the commit that held the state when
    /// the transaction began as its predecessor and as the guard of the
    /// publication, and the branch and the patch references are to follow.
    pub fn execute(self, log_message: &str, existing: &Vec<ExistingRef>) -> (done: Executed)
        requires
            self.wf(),
        ensures
            executed(self@, log_message@, done),
            done.status is Ok ==> done.stack.wf() && edit_views(done.ref_edits@) == patch_ref_plan(
                staged_state(self@),
                self@.stack.branch_name,
                ref_views(existing@),
            ),
            done.status is Err ==> done.stack.wf(),
    {
        let ghost tx = self@;
        let new_head = self.top();
        let options = self.options;
        let old_head = self.stack.get_branch_head();
        match self.phase {
            Phase::Conflicted => {
                let text = match &self.conflict {
                    Some(name) => conflict_message(name.as_str()),
                    None => String::from_str(""),
                };
                let checkout = if options.use_index_and_worktree {
                    Some(Checkout { commit: old_head, discard_changes: true })
                } else {
                    None
                };
                return Executed {
                    stack: self.stack,
                    status: Err(Error::CausedConflicts(text)),
                    checkout,
                    publish: None,
                    branch_edit: None,
                    ref_edits: Vec::new(),
                    conflict: self.conflict,
                };
            },
            _ => {},
        }
        assert(tx.keys() =~= keys_of(self.patches@));
        let building = match self.phase {
            Phase::Building => true,
            _ => false,
        };
        let prev = self.stack.state_commit();
        match StackState::from_parts(
            prev,
            new_head,
            self.applied,
            self.unapplied,
            self.hidden,
            self.patches,
        ) {
            Err(defect) => Executed {
                stack: self.stack,
                status: Err(Error::InconsistentState(defect)),
                checkout: None,
                publish: None,
                branch_edit: None,
                ref_edits: Vec::new(),
                conflict: self.conflict,
            },
            Ok(state) => {
                let moved = !new_head.same(&old_head);
                let checkout = if options.use_index_and_worktree && building && moved {
                    Some(Checkout { commit: new_head, discard_changes: options.discard_changes })
                } else {
                    None
                };
                let publish = state.commit(self.stack.get_stack_refname(), log_message);
                let branch_edit = if moved {
                    Some(
                        RefEdit::Update {
                            name: self.stack.get_branch_refname().as_bytes_vec(),
                            expected: Expect::MustExistAndMatch(RefTarget::Direct(old_head)),
                            new: new_head,
                            log: String::from_str(log_message),
                        },
                    )
                } else {
                    None
                };
                let ref_edits = ensure_patch_refs(self.stack.get_branch_name(), &state, existing);
                let stack = self.stack.adopt(state, new_head);
                Executed {
                    stack,
                    status: Ok(()),
                    checkout,
                    publish: Some(publish),
                    branch_edit,
                    ref_edits,
                    conflict: self.conflict,
                }
            },
        }
    }
}

/// The table without the rows named `name`.
pub open spec fn without_rows(
    patches: Seq<(Seq<char>, PatchState)>,
    name: Seq<char>,
) -> Seq<(Seq<char>, PatchState)>
    decreases patches.len(),
{
    if patches.len() == 0 {
        patches
    } else if patches.last().0 == name {
        without_rows(patches.drop_last(), name)
    } else {
        without_rows(patches.drop_last(), name).push(patches.last())
    }
}

/// The list without the first occurrence of `name`, if it has one.
pub open spec fn dropped(names: Seq<Seq<char>>, name: Seq<char>) -> Seq<Seq<char>> {
    if names.contains(name) {
        without_first(names, name)
    } else {
        names
    }
}

/// Whether a partial reset to `target` changes or deletes the patch `name`:
/// it is one of the `names`, the staged stack holds it, and the target
/// holds it with another commit or not at all.
pub open spec fn disturbed(
    tx: TransactionView,
    target: StateView,
    names: Seq<Seq<char>>,
    name: Seq<char>,
) -> bool {
    names.contains(name) && tx.keys().contains(name) && commit_of(tx.patches, name) != commit_of(
        target.patches,
        name,
    )
}

/// The first position at or after `i` of an applied patch that a partial
/// reset disturbs, or the number of applied patches.
pub open spec fn first_disturbed(
    tx: TransactionView,
    target: StateView,
    names: Seq<Seq<char>>,
    i: int,
) -> int
    decreases tx.applied.len() - i,
{
    if 0 <= i < tx.applied.len() && !disturbed(tx, target, names, tx.applied[i]) {
        first_disturbed(tx, target, names, i + 1)
    } else {
        i
    }
}

/// What a partial reset does about one name.
///
/// A patch that the target holds takes the commit that it has there, and is
/// added to the unapplied patches where the staged stack does not hold it.
/// A patch that only the staged stack holds is deleted from the unapplied
/// and the hidden patches and from the table.
pub open spec fn reset_one(tx: TransactionView, target: StateView, name: Seq<char>) -> TransactionView {
    match commit_of(target.patches, name) {
        Some(commit) => if tx.keys().contains(name) {
            TransactionView { patches: with_commit(tx.patches, name, commit), ..tx }
        } else {
            TransactionView {
                unapplied: tx.unapplied.push(name),
                patches: tx.patches.push((name, PatchState { commit })),
                ..tx
            }
        },
        None => if tx.keys().contains(name) {
            TransactionView {
                unapplied: dropped(tx.unapplied, name),
                hidden: dropped(tx.hidden, name),
                patches: without_rows(tx.patches, name),
                ..tx
            }
        } else {
            tx
        },
    }
}

/// What a partial reset does about the first `n` of the names, one after
/// the other.
pub open spec fn reset_names(
    tx: TransactionView,
    target: StateView,
    names: Seq<Seq<char>>,
    n: int,
) -> TransactionView
    decreases n,
{
    if n <= 0 {
        tx
    } else {
        reset_one(reset_names(tx, target, names, n - 1), target, names[n - 1])
    }
}

/// The staged stack after a partial reset: the applied patches from the
/// first disturbed one on are popped, then each name is dealt with.
pub open spec fn partially_reset(
    tx: TransactionView,
    target: StateView,
    names: Seq<Seq<char>>,
) -> TransactionView {
    let cut = first_disturbed(tx, target, names, 0);
    let popped = TransactionView {
        applied: tx.applied.take(cut),
        unapplied: tx.applied.skip(cut) + tx.unapplied,
        ..tx
    };
    reset_names(popped, target, names, names.len() as int)
}

/// The table without the rows named `name`.
fn remove_rows(patches: &mut Vec<PatchEntry>, name: &PatchName)
    requires
        rows_wf(old(patches)@),
    ensures
        rows_wf(final(patches)@),
        rows_of(final(patches)@) == without_rows(rows_of(old(patches)@), name@),
{
    let mut kept: Vec<PatchEntry> = Vec::new();
    let ghost all = rows_of(patches@);
    let n = patches.len();
    let mut i: usize = 0;
    while i < n
        invariant
            i <= n,
            n == patches@.len(),
            patches@ == old(patches)@,
            all == rows_of(patches@),
            rows_wf(patches@),
            rows_wf(kept@),
            rows_of(kept@) == without_rows(all.take(i as int), name@),
        decreases n - i,
    {
        proof {
            assert(all.take(i + 1).drop_last() =~= all.take(i as int));
        }
        if !patches[i].name.same(name) {
            kept.push(PatchEntry { name: patches[i].name.duplicate(), state: patches[i].state });
        }
        i += 1;
    }
    assert(all.take(n as int) =~= all);
    *patches = kept;
}

/// The list without the first occurrence of `name`, if it has one.
fn drop_name(names: &mut Vec<PatchName>, name: &PatchName)
    requires
        all_wf(old(names)@),
    ensures
        all_wf(final(names)@),
        names_of(final(names)@) == dropped(names_of(old(names)@), name@),
{
    match position(names, name) {
        Some(at) => {
            proof {
                lemma_first_key(names_of(names@), name@, at as int);
            }
            names.remove(at);
        },
        None => {},
    }
}

impl Transaction {
    /// Stages a new commit for a patch of the stack: the patch keeps its
    /// name and place.
    pub fn update_patch(&mut self, name: &PatchName, commit: CommitId) -> (updated: Result<(), Error>)
        requires
            old(self).wf(),
            name.wf(),
        ensures
            final(self).wf(),
            match updated {
                Ok(()) => {
                    &&& old(self)@.phase == Phase::Building
                    &&& old(self)@.keys().contains(name@)
                    &&& final(self)@ == (TransactionView {
                        patches: with_commit(old(self)@.patches, name@, commit),
                        ..old(self)@
                    })
                },
                Err(error) => {
                    &&& final(self)@ == old(self)@
                    &&& if old(self)@.phase != Phase::Building {
                        error is Halted
                    } else {
                        &&& !old(self)@.keys().contains(name@)
                        &&& error matches Error::NoSuchPatch(n) && n@ == name@
                    }
                },
            },
    {
        match self.phase {
            Phase::Building => {},
            _ => {
                return Err(Error::Halted);
            },
        }
        assert(self@.keys() =~= keys_of(self.patches@));
        match row_position(&self.patches, name) {
            Some(at) => {
                assert(self@.keys()[at as int] == name@);
            },
            None => {
                return Err(Error::NoSuchPatch(String::from_str(name.as_str())));
            },
        }
        set_commit(&mut self.patches, name, commit);
        Ok(())
    }

    /// Stages the deletion of a patch that is not applied: it leaves the
    /// unapplied and the hidden patches and the table.
    pub fn delete_patch(&mut self, name: &PatchName) -> (deleted: Result<(), Error>)
        requires
            old(self).wf(),
        ensures
            final(self).wf(),
            match deleted {
                Ok(()) => {
                    &&& old(self)@.phase == Phase::Building
                    &&& old(self)@.unapplied.contains(name@) || old(self)@.hidden.contains(name@)
                    &&& final(self)@ == (TransactionView {
                        unapplied: dropped(old(self)@.unapplied, name@),
                        hidden: dropped(old(self)@.hidden, name@),
                        patches: without_rows(old(self)@.patches, name@),
                        ..old(self)@
                    })
                },
                Err(error) => {
                    &&& final(self)@ == old(self)@
                    &&& if old(self)@.phase != Phase::Building {
                        error is Halted
                    } else {
                        &&& !old(self)@.unapplied.contains(name@)
                        &&& !old(self)@.hidden.contains(name@)
                        &&& error matches Error::NoSuchPatch(n) && n@ == name@
                    }
                },
            },
    {
        match self.phase {
            Phase::Building => {},
            _ => {
                return Err(Error::Halted);
            },
        }
        let unapplied = match position(&self.unapplied, name) {
            Some(at) => {
                assert(names_of(self.unapplied@)[at as int] == name@);
                true
            },
            None => false,
        };
        let hidden = match position(&self.hidden, name) {
            Some(at) => {
                assert(names_of(self.hidden@)[at as int] == name@);
                true
            },
            None => false,
        };
        if !unapplied && !hidden {
            return Err(Error::NoSuchPatch(String::from_str(name.as_str())));
        }
        drop_name(&mut self.unapplied, name);
        drop_name(&mut self.hidden, name);
        remove_rows(&mut self.patches, name);
        Ok(())
    }

    /// Stages a reset of some patches to another state.
    ///
    /// Only the patches in `names` are looked at. One that the target holds
    /// takes the commit that it has there, and becomes an unapplied patch
    /// where the stack did not hold it. One that only the stack holds is
    /// deleted. Before that, the applied patches are popped from the first
    /// one on whose commit changes or that is deleted. The names returned
    /// are those of the popped patches: the caller pushes again those that
    /// are still in the stack.
    pub fn reset_to_state_partially(&mut self, target: &StackState, names: &Vec<PatchName>) -> (reset:
        Result<Vec<PatchName>, Error>)
        requires
            old(self).wf(),
            target.wf(),
            all_wf(names@),
        ensures
            final(self).wf(),
            match reset {
                Ok(popped) => {
                    &&& old(self)@.phase == Phase::Building
                    &&& final(self)@ == partially_reset(old(self)@, target@, names_of(names@))
                    &&& names_of(popped@) == old(self)@.applied.skip(
                        first_disturbed(old(self)@, target@, names_of(names@), 0),
                    )
                },
                Err(error) => {
                    &&& error is Halted
                    &&& old(self)@.phase != Phase::Building
                    &&& final(self)@ == old(self)@
                },
            },
    {
        match self.phase {
            Phase::Building => {},
            _ => {
                return Err(Error::Halted);
            },
        }
        let ghost tx = self@;
        let ghost wanted = names_of(names@);
        proof {
            target.lemma_wf();
        }
        // Find the first applied patch that the reset disturbs.
        let mut cut: usize = 0;
        loop
            invariant
                cut <= self.applied.len(),
                tx == self@,
                wanted == names_of(names@),
                target.wf(),
                target@.keys().no_duplicates(),
                first_disturbed(tx, target@, wanted, 0) == first_disturbed(
                    tx,
                    target@,
                    wanted,
                    cut as int,
                ),
            ensures
                cut == first_disturbed(tx, target@, wanted, 0),
                cut <= self.applied.len(),
                tx == self@,
            decreases self.applied.len() - cut,
        {
            if cut >= self.applied.len() {
                break ;
            }
            let name = &self.applied[cut];
            let listed = match position(names, name) {
                Some(at) => {
                    assert(wanted[at as int] == name@);
                    true
                },
                None => false,
            };
            let ours = self.get_patch(name);
            let theirs = target.get_patch(name);
            proof {
                lemma_target_commit(target@, name@);
            }
            let differs = match ours {
                Some(mine) => match theirs {
                    Some(their) => !mine.commit.same(&their.commit),
                    None => true,
                },
                None => false,
            };
            if listed && differs {
                break ;
            }
            cut += 1;
        }
        let mut popped = self.applied.split_off(cut);
        let answer = copy_names(&popped);
        popped.append(&mut self.unapplied);
        self.unapplied = popped;
        proof {
            assert(names_of(self.applied@) =~= tx.applied.take(cut as int));
            assert(names_of(self.unapplied@) =~= tx.applied.skip(cut as int) + tx.unapplied);
            assert(all_wf(self.unapplied@)) by {
                assert forall|j: int| 0 <= j < self.unapplied@.len() implies (
                #[trigger] self.unapplied@[j]).wf() by {
                    let n = old(self).applied@.len() - cut;
                }
            }
        }
        let ghost start = self@;
        let mut i: usize = 0;
        while i < names.len()
            invariant
                i <= names.len(),
                self.wf(),
                target.wf(),
                target@.keys().no_duplicates(),
                all_wf(names@),
                wanted == names_of(names@),
                self@.phase == Phase::Building,
                self@ == reset_names(start, target@, wanted, i as int),
            decreases names.len() - i,
        {
            let name = &names[i];
            let ghost now = self@;
            assert(now.keys() =~= keys_of(self.patches@));
            let held = match row_position(&self.patches, name) {
                Some(at) => {
                    assert(now.keys()[at as int] == name@);
                    true
                },
                None => false,
            };
            proof {
                lemma_target_commit(target@, name@);
            }
            match target.get_patch(name) {
                Some(theirs) => {
                    if held {
                        set_commit(&mut self.patches, name, theirs.commit);
                    } else {
                        let ghost lists = self.unapplied@;
                        let ghost rows = self.patches@;
                        self.unapplied.push(name.duplicate());
                        self.patches.push(
                            PatchEntry { name: name.duplicate(), state: theirs },
                        );
                        proof {
                            assert(names_of(self.unapplied@) =~= names_of(lists).push(name@));
                            assert(rows_of(self.patches@) =~= rows_of(rows).push((name@, theirs)));
                        }
                    }
                },
                None => {
                    if held {
                        drop_name(&mut self.unapplied, name);
                        drop_name(&mut self.hidden, name);
                        remove_rows(&mut self.patches, name);
                    }
                },
            }
            i += 1;
        }
        Ok(answer)
    }
}

/// The commit that a consistent state gives for a name, as its table and as
/// its map give it.
pub proof fn lemma_target_commit(target: StateView, name: Seq<char>)
    requires
        target.keys().no_duplicates(),
    ensures
        target.patch_map().contains_key(name) <==> commit_of(target.patches, name) is Some,
        target.patch_map().contains_key(name) ==> commit_of(target.patches, name) == Some(
            target.patch_map()[name].commit,
        ),
{
    let keys = target.keys();
    if keys.contains(name) {
        let at = keys.index_of(name);
        lemma_first_key(keys, name, at);
    }
}

/// The first position of a name among keys is the one before which the name
/// does not stand.
pub proof fn lemma_first_key(keys: Seq<Seq<char>>, name: Seq<char>, i: int)
    requires
        0 <= i < keys.len(),
        keys[i] == name,
        forall|j: int| 0 <= j < i ==> keys[j] != name,
    ensures
        index_of_first_key(keys, name) == i,
        keys.contains(name),
{
}

} // verus!
