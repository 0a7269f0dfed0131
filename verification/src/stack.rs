//! The stack of one branch.

use crate::error::Error;
use crate::oid::CommitId;
use crate::patchname::PatchName;
use crate::reconcile::{ensure_patch_refs, patch_ref_plan, starts_with, patch_ref_prefix};
use crate::refname::{
    get_patch_refname, patch_refname_view, stack_ref_namespace, state_refname_from_branch_name,
};
use crate::refs::{
    copy_bytes, edit_views, ref_views, EditView, ExistingRef, Expect, ExpectView, RefEdit,
    RefTarget, RefView, TargetView,
};
use crate::state::{names_of, PatchState, StackState, StateView, all_wf};
use vstd::prelude::*;
use vstd::string::*;

verus! {

/// Policy for stack initialization when the stack of a branch is opened.
#[derive(Clone, Copy, Debug, PartialEq, Eq, Structural)]
pub enum InitializationPolicy {
    /// The stack is initialized if it is not yet.
    AutoInitialize,
    /// The stack is initialized now: it must not be initialized already.
    MustInitialize,
    /// The stack must be initialized already.
    RequireInitialized,
    /// A branch without a stack is accepted and gives an empty stack, on
    /// which no transaction can be started.
    AllowUninitialized,
}

/// A branch as the store resolved it.
#[derive(Debug)]
pub struct BranchInfo {
    /// The short name of the branch.
    pub name: String,
    /// The full name of the reference of the branch.
    pub refname: String,
    /// The commit at the tip of the branch.
    pub head: CommitId,
}

/// The state that the state reference of a branch leads to.
#[derive(Debug)]
pub struct StoredState {
    /// The commit that the state reference holds.
    pub commit: CommitId,
    /// The state decoded from that commit.
    pub state: StackState,
    /// The first parent of the commit of the first applied patch, where
    /// there is an applied patch and its commit has a parent.
    pub first_applied_parent: Option<CommitId>,
}

/// A request to record a state in the store and to make the state
/// reference hold the new commit, under a guard.
#[derive(Clone, Debug, PartialEq, Eq)]
pub struct Publish {
    /// The state reference.
    pub refname: String,
    /// What the state reference must hold for the publication to pass.
    pub expected: Expect,
    /// The state to record.
    pub state: StackState,
    /// The message of the commit that records the state.
    pub message: String,
    /// The entry for the log of the reference.
    pub reflog: String,
}

/// The mathematical value of a [`Publish`].
pub struct PublishView {
    pub refname: Seq<char>,
    pub expected: ExpectView,
    pub state: StateView,
    pub message: Seq<char>,
    pub reflog: Seq<char>,
}

impl View for Publish {
    type V = PublishView;

    open spec fn view(&self) -> PublishView {
        PublishView {
            refname: self.refname@,
            expected: self.expected@,
            state: self.state@,
            message: self.message@,
            reflog: self.reflog@,
        }
    }
}

impl Publish {
    /// Whether the publication passes on a state reference that holds
    /// `current`, or does not exist where `current` is `None`: it passes
    /// where the reference is as expected, and is refused as a concurrent
    /// modification otherwise.
    pub fn check(&self, current: Option<&RefTarget>) -> (checked: Result<(), Error>)
        ensures
            checked is Ok <==> crate::refs::admits(
                self@.expected,
                match current {
                    Some(target) => Some(target@),
                    None => None,
                },
            ),
            checked is Err ==> checked.unwrap_err() is ConcurrentModification,
    {
        if self.expected.admits(current) {
            Ok(())
        } else {
            Err(Error::ConcurrentModification)
        }
    }
}

/// The guard of a publication that follows the state held by `prev`: the
/// state reference is absent where there was no state, and holds `prev`
/// where there was one.
pub open spec fn guard_after(prev: Option<CommitId>) -> ExpectView {
    match prev {
        Some(commit) => ExpectView::ExistingMustMatch(TargetView::Direct(commit)),
        None => ExpectView::MustNotExist,
    }
}

/// The guard of a publication that follows the state held by `prev`.
pub fn guard_for(prev: Option<CommitId>) -> (guard: Expect)
    ensures
        guard@ == guard_after(prev),
{
    match prev {
        Some(commit) => Expect::ExistingMustMatch(RefTarget::Direct(commit)),
        None => Expect::MustNotExist,
    }
}

impl StackState {
    /// Asks to record the state in the store and to make `target_ref` hold
    /// the new commit, with `message` as the message of the commit and as the
    /// entry in the log of the reference.
    ///
    /// The request is guarded by the previous state: it passes only if the
    /// reference holds the commit of the previous state, or does not exist
    /// where the state has no previous state. A reference that was changed
    /// meanwhile makes the request fail; it is not tried again.
    pub fn commit(&self, target_ref: &str, message: &str) -> (request: Publish)
        requires
            self.wf(),
        ensures
            request.state.wf(),
            request@ == (PublishView {
                refname: target_ref@,
                expected: guard_after(self@.prev),
                state: self@,
                message: message@,
                reflog: message@,
            }),
    {
        Publish {
            refname: String::from_str(target_ref),
            expected: guard_for(self.prev()),
            state: self.duplicate(),
            message: String::from_str(message),
            reflog: String::from_str(message),
        }
    }
}

/// The stack of one branch: the state of the stack together with what is
/// known of the branch.
#[derive(Clone, Debug, PartialEq, Eq)]
pub struct Stack {
    branch_name: String,
    branch_refname: String,
    branch_head: CommitId,
    stack_refname: String,
    base: CommitId,
    state: StackState,
    state_commit: Option<CommitId>,
    is_initialized: bool,
}

/// The mathematical value of a [`Stack`].
pub struct StackView {
    pub branch_name: Seq<char>,
    pub branch_refname: Seq<char>,
    pub branch_head: CommitId,
    pub stack_refname: Seq<char>,
    pub base: CommitId,
    pub state: StateView,
    /// The commit that held the state when it was read or last published.
    pub state_commit: Option<CommitId>,
    pub is_initialized: bool,
}

impl View for Stack {
    type V = StackView;

    closed spec fn view(&self) -> StackView {
        StackView {
            branch_name: self.branch_name@,
            branch_refname: self.branch_refname@,
            branch_head: self.branch_head,
            stack_refname: self.stack_refname@,
            base: self.base,
            state: self.state@,
            state_commit: self.state_commit,
            is_initialized: self.is_initialized,
        }
    }
}

/// What opening a stack gives: the stack, and what the caller has to carry
/// out in the store, in this order.
#[derive(Debug)]
pub struct Opened {
    pub stack: Stack,
    /// The first state of a stack that is initialized now.
    pub initialize: Option<Publish>,
    /// The edits that put the patch references right.
    pub ref_edits: Vec<RefEdit>,
}

/// What is decided when a stack is opened.
#[derive(Clone, Copy, Debug, PartialEq, Eq)]
pub enum OpenPlan {
    /// The stored state is taken over.
    Load,
    /// An empty state is made and published.
    Initialize,
    /// An empty state is made and kept in memory only.
    Uninitialized,
}

/// The decision on opening a stack: whether the state reference exists,
/// against what the policy asks for.
pub open spec fn open_plan(exists: bool, policy: InitializationPolicy) -> Option<OpenPlan> {
    if exists {
        if policy == InitializationPolicy::MustInitialize {
            None
        } else {
            Some(OpenPlan::Load)
        }
    } else {
        match policy {
            InitializationPolicy::RequireInitialized => None,
            InitializationPolicy::AutoInitialize => Some(OpenPlan::Initialize),
            InitializationPolicy::MustInitialize => Some(OpenPlan::Initialize),
            InitializationPolicy::AllowUninitialized => Some(OpenPlan::Uninitialized),
        }
    }
}

/// The empty state on a branch whose tip is `head`.
pub open spec fn empty_state(head: CommitId) -> StateView {
    StateView {
        prev: None,
        head,
        applied: Seq::empty(),
        unapplied: Seq::empty(),
        hidden: Seq::empty(),
        patches: Seq::empty(),
    }
}

/// The value of a stack that was just opened on a branch.
pub open spec fn opened_view(
    branch: BranchInfo,
    state: StateView,
    base: CommitId,
    state_commit: Option<CommitId>,
    is_initialized: bool,
) -> StackView {
    StackView {
        branch_name: branch.name@,
        branch_refname: branch.refname@,
        branch_head: branch.head,
        stack_refname: stack_ref_namespace() + branch.name@,
        base,
        state,
        state_commit,
        is_initialized,
    }
}

/// The publication of the first state of a stack.
pub open spec fn initial_publish(branch_name: Seq<char>, head: CommitId) -> PublishView {
    PublishView {
        refname: stack_ref_namespace() + branch_name,
        expected: ExpectView::MustNotExist,
        state: empty_state(head),
        message: "initialize"@,
        reflog: "initialize"@,
    }
}

/// Decides what opening a stack does: `exists` says whether the state
/// reference of the branch exists.
pub fn open_decision(exists: bool, init_policy: InitializationPolicy, branch_name: &str) -> (decided:
    Result<OpenPlan, Error>)
    ensures
        match open_plan(exists, init_policy) {
            Some(plan) => decided == Ok::<OpenPlan, Error>(plan),
            None => if exists {
                decided matches Err(Error::AlreadyInitialized(name)) && name@ == branch_name@
            } else {
                decided matches Err(Error::NotInitialized(name)) && name@ == branch_name@
            },
        },
{
    if exists {
        match init_policy {
            InitializationPolicy::MustInitialize => Err(
                Error::AlreadyInitialized(String::from_str(branch_name)),
            ),
            _ => Ok(OpenPlan::Load),
        }
    } else {
        match init_policy {
            InitializationPolicy::RequireInitialized => Err(
                Error::NotInitialized(String::from_str(branch_name)),
            ),
            InitializationPolicy::AutoInitialize => Ok(OpenPlan::Initialize),
            InitializationPolicy::MustInitialize => Ok(OpenPlan::Initialize),
            InitializationPolicy::AllowUninitialized => Ok(OpenPlan::Uninitialized),
        }
    }
}

/// The commit message that records changes made by other tools, where the
/// caller gives none.
pub open spec fn external_mods_message() -> Seq<char> {
    "external modifications\n\nModifications by tools other than StGit (e.g. git).\n"@
}

/// The publication that records that the branch moved without the stack.
pub open spec fn external_mods_publish(
    stack: StackView,
    prev_state_commit: CommitId,
    message: Option<Seq<char>>,
) -> PublishView {
    PublishView {
        refname: stack.stack_refname,
        expected: ExpectView::ExistingMustMatch(TargetView::Direct(prev_state_commit)),
        state: StateView {
            prev: Some(prev_state_commit),
            head: stack.branch_head,
            ..stack.state
        },
        message: match message {
            Some(text) => text,
            None => external_mods_message(),
        },
        reflog: "external modifications"@,
    }
}

/// The deletions of those of the first `n` references whose names begin
/// with `prefix`, each guarded by the value that was found.
pub open spec fn deletions(prefix: Seq<u8>, refs: Seq<RefView>, n: int) -> Seq<EditView>
    decreases n,
{
    if n <= 0 {
        Seq::empty()
    } else {
        let before = deletions(prefix, refs, n - 1);
        let found = refs[n - 1];
        if starts_with(found.name, prefix) {
            before.push(
                EditView::Delete {
                    name: found.name,
                    expected: ExpectView::MustExistAndMatch(found.target),
                },
            )
        } else {
            before
        }
    }
}

/// The section of the configuration that belongs to the stack of a branch.
pub open spec fn config_section_view(branch_name: Seq<char>) -> Seq<char> {
    "branch."@ + branch_name + ".stgit"@
}

/// The subsection, under `branch`, that belongs to the stack of a branch.
pub open spec fn config_subsection_view(branch_name: Seq<char>) -> Seq<char> {
    branch_name + ".stgit"@
}

/// What removing a stack from the store takes.
#[derive(Clone, Debug, PartialEq, Eq)]
pub struct Deinitialize {
    /// The deletions to carry out, in order: the patch references, then
    /// the state reference.
    pub edits: Vec<RefEdit>,
    /// The section of the configuration to remove; that it may be absent is
    /// no error.
    pub config_section: String,
}

/// A change of the configuration of the repository.
#[derive(Clone, Debug, PartialEq, Eq)]
pub enum ConfigEdit {
    /// Set `branch.<subsection>.protect` to `true`.
    SetProtect { subsection: String },
    /// Remove `branch.<subsection>.protect`, and the section with it where
    /// it is left without values.
    ClearProtect { subsection: String },
}

impl Stack {
    /// What holds of every stack: its state is well formed and its state
    /// reference is the one of its branch.
    pub closed spec fn wf(&self) -> bool {
        &&& self.state.wf()
        &&& self.stack_refname@ == stack_ref_namespace() + self.branch_name@
    }

    /// Opens the stack of a branch.
    ///
    /// `stored` is what the state reference of the branch leads to, or
    /// `None` where the reference does not exist; `existing` lists the
    /// references of the store. A stack that exists is refused where the
    /// policy is to make one, and a stack that is missing is refused where
    /// the policy requires one. Otherwise the stored state is taken over,
    /// with the first parent of the first applied patch as the base, or the
    /// tip of the branch where no patch is applied; or an empty state is
    /// made, to be published where the policy initializes. The edits that
    /// put the patch references right come with the stack.
    pub fn from_branch(
        branch: BranchInfo,
        stored: Option<StoredState>,
        init_policy: InitializationPolicy,
        existing: &Vec<ExistingRef>,
    ) -> (opened: Result<Opened, Error>)
        requires
            stored is Some ==> stored.unwrap().state.wf(),
        ensures
            match open_plan(stored is Some, init_policy) {
                None => if stored is Some {
                    opened matches Err(Error::AlreadyInitialized(name)) && name@ == branch.name@
                } else {
                    opened matches Err(Error::NotInitialized(name)) && name@ == branch.name@
                },
                Some(OpenPlan::Load) => {
                    let found = stored.unwrap();
                    if found.state@.applied.len() > 0 && found.first_applied_parent is None {
                        opened matches Err(Error::PatchWithoutParent(name)) && name@
                            == found.state@.applied[0]
                    } else {
                        &&& opened is Ok
                        &&& opened.unwrap().stack.wf()
                        &&& opened.unwrap().stack@ == opened_view(
                            branch,
                            found.state@,
                            if found.state@.applied.len() > 0 {
                                found.first_applied_parent.unwrap()
                            } else {
                                branch.head
                            },
                            Some(found.commit),
                            true,
                        )
                        &&& opened.unwrap().initialize is None
                        &&& edit_views(opened.unwrap().ref_edits@) == patch_ref_plan(
                            found.state@,
                            branch.name@,
                            ref_views(existing@),
                        )
                    }
                },
                Some(OpenPlan::Initialize) => {
                    &&& opened is Ok
                    &&& opened.unwrap().stack.wf()
                    &&& opened.unwrap().stack@ == opened_view(
                        branch,
                        empty_state(branch.head),
                        branch.head,
                        None,
                        true,
                    )
                    &&& opened.unwrap().initialize is Some
                    &&& opened.unwrap().initialize.unwrap()@ == initial_publish(
                        branch.name@,
                        branch.head,
                    )
                    &&& opened.unwrap().initialize.unwrap().state.wf()
                    &&& edit_views(opened.unwrap().ref_edits@) == patch_ref_plan(
                        empty_state(branch.head),
                        branch.name@,
                        ref_views(existing@),
                    )
                },
                Some(OpenPlan::Uninitialized) => {
                    &&& opened is Ok
                    &&& opened.unwrap().stack.wf()
                    &&& opened.unwrap().stack@ == opened_view(
                        branch,
                        empty_state(branch.head),
                        branch.head,
                        None,
                        false,
                    )
                    &&& opened.unwrap().initialize is None
                    &&& edit_views(opened.unwrap().ref_edits@) == patch_ref_plan(
                        empty_state(branch.head),
                        branch.name@,
                        ref_views(existing@),
                    )
                },
            },
    {
        let stack_refname = state_refname_from_branch_name(branch.name.as_str());
        let plan = match open_decision(stored.is_some(), init_policy, branch.name.as_str()) {
            Ok(plan) => plan,
            Err(error) => {
                return Err(error);
            },
        };
        let head = branch.head;
        let (state, base, state_commit, is_initialized, initialize) = match stored {
            Some(found) => {
                let base = if found.state.applied().len() > 0 {
                    match found.first_applied_parent {
                        Some(parent) => parent,
                        None => {
                            let first = &found.state.applied()[0];
                            return Err(Error::PatchWithoutParent(String::from_str(first.as_str())));
                        },
                    }
                } else {
                    head
                };
                (found.state, base, Some(found.commit), true, None)
            },
            None => {
                let state = StackState::new(head);
                match plan {
                    OpenPlan::Uninitialized => (state, head, None, false, None),
                    _ => {
                        let publish = state.commit(stack_refname.as_str(), "initialize");
                        (state, head, None, true, Some(publish))
                    },
                }
            },
        };
        let ref_edits = ensure_patch_refs(branch.name.as_str(), &state, existing);
        let stack = Stack {
            branch_name: branch.name,
            branch_refname: branch.refname,
            branch_head: head,
            stack_refname,
            base,
            state,
            state_commit,
            is_initialized,
        };
        Ok(Opened { stack, initialize, ref_edits })
    }

    /// Plans the removal of the stack from the store.
    ///
    /// Every reference in the namespace of the patches of the branch is
    /// deleted, then the state reference, each under the guard that it
    /// still has the value found. The commits are not touched.
    pub fn deinitialize(self, state_ref: &ExistingRef, existing: &Vec<ExistingRef>) -> (plan:
        Deinitialize)
        ensures
            edit_views(plan.edits@) == deletions(
                patch_ref_prefix(self@.branch_name),
                ref_views(existing@),
                existing@.len() as int,
            ).push(
                EditView::Delete {
                    name: state_ref@.name,
                    expected: ExpectView::MustExistAndMatch(state_ref@.target),
                },
            ),
            plan.config_section@ == config_section_view(self@.branch_name),
    {
        let prefix_name = get_patch_refname(self.branch_name.as_str(), "");
        let prefix = prefix_name.as_str().as_bytes_vec();
        let ghost refs = ref_views(existing@);
        proof {
            reveal_strlit("");
        }
        let mut edits: Vec<RefEdit> = Vec::new();
        let mut i: usize = 0;
        while i < existing.len()
            invariant
                i <= existing.len(),
                refs == ref_views(existing@),
                edit_views(edits@) == deletions(prefix@, refs, i as int),
            decreases existing.len() - i,
        {
            let found = &existing[i];
            let ghost before = edits@;
            if crate::reconcile::bytes_start_with(&found.name, &prefix) {
                edits.push(
                    RefEdit::Delete {
                        name: copy_bytes(&found.name),
                        expected: Expect::MustExistAndMatch(found.target.duplicate()),
                    },
                );
            }
            i += 1;
        }
        let ghost before = edits@;
        edits.push(
            RefEdit::Delete {
                name: copy_bytes(&state_ref.name),
                expected: Expect::MustExistAndMatch(state_ref.target.duplicate()),
            },
        );
        let mut config_section = String::from_str("branch.");
        config_section.append(self.branch_name.as_str());
        config_section.append(".stgit");
        Deinitialize { edits, config_section }
    }

    /// The subsection of `branch` in the configuration that belongs to this stack.
    pub fn config_subsection(&self) -> (subsection: String)
        ensures
            subsection@ == config_subsection_view(self@.branch_name),
    {
        let mut subsection = self.branch_name.clone();
        subsection.append(".stgit");
        subsection
    }

    /// Check whether the stack is marked as protected: `configured` is the
    /// value of `protect` in the section of the stack, or `None` where it is
    /// absent or no boolean.
    pub fn is_protected(&self, configured: Option<bool>) -> (protected: bool)
        ensures
            protected == (configured == Some(true)),
    {
        match configured {
            Some(value) => value,
            None => false,
        }
    }

    /// The change of the configuration that sets the stack's protected state.
    pub fn set_protected(&self, protect: bool) -> (edit: ConfigEdit)
        ensures
            match edit {
                ConfigEdit::SetProtect { subsection } => protect && subsection@
                    == config_subsection_view(self@.branch_name),
                ConfigEdit::ClearProtect { subsection } => !protect && subsection@
                    == config_subsection_view(self@.branch_name),
            },
    {
        if protect {
            ConfigEdit::SetProtect { subsection: self.config_subsection() }
        } else {
            ConfigEdit::ClearProtect { subsection: self.config_subsection() }
        }
    }

    /// Re-commit stack state with updated branch head.
    ///
    /// `prev_state_commit` is the commit that the state reference holds
    /// now. The new state has the same patches, the tip of the branch as
    /// its head and that commit as its predecessor. It is to be published
    /// under the guard that the state reference still holds that commit, so
    /// that a change made meanwhile is detected.
    pub fn log_external_mods(self, prev_state_commit: CommitId, message: Option<&str>) -> (logged: (
        Stack,
        Publish,
    ))
        requires
            self.wf(),
            self@.is_initialized,
        ensures
            logged.0.wf(),
            logged.0@ == (StackView {
                state: StateView {
                    prev: Some(prev_state_commit),
                    head: self@.branch_head,
                    ..self@.state
                },
                ..self@
            }),
            logged.1.state.wf(),
            logged.1@ == external_mods_publish(
                self@,
                prev_state_commit,
                match message {
                    Some(text) => Some(text@),
                    None => None,
                },
            ),
    {
        let state = self.state.advance_head(self.branch_head, prev_state_commit);
        let message = match message {
            Some(text) => String::from_str(text),
            None => String::from_str(
                "external modifications\n\nModifications by tools other than StGit (e.g. git).\n",
            ),
        };
        let publish = Publish {
            refname: self.stack_refname.clone(),
            expected: Expect::ExistingMustMatch(RefTarget::Direct(prev_state_commit)),
            state: state.duplicate(),
            message,
            reflog: String::from_str("external modifications"),
        };
        let stack = Stack {
            branch_name: self.branch_name,
            branch_refname: self.branch_refname,
            branch_head: self.branch_head,
            stack_refname: self.stack_refname,
            base: self.base,
            state,
            state_commit: self.state_commit,
            is_initialized: self.is_initialized,
        };
        (stack, publish)
    }

    /// Clear the stack state history: the state forgets its predecessor and
    /// is to be published again, under the guard that the state reference
    /// still holds the commit that the stack knows.
    pub fn clear_state_log(&mut self, reflog_msg: &str) -> (publish: Publish)
        requires
            old(self).wf(),
        ensures
            final(self).wf(),
            final(self)@ == (StackView {
                state: StateView { prev: None, ..old(self)@.state },
                ..old(self)@
            }),
            publish.state.wf(),
            publish@ == (PublishView {
                refname: old(self)@.stack_refname,
                expected: guard_after(old(self)@.state_commit),
                state: StateView { prev: None, ..old(self)@.state },
                message: reflog_msg@,
                reflog: reflog_msg@,
            }),
    {
        self.state.clear_prev();
        Publish {
            refname: self.stack_refname.clone(),
            expected: guard_for(self.state_commit),
            state: self.state.duplicate(),
            message: String::from_str(reflog_msg),
            reflog: String::from_str(reflog_msg),
        }
    }

    /// Start a transaction to modify the stack.
    pub fn setup_transaction(self) -> (builder: crate::transaction::TransactionBuilder)
        requires
            self.wf(),
            self@.is_initialized,
        ensures
            builder.wf(),
            builder.view() == (self@, crate::transaction::default_options()),
    {
        crate::transaction::TransactionBuilder::new(self)
    }

    /// The stack with a new state on a branch whose tip is `branch_head`.
    pub fn adopt(self, state: StackState, branch_head: CommitId) -> (stack: Stack)
        requires
            self.wf(),
            state.wf(),
        ensures
            stack.wf(),
            stack@ == (StackView { state: state@, branch_head, ..self@ }),
    {
        Stack {
            branch_name: self.branch_name,
            branch_refname: self.branch_refname,
            branch_head,
            stack_refname: self.stack_refname,
            base: self.base,
            state,
            state_commit: self.state_commit,
            is_initialized: self.is_initialized,
        }
    }

    /// Takes note that the state of the stack was published in `commit`.
    pub fn published(&mut self, commit: CommitId)
        requires
            old(self).wf(),
        ensures
            final(self).wf(),
            final(self)@ == (StackView {
                state_commit: Some(commit),
                is_initialized: true,
                ..old(self)@
            }),
    {
        self.state_commit = Some(commit);
        self.is_initialized = true;
    }

    /// Whether the stack has a published state.
    pub fn is_initialized(&self) -> (initialized: bool)
        ensures
            initialized == self@.is_initialized,
    {
        self.is_initialized
    }

    /// The commit that held the state of the stack when it was read or last
    /// published.
    pub fn state_commit(&self) -> (commit: Option<CommitId>)
        ensures
            commit == self@.state_commit,
    {
        self.state_commit
    }

    /// The state of the stack.
    pub fn state(&self) -> (state: &StackState)
        ensures
            state@ == self@.state,
            self.wf() ==> state.wf(),
    {
        &self.state
    }

    /// Check whether the stack's recorded head matches the branch's head.
    pub fn is_head_top(&self) -> (same: bool)
        ensures
            same == (self@.state.head == self@.branch_head),
    {
        self.state.head().same(&self.branch_head)
    }

    /// Return an error if patches are applied and the stack's recorded head
    /// differs from the branch's head.
    pub fn check_head_top_mismatch(&self) -> (checked: Result<(), Error>)
        ensures
            checked is Ok <==> (self@.state.applied.len() == 0 || self@.state.head
                == self@.branch_head),
            checked is Err ==> checked.unwrap_err() is HeadTopMismatch,
    {
        if self.state.applied().len() == 0 || self.is_head_top() {
            Ok(())
        } else {
            Err(Error::HeadTopMismatch)
        }
    }

    /// Get reference name for a patch.
    pub fn patch_refname(&self, patchname: &PatchName) -> (refname: String)
        ensures
            refname@ == patch_refname_view(self@.branch_name, patchname@),
    {
        self.patch_revspec(patchname.as_str())
    }

    /// Get revision specification relative to this stack's patch reference
    /// root: the namespace of the branch followed by `patch_spec`.
    pub fn patch_revspec(&self, patch_spec: &str) -> (revspec: String)
        ensures
            revspec@ == patch_refname_view(self@.branch_name, patch_spec@),
    {
        get_patch_refname(self.branch_name.as_str(), patch_spec)
    }

    /// Update the branch reference and the branch head commit.
    pub fn update_head(&mut self, branch_refname: String, commit: CommitId)
        requires
            old(self).wf(),
        ensures
            final(self).wf(),
            final(self)@ == (StackView {
                branch_refname: branch_refname@,
                branch_head: commit,
                ..old(self)@
            }),
    {
        self.branch_refname = branch_refname;
        self.branch_head = commit;
    }

    /// The short name of the branch.
    pub fn get_branch_name(&self) -> (name: &str)
        ensures
            name@ == self@.branch_name,
    {
        self.branch_name.as_str()
    }

    /// The full name of the reference of the branch.
    pub fn get_branch_refname(&self) -> (name: &str)
        ensures
            name@ == self@.branch_refname,
    {
        self.branch_refname.as_str()
    }

    /// The name of the reference that holds the state of the stack.
    pub fn get_stack_refname(&self) -> (name: &str)
        ensures
            name@ == self@.stack_refname,
    {
        self.stack_refname.as_str()
    }

    /// The commit at the tip of the branch.
    pub fn get_branch_head(&self) -> (head: CommitId)
        ensures
            head == self@.branch_head,
    {
        self.branch_head
    }

    /// The commit below the first applied patch.
    pub fn base(&self) -> (base: CommitId)
        ensures
            base == self@.base,
    {
        self.base
    }

    /// The applied patches, bottom first.
    pub fn applied(&self) -> (names: &Vec<PatchName>)
        ensures
            names_of(names@) == self@.state.applied,
            self.wf() ==> all_wf(names@),
    {
        self.state.applied()
    }

    /// The unapplied patches.
    pub fn unapplied(&self) -> (names: &Vec<PatchName>)
        ensures
            names_of(names@) == self@.state.unapplied,
            self.wf() ==> all_wf(names@),
    {
        self.state.unapplied()
    }

    /// The hidden patches.
    pub fn hidden(&self) -> (names: &Vec<PatchName>)
        ensures
            names_of(names@) == self@.state.hidden,
            self.wf() ==> all_wf(names@),
    {
        self.state.hidden()
    }

    /// The patch of this name, if the stack holds one.
    pub fn get_patch(&self, patchname: &PatchName) -> (patch: Option<PatchState>)
        requires
            self.wf(),
        ensures
            match patch {
                Some(state) => self@.state.patch_map().contains_key(patchname@)
                    && self@.state.patch_map()[patchname@] == state,
                None => !self@.state.patch_map().contains_key(patchname@),
            },
    {
        self.state.get_patch(patchname)
    }

    /// Whether the stack holds a patch of this name.
    pub fn has_patch(&self, patchname: &PatchName) -> (held: bool)
        ensures
            held == self@.state.patch_map().contains_key(patchname@),
    {
        self.state.has_patch(patchname)
    }

    /// The commit on top of the stack.
    pub fn top(&self) -> (top: CommitId)
        requires
            self.wf(),
        ensures
            top == match self@.state.top() {
                Some(commit) => commit,
                None => self@.state.head,
            },
    {
        self.state.top()
    }

    /// The tip of the branch as the state recorded it.
    pub fn head(&self) -> (head: CommitId)
        ensures
            head == self@.state.head,
    {
        self.state.head()
    }
}

} // verus!
