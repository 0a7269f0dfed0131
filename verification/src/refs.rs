//! References of the store, and the guarded edits that change them.
//!
//! The store itself is not part of this crate. What is here is the plain
//! description of a reference as it was read, of an edit that the caller is
//! to carry out, and the meaning of such an edit: it is applied only if the
//! reference still has the value that the edit expects.

use crate::oid::CommitId;
use vstd::prelude::*;

verus! {

/// The value of a reference.
#[derive(Clone, Debug, PartialEq, Eq)]
pub enum RefTarget {
    /// The reference holds the id of an object.
    Direct(CommitId),
    /// The reference holds the name of another reference.
    Symbolic(Vec<u8>),
}

/// The mathematical value of a [`RefTarget`].
pub enum TargetView {
    Direct(CommitId),
    Symbolic(Seq<u8>),
}

impl View for RefTarget {
    type V = TargetView;

    open spec fn view(&self) -> TargetView {
        match self {
            RefTarget::Direct(id) => TargetView::Direct(*id),
            RefTarget::Symbolic(name) => TargetView::Symbolic(name@),
        }
    }
}

/// Whether two byte strings are the same.
pub fn same_bytes(a: &Vec<u8>, b: &Vec<u8>) -> (equal: bool)
    ensures
        equal == (a@ == b@),
{
    if a.len() != b.len() {
        return false;
    }
    let mut i: usize = 0;
    while i < a.len()
        invariant
            i <= a.len(),
            a.len() == b.len(),
            forall|j: int| 0 <= j < i ==> a@[j] == b@[j],
        decreases a.len() - i,
    {
        if a[i] != b[i] {
            return false;
        }
        i += 1;
    }
    assert(a@ =~= b@);
    true
}

/// A copy of a byte string.
pub fn copy_bytes(src: &Vec<u8>) -> (copy: Vec<u8>)
    ensures
        copy@ == src@,
{
    let mut copy: Vec<u8> = Vec::new();
    let mut i: usize = 0;
    while i < src.len()
        invariant
            i <= src.len(),
            copy@ == src@.take(i as int),
        decreases src.len() - i,
    {
        copy.push(src[i]);
        i += 1;
    }
    copy
}

impl RefTarget {
    /// Whether two targets are the same.
    pub fn same(&self, other: &RefTarget) -> (equal: bool)
        ensures
            equal == (self@ == other@),
    {
        match self {
            RefTarget::Direct(a) => match other {
                RefTarget::Direct(b) => a.same(b),
                RefTarget::Symbolic(_) => false,
            },
            RefTarget::Symbolic(a) => match other {
                RefTarget::Direct(_) => false,
                RefTarget::Symbolic(b) => same_bytes(a, b),
            },
        }
    }

    /// A copy of the target.
    pub fn duplicate(&self) -> (copy: RefTarget)
        ensures
            copy@ == self@,
    {
        match self {
            RefTarget::Direct(id) => RefTarget::Direct(*id),
            RefTarget::Symbolic(name) => RefTarget::Symbolic(copy_bytes(name)),
        }
    }
}

/// A reference as it was found in the store.
#[derive(Clone, Debug, PartialEq, Eq)]
pub struct ExistingRef {
    /// The full name of the reference.
    pub name: Vec<u8>,
    /// What the reference held when it was read.
    pub target: RefTarget,
}

/// The mathematical value of an [`ExistingRef`].
pub struct RefView {
    pub name: Seq<u8>,
    pub target: TargetView,
}

impl View for ExistingRef {
    type V = RefView;

    open spec fn view(&self) -> RefView {
        RefView { name: self.name@, target: self.target@ }
    }
}

/// The views of a sequence of references.
pub open spec fn ref_views(refs: Seq<ExistingRef>) -> Seq<RefView> {
    Seq::new(refs.len(), |i: int| refs[i]@)
}

/// What an edit expects of the reference before it is changed.
#[derive(Clone, Debug, PartialEq, Eq)]
pub enum Expect {
    /// The reference does not exist.
    MustNotExist,
    /// The reference exists and holds this value.
    MustExistAndMatch(RefTarget),
    /// The reference holds this value, if it exists.
    ExistingMustMatch(RefTarget),
}

/// The mathematical value of an [`Expect`].
pub enum ExpectView {
    MustNotExist,
    MustExistAndMatch(TargetView),
    ExistingMustMatch(TargetView),
}

impl View for Expect {
    type V = ExpectView;

    open spec fn view(&self) -> ExpectView {
        match self {
            Expect::MustNotExist => ExpectView::MustNotExist,
            Expect::MustExistAndMatch(t) => ExpectView::MustExistAndMatch(t@),
            Expect::ExistingMustMatch(t) => ExpectView::ExistingMustMatch(t@),
        }
    }
}

/// Whether a reference with the value `current`, or none where it does not
/// exist, is as `expected`.
pub open spec fn admits(expected: ExpectView, current: Option<TargetView>) -> bool {
    match expected {
        ExpectView::MustNotExist => current is None,
        ExpectView::MustExistAndMatch(t) => current == Some(t),
        ExpectView::ExistingMustMatch(t) => current is None || current == Some(t),
    }
}

impl Expect {
    /// Whether a reference with the value `current`, or none where it does
    /// not exist, is as expected.
    pub fn admits(&self, current: Option<&RefTarget>) -> (admitted: bool)
        ensures
            admitted == admits(
                self@,
                match current {
                    Some(t) => Some(t@),
                    None => None,
                },
            ),
    {
        match self {
            Expect::MustNotExist => current.is_none(),
            Expect::MustExistAndMatch(t) => match current {
                Some(c) => c.same(t),
                None => false,
            },
            Expect::ExistingMustMatch(t) => match current {
                Some(c) => c.same(t),
                None => true,
            },
        }
    }
}

/// One guarded change of one reference, for the caller to carry out.
#[derive(Clone, Debug, PartialEq, Eq)]
pub enum RefEdit {
    /// Make the reference hold the id `new`.
    Update { name: Vec<u8>, expected: Expect, new: CommitId, log: String },
    /// Remove the reference.
    Delete { name: Vec<u8>, expected: Expect },
}

/// The mathematical value of a [`RefEdit`].
pub enum EditView {
    Update { name: Seq<u8>, expected: ExpectView, new: CommitId, log: Seq<char> },
    Delete { name: Seq<u8>, expected: ExpectView },
}

impl View for RefEdit {
    type V = EditView;

    open spec fn view(&self) -> EditView {
        match self {
            RefEdit::Update { name, expected, new, log } => EditView::Update {
                name: name@,
                expected: expected@,
                new: *new,
                log: log@,
            },
            RefEdit::Delete { name, expected } => EditView::Delete {
                name: name@,
                expected: expected@,
            },
        }
    }
}

/// The views of a sequence of edits.
pub open spec fn edit_views(edits: Seq<RefEdit>) -> Seq<EditView> {
    Seq::new(edits.len(), |i: int| edits[i]@)
}

/// The references of a store: each name with what it holds.
pub type RefMap = Map<Seq<u8>, TargetView>;

impl EditView {
    /// The reference that the edit changes.
    pub open spec fn name(self) -> Seq<u8> {
        match self {
            EditView::Update { name, .. } => name,
            EditView::Delete { name, .. } => name,
        }
    }

    /// What the edit expects of the reference.
    pub open spec fn expected(self) -> ExpectView {
        match self {
            EditView::Update { expected, .. } => expected,
            EditView::Delete { expected, .. } => expected,
        }
    }

    /// Whether the store lets the edit pass.
    pub open spec fn admitted(self, store: RefMap) -> bool {
        admits(
            self.expected(),
            if store.contains_key(self.name()) {
                Some(store[self.name()])
            } else {
                None
            },
        )
    }

    /// The store after the edit: changed where the edit is admitted, and
    /// as it was where it is not.
    pub open spec fn apply(self, store: RefMap) -> RefMap {
        if !self.admitted(store) {
            store
        } else {
            match self {
                EditView::Update { name, new, .. } => store.insert(name, TargetView::Direct(new)),
                EditView::Delete { name, .. } => store.remove(name),
            }
        }
    }
}

/// The store after a sequence of edits, each applied in turn.
pub open spec fn apply_all(store: RefMap, edits: Seq<EditView>) -> RefMap
    decreases edits.len(),
{
    if edits.len() == 0 {
        store
    } else {
        edits.last().apply(apply_all(store, edits.drop_last()))
    }
}

} // verus!
