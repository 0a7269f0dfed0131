//! The snapshot of a stack: which patches it holds and in which order.

use crate::oid::CommitId;
use crate::patchname::{valid_name, PatchName};
use vstd::prelude::*;

pub mod codec;

verus! {

/// What a stack records of one patch: the commit that holds its changes.
#[derive(Clone, Copy, Debug, PartialEq, Eq)]
pub struct PatchState {
    pub commit: CommitId,
}

/// One row of the table of patches.
#[derive(Clone, Debug, PartialEq, Eq)]
pub struct PatchEntry {
    pub name: PatchName,
    pub state: PatchState,
}

/// Why lists of names and a table of patches make no stack state.
#[derive(Clone, Copy, Debug, PartialEq, Eq, Structural)]
pub enum StateError {
    /// A name stands twice in the lists, or twice in the table.
    DuplicateName,
    /// A listed name has no row in the table.
    DanglingName,
    /// A row of the table belongs to no list.
    UnlistedPatch,
}

/// The names of a sequence of patch names.
pub open spec fn names_of(names: Seq<PatchName>) -> Seq<Seq<char>> {
    Seq::new(names.len(), |i: int| names[i]@)
}

/// The names of the rows of a table.
pub open spec fn keys_of(patches: Seq<PatchEntry>) -> Seq<Seq<char>> {
    Seq::new(patches.len(), |i: int| patches[i].name@)
}

/// The rows of a table as pairs of a name and a patch.
pub open spec fn rows_of(patches: Seq<PatchEntry>) -> Seq<(Seq<char>, PatchState)> {
    Seq::new(patches.len(), |i: int| (patches[i].name@, patches[i].state))
}

/// The names of rows given as pairs.
pub open spec fn row_names(rows: Seq<(Seq<char>, PatchState)>) -> Seq<Seq<char>> {
    Seq::new(rows.len(), |i: int| rows[i].0)
}

/// The mathematical value of a stack state.
pub struct StateView {
    /// The state before this one in the log of the stack.
    pub prev: Option<CommitId>,
    /// The tip of the branch when the state was recorded.
    pub head: CommitId,
    /// The applied patches, bottom first.
    pub applied: Seq<Seq<char>>,
    /// The unapplied patches, next to be pushed first.
    pub unapplied: Seq<Seq<char>>,
    /// The hidden patches.
    pub hidden: Seq<Seq<char>>,
    /// The table of patches: each name with its patch.
    pub patches: Seq<(Seq<char>, PatchState)>,
}

impl StateView {
    /// All listed names: applied, then unapplied, then hidden.
    pub open spec fn listed(self) -> Seq<Seq<char>> {
        self.applied + self.unapplied + self.hidden
    }

    /// The names of the table.
    pub open spec fn keys(self) -> Seq<Seq<char>> {
        row_names(self.patches)
    }

    /// The table as a map from names to patches.
    pub open spec fn patch_map(self) -> Map<Seq<char>, PatchState> {
        Map::new(
            |name: Seq<char>| self.keys().contains(name),
            |name: Seq<char>| self.patches[self.keys().index_of(name)].1,
        )
    }

    /// The commit on top of the applied patches, if any patch is applied.
    pub open spec fn top(self) -> Option<CommitId> {
        if self.applied.len() > 0 {
            Some(self.patch_map()[self.applied.last()].commit)
        } else {
            None
        }
    }
}

/// The first fault of lists and a table, if they have one: a name that
/// stands twice, then a listed name without a row, then a row without a
/// listed name.
pub open spec fn parts_defect(listed: Seq<Seq<char>>, keys: Seq<Seq<char>>) -> Option<StateError> {
    if !listed.no_duplicates() || !keys.no_duplicates() {
        Some(StateError::DuplicateName)
    } else if exists|i: int| 0 <= i < listed.len() && !keys.contains(#[trigger] listed[i]) {
        Some(StateError::DanglingName)
    } else if exists|i: int| 0 <= i < keys.len() && !listed.contains(#[trigger] keys[i]) {
        Some(StateError::UnlistedPatch)
    } else {
        None
    }
}

/// The invariant of a stack state: no name is listed twice, in one list or
/// in two; the table has one row for each listed name and no other; every
/// name is a valid patch name.
pub open spec fn consistent(v: StateView) -> bool {
    &&& parts_defect(v.listed(), v.keys()) is None
    &&& forall|i: int| 0 <= i < v.listed().len() ==> valid_name(#[trigger] v.listed()[i])
}

/// In a consistent state no name stands in two of the three lists, and
/// every listed name has its patch in the table.
pub proof fn lemma_lists_disjoint_and_covered(v: StateView, name: Seq<char>)
    requires
        consistent(v),
    ensures
        !(v.applied.contains(name) && v.unapplied.contains(name)),
        !(v.applied.contains(name) && v.hidden.contains(name)),
        !(v.unapplied.contains(name) && v.hidden.contains(name)),
        v.listed().contains(name) ==> v.patch_map().contains_key(name),
        v.patch_map().contains_key(name) ==> v.listed().contains(name),
{
    let listed = v.listed();
    let a = v.applied.len() as int;
    let u = v.unapplied.len() as int;
    if v.applied.contains(name) {
        let i = choose|i: int| 0 <= i < v.applied.len() && v.applied[i] == name;
        assert(listed[i] == name);
        if v.unapplied.contains(name) {
            let j = choose|j: int| 0 <= j < v.unapplied.len() && v.unapplied[j] == name;
            assert(listed[a + j] == name);
        }
        if v.hidden.contains(name) {
            let j = choose|j: int| 0 <= j < v.hidden.len() && v.hidden[j] == name;
            assert(listed[a + u + j] == name);
        }
    }
    if v.unapplied.contains(name) && v.hidden.contains(name) {
        let i = choose|i: int| 0 <= i < v.unapplied.len() && v.unapplied[i] == name;
        let j = choose|j: int| 0 <= j < v.hidden.len() && v.hidden[j] == name;
        assert(listed[a + i] == name);
        assert(listed[a + u + j] == name);
    }
    if listed.contains(name) {
        let i = choose|i: int| 0 <= i < listed.len() && listed[i] == name;
    }
    if v.patch_map().contains_key(name) {
        let k = choose|k: int| 0 <= k < v.keys().len() && v.keys()[k] == name;
    }
}

/// Position of the first name equal to `name`.
pub fn position(names: &Vec<PatchName>, name: &PatchName) -> (found: Option<usize>)
    ensures
        match found {
            Some(i) => i < names.len() && names@[i as int]@ == name@ && forall|j: int|
                0 <= j < i ==> (#[trigger] names@[j])@ != name@,
            None => !names_of(names@).contains(name@),
        },
{
    let mut i: usize = 0;
    while i < names.len()
        invariant
            i <= names.len(),
            forall|j: int| 0 <= j < i ==> (#[trigger] names@[j])@ != name@,
        decreases names.len() - i,
    {
        if names[i].same(name) {
            return Some(i);
        }
        i += 1;
    }
    proof {
        let all = names_of(names@);
        if all.contains(name@) {
            let j = choose|j: int| 0 <= j < all.len() && all[j] == name@;
        }
    }
    None
}

/// Position of the first row whose name is `name`.
pub fn row_position(patches: &Vec<PatchEntry>, name: &PatchName) -> (found: Option<usize>)
    ensures
        match found {
            Some(i) => i < patches.len() && patches@[i as int].name@ == name@ && forall|j: int|
                0 <= j < i ==> (#[trigger] patches@[j]).name@ != name@,
            None => !keys_of(patches@).contains(name@),
        },
{
    let mut i: usize = 0;
    while i < patches.len()
        invariant
            i <= patches.len(),
            forall|j: int| 0 <= j < i ==> (#[trigger] patches@[j]).name@ != name@,
        decreases patches.len() - i,
    {
        if patches[i].name.same(name) {
            return Some(i);
        }
        i += 1;
    }
    proof {
        let all = keys_of(patches@);
        if all.contains(name@) {
            let j = choose|j: int| 0 <= j < all.len() && all[j] == name@;
        }
    }
    None
}

/// Whether every name of the sequence is a valid patch name.
pub open spec fn all_wf(names: Seq<PatchName>) -> bool {
    forall|i: int| 0 <= i < names.len() ==> (#[trigger] names[i]).wf()
}

/// Whether every row of the table has a valid patch name.
pub open spec fn rows_wf(patches: Seq<PatchEntry>) -> bool {
    forall|i: int| 0 <= i < patches.len() ==> (#[trigger] patches[i]).name.wf()
}

/// Appends copies of the names of `src`.
pub fn append_names(out: &mut Vec<PatchName>, src: &Vec<PatchName>)
    ensures
        names_of(final(out)@) == names_of(old(out)@) + names_of(src@),
        final(out)@.len() == old(out)@.len() + src@.len(),
        all_wf(old(out)@) && all_wf(src@) ==> all_wf(final(out)@),
{
    let mut i: usize = 0;
    while i < src.len()
        invariant
            i <= src.len(),
            out@.len() == old(out)@.len() + i,
            names_of(out@) == names_of(old(out)@) + names_of(src@.take(i as int)),
            all_wf(old(out)@) && all_wf(src@) ==> all_wf(out@),
        decreases src.len() - i,
    {
        let ghost before = out@;
        out.push(src[i].duplicate());
        proof {
            assert(names_of(out@) =~= names_of(before).push(src@[i as int]@));
            assert(names_of(src@.take(i + 1)) =~= names_of(src@.take(i as int)).push(
                src@[i as int]@,
            ));
        }
        i += 1;
    }
}

/// Copies of the given names.
pub fn copy_names(src: &Vec<PatchName>) -> (copy: Vec<PatchName>)
    ensures
        names_of(copy@) == names_of(src@),
        copy@.len() == src@.len(),
        all_wf(src@) ==> all_wf(copy@),
{
    let mut copy: Vec<PatchName> = Vec::new();
    append_names(&mut copy, src);
    copy
}

/// Copies of the rows of a table.
pub fn copy_rows(src: &Vec<PatchEntry>) -> (copy: Vec<PatchEntry>)
    ensures
        rows_of(copy@) == rows_of(src@),
        copy@.len() == src@.len(),
        rows_wf(src@) ==> rows_wf(copy@),
{
    let mut copy: Vec<PatchEntry> = Vec::new();
    let mut i: usize = 0;
    while i < src.len()
        invariant
            i <= src.len(),
            copy@.len() == i,
            forall|j: int| 0 <= j < i ==> (#[trigger] copy@[j]).name@ == src@[j].name@ && copy@[j].state == src@[j].state,
            rows_wf(src@) ==> rows_wf(copy@),
        decreases src.len() - i,
    {
        copy.push(PatchEntry { name: src[i].name.duplicate(), state: src[i].state });
        i += 1;
    }
    copy
}

/// The names of the rows of a table, copied.
pub fn key_names(patches: &Vec<PatchEntry>) -> (keys: Vec<PatchName>)
    ensures
        names_of(keys@) == keys_of(patches@),
        keys@.len() == patches@.len(),
{
    let mut keys: Vec<PatchName> = Vec::new();
    let mut i: usize = 0;
    while i < patches.len()
        invariant
            i <= patches.len(),
            keys@.len() == i,
            forall|j: int| 0 <= j < i ==> (#[trigger] keys@[j])@ == patches@[j].name@,
        decreases patches.len() - i,
    {
        keys.push(patches[i].name.duplicate());
        i += 1;
    }
    keys
}

/// Whether some name stands twice among `names`.
pub fn has_duplicates(names: &Vec<PatchName>) -> (found: bool)
    ensures
        found == !names_of(names@).no_duplicates(),
{
    let ghost all = names_of(names@);
    let mut i: usize = 0;
    while i < names.len()
        invariant
            i <= names.len(),
            all == names_of(names@),
            forall|a: int, b: int| 0 <= a < i && 0 <= b < a ==> all[a] != all[b],
        decreases names.len() - i,
    {
        let mut j: usize = 0;
        while j < i
            invariant
                j <= i < names.len(),
                all == names_of(names@),
                forall|b: int| 0 <= b < j ==> all[i as int] != all[b],
            decreases i - j,
        {
            if names[i].same(&names[j]) {
                assert(all[i as int] == all[j as int]);
                return true;
            }
            j += 1;
        }
        i += 1;
    }
    false
}

/// Whether every name of `names` is among `among`.
pub fn all_among(names: &Vec<PatchName>, among: &Vec<PatchName>) -> (all: bool)
    ensures
        all == !(exists|i: int|
            0 <= i < names_of(names@).len() && !names_of(among@).contains(
                #[trigger] names_of(names@)[i],
            )),
{
    let mut i: usize = 0;
    while i < names.len()
        invariant
            i <= names.len(),
            forall|j: int|
                0 <= j < i ==> names_of(among@).contains(#[trigger] names_of(names@)[j]),
        decreases names.len() - i,
    {
        match position(among, &names[i]) {
            Some(_) => {},
            None => {
                assert(!names_of(among@).contains(names_of(names@)[i as int]));
                return false;
            },
        }
        proof {
            let k = choose|k: int| 0 <= k < among@.len() && (#[trigger] among@[k])@ == names@[i as int]@;
            assert(names_of(among@)[k] == names_of(names@)[i as int]);
        }
        i += 1;
    }
    true
}

/// Checks lists of names and a table of patches against the invariant of a
/// stack state.
pub fn check_parts(
    applied: &Vec<PatchName>,
    unapplied: &Vec<PatchName>,
    hidden: &Vec<PatchName>,
    patches: &Vec<PatchEntry>,
) -> (checked: Result<(), StateError>)
    ensures
        match parts_defect(
            names_of(applied@) + names_of(unapplied@) + names_of(hidden@),
            keys_of(patches@),
        ) {
            Some(defect) => checked == Err::<(), StateError>(defect),
            None => checked is Ok,
        },
{
    let mut listed: Vec<PatchName> = Vec::new();
    append_names(&mut listed, applied);
    append_names(&mut listed, unapplied);
    append_names(&mut listed, hidden);
    let keys = key_names(patches);
    if has_duplicates(&listed) || has_duplicates(&keys) {
        return Err(StateError::DuplicateName);
    }
    if !all_among(&listed, &keys) {
        return Err(StateError::DanglingName);
    }
    if !all_among(&keys, &listed) {
        return Err(StateError::UnlistedPatch);
    }
    Ok(())
}

/// One snapshot of a stack.
#[derive(Clone, Debug, PartialEq, Eq)]
pub struct StackState {
    prev: Option<CommitId>,
    head: CommitId,
    applied: Vec<PatchName>,
    unapplied: Vec<PatchName>,
    hidden: Vec<PatchName>,
    patches: Vec<PatchEntry>,
}

impl View for StackState {
    type V = StateView;

    closed spec fn view(&self) -> StateView {
        StateView {
            prev: self.prev,
            head: self.head,
            applied: names_of(self.applied@),
            unapplied: names_of(self.unapplied@),
            hidden: names_of(self.hidden@),
            patches: rows_of(self.patches@),
        }
    }
}

impl StackState {
    /// What holds of every stack state: its value is [`consistent`].
    pub closed spec fn wf(&self) -> bool {
        &&& consistent(self@)
        &&& all_wf(self.applied@)
        &&& all_wf(self.unapplied@)
        &&& all_wf(self.hidden@)
        &&& rows_wf(self.patches@)
    }

    /// A state that is well formed has a consistent value.
    pub broadcast proof fn lemma_wf(&self)
        requires
            #[trigger] self.wf(),
        ensures
            consistent(self@),
    {
    }

    /// The state of a stack without patches on a branch whose tip is `head`.
    pub fn new(head: CommitId) -> (state: StackState)
        ensures
            state.wf(),
            state@ == (StateView {
                prev: None,
                head,
                applied: Seq::empty(),
                unapplied: Seq::empty(),
                hidden: Seq::empty(),
                patches: Seq::empty(),
            }),
    {
        let state = StackState {
            prev: None,
            head,
            applied: Vec::new(),
            unapplied: Vec::new(),
            hidden: Vec::new(),
            patches: Vec::new(),
        };
        proof {
            assert(state@.applied =~= Seq::empty());
            assert(state@.patches =~= Seq::empty());
        }
        state
    }

    /// Makes a state of its parts, which must obey the invariant.
    pub fn from_parts(
        prev: Option<CommitId>,
        head: CommitId,
        applied: Vec<PatchName>,
        unapplied: Vec<PatchName>,
        hidden: Vec<PatchName>,
        patches: Vec<PatchEntry>,
    ) -> (made: Result<StackState, StateError>)
        requires
            all_wf(applied@),
            all_wf(unapplied@),
            all_wf(hidden@),
            rows_wf(patches@),
        ensures
            match parts_defect(
                names_of(applied@) + names_of(unapplied@) + names_of(hidden@),
                keys_of(patches@),
            ) {
                Some(defect) => made == Err::<StackState, StateError>(defect),
                None => made is Ok && made.unwrap().wf() && made.unwrap()@ == (StateView {
                    prev,
                    head,
                    applied: names_of(applied@),
                    unapplied: names_of(unapplied@),
                    hidden: names_of(hidden@),
                    patches: rows_of(patches@),
                }),
            },
    {
        match check_parts(&applied, &unapplied, &hidden, &patches) {
            Err(defect) => Err(defect),
            Ok(()) => {
                let state = StackState { prev, head, applied, unapplied, hidden, patches };
                proof {
                    assert(state@.keys() =~= keys_of(patches@));
                    let listed = state@.listed();
                    assert forall|i: int| 0 <= i < listed.len() implies valid_name(
                        #[trigger] listed[i],
                    ) by {
                        let a = applied@.len() as int;
                        let u = unapplied@.len() as int;
                    }
                }
                Ok(state)
            },
        }
    }

    /// The same patches on a branch whose tip has moved: the head is
    /// replaced and the state that was current becomes the previous one.
    pub fn advance_head(self, new_head: CommitId, prev_state_commit: CommitId) -> (state: StackState)
        requires
            self.wf(),
        ensures
            state.wf(),
            state@ == (StateView { prev: Some(prev_state_commit), head: new_head, ..self@ }),
    {
        StackState {
            prev: Some(prev_state_commit),
            head: new_head,
            applied: self.applied,
            unapplied: self.unapplied,
            hidden: self.hidden,
            patches: self.patches,
        }
    }

    /// Forgets the previous state: the log of the stack starts anew here.
    pub fn clear_prev(&mut self)
        requires
            old(self).wf(),
        ensures
            final(self).wf(),
            final(self)@ == (StateView { prev: None, ..old(self)@ }),
    {
        self.prev = None;
    }

    /// A copy of the state.
    pub fn duplicate(&self) -> (copy: StackState)
        requires
            self.wf(),
        ensures
            copy.wf(),
            copy@ == self@,
    {
        let copy = StackState {
            prev: self.prev,
            head: self.head,
            applied: copy_names(&self.applied),
            unapplied: copy_names(&self.unapplied),
            hidden: copy_names(&self.hidden),
            patches: copy_rows(&self.patches),
        };
        copy
    }

    /// The state before this one in the log of the stack.
    pub fn prev(&self) -> (prev: Option<CommitId>)
        ensures
            prev == self@.prev,
    {
        self.prev
    }

    /// The tip of the branch when the state was recorded.
    pub fn head(&self) -> (head: CommitId)
        ensures
            head == self@.head,
    {
        self.head
    }

    /// The applied patches, bottom first.
    pub fn applied(&self) -> (names: &Vec<PatchName>)
        ensures
            names_of(names@) == self@.applied,
            self.wf() ==> all_wf(names@),
    {
        &self.applied
    }

    /// The unapplied patches.
    pub fn unapplied(&self) -> (names: &Vec<PatchName>)
        ensures
            names_of(names@) == self@.unapplied,
            self.wf() ==> all_wf(names@),
    {
        &self.unapplied
    }

    /// The hidden patches.
    pub fn hidden(&self) -> (names: &Vec<PatchName>)
        ensures
            names_of(names@) == self@.hidden,
            self.wf() ==> all_wf(names@),
    {
        &self.hidden
    }

    /// The table of patches.
    pub fn patches(&self) -> (rows: &Vec<PatchEntry>)
        ensures
            rows_of(rows@) == self@.patches,
            self.wf() ==> rows_wf(rows@),
    {
        &self.patches
    }

    /// Whether the stack holds a patch of this name.
    pub fn has_patch(&self, name: &PatchName) -> (held: bool)
        ensures
            held == self@.keys().contains(name@),
            held == self@.patch_map().contains_key(name@),
    {
        assert(self@.keys() =~= keys_of(self.patches@));
        match row_position(&self.patches, name) {
            Some(i) => {
                assert(self@.keys()[i as int] == name@);
                true
            },
            None => false,
        }
    }

    /// The patch of this name, if the stack holds one.
    pub fn get_patch(&self, name: &PatchName) -> (patch: Option<PatchState>)
        requires
            self.wf(),
        ensures
            match patch {
                Some(state) => self@.patch_map().contains_key(name@) && self@.patch_map()[name@]
                    == state,
                None => !self@.patch_map().contains_key(name@),
            },
    {
        assert(self@.keys() =~= keys_of(self.patches@));
        match row_position(&self.patches, name) {
            Some(i) => {
                proof {
                    let keys = self@.keys();
                    assert(keys[i as int] == name@);
                    let k = keys.index_of(name@);
                }
                Some(self.patches[i].state)
            },
            None => None,
        }
    }

    /// The commit on top of the stack: that of the last applied patch, or
    /// the recorded head where no patch is applied.
    pub fn top(&self) -> (top: CommitId)
        requires
            self.wf(),
        ensures
            top == match self@.top() {
                Some(commit) => commit,
                None => self@.head,
            },
    {
        let n = self.applied.len();
        if n == 0 {
            self.head
        } else {
            proof {
                let listed = self@.listed();
                assert(listed[n - 1] == self@.applied.last());
            }
            match self.get_patch(&self.applied[n - 1]) {
                Some(state) => state.commit,
                None => self.head,
            }
        }
    }
}

} // verus!
