//! Workspace state: update positions, failures, and the state machine's states.
use vstd::prelude::*;
use vstd::string::StrSliceExecFns;

use crate::metadata::opt_name;
use crate::names::{CleanName, CleanPath};

verus! {

/// A position in a package: an operation and a byte within it.
#[derive(Debug, Clone, Copy, PartialEq, Eq, Structural)]
pub struct UpdatePosition {
    pub operation_idx: usize,
    pub byte_idx: u64,
}

/// Lexicographic order on positions.
pub open spec fn pos_le(a: UpdatePosition, b: UpdatePosition) -> bool {
    a.operation_idx < b.operation_idx || (a.operation_idx == b.operation_idx && a.byte_idx
        <= b.byte_idx)
}

/// The start of a package.
pub open spec fn start_position() -> UpdatePosition {
    UpdatePosition { operation_idx: 0, byte_idx: 0 }
}

impl UpdatePosition {
    /// The start of a package.
    pub fn new() -> (r: UpdatePosition)
        ensures
            r.operation_idx == 0,
            r.byte_idx == 0,
    {
        UpdatePosition { operation_idx: 0, byte_idx: 0 }
    }

    /// `self` comes no later than `other`.
    pub fn le(&self, other: &UpdatePosition) -> (r: bool)
        ensures
            r == pos_le(*self, *other),
    {
        self.operation_idx < other.operation_idx || (self.operation_idx == other.operation_idx
            && self.byte_idx <= other.byte_idx)
    }
}

/// Lexicographic order on strings, by code point.
pub open spec fn str_lt(a: Seq<char>, b: Seq<char>) -> bool
    decreases a.len(),
{
    if a.len() == 0 {
        b.len() > 0
    } else if b.len() == 0 {
        false
    } else if a[0] != b[0] {
        a[0] < b[0]
    } else {
        str_lt(a.drop_first(), b.drop_first())
    }
}

pub proof fn lemma_str_lt_total(a: Seq<char>, b: Seq<char>)
    requires
        a != b,
    ensures
        str_lt(a, b) || str_lt(b, a),
    decreases a.len(),
{
    if a.len() > 0 && b.len() > 0 && a[0] == b[0] {
        if a.drop_first() == b.drop_first() {
            assert(a =~= seq![a[0]] + a.drop_first());
            assert(b =~= seq![b[0]] + b.drop_first());
        }
        lemma_str_lt_total(a.drop_first(), b.drop_first());
    } else if a.len() > 0 && b.len() > 0 {
        assert(a[0] != b[0]);
    } else if a.len() == 0 && b.len() == 0 {
        assert(a =~= b);
    }
}

pub proof fn lemma_str_lt_irreflexive(a: Seq<char>)
    ensures
        !str_lt(a, a),
    decreases a.len(),
{
    if a.len() > 0 {
        lemma_str_lt_irreflexive(a.drop_first());
    }
}

/// `str_lt` is transitive.
pub proof fn lemma_str_lt_transitive(a: Seq<char>, b: Seq<char>, c: Seq<char>)
    requires
        str_lt(a, b),
        str_lt(b, c),
    ensures
        str_lt(a, c),
    decreases a.len(),
{
    if a.len() > 0 && b.len() > 0 && c.len() > 0 && a[0] == b[0] && b[0] == c[0] {
        lemma_str_lt_transitive(a.drop_first(), b.drop_first(), c.drop_first());
    }
}

/// `str_lt` never holds both ways.
pub proof fn lemma_str_lt_asymmetric(a: Seq<char>, b: Seq<char>)
    requires
        str_lt(a, b),
    ensures
        !str_lt(b, a),
        a != b,
{
    lemma_str_lt_irreflexive(a);
    if str_lt(b, a) {
        lemma_str_lt_transitive(a, b, a);
    }
}

/// Compares two strings by code points.
pub fn str_less(a: &str, b: &str) -> (r: bool)
    ensures
        r == str_lt(a@, b@),
    decreases a@.len(),
{
    let n = a.unicode_len();
    let m = b.unicode_len();
    if n == 0 {
        return m > 0;
    }
    if m == 0 {
        return false;
    }
    let x = a.get_char(0);
    let y = b.get_char(0);
    if x != y {
        return x < y;
    }
    let ra = a.substring_char(1, n);
    let rb = b.substring_char(1, m);
    assert(ra@ =~= a@.drop_first());
    assert(rb@ =~= b@.drop_first());
    str_less(ra, rb)
}

/// A file (or a slice of a file) that failed to update or to check.
#[derive(Debug)]
pub enum Failure {
    Path { path: CleanPath },
    Slice { path: CleanPath, slice: CleanPath },
}

/// What identifies a failure: its path and its slice.
pub type FailureKey = (Seq<char>, Option<Seq<char>>);

/// Order on failures: by path, then by slice (no slice first).
pub open spec fn key_lt(a: FailureKey, b: FailureKey) -> bool {
    str_lt(a.0, b.0) || (a.0 == b.0 && match (a.1, b.1) {
        (None, Some(_)) => true,
        (Some(x), Some(y)) => str_lt(x, y),
        _ => false,
    })
}

proof fn lemma_key_lt_total(a: FailureKey, b: FailureKey)
    requires
        a != b,
    ensures
        key_lt(a, b) || key_lt(b, a),
{
    if a.0 != b.0 {
        lemma_str_lt_total(a.0, b.0);
    } else {
        match (a.1, b.1) {
            (Some(x), Some(y)) => {
                lemma_str_lt_total(x, y);
            },
            _ => {},
        }
    }
}

/// Keys of a list of failures.
pub open spec fn failure_keys(v: Seq<Failure>) -> Seq<FailureKey> {
    v.map_values(|f: Failure| f.key())
}

/// A list of failures sorted by key, each key once.
pub open spec fn sorted_unique(v: Seq<FailureKey>) -> bool {
    forall|i: int| 0 < i < v.len() ==> key_lt(v[i - 1], #[trigger] v[i])
}

impl Failure {
    pub open spec fn key(&self) -> FailureKey {
        match self {
            Failure::Path { path } => (path@, None),
            Failure::Slice { path, slice } => (path@, Some(slice@)),
        }
    }

    pub fn path(&self) -> (r: &CleanPath)
        ensures
            r@ == self.key().0,
    {
        match self {
            Failure::Path { path } => path,
            Failure::Slice { path, .. } => path,
        }
    }

    pub fn slice(&self) -> (r: Option<&CleanPath>)
        ensures
            match r {
                Some(s) => self.key().1 == Some(s@),
                None => self.key().1 is None,
            },
    {
        match self {
            Failure::Path { .. } => None,
            Failure::Slice { slice, .. } => Some(slice),
        }
    }

    /// Same path and same slice.
    pub fn equals(&self, other: &Failure) -> (r: bool)
        ensures
            r == (self.key() == other.key()),
    {
        match (self, other) {
            (Failure::Path { path: a }, Failure::Path { path: b }) => a.equals(b),
            (Failure::Slice { path: a, slice: x }, Failure::Slice { path: b, slice: y }) => a.equals(
                b,
            ) && x.equals(y),
            _ => false,
        }
    }

    /// Order by path, then by slice.
    pub fn less(&self, other: &Failure) -> (r: bool)
        ensures
            r == key_lt(self.key(), other.key()),
    {
        let a = self.path();
        let b = other.path();
        if str_less(a.as_str(), b.as_str()) {
            return true;
        }
        if !a.equals(b) {
            return false;
        }
        match (self.slice(), other.slice()) {
            (None, Some(_)) => true,
            (Some(x), Some(y)) => str_less(x.as_str(), y.as_str()),
            _ => false,
        }
    }
}

impl Clone for Failure {
    fn clone(&self) -> (r: Self)
        ensures
            r.key() == self.key(),
    {
        match self {
            Failure::Path { path } => Failure::Path { path: path.clone() },
            Failure::Slice { path, slice } => Failure::Slice {
                path: path.clone(),
                slice: slice.clone(),
            },
        }
    }
}

/// Adds a failure to a sorted list without duplicates, keeping it so.
pub fn insert_failure(list: &mut Vec<Failure>, f: Failure)
    requires
        sorted_unique(failure_keys(old(list)@)),
    ensures
        sorted_unique(failure_keys(final(list)@)),
        failure_keys(final(list)@).to_set() == failure_keys(old(list)@).to_set().insert(f.key()),
{
    let ghost old_keys = failure_keys(list@);
    let n = list.len();
    let mut i: usize = 0;
    let mut stop = false;
    while i < n && !stop
        invariant
            n == list@.len(),
            failure_keys(list@) == old_keys,
            sorted_unique(old_keys),
            i <= n,
            forall|j: int| 0 <= j < i ==> key_lt(#[trigger] old_keys[j], f.key()),
            stop ==> i < n && key_lt(f.key(), old_keys[i as int]),
        decreases n - i + (if stop { 0int } else { 1int }),
    {
        if list[i].equals(&f) {
            proof {
                assert(old_keys[i as int] == f.key());
                assert(old_keys.to_set().insert(f.key()) =~= old_keys.to_set());
            }
            return;
        }
        if f.less(&list[i]) {
            stop = true;
        } else {
            proof {
                lemma_key_lt_total(old_keys[i as int], f.key());
            }
            i = i + 1;
        }
    }
    let ghost key = f.key();
    list.insert(i, f);
    proof {
        let nk = failure_keys(list@);
        assert(nk =~= old_keys.subrange(0, i as int).push(key) + old_keys.subrange(
            i as int,
            n as int,
        ));
        assert(nk =~= old_keys.insert(i as int, key));
        assert forall|j: int| 0 < j < nk.len() implies key_lt(nk[j - 1], #[trigger] nk[j]) by {
            if j == i {
            } else if j == i + 1 {
            } else if j < i {
                assert(nk[j] == old_keys[j]);
                assert(nk[j - 1] == old_keys[j - 1]);
            } else {
                assert(nk[j] == old_keys[j - 1]);
                assert(nk[j - 1] == old_keys[j - 2]);
            }
        }
        assert(nk.to_set() =~= old_keys.to_set().insert(key)) by {
            assert forall|x: FailureKey| nk.to_set().contains(x) implies old_keys.to_set().insert(
                key,
            ).contains(x) by {
                let j = choose|j: int| 0 <= j < nk.len() && nk[j] == x;
                if j < i {
                    assert(old_keys[j] == x);
                } else if j > i {
                    assert(old_keys[j - 1] == x);
                }
            }
            assert forall|x: FailureKey| old_keys.to_set().insert(key).contains(x) implies nk.to_set().contains(
                x,
            ) by {
                if x == key {
                    assert(nk[i as int] == key);
                } else {
                    let j = choose|j: int| 0 <= j < old_keys.len() && old_keys[j] == x;
                    if j < i {
                        assert(nk[j] == x);
                    } else {
                        assert(nk[j + 1] == x);
                    }
                }
            }
        }
    }
}

/// Adds every failure of `more` to a sorted list without duplicates.
pub fn merge_failures(list: &mut Vec<Failure>, more: &[Failure])
    requires
        sorted_unique(failure_keys(old(list)@)),
    ensures
        sorted_unique(failure_keys(final(list)@)),
        failure_keys(final(list)@).to_set() == failure_keys(old(list)@).to_set() + failure_keys(
            more@,
        ).to_set(),
{
    let ghost start = failure_keys(list@).to_set();
    let ghost all = failure_keys(more@);
    let n = more.len();
    let mut i: usize = 0;
    while i < n
        invariant
            sorted_unique(failure_keys(list@)),
            n == all.len(),
            all == failure_keys(more@),
            i <= n,
            failure_keys(list@).to_set() == start + all.subrange(0, i as int).to_set(),
        decreases n - i,
    {
        let f = more[i].clone();
        proof {
            assert(f.key() == all[i as int]);
            assert(all.subrange(0, i + 1) =~= all.subrange(0, i as int).push(f.key()));
            all.subrange(0, i as int).lemma_push_to_set_commute(f.key());
        }
        insert_failure(list, f);
        i = i + 1;
        proof {
            assert(failure_keys(list@).to_set() =~= start + all.subrange(0, i as int).to_set());
        }
    }
    proof {
        assert(all.subrange(0, n as int) =~= all);
    }
}

/// Keys of the failures of a list, as a set.
pub open spec fn failure_set(v: Seq<Failure>) -> Set<FailureKey> {
    failure_keys(v).to_set()
}

/// A sorted list without duplicates holding the failures of `v`.
pub fn sorted_failures(v: &[Failure]) -> (r: Vec<Failure>)
    ensures
        sorted_unique(failure_keys(r@)),
        failure_set(r@) == failure_set(v@),
{
    let mut r: Vec<Failure> = Vec::new();
    proof {
        assert(failure_keys(r@).to_set() =~= Set::empty());
    }
    merge_failures(&mut r, v);
    proof {
        assert(failure_set(r@) =~= failure_set(v@));
    }
    r
}

/// A workspace in the middle of an update.
#[derive(Debug)]
pub struct StateUpdating {
    pub from: Option<CleanName>,
    pub to: CleanName,
    pub available: UpdatePosition,
    pub applied: UpdatePosition,
    pub failures: Vec<Failure>,
    pub previous_failures: Vec<Failure>,
    pub check_only: bool,
}

impl StateUpdating {
    /// The applier never gets ahead of the downloader, and the failures
    /// are sorted without duplicates.
    pub open spec fn wf(&self) -> bool {
        &&& pos_le(self.applied, self.available)
        &&& sorted_unique(failure_keys(self.failures@))
    }

    /// A fresh update from `from` to `to`, at the start of the package.
    pub fn new(from: Option<CleanName>, to: CleanName, failures: Vec<Failure>) -> (r: StateUpdating)
        ensures
            r.wf(),
            opt_name(r.from) == opt_name(from),
            r.to@ == to@,
            r.available == start_position(),
            r.applied == start_position(),
            failure_set(r.failures@) == failure_set(failures@),
            r.previous_failures@.len() == 0,
            !r.check_only,
    {
        let failures = sorted_failures(failures.as_slice());
        StateUpdating {
            from,
            to,
            available: UpdatePosition::new(),
            applied: UpdatePosition::new(),
            failures,
            previous_failures: Vec::new(),
            check_only: false,
        }
    }

    /// Takes the position and target of `other`, and adds its failures and
    /// previous failures to the failures of `self`.
    pub fn update_with(&mut self, other: StateUpdating)
        requires
            old(self).wf(),
            other.wf(),
        ensures
            final(self).wf(),
            opt_name(final(self).from) == opt_name(other.from),
            final(self).to@ == other.to@,
            final(self).available == other.available,
            final(self).applied == other.applied,
            final(self).check_only == other.check_only,
            failure_set(final(self).failures@) == failure_set(old(self).failures@) + failure_set(
                other.failures@,
            ) + failure_set(other.previous_failures@),
            final(self).previous_failures@ == old(self).previous_failures@,
    {
        self.from = other.from;
        self.to = other.to;
        self.available = other.available;
        self.applied = other.applied;
        self.check_only = other.check_only;
        merge_failures(&mut self.failures, other.failures.as_slice());
        merge_failures(&mut self.failures, other.previous_failures.as_slice());
    }

    /// Records a download progress event: the available watermark moves to
    /// `available` unless that would move it back.
    pub fn record_available(&mut self, available: UpdatePosition)
        requires
            old(self).wf(),
        ensures
            final(self).wf(),
            final(self).available == if pos_le(old(self).available, available) {
                available
            } else {
                old(self).available
            },
            final(self).applied == old(self).applied,
            failure_keys(final(self).failures@) == failure_keys(old(self).failures@),
            opt_name(final(self).from) == opt_name(old(self).from),
            final(self).to@ == old(self).to@,
    {
        if self.available.le(&available) {
            self.available = available;
        }
    }

    /// Records an apply progress event: operations before `operation_idx`
    /// are applied. The applied watermark never passes the available one.
    pub fn record_applied(&mut self, operation_idx: usize)
        requires
            old(self).wf(),
        ensures
            final(self).wf(),
            final(self).available == old(self).available,
            pos_le(old(self).applied, final(self).applied) || final(self).applied
                == old(self).applied,
            final(self).applied.operation_idx == if operation_idx
                <= old(self).available.operation_idx {
                if operation_idx >= old(self).applied.operation_idx {
                    operation_idx
                } else {
                    old(self).applied.operation_idx
                }
            } else {
                old(self).applied.operation_idx
            },
            failure_keys(final(self).failures@) == failure_keys(old(self).failures@),
            opt_name(final(self).from) == opt_name(old(self).from),
            final(self).to@ == old(self).to@,
    {
        if operation_idx <= self.available.operation_idx && operation_idx
            > self.applied.operation_idx {
            self.applied = UpdatePosition { operation_idx, byte_idx: 0 };
        }
    }

    /// Records that an operation failed.
    pub fn record_failure(&mut self, failure: Failure)
        requires
            old(self).wf(),
        ensures
            final(self).wf(),
            failure_set(final(self).failures@) == failure_set(old(self).failures@).insert(
                failure.key(),
            ),
            final(self).available == old(self).available,
            final(self).applied == old(self).applied,
    {
        insert_failure(&mut self.failures, failure);
    }

    /// Back to the start of the current package.
    pub fn clear_progress(&mut self)
        ensures
            old(self).wf() ==> final(self).wf(),
            final(self).available == start_position(),
            final(self).applied == start_position(),
            opt_name(final(self).from) == opt_name(old(self).from),
            final(self).to@ == old(self).to@,
            final(self).failures@ == old(self).failures@,
            final(self).previous_failures@ == old(self).previous_failures@,
            final(self).check_only == old(self).check_only,
    {
        self.available = UpdatePosition::new();
        self.applied = UpdatePosition::new();
    }

    /// Moves the previous failures into the failures.
    pub fn dedup_failures(&mut self)
        requires
            sorted_unique(failure_keys(old(self).failures@)),
        ensures
            sorted_unique(failure_keys(final(self).failures@)),
            failure_set(final(self).failures@) == failure_set(old(self).failures@) + failure_set(
                old(self).previous_failures@,
            ),
            final(self).previous_failures@.len() == 0,
            old(self).wf() ==> final(self).wf(),
            opt_name(final(self).from) == opt_name(old(self).from),
            final(self).to@ == old(self).to@,
            final(self).available == old(self).available,
            final(self).applied == old(self).applied,
            final(self).check_only == old(self).check_only,
    {
        merge_failures(&mut self.failures, self.previous_failures.as_slice());
        self.previous_failures = Vec::new();
    }
}

/// The state of a workspace.
#[derive(Debug)]
pub enum State {
    /// No revision installed.
    New,
    /// The workspace matches `version` exactly.
    Stable { version: CleanName },
    /// A check found mismatches; `version` was stable before.
    Corrupted { version: CleanName, failures: Vec<Failure> },
    /// In the middle of an update.
    Updating(StateUpdating),
}

/// The workspace `state.json` file.
#[derive(Debug)]
pub enum WorkspaceState {
    V1 { state: State },
}

impl WorkspaceState {
    pub fn state(&self) -> (r: &State)
        ensures
            self matches WorkspaceState::V1 { state } && r == state,
    {
        match self {
            WorkspaceState::V1 { state } => state,
        }
    }
}

/// A copy of a list of failures.
pub fn clone_failures(v: &[Failure]) -> (r: Vec<Failure>)
    ensures
        failure_keys(r@) == failure_keys(v@),
{
    let mut r: Vec<Failure> = Vec::new();
    let mut i: usize = 0;
    while i < v.len()
        invariant
            i <= v@.len(),
            r@.len() == i,
            failure_keys(r@) == failure_keys(v@.subrange(0, i as int)),
        decreases v@.len() - i,
    {
        let ghost prev = r@;
        let c = v[i].clone();
        r.push(c);
        proof {
            assert forall|k: int| 0 <= k < i + 1 implies #[trigger] failure_keys(r@)[k]
                == failure_keys(v@.subrange(0, i + 1))[k] by {
                if k < i {
                    assert(failure_keys(prev)[k] == failure_keys(v@.subrange(0, i as int))[k]);
                    assert(r@[k] == prev[k]);
                }
            }
            assert(failure_keys(r@) =~= failure_keys(v@.subrange(0, i + 1)));
        }
        i = i + 1;
    }
    proof {
        assert(v@.subrange(0, v@.len() as int) =~= v@);
    }
    r
}

impl Clone for StateUpdating {
    fn clone(&self) -> (r: Self)
        ensures
            opt_name(r.from) == opt_name(self.from),
            r.to@ == self.to@,
            r.available == self.available,
            r.applied == self.applied,
            failure_keys(r.failures@) == failure_keys(self.failures@),
            failure_keys(r.previous_failures@) == failure_keys(self.previous_failures@),
            r.check_only == self.check_only,
    {
        let from = match &self.from {
            Some(f) => Some(f.clone()),
            None => None,
        };
        StateUpdating {
            from,
            to: self.to.clone(),
            available: self.available,
            applied: self.applied,
            failures: clone_failures(self.failures.as_slice()),
            previous_failures: clone_failures(self.previous_failures.as_slice()),
            check_only: self.check_only,
        }
    }
}

} // verus!
