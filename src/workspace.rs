//! Decisions of the update and check orchestration: where an update starts,
//! which packages it applies, which operations a repair pass keeps, and which
//! state the workspace lands in.
use vstd::prelude::*;

use crate::metadata::{Operation, Package, check_form, opt_name, same_op};
use crate::names::CleanName;
use crate::planner::{as_ints, is_cheapest, opt_name_ref, shortest_path, no_chain_reaches};
use crate::state::{
    pos_le, Failure, FailureKey, State, StateUpdating, clone_failures, failure_keys, failure_set,
    merge_failures, sorted_failures, sorted_unique,
};

verus! {

/// Why an update cannot go on.
#[derive(Debug, Clone, Copy, PartialEq, Eq, Structural)]
pub enum UpdateError {
    /// No chain of packages reaches the goal.
    NoPath,
    /// Some files still fail after the repair pass.
    Failed { files: usize },
}

/// Why a check cannot go on.
#[derive(Debug, Clone, Copy, PartialEq, Eq, Structural)]
pub enum CheckError {
    /// A new workspace has nothing to check.
    NewWorkspace,
}

/// Package `p` goes from `from` to `to`.
pub open spec fn is_edge(p: Package, from: Option<Seq<char>>, to: Seq<char>) -> bool {
    opt_name(p.from) == from && p.to@ == to
}

/// Index of the first package from `from` to `to`.
pub open spec fn first_edge(pkgs: Seq<Package>, from: Option<Seq<char>>, to: Seq<char>) -> Option<
    int,
> {
    if exists|i: int|
        0 <= i < pkgs.len() && is_edge(#[trigger] pkgs[i], from, to) && forall|j: int|
            0 <= j < i ==> !is_edge(#[trigger] pkgs[j], from, to) {
        Some(
            choose|i: int|
                0 <= i < pkgs.len() && is_edge(#[trigger] pkgs[i], from, to) && forall|j: int|
                    0 <= j < i ==> !is_edge(#[trigger] pkgs[j], from, to),
        )
    } else {
        None
    }
}

/// The package that an interrupted update resumes, if it still exists.
pub open spec fn resumed(state: State, pkgs: Seq<Package>) -> Option<int> {
    match state {
        State::Updating(s) => first_edge(pkgs, opt_name(s.from), s.to@),
        _ => None,
    }
}

/// The revision the planner starts from.
pub open spec fn plan_start(state: State, pkgs: Seq<Package>) -> Option<Seq<char>> {
    match state {
        State::New => None,
        State::Stable { version } => Some(version@),
        State::Corrupted { version, .. } => Some(version@),
        State::Updating(s) => if resumed(state, pkgs) is Some {
            Some(s.to@)
        } else {
            None
        },
    }
}

/// No package lands on `goal`.
pub open spec fn no_package_to(pkgs: Seq<Package>, goal: Seq<char>) -> bool {
    forall|i: int| 0 <= i < pkgs.len() ==> (#[trigger] pkgs[i]).to@ != goal
}

fn find_edge(packages: &[Package], from: &Option<CleanName>, to: &CleanName) -> (r: Option<usize>)
    ensures
        match r {
            Some(i) => i < packages@.len() && first_edge(packages@, opt_name(*from), to@) == Some(
                i as int,
            ),
            None => first_edge(packages@, opt_name(*from), to@) is None,
        },
{
    let mut i: usize = 0;
    while i < packages.len()
        invariant
            i <= packages@.len(),
            forall|j: int| 0 <= j < i ==> !is_edge(#[trigger] packages@[j], opt_name(*from), to@),
        decreases packages@.len() - i,
    {
        let p = &packages[i];
        let same_from = match (&p.from, from) {
            (Some(a), Some(b)) => a.equals(b),
            (None, None) => true,
            _ => false,
        };
        if same_from && p.to.equals(to) {
            proof {
                let k = choose|k: int|
                    0 <= k < packages@.len() && is_edge(#[trigger] packages@[k], opt_name(*from), to@)
                        && forall|j: int|
                        0 <= j < k ==> !is_edge(#[trigger] packages@[j], opt_name(*from), to@);
                assert(is_edge(packages@[i as int], opt_name(*from), to@));
                if k < i {
                } else if k > i {
                }
            }
            return Some(i);
        }
        i = i + 1;
    }
    None
}

fn find_target(packages: &[Package], goal: &CleanName) -> (r: Option<usize>)
    ensures
        match r {
            Some(i) => i < packages@.len() && packages@[i as int].to@ == goal@ && forall|j: int|
                0 <= j < i ==> (#[trigger] packages@[j]).to@ != goal@,
            None => no_package_to(packages@, goal@),
        },
{
    let mut i: usize = 0;
    while i < packages.len()
        invariant
            i <= packages@.len(),
            forall|j: int| 0 <= j < i ==> (#[trigger] packages@[j]).to@ != goal@,
        decreases packages@.len() - i,
    {
        if packages[i].to.equals(goal) {
            return Some(i);
        }
        i = i + 1;
    }
    None
}

fn clone_opt(n: &Option<CleanName>) -> (r: Option<CleanName>)
    ensures
        opt_name(r) == opt_name(*n),
{
    match n {
        Some(x) => Some(x.clone()),
        None => None,
    }
}

/// An update that plans nothing: the workspace already is at `goal` and no
/// check is asked for.
pub fn is_up_to_date(state: &State, goal: &CleanName, check: bool) -> (r: bool)
    ensures
        r == (!check && (state matches State::Stable { version } && version@ == goal@)),
{
    match state {
        State::Stable { version } => !check && version.equals(goal),
        _ => false,
    }
}

/// Plans an update of a workspace in `state` to `goal`.
///
/// An interrupted update resumes its package first. Then, unless that
/// already lands on `goal`, the cheapest chain of packages to `goal` follows.
/// A workspace already at `goal` gets, when `check` is asked, the first
/// package landing on `goal` in check-only mode, and else no plan.
/// The returned state describes the first package of the plan.
#[verifier::rlimit(60)]
pub fn plan_update(state: State, packages: &[Package], goal: &CleanName, check: bool) -> (r:
    Result<Option<(Vec<usize>, StateUpdating)>, UpdateError>)
    ensures
        ({
            let pkgs = packages@;
            let start = plan_start(state, pkgs);
            let res = resumed(state, pkgs);
            match r {
                Err(e) => e == UpdateError::NoPath && ((start != Some(goal@) && no_chain_reaches(
                    pkgs,
                    start,
                    goal@,
                )) || (start == Some(goal@) && res is None && check && no_package_to(pkgs, goal@))),
                Ok(None) => start == Some(goal@) && res is None && !check,
                Ok(Some((path, st))) => {
                    let p = as_ints(path@);
                    &&& st.wf()
                    &&& p.len() > 0
                    &&& (res is Some ==> p[0] == res->Some_0)
                    &&& (res is Some ==> (state matches State::Updating(s) && (pos_le(
                        s.applied,
                        s.available,
                    ) ==> st.available == s.available && st.applied == s.applied) && failure_set(
                        st.failures@,
                    ) == failure_set(s.failures@) && failure_keys(st.previous_failures@)
                        == failure_keys(s.previous_failures@)))
                    &&& (start != Some(goal@) ==> {
                        let tail = if res is Some {
                            p.drop_first()
                        } else {
                            p
                        };
                        is_cheapest(pkgs, start, tail, goal@)
                    })
                    &&& (start == Some(goal@) && res is Some ==> p.len() == 1)
                    &&& (start == Some(goal@) && res is None ==> check && p.len() == 1 && st.check_only
                        && pkgs[p[0]].to@ == goal@ && opt_name(st.from) == Some(goal@) && st.to@
                        == goal@ && forall|j: int|
                        0 <= j < p[0] ==> (#[trigger] pkgs[j]).to@ != goal@)
                    &&& (!(start == Some(goal@) && res is None) ==> !st.check_only && opt_name(st.from)
                        == opt_name(pkgs[p[0]].from) && st.to@ == pkgs[p[0]].to@)
                    &&& (forall|i: int| 0 <= i < p.len() ==> 0 <= #[trigger] p[i] < pkgs.len())
                },
            }
        }),
{
    let ghost pkgs = packages@;
    let ghost gstate = state;
    let mut path: Vec<usize> = Vec::new();
    let mut maybe_state: Option<StateUpdating> = None;
    let start: Option<CleanName> = match state {
        State::New => None,
        State::Stable { version } => Some(version),
        State::Corrupted { version, .. } => Some(version),
        State::Updating(s) => match find_edge(packages, &s.from, &s.to) {
            Some(i) => {
                path.push(i);
                let to = s.to.clone();
                maybe_state = Some(s);
                Some(to)
            },
            None => None,
        },
    };
    let ghost res = resumed(gstate, pkgs);
    assert(opt_name(start) == plan_start(gstate, pkgs));
    assert(as_ints(path@) =~= (if res is Some {
        seq![res->Some_0]
    } else {
        Seq::<int>::empty()
    }));
    assert(forall|i: int| 0 <= i < path@.len() ==> #[trigger] path@[i] < pkgs.len());
    let at_goal = match &start {
        Some(v) => v.equals(goal),
        None => false,
    };
    let ghost mut tail: Seq<int> = Seq::empty();
    if !at_goal {
        let sref: Option<&CleanName> = match &start {
            Some(v) => Some(v),
            None => None,
        };
        match shortest_path(sref, goal, packages) {
            Some(t) => {
                proof {
                    tail = as_ints(t@);
                    assert(opt_name_ref(sref) == opt_name(start));
                }
                let ghost before = path@;
                let mut k: usize = 0;
                while k < t.len()
                    invariant
                        k <= t@.len(),
                        path@ == before + t@.subrange(0, k as int),
                    decreases t@.len() - k,
                {
                    path.push(t[k]);
                    proof {
                        assert(path@ =~= before + t@.subrange(0, k + 1));
                    }
                    k = k + 1;
                }
                proof {
                    assert(t@.subrange(0, t@.len() as int) =~= t@);
                    assert(forall|i: int| 0 <= i < path@.len() ==> #[trigger] path@[i] < pkgs.len())
                        by {
                        assert forall|i: int| 0 <= i < path@.len() implies #[trigger] path@[i]
                            < pkgs.len() by {
                            if i >= before.len() {
                                assert(path@[i] == t@[i - before.len()]);
                            }
                        }
                    }
                    assert(as_ints(path@) =~= as_ints(before) + tail);
                    if res is Some {
                        assert(as_ints(path@).drop_first() =~= tail);
                    } else {
                        assert(as_ints(path@) =~= tail);
                    }
                }
            },
            None => {
                return Err(UpdateError::NoPath);
            },
        }
    }
    assert(!at_goal ==> path@.len() > 0);
    if path.len() > 0 {
        let p0 = &packages[path[0]];
        let from = clone_opt(&p0.from);
        let to = p0.to.clone();
        let st = match maybe_state {
            Some(s) => {
                let mut s = s;
                s.from = from;
                s.to = to;
                s.check_only = false;
                if !s.applied.le(&s.available) {
                    s.clear_progress();
                }
                s.failures = sorted_failures(s.failures.as_slice());
                s
            },
            None => StateUpdating::new(from, to, Vec::new()),
        };
        proof {
            assert forall|i: int| 0 <= i < as_ints(path@).len() implies 0 <= #[trigger] as_ints(
                path@,
            )[i] < pkgs.len() by {
                if res is Some && i == 0 {
                } else if res is Some {
                    assert(as_ints(path@)[i] == tail[i - 1]);
                } else {
                    assert(as_ints(path@)[i] == tail[i]);
                }
            }
        }
        Ok(Some((path, st)))
    } else if check {
        match find_target(packages, goal) {
            Some(i) => {
                let mut st = StateUpdating::new(Some(goal.clone()), goal.clone(), Vec::new());
                st.check_only = true;
                let mut v: Vec<usize> = Vec::new();
                v.push(i);
                proof {
                    assert(as_ints(v@) =~= seq![i as int]);
                }
                Ok(Some((v, st)))
            },
            None => Err(UpdateError::NoPath),
        }
    } else {
        Ok(None)
    }
}

/// The failures an update starts with: those a check recorded, or those an
/// interrupted update left, with its previous failures.
pub fn initial_failures(state: &State) -> (r: Vec<Failure>)
    ensures
        sorted_unique(failure_keys(r@)),
        failure_set(r@) == match state {
            State::Corrupted { failures, .. } => failure_set(failures@),
            State::Updating(s) => failure_set(s.failures@) + failure_set(s.previous_failures@),
            _ => Set::empty(),
        },
{
    match state {
        State::Corrupted { failures, .. } => sorted_failures(failures.as_slice()),
        State::Updating(s) => {
            let mut r = sorted_failures(s.failures.as_slice());
            merge_failures(&mut r, s.previous_failures.as_slice());
            r
        },
        _ => {
            let r: Vec<Failure> = Vec::new();
            proof {
                assert(failure_set(r@) =~= Set::empty());
            }
            r
        },
    }
}

/// The state of a workspace once a check found `failures`: a stable
/// workspace with failures becomes corrupted, an updating one takes them into
/// its failures, and any other state stays as it was. A new workspace cannot
/// be checked.
pub fn state_after_check(state: State, failures: &[Failure]) -> (r: Result<State, CheckError>)
    ensures
        state is New <==> r is Err,
        r is Ok ==> match state {
            State::Stable { version } => if failures@.len() == 0 {
                r->Ok_0 matches State::Stable { version: v } && v@ == version@
            } else {
                r->Ok_0 matches State::Corrupted { version: v, failures: f } && v@ == version@
                    && sorted_unique(failure_keys(f@)) && failure_set(f@) == failure_set(failures@)
            },
            State::Corrupted { version, failures: f0 } => r->Ok_0 matches State::Corrupted {
                version: v,
                failures: f,
            } && v@ == version@ && failure_keys(f@) == failure_keys(f0@),
            State::Updating(s) => r->Ok_0 matches State::Updating(t) && opt_name(t.from) == opt_name(
                s.from,
            ) && t.to@ == s.to@ && t.available == s.available && t.applied == s.applied
                && sorted_unique(failure_keys(t.failures@)) && failure_set(t.failures@)
                == failure_set(s.failures@) + failure_set(failures@),
            State::New => false,
        },
{
    match state {
        State::New => Err(CheckError::NewWorkspace),
        State::Stable { version } => {
            if failures.len() == 0 {
                Ok(State::Stable { version })
            } else {
                Ok(State::Corrupted { version, failures: sorted_failures(failures) })
            }
        },
        State::Corrupted { version, failures: f } => Ok(State::Corrupted { version, failures: f }),
        State::Updating(s) => {
            let mut s = s;
            let mut f = sorted_failures(s.failures.as_slice());
            merge_failures(&mut f, failures);
            s.failures = f;
            Ok(State::Updating(s))
        },
    }
}

/// After a successful check the workspace is stable, or it records at least
/// one failure.
pub proof fn lemma_check_outcome(state: State, failures: Seq<Failure>, after: State)
    requires
        !(state is New),
        state matches State::Corrupted { failures: f, .. } ==> f@.len() > 0,
        state matches State::Updating(s) ==> s.failures@.len() + failures.len() > 0,
        match state {
            State::Stable { version } => if failures.len() == 0 {
                after matches State::Stable { version: v } && v@ == version@
            } else {
                after matches State::Corrupted { version: v, failures: f } && v@ == version@
                    && failure_set(f@) == failure_set(failures)
            },
            State::Corrupted { version, failures: f0 } => after matches State::Corrupted {
                version: v,
                failures: f,
            } && v@ == version@ && failure_keys(f@) == failure_keys(f0@),
            State::Updating(s) => after matches State::Updating(t) && failure_set(t.failures@)
                == failure_set(s.failures@) + failure_set(failures),
            State::New => false,
        },
    ensures
        after is Stable || (after matches State::Corrupted { failures: f, .. } && f@.len() > 0) || (
        after matches State::Updating(t) && t.failures@.len() > 0),
{
    match state {
        State::Stable { .. } => {
            if failures.len() > 0 {
                let f = after->Corrupted_failures;
                assert(failure_keys(failures)[0] == failures[0].key());
                assert(failure_set(failures).contains(failures[0].key()));
                if f@.len() == 0 {
                    assert(failure_keys(f@) =~= Seq::empty());
                    assert(failure_set(f@) =~= Set::empty());
                    assert(false);
                }
                assert(after matches State::Corrupted { failures: g, .. } && g@.len() > 0);
            } else {
                assert(after is Stable);
            }
        },
        State::Corrupted { .. } => {
            if let State::Corrupted { failures: f, .. } = after {
                assert(failure_keys(f@).len() == f@.len());
            }
        },
        State::Updating(s) => {
            let t = after->Updating_0;
            if t.failures@.len() == 0 {
                assert(failure_keys(t.failures@) =~= Seq::empty());
                assert(failure_set(t.failures@) =~= Set::empty());
                let k = if s.failures@.len() > 0 {
                    assert(failure_keys(s.failures@)[0] == s.failures@[0].key());
                    assert(failure_set(s.failures@).contains(s.failures@[0].key()));
                    s.failures@[0].key()
                } else {
                    assert(failure_keys(failures)[0] == failures[0].key());
                    assert(failure_set(failures).contains(failures[0].key()));
                    failures[0].key()
                };
                assert((failure_set(s.failures@) + failure_set(failures)).contains(k));
                assert(false);
            }
        },
        State::New => {},
    }
}

/// The state to write while an update runs: nothing for a check-only pass;
/// `Stable` once every package is applied without failure; else the
/// updating state itself.
pub fn committed_state(st: &StateUpdating, applied_packages: usize, total_packages: usize) -> (r:
    Option<State>)
    ensures
        st.check_only <==> r is None,
        r is Some && st.failures@.len() == 0 && applied_packages == total_packages ==> (r->Some_0 matches State::Stable {
            version,
        } && version@ == st.to@),
        r is Some && !(st.failures@.len() == 0 && applied_packages == total_packages) ==> (r->Some_0 matches State::Updating(t) && opt_name(t.from) == opt_name(st.from) && t.to@ == st.to@
            && t.available == st.available && t.applied == st.applied && failure_keys(t.failures@)
            == failure_keys(st.failures@)),
{
    if st.check_only {
        return None;
    }
    if st.failures.len() == 0 && applied_packages == total_packages {
        Some(State::Stable { version: st.to.clone() })
    } else {
        Some(State::Updating(st.clone()))
    }
}

/// How an update ends once the repair pass is over.
pub fn update_outcome(failures: &[Failure]) -> (r: Result<(), UpdateError>)
    ensures
        failures@.len() == 0 <==> r is Ok,
        failures@.len() > 0 ==> r == Err::<(), UpdateError>(
            UpdateError::Failed { files: failures@.len() as usize },
        ),
{
    if failures.len() == 0 {
        Ok(())
    } else {
        Err(UpdateError::Failed { files: failures.len() })
    }
}

/// The operations that a pass applies: all of them, or, in a repair pass,
/// those on the paths that failed.
#[derive(Debug)]
pub struct UpdateFilter {
    failures: Vec<Failure>,
}

/// Some failure is on `path`.
pub open spec fn has_path(keys: Seq<FailureKey>, path: Seq<char>) -> bool {
    exists|i: int| 0 <= i < keys.len() && (#[trigger] keys[i]).0 == path
}

impl UpdateFilter {
    pub closed spec fn keys(&self) -> Seq<FailureKey> {
        failure_keys(self.failures@)
    }

    /// A filter that lets every operation through.
    pub fn allows_all() -> (r: UpdateFilter)
        ensures
            r.keys().len() == 0,
    {
        UpdateFilter { failures: Vec::new() }
    }

    /// A filter on the given failures.
    pub fn new(failures: &[Failure]) -> (r: UpdateFilter)
        ensures
            r.keys().to_set() == failure_set(failures@),
    {
        UpdateFilter { failures: sorted_failures(failures) }
    }

    fn find_path(&self, path: &crate::names::CleanPath) -> (r: bool)
        ensures
            r == has_path(self.keys(), path@),
    {
        let mut i: usize = 0;
        while i < self.failures.len()
            invariant
                i <= self.failures@.len(),
                forall|j: int| 0 <= j < i ==> (#[trigger] self.keys()[j]).0 != path@,
            decreases self.failures@.len() - i,
        {
            if self.failures[i].path().equals(path) {
                assert(self.keys()[i as int].0 == path@);
                return true;
            }
            i = i + 1;
        }
        false
    }

    fn find_key(&self, o: &Operation) -> (r: bool)
        ensures
            r == self.keys().contains((o.spec_path(), o.spec_slice())),
    {
        let path = o.path();
        let slice = o.slice();
        let mut i: usize = 0;
        while i < self.failures.len()
            invariant
                i <= self.failures@.len(),
                path@ == o.spec_path(),
                match slice {
                    Some(x) => o.spec_slice() == Some(x@),
                    None => o.spec_slice() is None,
                },
                forall|j: int| 0 <= j < i ==> #[trigger] self.keys()[j] != (o.spec_path(), o.spec_slice()),
            decreases self.failures@.len() - i,
        {
            let f = &self.failures[i];
            assert(self.keys()[i as int] == f.key());
            let same = f.path().equals(path) && match (f.slice(), slice) {
                (Some(a), Some(b)) => a.equals(b),
                (None, None) => true,
                _ => false,
            };
            if same {
                assert(self.keys()[i as int] == (o.spec_path(), o.spec_slice()));
                return true;
            }
            i = i + 1;
        }
        false
    }

    /// The operation is on a path that the filter admits.
    pub fn filter(&self, o: &Operation) -> (r: bool)
        ensures
            r == (self.keys().len() == 0 || has_path(self.keys(), o.spec_path())),
    {
        self.failures.len() == 0 || self.find_path(o.path())
    }

    /// What a pass does for `o`: the operation itself when it (path and
    /// slice) failed; its check when another slice of its path failed, so
    /// that the whole file still comes out right; nothing otherwise.
    pub fn filter_map(&self, o: &Operation) -> (r: Option<Operation>)
        ensures
            self.keys().len() == 0 || self.keys().contains((o.spec_path(), o.spec_slice())) ==> r is Some
                && same_op(r->Some_0, *o),
            !(self.keys().len() == 0 || self.keys().contains((o.spec_path(), o.spec_slice())))
                && o.spec_slice() is Some && has_path(self.keys(), o.spec_path()) ==> (r is Some
                <==> (o is Add || o is Patch || o is Check)) && (r is Some ==> r->Some_0 is Check
                && check_form(*o, r->Some_0)),
            !(self.keys().len() == 0 || self.keys().contains((o.spec_path(), o.spec_slice())))
                && !(o.spec_slice() is Some && has_path(self.keys(), o.spec_path())) ==> r is None,
    {
        if self.failures.len() == 0 || self.find_key(o) {
            Some(o.clone())
        } else if o.slice().is_some() && self.find_path(o.path()) {
            o.as_check_operation()
        } else {
            None
        }
    }
}

/// Begins the repair pass: the failures of the normal pass become the
/// previous failures, and the filter admits their paths. `None` when there
/// is nothing to repair.
pub fn start_repair(st: &mut StateUpdating) -> (r: Option<UpdateFilter>)
    ensures
        failure_keys(final(st).previous_failures@) == failure_keys(old(st).failures@),
        final(st).failures@.len() == 0,
        opt_name(final(st).from) == opt_name(old(st).from),
        final(st).to@ == old(st).to@,
        final(st).available == old(st).available,
        final(st).applied == old(st).applied,
        final(st).check_only == old(st).check_only,
        old(st).failures@.len() == 0 <==> r is None,
        r is Some ==> r->Some_0.keys().to_set() == failure_set(old(st).failures@),
{
    st.previous_failures = clone_failures(st.failures.as_slice());
    st.failures = Vec::new();
    assert(failure_keys(st.previous_failures@).len() == st.previous_failures@.len());
    if st.previous_failures.len() > 0 {
        Some(UpdateFilter::new(st.previous_failures.as_slice()))
    } else {
        None
    }
}

/// `filter_map` keeps something of `o`.
pub open spec fn filter_keeps(keys: Seq<FailureKey>, o: Operation) -> bool {
    ||| keys.len() == 0
    ||| keys.contains((o.spec_path(), o.spec_slice()))
    ||| (o.spec_slice() is Some && has_path(keys, o.spec_path()) && (o is Add || o is Patch
        || o is Check))
}

/// A pass works on operation `o`: the filter keeps it (unless the pass only
/// checks), or a check is asked for and `o` leaves something to check.
pub open spec fn pass_keeps(keys: Seq<FailureKey>, o: Operation, check_only: bool, check: bool) -> bool {
    (!check_only && filter_keeps(keys, o)) || (check && crate::metadata::has_check(o))
}

/// What a pass does with `o` when it keeps it: `o` itself when the filter
/// keeps it whole, else its check form.
pub open spec fn pass_result(keys: Seq<FailureKey>, o: Operation, check_only: bool, x: Operation) -> bool {
    if !check_only && (keys.len() == 0 || keys.contains((o.spec_path(), o.spec_slice()))) {
        same_op(x, o)
    } else {
        check_form(o, x)
    }
}

/// The operations of a package that a pass works on, with their indices:
/// what the filter keeps, or, when a check is asked for, the check form of
/// the others.
pub fn package_operations(
    ops: &[Operation],
    filter: &UpdateFilter,
    check_only: bool,
    check: bool,
) -> (r: Vec<(usize, Operation)>)
    ensures
        forall|a: int, b: int| 0 <= a < b < r@.len() ==> #[trigger] r@[a].0 < #[trigger] r@[b].0,
        forall|a: int|
            0 <= a < r@.len() ==> {
                let k = #[trigger] r@[a].0 as int;
                &&& 0 <= k < ops@.len()
                &&& pass_keeps(filter.keys(), ops@[k], check_only, check)
                &&& pass_result(filter.keys(), ops@[k], check_only, r@[a].1)
            },
        forall|k: int|
            0 <= k < ops@.len() && pass_keeps(filter.keys(), #[trigger] ops@[k], check_only, check)
                ==> exists|a: int| 0 <= a < r@.len() && r@[a].0 == k,
{
    let mut out: Vec<(usize, Operation)> = Vec::new();
    let mut i: usize = 0;
    while i < ops.len()
        invariant
            i <= ops@.len(),
            forall|a: int, b: int| 0 <= a < b < out@.len() ==> #[trigger] out@[a].0 < #[trigger] out@[b].0,
            forall|a: int| 0 <= a < out@.len() ==> #[trigger] out@[a].0 < i,
            forall|a: int|
                0 <= a < out@.len() ==> {
                    let k = #[trigger] out@[a].0 as int;
                    &&& 0 <= k < ops@.len()
                    &&& pass_keeps(filter.keys(), ops@[k], check_only, check)
                    &&& pass_result(filter.keys(), ops@[k], check_only, out@[a].1)
                },
            forall|k: int|
                0 <= k < i && pass_keeps(filter.keys(), #[trigger] ops@[k], check_only, check)
                    ==> exists|a: int| 0 <= a < out@.len() && out@[a].0 == k,
        decreases ops@.len() - i,
    {
        let o = &ops[i];
        let kept = if !check_only {
            filter.filter_map(o)
        } else {
            None
        };
        let chosen = match kept {
            Some(x) => Some(x),
            None => if check {
                o.as_check_operation()
            } else {
                None
            },
        };
        let ghost before = out@;
        match chosen {
            Some(x) => {
                out.push((i, x));
                proof {
                    assert(out@[out@.len() - 1].0 == i);
                    assert forall|k: int|
                        0 <= k < i + 1 && pass_keeps(filter.keys(), #[trigger] ops@[k], check_only, check)
                            implies exists|a: int| 0 <= a < out@.len() && out@[a].0 == k by {
                        if k == i {
                            assert(out@[out@.len() - 1].0 == k);
                        } else {
                            let a = choose|a: int| 0 <= a < before.len() && before[a].0 == k;
                            assert(out@[a] == before[a]);
                        }
                    }
                }
            },
            None => {
                proof {
                    assert(!pass_keeps(filter.keys(), ops@[i as int], check_only, check));
                }
            },
        }
        i = i + 1;
    }
    out
}

/// `x` is one of `ops`: same index, same operation.
pub open spec fn drawn_from(ops: Seq<(usize, Operation)>, x: (usize, Operation)) -> bool {
    exists|b: int|
        0 <= b < ops.len() && ops[b].0 == x.0 && same_op(x.1, ops[b].1)
}

/// The operations of a pass from operation index `from` on: what is left to
/// download or to apply when a package resumes.
pub fn operations_from(ops: &[(usize, Operation)], from: usize) -> (r: Vec<(usize, Operation)>)
    ensures
        r@.len() <= ops@.len(),
        forall|a: int| 0 <= a < r@.len() ==> (#[trigger] r@[a]).0 >= from,
        forall|a: int| 0 <= a < r@.len() ==> drawn_from(ops@, #[trigger] r@[a]),
        forall|b: int| 0 <= b < ops@.len() && (#[trigger] ops@[b]).0 >= from ==> exists|a: int|
            0 <= a < r@.len() && r@[a].0 == ops@[b].0,
{
    let mut out: Vec<(usize, Operation)> = Vec::new();
    let mut i: usize = 0;
    while i < ops.len()
        invariant
            i <= ops@.len(),
            out@.len() <= i,
            forall|a: int| 0 <= a < out@.len() ==> (#[trigger] out@[a]).0 >= from,
            forall|a: int| 0 <= a < out@.len() ==> drawn_from(ops@, #[trigger] out@[a]),
            forall|b: int| 0 <= b < i && (#[trigger] ops@[b]).0 >= from ==> exists|a: int|
                0 <= a < out@.len() && out@[a].0 == ops@[b].0,
        decreases ops@.len() - i,
    {
        if ops[i].0 >= from {
            let ghost before = out@;
            out.push((ops[i].0, ops[i].1.clone()));
            proof {
                assert forall|a: int| 0 <= a < out@.len() implies drawn_from(ops@, #[trigger] out@[a]) by {
                    if a == out@.len() - 1 {
                        assert(ops@[i as int].0 == out@[a].0);
                        assert(same_op(out@[a].1, ops@[i as int].1));
                    } else {
                        assert(out@[a] == before[a]);
                    }
                }
                assert forall|b: int| 0 <= b < i + 1 && (#[trigger] ops@[b]).0 >= from implies exists|a: int|
                    0 <= a < out@.len() && out@[a].0 == ops@[b].0 by {
                    if b == i {
                        assert(out@[out@.len() - 1].0 == ops@[b].0);
                    } else {
                        let a = choose|a: int| 0 <= a < before.len() && before[a].0 == ops@[b].0;
                        assert(out@[a] == before[a]);
                    }
                }
            }
        }
        i = i + 1;
    }
    out
}

/// The failure that records operation `o`: its path, and its slice if any.
pub fn failure_of(o: &Operation) -> (r: Failure)
    ensures
        r.key() == (o.spec_path(), o.spec_slice()),
{
    match o.slice() {
        Some(slice) => Failure::Slice { path: o.path().clone(), slice: slice.clone() },
        None => Failure::Path { path: o.path().clone() },
    }
}

/// What a check of operation `o` records: nothing when it passed, else the
/// failure of `o`.
pub fn check_failure(o: &Operation, result: Result<(), crate::apply::Mismatch>) -> (r: Option<
    Failure,
>)
    ensures
        result is Ok <==> r is None,
        r matches Some(f) ==> f.key() == (o.spec_path(), o.spec_slice()),
{
    match result {
        Ok(()) => None,
        Err(_) => Some(failure_of(o)),
    }
}

} // verus!
