//! Progress accounting: update objectives per package, counters, and a
//! rolling-window rate estimator.
use vstd::prelude::*;
use vstd::slice::slice_to_vec;

use crate::metadata::{Operation, PackageMetadata};
use crate::names::CleanName;
use crate::state::StateUpdating;
use crate::workspace::{UpdateFilter, has_path};

verus! {

/// A counter sum, capped at the largest `u64`.
pub open spec fn cap(x: int) -> u64 {
    if x > u64::MAX {
        u64::MAX
    } else if x < 0 {
        0
    } else {
        x as u64
    }
}

/// Adds two counters, capping at the largest `u64`.
pub fn sat_add(a: u64, b: u64) -> (r: u64)
    ensures
        r == cap(a + b),
{
    a.saturating_add(b)
}

/// Counters of an update.
#[derive(Debug, Clone, Copy, PartialEq, Eq, Structural)]
pub struct Progression {
    /// Number of files downloaded
    pub downloaded_files: u64,
    /// Number of bytes downloaded
    pub downloaded_bytes: u64,
    /// Number of files installed
    pub applied_files: u64,
    /// Number of bytes decoded
    pub applied_input_bytes: u64,
    /// Number of bytes installed
    pub applied_output_bytes: u64,
    /// Number of errors
    pub failed_files: u64,
}

impl Progression {
    pub fn new() -> (r: Progression)
        ensures
            r.counters() == seq![0u64, 0, 0, 0, 0, 0],
    {
        Progression {
            downloaded_files: 0,
            downloaded_bytes: 0,
            applied_files: 0,
            applied_input_bytes: 0,
            applied_output_bytes: 0,
            failed_files: 0,
        }
    }

    /// The counters, in declaration order.
    pub open spec fn counters(&self) -> Seq<u64> {
        seq![
            self.downloaded_files,
            self.downloaded_bytes,
            self.applied_files,
            self.applied_input_bytes,
            self.applied_output_bytes,
            self.failed_files,
        ]
    }

    /// The counters as a vector, in declaration order.
    pub fn to_counters(&self) -> (r: Vec<u64>)
        ensures
            r@ == self.counters(),
    {
        let mut v: Vec<u64> = Vec::new();
        v.push(self.downloaded_files);
        v.push(self.downloaded_bytes);
        v.push(self.applied_files);
        v.push(self.applied_input_bytes);
        v.push(self.applied_output_bytes);
        v.push(self.failed_files);
        assert(v@ =~= self.counters());
        v
    }

    /// Adds `other` counter by counter (capped).
    pub fn add(&mut self, other: &Progression)
        ensures
            forall|i: int|
                0 <= i < 6 ==> #[trigger] final(self).counters()[i] == cap(
                    old(self).counters()[i] + other.counters()[i],
                ),
    {
        self.downloaded_files = sat_add(self.downloaded_files, other.downloaded_files);
        self.downloaded_bytes = sat_add(self.downloaded_bytes, other.downloaded_bytes);
        self.applied_files = sat_add(self.applied_files, other.applied_files);
        self.applied_input_bytes = sat_add(self.applied_input_bytes, other.applied_input_bytes);
        self.applied_output_bytes = sat_add(self.applied_output_bytes, other.applied_output_bytes);
        self.failed_files = sat_add(self.failed_files, other.failed_files);
    }

    /// Takes `other` away counter by counter (floored at zero).
    pub fn sub(&mut self, other: &Progression)
        ensures
            forall|i: int|
                0 <= i < 6 ==> #[trigger] final(self).counters()[i] == cap(
                    old(self).counters()[i] - other.counters()[i],
                ),
    {
        self.downloaded_files = self.downloaded_files.saturating_sub(other.downloaded_files);
        self.downloaded_bytes = self.downloaded_bytes.saturating_sub(other.downloaded_bytes);
        self.applied_files = self.applied_files.saturating_sub(other.applied_files);
        self.applied_input_bytes = self.applied_input_bytes.saturating_sub(other.applied_input_bytes);
        self.applied_output_bytes = self.applied_output_bytes.saturating_sub(
            other.applied_output_bytes,
        );
        self.failed_files = self.failed_files.saturating_sub(other.failed_files);
    }
}

/// Counters of a check.
#[derive(Debug, Clone, Copy, PartialEq, Eq, Structural)]
pub struct CheckProgression {
    /// Number of files checked
    pub checked_files: u64,
    /// Number of bytes checked
    pub checked_bytes: u64,
    /// Number of errors
    pub failed_files: u64,
}

impl CheckProgression {
    pub fn new() -> (r: CheckProgression)
        ensures
            r.checked_files == 0 && r.checked_bytes == 0 && r.failed_files == 0,
    {
        CheckProgression { checked_files: 0, checked_bytes: 0, failed_files: 0 }
    }

    /// Adds `other` counter by counter (capped).
    pub fn add(&mut self, other: &CheckProgression)
        ensures
            final(self).checked_files == cap(old(self).checked_files + other.checked_files),
            final(self).checked_bytes == cap(old(self).checked_bytes + other.checked_bytes),
            final(self).failed_files == cap(old(self).failed_files + other.failed_files),
    {
        self.checked_files = sat_add(self.checked_files, other.checked_files);
        self.checked_bytes = sat_add(self.checked_bytes, other.checked_bytes);
        self.failed_files = sat_add(self.failed_files, other.failed_files);
    }

    /// Takes `other` away counter by counter (floored at zero).
    pub fn sub(&mut self, other: &CheckProgression)
        ensures
            final(self).checked_files == cap(old(self).checked_files - other.checked_files),
            final(self).checked_bytes == cap(old(self).checked_bytes - other.checked_bytes),
            final(self).failed_files == cap(old(self).failed_files - other.failed_files),
    {
        self.checked_files = self.checked_files.saturating_sub(other.checked_files);
        self.checked_bytes = self.checked_bytes.saturating_sub(other.checked_bytes);
        self.failed_files = self.failed_files.saturating_sub(other.failed_files);
    }
}

/// Stage of an update.
#[derive(Debug, Clone, Copy, PartialEq, Eq, Structural)]
pub enum UpdateStage {
    FindingUpdatePath,
    Updating,
    FindingRepairPath,
    Repairing,
    Uptodate,
    Failed,
}

/// Objectives of one package of an update.
#[derive(Debug)]
pub struct UpdateStepState {
    /// Number of files to download
    pub download_files: u64,
    /// Number of bytes to download
    pub download_bytes: u64,
    /// Number of files to install
    pub apply_files: u64,
    /// Number of bytes to apply
    pub apply_input_bytes: u64,
    /// Number of bytes to install
    pub apply_output_bytes: u64,
    /// Progress within the package
    pub progression: Progression,
}

/// Operations that a pass with filter keys `keys` works on.
pub open spec fn admitted(ops: Seq<Operation>, keys: Seq<crate::state::FailureKey>) -> Seq<Operation> {
    ops.filter(|o: Operation| keys.len() == 0 || has_path(keys, o.spec_path()))
}

/// Sum of a quantity over operations.
pub open spec fn sum_of(ops: Seq<Operation>, f: spec_fn(Operation) -> int) -> int
    decreases ops.len(),
{
    if ops.len() == 0 {
        0
    } else {
        sum_of(ops.drop_last(), f) + f(ops.last())
    }
}

proof fn lemma_sum_nonneg(ops: Seq<Operation>, f: spec_fn(Operation) -> int)
    requires
        forall|o: Operation| #[trigger] f(o) >= 0,
    ensures
        sum_of(ops, f) >= 0,
    decreases ops.len(),
{
    if ops.len() > 0 {
        lemma_sum_nonneg(ops.drop_last(), f);
    }
}

pub open spec fn data_of(o: Operation) -> int {
    o.spec_data_size() as int
}

pub open spec fn output_of(o: Operation) -> int {
    o.spec_final_size() + o.spec_check_size()
}

/// Bytes a pass reads for an operation: downloaded data, or the final
/// content in a check-only pass; plus what a check reads.
pub open spec fn input_of(check_only: bool) -> spec_fn(Operation) -> int {
    |o: Operation|
        if check_only {
            o.spec_final_size() + o.spec_check_size()
        } else {
            o.spec_data_size() + o.spec_check_size()
        }
}

impl UpdateStepState {
    pub fn new() -> (r: UpdateStepState)
        ensures
            r.download_files == 0,
            r.download_bytes == 0,
            r.apply_files == 0,
            r.apply_input_bytes == 0,
            r.apply_output_bytes == 0,
            r.progression.counters() == seq![0u64, 0, 0, 0, 0, 0],
    {
        UpdateStepState {
            download_files: 0,
            download_bytes: 0,
            apply_files: 0,
            apply_input_bytes: 0,
            apply_output_bytes: 0,
            progression: Progression::new(),
        }
    }

    /// The objectives of a package: the operations that `filter` admits, to
    /// download (unless the pass only checks) and to apply.
    pub fn objectives(ops: &[Operation], filter: &UpdateFilter, check_only: bool) -> (r:
        UpdateStepState)
        ensures
            ({
                let a = admitted(ops@, filter.keys());
                &&& r.apply_files == cap(a.len() as int)
                &&& r.download_files == if check_only {
                    0
                } else {
                    cap(a.len() as int)
                }
                &&& r.download_bytes == if check_only {
                    0
                } else {
                    cap(sum_of(a, |o: Operation| data_of(o)))
                }
                &&& r.apply_input_bytes == cap(sum_of(a, input_of(check_only)))
                &&& r.apply_output_bytes == cap(sum_of(a, |o: Operation| output_of(o)))
            }),
    {
        let mut step = UpdateStepState::new();
        let ghost keys = filter.keys();
        let ghost pred = |o: Operation| keys.len() == 0 || has_path(keys, o.spec_path());
        let ghost fin = input_of(check_only);
        let mut i: usize = 0;
        while i < ops.len()
            invariant
                i <= ops@.len(),
                keys == filter.keys(),
                pred == (|o: Operation| keys.len() == 0 || has_path(keys, o.spec_path())),
                fin == input_of(check_only),
                ({
                    let a = ops@.subrange(0, i as int).filter(pred);
                    &&& step.apply_files == cap(a.len() as int)
                    &&& step.download_files == if check_only {
                        0
                    } else {
                        cap(a.len() as int)
                    }
                    &&& step.download_bytes == if check_only {
                        0
                    } else {
                        cap(sum_of(a, |o: Operation| data_of(o)))
                    }
                    &&& step.apply_input_bytes == cap(sum_of(a, fin))
                    &&& step.apply_output_bytes == cap(sum_of(a, |o: Operation| output_of(o)))
                }),
            decreases ops@.len() - i,
        {
            let o = &ops[i];
            proof {
                let prefix = ops@.subrange(0, i as int);
                assert(ops@.subrange(0, i + 1) =~= prefix.push(ops@[i as int]));
                reveal_with_fuel(Seq::filter, 1);
                assert(prefix.push(ops@[i as int]).drop_last() =~= prefix);
            }
            let ghost a = ops@.subrange(0, i as int).filter(pred);
            let admitted_op = filter.filter(o);
            proof {
                assert(pred(*o) == admitted_op);
                lemma_sum_nonneg(a, fin);
                lemma_sum_nonneg(a, |o: Operation| data_of(o));
                lemma_sum_nonneg(a, |o: Operation| output_of(o));
                if admitted_op {
                    assert(ops@.subrange(0, i + 1).filter(pred) =~= a.push(*o));
                    assert(a.push(*o).drop_last() =~= a);
                    assert(sum_of(a.push(*o), fin) == sum_of(a, fin) + fin(*o));
                    assert(sum_of(a.push(*o), |o: Operation| data_of(o)) == sum_of(a, |o: Operation| data_of(o)) + data_of(*o));
                    assert(sum_of(a.push(*o), |o: Operation| output_of(o)) == sum_of(a, |o: Operation| output_of(o)) + output_of(*o));
                } else {
                    assert(ops@.subrange(0, i + 1).filter(pred) =~= a);
                }
            }
            if admitted_op {
                step.apply_files = sat_add(step.apply_files, 1);
                if !check_only {
                    step.download_files = sat_add(step.download_files, 1);
                    step.download_bytes = sat_add(step.download_bytes, o.data_size());
                    step.apply_input_bytes = sat_add(
                        step.apply_input_bytes,
                        sat_add(o.data_size(), o.check_size()),
                    );
                } else {
                    step.apply_input_bytes = sat_add(
                        step.apply_input_bytes,
                        sat_add(o.final_size(), o.check_size()),
                    );
                }
                step.apply_output_bytes = sat_add(
                    step.apply_output_bytes,
                    sat_add(o.final_size(), o.check_size()),
                );
            }
            i = i + 1;
        }
        proof {
            assert(ops@.subrange(0, ops@.len() as int) =~= ops@);
        }
        step
    }
}

/// Adds `b` to `a`, counter by counter (capped).
fn add_counters(a: &mut Vec<u64>, b: &[u64])
    requires
        old(a)@.len() == b@.len(),
    ensures
        final(a)@.len() == b@.len(),
        forall|i: int| 0 <= i < b@.len() ==> #[trigger] final(a)@[i] == cap(old(a)@[i] + b@[i]),
{
    let mut i: usize = 0;
    while i < b.len()
        invariant
            a@.len() == b@.len(),
            i <= b@.len(),
            forall|j: int| 0 <= j < i ==> #[trigger] a@[j] == cap(old(a)@[j] + b@[j]),
            forall|j: int| i <= j < b@.len() ==> #[trigger] a@[j] == old(a)@[j],
        decreases b@.len() - i,
    {
        let x = sat_add(a[i], b[i]);
        a.set(i, x);
        i = i + 1;
    }
}

/// Takes `b` from `a`, counter by counter (floored at zero).
fn sub_counters(a: &mut Vec<u64>, b: &[u64])
    requires
        old(a)@.len() == b@.len(),
    ensures
        final(a)@.len() == b@.len(),
        forall|i: int| 0 <= i < b@.len() ==> #[trigger] final(a)@[i] == cap(old(a)@[i] - b@[i]),
{
    let mut i: usize = 0;
    while i < b.len()
        invariant
            a@.len() == b@.len(),
            i <= b@.len(),
            forall|j: int| 0 <= j < i ==> #[trigger] a@[j] == cap(old(a)@[j] - b@[j]),
            forall|j: int| i <= j < b@.len() ==> #[trigger] a@[j] == old(a)@[j],
        decreases b@.len() - i,
    {
        let x = a[i].saturating_sub(b[i]);
        a.set(i, x);
        i = i + 1;
    }
}

fn zeros(n: usize) -> (r: Vec<u64>)
    ensures
        r@.len() == n,
        forall|i: int| 0 <= i < n ==> #[trigger] r@[i] == 0,
{
    let mut v: Vec<u64> = Vec::new();
    let mut i: usize = 0;
    while i < n
        invariant
            i <= n,
            v@.len() == i,
            forall|j: int| 0 <= j < i ==> #[trigger] v@[j] == 0,
        decreases n - i,
    {
        v.push(0);
        i = i + 1;
    }
    v
}

/// Progress over some time: a duration (in nanoseconds) and the counters
/// that moved during it.
#[derive(Debug)]
pub struct HistogramStep {
    pub duration: u64,
    pub delta: Vec<u64>,
}

/// A step seen as its duration and its counters.
pub open spec fn step_view(s: HistogramStep) -> (u64, Seq<u64>) {
    (s.duration, s.delta@)
}

pub open spec fn steps_view(v: Seq<HistogramStep>) -> Seq<(u64, Seq<u64>)> {
    v.map_values(|s: HistogramStep| step_view(s))
}

/// Sum of the durations of a window.
pub open spec fn sum_durations(h: Seq<(u64, Seq<u64>)>) -> int
    decreases h.len(),
{
    if h.len() == 0 {
        0
    } else {
        sum_durations(h.drop_last()) + h.last().0
    }
}

/// Sum of counter `i` over a window.
pub open spec fn sum_counter(h: Seq<(u64, Seq<u64>)>, i: int) -> int
    decreases h.len(),
{
    if h.len() == 0 {
        0
    } else {
        sum_counter(h.drop_last(), i) + h.last().1[i]
    }
}

/// What recording counters that moved by `delta` at time `now` does to the
/// window of `before`, giving `after`: the last step grows while it is
/// shorter than a step's minimum duration (`r` false); otherwise a new step
/// begins, dropping the oldest when the window is full (`r` true).
pub open spec fn records(before: Histogram, after: Histogram, delta: Seq<u64>, now: u64, r: bool) -> bool {
    let h = before.spec_history();
    let d = cap(now - before.spec_last_instant());
    &&& after.spec_last_instant() == now
    &&& if h.len() > 0 && h.last().0 < before.spec_step_min_duration() {
        &&& !r
        &&& after.spec_history().len() == h.len()
        &&& after.spec_history().drop_last() == h.drop_last()
        &&& after.spec_history().last().0 == cap(h.last().0 + d)
        &&& forall|i: int|
            0 <= i < delta.len() ==> #[trigger] after.spec_history().last().1[i] == cap(
                h.last().1[i] + delta[i],
            )
    } else {
        &&& r
        &&& after.spec_history() == (if h.len() == before.spec_steps() {
            h.drop_first()
        } else {
            h
        }).push((d, delta))
    }
}

/// How far each cumulative counter moved from `old` to `new` (0 for a
/// counter that went back).
pub open spec fn moved(new: Seq<u64>, old: Seq<u64>) -> Seq<u64> {
    Seq::new(new.len(), |i: int| cap(new[i] - old[i]))
}

/// A rolling-window rate estimator over a vector of cumulative counters.
///
/// The window holds at most `steps` steps; a step grows until it lasts the
/// window duration divided by `steps`, then a new one begins and, when the
/// window is full, the oldest is dropped. The speed is what moved within
/// the window, and over how long.
#[derive(Debug)]
pub struct Histogram {
    /// Time of the last record, in nanoseconds
    pub last_instant: u64,
    /// The cumulative counters
    pub last_progression: Vec<u64>,
    /// The window's steps, oldest first
    pub history: Vec<HistogramStep>,
    /// Most steps the window holds
    pub steps: usize,
    /// Duration after which a step is complete
    pub step_min_duration: u64,
}

impl Histogram {
    /// Number of counters.
    pub open spec fn width(&self) -> nat {
        self.last_progression@.len()
    }

    /// The cumulative counters.
    pub open spec fn spec_progress(&self) -> Seq<u64> {
        self.last_progression@
    }

    /// The steps of the window, oldest first.
    pub open spec fn spec_history(&self) -> Seq<(u64, Seq<u64>)> {
        steps_view(self.history@)
    }

    pub open spec fn spec_steps(&self) -> nat {
        self.steps as nat
    }

    pub open spec fn spec_step_min_duration(&self) -> u64 {
        self.step_min_duration
    }

    pub open spec fn spec_last_instant(&self) -> u64 {
        self.last_instant
    }

    /// At least one step fits, the window holds at most `steps` steps, and
    /// every step has one counter per counter of the histogram.
    pub open spec fn wf(&self) -> bool {
        &&& self.steps > 0
        &&& self.history@.len() <= self.steps
        &&& forall|i: int|
            0 <= i < self.history@.len() ==> (#[trigger] self.history@[i]).delta@.len()
                == self.width()
    }

    /// An empty window of `steps` steps over `duration` nanoseconds, for
    /// `width` counters, starting at time `now`.
    pub fn new(steps: usize, duration: u64, width: usize, now: u64) -> (r: Histogram)
        requires
            steps > 0,
        ensures
            r.wf(),
            r.width() == width,
            r.spec_steps() == steps,
            r.spec_history().len() == 0,
            r.spec_step_min_duration() == duration / (steps as u64),
            r.spec_last_instant() == now,
            forall|i: int| 0 <= i < width ==> #[trigger] r.spec_progress()[i] == 0,
    {
        Histogram {
            last_instant: now,
            last_progression: zeros(width),
            history: Vec::new(),
            steps,
            step_min_duration: duration / (steps as u64),
        }
    }

    /// Records counters that moved by `delta` at time `now`. The last step
    /// grows while it is shorter than a step's minimum duration; otherwise a
    /// new step begins, dropping the oldest when the window is full, and the
    /// result is `true`.
    pub fn inc(&mut self, delta: &[u64], now: u64) -> (r: bool)
        requires
            old(self).wf(),
            delta@.len() == old(self).width(),
        ensures
            final(self).wf(),
            final(self).width() == old(self).width(),
            final(self).spec_steps() == old(self).spec_steps(),
            final(self).spec_step_min_duration() == old(self).spec_step_min_duration(),
            final(self).spec_last_instant() == now,
            forall|i: int|
                0 <= i < delta@.len() ==> #[trigger] final(self).spec_progress()[i] == cap(
                    old(self).spec_progress()[i] + delta@[i],
                ),
            records(*old(self), *final(self), delta@, now, r),
    {
        let duration = now.saturating_sub(self.last_instant);
        self.last_instant = now;
        add_counters(&mut self.last_progression, delta);
        let n = self.history.len();
        let ghost h = steps_view(self.history@);
        if n > 0 && self.history[n - 1].duration < self.step_min_duration {
            let mut last = self.history.pop().unwrap();
            last.duration = sat_add(last.duration, duration);
            add_counters(&mut last.delta, delta);
            self.history.push(last);
            proof {
                assert(steps_view(self.history@).drop_last() =~= h.drop_last());
                assert forall|i: int| 0 <= i < self.history@.len() implies (
                #[trigger] self.history@[i]).delta@.len() == self.width() by {
                    if i < n - 1 {
                        assert(self.history@[i] == old(self).history@[i]);
                    }
                }
            }
            return false;
        }
        if n == self.steps {
            let _front = self.history.remove(0);
            proof {
                assert(steps_view(self.history@) =~= h.drop_first());
                assert forall|i: int| 0 <= i < self.history@.len() implies (
                #[trigger] self.history@[i]).delta@.len() == self.width() by {
                    assert(self.history@[i] == old(self).history@[i + 1]);
                }
            }
        }
        let ghost before = self.history@;
        self.history.push(HistogramStep { duration, delta: slice_to_vec(delta) });
        proof {
            assert(steps_view(self.history@) =~= steps_view(before).push((duration, delta@)));
            assert forall|i: int| 0 <= i < self.history@.len() implies (
            #[trigger] self.history@[i]).delta@.len() == self.width() by {
                if i < before.len() {
                    assert(self.history@[i] == before[i]);
                }
            }
        }
        true
    }

    /// Records cumulative counters `progress` at time `now`: what moved since
    /// the last record (nothing for a counter that went back) is recorded as
    /// `inc` records it.
    pub fn add(&mut self, progress: &[u64], now: u64) -> (r: bool)
        requires
            old(self).wf(),
            progress@.len() == old(self).width(),
        ensures
            final(self).wf(),
            final(self).width() == old(self).width(),
            forall|i: int|
                0 <= i < progress@.len() ==> #[trigger] final(self).spec_progress()[i] == if progress@[i]
                    >= old(self).spec_progress()[i] {
                    progress@[i]
                } else {
                    old(self).spec_progress()[i]
                },
            final(self).spec_steps() == old(self).spec_steps(),
            final(self).spec_step_min_duration() == old(self).spec_step_min_duration(),
            records(*old(self), *final(self), moved(progress@, old(self).spec_progress()), now, r),
    {
        let mut delta = slice_to_vec(progress);
        sub_counters(&mut delta, self.last_progression.as_slice());
        assert(delta@ =~= moved(progress@, old(self).spec_progress()));
        self.inc(delta.as_slice(), now)
    }

    /// The cumulative counters.
    pub fn progress(&self) -> (r: &[u64])
        ensures
            r@ == self.spec_progress(),
    {
        self.last_progression.as_slice()
    }

    /// What moved within the window, and over how long (each sum capped at
    /// the largest `u64`).
    pub fn speed(&self) -> (r: HistogramStep)
        requires
            self.wf(),
        ensures
            r.duration == cap(sum_durations(self.spec_history())),
            r.delta@.len() == self.width(),
            forall|i: int|
                0 <= i < self.width() ==> #[trigger] r.delta@[i] == cap(
                    sum_counter(self.spec_history(), i),
                ),
    {
        let width = self.last_progression.len();
        let mut duration: u64 = 0;
        let mut delta = zeros(width);
        let mut k: usize = 0;
        while k < self.history.len()
            invariant
                self.wf(),
                width == self.width(),
                k <= self.history@.len(),
                delta@.len() == width,
                duration == cap(sum_durations(self.spec_history().subrange(0, k as int))),
                forall|i: int|
                    0 <= i < width ==> #[trigger] delta@[i] == cap(
                        sum_counter(self.spec_history().subrange(0, k as int), i),
                    ),
            decreases self.history@.len() - k,
        {
            let ghost sub = self.spec_history().subrange(0, k + 1);
            proof {
                assert(sub.drop_last() =~= self.spec_history().subrange(0, k as int));
                assert(sub.last() == step_view(self.history@[k as int]));
                lemma_sums_nonneg(self.spec_history().subrange(0, k as int), width as int);
            }
            let step = &self.history[k];
            duration = sat_add(duration, step.duration);
            let ghost before = delta@;
            add_counters(&mut delta, step.delta.as_slice());
            proof {
                assert forall|i: int| 0 <= i < width implies #[trigger] delta@[i] == cap(
                    sum_counter(sub, i),
                ) by {
                    assert(before[i] == cap(
                        sum_counter(self.spec_history().subrange(0, k as int), i),
                    ));
                }
            }
            k = k + 1;
        }
        proof {
            assert(self.spec_history().subrange(0, self.history@.len() as int) =~= self.spec_history());
        }
        HistogramStep { duration, delta }
    }
}

proof fn lemma_sums_nonneg(h: Seq<(u64, Seq<u64>)>, width: int)
    ensures
        sum_durations(h) >= 0,
        forall|i: int| 0 <= i < width ==> #[trigger] sum_counter(h, i) >= 0,
    decreases h.len(),
{
    if h.len() > 0 {
        lemma_sums_nonneg(h.drop_last(), width);
        assert forall|i: int| 0 <= i < width implies #[trigger] sum_counter(h, i) >= 0 by {
            assert(sum_counter(h.drop_last(), i) >= 0);
        }
    }
}

/// Global progress of an update.
#[derive(Debug)]
pub struct UpdateProgress {
    /// Current update target revision
    pub target_revision: CleanName,
    /// Current update stage
    pub stage: UpdateStage,
    /// Number of files to download
    pub download_files: u64,
    /// Number of bytes to download
    pub download_bytes: u64,
    /// Number of files to install
    pub apply_files: u64,
    /// Number of bytes to apply
    pub apply_input_bytes: u64,
    /// Number of bytes to install
    pub apply_output_bytes: u64,
    /// Current package being downloaded
    pub downloading_package_idx: usize,
    /// Current operation being downloaded
    pub downloading_operation_idx: usize,
    /// Current package being applied
    pub applying_package_idx: usize,
    /// Current operation being applied
    pub applying_operation_idx: usize,
    /// Global update progression histogram
    pub histogram: Histogram,
    /// Per package objectives
    pub steps: Vec<UpdateStepState>,
}

/// Number of counters of a `Progression`.
pub const PROGRESSION_WIDTH: usize = 6;

impl UpdateProgress {
    /// Nothing planned yet; `now` starts the rate window (in nanoseconds).
    pub fn new(target_revision: CleanName, now: u64) -> (r: UpdateProgress)
        ensures
            r.target_revision@ == target_revision@,
            r.stage == UpdateStage::FindingUpdatePath,
            r.download_files == 0 && r.download_bytes == 0 && r.apply_files == 0,
            r.apply_input_bytes == 0 && r.apply_output_bytes == 0,
            r.downloading_package_idx == 0 && r.downloading_operation_idx == 0,
            r.applying_package_idx == 0 && r.applying_operation_idx == 0,
            r.steps@.len() == 0,
            r.histogram.wf(),
            r.histogram.width() == PROGRESSION_WIDTH,
    {
        UpdateProgress {
            target_revision,
            stage: UpdateStage::FindingUpdatePath,
            download_files: 0,
            download_bytes: 0,
            apply_files: 0,
            apply_input_bytes: 0,
            apply_output_bytes: 0,
            downloading_package_idx: 0,
            downloading_operation_idx: 0,
            applying_package_idx: 0,
            applying_operation_idx: 0,
            histogram: Histogram::new(10, 2_000_000_000, PROGRESSION_WIDTH, now),
            steps: Vec::new(),
        }
    }

    /// The objectives of the package being downloaded.
    pub fn current_step(&self) -> (r: Option<&UpdateStepState>)
        ensures
            self.downloading_package_idx < self.steps@.len() ==> r == Some(
                &self.steps@[self.downloading_package_idx as int],
            ),
            self.downloading_package_idx >= self.steps@.len() ==> r is None,
    {
        if self.downloading_package_idx < self.steps.len() {
            Some(&self.steps[self.downloading_package_idx])
        } else {
            None
        }
    }

    /// Counts `delta` in the current package and in the global window.
    pub fn inc_progress(&mut self, delta: &Progression, now: u64)
        requires
            old(self).histogram.wf(),
            old(self).histogram.width() == PROGRESSION_WIDTH,
        ensures
            final(self).histogram.wf(),
            final(self).histogram.width() == PROGRESSION_WIDTH,
            final(self).steps@.len() == old(self).steps@.len(),
            final(self).downloading_package_idx == old(self).downloading_package_idx,
            forall|i: int|
                0 <= i < 6 ==> #[trigger] final(self).histogram.spec_progress()[i] == cap(
                    old(self).histogram.spec_progress()[i] + delta.counters()[i],
                ),
            old(self).downloading_package_idx < old(self).steps@.len() ==> forall|i: int|
                0 <= i < 6 ==> #[trigger] final(self).steps@[old(
                    self,
                ).downloading_package_idx as int].progression.counters()[i] == cap(
                    old(self).steps@[old(self).downloading_package_idx as int].progression.counters()[i]
                        + delta.counters()[i],
                ),
    {
        let k = self.downloading_package_idx;
        if k < self.steps.len() {
            let mut step = self.steps.remove(k);
            step.progression.add(delta);
            self.steps.insert(k, step);
        }
        let counters = delta.to_counters();
        self.histogram.inc(counters.as_slice(), now);
    }

    /// Moves on to the next package.
    pub fn inc_package(&mut self)
        requires
            old(self).downloading_package_idx < usize::MAX,
            old(self).applying_package_idx < usize::MAX,
        ensures
            final(self).downloading_package_idx == old(self).downloading_package_idx + 1,
            final(self).applying_package_idx == old(self).applying_package_idx + 1,
            final(self).steps@ == old(self).steps@,
    {
        self.downloading_package_idx = self.downloading_package_idx + 1;
        self.applying_package_idx = self.applying_package_idx + 1;
    }

    /// Adds the objectives of the planned packages. The first package takes
    /// the check-only mode of `first_state`; the next ones do not.
    pub fn push_steps(
        &mut self,
        packages: &[PackageMetadata],
        first_state: &StateUpdating,
        filter: &UpdateFilter,
    )
        ensures
            final(self).steps@.len() == old(self).steps@.len() + packages@.len(),
            forall|k: int|
                0 <= k < packages@.len() ==> {
                    let step = #[trigger] final(self).steps@[old(self).steps@.len() + k];
                    let a = admitted(packages@[k].spec_operations(), filter.keys());
                    let check_only = k == 0 && first_state.check_only;
                    &&& step.apply_files == cap(a.len() as int)
                    &&& step.apply_input_bytes == cap(sum_of(a, input_of(check_only)))
                    &&& step.apply_output_bytes == cap(sum_of(a, |o: Operation| output_of(o)))
                    &&& step.download_bytes == if check_only {
                        0
                    } else {
                        cap(sum_of(a, |o: Operation| data_of(o)))
                    }
                },
            final(self).histogram == old(self).histogram,
    {
        let ghost start = self.steps@;
        let mut k: usize = 0;
        while k < packages.len()
            invariant
                k <= packages@.len(),
                self.steps@.len() == start.len() + k,
                self.histogram == old(self).histogram,
                forall|j: int| 0 <= j < start.len() ==> #[trigger] self.steps@[j] == start[j],
                forall|j: int|
                    0 <= j < k ==> {
                        let step = #[trigger] self.steps@[start.len() + j];
                        let a = admitted(packages@[j].spec_operations(), filter.keys());
                        let check_only = j == 0 && first_state.check_only;
                        &&& step.apply_files == cap(a.len() as int)
                        &&& step.apply_input_bytes == cap(sum_of(a, input_of(check_only)))
                        &&& step.apply_output_bytes == cap(
                            sum_of(a, |o: Operation| output_of(o)),
                        )
                        &&& step.download_bytes == if check_only {
                            0
                        } else {
                            cap(sum_of(a, |o: Operation| data_of(o)))
                        }
                    },
            decreases packages@.len() - k,
        {
            let check_only = k == 0 && first_state.check_only;
            let step = UpdateStepState::objectives(packages[k].iter(), filter, check_only);
            self.download_files = sat_add(self.download_files, step.download_files);
            self.download_bytes = sat_add(self.download_bytes, step.download_bytes);
            self.apply_files = sat_add(self.apply_files, step.apply_files);
            self.apply_input_bytes = sat_add(self.apply_input_bytes, step.apply_input_bytes);
            self.apply_output_bytes = sat_add(self.apply_output_bytes, step.apply_output_bytes);
            self.steps.push(step);
            k = k + 1;
        }
    }
}

/// Global progress of a check.
#[derive(Debug)]
pub struct CheckProgress {
    /// Number of files to check
    pub check_files: u64,
    /// Number of bytes to check
    pub check_bytes: u64,
    /// Current operation being checked
    pub checking_operation_idx: usize,
}

impl CheckProgress {
    /// The objectives of checking `checks`.
    pub fn new(checks: &[Operation]) -> (r: CheckProgress)
        ensures
            r.check_files == cap(checks@.len() as int),
            r.check_bytes == cap(sum_of(checks@, |o: Operation| o.spec_check_size() as int)),
            r.checking_operation_idx == 0,
    {
        let mut files: u64 = 0;
        let mut bytes: u64 = 0;
        let mut i: usize = 0;
        while i < checks.len()
            invariant
                i <= checks@.len(),
                files == cap(i as int),
                bytes == cap(sum_of(checks@.subrange(0, i as int), |o: Operation| o.spec_check_size() as int)),
            decreases checks@.len() - i,
        {
            proof {
                let p = checks@.subrange(0, i as int);
                assert(checks@.subrange(0, i + 1).drop_last() =~= p);
                lemma_sum_nonneg(p, |o: Operation| o.spec_check_size() as int);
            }
            files = sat_add(files, 1);
            bytes = sat_add(bytes, checks[i].check_size());
            i = i + 1;
        }
        proof {
            assert(checks@.subrange(0, checks@.len() as int) =~= checks@);
        }
        CheckProgress { check_files: files, check_bytes: bytes, checking_operation_idx: 0 }
    }
}

} // verus!
