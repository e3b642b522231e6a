//! The progress tracker: a running estimate of the size of a download that
//! becomes exact as segments complete.
//!
//! Before the first byte arrives the size is estimated from the bitrate of
//! the stream and the expected duration of each segment. When a segment
//! completes, its estimate is taken out of the total and its real size put
//! in, and only then is the real size counted as consumed, so that what was
//! consumed never exceeds the total.

use vstd::prelude::*;

verus! {

/// Why a completed segment cannot be entered into the progress.
#[derive(Clone, Copy, Debug, PartialEq, Eq, Structural)]
pub enum ProgressError {
    /// The stream has no segment with that index.
    UnknownSegment,
    /// The segment was entered before.
    AlreadyReconciled,
    /// The corrected total does not fit in 64 bits.
    Overflow,
}

/// The number of bytes that one second of a stream of `bandwidth` bits per
/// second takes.
pub open spec fn bytes_per_second(bandwidth: u64) -> int {
    bandwidth as int / 8
}

/// The sum of `durations`.
pub open spec fn sum(durations: Seq<u64>) -> int
    decreases durations.len(),
{
    if durations.len() == 0 {
        0
    } else {
        sum(durations.drop_last()) + durations.last()
    }
}

/// The sum of the durations of the segments that are not reconciled yet.
pub open spec fn outstanding(durations: Seq<u64>, reconciled: Seq<bool>) -> int
    decreases durations.len(),
{
    if durations.len() == 0 || reconciled.len() != durations.len() {
        0
    } else if reconciled.last() {
        outstanding(durations.drop_last(), reconciled.drop_last())
    } else {
        outstanding(durations.drop_last(), reconciled.drop_last()) + durations.last()
    }
}

/// The size in bytes that a stream of `bandwidth` bits per second is
/// expected to have, given the expected duration in seconds of each of its
/// segments.
pub open spec fn estimate(bandwidth: u64, durations: Seq<u64>) -> int {
    bytes_per_second(bandwidth) * sum(durations)
}

/// The state of the progress of one download.
pub struct ProgressState {
    /// Bytes per second of the stream.
    pub rate: int,
    /// The expected duration of each segment, in seconds.
    pub durations: Seq<u64>,
    /// Which segments have had their estimate replaced by their real size.
    pub reconciled: Seq<bool>,
    /// The current estimate of the size of the download, in bytes.
    pub total_estimate: int,
    /// The bytes that have arrived.
    pub consumed: int,
}

impl ProgressState {
    /// The state before any segment has completed.
    pub open spec fn start(bandwidth: u64, durations: Seq<u64>) -> ProgressState {
        ProgressState {
            rate: bytes_per_second(bandwidth),
            durations,
            reconciled: Seq::new(durations.len(), |i: int| false),
            total_estimate: estimate(bandwidth, durations),
            consumed: 0,
        }
    }

    /// The total is what was consumed plus the estimates of the segments that
    /// are still outstanding.
    pub open spec fn wf(self) -> bool {
        &&& 0 <= self.rate
        &&& self.reconciled.len() == self.durations.len()
        &&& 0 <= self.consumed
        &&& self.total_estimate == self.consumed + self.rate * outstanding(
            self.durations,
            self.reconciled,
        )
    }

    /// The estimated size of segment `index`.
    pub open spec fn estimate_of(self, index: int) -> int {
        self.rate * self.durations[index]
    }

    /// Whether segment `index` exists and is still outstanding.
    pub open spec fn awaits(self, index: int) -> bool {
        0 <= index < self.durations.len() && !self.reconciled[index]
    }

    /// The total once the estimate of segment `index` has given way to its
    /// real size `actual`.
    pub open spec fn corrected_total(self, index: int, actual: u64) -> int {
        self.total_estimate - self.estimate_of(index) + actual
    }

    /// The state once segment `index` has completed with `actual` bytes.
    pub open spec fn reconcile(self, index: int, actual: u64) -> ProgressState {
        ProgressState {
            rate: self.rate,
            durations: self.durations,
            reconciled: self.reconciled.update(index, true),
            total_estimate: self.corrected_total(index, actual),
            consumed: self.consumed + actual,
        }
    }
}

/// The progress of one download.
pub struct Progress {
    rate: u64,
    durations: Vec<u64>,
    reconciled: Vec<bool>,
    total_estimate: u64,
    consumed: u64,
}

impl View for Progress {
    type V = ProgressState;

    closed spec fn view(&self) -> ProgressState {
        ProgressState {
            rate: self.rate as int,
            durations: self.durations@,
            reconciled: self.reconciled@,
            total_estimate: self.total_estimate as int,
            consumed: self.consumed as int,
        }
    }
}

/// A sum of durations is not negative, and no smaller than the sum of any
/// prefix.
pub proof fn lemma_sum_of_prefix(durations: Seq<u64>, n: int)
    requires
        0 <= n <= durations.len(),
    ensures
        0 <= sum(durations.take(n)) <= sum(durations),
    decreases durations.len() - n,
{
    if n == 0 {
        lemma_sum_nonnegative(durations);
        assert(durations.take(0) =~= Seq::<u64>::empty());
    } else if n == durations.len() {
        assert(durations.take(n) =~= durations);
        lemma_sum_nonnegative(durations);
    } else {
        lemma_sum_of_prefix(durations, n + 1);
        assert(durations.take(n + 1).drop_last() =~= durations.take(n));
        lemma_sum_nonnegative(durations.take(n));
    }
}

/// A sum of durations is not negative.
pub proof fn lemma_sum_nonnegative(durations: Seq<u64>)
    ensures
        0 <= sum(durations),
    decreases durations.len(),
{
    if durations.len() > 0 {
        lemma_sum_nonnegative(durations.drop_last());
    }
}

/// While no segment is reconciled, every duration is outstanding.
pub proof fn lemma_outstanding_at_start(durations: Seq<u64>)
    ensures
        outstanding(durations, Seq::new(durations.len(), |i: int| false)) == sum(durations),
    decreases durations.len(),
{
    if durations.len() > 0 {
        let flags = Seq::new(durations.len(), |i: int| false);
        lemma_outstanding_at_start(durations.drop_last());
        assert(flags.drop_last() =~= Seq::new(durations.drop_last().len(), |i: int| false));
    }
}

/// What is outstanding is not negative and includes the duration of each
/// segment that is not reconciled; reconciling a segment takes its duration
/// out.
pub proof fn lemma_outstanding_without(durations: Seq<u64>, reconciled: Seq<bool>, index: int)
    requires
        reconciled.len() == durations.len(),
        0 <= index < durations.len(),
        !reconciled[index],
    ensures
        0 <= outstanding(durations, reconciled.update(index, true)),
        outstanding(durations, reconciled.update(index, true)) == outstanding(
            durations,
            reconciled,
        ) - durations[index],
    decreases durations.len(),
{
    let last = durations.len() - 1;
    let after = reconciled.update(index, true);
    if index == last {
        assert(after.drop_last() =~= reconciled.drop_last());
        lemma_outstanding_nonnegative(durations.drop_last(), reconciled.drop_last());
    } else {
        lemma_outstanding_without(durations.drop_last(), reconciled.drop_last(), index);
        assert(after.drop_last() =~= reconciled.drop_last().update(index, true));
    }
}

/// What is outstanding is not negative.
pub proof fn lemma_outstanding_nonnegative(durations: Seq<u64>, reconciled: Seq<bool>)
    ensures
        0 <= outstanding(durations, reconciled),
    decreases durations.len(),
{
    if durations.len() > 0 && reconciled.len() == durations.len() {
        lemma_outstanding_nonnegative(durations.drop_last(), reconciled.drop_last());
    }
}

/// In a well-formed state what was consumed does not exceed the total, and
/// the estimate of an outstanding segment is part of the difference.
pub proof fn lemma_consumed_within_total(state: ProgressState)
    requires
        state.wf(),
    ensures
        state.consumed <= state.total_estimate,
        forall|index: int| #[trigger]
            state.awaits(index) ==> 0 <= state.estimate_of(index) <= state.total_estimate
                - state.consumed,
{
    lemma_outstanding_nonnegative(state.durations, state.reconciled);
    let rest = outstanding(state.durations, state.reconciled);
    assert(0 <= state.rate * rest) by (nonlinear_arith)
        requires
            0 <= state.rate,
            0 <= rest,
    ;
    assert forall|index: int| #[trigger] state.awaits(index) implies 0 <= state.estimate_of(index)
        <= state.total_estimate - state.consumed by {
        lemma_outstanding_without(state.durations, state.reconciled, index);
        let d = state.durations[index] as int;
        assert(0 <= state.rate * d <= state.rate * rest) by (nonlinear_arith)
            requires
                0 <= state.rate,
                0 <= d <= rest,
        ;
    }
}

/// Reconciling an outstanding segment keeps the state well formed, whatever
/// the real size: the total is corrected before the bytes are counted, so
/// that neither the old nor the new count of consumed bytes exceeds the new
/// total.
pub proof fn lemma_reconcile_keeps_consumed_within_total(
    state: ProgressState,
    index: int,
    actual: u64,
)
    requires
        state.wf(),
        state.awaits(index),
    ensures
        state.reconcile(index, actual).wf(),
        state.consumed <= state.reconcile(index, actual).consumed,
        state.consumed <= state.reconcile(index, actual).total_estimate,
        state.reconcile(index, actual).consumed <= state.reconcile(index, actual).total_estimate,
{
    lemma_outstanding_without(state.durations, state.reconciled, index);
    let rest = outstanding(state.durations, state.reconciled);
    let d = state.durations[index] as int;
    assert(state.rate * (rest - d) == state.rate * rest - state.rate * d) by (nonlinear_arith);
    lemma_consumed_within_total(state.reconcile(index, actual));
}

/// Once every segment is reconciled nothing is estimated any more: the total
/// is exactly what was consumed.
pub proof fn lemma_total_is_exact_in_the_end(state: ProgressState)
    requires
        state.wf(),
        forall|index: int| 0 <= index < state.reconciled.len() ==> state.reconciled[index],
    ensures
        state.total_estimate == state.consumed,
{
    lemma_nothing_outstanding(state.durations, state.reconciled);
    assert(state.rate * 0 == 0) by (nonlinear_arith);
}

/// Where every segment is reconciled, nothing is outstanding.
proof fn lemma_nothing_outstanding(durations: Seq<u64>, reconciled: Seq<bool>)
    requires
        forall|index: int| 0 <= index < reconciled.len() ==> reconciled[index],
    ensures
        outstanding(durations, reconciled) == 0,
    decreases durations.len(),
{
    if durations.len() > 0 && reconciled.len() == durations.len() {
        assert(reconciled.last());
        lemma_nothing_outstanding(durations.drop_last(), reconciled.drop_last());
    }
}

impl Progress {
    /// Between calls the total is what was consumed plus the estimates of the
    /// segments that are still outstanding.
    #[verifier::type_invariant]
    spec fn well_formed(self) -> bool {
        self@.wf()
    }

    /// Starts the progress of a stream of `bandwidth` bits per second whose
    /// segments are expected to last `durations` seconds each. The total
    /// starts at the estimate for the whole stream; `None` if that estimate
    /// does not fit in 64 bits.
    pub fn new(bandwidth: u64, durations: Vec<u64>) -> (progress: Option<Progress>)
        ensures
            match progress {
                Some(p) => p@ == ProgressState::start(bandwidth, durations@) && p@.wf(),
                None => estimate(bandwidth, durations@) > u64::MAX,
            },
    {
        let rate: u64 = bandwidth / 8;
        let mut seconds: u64 = 0;
        let mut reconciled: Vec<bool> = Vec::new();
        let mut i: usize = 0;
        while i < durations.len()
            invariant
                i <= durations.len(),
                rate == bytes_per_second(bandwidth),
                reconciled@ == Seq::new(i as nat, |k: int| false),
                rate == 0 || seconds == sum(durations@.take(i as int)),
            decreases durations.len() - i,
        {
            proof {
                assert(durations@.take(i + 1).drop_last() =~= durations@.take(i as int));
                lemma_sum_of_prefix(durations@, i + 1);
            }
            if rate != 0 {
                match seconds.checked_add(durations[i]) {
                    Some(more) => {
                        seconds = more;
                    },
                    None => {
                        proof {
                            let long = sum(durations@);
                            assert(rate * long > u64::MAX) by (nonlinear_arith)
                                requires
                                    rate >= 1,
                                    long > u64::MAX,
                            ;
                        }
                        return None;
                    },
                }
            }
            reconciled.push(false);
            assert(reconciled@ =~= Seq::new((i + 1) as nat, |k: int| false));
            i += 1;
        }
        proof {
            assert(durations@.take(i as int) =~= durations@);
            lemma_outstanding_at_start(durations@);
            lemma_sum_nonnegative(durations@);
            if rate == 0 {
                assert(rate * sum(durations@) == 0) by (nonlinear_arith)
                    requires
                        rate == 0,
                ;
            }
        }
        let total: u64 = if rate == 0 {
            0
        } else {
            match rate.checked_mul(seconds) {
                Some(total) => total,
                None => {
                    return None;
                },
            }
        };
        Some(Progress { rate, durations, reconciled, total_estimate: total, consumed: 0 })
    }

    /// Enters the completion of segment `index` with `actual` bytes: the
    /// estimate of the segment is taken out of the total and `actual` put in,
    /// and `actual` is added to what was consumed.
    ///
    /// Nothing changes, and the reason is returned, if the stream has no such
    /// segment, if the segment was entered before, or if the corrected total
    /// does not fit in 64 bits.
    pub fn reconcile(&mut self, index: usize, actual: u64) -> (result: Result<(), ProgressError>)
        ensures
            final(self)@.wf(),
            final(self)@.consumed <= final(self)@.total_estimate,
            old(self)@.consumed <= final(self)@.total_estimate,
            old(self)@.consumed <= final(self)@.consumed,
            match result {
                Ok(()) => {
                    &&& old(self)@.awaits(index as int)
                    &&& old(self)@.corrected_total(index as int, actual) <= u64::MAX
                    &&& final(self)@ == old(self)@.reconcile(index as int, actual)
                },
                Err(error) => {
                    &&& final(self)@ == old(self)@
                    &&& error == if index >= old(self)@.durations.len() {
                        ProgressError::UnknownSegment
                    } else if old(self)@.reconciled[index as int] {
                        ProgressError::AlreadyReconciled
                    } else {
                        ProgressError::Overflow
                    }
                    &&& old(self)@.awaits(index as int) ==> old(self)@.corrected_total(
                        index as int,
                        actual,
                    ) > u64::MAX
                },
            },
    {
        proof {
            use_type_invariant(&*self);
            lemma_consumed_within_total(self@);
        }
        if index >= self.durations.len() {
            return Err(ProgressError::UnknownSegment);
        }
        if self.reconciled[index] {
            return Err(ProgressError::AlreadyReconciled);
        }
        let ghost before = self@;
        proof {
            assert(before.awaits(index as int));
            lemma_reconcile_keeps_consumed_within_total(before, index as int, actual);
        }
        let estimated: u64 = self.rate * self.durations[index];
        let rest: u64 = self.total_estimate - estimated;
        match rest.checked_add(actual) {
            Some(total) => {
                // The three parts of the state change together: the state is
                // taken out of `self`, and the new one is put in as a whole.
                let mut taken = Progress {
                    rate: 0,
                    durations: Vec::new(),
                    reconciled: Vec::new(),
                    total_estimate: 0,
                    consumed: 0,
                };
                core::mem::swap(self, &mut taken);
                let Progress { rate, durations, reconciled, total_estimate: _, consumed } = taken;
                let mut reconciled = reconciled;
                reconciled.set(index, true);
                *self = Progress {
                    rate,
                    durations,
                    reconciled,
                    total_estimate: total,
                    consumed: consumed + actual,
                };
                Ok(())
            },
            None => Err(ProgressError::Overflow),
        }
    }

    /// The current estimate of the size of the download, in bytes.
    pub fn total_estimate(&self) -> (total: u64)
        ensures
            total == self@.total_estimate,
            self@.consumed <= total,
    {
        proof {
            use_type_invariant(self);
            lemma_consumed_within_total(self@);
        }
        self.total_estimate
    }

    /// The bytes that have arrived so far.
    pub fn consumed(&self) -> (consumed: u64)
        ensures
            consumed == self@.consumed,
            consumed <= self@.total_estimate,
    {
        proof {
            use_type_invariant(self);
            lemma_consumed_within_total(self@);
        }
        self.consumed
    }
}

} // verus!
