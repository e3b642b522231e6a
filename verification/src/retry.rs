//! The retry policy of a fetch: a failed attempt is repeated at once, without
//! delay, until the segment arrives or a fixed number of attempts has failed.
//! A segment that cannot be fetched ends the whole download, since the
//! stream cannot be put together without it.

use vstd::prelude::*;
use crate::error::DownloadError;

verus! {

/// The number of failed attempts after which a segment is given up.
pub const MAX_ATTEMPTS: u32 = 5;

/// The number of seconds after which one attempt is counted as failed.
pub const ATTEMPT_TIMEOUT_SECS: u64 = 30;

/// What follows a failed attempt.
#[derive(Clone, Copy, Debug, PartialEq, Eq, Structural)]
pub enum RetryDecision {
    /// Fetch the segment again.
    Retry,
    /// Every allowed attempt has failed: the download ends.
    GiveUp,
}

/// How the fetch of one segment ends.
#[derive(Clone, Copy, Debug, PartialEq, Eq, Structural)]
pub enum FetchOutcome {
    /// An attempt succeeded in time.
    Delivered,
    /// Every allowed attempt failed.
    Abandoned,
    /// The attempts made so far all failed, and more are allowed.
    Unfinished,
}

/// What follows a failed attempt that `failed` failed attempts preceded.
pub open spec fn decision_after(failed: nat) -> RetryDecision {
    if failed + 1 < MAX_ATTEMPTS {
        RetryDecision::Retry
    } else {
        RetryDecision::GiveUp
    }
}

/// The count of failed attempts after one more: it stops at the bound.
pub open spec fn failures_after(failed: nat) -> nat {
    if failed < MAX_ATTEMPTS {
        failed + 1
    } else {
        failed
    }
}

/// How the fetch of a segment ends after `failed` failed attempts, when the
/// attempts that follow succeed or fail as `attempts` says, in order (`true`
/// for success): with the first success, unless the bound is reached before.
pub open spec fn fetch_outcome(failed: nat, attempts: Seq<bool>) -> FetchOutcome
    decreases attempts.len(),
{
    if attempts.len() == 0 {
        FetchOutcome::Unfinished
    } else if attempts[0] {
        FetchOutcome::Delivered
    } else if decision_after(failed) == RetryDecision::GiveUp {
        FetchOutcome::Abandoned
    } else {
        fetch_outcome(failures_after(failed), attempts.drop_first())
    }
}

/// A sequence of attempts ends as its first attempt does, unless that one
/// fails with more attempts allowed: then it ends as the rest does, with one
/// more failure counted.
pub proof fn lemma_fetch_outcome_step(failed: nat, first: bool, rest: Seq<bool>)
    ensures
        fetch_outcome(failed, seq![first] + rest) == if fetch_outcome(failed, seq![first])
            == FetchOutcome::Unfinished {
            fetch_outcome(failures_after(failed), rest)
        } else {
            fetch_outcome(failed, seq![first])
        },
{
    let one = seq![first];
    let all = one + rest;
    assert(one.len() == 1 && one[0] == first);
    assert(all[0] == first);
    assert(all.drop_first() =~= rest);
    assert(one.drop_first() =~= Seq::<bool>::empty());
    assert(fetch_outcome(failures_after(failed), one.drop_first()) == FetchOutcome::Unfinished);
}

/// The attempts on a transport that fails `failures` times and then
/// succeeds.
pub open spec fn fails_then_succeeds(failures: nat) -> Seq<bool> {
    Seq::new(failures + 1, |i: int| i == failures)
}

/// After `failed` failed attempts, with the bound not reached, a transport
/// that fails `failures` more times and then succeeds delivers the segment
/// exactly when fewer than `MAX_ATTEMPTS` attempts fail in all.
pub proof fn lemma_retry_bound_from(failed: nat, failures: nat)
    requires
        failed < MAX_ATTEMPTS,
    ensures
        fetch_outcome(failed, fails_then_succeeds(failures)) == if failed + failures
            < MAX_ATTEMPTS {
            FetchOutcome::Delivered
        } else {
            FetchOutcome::Abandoned
        },
    decreases failures,
{
    let attempts = fails_then_succeeds(failures);
    if failures > 0 {
        assert(!attempts[0]);
        assert(attempts.drop_first() =~= fails_then_succeeds((failures - 1) as nat));
        if decision_after(failed) == RetryDecision::Retry {
            lemma_retry_bound_from(failed + 1, (failures - 1) as nat);
        }
    }
}

/// Over a transport that fails `failures` times and then succeeds, the
/// segment is delivered if `failures` is below `MAX_ATTEMPTS`, and the
/// download is abandoned otherwise.
pub proof fn lemma_retry_bound(failures: nat)
    ensures
        failures < MAX_ATTEMPTS ==> fetch_outcome(0, fails_then_succeeds(failures))
            == FetchOutcome::Delivered,
        failures >= MAX_ATTEMPTS ==> fetch_outcome(0, fails_then_succeeds(failures))
            == FetchOutcome::Abandoned,
{
    lemma_retry_bound_from(0, failures);
}

/// The failed attempts at fetching one segment.
pub struct FetchAttempts {
    failed: u32,
}

impl View for FetchAttempts {
    type V = nat;

    closed spec fn view(&self) -> nat {
        self.failed as nat
    }
}

impl FetchAttempts {
    /// No attempt has failed yet.
    pub fn new() -> (attempts: FetchAttempts)
        ensures
            attempts@ == 0,
    {
        FetchAttempts { failed: 0 }
    }

    /// The number of failed attempts, counted up to `MAX_ATTEMPTS`.
    pub fn failed(&self) -> (failed: u32)
        ensures
            failed == self@,
    {
        self.failed
    }

    /// Counts one more failed attempt and says whether to try again: yes,
    /// unless this was the last attempt allowed.
    pub fn record_failure(&mut self) -> (decision: RetryDecision)
        ensures
            decision == decision_after(old(self)@),
            final(self)@ == failures_after(old(self)@),
    {
        if self.failed < MAX_ATTEMPTS {
            self.failed = self.failed + 1;
        }
        if self.failed < MAX_ATTEMPTS {
            RetryDecision::Retry
        } else {
            RetryDecision::GiveUp
        }
    }

    /// Counts one more failed attempt at fetching segment `index`. While more
    /// attempts are allowed the fetch goes on; once the last one has failed
    /// the download ends with the error that names the segment.
    pub fn retry_or_abandon(&mut self, index: usize) -> (result: Result<(), DownloadError>)
        ensures
            final(self)@ == failures_after(old(self)@),
            result == match decision_after(old(self)@) {
                RetryDecision::Retry => Ok::<(), DownloadError>(()),
                RetryDecision::GiveUp => Err::<(), DownloadError>(
                    DownloadError::RetriesExhausted { index },
                ),
            },
    {
        match self.record_failure() {
            RetryDecision::Retry => Ok(()),
            RetryDecision::GiveUp => Err(DownloadError::RetriesExhausted { index }),
        }
    }

    /// How the fetch ends after the attempts counted so far and one more that
    /// succeeds (`true`) or fails: the step by which [`fetch_outcome`] goes
    /// through a sequence of attempts.
    pub fn record(&mut self, succeeded: bool) -> (outcome: FetchOutcome)
        ensures
            outcome == fetch_outcome(old(self)@, seq![succeeded]),
            final(self)@ == if succeeded {
                old(self)@
            } else {
                failures_after(old(self)@)
            },
    {
        proof {
            let attempts = seq![succeeded];
            assert(attempts.len() == 1 && attempts[0] == succeeded);
            assert(attempts.drop_first() =~= Seq::<bool>::empty());
            assert(fetch_outcome(failures_after(self@), attempts.drop_first())
                == FetchOutcome::Unfinished);
        }
        if succeeded {
            FetchOutcome::Delivered
        } else {
            match self.record_failure() {
                RetryDecision::Retry => FetchOutcome::Unfinished,
                RetryDecision::GiveUp => FetchOutcome::Abandoned,
            }
        }
    }
}

} // verus!
