//! The download orchestrator's bookkeeping: per-item results aggregated
//! into a batch outcome, the worker-side progress messages, and the
//! reporter's fold over the message stream.
//!
//! The binary runs the worker pool and the channel; every artifact of a
//! batch is attempted exactly once, and only the failure count crosses the
//! stage boundary.

use vstd::prelude::*;
use crate::errors::SyncError;

verus! {

/// One message to the progress reporter.
pub enum ProgressBarMessage {
    /// One unit of work completed, success or failure.
    Increment,
    /// An out-of-band diagnostic to surface immediately.
    Println(String),
    /// No more messages will be sent.
    Done,
}

/// Aggregate result of one batch.
#[derive(Clone, Copy, Debug, PartialEq, Eq, Structural)]
pub struct SyncOutcome {
    pub attempted_count: usize,
    pub failed_count: usize,
}

/// How many of the per-item results are failures.
pub open spec fn count_failures(results: Seq<bool>) -> nat
    decreases results.len(),
{
    if results.len() == 0 {
        0
    } else {
        (if results[0] {
            0nat
        } else {
            1nat
        }) + count_failures(results.skip(1))
    }
}

/// Fold the per-item results of a batch; every item counts as attempted.
pub fn batch_outcome(results: &Vec<bool>) -> (r: SyncOutcome)
    ensures
        r.attempted_count == results@.len(),
        r.failed_count as nat == count_failures(results@),
{
    let ghost rv = results@;
    let mut failed: usize = 0;
    proof {
        assert(rv.skip(0) =~= rv);
    }
    let mut i: usize = 0;
    while i < results.len()
        invariant
            i <= rv.len(),
            rv == results@,
            failed <= i,
            count_failures(rv) == failed + count_failures(rv.skip(i as int)),
        decreases rv.len() - i,
    {
        proof {
            assert(rv.skip(i as int)[0] == rv[i as int]);
            assert(rv.skip(i as int).skip(1) =~= rv.skip(i as int + 1));
        }
        if !results[i] {
            failed += 1;
        }
        i += 1;
    }
    proof {
        assert(rv.skip(rv.len() as int) =~= Seq::<bool>::empty());
    }
    SyncOutcome { attempted_count: results.len(), failed_count: failed }
}

/// Success exactly when nothing in the batch failed, else the aggregate
/// failure.
pub fn batch_result(outcome: &SyncOutcome) -> (r: Result<(), SyncError>)
    ensures
        r is Ok <==> outcome.failed_count == 0,
        r matches Err(e) ==> e == SyncError::FailedDownloads(outcome.failed_count),
{
    if outcome.failed_count == 0 {
        Ok(())
    } else {
        Err(SyncError::FailedDownloads(outcome.failed_count))
    }
}

/// What one worker sends for one finished item: a diagnostic first when the
/// item failed, then always exactly one progress increment.
pub fn worker_messages(ok: bool, diagnostic: String) -> (r: Vec<ProgressBarMessage>)
    ensures
        ok ==> r@ =~= seq![ProgressBarMessage::Increment],
        !ok ==> r@ =~= seq![
            ProgressBarMessage::Println(diagnostic),
            ProgressBarMessage::Increment,
        ],
{
    let mut v: Vec<ProgressBarMessage> = Vec::new();
    if !ok {
        v.push(ProgressBarMessage::Println(diagnostic));
    }
    v.push(ProgressBarMessage::Increment);
    v
}

/// What the reporter accumulates from a message stream: increments and
/// diagnostics seen strictly before the first `Done`.
pub open spec fn spec_reporter(msgs: Seq<ProgressBarMessage>) -> (nat, nat)
    decreases msgs.len(),
{
    if msgs.len() == 0 {
        (0nat, 0nat)
    } else {
        match msgs[0] {
            ProgressBarMessage::Done => (0nat, 0nat),
            ProgressBarMessage::Increment => {
                let r = spec_reporter(msgs.skip(1));
                (r.0 + 1, r.1)
            },
            ProgressBarMessage::Println(_) => {
                let r = spec_reporter(msgs.skip(1));
                (r.0, r.1 + 1)
            },
        }
    }
}

/// Replay the reporter over a message stream: `(increments, diagnostics)`
/// consumed before the first `Done` ends the loop.
pub fn reporter_counts(msgs: &Vec<ProgressBarMessage>) -> (r: (usize, usize))
    ensures
        (r.0 as nat, r.1 as nat) == spec_reporter(msgs@),
{
    proof {
        assert(msgs@.skip(0) =~= msgs@);
    }
    reporter_from(msgs, 0)
}

fn reporter_from(msgs: &Vec<ProgressBarMessage>, i: usize) -> (r: (usize, usize))
    requires
        i <= msgs@.len(),
    ensures
        (r.0 as nat, r.1 as nat) == spec_reporter(msgs@.skip(i as int)),
        r.0 <= msgs@.len() - i,
        r.1 <= msgs@.len() - i,
    decreases msgs@.len() - i,
{
    if i == msgs.len() {
        (0, 0)
    } else {
        proof {
            assert(msgs@.skip(i as int)[0] == msgs@[i as int]);
            assert(msgs@.skip(i as int).skip(1) =~= msgs@.skip(i as int + 1));
        }
        match &msgs[i] {
            ProgressBarMessage::Done => (0, 0),
            ProgressBarMessage::Increment => {
                let r = reporter_from(msgs, i + 1);
                (r.0 + 1, r.1)
            },
            ProgressBarMessage::Println(_) => {
                let r = reporter_from(msgs, i + 1);
                (r.0, r.1 + 1)
            },
        }
    }
}

} // verus!
