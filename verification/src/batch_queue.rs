//! Progress and cancellation bookkeeping for batch translation of strings.
//!
//! The queue hands out job indices in order until all jobs are done or the
//! batch is cancelled; the caller schedules the jobs. A failed translation
//! is tried again, at most three times in all, when its error is one that
//! passes (a timeout, or HTTP 429, 502 or 503).
use vstd::prelude::*;
use crate::mcm::types::{find_chars, find_text};
use crate::text::chars_of;

verus! {

/// One string to translate.
#[derive(Clone, Debug)]
pub struct BatchItem {
    pub str_id: u32,
    pub source_text: String,
}

/// The outcome for one string.
#[derive(Clone, Debug)]
pub struct BatchResult {
    pub str_id: u32,
    pub translated: String,
    pub error: Option<String>,
}

/// Progress of a batch.
#[derive(Clone, Copy, Debug, PartialEq, Eq)]
pub struct BatchProgress {
    pub completed: u32,
    pub total: u32,
}

/// Summary of a finished batch.
#[derive(Clone, Debug)]
pub struct BatchSummary {
    pub total: u32,
    pub succeeded: u32,
    pub failed: u32,
    pub errors: Vec<BatchErrorEntry>,
}

/// One failed string.
#[derive(Clone, Debug)]
pub struct BatchErrorEntry {
    pub str_id: u32,
    pub source: String,
    pub error: String,
}

/// Job counter of a batch with a cancellation switch.
pub struct BatchQueue {
    concurrency: u8,
    cancelled: bool,
    completed: u32,
    total: u32,
}

impl BatchQueue {
    pub closed spec fn spec_concurrency(&self) -> u8 {
        self.concurrency
    }

    pub closed spec fn spec_cancelled(&self) -> bool {
        self.cancelled
    }

    pub closed spec fn spec_completed(&self) -> u32 {
        self.completed
    }

    pub closed spec fn spec_total(&self) -> u32 {
        self.total
    }

    /// A fresh queue of `total` jobs; the concurrency is clamped to `1..=10`.
    pub fn new(concurrency: u8, total: u32) -> (r: Self)
        ensures
            r.spec_concurrency() == (if concurrency < 1 { 1 } else if concurrency > 10 { 10 } else { concurrency }),
            !r.spec_cancelled(),
            r.spec_completed() == 0,
            r.spec_total() == total,
    {
        let c = if concurrency < 1 { 1 } else if concurrency > 10 { 10 } else { concurrency };
        BatchQueue { concurrency: c, cancelled: false, completed: 0, total }
    }

    /// Stops handing out jobs.
    pub fn cancel(&mut self)
        ensures
            final(self).spec_cancelled(),
            final(self).spec_completed() == old(self).spec_completed(),
            final(self).spec_total() == old(self).spec_total(),
            final(self).spec_concurrency() == old(self).spec_concurrency(),
    {
        self.cancelled = true;
    }

    pub fn is_cancelled(&self) -> (r: bool)
        ensures
            r == self.spec_cancelled(),
    {
        self.cancelled
    }

    /// The index of the next job, unless the batch is cancelled or every job
    /// is done.
    pub fn try_acquire(&self) -> (r: Option<usize>)
        ensures
            r is Some <==> (!self.spec_cancelled() && self.spec_completed() < self.spec_total()),
            r matches Some(i) ==> i == self.spec_completed(),
    {
        if self.cancelled {
            return None;
        }
        let c = self.completed;
        if c >= self.total {
            return None;
        }
        Some(c as usize)
    }

    /// Counts one more job as done and reports the progress.
    pub fn mark_done(&mut self) -> (r: BatchProgress)
        requires
            old(self).spec_completed() < u32::MAX,
        ensures
            final(self).spec_completed() == old(self).spec_completed() + 1,
            final(self).spec_total() == old(self).spec_total(),
            final(self).spec_cancelled() == old(self).spec_cancelled(),
            final(self).spec_concurrency() == old(self).spec_concurrency(),
            r == (BatchProgress { completed: final(self).spec_completed(), total: old(self).spec_total() }),
    {
        self.completed = self.completed + 1;
        BatchProgress { completed: self.completed, total: self.total }
    }

    pub fn get_progress(&self) -> (r: BatchProgress)
        ensures
            r == (BatchProgress { completed: self.spec_completed(), total: self.spec_total() }),
    {
        BatchProgress { completed: self.completed, total: self.total }
    }
}

/// What to do after an attempt at translating: finish with a result, or
/// wait that many seconds and try again.
#[derive(Debug)]
pub enum RetryDecision {
    Finish(Result<String, String>),
    Wait(u64),
}

/// Whether an error passes and the attempt is worth repeating: its message
/// mentions `timeout`, `429`, `503` or `502`.
pub open spec fn retriable(e: Seq<char>) -> bool {
    find_text(e, "timeout"@) is Some || find_text(e, "429"@) is Some
        || find_text(e, "503"@) is Some || find_text(e, "502"@) is Some
}

/// Whether an error message passes (see [`retriable`]).
pub fn is_retriable(e: &str) -> (r: bool)
    ensures
        r == retriable(e@),
{
    let v = chars_of(e);
    find_chars(&v, &chars_of("timeout")).is_some() || find_chars(&v, &chars_of("429")).is_some()
        || find_chars(&v, &chars_of("503")).is_some() || find_chars(&v, &chars_of("502")).is_some()
}

/// The decision after attempt `attempt` (0, 1 or 2) came back with
/// `outcome`: a translation (empty or not) finishes with it; an error
/// finishes with it unless it passes and this was not the third attempt,
/// when the wait is 1 second after the first attempt and 2 after the second.
pub fn retry_decision(attempt: u32, outcome: Result<String, String>) -> (r: RetryDecision)
    requires
        attempt < 3,
    ensures
        match outcome {
            Ok(t) => r matches RetryDecision::Finish(Ok(x)) && x@ == t@,
            Err(e) => if retriable(e@) && attempt < 2 {
                r == RetryDecision::Wait(if attempt == 0 { 1u64 } else { 2u64 })
            } else {
                r matches RetryDecision::Finish(Err(x)) && x@ == e@
            },
        },
{
    match outcome {
        Ok(t) => RetryDecision::Finish(Ok(t)),
        Err(e) => {
            if is_retriable(e.as_str()) && attempt < 2 {
                RetryDecision::Wait(if attempt == 0 { 1 } else { 2 })
            } else {
                RetryDecision::Finish(Err(e))
            }
        },
    }
}

} // verus!
