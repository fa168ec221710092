//! The process-wide scan state: whether a scan runs, whether it was asked
//! to stop, and the last error a probe reported. At most one scan runs at a
//! time.

use vstd::prelude::*;
use crate::error::ScanError;
use crate::work::{chunk_done, chunk_end, chunk_start};
use crate::result::{PortStatus, ScanResult, is_consistent, is_finalized, same_target};

verus! {

/// The scan state. Idle: neither flag set. Scanning: `is_scanning`.
/// Cancelling: `cancel_requested` without `is_scanning`, until the running
/// scan notices and returns.
#[derive(Debug)]
pub struct EngineState {
    pub is_scanning: bool,
    pub cancel_requested: bool,
    /// The last error that a probe of the current or latest scan reported.
    pub last_error: String,
}

/// What a probe of one address and port came to.
#[derive(Clone, Debug, PartialEq, Eq)]
pub enum ProbeOutcome {
    /// The connection was made, to the given numeric address.
    Open(String),
    /// The connection failed or timed out, at the given numeric address.
    Closed(String),
    /// The probe could not be made; the explanation.
    Failed(String),
}

/// The state after a cancellation request: a running scan is told to stop
/// and the engine counts as idle; with no scan running nothing changes.
pub open spec fn after_cancel(s: EngineState) -> EngineState {
    if s.is_scanning {
        EngineState { is_scanning: false, cancel_requested: true, last_error: s.last_error }
    } else {
        s
    }
}

impl EngineState {
    /// The idle engine.
    pub fn new() -> (r: EngineState)
        ensures
            !r.is_scanning,
            !r.cancel_requested,
            r.last_error@.len() == 0,
    {
        EngineState { is_scanning: false, cancel_requested: false, last_error: String::new() }
    }

    /// Admits a new scan, unless one runs: the engine is then scanning and
    /// the last error is cleared.
    pub fn start_scan(&mut self) -> (r: Result<(), ScanError>)
        ensures
            old(self).is_scanning ==> (r matches Err(ScanError::ScanAlreadyRunning) && *final(self)
                == *old(self)),
            !old(self).is_scanning ==> r is Ok && final(self).is_scanning
                && final(self).cancel_requested == old(self).cancel_requested
                && final(self).last_error@.len() == 0,
    {
        if self.is_scanning {
            return Err(ScanError::ScanAlreadyRunning);
        }
        self.is_scanning = true;
        self.last_error = String::new();
        Ok(())
    }

    /// Asks the running scan to stop. The engine counts as idle at once,
    /// before the scan has returned.
    pub fn cancel_scan(&mut self) -> (r: Result<(), ScanError>)
        ensures
            *final(self) == after_cancel(*old(self)),
            r is Ok <==> old(self).is_scanning,
            r is Err ==> r matches Err(ScanError::NoScanRunning),
    {
        if !self.is_scanning {
            return Err(ScanError::NoScanRunning);
        }
        self.cancel_requested = true;
        self.is_scanning = false;
        Ok(())
    }

    /// Finalizes a pending record with the outcome of its probe. A probe
    /// that could not be made leaves the status unknown, with an empty host
    /// name, and becomes the last error.
    pub fn record_probe(&mut self, request: ScanResult, outcome: ProbeOutcome) -> (r: ScanResult)
        ensures
            r.address@ == request.address@,
            r.port == request.port,
            is_consistent(r),
            final(self).is_scanning == old(self).is_scanning,
            final(self).cancel_requested == old(self).cancel_requested,
            match outcome {
                ProbeOutcome::Open(h) => is_finalized(r, h@, PortStatus::Open)
                    && final(self).last_error == old(self).last_error,
                ProbeOutcome::Closed(h) => is_finalized(r, h@, PortStatus::Closed)
                    && final(self).last_error == old(self).last_error,
                ProbeOutcome::Failed(m) => is_finalized(r, Seq::empty(), PortStatus::Unknown)
                    && final(self).last_error@ == m@,
            },
    {
        let mut request = request;
        match outcome {
            ProbeOutcome::Open(h) => {
                request.set_scan_result(h.as_str(), PortStatus::Open);
                request
            },
            ProbeOutcome::Closed(h) => {
                request.set_scan_result(h.as_str(), PortStatus::Closed);
                request
            },
            ProbeOutcome::Failed(m) => {
                self.last_error = m;
                let empty = "";
                proof {
                    reveal_strlit("");
                    assert(empty@ =~= Seq::<char>::empty());
                }
                ScanResult::new(request.address.as_str(), request.port, empty, PortStatus::Unknown)
            },
        }
    }

    /// Ends a scan that failed before any probe: the engine is idle again.
    pub fn abort(&mut self, error: ScanError) -> (r: Result<Vec<ScanResult>, ScanError>)
        ensures
            !final(self).is_scanning,
            !final(self).cancel_requested,
            final(self).last_error == old(self).last_error,
            r == Err::<Vec<ScanResult>, ScanError>(error),
    {
        self.is_scanning = false;
        self.cancel_requested = false;
        Err(error)
    }

    /// Ends a scan, finished or cancelled, with the records it finalized:
    /// the engine is idle again. A scan that finalized nothing fails with
    /// the last error, if there is one.
    pub fn conclude(&mut self, results: Vec<ScanResult>) -> (r: Result<Vec<ScanResult>, ScanError>)
        ensures
            !final(self).is_scanning,
            !final(self).cancel_requested,
            final(self).last_error == old(self).last_error,
            results@.len() == 0 && old(self).last_error@.len() > 0 ==> (r matches Err(
                ScanError::ProbeFailure(m),
            ) && m@ == old(self).last_error@),
            !(results@.len() == 0 && old(self).last_error@.len() > 0) ==> (r matches Ok(v) && v@
                == results@),
    {
        self.is_scanning = false;
        self.cancel_requested = false;
        if results.len() == 0 && self.last_error.as_str().unicode_len() > 0 {
            return Err(ScanError::ProbeFailure(self.last_error.clone()));
        }
        Ok(results)
    }
}

/// A second cancellation is refused and changes nothing: after any
/// cancellation request no scan counts as running.
pub proof fn lemma_cancel_twice(s: EngineState)
    ensures
        !after_cancel(s).is_scanning,
        after_cancel(after_cancel(s)) == after_cancel(s),
{
}

/// One worker's share of a scan: a contiguous slice of the work list,
/// probed in order until it is done or the scan is cancelled.
pub struct Worker {
    /// The records still to probe, the next one last.
    pub todo: Vec<ScanResult>,
    /// The records finalized so far, in slice order.
    pub done: Vec<ScanResult>,
    /// The slice the worker was given.
    pub slice: Ghost<Seq<ScanResult>>,
}

impl Worker {
    /// The slice is split between what is finalized, a prefix, and what is
    /// left, in reverse.
    pub open spec fn wf(&self) -> bool {
        let n = self.slice@.len();
        &&& self.done@.len() + self.todo@.len() == n
        &&& forall|i: int|
            0 <= i < self.done@.len() ==> same_target(#[trigger] self.done@[i], self.slice@[i])
                && is_consistent(self.done@[i])
        &&& forall|j: int| 0 <= j < self.todo@.len() ==> #[trigger] self.todo@[j] == self.slice@[n - 1 - j]
    }

    /// A worker for `slice`, with nothing finalized yet.
    pub fn new(slice: Vec<ScanResult>) -> (w: Worker)
        ensures
            w.wf(),
            w.slice@ == slice@,
            w.done@.len() == 0,
    {
        let ghost orig = slice@;
        let mut slice = slice;
        let mut todo: Vec<ScanResult> = Vec::new();
        while slice.len() > 0
            invariant
                slice@ == orig.take(slice@.len() as int),
                slice@.len() + todo@.len() == orig.len(),
                forall|j: int| 0 <= j < todo@.len() ==> #[trigger] todo@[j] == orig[orig.len() - 1 - j],
            decreases slice@.len(),
        {
            let item = slice.pop().unwrap();
            todo.push(item);
            proof {
                assert(slice@ =~= orig.take(slice@.len() as int));
            }
        }
        Worker { todo, done: Vec::new(), slice: Ghost(orig) }
    }

    /// The address and port to probe next, unless the slice is done or the
    /// scan was cancelled.
    pub fn next_target(&self, cancel_requested: bool) -> (r: Option<(String, u16)>)
        requires
            self.wf(),
        ensures
            r is None <==> (cancel_requested || self.todo@.len() == 0),
            r matches Some((a, p)) ==> a@ == self.slice@[self.done@.len() as int].address@ && p
                == self.slice@[self.done@.len() as int].port,
    {
        if cancel_requested || self.todo.len() == 0 {
            return None;
        }
        let last = self.todo.len() - 1;
        Some((self.todo[last].address.clone(), self.todo[last].port))
    }

    /// Finalizes the next record of the slice with the outcome of its probe.
    pub fn record(&mut self, engine: &mut EngineState, outcome: ProbeOutcome)
        requires
            old(self).wf(),
            old(self).todo@.len() > 0,
        ensures
            final(self).wf(),
            final(self).slice == old(self).slice,
            final(self).todo@.len() == old(self).todo@.len() - 1,
            final(self).done@ == old(self).done@.push(final(self).done@.last()),
            final(engine).is_scanning == old(engine).is_scanning,
            final(engine).cancel_requested == old(engine).cancel_requested,
            match outcome {
                ProbeOutcome::Open(h) => is_finalized(final(self).done@.last(), h@, PortStatus::Open)
                    && final(engine).last_error == old(engine).last_error,
                ProbeOutcome::Closed(h) => is_finalized(final(self).done@.last(), h@, PortStatus::Closed)
                    && final(engine).last_error == old(engine).last_error,
                ProbeOutcome::Failed(m) => is_finalized(final(self).done@.last(), Seq::empty(), PortStatus::Unknown)
                    && final(engine).last_error@ == m@,
            },
    {
        let request = self.todo.pop().unwrap();
        let r = engine.record_probe(request, outcome);
        self.done.push(r);
        proof {
            assert(self.done@ =~= old(self).done@.push(self.done@.last()));
        }
    }

    /// What the worker finalized, in slice order.
    pub fn finish(self) -> (r: Vec<ScanResult>)
        ensures
            r@ == self.done@,
    {
        self.done
    }
}

/// A worker given chunk `u` of a work list that was never cancelled, and so
/// has nothing left to probe, has finalized that whole chunk: one record
/// per item, for the same address and port, in order.
pub proof fn lemma_worker_covers_chunk(w: Worker, work: Seq<ScanResult>, threads: nat, u: nat)
    requires
        w.wf(),
        w.todo@.len() == 0,
        1 <= threads,
        u < threads,
        chunk_start(work.len(), threads, u) <= chunk_end(work.len(), threads, u) <= work.len(),
        w.slice@ == work.subrange(
            chunk_start(work.len(), threads, u) as int,
            chunk_end(work.len(), threads, u) as int,
        ),
    ensures
        chunk_done(work, threads, u, w.done@),
{
    let s = chunk_start(work.len(), threads, u) as int;
    assert forall|i: int| 0 <= i < w.done@.len() implies same_target(#[trigger] w.done@[i], work[s + i]) by {
        assert(w.slice@[i] == work[s + i]);
    }
}

} // verus!
