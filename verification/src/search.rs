//! Bookkeeping of the concurrent search: a resumable source of offsets
//! admitted in ascending order, a bound on concurrently in-flight
//! evaluations, and a termination flag set exactly once, by the first task
//! that confirms a funded candidate. The driver that owns the tasks performs
//! the external balance calls and reports each outcome back here.

use vstd::prelude::*;
use crate::offset::{space_size, Offset};

verus! {

/// The one step the termination flag can take: it becomes set, and the
/// caller learns whether it was the first to set it.
pub open spec fn record_flag(found: bool) -> (bool, bool) {
    (true, !found)
}

/// Shared state of one search run: the next offset to admit, whether the
/// space is exhausted, the termination flag, and the concurrency bound.
pub struct SearchState {
    pub next: Offset,
    pub exhausted: bool,
    pub found: bool,
    pub in_flight: usize,
    pub limit: usize,
}

impl SearchState {
    pub open spec fn wf(&self) -> bool {
        self.next.wf()
    }

    /// Whether another offset may be admitted: no match yet, offsets left,
    /// and a free slot under the concurrency bound.
    pub open spec fn can_dispatch(&self) -> bool {
        &&& !self.found
        &&& !self.exhausted
        &&& self.in_flight < self.limit
    }

    /// A search resuming at `start`, with at most `limit` evaluations in
    /// flight at once.
    pub fn new(start: Offset, limit: usize) -> (r: SearchState)
        requires
            start.wf(),
        ensures
            r.wf(),
            r.next == start,
            !r.exhausted,
            !r.found,
            r.in_flight == 0,
            r.limit == limit,
    {
        SearchState { next: start, exhausted: false, found: false, in_flight: 0, limit }
    }

    /// Hand out the next offset for evaluation, if one may be admitted.
    /// Offsets come out in ascending order, each exactly once, until the
    /// space ends or a match is recorded.
    pub fn dispatch(&mut self) -> (r: Option<Offset>)
        requires
            old(self).wf(),
        ensures
            final(self).wf(),
            r is Some <==> old(self).can_dispatch(),
            r matches Some(o) ==> {
                &&& o.digits@ == old(self).next.digits@
                &&& final(self).in_flight == old(self).in_flight + 1
                &&& final(self).found == old(self).found
                &&& final(self).limit == old(self).limit
                &&& final(self).next.width() == old(self).next.width()
                &&& if old(self).next.value() + 1 < space_size(old(self).next.width()) {
                    final(self).next.value() == old(self).next.value() + 1
                        && !final(self).exhausted
                } else {
                    final(self).exhausted
                }
            },
            r is None ==> *final(self) == *old(self),
    {
        if self.found || self.exhausted || self.in_flight >= self.limit {
            return None;
        }
        let o = self.next.duplicate();
        let advanced = self.next.succ();
        if !advanced {
            self.exhausted = true;
        }
        self.in_flight = self.in_flight + 1;
        Some(o)
    }

    /// One admitted evaluation finished without a confirmed match: the
    /// candidate failed the checksum, its balance was zero, or its external
    /// check failed. Its slot is freed; nothing else changes.
    pub fn complete(&mut self)
        requires
            old(self).in_flight > 0,
        ensures
            final(self).in_flight == old(self).in_flight - 1,
            final(self).next == old(self).next,
            final(self).exhausted == old(self).exhausted,
            final(self).found == old(self).found,
            final(self).limit == old(self).limit,
    {
        self.in_flight = self.in_flight - 1;
    }

    /// Set the termination flag. Returns whether this call was the first to
    /// set it: at most one caller over the whole run is told `true`, and
    /// only that caller may record the match.
    pub fn record_match(&mut self) -> (first: bool)
        ensures
            (final(self).found, first) == record_flag(old(self).found),
            final(self).next == old(self).next,
            final(self).exhausted == old(self).exhausted,
            final(self).in_flight == old(self).in_flight,
            final(self).limit == old(self).limit,
    {
        let first = !self.found;
        self.found = true;
        first
    }

    /// One admitted evaluation came back with a confirmed balance. A
    /// positive balance records the match; the return value says whether
    /// this evaluation is the one match of the run, to be persisted.
    pub fn on_balance(&mut self, confirmed: u64) -> (matched: bool)
        requires
            old(self).in_flight > 0,
        ensures
            matched == (confirmed > 0 && !old(self).found),
            final(self).found == (old(self).found || confirmed > 0),
            final(self).in_flight == old(self).in_flight - 1,
            final(self).next == old(self).next,
            final(self).exhausted == old(self).exhausted,
            final(self).limit == old(self).limit,
    {
        let matched = if confirmed > 0 {
            self.record_match()
        } else {
            false
        };
        self.complete();
        matched
    }

    /// Whether the run is over: a match was recorded, or the space is
    /// exhausted and every admitted evaluation has completed.
    pub fn is_done(&self) -> (r: bool)
        ensures
            r == (self.found || (self.exhausted && self.in_flight == 0)),
    {
        self.found || (self.exhausted && self.in_flight == 0)
    }
}

} // verus!
