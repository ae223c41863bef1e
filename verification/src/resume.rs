//! Resumption: the progress read back from the sink at startup, and the
//! filter that drops already-delivered events when the stream restarts.

use vstd::prelude::*;
use crate::event::{Event, EventKind, parse_last, spec_parse_last};

verus! {

/// Progress reconstructed from the largest stream chunk in the sink: the log
/// position and kind of its last complete record, the chunk's number, and
/// whether the run ended inside a transaction.
#[derive(Debug, Clone, Copy, PartialEq, Eq, Structural)]
pub struct ResumptionData {
    pub resume_lsn: u64,
    pub last_kind: EventKind,
    pub last_file_name: u32,
    pub skipping_events: bool,
}

/// Reads the resumption point out of the largest stream chunk's bytes.
/// `None` means the chunk holds no complete record or its last record is
/// corrupt; both end the run.
pub fn get_realtime_resumption_data(bytes: &[u8], last_file_name: u32) -> (r: Option<
    ResumptionData,
>)
    ensures
        match r {
            Some(rd) => spec_parse_last(bytes@) matches Some(e) && rd.resume_lsn == e.last_lsn
                && rd.last_kind == e.kind && rd.last_file_name == last_file_name
                && rd.skipping_events == (e.kind != EventKind::Commit),
            None => spec_parse_last(bytes@) is None,
        },
{
    match parse_last(bytes) {
        None => None,
        Some(ev) => Some(
            ResumptionData {
                resume_lsn: ev.last_lsn,
                last_kind: ev.kind,
                last_file_name,
                skipping_events: !matches!(ev.kind, EventKind::Commit),
            },
        ),
    }
}

/// The resume filter. While it is active, every event at or below the resume
/// position is dropped; the first commit seen at or below that position ends
/// the `skipping_events` phase of an interrupted transaction. A fresh run has
/// no resume point and drops nothing.
#[derive(Debug, Clone, Copy, PartialEq, Eq, Structural)]
pub struct ResumeFilter {
    pub active: bool,
    pub resume_lsn: u64,
    pub skipping_events: bool,
}

/// Whether an event at `lsn` is dropped by the filter: it is at or below the
/// resume position of an active filter.
pub open spec fn spec_should_skip(f: ResumeFilter, lsn: u64) -> bool {
    f.active && lsn <= f.resume_lsn
}

impl ResumeFilter {
    /// The filter of a fresh run: nothing is dropped.
    pub fn fresh() -> (r: ResumeFilter)
        ensures
            !r.active,
            !r.skipping_events,
            forall|lsn: u64| !spec_should_skip(r, lsn),
    {
        ResumeFilter { active: false, resume_lsn: 0, skipping_events: false }
    }

    /// The filter of a resumed run: events at or below the resume position
    /// are dropped, and the run starts inside a transaction exactly when the
    /// last persisted record was not a commit.
    pub fn from_resumption(rd: &ResumptionData) -> (r: ResumeFilter)
        ensures
            r.active,
            r.resume_lsn == rd.resume_lsn,
            r.skipping_events == rd.skipping_events,
            forall|lsn: u64| spec_should_skip(r, lsn) <==> lsn <= rd.resume_lsn,
    {
        ResumeFilter {
            active: true,
            resume_lsn: rd.resume_lsn,
            skipping_events: rd.skipping_events,
        }
    }

    /// Whether the event at `lsn` is dropped.
    pub fn should_skip(&self, lsn: u64, kind: EventKind) -> (r: bool)
        ensures
            r == spec_should_skip(*self, lsn),
    {
        let _ = kind;
        self.active && lsn <= self.resume_lsn
    }

    /// Ends the `skipping_events` phase: called on the first commit that the
    /// filter drops.
    pub fn stop_skipping_events(&mut self)
        ensures
            final(self).active == old(self).active,
            final(self).resume_lsn == old(self).resume_lsn,
            !final(self).skipping_events,
    {
        self.skipping_events = false;
    }
}

} // verus!
