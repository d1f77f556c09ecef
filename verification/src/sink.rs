//! The ordered-emission discipline of the fetcher, as a transition system.
//!
//! Workers race to claim heights or bundles, but before sending each one
//! waits until the shared sink position reaches its claim. This module
//! models the sink as a state machine whose events are the sends the turnstiles
//! allow, and proves that every reachable trace emits strictly ascending
//! heights inside the configured window. The executable checks the workers
//! use (`may_send`, `filter_bundle`, the claim bounds) are in the fetcher
//! module; their contracts say exactly what an enabled event here says.

use vstd::prelude::*;
use crate::urls::BLOCKS_PER_ARCHIVE;

verus! {

/// The sink as workers see it: the next height the consumer expects, and
/// every height emitted so far, in order.
pub struct SinkState {
    pub next: u64,
    pub emitted: Seq<u64>,
}

/// One permitted send.
pub enum SinkEvent {
    /// A live worker delivers its claimed height, or skips a block the
    /// server does not have while still advancing the sink.
    Live { height: u64, present: bool },
    /// An archive worker delivers the bundle starting at `base`, already
    /// sorted and with everything below the sink position dropped.
    Archive { base: u64, heights: Seq<u64> },
}

pub open spec fn strictly_ascending(s: Seq<u64>) -> bool {
    forall|i: int, j: int| 0 <= i < j < s.len() ==> s[i] < s[j]
}

/// The wait condition a worker passes before sending. A live worker sends exactly
/// when the sink names its claim; an archive worker sends when the sink
/// position is inside its bundle, and only the part of the bundle from
/// the sink position up, in ascending order.
pub open spec fn sink_enabled(st: SinkState, ev: SinkEvent, end: u64) -> bool {
    match ev {
        SinkEvent::Live { height, present } => {
            &&& height == st.next
            &&& height <= end
            &&& height < u64::MAX
        },
        SinkEvent::Archive { base, heights } => {
            &&& base <= st.next < base + BLOCKS_PER_ARCHIVE
            &&& base <= u64::MAX - BLOCKS_PER_ARCHIVE
            &&& strictly_ascending(heights)
            &&& forall|k: int|
                0 <= k < heights.len() ==> st.next <= #[trigger] heights[k] < base
                    + BLOCKS_PER_ARCHIVE && heights[k] <= end
        },
    }
}

/// What a send does: the payload goes out and the sink advances, by one
/// for a live block and to the end of the bundle for an archive send.
pub open spec fn sink_step(st: SinkState, ev: SinkEvent) -> SinkState {
    match ev {
        SinkEvent::Live { height, present } => SinkState {
            next: (st.next + 1) as u64,
            emitted: if present {
                st.emitted.push(height)
            } else {
                st.emitted
            },
        },
        SinkEvent::Archive { base, heights } => SinkState {
            next: (base + BLOCKS_PER_ARCHIVE) as u64,
            emitted: st.emitted + heights,
        },
    }
}

pub open spec fn sink_init(start: u64) -> SinkState {
    SinkState { next: start, emitted: Seq::empty() }
}

/// What holds of every reachable sink: emissions are strictly ascending,
/// inside the window, and below the sink position.
pub open spec fn sink_inv(st: SinkState, start: u64, end: u64) -> bool {
    &&& strictly_ascending(st.emitted)
    &&& forall|k: int| 0 <= k < st.emitted.len() ==> start <= #[trigger] st.emitted[k] <= end
    &&& st.emitted.len() > 0 ==> st.emitted.last() < st.next
    &&& start <= st.next
}

/// Runs a whole trace of sends; a trace that breaks a wait condition is rejected.
pub open spec fn sink_run(st: SinkState, evs: Seq<SinkEvent>, end: u64) -> Option<SinkState>
    decreases evs.len(),
{
    if evs.len() == 0 {
        Some(st)
    } else if sink_enabled(st, evs.first(), end) {
        sink_run(sink_step(st, evs.first()), evs.drop_first(), end)
    } else {
        None
    }
}

/// One permitted send keeps the sink invariant.
pub proof fn lemma_sink_step_preserves(st: SinkState, ev: SinkEvent, start: u64, end: u64)
    requires
        sink_inv(st, start, end),
        sink_enabled(st, ev, end),
    ensures
        sink_inv(sink_step(st, ev), start, end),
{
    let st2 = sink_step(st, ev);
    match ev {
        SinkEvent::Live { height, present } => {
            if present {
                assert forall|i: int, j: int|
                    0 <= i < j < st2.emitted.len() implies st2.emitted[i] < st2.emitted[j] by {
                    if j < st.emitted.len() {
                    } else {
                        assert(st2.emitted[j] == height);
                        assert(st2.emitted[i] == st.emitted[i]);
                        assert(st.emitted[i] <= st.emitted.last());
                    }
                }
            }
        },
        SinkEvent::Archive { base, heights } => {
            assert forall|i: int, j: int|
                0 <= i < j < st2.emitted.len() implies st2.emitted[i] < st2.emitted[j] by {
                if j < st.emitted.len() {
                } else if i >= st.emitted.len() {
                    assert(st2.emitted[i] == heights[i - st.emitted.len()]);
                    assert(st2.emitted[j] == heights[j - st.emitted.len()]);
                } else {
                    assert(st2.emitted[i] == st.emitted[i]);
                    assert(st2.emitted[j] == heights[j - st.emitted.len()]);
                    assert(st.emitted[i] <= st.emitted.last());
                    assert(st.emitted.last() < st.next);
                    assert(st.next <= heights[j - st.emitted.len()]);
                }
            }
        },
    }
}

/// Under any interleaving of workers that respects the wait conditions, the heights
/// on the channel are strictly ascending and lie inside the window.
pub proof fn lemma_sink_run_ordered(st: SinkState, evs: Seq<SinkEvent>, start: u64, end: u64)
    requires
        sink_inv(st, start, end),
    ensures
        sink_run(st, evs, end) matches Some(st2) ==> sink_inv(st2, start, end),
    decreases evs.len(),
{
    if evs.len() > 0 && sink_enabled(st, evs.first(), end) {
        lemma_sink_step_preserves(st, evs.first(), start, end);
        lemma_sink_run_ordered(sink_step(st, evs.first()), evs.drop_first(), start, end);
    }
}

/// The invariant holds at the start of a run.
pub proof fn lemma_sink_init(start: u64, end: u64)
    ensures
        sink_inv(sink_init(start), start, end),
{
}

} // verus!
