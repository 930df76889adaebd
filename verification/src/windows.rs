//! What the aggregator's reports mean in terms of the event sequence: the
//! test windows of a sequence, and the laws that tie reports to them.

use vstd::prelude::*;
use crate::aggregator::emitted_report;
use crate::aggregator::initial_state;
use crate::aggregator::reports_of;
use crate::aggregator::state_after;
use crate::aggregator::Phase;
use crate::event::ClassifiedEvent;
use crate::report::ReportModel;

verus! {

/// Every event of `events` in `[from, to)` is a match.
pub open spec fn all_match(events: Seq<ClassifiedEvent>, from: int, to: int) -> bool {
    forall|k: int| from <= k < to ==> (#[trigger] events[k]) is Match
}

/// `[from, to)` is a test window of `events`: a non-empty run of matches
/// with a boundary event right before it and a boundary event right after
/// it. The run is maximal, and the boundary before it puts it past the
/// preamble.
pub open spec fn is_window(events: Seq<ClassifiedEvent>, from: int, to: int) -> bool {
    &&& 0 < from < to < events.len()
    &&& events[from - 1] is NoMatch
    &&& events[to] is NoMatch
    &&& all_match(events, from, to)
}

/// Some test window of `events` ends at `to`.
pub open spec fn ends_window(events: Seq<ClassifiedEvent>, to: int) -> bool {
    exists|from: int| is_window(events, from, to)
}

/// Number of test windows of `events` that end before position `end`.
pub open spec fn window_count(events: Seq<ClassifiedEvent>, end: int) -> nat
    decreases end,
{
    if end <= 0 {
        0
    } else {
        window_count(events, end - 1) + if ends_window(events, end - 1) {
            1nat
        } else {
            0nat
        }
    }
}

/// Sum of the currents of the events in `[from, to)`.
pub open spec fn current_sum(events: Seq<ClassifiedEvent>, from: int, to: int) -> int
    decreases to - from,
{
    if from >= to {
        0
    } else {
        current_sum(events, from, to - 1) + events[to - 1].current()
    }
}

/// The report owed to the window `[from, to)`: its 1-based rank among the
/// windows, the sum of its currents and its length.
pub open spec fn window_report(events: Seq<ClassifiedEvent>, from: int, to: int) -> ReportModel {
    ReportModel {
        index: window_count(events, to) + 1,
        total: current_sum(events, from, to),
        samples: (to - from) as nat,
    }
}

/// Position of the last boundary event before `end`, or -1 if there is none.
spec fn last_boundary(events: Seq<ClassifiedEvent>, end: int) -> int
    decreases end,
{
    if end <= 0 {
        -1
    } else if events[end - 1] is NoMatch {
        end - 1
    } else {
        last_boundary(events, end - 1)
    }
}

proof fn lemma_last_boundary(events: Seq<ClassifiedEvent>, end: int)
    requires
        0 <= end <= events.len(),
    ensures
        -1 <= last_boundary(events, end) < end,
        last_boundary(events, end) >= 0 ==> events[last_boundary(events, end)] is NoMatch,
        all_match(events, last_boundary(events, end) + 1, end),
    decreases end,
{
    if end > 0 && !(events[end - 1] is NoMatch) {
        lemma_last_boundary(events, end - 1);
    }
}

/// A window that ends at `to` starts right after the last boundary before
/// `to`, and there is one exactly when that boundary exists and is not the
/// event just before `to`.
proof fn lemma_window_start(events: Seq<ClassifiedEvent>, to: int)
    requires
        0 <= to < events.len(),
    ensures
        forall|from: int| #[trigger]
            is_window(events, from, to) ==> from == last_boundary(events, to) + 1,
        ends_window(events, to) <==> events[to] is NoMatch && 0 <= last_boundary(events, to) < to
            - 1,
{
    let last = last_boundary(events, to);
    lemma_last_boundary(events, to);
    assert forall|from: int| #[trigger] is_window(events, from, to) implies from == last + 1 by {
        if from - 1 < last {
            assert(events[last] is Match);
        }
        if from - 1 > last {
            assert(events[from - 1] is Match);
        }
    }
    if events[to] is NoMatch && 0 <= last < to - 1 {
        assert(is_window(events, last + 1, to));
    }
}

/// What the aggregator holds after the first `end` events, in terms of the
/// run that is open at that point.
proof fn lemma_state_at(events: Seq<ClassifiedEvent>, end: int)
    requires
        0 <= end <= events.len(),
    ensures
        last_boundary(events, end) < 0 ==> state_after(events.take(end)) == initial_state(),
        last_boundary(events, end) >= 0 ==> {
            &&& state_after(events.take(end)).phase == Phase::Ready
            &&& state_after(events.take(end)).running_count == end - 1 - last_boundary(
                events,
                end,
            )
            &&& state_after(events.take(end)).running_sum == current_sum(
                events,
                last_boundary(events, end) + 1,
                end,
            )
        },
        state_after(events.take(end)).reports_emitted == window_count(events, end),
        reports_of(events.take(end)).len() == window_count(events, end),
        forall|from: int, to: int| #[trigger]
            is_window(events, from, to) && to < end ==> reports_of(events.take(end))[window_count(
                events,
                to,
            ) as int] == window_report(events, from, to),
    decreases end,
{
    if end > 0 {
        let before = events.take(end - 1);
        assert(events.take(end).drop_last() =~= before);
        assert(events.take(end).last() == events[end - 1]);
        lemma_state_at(events, end - 1);
        lemma_last_boundary(events, end - 1);
        lemma_window_start(events, end - 1);
        assert forall|from: int, to: int| #[trigger]
            is_window(events, from, to) && to < end implies reports_of(
            events.take(end),
        )[window_count(events, to) as int] == window_report(events, from, to) by {
            lemma_window_count_bounds(events, to, end - 1);
            if to == end - 1 {
                assert(from == last_boundary(events, end - 1) + 1);
            }
        }
    } else {
        assert(events.take(0) =~= Seq::empty());
    }
}

/// The count of windows grows with the position, and strictly across the
/// end of a window.
proof fn lemma_window_count_bounds(events: Seq<ClassifiedEvent>, to: int, end: int)
    requires
        0 <= to <= end,
    ensures
        window_count(events, to) <= window_count(events, end),
        to < end && ends_window(events, to) ==> window_count(events, to) < window_count(
            events,
            end,
        ),
    decreases end - to,
{
    if to < end {
        lemma_window_count_bounds(events, to, end - 1);
    }
}

/// One report for each test window, and none besides. The aggregator emits
/// as many reports as `events` has test windows, and the window `[from, to)`
/// is reported at the position of its rank, with that rank as 1-based index,
/// the sum of its currents and the number of its samples: its mean current
/// is the arithmetic mean of the run. A window end has one start, so
/// counting ends counts windows.
pub proof fn lemma_one_report_per_window(events: Seq<ClassifiedEvent>)
    ensures
        reports_of(events).len() == window_count(events, events.len() as int),
        forall|from: int, to: int| #[trigger]
            is_window(events, from, to) ==> {
                &&& window_count(events, to) < reports_of(events).len()
                &&& reports_of(events)[window_count(events, to) as int] == window_report(
                    events,
                    from,
                    to,
                )
            },
        forall|from: int, other: int, to: int|
            is_window(events, from, to) && is_window(events, other, to) ==> from == other,
{
    assert(events.take(events.len() as int) =~= events);
    lemma_state_at(events, events.len() as int);
    assert forall|from: int, to: int| #[trigger] is_window(events, from, to) implies {
        &&& window_count(events, to) < reports_of(events).len()
        &&& reports_of(events)[window_count(events, to) as int] == window_report(events, from, to)
    } by {
        lemma_window_count_bounds(events, to, events.len() as int);
    }
    assert forall|from: int, other: int, to: int|
        is_window(events, from, to) && is_window(events, other, to) implies from == other by {
        lemma_window_start(events, to);
    }
}

/// The event at position `at` completes a report exactly when a test
/// window ends there, and the report is that window's.
pub proof fn lemma_report_at_window_end(events: Seq<ClassifiedEvent>, at: int)
    requires
        0 <= at < events.len(),
    ensures
        emitted_report(state_after(events.take(at)), events[at]) is Some <==> ends_window(
            events,
            at,
        ),
        forall|from: int| #[trigger]
            is_window(events, from, at) ==> emitted_report(
                state_after(events.take(at)),
                events[at],
            ) == Some(window_report(events, from, at)),
{
    lemma_state_at(events, at);
    lemma_last_boundary(events, at);
    lemma_window_start(events, at);
}

/// Matches before the first boundary are never accumulated and never
/// reported: while only matches have arrived the aggregator is in its
/// initial state and has emitted nothing.
pub proof fn lemma_preamble_matches_ignored(events: Seq<ClassifiedEvent>, end: int)
    requires
        0 <= end <= events.len(),
        all_match(events, 0, end),
    ensures
        state_after(events.take(end)) == initial_state(),
        reports_of(events.take(end)) == Seq::<ReportModel>::empty(),
{
    lemma_state_at(events, end);
    lemma_last_boundary(events, end);
    if last_boundary(events, end) >= 0 {
        assert(events[last_boundary(events, end)] is Match);
    }
    assert(reports_of(events.take(end)) =~= Seq::<ReportModel>::empty());
}

/// The preamble ends on the first boundary and never comes back: the
/// aggregator is ready exactly when a boundary has arrived.
pub proof fn lemma_ready_after_first_boundary(events: Seq<ClassifiedEvent>)
    ensures
        state_after(events).phase == Phase::Ready <==> exists|k: int|
            0 <= k < events.len() && (#[trigger] events[k]) is NoMatch,
{
    let end = events.len() as int;
    assert(events.take(end) =~= events);
    lemma_state_at(events, end);
    lemma_last_boundary(events, end);
    if last_boundary(events, end) < 0 {
        assert(all_match(events, 0, end));
    }
}

/// A boundary right after a boundary closes an empty run: it emits no
/// report and leaves the number of emitted reports as it was.
pub proof fn lemma_repeated_boundary_silent(events: Seq<ClassifiedEvent>)
    requires
        events.len() > 0,
        events.last() is NoMatch,
    ensures
        emitted_report(state_after(events), ClassifiedEvent::NoMatch) is None,
        state_after(events.push(ClassifiedEvent::NoMatch)).reports_emitted == state_after(
            events,
        ).reports_emitted,
        reports_of(events.push(ClassifiedEvent::NoMatch)) == reports_of(events),
{
    assert(events.push(ClassifiedEvent::NoMatch).drop_last() =~= events);
}

} // verus!
