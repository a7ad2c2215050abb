//! What a shared sender's steps come to, said of each slot, leg and row.
use crate::deadlines::{AppDeadlineEntry, AppDeadlineKind};
use crate::shared_sender::{
    Books, CONNECT_TIMEOUT_US, CallerReport, CallerState, DueAction, Leg, LegReport, MAX_WAIT_US,
    SharedSenderSlot, SlotPhase, all_stats, due_for, evaluated, last_stats, layout, pairs_at,
    streaming_from, up_count,
};
use crate::stats::{ConnStats, SourceStats};
use vstd::prelude::*;

verus! {

// ---------------------------------------------------------------------------
// What the run reports
// ---------------------------------------------------------------------------

/// The number of rows that the first `i` slots have, one for each leg.
pub open spec fn rows_before(slots: Seq<SharedSenderSlot>, i: int) -> nat
    decreases i,
{
    if i <= 0 {
        0
    } else {
        rows_before(slots, i - 1) + slots[i - 1].stats@.len()
    }
}

/// The leg that a report gives for row number `k` of its slot.
pub open spec fn leg_of(report: Option<LegReport>, k: int) -> Option<Leg> {
    match report {
        Some(LegReport::Direct(leg)) => if k == 0 {
            Some(leg)
        } else {
            None
        },
        Some(LegReport::Group { pending_legs, legs }) => if 0 <= k < legs@.len() {
            Some(legs@[k])
        } else {
            None
        },
        None => None,
    }
}

proof fn lemma_row_place(
    slots: Seq<SharedSenderSlot>,
    reports: Seq<Option<LegReport>>,
    sources: Seq<SourceStats>,
    n: int,
    i: int,
    k: int,
)
    requires
        0 <= i < n <= slots.len(),
        0 <= k < slots[i].stats@.len(),
    ensures
        all_stats(slots, reports, sources, n).len() == rows_before(slots, n),
        rows_before(slots, i) + k < rows_before(slots, n),
        all_stats(slots, reports, sources, n)[rows_before(slots, i) + k] == last_stats(
            slots[i],
            reports[i],
            sources[i],
        )[k],
    decreases n,
{
    lemma_row_count(slots, reports, sources, n - 1);
    if i < n - 1 {
        lemma_row_place(slots, reports, sources, n - 1, i, k);
    }
}

proof fn lemma_row_count(
    slots: Seq<SharedSenderSlot>,
    reports: Seq<Option<LegReport>>,
    sources: Seq<SourceStats>,
    n: int,
)
    requires
        0 <= n <= slots.len(),
    ensures
        all_stats(slots, reports, sources, n).len() == rows_before(slots, n),
    decreases n,
{
    if n > 0 {
        lemma_row_count(slots, reports, sources, n - 1);
    }
}

/// Each leg has a row of its own, and it says what the transport last reported of that
/// leg: as its total what was sent, then what was sent again, then what is missing. A
/// slot without a caller, or a leg without totals, keeps what was known of it.
pub proof fn rows_say_what_each_leg_sent(
    slots: Seq<SharedSenderSlot>,
    reports: Seq<Option<LegReport>>,
    sources: Seq<SourceStats>,
    i: int,
    k: int,
)
    requires
        reports.len() == slots.len(),
        sources.len() == slots.len(),
        0 <= i < slots.len(),
        0 <= k < slots[i].stats@.len(),
    ensures
        ({
            let rows = all_stats(slots, reports, sources, slots.len() as int);
            let row = rows[rows_before(slots, i) + k];
            let was = slots[i].stats@[k];
            let leg = leg_of(reports[i], k);
            &&& rows.len() == rows_before(slots, slots.len() as int)
            &&& slots[i].caller is Some && leg is Some && leg->0.sender is Some ==> {
                &&& row.has_stats
                &&& row.core_total == leg->0.sender->0.total_sent
                &&& row.secondary_a == leg->0.sender->0.total_retransmits
                &&& row.secondary_b == leg->0.sender->0.packets_in_loss_list
            }
            &&& slots[i].caller is None || leg is None || leg->0.sender is None ==> {
                &&& row.has_stats == was.has_stats
                &&& row.core_total == was.core_total
                &&& row.secondary_a == was.secondary_a
                &&& row.secondary_b == was.secondary_b
            }
            &&& row.data_events == was.data_events
            &&& row.torn_down == was.torn_down
            &&& row.rtt_us == was.rtt_us
            &&& row.connected == (was.connected || (slots[i].caller is Some && leg is Some
                && reports[i]->0 is Group && (leg->0.member_up || leg->0.sender is Some)))
        }),
{
    lemma_row_place(slots, reports, sources, slots.len() as int, i, k);
}

/// What a slot's source did is charged to the first of its legs, and to no other.
pub proof fn rows_say_what_each_source_did(
    slots: Seq<SharedSenderSlot>,
    reports: Seq<Option<LegReport>>,
    sources: Seq<SourceStats>,
    i: int,
    k: int,
)
    requires
        reports.len() == slots.len(),
        sources.len() == slots.len(),
        0 <= i < slots.len(),
        0 <= k < slots[i].stats@.len(),
    ensures
        ({
            let row = all_stats(slots, reports, sources, slots.len() as int)[rows_before(slots, i)
                + k];
            &&& k == 0 ==> row.has_source && row.source == sources[i]
            &&& k > 0 ==> row.has_source == slots[i].stats@[k].has_source && row.source
                == slots[i].stats@[k].source
        }),
{
    lemma_row_place(slots, reports, sources, slots.len() as int, i, k);
}

// ---------------------------------------------------------------------------
// Which legs stand in a slot
// ---------------------------------------------------------------------------

/// The connection indices of slots, one after another.
pub open spec fn indices_of(places: Seq<(usize, Option<usize>)>) -> Seq<usize>
    decreases places.len(),
{
    if places.len() == 0 {
        Seq::empty()
    } else {
        let rest = indices_of(places.drop_first());
        match places[0].1 {
            Some(second) => seq![places[0].0, second] + rest,
            None => seq![places[0].0] + rest,
        }
    }
}

/// Every connection stands in one slot, in order.
pub proof fn slots_hold_each_connection_once(mine: Seq<usize>, bonded_legs: usize, position: int)
    requires
        0 <= position <= mine.len(),
    ensures
        indices_of(layout(mine, bonded_legs, position)) == mine.skip(position),
    decreases mine.len() - position,
{
    let all = layout(mine, bonded_legs, position);
    if position < mine.len() {
        if pairs_at(mine, bonded_legs, position) {
            slots_hold_each_connection_once(mine, bonded_legs, position + 2);
            assert(all.drop_first() =~= layout(mine, bonded_legs, position + 2));
            assert(indices_of(all) =~= mine.skip(position));
        } else {
            slots_hold_each_connection_once(mine, bonded_legs, position + 1);
            assert(all.drop_first() =~= layout(mine, bonded_legs, position + 1));
            assert(indices_of(all) =~= mine.skip(position));
        }
    } else {
        assert(mine.skip(position) =~= Seq::<usize>::empty());
    }
}

/// The two legs of a stream are neighbours among the bonded connections, the first of
/// them even. A bonded even connection stands alone only where its neighbour is not next
/// to it.
pub proof fn pairs_are_neighbours(mine: Seq<usize>, bonded_legs: usize, position: int, i: int)
    requires
        0 <= position <= mine.len(),
        0 <= i < layout(mine, bonded_legs, position).len(),
    ensures
        ({
            let slot = layout(mine, bonded_legs, position)[i];
            &&& slot.1 is Some ==> slot.0 % 2 == 0 && slot.1->0 == slot.0 + 1 && slot.0
                < bonded_legs
            &&& exists|p: int|
                position <= p < mine.len() && #[trigger] mine[p] == slot.0 && (slot.1 is None
                    && slot.0 < bonded_legs && slot.0 % 2 == 0 ==> p + 1 == mine.len() || mine[p
                    + 1] != slot.0 + 1)
        }),
    decreases mine.len() - position,
{
    let all = layout(mine, bonded_legs, position);
    if position < mine.len() {
        let step: int = if pairs_at(mine, bonded_legs, position) {
            2
        } else {
            1
        };
        let rest = layout(mine, bonded_legs, position + step);
        assert(mine[position] == all[0].0);
        if i > 0 {
            assert(all[i] == rest[i - 1]);
            pairs_are_neighbours(mine, bonded_legs, position + step, i - 1);
        }
    }
}

// ---------------------------------------------------------------------------
// Handshakes
// ---------------------------------------------------------------------------

/// The legs that have completed their handshake are those that have totals.
pub proof fn connected_legs_are_counted(legs: Seq<Leg>)
    ensures
        up_count(legs) == legs.filter(|l: Leg| l.sender is Some).len(),
        up_count(legs) <= legs.len(),
    decreases legs.len(),
{
    reveal(Seq::filter);
    if legs.len() > 0 {
        connected_legs_are_counted(legs.drop_last());
    }
}

/// A slot that starts to carry traffic gives back all its tokens: those of its connected
/// legs as completed, the others as failed.
pub proof fn going_up_settles_every_leg(
    b: Books,
    slot: usize,
    was: SharedSenderSlot,
    report: Option<LegReport>,
    end_us: u64,
    send_us: u64,
)
    requires
        was.caller is Some,
        was.held_handshake_tokens <= b.limiter.in_flight,
    ensures
        ({
            let after = b.stream(slot, was, report, end_us, send_us);
            let held = was.held_handshake_tokens as int;
            let up = match report {
                None => 0,
                Some(LegReport::Direct(leg)) => if leg.sender is Some {
                    1
                } else {
                    0int
                },
                Some(LegReport::Group { pending_legs, legs }) => legs@.filter(
                    |l: Leg| l.sender is Some,
                ).len() as int,
            };
            let settled = if up < held {
                up
            } else {
                held
            };
            &&& after.limiter.in_flight == b.limiter.in_flight - held
            &&& after.limiter.completed == b.limiter.completed + settled
            &&& after.limiter.failed == b.limiter.failed + (held - settled)
            &&& after.remove == b.remove
            &&& after.disconnect == b.disconnect
            &&& after.routes == b.routes
            &&& after.closed == b.closed
        }),
{
    match report {
        Some(LegReport::Group { pending_legs, legs }) => {
            connected_legs_are_counted(legs@);
        },
        _ => {},
    }
}

/// A slot that starts to carry traffic has its end and its first send before it, and its
/// handshake behind it. No other slot's deadlines are touched.
pub proof fn going_up_arms_a_stream(
    b: Books,
    slot: usize,
    was: SharedSenderSlot,
    report: Option<LegReport>,
    end_us: u64,
    send_us: u64,
)
    ensures
        ({
            let after = b.stream(slot, was, report, end_us, send_us).deadlines;
            &&& after.contains_key((slot, AppDeadlineKind::StreamEnd))
            &&& after[(slot, AppDeadlineKind::StreamEnd)] == end_us
            &&& !after.contains_key((slot, AppDeadlineKind::ConnectTimeout))
            &&& was.caller is Some ==> after.contains_key((slot, AppDeadlineKind::Send))
                && after[(slot, AppDeadlineKind::Send)] == send_us
            &&& forall|other: usize, kind: AppDeadlineKind|
                other != slot ==> (#[trigger] after.contains_key((other, kind))
                    == b.deadlines.contains_key((other, kind))) && (after.contains_key(
                    (other, kind),
                ) ==> after[(other, kind)] == b.deadlines[(other, kind)])
        }),
{
}

/// A slot that comes to its end leaves nothing behind: its caller is dropped, its tokens
/// come back as failed, none of its deadlines is armed and none of its ids is routed.
pub proof fn ends_leave_nothing_behind(b: Books, slot: usize, was: SharedSenderSlot)
    requires
        was.held_handshake_tokens <= b.limiter.in_flight,
    ensures
        ({
            let after = b.close(slot, was);
            &&& after.closed == b.closed + 1
            &&& after.limiter.in_flight == b.limiter.in_flight - was.held_handshake_tokens
            &&& after.limiter.failed == b.limiter.failed + was.held_handshake_tokens
            &&& after.limiter.completed == b.limiter.completed
            &&& was.caller is Some ==> after.remove == b.remove.push(was.caller->0)
            &&& was.caller is None ==> after.remove == b.remove
            &&& after.disconnect == b.disconnect
            &&& forall|kind: AppDeadlineKind| !#[trigger] after.deadlines.contains_key((slot, kind))
            &&& forall|other: usize, kind: AppDeadlineKind|
                other != slot ==> (#[trigger] after.deadlines.contains_key((other, kind))
                    == b.deadlines.contains_key((other, kind)))
            &&& forall|sid: u32| #[trigger]
                after.routes.contains_key(sid) <==> b.routes.contains_key(sid)
                    && !was.socket_ids@.contains(sid)
        }),
{
    let after = b.close(slot, was);
    assert forall|kind: AppDeadlineKind| !#[trigger] after.deadlines.contains_key((slot, kind)) by {
        match kind {
            AppDeadlineKind::Send => {},
            AppDeadlineKind::StreamEnd => {},
            AppDeadlineKind::ConnectTimeout => {},
        }
    }
}

/// A slot whose caller is asked to close neither sends nor ends by itself any more, and
/// its caller stays until the transport says that it is gone.
pub proof fn closing_asks_the_transport(b: Books, slot: usize, was: SharedSenderSlot)
    requires
        was.caller is Some,
        was.held_handshake_tokens <= b.limiter.in_flight,
    ensures
        ({
            let after = b.begin_close(slot, was);
            &&& after.disconnect == b.disconnect.push(was.caller->0)
            &&& after.remove == b.remove
            &&& after.closed == b.closed
            &&& after.routes == b.routes
            &&& !after.deadlines.contains_key((slot, AppDeadlineKind::Send))
            &&& !after.deadlines.contains_key((slot, AppDeadlineKind::StreamEnd))
            &&& after.limiter.failed == b.limiter.failed + was.held_handshake_tokens
            &&& after.limiter.completed == b.limiter.completed
            &&& after.limiter.in_flight == b.limiter.in_flight - was.held_handshake_tokens
        }),
{
}

/// What a look at a caller makes of its slot: a handshake whose caller is connected
/// streams, once no leg of a bonded pair is pending or every leg is up; a caller that is
/// gone ends its slot; everything else stays as it is.
pub proof fn looks_follow_the_caller(
    was: SharedSenderSlot,
    now: SharedSenderSlot,
    report: CallerReport,
    end_us: u64,
)
    requires
        evaluated(was, now, report, end_us),
        was.caller is Some,
        was.phase != SlotPhase::Pending,
        was.phase != SlotPhase::Closed,
    ensures
        was.phase == SlotPhase::Handshaking && report.state == CallerState::Connected
            && was.physical_legs == 1 ==> now.phase == SlotPhase::Streaming,
        was.phase == SlotPhase::Handshaking && report.state == CallerState::Connected
            && was.physical_legs == 2 ==> match report.legs {
            Some(LegReport::Group { pending_legs, legs }) => now.phase == SlotPhase::Streaming
                <==> pending_legs == 0 || (legs@.len() == 2 && legs@[0].sender is Some
                && legs@[1].sender is Some),
            Some(LegReport::Direct(_)) => now.phase == SlotPhase::Streaming,
            None => now == was,
        },
        report.state == CallerState::Disconnected ==> now.phase == SlotPhase::Closed,
        report.state == CallerState::Unsettled ==> now == was,
        report.state == CallerState::Connected && was.phase != SlotPhase::Handshaking ==> now
            == was,
        now.phase == SlotPhase::Streaming && was.phase == SlotPhase::Handshaking
            ==> now.stream_deadline_us == Some(end_us) && now.held_handshake_tokens == 0
            && now.caller == was.caller,
        now.phase == SlotPhase::Closed ==> now.caller is None && now.held_handshake_tokens == 0
            && now.socket_ids@.len() == 0,
        now.physical_legs == was.physical_legs,
        now.cfg_index == was.cfg_index,
        now.bond_pair_index == was.bond_pair_index,
{
    match report.legs {
        Some(LegReport::Group { pending_legs, legs }) => {
            if legs@.len() == 2 {
                let one = legs@.drop_last();
                assert(one.drop_last() =~= Seq::<Leg>::empty());
                assert(one.last() == legs@[0]);
                assert(legs@.last() == legs@[1]);
                assert(up_count(one.drop_last()) == 0);
                assert(up_count(one) == if legs@[0].sender is Some {
                    1nat
                } else {
                    0
                });
            }
        },
        _ => {},
    }
}

/// A connection that breaks while it carries traffic, or in its handshake, was torn down
/// as far as it was up. One that is closed in order is not.
pub proof fn only_broken_connections_are_torn_down(
    was: SharedSenderSlot,
    now: SharedSenderSlot,
    report: CallerReport,
    end_us: u64,
    k: int,
)
    requires
        evaluated(was, now, report, end_us),
        was.caller is Some,
        report.state == CallerState::Disconnected,
        was.phase == SlotPhase::Handshaking || was.phase == SlotPhase::Streaming || was.phase
            == SlotPhase::Closing,
        0 <= k < was.stats@.len(),
    ensures
        now.stats@.len() == was.stats@.len(),
        was.phase == SlotPhase::Closing ==> now.stats@[k].torn_down == was.stats@[k].torn_down,
        was.phase != SlotPhase::Closing && was.stats@[k].connected ==> now.stats@[k].torn_down,
        was.phase != SlotPhase::Closing && !now.stats@[k].connected ==> now.stats@[k].torn_down
            == was.stats@[k].torn_down,
        was.stats@[k].connected ==> now.stats@[k].connected,
        now.stats@[k].data_events == was.stats@[k].data_events,
{
}

/// A stream that starts has all its legs connected, and nothing else is said of them.
pub proof fn starting_marks_every_leg_connected(
    was: SharedSenderSlot,
    now: SharedSenderSlot,
    end_us: u64,
    k: int,
)
    requires
        streaming_from(was, now, end_us),
        0 <= k < was.stats@.len(),
    ensures
        now.stats@.len() == was.stats@.len(),
        now.stats@[k].connected,
        now.stats@[k] == (ConnStats { connected: true, ..was.stats@[k] }),
{
}

/// What a deadline that has come asks for: sending and ending belong to a stream, timing
/// out to a handshake, and a stream that is past its end is closed rather than sent on.
pub proof fn deadlines_ask_for_what_they_are(
    s: SharedSenderSlot,
    entry: AppDeadlineEntry,
    now_us: u64,
)
    ensures
        due_for(s, entry, now_us) == DueAction::Send <==> entry.kind == AppDeadlineKind::Send
            && s.phase == SlotPhase::Streaming && s.caller is Some && (s.stream_deadline_us is None
            || now_us < s.stream_deadline_us->0),
        due_for(s, entry, now_us) == DueAction::TimeOut <==> entry.kind
            == AppDeadlineKind::ConnectTimeout && s.phase == SlotPhase::Handshaking,
        due_for(s, entry, now_us) == DueAction::Close <==> s.phase == SlotPhase::Streaming && (
        entry.kind == AppDeadlineKind::StreamEnd || (entry.kind == AppDeadlineKind::Send
            && s.caller is Some && s.stream_deadline_us is Some && now_us
            >= s.stream_deadline_us->0)),
        s.phase == SlotPhase::Closed || s.phase == SlotPhase::Pending || s.phase
            == SlotPhase::Closing ==> due_for(s, entry, now_us) == DueAction::Ignore,
{
}

/// A handshake has twenty-five seconds, and a sender sleeps for a fiftieth of a second at
/// most.
pub proof fn waits_are_bounded_in_seconds()
    ensures
        CONNECT_TIMEOUT_US == 25 * 1_000_000,
        MAX_WAIT_US * 50 == 1_000_000,
{
}

} // verus!
