//! Slot scheduling of a shared-egress sender.
//!
//! Many logical callers share one UDP socket. Scheduling is event-driven: only
//! slots that a packet touched, whose deadline expired, whose handshake is in
//! flight or whose close is under way are visited. Idle slots cost nothing.
//!
//! The transport is outside: it reports what it sees of a caller as a
//! [`CallerReport`], and is told what to do through [`SenderEffects`].
use crate::deadlines::{
    AppDeadlineEntry, AppDeadlineKind, DeadlineIndex, before, entry, in_order, key_of,
};
use crate::limiter::{ConnectLimiter, LimiterState, a_limiter_adds_up, release_and_wake};
use crate::stats::{ConnStats, SourceStats, no_stats, one_if};
use std::collections::{HashMap, VecDeque};
use vstd::prelude::*;
use vstd::std_specs::hash::*;

verus! {

broadcast use group_hash_axioms;

/// How long a handshake may take, from its own start.
pub const CONNECT_TIMEOUT_US: u64 = 25_000_000;

/// The longest that a sender sleeps without looking around.
pub const MAX_WAIT_US: u64 = 20_000;

#[derive(Clone, Copy, PartialEq, Eq, Debug, Structural)]
pub enum SlotPhase {
    Pending,
    Handshaking,
    Streaming,
    Closing,
    Closed,
}

/// Protocol totals of one sending leg.
#[derive(Clone, Copy, PartialEq, Eq, Debug, Structural)]
pub struct SenderTotals {
    pub total_sent: u64,
    pub total_retransmits: u64,
    pub packets_in_loss_list: u64,
}

/// One physical leg, as the transport sees it.
#[derive(Clone, Copy, PartialEq, Eq, Debug, Structural)]
pub struct Leg {
    /// A group member that is active, on standby or unstable.
    pub member_up: bool,
    /// Set once the leg's handshake has completed.
    pub sender: Option<SenderTotals>,
}

/// The legs of one logical caller.
#[derive(Debug)]
pub enum LegReport {
    Direct(Leg),
    Group { pending_legs: usize, legs: Vec<Leg> },
}

#[derive(Clone, Copy, PartialEq, Eq, Debug, Structural)]
pub enum CallerState {
    /// Neither of the two below, or no such caller.
    Unsettled,
    Connected,
    Disconnected,
}

/// What the transport knows of one logical caller.
#[derive(Debug)]
pub struct CallerReport {
    pub state: CallerState,
    pub legs: Option<LegReport>,
    /// How long the next send has to wait, for pacing or for the source.
    pub send_wait_us: u64,
}

/// What the transport has to do.
#[derive(Debug)]
pub struct SenderEffects {
    /// Callers to close in order.
    pub disconnect: Vec<u64>,
    /// Callers to drop.
    pub remove: Vec<u64>,
    /// Admission tickets to wake.
    pub wake: Vec<u64>,
}

impl SenderEffects {
    pub fn new() -> (r: Self)
        ensures
            r.disconnect@.len() == 0,
            r.remove@.len() == 0,
            r.wake@.len() == 0,
    {
        SenderEffects { disconnect: Vec::new(), remove: Vec::new(), wake: Vec::new() }
    }
}

/// One logical stream: a single leg, or a bonded pair of two.
#[derive(Debug)]
pub struct SharedSenderSlot {
    pub phase: SlotPhase,
    pub caller: Option<u64>,
    pub stats: Vec<ConnStats>,
    pub stream_deadline_us: Option<u64>,
    pub physical_legs: usize,
    pub held_handshake_tokens: usize,
    pub dirty: bool,
    pub cfg_index: usize,
    pub bond_pair_index: Option<usize>,
    pub socket_ids: Vec<u32>,
}

/// Instrumentation counters for scheduling work.
///
/// Every counter records slots actually *visited*. Their sum over a tick is the
/// scheduler's real per-tick cost.
#[derive(Clone, Copy, PartialEq, Eq, Debug, Structural)]
pub struct SharedSenderSchedStats {
    pub tick_calls: u64,
    pub dirty_slot_visits: u64,
    pub application_due_visits: u64,
    pub handshake_state_visits: u64,
    pub closing_slot_visits: u64,
}

impl Default for SharedSenderSchedStats {
    fn default() -> (r: Self)
        ensures
            r == no_visits(),
    {
        SharedSenderSchedStats {
            tick_calls: 0,
            dirty_slot_visits: 0,
            application_due_visits: 0,
            handshake_state_visits: 0,
            closing_slot_visits: 0,
        }
    }
}

pub open spec fn no_visits() -> SharedSenderSchedStats {
    SharedSenderSchedStats {
        tick_calls: 0,
        dirty_slot_visits: 0,
        application_due_visits: 0,
        handshake_state_visits: 0,
        closing_slot_visits: 0,
    }
}

impl SharedSenderSchedStats {
    /// Slots visited, as a number.
    pub open spec fn visits(self) -> int {
        self.dirty_slot_visits + self.application_due_visits + self.handshake_state_visits
            + self.closing_slot_visits
    }

    /// Total slots visited across all scheduling phases.
    pub fn slot_visits(&self) -> (r: u64)
        requires
            self.visits() <= u64::MAX,
        ensures
            r == self.visits(),
    {
        self.dirty_slot_visits + self.application_due_visits + self.handshake_state_visits
            + self.closing_slot_visits
    }
}

/// Protocol/timer half of a shared-egress sender.
#[derive(Debug)]
pub struct SharedSender {
    pub slots: Vec<SharedSenderSlot>,
    pub pending_start: VecDeque<usize>,
    pub dirty_ready: VecDeque<usize>,
    pub deadlines: DeadlineIndex,
    pub in_flight_set: Vec<usize>,
    pub closing_set: Vec<usize>,
    pub terminal_count: usize,
    pub socket_id_to_slot: HashMap<u32, usize>,
    pub sched_stats: SharedSenderSchedStats,
}

// ---------------------------------------------------------------------------
// Slot layout
// ---------------------------------------------------------------------------

/// The slots for the connection indices `mine` from `position` on: an even index
/// below `bonded_legs` and its successor make a pair if they are neighbours in
/// `mine`; every other index stands alone.
pub open spec fn layout(mine: Seq<usize>, bonded_legs: usize, position: int) -> Seq<
    (usize, Option<usize>),
>
    decreases mine.len() - position,
{
    if position < 0 || position >= mine.len() {
        Seq::empty()
    } else if pairs_at(mine, bonded_legs, position) {
        seq![(mine[position], Some((mine[position] + 1) as usize))] + layout(
            mine,
            bonded_legs,
            position + 2,
        )
    } else {
        seq![(mine[position], None)] + layout(mine, bonded_legs, position + 1)
    }
}

/// Whether the index at `position` and the next one are two legs of one stream.
pub open spec fn pairs_at(mine: Seq<usize>, bonded_legs: usize, position: int) -> bool {
    let index = mine[position];
    index < bonded_legs && index % 2 == 0 && position + 1 < mine.len() && mine[position + 1] == index
        + 1
}

/// The connection indices of a slot.
pub open spec fn place(s: SharedSenderSlot) -> (usize, Option<usize>) {
    (s.cfg_index, s.bond_pair_index)
}

/// A slot that has not started.
pub open spec fn fresh(s: SharedSenderSlot) -> bool {
    &&& s.phase == SlotPhase::Pending
    &&& s.caller is None
    &&& s.physical_legs == if s.bond_pair_index is Some {
        2int
    } else {
        1
    }
    &&& s.stats@ == Seq::new(s.physical_legs as nat, |i: int| no_stats())
    &&& s.stream_deadline_us is None
    &&& s.held_handshake_tokens == 0
    &&& !s.dirty
    &&& s.socket_ids@.len() == 0
}

// ---------------------------------------------------------------------------
// Sums over slots
// ---------------------------------------------------------------------------

/// The sum of `f` over `slots`.
pub open spec fn slot_sum(slots: Seq<SharedSenderSlot>, f: spec_fn(SharedSenderSlot) -> nat) -> nat
    decreases slots.len(),
{
    if slots.len() == 0 {
        0
    } else {
        slot_sum(slots.drop_last(), f) + f(slots.last())
    }
}

/// One for a closed slot.
pub open spec fn closed_mark() -> spec_fn(SharedSenderSlot) -> nat {
    |s: SharedSenderSlot| one_if(s.phase == SlotPhase::Closed)
}

/// Tokens that a slot holds.
pub open spec fn held_mark() -> spec_fn(SharedSenderSlot) -> nat {
    |s: SharedSenderSlot| s.held_handshake_tokens as nat
}

proof fn lemma_sum_update(
    slots: Seq<SharedSenderSlot>,
    f: spec_fn(SharedSenderSlot) -> nat,
    i: int,
    s: SharedSenderSlot,
)
    requires
        0 <= i < slots.len(),
    ensures
        slot_sum(slots.update(i, s), f) + f(slots[i]) == slot_sum(slots, f) + f(s),
        f(slots[i]) <= slot_sum(slots, f),
    decreases slots.len(),
{
    let after = slots.update(i, s);
    if i == slots.len() - 1 {
        assert(after.drop_last() =~= slots.drop_last());
    } else {
        lemma_sum_update(slots.drop_last(), f, i, s);
        assert(after.drop_last() =~= slots.drop_last().update(i, s));
    }
}

proof fn lemma_sum_zero(slots: Seq<SharedSenderSlot>, f: spec_fn(SharedSenderSlot) -> nat)
    requires
        forall|i: int| 0 <= i < slots.len() ==> f(#[trigger] slots[i]) == 0,
    ensures
        slot_sum(slots, f) == 0,
    decreases slots.len(),
{
    if slots.len() > 0 {
        lemma_sum_zero(slots.drop_last(), f);
    }
}

/// The closed slots are all slots exactly when every slot is closed.
proof fn lemma_closed_count(slots: Seq<SharedSenderSlot>)
    ensures
        slot_sum(slots, closed_mark()) <= slots.len(),
        (slot_sum(slots, closed_mark()) == slots.len()) == (forall|i: int|
            0 <= i < slots.len() ==> (#[trigger] slots[i]).phase == SlotPhase::Closed),
    decreases slots.len(),
{
    if slots.len() > 0 {
        let rest = slots.drop_last();
        lemma_closed_count(rest);
        if forall|i: int| 0 <= i < slots.len() ==> (#[trigger] slots[i]).phase == SlotPhase::Closed {
            assert forall|i: int| 0 <= i < rest.len() implies (#[trigger] rest[i]).phase
                == SlotPhase::Closed by {
                assert(rest[i] == slots[i]);
            }
        }
        if slot_sum(slots, closed_mark()) == slots.len() {
            assert forall|i: int| 0 <= i < slots.len() implies (#[trigger] slots[i]).phase
                == SlotPhase::Closed by {
                if i < rest.len() {
                    assert(rest[i] == slots[i]);
                }
            }
        }
    }
}

// ---------------------------------------------------------------------------
// Statistics
// ---------------------------------------------------------------------------

/// `stats` with the totals of a leg, if it has any.
pub open spec fn with_totals(stats: ConnStats, leg: Leg) -> ConnStats {
    match leg.sender {
        Some(t) => ConnStats {
            has_stats: true,
            core_total: t.total_sent,
            secondary_a: t.total_retransmits,
            secondary_b: t.packets_in_loss_list,
            ..stats
        },
        None => stats,
    }
}

/// `stats` with a group member's state and totals.
pub open spec fn with_member(stats: ConnStats, leg: Leg) -> ConnStats {
    with_totals(
        ConnStats { connected: stats.connected || leg.member_up || leg.sender is Some, ..stats },
        leg,
    )
}

/// The statistics of a slot, brought up to date with a report.
pub open spec fn snapshot(stats: Seq<ConnStats>, report: Option<LegReport>) -> Seq<ConnStats> {
    match report {
        None => stats,
        Some(LegReport::Direct(leg)) => if stats.len() > 0 {
            stats.update(0, with_totals(stats[0], leg))
        } else {
            stats
        },
        Some(LegReport::Group { pending_legs, legs }) => Seq::new(
            stats.len(),
            |i: int|
                if i < legs@.len() {
                    with_member(stats[i], legs@[i])
                } else {
                    stats[i]
                },
        ),
    }
}

/// The statistics, with every connected leg marked as torn down.
pub open spec fn torn(stats: Seq<ConnStats>) -> Seq<ConnStats> {
    stats.map_values(
        |s: ConnStats| ConnStats { torn_down: s.torn_down || s.connected, ..s },
    )
}

/// The statistics, with every leg marked as connected.
pub open spec fn all_connected(stats: Seq<ConnStats>) -> Seq<ConnStats> {
    stats.map_values(|s: ConnStats| ConnStats { connected: true, ..s })
}

/// How many legs of a report have completed their handshake.
pub open spec fn connected_legs(report: Option<LegReport>) -> nat {
    match report {
        None => 0,
        Some(LegReport::Direct(leg)) => one_if(leg.sender is Some),
        Some(LegReport::Group { pending_legs, legs }) => up_count(legs@),
    }
}

pub open spec fn up_count(legs: Seq<Leg>) -> nat
    decreases legs.len(),
{
    if legs.len() == 0 {
        0
    } else {
        up_count(legs.drop_last()) + one_if(legs.last().sender is Some)
    }
}

/// Whether no handshake of a slot with `physical_legs` legs is still under way.
pub open spec fn handshakes_settled(physical_legs: usize, report: Option<LegReport>) -> bool {
    physical_legs <= 1 || match report {
        None => false,
        Some(LegReport::Direct(_)) => true,
        Some(LegReport::Group { pending_legs, legs }) => pending_legs == 0 || (legs@.len()
            == physical_legs && up_count(legs@) == legs@.len()),
    }
}

fn count_up(legs: &Vec<Leg>) -> (r: usize)
    ensures
        r == up_count(legs@),
        r <= legs@.len(),
{
    let mut n: usize = 0;
    let mut i: usize = 0;
    assert(legs@.take(0) =~= Seq::<Leg>::empty());
    while i < legs.len()
        invariant
            i <= legs@.len(),
            n <= i,
            n == up_count(legs@.take(i as int)),
        decreases legs@.len() - i,
    {
        assert(legs@.take(i + 1).drop_last() =~= legs@.take(i as int));
        if legs[i].sender.is_some() {
            n += 1;
        }
        i += 1;
    }
    assert(legs@.take(legs@.len() as int) =~= legs@);
    n
}

fn report_connected(report: &Option<LegReport>) -> (r: usize)
    ensures
        r == connected_legs(*report),
{
    match report {
        None => 0,
        Some(LegReport::Direct(leg)) => if leg.sender.is_some() {
            1
        } else {
            0
        },
        Some(LegReport::Group { pending_legs: _, legs }) => count_up(legs),
    }
}

fn report_settled(physical_legs: usize, report: &Option<LegReport>) -> (r: bool)
    ensures
        r == handshakes_settled(physical_legs, *report),
{
    if physical_legs <= 1 {
        return true;
    }
    match report {
        None => false,
        Some(LegReport::Direct(_)) => true,
        Some(LegReport::Group { pending_legs, legs }) => *pending_legs == 0 || (legs.len()
            == physical_legs && count_up(legs) == legs.len()),
    }
}

fn apply_sender_stats(stats: ConnStats, leg: Leg) -> (r: ConnStats)
    ensures
        r == with_totals(stats, leg),
{
    match leg.sender {
        Some(t) => ConnStats {
            has_stats: true,
            core_total: t.total_sent,
            secondary_a: t.total_retransmits,
            secondary_b: t.packets_in_loss_list,
            ..stats
        },
        None => stats,
    }
}

fn snapshot_stats(stats: &mut Vec<ConnStats>, report: &Option<LegReport>)
    ensures
        final(stats)@ == snapshot(old(stats)@, *report),
{
    match report {
        None => {},
        Some(LegReport::Direct(leg)) => {
            if stats.len() > 0 {
                let updated = apply_sender_stats(stats[0], *leg);
                stats.set(0, updated);
            }
        },
        Some(LegReport::Group { pending_legs: _, legs }) => {
            let ghost want = snapshot(stats@, *report);
            let ghost start = stats@;
            let mut i: usize = 0;
            while i < stats.len() && i < legs.len()
                invariant
                    i <= stats@.len() == start.len(),
                    i <= legs@.len(),
                    want == snapshot(start, *report),
                    *report == Some(LegReport::Group { pending_legs: (*report)->0->pending_legs, legs: *legs }),
                    forall|j: int| 0 <= j < i ==> stats@[j] == want[j],
                    forall|j: int| i <= j < stats@.len() ==> stats@[j] == start[j],
                decreases stats@.len() - i,
            {
                let was = stats[i];
                let leg = legs[i];
                let up = ConnStats {
                    connected: was.connected || leg.member_up || leg.sender.is_some(),
                    ..was
                };
                stats.set(i, apply_sender_stats(up, leg));
                i += 1;
            }
            assert(stats@ =~= want);
        },
    }
}

fn mark_torn(stats: &mut Vec<ConnStats>)
    ensures
        final(stats)@ == torn(old(stats)@),
{
    let ghost start = stats@;
    let mut i: usize = 0;
    while i < stats.len()
        invariant
            i <= stats@.len() == start.len(),
            forall|j: int| 0 <= j < i ==> stats@[j] == torn(start)[j],
            forall|j: int| i <= j < stats@.len() ==> stats@[j] == start[j],
        decreases stats@.len() - i,
    {
        let s = stats[i];
        stats.set(i, ConnStats { torn_down: s.torn_down || s.connected, ..s });
        i += 1;
    }
    assert(stats@ =~= torn(start));
}

fn mark_connected(stats: &mut Vec<ConnStats>)
    ensures
        final(stats)@ == all_connected(old(stats)@),
{
    let ghost start = stats@;
    let mut i: usize = 0;
    while i < stats.len()
        invariant
            i <= stats@.len() == start.len(),
            forall|j: int| 0 <= j < i ==> stats@[j] == all_connected(start)[j],
            forall|j: int| i <= j < stats@.len() ==> stats@[j] == start[j],
        decreases stats@.len() - i,
    {
        let s = stats[i];
        stats.set(i, ConnStats { connected: true, ..s });
        i += 1;
    }
    assert(stats@ =~= all_connected(start));
}

// ---------------------------------------------------------------------------
// Invariant
// ---------------------------------------------------------------------------

/// What holds of slot number `i`, given the armed deadlines.
pub open spec fn slot_ok(
    s: SharedSenderSlot,
    i: usize,
    armed: Map<(usize, AppDeadlineKind), u64>,
) -> bool {
    &&& 1 <= s.physical_legs <= 2
    &&& s.stats@.len() == s.physical_legs
    &&& s.held_handshake_tokens == if s.phase == SlotPhase::Handshaking {
        s.physical_legs
    } else {
        0
    }
    &&& (s.phase == SlotPhase::Pending || s.phase == SlotPhase::Closed) ==> s.caller is None
    &&& s.caller is None ==> s.socket_ids@.len() == 0
    &&& armed.contains_key((i, AppDeadlineKind::ConnectTimeout)) ==> s.phase
        == SlotPhase::Handshaking || s.phase == SlotPhase::Closing
    &&& armed.contains_key((i, AppDeadlineKind::Send)) ==> s.phase == SlotPhase::Streaming
    &&& armed.contains_key((i, AppDeadlineKind::StreamEnd)) ==> s.phase == SlotPhase::Streaming
}

/// `set` lists slots, each once.
pub open spec fn lists_slots(set: Seq<usize>, n: nat) -> bool {
    &&& set.no_duplicates()
    &&& forall|j: int| 0 <= j < set.len() ==> #[trigger] set[j] < n
}

impl SharedSender {
    /// The scheduler's invariant.
    pub open spec fn wf(&self) -> bool {
        let n = self.slots@.len();
        &&& self.deadlines.wf()
        &&& self.deadlines.slots() == n
        &&& forall|i: int|
            0 <= i < n ==> slot_ok(#[trigger] self.slots@[i], i as usize, self.deadlines@)
        &&& self.terminal_count == slot_sum(self.slots@, closed_mark())
        &&& lists_slots(self.pending_start@, n)
        &&& forall|i: int|
            0 <= i < n ==> ((#[trigger] self.slots@[i]).phase == SlotPhase::Pending)
                == self.pending_start@.contains(i as usize)
        &&& lists_slots(self.dirty_ready@, n)
        &&& forall|i: int|
            0 <= i < n ==> (#[trigger] self.slots@[i]).dirty == self.dirty_ready@.contains(
                i as usize,
            )
        &&& lists_slots(self.in_flight_set@, n)
        &&& forall|i: int|
            0 <= i < n && (#[trigger] self.slots@[i]).phase == SlotPhase::Handshaking
                ==> self.in_flight_set@.contains(i as usize)
        &&& forall|i: int|
            0 <= i < n && (#[trigger] self.slots@[i]).phase == SlotPhase::Pending
                ==> !self.in_flight_set@.contains(i as usize)
        &&& lists_slots(self.closing_set@, n)
        &&& forall|i: int|
            0 <= i < n && (#[trigger] self.slots@[i]).phase == SlotPhase::Closing
                ==> self.closing_set@.contains(i as usize)
        &&& forall|i: int|
            0 <= i < n && self.closing_set@.contains(i as usize) ==> (
            #[trigger] self.slots@[i]).phase == SlotPhase::Closing || self.slots@[i].phase
                == SlotPhase::Closed
        &&& forall|sid: u32| #[trigger]
            self.socket_id_to_slot@.contains_key(sid) ==> self.socket_id_to_slot@[sid] < n
                && self.slots@[self.socket_id_to_slot@[sid] as int].socket_ids@.contains(sid)
    }

    /// Tokens that the slots hold together.
    pub open spec fn held(&self) -> nat {
        slot_sum(self.slots@, held_mark())
    }

    /// The limiter counts every token that a slot holds.
    pub open spec fn accounted(&self, limiter: &ConnectLimiter) -> bool {
        limiter.wf() && self.held() <= limiter@.in_flight
    }
}

/// Senders may share a limiter. Where it counts the tokens of one sender and those that
/// others hold, it still does after any step of the sender: each step changes what is in
/// flight by what the sender itself took or gave back.
pub proof fn senders_may_share_a_limiter(
    before: &SharedSender,
    after: &SharedSender,
    was: &ConnectLimiter,
    now: &ConnectLimiter,
    others: nat,
)
    requires
        was.wf(),
        now.wf(),
        before.held() + others <= was@.in_flight,
        now@.in_flight - after.held() == was@.in_flight - before.held(),
    ensures
        before.accounted(was),
        after.accounted(now),
        after.held() + others <= now@.in_flight,
        now@.in_flight + now@.reserved <= now@.limit,
{
    a_limiter_adds_up(now);
}

/// A closed slot is gone: no caller, no route, no token and no deadline is left of
/// it.
pub proof fn closed_slots_are_retired(sender: &SharedSender, i: int)
    requires
        sender.wf(),
        0 <= i < sender.slots@.len(),
        sender.slots@[i].phase == SlotPhase::Closed,
    ensures
        sender.slots@[i].caller is None,
        sender.slots@[i].held_handshake_tokens == 0,
        forall|k: (usize, AppDeadlineKind)| #[trigger]
            sender.deadlines@.contains_key(k) ==> k.0 != i,
        forall|sid: u32| #[trigger]
            sender.socket_id_to_slot@.contains_key(sid) ==> sender.socket_id_to_slot@[sid] != i,
{
    assert(slot_ok(sender.slots@[i], i as usize, sender.deadlines@));
    assert forall|k: (usize, AppDeadlineKind)| #[trigger]
        sender.deadlines@.contains_key(k) implies k.0 != i by {
        match k.1 {
            AppDeadlineKind::Send => {},
            AppDeadlineKind::StreamEnd => {},
            AppDeadlineKind::ConnectTimeout => {},
        }
    }
}

/// Handshake tokens are held while a handshake is under way, and then one per leg.
pub proof fn tokens_are_held_while_handshaking(sender: &SharedSender, i: int)
    requires
        sender.wf(),
        0 <= i < sender.slots@.len(),
    ensures
        sender.slots@[i].held_handshake_tokens == if sender.slots@[i].phase
            == SlotPhase::Handshaking {
            sender.slots@[i].physical_legs
        } else {
            0
        },
{
    assert(slot_ok(sender.slots@[i], i as usize, sender.deadlines@));
}

// ---------------------------------------------------------------------------
// Starting and routing
// ---------------------------------------------------------------------------

/// `routes` with every id of `ids` leading to `slot`.
pub open spec fn route_all(routes: Map<u32, usize>, ids: Seq<u32>, slot: usize) -> Map<u32, usize> {
    Map::new(
        |k: u32| routes.contains_key(k) || ids.contains(k),
        |k: u32|
            if ids.contains(k) {
                slot
            } else {
                routes[k]
            },
    )
}

/// The elements of `list` whose slot is not closed.
pub open spec fn open_slots(list: Seq<usize>, slots: Seq<SharedSenderSlot>) -> Seq<usize> {
    list.filter(|i: usize| slots[i as int].phase != SlotPhase::Closed)
}

impl SharedSender {
    /// One slot per logical stream of the connections `mine`, all waiting for
    /// admission in order. Indices below `bonded_legs` are legs of bonded pairs.
    pub fn new(bonded_legs: usize, mine: &Vec<usize>) -> (r: Self)
        ensures
            r.wf(),
            r.held() == 0,
            r.slots@.map_values(|s: SharedSenderSlot| place(s)) == layout(mine@, bonded_legs, 0),
            forall|i: int| 0 <= i < r.slots@.len() ==> fresh(#[trigger] r.slots@[i]),
            r.pending_start@ == Seq::new(r.slots@.len(), |i: int| i as usize),
            r.dirty_ready@.len() == 0,
            r.in_flight_set@.len() == 0,
            r.closing_set@.len() == 0,
            r.terminal_count == 0,
            r.deadlines@ == Map::<(usize, AppDeadlineKind), u64>::empty(),
            r.socket_id_to_slot@ == Map::<u32, usize>::empty(),
            r.sched_stats == no_visits(),
    {
        let mut slots: Vec<SharedSenderSlot> = Vec::new();
        let mut pending_start: VecDeque<usize> = VecDeque::new();
        let mut position: usize = 0;
        let ghost want = layout(mine@, bonded_legs, 0);
        let ghost placed = |s: SharedSenderSlot| place(s);
        assert(slots@.map_values(placed) + layout(mine@, bonded_legs, 0) =~= want);
        while position < mine.len()
            invariant
                position <= mine@.len(),
                want == layout(mine@, bonded_legs, 0),
                placed == |s: SharedSenderSlot| place(s),
                slots@.map_values(placed) + layout(mine@, bonded_legs, position as int) == want,
                forall|i: int| 0 <= i < slots@.len() ==> fresh(#[trigger] slots@[i]),
                pending_start@ == Seq::new(slots@.len(), |i: int| i as usize),
            decreases mine@.len() - position,
        {
            let index: usize = mine[position];
            let paired = index < bonded_legs && index % 2 == 0 && position + 1 < mine.len() && mine[position
                + 1] == index + 1;
            let mut stats: Vec<ConnStats> = Vec::new();
            stats.push(ConnStats::default());
            if paired {
                stats.push(ConnStats::default());
            }
            let slot = SharedSenderSlot {
                phase: SlotPhase::Pending,
                caller: None,
                stats,
                stream_deadline_us: None,
                physical_legs: if paired {
                    2
                } else {
                    1
                },
                held_handshake_tokens: 0,
                dirty: false,
                cfg_index: index,
                bond_pair_index: if paired {
                    Some(index + 1)
                } else {
                    None
                },
                socket_ids: Vec::new(),
            };
            proof {
                assert(slot.stats@ =~= Seq::new(slot.physical_legs as nat, |i: int| no_stats()));
                assert(fresh(slot));
                let step: int = if paired {
                    2
                } else {
                    1
                };
                assert(slots@.push(slot).map_values(placed) + layout(
                    mine@,
                    bonded_legs,
                    position + step,
                ) =~= slots@.map_values(placed) + layout(mine@, bonded_legs, position as int));
            }
            let slot_id: usize = slots.len();
            pending_start.push_back(slot_id);
            slots.push(slot);
            assert(pending_start@ =~= Seq::new(slots@.len(), |i: int| i as usize));
            position += if paired {
                2
            } else {
                1
            };
        }
        assert(slots@.map_values(placed) =~= want);
        let n: usize = slots.len();
        let r = SharedSender {
            slots,
            pending_start,
            dirty_ready: VecDeque::new(),
            deadlines: DeadlineIndex::new(n),
            in_flight_set: Vec::new(),
            closing_set: Vec::new(),
            terminal_count: 0,
            socket_id_to_slot: HashMap::new(),
            sched_stats: SharedSenderSchedStats::default(),
        };
        proof {
            lemma_sum_zero(r.slots@, closed_mark());
            lemma_sum_zero(r.slots@, held_mark());
            assert forall|i: int| 0 <= i < n implies ((#[trigger] r.slots@[i]).phase
                == SlotPhase::Pending) == r.pending_start@.contains(i as usize) by {
                assert(r.pending_start@[i] == i as usize);
            }
        }
        r
    }

    /// Starts the slot that has waited longest, if the limiter has tokens for all
    /// its legs. The transport then makes the caller and installs it.
    pub fn start_next(&mut self, limiter: &mut ConnectLimiter, now_us: u64) -> (r: Option<usize>)
        requires
            old(self).wf(),
            old(self).accounted(old(limiter)),
            old(limiter)@.started + 2 <= usize::MAX,
            now_us + CONNECT_TIMEOUT_US <= u64::MAX,
        ensures
            final(self).wf(),
            final(self).accounted(final(limiter)),
            final(limiter)@.in_flight - final(self).held() == old(limiter)@.in_flight - old(
                self,
            ).held(),
            (r is Some) == (old(self).pending_start@.len() > 0
                && old(self).slots@[old(self).pending_start@[0] as int].physical_legs
                <= old(limiter)@.free()),
            match r {
                None => *final(self) == *old(self) && *final(limiter) == *old(limiter),
                Some(i) => {
                    let was = old(self).slots@[i as int];
                    let now = final(self).slots@[i as int];
                    &&& i == old(self).pending_start@[0]
                    &&& now == (SharedSenderSlot {
                        phase: SlotPhase::Handshaking,
                        held_handshake_tokens: was.physical_legs,
                        ..was
                    })
                    &&& final(self).slots@ == old(self).slots@.update(i as int, now)
                    &&& final(self).pending_start@ == old(self).pending_start@.drop_first()
                    &&& final(self).in_flight_set@ == old(self).in_flight_set@.push(i)
                    &&& final(self).deadlines@ == old(self).deadlines@.insert(
                        (i, AppDeadlineKind::ConnectTimeout),
                        (now_us + CONNECT_TIMEOUT_US) as u64,
                    )
                    &&& final(limiter)@ == old(limiter)@.launch(was.physical_legs as nat)
                    &&& final(self).dirty_ready == old(self).dirty_ready
                    &&& final(self).closing_set == old(self).closing_set
                    &&& final(self).terminal_count == old(self).terminal_count
                    &&& final(self).socket_id_to_slot == old(self).socket_id_to_slot
                    &&& final(self).sched_stats == old(self).sched_stats
                },
            },
    {
        if self.pending_start.len() == 0 {
            return None;
        }
        let slot_id: usize = self.pending_start[0];
        let ghost start = *self;
        proof {
            assert(slot_ok(self.slots@[slot_id as int], slot_id, self.deadlines@));
            assert(self.pending_start@.contains(slot_id));
        }
        let legs: usize = self.slots[slot_id].physical_legs;
        if !limiter.can_acquire(legs) {
            return None;
        }
        limiter.try_acquire(legs);
        self.pending_start.pop_front();
        self.slots[slot_id].phase = SlotPhase::Handshaking;
        self.slots[slot_id].held_handshake_tokens = legs;
        self.deadlines.arm(slot_id, AppDeadlineKind::ConnectTimeout, now_us + CONNECT_TIMEOUT_US);
        self.in_flight_set.push(slot_id);
        proof {
            assert(self.slots.len() <= usize::MAX);
            let now = self.slots@[slot_id as int];
            assert(self.slots@ =~= start.slots@.update(slot_id as int, now));
            lemma_sum_update(start.slots@, closed_mark(), slot_id as int, now);
            lemma_sum_update(start.slots@, held_mark(), slot_id as int, now);
            assert(self.pending_start@ =~= start.pending_start@.drop_first());
            lemma_drop_first_lists(start.pending_start@, self.slots@.len());
            lemma_push_lists(start.in_flight_set@, slot_id, self.slots@.len());
            assert forall|i: int| 0 <= i < self.slots@.len() implies slot_ok(
                #[trigger] self.slots@[i],
                i as usize,
                self.deadlines@,
            ) by {
                assert(slot_ok(start.slots@[i], i as usize, start.deadlines@));
            }
            assert forall|i: int| 0 <= i < self.slots@.len() implies ((
            #[trigger] self.slots@[i]).phase == SlotPhase::Pending)
                == self.pending_start@.contains(i as usize) by {
                assert(start.slots@[i].phase == SlotPhase::Pending
                    <==> start.pending_start@.contains(i as usize));
            }
        }
        Some(slot_id)
    }

    /// Installs the caller that the transport made for a started slot, and its
    /// socket-id routes.
    pub fn install_caller(&mut self, slot_id: usize, caller: u64, socket_ids: Vec<u32>)
        requires
            old(self).wf(),
            slot_id < old(self).slots@.len(),
            old(self).slots@[slot_id as int].phase == SlotPhase::Handshaking,
            old(self).slots@[slot_id as int].caller is None,
        ensures
            final(self).wf(),
            final(self).held() == old(self).held(),
            ({
                let was = old(self).slots@[slot_id as int];
                &&& final(self).slots@ == old(self).slots@.update(
                    slot_id as int,
                    SharedSenderSlot { caller: Some(caller), socket_ids: socket_ids, ..was },
                )
                &&& final(self).socket_id_to_slot@ == route_all(
                    old(self).socket_id_to_slot@,
                    socket_ids@,
                    slot_id,
                )
            }),
            final(self).pending_start == old(self).pending_start,
            final(self).dirty_ready == old(self).dirty_ready,
            final(self).deadlines == old(self).deadlines,
            final(self).in_flight_set == old(self).in_flight_set,
            final(self).closing_set == old(self).closing_set,
            final(self).terminal_count == old(self).terminal_count,
            final(self).sched_stats == old(self).sched_stats,
    {
        let ghost start = *self;
        let mut i: usize = 0;
        assert(route_all(start.socket_id_to_slot@, socket_ids@.take(0), slot_id)
            =~= start.socket_id_to_slot@);
        while i < socket_ids.len()
            invariant
                i <= socket_ids@.len(),
                self.socket_id_to_slot@ == route_all(
                    start.socket_id_to_slot@,
                    socket_ids@.take(i as int),
                    slot_id,
                ),
                self.slots == start.slots,
                self.pending_start == start.pending_start,
                self.dirty_ready == start.dirty_ready,
                self.deadlines == start.deadlines,
                self.in_flight_set == start.in_flight_set,
                self.closing_set == start.closing_set,
                self.terminal_count == start.terminal_count,
                self.sched_stats == start.sched_stats,
            decreases socket_ids@.len() - i,
        {
            let sid: u32 = socket_ids[i];
            self.socket_id_to_slot.insert(sid, slot_id);
            proof {
                let less = socket_ids@.take(i as int);
                let more = socket_ids@.take(i + 1);
                assert(more =~= less.push(sid));
                assert forall|k: u32| more.contains(k) <==> less.contains(k) || k == sid by {
                    if less.contains(k) {
                        assert(more[less.index_of(k)] == k);
                    }
                    if k == sid {
                        assert(more[i as int] == k);
                    }
                }
                assert(self.socket_id_to_slot@ =~= route_all(
                    start.socket_id_to_slot@,
                    more,
                    slot_id,
                ));
            }
            i += 1;
        }
        assert(socket_ids@.take(socket_ids@.len() as int) =~= socket_ids@);
        self.slots[slot_id].caller = Some(caller);
        self.slots[slot_id].socket_ids = socket_ids;
        proof {
            assert(self.slots.len() <= usize::MAX);
            let now = self.slots@[slot_id as int];
            assert(self.slots@ =~= start.slots@.update(slot_id as int, now));
            lemma_sum_update(start.slots@, closed_mark(), slot_id as int, now);
            lemma_sum_update(start.slots@, held_mark(), slot_id as int, now);
            assert forall|i: int| 0 <= i < self.slots@.len() implies slot_ok(
                #[trigger] self.slots@[i],
                i as usize,
                self.deadlines@,
            ) by {
                assert(slot_ok(start.slots@[i], i as usize, start.deadlines@));
            }
            assert forall|k: int| 0 <= k < self.slots@.len() implies (#[trigger] self.slots@[k]).phase
                == start.slots@[k].phase && self.slots@[k].dirty == start.slots@[k].dirty by {}
            assert forall|sid: u32| #[trigger]
                self.socket_id_to_slot@.contains_key(sid) implies self.socket_id_to_slot@[sid]
                < self.slots@.len()
                && self.slots@[self.socket_id_to_slot@[sid] as int].socket_ids@.contains(sid) by {
                if !socket_ids@.contains(sid) {
                    assert(start.socket_id_to_slot@.contains_key(sid));
                }
            }
        }
    }

    /// A packet for `socket_id` arrived: its slot is to be looked at, once.
    pub fn feed(&mut self, socket_id: u32)
        requires
            old(self).wf(),
        ensures
            final(self).wf(),
            final(self).held() == old(self).held(),
            ({
                let routed = old(self).socket_id_to_slot@.contains_key(socket_id);
                let i = old(self).socket_id_to_slot@[socket_id];
                if routed && !old(self).slots@[i as int].dirty {
                    &&& final(self).dirty_ready@ == old(self).dirty_ready@.push(i)
                    &&& final(self).slots@ == old(self).slots@.update(
                        i as int,
                        SharedSenderSlot { dirty: true, ..old(self).slots@[i as int] },
                    )
                } else {
                    &&& final(self).dirty_ready == old(self).dirty_ready
                    &&& final(self).slots == old(self).slots
                }
            }),
            final(self).pending_start == old(self).pending_start,
            final(self).socket_id_to_slot == old(self).socket_id_to_slot,
            final(self).deadlines == old(self).deadlines,
            final(self).in_flight_set == old(self).in_flight_set,
            final(self).closing_set == old(self).closing_set,
            final(self).terminal_count == old(self).terminal_count,
            final(self).sched_stats == old(self).sched_stats,
    {
        let ghost start = *self;
        let found: Option<usize> = match self.socket_id_to_slot.get(&socket_id) {
            Some(i) => Some(*i),
            None => None,
        };
        if let Some(slot_id) = found {
            assert(slot_ok(self.slots@[slot_id as int], slot_id, self.deadlines@));
            if !self.slots[slot_id].dirty {
                self.slots[slot_id].dirty = true;
                self.dirty_ready.push_back(slot_id);
                proof {
                    assert(self.slots.len() <= usize::MAX);
            let now = self.slots@[slot_id as int];
                    assert(self.slots@ =~= start.slots@.update(slot_id as int, now));
                    lemma_sum_update(start.slots@, closed_mark(), slot_id as int, now);
                    lemma_sum_update(start.slots@, held_mark(), slot_id as int, now);
                    lemma_push_lists(start.dirty_ready@, slot_id, self.slots@.len());
                    assert forall|i: int| 0 <= i < self.slots@.len() implies slot_ok(
                        #[trigger] self.slots@[i],
                        i as usize,
                        self.deadlines@,
                    ) by {
                        assert(slot_ok(start.slots@[i], i as usize, start.deadlines@));
                    }
                    assert forall|k: int| 0 <= k < self.slots@.len() implies (
                    #[trigger] self.slots@[k]).phase == start.slots@[k].phase
                        && self.slots@[k].socket_ids == start.slots@[k].socket_ids by {}
                    assert forall|i: int| 0 <= i < self.slots@.len() implies (
                    #[trigger] self.slots@[i]).dirty == self.dirty_ready@.contains(i as usize) by {
                        assert(start.slots@[i].dirty == start.dirty_ready@.contains(i as usize));
                    }
                    assert forall|sid: u32| #[trigger]
                        self.socket_id_to_slot@.contains_key(sid) implies self.slots@[self.socket_id_to_slot@[sid] as int].socket_ids@.contains(
                    sid) by {
                        assert(start.socket_id_to_slot@.contains_key(sid));
                    }
                }
            }
        }
    }
}

proof fn lemma_drop_first_lists(set: Seq<usize>, n: nat)
    requires
        lists_slots(set, n),
        set.len() > 0,
    ensures
        lists_slots(set.drop_first(), n),
        forall|x: usize| #[trigger]
            set.drop_first().contains(x) <==> set.contains(x) && x != set[0],
{
    let rest = set.drop_first();
    assert forall|x: usize| #[trigger] rest.contains(x) <==> set.contains(x) && x != set[0] by {
        if rest.contains(x) {
            let i = rest.index_of(x);
            assert(set[i + 1] == x);
        }
        if set.contains(x) && x != set[0] {
            let i = set.index_of(x);
            assert(rest[i - 1] == x);
        }
    }
}

proof fn lemma_push_lists(set: Seq<usize>, x: usize, n: nat)
    requires
        lists_slots(set, n),
        !set.contains(x),
        x < n,
    ensures
        lists_slots(set.push(x), n),
        forall|y: usize| #[trigger] set.push(x).contains(y) <==> set.contains(y) || y == x,
{
    let more = set.push(x);
    assert forall|y: usize| #[trigger] more.contains(y) <==> set.contains(y) || y == x by {
        if set.contains(y) {
            assert(more[set.index_of(y)] == y);
        }
        if y == x {
            assert(more[set.len() as int] == y);
        }
    }
    assert forall|i: int, j: int|
        0 <= i < more.len() && 0 <= j < more.len() && i != j implies more[i] != more[j] by {
        if i == set.len() {
            assert(set.contains(set[j]));
        } else if j == set.len() {
            assert(set.contains(set[i]));
        }
    }
}

// ---------------------------------------------------------------------------
// One slot at a time
// ---------------------------------------------------------------------------

/// `s` after `tokens` of it were settled and what that admits was granted.
pub open spec fn settled(s: LimiterState, tokens: nat, connected: bool) -> LimiterState {
    if tokens == 0 {
        s
    } else {
        s.release(tokens, connected).grant()
    }
}

/// The tickets that settling `tokens` wakes.
pub open spec fn settled_tickets(s: LimiterState, tokens: nat, connected: bool) -> Seq<u64> {
    if tokens == 0 {
        Seq::empty()
    } else {
        s.release(tokens, connected).granted_tickets()
    }
}

/// `now` is `was` in another phase, with the same legs and place.
pub open spec fn same_stream(was: SharedSenderSlot, now: SharedSenderSlot) -> bool {
    &&& now.physical_legs == was.physical_legs
    &&& now.cfg_index == was.cfg_index
    &&& now.bond_pair_index == was.bond_pair_index
    &&& now.dirty == was.dirty
}

/// The statistics of a slot at its end.
pub open spec fn final_stats(
    was: SharedSenderSlot,
    report: Option<LegReport>,
    torn_down: bool,
) -> Seq<ConnStats> {
    let last = if was.caller is Some {
        snapshot(was.stats@, report)
    } else {
        was.stats@
    };
    if torn_down {
        torn(last)
    } else {
        last
    }
}

/// `now` is `was`, closed for good.
pub open spec fn closed_from(
    was: SharedSenderSlot,
    now: SharedSenderSlot,
    report: Option<LegReport>,
    torn_down: bool,
) -> bool {
    &&& same_stream(was, now)
    &&& now.phase == SlotPhase::Closed
    &&& now.caller is None
    &&& now.socket_ids@.len() == 0
    &&& now.held_handshake_tokens == 0
    &&& now.stream_deadline_us == was.stream_deadline_us
    &&& now.stats@ == final_stats(was, report, torn_down)
}

/// `now` is `was`, carrying traffic until `end_us`.
pub open spec fn streaming_from(was: SharedSenderSlot, now: SharedSenderSlot, end_us: u64) -> bool {
    &&& same_stream(was, now)
    &&& now.phase == SlotPhase::Streaming
    &&& now.caller == was.caller
    &&& now.socket_ids@ == was.socket_ids@
    &&& now.held_handshake_tokens == 0
    &&& now.stream_deadline_us == Some(end_us)
    &&& now.stats@ == all_connected(was.stats@)
}

/// Legs of `was` whose handshake the report shows completed, as far as tokens are
/// held for them.
pub open spec fn completed_tokens(was: SharedSenderSlot, report: Option<LegReport>) -> nat {
    if was.caller is None {
        0
    } else if connected_legs(report) < was.held_handshake_tokens {
        connected_legs(report)
    } else {
        was.held_handshake_tokens as nat
    }
}

/// The limiter after the handshakes of `was` ended as the report shows.
pub open spec fn tokens_returned(
    s: LimiterState,
    was: SharedSenderSlot,
    report: Option<LegReport>,
) -> LimiterState {
    let up = completed_tokens(was, report);
    settled(settled(s, up, true), (was.held_handshake_tokens - up) as nat, false)
}

/// The tickets that the end of the handshakes of `was` wakes.
pub open spec fn returned_tickets(
    s: LimiterState,
    was: SharedSenderSlot,
    report: Option<LegReport>,
) -> Seq<u64> {
    let up = completed_tokens(was, report);
    settled_tickets(s, up, true) + settled_tickets(
        settled(s, up, true),
        (was.held_handshake_tokens - up) as nat,
        false,
    )
}

/// What a step on one slot changes besides the slot and the lists: the limiter, what
/// the transport is told, the armed deadlines, the routes, and how many slots are
/// closed.
#[verifier::ext_equal]
pub struct Books {
    pub limiter: LimiterState,
    pub disconnect: Seq<u64>,
    pub remove: Seq<u64>,
    pub wake: Seq<u64>,
    pub deadlines: Map<(usize, AppDeadlineKind), u64>,
    pub routes: Map<u32, usize>,
    pub closed: nat,
}

/// The books of a sender.
pub open spec fn books(
    sender: &SharedSender,
    limiter: &ConnectLimiter,
    fx: &SenderEffects,
) -> Books {
    Books {
        limiter: limiter@,
        disconnect: fx.disconnect@,
        remove: fx.remove@,
        wake: fx.wake@,
        deadlines: sender.deadlines@,
        routes: sender.socket_id_to_slot@,
        closed: sender.terminal_count as nat,
    }
}

impl Books {
    /// The slot `slot`, which was `was`, has come to its end: its tokens are settled as
    /// failed and those waiting for them woken, its caller is dropped, and nothing is
    /// armed for it or routed to it.
    pub open spec fn close(self, slot: usize, was: SharedSenderSlot) -> Books {
        let tokens = was.held_handshake_tokens as nat;
        Books {
            limiter: settled(self.limiter, tokens, false),
            disconnect: self.disconnect,
            remove: if was.caller is Some {
                self.remove.push(was.caller->0)
            } else {
                self.remove
            },
            wake: self.wake + settled_tickets(self.limiter, tokens, false),
            deadlines: without_slot(self.deadlines, slot),
            routes: self.routes.remove_keys(was.socket_ids@.to_set()),
            closed: self.closed + 1,
        }
    }

    /// The slot starts to carry traffic: the tokens of its legs are settled as the
    /// report shows, and its deadlines are those of a stream.
    pub open spec fn stream(
        self,
        slot: usize,
        was: SharedSenderSlot,
        report: Option<LegReport>,
        end_us: u64,
        send_us: u64,
    ) -> Books {
        Books {
            limiter: tokens_returned(self.limiter, was, report),
            wake: self.wake + returned_tickets(self.limiter, was, report),
            deadlines: started_deadlines(
                self.deadlines,
                slot,
                was.caller is Some,
                end_us,
                send_us,
            ),
            ..self
        }
    }

    /// The slot's caller is asked to close: its tokens are settled as failed, and it
    /// neither sends nor ends by itself any more.
    pub open spec fn begin_close(self, slot: usize, was: SharedSenderSlot) -> Books {
        let tokens = was.held_handshake_tokens as nat;
        Books {
            limiter: settled(self.limiter, tokens, false),
            disconnect: self.disconnect.push(was.caller->0),
            wake: self.wake + settled_tickets(self.limiter, tokens, false),
            deadlines: self.deadlines.remove((slot, AppDeadlineKind::Send)).remove(
                (slot, AppDeadlineKind::StreamEnd),
            ),
            ..self
        }
    }

    /// A look was taken at the caller of the slot.
    pub open spec fn look(
        self,
        slot: usize,
        was: SharedSenderSlot,
        report: CallerReport,
        now_us: u64,
        duration_us: u64,
    ) -> Books {
        if goes_up(was, report) {
            self.stream(
                slot,
                was,
                report.legs,
                (now_us + duration_us) as u64,
                (now_us + report.send_wait_us) as u64,
            )
        } else if goes_down(was, report) {
            self.close(slot, was)
        } else {
            self
        }
    }
}

/// Whether a look at the caller of `was` finds its handshakes done.
pub open spec fn goes_up(was: SharedSenderSlot, report: CallerReport) -> bool {
    was.caller is Some && was.phase == SlotPhase::Handshaking && report.state
        == CallerState::Connected && handshakes_settled(was.physical_legs, report.legs)
}

/// Whether a look at the caller of `was` finds it gone.
pub open spec fn goes_down(was: SharedSenderSlot, report: CallerReport) -> bool {
    was.caller is Some && report.state == CallerState::Disconnected && (was.phase
        == SlotPhase::Handshaking || was.phase == SlotPhase::Streaming || was.phase
        == SlotPhase::Closing)
}

/// What the scheduler keeps while it works on one slot.
pub open spec fn lists_kept(a: &SharedSender, b: &SharedSender) -> bool {
    &&& b.pending_start == a.pending_start
    &&& b.dirty_ready == a.dirty_ready
    &&& b.in_flight_set == a.in_flight_set
    &&& b.sched_stats == a.sched_stats
}

/// The armed deadlines without those of `slot`.
pub open spec fn without_slot(
    armed: Map<(usize, AppDeadlineKind), u64>,
    slot: usize,
) -> Map<(usize, AppDeadlineKind), u64> {
    armed.remove((slot, AppDeadlineKind::Send)).remove((slot, AppDeadlineKind::StreamEnd)).remove(
        (slot, AppDeadlineKind::ConnectTimeout),
    )
}

proof fn lemma_wf_after(a: &SharedSender, b: &SharedSender, slot: usize)
    requires
        a.wf(),
        slot < a.slots@.len(),
        b.slots@ == a.slots@.update(slot as int, b.slots@[slot as int]),
        b.deadlines.wf(),
        b.deadlines.slots() == a.deadlines.slots(),
        forall|k: (usize, AppDeadlineKind)| #[trigger]
            b.deadlines@.contains_key(k) && k.0 != slot ==> a.deadlines@.contains_key(k),
        slot_ok(b.slots@[slot as int], slot, b.deadlines@),
        b.terminal_count == slot_sum(b.slots@, closed_mark()),
        a.slots@[slot as int].phase != SlotPhase::Pending,
        b.slots@[slot as int].phase != SlotPhase::Pending,
        b.slots@[slot as int].dirty == a.slots@[slot as int].dirty,
        b.pending_start == a.pending_start,
        b.dirty_ready == a.dirty_ready,
        b.in_flight_set == a.in_flight_set,
        b.slots@[slot as int].phase == SlotPhase::Handshaking ==> a.slots@[slot as int].phase
            == SlotPhase::Handshaking,
        ({
            let phase = b.slots@[slot as int].phase;
            ||| b.closing_set@ == a.closing_set@ && (a.closing_set@.contains(slot) ==> phase
                == SlotPhase::Closing || phase == SlotPhase::Closed) && (phase == SlotPhase::Closing
                ==> a.closing_set@.contains(slot))
            ||| b.closing_set@ == a.closing_set@.push(slot) && !a.closing_set@.contains(slot)
                && phase == SlotPhase::Closing
        }),
        forall|sid: u32| #[trigger]
            b.socket_id_to_slot@.contains_key(sid) ==> a.socket_id_to_slot@.contains_key(sid)
                && b.socket_id_to_slot@[sid] == a.socket_id_to_slot@[sid] && (
            b.socket_id_to_slot@[sid] == slot ==> b.slots@[slot as int].socket_ids@.contains(sid)),
    ensures
        b.wf(),
{
    let n = a.slots@.len();
    assert(a.slots.len() <= usize::MAX);
    assert(b.slots@.len() == n);
    assert forall|i: int| 0 <= i < n implies slot_ok(
        #[trigger] b.slots@[i],
        i as usize,
        b.deadlines@,
    ) by {
        assert(slot_ok(a.slots@[i], i as usize, a.deadlines@));
    }
    if b.closing_set@ != a.closing_set@ {
        lemma_push_lists(a.closing_set@, slot, n);
    }
    assert forall|i: int| 0 <= i < n implies ((#[trigger] b.slots@[i]).phase == SlotPhase::Pending)
        == b.pending_start@.contains(i as usize) by {
        assert((a.slots@[i].phase == SlotPhase::Pending) == a.pending_start@.contains(i as usize));
    }
    assert forall|i: int| 0 <= i < n implies (#[trigger] b.slots@[i]).dirty
        == b.dirty_ready@.contains(i as usize) by {
        assert(a.slots@[i].dirty == a.dirty_ready@.contains(i as usize));
    }
    assert forall|i: int|
        0 <= i < n && (#[trigger] b.slots@[i]).phase
            == SlotPhase::Handshaking implies b.in_flight_set@.contains(i as usize) by {
        assert(a.slots@[i].phase == SlotPhase::Handshaking);
    }
    assert forall|i: int|
        0 <= i < n && (#[trigger] b.slots@[i]).phase
            == SlotPhase::Pending implies !b.in_flight_set@.contains(i as usize) by {
        assert(a.slots@[i].phase == SlotPhase::Pending);
    }
    assert forall|i: int|
        0 <= i < n && (#[trigger] b.slots@[i]).phase
            == SlotPhase::Closing implies b.closing_set@.contains(i as usize) by {
        if i != slot {
            assert(a.slots@[i].phase == SlotPhase::Closing);
        }
    }
    assert forall|i: int| 0 <= i < n && b.closing_set@.contains(i as usize) implies (
    #[trigger] b.slots@[i]).phase == SlotPhase::Closing || b.slots@[i].phase
        == SlotPhase::Closed by {
        if i != slot {
            assert(a.closing_set@.contains(i as usize));
            assert(a.slots@[i] == b.slots@[i]);
        }
    }
    assert forall|sid: u32| #[trigger] b.socket_id_to_slot@.contains_key(
        sid,
    ) implies b.socket_id_to_slot@[sid] < n
        && b.slots@[b.socket_id_to_slot@[sid] as int].socket_ids@.contains(sid) by {
        assert(a.socket_id_to_slot@.contains_key(sid));
    }
}

/// Settles `tokens`, if there are any.
fn settle_tokens(
    limiter: &mut ConnectLimiter,
    tokens: usize,
    connected: bool,
    fx: &mut SenderEffects,
)
    requires
        old(limiter).wf(),
        tokens <= old(limiter)@.in_flight,
    ensures
        final(limiter).wf(),
        final(limiter)@ == settled(old(limiter)@, tokens as nat, connected),
        final(limiter)@.in_flight == old(limiter)@.in_flight - tokens,
        final(fx).wake@ == old(fx).wake@ + settled_tickets(
            old(limiter)@,
            tokens as nat,
            connected,
        ),
        final(fx).remove == old(fx).remove,
        final(fx).disconnect == old(fx).disconnect,
        old(limiter)@.live() ==> final(limiter)@.live(),
{
    if tokens == 0 {
        assert(fx.wake@ + Seq::<u64>::empty() =~= fx.wake@);
        return;
    }
    let mut woken = release_and_wake(limiter, tokens, connected);
    fx.wake.append(&mut woken);
}

impl SharedSender {
    /// Drops the socket-id routes of a slot.
    fn remove_routes(&mut self, ids: &Vec<u32>)
        ensures
            final(self).socket_id_to_slot@ == old(self).socket_id_to_slot@.remove_keys(
                ids@.to_set(),
            ),
            final(self).slots == old(self).slots,
            final(self).deadlines == old(self).deadlines,
            final(self).closing_set == old(self).closing_set,
            final(self).terminal_count == old(self).terminal_count,
            lists_kept(old(self), final(self)),
    {
        let ghost start = *self;
        let mut i: usize = 0;
        assert(ids@.take(0).to_set() =~= Set::<u32>::empty());
        assert(self.socket_id_to_slot@ =~= start.socket_id_to_slot@.remove_keys(Set::empty()));
        while i < ids.len()
            invariant
                i <= ids@.len(),
                self.socket_id_to_slot@ == start.socket_id_to_slot@.remove_keys(
                    ids@.take(i as int).to_set(),
                ),
                self.slots == start.slots,
                self.deadlines == start.deadlines,
                self.closing_set == start.closing_set,
                self.terminal_count == start.terminal_count,
                lists_kept(&start, self),
            decreases ids@.len() - i,
        {
            let sid: u32 = ids[i];
            self.socket_id_to_slot.remove(&sid);
            proof {
                assert(ids@.take(i + 1) =~= ids@.take(i as int).push(sid));
                ids@.take(i as int).lemma_push_to_set_commute(sid);
                assert(self.socket_id_to_slot@ =~= start.socket_id_to_slot@.remove_keys(
                    ids@.take(i + 1).to_set(),
                ));
            }
            i += 1;
        }
        assert(ids@.take(ids@.len() as int) =~= ids@);
    }

    /// The single terminal path for a slot.
    ///
    /// Every way a slot can stop -- connect timeout, handshake failure, unexpected
    /// mid-stream disconnect, or the end of an orderly close -- goes through here:
    /// the caller's final statistics are taken, surviving legs are marked torn down
    /// if the slot was carrying traffic, the caller and its routes are dropped, and
    /// the slot is closed, which drops its deadlines and its handshake tokens.
    ///
    /// A slot already closed is left alone.
    pub fn finalize_slot(
        &mut self,
        slot_id: usize,
        torn_down: bool,
        report: &Option<LegReport>,
        limiter: &mut ConnectLimiter,
        fx: &mut SenderEffects,
    )
        requires
            old(self).wf(),
            old(self).accounted(old(limiter)),
            slot_id < old(self).slots@.len(),
            old(self).slots@[slot_id as int].phase != SlotPhase::Pending,
        ensures
            final(self).wf(),
            final(self).accounted(final(limiter)),
            final(limiter)@.in_flight - final(self).held() == old(limiter)@.in_flight - old(
                self,
            ).held(),
            old(limiter)@.live() ==> final(limiter)@.live(),
            lists_kept(old(self), final(self)),
            final(self).closing_set == old(self).closing_set,
            ({
                let was = old(self).slots@[slot_id as int];
                let now = final(self).slots@[slot_id as int];
                if was.phase == SlotPhase::Closed {
                    &&& *final(self) == *old(self)
                    &&& *final(limiter) == *old(limiter)
                    &&& *final(fx) == *old(fx)
                } else {
                    &&& closed_from(was, now, *report, torn_down)
                    &&& final(self).slots@ == old(self).slots@.update(slot_id as int, now)
                    &&& books(final(self), final(limiter), final(fx)) == books(
                        old(self),
                        old(limiter),
                        old(fx),
                    ).close(slot_id, was)
                }
            }),
    {
        let ghost start = *self;
        let ghost was = self.slots@[slot_id as int];
        assert(slot_ok(was, slot_id, self.deadlines@));
        if self.slots[slot_id].phase == SlotPhase::Closed {
            return;
        }
        proof {
            assert(self.slots.len() <= usize::MAX);
            lemma_closed_count(self.slots@);
            lemma_sum_update(self.slots@, held_mark(), slot_id as int, was);
        }
        let mut stats: Vec<ConnStats> = Vec::new();
        std::mem::swap(&mut stats, &mut self.slots[slot_id].stats);
        let mut ids: Vec<u32> = Vec::new();
        std::mem::swap(&mut ids, &mut self.slots[slot_id].socket_ids);
        if let Some(caller) = self.slots[slot_id].caller {
            snapshot_stats(&mut stats, report);
            fx.remove.push(caller);
        }
        if torn_down {
            mark_torn(&mut stats);
        }
        self.slots[slot_id].stats = stats;
        self.slots[slot_id].caller = None;
        self.remove_routes(&ids);
        let tokens: usize = self.slots[slot_id].held_handshake_tokens;
        self.slots[slot_id].held_handshake_tokens = 0;
        self.slots[slot_id].phase = SlotPhase::Closed;
        self.terminal_count = self.terminal_count + 1;
        self.deadlines.remove_deadline(slot_id, AppDeadlineKind::Send);
        self.deadlines.remove_deadline(slot_id, AppDeadlineKind::StreamEnd);
        self.deadlines.remove_deadline(slot_id, AppDeadlineKind::ConnectTimeout);
        settle_tokens(limiter, tokens, false, fx);
        proof {
            let now = self.slots@[slot_id as int];
            assert(self.slots@ =~= start.slots@.update(slot_id as int, now));
            lemma_sum_update(start.slots@, closed_mark(), slot_id as int, now);
            lemma_sum_update(start.slots@, held_mark(), slot_id as int, now);
            assert forall|sid: u32| #[trigger]
                self.socket_id_to_slot@.contains_key(sid) implies self.socket_id_to_slot@[sid]
                != slot_id by {
                assert(start.socket_id_to_slot@.contains_key(sid));
                if start.socket_id_to_slot@[sid] == slot_id {
                    assert(was.socket_ids@.to_set().contains(sid));
                }
            }
            lemma_wf_after(&start, self, slot_id);
        }
    }

    /// A handshake took too long.
    pub fn timeout_slot(
        &mut self,
        slot_id: usize,
        report: &Option<LegReport>,
        limiter: &mut ConnectLimiter,
        fx: &mut SenderEffects,
    )
        requires
            old(self).wf(),
            old(self).accounted(old(limiter)),
            slot_id < old(self).slots@.len(),
            old(self).slots@[slot_id as int].phase != SlotPhase::Pending,
        ensures
            final(self).wf(),
            final(self).accounted(final(limiter)),
            final(limiter)@.in_flight - final(self).held() == old(limiter)@.in_flight - old(
                self,
            ).held(),
            old(limiter)@.live() ==> final(limiter)@.live(),
            lists_kept(old(self), final(self)),
            final(self).closing_set == old(self).closing_set,
            ({
                let was = old(self).slots@[slot_id as int];
                let now = final(self).slots@[slot_id as int];
                if was.phase == SlotPhase::Closed {
                    &&& *final(self) == *old(self)
                    &&& *final(limiter) == *old(limiter)
                    &&& *final(fx) == *old(fx)
                } else {
                    &&& closed_from(was, now, *report, false)
                    &&& final(self).slots@ == old(self).slots@.update(slot_id as int, now)
                    &&& books(final(self), final(limiter), final(fx)) == books(
                        old(self),
                        old(limiter),
                        old(fx),
                    ).close(slot_id, was)
                }
            }),
    {
        self.finalize_slot(slot_id, false, report, limiter, fx);
    }

    /// A slot whose handshake is done starts to carry traffic; a bonded pair only
    /// once every leg's handshake has ended. False if it has to wait.
    pub fn transition_to_streaming(
        &mut self,
        slot_id: usize,
        report: &CallerReport,
        now_us: u64,
        duration_us: u64,
        limiter: &mut ConnectLimiter,
        fx: &mut SenderEffects,
    ) -> (r: bool)
        requires
            old(self).wf(),
            old(self).accounted(old(limiter)),
            slot_id < old(self).slots@.len(),
            old(self).slots@[slot_id as int].phase == SlotPhase::Handshaking
                || old(self).slots@[slot_id as int].phase == SlotPhase::Streaming
                || old(self).slots@[slot_id as int].phase == SlotPhase::Closed,
            now_us + duration_us <= u64::MAX,
            now_us + report.send_wait_us <= u64::MAX,
        ensures
            final(self).wf(),
            final(self).accounted(final(limiter)),
            final(limiter)@.in_flight - final(self).held() == old(limiter)@.in_flight - old(
                self,
            ).held(),
            old(limiter)@.live() ==> final(limiter)@.live(),
            lists_kept(old(self), final(self)),
            final(self).closing_set == old(self).closing_set,
            ({
                let was = old(self).slots@[slot_id as int];
                let now = final(self).slots@[slot_id as int];
                let ready = handshakes_settled(was.physical_legs, report.legs) && (was.physical_legs
                    > 1 ==> was.caller is Some);
                &&& r == (was.phase != SlotPhase::Handshaking || ready)
                &&& if was.phase == SlotPhase::Handshaking && ready {
                    &&& streaming_from(was, now, (now_us + duration_us) as u64)
                    &&& final(self).slots@ == old(self).slots@.update(slot_id as int, now)
                    &&& books(final(self), final(limiter), final(fx)) == books(
                        old(self),
                        old(limiter),
                        old(fx),
                    ).stream(
                        slot_id,
                        was,
                        report.legs,
                        (now_us + duration_us) as u64,
                        (now_us + report.send_wait_us) as u64,
                    )
                } else {
                    &&& *final(self) == *old(self)
                    &&& *final(limiter) == *old(limiter)
                    &&& *final(fx) == *old(fx)
                }
            }),
    {
        let ghost start = *self;
        let ghost was = self.slots@[slot_id as int];
        assert(slot_ok(was, slot_id, self.deadlines@));
        let phase = self.slots[slot_id].phase;
        if phase == SlotPhase::Closed || phase == SlotPhase::Streaming {
            return true;
        }
        let legs: usize = self.slots[slot_id].physical_legs;
        if legs > 1 && (self.slots[slot_id].caller.is_none() || !report_settled(
            legs,
            &report.legs,
        )) {
            return false;
        }
        proof {
            assert(self.slots.len() <= usize::MAX);
            lemma_sum_update(self.slots@, held_mark(), slot_id as int, was);
        }
        let mut stats: Vec<ConnStats> = Vec::new();
        std::mem::swap(&mut stats, &mut self.slots[slot_id].stats);
        mark_connected(&mut stats);
        self.slots[slot_id].stats = stats;
        self.slots[slot_id].phase = SlotPhase::Streaming;
        self.slots[slot_id].stream_deadline_us = Some(now_us + duration_us);
        let tokens: usize = self.slots[slot_id].held_handshake_tokens;
        self.slots[slot_id].held_handshake_tokens = 0;
        let up: usize = if self.slots[slot_id].caller.is_none() {
            0
        } else {
            let connected: usize = report_connected(&report.legs);
            if connected < tokens {
                connected
            } else {
                tokens
            }
        };
        settle_tokens(limiter, up, true, fx);
        settle_tokens(limiter, tokens - up, false, fx);
        self.deadlines.remove_deadline(slot_id, AppDeadlineKind::ConnectTimeout);
        self.deadlines.arm(slot_id, AppDeadlineKind::StreamEnd, now_us + duration_us);
        if self.slots[slot_id].caller.is_some() {
            self.deadlines.arm(slot_id, AppDeadlineKind::Send, now_us + report.send_wait_us);
        }
        proof {
            let now = self.slots@[slot_id as int];
            assert(self.slots@ =~= start.slots@.update(slot_id as int, now));
            lemma_sum_update(start.slots@, closed_mark(), slot_id as int, now);
            lemma_sum_update(start.slots@, held_mark(), slot_id as int, now);
            lemma_wf_after(&start, self, slot_id);
        }
        true
    }

    /// Begins an orderly close. A slot without a caller is closed at once.
    pub fn close_slot(
        &mut self,
        slot_id: usize,
        limiter: &mut ConnectLimiter,
        fx: &mut SenderEffects,
    )
        requires
            old(self).wf(),
            old(self).accounted(old(limiter)),
            slot_id < old(self).slots@.len(),
            old(self).slots@[slot_id as int].phase != SlotPhase::Pending,
        ensures
            final(self).wf(),
            final(self).accounted(final(limiter)),
            final(limiter)@.in_flight - final(self).held() == old(limiter)@.in_flight - old(
                self,
            ).held(),
            old(limiter)@.live() ==> final(limiter)@.live(),
            lists_kept(old(self), final(self)),
            ({
                let was = old(self).slots@[slot_id as int];
                let now = final(self).slots@[slot_id as int];
                if was.phase == SlotPhase::Closed || was.phase == SlotPhase::Closing {
                    &&& *final(self) == *old(self)
                    &&& *final(limiter) == *old(limiter)
                    &&& *final(fx) == *old(fx)
                } else if was.caller is None {
                    &&& closed_from(was, now, None, false)
                    &&& final(self).slots@ == old(self).slots@.update(slot_id as int, now)
                    &&& final(self).closing_set == old(self).closing_set
                    &&& books(final(self), final(limiter), final(fx)) == books(
                        old(self),
                        old(limiter),
                        old(fx),
                    ).close(slot_id, was)
                } else {
                    &&& now == (SharedSenderSlot {
                        phase: SlotPhase::Closing,
                        held_handshake_tokens: 0,
                        ..was
                    })
                    &&& final(self).slots@ == old(self).slots@.update(slot_id as int, now)
                    &&& final(self).closing_set@ == old(self).closing_set@.push(slot_id)
                    &&& books(final(self), final(limiter), final(fx)) == books(
                        old(self),
                        old(limiter),
                        old(fx),
                    ).begin_close(slot_id, was)
                }
            }),
    {
        let ghost start = *self;
        let ghost was = self.slots@[slot_id as int];
        assert(slot_ok(was, slot_id, self.deadlines@));
        let phase = self.slots[slot_id].phase;
        if phase == SlotPhase::Closed || phase == SlotPhase::Closing {
            return;
        }
        if self.slots[slot_id].caller.is_none() {
            self.finalize_slot(slot_id, false, &None, limiter, fx);
            return;
        }
        proof {
            assert(self.slots.len() <= usize::MAX);
            lemma_sum_update(self.slots@, held_mark(), slot_id as int, was);
        }
        let tokens: usize = self.slots[slot_id].held_handshake_tokens;
        self.slots[slot_id].held_handshake_tokens = 0;
        settle_tokens(limiter, tokens, false, fx);
        self.slots[slot_id].phase = SlotPhase::Closing;
        self.deadlines.remove_deadline(slot_id, AppDeadlineKind::Send);
        self.deadlines.remove_deadline(slot_id, AppDeadlineKind::StreamEnd);
        self.closing_set.push(slot_id);
        if let Some(caller) = self.slots[slot_id].caller {
            fx.disconnect.push(caller);
        }
        proof {
            let now = self.slots@[slot_id as int];
            assert(self.slots@ =~= start.slots@.update(slot_id as int, now));
            lemma_sum_update(start.slots@, closed_mark(), slot_id as int, now);
            lemma_sum_update(start.slots@, held_mark(), slot_id as int, now);
            lemma_wf_after(&start, self, slot_id);
        }
    }
}

/// The armed deadlines once `slot` streams: no connect timeout, a stream end, and
/// the next send if there is a caller to send with.
pub open spec fn started_deadlines(
    armed: Map<(usize, AppDeadlineKind), u64>,
    slot: usize,
    sends: bool,
    end_us: u64,
    send_us: u64,
) -> Map<(usize, AppDeadlineKind), u64> {
    let ending = armed.remove((slot, AppDeadlineKind::ConnectTimeout)).insert(
        (slot, AppDeadlineKind::StreamEnd),
        end_us,
    );
    if sends {
        ending.insert((slot, AppDeadlineKind::Send), send_us)
    } else {
        ending
    }
}

// ---------------------------------------------------------------------------
// The phases of a tick
// ---------------------------------------------------------------------------

/// What a due deadline asks for.
#[derive(Clone, Copy, PartialEq, Eq, Debug, Structural)]
pub enum DueAction {
    /// The slot has moved on since the deadline was armed.
    Ignore,
    /// Offer the source's packets to the transport, then schedule the next send.
    Send,
    Close,
    TimeOut,
}

/// What a due `entry` asks of its slot `s` at `now_us`.
pub open spec fn due_for(s: SharedSenderSlot, entry: AppDeadlineEntry, now_us: u64) -> DueAction {
    match entry.kind {
        AppDeadlineKind::Send => if s.phase != SlotPhase::Streaming || s.caller is None {
            DueAction::Ignore
        } else if s.stream_deadline_us is Some && now_us >= s.stream_deadline_us->0 {
            DueAction::Close
        } else {
            DueAction::Send
        },
        AppDeadlineKind::StreamEnd => if s.phase == SlotPhase::Streaming {
            DueAction::Close
        } else {
            DueAction::Ignore
        },
        AppDeadlineKind::ConnectTimeout => if s.phase == SlotPhase::Handshaking {
            DueAction::TimeOut
        } else {
            DueAction::Ignore
        },
    }
}

/// `now` is what a look at the caller of `was` makes of the slot.
pub open spec fn evaluated(
    was: SharedSenderSlot,
    now: SharedSenderSlot,
    report: CallerReport,
    end_us: u64,
) -> bool {
    if goes_up(was, report) {
        streaming_from(was, now, end_us)
    } else if goes_down(was, report) {
        closed_from(was, now, report.legs, was.phase != SlotPhase::Closing)
    } else {
        now == was
    }
}

/// Whether the close of `was` has come to its end.
pub open spec fn close_ends(was: SharedSenderSlot, report: CallerReport) -> bool {
    was.phase == SlotPhase::Closing && (was.caller is None || report.state
        == CallerState::Disconnected)
}

/// `now` is what waiting for the end of a close makes of the slot.
pub open spec fn close_checked(
    was: SharedSenderSlot,
    now: SharedSenderSlot,
    report: CallerReport,
) -> bool {
    if close_ends(was, report) {
        closed_from(was, now, report.legs, false)
    } else {
        now == was
    }
}

impl SharedSender {
    /// The slots that packets touched since the last call and that are not closed,
    /// in the order in which they were touched. Each counts as one visit.
    pub fn drain_dirty(&mut self) -> (r: Vec<usize>)
        requires
            old(self).wf(),
            old(self).sched_stats.dirty_slot_visits + old(self).dirty_ready@.len() <= u64::MAX,
        ensures
            final(self).wf(),
            final(self).held() == old(self).held(),
            r@ == open_slots(old(self).dirty_ready@, old(self).slots@),
            final(self).dirty_ready@.len() == 0,
            final(self).slots@.len() == old(self).slots@.len(),
            forall|i: int|
                0 <= i < old(self).slots@.len() ==> #[trigger] final(self).slots@[i] == (
                SharedSenderSlot { dirty: false, ..old(self).slots@[i] }),
            final(self).sched_stats == (SharedSenderSchedStats {
                dirty_slot_visits: (old(self).sched_stats.dirty_slot_visits + r@.len()) as u64,
                ..old(self).sched_stats
            }),
            final(self).pending_start == old(self).pending_start,
            final(self).in_flight_set == old(self).in_flight_set,
            final(self).closing_set == old(self).closing_set,
            final(self).deadlines == old(self).deadlines,
            final(self).terminal_count == old(self).terminal_count,
            final(self).socket_id_to_slot == old(self).socket_id_to_slot,
    {
        let ghost start = *self;
        let ghost keep = |i: usize| start.slots@[i as int].phase != SlotPhase::Closed;
        let mut out: Vec<usize> = Vec::new();
        let n: usize = self.dirty_ready.len();
        let mut done: usize = 0;
        proof {
            assert(self.slots.len() <= usize::MAX);
            reveal(Seq::filter);
            assert(out@ =~= start.dirty_ready@.take(0).filter(keep));
            assert(start.dirty_ready@.skip(0) =~= start.dirty_ready@);
        }
        while done < n
            invariant
                start.wf(),
                n == start.dirty_ready@.len(),
                done <= n,
                self.dirty_ready@ == start.dirty_ready@.skip(done as int),
                keep == |i: usize| start.slots@[i as int].phase != SlotPhase::Closed,
                out@ == start.dirty_ready@.take(done as int).filter(keep),
                out@.len() <= done,
                self.slots@.len() == start.slots@.len() <= usize::MAX,
                forall|i: int|
                    0 <= i < start.slots@.len() ==> #[trigger] self.slots@[i] == (
                    SharedSenderSlot {
                        dirty: start.slots@[i].dirty && !start.dirty_ready@.take(
                            done as int,
                        ).contains(i as usize),
                        ..start.slots@[i]
                    }),
                self.sched_stats == start.sched_stats,
                self.pending_start == start.pending_start,
                self.in_flight_set == start.in_flight_set,
                self.closing_set == start.closing_set,
                self.deadlines == start.deadlines,
                self.terminal_count == start.terminal_count,
                self.socket_id_to_slot == start.socket_id_to_slot,
            decreases n - done,
        {
            let slot_id: usize = self.dirty_ready[0];
            assert(slot_id == start.dirty_ready@[done as int]);
            self.dirty_ready.pop_front();
            self.slots[slot_id].dirty = false;
            proof {
                let less = start.dirty_ready@.take(done as int);
                let more = start.dirty_ready@.take(done + 1);
                assert(self.dirty_ready@ =~= start.dirty_ready@.skip(done + 1));
                reveal(Seq::filter);
                assert(more.drop_last() =~= less);
                assert(more =~= less.push(slot_id));
                assert forall|x: usize| more.contains(x) <==> less.contains(x) || x == slot_id by {
                    if less.contains(x) {
                        assert(more[less.index_of(x)] == x);
                    }
                    if x == slot_id {
                        assert(more[done as int] == x);
                    }
                }
            }
            if self.slots[slot_id].phase != SlotPhase::Closed {
                out.push(slot_id);
            }
            done += 1;
        }
        self.sched_stats.dirty_slot_visits = self.sched_stats.dirty_slot_visits + out.len() as u64;
        proof {
            assert(start.dirty_ready@.take(n as int) =~= start.dirty_ready@);
            assert forall|i: int| 0 <= i < start.slots@.len() implies #[trigger] self.slots@[i] == (
            SharedSenderSlot { dirty: false, ..start.slots@[i] }) by {
                assert(start.slots@[i].dirty == start.dirty_ready@.contains(i as usize));
            }
            lemma_sum_same(start.slots@, self.slots@);
            assert forall|i: int| 0 <= i < self.slots@.len() implies slot_ok(
                #[trigger] self.slots@[i],
                i as usize,
                self.deadlines@,
            ) by {
                assert(slot_ok(start.slots@[i], i as usize, start.deadlines@));
            }
            assert forall|i: int| 0 <= i < self.slots@.len() implies ((
            #[trigger] self.slots@[i]).phase == start.slots@[i].phase
                && self.slots@[i].socket_ids == start.slots@[i].socket_ids) by {}
            assert forall|i: int| 0 <= i < self.slots@.len() implies (
            #[trigger] self.slots@[i]).dirty == self.dirty_ready@.contains(i as usize) by {}
            assert forall|sid: u32| #[trigger]
                self.socket_id_to_slot@.contains_key(sid) implies self.slots@[self.socket_id_to_slot@[sid] as int].socket_ids@.contains(
            sid) by {
                assert(start.socket_id_to_slot@.contains_key(sid));
            }
        }
        out
    }

    /// Looks at a slot whose caller may have changed state.
    pub fn eval_slot_state(
        &mut self,
        slot_id: usize,
        report: &CallerReport,
        now_us: u64,
        duration_us: u64,
        limiter: &mut ConnectLimiter,
        fx: &mut SenderEffects,
    )
        requires
            old(self).wf(),
            old(self).accounted(old(limiter)),
            slot_id < old(self).slots@.len(),
            now_us + duration_us <= u64::MAX,
            now_us + report.send_wait_us <= u64::MAX,
        ensures
            final(self).wf(),
            final(self).accounted(final(limiter)),
            final(limiter)@.in_flight - final(self).held() == old(limiter)@.in_flight - old(
                self,
            ).held(),
            old(limiter)@.live() ==> final(limiter)@.live(),
            lists_kept(old(self), final(self)),
            final(self).closing_set == old(self).closing_set,
            books(final(self), final(limiter), final(fx)) == books(
                old(self),
                old(limiter),
                old(fx),
            ).look(slot_id, old(self).slots@[slot_id as int], *report, now_us, duration_us),
            evaluated(
                old(self).slots@[slot_id as int],
                final(self).slots@[slot_id as int],
                *report,
                (now_us + duration_us) as u64,
            ),
            final(self).slots@ == old(self).slots@.update(
                slot_id as int,
                final(self).slots@[slot_id as int],
            ),
    {
        let ghost start = *self;
        assert(slot_ok(self.slots@[slot_id as int], slot_id, self.deadlines@));
        assert(self.slots@ =~= start.slots@.update(slot_id as int, self.slots@[slot_id as int]));
        if self.slots[slot_id].caller.is_none() {
            return;
        }
        let phase = self.slots[slot_id].phase;
        match (phase, report.state) {
            (SlotPhase::Handshaking, CallerState::Connected) => {
                self.transition_to_streaming(slot_id, report, now_us, duration_us, limiter, fx);
            },
            (SlotPhase::Handshaking, CallerState::Disconnected) => {
                self.finalize_slot(slot_id, true, &report.legs, limiter, fx);
            },
            (SlotPhase::Streaming, CallerState::Disconnected) => {
                self.finalize_slot(slot_id, true, &report.legs, limiter, fx);
            },
            (SlotPhase::Closing, CallerState::Disconnected) => {
                self.finalize_slot(slot_id, false, &report.legs, limiter, fx);
            },
            _ => {},
        }
        assert(self.slots@ =~= start.slots@.update(slot_id as int, self.slots@[slot_id as int]));
    }

    /// Disarms and returns every deadline that has come, in order.
    pub fn take_due(&mut self, now_us: u64) -> (r: Vec<AppDeadlineEntry>)
        requires
            old(self).wf(),
        ensures
            final(self).wf(),
            final(self).slots == old(self).slots,
            lists_kept(old(self), final(self)),
            final(self).closing_set == old(self).closing_set,
            final(self).terminal_count == old(self).terminal_count,
            final(self).socket_id_to_slot == old(self).socket_id_to_slot,
            in_order(r@),
            forall|e: AppDeadlineEntry| #[trigger]
                r@.contains(e) <==> e.deadline_us <= now_us && old(self).deadlines@.contains_key(
                    key_of(e),
                ) && old(self).deadlines@[key_of(e)] == e.deadline_us,
            forall|e: AppDeadlineEntry| #[trigger] r@.contains(e) ==> e.slot < old(self).slots@.len(),
            final(self).deadlines@ == old(self).deadlines@.restrict(
                Set::new(|k: (usize, AppDeadlineKind)| old(self).deadlines@[k] > now_us),
            ),
    {
        let ghost start = *self;
        proof {
            self.deadlines.lemma_armed_slots();
        }
        let due = self.deadlines.take_due(now_us);
        proof {
            assert forall|i: int| 0 <= i < self.slots@.len() implies slot_ok(
                #[trigger] self.slots@[i],
                i as usize,
                self.deadlines@,
            ) by {
                assert(slot_ok(start.slots@[i], i as usize, start.deadlines@));
            }
            assert forall|e: AppDeadlineEntry| #[trigger] due@.contains(e) implies e.slot
                < start.slots@.len() by {
                assert(start.deadlines@.contains_key(key_of(e)));
            }
        }
        due
    }

    /// Decides what a due deadline asks for. It counts as one visit unless its slot
    /// is closed.
    pub fn dispatch_due(&mut self, entry: AppDeadlineEntry, now_us: u64) -> (r: DueAction)
        requires
            old(self).wf(),
            entry.slot < old(self).slots@.len(),
            old(self).sched_stats.application_due_visits < u64::MAX,
        ensures
            final(self).wf(),
            r == due_for(old(self).slots@[entry.slot as int], entry, now_us),
            final(self).slots == old(self).slots,
            final(self).deadlines == old(self).deadlines,
            final(self).pending_start == old(self).pending_start,
            final(self).dirty_ready == old(self).dirty_ready,
            final(self).in_flight_set == old(self).in_flight_set,
            final(self).closing_set == old(self).closing_set,
            final(self).terminal_count == old(self).terminal_count,
            final(self).socket_id_to_slot == old(self).socket_id_to_slot,
            final(self).sched_stats == if old(self).slots@[entry.slot as int].phase
                == SlotPhase::Closed {
                old(self).sched_stats
            } else {
                SharedSenderSchedStats {
                    application_due_visits: (old(self).sched_stats.application_due_visits
                        + 1) as u64,
                    ..old(self).sched_stats
                }
            },
    {
        let phase = self.slots[entry.slot].phase;
        if phase == SlotPhase::Closed {
            return DueAction::Ignore;
        }
        self.sched_stats.application_due_visits = self.sched_stats.application_due_visits + 1;
        match entry.kind {
            AppDeadlineKind::Send => {
                if phase != SlotPhase::Streaming || self.slots[entry.slot].caller.is_none() {
                    return DueAction::Ignore;
                }
                match self.slots[entry.slot].stream_deadline_us {
                    Some(end) => if now_us >= end {
                        DueAction::Close
                    } else {
                        DueAction::Send
                    },
                    None => DueAction::Send,
                }
            },
            AppDeadlineKind::StreamEnd => if phase == SlotPhase::Streaming {
                DueAction::Close
            } else {
                DueAction::Ignore
            },
            AppDeadlineKind::ConnectTimeout => if phase == SlotPhase::Handshaking {
                DueAction::TimeOut
            } else {
                DueAction::Ignore
            },
        }
    }

    /// Arms the next send of a streaming slot.
    pub fn schedule_send(&mut self, slot_id: usize, now_us: u64, wait_us: u64)
        requires
            old(self).wf(),
            slot_id < old(self).slots@.len(),
            now_us + wait_us <= u64::MAX,
        ensures
            final(self).wf(),
            final(self).slots == old(self).slots,
            lists_kept(old(self), final(self)),
            final(self).closing_set == old(self).closing_set,
            final(self).terminal_count == old(self).terminal_count,
            final(self).socket_id_to_slot == old(self).socket_id_to_slot,
            final(self).deadlines@ == if old(self).slots@[slot_id as int].phase
                == SlotPhase::Streaming && old(self).slots@[slot_id as int].caller is Some {
                old(self).deadlines@.insert(
                    (slot_id, AppDeadlineKind::Send),
                    (now_us + wait_us) as u64,
                )
            } else {
                old(self).deadlines@
            },
    {
        let ghost start = *self;
        if self.slots[slot_id].phase != SlotPhase::Streaming
            || self.slots[slot_id].caller.is_none() {
            return;
        }
        self.deadlines.arm(slot_id, AppDeadlineKind::Send, now_us + wait_us);
        proof {
            assert(self.slots.len() <= usize::MAX);
            assert forall|i: int| 0 <= i < self.slots@.len() implies slot_ok(
                #[trigger] self.slots@[i],
                i as usize,
                self.deadlines@,
            ) by {
                assert(slot_ok(start.slots@[i], i as usize, start.deadlines@));
            }
        }
    }

    /// One payload went out on the first `selected_legs` legs of a slot.
    pub fn record_sent(&mut self, slot_id: usize, selected_legs: usize)
        requires
            old(self).wf(),
            slot_id < old(self).slots@.len(),
        ensures
            final(self).wf(),
            final(self).held() == old(self).held(),
            lists_kept(old(self), final(self)),
            final(self).closing_set == old(self).closing_set,
            final(self).deadlines == old(self).deadlines,
            final(self).terminal_count == old(self).terminal_count,
            final(self).socket_id_to_slot == old(self).socket_id_to_slot,
            final(self).slots@ == old(self).slots@.update(
                slot_id as int,
                final(self).slots@[slot_id as int],
            ),
            ({
                let was = old(self).slots@[slot_id as int];
                let now = final(self).slots@[slot_id as int];
                &&& now == (SharedSenderSlot { stats: now.stats, ..was })
                &&& now.stats@ == Seq::new(
                    was.stats@.len(),
                    |i: int|
                        if i < selected_legs {
                            one_more(was.stats@[i])
                        } else {
                            was.stats@[i]
                        },
                )
            }),
    {
        let ghost start = *self;
        let ghost was = self.slots@[slot_id as int];
        assert(slot_ok(was, slot_id, self.deadlines@));
        let mut stats: Vec<ConnStats> = Vec::new();
        std::mem::swap(&mut stats, &mut self.slots[slot_id].stats);
        let mut i: usize = 0;
        while i < stats.len() && i < selected_legs
            invariant
                i <= stats@.len() == was.stats@.len(),
                i <= selected_legs,
                forall|j: int| 0 <= j < i ==> stats@[j] == one_more(was.stats@[j]),
                forall|j: int| i <= j < stats@.len() ==> stats@[j] == was.stats@[j],
            decreases stats@.len() - i,
        {
            let s = stats[i];
            stats.set(i, ConnStats { data_events: s.data_events.saturating_add(1), ..s });
            i += 1;
        }
        self.slots[slot_id].stats = stats;
        proof {
            assert(self.slots.len() <= usize::MAX);
            let now = self.slots@[slot_id as int];
            assert(now.stats@ =~= Seq::new(
                was.stats@.len(),
                |i: int|
                    if i < selected_legs {
                        one_more(was.stats@[i])
                    } else {
                        was.stats@[i]
                    },
            ));
            assert(self.slots@ =~= start.slots@.update(slot_id as int, now));
            lemma_sum_update(start.slots@, closed_mark(), slot_id as int, now);
            lemma_sum_update(start.slots@, held_mark(), slot_id as int, now);
            assert forall|i: int| 0 <= i < self.slots@.len() implies slot_ok(
                #[trigger] self.slots@[i],
                i as usize,
                self.deadlines@,
            ) by {
                assert(slot_ok(start.slots@[i], i as usize, start.deadlines@));
            }
            assert forall|i: int| 0 <= i < self.slots@.len() implies ((
            #[trigger] self.slots@[i]).phase == start.slots@[i].phase && self.slots@[i].dirty
                == start.slots@[i].dirty && self.slots@[i].socket_ids
                == start.slots@[i].socket_ids) by {}
            assert forall|sid: u32| #[trigger]
                self.socket_id_to_slot@.contains_key(sid) implies self.slots@[self.socket_id_to_slot@[sid] as int].socket_ids@.contains(
            sid) by {
                assert(start.socket_id_to_slot@.contains_key(sid));
            }
        }
    }

    /// What [`SharedSender::done`] says, found by asking every slot.
    pub fn done_by_population_scan(&self) -> (r: bool)
        ensures
            r == forall|i: int|
                0 <= i < self.slots@.len() ==> (#[trigger] self.slots@[i]).phase
                    == SlotPhase::Closed,
    {
        let mut i: usize = 0;
        while i < self.slots.len()
            invariant
                i <= self.slots@.len(),
                forall|j: int|
                    0 <= j < i ==> (#[trigger] self.slots@[j]).phase == SlotPhase::Closed,
            decreases self.slots@.len() - i,
        {
            if self.slots[i].phase != SlotPhase::Closed {
                return false;
            }
            i += 1;
        }
        true
    }

    /// Whether every slot has come to its end.
    pub fn done(&self) -> (r: bool)
        requires
            self.wf(),
        ensures
            r == (forall|i: int|
                0 <= i < self.slots@.len() ==> (#[trigger] self.slots@[i]).phase
                    == SlotPhase::Closed),
    {
        proof {
            lemma_closed_count(self.slots@);
        }
        self.terminal_count == self.slots.len()
    }

    /// How long the sender may sleep: not at all while a slot is to be looked at or
    /// could be started, else until the transport or a deadline needs it, and never
    /// longer than [`MAX_WAIT_US`].
    pub fn next_wait(&self, limiter: &ConnectLimiter, now_us: u64, transport_wait_us: u64) -> (r:
        u64)
        requires
            self.wf(),
            limiter.wf(),
        ensures
            ({
                let startable = self.pending_start@.len() > 0
                    && self.slots@[self.pending_start@[0] as int].physical_legs
                    <= limiter@.free();
                if self.dirty_ready@.len() > 0 || startable {
                    r == 0
                } else {
                    &&& r <= MAX_WAIT_US
                    &&& r <= transport_wait_us
                    &&& forall|k: (usize, AppDeadlineKind)| #[trigger]
                        self.deadlines@.contains_key(k) ==> r == 0 || r + now_us
                            <= self.deadlines@[k]
                    &&& r == MAX_WAIT_US || r == transport_wait_us || exists|
                        k: (usize, AppDeadlineKind),
                    | #[trigger]
                        self.deadlines@.contains_key(k) && r == if self.deadlines@[k] >= now_us {
                            self.deadlines@[k] - now_us
                        } else {
                            0
                        }
                }
            }),
    {
        if self.dirty_ready.len() > 0 {
            return 0;
        }
        if self.pending_start.len() > 0 {
            let slot_id: usize = self.pending_start[0];
            if limiter.can_acquire(self.slots[slot_id].physical_legs) {
                return 0;
            }
        }
        let mut wait: u64 = if transport_wait_us < MAX_WAIT_US {
            transport_wait_us
        } else {
            MAX_WAIT_US
        };
        if let Some(e) = self.deadlines.first() {
            let app_wait: u64 = e.deadline_us.saturating_sub(now_us);
            proof {
                assert(self.deadlines@.contains_key(key_of(e)));
                assert forall|k: (usize, AppDeadlineKind)| #[trigger]
                    self.deadlines@.contains_key(k) implies e.deadline_us <= self.deadlines@[k] by {
                    if k != key_of(e) {
                        assert(before(e, entry(k, self.deadlines@[k])));
                    }
                }
            }
            if app_wait < wait {
                wait = app_wait;
            }
        }
        wait
    }
}

/// A slot put into `phase`, with nothing else done about it.
pub open spec fn put_into(s: SharedSenderSlot, phase: SlotPhase) -> SharedSenderSlot {
    SharedSenderSlot { phase, held_handshake_tokens: 0, ..s }
}

/// Fixtures: they put a sender into a state for a measurement by setting its fields.
/// The transport and the limiter are not told, and the invariant is not kept; a sender
/// that was put into such a state is only measured.
impl SharedSender {
    fn put_slots_into(&mut self, phase: SlotPhase, last_phase: SlotPhase)
        ensures
            final(self).slots@.len() == old(self).slots@.len(),
            forall|i: int|
                0 <= i < old(self).slots@.len() ==> #[trigger] final(self).slots@[i] == put_into(
                    old(self).slots@[i],
                    if i == old(self).slots@.len() - 1 {
                        last_phase
                    } else {
                        phase
                    },
                ),
            final(self).pending_start@.len() == 0,
            final(self).in_flight_set@.len() == 0,
            final(self).closing_set@.len() == 0,
            final(self).dirty_ready == old(self).dirty_ready,
            final(self).deadlines == old(self).deadlines,
            final(self).terminal_count == old(self).terminal_count,
            final(self).socket_id_to_slot == old(self).socket_id_to_slot,
            final(self).sched_stats == old(self).sched_stats,
    {
        let ghost start = *self;
        self.in_flight_set = Vec::new();
        self.pending_start = VecDeque::new();
        self.closing_set = Vec::new();
        let n: usize = self.slots.len();
        let mut i: usize = 0;
        while i < n
            invariant
                i <= n == start.slots@.len() == self.slots@.len(),
                forall|j: int|
                    0 <= j < i ==> #[trigger] self.slots@[j] == put_into(
                        start.slots@[j],
                        if j == n - 1 {
                            last_phase
                        } else {
                            phase
                        },
                    ),
                forall|j: int| i <= j < n ==> self.slots@[j] == start.slots@[j],
                self.pending_start@.len() == 0,
                self.in_flight_set@.len() == 0,
                self.closing_set@.len() == 0,
                self.dirty_ready == start.dirty_ready,
                self.deadlines == start.deadlines,
                self.terminal_count == start.terminal_count,
                self.socket_id_to_slot == start.socket_id_to_slot,
                self.sched_stats == start.sched_stats,
            decreases n - i,
        {
            self.slots[i].phase = if i + 1 == n {
                last_phase
            } else {
                phase
            };
            self.slots[i].held_handshake_tokens = 0;
            i += 1;
        }
    }

    /// Every slot streams, and none is waiting, handshaking or closing.
    pub fn force_all_connected(&mut self)
        ensures
            final(self).slots@.len() == old(self).slots@.len(),
            forall|i: int|
                0 <= i < old(self).slots@.len() ==> #[trigger] final(self).slots@[i] == put_into(
                    old(self).slots@[i],
                    SlotPhase::Streaming,
                ),
            final(self).pending_start@.len() == 0,
            final(self).in_flight_set@.len() == 0,
            final(self).closing_set@.len() == 0,
            final(self).dirty_ready == old(self).dirty_ready,
            final(self).deadlines == old(self).deadlines,
            final(self).terminal_count == old(self).terminal_count,
            final(self).socket_id_to_slot == old(self).socket_id_to_slot,
            final(self).sched_stats == old(self).sched_stats,
    {
        self.put_slots_into(SlotPhase::Streaming, SlotPhase::Streaming);
    }

    /// Every slot but the last is closed: the worst case for a scan that stops at the
    /// first slot that is not.
    pub fn force_all_terminal_except_last(&mut self)
        ensures
            final(self).slots@.len() == old(self).slots@.len(),
            forall|i: int|
                0 <= i < old(self).slots@.len() ==> #[trigger] final(self).slots@[i] == put_into(
                    old(self).slots@[i],
                    if i == old(self).slots@.len() - 1 {
                        SlotPhase::Streaming
                    } else {
                        SlotPhase::Closed
                    },
                ),
            final(self).terminal_count == if old(self).slots@.len() == 0 {
                0
            } else {
                old(self).slots@.len() - 1
            },
            final(self).deadlines.wf(),
            final(self).deadlines.slots() == old(self).slots@.len(),
            final(self).deadlines@ == Map::<(usize, AppDeadlineKind), u64>::empty(),
            final(self).pending_start@.len() == 0,
            final(self).in_flight_set@.len() == 0,
            final(self).closing_set@.len() == 0,
            final(self).dirty_ready == old(self).dirty_ready,
            final(self).socket_id_to_slot == old(self).socket_id_to_slot,
            final(self).sched_stats == old(self).sched_stats,
    {
        self.put_slots_into(SlotPhase::Closed, SlotPhase::Streaming);
        self.deadlines = DeadlineIndex::new(self.slots.len());
        self.terminal_count = if self.slots.len() == 0 {
            0
        } else {
            self.slots.len() - 1
        };
    }

    /// The next send of a slot is due at once. It is for a slot that has none armed.
    pub fn force_arm_due_send(&mut self, slot_id: usize)
        requires
            old(self).deadlines.wf(),
            slot_id < old(self).deadlines.slots(),
            !old(self).deadlines@.contains_key((slot_id, AppDeadlineKind::Send)),
        ensures
            final(self).deadlines.wf(),
            final(self).deadlines.slots() == old(self).deadlines.slots(),
            final(self).deadlines@ == old(self).deadlines@.insert(
                (slot_id, AppDeadlineKind::Send),
                0,
            ),
            final(self).slots == old(self).slots,
            lists_kept(old(self), final(self)),
            final(self).closing_set == old(self).closing_set,
            final(self).terminal_count == old(self).terminal_count,
            final(self).socket_id_to_slot == old(self).socket_id_to_slot,
    {
        self.deadlines.arm(slot_id, AppDeadlineKind::Send, 0);
    }
}

/// `s` with one data event more, as far as the counter goes.
pub open spec fn one_more(s: ConnStats) -> ConnStats {
    ConnStats {
        data_events: if s.data_events < u64::MAX {
            (s.data_events + 1) as u64
        } else {
            u64::MAX
        },
        ..s
    }
}

proof fn lemma_sum_same(a: Seq<SharedSenderSlot>, b: Seq<SharedSenderSlot>)
    requires
        a.len() == b.len(),
        forall|i: int|
            0 <= i < a.len() ==> (#[trigger] b[i]).phase == a[i].phase
                && b[i].held_handshake_tokens == a[i].held_handshake_tokens,
    ensures
        slot_sum(a, closed_mark()) == slot_sum(b, closed_mark()),
        slot_sum(a, held_mark()) == slot_sum(b, held_mark()),
    decreases a.len(),
{
    if a.len() > 0 {
        assert(b[a.len() - 1].phase == a[a.len() - 1].phase);
        let c = a.drop_last();
        let d = b.drop_last();
        assert forall|i: int| 0 <= i < c.len() implies (#[trigger] d[i]).phase == c[i].phase
            && d[i].held_handshake_tokens == c[i].held_handshake_tokens by {
            assert(d[i] == b[i] && c[i] == a[i]);
        }
        lemma_sum_same(c, d);
    }
}

/// `now` is what waiting for the end of a handshake makes of the slot.
pub open spec fn handshake_checked(
    was: SharedSenderSlot,
    now: SharedSenderSlot,
    report: CallerReport,
    end_us: u64,
) -> bool {
    if was.phase == SlotPhase::Handshaking {
        evaluated(was, now, report, end_us)
    } else {
        now == was
    }
}

/// A list whose entries are `left`, after its first entry has left it: the last entry
/// takes the place.
pub open spec fn swapped_out(left: Seq<usize>) -> Seq<usize> {
    left.update(0, left.last()).drop_last()
}

/// The order in which a list is walked whose entries leave it on the way.
pub open spec fn visit_order(left: Seq<usize>, leaves: spec_fn(usize) -> bool) -> Seq<usize>
    decreases left.len(),
{
    if left.len() == 0 {
        Seq::empty()
    } else {
        seq![left[0]] + visit_order(
            if leaves(left[0]) {
                swapped_out(left)
            } else {
                left.drop_first()
            },
            leaves,
        )
    }
}

/// Every entry of a list of `count`, by its place.
pub open spec fn places(count: nat) -> Seq<usize> {
    Seq::new(count, |k: int| k as usize)
}

/// The books after the steps of `visits`, one after another.
pub open spec fn walked(
    b: Books,
    visits: Seq<usize>,
    step: spec_fn(Books, usize) -> Books,
) -> Books
    decreases visits.len(),
{
    if visits.len() == 0 {
        b
    } else {
        step(walked(b, visits.drop_last(), step), visits.last())
    }
}

/// The slots that stay on a list, in the order in which they were visited.
pub open spec fn staying(
    visits: Seq<usize>,
    listed: Seq<usize>,
    leaves: spec_fn(usize) -> bool,
) -> Seq<usize>
    decreases visits.len(),
{
    if visits.len() == 0 {
        Seq::empty()
    } else {
        let before = staying(visits.drop_last(), listed, leaves);
        if leaves(visits.last()) {
            before
        } else {
            before.push(listed[visits.last() as int])
        }
    }
}

/// Whether entry `k` of the handshakes in flight is one no longer.
pub open spec fn handshake_over(
    slots: Seq<SharedSenderSlot>,
    listed: Seq<usize>,
    reports: Seq<CallerReport>,
) -> spec_fn(usize) -> bool {
    |k: usize|
        {
            let was = slots[listed[k as int] as int];
            was.phase != SlotPhase::Handshaking || goes_up(was, reports[k as int]) || goes_down(
                was,
                reports[k as int],
            )
        }
}

/// What looking at entry `k` of the handshakes in flight does to the books.
pub open spec fn handshake_step(
    slots: Seq<SharedSenderSlot>,
    listed: Seq<usize>,
    reports: Seq<CallerReport>,
    now_us: u64,
    duration_us: u64,
) -> spec_fn(Books, usize) -> Books {
    |b: Books, k: usize|
        {
            let slot = listed[k as int];
            let was = slots[slot as int];
            if was.phase == SlotPhase::Handshaking {
                b.look(slot, was, reports[k as int], now_us, duration_us)
            } else {
                b
            }
        }
}

/// Whether entry `k` of the slots under close is one no longer.
pub open spec fn closing_over(
    slots: Seq<SharedSenderSlot>,
    listed: Seq<usize>,
    reports: Seq<CallerReport>,
) -> spec_fn(usize) -> bool {
    |k: usize|
        {
            let was = slots[listed[k as int] as int];
            was.phase != SlotPhase::Closing || close_ends(was, reports[k as int])
        }
}

/// What looking at entry `k` of the slots under close does to the books.
pub open spec fn closing_step(
    slots: Seq<SharedSenderSlot>,
    listed: Seq<usize>,
    reports: Seq<CallerReport>,
) -> spec_fn(Books, usize) -> Books {
    |b: Books, k: usize|
        {
            let slot = listed[k as int];
            let was = slots[slot as int];
            if close_ends(was, reports[k as int]) {
                b.close(slot, was)
            } else {
                b
            }
        }
}

/// One more visit.
proof fn lemma_walk_step(
    b: Books,
    visits: Seq<usize>,
    k: usize,
    listed: Seq<usize>,
    leaves: spec_fn(usize) -> bool,
    step: spec_fn(Books, usize) -> Books,
)
    ensures
        walked(b, visits.push(k), step) == step(walked(b, visits, step), k),
        staying(visits.push(k), listed, leaves) == if leaves(k) {
            staying(visits, listed, leaves)
        } else {
            staying(visits, listed, leaves).push(listed[k as int])
        },
{
    assert(visits.push(k).drop_last() =~= visits);
}

proof fn lemma_swap_remove_lists(set: Seq<usize>, i: int, n: nat)
    requires
        lists_slots(set, n),
        0 <= i < set.len(),
    ensures
        lists_slots(set.update(i, set.last()).drop_last(), n),
        forall|y: usize| #[trigger]
            set.update(i, set.last()).drop_last().contains(y) <==> set.contains(y) && y != set[i],
{
    let less = set.update(i, set.last()).drop_last();
    let last = set.len() - 1;
    assert forall|y: usize| #[trigger] less.contains(y) <==> set.contains(y) && y != set[i] by {
        if less.contains(y) {
            let j = less.index_of(y);
            if j == i {
                assert(set[last] == y);
                assert(set[last] != set[i]);
            } else {
                assert(set[j] == y);
                assert(set[j] != set[i]);
            }
        }
        if set.contains(y) && y != set[i] {
            let j = set.index_of(y);
            if j == last {
                assert(less[i] == y);
            } else {
                assert(less[j] == y);
            }
        }
    }
    assert forall|a: int, b: int|
        0 <= a < less.len() && 0 <= b < less.len() && a != b implies less[a] != less[b] by {
        let x = if a == i {
            last
        } else {
            a
        };
        let y = if b == i {
            last
        } else {
            b
        };
        assert(less[a] == set[x] && less[b] == set[y]);
    }
    assert forall|j: int| 0 <= j < less.len() implies #[trigger] less[j] < n by {
        assert(set.contains(less[j]));
    }
}

/// Taking slots that have moved on off a list keeps the invariant.
proof fn lemma_shorter_list(a: &SharedSender, b: &SharedSender)
    requires
        a.wf(),
        b.slots == a.slots,
        b.deadlines == a.deadlines,
        b.terminal_count == a.terminal_count,
        b.socket_id_to_slot == a.socket_id_to_slot,
        b.pending_start == a.pending_start,
        b.dirty_ready == a.dirty_ready,
        lists_slots(b.in_flight_set@, b.slots@.len()),
        lists_slots(b.closing_set@, b.slots@.len()),
        forall|x: usize| #[trigger]
            b.in_flight_set@.contains(x) ==> a.in_flight_set@.contains(x),
        forall|x: usize| #[trigger] b.closing_set@.contains(x) ==> a.closing_set@.contains(x),
        forall|x: int|
            0 <= x < b.slots@.len() && (#[trigger] b.slots@[x]).phase == SlotPhase::Handshaking
                ==> b.in_flight_set@.contains(x as usize),
        forall|x: int|
            0 <= x < b.slots@.len() && (#[trigger] b.slots@[x]).phase == SlotPhase::Closing
                ==> b.closing_set@.contains(x as usize),
    ensures
        b.wf(),
{
    assert forall|i: int| 0 <= i < b.slots@.len() && b.closing_set@.contains(i as usize) implies (
    #[trigger] b.slots@[i]).phase == SlotPhase::Closing || b.slots@[i].phase
        == SlotPhase::Closed by {
        assert(a.closing_set@.contains(i as usize));
    }
}

impl SharedSender {
    /// Looks at every slot whose handshake is in flight. `reports` goes with the list
    /// of those slots, entry by entry. Slots that are no longer handshaking leave
    /// the list.
    pub fn check_in_flight(
        &mut self,
        reports: &Vec<CallerReport>,
        now_us: u64,
        duration_us: u64,
        limiter: &mut ConnectLimiter,
        fx: &mut SenderEffects,
    )
        requires
            old(self).wf(),
            old(self).accounted(old(limiter)),
            reports@.len() == old(self).in_flight_set@.len(),
            old(self).sched_stats.handshake_state_visits + reports@.len() <= u64::MAX,
            now_us + duration_us <= u64::MAX,
            forall|k: int|
                0 <= k < reports@.len() ==> now_us + (#[trigger] reports@[k]).send_wait_us
                    <= u64::MAX,
        ensures
            final(self).wf(),
            final(self).accounted(final(limiter)),
            final(limiter)@.in_flight - final(self).held() == old(limiter)@.in_flight - old(
                self,
            ).held(),
            old(limiter)@.live() ==> final(limiter)@.live(),
            final(self).slots@.len() == old(self).slots@.len(),
            forall|k: int|
                0 <= k < reports@.len() ==> handshake_checked(
                    old(self).slots@[#[trigger] old(self).in_flight_set@[k] as int],
                    final(self).slots@[old(self).in_flight_set@[k] as int],
                    reports@[k],
                    (now_us + duration_us) as u64,
                ),
            forall|i: int|
                0 <= i < old(self).slots@.len() && !old(self).in_flight_set@.contains(i as usize)
                    ==> #[trigger] final(self).slots@[i] == old(self).slots@[i],
            forall|i: int|
                0 <= i < old(self).slots@.len() ==> final(self).in_flight_set@.contains(i as usize)
                    == ((#[trigger] final(self).slots@[i]).phase == SlotPhase::Handshaking),
            final(self).sched_stats == (SharedSenderSchedStats {
                handshake_state_visits: (old(self).sched_stats.handshake_state_visits + reports@.len()) as u64,
                ..old(self).sched_stats
            }),
            final(self).pending_start == old(self).pending_start,
            final(self).dirty_ready == old(self).dirty_ready,
            final(self).closing_set == old(self).closing_set,
            ({
                let listed = old(self).in_flight_set@;
                let leaves = handshake_over(old(self).slots@, listed, reports@);
                let visits = visit_order(places(listed.len()), leaves);
                &&& final(self).in_flight_set@ == staying(visits, listed, leaves)
                &&& books(final(self), final(limiter), final(fx)) == walked(
                    books(old(self), old(limiter), old(fx)),
                    visits,
                    handshake_step(old(self).slots@, listed, reports@, now_us, duration_us),
                )
                &&& final(fx).disconnect@ == old(fx).disconnect@
                &&& final(fx).remove@ == old(fx).remove@ + dropped_callers(
                    visits,
                    old(self).slots@,
                    listed,
                    handshake_fails(old(self).slots@, listed, reports@),
                )
                &&& final(limiter)@.completed == old(limiter)@.completed + visit_sum(
                    visits,
                    tokens_up(old(self).slots@, listed, reports@),
                )
                &&& final(limiter)@.failed == old(limiter)@.failed + visit_sum(
                    visits,
                    tokens_down(old(self).slots@, listed, reports@),
                )
            }),
    {
        let ghost start = *self;
        let ghost listed = self.in_flight_set@;
        let ghost opened = books(self, limiter, fx);
        let ghost leaves = handshake_over(self.slots@, listed, reports@);
        let ghost step = handshake_step(self.slots@, listed, reports@, now_us, duration_us);
        let ghost mut visited: Seq<usize> = Seq::empty();
        let ghost n = self.slots@.len();
        let mut order: Vec<usize> = Vec::new();
        let count: usize = self.in_flight_set.len();
        while order.len() < count
            invariant
                order@.len() <= count,
                forall|j: int| 0 <= j < order@.len() ==> order@[j] == j,
            decreases count - order@.len(),
        {
            let next: usize = order.len();
            order.push(next);
        }
        let mut i: usize = 0;
        let ghost mut todo: Set<int> = Set::new(|k: int| 0 <= k < count);
        proof {
            assert(self.slots.len() <= usize::MAX);
            assert(order@ =~= places(count as nat));
            assert(order@.skip(0) =~= order@);
            assert(visited + visit_order(order@, leaves) =~= visit_order(order@, leaves));
            assert(self.in_flight_set@.take(0) =~= Seq::<usize>::empty());
            assert forall|k: int| #[trigger] todo.contains(k) implies exists|j: int|
                i <= j < order@.len() && #[trigger] order@[j] == k by {
                assert(order@[k] == k);
            }
        }
        while i < self.in_flight_set.len()
            invariant
                start.wf(),
                listed == start.in_flight_set@,
                count == listed.len() == reports@.len(),
                n == start.slots@.len() <= usize::MAX,
                start.sched_stats.handshake_state_visits + reports@.len() <= u64::MAX,
                now_us + duration_us <= u64::MAX,
                forall|k: int|
                    0 <= k < reports@.len() ==> now_us + (#[trigger] reports@[k]).send_wait_us
                        <= u64::MAX,
                self.wf(),
                self.accounted(limiter),
                limiter@.in_flight - self.held() == old(limiter)@.in_flight - start.held(),
                old(limiter)@.live() ==> limiter@.live(),
                self.slots@.len() == n,
                i <= self.in_flight_set@.len() == order@.len() <= count,
                forall|j: int|
                    0 <= j < order@.len() ==> (#[trigger] order@[j]) < count && self.in_flight_set@[j]
                        == listed[order@[j] as int],
                forall|j: int|
                    0 <= j < i ==> self.slots@[#[trigger] self.in_flight_set@[j] as int].phase
                        == SlotPhase::Handshaking,
                forall|j: int|
                    i <= j < order@.len() ==> self.slots@[#[trigger] self.in_flight_set@[j] as int]
                        == start.slots@[self.in_flight_set@[j] as int],
                forall|k: int| #[trigger]
                    todo.contains(k) ==> exists|j: int|
                        i <= j < order@.len() && #[trigger] order@[j] == k,
                forall|k: int|
                    0 <= k < count && !todo.contains(k) ==> handshake_checked(
                        start.slots@[#[trigger] listed[k] as int],
                        self.slots@[listed[k] as int],
                        reports@[k],
                        (now_us + duration_us) as u64,
                    ),
                forall|x: int|
                    0 <= x < n && !listed.contains(x as usize) ==> #[trigger] self.slots@[x]
                        == start.slots@[x],
                self.sched_stats == (SharedSenderSchedStats {
                    handshake_state_visits: self.sched_stats.handshake_state_visits,
                    ..start.sched_stats
                }),
                self.sched_stats.handshake_state_visits + (self.in_flight_set@.len() - i)
                    == start.sched_stats.handshake_state_visits + count,
                self.pending_start == start.pending_start,
                self.dirty_ready == start.dirty_ready,
                self.closing_set == start.closing_set,
                leaves == handshake_over(start.slots@, listed, reports@),
                step == handshake_step(start.slots@, listed, reports@, now_us, duration_us),
                books(self, limiter, fx) == walked(opened, visited, step),
                self.in_flight_set@.take(i as int) == staying(visited, listed, leaves),
                visited + visit_order(order@.skip(i as int), leaves) == visit_order(
                    places(count as nat),
                    leaves,
                ),
            decreases self.in_flight_set@.len() - i,
        {
            let slot_id: usize = self.in_flight_set[i];
            let k: usize = order[i];
            let ghost before = *self;
            self.sched_stats.handshake_state_visits = self.sched_stats.handshake_state_visits + 1;
            assert(slot_id == listed[k as int]);
            assert(slot_ok(self.slots@[slot_id as int], slot_id, self.deadlines@));
            if self.slots[slot_id].phase == SlotPhase::Handshaking {
                self.eval_slot_state(slot_id, &reports[k], now_us, duration_us, limiter, fx);
            }
            let ghost after = *self;
            let ghost rest = order@.skip(i as int);
            let ghost left = if leaves(k) {
                swapped_out(rest)
            } else {
                rest.drop_first()
            };
            proof {
                assert(rest[0] == k);
                lemma_walk_step(opened, visited, k, listed, leaves, step);
                assert(visited.push(k) + visit_order(left, leaves) =~= visited + visit_order(
                    rest,
                    leaves,
                ));
                visited = visited.push(k);
                assert(leaves(k) == (self.slots@[slot_id as int].phase != SlotPhase::Handshaking));
                assert(books(self, limiter, fx) == walked(opened, visited, step));
                todo = todo.remove(k as int);
                assert(self.slots@ =~= before.slots@.update(
                    slot_id as int,
                    self.slots@[slot_id as int],
                ));
                assert forall|j: int|
                    0 <= j < order@.len() && j != i implies self.slots@[#[trigger] self.in_flight_set@[j] as int]
                    == before.slots@[self.in_flight_set@[j] as int] by {
                    assert(self.in_flight_set@[j] != self.in_flight_set@[i as int]);
                }
                assert forall|m: int| 0 <= m < count && !todo.contains(m) implies handshake_checked(
                    start.slots@[#[trigger] listed[m] as int],
                    self.slots@[listed[m] as int],
                    reports@[m],
                    (now_us + duration_us) as u64,
                ) by {
                    if m != k {
                        assert(listed[m] != listed[k as int]);
                    }
                }
                assert forall|x: int|
                    0 <= x < n && !listed.contains(x as usize) implies #[trigger] self.slots@[x]
                    == start.slots@[x] by {
                    if x == slot_id {
                        assert(listed.contains(slot_id));
                    }
                }
                assert forall|m: int| #[trigger] todo.contains(m) implies exists|j: int|
                    i < j < order@.len() && #[trigger] order@[j] == m by {
                    let j = choose|j: int| i <= j < order@.len() && #[trigger] order@[j] == m;
                    assert(j != i);
                }
            }
            if self.slots[slot_id].phase != SlotPhase::Handshaking {
                let ghost set = self.in_flight_set@;
                let ghost was_order = order@;
                self.in_flight_set.swap_remove(i);
                order.swap_remove(i);
                proof {
                    let last = set.len() - 1;
                    assert(order@.skip(i as int) =~= left);
                    assert(self.in_flight_set@.take(i as int) =~= set.take(i as int));
                    lemma_swap_remove_lists(set, i as int, n);
                    assert forall|m: int| #[trigger] todo.contains(m) implies exists|j: int|
                        i <= j < order@.len() && #[trigger] order@[j] == m by {
                        let j = choose|j: int| i < j < was_order.len() && #[trigger] was_order[j] == m;
                        if j == last {
                            assert(order@[i as int] == m);
                        } else {
                            assert(order@[j] == m);
                        }
                    }
                    assert forall|j: int| i <= j < order@.len() implies self.slots@[#[trigger] self.in_flight_set@[j] as int]
                        == start.slots@[self.in_flight_set@[j] as int] by {
                        if j == i {
                            assert(self.in_flight_set@[j] == set[last]);
                        } else {
                            assert(self.in_flight_set@[j] == set[j]);
                        }
                    }
                    assert forall|j: int| 0 <= j < i implies self.slots@[#[trigger] self.in_flight_set@[j] as int].phase
                        == SlotPhase::Handshaking by {
                        assert(self.in_flight_set@[j] == set[j]);
                    }
                    assert forall|j: int| 0 <= j < order@.len() implies (#[trigger] order@[j])
                        < count && self.in_flight_set@[j] == listed[order@[j] as int] by {
                        let from = if j == i {
                            last
                        } else {
                            j
                        };
                        assert(order@[j] == was_order[from]);
                    }
                    assert forall|x: int|
                        0 <= x < n && (#[trigger] self.slots@[x]).phase
                            == SlotPhase::Handshaking implies self.in_flight_set@.contains(x as usize) by {
                        assert(set.contains(x as usize));
                    }
                    lemma_shorter_list(&after, self);
                }
            } else {
                proof {
                    assert(order@.skip(i + 1) =~= left);
                    assert(self.in_flight_set@.take(i + 1) =~= self.in_flight_set@.take(i as int).push(slot_id));
                }
                i += 1;
            }
        }
        proof {
            assert(order@.skip(i as int) =~= Seq::<usize>::empty());
            assert(visited + Seq::<usize>::empty() =~= visited);
            assert(self.in_flight_set@.take(i as int) =~= self.in_flight_set@);
            handshake_walks_add_up(
                opened,
                visited,
                start.slots@,
                listed,
                reports@,
                now_us,
                duration_us,
            );
            assert forall|x: int| 0 <= x < n implies self.in_flight_set@.contains(x as usize) == ((
            #[trigger] self.slots@[x]).phase == SlotPhase::Handshaking) by {
                if self.in_flight_set@.contains(x as usize) {
                    let j = self.in_flight_set@.index_of(x as usize);
                    assert(self.slots@[self.in_flight_set@[j] as int].phase == SlotPhase::Handshaking);
                }
            }
        }
    }

    /// Looks at every slot whose close is under way. `reports` goes with the list of
    /// those slots, entry by entry. Slots that are no longer closing leave the list.
    pub fn check_closing(
        &mut self,
        reports: &Vec<CallerReport>,
        limiter: &mut ConnectLimiter,
        fx: &mut SenderEffects,
    )
        requires
            old(self).wf(),
            old(self).accounted(old(limiter)),
            reports@.len() == old(self).closing_set@.len(),
            old(self).sched_stats.closing_slot_visits + reports@.len() <= u64::MAX,
        ensures
            final(self).wf(),
            final(self).accounted(final(limiter)),
            final(limiter)@.in_flight - final(self).held() == old(limiter)@.in_flight - old(
                self,
            ).held(),
            old(limiter)@.live() ==> final(limiter)@.live(),
            final(self).slots@.len() == old(self).slots@.len(),
            forall|k: int|
                0 <= k < reports@.len() ==> close_checked(old(self).slots@[#[trigger] old(self).closing_set@[k] as int], final(self).slots@[old(self).closing_set@[k] as int], reports@[k]),
            forall|i: int|
                0 <= i < old(self).slots@.len() && !old(self).closing_set@.contains(i as usize)
                    ==> #[trigger] final(self).slots@[i] == old(self).slots@[i],
            forall|i: int|
                0 <= i < old(self).slots@.len() ==> final(self).closing_set@.contains(i as usize)
                    == ((#[trigger] final(self).slots@[i]).phase == SlotPhase::Closing),
            final(self).sched_stats == (SharedSenderSchedStats {
                closing_slot_visits: (old(self).sched_stats.closing_slot_visits + reports@.len()) as u64,
                ..old(self).sched_stats
            }),
            final(self).pending_start == old(self).pending_start,
            final(self).dirty_ready == old(self).dirty_ready,
            final(self).in_flight_set == old(self).in_flight_set,
            ({
                let listed = old(self).closing_set@;
                let leaves = closing_over(old(self).slots@, listed, reports@);
                let visits = visit_order(places(listed.len()), leaves);
                &&& final(self).closing_set@ == staying(visits, listed, leaves)
                &&& books(final(self), final(limiter), final(fx)) == walked(
                    books(old(self), old(limiter), old(fx)),
                    visits,
                    closing_step(old(self).slots@, listed, reports@),
                )
                &&& final(fx).disconnect@ == old(fx).disconnect@
                &&& final(fx).remove@ == old(fx).remove@ + dropped_callers(
                    visits,
                    old(self).slots@,
                    listed,
                    closing_ends(old(self).slots@, listed, reports@),
                )
                &&& final(limiter)@ == old(limiter)@
                &&& final(fx).wake@ == old(fx).wake@
            }),
    {
        let ghost start = *self;
        let ghost listed = self.closing_set@;
        let ghost opened = books(self, limiter, fx);
        let ghost leaves = closing_over(self.slots@, listed, reports@);
        let ghost step = closing_step(self.slots@, listed, reports@);
        let ghost mut visited: Seq<usize> = Seq::empty();
        let ghost n = self.slots@.len();
        let mut order: Vec<usize> = Vec::new();
        let count: usize = self.closing_set.len();
        while order.len() < count
            invariant
                order@.len() <= count,
                forall|j: int| 0 <= j < order@.len() ==> order@[j] == j,
            decreases count - order@.len(),
        {
            let next: usize = order.len();
            order.push(next);
        }
        let mut i: usize = 0;
        let ghost mut todo: Set<int> = Set::new(|k: int| 0 <= k < count);
        proof {
            assert(self.slots.len() <= usize::MAX);
            assert(order@ =~= places(count as nat));
            assert(order@.skip(0) =~= order@);
            assert(visited + visit_order(order@, leaves) =~= visit_order(order@, leaves));
            assert(self.closing_set@.take(0) =~= Seq::<usize>::empty());
            assert forall|k: int| #[trigger] todo.contains(k) implies exists|j: int|
                i <= j < order@.len() && #[trigger] order@[j] == k by {
                assert(order@[k] == k);
            }
        }
        while i < self.closing_set.len()
            invariant
                start.wf(),
                listed == start.closing_set@,
                count == listed.len() == reports@.len(),
                n == start.slots@.len() <= usize::MAX,
                start.sched_stats.closing_slot_visits + reports@.len() <= u64::MAX,
                self.wf(),
                self.accounted(limiter),
                limiter@.in_flight - self.held() == old(limiter)@.in_flight - start.held(),
                old(limiter)@.live() ==> limiter@.live(),
                self.slots@.len() == n,
                i <= self.closing_set@.len() == order@.len() <= count,
                forall|j: int|
                    0 <= j < order@.len() ==> (#[trigger] order@[j]) < count && self.closing_set@[j]
                        == listed[order@[j] as int],
                forall|j: int|
                    0 <= j < i ==> self.slots@[#[trigger] self.closing_set@[j] as int].phase
                        == SlotPhase::Closing,
                forall|j: int|
                    i <= j < order@.len() ==> self.slots@[#[trigger] self.closing_set@[j] as int]
                        == start.slots@[self.closing_set@[j] as int],
                forall|k: int| #[trigger]
                    todo.contains(k) ==> exists|j: int|
                        i <= j < order@.len() && #[trigger] order@[j] == k,
                forall|k: int|
                    0 <= k < count && !todo.contains(k) ==> close_checked(start.slots@[#[trigger] listed[k] as int], self.slots@[listed[k] as int], reports@[k]),
                forall|x: int|
                    0 <= x < n && !listed.contains(x as usize) ==> #[trigger] self.slots@[x]
                        == start.slots@[x],
                self.sched_stats == (SharedSenderSchedStats {
                    closing_slot_visits: self.sched_stats.closing_slot_visits,
                    ..start.sched_stats
                }),
                self.sched_stats.closing_slot_visits + (self.closing_set@.len() - i)
                    == start.sched_stats.closing_slot_visits + count,
                self.pending_start == start.pending_start,
                self.dirty_ready == start.dirty_ready,
                self.in_flight_set == start.in_flight_set,
                leaves == closing_over(start.slots@, listed, reports@),
                step == closing_step(start.slots@, listed, reports@),
                books(self, limiter, fx) == walked(opened, visited, step),
                self.closing_set@.take(i as int) == staying(visited, listed, leaves),
                visited + visit_order(order@.skip(i as int), leaves) == visit_order(
                    places(count as nat),
                    leaves,
                ),
            decreases self.closing_set@.len() - i,
        {
            let slot_id: usize = self.closing_set[i];
            let k: usize = order[i];
            let ghost before = *self;
            self.sched_stats.closing_slot_visits = self.sched_stats.closing_slot_visits + 1;
            assert(slot_id == listed[k as int]);
            assert(slot_ok(self.slots@[slot_id as int], slot_id, self.deadlines@));
            if self.slots[slot_id].phase == SlotPhase::Closing && (
            self.slots[slot_id].caller.is_none() || reports[k].state == CallerState::Disconnected) {
                self.finalize_slot(slot_id, false, &reports[k].legs, limiter, fx);
            }
            let ghost after = *self;
            let ghost rest = order@.skip(i as int);
            let ghost left = if leaves(k) {
                swapped_out(rest)
            } else {
                rest.drop_first()
            };
            proof {
                assert(rest[0] == k);
                lemma_walk_step(opened, visited, k, listed, leaves, step);
                assert(visited.push(k) + visit_order(left, leaves) =~= visited + visit_order(
                    rest,
                    leaves,
                ));
                visited = visited.push(k);
                assert(leaves(k) == (self.slots@[slot_id as int].phase != SlotPhase::Closing));
                assert(books(self, limiter, fx) == walked(opened, visited, step));
                todo = todo.remove(k as int);
                assert(self.slots@ =~= before.slots@.update(
                    slot_id as int,
                    self.slots@[slot_id as int],
                ));
                assert forall|j: int|
                    0 <= j < order@.len() && j != i implies self.slots@[#[trigger] self.closing_set@[j] as int]
                    == before.slots@[self.closing_set@[j] as int] by {
                    assert(self.closing_set@[j] != self.closing_set@[i as int]);
                }
                assert forall|m: int| 0 <= m < count && !todo.contains(m) implies close_checked(start.slots@[#[trigger] listed[m] as int], self.slots@[listed[m] as int], reports@[m]) by {
                    if m != k {
                        assert(listed[m] != listed[k as int]);
                    }
                }
                assert forall|x: int|
                    0 <= x < n && !listed.contains(x as usize) implies #[trigger] self.slots@[x]
                    == start.slots@[x] by {
                    if x == slot_id {
                        assert(listed.contains(slot_id));
                    }
                }
                assert forall|m: int| #[trigger] todo.contains(m) implies exists|j: int|
                    i < j < order@.len() && #[trigger] order@[j] == m by {
                    let j = choose|j: int| i <= j < order@.len() && #[trigger] order@[j] == m;
                    assert(j != i);
                }
            }
            if self.slots[slot_id].phase != SlotPhase::Closing {
                let ghost set = self.closing_set@;
                let ghost was_order = order@;
                self.closing_set.swap_remove(i);
                order.swap_remove(i);
                proof {
                    let last = set.len() - 1;
                    assert(order@.skip(i as int) =~= left);
                    assert(self.closing_set@.take(i as int) =~= set.take(i as int));
                    lemma_swap_remove_lists(set, i as int, n);
                    assert forall|m: int| #[trigger] todo.contains(m) implies exists|j: int|
                        i <= j < order@.len() && #[trigger] order@[j] == m by {
                        let j = choose|j: int| i < j < was_order.len() && #[trigger] was_order[j] == m;
                        if j == last {
                            assert(order@[i as int] == m);
                        } else {
                            assert(order@[j] == m);
                        }
                    }
                    assert forall|j: int| i <= j < order@.len() implies self.slots@[#[trigger] self.closing_set@[j] as int]
                        == start.slots@[self.closing_set@[j] as int] by {
                        if j == i {
                            assert(self.closing_set@[j] == set[last]);
                        } else {
                            assert(self.closing_set@[j] == set[j]);
                        }
                    }
                    assert forall|j: int| 0 <= j < i implies self.slots@[#[trigger] self.closing_set@[j] as int].phase
                        == SlotPhase::Closing by {
                        assert(self.closing_set@[j] == set[j]);
                    }
                    assert forall|j: int| 0 <= j < order@.len() implies (#[trigger] order@[j])
                        < count && self.closing_set@[j] == listed[order@[j] as int] by {
                        let from = if j == i {
                            last
                        } else {
                            j
                        };
                        assert(order@[j] == was_order[from]);
                    }
                    assert forall|x: int|
                        0 <= x < n && (#[trigger] self.slots@[x]).phase
                            == SlotPhase::Closing implies self.closing_set@.contains(x as usize) by {
                        assert(set.contains(x as usize));
                    }
                    lemma_shorter_list(&after, self);
                }
            } else {
                proof {
                    assert(order@.skip(i + 1) =~= left);
                    assert(self.closing_set@.take(i + 1) =~= self.closing_set@.take(i as int).push(slot_id));
                }
                i += 1;
            }
        }
        proof {
            assert(order@.skip(i as int) =~= Seq::<usize>::empty());
            assert(visited + Seq::<usize>::empty() =~= visited);
            assert(self.closing_set@.take(i as int) =~= self.closing_set@);
            visits_reach_each_entry_once(places(count as nat), leaves);
            assert forall|j: int|
                0 <= j < visited.len() && start.slots@[listed[#[trigger] visited[j] as int] as int].phase
                    == SlotPhase::Closing implies start.slots@[listed[visited[j] as int] as int].held_handshake_tokens
                == 0 by {
                assert(visited.contains(visited[j]));
                let x = listed[visited[j] as int];
                assert(slot_ok(start.slots@[x as int], x, start.deadlines@));
            }
            closing_walks_add_up(opened, visited, start.slots@, listed, reports@);
            assert forall|x: int| 0 <= x < n implies self.closing_set@.contains(x as usize) == ((
            #[trigger] self.slots@[x]).phase == SlotPhase::Closing) by {
                if self.closing_set@.contains(x as usize) {
                    let j = self.closing_set@.index_of(x as usize);
                    assert(self.slots@[self.closing_set@[j] as int].phase == SlotPhase::Closing);
                }
            }
        }
    }

    /// Counts a tick.
    pub fn begin_tick(&mut self)
        requires
            old(self).wf(),
            old(self).sched_stats.tick_calls < u64::MAX,
        ensures
            final(self).wf(),
            final(self).slots == old(self).slots,
            final(self).deadlines == old(self).deadlines,
            final(self).pending_start == old(self).pending_start,
            final(self).dirty_ready == old(self).dirty_ready,
            final(self).in_flight_set == old(self).in_flight_set,
            final(self).closing_set == old(self).closing_set,
            final(self).terminal_count == old(self).terminal_count,
            final(self).socket_id_to_slot == old(self).socket_id_to_slot,
            final(self).sched_stats == (SharedSenderSchedStats {
                tick_calls: (old(self).sched_stats.tick_calls + 1) as u64,
                ..old(self).sched_stats
            }),
    {
        self.sched_stats.tick_calls = self.sched_stats.tick_calls + 1;
    }

    /// What every connection did, slot by slot. `reports` holds the last report on
    /// each slot's caller and `sources` what each slot's payload source did. A slot
    /// has one source however many legs it has, so it is charged to the first leg.
    pub fn finish(self, reports: &Vec<Option<LegReport>>, sources: &Vec<SourceStats>) -> (r: Vec<
        ConnStats,
    >)
        requires
            self.wf(),
            reports@.len() == self.slots@.len(),
            sources@.len() == self.slots@.len(),
        ensures
            r@ == all_stats(self.slots@, reports@, sources@, self.slots@.len() as int),
    {
        let mut slots = self.slots;
        let ghost start = self.slots@;
        let mut out: Vec<ConnStats> = Vec::new();
        let mut i: usize = 0;
        assert(out@ =~= all_stats(start, reports@, sources@, 0));
        while i < slots.len()
            invariant
                i <= slots@.len() == start.len(),
                reports@.len() == start.len(),
                sources@.len() == start.len(),
                forall|j: int| i <= j < start.len() ==> slots@[j] == start[j],
                out@ == all_stats(start, reports@, sources@, i as int),
            decreases slots@.len() - i,
        {
            let mut stats: Vec<ConnStats> = Vec::new();
            std::mem::swap(&mut stats, &mut slots[i].stats);
            if slots[i].caller.is_some() {
                snapshot_stats(&mut stats, &reports[i]);
            }
            if stats.len() > 0 {
                let first = stats[0];
                stats.set(0, ConnStats { source: sources[i], has_source: true, ..first });
            }
            assert(stats@ =~= last_stats(start[i as int], reports@[i as int], sources@[i as int]));
            out.append(&mut stats);
            i += 1;
        }
        out
    }
}

// ---------------------------------------------------------------------------
// What a walk comes to
// ---------------------------------------------------------------------------

/// A walk visits each entry of its list once, whichever leave on the way.
pub proof fn visits_reach_each_entry_once(left: Seq<usize>, leaves: spec_fn(usize) -> bool)
    requires
        left.no_duplicates(),
    ensures
        visit_order(left, leaves).len() == left.len(),
        visit_order(left, leaves).no_duplicates(),
        forall|k: usize| #[trigger] visit_order(left, leaves).contains(k) <==> left.contains(k),
    decreases left.len(),
{
    if left.len() > 0 {
        let n = (usize::MAX + 1) as nat;
        let rest = if leaves(left[0]) {
            swapped_out(left)
        } else {
            left.drop_first()
        };
        lemma_swap_remove_lists(left, 0, n);
        lemma_drop_first_lists(left, n);
        visits_reach_each_entry_once(rest, leaves);
        let tail = visit_order(rest, leaves);
        let all = visit_order(left, leaves);
        assert(!tail.contains(left[0]));
        assert forall|k: usize| #[trigger] all.contains(k) <==> left.contains(k) by {
            if k == left[0] {
                assert(all[0] == k);
            }
            if tail.contains(k) {
                assert(all[tail.index_of(k) + 1] == k);
            }
            if all.contains(k) && k != left[0] {
                assert(tail[all.index_of(k) - 1] == k);
            }
        }
        assert forall|i: int, j: int|
            0 <= i < all.len() && 0 <= j < all.len() && i != j implies all[i] != all[j] by {
            if i > 0 && j > 0 {
                assert(tail[i - 1] != tail[j - 1]);
            } else if i == 0 {
                assert(tail.contains(tail[j - 1]));
            } else {
                assert(tail.contains(tail[i - 1]));
            }
        }
    }
}

/// The sum of `f` over the visited entries.
pub open spec fn visit_sum(visits: Seq<usize>, f: spec_fn(usize) -> nat) -> nat
    decreases visits.len(),
{
    if visits.len() == 0 {
        0
    } else {
        visit_sum(visits.drop_last(), f) + f(visits.last())
    }
}

/// The callers of the visited slots that came to their end.
pub open spec fn dropped_callers(
    visits: Seq<usize>,
    slots: Seq<SharedSenderSlot>,
    listed: Seq<usize>,
    ends: spec_fn(usize) -> bool,
) -> Seq<u64>
    decreases visits.len(),
{
    if visits.len() == 0 {
        Seq::empty()
    } else {
        let before = dropped_callers(visits.drop_last(), slots, listed, ends);
        let last = slots[listed[visits.last() as int] as int];
        if ends(visits.last()) && last.caller is Some {
            before.push(last.caller->0)
        } else {
            before
        }
    }
}

/// Whether the look at entry `k` of the handshakes in flight finds its caller gone.
pub open spec fn handshake_fails(
    slots: Seq<SharedSenderSlot>,
    listed: Seq<usize>,
    reports: Seq<CallerReport>,
) -> spec_fn(usize) -> bool {
    |k: usize|
        {
            let was = slots[listed[k as int] as int];
            was.phase == SlotPhase::Handshaking && goes_down(was, reports[k as int])
        }
}

/// Whether entry `k` of the slots under close comes to its end.
pub open spec fn closing_ends(
    slots: Seq<SharedSenderSlot>,
    listed: Seq<usize>,
    reports: Seq<CallerReport>,
) -> spec_fn(usize) -> bool {
    |k: usize| close_ends(slots[listed[k as int] as int], reports[k as int])
}

/// Tokens that the look at entry `k` settles as connected.
pub open spec fn tokens_up(
    slots: Seq<SharedSenderSlot>,
    listed: Seq<usize>,
    reports: Seq<CallerReport>,
) -> spec_fn(usize) -> nat {
    |k: usize|
        {
            let was = slots[listed[k as int] as int];
            if goes_up(was, reports[k as int]) {
                completed_tokens(was, reports[k as int].legs)
            } else {
                0
            }
        }
}

/// Tokens that the look at entry `k` settles as failed.
pub open spec fn tokens_down(
    slots: Seq<SharedSenderSlot>,
    listed: Seq<usize>,
    reports: Seq<CallerReport>,
) -> spec_fn(usize) -> nat {
    |k: usize|
        {
            let was = slots[listed[k as int] as int];
            if goes_up(was, reports[k as int]) {
                (was.held_handshake_tokens - completed_tokens(was, reports[k as int].legs)) as nat
            } else if was.phase == SlotPhase::Handshaking && goes_down(was, reports[k as int]) {
                was.held_handshake_tokens as nat
            } else {
                0
            }
        }
}

/// Walking the handshakes in flight drops exactly the callers of the slots that came
/// to their end, each counted once, and settles exactly the tokens of the slots that
/// went up or down: a leg that the report shows connected as completed, every other
/// as failed.
pub proof fn handshake_walks_add_up(
    b: Books,
    visits: Seq<usize>,
    slots: Seq<SharedSenderSlot>,
    listed: Seq<usize>,
    reports: Seq<CallerReport>,
    now_us: u64,
    duration_us: u64,
)
    ensures
        ({
            let end = walked(
                b,
                visits,
                handshake_step(slots, listed, reports, now_us, duration_us),
            );
            let ends = handshake_fails(slots, listed, reports);
            &&& end.disconnect == b.disconnect
            &&& end.remove == b.remove + dropped_callers(visits, slots, listed, ends)
            &&& end.closed == b.closed + visit_sum(visits, |k: usize| one_if(ends(k)))
            &&& end.limiter.completed == b.limiter.completed + visit_sum(
                visits,
                tokens_up(slots, listed, reports),
            )
            &&& end.limiter.failed == b.limiter.failed + visit_sum(
                visits,
                tokens_down(slots, listed, reports),
            )
        }),
    decreases visits.len(),
{
    let ends = handshake_fails(slots, listed, reports);
    if visits.len() > 0 {
        handshake_walks_add_up(
            b,
            visits.drop_last(),
            slots,
            listed,
            reports,
            now_us,
            duration_us,
        );
        let k = visits.last();
        let was = slots[listed[k as int] as int];
        let before = dropped_callers(visits.drop_last(), slots, listed, ends);
        if ends(k) && was.caller is Some {
            assert((b.remove + before).push(was.caller->0) =~= b.remove + before.push(
                was.caller->0,
            ));
        }
    } else {
        assert(b.remove + Seq::<u64>::empty() =~= b.remove);
    }
}

/// Walking the slots under close drops exactly the callers of those that came to
/// their end. None of them holds a token, so the limiter and those who wait for it
/// are left alone.
pub proof fn closing_walks_add_up(
    b: Books,
    visits: Seq<usize>,
    slots: Seq<SharedSenderSlot>,
    listed: Seq<usize>,
    reports: Seq<CallerReport>,
)
    requires
        forall|i: int|
            0 <= i < visits.len() ==> slots[listed[#[trigger] visits[i] as int] as int].phase
                == SlotPhase::Closing ==> slots[listed[visits[i] as int] as int].held_handshake_tokens
                == 0,
    ensures
        ({
            let end = walked(b, visits, closing_step(slots, listed, reports));
            let ends = closing_ends(slots, listed, reports);
            &&& end.disconnect == b.disconnect
            &&& end.remove == b.remove + dropped_callers(visits, slots, listed, ends)
            &&& end.closed == b.closed + visit_sum(visits, |k: usize| one_if(ends(k)))
            &&& end.limiter == b.limiter
            &&& end.wake == b.wake
        }),
    decreases visits.len(),
{
    let ends = closing_ends(slots, listed, reports);
    if visits.len() > 0 {
        closing_walks_add_up(b, visits.drop_last(), slots, listed, reports);
        let k = visits.last();
        assert(k == visits[visits.len() - 1]);
        let was = slots[listed[k as int] as int];
        let before = dropped_callers(visits.drop_last(), slots, listed, ends);
        assert(b.wake + Seq::<u64>::empty() =~= b.wake);
        if ends(k) && was.caller is Some {
            assert((b.remove + before).push(was.caller->0) =~= b.remove + before.push(
                was.caller->0,
            ));
        }
    } else {
        assert(b.remove + Seq::<u64>::empty() =~= b.remove);
    }
}

/// Whether two states of the deadlines agree on `slot`.
pub open spec fn same_deadlines(
    a: Map<(usize, AppDeadlineKind), u64>,
    b: Map<(usize, AppDeadlineKind), u64>,
    slot: usize,
) -> bool {
    forall|kind: AppDeadlineKind|
        (#[trigger] a.contains_key((slot, kind)) == b.contains_key((slot, kind))) && (
        a.contains_key((slot, kind)) ==> a[(slot, kind)] == b[(slot, kind)])
}

/// A step that works on `slot` alone: the other slots keep their deadlines, and what
/// becomes of this slot's own depends on them alone.
pub open spec fn local(step: spec_fn(Books, usize) -> Books, listed: Seq<usize>) -> bool {
    &&& forall|b: Books, k: usize, slot: usize|
        slot != listed[k as int] ==> #[trigger] same_deadlines(
            step(b, k).deadlines,
            b.deadlines,
            slot,
        )
    &&& forall|b: Books, c: Books, k: usize|
        same_deadlines(b.deadlines, c.deadlines, listed[k as int]) ==> same_deadlines(
            (#[trigger] step(b, k)).deadlines,
            (#[trigger] step(c, k)).deadlines,
            listed[k as int],
        )
}

proof fn lemma_walks_are_local(
    b: Books,
    visits: Seq<usize>,
    listed: Seq<usize>,
    step: spec_fn(Books, usize) -> Books,
    slot: usize,
)
    requires
        local(step, listed),
        visits.no_duplicates(),
        listed.no_duplicates(),
        forall|i: int| 0 <= i < visits.len() ==> #[trigger] visits[i] < listed.len(),
    ensures
        (forall|i: int| 0 <= i < visits.len() ==> listed[#[trigger] visits[i] as int] != slot)
            ==> same_deadlines(walked(b, visits, step).deadlines, b.deadlines, slot),
        forall|i: int|
            0 <= i < visits.len() && listed[#[trigger] visits[i] as int] == slot ==> same_deadlines(
                walked(b, visits, step).deadlines,
                step(b, visits[i]).deadlines,
                slot,
            ),
    decreases visits.len(),
{
    if visits.len() > 0 {
        let less = visits.drop_last();
        let k = visits.last();
        let last = visits.len() - 1;
        let mid = walked(b, less, step);
        lemma_walks_are_local(b, less, listed, step, slot);
        assert(visits[last] == k);
        if listed[k as int] == slot {
            assert forall|i: int| 0 <= i < less.len() implies listed[#[trigger] less[i] as int]
                != slot by {
                assert(visits[i] == less[i]);
                assert(visits[i] != visits[last]);
            }
            assert(same_deadlines(mid.deadlines, b.deadlines, slot));
            assert(same_deadlines(step(mid, k).deadlines, step(b, k).deadlines, slot));
            assert forall|i: int|
                0 <= i < visits.len() && listed[#[trigger] visits[i] as int]
                    == slot implies same_deadlines(
                walked(b, visits, step).deadlines,
                step(b, visits[i]).deadlines,
                slot,
            ) by {
                if i < last {
                    assert(less[i] == visits[i]);
                }
            }
        } else {
            assert(same_deadlines(step(mid, k).deadlines, mid.deadlines, slot));
            assert forall|i: int|
                0 <= i < visits.len() && listed[#[trigger] visits[i] as int]
                    == slot implies same_deadlines(
                walked(b, visits, step).deadlines,
                step(b, visits[i]).deadlines,
                slot,
            ) by {
                assert(less[i] == visits[i]);
                assert(same_deadlines(mid.deadlines, step(b, less[i]).deadlines, slot));
            }
            if forall|i: int| 0 <= i < visits.len() ==> listed[#[trigger] visits[i] as int] != slot {
                assert forall|i: int| 0 <= i < less.len() implies listed[#[trigger] less[i] as int]
                    != slot by {
                    assert(visits[i] == less[i]);
                }
            }
        }
    }
}

/// Walking the handshakes in flight arms and disarms for each slot what a look at
/// that slot alone would, and for a slot that is not on the list nothing.
pub proof fn handshake_walks_are_local(
    b: Books,
    visits: Seq<usize>,
    slots: Seq<SharedSenderSlot>,
    listed: Seq<usize>,
    reports: Seq<CallerReport>,
    now_us: u64,
    duration_us: u64,
    slot: usize,
)
    requires
        visits.no_duplicates(),
        listed.no_duplicates(),
        forall|i: int| 0 <= i < visits.len() ==> #[trigger] visits[i] < listed.len(),
    ensures
        ({
            let step = handshake_step(slots, listed, reports, now_us, duration_us);
            let end = walked(b, visits, step);
            &&& (forall|i: int| 0 <= i < visits.len() ==> listed[#[trigger] visits[i] as int] != slot)
                ==> same_deadlines(end.deadlines, b.deadlines, slot)
            &&& forall|i: int|
                0 <= i < visits.len() && listed[#[trigger] visits[i] as int] == slot
                    ==> same_deadlines(end.deadlines, step(b, visits[i]).deadlines, slot)
        }),
{
    lemma_walks_are_local(
        b,
        visits,
        listed,
        handshake_step(slots, listed, reports, now_us, duration_us),
        slot,
    );
}

/// Walking the slots under close disarms what is armed for those that come to their
/// end, and nothing else.
pub proof fn closing_walks_are_local(
    b: Books,
    visits: Seq<usize>,
    slots: Seq<SharedSenderSlot>,
    listed: Seq<usize>,
    reports: Seq<CallerReport>,
    slot: usize,
)
    requires
        visits.no_duplicates(),
        listed.no_duplicates(),
        forall|i: int| 0 <= i < visits.len() ==> #[trigger] visits[i] < listed.len(),
    ensures
        ({
            let step = closing_step(slots, listed, reports);
            let end = walked(b, visits, step);
            &&& (forall|i: int| 0 <= i < visits.len() ==> listed[#[trigger] visits[i] as int] != slot)
                ==> same_deadlines(end.deadlines, b.deadlines, slot)
            &&& forall|i: int|
                0 <= i < visits.len() && listed[#[trigger] visits[i] as int] == slot
                    ==> same_deadlines(end.deadlines, step(b, visits[i]).deadlines, slot)
        }),
{
    lemma_walks_are_local(b, visits, listed, closing_step(slots, listed, reports), slot);
}

/// Whether a visited slot that came to its end had the socket id `sid`.
pub open spec fn id_retired(
    sid: u32,
    visits: Seq<usize>,
    slots: Seq<SharedSenderSlot>,
    listed: Seq<usize>,
    ends: spec_fn(usize) -> bool,
) -> bool {
    exists|i: int|
        0 <= i < visits.len() && ends(#[trigger] visits[i])
            && slots[listed[visits[i] as int] as int].socket_ids@.contains(sid)
}

proof fn lemma_retired_step(
    sid: u32,
    visits: Seq<usize>,
    slots: Seq<SharedSenderSlot>,
    listed: Seq<usize>,
    ends: spec_fn(usize) -> bool,
)
    requires
        visits.len() > 0,
    ensures
        id_retired(sid, visits, slots, listed, ends) == (id_retired(
            sid,
            visits.drop_last(),
            slots,
            listed,
            ends,
        ) || (ends(visits.last())
            && slots[listed[visits.last() as int] as int].socket_ids@.contains(sid))),
{
    let less = visits.drop_last();
    let last = visits.len() - 1;
    assert(visits[last] == visits.last());
    if id_retired(sid, less, slots, listed, ends) {
        let i = choose|i: int|
            0 <= i < less.len() && ends(#[trigger] less[i])
                && slots[listed[less[i] as int] as int].socket_ids@.contains(sid);
        assert(visits[i] == less[i]);
    }
    if id_retired(sid, visits, slots, listed, ends) {
        let i = choose|i: int|
            0 <= i < visits.len() && ends(#[trigger] visits[i])
                && slots[listed[visits[i] as int] as int].socket_ids@.contains(sid);
        if i < last {
            assert(less[i] == visits[i]);
        }
    }
}

/// Walking the handshakes in flight drops the routes of the slots that come to their
/// end, and no others.
pub proof fn handshake_walks_retire_routes(
    b: Books,
    visits: Seq<usize>,
    slots: Seq<SharedSenderSlot>,
    listed: Seq<usize>,
    reports: Seq<CallerReport>,
    now_us: u64,
    duration_us: u64,
    sid: u32,
)
    ensures
        ({
            let end = walked(
                b,
                visits,
                handshake_step(slots, listed, reports, now_us, duration_us),
            );
            let ends = handshake_fails(slots, listed, reports);
            &&& end.routes.contains_key(sid) == (b.routes.contains_key(sid) && !id_retired(
                sid,
                visits,
                slots,
                listed,
                ends,
            ))
            &&& end.routes.contains_key(sid) ==> end.routes[sid] == b.routes[sid]
        }),
    decreases visits.len(),
{
    if visits.len() > 0 {
        handshake_walks_retire_routes(
            b,
            visits.drop_last(),
            slots,
            listed,
            reports,
            now_us,
            duration_us,
            sid,
        );
        lemma_retired_step(sid, visits, slots, listed, handshake_fails(slots, listed, reports));
    }
}

/// Walking the slots under close drops the routes of those that come to their end,
/// and no others.
pub proof fn closing_walks_retire_routes(
    b: Books,
    visits: Seq<usize>,
    slots: Seq<SharedSenderSlot>,
    listed: Seq<usize>,
    reports: Seq<CallerReport>,
    sid: u32,
)
    ensures
        ({
            let end = walked(b, visits, closing_step(slots, listed, reports));
            let ends = closing_ends(slots, listed, reports);
            &&& end.routes.contains_key(sid) == (b.routes.contains_key(sid) && !id_retired(
                sid,
                visits,
                slots,
                listed,
                ends,
            ))
            &&& end.routes.contains_key(sid) ==> end.routes[sid] == b.routes[sid]
        }),
    decreases visits.len(),
{
    if visits.len() > 0 {
        closing_walks_retire_routes(b, visits.drop_last(), slots, listed, reports, sid);
        lemma_retired_step(sid, visits, slots, listed, closing_ends(slots, listed, reports));
    }
}

/// The statistics of a slot when the run ends.
pub open spec fn last_stats(
    s: SharedSenderSlot,
    report: Option<LegReport>,
    source: SourceStats,
) -> Seq<ConnStats> {
    let stats = final_stats(s, report, false);
    if stats.len() > 0 {
        stats.update(0, ConnStats { source, has_source: true, ..stats[0] })
    } else {
        stats
    }
}

/// The statistics of the first `n` slots, one after the other.
pub open spec fn all_stats(
    slots: Seq<SharedSenderSlot>,
    reports: Seq<Option<LegReport>>,
    sources: Seq<SourceStats>,
    n: int,
) -> Seq<ConnStats>
    decreases n,
{
    if n <= 0 {
        Seq::empty()
    } else {
        all_stats(slots, reports, sources, n - 1) + last_stats(
            slots[n - 1],
            reports[n - 1],
            sources[n - 1],
        )
    }
}

} // verus!
