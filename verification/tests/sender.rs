use srt_bench::deadlines::{AppDeadlineEntry, AppDeadlineKind, DeadlineIndex};
use srt_bench::limiter::ConnectLimiter;
use srt_bench::offering::Offering;
use srt_bench::shared_sender::{
    CallerReport, CallerState, DueAction, Leg, LegReport, SenderEffects, SenderTotals,
    SharedSender, SlotPhase, CONNECT_TIMEOUT_US, MAX_WAIT_US,
};
use srt_bench::stats::SourceStats;

/// How long a stream runs in these tests: an hour.
const STREAM_US: u64 = 3_600_000_000;

/// A sender with its limiter and a transport whose callers all report the same.
struct Bench {
    sender: SharedSender,
    limiter: ConnectLimiter,
    fx: SenderEffects,
    now_us: u64,
    next_caller: u64,
}

fn unsettled() -> CallerReport {
    CallerReport {
        state: CallerState::Unsettled,
        legs: None,
        send_wait_us: 0,
    }
}

fn connected(legs: usize, send_wait_us: u64) -> CallerReport {
    let leg = Leg {
        member_up: true,
        sender: Some(SenderTotals {
            total_sent: 10,
            total_retransmits: 1,
            packets_in_loss_list: 0,
        }),
    };
    CallerReport {
        state: CallerState::Connected,
        legs: Some(if legs == 1 {
            LegReport::Direct(leg)
        } else {
            LegReport::Group {
                pending_legs: 0,
                legs: vec![leg; legs],
            }
        }),
        send_wait_us,
    }
}

impl Bench {
    fn new(connections: usize, cc: usize, bonded_legs: usize) -> Self {
        let indices: Vec<usize> = (0..connections).collect();
        Bench {
            sender: SharedSender::new(bonded_legs, &indices),
            limiter: ConnectLimiter::new(cc),
            fx: SenderEffects::new(),
            now_us: 0,
            next_caller: 1,
        }
    }

    /// One tick, in the order in which the run loop takes its steps.
    fn tick(&mut self) {
        self.sender.begin_tick();
        while let Some(slot) = self.sender.start_next(&mut self.limiter, self.now_us) {
            let caller = self.next_caller;
            self.next_caller += 1;
            let legs = self.sender.slots[slot].physical_legs as u32;
            let first = 1000 + 2 * slot as u32;
            self.sender
                .install_caller(slot, caller, (first..first + legs).collect());
        }
        for slot in self.sender.drain_dirty() {
            self.sender.eval_slot_state(
                slot,
                &unsettled(),
                self.now_us,
                STREAM_US,
                &mut self.limiter,
                &mut self.fx,
            );
        }
        for entry in self.sender.take_due(self.now_us) {
            match self.sender.dispatch_due(entry, self.now_us) {
                DueAction::Ignore => {}
                DueAction::Send => {
                    self.sender.schedule_send(entry.slot, self.now_us, STREAM_US / 2);
                }
                DueAction::Close => {
                    self.sender
                        .close_slot(entry.slot, &mut self.limiter, &mut self.fx);
                }
                DueAction::TimeOut => {
                    self.sender
                        .timeout_slot(entry.slot, &None, &mut self.limiter, &mut self.fx);
                }
            }
        }
        let reports: Vec<CallerReport> =
            self.sender.in_flight_set.iter().map(|_| unsettled()).collect();
        self.sender.check_in_flight(
            &reports,
            self.now_us,
            STREAM_US,
            &mut self.limiter,
            &mut self.fx,
        );
        let reports: Vec<CallerReport> =
            self.sender.closing_set.iter().map(|_| unsettled()).collect();
        self.sender
            .check_closing(&reports, &mut self.limiter, &mut self.fx);
    }

    fn stream(&mut self, slot: usize) -> bool {
        let legs = self.sender.slots[slot].physical_legs;
        self.sender.transition_to_streaming(
            slot,
            &connected(legs, STREAM_US / 2),
            self.now_us,
            STREAM_US,
            &mut self.limiter,
            &mut self.fx,
        )
    }

    fn finalize(&mut self, slot: usize, torn_down: bool) {
        self.sender
            .finalize_slot(slot, torn_down, &None, &mut self.limiter, &mut self.fx);
    }
}

#[test]
fn shared_sender_done_is_o1() {
    let bench = Bench::new(100, 100, 0);
    assert!(!bench.sender.done());
    assert_eq!(bench.sender.terminal_count, 0);
}

#[test]
fn limiter_cc1_admits_one_at_a_time() {
    let mut bench = Bench::new(10, 1, 0);
    bench.tick();
    assert_eq!(bench.limiter.peak(), 1);
    assert_eq!(bench.limiter.started(), 1);
    assert_eq!(bench.sender.pending_start.len(), 9);
}

#[test]
fn limiter_cc4_admits_up_to_4() {
    let mut bench = Bench::new(10, 4, 0);
    bench.tick();
    assert!(bench.limiter.peak() <= 4);
    assert_eq!(bench.limiter.started(), 4);
    assert_eq!(bench.sender.pending_start.len(), 6);
}

#[test]
fn tick_cost_tracks_due_work_not_population() {
    fn visits_for(n: usize, due: usize) -> u64 {
        let mut bench = Bench::new(n, n, 0);
        bench.tick();
        bench.tick();
        bench.sender.force_all_connected();
        for slot in 0..due {
            bench.sender.force_arm_due_send(slot);
        }
        let before = bench.sender.sched_stats.slot_visits();
        bench.tick();
        bench.sender.sched_stats.slot_visits() - before
    }

    assert_eq!(visits_for(100, 0), 0, "a quiescent tick must visit nothing");
    assert_eq!(visits_for(4000, 0), 0, "still nothing at 40x the slots");
    assert_eq!(visits_for(100, 1), 1, "one due slot costs one visit");
    assert_eq!(
        visits_for(4000, 1),
        1,
        "one due slot still costs one visit at 40x the slots"
    );
    assert_eq!(visits_for(4000, 25), 25, "cost tracks due count");
}

#[test]
fn shared_sender_scheduler_memory_bounded() {
    let mut bench = Bench::new(100, 100, 0);
    for _ in 0..10 {
        bench.tick();
    }
    assert!(bench.sender.deadlines.len() <= 200);
}

#[test]
fn remove_deadline_uses_side_index() {
    let mut bench = Bench::new(10, 10, 0);
    bench.tick();
    let deadlines_before = bench.sender.deadlines.len();
    let side_before = bench.sender.deadlines.table_len();
    assert!(deadlines_before > 0, "should have ConnectTimeout deadlines");
    assert_eq!(
        deadlines_before, side_before,
        "side index must mirror BTreeSet"
    );
}

#[test]
fn slot_deadlines_and_app_deadlines_stay_in_sync() {
    let mut bench = Bench::new(50, 50, 0);
    for _ in 0..20 {
        bench.tick();
        assert_eq!(
            bench.sender.deadlines.table_len(),
            bench.sender.deadlines.len(),
            "side index diverged from BTreeSet after tick"
        );
    }
}

#[test]
fn close_slot_populates_closing_set() {
    let mut bench = Bench::new(5, 5, 0);
    bench.tick();
    assert!(
        bench.sender.closing_set.is_empty(),
        "no slots should be closing initially"
    );

    bench
        .sender
        .close_slot(0, &mut bench.limiter, &mut bench.fx);
    assert_eq!(
        bench.sender.closing_set.len(),
        1,
        "close_slot must push to closing_set"
    );
    assert_eq!(bench.sender.slots[0].phase, SlotPhase::Closing);
}

#[test]
fn check_closing_increments_closing_slot_visits() {
    let mut bench = Bench::new(3, 3, 0);
    bench.tick();
    bench
        .sender
        .close_slot(0, &mut bench.limiter, &mut bench.fx);
    bench
        .sender
        .close_slot(1, &mut bench.limiter, &mut bench.fx);
    assert_eq!(bench.sender.closing_set.len(), 2);

    let visits_before = bench.sender.sched_stats.closing_slot_visits;
    bench.sender.check_closing(
        &vec![unsettled(), unsettled()],
        &mut bench.limiter,
        &mut bench.fx,
    );
    assert!(
        bench.sender.sched_stats.closing_slot_visits > visits_before,
        "check_closing must visit closing slots"
    );
}

#[test]
fn closing_set_cleared_by_force_all_connected() {
    let mut bench = Bench::new(5, 5, 0);
    bench.tick();
    bench
        .sender
        .close_slot(0, &mut bench.limiter, &mut bench.fx);
    assert!(!bench.sender.closing_set.is_empty());

    bench.sender.force_all_connected();
    assert!(
        bench.sender.closing_set.is_empty(),
        "force_all_connected must clear closing_set"
    );
}

#[test]
fn force_all_connected_sets_all_streaming() {
    let mut bench = Bench::new(20, 20, 0);
    bench.tick();
    bench.tick();
    bench.sender.force_all_connected();

    for (i, slot) in bench.sender.slots.iter().enumerate() {
        assert_eq!(
            slot.phase,
            SlotPhase::Streaming,
            "slot {i} should be Streaming after force_all_connected"
        );
        assert_eq!(
            slot.held_handshake_tokens, 0,
            "slot {i} should have held tokens released"
        );
    }
    assert!(bench.sender.in_flight_set.is_empty());
    assert!(bench.sender.pending_start.is_empty());
    assert!(bench.sender.closing_set.is_empty());
}

#[test]
fn bonded_slot_has_physical_legs_gt_1() {
    let bench = Bench::new(2, 2, 2);
    assert_eq!(
        bench.sender.slots[0].physical_legs, 2,
        "bonded slot must have 2 physical legs"
    );
}

#[test]
fn quiescent_ticks_visit_no_slots() {
    let mut bench = Bench::new(10, 10, 0);
    bench.tick();
    bench.tick();
    bench.sender.force_all_connected();

    let visits_before = bench.sender.sched_stats.slot_visits();
    for _ in 0..10 {
        bench.tick();
    }
    assert_eq!(
        bench.sender.sched_stats.slot_visits(),
        visits_before,
        "ten quiescent ticks must visit no slots at all"
    );
    assert!(
        bench.sender.in_flight_set.is_empty(),
        "no in-flight after force_all_connected"
    );
    assert!(
        bench.sender.closing_set.is_empty(),
        "no closing after force_all_connected"
    );
}

#[test]
fn remove_deadline_idempotent_for_missing_slot() {
    let mut bench = Bench::new(5, 5, 0);
    bench.tick();
    let count_before = bench.sender.deadlines.len();
    bench
        .sender
        .deadlines
        .remove_deadline(999, AppDeadlineKind::Send);
    assert_eq!(
        bench.sender.deadlines.len(),
        count_before,
        "remove of nonexistent slot is a no-op"
    );
}

#[test]
fn remove_deadline_removes_from_both_indices() {
    let mut bench = Bench::new(5, 5, 0);
    bench.tick();
    let has_ct = bench
        .sender
        .deadlines
        .armed(0, AppDeadlineKind::ConnectTimeout)
        .is_some();
    assert!(has_ct, "slot 0 should have ConnectTimeout in side index");

    let before = bench.sender.deadlines.len();
    bench
        .sender
        .deadlines
        .remove_deadline(0, AppDeadlineKind::ConnectTimeout);
    assert!(
        bench
            .sender
            .deadlines
            .armed(0, AppDeadlineKind::ConnectTimeout)
            .is_none(),
        "side index entry must be removed"
    );
    assert_eq!(bench.sender.deadlines.len(), before - 1);
}

#[test]
fn next_wait_returns_zero_only_when_limiter_has_capacity() {
    let mut bench = Bench::new(4, 2, 0);
    // First tick: admits 2 slots into Handshaking (cc=2).
    bench.tick();
    assert_eq!(bench.limiter.in_flight(), 2);
    assert_eq!(bench.sender.pending_start.len(), 2);

    // Saturated: a pending start cannot proceed.
    assert!(!bench.limiter.can_acquire(1));
    assert_ne!(
        bench
            .sender
            .next_wait(&bench.limiter, bench.now_us, MAX_WAIT_US),
        0
    );

    // Release 1 permit from limiter directly: now can_acquire(1) is true.
    bench.limiter.release(1, true);
    assert!(bench.limiter.can_acquire(1));
    assert_eq!(
        bench
            .sender
            .next_wait(&bench.limiter, bench.now_us, MAX_WAIT_US),
        0
    );
}

#[test]
fn held_handshake_tokens_matches_phase_invariants() {
    let mut bench = Bench::new(4, 4, 2);
    // Slot 0 is bonded (physical_legs = 2), slot 1 is direct (physical_legs = 1).
    assert_eq!(bench.sender.slots[0].physical_legs, 2);
    assert_eq!(bench.sender.slots[1].physical_legs, 1);

    // Initially Pending: held_handshake_tokens == 0
    assert_eq!(bench.sender.slots[0].held_handshake_tokens, 0);
    assert_eq!(bench.sender.slots[1].held_handshake_tokens, 0);

    // Tick starts slots: slot 0 acquires 2 tokens, slot 1 acquires 1 token.
    bench.tick();
    assert_eq!(bench.sender.slots[0].phase, SlotPhase::Handshaking);
    assert_eq!(bench.sender.slots[0].held_handshake_tokens, 2);
    assert_eq!(bench.sender.slots[1].phase, SlotPhase::Handshaking);
    assert_eq!(bench.sender.slots[1].held_handshake_tokens, 1);

    // Transition slot 1 to streaming: held tokens released to 0.
    assert!(bench.stream(1));
    assert_eq!(bench.sender.slots[1].phase, SlotPhase::Streaming);
    assert_eq!(bench.sender.slots[1].held_handshake_tokens, 0);

    // Close slot 1: tokens remain 0.
    bench
        .sender
        .close_slot(1, &mut bench.limiter, &mut bench.fx);
    assert_eq!(bench.sender.slots[1].phase, SlotPhase::Closing);
    assert_eq!(bench.sender.slots[1].held_handshake_tokens, 0);
}

#[test]
fn due_scratch_processes_due_snapshot_and_reuses_storage() {
    let mut bench = Bench::new(5, 5, 0);
    bench.tick();
    // Inject 3 send deadlines into the past
    for slot in 0..3 {
        bench.sender.deadlines.arm(slot, AppDeadlineKind::Send, 0);
    }
    let visits_before = bench.sender.sched_stats.application_due_visits;
    let due = bench.sender.take_due(bench.now_us);
    for entry in due.iter().copied() {
        bench.sender.dispatch_due(entry, bench.now_us);
    }
    // Exactly 3 due visits processed
    assert_eq!(due.len(), 3);
    assert_eq!(
        bench.sender.sched_stats.application_due_visits - visits_before,
        3
    );
}

fn assert_timeout_invariants(bench: &Bench, caller: u64, sid: u32) {
    assert_eq!(bench.sender.slots[0].phase, SlotPhase::Closed);
    assert_eq!(bench.sender.slots[0].held_handshake_tokens, 0);
    assert!(bench.sender.slots[0].caller.is_none());
    assert!(bench.fx.remove.contains(&caller));
    assert!(!bench.sender.socket_id_to_slot.contains_key(&sid));
}

#[test]
fn timeout_slot_retires_caller_cleans_routes_and_frees_permit() {
    let mut bench = Bench::new(2, 1, 0);
    // Slot 0 starts, slot 1 is queued (cc=1).
    bench.tick();
    assert_eq!(bench.limiter.in_flight(), 1);
    assert_eq!(bench.sender.slots[0].phase, SlotPhase::Handshaking);
    assert_eq!(bench.sender.slots[0].held_handshake_tokens, 1);
    let caller = bench.sender.slots[0]
        .caller
        .expect("caller must be allocated");
    let sid = bench.sender.slots[0].socket_ids[0];
    assert!(bench.sender.socket_id_to_slot.contains_key(&sid));

    // Timeout slot 0
    bench
        .sender
        .timeout_slot(0, &None, &mut bench.limiter, &mut bench.fx);
    assert_timeout_invariants(&bench, caller, sid);
    assert_eq!(bench.limiter.in_flight(), 0);
    assert_eq!(bench.limiter.failed(), 1);

    // Late packets for the timed-out socket ID do not mark the slot dirty.
    bench.sender.feed(sid);
    assert!(
        bench.sender.dirty_ready.is_empty(),
        "late packet must not mark slot dirty"
    );

    // Next tick admits slot 1 now that the permit is freed.
    bench.tick();
    assert_eq!(bench.sender.slots[1].phase, SlotPhase::Handshaking);
    assert_eq!(bench.limiter.in_flight(), 1);
}

#[test]
fn a_handshake_times_out_by_its_own_deadline() {
    let mut bench = Bench::new(1, 1, 0);
    bench.now_us = 30_000_000;
    bench.tick();
    assert_eq!(bench.sender.slots[0].phase, SlotPhase::Handshaking);
    bench.now_us += CONNECT_TIMEOUT_US - 1;
    bench.tick();
    assert_eq!(bench.sender.slots[0].phase, SlotPhase::Handshaking);
    bench.now_us += 1;
    bench.tick();
    assert_eq!(bench.sender.slots[0].phase, SlotPhase::Closed);
    assert!(bench.sender.done());
}

/// Drive slot 0 to Streaming with a caller installed, returning its caller id and
/// socket id so retirement can be asserted afterwards.
fn streaming_slot_fixture(bench: &mut Bench) -> (u64, u32) {
    bench.tick();
    let caller = bench.sender.slots[0]
        .caller
        .expect("caller must be allocated");
    let sid = bench.sender.slots[0].socket_ids[0];
    assert!(bench.stream(0));
    assert!(bench.sender.slots[0].stats[0].connected);
    (caller, sid)
}

#[test]
fn unexpected_streaming_disconnect_retires_caller_and_routes() {
    let mut bench = Bench::new(2, 2, 0);
    let (caller, sid) = streaming_slot_fixture(&mut bench);
    assert!(bench.sender.socket_id_to_slot.contains_key(&sid));

    bench.finalize(0, true);

    assert_timeout_invariants(&bench, caller, sid);
    assert!(
        bench.sender.slots[0].stats[0].torn_down,
        "a mid-stream disconnect must be recorded as torn down"
    );

    // A late packet for the retired socket ID must not redirty the slot.
    bench.sender.feed(sid);
    assert!(
        bench.sender.dirty_ready.is_empty(),
        "late packet must not redirty a retired slot"
    );
    for kind in [
        AppDeadlineKind::Send,
        AppDeadlineKind::StreamEnd,
        AppDeadlineKind::ConnectTimeout,
    ] {
        assert!(
            bench.sender.deadlines.armed(0, kind).is_none(),
            "no protocol deadline may survive the disconnect"
        );
    }
}

#[test]
fn closing_to_disconnected_via_dirty_packet_retires_caller() {
    // A packet can report the disconnect before the closing set is walked; it must
    // retire the caller just the same.
    let mut bench = Bench::new(2, 2, 0);
    let (caller, sid) = streaming_slot_fixture(&mut bench);
    bench
        .sender
        .close_slot(0, &mut bench.limiter, &mut bench.fx);
    bench.sender.feed(sid);
    let gone = CallerReport {
        state: CallerState::Disconnected,
        legs: None,
        send_wait_us: 0,
    };
    for slot in bench.sender.drain_dirty() {
        bench.sender.eval_slot_state(
            slot,
            &gone,
            bench.now_us,
            STREAM_US,
            &mut bench.limiter,
            &mut bench.fx,
        );
    }
    assert_timeout_invariants(&bench, caller, sid);
}

#[test]
fn finalize_slot_is_idempotent() {
    let mut bench = Bench::new(2, 2, 0);
    let (caller, sid) = streaming_slot_fixture(&mut bench);

    bench.finalize(0, true);
    let terminal_after_first = bench.sender.terminal_count;
    let failed_after_first = bench.limiter.failed();

    // A second finalize and every alias for it must be no-ops.
    bench.finalize(0, true);
    bench.finalize(0, true);
    bench
        .sender
        .timeout_slot(0, &None, &mut bench.limiter, &mut bench.fx);
    bench.finalize(0, true);

    assert_eq!(bench.sender.terminal_count, terminal_after_first);
    assert_eq!(bench.limiter.failed(), failed_after_first);
    assert_timeout_invariants(&bench, caller, sid);
}

#[test]
fn every_terminal_path_leaves_no_caller_installed() {
    for name in ["timeout", "failed", "disconnected"] {
        let mut bench = Bench::new(2, 2, 0);
        let (caller, sid) = streaming_slot_fixture(&mut bench);

        if name == "timeout" {
            bench
                .sender
                .timeout_slot(0, &None, &mut bench.limiter, &mut bench.fx);
        } else {
            bench.finalize(0, true);
        }

        assert_eq!(bench.sender.slots[0].phase, SlotPhase::Closed, "{name}");
        assert!(
            bench.sender.slots[0].caller.is_none(),
            "{name}: caller retired"
        );
        assert!(
            bench.fx.remove.contains(&caller),
            "{name}: caller absent from CallerTable"
        );
        assert!(
            !bench.sender.socket_id_to_slot.contains_key(&sid),
            "{name}: socket route removed"
        );
    }
}

#[test]
fn population_scan_and_counter_agree_on_the_worst_case_fixture() {
    let mut bench = Bench::new(64, 64, 0);
    bench.tick();
    bench.sender.force_all_connected();
    let scan = |b: &Bench| b.sender.done_by_population_scan();

    // Only the last slot is live, so a scan cannot stop early.
    bench.sender.force_all_terminal_except_last();
    assert_eq!(bench.sender.terminal_count, 63);
    assert!(!bench.sender.done(), "one slot is still live");
    assert_eq!(
        bench.sender.done(),
        scan(&bench),
        "both implementations must agree"
    );

    // And they still agree once the final slot retires.
    bench.finalize(63, false);
    assert!(bench.sender.done());
    assert_eq!(bench.sender.done(), scan(&bench));
}

#[test]
fn what_was_sent_is_reported_per_leg() {
    let mut bench = Bench::new(3, 4, 2);
    bench.tick();
    assert!(bench.stream(0));
    bench.sender.record_sent(0, 2);
    bench.sender.record_sent(0, 1);
    let reports = vec![connected(2, 0).legs, None];
    let source = SourceStats {
        generated: 5,
        accepted: 4,
        refusal_polls: 0,
        blocked_streaks: 0,
        backlog_hwm: 1,
        overflow: 0,
    };
    let rows = bench.sender.finish(&reports, &vec![source, source]);
    assert_eq!(rows.len(), 3);
    assert!(rows[0].connected && rows[1].connected && !rows[2].connected);
    assert!(rows[0].has_source && !rows[1].has_source);
}

#[test]
fn deadlines_come_out_in_order() {
    let mut index = DeadlineIndex::new(3);
    index.arm(2, AppDeadlineKind::Send, 30);
    index.arm(0, AppDeadlineKind::Send, 10);
    index.arm(1, AppDeadlineKind::StreamEnd, 20);
    index.arm(0, AppDeadlineKind::Send, 25);
    assert_eq!(index.first().map(|e| e.deadline_us), Some(20));
    let due: Vec<AppDeadlineEntry> = index.take_due(25);
    assert_eq!(
        due.iter().map(|e| e.slot).collect::<Vec<usize>>(),
        [1, 0]
    );
    assert_eq!(index.len(), 1);
}

#[test]
fn offering_stops_at_the_first_refusal() {
    let mut bench = Bench::new(1, 1, 0);
    bench.tick();
    assert!(bench.stream(0));
    let mut round = Offering::new(5);
    let mut answers = vec![Some(1), Some(1), None].into_iter();
    while round.open() {
        round.answered(&mut bench.sender, 0, answers.next().unwrap());
    }
    assert_eq!((round.accepted, round.refused), (2, true));
    assert_eq!(bench.sender.slots[0].stats[0].data_events, 2);
    let mut all = Offering::new(1);
    all.answered(&mut bench.sender, 0, Some(1));
    assert!(!all.open() && !all.refused);
}
