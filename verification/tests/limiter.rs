use srt_bench::limiter::{release_and_wake, ConnectLimiter, HandshakeAdmission, HandshakePermit};
use srt_bench::shared_sender::CONNECT_TIMEOUT_US;

#[test]
fn limiter_try_acquire_and_release() {
    let mut lim = ConnectLimiter::new(4);
    assert!(lim.try_acquire(1));
    assert!(lim.try_acquire(1));
    assert!(lim.try_acquire(1));
    assert!(lim.try_acquire(1));
    assert!(!lim.try_acquire(1));
    assert_eq!(lim.in_flight(), 4);
    assert_eq!(lim.peak(), 4);
    lim.release(1, true);
    assert_eq!(lim.in_flight(), 3);
    assert!(lim.try_acquire(1));
    assert_eq!(lim.peak(), 4);
}

#[test]
fn limiter_bonded_pair_acquires_two_tokens() {
    let mut lim = ConnectLimiter::new(2);
    assert!(lim.try_acquire(2));
    assert!(!lim.try_acquire(1));
    assert_eq!(lim.in_flight(), 2);
    assert_eq!(lim.peak(), 2);
    lim.release(2, true);
    assert_eq!(lim.in_flight(), 0);
    assert!(lim.try_acquire(1));
}

#[test]
fn limiter_no_double_release() {
    let mut lim = ConnectLimiter::new(4);
    assert!(lim.try_acquire(2));
    lim.release(2, true);
    assert_eq!(lim.in_flight(), 0);
    assert_eq!(lim.completed(), 2);
    assert_eq!(lim.failed(), 0);
}

#[test]
fn limiter_failed_releases_tracked() {
    let mut lim = ConnectLimiter::new(4);
    assert!(lim.try_acquire(1));
    lim.release(1, false);
    assert_eq!(lim.failed(), 1);
    assert_eq!(lim.completed(), 0);
}

#[test]
fn limiter_peak_never_exceeds_limit() {
    let mut lim = ConnectLimiter::new(8);
    for _ in 0..8 {
        assert!(lim.try_acquire(1));
    }
    assert!(!lim.try_acquire(1));
    assert_eq!(lim.peak(), 8);
    lim.release(4, true);
    assert!(lim.try_acquire(3));
    assert_eq!(lim.peak(), 8);
}

#[test]
fn limiter_n_less_than_cc_peak_bounded_by_n() {
    let mut lim = ConnectLimiter::new(100);
    for _ in 0..5 {
        assert!(lim.try_acquire(1));
    }
    assert_eq!(lim.peak(), 5);
}

#[test]
fn handshake_permit_lifecycle_complete() {
    let mut lim = ConnectLimiter::new(2);
    let permit = HandshakePermit::try_acquire(&mut lim, 1).expect("acquire should succeed");
    assert_eq!(lim.in_flight(), 1);
    assert_eq!(lim.started(), 1);
    permit.complete(&mut lim);
    assert_eq!(lim.in_flight(), 0);
    assert_eq!(lim.completed(), 1);
    assert_eq!(lim.failed(), 0);
}

#[test]
fn handshake_permit_lifecycle_fail() {
    let mut lim = ConnectLimiter::new(2);
    let permit = HandshakePermit::try_acquire(&mut lim, 1).expect("acquire should succeed");
    assert_eq!(lim.in_flight(), 1);
    permit.fail(&mut lim);
    assert_eq!(lim.in_flight(), 0);
    assert_eq!(lim.completed(), 0);
    assert_eq!(lim.failed(), 1);
}

#[test]
fn handshake_permit_lifecycle_drop_leak_safety() {
    let mut lim = ConnectLimiter::new(2);
    {
        let mut permit = HandshakePermit::try_acquire(&mut lim, 2);
        assert!(permit.is_some(), "acquire 2");
        assert_eq!(lim.in_flight(), 2);
        // Settled as a drop settles it: neither completed nor failed by name.
        HandshakePermit::settle(&mut permit, &mut lim, false);
        // Settling again finds nothing left.
        HandshakePermit::settle(&mut permit, &mut lim, false);
    }
    assert_eq!(lim.in_flight(), 0, "drop must release in_flight tokens");
    assert_eq!(lim.failed(), 2, "drop must record tokens as failed");
    assert_eq!(lim.completed(), 0);
}

#[test]
fn handshake_permit_try_acquire_saturation() {
    let mut lim = ConnectLimiter::new(2);
    let p1 = HandshakePermit::try_acquire(&mut lim, 1).expect("p1");
    let p2 = HandshakePermit::try_acquire(&mut lim, 1).expect("p2");
    assert!(
        HandshakePermit::try_acquire(&mut lim, 1).is_none(),
        "saturated"
    );
    p1.complete(&mut lim);
    let p3 = HandshakePermit::try_acquire(&mut lim, 1).expect("p3 after release");
    p2.fail(&mut lim);
    p3.complete(&mut lim);
    assert_eq!(lim.in_flight(), 0);
    assert_eq!(lim.completed(), 2);
    assert_eq!(lim.failed(), 1);
}

#[test]
fn limiter_can_acquire_bounds_checks() {
    let mut lim = ConnectLimiter::new(4);
    assert!(lim.can_acquire(1));
    assert!(lim.can_acquire(4));
    assert!(!lim.can_acquire(5));
    assert!(lim.try_acquire(3));
    assert!(lim.can_acquire(1));
    assert!(!lim.can_acquire(2));
    assert!(!lim.can_acquire(usize::MAX));
}

#[test]
fn delayed_admission_receives_fresh_handshake_timeout() {
    // The benchmark started 30 seconds ago, longer than the connect timeout of 25.
    let benchmark_start: u64 = 0;
    let now: u64 = 30 * 1_000_000;
    let from_start = benchmark_start + CONNECT_TIMEOUT_US;
    assert!(
        now >= from_start,
        "old calculation would have expired immediately"
    );

    // Correct behavior: the deadline counts from the connection's own start.
    let connect_deadline = now + CONNECT_TIMEOUT_US;
    assert!(
        connect_deadline > now,
        "fresh deadline must be in the future"
    );
    let remaining = connect_deadline - now;
    assert!(
        remaining >= 24 * 1_000_000,
        "must receive full ~25s handshake window despite benchmark-level delay"
    );
}

/// Polls until admission, counting polls. Polling again without a wake would sleep
/// forever, so it fails.
fn poll_counting(lim: &mut ConnectLimiter, tokens: usize) -> (HandshakePermit, usize) {
    let mut admission = HandshakeAdmission::new(tokens);
    match admission.poll(lim, 1) {
        Some(permit) => (permit, 1),
        None => panic!("admission parked with no pending wake: it would sleep forever"),
    }
}

#[test]
fn admission_resolves_immediately_when_capacity_is_free() {
    let mut lim = ConnectLimiter::new(4);
    let (permit, polls) = poll_counting(&mut lim, 1);
    assert_eq!(polls, 1, "free capacity must not park the waiter");
    assert_eq!(lim.in_flight(), 1);
    permit.complete(&mut lim);
    assert_eq!(lim.in_flight(), 0);
}

#[test]
fn saturated_admission_parks_without_a_timer_and_wakes_on_release() {
    let mut lim = ConnectLimiter::new(1);
    let held = HandshakePermit::try_acquire(&mut lim, 1).expect("first permit");

    let mut pending = HandshakeAdmission::new(1);
    assert!(pending.poll(&mut lim, 7).is_none());
    assert_eq!(
        lim.parked_waiters(),
        1,
        "waiter must be parked, not spinning on a timer"
    );

    // Repolling without a release must not consume capacity or re-queue.
    assert!(pending.poll(&mut lim, 7).is_none());
    assert_eq!(lim.parked_waiters(), 1);

    let woken = held.complete(&mut lim);
    assert_eq!(woken, [7], "releasing a permit must wake the parked waiter");
    assert!(pending.poll(&mut lim, 7).is_some());
}

#[test]
fn release_wakes_only_as_many_waiters_as_capacity_admits() {
    const CC: usize = 4;
    const PENDING: usize = 4096;

    let mut lim = ConnectLimiter::new(CC);
    let mut held: Vec<HandshakePermit> = (0..CC)
        .map(|_| HandshakePermit::try_acquire(&mut lim, 1).expect("saturate"))
        .collect();

    let mut waiters: Vec<HandshakeAdmission> =
        (0..PENDING).map(|_| HandshakeAdmission::new(1)).collect();
    for (ticket, w) in waiters.iter_mut().enumerate() {
        assert!(w.poll(&mut lim, ticket as u64).is_none());
    }
    assert_eq!(lim.parked_waiters(), PENDING);
    let mut wakes = 0;

    // Release exactly one permit, keeping the other CC-1 held so the freed
    // capacity is 1.
    wakes += held.pop().expect("held permit").complete(&mut lim).len();
    assert_eq!(
        wakes, 1,
        "one freed permit must wake exactly one waiter, not {PENDING}"
    );
    assert_eq!(lim.granted_waiters(), 1, "exactly one waiter holds a grant");
    assert_eq!(
        lim.reserved_tokens(),
        1,
        "its token is reserved until it polls"
    );

    // Draining the remaining permits grants one waiter per freed token, never a
    // burst proportional to the pending population.
    while let Some(p) = held.pop() {
        wakes += p.complete(&mut lim).len();
    }
    assert_eq!(
        wakes, CC,
        "total wakeups must equal freed capacity, not scale with {PENDING} pending callers"
    );
}

#[test]
fn cancelling_a_granted_waiter_hands_the_grant_to_the_next_in_line() {
    // One permit held, A and B parked behind it. Releasing the permit grants A. A is
    // then cancelled before it is ever polled.
    let mut lim = ConnectLimiter::new(1);
    let held = HandshakePermit::try_acquire(&mut lim, 1).expect("saturate");

    let mut a = HandshakeAdmission::new(1);
    let mut b = HandshakeAdmission::new(1);
    assert!(a.poll(&mut lim, 1).is_none());
    assert!(b.poll(&mut lim, 2).is_none());
    let parked = lim.parked_waiters();
    assert_eq!(parked, 2);

    let woken = held.complete(&mut lim);
    assert_eq!(woken, [1], "A is granted and woken, B waits its turn");
    let reserved = lim.reserved_tokens();
    assert_eq!(
        reserved, 1,
        "A's grant must reserve its token so nothing else can take it"
    );

    // Cancel A without ever polling it.
    let woken = a.cancel(&mut lim);

    // A's reservation is returned and handed straight to B.
    assert_eq!(
        lim.reserved_tokens(),
        1,
        "the freed token is re-granted, not lost"
    );
    assert_eq!(
        lim.granted_waiters(),
        1,
        "and exactly one waiter (B) holds it"
    );
    assert_eq!(woken, [2], "B must be granted the capacity A never used");
    assert!(b.poll(&mut lim, 2).is_some());
}

#[test]
fn a_grant_is_not_stolen_by_an_arriving_caller() {
    let mut lim = ConnectLimiter::new(1);
    let held = HandshakePermit::try_acquire(&mut lim, 1).expect("saturate");
    let mut queued = HandshakeAdmission::new(1);
    assert!(queued.poll(&mut lim, 1).is_none());

    held.complete(&mut lim); // grants `queued`, reserving its token

    assert!(
        HandshakePermit::try_acquire(&mut lim, 1).is_none(),
        "reserved capacity must not be acquirable by a barging caller"
    );
    assert!(queued.poll(&mut lim, 1).is_some());
}

#[test]
fn sequential_admission_does_not_scan_the_queue_per_wakeup() {
    const N: usize = 512;

    let mut lim = ConnectLimiter::new(1);
    let mut waiters: Vec<HandshakeAdmission> = (0..N).map(|_| HandshakeAdmission::new(1)).collect();
    // First waiter takes the only permit; the rest park.
    let mut permit = None;
    for (ticket, w) in waiters.iter_mut().enumerate() {
        match w.poll(&mut lim, ticket as u64) {
            Some(p) if permit.is_none() => permit = Some(p),
            Some(_) => panic!("cc=1 admitted twice"),
            None => {}
        }
    }
    assert_eq!(lim.parked_waiters(), N - 1);

    // Drain sequentially: each completion grants exactly the next waiter.
    let mut held = permit.expect("first admission");
    for (ticket, w) in waiters.iter_mut().enumerate().skip(1) {
        held.complete(&mut lim);
        held = match w.poll(&mut lim, ticket as u64) {
            Some(p) => p,
            None => panic!("granted waiter must be ready"),
        };
    }
    held.complete(&mut lim);

    let steps = lim.fifo_steps();
    assert!(
        steps <= (4 * N) as u64,
        "admission traversal must stay linear: {steps} fifo steps for N={N} \
         (a per-wakeup queue scan would be ~{})",
        N * N / 2
    );
}

#[test]
fn no_ordering_of_release_poll_and_cancel_can_strand_capacity() {
    // Each waiter is either polled or cancelled, in either order.
    for a_polls in [true, false] {
        for b_polls in [true, false] {
            for a_first in [true, false] {
                let outcome = run_admission_ordering(a_polls, b_polls, a_first);
                let label = format!("a_polls={a_polls} b_polls={b_polls} a_first={a_first}");
                assert!(
                    outcome.in_flight + outcome.reserved <= 1,
                    "{label}: capacity overcommitted"
                );
                assert!(
                    outcome.parked == 0 || outcome.in_flight + outcome.reserved > 0,
                    "{label}: a waiter is parked while all capacity is idle -- \
                     that waiter can never be woken"
                );
            }
        }
    }
}

struct AdmissionOutcome {
    parked: usize,
    reserved: usize,
    in_flight: usize,
}

/// One token with two queued waiters: release the permit (granting A), then act on A
/// and B in the requested order and report the limiter state.
fn run_admission_ordering(a_polls: bool, b_polls: bool, a_first: bool) -> AdmissionOutcome {
    let mut lim = ConnectLimiter::new(1);
    let held = HandshakePermit::try_acquire(&mut lim, 1).expect("saturate");

    let mut a = HandshakeAdmission::new(1);
    let mut b = HandshakeAdmission::new(1);
    assert!(a.poll(&mut lim, 1).is_none());
    assert!(b.poll(&mut lim, 2).is_none());
    held.complete(&mut lim);

    let mut permits: Vec<HandshakePermit> = Vec::new();
    let mut act = |mut f: HandshakeAdmission, ticket: u64, polls: bool, lim: &mut ConnectLimiter| {
        if !polls {
            f.cancel(lim);
        } else if let Some(p) = f.poll(lim, ticket) {
            permits.push(p);
        }
    };
    if a_first {
        act(a, 1, a_polls, &mut lim);
        act(b, 2, b_polls, &mut lim);
    } else {
        act(b, 2, b_polls, &mut lim);
        act(a, 1, a_polls, &mut lim);
    }
    AdmissionOutcome {
        parked: lim.parked_waiters(),
        reserved: lim.reserved_tokens(),
        in_flight: lim.in_flight(),
    }
}

#[test]
fn wake_budget_accounts_for_multi_token_waiters() {
    // A bonded waiter needs two tokens. Freeing one must not wake it.
    let mut lim = ConnectLimiter::new(2);
    let a = HandshakePermit::try_acquire(&mut lim, 1).expect("a");
    let b = HandshakePermit::try_acquire(&mut lim, 1).expect("b");

    let mut bonded = HandshakeAdmission::new(2);
    assert!(bonded.poll(&mut lim, 1).is_none());

    assert_eq!(
        a.complete(&mut lim).len(),
        0,
        "one free token cannot admit a two-token waiter"
    );
    assert_eq!(
        b.complete(&mut lim).len(),
        1,
        "the second token completes the budget and wakes it"
    );
    assert!(bonded.poll(&mut lim, 1).is_some());
}

#[test]
fn dropping_a_parked_admission_frees_its_wake_slot() {
    let mut lim = ConnectLimiter::new(1);
    let held = HandshakePermit::try_acquire(&mut lim, 1).expect("saturate");

    let mut cancelled = HandshakeAdmission::new(1);
    assert!(cancelled.poll(&mut lim, 1).is_none());
    assert_eq!(lim.parked_waiters(), 1);

    // A cancelled waiter must not keep consuming wake slots that a live waiter needs.
    cancelled.cancel(&mut lim);
    assert_eq!(lim.parked_waiters(), 0);

    held.complete(&mut lim);
    let (permit, polls) = poll_counting(&mut lim, 1);
    assert_eq!(polls, 1);
    permit.complete(&mut lim);
}

#[test]
fn waiters_are_granted_in_the_order_of_their_arrival() {
    let mut lim = ConnectLimiter::new(1);
    assert!(lim.try_acquire(1));
    let mut queue: Vec<HandshakeAdmission> = (0..3).map(|_| HandshakeAdmission::new(1)).collect();
    for (ticket, w) in queue.iter_mut().enumerate() {
        assert!(w.poll(&mut lim, 10 + ticket as u64).is_none());
    }
    let mut order = release_and_wake(&mut lim, 1, true);
    for (ticket, w) in queue.iter_mut().enumerate() {
        let permit = w.poll(&mut lim, 10 + ticket as u64).expect("granted");
        order.extend(permit.complete(&mut lim));
    }
    assert_eq!(order, [10, 11, 12]);
}

#[test]
fn accounting_adds_up_over_many_steps() {
    let mut lim = ConnectLimiter::new(5);
    let mut held: Vec<usize> = Vec::new();
    let mut state: u64 = 1;
    for _ in 0..2000 {
        state = state
            .wrapping_mul(6_364_136_223_846_793_005)
            .wrapping_add(1_442_695_040_888_963_407);
        let tokens = 1 + (state >> 40) as usize % 2;
        if (state >> 33) % 3 > 0 {
            let predicted = lim.can_acquire(tokens);
            let actual = lim.try_acquire(tokens);
            assert_eq!(predicted, actual);
            if actual {
                held.push(tokens);
            }
        } else if let Some(t) = held.pop() {
            lim.release(t, (state >> 50) % 2 == 0);
        }
        assert!(lim.in_flight() + lim.reserved_tokens() <= 5);
        assert!(lim.peak() <= 5);
        assert_eq!(lim.in_flight(), held.iter().sum::<usize>());
    }
    for t in held.drain(..) {
        lim.release(t, true);
    }
    assert_eq!(lim.in_flight(), 0);
    assert_eq!(lim.started(), lim.completed() + lim.failed());
}
