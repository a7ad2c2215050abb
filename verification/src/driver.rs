//! The decisions of a blocking driver of one connection: which timers are due, what
//! is reported, when the connect action runs, and when to stop.
//!
//! Whoever runs the loop owns the connection, its socket and the clock, and hands in
//! what they say. All times are microseconds since the start.
use crate::text::{decimal, lemma_texts_push, render, texts};
use vstd::prelude::*;

verus! {

/// A timer of the connection.
#[derive(Clone, Copy, PartialEq, Eq, Debug, Structural)]
pub enum TimerKind {
    Ack,
    Nak,
    Keepalive,
    Retransmit,
    Handshake,
    Inactivity,
}

/// An armed timer.
#[derive(Clone, Copy, PartialEq, Eq, Debug, Structural)]
pub struct Timer {
    pub kind: TimerKind,
    pub due_us: u64,
}

/// The armed timers, each kind at most once.
#[derive(Debug)]
pub struct Timers {
    armed: Vec<Timer>,
}

/// When each armed timer is due.
pub open spec fn due_times(armed: Seq<Timer>) -> Map<TimerKind, u64> {
    Map::new(
        |k: TimerKind| exists|i: int| 0 <= i < armed.len() && (#[trigger] armed[i]).kind == k,
        |k: TimerKind|
            armed[choose|i: int| 0 <= i < armed.len() && (#[trigger] armed[i]).kind == k].due_us,
    )
}

pub open spec fn kinds_differ(armed: Seq<Timer>) -> bool {
    forall|i: int, j: int|
        0 <= i < armed.len() && 0 <= j < armed.len() && i != j ==> (#[trigger] armed[i]).kind != (
        #[trigger] armed[j]).kind
}

proof fn lemma_due_time(armed: Seq<Timer>, i: int)
    requires
        kinds_differ(armed),
        0 <= i < armed.len(),
    ensures
        due_times(armed).contains_key(armed[i].kind),
        due_times(armed)[armed[i].kind] == armed[i].due_us,
{
    let k = armed[i].kind;
    let j = choose|j: int| 0 <= j < armed.len() && (#[trigger] armed[j]).kind == k;
    assert(armed[i].kind == k);
    if i != j {
        assert(armed[j].kind != armed[i].kind);
    }
}

impl View for Timers {
    type V = Map<TimerKind, u64>;

    closed spec fn view(&self) -> Map<TimerKind, u64> {
        due_times(self.armed@)
    }
}

impl Timers {
    pub closed spec fn wf(&self) -> bool {
        kinds_differ(self.armed@)
    }

    pub fn new() -> (r: Self)
        ensures
            r.wf(),
            r@ == Map::<TimerKind, u64>::empty(),
    {
        let r = Timers { armed: Vec::new() };
        assert(r@ =~= Map::<TimerKind, u64>::empty());
        r
    }

    /// Disarms a timer.
    pub fn clear(&mut self, kind: TimerKind)
        requires
            old(self).wf(),
        ensures
            final(self).wf(),
            final(self)@ == old(self)@.remove(kind),
    {
        let ghost start = self.armed@;
        let mut i: usize = 0;
        while i < self.armed.len()
            invariant
                i <= self.armed@.len(),
                self.armed@ == start,
                start == old(self).armed@,
                kinds_differ(start),
                forall|j: int| 0 <= j < i ==> (#[trigger] start[j]).kind != kind,
            decreases self.armed@.len() - i,
        {
            if self.armed[i].kind == kind {
                let _ = self.armed.remove(i);
                proof {
                    lemma_removed(start, i as int);
                }
                return;
            }
            i += 1;
        }
        assert(self@ =~= old(self)@.remove(kind));
    }

    /// Arms a timer, again if it is armed.
    pub fn set(&mut self, kind: TimerKind, now_us: u64, duration_us: u64)
        requires
            old(self).wf(),
        ensures
            final(self).wf(),
            final(self)@ == old(self)@.insert(kind, later(now_us, duration_us)),
    {
        self.clear(kind);
        let ghost before = self.armed@;
        let timer = Timer { kind, due_us: now_us.saturating_add(duration_us) };
        self.armed.push(timer);
        proof {
            assert forall|i: int| 0 <= i < before.len() implies (#[trigger] before[i]).kind
                != kind by {
                if before[i].kind == kind {
                    assert(due_times(before).contains_key(kind));
                }
            }
            let after = self.armed@;
            assert forall|i: int, j: int|
                0 <= i < after.len() && 0 <= j < after.len() && i != j implies (
            #[trigger] after[i]).kind != (#[trigger] after[j]).kind by {
                if i < before.len() {
                    assert(after[i] == before[i]);
                }
                if j < before.len() {
                    assert(after[j] == before[j]);
                }
            }
            let a = due_times(after);
            let b = due_times(before).insert(kind, timer.due_us);
            assert(after[before.len() as int] == timer);
            lemma_due_time(after, before.len() as int);
            assert forall|k: TimerKind| #[trigger] b.dom().contains(k) implies a.dom().contains(k)
                && a[k] == b[k] by {
                if k != kind {
                    assert(due_times(before).contains_key(k));
                    let i = choose|i: int|
                        0 <= i < before.len() && (#[trigger] before[i]).kind == k;
                    assert(after[i] == before[i]);
                    lemma_due_time(after, i);
                    lemma_due_time(before, i);
                }
            }
            assert forall|k: TimerKind| #[trigger] a.dom().contains(k) implies b.dom().contains(
                k,
            ) by {
                if k != kind {
                    let i = choose|i: int| 0 <= i < after.len() && (#[trigger] after[i]).kind == k;
                    assert(after[i] == before[i]);
                }
            }
            assert(a =~= b);
        }
    }

    /// Takes the timers that are due: they are disarmed, and fire once each.
    pub fn take_due(&mut self, now_us: u64) -> (r: Vec<TimerKind>)
        requires
            old(self).wf(),
        ensures
            final(self).wf(),
            r@.no_duplicates(),
            forall|k: TimerKind| #[trigger]
                r@.contains(k) <==> old(self)@.contains_key(k) && old(self)@[k] <= now_us,
            final(self)@ == old(self)@.remove_keys(r@.to_set()),
    {
        let ghost start = self.armed@;
        let mut due: Vec<TimerKind> = Vec::new();
        let mut i: usize = 0;
        while i < self.armed.len()
            invariant
                i <= self.armed@.len(),
                self.armed@ == start,
                kinds_differ(start),
                due@.no_duplicates(),
                forall|j: int|
                    0 <= j < due@.len() ==> exists|k: int|
                        0 <= k < i && (#[trigger] start[k]).kind == #[trigger] due@[j]
                            && start[k].due_us <= now_us,
                forall|k: int|
                    0 <= k < i && (#[trigger] start[k]).due_us <= now_us ==> due@.contains(
                        start[k].kind,
                    ),
            decreases self.armed@.len() - i,
        {
            let timer = self.armed[i];
            if timer.due_us <= now_us {
                let ghost before = due@;
                proof {
                    if before.contains(timer.kind) {
                        let j = choose|j: int| 0 <= j < before.len() && before[j] == timer.kind;
                        let k = choose|k: int|
                            0 <= k < i && (#[trigger] start[k]).kind == before[j]
                                && start[k].due_us <= now_us;
                        assert(start[k].kind != start[i as int].kind);
                    }
                }
                due.push(timer.kind);
                proof {
                    assert forall|j: int| 0 <= j < due@.len() implies exists|k: int|
                        0 <= k < i + 1 && (#[trigger] start[k]).kind == #[trigger] due@[j]
                            && start[k].due_us <= now_us by {
                        if j < before.len() {
                            let k = choose|k: int|
                                0 <= k < i && (#[trigger] start[k]).kind == before[j]
                                    && start[k].due_us <= now_us;
                            assert(start[k].kind == due@[j]);
                        } else {
                            assert(start[i as int].kind == due@[j]);
                        }
                    }
                    assert forall|k: int|
                        0 <= k < i + 1 && (#[trigger] start[k]).due_us
                            <= now_us implies due@.contains(start[k].kind) by {
                        if k < i {
                            let j = choose|j: int|
                                0 <= j < before.len() && before[j] == start[k].kind;
                            assert(due@[j] == start[k].kind);
                        } else {
                            assert(due@[before.len() as int] == start[k].kind);
                        }
                    }
                }
            }
            i += 1;
        }
        proof {
            assert forall|k: TimerKind| #[trigger]
                due@.contains(k) <==> due_times(start).contains_key(k) && due_times(start)[k]
                    <= now_us by {
                if due@.contains(k) {
                    let j = choose|j: int| 0 <= j < due@.len() && due@[j] == k;
                    let n = choose|n: int|
                        0 <= n < i && (#[trigger] start[n]).kind == due@[j] && start[n].due_us
                            <= now_us;
                    lemma_due_time(start, n);
                }
                if due_times(start).contains_key(k) && due_times(start)[k] <= now_us {
                    let n = choose|n: int| 0 <= n < start.len() && (#[trigger] start[n]).kind == k;
                    lemma_due_time(start, n);
                }
            }
        }
        let mut j: usize = 0;
        while j < due.len()
            invariant
                j <= due@.len(),
                self.wf(),
                self@ == due_times(start).remove_keys(due@.take(j as int).to_set()),
            decreases due@.len() - j,
        {
            let ghost before = self@;
            self.clear(due[j]);
            proof {
                assert(due@.take(j + 1) =~= due@.take(j as int).push(due@[j as int]));
                let less = due@.take(j as int).to_set();
                let more = due@.take(j + 1).to_set();
                assert forall|k: TimerKind| #[trigger]
                    more.contains(k) <==> less.contains(k) || k == due@[j as int] by {
                    lemma_taken(due@, j as int, k);
                }
                assert(more =~= less.insert(due@[j as int]));
                assert(due_times(start).remove_keys(more) =~= due_times(start).remove_keys(
                    less,
                ).remove(due@[j as int]));
                assert(self@ =~= due_times(start).remove_keys(due@.take(j + 1).to_set()));
            }
            j += 1;
        }
        assert(due@.take(due@.len() as int) =~= due@);
        due
    }
}

proof fn lemma_taken(all: Seq<TimerKind>, j: int, k: TimerKind)
    requires
        0 <= j < all.len(),
    ensures
        all.take(j + 1).contains(k) <==> all.take(j).contains(k) || k == all[j],
{
    let more = all.take(j + 1);
    if more.contains(k) {
        let n = choose|n: int| 0 <= n < more.len() && more[n] == k;
        if n < j {
            assert(all.take(j)[n] == k);
        }
    }
    if all.take(j).contains(k) {
        let n = choose|n: int| 0 <= n < j && all.take(j)[n] == k;
        assert(more[n] == k);
    }
    assert(more[j] == all[j]);
}

proof fn lemma_removed(start: Seq<Timer>, i: int)
    requires
        kinds_differ(start),
        0 <= i < start.len(),
    ensures
        kinds_differ(start.remove(i)),
        due_times(start.remove(i)) == due_times(start).remove(start[i].kind),
{
    let after = start.remove(i);
    assert forall|a: int, b: int|
        0 <= a < after.len() && 0 <= b < after.len() && a != b implies (#[trigger] after[a]).kind
        != (#[trigger] after[b]).kind by {
        let x = if a < i {
            a
        } else {
            a + 1
        };
        let y = if b < i {
            b
        } else {
            b + 1
        };
        assert(after[a] == start[x] && after[b] == start[y]);
    }
    assert forall|k: TimerKind| due_times(after).contains_key(k) implies due_times(
        start,
    ).contains_key(k) && k != start[i].kind && due_times(after)[k] == due_times(start)[k] by {
        let a = choose|a: int| 0 <= a < after.len() && (#[trigger] after[a]).kind == k;
        let x = if a < i {
            a
        } else {
            a + 1
        };
        assert(after[a] == start[x]);
        lemma_due_time(after, a);
        lemma_due_time(start, x);
        assert(start[x].kind != start[i].kind);
    }
    assert forall|k: TimerKind|
        due_times(start).contains_key(k) && k != start[i].kind implies due_times(
        after,
    ).contains_key(k) by {
        let x = choose|x: int| 0 <= x < start.len() && (#[trigger] start[x]).kind == k;
        let a = if x < i {
            x
        } else {
            x - 1
        };
        assert(after[a] == start[x]);
    }
    assert(due_times(after) =~= due_times(start).remove(start[i].kind));
}

/// A time after another, never past the end of time.
pub open spec fn later(now_us: u64, duration_us: u64) -> u64 {
    if now_us + duration_us > u64::MAX {
        u64::MAX
    } else {
        (now_us + duration_us) as u64
    }
}

/// What the connection reports.
#[derive(Debug)]
pub enum DriverEvent {
    Connected,
    DataReceived(Vec<u8>),
    Disconnected(String),
    Error(String),
    /// Anything else, described.
    Other(String),
}

/// What a run came to.
#[derive(Debug)]
pub struct DriverResult {
    pub connected: bool,
    pub events: Vec<String>,
    pub received_payloads: Vec<Vec<u8>>,
}

/// The state of a run.
#[derive(Debug)]
pub struct Driver {
    pub timers: Timers,
    pub connected: bool,
    pub events: Vec<String>,
    pub received_payloads: Vec<Vec<u8>>,
    pub connect_action_done: bool,
    pub linger_until_us: Option<u64>,
    pub deadline_us: u64,
    pub linger_us: u64,
}

/// How an event is logged.
pub open spec fn event_text(e: DriverEvent) -> Seq<char> {
    match e {
        DriverEvent::Connected => "Connected"@,
        DriverEvent::DataReceived(payload) => "DataReceived("@ + decimal(payload@.len())
            + " bytes)"@,
        DriverEvent::Disconnected(reason) => "Disconnected: "@ + reason@,
        DriverEvent::Error(message) => "Error: "@ + message@,
        DriverEvent::Other(text) => text@,
    }
}

/// `now` is `was` with one more event taken in.
pub open spec fn heard(was: Driver, now: Driver, event: DriverEvent) -> bool {
    &&& texts(now.events@) == texts(was.events@).push(event_text(event))
    &&& now.connected == (was.connected || event is Connected)
    &&& now.payloads() == match event {
        DriverEvent::DataReceived(payload) => was.payloads().push(payload@),
        _ => was.payloads(),
    }
    &&& (Driver {
        events: was.events,
        connected: was.connected,
        received_payloads: was.received_payloads,
        ..now
    }) == was
}

impl Driver {
    /// The payloads, byte for byte.
    pub open spec fn payloads(&self) -> Seq<Seq<u8>> {
        self.received_payloads@.map_values(|p: Vec<u8>| p@)
    }

    pub fn new(deadline_us: u64, linger_us: u64) -> (r: Self)
        ensures
            r.timers.wf(),
            r.timers@ == Map::<TimerKind, u64>::empty(),
            !r.connected,
            r.events@.len() == 0,
            r.payloads() == Seq::<Seq<u8>>::empty(),
            !r.connect_action_done,
            r.linger_until_us is None,
            r.deadline_us == deadline_us,
            r.linger_us == linger_us,
    {
        let r = Driver {
            timers: Timers::new(),
            connected: false,
            events: Vec::new(),
            received_payloads: Vec::new(),
            connect_action_done: false,
            linger_until_us: None,
            deadline_us,
            linger_us,
        };
        assert(r.payloads() =~= Seq::<Seq<u8>>::empty());
        r
    }

    /// Logs what went wrong outside.
    pub fn note(&mut self, text: String)
        ensures
            texts(final(self).events@) == texts(old(self).events@).push(text@),
            (Driver { events: old(self).events, ..*final(self) }) == *old(self),
    {
        proof {
            lemma_texts_push(self.events@, text);
        }
        self.events.push(text);
    }

    /// Whether the run's time is up, which is logged.
    pub fn timed_out(&mut self, now_us: u64) -> (r: bool)
        ensures
            r == (now_us >= old(self).deadline_us),
            texts(final(self).events@) == if r {
                texts(old(self).events@).push("TIMEOUT"@)
            } else {
                texts(old(self).events@)
            },
            (Driver { events: old(self).events, ..*final(self) }) == *old(self),
    {
        if now_us >= self.deadline_us {
            self.note("TIMEOUT".to_owned());
            true
        } else {
            false
        }
    }

    /// Takes in what the connection reports.
    pub fn on_event(&mut self, event: DriverEvent)
        ensures
            heard(*old(self), *final(self), event),
    {
        match event {
            DriverEvent::Connected => {
                self.connected = true;
                self.note("Connected".to_owned());
            },
            DriverEvent::DataReceived(payload) => {
                let mut text = "DataReceived(".to_owned();
                text.append(render(payload.len() as u64).as_str());
                text.append(" bytes)");
                self.note(text);
                let ghost before = self.payloads();
                self.received_payloads.push(payload);
                assert(self.payloads() =~= before.push(payload@));
            },
            DriverEvent::Disconnected(reason) => {
                let mut text = "Disconnected: ".to_owned();
                text.append(reason.as_str());
                self.note(text);
            },
            DriverEvent::Error(message) => {
                let mut text = "Error: ".to_owned();
                text.append(message.as_str());
                self.note(text);
            },
            DriverEvent::Other(text) => {
                self.note(text);
            },
        }
    }

    /// Whether the connect action is to run now: once, when the connection is up.
    pub fn begin_connect_action(&mut self) -> (r: bool)
        ensures
            r == (old(self).connected && !old(self).connect_action_done),
            final(self).connect_action_done == (old(self).connect_action_done || r),
            (Driver { connect_action_done: old(self).connect_action_done, ..*final(self) })
                == *old(self),
    {
        if self.connected && !self.connect_action_done {
            self.connect_action_done = true;
            true
        } else {
            false
        }
    }

    /// The connect action has run: from here on the run lingers.
    pub fn connect_action_ran(&mut self, now_us: u64)
        ensures
            final(self).linger_until_us == Some(later(now_us, old(self).linger_us)),
            (Driver { linger_until_us: old(self).linger_until_us, ..*final(self) })
                == *old(self),
    {
        self.linger_until_us = Some(now_us.saturating_add(self.linger_us));
    }

    /// Whether the run has lingered long enough.
    pub fn lingered(&self, now_us: u64) -> (r: bool)
        ensures
            r == match self.linger_until_us {
                Some(until) => now_us >= until,
                None => false,
            },
    {
        match self.linger_until_us {
            Some(until) => now_us >= until,
            None => false,
        }
    }

    /// What the run came to.
    pub fn finish(self) -> (r: DriverResult)
        ensures
            r.connected == self.connected,
            r.events == self.events,
            r.received_payloads == self.received_payloads,
    {
        DriverResult {
            connected: self.connected,
            events: self.events,
            received_payloads: self.received_payloads,
        }
    }
}

} // verus!
