//! Admission control for physical SRT handshakes.
//!
//! `--connect-concurrency N` means: at most N physical caller handshakes may
//! exist at once across the entire sender process. A caller that cannot start
//! parks a wake ticket and sleeps until capacity has been set aside for it.
use std::collections::{HashMap, VecDeque};
use vstd::prelude::*;
use vstd::std_specs::hash::*;

verus! {

broadcast use group_hash_axioms;

/// One admission waiter.
#[derive(Clone, Copy, Debug)]
pub struct Waiter {
    /// Tokens this waiter needs: two for a bonded pair, one otherwise.
    pub tokens: usize,
    /// What to hand back when this waiter is to be woken.
    pub ticket: u64,
    /// Set once capacity has been reserved for this waiter.
    pub granted: bool,
}

/// Process-global limiter for simultaneously in-flight physical SRT handshakes.
/// A bonded two-leg group consumes two tokens atomically.
#[derive(Debug)]
pub struct ConnectLimiter {
    limit: usize,
    in_flight: usize,
    peak: usize,
    started: usize,
    completed: usize,
    failed: usize,
    /// Admission order. Holds waiter ids, and may also hold tombstones: ids whose
    /// waiter has since been cancelled. Popping skips them, which keeps removal
    /// O(1) instead of scanning the queue.
    fifo: VecDeque<u64>,
    /// Live waiters by id.
    waiters: HashMap<u64, Waiter>,
    /// Monotonic waiter id source. Never wraps: a reused id could match a stale
    /// tombstone with a live waiter.
    next_waiter_id: u64,
    /// Tokens promised to granted waiters that have not run yet.
    reserved: usize,
    /// Queue entries examined so far (stops at the maximum).
    fifo_steps: u64,
}

/// What a limiter stands for.
pub struct LimiterState {
    pub limit: nat,
    pub in_flight: nat,
    /// Tokens promised to granted waiters.
    pub reserved: nat,
    pub peak: nat,
    pub started: nat,
    pub completed: nat,
    pub failed: nat,
    /// Waiters that have no capacity yet, longest waiting first.
    pub queue: Seq<u64>,
    /// All waiters, granted or not.
    pub waiters: Map<u64, Waiter>,
    /// Every id below this one has been given out.
    pub next_id: u64,
}

/// Tokens that `w` holds a promise of.
pub open spec fn promise(w: Waiter) -> nat {
    if w.granted {
        w.tokens as nat
    } else {
        0
    }
}

/// Sum of the promises in `m`.
pub open spec fn promised(m: Map<u64, Waiter>) -> nat
    decreases m.dom().len(),
    when m.dom().finite()
{
    if m.dom().len() == 0 {
        0
    } else {
        let k = m.dom().choose();
        promise(m[k]) + promised(m.remove(k))
    }
}

proof fn lemma_promised_remove(m: Map<u64, Waiter>, k: u64)
    requires
        m.dom().finite(),
        m.contains_key(k),
    ensures
        promised(m) == promise(m[k]) + promised(m.remove(k)),
    decreases m.dom().len(),
{
    let c = m.dom().choose();
    assert(m.dom().contains(c));
    if c != k {
        lemma_promised_remove(m.remove(c), k);
        lemma_promised_remove(m.remove(k), c);
        assert(m.remove(c).remove(k) =~= m.remove(k).remove(c));
    }
}

proof fn lemma_promised_insert(m: Map<u64, Waiter>, k: u64, w: Waiter)
    requires
        m.dom().finite(),
    ensures
        m.contains_key(k) ==> promised(m.insert(k, w)) + promise(m[k]) == promised(m) + promise(w),
        !m.contains_key(k) ==> promised(m.insert(k, w)) == promised(m) + promise(w),
{
    let after = m.insert(k, w);
    lemma_promised_remove(after, k);
    if m.contains_key(k) {
        lemma_promised_remove(m, k);
        assert(after.remove(k) =~= m.remove(k));
    } else {
        assert(after.remove(k) =~= m);
    }
}

/// The waiters that `budget` tokens admit: from the front of `queue`, each one
/// that fits in what its predecessors left, until one does not.
pub open spec fn admissible(queue: Seq<u64>, waiters: Map<u64, Waiter>, budget: nat) -> Seq<u64>
    decreases queue.len(),
{
    if queue.len() == 0 || budget == 0 || waiters[queue[0]].tokens > budget {
        Seq::empty()
    } else {
        seq![queue[0]] + admissible(
            queue.drop_first(),
            waiters,
            (budget - waiters[queue[0]].tokens) as nat,
        )
    }
}

/// Tokens that the waiters of `ids` need together.
pub open spec fn demand(ids: Seq<u64>, waiters: Map<u64, Waiter>) -> nat
    decreases ids.len(),
{
    if ids.len() == 0 {
        0
    } else {
        waiters[ids[0]].tokens as nat + demand(ids.drop_first(), waiters)
    }
}

/// `waiters` with the grant given to each of `ids`.
pub open spec fn grant_all(waiters: Map<u64, Waiter>, ids: Seq<u64>) -> Map<u64, Waiter> {
    Map::new(
        |k: u64| waiters.contains_key(k),
        |k: u64| if ids.contains(k) {
            Waiter { granted: true, ..waiters[k] }
        } else {
            waiters[k]
        },
    )
}

/// A grant is bounded by the budget and is a prefix of the queue.
pub proof fn admissible_fits(queue: Seq<u64>, waiters: Map<u64, Waiter>, budget: nat)
    ensures
        admissible(queue, waiters, budget).len() <= queue.len(),
        admissible(queue, waiters, budget) == queue.take(
            admissible(queue, waiters, budget).len() as int,
        ),
        demand(admissible(queue, waiters, budget), waiters) <= budget,
        ({
            let n = admissible(queue, waiters, budget).len() as int;
            let left = budget - demand(admissible(queue, waiters, budget), waiters);
            n < queue.len() ==> left == 0 || waiters[queue[n]].tokens > left
        }),
    decreases queue.len(),
{
    let ids = admissible(queue, waiters, budget);
    if queue.len() == 0 || budget == 0 || waiters[queue[0]].tokens > budget {
        assert(queue.take(0) =~= Seq::<u64>::empty());
    } else {
        let rest = queue.drop_first();
        let left = (budget - waiters[queue[0]].tokens) as nat;
        admissible_fits(rest, waiters, left);
        assert(ids.drop_first() =~= admissible(rest, waiters, left));
        let n = admissible(rest, waiters, left).len() as int;
        assert(ids =~= queue.take(n + 1));
        if n + 1 < queue.len() {
            assert(rest[n] == queue[n + 1]);
        }
    }
}

impl LimiterState {
    /// A limiter that nobody has used.
    pub open spec fn idle(limit: nat) -> LimiterState {
        LimiterState {
            limit,
            in_flight: 0,
            reserved: 0,
            peak: 0,
            started: 0,
            completed: 0,
            failed: 0,
            queue: Seq::empty(),
            waiters: Map::empty(),
            next_id: 0,
        }
    }

    /// Capacity neither in use nor promised.
    pub open spec fn free(self) -> nat {
        (self.limit - self.in_flight - self.reserved) as nat
    }

    /// The accounting that every operation keeps.
    pub open spec fn sound(self) -> bool {
        &&& self.in_flight + self.reserved <= self.limit
        &&& self.in_flight <= self.peak <= self.limit
        &&& self.started == self.in_flight + self.completed + self.failed
        &&& self.waiters.dom().finite()
        &&& self.reserved == promised(self.waiters)
        &&& self.queue.no_duplicates()
        &&& forall|k: u64|
            #[trigger] self.waiters.contains_key(k) ==> k < self.next_id && (self.waiters[k].granted
                == !self.queue.contains(k))
        &&& forall|i: int|
            0 <= i < self.queue.len() ==> self.waiters.contains_key(#[trigger] self.queue[i])
    }

    /// Everybody waits for something that the limiter can ever give.
    pub open spec fn satisfiable(self) -> bool {
        forall|k: u64|
            #[trigger] self.waiters.contains_key(k) ==> 0 < self.waiters[k].tokens <= self.limit
    }

    /// Nobody waits for more than the whole limit, and nobody waits while all
    /// capacity is idle: such a waiter could never be woken.
    pub open spec fn live(self) -> bool {
        &&& self.satisfiable()
        &&& self.queue.len() > 0 ==> self.in_flight + self.reserved > 0
    }

    /// `tokens` more handshakes in flight.
    pub open spec fn launch(self, tokens: nat) -> LimiterState {
        LimiterState {
            in_flight: self.in_flight + tokens,
            started: self.started + tokens,
            peak: if self.in_flight + tokens > self.peak {
                self.in_flight + tokens
            } else {
                self.peak
            },
            ..self
        }
    }

    /// `tokens` handshakes settled, one way or the other.
    pub open spec fn release(self, tokens: nat, connected: bool) -> LimiterState {
        LimiterState {
            in_flight: (self.in_flight - tokens) as nat,
            completed: if connected {
                self.completed + tokens
            } else {
                self.completed
            },
            failed: if connected {
                self.failed
            } else {
                self.failed + tokens
            },
            ..self
        }
    }

    /// The waiters that the free capacity admits.
    pub open spec fn next_grants(self) -> Seq<u64> {
        admissible(self.queue, self.waiters, self.free())
    }

    /// Capacity set aside for every waiter that the free capacity admits.
    pub open spec fn grant(self) -> LimiterState {
        let ids = self.next_grants();
        LimiterState {
            reserved: self.reserved + demand(ids, self.waiters),
            queue: self.queue.skip(ids.len() as int),
            waiters: grant_all(self.waiters, ids),
            ..self
        }
    }

    /// The tickets of the waiters that `grant` admits, in queue order.
    pub open spec fn granted_tickets(self) -> Seq<u64> {
        self.next_grants().map_values(|id: u64| self.waiters[id].ticket)
    }

    /// Without the waiter `id`, and without the promise it held.
    pub open spec fn forget(self, id: u64) -> LimiterState {
        LimiterState {
            reserved: (self.reserved - promise(self.waiters[id])) as nat,
            queue: self.queue.filter(not_id(id)),
            waiters: self.waiters.remove(id),
            ..self
        }
    }

    /// With one more waiter at the end of the queue.
    pub open spec fn park(self, tokens: usize, ticket: u64) -> LimiterState {
        LimiterState {
            queue: self.queue.push(self.next_id),
            waiters: self.waiters.insert(self.next_id, Waiter { tokens, ticket, granted: false }),
            next_id: (self.next_id + 1) as u64,
            ..self
        }
    }

    /// With the ticket of a waiter replaced; its place in the queue is kept.
    pub open spec fn refresh(self, id: u64, ticket: u64) -> LimiterState {
        LimiterState {
            waiters: self.waiters.insert(id, Waiter { ticket, ..self.waiters[id] }),
            ..self
        }
    }

    /// Ids are never given out twice: a waiter of `later` is a waiter of `self`
    /// with the same demand, or was added since.
    pub open spec fn precedes(self, later: LimiterState) -> bool {
        &&& self.next_id <= later.next_id
        &&& forall|k: u64| #[trigger]
            later.waiters.contains_key(k) && k < self.next_id ==> self.waiters.contains_key(k)
                && self.waiters[k].tokens == later.waiters[k].tokens
    }
}

/// The test for being another id than `id`.
pub open spec fn not_id(id: u64) -> spec_fn(u64) -> bool {
    |k: u64| k != id
}

/// The ids of `fifo` that still have a waiter.
pub open spec fn alive(fifo: Seq<u64>, waiters: Map<u64, Waiter>) -> Seq<u64>
    decreases fifo.len(),
{
    if fifo.len() == 0 {
        Seq::empty()
    } else if waiters.contains_key(fifo[0]) {
        seq![fifo[0]] + alive(fifo.drop_first(), waiters)
    } else {
        alive(fifo.drop_first(), waiters)
    }
}

proof fn lemma_alive(fifo: Seq<u64>, waiters: Map<u64, Waiter>)
    requires
        fifo.no_duplicates(),
    ensures
        alive(fifo, waiters).no_duplicates(),
        forall|k: u64| #[trigger]
            alive(fifo, waiters).contains(k) <==> fifo.contains(k) && waiters.contains_key(k),
    decreases fifo.len(),
{
    if fifo.len() > 0 {
        let rest = fifo.drop_first();
        assert(fifo =~= seq![fifo[0]] + rest);
        lemma_alive(rest, waiters);
        let now = alive(fifo, waiters);
        let tail = alive(rest, waiters);
        assert(!rest.contains(fifo[0]));
        assert forall|k: u64| #[trigger] now.contains(k) <==> fifo.contains(k)
            && waiters.contains_key(k) by {
            assert(fifo.contains(k) <==> k == fifo[0] || rest.contains(k)) by {
                if rest.contains(k) {
                    let i = rest.index_of(k);
                    assert(fifo[i + 1] == k);
                }
            }
            if waiters.contains_key(fifo[0]) {
                assert(now.contains(k) <==> k == fifo[0] || tail.contains(k)) by {
                    if k == fifo[0] {
                        assert(now[0] == k);
                    }
                    if tail.contains(k) {
                        let i = tail.index_of(k);
                        assert(now[i + 1] == k);
                    }
                }
            }
        }
        if waiters.contains_key(fifo[0]) {
            assert(!tail.contains(fifo[0]));
            assert forall|i: int, j: int|
                0 <= i < now.len() && 0 <= j < now.len() && i != j implies now[i] != now[j] by {
                if i > 0 && j > 0 {
                    assert(now[i] == tail[i - 1] && now[j] == tail[j - 1]);
                } else if i == 0 {
                    assert(tail.contains(now[j])) by {
                        assert(tail[j - 1] == now[j]);
                    }
                } else {
                    assert(tail.contains(now[i])) by {
                        assert(tail[i - 1] == now[i]);
                    }
                }
            }
        }
    }
}

/// Removing a waiter removes its id from the live queue.
proof fn lemma_alive_remove(fifo: Seq<u64>, waiters: Map<u64, Waiter>, id: u64)
    ensures
        alive(fifo, waiters.remove(id)) == alive(fifo, waiters).filter(not_id(id)),
    decreases fifo.len(),
{
    reveal(Seq::filter);
    if fifo.len() > 0 {
        let rest = fifo.drop_first();
        lemma_alive_remove(rest, waiters, id);
        if waiters.contains_key(fifo[0]) {
            let one = seq![fifo[0]];
            let tail = alive(rest, waiters);
            Seq::<u64>::filter_distributes_over_add(one, tail, not_id(id));
            assert(one.drop_last() =~= Seq::<u64>::empty());
            assert(one.drop_last().filter(not_id(id)) =~= Seq::<u64>::empty());
            assert(one.last() == fifo[0]);
            assert(one.filter(not_id(id)) =~= if fifo[0] != id {
                one
            } else {
                Seq::empty()
            });
            assert(alive(fifo, waiters.remove(id)) =~= alive(fifo, waiters).filter(not_id(id)));
        }
    } else {
        assert(alive(fifo, waiters).filter(not_id(id)) =~= Seq::<u64>::empty());
    }
}

/// Adding a new waiter at the back adds its id at the back of the live queue.
proof fn lemma_alive_push(fifo: Seq<u64>, waiters: Map<u64, Waiter>, id: u64, w: Waiter)
    requires
        !fifo.contains(id),
    ensures
        alive(fifo.push(id), waiters.insert(id, w)) == alive(fifo, waiters).push(id),
    decreases fifo.len(),
{
    let longer = fifo.push(id);
    if fifo.len() > 0 {
        let rest = fifo.drop_first();
        assert(fifo[0] != id) by {
            if fifo[0] == id {
                assert(fifo.contains(id));
            }
        }
        assert(!rest.contains(id)) by {
            if rest.contains(id) {
                let i = rest.index_of(id);
                assert(fifo[i + 1] == id);
            }
        }
        lemma_alive_push(rest, waiters, id, w);
        assert(longer.drop_first() =~= rest.push(id));
        assert(alive(longer, waiters.insert(id, w)) =~= alive(fifo, waiters).push(id));
    } else {
        assert(longer.drop_first() =~= Seq::<u64>::empty());
        assert(alive(longer.drop_first(), waiters.insert(id, w)) =~= Seq::<u64>::empty());
        assert(alive(longer, waiters.insert(id, w)) =~= seq![id]);
        assert(alive(fifo, waiters).push(id) =~= seq![id]);
    }
}

/// The live queue depends on which ids have waiters, not on the waiters.
proof fn lemma_alive_same_ids(fifo: Seq<u64>, a: Map<u64, Waiter>, b: Map<u64, Waiter>)
    requires
        a.dom() == b.dom(),
    ensures
        alive(fifo, a) == alive(fifo, b),
    decreases fifo.len(),
{
    if fifo.len() > 0 {
        assert(a.contains_key(fifo[0]) == a.dom().contains(fifo[0]));
        assert(b.contains_key(fifo[0]) == b.dom().contains(fifo[0]));
        lemma_alive_same_ids(fifo.drop_first(), a, b);
    }
}

proof fn lemma_filter_out(s: Seq<u64>, id: u64)
    requires
        s.no_duplicates(),
    ensures
        s.filter(not_id(id)).no_duplicates(),
        forall|k: u64| #[trigger] s.filter(not_id(id)).contains(k) <==> s.contains(k) && k != id,
        !s.contains(id) ==> s.filter(not_id(id)) == s,
        s.filter(not_id(id)).len() <= s.len(),
    decreases s.len(),
{
    reveal(Seq::filter);
    if s.len() > 0 {
        let rest = s.drop_last();
        lemma_filter_out(rest, id);
        let f = s.filter(not_id(id));
        let g = rest.filter(not_id(id));
        assert(s =~= rest.push(s.last()));
        assert(!rest.contains(s.last()));
        assert forall|k: u64| #[trigger] f.contains(k) <==> s.contains(k) && k != id by {
            assert(s.contains(k) <==> rest.contains(k) || k == s.last()) by {
                if rest.contains(k) {
                    assert(s[rest.index_of(k)] == k);
                }
                if k == s.last() {
                    assert(s[s.len() - 1] == k);
                }
            }
            if s.last() != id {
                assert(f == g.push(s.last()));
                assert(f.contains(k) <==> g.contains(k) || k == s.last()) by {
                    if g.contains(k) {
                        assert(f[g.index_of(k)] == k);
                    }
                    if k == s.last() {
                        assert(f[f.len() - 1] == k);
                    }
                }
            }
        }
        if s.last() != id {
            assert(f == g.push(s.last()));
            assert(!g.contains(s.last()));
            assert forall|i: int, j: int| 0 <= i < j < f.len() implies f[i] != f[j] by {
                if j == g.len() {
                    assert(g.contains(g[i]));
                } else {
                    assert(g[i] != g[j]);
                }
            }
        }
        if !s.contains(id) {
            assert(s[s.len() - 1] != id);
            assert(!rest.contains(id)) by {
                if rest.contains(id) {
                    assert(s[rest.index_of(id)] == id);
                }
            }
            assert(f =~= s);
        }
    } else {
        assert(s.filter(not_id(id)) =~= s);
    }
}

/// Forgetting a waiter keeps the accounting sound.
proof fn lemma_forget_sound(s: LimiterState, id: u64)
    requires
        s.sound(),
        s.waiters.contains_key(id),
    ensures
        s.forget(id).sound(),
        s.reserved >= promise(s.waiters[id]),
{
    lemma_promised_remove(s.waiters, id);
    lemma_filter_out(s.queue, id);
    let t = s.forget(id);
    assert forall|k: u64| #[trigger] t.waiters.contains_key(k) implies k < t.next_id && (
    t.waiters[k].granted == !t.queue.contains(k)) by {
        assert(s.waiters.contains_key(k));
    }
    assert forall|i: int| 0 <= i < t.queue.len() implies t.waiters.contains_key(
        #[trigger] t.queue[i],
    ) by {
        let k = t.queue[i];
        assert(t.queue.contains(k));
        assert(s.queue.contains(k));
        let j = s.queue.index_of(k);
        assert(s.waiters.contains_key(s.queue[j]));
    }
}

/// A new ticket for a waiter keeps the accounting sound.
proof fn lemma_refresh_sound(s: LimiterState, id: u64, ticket: u64)
    requires
        s.sound(),
        s.waiters.contains_key(id),
    ensures
        s.refresh(id, ticket).sound(),
{
    let t = s.refresh(id, ticket);
    lemma_promised_insert(s.waiters, id, Waiter { ticket, ..s.waiters[id] });
    assert(t.waiters.dom() =~= s.waiters.dom());
    assert forall|k: u64| #[trigger] t.waiters.contains_key(k) implies k < t.next_id && (
    t.waiters[k].granted == !t.queue.contains(k)) by {
        assert(s.waiters.contains_key(k));
    }
}

/// One more waiter keeps the accounting sound.
proof fn lemma_park_sound(s: LimiterState, tokens: usize, ticket: u64)
    requires
        s.sound(),
        s.next_id < u64::MAX,
    ensures
        s.park(tokens, ticket).sound(),
{
    let id = s.next_id;
    let t = s.park(tokens, ticket);
    assert(!s.waiters.contains_key(id));
    lemma_promised_insert(s.waiters, id, Waiter { tokens, ticket, granted: false });
    assert(!s.queue.contains(id)) by {
        if s.queue.contains(id) {
            let i = s.queue.index_of(id);
            assert(s.waiters.contains_key(s.queue[i]));
        }
    }
    assert forall|k: u64| #[trigger] t.waiters.contains_key(k) implies k < t.next_id && (
    t.waiters[k].granted == !t.queue.contains(k)) by {
        if k == id {
            assert(t.queue[s.queue.len() as int] == k);
        } else {
            assert(s.waiters.contains_key(k));
            if s.queue.contains(k) {
                assert(t.queue[s.queue.index_of(k)] == k);
            }
            if t.queue.contains(k) {
                let i = t.queue.index_of(k);
                assert(s.queue[i] == k);
            }
        }
    }
    assert forall|i: int| 0 <= i < t.queue.len() implies t.waiters.contains_key(
        #[trigger] t.queue[i],
    ) by {
        if i < s.queue.len() {
            assert(s.waiters.contains_key(s.queue[i]));
        }
    }
    assert forall|i: int, j: int|
        0 <= i < t.queue.len() && 0 <= j < t.queue.len() && i != j implies t.queue[i]
        != t.queue[j] by {
        if i < s.queue.len() && j < s.queue.len() {
            assert(s.queue[i] != s.queue[j]);
        } else if i < s.queue.len() {
            assert(s.queue.contains(s.queue[i]));
        } else {
            assert(s.queue.contains(s.queue[j]));
        }
    }
}

/// Setting capacity aside for the next waiter keeps the accounting sound.
proof fn lemma_grant_one_sound(s: LimiterState)
    requires
        s.sound(),
        s.queue.len() > 0,
        s.waiters[s.queue[0]].tokens <= s.free(),
    ensures
        grant_one(s).sound(),
{
    let id = s.queue[0];
    assert(s.queue.contains(id));
    let w = s.waiters[id];
    assert(s.waiters.contains_key(id));
    lemma_promised_insert(s.waiters, id, Waiter { granted: true, ..w });
    let t = grant_one(s);
    assert(s.queue =~= seq![id] + t.queue);
    assert forall|k: u64| #[trigger] t.waiters.contains_key(k) implies k < t.next_id && (
    t.waiters[k].granted == !t.queue.contains(k)) by {
        assert(s.waiters.contains_key(k));
        if k == id {
            if t.queue.contains(k) {
                let i = t.queue.index_of(k);
                assert(s.queue[i + 1] == k);
            }
        } else {
            if s.queue.contains(k) {
                let i = s.queue.index_of(k);
                assert(t.queue[i - 1] == k);
            }
            if t.queue.contains(k) {
                let i = t.queue.index_of(k);
                assert(s.queue[i + 1] == k);
            }
        }
    }
    assert forall|i: int| 0 <= i < t.queue.len() implies t.waiters.contains_key(
        #[trigger] t.queue[i],
    ) by {
        assert(t.queue[i] == s.queue[i + 1]);
    }
}

/// Capacity set aside for the first waiter of the queue.
spec fn grant_one(s: LimiterState) -> LimiterState {
    let id = s.queue[0];
    LimiterState {
        reserved: s.reserved + s.waiters[id].tokens as nat,
        queue: s.queue.drop_first(),
        waiters: s.waiters.insert(id, Waiter { granted: true, ..s.waiters[id] }),
        ..s
    }
}

/// Granting all that fits is granting the first and then all that still fits.
proof fn lemma_grant_step(s: LimiterState)
    requires
        s.sound(),
        s.queue.len() > 0,
        s.free() > 0,
        s.waiters[s.queue[0]].tokens <= s.free(),
    ensures
        s.grant() == grant_one(s).grant(),
        s.granted_tickets() == seq![s.waiters[s.queue[0]].ticket] + grant_one(s).granted_tickets(),
{
    let id = s.queue[0];
    let t = grant_one(s);
    let rest = s.queue.drop_first();
    let left = (s.free() - s.waiters[id].tokens) as nat;
    assert(t.free() == left);
    assert(!rest.contains(id)) by {
        if rest.contains(id) {
            let i = rest.index_of(id);
            assert(s.queue[i + 1] == id);
        }
    }
    lemma_admissible_ignores_grants(rest, s.waiters, t.waiters, left);
    let ids = s.next_grants();
    let more = t.next_grants();
    assert(ids =~= seq![id] + more);
    assert(ids.drop_first() =~= more);
    admissible_fits(s.queue, s.waiters, s.free());
    admissible_fits(rest, t.waiters, left);
    lemma_demand_ignores_grants(more, s.waiters, t.waiters);
    assert(demand(ids, s.waiters) == s.waiters[id].tokens as nat + demand(more, s.waiters));
    assert(s.queue.skip(ids.len() as int) =~= rest.skip(more.len() as int));
    assert(grant_all(s.waiters, ids) =~= grant_all(t.waiters, more)) by {
        assert forall|k: u64| ids.contains(k) <==> k == id || more.contains(k) by {
            if k == id {
                assert(ids[0] == k);
            }
            if more.contains(k) {
                let i = more.index_of(k);
                assert(ids[i + 1] == k);
            }
        }
    }
    assert(s.grant() == t.grant());
    assert(s.granted_tickets() =~= seq![s.waiters[id].ticket] + t.granted_tickets()) by {
        assert forall|i: int| 0 <= i < more.len() implies s.waiters[#[trigger] more[i]].ticket
            == t.waiters[more[i]].ticket by {}
    }
}

proof fn lemma_admissible_ignores_grants(
    queue: Seq<u64>,
    a: Map<u64, Waiter>,
    b: Map<u64, Waiter>,
    budget: nat,
)
    requires
        forall|i: int| 0 <= i < queue.len() ==> a[#[trigger] queue[i]].tokens == b[queue[i]].tokens,
    ensures
        admissible(queue, a, budget) == admissible(queue, b, budget),
    decreases queue.len(),
{
    if queue.len() > 0 && budget != 0 && a[queue[0]].tokens <= budget {
        let rest = queue.drop_first();
        assert forall|i: int| 0 <= i < rest.len() implies a[#[trigger] rest[i]].tokens
            == b[rest[i]].tokens by {
            assert(rest[i] == queue[i + 1]);
        }
        lemma_admissible_ignores_grants(rest, a, b, (budget - a[queue[0]].tokens) as nat);
    }
}

proof fn lemma_demand_ignores_grants(ids: Seq<u64>, a: Map<u64, Waiter>, b: Map<u64, Waiter>)
    requires
        forall|i: int| 0 <= i < ids.len() ==> a[#[trigger] ids[i]].tokens == b[ids[i]].tokens,
    ensures
        demand(ids, a) == demand(ids, b),
    decreases ids.len(),
{
    if ids.len() > 0 {
        let rest = ids.drop_first();
        assert forall|i: int| 0 <= i < rest.len() implies a[#[trigger] rest[i]].tokens
            == b[rest[i]].tokens by {
            assert(rest[i] == ids[i + 1]);
        }
        lemma_demand_ignores_grants(rest, a, b);
    }
}

/// Granting keeps the accounting sound, however many waiters it reaches.
pub proof fn grant_is_sound(s: LimiterState)
    requires
        s.sound(),
    ensures
        s.grant().sound(),
        s.precedes(s.grant()),
    decreases s.queue.len(),
{
    if s.queue.len() == 0 || s.free() == 0 || s.waiters[s.queue[0]].tokens > s.free() {
        lemma_grant_nothing(s);
    } else {
        lemma_grant_one_sound(s);
        lemma_grant_step(s);
        grant_is_sound(grant_one(s));
        let t = grant_one(s);
        assert(s.waiters.contains_key(s.queue[0]));
        assert(t.waiters.dom() =~= s.waiters.dom());
    }
}

proof fn lemma_grant_nothing(s: LimiterState)
    requires
        s.queue.len() == 0 || s.free() == 0 || s.waiters[s.queue[0]].tokens > s.free(),
    ensures
        s.grant() == s,
        s.granted_tickets() == Seq::<u64>::empty(),
{
    assert(s.queue.skip(0) =~= s.queue);
    assert(grant_all(s.waiters, Seq::empty()) =~= s.waiters);
    assert(s.granted_tickets() =~= Seq::<u64>::empty());
}

/// Granting leaves nobody waiting beside idle capacity.
pub proof fn grant_strands_nobody(s: LimiterState)
    requires
        s.sound(),
        s.satisfiable(),
    ensures
        s.grant().live(),
        s.grant().queue.len() > 0 ==> s.grant().free() == 0
            || s.grant().waiters[s.grant().queue[0]].tokens > s.grant().free(),
{
    let t = s.grant();
    let ids = s.next_grants();
    grant_is_sound(s);
    admissible_fits(s.queue, s.waiters, s.free());
    if t.queue.len() > 0 {
        let head = t.queue[0];
        assert(head == s.queue[ids.len() as int]);
        assert(s.waiters.contains_key(head));
        assert(t.waiters.contains_key(head));
        assert(t.waiters[head].tokens == s.waiters[head].tokens);
    }
    assert forall|k: u64| #[trigger] t.waiters.contains_key(k) implies 0 < t.waiters[k].tokens
        <= t.limit by {
        assert(s.waiters.contains_key(k));
    }
}

impl View for ConnectLimiter {
    type V = LimiterState;

    closed spec fn view(&self) -> LimiterState {
        LimiterState {
            limit: self.limit as nat,
            in_flight: self.in_flight as nat,
            reserved: self.reserved as nat,
            peak: self.peak as nat,
            started: self.started as nat,
            completed: self.completed as nat,
            failed: self.failed as nat,
            queue: alive(self.fifo@, self.waiters@),
            waiters: self.waiters@,
            next_id: self.next_waiter_id,
        }
    }
}

impl ConnectLimiter {
    /// The accounting is sound, and every queue entry is a waiter without
    /// capacity or a tombstone.
    pub closed spec fn wf(&self) -> bool {
        &&& self@.sound()
        &&& self.fifo@.no_duplicates()
        &&& forall|i: int|
            0 <= i < self.fifo@.len() ==> #[trigger] self.fifo@[i] < self.next_waiter_id
    }

    /// Queue entries examined so far.
    pub closed spec fn steps(&self) -> u64 {
        self.fifo_steps
    }

    /// Queue entries, tombstones among them.
    pub closed spec fn entries(&self) -> nat {
        self.fifo@.len()
    }

    pub fn new(limit: usize) -> (r: Self)
        ensures
            r.wf(),
            r@ == LimiterState::idle(limit as nat),
            r.steps() == 0,
            r.entries() == 0,
    {
        let r = ConnectLimiter {
            limit,
            in_flight: 0,
            peak: 0,
            started: 0,
            completed: 0,
            failed: 0,
            fifo: VecDeque::new(),
            waiters: HashMap::new(),
            next_waiter_id: 0,
            reserved: 0,
            fifo_steps: 0,
        };
        assert(r@.queue =~= Seq::<u64>::empty());
        assert(r@ == LimiterState::idle(limit as nat));
        r
    }

    /// Capacity not in use and not already promised to a granted waiter.
    fn free(&self) -> (r: usize)
        requires
            self.wf(),
        ensures
            r == self@.free(),
    {
        self.limit.saturating_sub(self.in_flight).saturating_sub(self.reserved)
    }

    /// Acquire `tokens` if capacity is free.
    ///
    /// Reserved capacity is excluded, so an arriving caller cannot take the
    /// tokens that were set aside to wake an already-queued waiter.
    pub fn try_acquire(&mut self, tokens: usize) -> (r: bool)
        requires
            old(self).wf(),
            tokens <= old(self)@.free() ==> old(self)@.started + tokens <= usize::MAX,
        ensures
            final(self).wf(),
            r == (tokens <= old(self)@.free()),
            final(self)@ == if r {
                old(self)@.launch(tokens as nat)
            } else {
                old(self)@
            },
            final(self).steps() == old(self).steps(),
            final(self).entries() == old(self).entries(),
    {
        if tokens > self.free() {
            return false;
        }
        self.launch(tokens);
        true
    }

    /// Move `tokens` into flight and update the started/peak counters.
    fn launch(&mut self, tokens: usize)
        requires
            old(self).wf(),
            tokens <= old(self)@.free(),
            old(self)@.started + tokens <= usize::MAX,
        ensures
            final(self).wf(),
            final(self)@ == old(self)@.launch(tokens as nat),
            final(self).fifo == old(self).fifo,
            final(self).fifo_steps == old(self).fifo_steps,
    {
        self.in_flight = self.in_flight + tokens;
        self.started = self.started + tokens;
        if self.in_flight > self.peak {
            self.peak = self.in_flight;
        }
        assert(self@ == old(self)@.launch(tokens as nat));
    }

    /// Return `tokens` that were in flight.
    pub fn release(&mut self, tokens: usize, connected: bool)
        requires
            old(self).wf(),
            tokens <= old(self)@.in_flight,
        ensures
            final(self).wf(),
            final(self)@ == old(self)@.release(tokens as nat, connected),
            final(self).steps() == old(self).steps(),
            final(self).entries() == old(self).entries(),
    {
        self.in_flight = self.in_flight - tokens;
        if connected {
            self.completed = self.completed + tokens;
        } else {
            self.failed = self.failed + tokens;
        }
        assert(self@ == old(self)@.release(tokens as nat, connected));
    }

    /// Reserve capacity for the next waiters in FIFO order and return their
    /// tickets, budgeting against each waiter's own token demand.
    ///
    /// A grant is a promise: the tokens are set aside before the ticket is handed
    /// back, so nothing else can take them in the window between waking a task
    /// and that task running. Each call examines one entry more than it removes,
    /// at most, so the total over a run is linear in the number of waiters.
    pub fn grant_admissible(&mut self) -> (r: Vec<u64>)
        requires
            old(self).wf(),
        ensures
            final(self).wf(),
            final(self)@ == old(self)@.grant(),
            r@ == old(self)@.granted_tickets(),
            final(self).entries() <= old(self).entries(),
            final(self).steps() - old(self).steps() <= old(self).entries() - final(self).entries()
                + 1,
    {
        let mut granted: Vec<u64> = Vec::new();
        let ghost start = *self;
        loop
            invariant_except_break
                self.wf(),
                self@.grant() == start@.grant(),
                granted@ + self@.granted_tickets() == start@.granted_tickets(),
                self.fifo@.len() <= start.fifo@.len(),
                self.fifo_steps - start.fifo_steps <= start.fifo@.len() - self.fifo@.len(),
            ensures
                self.wf(),
                self@ == start@.grant(),
                granted@ == start@.granted_tickets(),
                self.fifo@.len() <= start.fifo@.len(),
                self.fifo_steps - start.fifo_steps <= start.fifo@.len() - self.fifo@.len() + 1,
            decreases self.fifo@.len(),
        {
            let budget: usize = self.free();
            if budget == 0 || self.fifo.len() == 0 {
                proof {
                    lemma_grant_nothing(self@);
                    assert(granted@ + Seq::<u64>::empty() =~= granted@);
                }
                break;
            }
            let id: u64 = self.fifo[0];
            self.fifo_steps = self.fifo_steps.saturating_add(1);
            let ghost before = *self;
            let found: Option<Waiter> = match self.waiters.get(&id) {
                Some(w) => Some(*w),
                None => None,
            };
            proof {
                assert(before.fifo@ =~= seq![id] + before.fifo@.drop_first());
            }
            match found {
                None => {
                    self.fifo.pop_front();
                    assert(self.fifo@ =~= before.fifo@.drop_first());
                    assert(self@ == before@);
                },
                Some(waiter) => {
                    proof {
                        assert(before@.queue[0] == id);
                    }
                    if waiter.tokens > budget {
                        proof {
                            lemma_grant_nothing(self@);
                            assert(granted@ + Seq::<u64>::empty() =~= granted@);
                        }
                        break;
                    }
                    proof {
                        lemma_grant_step(before@);
                        lemma_grant_one_sound(before@);
                    }
                    let kept = Waiter {
                        tokens: waiter.tokens,
                        ticket: waiter.ticket,
                        granted: true,
                    };
                    self.waiters.insert(id, kept);
                    self.reserved = self.reserved + waiter.tokens;
                    self.fifo.pop_front();
                    proof {
                        assert(self.fifo@ =~= before.fifo@.drop_first());
                        assert(self.waiters@.dom() =~= before.waiters@.dom());
                        lemma_alive_same_ids(self.fifo@, self.waiters@, before.waiters@);
                        assert(before@.queue.drop_first() =~= alive(self.fifo@, before.waiters@));
                        assert(self@ == grant_one(before@));
                        let ghost pushed = granted@.push(waiter.ticket);
                        assert(pushed + self@.granted_tickets() =~= granted@ + (
                        seq![waiter.ticket] + self@.granted_tickets()));
                    }
                    granted.push(waiter.ticket);
                },
            }
        }
        granted
    }

    /// Park `ticket` under a stable id, refreshing it if already parked.
    ///
    /// Refreshing in place preserves the waiter's FIFO position, so a spurious
    /// poll cannot send it to the back of the queue.
    fn park_waiter(&mut self, id: Option<u64>, tokens: usize, ticket: u64) -> (r: u64)
        requires
            old(self).wf(),
            old(self)@.next_id < u64::MAX,
        ensures
            final(self).wf(),
            match id {
                Some(k) if old(self)@.waiters.contains_key(k) => {
                    &&& r == k
                    &&& final(self)@ == old(self)@.refresh(k, ticket)
                    &&& final(self).entries() == old(self).entries()
                },
                _ => {
                    &&& r == old(self)@.next_id
                    &&& final(self)@ == old(self)@.park(tokens, ticket)
                    &&& final(self).entries() == old(self).entries() + 1
                },
            },
            final(self).steps() == old(self).steps(),
    {
        let ghost before = *self;
        if let Some(existing) = id {
            let found: Option<Waiter> = match self.waiters.get(&existing) {
                Some(w) => Some(*w),
                None => None,
            };
            if let Some(slot) = found {
                let fresh = Waiter { tokens: slot.tokens, ticket, granted: slot.granted };
                self.waiters.insert(existing, fresh);
                proof {
                    assert(self.waiters@.dom() =~= before.waiters@.dom());
                    lemma_alive_same_ids(self.fifo@, self.waiters@, before.waiters@);
                    lemma_refresh_sound(before@, existing, ticket);
                    assert(self@ == before@.refresh(existing, ticket));
                }
                return existing;
            }
        }
        let new_id: u64 = self.next_waiter_id;
        self.next_waiter_id = new_id + 1;
        let waiter = Waiter { tokens, ticket, granted: false };
        self.waiters.insert(new_id, waiter);
        self.fifo.push_back(new_id);
        proof {
            assert(!before.fifo@.contains(new_id)) by {
                if before.fifo@.contains(new_id) {
                    let i = before.fifo@.index_of(new_id);
                    assert(before.fifo@[i] < before.next_waiter_id);
                }
            }
            assert(!before.waiters@.contains_key(new_id));
            lemma_alive_push(before.fifo@, before.waiters@, new_id, waiter);
            lemma_park_sound(before@, tokens, ticket);
            assert(self@ == before@.park(tokens, ticket));
            assert(self.fifo@.no_duplicates()) by {
                assert forall|i: int, j: int|
                    0 <= i < self.fifo@.len() && 0 <= j < self.fifo@.len() && i
                        != j implies self.fifo@[i] != self.fifo@[j] by {
                    if i < before.fifo@.len() && j < before.fifo@.len() {
                        assert(before.fifo@[i] != before.fifo@[j]);
                    }
                }
            }
        }
        new_id
    }

    /// Whether this waiter has been granted capacity.
    pub fn is_granted(&self, id: Option<u64>) -> (r: bool)
        ensures
            r == (id is Some && self@.waiters.contains_key(id->0) && self@.waiters[id->0].granted),
    {
        match id {
            Some(k) => match self.waiters.get(&k) {
                Some(w) => w.granted,
                None => false,
            },
            None => false,
        }
    }

    /// Consume a grant: turn the reservation into in-flight tokens.
    fn consume_grant(&mut self, id: u64)
        requires
            old(self).wf(),
            old(self)@.waiters.contains_key(id),
            old(self)@.waiters[id].granted,
            old(self)@.started + old(self)@.waiters[id].tokens <= usize::MAX,
        ensures
            final(self).wf(),
            final(self)@ == old(self)@.forget(id).launch(old(self)@.waiters[id].tokens as nat),
            final(self).steps() == old(self).steps(),
            final(self).entries() == old(self).entries(),
    {
        let ghost before = *self;
        proof {
            lemma_forget_sound(before@, id);
            lemma_alive_remove(before.fifo@, before.waiters@, id);
        }
        let waiter = self.waiters.remove(&id).unwrap();
        self.reserved = self.reserved - waiter.tokens;
        assert(self@ == before@.forget(id));
        self.launch(waiter.tokens);
    }

    /// Drop a waiter. True if it held a reservation, which the caller re-grants:
    /// a cancelled grant must not strand its capacity.
    fn remove_waiter(&mut self, id: Option<u64>) -> (r: bool)
        requires
            old(self).wf(),
        ensures
            final(self).wf(),
            match id {
                Some(k) if old(self)@.waiters.contains_key(k) => {
                    &&& r == old(self)@.waiters[k].granted
                    &&& final(self)@ == old(self)@.forget(k)
                },
                _ => !r && final(self)@ == old(self)@,
            },
            final(self).steps() == old(self).steps(),
            final(self).entries() == old(self).entries(),
    {
        let ghost before = *self;
        match id {
            None => false,
            Some(k) => {
                proof {
                    if before@.waiters.contains_key(k) {
                        lemma_forget_sound(before@, k);
                        lemma_alive_remove(before.fifo@, before.waiters@, k);
                    }
                }
                match self.waiters.remove(&k) {
                    None => {
                        assert(self.waiters@ =~= before.waiters@);
                        assert(self@ == before@);
                        false
                    },
                    Some(waiter) => {
                        if waiter.granted {
                            self.reserved = self.reserved - waiter.tokens;
                        }
                        assert(self@ == before@.forget(k));
                        waiter.granted
                    },
                }
            },
        }
    }

    /// Waiters that have not been admitted yet, granted ones among them.
    pub fn parked_waiters(&self) -> (r: usize)
        requires
            self.wf(),
        ensures
            r == self@.waiters.dom().len(),
    {
        self.waiters.len()
    }

    /// Tokens set aside for granted waiters.
    pub fn reserved_tokens(&self) -> (r: usize)
        ensures
            r == self@.reserved,
    {
        self.reserved
    }

    /// How many waiters hold a grant.
    pub fn granted_waiters(&self) -> (r: usize)
        requires
            self.wf(),
        ensures
            r == self@.waiters.dom().filter(|k: u64| self@.waiters[k].granted).len(),
    {
        let ghost all = self@.waiters.dom();
        let ghost held = all.filter(|k: u64| self@.waiters[k].granted);
        let population: usize = self.waiters.len();
        let mut count: usize = 0;
        let mut id: u64 = 0;
        let ghost mut seen: Set<u64> = Set::empty();
        while id < self.next_waiter_id
            invariant
                self.wf(),
                id <= self.next_waiter_id,
                all == self@.waiters.dom(),
                population == all.len(),
                held == all.filter(|k: u64| self@.waiters[k].granted),
                seen.finite(),
                seen.subset_of(held),
                forall|k: u64| #[trigger] seen.contains(k) <==> k < id && held.contains(k),
                count == seen.len(),
            decreases self.next_waiter_id - id,
        {
            if self.is_granted(Some(id)) {
                proof {
                    assert(held.contains(id));
                    assert(!seen.contains(id));
                    vstd::set_lib::lemma_len_subset(seen.insert(id), all);
                    seen = seen.insert(id);
                }
                count += 1;
            }
            id += 1;
        }
        assert(seen =~= held) by {
            assert forall|k: u64| held.contains(k) implies seen.contains(k) by {
                assert(self@.waiters.contains_key(k));
            }
        }
        count
    }

    /// Queue entries examined by [`Self::grant_admissible`] so far.
    pub fn fifo_steps(&self) -> (r: u64)
        ensures
            r == self.steps(),
    {
        self.fifo_steps
    }

    pub fn in_flight(&self) -> (r: usize)
        ensures
            r == self@.in_flight,
    {
        self.in_flight
    }

    pub fn peak(&self) -> (r: usize)
        ensures
            r == self@.peak,
    {
        self.peak
    }

    pub fn started(&self) -> (r: usize)
        ensures
            r == self@.started,
    {
        self.started
    }

    pub fn completed(&self) -> (r: usize)
        ensures
            r == self@.completed,
    {
        self.completed
    }

    pub fn failed(&self) -> (r: usize)
        ensures
            r == self@.failed,
    {
        self.failed
    }

    pub fn limit(&self) -> (r: usize)
        ensures
            r == self@.limit,
    {
        self.limit
    }

    /// Whether [`Self::try_acquire`] would succeed now.
    pub fn can_acquire(&self, tokens: usize) -> (r: bool)
        requires
            self.wf(),
        ensures
            r == (tokens <= self@.free()),
    {
        tokens <= self.free()
    }
}

/// Release `tokens` back to `limiter` and return the tickets of the admission
/// waiters that the freed capacity can now admit. They are to be woken once the
/// limiter is no longer borrowed, so that no wake ever runs under its lock.
pub fn release_and_wake(limiter: &mut ConnectLimiter, tokens: usize, connected: bool) -> (woken:
    Vec<u64>)
    requires
        old(limiter).wf(),
        tokens <= old(limiter)@.in_flight,
    ensures
        final(limiter).wf(),
        final(limiter)@ == old(limiter)@.release(tokens as nat, connected).grant(),
        woken@ == old(limiter)@.release(tokens as nat, connected).granted_tickets(),
        old(limiter)@.satisfiable() ==> final(limiter)@.live(),
        final(limiter).entries() <= old(limiter).entries(),
        final(limiter).steps() - old(limiter).steps() <= old(limiter).entries()
            - final(limiter).entries() + 1,
{
    limiter.release(tokens, connected);
    proof {
        if limiter@.satisfiable() {
            grant_strands_nobody(limiter@);
        }
    }
    limiter.grant_admissible()
}

/// Permit for a physical SRT handshake slot governed by [`ConnectLimiter`].
///
/// It is settled once: completed, failed, or abandoned, which counts as failed so
/// that a cancelled task leaks no capacity.
#[derive(Debug)]
pub struct HandshakePermit {
    tokens: usize,
}

impl View for HandshakePermit {
    type V = nat;

    /// Tokens that the permit holds in flight.
    closed spec fn view(&self) -> nat {
        self.tokens as nat
    }
}

impl HandshakePermit {
    /// Try to acquire `tokens` permits from `limiter`.
    #[must_use]
    pub fn try_acquire(limiter: &mut ConnectLimiter, tokens: usize) -> (r: Option<Self>)
        requires
            old(limiter).wf(),
            tokens <= old(limiter)@.free() ==> old(limiter)@.started + tokens <= usize::MAX,
        ensures
            final(limiter).wf(),
            (r is Some) == (tokens <= old(limiter)@.free()),
            r is Some ==> r->0@ == tokens && final(limiter)@ == old(limiter)@.launch(tokens as nat),
            r is None ==> final(limiter)@ == old(limiter)@,
            final(limiter).steps() == old(limiter).steps(),
            final(limiter).entries() == old(limiter).entries(),
    {
        if limiter.try_acquire(tokens) {
            Some(HandshakePermit { tokens })
        } else {
            None
        }
    }

    /// Mark the handshake completed (connected) and release permits. Returns the
    /// tickets to wake.
    pub fn complete(self, limiter: &mut ConnectLimiter) -> (woken: Vec<u64>)
        requires
            old(limiter).wf(),
            self@ <= old(limiter)@.in_flight,
        ensures
            final(limiter).wf(),
            final(limiter)@ == old(limiter)@.release(self@, true).grant(),
            woken@ == old(limiter)@.release(self@, true).granted_tickets(),
            old(limiter)@.satisfiable() ==> final(limiter)@.live(),
            final(limiter).entries() <= old(limiter).entries(),
            final(limiter).steps() - old(limiter).steps() <= old(limiter).entries()
                - final(limiter).entries() + 1,
    {
        release_and_wake(limiter, self.tokens, true)
    }

    /// Mark the handshake failed/timed-out and release permits. Returns the
    /// tickets to wake.
    pub fn fail(self, limiter: &mut ConnectLimiter) -> (woken: Vec<u64>)
        requires
            old(limiter).wf(),
            self@ <= old(limiter)@.in_flight,
        ensures
            final(limiter).wf(),
            final(limiter)@ == old(limiter)@.release(self@, false).grant(),
            woken@ == old(limiter)@.release(self@, false).granted_tickets(),
            old(limiter)@.satisfiable() ==> final(limiter)@.live(),
            final(limiter).entries() <= old(limiter).entries(),
            final(limiter).steps() - old(limiter).steps() <= old(limiter).entries()
                - final(limiter).entries() + 1,
    {
        release_and_wake(limiter, self.tokens, false)
    }

    /// Settle a permit according to whether the connection came up.
    ///
    /// Takes the permit out of its `Option`, so that settling again does nothing.
    pub fn settle(permit: &mut Option<Self>, limiter: &mut ConnectLimiter, connected: bool) -> (woken:
        Vec<u64>)
        requires
            old(limiter).wf(),
            *old(permit) is Some ==> old(permit)->0@ <= old(limiter)@.in_flight,
        ensures
            final(limiter).wf(),
            *final(permit) is None,
            match *old(permit) {
                Some(p) => {
                    &&& final(limiter)@ == old(limiter)@.release(p@, connected).grant()
                    &&& woken@ == old(limiter)@.release(p@, connected).granted_tickets()
                    &&& old(limiter)@.satisfiable() ==> final(limiter)@.live()
                },
                None => final(limiter)@ == old(limiter)@ && woken@.len() == 0,
            },
    {
        match permit.take() {
            Some(p) => if connected {
                p.complete(limiter)
            } else {
                p.fail(limiter)
            },
            None => Vec::new(),
        }
    }
}

/// A caller that waits for `tokens` handshake permits.
///
/// It keeps pending callers off periodic timers: a caller that cannot start its
/// handshake immediately parks a ticket in the limiter and is woken only when a
/// permit is actually released.
#[derive(Debug)]
pub struct HandshakeAdmission {
    tokens: usize,
    waiter_id: Option<u64>,
}

impl HandshakeAdmission {
    /// Tokens asked for.
    pub closed spec fn wanted(&self) -> usize {
        self.tokens
    }

    /// The id under which the caller is parked, if it is.
    pub closed spec fn id(&self) -> Option<u64> {
        self.waiter_id
    }

    /// Whether the caller has a place among the waiters of `s`.
    pub open spec fn parked_in(&self, s: LimiterState) -> bool {
        self.id() is Some && s.waiters.contains_key(self.id()->0)
    }

    /// The place of this caller in `s`, if it has one, is for what it asks for.
    pub open spec fn belongs_to(&self, s: LimiterState) -> bool {
        self.id() is Some ==> self.id()->0 < s.next_id && (s.waiters.contains_key(self.id()->0)
            ==> s.waiters[self.id()->0].tokens == self.wanted())
    }

    /// Whether capacity has been set aside for this caller.
    pub open spec fn granted_in(&self, s: LimiterState) -> bool {
        self.parked_in(s) && s.waiters[self.id()->0].granted
    }

    /// What polling does to the limiter `s`.
    pub open spec fn polled(&self, s: LimiterState, ticket: u64) -> LimiterState {
        if self.granted_in(s) {
            s.forget(self.id()->0).launch(self.wanted() as nat)
        } else if self.wanted() <= s.free() {
            if self.parked_in(s) {
                s.launch(self.wanted() as nat).forget(self.id()->0)
            } else {
                s.launch(self.wanted() as nat)
            }
        } else if self.parked_in(s) {
            s.refresh(self.id()->0, ticket)
        } else {
            s.park(self.wanted(), ticket)
        }
    }

    /// What giving up does to the limiter `s`.
    pub open spec fn cancelled(&self, s: LimiterState) -> LimiterState {
        if self.granted_in(s) {
            s.forget(self.id()->0).grant()
        } else if self.parked_in(s) {
            s.forget(self.id()->0)
        } else {
            s
        }
    }

    /// Await `tokens` permits.
    pub fn new(tokens: usize) -> (r: Self)
        ensures
            r.wanted() == tokens,
            r.id() is None,
    {
        HandshakeAdmission { tokens, waiter_id: None }
    }

    /// Take the permit if capacity is set aside for this caller or free; park
    /// `ticket` otherwise.
    pub fn poll(&mut self, limiter: &mut ConnectLimiter, ticket: u64) -> (r: Option<
        HandshakePermit,
    >)
        requires
            old(limiter).wf(),
            old(self).belongs_to(old(limiter)@),
            old(limiter)@.started + old(self).wanted() <= usize::MAX,
            old(limiter)@.next_id < u64::MAX,
        ensures
            final(limiter).wf(),
            final(limiter)@ == old(self).polled(old(limiter)@, ticket),
            (r is Some) == (old(self).granted_in(old(limiter)@) || old(self).wanted()
                <= old(limiter)@.free()),
            r is Some ==> r->0@ == old(self).wanted() && final(self).id() is None,
            r is None ==> final(self).parked_in(final(limiter)@),
            r is None ==> final(self).id() == if old(self).parked_in(old(limiter)@) {
                old(self).id()
            } else {
                Some(old(limiter)@.next_id)
            },
            final(self).wanted() == old(self).wanted(),
            final(self).belongs_to(final(limiter)@),
            old(limiter)@.precedes(final(limiter)@),
            old(limiter)@.live() && 0 < old(self).wanted() <= old(limiter)@.limit
                ==> final(limiter)@.live(),
            final(limiter).steps() == old(limiter).steps(),
            final(limiter).entries() <= old(limiter).entries() + 1,
    {
        let ghost before = limiter@;
        // A grant already reserved our tokens, so convert it directly rather
        // than contending for capacity that is ours by construction.
        if limiter.is_granted(self.waiter_id) {
            let id: u64 = self.waiter_id.unwrap();
            self.waiter_id = None;
            limiter.consume_grant(id);
            return Some(HandshakePermit { tokens: self.tokens });
        }
        if limiter.try_acquire(self.tokens) {
            proof {
                if self.parked_in(before) {
                    lemma_queue_only_shrinks(limiter@, self.id()->0);
                }
            }
            let id = self.waiter_id;
            self.waiter_id = None;
            limiter.remove_waiter(id);
            return Some(HandshakePermit { tokens: self.tokens });
        }
        let id: u64 = limiter.park_waiter(self.waiter_id, self.tokens, ticket);
        self.waiter_id = Some(id);
        None
    }

    /// Give up waiting. A grant that was never used is handed on, or the capacity
    /// it was made for is stranded and everyone behind sleeps forever. Returns the
    /// tickets to wake.
    pub fn cancel(self, limiter: &mut ConnectLimiter) -> (woken: Vec<u64>)
        requires
            old(limiter).wf(),
        ensures
            final(limiter).wf(),
            final(limiter)@ == self.cancelled(old(limiter)@),
            woken@ == if self.granted_in(old(limiter)@) {
                old(limiter)@.forget(self.id()->0).granted_tickets()
            } else {
                Seq::empty()
            },
            old(limiter)@.live() ==> final(limiter)@.live(),
            final(limiter).entries() <= old(limiter).entries(),
            final(limiter).steps() - old(limiter).steps() <= old(limiter).entries()
                - final(limiter).entries() + 1,
    {
        let ghost before = limiter@;
        proof {
            if self.parked_in(before) {
                lemma_queue_only_shrinks(before, self.id()->0);
                lemma_forget_sound(before, self.id()->0);
            }
        }
        if limiter.remove_waiter(self.waiter_id) {
            proof {
                if limiter@.satisfiable() {
                    grant_strands_nobody(limiter@);
                }
            }
            limiter.grant_admissible()
        } else {
            let none: Vec<u64> = Vec::new();
            assert(none@ =~= Seq::<u64>::empty());
            none
        }
    }
}

proof fn lemma_queue_only_shrinks(s: LimiterState, id: u64)
    requires
        s.sound(),
        s.waiters.contains_key(id),
    ensures
        s.forget(id).queue.len() <= s.queue.len(),
        s.satisfiable() ==> s.forget(id).satisfiable(),
{
    lemma_filter_out(s.queue, id);
    let t = s.forget(id);
    assert forall|k: u64| #[trigger]
        t.waiters.contains_key(k) && s.satisfiable() implies 0 < t.waiters[k].tokens <= t.limit by {
        assert(s.waiters.contains_key(k));
    }
}

/// A grant cannot be stolen: however much of the free capacity arriving callers
/// take, the granted waiter can still turn its reservation into a permit.
pub proof fn a_grant_cannot_be_stolen(s: LimiterState, id: u64, taken: nat)
    requires
        s.sound(),
        s.waiters.contains_key(id),
        s.waiters[id].granted,
        taken <= s.free(),
    ensures
        s.launch(taken).sound(),
        s.launch(taken).waiters[id] == s.waiters[id],
        s.launch(taken).forget(id).launch(s.waiters[id].tokens as nat).sound(),
{
    let t = s.launch(taken);
    lemma_forget_sound(t, id);
    let u = t.forget(id);
    assert(u.launch(s.waiters[id].tokens as nat).waiters == u.waiters);
}

/// No operation gives an id out twice or changes what its waiter asked for, so a
/// parked caller keeps its place whatever else happens.
pub proof fn ids_are_never_reused(s: LimiterState, n: nat, connected: bool, id: u64, ticket: u64)
    requires
        s.sound(),
        s.next_id < u64::MAX,
    ensures
        s.precedes(s.launch(n)),
        s.precedes(s.release(n, connected)),
        s.precedes(s.grant()),
        s.precedes(s.forget(id)),
        s.precedes(s.park(n as usize, ticket)),
        s.waiters.contains_key(id) ==> s.precedes(s.refresh(id, ticket)),
{
    grant_is_sound(s);
}

/// A caller that belongs to a limiter belongs to every later state of it.
pub proof fn belonging_lasts(a: HandshakeAdmission, s: LimiterState, later: LimiterState)
    requires
        a.belongs_to(s),
        s.precedes(later),
    ensures
        a.belongs_to(later),
{
    if a.parked_in(later) {
        assert(later.waiters.contains_key(a.id()->0));
    }
}

/// The counters of a sound limiter: never over the limit, and every handshake that
/// was started is in flight or settled.
pub proof fn accounting_adds_up(s: LimiterState)
    requires
        s.sound(),
    ensures
        s.in_flight + s.reserved <= s.limit,
        s.peak <= s.limit,
        s.started == s.in_flight + s.completed + s.failed,
        s.in_flight == 0 ==> s.started == s.completed + s.failed,
{
}

/// What every limiter keeps, whatever was done with it: it is never over its limit,
/// its peak lies between what is in flight and the limit, and every handshake that was
/// started is in flight or settled.
pub proof fn a_limiter_adds_up(l: &ConnectLimiter)
    requires
        l.wf(),
    ensures
        l@.sound(),
        l@.in_flight + l@.reserved <= l@.limit,
        l@.in_flight <= l@.peak <= l@.limit,
        l@.started == l@.in_flight + l@.completed + l@.failed,
        l@.in_flight == 0 ==> l@.started == l@.completed + l@.failed,
{
}

/// Where a request fits, every smaller one does.
pub proof fn smaller_requests_fit_too(s: LimiterState, tokens: nat, fewer: nat)
    requires
        tokens <= s.free(),
        fewer <= tokens,
    ensures
        fewer <= s.free(),
{
}

/// Nobody sleeps while everything is idle: where somebody waits, granted or not,
/// capacity is in use or promised.
pub proof fn nobody_waits_beside_idle_capacity(s: LimiterState)
    requires
        s.sound(),
        s.live(),
    ensures
        s.in_flight + s.reserved <= s.limit,
        s.waiters.dom().len() > 0 ==> s.in_flight + s.reserved > 0,
{
    if s.waiters.dom().len() > 0 {
        let k = s.waiters.dom().choose();
        assert(s.waiters.contains_key(k));
        if s.waiters[k].granted {
            lemma_promised_remove(s.waiters, k);
        } else {
            assert(s.queue.contains(k));
        }
    }
}

// ---------------------------------------------------------------------------
// Histories
// ---------------------------------------------------------------------------

/// One call on a limiter.
pub enum LimiterCall {
    /// A permit is taken.
    Acquire { tokens: nat },
    /// Tokens come back, and nobody is woken.
    Release { tokens: nat, connected: bool },
    /// Capacity is set aside for those who wait.
    Grant,
    /// A permit is settled, and those who can go on are woken.
    Settle { tokens: nat, connected: bool },
    /// A waiting caller tries again.
    Poll { caller: HandshakeAdmission, ticket: u64 },
    /// A waiting caller gives up.
    Cancel { caller: HandshakeAdmission },
}

impl LimiterCall {
    /// What the call makes of the limiter `s`.
    pub open spec fn on(self, s: LimiterState) -> LimiterState {
        match self {
            LimiterCall::Acquire { tokens } => if tokens <= s.free() {
                s.launch(tokens)
            } else {
                s
            },
            LimiterCall::Release { tokens, connected } => s.release(tokens, connected),
            LimiterCall::Grant => s.grant(),
            LimiterCall::Settle { tokens, connected } => s.release(tokens, connected).grant(),
            LimiterCall::Poll { caller, ticket } => caller.polled(s, ticket),
            LimiterCall::Cancel { caller } => caller.cancelled(s),
        }
    }

    /// Whether the call may be made: tokens that come back were held, and a caller
    /// polls the limiter that it belongs to.
    pub open spec fn allowed(self, s: LimiterState) -> bool {
        match self {
            LimiterCall::Release { tokens, connected } => tokens <= s.in_flight,
            LimiterCall::Settle { tokens, connected } => tokens <= s.in_flight,
            LimiterCall::Poll { caller, ticket } => caller.belongs_to(s) && s.next_id < u64::MAX,
            _ => true,
        }
    }

    /// Whether the call leaves nobody behind: it wakes those whom it makes room for,
    /// and asks for something that the limiter can ever give.
    pub open spec fn considerate(self, s: LimiterState) -> bool {
        match self {
            LimiterCall::Release { tokens, connected } => false,
            LimiterCall::Poll { caller, ticket } => 0 < caller.wanted() <= s.limit,
            _ => true,
        }
    }
}

/// A new limiter after the first `n` of `calls`.
pub open spec fn after_calls(limit: nat, calls: Seq<LimiterCall>, n: int) -> LimiterState
    decreases n,
{
    if n <= 0 {
        LimiterState::idle(limit)
    } else {
        calls[n - 1].on(after_calls(limit, calls, n - 1))
    }
}

/// The most that was ever in flight during the first `n` of `calls`.
pub open spec fn most_in_flight(limit: nat, calls: Seq<LimiterCall>, n: int) -> nat
    decreases n,
{
    let now = after_calls(limit, calls, n).in_flight;
    if n <= 0 {
        now
    } else if most_in_flight(limit, calls, n - 1) < now {
        now
    } else {
        most_in_flight(limit, calls, n - 1)
    }
}

/// One call keeps the accounting sound, and the peak where it was unless more is in
/// flight than ever; a considerate one leaves nobody asleep beside idle capacity.
proof fn lemma_call(s: LimiterState, call: LimiterCall)
    requires
        s.sound(),
        call.allowed(s),
    ensures
        call.on(s).sound(),
        call.on(s).limit == s.limit,
        call.on(s).peak == if call.on(s).in_flight > s.peak {
            call.on(s).in_flight
        } else {
            s.peak
        },
        s.live() && call.considerate(s) ==> call.on(s).live(),
{
    match call {
        LimiterCall::Acquire { tokens } => {},
        LimiterCall::Release { tokens, connected } => {},
        LimiterCall::Grant => {
            grant_is_sound(s);
            if s.satisfiable() {
                grant_strands_nobody(s);
            }
        },
        LimiterCall::Settle { tokens, connected } => {
            let t = s.release(tokens, connected);
            assert(t.sound());
            grant_is_sound(t);
            if t.satisfiable() {
                grant_strands_nobody(t);
            }
        },
        LimiterCall::Poll { caller, ticket } => {
            if caller.granted_in(s) {
                lemma_forget_sound(s, caller.id()->0);
                lemma_queue_only_shrinks(s, caller.id()->0);
            } else if caller.wanted() <= s.free() {
                let t = s.launch(caller.wanted() as nat);
                assert(t.sound());
                if caller.parked_in(s) {
                    lemma_forget_sound(t, caller.id()->0);
                    lemma_queue_only_shrinks(t, caller.id()->0);
                }
            } else if caller.parked_in(s) {
                lemma_refresh_sound(s, caller.id()->0, ticket);
                let t = s.refresh(caller.id()->0, ticket);
                assert forall|k: u64| #[trigger]
                    t.waiters.contains_key(k) && s.satisfiable() implies 0 < t.waiters[k].tokens
                    <= t.limit by {
                    assert(s.waiters.contains_key(k));
                }
            } else {
                lemma_park_sound(s, caller.wanted(), ticket);
                let t = s.park(caller.wanted(), ticket);
                assert forall|k: u64| #[trigger]
                    t.waiters.contains_key(k) && s.satisfiable() && call.considerate(
                        s,
                    ) implies 0 < t.waiters[k].tokens <= t.limit by {
                    if k != s.next_id {
                        assert(s.waiters.contains_key(k));
                    }
                }
            }
        },
        LimiterCall::Cancel { caller } => {
            if caller.parked_in(s) {
                lemma_forget_sound(s, caller.id()->0);
                lemma_queue_only_shrinks(s, caller.id()->0);
                let t = s.forget(caller.id()->0);
                grant_is_sound(t);
                if t.satisfiable() {
                    grant_strands_nobody(t);
                }
            }
        },
    }
}

/// Whatever is done with a limiter, in whatever order: it is never over its limit, its
/// peak is the most that was ever in flight, and every handshake that was started is
/// in flight or settled.
pub proof fn every_history_adds_up(limit: nat, calls: Seq<LimiterCall>, n: int)
    requires
        0 <= n <= calls.len(),
        forall|i: int|
            0 <= i < n ==> (#[trigger] calls[i]).allowed(after_calls(limit, calls, i)),
    ensures
        after_calls(limit, calls, n).sound(),
        after_calls(limit, calls, n).limit == limit,
        after_calls(limit, calls, n).in_flight + after_calls(limit, calls, n).reserved <= limit,
        after_calls(limit, calls, n).peak == most_in_flight(limit, calls, n),
        after_calls(limit, calls, n).started == after_calls(limit, calls, n).in_flight
            + after_calls(limit, calls, n).completed + after_calls(limit, calls, n).failed,
    decreases n,
{
    if n > 0 {
        every_history_adds_up(limit, calls, n - 1);
        lemma_call(after_calls(limit, calls, n - 1), calls[n - 1]);
    } else {
        let s = LimiterState::idle(limit);
        assert(s.waiters.dom() =~= Set::<u64>::empty());
        assert(s.sound());
    }
}

/// No order of polls, releases and callers that give up strands capacity: where
/// every release wakes those whom it makes room for, and everybody asks for something
/// that the limiter can give, nobody waits while everything is idle.
pub proof fn no_order_strands_capacity(limit: nat, calls: Seq<LimiterCall>, n: int)
    requires
        0 <= n <= calls.len(),
        forall|i: int|
            0 <= i < n ==> (#[trigger] calls[i]).allowed(after_calls(limit, calls, i)),
        forall|i: int|
            0 <= i < n ==> (#[trigger] calls[i]).considerate(after_calls(limit, calls, i)),
    ensures
        after_calls(limit, calls, n).live(),
        after_calls(limit, calls, n).in_flight + after_calls(limit, calls, n).reserved <= limit,
        after_calls(limit, calls, n).waiters.dom().len() > 0 ==> after_calls(
            limit,
            calls,
            n,
        ).in_flight + after_calls(limit, calls, n).reserved > 0,
    decreases n,
{
    every_history_adds_up(limit, calls, n);
    if n > 0 {
        no_order_strands_capacity(limit, calls, n - 1);
        every_history_adds_up(limit, calls, n - 1);
        lemma_call(after_calls(limit, calls, n - 1), calls[n - 1]);
    }
    nobody_waits_beside_idle_capacity(after_calls(limit, calls, n));
}

/// A grant that its holder gives up goes to the next in line: the caller at the front
/// of the queue, if it then fits, holds the grant and its ticket is woken first.
pub proof fn a_given_up_grant_is_handed_on(s: LimiterState, a: HandshakeAdmission, next: u64)
    requires
        s.sound(),
        a.granted_in(s),
        s.queue.len() > 0,
        s.queue[0] == next,
        0 < s.waiters[next].tokens <= s.free() + s.waiters[a.id()->0].tokens,
    ensures
        a.cancelled(s).waiters.contains_key(next),
        a.cancelled(s).waiters[next].granted,
        s.forget(a.id()->0).granted_tickets().len() > 0,
        s.forget(a.id()->0).granted_tickets()[0] == s.waiters[next].ticket,
{
    let id = a.id()->0;
    lemma_forget_sound(s, id);
    lemma_filter_out(s.queue, id);
    assert(!s.queue.contains(id));
    assert(s.queue.contains(next));
    assert(s.waiters.contains_key(next));
    let t = s.forget(id);
    assert(t.queue == s.queue);
    let ids = t.next_grants();
    assert(ids[0] == next);
    assert(ids.contains(next));
}

/// A release wakes no more waiters than the capacity that is then free.
pub proof fn wakes_are_bounded_by_free_capacity(s: LimiterState)
    requires
        s.sound(),
        s.satisfiable(),
    ensures
        s.granted_tickets().len() <= s.free(),
        s.grant().reserved - s.reserved <= s.free(),
{
    admissible_fits(s.queue, s.waiters, s.free());
    let ids = s.next_grants();
    assert forall|i: int| 0 <= i < ids.len() implies s.waiters[#[trigger] ids[i]].tokens >= 1 by {
        assert(ids[i] == s.queue[i]);
        assert(s.waiters.contains_key(s.queue[i]));
    }
    lemma_demand_at_least(ids, s.waiters);
}

proof fn lemma_demand_at_least(ids: Seq<u64>, waiters: Map<u64, Waiter>)
    requires
        forall|i: int| 0 <= i < ids.len() ==> waiters[#[trigger] ids[i]].tokens >= 1,
    ensures
        ids.len() <= demand(ids, waiters),
    decreases ids.len(),
{
    if ids.len() > 0 {
        let rest = ids.drop_first();
        assert forall|i: int| 0 <= i < rest.len() implies waiters[#[trigger] rest[i]].tokens
            >= 1 by {
            assert(rest[i] == ids[i + 1]);
        }
        lemma_demand_at_least(rest, waiters);
    }
}

} // verus!
