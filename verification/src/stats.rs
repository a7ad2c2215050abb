//! What one connection did, and the sum over a process.
use vstd::prelude::*;

verus! {

/// What an application payload source did, as distinct from what the transport
/// carried.
#[derive(Clone, Copy, Debug, PartialEq, Eq, Structural)]
pub struct SourceStats {
    pub generated: u64,
    pub accepted: u64,
    /// How often a send attempt found the protocol unwilling.
    pub refusal_polls: u64,
    /// One per contiguous episode of backpressure.
    pub blocked_streaks: u64,
    pub backlog_hwm: u64,
    pub overflow: u64,
}

/// Per-connection outcome, widened to u64 so that sums stay in range.
#[derive(Clone, Copy, Debug, PartialEq, Eq, Structural)]
pub struct ConnStats {
    pub connected: bool,
    /// Ended mid-stream rather than by the sender's ordered close.
    pub torn_down: bool,
    pub data_events: u64,
    pub core_total: u64,
    pub secondary_a: u64,
    pub secondary_b: u64,
    pub rtt_us: u64,
    pub has_stats: bool,
    /// A bonded pair reports its one source on its first leg only, so that sums
    /// cannot count it twice.
    pub source: SourceStats,
    /// Whether this carries a payload source at all.
    pub has_source: bool,
}

pub open spec fn no_source() -> SourceStats {
    SourceStats {
        generated: 0,
        accepted: 0,
        refusal_polls: 0,
        blocked_streaks: 0,
        backlog_hwm: 0,
        overflow: 0,
    }
}

/// Nothing happened yet.
pub open spec fn no_stats() -> ConnStats {
    ConnStats {
        connected: false,
        torn_down: false,
        data_events: 0,
        core_total: 0,
        secondary_a: 0,
        secondary_b: 0,
        rtt_us: 0,
        has_stats: false,
        source: no_source(),
        has_source: false,
    }
}

impl Default for SourceStats {
    fn default() -> (r: Self)
        ensures
            r == no_source(),
    {
        SourceStats {
            generated: 0,
            accepted: 0,
            refusal_polls: 0,
            blocked_streaks: 0,
            backlog_hwm: 0,
            overflow: 0,
        }
    }
}

impl Default for ConnStats {
    fn default() -> (r: Self)
        ensures
            r == no_stats(),
    {
        ConnStats {
            connected: false,
            torn_down: false,
            data_events: 0,
            core_total: 0,
            secondary_a: 0,
            secondary_b: 0,
            rtt_us: 0,
            has_stats: false,
            source: SourceStats::default(),
            has_source: false,
        }
    }
}

/// Sums over the connections of one process.
#[derive(Clone, Copy, Debug, PartialEq, Eq, Structural)]
pub struct Aggregate {
    pub data_events: u64,
    pub torn_down: u64,
    pub core_total: u64,
    pub secondary_a: u64,
    pub secondary_b: u64,
    pub rtt_sum_us: u64,
    /// Connections that reported protocol statistics.
    pub stats_count: u64,
    pub any_connected: bool,
    pub cc_peak: usize,
    pub source: SourceStats,
    /// Independent payload producers: one per logical stream.
    pub source_streams: u64,
}

/// The sum of `f` over `all`.
pub open spec fn total(all: Seq<ConnStats>, f: spec_fn(ConnStats) -> nat) -> nat
    decreases all.len(),
{
    if all.len() == 0 {
        0
    } else {
        total(all.drop_last(), f) + f(all.last())
    }
}

pub open spec fn one_if(b: bool) -> nat {
    if b {
        1
    } else {
        0
    }
}

pub open spec fn counted(s: ConnStats, n: u64) -> nat {
    if s.has_stats {
        n as nat
    } else {
        0
    }
}

/// The deepest backlog that any source of `all` reached.
pub open spec fn deepest(all: Seq<ConnStats>) -> u64
    decreases all.len(),
{
    if all.len() == 0 {
        0
    } else {
        let before = deepest(all.drop_last());
        if all.last().source.backlog_hwm > before {
            all.last().source.backlog_hwm
        } else {
            before
        }
    }
}

impl Aggregate {
    /// The sums are those of the connections `all`: protocol totals over those that
    /// reported statistics, everything else over all of them.
    pub open spec fn sums(self, all: Seq<ConnStats>) -> bool {
        &&& self.data_events == total(all, |s: ConnStats| s.data_events as nat)
        &&& self.torn_down == total(all, |s: ConnStats| one_if(s.torn_down))
        &&& self.core_total == total(all, |s: ConnStats| counted(s, s.core_total))
        &&& self.secondary_a == total(all, |s: ConnStats| counted(s, s.secondary_a))
        &&& self.secondary_b == total(all, |s: ConnStats| counted(s, s.secondary_b))
        &&& self.rtt_sum_us == total(all, |s: ConnStats| counted(s, s.rtt_us))
        &&& self.stats_count == total(all, |s: ConnStats| one_if(s.has_stats))
        &&& self.any_connected == exists|i: int|
            0 <= i < all.len() && (#[trigger] all[i]).connected
        &&& self.source.generated == total(all, |s: ConnStats| s.source.generated as nat)
        &&& self.source.accepted == total(all, |s: ConnStats| s.source.accepted as nat)
        &&& self.source.refusal_polls == total(all, |s: ConnStats| s.source.refusal_polls as nat)
        &&& self.source.blocked_streaks == total(
            all,
            |s: ConnStats| s.source.blocked_streaks as nat,
        )
        &&& self.source.overflow == total(all, |s: ConnStats| s.source.overflow as nat)
        &&& self.source.backlog_hwm == deepest(all)
        &&& self.source_streams == total(all, |s: ConnStats| one_if(s.has_source))
    }

    /// Adding `s` leaves every sum in range.
    pub open spec fn has_room_for(self, s: ConnStats) -> bool {
        &&& self.data_events + s.data_events <= u64::MAX
        &&& self.torn_down < u64::MAX
        &&& self.core_total + s.core_total <= u64::MAX
        &&& self.secondary_a + s.secondary_a <= u64::MAX
        &&& self.secondary_b + s.secondary_b <= u64::MAX
        &&& self.rtt_sum_us + s.rtt_us <= u64::MAX
        &&& self.stats_count < u64::MAX
        &&& self.source_streams < u64::MAX
        &&& self.source.generated + s.source.generated <= u64::MAX
        &&& self.source.accepted + s.source.accepted <= u64::MAX
        &&& self.source.refusal_polls + s.source.refusal_polls <= u64::MAX
        &&& self.source.blocked_streaks + s.source.blocked_streaks <= u64::MAX
        &&& self.source.overflow + s.source.overflow <= u64::MAX
    }

    /// These sums with one connection more.
    pub open spec fn plus(self, s: ConnStats) -> Aggregate {
        Aggregate {
            data_events: (self.data_events + s.data_events) as u64,
            torn_down: (self.torn_down + one_if(s.torn_down)) as u64,
            core_total: (self.core_total + counted(s, s.core_total)) as u64,
            secondary_a: (self.secondary_a + counted(s, s.secondary_a)) as u64,
            secondary_b: (self.secondary_b + counted(s, s.secondary_b)) as u64,
            rtt_sum_us: (self.rtt_sum_us + counted(s, s.rtt_us)) as u64,
            stats_count: (self.stats_count + one_if(s.has_stats)) as u64,
            any_connected: self.any_connected || s.connected,
            cc_peak: self.cc_peak,
            source: SourceStats {
                generated: (self.source.generated + s.source.generated) as u64,
                accepted: (self.source.accepted + s.source.accepted) as u64,
                refusal_polls: (self.source.refusal_polls + s.source.refusal_polls) as u64,
                blocked_streaks: (self.source.blocked_streaks + s.source.blocked_streaks) as u64,
                backlog_hwm: if s.source.backlog_hwm > self.source.backlog_hwm {
                    s.source.backlog_hwm
                } else {
                    self.source.backlog_hwm
                },
                overflow: (self.source.overflow + s.source.overflow) as u64,
            },
            source_streams: (self.source_streams + one_if(s.has_source)) as u64,
        }
    }

    /// Nothing added yet.
    pub fn new() -> (r: Self)
        ensures
            r.sums(Seq::empty()),
            r.cc_peak == 0,
    {
        Aggregate {
            data_events: 0,
            torn_down: 0,
            core_total: 0,
            secondary_a: 0,
            secondary_b: 0,
            rtt_sum_us: 0,
            stats_count: 0,
            any_connected: false,
            cc_peak: 0,
            source: SourceStats::default(),
            source_streams: 0,
        }
    }

    /// Adds one connection.
    pub fn add(&mut self, s: ConnStats)
        requires
            old(self).has_room_for(s),
        ensures
            *final(self) == old(self).plus(s),
            forall|all: Seq<ConnStats>| #[trigger]
                old(self).sums(all) ==> final(self).sums(all.push(s)),
    {
        let ghost start = *self;
        self.data_events = self.data_events + s.data_events;
        if s.torn_down {
            self.torn_down = self.torn_down + 1;
        }
        let hwm: u64 = if s.source.backlog_hwm > self.source.backlog_hwm {
            s.source.backlog_hwm
        } else {
            self.source.backlog_hwm
        };
        self.source = SourceStats {
            generated: self.source.generated + s.source.generated,
            accepted: self.source.accepted + s.source.accepted,
            refusal_polls: self.source.refusal_polls + s.source.refusal_polls,
            blocked_streaks: self.source.blocked_streaks + s.source.blocked_streaks,
            backlog_hwm: hwm,
            overflow: self.source.overflow + s.source.overflow,
        };
        if s.has_source {
            self.source_streams = self.source_streams + 1;
        }
        if s.connected {
            self.any_connected = true;
        }
        if s.has_stats {
            self.core_total = self.core_total + s.core_total;
            self.secondary_a = self.secondary_a + s.secondary_a;
            self.secondary_b = self.secondary_b + s.secondary_b;
            self.rtt_sum_us = self.rtt_sum_us + s.rtt_us;
            self.stats_count = self.stats_count + 1;
        }
        proof {
            let end = *self;
            assert forall|all: Seq<ConnStats>| #[trigger] start.sums(all) implies end.sums(
                all.push(s),
            ) by {
                let more = all.push(s);
                assert(more.drop_last() =~= all);
                assert(more.last() == s);
                if s.connected {
                    assert(more[all.len() as int].connected);
                }
                if start.any_connected {
                    let i = choose|i: int| 0 <= i < all.len() && (#[trigger] all[i]).connected;
                    assert(more[i].connected);
                }
                if exists|i: int| 0 <= i < more.len() && (#[trigger] more[i]).connected {
                    let i = choose|i: int| 0 <= i < more.len() && (#[trigger] more[i]).connected;
                    if i < all.len() {
                        assert(all[i].connected);
                    }
                }
            }
        }
    }
}

/// The connection indices below `count` that worker `worker` of `workers` takes:
/// its own number, then every `workers`-th after it.
pub open spec fn share(worker: int, workers: int, count: int) -> Seq<usize>
    decreases
        if count > worker {
            count - worker
        } else {
            0
        },
{
    if worker >= count || workers <= 0 {
        Seq::empty()
    } else {
        seq![worker as usize] + share(worker + workers, workers, count)
    }
}

/// How many workers share `count` items: as many as are asked for, but at least one
/// and no more than there are items.
pub fn worker_count(asked: usize, count: usize) -> (r: usize)
    ensures
        r == if asked < 1 || count < 1 {
            1
        } else if asked > count {
            count
        } else {
            asked
        },
        r >= 1,
{
    if asked < 1 || count < 1 {
        1
    } else if asked > count {
        count
    } else {
        asked
    }
}

/// Deals the indices below `count` round robin; returns those of one worker.
pub fn deal(worker: usize, workers: usize, count: usize) -> (r: Vec<usize>)
    requires
        workers > 0,
    ensures
        r@ == share(worker as int, workers as int, count as int),
        forall|x: usize|
            #![trigger r@.contains(x)]
            worker < workers ==> (r@.contains(x) <==> x < count && x as int % workers as int
                == worker),
{
    let mut out: Vec<usize> = Vec::new();
    let mut i: usize = worker;
    let ghost all = share(worker as int, workers as int, count as int);
    let ghost mut at: int = worker as int;
    assert(out@ + share(at, workers as int, count as int) =~= all);
    while i < count
        invariant_except_break
            i == at,
        invariant
            workers > 0,
            all == share(worker as int, workers as int, count as int),
            out@ + share(at, workers as int, count as int) == all,
        ensures
            at >= count,
        decreases
            if i < count {
                count - i
            } else {
                0
            },
    {
        let ghost rest = share(at + workers, workers as int, count as int);
        let ghost before = out@;
        out.push(i);
        assert(out@ + rest =~= before + (seq![i] + rest));
        proof {
            at = at + workers;
        }
        match i.checked_add(workers) {
            Some(next) => {
                i = next;
            },
            None => {
                break;
            },
        }
    }
    assert(share(at, workers as int, count as int) =~= Seq::<usize>::empty());
    assert(out@ + Seq::<usize>::empty() =~= out@);
    proof {
        if worker < workers {
            vstd::arithmetic::div_mod::lemma_small_mod(worker as nat, workers as nat);
            assert forall|x: usize| #[trigger] (x as int % workers as int) == worker implies x
                >= worker by {
                vstd::arithmetic::div_mod::lemma_mod_decreases(x as nat, workers as nat);
            }
            lemma_share_members(worker as int, worker as int, workers as int, count as int);
        }
    }
    out
}

proof fn lemma_share_members(from: int, worker: int, workers: int, count: int)
    requires
        0 <= worker < workers,
        worker <= from,
        count <= usize::MAX,
        from % workers == worker,
    ensures
        forall|x: usize|
            #![trigger share(from, workers, count).contains(x)]
            share(from, workers, count).contains(x) <==> from <= x < count && x as int % workers
                == worker,
    decreases
        if count > from {
            count - from
        } else {
            0
        },
{
    let s = share(from, workers, count);
    if from < count {
        let rest = share(from + workers, workers, count);
        assert((from + workers) % workers == worker) by (nonlinear_arith)
            requires
                from % workers == worker,
                workers > 0,
        ;
        lemma_share_members(from + workers, worker, workers, count);
        assert forall|x: usize| #![trigger s.contains(x)] s.contains(x) <==> from <= x < count
            && x as int % workers == worker by {
            assert(s.contains(x) <==> x == from || rest.contains(x)) by {
                if x == from {
                    assert(s[0] == x);
                }
                if rest.contains(x) {
                    assert(s[rest.index_of(x) + 1] == x);
                }
                if s.contains(x) && x != from {
                    let i = s.index_of(x);
                    assert(rest[i - 1] == x);
                }
            }
            if from < x < from + workers && x as int % workers == worker {
                lemma_between_multiples(from, x as int, workers);
            }
        }
    }
}

proof fn lemma_between_multiples(from: int, x: int, workers: int)
    requires
        0 <= from < x < from + workers,
        workers > 0,
    ensures
        from % workers != x % workers,
{
    let d = x - from;
    vstd::arithmetic::div_mod::lemma_fundamental_div_mod(from, workers);
    vstd::arithmetic::div_mod::lemma_fundamental_div_mod(x, workers);
    let a = from / workers;
    let b = x / workers;
    if from % workers == x % workers {
        assert(d == workers * (b - a)) by (nonlinear_arith)
            requires
                from == workers * a + from % workers,
                x == workers * b + x % workers,
                from % workers == x % workers,
                d == x - from,
        ;
        assert(d <= 0 || d >= workers) by (nonlinear_arith)
            requires
                d == workers * (b - a),
                workers > 0,
        ;
    }
}

} // verus!
