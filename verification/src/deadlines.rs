//! Application deadlines of sender slots, in order and by slot.
use vstd::prelude::*;

verus! {

/// What a deadline is for. At most one of each kind is armed per slot.
#[derive(Clone, Copy, PartialEq, Eq, Debug, Structural)]
pub enum AppDeadlineKind {
    Send,
    StreamEnd,
    ConnectTimeout,
}

/// One armed deadline.
#[derive(Clone, Copy, PartialEq, Eq, Debug, Structural)]
pub struct AppDeadlineEntry {
    pub deadline_us: u64,
    pub slot: usize,
    pub kind: AppDeadlineKind,
}

/// What is armed for one slot.
#[derive(Clone, Copy, PartialEq, Eq, Debug, Structural)]
pub struct SlotDeadlines {
    pub send: Option<u64>,
    pub stream_end: Option<u64>,
    pub connect_timeout: Option<u64>,
}

impl SlotDeadlines {
    pub open spec fn of(self, kind: AppDeadlineKind) -> Option<u64> {
        match kind {
            AppDeadlineKind::Send => self.send,
            AppDeadlineKind::StreamEnd => self.stream_end,
            AppDeadlineKind::ConnectTimeout => self.connect_timeout,
        }
    }

    fn get(self, kind: AppDeadlineKind) -> (r: Option<u64>)
        ensures
            r == self.of(kind),
    {
        match kind {
            AppDeadlineKind::Send => self.send,
            AppDeadlineKind::StreamEnd => self.stream_end,
            AppDeadlineKind::ConnectTimeout => self.connect_timeout,
        }
    }

    fn with(self, kind: AppDeadlineKind, value: Option<u64>) -> (r: Self)
        ensures
            forall|k: AppDeadlineKind| #[trigger]
                r.of(k) == if k == kind {
                    value
                } else {
                    self.of(k)
                },
    {
        match kind {
            AppDeadlineKind::Send => SlotDeadlines { send: value, ..self },
            AppDeadlineKind::StreamEnd => SlotDeadlines { stream_end: value, ..self },
            AppDeadlineKind::ConnectTimeout => SlotDeadlines { connect_timeout: value, ..self },
        }
    }
}

pub open spec fn rank(kind: AppDeadlineKind) -> int {
    match kind {
        AppDeadlineKind::Send => 0,
        AppDeadlineKind::StreamEnd => 1,
        AppDeadlineKind::ConnectTimeout => 2,
    }
}

/// Earlier deadlines first; then by slot; then sends, stream ends, timeouts.
pub open spec fn before(a: AppDeadlineEntry, b: AppDeadlineEntry) -> bool {
    a.deadline_us < b.deadline_us || (a.deadline_us == b.deadline_us && (a.slot < b.slot || (a.slot
        == b.slot && rank(a.kind) < rank(b.kind))))
}

fn kind_rank(kind: AppDeadlineKind) -> (r: u8)
    ensures
        r == rank(kind),
{
    match kind {
        AppDeadlineKind::Send => 0,
        AppDeadlineKind::StreamEnd => 1,
        AppDeadlineKind::ConnectTimeout => 2,
    }
}

fn precedes(a: AppDeadlineEntry, b: AppDeadlineEntry) -> (r: bool)
    ensures
        r == before(a, b),
{
    a.deadline_us < b.deadline_us || (a.deadline_us == b.deadline_us && (a.slot < b.slot || (a.slot
        == b.slot && kind_rank(a.kind) < kind_rank(b.kind))))
}

/// Strictly ascending.
pub open spec fn in_order(v: Seq<AppDeadlineEntry>) -> bool {
    forall|i: int, j: int| 0 <= i < j < v.len() ==> before(#[trigger] v[i], #[trigger] v[j])
}

/// The entry that arms `key` at `us`.
pub open spec fn entry(key: (usize, AppDeadlineKind), us: u64) -> AppDeadlineEntry {
    AppDeadlineEntry { deadline_us: us, slot: key.0, kind: key.1 }
}

pub open spec fn key_of(e: AppDeadlineEntry) -> (usize, AppDeadlineKind) {
    (e.slot, e.kind)
}

/// All armed deadlines: one list in order, for finding what is due, and one table
/// by slot, for finding what to disarm.
#[derive(Debug)]
pub struct DeadlineIndex {
    ordered: Vec<AppDeadlineEntry>,
    by_slot: Vec<SlotDeadlines>,
}

impl View for DeadlineIndex {
    type V = Map<(usize, AppDeadlineKind), u64>;

    /// The armed deadlines, by slot and kind.
    closed spec fn view(&self) -> Map<(usize, AppDeadlineKind), u64> {
        Map::new(
            |k: (usize, AppDeadlineKind)|
                k.0 < self.by_slot@.len() && self.by_slot@[k.0 as int].of(k.1) is Some,
            |k: (usize, AppDeadlineKind)| self.by_slot@[k.0 as int].of(k.1)->0,
        )
    }
}

impl DeadlineIndex {
    /// Number of slots.
    pub closed spec fn slots(&self) -> nat {
        self.by_slot@.len()
    }

    /// The list and the table hold the same deadlines.
    pub closed spec fn wf(&self) -> bool {
        &&& in_order(self.ordered@)
        &&& forall|i: int|
            0 <= i < self.ordered@.len() ==> self@.contains_key(key_of(#[trigger] self.ordered@[i]))
                && self@[key_of(self.ordered@[i])] == self.ordered@[i].deadline_us
        &&& forall|k: (usize, AppDeadlineKind)| #[trigger]
            self@.contains_key(k) ==> self.ordered@.contains(entry(k, self@[k]))
    }

    /// Deadlines are armed for slots only.
    pub proof fn lemma_armed_slots(&self)
        requires
            self.wf(),
        ensures
            forall|k: (usize, AppDeadlineKind)| #[trigger] self@.contains_key(k) ==> k.0
                < self.slots(),
            self@.dom().finite(),
    {
        let keys = self.ordered@.map_values(|e: AppDeadlineEntry| key_of(e));
        assert(self@.dom() =~= keys.to_set()) by {
            assert forall|k: (usize, AppDeadlineKind)| self@.dom().contains(
                k,
            ) implies keys.to_set().contains(k) by {
                assert(self@.contains_key(k));
                let i = self.ordered@.index_of(entry(k, self@[k]));
                assert(keys[i] == k);
            }
            assert forall|k: (usize, AppDeadlineKind)| keys.to_set().contains(
                k,
            ) implies self@.dom().contains(k) by {
                let i = keys.index_of(k);
                assert(self@.contains_key(key_of(self.ordered@[i])));
            }
        }
        vstd::seq_lib::seq_to_set_is_finite(keys);
    }

    pub fn new(slots: usize) -> (r: Self)
        ensures
            r.wf(),
            r@ == Map::<(usize, AppDeadlineKind), u64>::empty(),
            r.slots() == slots,
    {
        let idle = SlotDeadlines { send: None, stream_end: None, connect_timeout: None };
        let mut by_slot: Vec<SlotDeadlines> = Vec::new();
        while by_slot.len() < slots
            invariant
                by_slot@.len() <= slots,
                idle == (SlotDeadlines { send: None, stream_end: None, connect_timeout: None }),
                forall|i: int| 0 <= i < by_slot@.len() ==> by_slot@[i] == idle,
            decreases slots - by_slot@.len(),
        {
            by_slot.push(idle);
        }
        let r = DeadlineIndex { ordered: Vec::new(), by_slot };
        assert(r@ =~= Map::<(usize, AppDeadlineKind), u64>::empty());
        r
    }

    /// When `kind` is armed for `slot`, if it is.
    pub fn armed(&self, slot: usize, kind: AppDeadlineKind) -> (r: Option<u64>)
        ensures
            (r is Some) == self@.contains_key((slot, kind)),
            r is Some ==> r->0 == self@[(slot, kind)],
    {
        if slot < self.by_slot.len() {
            self.by_slot[slot].get(kind)
        } else {
            None
        }
    }

    /// Disarms `kind` for `slot`; does nothing if it is not armed.
    pub fn remove_deadline(&mut self, slot: usize, kind: AppDeadlineKind)
        requires
            old(self).wf(),
        ensures
            final(self).wf(),
            final(self)@ == old(self)@.remove((slot, kind)),
            final(self).slots() == old(self).slots(),
    {
        let ghost start = *self;
        let ghost key = (slot, kind);
        match self.armed(slot, kind) {
            None => {
                assert(self@.remove(key) =~= self@);
            },
            Some(us) => {
                let target = AppDeadlineEntry { deadline_us: us, slot, kind };
                assert(self@.contains_key(key));
                let ghost at = self.ordered@.index_of(target);
                let mut i: usize = 0;
                let n: usize = self.ordered.len();
                while precedes(self.ordered[i], target)
                    invariant
                        n == self.ordered@.len(),
                        0 <= at < self.ordered@.len(),
                        self.ordered@[at] == target,
                        in_order(self.ordered@),
                        i <= at,
                    decreases at - i,
                {
                    i += 1;
                }
                assert(i == at) by {
                    if i < at {
                        assert(before(self.ordered@[i as int], self.ordered@[at]));
                    }
                }
                self.ordered.remove(i);
                let updated = self.by_slot[slot].with(kind, None);
                self.by_slot.set(slot, updated);
                proof {
                    assert(self@ =~= start@.remove(key));
                    assert forall|j: int| 0 <= j < self.ordered@.len() implies self@.contains_key(
                        key_of(#[trigger] self.ordered@[j]),
                    ) && self@[key_of(self.ordered@[j])] == self.ordered@[j].deadline_us by {
                        let k = if j < i {
                            j
                        } else {
                            j + 1
                        };
                        assert(self.ordered@[j] == start.ordered@[k]);
                        assert(start@.contains_key(key_of(start.ordered@[k])));
                        assert(before(start.ordered@[k], target) || before(
                            target,
                            start.ordered@[k],
                        ));
                    }
                    assert forall|k: (usize, AppDeadlineKind)| #[trigger]
                        self@.contains_key(k) implies self.ordered@.contains(entry(k, self@[k])) by {
                        assert(start@.contains_key(k));
                        let j = start.ordered@.index_of(entry(k, start@[k]));
                        assert(j != i);
                        if j < i {
                            assert(self.ordered@[j] == entry(k, self@[k]));
                        } else {
                            assert(self.ordered@[j - 1] == entry(k, self@[k]));
                        }
                    }
                }
            },
        }
    }

    /// Arms `kind` for `slot` at `us`, in place of any earlier deadline.
    pub fn arm(&mut self, slot: usize, kind: AppDeadlineKind, us: u64)
        requires
            old(self).wf(),
            slot < old(self).slots(),
        ensures
            final(self).wf(),
            final(self)@ == old(self)@.insert((slot, kind), us),
            final(self).slots() == old(self).slots(),
    {
        let ghost first = *self;
        self.remove_deadline(slot, kind);
        let ghost start = *self;
        let ghost key = (slot, kind);
        let target = AppDeadlineEntry { deadline_us: us, slot, kind };
        let mut i: usize = 0;
        while i < self.ordered.len() && precedes(self.ordered[i], target)
            invariant
                i <= self.ordered@.len(),
                forall|j: int| 0 <= j < i ==> before(#[trigger] self.ordered@[j], target),
            decreases self.ordered@.len() - i,
        {
            i += 1;
        }
        proof {
            assert forall|j: int| i <= j < self.ordered@.len() implies before(
                target,
                #[trigger] self.ordered@[j],
            ) by {
                let head = self.ordered@[i as int];
                assert(start@.contains_key(key_of(head)));
                assert(key_of(head) != key);
                assert(before(target, head));
                if j > i {
                    assert(before(head, self.ordered@[j]));
                }
            }
        }
        self.ordered.insert(i, target);
        let updated = self.by_slot[slot].with(kind, Some(us));
        self.by_slot.set(slot, updated);
        proof {
            assert(self@ =~= start@.insert(key, us));
            assert(self@ =~= first@.insert(key, us));
            assert forall|a: int, b: int| 0 <= a < b < self.ordered@.len() implies before(
                #[trigger] self.ordered@[a],
                #[trigger] self.ordered@[b],
            ) by {
                let x = if a < i {
                    a
                } else {
                    a - 1
                };
                let y = if b < i {
                    b
                } else {
                    b - 1
                };
                if a != i {
                    assert(self.ordered@[a] == start.ordered@[x]);
                }
                if b != i {
                    assert(self.ordered@[b] == start.ordered@[y]);
                }
            }
            assert forall|j: int| 0 <= j < self.ordered@.len() implies self@.contains_key(
                key_of(#[trigger] self.ordered@[j]),
            ) && self@[key_of(self.ordered@[j])] == self.ordered@[j].deadline_us by {
                if j != i {
                    let k = if j < i {
                        j
                    } else {
                        j - 1
                    };
                    assert(self.ordered@[j] == start.ordered@[k]);
                    assert(start@.contains_key(key_of(start.ordered@[k])));
                    assert(key_of(start.ordered@[k]) != key);
                }
            }
            assert forall|k: (usize, AppDeadlineKind)| #[trigger]
                self@.contains_key(k) implies self.ordered@.contains(entry(k, self@[k])) by {
                if k == key {
                    assert(self.ordered@[i as int] == entry(k, self@[k]));
                } else {
                    assert(start@.contains_key(k));
                    let j = start.ordered@.index_of(entry(k, start@[k]));
                    if j < i {
                        assert(self.ordered@[j] == entry(k, self@[k]));
                    } else {
                        assert(self.ordered@[j + 1] == entry(k, self@[k]));
                    }
                }
            }
        }
    }

    /// The earliest armed deadline.
    pub fn first(&self) -> (r: Option<AppDeadlineEntry>)
        requires
            self.wf(),
        ensures
            match r {
                Some(e) => {
                    &&& self@.contains_key(key_of(e))
                    &&& self@[key_of(e)] == e.deadline_us
                    &&& forall|k: (usize, AppDeadlineKind)| #[trigger]
                        self@.contains_key(k) && k != key_of(e) ==> before(e, entry(k, self@[k]))
                },
                None => self@ == Map::<(usize, AppDeadlineKind), u64>::empty(),
            },
    {
        if self.ordered.len() == 0 {
            assert(self@ =~= Map::<(usize, AppDeadlineKind), u64>::empty());
            None
        } else {
            let e = self.ordered[0];
            proof {
                assert forall|k: (usize, AppDeadlineKind)| #[trigger]
                    self@.contains_key(k) && k != key_of(e) implies before(e, entry(k, self@[k])) by {
                    let j = self.ordered@.index_of(entry(k, self@[k]));
                    assert(j != 0);
                }
            }
            Some(e)
        }
    }

    /// Disarms and returns every deadline at or before `now_us`, in order.
    pub fn take_due(&mut self, now_us: u64) -> (r: Vec<AppDeadlineEntry>)
        requires
            old(self).wf(),
        ensures
            final(self).wf(),
            final(self).slots() == old(self).slots(),
            in_order(r@),
            forall|e: AppDeadlineEntry| #[trigger]
                r@.contains(e) <==> e.deadline_us <= now_us && old(self)@.contains_key(key_of(e))
                    && old(self)@[key_of(e)] == e.deadline_us,
            final(self)@ == old(self)@.restrict(
                Set::new(|k: (usize, AppDeadlineKind)| old(self)@[k] > now_us),
            ),
    {
        let ghost start = *self;
        let mut due: Vec<AppDeadlineEntry> = Vec::new();
        let mut n: usize = 0;
        while n < self.ordered.len() && self.ordered[n].deadline_us <= now_us
            invariant
                *self == start,
                n <= self.ordered@.len(),
                due@ == self.ordered@.take(n as int),
                forall|j: int| 0 <= j < n ==> (#[trigger] self.ordered@[j]).deadline_us <= now_us,
            decreases self.ordered@.len() - n,
        {
            due.push(self.ordered[n]);
            n += 1;
            assert(due@ =~= self.ordered@.take(n as int));
        }
        proof {
            assert forall|j: int| n <= j < start.ordered@.len() implies (
            #[trigger] start.ordered@[j]).deadline_us > now_us by {
                if j > n {
                    assert(before(start.ordered@[n as int], start.ordered@[j]));
                }
            }
            assert forall|e: AppDeadlineEntry| #[trigger] due@.contains(e) <==> e.deadline_us
                <= now_us && start@.contains_key(key_of(e)) && start@[key_of(e)]
                == e.deadline_us by {
                if due@.contains(e) {
                    let j = due@.index_of(e);
                    assert(start.ordered@[j] == e);
                }
                if e.deadline_us <= now_us && start@.contains_key(key_of(e)) && start@[key_of(e)]
                    == e.deadline_us {
                    assert(entry(key_of(e), start@[key_of(e)]) == e);
                    let j = start.ordered@.index_of(e);
                    assert(due@[j] == e);
                }
            }
        }
        let mut i: usize = 0;
        while i < due.len()
            invariant
                self.wf(),
                self.slots() == start.slots(),
                i <= due@.len(),
                start.wf(),
                due@ == start.ordered@.take(n as int),
                n <= start.ordered@.len(),
                self@ == start@.remove_keys(due@.take(i as int).map_values(key_fn()).to_set()),
            decreases due@.len() - i,
        {
            let e = due[i];
            let ghost gone = due@.take(i as int).map_values(key_fn());
            let ghost more = due@.take(i + 1).map_values(key_fn());
            self.remove_deadline(e.slot, e.kind);
            proof {
                assert(more =~= gone.push(key_of(e)));
                gone.lemma_push_to_set_commute(key_of(e));
                assert(self@ =~= start@.remove_keys(more.to_set()));
            }
            i += 1;
            assert(due@.take(i as int).map_values(key_fn()) == more);
        }
        proof {
            assert(due@.take(due@.len() as int) =~= due@);
            let keys = due@.map_values(key_fn()).to_set();
            let later = Set::new(|k: (usize, AppDeadlineKind)| start@[k] > now_us);
            assert forall|k: (usize, AppDeadlineKind)| start@.contains_key(k) implies keys.contains(
                k,
            ) == !later.contains(k) by {
                let e = entry(k, start@[k]);
                if keys.contains(k) {
                    let j = due@.map_values(key_fn()).index_of(k);
                    assert(start.ordered@[j] == due@[j]);
                    assert(start@[key_of(due@[j])] == due@[j].deadline_us);
                }
                if !later.contains(k) {
                    assert(due@.contains(e));
                    let j = due@.index_of(e);
                    assert(due@.map_values(key_fn())[j] == k);
                }
            }
            assert(self@ =~= start@.restrict(later));
        }
        due
    }

    /// How many deadlines are armed.
    pub fn len(&self) -> (r: usize)
        requires
            self.wf(),
        ensures
            r == self@.dom().len(),
    {
        proof {
            let keys = self.ordered@.map_values(key_fn());
            assert(keys.no_duplicates()) by {
                assert forall|i: int, j: int|
                    0 <= i < keys.len() && 0 <= j < keys.len() && i != j implies keys[i]
                        != keys[j] by {
                    assert(self@[key_of(self.ordered@[i])] == self.ordered@[i].deadline_us);
                    assert(self@[key_of(self.ordered@[j])] == self.ordered@[j].deadline_us);
                    assert(before(self.ordered@[i], self.ordered@[j]) || before(
                        self.ordered@[j],
                        self.ordered@[i],
                    ));
                }
            }
            keys.unique_seq_to_set();
            assert(keys.to_set() =~= self@.dom()) by {
                assert forall|k: (usize, AppDeadlineKind)| self@.dom().contains(
                    k,
                ) implies keys.to_set().contains(k) by {
                    assert(self@.contains_key(k));
                    let i = self.ordered@.index_of(entry(k, self@[k]));
                    assert(keys[i] == k);
                }
                assert forall|k: (usize, AppDeadlineKind)| keys.to_set().contains(
                    k,
                ) implies self@.dom().contains(k) by {
                    let i = keys.index_of(k);
                    assert(self@.contains_key(key_of(self.ordered@[i])));
                }
            }
        }
        self.ordered.len()
    }

    /// How many deadlines the table by slot holds; the same as [`Self::len`].
    pub fn table_len(&self) -> (r: usize)
        requires
            self.wf(),
        ensures
            r == self@.dom().len(),
    {
        let ghost all = self@.dom();
        let population: usize = self.len();
        proof {
            self.lemma_armed_slots();
        }
        let mut count: usize = 0;
        let mut i: usize = 0;
        let ghost mut seen: Set<(usize, AppDeadlineKind)> = Set::empty();
        while i < self.by_slot.len()
            invariant
                self.wf(),
                i <= self.by_slot@.len(),
                all == self@.dom(),
                all.finite(),
                population == all.len(),
                seen.finite(),
                count == seen.len(),
                forall|k: (usize, AppDeadlineKind)| #[trigger]
                    seen.contains(k) <==> k.0 < i && all.contains(k),
            decreases self.by_slot@.len() - i,
        {
            let row = self.by_slot[i];
            let ghost s1 = (i, AppDeadlineKind::Send);
            let ghost s2 = (i, AppDeadlineKind::StreamEnd);
            let ghost s3 = (i, AppDeadlineKind::ConnectTimeout);
            assert(all.contains(s1) == (row.of(AppDeadlineKind::Send) is Some));
            assert(all.contains(s2) == (row.of(AppDeadlineKind::StreamEnd) is Some));
            assert(all.contains(s3) == (row.of(AppDeadlineKind::ConnectTimeout) is Some));
            if row.send.is_some() {
                proof {
                    seen = seen.insert(s1);
                    assert(seen.subset_of(all));
                    vstd::set_lib::lemma_len_subset(seen, all);
                }
                count += 1;
            }
            if row.stream_end.is_some() {
                proof {
                    seen = seen.insert(s2);
                    assert(seen.subset_of(all));
                    vstd::set_lib::lemma_len_subset(seen, all);
                }
                count += 1;
            }
            if row.connect_timeout.is_some() {
                proof {
                    seen = seen.insert(s3);
                    assert(seen.subset_of(all));
                    vstd::set_lib::lemma_len_subset(seen, all);
                }
                count += 1;
            }
            i += 1;
        }
        assert(seen =~= all);
        count
    }
}

/// The slot and kind of an entry, as a function.
pub open spec fn key_fn() -> spec_fn(AppDeadlineEntry) -> (usize, AppDeadlineKind) {
    |e: AppDeadlineEntry| key_of(e)
}

} // verus!
