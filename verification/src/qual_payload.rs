//! Diagnostic payload identity for the conservation experiment.
//!
//! A small header in the first [`HEADER_LEN`] bytes of a payload tells measured
//! data from the diagnostic fence, and says *which* source tick it carries:
//!
//! ```text
//! byte  0..4   magic   MEASURED_MAGIC or FENCE_MAGIC
//! byte  4..8   id      tick id (measured) or final tick id (fence)
//! byte  8..    filler  zeroes, so the payload length is unchanged
//! ```
use crate::stats::one_if;
use crate::text::{decimal, join, joined, lemma_texts_push, render, texts};
use bytes::Bytes;
use vstd::prelude::*;
use vstd::set_lib::*;

verus! {

/// Magic for a measured workload payload ("QM01").
pub const MEASURED_MAGIC: u32 = 0x514D_3031;

/// Magic for a diagnostic fence payload ("QF01").
pub const FENCE_MAGIC: u32 = 0x5146_3031;

/// Header size in bytes.
pub const HEADER_LEN: usize = 8;

/// `bytes::Bytes`, a shared, immutable run of bytes.
#[verifier::external_type_specification]
#[verifier::external_body]
pub struct SharedBytes(bytes::Bytes);

/// The bytes that a `bytes::Bytes` holds.
pub uninterp spec fn content(b: Bytes) -> Seq<u8>;

/// `Bytes::from(Vec<u8>)`: takes the buffer over, byte for byte.
#[verifier::external_body]
fn share(buffer: Vec<u8>) -> (r: Bytes)
    ensures
        content(r) == buffer@,
{
    Bytes::from(buffer)
}

/// What a payload is, as far as the diagnostic accounting is concerned.
#[derive(Debug, PartialEq, Eq, Clone, Copy, Structural)]
pub enum PayloadKind {
    /// Measured workload payload carrying its source tick id.
    Measured { tick: u32 },
    /// Diagnostic fence carrying the last measured tick id for that peer.
    Fence { final_tick: u32 },
    /// No recognised magic: not part of the diagnostic experiment.
    Foreign,
}

/// The big-endian number in the four bytes of `b` from `at` on.
pub open spec fn be_word(b: Seq<u8>, at: int) -> int {
    b[at] * 0x100_0000 + b[at + 1] * 0x1_0000 + b[at + 2] * 0x100 + b[at + 3]
}

/// The four bytes of `n`, most significant first.
pub open spec fn be_bytes(n: u32) -> Seq<u8> {
    seq![
        (n / 0x100_0000) as u8,
        (n / 0x1_0000 % 0x100) as u8,
        (n / 0x100 % 0x100) as u8,
        (n % 0x100) as u8,
    ]
}

/// A payload: magic, id, and zeroes up to `len` bytes (never fewer than a header).
pub open spec fn tagged(magic: u32, id: u32, len: nat) -> Seq<u8> {
    let total = if len > HEADER_LEN {
        len
    } else {
        HEADER_LEN as nat
    };
    be_bytes(magic) + be_bytes(id) + Seq::new((total - HEADER_LEN) as nat, |i: int| 0u8)
}

/// What the header of `payload` says.
pub open spec fn kind_of(payload: Seq<u8>) -> PayloadKind {
    if payload.len() < HEADER_LEN {
        PayloadKind::Foreign
    } else if be_word(payload, 0) == MEASURED_MAGIC {
        PayloadKind::Measured { tick: be_word(payload, 4) as u32 }
    } else if be_word(payload, 0) == FENCE_MAGIC {
        PayloadKind::Fence { final_tick: be_word(payload, 4) as u32 }
    } else {
        PayloadKind::Foreign
    }
}

/// Every id survives the header, and the two kinds of payload never read as one
/// another.
pub proof fn payload_round_trips(id: u32, len: nat)
    ensures
        kind_of(tagged(MEASURED_MAGIC, id, len)) == (PayloadKind::Measured { tick: id }),
        kind_of(tagged(FENCE_MAGIC, id, len)) == (PayloadKind::Fence { final_tick: id }),
        len >= HEADER_LEN ==> tagged(MEASURED_MAGIC, id, len).len() == len,
        len >= HEADER_LEN ==> tagged(FENCE_MAGIC, id, len).len() == len,
{
    assert(be_word(tagged(MEASURED_MAGIC, id, len), 0) == MEASURED_MAGIC);
    assert(be_word(tagged(FENCE_MAGIC, id, len), 0) == FENCE_MAGIC);
    assert(be_word(tagged(MEASURED_MAGIC, id, len), 4) == id);
    assert(be_word(tagged(FENCE_MAGIC, id, len), 4) == id);
}

fn push_word(buffer: &mut Vec<u8>, n: u32)
    ensures
        final(buffer)@ == old(buffer)@ + be_bytes(n),
{
    buffer.push((n / 0x100_0000) as u8);
    buffer.push((n / 0x1_0000 % 0x100) as u8);
    buffer.push((n / 0x100 % 0x100) as u8);
    buffer.push((n % 0x100) as u8);
    assert(buffer@ =~= old(buffer)@ + be_bytes(n));
}

fn tagged_buffer(magic: u32, id: u32, len: usize) -> (r: Vec<u8>)
    ensures
        r@ == tagged(magic, id, len as nat),
{
    let total: usize = if len > HEADER_LEN {
        len
    } else {
        HEADER_LEN
    };
    let mut buffer: Vec<u8> = Vec::new();
    push_word(&mut buffer, magic);
    push_word(&mut buffer, id);
    while buffer.len() < total
        invariant
            HEADER_LEN <= buffer@.len() <= total,
            buffer@ == tagged(magic, id, buffer@.len()),
        decreases total - buffer@.len(),
    {
        buffer.push(0);
        assert(buffer@ =~= tagged(magic, id, buffer@.len()));
    }
    buffer
}

/// One measured payload of `len` bytes, tagged with its source tick.
///
/// One allocation per tick; the same `Bytes` is then shared across every
/// destination.
pub fn measured_payload(len: usize, tick: u32) -> (r: Bytes)
    ensures
        content(r) == tagged(MEASURED_MAGIC, tick, len as nat),
{
    share(tagged_buffer(MEASURED_MAGIC, tick, len))
}

/// One fence payload of `len` bytes, tagged with the last measured tick.
pub fn fence_payload(len: usize, final_tick: u32) -> (r: Bytes)
    ensures
        content(r) == tagged(FENCE_MAGIC, final_tick, len as nat),
{
    share(tagged_buffer(FENCE_MAGIC, final_tick, len))
}

fn word_at(payload: &[u8], at: usize) -> (r: u32)
    requires
        at + 4 <= payload@.len(),
    ensures
        r == be_word(payload@, at as int),
{
    payload[at] as u32 * 0x100_0000 + payload[at + 1] as u32 * 0x1_0000 + payload[at + 2] as u32
        * 0x100 + payload[at + 3] as u32
}

/// Classify a received payload.
pub fn classify(payload: &[u8]) -> (r: PayloadKind)
    ensures
        r == kind_of(payload@),
{
    if payload.len() < HEADER_LEN {
        return PayloadKind::Foreign;
    }
    let magic: u32 = word_at(payload, 0);
    let id: u32 = word_at(payload, 4);
    if magic == MEASURED_MAGIC {
        PayloadKind::Measured { tick: id }
    } else if magic == FENCE_MAGIC {
        PayloadKind::Fence { final_tick: id }
    } else {
        PayloadKind::Foreign
    }
}

/// Which measured ticks arrived, over a window with a known tick count.
///
/// Fixed capacity, allocated once per connection from the run's expected tick
/// count.
#[derive(Debug, Clone)]
pub struct TickSet {
    bits: Vec<u64>,
    expected: u32,
    received: u32,
    duplicates: u32,
}

/// Bit `tick` of a bitmap of 64-bit words.
pub open spec fn bit_at(bits: Seq<u64>, tick: int) -> bool {
    bits[tick / 64] & (1u64 << ((tick % 64) as u64)) != 0
}

proof fn lemma_set_bit(word: u64, set: u64, asked: u64)
    requires
        set < 64,
        asked < 64,
    ensures
        ((word | (1u64 << set)) & (1u64 << asked) != 0) == (set == asked || word & (1u64 << asked)
            != 0),
{
    assert(((word | (1u64 << set)) & (1u64 << asked) != 0) == (set == asked || word & (1u64
        << asked) != 0)) by (bit_vector)
        requires
            set < 64,
            asked < 64,
    ;
}

proof fn lemma_no_bit(asked: u64)
    requires
        asked < 64,
    ensures
        0u64 & (1u64 << asked) == 0,
{
    assert(0u64 & (1u64 << asked) == 0) by (bit_vector);
}

/// The compact inclusive ranges of the ticks below `n` that are not in `arrived`.
pub open spec fn gaps(arrived: Set<int>, n: nat) -> Seq<(u32, u32)>
    decreases n,
{
    if n == 0 {
        Seq::empty()
    } else {
        let last = n - 1;
        let before = gaps(arrived, last as nat);
        if arrived.contains(last) {
            before
        } else if last > 0 && !arrived.contains(last - 1) {
            before.drop_last().push((before.last().0, last as u32))
        } else {
            before.push((last as u32, last as u32))
        }
    }
}

/// Whether `t` lies in one of `ranges`.
pub open spec fn covered(ranges: Seq<(u32, u32)>, t: int) -> bool {
    exists|i: int| 0 <= i < ranges.len() && (#[trigger] ranges[i]).0 <= t <= ranges[i].1
}

/// `ranges` are exactly the maximal runs of ticks below `n` that are missing from
/// `arrived`, in ascending order and never touching.
pub open spec fn exact_gaps(ranges: Seq<(u32, u32)>, arrived: Set<int>, n: int) -> bool {
    &&& forall|i: int|
        0 <= i < ranges.len() ==> (#[trigger] ranges[i]).0 <= ranges[i].1 < n
    &&& forall|i: int|
        0 < i < ranges.len() ==> ranges[i - 1].1 + 1 < (#[trigger] ranges[i]).0
    &&& forall|t: int|
        0 <= t < n ==> ((!#[trigger] arrived.contains(t)) == covered(ranges, t))
}

proof fn lemma_covered_push(ranges: Seq<(u32, u32)>, r: (u32, u32), t: int)
    ensures
        covered(ranges.push(r), t) == (covered(ranges, t) || r.0 <= t <= r.1),
{
    let more = ranges.push(r);
    if covered(ranges, t) {
        let i = choose|i: int|
            0 <= i < ranges.len() && (#[trigger] ranges[i]).0 <= t <= ranges[i].1;
        assert(more[i].0 <= t <= more[i].1);
    }
    if r.0 <= t <= r.1 {
        assert(more[ranges.len() as int].0 <= t <= more[ranges.len() as int].1);
    }
    if covered(more, t) {
        let i = choose|i: int| 0 <= i < more.len() && (#[trigger] more[i]).0 <= t <= more[i].1;
        if i < ranges.len() {
            assert(ranges[i].0 <= t <= ranges[i].1);
        }
    }
}

/// The missing ranges are compact and exact.
pub proof fn gaps_are_exact(arrived: Set<int>, n: nat)
    requires
        n <= u32::MAX,
    ensures
        exact_gaps(gaps(arrived, n), arrived, n as int),
        n > 0 && !arrived.contains(n - 1) ==> gaps(arrived, n).len() > 0 && gaps(
            arrived,
            n,
        ).last().1 == n - 1,
        gaps(arrived, n).len() > 0 && arrived.contains(n - 1) ==> gaps(arrived, n).last().1 < n - 1,
    decreases n,
{
    if n > 0 {
        let last = n - 1;
        gaps_are_exact(arrived, last as nat);
        let before = gaps(arrived, last as nat);
        let now = gaps(arrived, n);
        if arrived.contains(last) {
            assert(now == before);
            assert(!covered(now, last));
        } else if last > 0 && !arrived.contains(last - 1) {
            lemma_extended(before, arrived, last);
        } else {
            lemma_appended(before, arrived, last);
        }
    } else {
        assert forall|t: int| 0 <= t < 0 implies ((!#[trigger] arrived.contains(t)) == covered(
            gaps(arrived, 0),
            t,
        )) by {}
    }
}

/// The last gap grows by one tick.
proof fn lemma_extended(before: Seq<(u32, u32)>, arrived: Set<int>, last: int)
    requires
        0 < last < u32::MAX,
        exact_gaps(before, arrived, last),
        before.len() > 0,
        before.last().1 == last - 1,
        !arrived.contains(last),
    ensures
        exact_gaps(
            before.drop_last().push((before.last().0, last as u32)),
            arrived,
            last + 1,
        ),
{
    let front = before.drop_last();
    let old_range = before.last();
    let new_range = (old_range.0, last as u32);
    let now = front.push(new_range);
    assert(before =~= front.push(old_range));
    let k = before.len() - 1;
    assert(before[k].0 <= before[k].1);
    assert forall|i: int| 0 <= i < now.len() implies (#[trigger] now[i]).0 <= now[i].1 < last
        + 1 by {
        assert(before[i].0 <= before[i].1 < last);
    }
    assert forall|i: int| 0 < i < now.len() implies now[i - 1].1 + 1 < (#[trigger] now[i]).0 by {
        assert(before[i - 1].1 + 1 < before[i].0);
    }
    assert forall|t: int| 0 <= t < last + 1 implies ((!#[trigger] arrived.contains(t)) == covered(
        now,
        t,
    )) by {
        lemma_covered_push(front, old_range, t);
        lemma_covered_push(front, new_range, t);
    }
}

/// A new gap of one tick opens.
proof fn lemma_appended(before: Seq<(u32, u32)>, arrived: Set<int>, last: int)
    requires
        0 <= last < u32::MAX,
        exact_gaps(before, arrived, last),
        last > 0 ==> arrived.contains(last - 1),
        before.len() > 0 ==> before.last().1 < last - 1,
        !arrived.contains(last),
    ensures
        exact_gaps(before.push((last as u32, last as u32)), arrived, last + 1),
{
    let range = (last as u32, last as u32);
    let now = before.push(range);
    assert forall|i: int| 0 <= i < now.len() implies (#[trigger] now[i]).0 <= now[i].1 < last
        + 1 by {
        if i < before.len() {
            assert(before[i].0 <= before[i].1 < last);
        }
    }
    assert forall|i: int| 0 < i < now.len() implies now[i - 1].1 + 1 < (#[trigger] now[i]).0 by {
        if i < before.len() {
            assert(before[i - 1].1 + 1 < before[i].0);
        }
    }
    assert forall|t: int| 0 <= t < last + 1 implies ((!#[trigger] arrived.contains(t)) == covered(
        now,
        t,
    )) by {
        lemma_covered_push(before, range, t);
    }
}

/// How many ticks lie in `ranges`.
pub open spec fn widths(ranges: Seq<(u32, u32)>) -> int
    decreases ranges.len(),
{
    if ranges.len() == 0 {
        0
    } else {
        widths(ranges.drop_last()) + (ranges.last().1 - ranges.last().0 + 1)
    }
}

/// The gaps hold as many ticks as are missing from the window.
pub proof fn gaps_hold_what_is_missing(arrived: Set<int>, n: nat)
    requires
        n <= u32::MAX,
        arrived.finite(),
    ensures
        widths(gaps(arrived, n)) == n - arrived.intersect(set_int_range(0, n as int)).len(),
    decreases n,
{
    let inside = arrived.intersect(set_int_range(0, n as int));
    if n > 0 {
        let last = n - 1;
        let fewer = arrived.intersect(set_int_range(0, last));
        gaps_hold_what_is_missing(arrived, last as nat);
        gaps_are_exact(arrived, last as nat);
        let before = gaps(arrived, last as nat);
        let now = gaps(arrived, n);
        if arrived.contains(last) {
            assert(inside =~= fewer.insert(last));
        } else {
            assert(inside =~= fewer);
            assert(now.drop_last() =~= if last > 0 && !arrived.contains(last - 1) {
                before.drop_last()
            } else {
                before
            });
        }
    } else {
        assert(inside =~= Set::<int>::empty());
    }
}

/// The ticks of the window that are among `ticks`.
pub open spec fn arrived_of(window: u32, ticks: Seq<u32>) -> Set<int>
    decreases ticks.len(),
{
    if ticks.len() == 0 {
        Set::empty()
    } else if ticks.last() < window {
        arrived_of(window, ticks.drop_last()).insert(ticks.last() as int)
    } else {
        arrived_of(window, ticks.drop_last())
    }
}

/// How often a tick of the window comes again in `ticks`.
pub open spec fn repeats_of(window: u32, ticks: Seq<u32>) -> nat
    decreases ticks.len(),
{
    if ticks.len() == 0 {
        0
    } else {
        let before = ticks.drop_last();
        repeats_of(window, before) + one_if(
            arrived_of(window, before).contains(ticks.last() as int),
        )
    }
}

/// How many of `ticks` lie in the window.
pub open spec fn inside_of(window: u32, ticks: Seq<u32>) -> nat
    decreases ticks.len(),
{
    if ticks.len() == 0 {
        0
    } else {
        inside_of(window, ticks.drop_last()) + one_if(ticks.last() < window)
    }
}

/// Whatever arrives, in whatever order: the ticks that arrived and those that came
/// again are together as many as arrived inside the window, and the gaps hold the rest
/// of the window.
pub proof fn every_tick_is_counted(window: u32, ticks: Seq<u32>)
    ensures
        arrived_of(window, ticks).finite(),
        arrived_of(window, ticks).len() <= window,
        forall|t: int| #[trigger]
            arrived_of(window, ticks).contains(t) ==> 0 <= t < window,
        arrived_of(window, ticks).len() + repeats_of(window, ticks) == inside_of(window, ticks),
        widths(gaps(arrived_of(window, ticks), window as nat)) == window - arrived_of(
            window,
            ticks,
        ).len(),
    decreases ticks.len(),
{
    let arrived = arrived_of(window, ticks);
    if ticks.len() > 0 {
        every_tick_is_counted(window, ticks.drop_last());
    }
    let all = set_int_range(0, window as int);
    lemma_int_range(0, window as int);
    assert(arrived.subset_of(all));
    vstd::set_lib::lemma_len_subset(arrived, all);
    assert(arrived.intersect(all) =~= arrived);
    gaps_hold_what_is_missing(arrived, window as nat);
}

/// `a` for a range of one tick, `a-b` for a longer one.
pub open spec fn range_text(range: (u32, u32)) -> Seq<char> {
    if range.0 == range.1 {
        decimal(range.0 as nat)
    } else {
        decimal(range.0 as nat) + "-"@ + decimal(range.1 as nat)
    }
}

/// Ranges as one field: `a-b,c`, or `none`.
pub open spec fn ranges_text(ranges: Seq<(u32, u32)>) -> Seq<char> {
    if ranges.len() == 0 {
        "none"@
    } else {
        joined(ranges.map_values(|r: (u32, u32)| range_text(r)), ","@)
    }
}

impl TickSet {
    /// The ticks that arrived.
    pub closed spec fn view(&self) -> Set<int> {
        Set::new(|t: int| 0 <= t < self.expected && bit_at(self.bits@, t))
    }

    /// Size of the window.
    pub closed spec fn window(&self) -> u32 {
        self.expected
    }

    /// How often a tick of the window arrived again.
    pub closed spec fn repeats(&self) -> u32 {
        self.duplicates
    }

    /// The bitmap covers the window, and the received count is the number of
    /// ticks in it.
    pub closed spec fn wf(&self) -> bool {
        &&& self.bits@.len() == self.expected as int / 64 + 1
        &&& self@.len() == self.received
    }

    /// The set has taken in `ticks`, one after another, and nothing else.
    pub open spec fn holds(&self, ticks: Seq<u32>) -> bool {
        self@ == arrived_of(self.window(), ticks) && self.repeats() == repeats_of(
            self.window(),
            ticks,
        )
    }

    /// The set holds ticks of its window only.
    pub proof fn lemma_within_window(&self)
        requires
            self.wf(),
        ensures
            self@.finite(),
            self@.len() <= self.window(),
            forall|t: int| #[trigger] self@.contains(t) ==> 0 <= t < self.window(),
    {
        lemma_int_range(0, self.expected as int);
        let all = set_int_range(0, self.expected as int);
        assert(self@.subset_of(all));
        vstd::set_lib::lemma_len_subset(self@, all);
    }

    /// Capacity for ticks `0..expected`.
    pub fn new(expected: u32) -> (r: Self)
        ensures
            r.wf(),
            r@ == Set::<int>::empty(),
            r.window() == expected,
            r.repeats() == 0,
            r.holds(Seq::empty()),
    {
        let count: usize = (expected as usize / 64) + 1;
        let mut bits: Vec<u64> = Vec::new();
        while bits.len() < count
            invariant
                bits@.len() <= count,
                forall|i: int| 0 <= i < bits@.len() ==> bits@[i] == 0,
            decreases count - bits@.len(),
        {
            bits.push(0);
        }
        let set = TickSet { bits, expected, received: 0, duplicates: 0 };
        proof {
            assert forall|t: int| !set@.contains(t) by {
                if 0 <= t < expected {
                    lemma_no_bit((t % 64) as u64);
                    assert(set.bits@[t / 64] == 0);
                }
            }
            assert(set@ =~= Set::<int>::empty());
        }
        set
    }

    fn present(&self, tick: u32) -> (r: bool)
        requires
            self.wf(),
            tick < self.expected,
        ensures
            r == self@.contains(tick as int),
    {
        let word: usize = tick as usize / 64;
        let bit: u64 = (tick % 64) as u64;
        self.bits[word] & (1u64 << bit) != 0
    }

    /// Record a received tick. Returns false for a tick outside the window or a
    /// duplicate, which are counted rather than trusted.
    pub fn insert(&mut self, tick: u32) -> (r: bool)
        requires
            old(self).wf(),
            old(self)@.contains(tick as int) ==> old(self).repeats() < u32::MAX,
        ensures
            final(self).wf(),
            final(self).window() == old(self).window(),
            r == (tick < old(self).window() && !old(self)@.contains(tick as int)),
            final(self)@ == if tick < old(self).window() {
                old(self)@.insert(tick as int)
            } else {
                old(self)@
            },
            final(self).repeats() == old(self).repeats() + if old(self)@.contains(tick as int) {
                1int
            } else {
                0
            },
            final(self)@.len() + final(self).repeats() == old(self)@.len() + old(self).repeats()
                + one_if(tick < old(self).window()),
            forall|ticks: Seq<u32>|
                old(self).holds(ticks) ==> final(self).holds(#[trigger] ticks.push(tick)),
    {
        let ghost before = *self;
        proof {
            assert forall|ticks: Seq<u32>| before.holds(ticks) implies arrived_of(
                before.window(),
                #[trigger] ticks.push(tick),
            ) == (if tick < before.window() {
                before@.insert(tick as int)
            } else {
                before@
            }) && repeats_of(before.window(), ticks.push(tick)) == before.repeats() + one_if(
                before@.contains(tick as int),
            ) by {
                assert(ticks.push(tick).drop_last() =~= ticks);
            }
        }
        if tick >= self.expected {
            return false;
        }
        proof {
            self.lemma_within_window();
        }
        if self.present(tick) {
            self.duplicates += 1;
            assert(self@ =~= before@);
            assert(self@ =~= before@.insert(tick as int));
            return false;
        }
        let word: usize = tick as usize / 64;
        let bit: u64 = (tick % 64) as u64;
        let updated: u64 = self.bits[word] | (1u64 << bit);
        self.bits.set(word, updated);
        proof {
            assert forall|t: int| 0 <= t < self.expected implies bit_at(self.bits@, t) == (t
                == tick || bit_at(before.bits@, t)) by {
                if t / 64 == word {
                    lemma_set_bit(before.bits@[word as int], bit, (t % 64) as u64);
                }
            }
            assert(self@ =~= before@.insert(tick as int));
            let after = before@.insert(tick as int);
            lemma_int_range(0, self.expected as int);
            let all = set_int_range(0, self.expected as int);
            assert(after.subset_of(all));
            vstd::set_lib::lemma_len_subset(after, all);
        }
        self.received += 1;
        assert(self@ =~= before@.insert(tick as int));
        true
    }

    /// Ticks that have not arrived, as compact inclusive ranges.
    pub fn missing_ranges(&self) -> (r: Vec<(u32, u32)>)
        requires
            self.wf(),
        ensures
            r@ == gaps(self@, self.window() as nat),
            exact_gaps(r@, self@, self.window() as int),
            widths(r@) == self.window() - self@.len(),
    {
        let mut ranges: Vec<(u32, u32)> = Vec::new();
        let mut start: Option<u32> = None;
        let mut tick: u32 = 0;
        while tick < self.expected
            invariant
                self.wf(),
                tick <= self.expected,
                (start is Some) == (tick > 0 && !self@.contains(tick - 1)),
                match start {
                    Some(from) => gaps(self@, tick as nat) == ranges@.push(
                        (from, (tick - 1) as u32),
                    ),
                    None => gaps(self@, tick as nat) == ranges@,
                },
            decreases self.expected - tick,
        {
            let ghost before = gaps(self@, tick as nat);
            match (self.present(tick), start) {
                (false, None) => {
                    start = Some(tick);
                },
                (true, Some(from)) => {
                    ranges.push((from, tick - 1));
                    start = None;
                },
                (false, Some(from)) => {
                    assert(before.drop_last() =~= ranges@);
                },
                (true, None) => {},
            }
            tick += 1;
        }
        if let Some(from) = start {
            ranges.push((from, self.expected - 1));
        }
        proof {
            gaps_are_exact(self@, self.expected as nat);
            self.lemma_within_window();
            assert(self@.intersect(set_int_range(0, self.expected as int)) =~= self@);
            gaps_hold_what_is_missing(self@, self.expected as nat);
        }
        ranges
    }

    pub fn received(&self) -> (r: u32)
        requires
            self.wf(),
        ensures
            r == self@.len(),
    {
        self.received
    }

    pub fn duplicates(&self) -> (r: u32)
        ensures
            r == self.repeats(),
    {
        self.duplicates
    }

    pub fn expected(&self) -> (r: u32)
        ensures
            r == self.window(),
    {
        self.expected
    }

    pub fn missing(&self) -> (r: u32)
        requires
            self.wf(),
        ensures
            r == self.window() - self@.len(),
    {
        proof {
            self.lemma_within_window();
        }
        self.expected - self.received
    }

    /// Whether the missing ticks form one contiguous suffix ending at the last
    /// tick of the window -- the shape a truncated tail produces, as opposed to
    /// scatter, which a mid-stream hole produces.
    pub fn missing_is_suffix(&self) -> (r: bool)
        requires
            self.wf(),
        ensures
            r == (self@ == set_int_range(0, self@.len() as int)),
    {
        let ranges = self.missing_ranges();
        proof {
            self.lemma_within_window();
            lemma_suffix(ranges@, self@, self.expected as int);
        }
        if ranges.len() == 0 {
            return true;
        }
        let (from, to) = ranges[ranges.len() - 1];
        to == self.expected - 1 && from == self.received_of_suffix()
    }

    fn received_of_suffix(&self) -> (r: u32)
        requires
            self.wf(),
        ensures
            r == self@.len(),
    {
        // First missing tick of the trailing range equals the count of received
        // ticks when the missing set is exactly that suffix.
        self.received
    }

    /// Total size of the compact missing representation, for reporting.
    pub fn missing_range_count(&self) -> (r: usize)
        requires
            self.wf(),
        ensures
            r == gaps(self@, self.window() as nat).len(),
    {
        self.missing_ranges().len()
    }

    /// Render ranges as `a-b,c-d` for a single-line artifact field.
    pub fn missing_ranges_text(&self) -> (r: String)
        requires
            self.wf(),
        ensures
            r@ == ranges_text(gaps(self@, self.window() as nat)),
    {
        let ranges = self.missing_ranges();
        if ranges.len() == 0 {
            return "none".to_owned();
        }
        let mut parts: Vec<String> = Vec::new();
        let mut i: usize = 0;
        let ghost want = ranges@.map_values(|r: (u32, u32)| range_text(r));
        while i < ranges.len()
            invariant
                i <= ranges@.len(),
                want == ranges@.map_values(|r: (u32, u32)| range_text(r)),
                texts(parts@) == want.take(i as int),
            decreases ranges@.len() - i,
        {
            let (from, to) = ranges[i];
            let mut part = render(from as u64);
            if from != to {
                part.append("-");
                part.append(render(to as u64).as_str());
            }
            proof {
                lemma_texts_push(parts@, part);
                assert(want.take(i + 1) =~= want.take(i as int).push(part@));
            }
            parts.push(part);
            i += 1;
        }
        assert(want.take(want.len() as int) =~= want);
        join(&parts, ",")
    }
}

proof fn lemma_gaps_ascend(ranges: Seq<(u32, u32)>, arrived: Set<int>, n: int, i: int, j: int)
    requires
        exact_gaps(ranges, arrived, n),
        0 <= i <= j < ranges.len(),
    ensures
        i < j ==> ranges[i].1 + 1 < ranges[j].0,
    decreases j - i,
{
    if i + 1 < j {
        lemma_gaps_ascend(ranges, arrived, n, i, j - 1);
        assert(ranges[j - 1].1 + 1 < ranges[j].0);
    } else if i + 1 == j {
        assert(ranges[j - 1].1 + 1 < ranges[j].0);
    }
}

proof fn lemma_after_gap(ranges: Seq<(u32, u32)>, arrived: Set<int>, n: int, k: int)
    requires
        exact_gaps(ranges, arrived, n),
        0 <= k < ranges.len() - 1,
    ensures
        arrived.contains(ranges[k].1 + 1),
{
    let t = ranges[k].1 + 1;
    lemma_gaps_ascend(ranges, arrived, n, k, ranges.len() - 1);
    if !arrived.contains(t) {
        let i = choose|i: int| 0 <= i < ranges.len() && (#[trigger] ranges[i]).0 <= t <= ranges[i].1;
        if i <= k {
            lemma_gaps_ascend(ranges, arrived, n, i, k);
            assert(ranges[k].0 <= ranges[k].1);
        } else {
            lemma_gaps_ascend(ranges, arrived, n, k, i);
        }
    }
}

/// The missing ticks are a suffix exactly when the last gap runs to the end of the
/// window and starts at the number of ticks that arrived.
proof fn lemma_suffix(ranges: Seq<(u32, u32)>, arrived: Set<int>, n: int)
    requires
        0 <= n,
        exact_gaps(ranges, arrived, n),
        arrived.finite(),
        forall|t: int| #[trigger] arrived.contains(t) ==> 0 <= t < n,
    ensures
        ranges.len() == 0 ==> arrived == set_int_range(0, arrived.len() as int),
        ranges.len() > 0 ==> ((ranges.last().1 == n - 1 && ranges.last().0 == arrived.len()) == (
        arrived == set_int_range(0, arrived.len() as int))),
{
    let count = arrived.len() as int;
    let all = set_int_range(0, n);
    lemma_int_range(0, n);
    lemma_int_range(0, count);
    if ranges.len() == 0 {
        assert(arrived =~= all);
    } else {
        let k = ranges.len() - 1;
        let from = ranges[k].0 as int;
        let to = ranges[k].1 as int;
        let below = set_int_range(0, from);
        lemma_int_range(0, from);
        if to == n - 1 {
            assert forall|t: int| arrived.contains(t) implies below.contains(t) by {
                if t >= from {
                    assert(ranges[k].0 <= t <= ranges[k].1);
                }
            }
            assert(arrived.subset_of(below));
            if from == count {
                vstd::set_lib::lemma_subset_equality(arrived, below);
            }
        }
        if arrived == set_int_range(0, count) {
            lemma_trailing_gap(ranges, arrived, n);
        }
    }
}

/// If exactly the ticks below some count arrived, one gap covers all the rest.
proof fn lemma_trailing_gap(ranges: Seq<(u32, u32)>, arrived: Set<int>, n: int)
    requires
        0 <= n,
        exact_gaps(ranges, arrived, n),
        ranges.len() > 0,
        arrived.finite(),
        arrived == set_int_range(0, arrived.len() as int),
    ensures
        ranges.last().1 == n - 1,
        ranges.last().0 == arrived.len(),
{
    let k = ranges.len() - 1;
    let count = arrived.len() as int;
    let from = ranges[k].0 as int;
    assert(ranges[k].0 <= from <= ranges[k].1);
    assert(!arrived.contains(from));
    assert(count <= from);
    let last = n - 1;
    assert(!arrived.contains(last));
    let i = choose|i: int| 0 <= i < ranges.len() && (#[trigger] ranges[i]).0 <= last <= ranges[i].1;
    lemma_gaps_ascend(ranges, arrived, n, i, k);
    assert(ranges[k].0 <= ranges[k].1 < n);
    assert(!arrived.contains(count));
    let j = choose|j: int|
        0 <= j < ranges.len() && (#[trigger] ranges[j]).0 <= count <= ranges[j].1;
    if j < k {
        lemma_after_gap(ranges, arrived, n, j);
        assert(arrived.contains(ranges[j].1 + 1));
        assert(ranges[j].1 + 1 < count);
    }
    assert(j == k);
    assert(from == count);
}

} // verus!
