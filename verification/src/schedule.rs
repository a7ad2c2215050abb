//! The order of a sweep's runs, and which of them are already done.
use crate::matrix::{Axis, AxisText, Cell, Scope, ValueText, axes_text, cell_text, cells_text};
use crate::text::same;
use vstd::multiset::Multiset;
use vstd::prelude::*;

verus! {

// ---------------------------------------------------------------------------
// Shuffling
// ---------------------------------------------------------------------------

/// `n` modulo 2^64.
pub open spec fn wrap(n: int) -> u64 {
    (n % 0x1_0000_0000_0000_0000) as u64
}

/// The next state of the generator.
pub open spec fn next_state(state: u64) -> u64 {
    wrap(state + 0x9e37_79b9_7f4a_7c15)
}

/// The number that a state gives.
pub open spec fn mixed(state: u64) -> u64 {
    let a = wrap((state ^ (state >> 30)) * 0xbf58_476d_1ce4_e5b9);
    let b = wrap((a ^ (a >> 27)) * 0x94d0_49bb_1331_11eb);
    b ^ (b >> 31)
}

/// One step of the SplitMix64 generator.
pub fn splitmix64(state: &mut u64) -> (r: u64)
    ensures
        *final(state) == next_state(*old(state)),
        r == mixed(next_state(*old(state))),
{
    *state = state.wrapping_add(0x9e37_79b9_7f4a_7c15);
    let mut z: u64 = *state;
    z = (z ^ (z >> 30)).wrapping_mul(0xbf58_476d_1ce4_e5b9);
    z = (z ^ (z >> 27)).wrapping_mul(0x94d0_49bb_1331_11eb);
    z ^ (z >> 31)
}

/// `s` with two elements exchanged.
pub open spec fn exchanged(s: Seq<usize>, i: int, j: int) -> Seq<usize> {
    s.update(i, s[j]).update(j, s[i])
}

/// `s` shuffled from position `i` down.
pub open spec fn shuffled_from(s: Seq<usize>, i: int, state: u64) -> Seq<usize>
    decreases i,
{
    if i <= 0 {
        s
    } else {
        let next = next_state(state);
        let j = mixed(next) as int % (i + 1);
        shuffled_from(exchanged(s, i, j), i - 1, next)
    }
}

/// `s` in the order that `seed` gives.
pub open spec fn shuffled(s: Seq<usize>, seed: u64) -> Seq<usize> {
    shuffled_from(s, s.len() - 1, seed)
}

/// Shuffles `items`; one seed always gives one order.
pub fn shuffle(items: &mut Vec<usize>, seed: u64)
    ensures
        final(items)@ == shuffled(old(items)@, seed),
        final(items)@.len() == old(items)@.len(),
{
    if items.len() < 2 {
        return;
    }
    let mut state: u64 = seed;
    let mut i: usize = items.len() - 1;
    let ghost goal = shuffled(items@, seed);
    while i > 0
        invariant
            i < items@.len(),
            items@.len() == old(items)@.len(),
            shuffled_from(items@, i as int, state) == goal,
        decreases i,
    {
        let ghost before = items@;
        let n: u64 = i as u64;
        let pick: u64 = splitmix64(&mut state);
        let j: usize = if n == u64::MAX {
            pick as usize
        } else {
            (pick % (n + 1)) as usize
        };
        assert(j == pick as int % (i + 1)) by {
            if n == u64::MAX {
                vstd::arithmetic::div_mod::lemma_small_mod(pick as nat, (i + 1) as nat);
            }
        }
        let a: usize = items[i];
        let b: usize = items[j];
        items.set(i, b);
        items.set(j, a);
        assert(items@ =~= exchanged(before, i as int, j as int));
        i -= 1;
    }
}

proof fn lemma_exchange_keeps(s: Seq<usize>, i: int, j: int)
    requires
        0 <= i < s.len(),
        0 <= j < s.len(),
    ensures
        exchanged(s, i, j).to_multiset() == s.to_multiset(),
        exchanged(s, i, j).len() == s.len(),
{
    let once = s.update(i, s[j]);
    vstd::seq_lib::to_multiset_update(s, i, s[j]);
    vstd::seq_lib::to_multiset_update(once, j, s[i]);
    s.to_multiset_ensures();
    if i == j {
        assert(exchanged(s, i, j) =~= s);
    } else {
        assert(once[j] == s[j]);
        assert(s.to_multiset().contains(s[i])) by {
            assert(s.contains(s[i]));
        }
        assert(exchanged(s, i, j).to_multiset() =~= s.to_multiset());
    }
}

/// Shuffling neither loses nor repeats anything.
pub proof fn shuffling_permutes(s: Seq<usize>, i: int, state: u64)
    requires
        i < s.len(),
    ensures
        shuffled_from(s, i, state).to_multiset() == s.to_multiset(),
        shuffled_from(s, i, state).len() == s.len(),
    decreases i,
{
    if i > 0 {
        let next = next_state(state);
        let j = mixed(next) as int % (i + 1);
        lemma_exchange_keeps(s, i, j);
        shuffling_permutes(exchanged(s, i, j), i - 1, next);
    }
}

/// The place that the first draw of a shuffle of `n` items falls on.
pub open spec fn first_draw(n: nat, seed: u64) -> int {
    mixed(next_state(seed)) as int % n as int
}

proof fn lemma_settled(s: Seq<usize>, i: int, state: u64, p: int)
    requires
        i < p < s.len(),
    ensures
        shuffled_from(s, i, state).len() == s.len(),
        shuffled_from(s, i, state)[p] == s[p],
    decreases i,
{
    if i > 0 {
        let next = next_state(state);
        let j = mixed(next) as int % (i + 1);
        lemma_settled(exchanged(s, i, j), i - 1, next, p);
    }
}

/// The order depends on the seed: the first draw settles which item comes last, so
/// that seeds whose first draws differ give different orders of different items.
pub proof fn first_draws_tell_orders_apart(s: Seq<usize>, x: u64, y: u64)
    requires
        s.len() >= 2,
        s.no_duplicates(),
    ensures
        shuffled(s, x).last() == s[first_draw(s.len(), x)],
        shuffled(s, y).last() == s[first_draw(s.len(), y)],
        first_draw(s.len(), x) != first_draw(s.len(), y) ==> shuffled(s, x) != shuffled(s, y),
{
    let last = s.len() - 1;
    let a = first_draw(s.len(), x);
    let b = first_draw(s.len(), y);
    lemma_settled(exchanged(s, last, a), last - 1, next_state(x), last);
    lemma_settled(exchanged(s, last, b), last - 1, next_state(y), last);
}

/// Whether `t` is `s` taken in the order `order`.
pub open spec fn taken_in(s: Seq<usize>, order: Seq<usize>, t: Seq<usize>) -> bool {
    &&& t.len() == s.len()
    &&& order.len() == s.len()
    &&& forall|p: int|
        0 <= p < order.len() ==> #[trigger] order[p] < s.len() && t[p] == s[order[p] as int]
}

proof fn lemma_shuffle_moves(
    s: Seq<usize>,
    order: Seq<usize>,
    t: Seq<usize>,
    i: int,
    state: u64,
)
    requires
        taken_in(s, order, t),
        i < s.len(),
    ensures
        taken_in(s, shuffled_from(order, i, state), shuffled_from(t, i, state)),
    decreases i,
{
    if i > 0 {
        let next = next_state(state);
        let j = mixed(next) as int % (i + 1);
        lemma_shuffle_moves(s, exchanged(order, i, j), exchanged(t, i, j), i - 1, next);
    }
}

/// Shuffling moves positions, by length and seed alone: whatever the items are, the
/// item that comes to stand at a position is the one that stood where shuffling the
/// positions themselves says.
pub proof fn shuffling_moves_positions(s: Seq<usize>, seed: u64)
    requires
        s.len() <= usize::MAX,
    ensures
        taken_in(s, shuffled(counting(s.len()), seed), shuffled(s, seed)),
{
    lemma_shuffle_moves(s, counting(s.len()), s, s.len() - 1, seed);
}

// ---------------------------------------------------------------------------
// Interleaving
// ---------------------------------------------------------------------------

/// Whether a cell has `value` on an axis.
pub open spec fn cell_has(
    cell: Seq<ValueText>,
    name: Seq<char>,
    scope: Scope,
    value: Seq<char>,
) -> bool {
    exists|i: int|
        0 <= i < cell.len() && (#[trigger] cell[i]).axis == name && cell[i].scope == scope
            && cell[i].value == value
}

/// The test for the cells with the `k`-th value of an axis.
pub open spec fn in_lane(
    cells: Seq<Seq<ValueText>>,
    axis: AxisText,
    k: int,
) -> spec_fn(usize) -> bool {
    |i: usize| cell_has(cells[i as int], axis.name, axis.scope, axis.values[k])
}

/// The indices of each of the first `n` values of an axis, in order.
pub open spec fn lanes(
    cells: Seq<Seq<ValueText>>,
    axis: AxisText,
    indices: Seq<usize>,
    n: int,
) -> Seq<Seq<usize>>
    decreases n,
{
    if n <= 0 {
        Seq::empty()
    } else {
        let lane = indices.filter(in_lane(cells, axis, n - 1));
        if lane.len() == 0 {
            lanes(cells, axis, indices, n - 1)
        } else {
            lanes(cells, axis, indices, n - 1).push(lane)
        }
    }
}

/// The `offset`-th element of each of the first `n` groups that has one.
pub open spec fn round_at(groups: Seq<Seq<usize>>, offset: int, n: int) -> Seq<usize>
    decreases n,
{
    if n <= 0 {
        Seq::empty()
    } else if offset < groups[n - 1].len() {
        round_at(groups, offset, n - 1).push(groups[n - 1][offset])
    } else {
        round_at(groups, offset, n - 1)
    }
}

/// The first `rounds` elements of every group, taken in turn.
pub open spec fn rounds_of(groups: Seq<Seq<usize>>, rounds: int) -> Seq<usize>
    decreases rounds,
{
    if rounds <= 0 {
        Seq::empty()
    } else {
        rounds_of(groups, rounds - 1) + round_at(groups, rounds - 1, groups.len() as int)
    }
}

/// The length of the longest group.
pub open spec fn longest(groups: Seq<Seq<usize>>) -> nat
    decreases groups.len(),
{
    if groups.len() == 0 {
        0
    } else if groups.last().len() > longest(groups.drop_last()) {
        groups.last().len()
    } else {
        longest(groups.drop_last())
    }
}

/// All groups, their elements taken in turn.
pub open spec fn round_robin(groups: Seq<Seq<usize>>) -> Seq<usize> {
    rounds_of(groups, longest(groups) as int)
}

/// `indices` interleaved by the axes from `depth` on.
pub open spec fn interleaved(
    cells: Seq<Seq<ValueText>>,
    axes: Seq<AxisText>,
    depth: int,
    indices: Seq<usize>,
) -> Seq<usize>
    decreases axes.len() - depth, 0nat,
{
    if depth < 0 || depth >= axes.len() || indices.len() < 2 {
        indices
    } else {
        let groups = lanes(cells, axes[depth], indices, axes[depth].values.len() as int);
        if groups.len() < 2 {
            interleaved(cells, axes, depth + 1, indices)
        } else {
            round_robin(each_interleaved(cells, axes, depth + 1, groups))
        }
    }
}

/// Every group interleaved by the axes from `depth` on.
pub open spec fn each_interleaved(
    cells: Seq<Seq<ValueText>>,
    axes: Seq<AxisText>,
    depth: int,
    groups: Seq<Seq<usize>>,
) -> Seq<Seq<usize>>
    decreases axes.len() - depth, groups.len(),
{
    if groups.len() == 0 {
        Seq::empty()
    } else {
        each_interleaved(cells, axes, depth, groups.drop_last()).push(
            interleaved(cells, axes, depth, groups.last()),
        )
    }
}

proof fn lemma_each_interleaved(
    cells: Seq<Seq<ValueText>>,
    axes: Seq<AxisText>,
    depth: int,
    groups: Seq<Seq<usize>>,
)
    ensures
        each_interleaved(cells, axes, depth, groups).len() == groups.len(),
        forall|g: int|
            0 <= g < groups.len() ==> #[trigger] each_interleaved(cells, axes, depth, groups)[g]
                == interleaved(cells, axes, depth, groups[g]),
    decreases groups.len(),
{
    if groups.len() > 0 {
        lemma_each_interleaved(cells, axes, depth, groups.drop_last());
    }
}

fn has_value(cell: &Cell, name: &str, scope: Scope, value: &str) -> (r: bool)
    ensures
        r == cell_has(cell_text(cell@), name@, scope, value@),
{
    let ghost all = cell_text(cell@);
    let mut i: usize = 0;
    while i < cell.len()
        invariant
            i <= cell@.len(),
            all == cell_text(cell@),
            forall|j: int|
                0 <= j < i ==> !((#[trigger] all[j]).axis == name@ && all[j].scope == scope
                    && all[j].value == value@),
        decreases cell@.len() - i,
    {
        assert(all[i as int] == cell@[i as int]@);
        if cell[i].scope == scope && same(cell[i].axis.as_str(), name) && same(
            cell[i].value.as_str(),
            value,
        ) {
            return true;
        }
        i += 1;
    }
    false
}

/// The groups as sequences.
pub open spec fn groups_text(groups: Seq<Vec<usize>>) -> Seq<Seq<usize>> {
    groups.map_values(|g: Vec<usize>| g@)
}

/// Splits `indices` by the values of an axis; values that no cell has give no group.
pub fn axis_groups(cells: &Vec<Cell>, axis: &Axis, indices: &Vec<usize>) -> (r: Vec<Vec<usize>>)
    requires
        forall|i: int| 0 <= i < indices@.len() ==> #[trigger] indices@[i] < cells@.len(),
    ensures
        groups_text(r@) == lanes(
            cells_text(cells@),
            axis@,
            indices@,
            axis.values@.len() as int,
        ),
{
    let ghost text = cells_text(cells@);
    let mut groups: Vec<Vec<usize>> = Vec::new();
    let mut k: usize = 0;
    assert(groups_text(groups@) =~= lanes(text, axis@, indices@, 0));
    while k < axis.values.len()
        invariant
            k <= axis.values@.len(),
            text == cells_text(cells@),
            forall|i: int| 0 <= i < indices@.len() ==> #[trigger] indices@[i] < cells@.len(),
            groups_text(groups@) == lanes(text, axis@, indices@, k as int),
        decreases axis.values@.len() - k,
    {
        let ghost keep = in_lane(text, axis@, k as int);
        let mut lane: Vec<usize> = Vec::new();
        let mut i: usize = 0;
        proof {
            reveal(Seq::filter);
            assert(lane@ =~= indices@.take(0).filter(keep));
            assert(axis@.values[k as int] == axis.values@[k as int]@);
        }
        while i < indices.len()
            invariant
                i <= indices@.len(),
                k < axis.values@.len(),
                text == cells_text(cells@),
                axis@.values[k as int] == axis.values@[k as int]@,
                keep == in_lane(text, axis@, k as int),
                forall|i: int| 0 <= i < indices@.len() ==> #[trigger] indices@[i] < cells@.len(),
                lane@ == indices@.take(i as int).filter(keep),
            decreases indices@.len() - i,
        {
            let at: usize = indices[i];
            proof {
                reveal(Seq::filter);
                assert(indices@.take(i + 1).drop_last() =~= indices@.take(i as int));
                assert(text[at as int] == cell_text(cells@[at as int]@));
            }
            if has_value(
                &cells[at],
                axis.name.as_str(),
                axis.scope,
                axis.values[k].as_str(),
            ) {
                lane.push(at);
            }
            i += 1;
        }
        assert(indices@.take(indices@.len() as int) =~= indices@);
        if lane.len() > 0 {
            assert(groups_text(groups@.push(lane)) =~= groups_text(groups@).push(lane@));
            groups.push(lane);
        }
        k += 1;
    }
    groups
}

/// Takes one element of every group in turn until all are used up.
pub fn round_robin_groups(groups: &Vec<Vec<usize>>) -> (r: Vec<usize>)
    ensures
        r@ == round_robin(groups_text(groups@)),
{
    let ghost text = groups_text(groups@);
    let mut most: usize = 0;
    let mut g: usize = 0;
    assert(text.take(0) =~= Seq::<Seq<usize>>::empty());
    while g < groups.len()
        invariant
            g <= groups@.len(),
            text == groups_text(groups@),
            most == longest(text.take(g as int)),
        decreases groups@.len() - g,
    {
        assert(text.take(g + 1).drop_last() =~= text.take(g as int));
        assert(text[g as int] == groups@[g as int]@);
        if groups[g].len() > most {
            most = groups[g].len();
        }
        g += 1;
    }
    assert(text.take(text.len() as int) =~= text);
    let mut out: Vec<usize> = Vec::new();
    let mut offset: usize = 0;
    assert(out@ =~= rounds_of(text, 0));
    while offset < most
        invariant
            offset <= most,
            text == groups_text(groups@),
            out@ == rounds_of(text, offset as int),
        decreases most - offset,
    {
        let ghost before = out@;
        let mut g: usize = 0;
        assert(before + round_at(text, offset as int, 0) =~= before);
        while g < groups.len()
            invariant
                g <= groups@.len(),
                text == groups_text(groups@),
                out@ == before + round_at(text, offset as int, g as int),
            decreases groups@.len() - g,
        {
            assert(text[g as int] == groups@[g as int]@);
            if offset < groups[g].len() {
                let x: usize = groups[g][offset];
                out.push(x);
                assert(out@ =~= before + round_at(text, offset as int, g + 1));
            }
            g += 1;
        }
        assert(text.len() == groups@.len());
        offset += 1;
    }
    out
}

/// Round-robin each level so that runtime, ingress, encryption and the other axes
/// are spread through the run instead of appearing in one long block.
pub fn visit_interleaved(
    cells: &Vec<Cell>,
    axes: &Vec<Axis>,
    depth: usize,
    indices: Vec<usize>,
) -> (r: Vec<usize>)
    requires
        forall|i: int| 0 <= i < indices@.len() ==> #[trigger] indices@[i] < cells@.len(),
        depth <= axes@.len(),
    ensures
        r@ == interleaved(cells_text(cells@), axes_text(axes@), depth as int, indices@),
    decreases axes@.len() - depth,
{
    let ghost text = cells_text(cells@);
    let ghost all = axes_text(axes@);
    if depth >= axes.len() || indices.len() < 2 {
        return indices;
    }
    assert(all[depth as int] == axes@[depth as int]@);
    assert(all[depth as int].values.len() == axes@[depth as int].values@.len());
    let groups = axis_groups(cells, &axes[depth], &indices);
    let ghost split = groups_text(groups@);
    if groups.len() < 2 {
        return visit_interleaved(cells, axes, depth + 1, indices);
    }
    let mut visited: Vec<Vec<usize>> = Vec::new();
    let next: usize = depth + 1;
    let mut g: usize = 0;
    assert(groups_text(visited@) =~= each_interleaved(text, all, next as int, split.take(0)));
    while g < groups.len()
        invariant
            g <= groups@.len(),
            next == depth + 1 <= axes@.len(),
            text == cells_text(cells@),
            all == axes_text(axes@),
            split == groups_text(groups@),
            split == lanes(text, axes@[depth as int]@, indices@, axes@[depth as int].values@.len() as int),
            forall|i: int| 0 <= i < indices@.len() ==> #[trigger] indices@[i] < cells@.len(),
            groups_text(visited@) == each_interleaved(
                text,
                all,
                next as int,
                split.take(g as int),
            ),
        decreases groups@.len() - g,
    {
        assert(split[g as int] == groups@[g as int]@);
        proof {
            lemma_lanes_within(
                text,
                axes@[depth as int]@,
                indices@,
                axes@[depth as int].values@.len() as int,
            );
            assert forall|i: int| 0 <= i < groups@[g as int]@.len() implies #[trigger] groups@[g as int]@[i]
                < cells@.len() by {
                assert(indices@.contains(split[g as int][i]));
                let at = indices@.index_of(split[g as int][i]);
                assert(indices@[at] < cells@.len());
            }
        }
        let group = copy_indices(&groups[g]);
        let inner = visit_interleaved(cells, axes, next, group);
        proof {
            assert(groups_text(visited@.push(inner)) =~= groups_text(visited@).push(inner@));
            assert(split.take(g + 1).drop_last() =~= split.take(g as int));
        }
        visited.push(inner);
        g += 1;
    }
    assert(split.take(split.len() as int) =~= split);
    assert(split.len() == groups@.len());
    round_robin_groups(&visited)
}

fn copy_indices(v: &Vec<usize>) -> (r: Vec<usize>)
    ensures
        r@ == v@,
{
    let mut out: Vec<usize> = Vec::new();
    let mut i: usize = 0;
    while i < v.len()
        invariant
            i <= v@.len(),
            out@ == v@.take(i as int),
        decreases v@.len() - i,
    {
        out.push(v[i]);
        i += 1;
        assert(out@ =~= v@.take(i as int));
    }
    assert(v@.take(v@.len() as int) =~= v@);
    out
}

/// The numbers below `n`, in order.
pub open spec fn counting(n: nat) -> Seq<usize> {
    Seq::new(n, |i: int| i as usize)
}

/// The numbers below `n`, in order.
pub(crate) fn count_up_to(n: usize) -> (r: Vec<usize>)
    ensures
        r@ == counting(n as nat),
{
    let mut out: Vec<usize> = Vec::new();
    while out.len() < n
        invariant
            out@.len() <= n,
            out@ == counting(out@.len()),
        decreases n - out@.len(),
    {
        let next: usize = out.len();
        out.push(next);
        assert(out@ =~= counting(out@.len()));
    }
    out
}

/// The indices of all cells, interleaved.
pub fn interleave_indices(cells: &Vec<Cell>, axes: &Vec<Axis>) -> (r: Vec<usize>)
    ensures
        r@ == interleaved(cells_text(cells@), axes_text(axes@), 0, counting(cells@.len())),
{
    let n: usize = cells.len();
    visit_interleaved(cells, axes, 0, count_up_to(n))
}

proof fn lemma_filter_within(s: Seq<usize>, p: spec_fn(usize) -> bool)
    ensures
        s.filter(p).len() <= s.len(),
        forall|i: int| 0 <= i < s.filter(p).len() ==> s.contains(#[trigger] s.filter(p)[i]) && p(
            s.filter(p)[i],
        ),
    decreases s.len(),
{
    reveal(Seq::filter);
    if s.len() > 0 {
        let rest = s.drop_last();
        lemma_filter_within(rest, p);
        assert forall|i: int| 0 <= i < s.filter(p).len() implies s.contains(
            #[trigger] s.filter(p)[i],
        ) && p(s.filter(p)[i]) by {
            if i < rest.filter(p).len() {
                let x = rest.filter(p)[i];
                assert(s.filter(p)[i] == x);
                let j = rest.index_of(x);
                assert(s[j] == x);
            } else {
                assert(s.filter(p)[i] == s[s.len() - 1]);
            }
        }
    }
}

proof fn lemma_lanes_within(
    cells: Seq<Seq<ValueText>>,
    axis: AxisText,
    indices: Seq<usize>,
    n: int,
)
    requires
        n <= axis.values.len(),
    ensures
        forall|g: int, i: int|
            0 <= g < lanes(cells, axis, indices, n).len() && 0 <= i < lanes(
                cells,
                axis,
                indices,
                n,
            )[g].len() ==> indices.contains(#[trigger] lanes(cells, axis, indices, n)[g][i]),
    decreases n,
{
    if n > 0 {
        lemma_lanes_within(cells, axis, indices, n - 1);
        lemma_filter_within(indices, in_lane(cells, axis, n - 1));
        let all = lanes(cells, axis, indices, n);
        let before = lanes(cells, axis, indices, n - 1);
        let lane = indices.filter(in_lane(cells, axis, n - 1));
        assert forall|g: int, i: int|
            0 <= g < all.len() && 0 <= i < all[g].len() implies indices.contains(
            #[trigger] all[g][i],
        ) by {
            if g < before.len() {
                assert(all[g] == before[g]);
                assert(indices.contains(before[g][i]));
            } else {
                assert(all[g] == lane);
                assert(indices.contains(lane[i]));
            }
        }
    }
}

// ---------------------------------------------------------------------------
// Interleaving keeps every cell exactly once
// ---------------------------------------------------------------------------

/// The elements of all groups together.
pub open spec fn gathered(groups: Seq<Seq<usize>>) -> Multiset<usize>
    decreases groups.len(),
{
    if groups.len() == 0 {
        Multiset::empty()
    } else {
        gathered(groups.drop_last()).add(groups.last().to_multiset())
    }
}

proof fn lemma_gathered_push(groups: Seq<Seq<usize>>, g: Seq<usize>)
    ensures
        gathered(groups.push(g)) == gathered(groups).add(g.to_multiset()),
{
    assert(groups.push(g).drop_last() =~= groups);
}

/// The first `k` elements of every group.
spec fn clipped(groups: Seq<Seq<usize>>, k: int) -> Seq<Seq<usize>> {
    groups.map_values(
        |g: Seq<usize>|
            g.take(
                if k < g.len() {
                    k
                } else {
                    g.len() as int
                },
            ),
    )
}

proof fn lemma_round_grows(groups: Seq<Seq<usize>>, k: int, n: int)
    requires
        0 <= n <= groups.len(),
        0 <= k,
    ensures
        gathered(clipped(groups, k + 1).take(n)) == gathered(clipped(groups, k).take(n)).add(
            round_at(groups, k, n).to_multiset(),
        ),
    decreases n,
{
    if n == 0 {
        assert(gathered(clipped(groups, k + 1).take(0)) =~= gathered(
            clipped(groups, k).take(0),
        ).add(round_at(groups, k, 0).to_multiset())) by {
            Seq::<usize>::empty().to_multiset_ensures();
        }
    } else {
        lemma_round_grows(groups, k, n - 1);
        let a = clipped(groups, k).take(n);
        let b = clipped(groups, k + 1).take(n);
        assert(a.drop_last() =~= clipped(groups, k).take(n - 1));
        assert(b.drop_last() =~= clipped(groups, k + 1).take(n - 1));
        let g = groups[n - 1];
        round_at(groups, k, n - 1).to_multiset_ensures();
        if k < g.len() {
            assert(a.last() =~= g.take(k));
            assert(b.last() =~= g.take(k + 1));
            assert(g.take(k + 1) =~= g.take(k).push(g[k]));
            g.take(k).to_multiset_ensures();
            assert(gathered(b) =~= gathered(a).add(round_at(groups, k, n).to_multiset()));
        } else {
            assert(a.last() =~= g);
            assert(b.last() =~= g);
            assert(gathered(b) =~= gathered(a).add(round_at(groups, k, n).to_multiset()));
        }
    }
}

proof fn lemma_rounds_gather(groups: Seq<Seq<usize>>, k: int)
    requires
        0 <= k,
    ensures
        rounds_of(groups, k).to_multiset() == gathered(clipped(groups, k)),
    decreases k,
{
    let n = groups.len() as int;
    if k == 0 {
        lemma_clipped_nothing(groups);
        Seq::<usize>::empty().to_multiset_ensures();
        assert(rounds_of(groups, 0).to_multiset() =~= Multiset::<usize>::empty());
    } else {
        lemma_rounds_gather(groups, k - 1);
        lemma_round_grows(groups, k - 1, n);
        assert(clipped(groups, k).take(n) =~= clipped(groups, k));
        assert(clipped(groups, k - 1).take(n) =~= clipped(groups, k - 1));
        vstd::seq_lib::lemma_multiset_commutative(
            rounds_of(groups, k - 1),
            round_at(groups, k - 1, n),
        );
    }
}

proof fn lemma_clipped_nothing(groups: Seq<Seq<usize>>)
    ensures
        gathered(clipped(groups, 0)) == Multiset::<usize>::empty(),
    decreases groups.len(),
{
    if groups.len() > 0 {
        lemma_clipped_nothing(groups.drop_last());
        assert(clipped(groups, 0).drop_last() =~= clipped(groups.drop_last(), 0));
        assert(clipped(groups, 0).last() =~= Seq::<usize>::empty());
        Seq::<usize>::empty().to_multiset_ensures();
        assert(gathered(clipped(groups, 0)) =~= Multiset::<usize>::empty());
    }
}

proof fn lemma_longest(groups: Seq<Seq<usize>>)
    ensures
        forall|i: int| 0 <= i < groups.len() ==> (#[trigger] groups[i]).len() <= longest(groups),
    decreases groups.len(),
{
    if groups.len() > 0 {
        let rest = groups.drop_last();
        lemma_longest(rest);
        assert forall|i: int| 0 <= i < groups.len() implies (#[trigger] groups[i]).len() <= longest(
            groups,
        ) by {
            if i < rest.len() {
                assert(rest[i] == groups[i]);
            }
        }
    }
}

/// Taking groups in turn uses up every element exactly once.
pub proof fn round_robin_keeps_everything(groups: Seq<Seq<usize>>)
    ensures
        round_robin(groups).to_multiset() == gathered(groups),
{
    lemma_longest(groups);
    lemma_rounds_gather(groups, longest(groups) as int);
    assert(clipped(groups, longest(groups) as int) =~= groups) by {
        assert forall|i: int| 0 <= i < groups.len() implies clipped(
            groups,
            longest(groups) as int,
        )[i] == groups[i] by {
            assert(groups[i].len() <= longest(groups));
            assert(groups[i].take(groups[i].len() as int) =~= groups[i]);
        }
    }
}

/// Cell `x` has exactly one of the values of an axis.
pub open spec fn one_value(cells: Seq<Seq<ValueText>>, axis: AxisText, x: usize) -> bool {
    &&& exists|k: int| 0 <= k < axis.values.len() && #[trigger] in_lane(cells, axis, k)(x)
    &&& forall|a: int, b: int|
        0 <= a < axis.values.len() && 0 <= b < axis.values.len() && #[trigger] in_lane(
            cells,
            axis,
            a,
        )(x) && #[trigger] in_lane(cells, axis, b)(x) ==> a == b
}

/// Every listed cell has exactly one of the values of an axis.
pub open spec fn one_value_each(
    cells: Seq<Seq<ValueText>>,
    axis: AxisText,
    indices: Seq<usize>,
) -> bool {
    forall|i: int| 0 <= i < indices.len() ==> one_value(cells, axis, #[trigger] indices[i])
}

/// Whether one of the first `n` values of the axis is that of cell `i`.
spec fn among(cells: Seq<Seq<ValueText>>, axis: AxisText, n: int) -> spec_fn(usize) -> bool {
    |i: usize| exists|k: int| 0 <= k < n && #[trigger] in_lane(cells, axis, k)(i)
}

proof fn lemma_split_filter(
    s: Seq<usize>,
    p: spec_fn(usize) -> bool,
    q: spec_fn(usize) -> bool,
    both: spec_fn(usize) -> bool,
)
    requires
        forall|i: int|
            0 <= i < s.len() ==> (both(#[trigger] s[i]) <==> p(s[i]) || q(s[i])) && !(p(s[i]) && q(
                s[i],
            )),
    ensures
        s.filter(both).to_multiset() == s.filter(p).to_multiset().add(s.filter(q).to_multiset()),
    decreases s.len(),
{
    reveal(Seq::filter);
    if s.len() == 0 {
        Seq::<usize>::empty().to_multiset_ensures();
        assert(s.filter(both) =~= Seq::<usize>::empty());
        assert(s.filter(p) =~= Seq::<usize>::empty());
        assert(s.filter(q) =~= Seq::<usize>::empty());
        assert(s.filter(both).to_multiset() =~= s.filter(p).to_multiset().add(
            s.filter(q).to_multiset(),
        ));
    } else {
        let rest = s.drop_last();
        assert forall|i: int| 0 <= i < rest.len() implies (both(#[trigger] rest[i]) <==> p(rest[i])
            || q(rest[i])) && !(p(rest[i]) && q(rest[i])) by {
            assert(rest[i] == s[i]);
        }
        lemma_split_filter(rest, p, q, both);
        assert(s[s.len() - 1] == s.last());
        rest.filter(both).to_multiset_ensures();
        rest.filter(p).to_multiset_ensures();
        rest.filter(q).to_multiset_ensures();
        assert(s.filter(both).to_multiset() =~= s.filter(p).to_multiset().add(
            s.filter(q).to_multiset(),
        ));
    }
}

proof fn lemma_lanes_gather(
    cells: Seq<Seq<ValueText>>,
    axis: AxisText,
    indices: Seq<usize>,
    n: int,
)
    requires
        0 <= n <= axis.values.len(),
        one_value_each(cells, axis, indices),
    ensures
        gathered(lanes(cells, axis, indices, n)) == indices.filter(
            among(cells, axis, n),
        ).to_multiset(),
    decreases n,
{
    if n == 0 {
        lemma_filter_nothing(indices, among(cells, axis, 0));
        Seq::<usize>::empty().to_multiset_ensures();
        assert(gathered(lanes(cells, axis, indices, 0)) =~= Multiset::<usize>::empty());
        assert(Seq::<usize>::empty().to_multiset() =~= Multiset::<usize>::empty());
    } else {
        lemma_lanes_gather(cells, axis, indices, n - 1);
        let p = among(cells, axis, n - 1);
        let q = in_lane(cells, axis, n - 1);
        let both = among(cells, axis, n);
        assert forall|i: int| 0 <= i < indices.len() implies (both(#[trigger] indices[i]) <==> p(
            indices[i],
        ) || q(indices[i])) && !(p(indices[i]) && q(indices[i])) by {
            let x = indices[i];
            assert(one_value(cells, axis, x));
            if both(x) {
                let k = choose|k: int| 0 <= k < n && #[trigger] in_lane(cells, axis, k)(x);
                if k < n - 1 {
                    assert(in_lane(cells, axis, k)(x));
                }
            }
            if p(x) {
                let k = choose|k: int| 0 <= k < n - 1 && #[trigger] in_lane(cells, axis, k)(x);
                assert(in_lane(cells, axis, k)(x));
                if q(x) {
                    assert(in_lane(cells, axis, n - 1)(x));
                    assert(k == n - 1);
                }
            }
            if q(x) {
                assert(in_lane(cells, axis, n - 1)(x));
            }
        }
        lemma_split_filter(indices, p, q, both);
        let before = lanes(cells, axis, indices, n - 1);
        let lane = indices.filter(q);
        if lane.len() == 0 {
            assert(lane =~= Seq::<usize>::empty());
            Seq::<usize>::empty().to_multiset_ensures();
            assert(gathered(before) =~= gathered(before).add(lane.to_multiset()));
        } else {
            lemma_gathered_push(before, lane);
        }
    }
}

proof fn lemma_filter_nothing(s: Seq<usize>, p: spec_fn(usize) -> bool)
    requires
        forall|i: int| 0 <= i < s.len() ==> !p(#[trigger] s[i]),
    ensures
        s.filter(p) == Seq::<usize>::empty(),
    decreases s.len(),
{
    reveal(Seq::filter);
    if s.len() > 0 {
        let rest = s.drop_last();
        assert forall|i: int| 0 <= i < rest.len() implies !p(#[trigger] rest[i]) by {
            assert(rest[i] == s[i]);
        }
        lemma_filter_nothing(rest, p);
        assert(!p(s[s.len() - 1]));
    } else {
        assert(s.filter(p) =~= Seq::<usize>::empty());
    }
}

proof fn lemma_filter_all(s: Seq<usize>, p: spec_fn(usize) -> bool)
    requires
        forall|i: int| 0 <= i < s.len() ==> p(#[trigger] s[i]),
    ensures
        s.filter(p) == s,
    decreases s.len(),
{
    reveal(Seq::filter);
    if s.len() > 0 {
        let rest = s.drop_last();
        assert forall|i: int| 0 <= i < rest.len() implies p(#[trigger] rest[i]) by {
            assert(rest[i] == s[i]);
        }
        lemma_filter_all(rest, p);
        assert(p(s[s.len() - 1]));
        assert(s.filter(p) =~= s);
    } else {
        assert(s.filter(p) =~= s);
    }
}

proof fn lemma_gathered_mapped(a: Seq<Seq<usize>>, b: Seq<Seq<usize>>)
    requires
        a.len() == b.len(),
        forall|i: int|
            0 <= i < a.len() ==> (#[trigger] a[i]).to_multiset() == b[i].to_multiset(),
    ensures
        gathered(a) == gathered(b),
    decreases a.len(),
{
    if a.len() > 0 {
        let c = a.drop_last();
        let d = b.drop_last();
        assert forall|i: int| 0 <= i < c.len() implies (#[trigger] c[i]).to_multiset()
            == d[i].to_multiset() by {
            assert(c[i] == a[i] && d[i] == b[i]);
        }
        lemma_gathered_mapped(c, d);
        assert(a[a.len() - 1].to_multiset() == b[b.len() - 1].to_multiset());
    }
}

/// Interleaving spreads the cells without losing or repeating one, as long as every
/// cell has exactly one value of every axis.
pub proof fn interleaving_permutes(
    cells: Seq<Seq<ValueText>>,
    axes: Seq<AxisText>,
    depth: int,
    indices: Seq<usize>,
)
    requires
        0 <= depth,
        forall|d: int| depth <= d < axes.len() ==> one_value_each(cells, #[trigger] axes[d], indices),
    ensures
        interleaved(cells, axes, depth, indices).to_multiset() == indices.to_multiset(),
    decreases axes.len() - depth,
{
    if depth < axes.len() && indices.len() >= 2 {
        let axis = axes[depth];
        let n = axis.values.len() as int;
        let groups = lanes(cells, axis, indices, n);
        if groups.len() < 2 {
            interleaving_permutes(cells, axes, depth + 1, indices);
        } else {
            let inner = each_interleaved(cells, axes, depth + 1, groups);
            lemma_each_interleaved(cells, axes, depth + 1, groups);
            lemma_lanes_within(cells, axis, indices, n);
            assert forall|g: int| 0 <= g < groups.len() implies (#[trigger] inner[g]).to_multiset()
                == groups[g].to_multiset() by {
                assert forall|d: int| depth + 1 <= d < axes.len() implies one_value_each(
                    cells,
                    #[trigger] axes[d],
                    groups[g],
                ) by {
                    assert(one_value_each(cells, axes[d], indices));
                    lemma_one_value_subset(cells, axes[d], indices, groups[g]);
                }
                interleaving_permutes(cells, axes, depth + 1, groups[g]);
            }
            lemma_gathered_mapped(inner, groups);
            round_robin_keeps_everything(inner);
            assert(one_value_each(cells, axis, indices));
            lemma_lanes_gather(cells, axis, indices, n);
            let p = among(cells, axis, n);
            assert forall|i: int| 0 <= i < indices.len() implies p(#[trigger] indices[i]) by {
                assert(one_value(cells, axis, indices[i]));
                let k = choose|k: int|
                    0 <= k < axis.values.len() && #[trigger] in_lane(cells, axis, k)(indices[i]);
                assert(in_lane(cells, axis, k)(indices[i]));
            }
            lemma_filter_all(indices, p);
        }
    }
}

proof fn lemma_one_value_subset(
    cells: Seq<Seq<ValueText>>,
    axis: AxisText,
    indices: Seq<usize>,
    some: Seq<usize>,
)
    requires
        one_value_each(cells, axis, indices),
        forall|i: int| 0 <= i < some.len() ==> indices.contains(#[trigger] some[i]),
    ensures
        one_value_each(cells, axis, some),
{
    assert forall|i: int| 0 <= i < some.len() implies one_value(cells, axis, #[trigger] some[i]) by {
        let j = indices.index_of(some[i]);
        assert(one_value(cells, axis, indices[j]));
    }
}

} // verus!
