//! Running a sweep: what is scheduled, what each role is told, and what came of it.
use crate::matrix::{Axis, AxisText, Cell, ValueText, axes_text, cell_text, cells_text};
use crate::plan::MatrixOrder;
use crate::record::{
    Record, cell_key, cell_key_text, field_count, field_in, record_key, record_key_text,
};
use crate::schedule::{
    count_up_to, counting, interleave_indices, interleaved, interleaving_permutes, one_value_each,
    shuffle, shuffled, shuffling_permutes,
};
use crate::text::{first_where, lemma_first_where, lemma_texts_push, same, texts};
use vstd::prelude::*;

verus! {

// ---------------------------------------------------------------------------
// Schedule
// ---------------------------------------------------------------------------

/// The first `reps` repetitions of a cell.
pub open spec fn repeats(cell: usize, reps: int) -> Seq<(usize, usize)>
    decreases reps,
{
    if reps <= 0 {
        Seq::empty()
    } else {
        repeats(cell, reps - 1).push((cell, reps as usize))
    }
}

/// All repetitions of the first `n` cells of `order`, cell by cell.
pub open spec fn cell_by_cell(order: Seq<usize>, n: int, reps: int) -> Seq<(usize, usize)>
    decreases n,
{
    if n <= 0 {
        Seq::empty()
    } else {
        cell_by_cell(order, n - 1, reps) + repeats(order[n - 1], reps)
    }
}

/// The first `n` cells of `order`, for one repetition.
pub open spec fn one_round(order: Seq<usize>, n: int, rep: int) -> Seq<(usize, usize)>
    decreases n,
{
    if n <= 0 {
        Seq::empty()
    } else {
        one_round(order, n - 1, rep).push((order[n - 1], rep as usize))
    }
}

/// All cells of `order`, repetition by repetition.
pub open spec fn round_by_round(order: Seq<usize>, reps: int) -> Seq<(usize, usize)>
    decreases reps,
{
    if reps <= 0 {
        Seq::empty()
    } else {
        round_by_round(order, reps - 1) + one_round(order, order.len() as int, reps)
    }
}

/// The order of the cells.
pub open spec fn cell_order(
    cells: Seq<Seq<ValueText>>,
    axes: Seq<AxisText>,
    order: MatrixOrder,
    seed: u64,
) -> Seq<usize> {
    match order {
        MatrixOrder::Default => counting(cells.len()),
        MatrixOrder::Interleaved => interleaved(cells, axes, 0, counting(cells.len())),
        MatrixOrder::Random => shuffled(counting(cells.len()), seed),
    }
}

/// The runs of a sweep, as (cell, repetition): cell by cell by default, and
/// repetition by repetition where the cells are spread.
pub open spec fn runs_of(
    cells: Seq<Seq<ValueText>>,
    axes: Seq<AxisText>,
    reps: usize,
    order: MatrixOrder,
    seed: u64,
) -> Seq<(usize, usize)> {
    let cell = cell_order(cells, axes, order, seed);
    match order {
        MatrixOrder::Default => cell_by_cell(cell, cell.len() as int, reps as int),
        MatrixOrder::Interleaved => round_by_round(cell, reps as int),
        MatrixOrder::Random => round_by_round(cell, reps as int),
    }
}

fn make_runs(order: &Vec<usize>, reps: usize, spread: bool) -> (r: Vec<(usize, usize)>)
    requires
        reps < usize::MAX,
    ensures
        r@ == if spread {
            round_by_round(order@, reps as int)
        } else {
            cell_by_cell(order@, order@.len() as int, reps as int)
        },
{
    let mut runs: Vec<(usize, usize)> = Vec::new();
    if spread {
        let mut rep: usize = 0;
        assert(runs@ =~= round_by_round(order@, 0));
        while rep < reps
            invariant
                rep <= reps < usize::MAX,
                runs@ == round_by_round(order@, rep as int),
            decreases reps - rep,
        {
            let ghost before = runs@;
            let mut i: usize = 0;
            assert(runs@ =~= before + one_round(order@, 0, rep + 1));
            while i < order.len()
                invariant
                    i <= order@.len(),
                    rep < reps < usize::MAX,
                    runs@ == before + one_round(order@, i as int, rep + 1),
                decreases order@.len() - i,
            {
                runs.push((order[i], rep + 1));
                i += 1;
                assert(runs@ =~= before + one_round(order@, i as int, rep + 1));
            }
            rep += 1;
        }
    } else {
        let mut i: usize = 0;
        assert(runs@ =~= cell_by_cell(order@, 0, reps as int));
        while i < order.len()
            invariant
                i <= order@.len(),
                reps < usize::MAX,
                runs@ == cell_by_cell(order@, i as int, reps as int),
            decreases order@.len() - i,
        {
            let ghost before = runs@;
            let cell: usize = order[i];
            let mut rep: usize = 0;
            assert(runs@ =~= before + repeats(cell, 0));
            while rep < reps
                invariant
                    rep <= reps < usize::MAX,
                    runs@ == before + repeats(cell, rep as int),
                decreases reps - rep,
            {
                rep += 1;
                runs.push((cell, rep));
                assert(runs@ =~= before + repeats(cell, rep as int));
            }
            i += 1;
        }
    }
    runs
}

proof fn lemma_repeats(cell: usize, reps: int)
    requires
        reps <= usize::MAX,
    ensures
        repeats(cell, reps).no_duplicates(),
        forall|c: usize, r: usize| #[trigger]
            repeats(cell, reps).contains((c, r)) <==> c == cell && 1 <= r <= reps,
    decreases reps,
{
    if reps > 0 {
        lemma_repeats(cell, reps - 1);
        lemma_push_pair(repeats(cell, reps - 1), (cell, reps as usize));
        let all = repeats(cell, reps);
        assert forall|c: usize, r: usize| #[trigger] all.contains((c, r)) <==> c == cell && 1 <= r
            <= reps by {
            assert(all.contains((c, r)) <==> repeats(cell, reps - 1).contains((c, r)) || (c, r) == (
                cell,
                reps as usize,
            ));
        }
    }
}

proof fn lemma_push_pair(s: Seq<(usize, usize)>, x: (usize, usize))
    ensures
        forall|y: (usize, usize)| #[trigger] s.push(x).contains(y) <==> s.contains(y) || y == x,
        s.no_duplicates() && !s.contains(x) ==> s.push(x).no_duplicates(),
{
    let more = s.push(x);
    assert forall|y: (usize, usize)| #[trigger] more.contains(y) <==> s.contains(y) || y == x by {
        if s.contains(y) {
            assert(more[s.index_of(y)] == y);
        }
        if y == x {
            assert(more[s.len() as int] == y);
        }
    }
    if s.no_duplicates() && !s.contains(x) {
        assert forall|i: int, j: int|
            0 <= i < more.len() && 0 <= j < more.len() && i != j implies more[i] != more[j] by {
            if i == s.len() {
                assert(s.contains(s[j]));
            } else if j == s.len() {
                assert(s.contains(s[i]));
            }
        }
    }
}

proof fn lemma_join_pairs(a: Seq<(usize, usize)>, b: Seq<(usize, usize)>)
    ensures
        forall|y: (usize, usize)| #[trigger] (a + b).contains(y) <==> a.contains(y) || b.contains(
            y,
        ),
        a.no_duplicates() && b.no_duplicates() && (forall|y: (usize, usize)| #[trigger]
            a.contains(y) ==> !b.contains(y)) ==> (a + b).no_duplicates(),
{
    let all = a + b;
    assert forall|y: (usize, usize)| #[trigger] all.contains(y) <==> a.contains(y) || b.contains(
        y,
    ) by {
        if a.contains(y) {
            assert(all[a.index_of(y)] == y);
        }
        if b.contains(y) {
            assert(all[a.len() + b.index_of(y)] == y);
        }
        if all.contains(y) {
            let i = all.index_of(y);
            if i < a.len() {
                assert(a[i] == y);
            } else {
                assert(b[i - a.len()] == y);
            }
        }
    }
    if a.no_duplicates() && b.no_duplicates() && (forall|y: (usize, usize)| #[trigger]
        a.contains(y) ==> !b.contains(y)) {
        assert forall|i: int, j: int|
            0 <= i < all.len() && 0 <= j < all.len() && i != j implies all[i] != all[j] by {
            if i < a.len() && j >= a.len() {
                assert(a.contains(a[i]));
                assert(b.contains(b[j - a.len()]));
            } else if j < a.len() && i >= a.len() {
                assert(a.contains(a[j]));
                assert(b.contains(b[i - a.len()]));
            } else if i >= a.len() {
                assert(b[i - a.len()] != b[j - a.len()]);
            }
        }
    }
}

proof fn lemma_cell_by_cell(order: Seq<usize>, n: int, reps: int)
    requires
        order.no_duplicates(),
        0 <= n <= order.len(),
        reps <= usize::MAX,
    ensures
        cell_by_cell(order, n, reps).no_duplicates(),
        forall|c: usize, r: usize| #[trigger]
            cell_by_cell(order, n, reps).contains((c, r)) <==> order.take(n).contains(c) && 1 <= r
                <= reps,
    decreases n,
{
    if n > 0 {
        lemma_cell_by_cell(order, n - 1, reps);
        lemma_repeats(order[n - 1], reps);
        let before = cell_by_cell(order, n - 1, reps);
        let more = repeats(order[n - 1], reps);
        let front = order.take(n - 1);
        assert(!front.contains(order[n - 1])) by {
            if front.contains(order[n - 1]) {
                let i = front.index_of(order[n - 1]);
                assert(order[i] == order[n - 1]);
            }
        }
        assert forall|y: (usize, usize)| #[trigger] before.contains(y) implies !more.contains(
            y,
        ) by {
            assert(before.contains((y.0, y.1)));
            if more.contains((y.0, y.1)) {
                assert(y.0 == order[n - 1]);
            }
        }
        lemma_join_pairs(before, more);
        let all = cell_by_cell(order, n, reps);
        assert forall|c: usize, r: usize| #[trigger] all.contains((c, r)) <==> order.take(
            n,
        ).contains(c) && 1 <= r <= reps by {
            assert(all.contains((c, r)) <==> before.contains((c, r)) || more.contains((c, r)));
            lemma_take_contains(order, n, c);
        }
    } else {
        assert forall|c: usize, r: usize| #[trigger]
            cell_by_cell(order, 0, reps).contains((c, r)) <==> order.take(0).contains(c) && 1 <= r
            <= reps by {}
    }
}

proof fn lemma_take_contains(order: Seq<usize>, n: int, c: usize)
    requires
        0 < n <= order.len(),
    ensures
        order.take(n).contains(c) <==> order.take(n - 1).contains(c) || order[n - 1] == c,
{
    let a = order.take(n);
    let b = order.take(n - 1);
    if b.contains(c) {
        assert(a[b.index_of(c)] == c);
    }
    if order[n - 1] == c {
        assert(a[n - 1] == c);
    }
    if a.contains(c) {
        let i = a.index_of(c);
        if i < n - 1 {
            assert(b[i] == c);
        }
    }
}

proof fn lemma_one_round(order: Seq<usize>, n: int, rep: int)
    requires
        order.no_duplicates(),
        0 <= n <= order.len(),
        0 <= rep <= usize::MAX,
    ensures
        one_round(order, n, rep).no_duplicates(),
        forall|c: usize, r: usize| #[trigger]
            one_round(order, n, rep).contains((c, r)) <==> order.take(n).contains(c) && r == rep,
    decreases n,
{
    let all = one_round(order, n, rep);
    if n > 0 {
        lemma_one_round(order, n - 1, rep);
        let before = one_round(order, n - 1, rep);
        let x = (order[n - 1], rep as usize);
        let front = order.take(n - 1);
        assert(!front.contains(order[n - 1])) by {
            if front.contains(order[n - 1]) {
                let i = front.index_of(order[n - 1]);
                assert(order[i] == order[n - 1]);
            }
        }
        assert(!before.contains((order[n - 1], rep as usize)));
        lemma_push_pair(before, x);
        assert forall|c: usize, r: usize| #[trigger] all.contains((c, r)) <==> order.take(
            n,
        ).contains(c) && r == rep by {
            assert(all.contains((c, r)) <==> before.contains((c, r)) || (c, r) == x);
            lemma_take_contains(order, n, c);
        }
    }
}

proof fn lemma_round_by_round(order: Seq<usize>, reps: int)
    requires
        order.no_duplicates(),
        0 <= reps <= usize::MAX,
    ensures
        round_by_round(order, reps).no_duplicates(),
        forall|c: usize, r: usize| #[trigger]
            round_by_round(order, reps).contains((c, r)) <==> order.contains(c) && 1 <= r <= reps,
    decreases reps,
{
    if reps > 0 {
        lemma_round_by_round(order, reps - 1);
        lemma_one_round(order, order.len() as int, reps);
        assert(order.take(order.len() as int) =~= order);
        let before = round_by_round(order, reps - 1);
        let more = one_round(order, order.len() as int, reps);
        assert forall|y: (usize, usize)| #[trigger] before.contains(y) implies !more.contains(
            y,
        ) by {
            assert(before.contains((y.0, y.1)));
            if more.contains((y.0, y.1)) {
                assert(y.1 == reps);
            }
        }
        lemma_join_pairs(before, more);
        let all = round_by_round(order, reps);
        assert forall|c: usize, r: usize| #[trigger] all.contains((c, r)) <==> order.contains(c)
            && 1 <= r <= reps by {
            assert(all.contains((c, r)) <==> before.contains((c, r)) || more.contains((c, r)));
        }
    }
}

/// The order of the cells lists each of them once.
pub proof fn cell_order_permutes(
    cells: Seq<Seq<ValueText>>,
    axes: Seq<AxisText>,
    order: MatrixOrder,
    seed: u64,
)
    requires
        cells.len() <= usize::MAX,
        order == MatrixOrder::Interleaved ==> forall|d: int|
            0 <= d < axes.len() ==> one_value_each(
                cells,
                #[trigger] axes[d],
                counting(cells.len()),
            ),
    ensures
        cell_order(cells, axes, order, seed).no_duplicates(),
        forall|c: usize| #[trigger]
            cell_order(cells, axes, order, seed).contains(c) <==> c < cells.len(),
{
    let base = counting(cells.len());
    let got = cell_order(cells, axes, order, seed);
    match order {
        MatrixOrder::Default => {},
        MatrixOrder::Interleaved => {
            interleaving_permutes(cells, axes, 0, base);
        },
        MatrixOrder::Random => {
            if base.len() > 0 {
                shuffling_permutes(base, base.len() - 1, seed);
            }
        },
    }
    assert(got.to_multiset() == base.to_multiset());
    assert(base.no_duplicates());
    base.lemma_multiset_has_no_duplicates();
    base.to_multiset_ensures();
    got.to_multiset_ensures();
    got.lemma_multiset_has_no_duplicates_conv();
    assert forall|c: usize| #[trigger] got.contains(c) <==> c < cells.len() by {
        assert(got.contains(c) <==> got.to_multiset().count(c) > 0);
        assert(base.contains(c) <==> base.to_multiset().count(c) > 0);
        if c < cells.len() {
            assert(base[c as int] == c);
        }
    }
}

/// A schedule covers each cell and repetition exactly once, in whatever order.
pub proof fn schedules_cover_each_run_once(
    cells: Seq<Seq<ValueText>>,
    axes: Seq<AxisText>,
    reps: usize,
    order: MatrixOrder,
    seed: u64,
)
    requires
        cells.len() <= usize::MAX,
        order == MatrixOrder::Interleaved ==> forall|d: int|
            0 <= d < axes.len() ==> one_value_each(
                cells,
                #[trigger] axes[d],
                counting(cells.len()),
            ),
    ensures
        runs_of(cells, axes, reps, order, seed).no_duplicates(),
        forall|c: usize, r: usize| #[trigger]
            runs_of(cells, axes, reps, order, seed).contains((c, r)) <==> c < cells.len() && 1 <= r
                <= reps,
{
    let cell = cell_order(cells, axes, order, seed);
    cell_order_permutes(cells, axes, order, seed);
    assert(cell.take(cell.len() as int) =~= cell);
    match order {
        MatrixOrder::Default => {
            lemma_cell_by_cell(cell, cell.len() as int, reps as int);
        },
        MatrixOrder::Interleaved => {
            lemma_round_by_round(cell, reps as int);
        },
        MatrixOrder::Random => {
            lemma_round_by_round(cell, reps as int);
        },
    }
}

// ---------------------------------------------------------------------------
// Resuming
// ---------------------------------------------------------------------------

/// The test for the cell that a record belongs to.
pub open spec fn records_cell(
    record: Seq<(Seq<char>, Seq<char>)>,
    rep: nat,
) -> spec_fn(Seq<ValueText>) -> bool {
    |cell: Seq<ValueText>| record_key_text(record, cell, rep) == Some(cell_key_text(cell, rep))
}

/// The key and attempt of the run that a record belongs to, if it belongs to one.
pub open spec fn run_identity(
    record: Seq<(Seq<char>, Seq<char>)>,
    cells: Seq<Seq<ValueText>>,
) -> Option<(Seq<char>, Seq<char>)> {
    match (field_count(record, "rep"@), field_in(record, "attempt"@)) {
        (Some(rep), Some(attempt)) => {
            let i = first_where(cells, records_cell(record, rep));
            if i < cells.len() {
                Some((cell_key_text(cells[i], rep), attempt))
            } else {
                None
            }
        },
        _ => None,
    }
}

/// Whether the run `key` is complete: both roles recorded a row of it in the same
/// attempt.
pub open spec fn run_done(
    records: Seq<Seq<(Seq<char>, Seq<char>)>>,
    cells: Seq<Seq<ValueText>>,
    key: Seq<char>,
) -> bool {
    exists|i: int, j: int|
        0 <= i < records.len() && 0 <= j < records.len() && #[trigger] completes(
            records[i],
            records[j],
            cells,
            key,
        )
}

/// Whether two records are the two halves of one attempt at the run `key`.
pub open spec fn completes(
    listener: Seq<(Seq<char>, Seq<char>)>,
    caller: Seq<(Seq<char>, Seq<char>)>,
    cells: Seq<Seq<ValueText>>,
    key: Seq<char>,
) -> bool {
    &&& field_in(listener, "role"@) == Some("listener"@)
    &&& field_in(caller, "role"@) == Some("caller"@)
    &&& run_identity(listener, cells) is Some
    &&& run_identity(listener, cells) == run_identity(caller, cells)
    &&& (run_identity(listener, cells)->0).0 == key
}

fn identify(record: &Record, cells: &Vec<Cell>) -> (r: Option<(String, String)>)
    ensures
        match (r, run_identity(record@, cells_text(cells@))) {
            (Some(a), Some(b)) => a.0@ == b.0 && a.1@ == b.1,
            (None, None) => true,
            _ => false,
        },
{
    let rep: usize = match record.count("rep") {
        Some(n) => n,
        None => {
            return None;
        },
    };
    let attempt = match record.get("attempt") {
        Some(a) => a,
        None => {
            return None;
        },
    };
    let ghost all = cells_text(cells@);
    let ghost p = records_cell(record@, rep as nat);
    let mut i: usize = 0;
    while i < cells.len()
        invariant
            i <= cells@.len(),
            all == cells_text(cells@),
            p == records_cell(record@, rep as nat),
            field_count(record@, "rep"@) == Some(rep as nat),
            field_in(record@, "attempt"@) == Some(attempt@),
            forall|j: int| 0 <= j < i ==> !p(#[trigger] all[j]),
        decreases cells@.len() - i,
    {
        assert(all[i as int] == cell_text(cells@[i as int]@));
        if let Some(key) = record_key(record, &cells[i], rep) {
            let want = cell_key(&cells[i], rep);
            if same(key.as_str(), want.as_str()) {
                proof {
                    assert(p(all[i as int]));
                    lemma_first_where(all, p, i as int);
                }
                return Some((key, attempt.to_owned()));
            }
        }
        i += 1;
    }
    proof {
        lemma_first_where(all, p, i as int);
    }
    None
}

pub open spec fn records_view(records: Seq<Record>) -> Seq<Seq<(Seq<char>, Seq<char>)>> {
    records.map_values(|r: Record| r@)
}

/// Whether `caller` holds the other half of the attempt `id`.
fn find_caller(records: &Vec<Record>, cells: &Vec<Cell>, id: &(String, String)) -> (r: bool)
    ensures
        r == exists|j: int|
            0 <= j < records@.len() && other_half(
                #[trigger] records_view(records@)[j],
                cells_text(cells@),
                (id.0@, id.1@),
            ),
{
    let ghost all = records_view(records@);
    let mut j: usize = 0;
    while j < records.len()
        invariant
            j <= records@.len(),
            all == records_view(records@),
            forall|k: int|
                0 <= k < j ==> !other_half(
                    #[trigger] all[k],
                    cells_text(cells@),
                    (id.0@, id.1@),
                ),
        decreases records@.len() - j,
    {
        assert(all[j as int] == records@[j as int]@);
        if records[j].has("role", "caller") {
            if let Some(other) = identify(&records[j], cells) {
                if same(other.0.as_str(), id.0.as_str()) && same(other.1.as_str(), id.1.as_str()) {
                    assert(other_half(all[j as int], cells_text(cells@), (id.0@, id.1@)));
                    return true;
                }
            }
        }
        j += 1;
    }
    false
}

/// Whether a record is the caller's half of the attempt `id`.
pub open spec fn other_half(
    record: Seq<(Seq<char>, Seq<char>)>,
    cells: Seq<Seq<ValueText>>,
    id: (Seq<char>, Seq<char>),
) -> bool {
    field_in(record, "role"@) == Some("caller"@) && run_identity(record, cells) == Some(id)
}

/// The keys of the runs that are complete.
///
/// A run counts as done only when both roles recorded a row in the same attempt: a
/// pair assembled from two interrupted attempts is a complete-looking run whose
/// halves never ran together.
pub fn completed_runs(records: &Vec<Record>, cells: &Vec<Cell>) -> (r: Vec<String>)
    ensures
        forall|key: Seq<char>| #[trigger]
            texts(r@).contains(key) <==> run_done(
                records_view(records@),
                cells_text(cells@),
                key,
            ),
{
    let ghost all = records_view(records@);
    let ghost text = cells_text(cells@);
    let mut done: Vec<String> = Vec::new();
    let mut i: usize = 0;
    while i < records.len()
        invariant
            i <= records@.len(),
            all == records_view(records@),
            text == cells_text(cells@),
            forall|key: Seq<char>| #[trigger]
                texts(done@).contains(key) <==> exists|a: int, b: int|
                    0 <= a < i && 0 <= b < all.len() && #[trigger] completes(
                        all[a],
                        all[b],
                        text,
                        key,
                    ),
        decreases records@.len() - i,
    {
        let ghost before = done@;
        assert(all[i as int] == records@[i as int]@);
        let half = if records[i].has("role", "listener") {
            identify(&records[i], cells)
        } else {
            None
        };
        let mut whole = false;
        if let Some(id) = half {
            whole = find_caller(records, cells, &id);
            if whole {
                proof {
                    lemma_texts_push(done@, id.0);
                }
                done.push(id.0);
            }
        }
        proof {
            assert forall|key: Seq<char>| #[trigger] texts(done@).contains(key) <==> exists|
                a: int,
                b: int,
            |
                0 <= a < i + 1 && 0 <= b < all.len() && #[trigger] completes(
                    all[a],
                    all[b],
                    text,
                    key,
                ) by {
                lemma_one_more_listener(all, text, i as int, key);
                if whole {
                    let id = half->0;
                    assert(texts(done@) == texts(before).push(id.0@));
                    lemma_push_text(texts(before), id.0@, key);
                    assert(completes_any(all, text, i as int, key) <==> key == id.0@) by {
                        if key == id.0@ {
                            let b = choose|b: int|
                                0 <= b < records@.len() && other_half(
                                    #[trigger] all[b],
                                    text,
                                    (id.0@, id.1@),
                                );
                            assert(completes(all[i as int], all[b], text, key));
                        }
                    }
                } else {
                    assert(done@ == before);
                    if completes_any(all, text, i as int, key) {
                        let b = choose|b: int|
                            0 <= b < all.len() && #[trigger] completes(
                                all[i as int],
                                all[b],
                                text,
                                key,
                            );
                        assert(half is Some);
                        let id = half->0;
                        assert(other_half(all[b], text, (id.0@, id.1@)));
                    }
                }
            }
        }
        i += 1;
    }
    proof {
        assert forall|key: Seq<char>| #[trigger] texts(done@).contains(key) <==> run_done(
            all,
            text,
            key,
        ) by {
            if run_done(all, text, key) {
                let (a, b) = choose|a: int, b: int|
                    0 <= a < all.len() && 0 <= b < all.len() && #[trigger] completes(
                        all[a],
                        all[b],
                        text,
                        key,
                    );
                assert(completes(all[a], all[b], text, key));
            }
        }
    }
    done
}

/// Whether record `i` is the listener's half of a complete run `key`.
spec fn completes_any(
    records: Seq<Seq<(Seq<char>, Seq<char>)>>,
    cells: Seq<Seq<ValueText>>,
    i: int,
    key: Seq<char>,
) -> bool {
    exists|b: int|
        0 <= b < records.len() && #[trigger] completes(records[i], records[b], cells, key)
}

proof fn lemma_one_more_listener(
    records: Seq<Seq<(Seq<char>, Seq<char>)>>,
    cells: Seq<Seq<ValueText>>,
    i: int,
    key: Seq<char>,
)
    requires
        0 <= i < records.len(),
    ensures
        (exists|a: int, b: int|
            0 <= a < i + 1 && 0 <= b < records.len() && #[trigger] completes(
                records[a],
                records[b],
                cells,
                key,
            )) <==> (exists|a: int, b: int|
            0 <= a < i && 0 <= b < records.len() && #[trigger] completes(
                records[a],
                records[b],
                cells,
                key,
            )) || completes_any(records, cells, i, key),
{
    if exists|a: int, b: int|
        0 <= a < i + 1 && 0 <= b < records.len() && #[trigger] completes(
            records[a],
            records[b],
            cells,
            key,
        ) {
        let (a, b) = choose|a: int, b: int|
            0 <= a < i + 1 && 0 <= b < records.len() && #[trigger] completes(
                records[a],
                records[b],
                cells,
                key,
            );
        if a < i {
            assert(completes(records[a], records[b], cells, key));
        } else {
            assert(completes(records[i], records[b], cells, key));
        }
    }
    if completes_any(records, cells, i, key) {
        let b = choose|b: int|
            0 <= b < records.len() && #[trigger] completes(records[i], records[b], cells, key);
        assert(completes(records[i], records[b], cells, key));
    }
}

proof fn lemma_push_text(s: Seq<Seq<char>>, x: Seq<char>, y: Seq<char>)
    ensures
        s.push(x).contains(y) <==> s.contains(y) || y == x,
{
    let more = s.push(x);
    if s.contains(y) {
        assert(more[s.index_of(y)] == y);
    }
    if y == x {
        assert(more[s.len() as int] == y);
    }
}

/// The runs of a sweep, and the keys of those that are complete.
#[derive(Debug)]
pub struct MatrixSchedule {
    pub runs: Vec<(usize, usize)>,
    pub done: Vec<String>,
    pub total: usize,
}

/// Schedules a sweep of `reps` repetitions of every cell. Runs that `recorded` holds
/// in full are listed as done.
pub fn build_matrix_schedule(
    cells: &Vec<Cell>,
    axes: &Vec<Axis>,
    reps: usize,
    order: MatrixOrder,
    seed: u64,
    recorded: &Vec<Record>,
) -> (r: MatrixSchedule)
    requires
        cells@.len() * reps <= usize::MAX,
        reps < usize::MAX,
    ensures
        r.total == cells@.len() * reps,
        r.runs@ == runs_of(cells_text(cells@), axes_text(axes@), reps, order, seed),
        forall|key: Seq<char>| #[trigger]
            texts(r.done@).contains(key) <==> run_done(
                records_view(recorded@),
                cells_text(cells@),
                key,
            ),
{
    let n: usize = cells.len();
    assert(cells_text(cells@).len() == n);
    let mut cell_order = match order {
        MatrixOrder::Interleaved => interleave_indices(cells, axes),
        _ => count_up_to(n),
    };
    if order == MatrixOrder::Random {
        shuffle(&mut cell_order, seed);
    }
    let runs = make_runs(&cell_order, reps, order != MatrixOrder::Default);
    let done = completed_runs(recorded, cells);
    MatrixSchedule { runs, done, total: n * reps }
}

/// Whether a record is the row of `role` that this attempt wrote for the run.
pub open spec fn wrote(
    record: Seq<(Seq<char>, Seq<char>)>,
    cell: Seq<ValueText>,
    rep: nat,
    attempt: Seq<char>,
    role: Seq<char>,
) -> bool {
    &&& field_in(record, "attempt"@) == Some(attempt)
    &&& field_count(record, "rep"@) == Some(rep)
    &&& record_key_text(record, cell, rep) == Some(cell_key_text(cell, rep))
    &&& field_in(record, "role"@) == Some(role)
}

/// Which roles recorded a row for this (cell, rep) **in this attempt**: caller, then
/// listener.
///
/// A result file is append-only and a sweep gets interrupted, so it routinely holds
/// a half-finished pair from an earlier attempt, which must not stand in for a
/// process that wrote nothing.
pub fn recorded_roles(records: &Vec<Record>, cell: &Cell, rep: usize, attempt: &str) -> (r: (
    bool,
    bool,
))
    ensures
        r.0 == exists|i: int|
            0 <= i < records@.len() && wrote(
                #[trigger] records_view(records@)[i],
                cell_text(cell@),
                rep as nat,
                attempt@,
                "caller"@,
            ),
        r.1 == exists|i: int|
            0 <= i < records@.len() && wrote(
                #[trigger] records_view(records@)[i],
                cell_text(cell@),
                rep as nat,
                attempt@,
                "listener"@,
            ),
{
    (
        role_recorded(records, cell, rep, attempt, "caller"),
        role_recorded(records, cell, rep, attempt, "listener"),
    )
}

fn role_recorded(
    records: &Vec<Record>,
    cell: &Cell,
    rep: usize,
    attempt: &str,
    role: &str,
) -> (r: bool)
    ensures
        r == exists|i: int|
            0 <= i < records@.len() && wrote(
                #[trigger] records_view(records@)[i],
                cell_text(cell@),
                rep as nat,
                attempt@,
                role@,
            ),
{
    let ghost all = records_view(records@);
    let want = cell_key(cell, rep);
    let mut i: usize = 0;
    while i < records.len()
        invariant
            i <= records@.len(),
            all == records_view(records@),
            want@ == cell_key_text(cell_text(cell@), rep as nat),
            forall|j: int|
                0 <= j < i ==> !wrote(
                    #[trigger] all[j],
                    cell_text(cell@),
                    rep as nat,
                    attempt@,
                    role@,
                ),
        decreases records@.len() - i,
    {
        assert(all[i as int] == records@[i as int]@);
        let this_rep = match records[i].count("rep") {
            Some(n) => n == rep,
            None => false,
        };
        if this_rep && records[i].has("attempt", attempt) && records[i].has("role", role) {
            if let Some(key) = record_key(&records[i], cell, rep) {
                if same(key.as_str(), want.as_str()) {
                    assert(wrote(
                        all[i as int],
                        cell_text(cell@),
                        rep as nat,
                        attempt@,
                        role@,
                    ));
                    return true;
                }
            }
        }
        i += 1;
    }
    false
}

/// What an attempt wrote and what resuming takes for done agree: once both roles
/// have written their rows of the first cell with that key, the run is done.
pub proof fn written_runs_are_done(
    records: Seq<Seq<(Seq<char>, Seq<char>)>>,
    cells: Seq<Seq<ValueText>>,
    c: int,
    rep: nat,
    attempt: Seq<char>,
    i: int,
    j: int,
)
    requires
        0 <= c < cells.len(),
        0 <= i < records.len(),
        0 <= j < records.len(),
        wrote(records[i], cells[c], rep, attempt, "listener"@),
        wrote(records[j], cells[c], rep, attempt, "caller"@),
        forall|k: int|
            0 <= k < c ==> !records_cell(records[i], rep)(#[trigger] cells[k]) && !records_cell(
                records[j],
                rep,
            )(cells[k]),
    ensures
        run_done(records, cells, cell_key_text(cells[c], rep)),
{
    assert forall|k: int| 0 <= k < c implies !records_cell(records[j], rep)(#[trigger] cells[k]) by {
        assert(!records_cell(records[i], rep)(cells[k]));
    }
    lemma_first_where(cells, records_cell(records[i], rep), c);
    lemma_first_where(cells, records_cell(records[j], rep), c);
    assert(completes(records[i], records[j], cells, cell_key_text(cells[c], rep)));
}

} // verus!
