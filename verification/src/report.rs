//! The median report: which rows count, how they group, and the table around them.
//!
//! The medians themselves are fractions, which whoever prints the report computes;
//! here is which records go into each of them, and where each number stands.
use crate::matrix::or_else;
use crate::medians::pairs_within;
use crate::record::{Record, field_in};
use crate::text::{
    chars_of, contains_text, decimal, join, joined, lemma_texts_push, render, same, sort,
    sorted_texts, spaces, split, split_text, texts,
};
use vstd::prelude::*;

verus! {

/// The values of `record` in the columns `group_by`, `-` where it has none.
pub open spec fn report_key_parts(
    record: Seq<(Seq<char>, Seq<char>)>,
    group_by: Seq<Seq<char>>,
) -> Seq<Seq<char>> {
    group_by.map_values(|k: Seq<char>| or_else(field_in(record, k), "-"@))
}

/// The group of a record.
pub open spec fn report_key_text(
    record: Seq<(Seq<char>, Seq<char>)>,
    group_by: Seq<Seq<char>>,
) -> Seq<char> {
    joined(report_key_parts(record, group_by), "\t"@)
}

/// The group of a record.
pub fn report_key(record: &Record, group_by: &Vec<String>) -> (r: String)
    ensures
        r@ == report_key_text(record@, texts(group_by@)),
{
    let ghost want = report_key_parts(record@, texts(group_by@));
    let mut parts: Vec<String> = Vec::new();
    let mut i: usize = 0;
    while i < group_by.len()
        invariant
            i <= group_by@.len(),
            want == report_key_parts(record@, texts(group_by@)),
            texts(parts@) == want.take(i as int),
        decreases group_by@.len() - i,
    {
        let value = record.get_or(group_by[i].as_str(), "-");
        proof {
            lemma_texts_push(parts@, value);
            assert(want.take(i + 1) =~= want.take(i as int).push(value@));
        }
        parts.push(value);
        i += 1;
    }
    assert(want.take(want.len() as int) =~= want);
    join(&parts, "\t")
}

/// The texts of `s`, each once, in the order in which they first occur.
pub open spec fn distinct(s: Seq<Seq<char>>) -> Seq<Seq<char>>
    decreases s.len(),
{
    if s.len() == 0 {
        Seq::empty()
    } else {
        let before = distinct(s.drop_last());
        if before.contains(s.last()) {
            before
        } else {
            before.push(s.last())
        }
    }
}

/// The groups of all records.
pub open spec fn all_keys(
    records: Seq<Seq<(Seq<char>, Seq<char>)>>,
    group_by: Seq<Seq<char>>,
) -> Seq<Seq<char>> {
    records.map_values(|r: Seq<(Seq<char>, Seq<char>)>| report_key_text(r, group_by))
}

pub open spec fn all_records(records: Seq<Record>) -> Seq<Seq<(Seq<char>, Seq<char>)>> {
    records.map_values(|r: Record| r@)
}

/// The groups of `results`, each once, in ascending order.
pub fn report_keys(results: &Vec<Record>, group_by: &Vec<String>) -> (r: Vec<String>)
    ensures
        texts(r@) == sorted_texts(
            distinct(all_keys(all_records(results@), texts(group_by@))),
        ),
{
    let ghost every = all_keys(all_records(results@), texts(group_by@));
    let mut keys: Vec<String> = Vec::new();
    let mut i: usize = 0;
    assert(texts(keys@) =~= distinct(every.take(0)));
    while i < results.len()
        invariant
            i <= results@.len(),
            every == all_keys(all_records(results@), texts(group_by@)),
            texts(keys@) == distinct(every.take(i as int)),
        decreases results@.len() - i,
    {
        let key = report_key(&results[i], group_by);
        proof {
            assert(every.take(i + 1).drop_last() =~= every.take(i as int));
            assert(every[i as int] == key@);
        }
        if !contains_text(&keys, key.as_str()) {
            proof {
                lemma_texts_push(keys@, key);
            }
            keys.push(key);
        }
        i += 1;
    }
    assert(every.take(every.len() as int) =~= every);
    sort(keys)
}

/// The columns behind the grouping columns.
pub open spec fn measure_headers() -> Seq<Seq<char>> {
    seq![
        "pairs"@,
        "estab"@,
        "sent"@,
        "recv"@,
        "offer%"@,
        "good%"@,
        "deliv%"@,
        "lost"@,
        "rcvbuf_drop"@,
        "torn_c"@,
        "torn_l"@,
        "rtt_ms"@,
        "cpu_s"@,
        "rss_kb"@,
    ]
}

/// The header row of the report.
pub fn report_headers(group_by: &Vec<String>) -> (r: Vec<String>)
    ensures
        texts(r@) == texts(group_by@) + measure_headers(),
{
    let mut row: Vec<String> = Vec::new();
    let mut i: usize = 0;
    while i < group_by.len()
        invariant
            i <= group_by@.len(),
            texts(row@) == texts(group_by@).take(i as int),
        decreases group_by@.len() - i,
    {
        let name = group_by[i].clone();
        proof {
            lemma_texts_push(row@, name);
            assert(texts(group_by@).take(i + 1) =~= texts(group_by@).take(i as int).push(name@));
        }
        row.push(name);
        i += 1;
    }
    assert(texts(group_by@).take(group_by@.len() as int) =~= texts(group_by@));
    let mut rest: Vec<String> = vec![
        "pairs".to_owned(),
        "estab".to_owned(),
        "sent".to_owned(),
        "recv".to_owned(),
        "offer%".to_owned(),
        "good%".to_owned(),
        "deliv%".to_owned(),
        "lost".to_owned(),
        "rcvbuf_drop".to_owned(),
        "torn_c".to_owned(),
        "torn_l".to_owned(),
        "rtt_ms".to_owned(),
        "cpu_s".to_owned(),
        "rss_kb".to_owned(),
    ];
    assert(texts(rest@) =~= measure_headers());
    let ghost a = row@;
    let ghost b = rest@;
    row.append(&mut rest);
    assert(texts(a + b) =~= texts(a) + texts(b));
    row
}

// ---------------------------------------------------------------------------
// Pairing
// ---------------------------------------------------------------------------

/// The repetition of a record.
pub open spec fn rep_of(record: Seq<(Seq<char>, Seq<char>)>) -> Seq<char> {
    or_else(field_in(record, "rep"@), "1"@)
}

/// Whether record `i` is the row of `role` for a repetition.
pub open spec fn plays(
    records: Seq<Seq<(Seq<char>, Seq<char>)>>,
    i: int,
    rep: Seq<char>,
    role: Seq<char>,
) -> bool {
    rep_of(records[i]) == rep && field_in(records[i], "role"@) == Some(role)
}

/// The last of the first `n` positions of `cells` whose record is the row of `role`
/// for a repetition; -1 if there is none.
pub open spec fn last_row(
    records: Seq<Seq<(Seq<char>, Seq<char>)>>,
    cells: Seq<usize>,
    n: int,
    rep: Seq<char>,
    role: Seq<char>,
) -> int
    decreases n,
{
    if n <= 0 {
        -1
    } else if plays(records, cells[n - 1] as int, rep, role) {
        cells[n - 1] as int
    } else {
        last_row(records, cells, n - 1, rep, role)
    }
}

/// The complete pairs of the first `n` repetitions of `reps`: caller and listener,
/// the later row of each winning.
pub open spec fn pairs_of(
    records: Seq<Seq<(Seq<char>, Seq<char>)>>,
    cells: Seq<usize>,
    reps: Seq<Seq<char>>,
    n: int,
) -> Seq<(usize, usize)>
    decreases n,
{
    if n <= 0 {
        Seq::empty()
    } else {
        let before = pairs_of(records, cells, reps, n - 1);
        let caller = last_row(records, cells, cells.len() as int, reps[n - 1], "caller"@);
        let listener = last_row(records, cells, cells.len() as int, reps[n - 1], "listener"@);
        if caller >= 0 && listener >= 0 {
            before.push((caller as usize, listener as usize))
        } else {
            before
        }
    }
}

/// The repetitions of the records at `cells`, each once, in ascending order.
pub open spec fn reps_of(
    records: Seq<Seq<(Seq<char>, Seq<char>)>>,
    cells: Seq<usize>,
) -> Seq<Seq<char>> {
    sorted_texts(distinct(cells.map_values(|i: usize| rep_of(records[i as int]))))
}

/// The pairs that a group's medians are taken over.
///
/// An interrupted run leaves a caller row without a listener row, and re-running
/// appends a second caller row. Medianing each side on its own would then divide a
/// complete listener figure by one that mixes a complete and a truncated caller.
pub open spec fn rep_pairs(
    records: Seq<Seq<(Seq<char>, Seq<char>)>>,
    cells: Seq<usize>,
) -> Seq<(usize, usize)> {
    pairs_of(records, cells, reps_of(records, cells), reps_of(records, cells).len() as int)
}

fn find_last(results: &Vec<Record>, cells: &Vec<usize>, rep: &str, role: &str) -> (r: Option<usize>)
    requires
        forall|i: int| 0 <= i < cells@.len() ==> #[trigger] cells@[i] < results@.len(),
    ensures
        match r {
            Some(i) => last_row(
                all_records(results@),
                cells@,
                cells@.len() as int,
                rep@,
                role@,
            ) == i && i < results@.len(),
            None => last_row(
                all_records(results@),
                cells@,
                cells@.len() as int,
                rep@,
                role@,
            ) == -1,
        },
{
    let ghost all = all_records(results@);
    let ghost goal = last_row(all, cells@, cells@.len() as int, rep@, role@);
    let mut n: usize = cells.len();
    while n > 0
        invariant
            n <= cells@.len(),
            all == all_records(results@),
            goal == last_row(all, cells@, cells@.len() as int, rep@, role@),
            forall|i: int| 0 <= i < cells@.len() ==> #[trigger] cells@[i] < results@.len(),
            last_row(all, cells@, n as int, rep@, role@) == goal,
        decreases n,
    {
        let i: usize = cells[n - 1];
        assert(all[i as int] == results@[i as int]@);
        let record = &results[i];
        let own = record.get_or("rep", "1");
        if same(own.as_str(), rep) && record.has("role", role) {
            return Some(i);
        }
        n -= 1;
    }
    None
}

/// Pairs the rows of one group, repetition by repetition.
pub fn pair_by_rep(results: &Vec<Record>, cells: &Vec<usize>) -> (r: Vec<(usize, usize)>)
    requires
        forall|i: int| 0 <= i < cells@.len() ==> #[trigger] cells@[i] < results@.len(),
    ensures
        r@ == rep_pairs(all_records(results@), cells@),
        forall|i: int|
            0 <= i < r@.len() ==> (#[trigger] r@[i]).0 < results@.len() && r@[i].1 < results@.len(),
{
    let ghost all = all_records(results@);
    let ghost own = cells@.map_values(|i: usize| rep_of(all[i as int]));
    let mut reps: Vec<String> = Vec::new();
    let mut i: usize = 0;
    assert(texts(reps@) =~= distinct(own.take(0)));
    while i < cells.len()
        invariant
            i <= cells@.len(),
            all == all_records(results@),
            own == cells@.map_values(|i: usize| rep_of(all[i as int])),
            forall|i: int| 0 <= i < cells@.len() ==> #[trigger] cells@[i] < results@.len(),
            texts(reps@) == distinct(own.take(i as int)),
        decreases cells@.len() - i,
    {
        let at: usize = cells[i];
        let rep = results[at].get_or("rep", "1");
        proof {
            assert(all[at as int] == results@[at as int]@);
            assert(own.take(i + 1).drop_last() =~= own.take(i as int));
            assert(own[i as int] == rep@);
        }
        if !contains_text(&reps, rep.as_str()) {
            proof {
                lemma_texts_push(reps@, rep);
            }
            reps.push(rep);
        }
        i += 1;
    }
    assert(own.take(own.len() as int) =~= own);
    let reps = sort(reps);
    let ghost order = reps_of(all, cells@);
    assert(texts(reps@) == order);
    let mut pairs: Vec<(usize, usize)> = Vec::new();
    let mut n: usize = 0;
    assert(pairs@ =~= pairs_of(all, cells@, order, 0));
    while n < reps.len()
        invariant
            n <= reps@.len(),
            all == all_records(results@),
            order == reps_of(all, cells@),
            texts(reps@) == order,
            forall|i: int| 0 <= i < cells@.len() ==> #[trigger] cells@[i] < results@.len(),
            pairs@ == pairs_of(all, cells@, order, n as int),
            forall|i: int|
                0 <= i < pairs@.len() ==> (#[trigger] pairs@[i]).0 < results@.len() && pairs@[i].1
                    < results@.len(),
        decreases reps@.len() - n,
    {
        assert(order[n as int] == reps@[n as int]@);
        let rep = reps[n].as_str();
        let caller = find_last(results, cells, rep, "caller");
        let listener = find_last(results, cells, rep, "listener");
        if let (Some(c), Some(l)) = (caller, listener) {
            pairs.push((c, l));
        }
        n += 1;
    }
    assert(order.len() == reps@.len());
    pairs
}

/// One group of the report: its key, and the pairs that its medians are taken over.
#[derive(Debug)]
pub struct ReportGroup {
    pub key: String,
    pub pairs: Vec<(usize, usize)>,
}

/// The records of a group.
pub open spec fn members(
    records: Seq<Seq<(Seq<char>, Seq<char>)>>,
    group_by: Seq<Seq<char>>,
    key: Seq<char>,
    n: int,
) -> Seq<usize>
    decreases n,
{
    if n <= 0 {
        Seq::empty()
    } else if report_key_text(records[n - 1], group_by) == key {
        members(records, group_by, key, n - 1).push((n - 1) as usize)
    } else {
        members(records, group_by, key, n - 1)
    }
}

/// The groups of `keys` that have a complete pair, with their pairs.
pub open spec fn groups_of(
    records: Seq<Seq<(Seq<char>, Seq<char>)>>,
    group_by: Seq<Seq<char>>,
    keys: Seq<Seq<char>>,
    n: int,
) -> Seq<(Seq<char>, Seq<(usize, usize)>)>
    decreases n,
{
    if n <= 0 {
        Seq::empty()
    } else {
        let before = groups_of(records, group_by, keys, n - 1);
        let pairs = rep_pairs(
            records,
            members(records, group_by, keys[n - 1], records.len() as int),
        );
        if pairs.len() == 0 {
            before
        } else {
            before.push((keys[n - 1], pairs))
        }
    }
}

pub open spec fn groups_view(groups: Seq<ReportGroup>) -> Seq<(Seq<char>, Seq<(usize, usize)>)> {
    groups.map_values(|g: ReportGroup| (g.key@, g.pairs@))
}

/// The groups of a report in the order in which they are printed.
pub fn report_groups(results: &Vec<Record>, group_by: &Vec<String>) -> (r: Vec<ReportGroup>)
    ensures
        ({
            let records = all_records(results@);
            let names = texts(group_by@);
            let keys = sorted_texts(distinct(all_keys(records, names)));
            groups_view(r@) == groups_of(records, names, keys, keys.len() as int)
        }),
        forall|k: int| 0 <= k < r@.len() ==> pairs_within((#[trigger] r@[k]).pairs@, results@.len()),
{
    let ghost records = all_records(results@);
    let ghost names = texts(group_by@);
    let keys = report_keys(results, group_by);
    let ghost order = texts(keys@);
    let mut groups: Vec<ReportGroup> = Vec::new();
    let mut k: usize = 0;
    assert(groups_view(groups@) =~= groups_of(records, names, order, 0));
    while k < keys.len()
        invariant
            k <= keys@.len(),
            records == all_records(results@),
            names == texts(group_by@),
            order == texts(keys@),
            groups_view(groups@) == groups_of(records, names, order, k as int),
            forall|j: int|
                0 <= j < groups@.len() ==> pairs_within(
                    (#[trigger] groups@[j]).pairs@,
                    results@.len(),
                ),
        decreases keys@.len() - k,
    {
        let ghost key = keys@[k as int]@;
        assert(order[k as int] == key);
        let mut cells: Vec<usize> = Vec::new();
        let mut i: usize = 0;
        assert(cells@ =~= members(records, names, key, 0));
        while i < results.len()
            invariant
                i <= results@.len(),
                k < keys@.len(),
                key == keys@[k as int]@,
                records == all_records(results@),
                names == texts(group_by@),
                cells@ == members(records, names, key, i as int),
                forall|j: int| 0 <= j < cells@.len() ==> #[trigger] cells@[j] < results@.len(),
            decreases results@.len() - i,
        {
            assert(records[i as int] == results@[i as int]@);
            let own = report_key(&results[i], group_by);
            if same(own.as_str(), keys[k].as_str()) {
                cells.push(i);
            }
            i += 1;
        }
        let pairs = pair_by_rep(results, &cells);
        assert(records.len() == results@.len());
        if pairs.len() > 0 {
            let group = ReportGroup { key: keys[k].clone(), pairs };
            assert(groups_view(groups@.push(group)) =~= groups_view(groups@).push(
                (group.key@, group.pairs@),
            ));
            groups.push(group);
        }
        k += 1;
    }
    assert(order.len() == keys@.len());
    groups
}

/// A pair is made of two rows of one repetition, one of each role: no row is counted
/// on the wrong side or without its partner.
pub proof fn pairs_are_complete(
    records: Seq<Seq<(Seq<char>, Seq<char>)>>,
    cells: Seq<usize>,
    reps: Seq<Seq<char>>,
    n: int,
    i: int,
)
    requires
        0 <= n <= reps.len(),
        0 <= i < pairs_of(records, cells, reps, n).len(),
        forall|j: int| 0 <= j < cells.len() ==> #[trigger] cells[j] < records.len(),
    ensures
        ({
            let pair = pairs_of(records, cells, reps, n)[i];
            &&& rep_of(records[pair.0 as int]) == rep_of(records[pair.1 as int])
            &&& field_in(records[pair.0 as int], "role"@) == Some("caller"@)
            &&& field_in(records[pair.1 as int], "role"@) == Some("listener"@)
            &&& cells.contains(pair.0)
            &&& cells.contains(pair.1)
        }),
    decreases n,
{
    if n > 0 {
        let before = pairs_of(records, cells, reps, n - 1);
        if i < before.len() {
            pairs_are_complete(records, cells, reps, n - 1, i);
        } else {
            lemma_last_row(records, cells, cells.len() as int, reps[n - 1], "caller"@);
            lemma_last_row(records, cells, cells.len() as int, reps[n - 1], "listener"@);
        }
    }
}

proof fn lemma_last_row(
    records: Seq<Seq<(Seq<char>, Seq<char>)>>,
    cells: Seq<usize>,
    n: int,
    rep: Seq<char>,
    role: Seq<char>,
)
    requires
        0 <= n <= cells.len(),
    ensures
        last_row(records, cells, n, rep, role) >= 0 ==> cells.contains(
            last_row(records, cells, n, rep, role) as usize,
        ) && plays(records, last_row(records, cells, n, rep, role), rep, role)
            && last_row(records, cells, n, rep, role) <= usize::MAX,
    decreases n,
{
    if n > 0 {
        lemma_last_row(records, cells, n - 1, rep, role);
        assert(cells.contains(cells[n - 1]));
    }
}

// ---------------------------------------------------------------------------
// Tables
// ---------------------------------------------------------------------------

/// Bytes that a text takes.
pub open spec fn byte_len(s: Seq<char>) -> nat {
    vstd::utf8::encode_utf8(s).len()
}

/// The width of a column: that of its longest value.
pub open spec fn column_width(rows: Seq<Seq<Seq<char>>>, column: int) -> nat
    decreases rows.len(),
{
    if rows.len() == 0 {
        0
    } else {
        let before = column_width(rows.drop_last(), column);
        if column < rows.last().len() && byte_len(rows.last()[column]) > before {
            byte_len(rows.last()[column])
        } else {
            before
        }
    }
}

/// One value of a table: filled up to its column's width, grouping columns to the
/// left and measures to the right, with two spaces or a line feed behind it.
pub open spec fn table_cell(
    rows: Seq<Seq<Seq<char>>>,
    value: Seq<char>,
    column: int,
    group_by_len: nat,
) -> Seq<char> {
    let pad = spaces(column_width(rows, column) - value.len());
    if column + 1 == rows[0].len() {
        pad + value + "\n"@
    } else if column < group_by_len {
        value + pad + "  "@
    } else {
        pad + value + "  "@
    }
}

/// The first `n` values of a row.
pub open spec fn table_row(
    rows: Seq<Seq<Seq<char>>>,
    row: Seq<Seq<char>>,
    group_by_len: nat,
    n: int,
) -> Seq<char>
    decreases n,
{
    if n <= 0 {
        Seq::empty()
    } else {
        table_row(rows, row, group_by_len, n - 1) + table_cell(
            rows,
            row[n - 1],
            n - 1,
            group_by_len,
        )
    }
}

/// The first `n` rows of a table.
pub open spec fn table_text(rows: Seq<Seq<Seq<char>>>, group_by_len: nat, n: int) -> Seq<char>
    decreases n,
{
    if n <= 0 {
        Seq::empty()
    } else {
        table_text(rows, group_by_len, n - 1) + table_row(
            rows,
            rows[n - 1],
            group_by_len,
            rows[n - 1].len() as int,
        )
    }
}

pub open spec fn rows_text(rows: Seq<Vec<String>>) -> Seq<Seq<Seq<char>>> {
    rows.map_values(|r: Vec<String>| texts(r@))
}

fn push_spaces(out: &mut String, n: usize)
    ensures
        final(out)@ == old(out)@ + spaces(n as int),
{
    let ghost before = out@;
    let mut i: usize = 0;
    assert(out@ =~= before + spaces(0));
    while i < n
        invariant
            i <= n,
            out@ == before + spaces(i as int),
        decreases n - i,
    {
        out.push(' ');
        i += 1;
        assert(out@ =~= before + spaces(i as int));
    }
}

fn width_of(rows: &Vec<Vec<String>>, column: usize) -> (r: usize)
    ensures
        r == column_width(rows_text(rows@), column as int),
{
    let ghost all = rows_text(rows@);
    let mut width: usize = 0;
    let mut i: usize = 0;
    assert(all.take(0) =~= Seq::<Seq<Seq<char>>>::empty());
    while i < rows.len()
        invariant
            i <= rows@.len(),
            all == rows_text(rows@),
            width == column_width(all.take(i as int), column as int),
        decreases rows@.len() - i,
    {
        assert(all.take(i + 1).drop_last() =~= all.take(i as int));
        assert(all[i as int] == texts(rows@[i as int]@));
        if column < rows[i].len() {
            assert(all[i as int][column as int] == rows@[i as int]@[column as int]@);
            let len: usize = rows[i][column].as_str().as_bytes().len();
            if len > width {
                width = len;
            }
        }
        i += 1;
    }
    assert(all.take(all.len() as int) =~= all);
    width
}

/// Renders rows of equal length as a table.
pub fn render_report_table(rows: &Vec<Vec<String>>, group_by_len: usize) -> (r: String)
    requires
        rows@.len() > 0,
        forall|i: int| 0 <= i < rows@.len() ==> (#[trigger] rows@[i])@.len() == rows@[0]@.len(),
    ensures
        r@ == table_text(rows_text(rows@), group_by_len as nat, rows@.len() as int),
{
    let ghost all = rows_text(rows@);
    let width: usize = rows[0].len();
    assert(all[0] == texts(rows@[0]@));
    assert(all[0].len() == width);
    let mut out = String::new();
    let mut i: usize = 0;
    while i < rows.len()
        invariant
            i <= rows@.len(),
            all == rows_text(rows@),
            rows@.len() > 0,
            all[0].len() == width,
            forall|k: int| 0 <= k < rows@.len() ==> (#[trigger] rows@[k])@.len() == width,
            out@ == table_text(all, group_by_len as nat, i as int),
        decreases rows@.len() - i,
    {
        let ghost before = out@;
        let ghost row = all[i as int];
        assert(row == texts(rows@[i as int]@));
        assert(rows@[i as int]@.len() == width);
        let mut column: usize = 0;
        assert(out@ =~= before + table_row(all, row, group_by_len as nat, 0));
        while column < width
            invariant
                i < rows@.len(),
                all == rows_text(rows@),
                row == texts(rows@[i as int]@),
                rows@[i as int]@.len() == width,
                all[0].len() == width,
                column <= width,
                out@ == before + table_row(all, row, group_by_len as nat, column as int),
            decreases width - column,
        {
            let ghost so_far = out@;
            let value = rows[i][column].as_str();
            assert(row[column as int] == value@);
            let full: usize = width_of(rows, column);
            let used: usize = chars_of(value).len();
            let fill: usize = if full > used {
                full - used
            } else {
                0
            };
            let ghost pad = spaces(column_width(all, column as int) - value@.len());
            assert(spaces(fill as int) =~= pad);
            if column + 1 == width {
                push_spaces(&mut out, fill);
                out.append(value);
                out.append("\n");
            } else if column < group_by_len {
                out.append(value);
                push_spaces(&mut out, fill);
                out.append("  ");
            } else {
                push_spaces(&mut out, fill);
                out.append(value);
                out.append("  ");
            }
            assert(out@ =~= so_far + table_cell(
                all,
                value@,
                column as int,
                group_by_len as nat,
            ));
            column += 1;
            assert(out@ =~= before + table_row(all, row, group_by_len as nat, column as int));
        }
        i += 1;
    }
    out
}

/// The row of a group: its key, the number of pairs, and the measures.
pub fn report_row(group: &ReportGroup, measures: &Vec<String>) -> (r: Vec<String>)
    ensures
        texts(r@) == split_text(group.key@, '\t').push(decimal(group.pairs@.len())) + texts(
            measures@,
        ),
{
    let mut row = split(group.key.as_str(), '\t');
    let count = render(group.pairs.len() as u64);
    proof {
        lemma_texts_push(row@, count);
    }
    row.push(count);
    let ghost head = texts(row@);
    let mut i: usize = 0;
    assert(head + texts(measures@).take(0) =~= head);
    while i < measures.len()
        invariant
            i <= measures@.len(),
            texts(row@) == head + texts(measures@).take(i as int),
        decreases measures@.len() - i,
    {
        let m = measures[i].clone();
        proof {
            lemma_texts_push(row@, m);
            assert(texts(measures@).take(i + 1) =~= texts(measures@).take(i as int).push(m@));
            assert((head + texts(measures@).take(i as int)).push(m@) =~= head + texts(
                measures@,
            ).take(i + 1));
        }
        row.push(m);
        i += 1;
    }
    assert(texts(measures@).take(measures@.len() as int) =~= texts(measures@));
    row
}

/// The groups of a report, in the order in which they are printed.
pub open spec fn groups_in(
    records: Seq<Seq<(Seq<char>, Seq<char>)>>,
    group_by: Seq<Seq<char>>,
) -> Seq<(Seq<char>, Seq<(usize, usize)>)> {
    let keys = sorted_texts(distinct(all_keys(records, group_by)));
    groups_of(records, group_by, keys, keys.len() as int)
}

/// The row of a group.
pub open spec fn group_cells(
    group: (Seq<char>, Seq<(usize, usize)>),
    measures: Seq<Seq<char>>,
) -> Seq<Seq<char>> {
    split_text(group.0, '\t').push(decimal(group.1.len())) + measures
}

/// The header and the rows of a report.
pub open spec fn report_cells(
    records: Seq<Seq<(Seq<char>, Seq<char>)>>,
    group_by: Seq<Seq<char>>,
    measures: Seq<Seq<Seq<char>>>,
) -> Seq<Seq<Seq<char>>> {
    let groups = groups_in(records, group_by);
    seq![group_by + measure_headers()] + Seq::new(
        groups.len(),
        |i: int| group_cells(groups[i], measures[i]),
    )
}

/// A table of medians, one row per group that has a complete pair. `measures` goes
/// with [`report_groups`]. Grouping values that hold a tab cannot be told apart.
pub fn report(results: &Vec<Record>, group_by: &Vec<String>, measures: &Vec<Vec<String>>) -> (r:
    String)
    requires
        measures@.len() == groups_in(all_records(results@), texts(group_by@)).len(),
        forall|i: int|
            0 <= i < measures@.len() ==> (#[trigger] measures@[i])@.len() + 1
                == measure_headers().len() && split_text(
                groups_in(all_records(results@), texts(group_by@))[i].0,
                '\t',
            ).len() == group_by@.len(),
    ensures
        r@ == table_text(
            report_cells(all_records(results@), texts(group_by@), rows_text(measures@)),
            group_by@.len(),
            (measures@.len() + 1) as int,
        ),
{
    let ghost want = report_cells(all_records(results@), texts(group_by@), rows_text(measures@));
    let ghost groups_text = groups_in(all_records(results@), texts(group_by@));
    let groups = report_groups(results, group_by);
    assert(groups_view(groups@) == groups_text);
    assert(groups_view(groups@).len() == groups@.len());
    let mut rows: Vec<Vec<String>> = Vec::new();
    let header = report_headers(group_by);
    assert(texts(header@).len() == header@.len());
    assert(texts(group_by@).len() == group_by@.len());
    rows.push(header);
    let mut i: usize = 0;
    assert(rows_text(rows@) =~= want.take(1));
    while i < groups.len()
        invariant
            i <= groups@.len() == measures@.len(),
            groups_text == groups_in(all_records(results@), texts(group_by@)),
            groups_view(groups@) == groups_text,
            want == report_cells(all_records(results@), texts(group_by@), rows_text(measures@)),
            forall|j: int|
                0 <= j < measures@.len() ==> (#[trigger] measures@[j])@.len() + 1
                    == measure_headers().len() && split_text(groups_text[j].0, '\t').len()
                    == group_by@.len(),
            rows@.len() == i + 1,
            rows_text(rows@) == want.take(i + 1),
            forall|j: int|
                0 <= j < rows@.len() ==> (#[trigger] rows@[j])@.len() == group_by@.len()
                    + measure_headers().len(),
        decreases groups@.len() - i,
    {
        let row = report_row(&groups[i], &measures[i]);
        proof {
            assert(groups_text[i as int] == (groups@[i as int].key@, groups@[i as int].pairs@));
            assert(rows_text(measures@)[i as int] == texts(measures@[i as int]@));
            assert(want[i + 1] == texts(row@));
            assert(texts(row@).len() == row@.len());
            assert(texts(measures@[i as int]@).len() == measures@[i as int]@.len());
            assert(rows_text(rows@.push(row)) =~= rows_text(rows@).push(texts(row@)));
            assert(want.take(i + 2) =~= want.take(i + 1).push(texts(row@)));
        }
        rows.push(row);
        i += 1;
    }
    assert(want.take(want.len() as int) =~= want);
    render_report_table(&rows, group_by.len())
}

} // verus!
