//! Series over result rows: the values of a column by group, and each runtime's rows
//! in the order of their first appearance.
use crate::compare::{number_in, number_of};
use crate::json::{Escapes, json_string, json_text};
use crate::record::{Record, field_in};
use crate::report::{all_records, distinct, report_key_parts};
use crate::text::{
    concat3, contains_text, join, joined, lemma_texts_push, same, sort, sorted_texts, texts,
};
use vstd::prelude::*;

verus! {

/// The group of a record.
pub open spec fn spread_key(
    record: Seq<(Seq<char>, Seq<char>)>,
    group_by: Seq<Seq<char>>,
) -> Seq<char> {
    joined(report_key_parts(record, group_by), " "@)
}

/// The groups of the first `n` records, as they come.
pub open spec fn spread_keys(
    records: Seq<Seq<(Seq<char>, Seq<char>)>>,
    group_by: Seq<Seq<char>>,
    n: int,
) -> Seq<Seq<char>>
    decreases n,
{
    if n <= 0 {
        Seq::empty()
    } else {
        spread_keys(records, group_by, n - 1).push(spread_key(records[n - 1], group_by))
    }
}

/// The numbers that the first `n` records of a group have in a column.
pub open spec fn spread_values(
    records: Seq<Seq<(Seq<char>, Seq<char>)>>,
    group_by: Seq<Seq<char>>,
    key: Seq<char>,
    column: Seq<char>,
    n: int,
) -> Seq<Seq<char>>
    decreases n,
{
    if n <= 0 {
        Seq::empty()
    } else {
        let before = spread_values(records, group_by, key, column, n - 1);
        let value = number_in(records[n - 1], column);
        if spread_key(records[n - 1], group_by) == key && value is Some {
            before.push(value->0)
        } else {
            before
        }
    }
}

/// The numbers of one group.
#[derive(Debug)]
pub struct SpreadGroup {
    pub key: String,
    pub values: Vec<String>,
}

/// The groups of a file in ascending order.
pub open spec fn spread_order(
    records: Seq<Seq<(Seq<char>, Seq<char>)>>,
    group_by: Seq<Seq<char>>,
) -> Seq<Seq<char>> {
    sorted_texts(distinct(spread_keys(records, group_by, records.len() as int)))
}

/// Whether these are the numbers of a group.
pub open spec fn is_spread(
    g: SpreadGroup,
    records: Seq<Seq<(Seq<char>, Seq<char>)>>,
    group_by: Seq<Seq<char>>,
    key: Seq<char>,
    column: Seq<char>,
) -> bool {
    g.key@ == key && texts(g.values@) == spread_values(
        records,
        group_by,
        key,
        column,
        records.len() as int,
    )
}

fn key_of(record: &Record, group_by: &Vec<String>) -> (r: String)
    ensures
        r@ == spread_key(record@, texts(group_by@)),
{
    let ghost want = report_key_parts(record@, texts(group_by@));
    let mut parts: Vec<String> = Vec::new();
    let mut i: usize = 0;
    assert(texts(parts@) =~= want.take(0));
    while i < group_by.len()
        invariant
            i <= group_by@.len(),
            want == report_key_parts(record@, texts(group_by@)),
            texts(parts@) == want.take(i as int),
        decreases group_by@.len() - i,
    {
        let value = record.get_or(group_by[i].as_str(), "-");
        proof {
            assert(texts(group_by@)[i as int] == group_by@[i as int]@);
            lemma_texts_push(parts@, value);
            assert(want.take(i + 1) =~= want.take(i as int).push(value@));
        }
        parts.push(value);
        i += 1;
    }
    assert(want.take(want.len() as int) =~= want);
    join(&parts, " ")
}

/// The numbers of a column, by group in ascending order. A group none of whose rows
/// has a number is there, without numbers.
pub fn spread_by(results: &Vec<Record>, group_by: &Vec<String>, column: &str) -> (r: Vec<
    SpreadGroup,
>)
    ensures
        r@.len() == spread_order(all_records(results@), texts(group_by@)).len(),
        forall|i: int|
            0 <= i < r@.len() ==> is_spread(
                #[trigger] r@[i],
                all_records(results@),
                texts(group_by@),
                spread_order(all_records(results@), texts(group_by@))[i],
                column@,
            ),
{
    let ghost all = all_records(results@);
    let ghost names = texts(group_by@);
    let mut row_keys: Vec<String> = Vec::new();
    let mut keys: Vec<String> = Vec::new();
    let mut i: usize = 0;
    assert(texts(keys@) =~= distinct(spread_keys(all, names, 0)));
    while i < results.len()
        invariant
            i <= results@.len(),
            all == all_records(results@),
            names == texts(group_by@),
            row_keys@.len() == i,
            forall|j: int| 0 <= j < i ==> (#[trigger] row_keys@[j])@ == spread_key(all[j], names),
            texts(keys@) == distinct(spread_keys(all, names, i as int)),
        decreases results@.len() - i,
    {
        assert(all[i as int] == results@[i as int]@);
        let key = key_of(&results[i], group_by);
        let ghost before = spread_keys(all, names, i as int);
        assert(before.push(key@).drop_last() =~= before);
        if !contains_text(&keys, key.as_str()) {
            let copy = key.clone();
            proof {
                lemma_texts_push(keys@, copy);
            }
            keys.push(copy);
        }
        row_keys.push(key);
        i += 1;
    }
    assert(all.len() == results@.len());
    let keys = sort(keys);
    let ghost order = spread_order(all, names);
    assert(texts(keys@) == order);
    let mut groups: Vec<SpreadGroup> = Vec::new();
    let mut k: usize = 0;
    while k < keys.len()
        invariant
            k <= keys@.len(),
            all == all_records(results@),
            all.len() == results@.len(),
            names == texts(group_by@),
            order == spread_order(all, names),
            texts(keys@) == order,
            row_keys@.len() == results@.len(),
            forall|j: int|
                0 <= j < results@.len() ==> (#[trigger] row_keys@[j])@ == spread_key(
                    all[j],
                    names,
                ),
            groups@.len() == k,
            forall|j: int|
                0 <= j < k ==> is_spread(#[trigger] groups@[j], all, names, order[j], column@),
        decreases keys@.len() - k,
    {
        let key = keys[k].clone();
        assert(order[k as int] == key@);
        let mut values: Vec<String> = Vec::new();
        let mut i: usize = 0;
        assert(texts(values@) =~= spread_values(all, names, key@, column@, 0));
        while i < results.len()
            invariant
                i <= results@.len(),
                all == all_records(results@),
                row_keys@.len() == results@.len(),
                forall|j: int|
                    0 <= j < results@.len() ==> (#[trigger] row_keys@[j])@ == spread_key(
                        all[j],
                        names,
                    ),
                texts(values@) == spread_values(all, names, key@, column@, i as int),
            decreases results@.len() - i,
        {
            assert(all[i as int] == results@[i as int]@);
            assert(row_keys@[i as int]@ == spread_key(all[i as int], names));
            if same(row_keys[i].as_str(), key.as_str()) {
                if let Some(v) = number_of(&results[i], column) {
                    proof {
                        lemma_texts_push(values@, v);
                    }
                    values.push(v);
                }
            }
            i += 1;
        }
        groups.push(SpreadGroup { key, values });
        k += 1;
    }
    assert(order.len() == keys@.len());
    groups
}

// ---------------------------------------------------------------------------
// Throughput by runtime
// ---------------------------------------------------------------------------

/// The runtime of a listener's row.
pub open spec fn listener_runtime(record: Seq<(Seq<char>, Seq<char>)>) -> Option<Seq<char>> {
    if field_in(record, "role"@) == Some("listener"@) {
        field_in(record, "runtime"@)
    } else {
        None
    }
}

/// The runtimes of the listeners among the first `n` records, as they come.
pub open spec fn runtimes_in(records: Seq<Seq<(Seq<char>, Seq<char>)>>, n: int) -> Seq<Seq<char>>
    decreases n,
{
    if n <= 0 {
        Seq::empty()
    } else {
        match listener_runtime(records[n - 1]) {
            Some(name) => runtimes_in(records, n - 1).push(name),
            None => runtimes_in(records, n - 1),
        }
    }
}

/// The rows of a runtime's listeners among the first `n` records.
pub open spec fn rows_of_runtime(
    records: Seq<Seq<(Seq<char>, Seq<char>)>>,
    runtime: Seq<char>,
    n: int,
) -> Seq<usize>
    decreases n,
{
    if n <= 0 {
        Seq::empty()
    } else if listener_runtime(records[n - 1]) == Some(runtime) {
        rows_of_runtime(records, runtime, n - 1).push((n - 1) as usize)
    } else {
        rows_of_runtime(records, runtime, n - 1)
    }
}

/// The rows of one runtime's listeners.
#[derive(Debug)]
pub struct RuntimeSeries {
    pub runtime: String,
    pub rows: Vec<usize>,
}

fn runtime_of(record: &Record) -> (r: Option<String>)
    ensures
        match (r, listener_runtime(record@)) {
            (Some(a), Some(b)) => a@ == b,
            (None, None) => true,
            _ => false,
        },
{
    if !record.has("role", "listener") {
        return None;
    }
    match record.get("runtime") {
        Some(name) => Some(name.to_owned()),
        None => None,
    }
}

/// The rows of every runtime's listeners, runtimes in the order of their first row.
pub fn throughput_series(results: &Vec<Record>) -> (r: Vec<RuntimeSeries>)
    ensures
        ({
            let records = all_records(results@);
            let names = distinct(runtimes_in(records, records.len() as int));
            &&& r@.len() == names.len()
            &&& forall|i: int|
                0 <= i < r@.len() ==> (#[trigger] r@[i]).runtime@ == names[i] && r@[i].rows@
                    == rows_of_runtime(records, names[i], records.len() as int)
        }),
{
    let ghost all = all_records(results@);
    let mut names: Vec<String> = Vec::new();
    let mut i: usize = 0;
    assert(texts(names@) =~= distinct(runtimes_in(all, 0)));
    while i < results.len()
        invariant
            i <= results@.len(),
            all == all_records(results@),
            texts(names@) == distinct(runtimes_in(all, i as int)),
        decreases results@.len() - i,
    {
        assert(all[i as int] == results@[i as int]@);
        if let Some(name) = runtime_of(&results[i]) {
            let ghost before = runtimes_in(all, i as int);
            assert(before.push(name@).drop_last() =~= before);
            if !contains_text(&names, name.as_str()) {
                proof {
                    lemma_texts_push(names@, name);
                }
                names.push(name);
            }
        }
        i += 1;
    }
    assert(all.len() == results@.len());
    let ghost order = distinct(runtimes_in(all, all.len() as int));
    assert(texts(names@) == order);
    let mut out: Vec<RuntimeSeries> = Vec::new();
    let mut k: usize = 0;
    while k < names.len()
        invariant
            k <= names@.len(),
            all == all_records(results@),
            all.len() == results@.len(),
            texts(names@) == order,
            out@.len() == k,
            forall|j: int|
                0 <= j < k ==> (#[trigger] out@[j]).runtime@ == order[j] && out@[j].rows@
                    == rows_of_runtime(all, order[j], all.len() as int),
        decreases names@.len() - k,
    {
        let runtime = names[k].clone();
        assert(order[k as int] == runtime@);
        let mut rows: Vec<usize> = Vec::new();
        let mut i: usize = 0;
        while i < results.len()
            invariant
                i <= results@.len(),
                all == all_records(results@),
                rows@ == rows_of_runtime(all, runtime@, i as int),
            decreases results@.len() - i,
        {
            assert(all[i as int] == results@[i as int]@);
            if let Some(name) = runtime_of(&results[i]) {
                if same(name.as_str(), runtime.as_str()) {
                    rows.push(i);
                }
            }
            i += 1;
        }
        out.push(RuntimeSeries { runtime, rows });
        k += 1;
    }
    assert(order.len() == names@.len());
    out
}

/// Every listener's row counts towards its own runtime's series and no other.
pub proof fn every_row_is_in_one_series(
    records: Seq<Seq<(Seq<char>, Seq<char>)>>,
    row: int,
    runtime: Seq<char>,
)
    requires
        records.len() <= usize::MAX,
        0 <= row < records.len(),
    ensures
        rows_of_runtime(records, runtime, records.len() as int).contains(row as usize) == (
        listener_runtime(records[row]) == Some(runtime)),
{
    lemma_rows_of_runtime(records, runtime, records.len() as int, row);
}

proof fn lemma_rows_of_runtime(
    records: Seq<Seq<(Seq<char>, Seq<char>)>>,
    runtime: Seq<char>,
    n: int,
    row: int,
)
    requires
        0 <= n <= records.len() <= usize::MAX,
        0 <= row < records.len(),
    ensures
        rows_of_runtime(records, runtime, n).contains(row as usize) == (row < n
            && listener_runtime(records[row]) == Some(runtime)),
    decreases n,
{
    if n > 0 {
        lemma_rows_of_runtime(records, runtime, n - 1, row);
        let before = rows_of_runtime(records, runtime, n - 1);
        let all = rows_of_runtime(records, runtime, n);
        if listener_runtime(records[n - 1]) == Some(runtime) {
            assert(all[before.len() as int] == (n - 1) as usize);
            if before.contains(row as usize) {
                let i = choose|i: int| 0 <= i < before.len() && before[i] == row as usize;
                assert(all[i] == row as usize);
            }
            if all.contains(row as usize) {
                let i = choose|i: int| 0 <= i < all.len() && all[i] == row as usize;
                if i < before.len() {
                    assert(before[i] == row as usize);
                }
            }
        }
    }
}

/// A runtime's rate as a benchmark entry.
pub open spec fn entry_text(runtime: Seq<char>, rate: Seq<char>) -> Seq<char> {
    "\n  {\"name\": "@ + json_text(runtime, Escapes::AllControls)
        + ", \"unit\": \"pkt/s\", \"value\": "@ + rate + "}"@
}

/// The entries of the first `n` series that have a rate.
pub open spec fn entries_text(
    series: Seq<RuntimeSeries>,
    rates: Seq<Option<String>>,
    n: int,
) -> Seq<Seq<char>>
    decreases n,
{
    if n <= 0 {
        Seq::empty()
    } else {
        match rates[n - 1] {
            Some(rate) => entries_text(series, rates, n - 1).push(
                entry_text(series[n - 1].runtime@, rate@),
            ),
            None => entries_text(series, rates, n - 1),
        }
    }
}

/// Benchmark entries for a chart, one per runtime that has a rate. `rates` goes with
/// `series`; a series that took no time has none.
pub fn github_benchmark_json(series: &Vec<RuntimeSeries>, rates: &Vec<Option<String>>) -> (r:
    String)
    requires
        rates@.len() == series@.len(),
    ensures
        r@ == "["@ + joined(
            entries_text(series@, rates@, series@.len() as int),
            ","@,
        ) + "\n]\n"@,
{
    let mut parts: Vec<String> = Vec::new();
    let mut i: usize = 0;
    assert(texts(parts@) =~= entries_text(series@, rates@, 0));
    while i < series.len()
        invariant
            i <= series@.len() == rates@.len(),
            texts(parts@) == entries_text(series@, rates@, i as int),
        decreases series@.len() - i,
    {
        if let Some(rate) = &rates[i] {
            let name = json_string(series[i].runtime.as_str(), Escapes::AllControls);
            let mut entry = concat3(
                "\n  {\"name\": ",
                name.as_str(),
                ", \"unit\": \"pkt/s\", \"value\": ",
            );
            entry.append(rate.as_str());
            entry.append("}");
            proof {
                lemma_texts_push(parts@, entry);
            }
            parts.push(entry);
        }
        i += 1;
    }
    let inner = join(&parts, ",");
    concat3("[", inner.as_str(), "\n]\n")
}

} // verus!
