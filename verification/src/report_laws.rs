//! Which rows of a file the figures of a report are taken from.
use crate::compare::number_in;
use crate::medians::{GroupInputs, Side, readings, row_on, side_readings, target_of};
use crate::record::field_in;
use crate::report::{distinct, members, report_key_text};
use crate::series::{every_row_is_in_one_series, rows_of_runtime, spread_key, spread_values};
use crate::text::texts;
use vstd::prelude::*;

verus! {

// ---------------------------------------------------------------------------
// Medians
// ---------------------------------------------------------------------------

/// Every pair has a number in a column of its caller's row.
pub open spec fn callers_have(
    records: Seq<Seq<(Seq<char>, Seq<char>)>>,
    pairs: Seq<(usize, usize)>,
    column: Seq<char>,
) -> bool {
    forall|j: int|
        0 <= j < pairs.len() ==> number_in(records[(#[trigger] pairs[j]).0 as int], column) is Some
}

/// Every pair has a number in a column of its listener's row.
pub open spec fn listeners_have(
    records: Seq<Seq<(Seq<char>, Seq<char>)>>,
    pairs: Seq<(usize, usize)>,
    column: Seq<char>,
) -> bool {
    forall|j: int|
        0 <= j < pairs.len() ==> number_in(records[(#[trigger] pairs[j]).1 as int], column) is Some
}

proof fn lemma_readings(
    records: Seq<Seq<(Seq<char>, Seq<char>)>>,
    pairs: Seq<(usize, usize)>,
    side: Side,
    column: Seq<char>,
    n: int,
    k: int,
)
    requires
        0 <= k < n <= pairs.len(),
        side == Side::Caller ==> callers_have(records, pairs, column),
        side == Side::Listener ==> listeners_have(records, pairs, column),
    ensures
        readings(records, pairs, side, column, n).len() == n,
        Some(readings(records, pairs, side, column, n)[k]) == number_in(
            records[row_on(pairs[k], side) as int],
            column,
        ),
    decreases n,
{
    assert(number_in(records[row_on(pairs[n - 1], side) as int], column) is Some);
    if n > 1 {
        lemma_readings(records, pairs, side, column, n - 1, if k < n - 1 {
            k
        } else {
            0
        });
    } else {
        assert(readings(records, pairs, side, column, 0).len() == 0);
    }
}

/// Connections, deliveries, losses and delays are taken from the listener of each pair, and
/// what was sent from its caller.
pub proof fn traffic_is_taken_from_its_side(
    inputs: GroupInputs,
    records: Seq<Seq<(Seq<char>, Seq<char>)>>,
    pairs: Seq<(usize, usize)>,
    k: int,
)
    requires
        inputs.collects(records, pairs),
        0 <= k < pairs.len(),
    ensures
        listeners_have(records, pairs, "established"@) ==> Some(texts(inputs.established@)[k]) == number_in(
            records[pairs[k].1 as int],
            "established"@,
        ),
        callers_have(records, pairs, "core_total"@) ==> Some(texts(inputs.sent@)[k]) == number_in(
            records[pairs[k].0 as int],
            "core_total"@,
        ),
        listeners_have(records, pairs, "core_total"@) ==> Some(texts(inputs.received@)[k]) == number_in(
            records[pairs[k].1 as int],
            "core_total"@,
        ),
        listeners_have(records, pairs, "sec_a"@) ==> Some(texts(inputs.retransmitted@)[k]) == number_in(
            records[pairs[k].1 as int],
            "sec_a"@,
        ),
        listeners_have(records, pairs, "udp_rcvbuf_err"@) ==> Some(texts(inputs.buffer_errors@)[k]) == number_in(
            records[pairs[k].1 as int],
            "udp_rcvbuf_err"@,
        ),
        listeners_have(records, pairs, "rtt_ms"@) ==> Some(texts(inputs.rtt_ms@)[k]) == number_in(
            records[pairs[k].1 as int],
            "rtt_ms"@,
        ),
{
    if listeners_have(records, pairs, "established"@) {
        lemma_readings(records, pairs, Side::Listener, "established"@, pairs.len() as int, k);
    }
    if callers_have(records, pairs, "core_total"@) {
        lemma_readings(records, pairs, Side::Caller, "core_total"@, pairs.len() as int, k);
    }
    if listeners_have(records, pairs, "core_total"@) {
        lemma_readings(records, pairs, Side::Listener, "core_total"@, pairs.len() as int, k);
    }
    if listeners_have(records, pairs, "sec_a"@) {
        lemma_readings(records, pairs, Side::Listener, "sec_a"@, pairs.len() as int, k);
    }
    if listeners_have(records, pairs, "udp_rcvbuf_err"@) {
        lemma_readings(records, pairs, Side::Listener, "udp_rcvbuf_err"@, pairs.len() as int, k);
    }
    if listeners_have(records, pairs, "rtt_ms"@) {
        lemma_readings(records, pairs, Side::Listener, "rtt_ms"@, pairs.len() as int, k);
    }
}

/// What was torn down and what a run cost is taken from each side of each pair, and kept
/// apart.
pub proof fn costs_are_taken_from_both_sides(
    inputs: GroupInputs,
    records: Seq<Seq<(Seq<char>, Seq<char>)>>,
    pairs: Seq<(usize, usize)>,
    k: int,
)
    requires
        inputs.collects(records, pairs),
        0 <= k < pairs.len(),
    ensures
        callers_have(records, pairs, "torn_down"@) ==> Some(texts(inputs.caller_torn@)[k]) == number_in(
            records[pairs[k].0 as int],
            "torn_down"@,
        ),
        listeners_have(records, pairs, "torn_down"@) ==> Some(texts(inputs.listener_torn@)[k]) == number_in(
            records[pairs[k].1 as int],
            "torn_down"@,
        ),
        listeners_have(records, pairs, "cpu_user_ms"@) ==> Some(texts(inputs.listener_user_ms@)[k]) == number_in(
            records[pairs[k].1 as int],
            "cpu_user_ms"@,
        ),
        listeners_have(records, pairs, "cpu_sys_ms"@) ==> Some(texts(inputs.listener_sys_ms@)[k]) == number_in(
            records[pairs[k].1 as int],
            "cpu_sys_ms"@,
        ),
        callers_have(records, pairs, "cpu_user_ms"@) ==> Some(texts(inputs.caller_user_ms@)[k]) == number_in(
            records[pairs[k].0 as int],
            "cpu_user_ms"@,
        ),
        callers_have(records, pairs, "cpu_sys_ms"@) ==> Some(texts(inputs.caller_sys_ms@)[k]) == number_in(
            records[pairs[k].0 as int],
            "cpu_sys_ms"@,
        ),
        listeners_have(records, pairs, "peak_rss_kb"@) ==> Some(texts(inputs.listener_rss_kb@)[k]) == number_in(
            records[pairs[k].1 as int],
            "peak_rss_kb"@,
        ),
        callers_have(records, pairs, "peak_rss_kb"@) ==> Some(texts(inputs.caller_rss_kb@)[k]) == number_in(
            records[pairs[k].0 as int],
            "peak_rss_kb"@,
        ),
{
    if callers_have(records, pairs, "torn_down"@) {
        lemma_readings(records, pairs, Side::Caller, "torn_down"@, pairs.len() as int, k);
    }
    if listeners_have(records, pairs, "torn_down"@) {
        lemma_readings(records, pairs, Side::Listener, "torn_down"@, pairs.len() as int, k);
    }
    if listeners_have(records, pairs, "cpu_user_ms"@) {
        lemma_readings(records, pairs, Side::Listener, "cpu_user_ms"@, pairs.len() as int, k);
    }
    if listeners_have(records, pairs, "cpu_sys_ms"@) {
        lemma_readings(records, pairs, Side::Listener, "cpu_sys_ms"@, pairs.len() as int, k);
    }
    if callers_have(records, pairs, "cpu_user_ms"@) {
        lemma_readings(records, pairs, Side::Caller, "cpu_user_ms"@, pairs.len() as int, k);
    }
    if callers_have(records, pairs, "cpu_sys_ms"@) {
        lemma_readings(records, pairs, Side::Caller, "cpu_sys_ms"@, pairs.len() as int, k);
    }
    if listeners_have(records, pairs, "peak_rss_kb"@) {
        lemma_readings(records, pairs, Side::Listener, "peak_rss_kb"@, pairs.len() as int, k);
    }
    if callers_have(records, pairs, "peak_rss_kb"@) {
        lemma_readings(records, pairs, Side::Caller, "peak_rss_kb"@, pairs.len() as int, k);
    }
}

/// What is no number does not count, and what is counts once, on its own side.
pub proof fn readings_count_numbers(
    records: Seq<Seq<(Seq<char>, Seq<char>)>>,
    caller: usize,
    listener: usize,
    column: Seq<char>,
)
    ensures
        side_readings(records, seq![(caller, listener)], Side::Caller, column) == match number_in(
            records[caller as int],
            column,
        ) {
            Some(v) => seq![v],
            None => Seq::empty(),
        },
        side_readings(records, seq![(caller, listener)], Side::Listener, column) == match number_in(
            records[listener as int],
            column,
        ) {
            Some(v) => seq![v],
            None => Seq::empty(),
        },
{
    let pairs = seq![(caller, listener)];
    assert(readings(records, pairs, Side::Caller, column, 0) =~= Seq::empty());
    assert(readings(records, pairs, Side::Listener, column, 0) =~= Seq::empty());
    assert(pairs[0] == (caller, listener));
    reveal_with_fuel(readings, 2);
    assert(side_readings(records, pairs, Side::Caller, column) =~= match number_in(
        records[caller as int],
        column,
    ) {
        Some(v) => seq![v],
        None => Seq::empty(),
    });
    assert(side_readings(records, pairs, Side::Listener, column) =~= match number_in(
        records[listener as int],
        column,
    ) {
        Some(v) => seq![v],
        None => Seq::empty(),
    });
}

/// What a source asked for is reckoned where its row has a rate and a time, from these and
/// from the streams and connections of the same row.
pub proof fn targets_are_read_from_the_row(row: Seq<(Seq<char>, Seq<char>)>)
    ensures
        target_of(row) is Some <==> number_in(row, "source_bps"@) is Some && number_in(row, "secs"@)
            is Some,
        target_of(row) is Some ==> {
            let t = target_of(row)->0;
            &&& Some(t.source_bps) == number_in(row, "source_bps"@)
            &&& Some(t.secs) == number_in(row, "secs"@)
            &&& t.source_streams == number_in(row, "source_streams"@)
            &&& t.logical_streams == number_in(row, "logical_streams"@)
            &&& t.conns == number_in(row, "conns"@)
        },
{
}

// ---------------------------------------------------------------------------
// Groups and series
// ---------------------------------------------------------------------------

/// A record is a member of the group that its own columns name, and of no other.
pub proof fn members_are_of_their_group(
    records: Seq<Seq<(Seq<char>, Seq<char>)>>,
    group_by: Seq<Seq<char>>,
    key: Seq<char>,
    n: int,
    row: int,
)
    requires
        0 <= n <= records.len() <= usize::MAX,
        0 <= row < records.len(),
    ensures
        members(records, group_by, key, n).contains(row as usize) <==> row < n && report_key_text(
            records[row],
            group_by,
        ) == key,
    decreases n,
{
    if n > 0 {
        members_are_of_their_group(records, group_by, key, n - 1, row);
        let before = members(records, group_by, key, n - 1);
        let now = members(records, group_by, key, n);
        let last = (n - 1) as usize;
        if report_key_text(records[n - 1], group_by) == key {
            assert(now == before.push(last));
            assert(now[before.len() as int] == last);
            if before.contains(row as usize) {
                assert(now[before.index_of(row as usize)] == row as usize);
            }
            if now.contains(row as usize) && row != n - 1 {
                let at = now.index_of(row as usize);
                assert(before[at] == row as usize);
            }
        }
    }
}

/// Of texts that repeat, each is kept, and once.
pub proof fn distinct_texts_are_kept_once(s: Seq<Seq<char>>)
    ensures
        distinct(s).no_duplicates(),
        forall|t: Seq<char>| #[trigger] distinct(s).contains(t) <==> s.contains(t),
    decreases s.len(),
{
    if s.len() > 0 {
        let rest = s.drop_last();
        distinct_texts_are_kept_once(rest);
        let before = distinct(rest);
        assert forall|t: Seq<char>| #[trigger] distinct(s).contains(t) <==> s.contains(t) by {
            assert(before.contains(t) <==> rest.contains(t));
            if s.contains(t) {
                let i = s.index_of(t);
                if i < rest.len() {
                    assert(rest[i] == t);
                    let j = before.index_of(t);
                    assert(distinct(s)[j] == t);
                } else if !before.contains(t) {
                    assert(distinct(s)[before.len() as int] == t);
                }
            }
            if distinct(s).contains(t) {
                if before.contains(t) {
                    let i = rest.index_of(t);
                    assert(s[i] == t);
                } else {
                    let i = distinct(s).index_of(t);
                    if i < before.len() {
                        assert(before[i] == t);
                    }
                    assert(s[s.len() - 1] == t);
                }
            }
        }
    }
}

/// A number is in a group's spread where a record of that group has it in the column.
pub proof fn spreads_hold_their_groups_numbers(
    records: Seq<Seq<(Seq<char>, Seq<char>)>>,
    group_by: Seq<Seq<char>>,
    key: Seq<char>,
    column: Seq<char>,
    n: int,
    v: Seq<char>,
)
    requires
        0 <= n <= records.len(),
    ensures
        spread_values(records, group_by, key, column, n).contains(v) <==> exists|i: int|
            0 <= i < n && spread_key(#[trigger] records[i], group_by) == key && number_in(
                records[i],
                column,
            ) == Some(v),
    decreases n,
{
    if n > 0 {
        spreads_hold_their_groups_numbers(records, group_by, key, column, n - 1, v);
        let before = spread_values(records, group_by, key, column, n - 1);
        let now = spread_values(records, group_by, key, column, n);
        if now.contains(v) {
            let at = now.index_of(v);
            if at < before.len() {
                assert(before[at] == v);
            } else {
                assert(spread_key(records[n - 1], group_by) == key);
            }
        }
        if before.contains(v) {
            assert(now[before.index_of(v)] == v);
        }
        if spread_key(records[n - 1], group_by) == key && number_in(records[n - 1], column) == Some(
            v,
        ) {
            assert(now[before.len() as int] == v);
        }
    }
}

/// A series of a runtime is made of that runtime's listeners.
pub proof fn series_are_made_of_listeners(
    records: Seq<Seq<(Seq<char>, Seq<char>)>>,
    row: int,
    runtime: Seq<char>,
)
    requires
        records.len() <= usize::MAX,
        0 <= row < records.len(),
    ensures
        rows_of_runtime(records, runtime, records.len() as int).contains(row as usize) <==> field_in(
            records[row],
            "role"@,
        ) == Some("listener"@) && field_in(records[row], "runtime"@) == Some(runtime),
{
    every_row_is_in_one_series(records, row, runtime);
}

} // verus!
