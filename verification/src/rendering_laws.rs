//! What lists, lines and documents hold of what they are made of.
use crate::attempt::{
    MatrixFailure, MatrixFailureKind, MatrixReport, failure_lines, hex_digit, hex_text,
    run_recorded,
};
use crate::classifier::{
    OutputRow, ValidationText, cell_map, full_line, json_rows, lines_text, rendered, row_cells,
    row_object, run_key, run_keys, short_line, table_cells, table_rows, tsv_rows, tsv_text,
    validation_object, validation_text,
};
use crate::cli::CliText;
use crate::driver::{Driver, DriverEvent, event_text, heard};
use crate::host_contention::{number_flag, numbers_in, psi_line, psi_lines, sum_of, unsigned_flag};
use crate::json::{Escapes, json_text};
use crate::netem::{first_link_error, netem_of};
use crate::matrix::ValueText;
use crate::plan::{canonical, listed, overrides_from};
use crate::record::field_in;
use crate::report::{group_cells, groups_of, measure_headers, members, rep_pairs};
use crate::scorecard_laws::{holds, lemma_holds_within};
use crate::series::{entry_text, listener_runtime, runtimes_in};
use crate::shared_sender::{SharedSenderSlot, SlotPhase, fresh, one_more, route_all};
use crate::stats::ConnStats;
use crate::sweep_run::{RunStep, SweepRun, failures_said, progress_text, run_begun};
use crate::text::{
    decimal, decimal_round_trips, is_float_text, joined, right_in, split_once_text, split_text,
    texts, unsigned_of,
};
use vstd::prelude::*;

verus! {

// ---------------------------------------------------------------------------
// Lines
// ---------------------------------------------------------------------------

/// Every row has a line of its own, with a line end behind it.
pub proof fn rows_have_their_lines(rows: Seq<Seq<char>>, n: int, k: int)
    requires
        0 <= k < n <= rows.len(),
    ensures
        holds(lines_text(rows, n), rows[k] + "\n"@),
    decreases n,
{
    let before = lines_text(rows, n - 1);
    let last = rows[n - 1] + "\n"@;
    let none = Seq::<char>::empty();
    assert(lines_text(rows, n) =~= before + last);
    if k < n - 1 {
        rows_have_their_lines(rows, n - 1, k);
        lemma_holds_within(before, rows[k] + "\n"@, none, last);
        assert(none + before + last =~= before + last);
    } else {
        assert(before + last =~= before + last + none);
    }
}

proof fn lemma_joined(parts: Seq<Seq<char>>, sep: Seq<char>, k: int)
    requires
        0 <= k < parts.len(),
    ensures
        holds(joined(parts, sep), parts[k]),
    decreases parts.len(),
{
    let none = Seq::<char>::empty();
    if parts.len() == 1 {
        assert(parts[0] =~= none + parts[0] + none);
    } else {
        let rest = parts.drop_last();
        let before = joined(rest, sep);
        if k < rest.len() {
            lemma_joined(rest, sep, k);
            assert(rest[k] == parts[k]);
            lemma_holds_within(before, parts[k], none, sep + parts.last());
            assert(none + before + (sep + parts.last()) =~= before + sep + parts.last());
        } else {
            assert(before + sep + parts.last() =~= (before + sep) + parts.last() + none);
        }
    }
}

/// What was assessed is rendered row by row, in any of the formats, and in no other format.
pub proof fn every_cell_is_rendered(rows: Seq<OutputRow>, k: int)
    requires
        0 <= k < rows.len(),
    ensures
        rendered(rows, "table"@) is Ok,
        holds(rendered(rows, "table"@)->Ok_0, joined(table_cells(rows[k]), "\t"@) + "\n"@),
        rendered(rows, "tsv"@) is Ok,
        holds(rendered(rows, "tsv"@)->Ok_0, joined(row_cells(rows[k]), "\t"@) + "\n"@),
        rendered(rows, "json"@) is Ok,
        holds(rendered(rows, "json"@)->Ok_0, row_object(rows[k])),
{
    reveal_strlit("table");
    reveal_strlit("tsv");
    reveal_strlit("json");
    assert("table"@.len() == 5 && "tsv"@.len() == 3 && "json"@.len() == 4);
    let none = Seq::<char>::empty();
    let n = rows.len() as int;
    rows_have_their_lines(table_rows(rows), n, k);
    let t = rendered(rows, "table"@)->Ok_0;
    let tl = lines_text(table_rows(rows), n);
    let th = "policy: "@ + rows[0].policy_revision@ + "\n"@
        + "cell\tclass\treasons\tsource_pps\tpacket_pps\tsrt_total_bps\tbdp_packets\trecovery_margin_ms\thost_utilization\tnic_utilization\n"@;
    lemma_holds_within(tl, joined(table_cells(rows[k]), "\t"@) + "\n"@, th, none);
    assert(th + tl + none =~= t);
    rows_have_their_lines(tsv_rows(rows), n, k);
    let s = rendered(rows, "tsv"@)->Ok_0;
    let sl = lines_text(tsv_rows(rows), n);
    let sh = joined(crate::classifier::output_columns_text(), "\t"@) + "\n"@;
    lemma_holds_within(sl, joined(row_cells(rows[k]), "\t"@) + "\n"@, sh, none);
    assert(sh + sl + none =~= s);
    lemma_joined(json_rows(rows), ",\n"@, k);
    lemma_holds_within(joined(json_rows(rows), ",\n"@), row_object(rows[k]), "[\n"@, "\n]\n"@);
}

/// A line of a validation says, in this order, which cell, what was predicted, what was
/// seen, whether they agree and why; in full also why it was predicted.
pub proof fn validation_lines_are_in_order(row: ValidationText)
    ensures
        short_line(row) == tsv_text(row.cell) + "\t"@ + row.predicted + "\t"@ + row.observed_clean
            + "\t"@ + row.agreement + "\t"@ + tsv_text(row.explanation),
        full_line(row) == tsv_text(row.cell) + "\t"@ + row.predicted + "\t"@ + row.predicted_reasons
            + "\t"@ + row.observed_clean + "\t"@ + row.agreement + "\t"@ + tsv_text(
            row.explanation,
        ),
{
    let a = seq![tsv_text(row.cell)];
    let b = a.push(row.predicted);
    let c = b.push(row.observed_clean);
    let d = c.push(row.agreement);
    let e = d.push(tsv_text(row.explanation));
    lemma_join_push(a, row.predicted, "\t"@);
    lemma_join_push(b, row.observed_clean, "\t"@);
    lemma_join_push(c, row.agreement, "\t"@);
    lemma_join_push(d, tsv_text(row.explanation), "\t"@);
    assert(e =~= seq![
        tsv_text(row.cell),
        row.predicted,
        row.observed_clean,
        row.agreement,
        tsv_text(row.explanation),
    ]);
    let p = b.push(row.predicted_reasons);
    let q = p.push(row.observed_clean);
    let r = q.push(row.agreement);
    let s = r.push(tsv_text(row.explanation));
    lemma_join_push(b, row.predicted_reasons, "\t"@);
    lemma_join_push(p, row.observed_clean, "\t"@);
    lemma_join_push(q, row.agreement, "\t"@);
    lemma_join_push(r, tsv_text(row.explanation), "\t"@);
    assert(s =~= seq![
        tsv_text(row.cell),
        row.predicted,
        row.predicted_reasons,
        row.observed_clean,
        row.agreement,
        tsv_text(row.explanation),
    ]);
}

proof fn lemma_join_push(parts: Seq<Seq<char>>, x: Seq<char>, sep: Seq<char>)
    requires
        parts.len() > 0,
    ensures
        joined(parts.push(x), sep) == joined(parts, sep) + sep + x,
{
    assert(parts.push(x).drop_last() =~= parts);
}

/// Every run that was validated has its line, in full where columns are asked for and else
/// in short.
pub proof fn every_validation_is_told(rows: Seq<ValidationText>, k: int, format: Seq<char>)
    requires
        0 <= k < rows.len(),
    ensures
        holds(validation_text(rows, "tsv"@), full_line(rows[k]) + "\n"@),
        holds(validation_text(rows, "json"@), validation_object(rows[k])),
        format != "tsv"@ && format != "json"@ ==> holds(
            validation_text(rows, format),
            short_line(rows[k]) + "\n"@,
        ),
{
    reveal_strlit("tsv");
    reveal_strlit("json");
    assert("tsv"@.len() == 3 && "json"@.len() == 4);
    let none = Seq::<char>::empty();
    let n = rows.len() as int;
    let full = rows.map_values(|r: ValidationText| full_line(r));
    let short = rows.map_values(|r: ValidationText| short_line(r));
    let objects = rows.map_values(|r: ValidationText| validation_object(r));
    rows_have_their_lines(full, n, k);
    rows_have_their_lines(short, n, k);
    lemma_joined(objects, ","@, k);
    lemma_holds_within(joined(objects, ","@), validation_object(rows[k]), "["@, "]\n"@);
    let fh = "cell\tpredicted_class\tpredicted_reasons\tobserved_clean\tagreement\texplanation\n"@;
    let sh = "cell\tpredicted\tobserved_clean\tagreement\texplanation\n"@;
    lemma_holds_within(lines_text(full, n), full_line(rows[k]) + "\n"@, fh, none);
    lemma_holds_within(lines_text(short, n), short_line(rows[k]) + "\n"@, sh, none);
    assert(fh + lines_text(full, n) + none =~= fh + lines_text(full, n));
    assert(sh + lines_text(short, n) + none =~= sh + lines_text(short, n));
}

/// Every failure of a sweep has a line of its own.
pub proof fn every_failure_has_a_line(failures: Seq<MatrixFailure>, k: int)
    requires
        0 <= k < failures.len(),
    ensures
        holds(
            failure_lines(failures),
            "  rep "@ + decimal(failures[k].rep as nat) + " "@ + failures[k].label@ + ": "@
                + failures[k].kind@.text() + "\n"@,
        ),
    decreases failures.len(),
{
    let rest = failures.drop_last();
    let before = failure_lines(rest);
    let f = failures.last();
    let line = "  "@ + f.text() + "\n"@;
    let none = Seq::<char>::empty();
    assert(failure_lines(failures) =~= before + line);
    reveal_strlit("  rep ");
    reveal_strlit("  ");
    reveal_strlit("rep ");
    assert("  rep "@ =~= "  "@ + "rep "@);
    let said = "  rep "@ + decimal(failures[k].rep as nat) + " "@ + failures[k].label@ + ": "@
        + failures[k].kind@.text() + "\n"@;
    if k < rest.len() {
        every_failure_has_a_line(rest, k);
        lemma_holds_within(before, said, none, line);
        assert(none + before + line =~= before + line);
    } else {
        assert(said =~= line);
        assert(before + line =~= before + line + none);
    }
}

/// A progress line says which run of how many it is, which repetition and cell, and where it
/// failed how both sides ended and why.
pub proof fn progress_says_what_ended(
    run: nat,
    total: nat,
    rep: nat,
    label: Seq<char>,
    sender: Seq<char>,
    receiver: Seq<char>,
    failures: Seq<MatrixFailureKind>,
)
    ensures
        ({
            let text = progress_text(run, total, rep, label, sender, receiver, failures);
            let head = "["@ + right_in(decimal(run + 1), 4) + "/"@ + decimal(total) + "] rep "@
                + decimal(rep) + " "@ + label;
            &&& failures.len() == 0 ==> text == head
            &&& failures.len() > 0 ==> text == head + (" FAILED (sender="@ + sender + " receiver="@
                + receiver + ": "@ + failures_said(failures) + ")"@)
        }),
{
    let head = "["@ + right_in(decimal(run + 1), 4) + "/"@ + decimal(total) + "] rep "@ + decimal(
        rep,
    ) + " "@ + label;
    assert(head + Seq::<char>::empty() =~= head);
}

/// What happens to a connection is logged by its name, with how much came, why it ended or
/// what went wrong.
pub proof fn events_are_logged_by_name(payload: Vec<u8>, why: String)
    ensures
        event_text(DriverEvent::Connected) == "Connected"@,
        event_text(DriverEvent::DataReceived(payload)) == "DataReceived("@ + decimal(
            payload@.len(),
        ) + " bytes)"@,
        event_text(DriverEvent::Disconnected(why)) == "Disconnected: "@ + why@,
        event_text(DriverEvent::Error(why)) == "Error: "@ + why@,
        event_text(DriverEvent::Other(why)) == why@,
{
}

/// A connection is up from the moment it says so, and stays so in the log; what it delivers
/// is kept in order, byte for byte, and nothing else is taken for a delivery.
pub proof fn events_are_taken_in(was: Driver, now: Driver, event: DriverEvent)
    requires
        heard(was, now, event),
    ensures
        event is Connected ==> now.connected,
        !(event is Connected) ==> now.connected == was.connected,
        now.events@.len() == was.events@.len() + 1,
        match event {
            DriverEvent::DataReceived(payload) => now.payloads().len() == was.payloads().len() + 1
                && now.payloads().last() == payload@ && now.payloads().drop_last()
                == was.payloads(),
            _ => now.payloads() == was.payloads(),
        },
        now.deadline_us == was.deadline_us && now.linger_us == was.linger_us,
        now.linger_until_us == was.linger_until_us && now.connect_action_done
            == was.connect_action_done,
        now.timers == was.timers,
{
    assert(texts(now.events@).len() == texts(was.events@).len() + 1);
    match event {
        DriverEvent::DataReceived(payload) => {
            assert(was.payloads().push(payload@).drop_last() =~= was.payloads());
        },
        _ => {},
    }
}

/// A run that ended is completed where nothing failed and failed where anything did, never
/// both; its failures are kept with its cell and repetition, behind all that came before.
pub proof fn ended_runs_are_counted_once(
    was: MatrixReport,
    now: MatrixReport,
    label: Seq<char>,
    rep: usize,
    failures: Seq<MatrixFailureKind>,
    k: int,
)
    requires
        run_recorded(was, now, label, rep, failures),
    ensures
        now.completed_runs + now.failed_runs == was.completed_runs + was.failed_runs + 1,
        failures.len() == 0 ==> now.completed_runs == was.completed_runs + 1,
        failures.len() > 0 ==> now.failed_runs == was.failed_runs + 1,
        now.skipped_runs == was.skipped_runs && now.resumed_runs == was.resumed_runs,
        0 <= k < failures.len() ==> {
            let f = now.failures@[was.failures@.len() + k];
            f.kind == failures[k] && f.label@ == label && f.rep == rep
        },
        0 <= k < was.failures@.len() ==> now.failures@[k] == was.failures@[k],
{
    if 0 <= k < failures.len() {
        let f = now.failures@[was.failures@.len() + k];
        assert(f.kind == failures[k]);
    }
}

/// A cell that is not supported is skipped, its repetitions counted the first time only; a
/// run that is recorded is resumed and counted as that; and every other is run, and counted
/// when it ends.
pub proof fn runs_are_skipped_resumed_or_run(
    was: SweepRun,
    now: SweepRun,
    r: RunStep,
    cell: usize,
    supported: bool,
    done: bool,
    reps: usize,
    attempt: Seq<char>,
)
    requires
        run_begun(was, now, r, cell, supported, done, reps, attempt),
        was.report.skipped_runs + reps <= usize::MAX,
        was.report.resumed_runs < usize::MAX,
    ensures
        r is Skip <==> !supported,
        r is Resume <==> supported && done,
        r is Run <==> supported && !done,
        r is Run ==> r->attempt@ == attempt && now.report == was.report,
        r is Skip ==> now.skipped_cells@.contains(cell),
        r is Skip && was.skipped_cells@.contains(cell) ==> now.report == was.report && !r->first,
        r is Skip && !was.skipped_cells@.contains(cell) ==> now.report.skipped_runs
            == was.report.skipped_runs + reps && r->first,
        r is Resume ==> now.report.resumed_runs == was.report.resumed_runs + 1
            && now.report.skipped_runs == was.report.skipped_runs,
        now.report.completed_runs == was.report.completed_runs,
        now.report.failed_runs == was.report.failed_runs,
        now.report.failures == was.report.failures,
{
    if !supported && !was.skipped_cells@.contains(cell) {
        assert(now.skipped_cells@[was.skipped_cells@.len() as int] == cell);
    }
}

/// Bytes are told by two digits each, the higher half first.
pub proof fn bytes_are_told_by_two_digits(bytes: Seq<u8>, k: int)
    requires
        0 <= k < bytes.len(),
    ensures
        hex_text(bytes).len() == 2 * bytes.len(),
        hex_text(bytes)[2 * k] == hex_digit(bytes[k] as int / 16),
        hex_text(bytes)[2 * k + 1] == hex_digit(bytes[k] as int % 16),
    decreases bytes.len(),
{
    let rest = bytes.drop_last();
    if rest.len() > 0 {
        bytes_are_told_by_two_digits(rest, if k < rest.len() {
            k
        } else {
            0
        });
        if k < rest.len() {
            assert(rest[k] == bytes[k]);
        }
    } else {
        assert(hex_text(rest).len() == 0);
    }
}

// ---------------------------------------------------------------------------
// Plans and flags
// ---------------------------------------------------------------------------

/// A cell of a plan gives each axis the value at the axis's own place.
pub proof fn cells_give_axes_their_values(
    axes: Seq<(Seq<char>, Seq<Seq<char>>)>,
    row: Seq<Seq<char>>,
    n: int,
    k: int,
)
    requires
        0 <= k < n <= axes.len(),
        row.len() >= n,
        forall|a: int, b: int| 0 <= a < b < n ==> (#[trigger] axes[a]).0 != (#[trigger] axes[b]).0,
    ensures
        cell_map(axes, row, n).contains_key(axes[k].0),
        cell_map(axes, row, n)[axes[k].0] == row[k],
    decreases n,
{
    if k < n - 1 {
        cells_give_axes_their_values(axes, row, n - 1, k);
        assert(axes[k].0 != axes[n - 1].0);
    }
}

/// A word on an axis settles that axis with the values that it lists, and leaves what was
/// said of others.
pub proof fn words_on_axes_settle_them(
    word: Seq<char>,
    name: Seq<char>,
    values: Seq<char>,
    axis: Seq<char>,
    acc: Map<Seq<char>, Seq<Seq<char>>>,
)
    requires
        split_once_text(word, '=') == Some((name, values)),
        canonical(name) == Some(axis),
    ensures
        ({
            let got = overrides_from(seq![word], 0, acc);
            &&& got is Ok <==> listed(values).len() > 0 && !acc.contains_key(axis)
            &&& got is Ok ==> got->Ok_0.contains_key(axis) && got->Ok_0[axis] == listed(values)
            &&& got is Ok ==> forall|k: Seq<char>|
                k != axis ==> (#[trigger] got->Ok_0.contains_key(k) <==> acc.contains_key(k)) && (
                acc.contains_key(k) ==> got->Ok_0[k] == acc[k])
        }),
{
    reveal_with_fuel(overrides_from, 2);
    assert(seq![word][0] == word);
}

/// A threshold is the number that its own flag gives, and its default where none is given.
pub proof fn thresholds_are_numbers(cli: CliText, name: Seq<char>, default: u64, n: u64, v: Seq<char>)
    ensures
        cli.flag(name) is None ==> unsigned_flag(cli, name, default) == Ok::<u64, Seq<char>>(
            default,
        ) && number_flag(cli, name) == Ok::<Option<Seq<char>>, Seq<char>>(None),
        cli.flag(name) == Some(decimal(n as nat)) ==> unsigned_flag(cli, name, default) == Ok::<
            u64,
            Seq<char>,
        >(n),
        cli.flag(name) == Some(v) && is_float_text(v) ==> number_flag(cli, name) == Ok::<
            Option<Seq<char>>,
            Seq<char>,
        >(Some(v)),
        cli.flag(name) == Some(v) && !is_float_text(v) ==> number_flag(cli, name) is Err,
{
    decimal_round_trips(n as nat);
}

/// The first cell whose link cannot be emulated is the one that is answered for.
pub proof fn the_first_bad_link_is_answered(cells: Seq<Seq<ValueText>>, n: int, k: int)
    requires
        0 <= k < n <= cells.len(),
    ensures
        first_link_error(cells, n) is None ==> netem_of(cells[k]) is Ok,
        netem_of(cells[k]) is Err && (forall|j: int|
            0 <= j < k ==> netem_of(#[trigger] cells[j]) is Ok) ==> first_link_error(cells, n)
            == Some(netem_of(cells[k])->Err_0),
    decreases n,
{
    if k < n - 1 {
        the_first_bad_link_is_answered(cells, n - 1, k);
    } else if forall|j: int| 0 <= j < k ==> netem_of(#[trigger] cells[j]) is Ok {
        lemma_no_error(cells, k);
    }
}

proof fn lemma_no_error(cells: Seq<Seq<ValueText>>, n: int)
    requires
        0 <= n <= cells.len(),
        forall|j: int| 0 <= j < n ==> netem_of(#[trigger] cells[j]) is Ok,
    ensures
        first_link_error(cells, n) is None,
    decreases n,
{
    if n > 0 {
        lemma_no_error(cells, n - 1);
        assert(netem_of(cells[n - 1]) is Ok);
    }
}

// ---------------------------------------------------------------------------
// Groups and series
// ---------------------------------------------------------------------------

/// The columns of a report, in order.
pub proof fn report_columns_have_their_places()
    ensures
        ({
            let h = measure_headers();
            &&& h.len() == 14
            &&& h[0] == "pairs"@ && h[1] == "estab"@ && h[2] == "sent"@ && h[3] == "recv"@
            &&& h[4] == "offer%"@ && h[5] == "good%"@ && h[6] == "deliv%"@ && h[7] == "lost"@
            &&& h[8] == "rcvbuf_drop"@ && h[9] == "torn_c"@ && h[10] == "torn_l"@
            &&& h[11] == "rtt_ms"@ && h[12] == "cpu_s"@ && h[13] == "rss_kb"@
        }),
{
}

/// A group's row has the group's own columns, how many pairs it has, and its measures.
pub proof fn group_rows_count_their_pairs(
    group: (Seq<char>, Seq<(usize, usize)>),
    measures: Seq<Seq<char>>,
)
    ensures
        ({
            let row = group_cells(group, measures);
            let n = split_text(group.0, '\t').len() as int;
            &&& row.len() == n + 1 + measures.len()
            &&& row.take(n) == split_text(group.0, '\t')
            &&& row[n] == decimal(group.1.len())
            &&& row.skip(n + 1) == measures
        }),
{
    let row = group_cells(group, measures);
    let n = split_text(group.0, '\t').len() as int;
    assert(row.take(n) =~= split_text(group.0, '\t'));
    assert(row.skip(n + 1) =~= measures);
}

/// A group is reported exactly where it has a complete pair, and then with the pairs of its
/// own members.
pub proof fn groups_are_reported_with_their_pairs(
    records: Seq<Seq<(Seq<char>, Seq<char>)>>,
    group_by: Seq<Seq<char>>,
    keys: Seq<Seq<char>>,
    n: int,
    k: int,
)
    requires
        0 <= k < n <= keys.len(),
    ensures
        ({
            let pairs = rep_pairs(records, members(records, group_by, keys[k], records.len() as int));
            pairs.len() > 0 ==> groups_of(records, group_by, keys, n).contains((keys[k], pairs))
        }),
    decreases n,
{
    let pairs = rep_pairs(records, members(records, group_by, keys[k], records.len() as int));
    let before = groups_of(records, group_by, keys, n - 1);
    let all = groups_of(records, group_by, keys, n);
    if pairs.len() > 0 {
        if k < n - 1 {
            groups_are_reported_with_their_pairs(records, group_by, keys, n - 1, k);
            assert(all[before.index_of((keys[k], pairs))] == (keys[k], pairs));
        } else {
            assert(all[before.len() as int] == (keys[k], pairs));
        }
    }
}

/// A series is told by its runtime, in packets per second, with its rate.
pub proof fn series_are_told_by_runtime(runtime: Seq<char>, rate: Seq<char>)
    ensures
        entry_text(runtime, rate) == "\n  {\"name\": "@ + json_text(runtime, Escapes::AllControls)
            + ", \"unit\": \"pkt/s\", \"value\": "@ + rate + "}"@,
{
}

/// A runtime has a series exactly where a listener ran on it.
pub proof fn series_are_of_runtimes_that_listened(
    records: Seq<Seq<(Seq<char>, Seq<char>)>>,
    n: int,
    runtime: Seq<char>,
)
    requires
        0 <= n <= records.len(),
    ensures
        runtimes_in(records, n).contains(runtime) <==> exists|i: int|
            0 <= i < n && field_in(#[trigger] records[i], "role"@) == Some("listener"@) && field_in(
                records[i],
                "runtime"@,
            ) == Some(runtime),
    decreases n,
{
    if n > 0 {
        series_are_of_runtimes_that_listened(records, n - 1, runtime);
        let before = runtimes_in(records, n - 1);
        let now = runtimes_in(records, n);
        if now.contains(runtime) {
            let at = now.index_of(runtime);
            if at < before.len() {
                assert(before[at] == runtime);
            } else {
                assert(listener_runtime(records[n - 1]) == Some(runtime));
                assert(field_in(records[n - 1], "role"@) == Some("listener"@));
            }
        }
        if before.contains(runtime) {
            assert(now[before.index_of(runtime)] == runtime);
        }
        if listener_runtime(records[n - 1]) == Some(runtime) {
            assert(now[before.len() as int] == runtime);
        }
    }
}

/// A run is validated where a record of it names a role.
pub proof fn runs_are_those_of_records_with_roles(
    records: Seq<Seq<(Seq<char>, Seq<char>)>>,
    n: int,
    k: int,
)
    requires
        0 <= k < n <= records.len(),
        field_in(records[k], "role"@) is Some,
    ensures
        run_keys(records, n).contains(run_key(records[k])),
    decreases n,
{
    let before = run_keys(records, n - 1);
    let now = run_keys(records, n);
    if k < n - 1 {
        runs_are_those_of_records_with_roles(records, n - 1, k);
        assert(now[before.index_of(run_key(records[k]))] == run_key(records[k]));
    } else {
        assert(now[before.len() as int] == run_key(records[k]));
    }
}

// ---------------------------------------------------------------------------
// Counts
// ---------------------------------------------------------------------------

/// Jiffies are summed over all figures, one more at a time.
pub proof fn figures_are_summed(a: Seq<u64>, b: Seq<u64>)
    ensures
        sum_of(a + b) == sum_of(a) + sum_of(b),
        b.len() == 1 ==> sum_of(b) == b[0],
        b.len() == 0 ==> sum_of(b) == 0,
    decreases b.len(),
{
    if b.len() == 0 {
        assert(a + b =~= a);
    } else {
        assert((a + b).drop_last() =~= a + b.drop_last());
        figures_are_summed(a, b.drop_last());
        if b.len() == 1 {
            assert(sum_of(b.drop_last()) == 0);
        }
    }
}

/// Where every word is a number, the numbers are those of the words, in their order.
pub proof fn numbers_keep_their_places(words: Seq<Seq<char>>, n: int, k: int)
    requires
        0 <= k < n <= words.len(),
        forall|j: int| 0 <= j < n ==> unsigned_of(#[trigger] words[j], u64::MAX as int) is Some,
    ensures
        numbers_in(words, n).len() == n,
        Some(numbers_in(words, n)[k] as nat) == unsigned_of(words[k], u64::MAX as int),
    decreases n,
{
    assert(unsigned_of(words[n - 1], u64::MAX as int) is Some);
    if n > 1 {
        numbers_keep_their_places(words, n - 1, if k < n - 1 {
            k
        } else {
            0
        });
    } else {
        assert(numbers_in(words, 0).len() == 0);
    }
}

/// A document without lines says nothing of pressure, and each line is taken in after those
/// before it.
pub proof fn pressure_is_read_line_by_line(lines: Seq<Seq<char>>, n: int)
    requires
        0 < n <= lines.len(),
    ensures
        !psi_lines(lines, 0).available,
        psi_lines(lines, 0).some_total_us == 0 && psi_lines(lines, 0).full_total_us == 0,
        psi_lines(lines, n) == psi_line(psi_lines(lines, n - 1), lines[n - 1]),
{
}

/// A packet that was sent counts once for its connection, and for nothing else.
pub proof fn packets_count_once(s: ConnStats)
    requires
        s.data_events < u64::MAX,
    ensures
        one_more(s).data_events == s.data_events + 1,
        one_more(s).core_total == s.core_total && one_more(s).secondary_a == s.secondary_a,
        one_more(s).secondary_b == s.secondary_b && one_more(s).rtt_us == s.rtt_us,
        one_more(s).connected == s.connected && one_more(s).torn_down == s.torn_down,
        one_more(s).source == s.source && one_more(s).has_source == s.has_source,
        one_more(s).has_stats == s.has_stats,
{
}

/// Routes lead to the slot whose ids they are, and those of other ids stay.
pub proof fn routes_lead_to_their_slot(
    routes: Map<u32, usize>,
    ids: Seq<u32>,
    slot: usize,
    id: u32,
)
    ensures
        ids.contains(id) ==> route_all(routes, ids, slot).contains_key(id) && route_all(
            routes,
            ids,
            slot,
        )[id] == slot,
        !ids.contains(id) ==> (route_all(routes, ids, slot).contains_key(id)
            <==> routes.contains_key(id)) && (routes.contains_key(id) ==> route_all(
            routes,
            ids,
            slot,
        )[id] == routes[id]),
{
}

/// A slot that has not started has sent nothing, holds nothing and has two legs where it is
/// a pair.
pub proof fn fresh_slots_hold_nothing(s: SharedSenderSlot, k: int)
    requires
        fresh(s),
        0 <= k < s.stats@.len(),
    ensures
        s.phase == SlotPhase::Pending,
        s.held_handshake_tokens == 0,
        s.stats@.len() == s.physical_legs,
        s.bond_pair_index is Some ==> s.physical_legs == 2,
        s.bond_pair_index is None ==> s.physical_legs == 1,
        !s.stats@[k].connected && !s.stats@[k].torn_down && s.stats@[k].data_events == 0,
        !s.stats@[k].has_stats && !s.stats@[k].has_source,
{
}

} // verus!
