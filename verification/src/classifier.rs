//! Classifying capacity cells, and holding predictions against what was observed.
use crate::capacity_args::available_text;
use crate::cli::{Cli, CliText};
use crate::compare::{measurable, pair_inputs, reasons_view};
use crate::json::{Escapes, json_string, json_text};
use crate::matrix::or_else;
use crate::model::{
    Availability, CapacityReason, CellClass, availability_text, codes_text, model_value,
    reason_codes,
};
use crate::plan::{PlanAxis, plan_text};
use crate::record::{Record, field_in};
use crate::report::{all_records, distinct, rows_text};
use crate::results::{config_columns, config_columns_text};
use crate::text::{
    concat3, contains_text, debug_quote, debug_text, decimal, join, joined, lemma_texts_push,
    render, replace_char, same, slices, sort, sorted_texts, sorting_is_exact, texts,
};
use crate::text_map::TextMap;
use vstd::prelude::*;

verus! {

/// The columns of the machine-readable outputs.
pub open spec fn output_columns_text() -> Seq<Seq<char>> {
    seq![
        "cell"@,
        "class"@,
        "reasons"@,
        "source_pps_total"@,
        "packet_pps"@,
        "srt_total_bps"@,
        "udp_ip_bps"@,
        "nic_wire_bps"@,
        "retransmission_factor"@,
        "bdp_packets"@,
        "required_window_packets"@,
        "flow_window_headroom_packets"@,
        "receive_window_headroom_packets"@,
        "recovery_margin_ms"@,
        "socket_horizon_recv_s"@,
        "socket_horizon_send_s"@,
        "host_utilization"@,
        "nic_utilization"@,
        "admission_waves"@,
        "policy_rev"@,
    ]
}

/// The columns of the machine-readable outputs.
pub fn output_columns() -> (r: Vec<&'static str>)
    ensures
        slices(r@) == output_columns_text(),
{
    let all: Vec<&'static str> = vec![
        "cell",
        "class",
        "reasons",
        "source_pps_total",
        "packet_pps",
        "srt_total_bps",
        "udp_ip_bps",
        "nic_wire_bps",
        "retransmission_factor",
        "bdp_packets",
        "required_window_packets",
        "flow_window_headroom_packets",
        "receive_window_headroom_packets",
        "recovery_margin_ms",
        "socket_horizon_recv_s",
        "socket_horizon_send_s",
        "host_utilization",
        "nic_utilization",
        "admission_waves",
        "policy_rev",
    ];
    assert(slices(all@) =~= output_columns_text());
    all
}

/// The rendered figures of an assessment.
#[derive(Debug)]
pub struct RowFigures {
    /// In full.
    pub source_pps_total: String,
    /// To three places.
    pub source_pps_short: String,
    /// To six places.
    pub source_pps_long: String,
    pub packet_pps: Availability<String>,
    pub srt_total_bps: Availability<String>,
    pub udp_ip_bps: Availability<String>,
    pub nic_wire_bps: Availability<String>,
    pub retransmission_factor: Availability<String>,
    pub bdp_packets: Availability<String>,
    pub required_window_packets: Availability<String>,
    pub flow_window_headroom_packets: Availability<String>,
    pub receive_window_headroom_packets: Availability<String>,
    pub recovery_margin_ms: Availability<String>,
    pub socket_horizon_recv_s: Availability<String>,
    pub socket_horizon_send_s: Availability<String>,
    pub host_utilization: Availability<String>,
    pub nic_utilization: Availability<String>,
}

/// One assessed cell.
#[derive(Debug)]
pub struct OutputRow {
    pub cell: String,
    pub class: CellClass,
    pub reasons: Vec<CapacityReason>,
    pub figures: RowFigures,
    pub admission_waves: u64,
    pub policy_revision: String,
}

// ---------------------------------------------------------------------------
// Expanding a plan
// ---------------------------------------------------------------------------

/// The first `k` rows, each followed by every value.
pub open spec fn with_values(rows: Seq<Seq<Seq<char>>>, values: Seq<Seq<char>>, k: int) -> Seq<
    Seq<Seq<char>>,
>
    decreases k,
{
    if k <= 0 {
        Seq::empty()
    } else {
        with_values(rows, values, k - 1) + values.map_values(|v: Seq<char>| rows[k - 1].push(v))
    }
}

/// Every choice of one value of each of the first `n` axes, the last axis varying
/// fastest.
pub open spec fn choices(axes: Seq<(Seq<char>, Seq<Seq<char>>)>, n: int) -> Seq<Seq<Seq<char>>>
    decreases n,
{
    if n <= 0 {
        seq![Seq::empty()]
    } else {
        let before = choices(axes, n - 1);
        with_values(before, axes[n - 1].1, before.len() as int)
    }
}

/// The cell that gives the first `n` axes the values of a row.
pub open spec fn cell_map(
    axes: Seq<(Seq<char>, Seq<Seq<char>>)>,
    row: Seq<Seq<char>>,
    n: int,
) -> Map<Seq<char>, Seq<char>>
    decreases n,
{
    if n <= 0 {
        Map::empty()
    } else {
        cell_map(axes, row, n - 1).insert(axes[n - 1].0, row[n - 1])
    }
}

/// The names of a plan's axes.
pub open spec fn axis_names(axes: Seq<(Seq<char>, Seq<Seq<char>>)>) -> Seq<Seq<char>> {
    axes.map_values(|a: (Seq<char>, Seq<Seq<char>>)| a.0)
}

/// How a cell is named: `name=value` by ascending name.
pub open spec fn cell_identity(names: Seq<Seq<char>>, cell: Map<Seq<char>, Seq<char>>) -> Seq<
    char,
> {
    joined(sorted_texts(distinct(names)).map_values(|n: Seq<char>| n + "="@ + cell[n]), ","@)
}

/// A cell of a plan.
pub struct PlanCell {
    pub identity: String,
    pub values: TextMap<String>,
}

/// Whether a cell is the one that a row of values makes.
pub open spec fn is_cell(
    cell: PlanCell,
    axes: Seq<(Seq<char>, Seq<Seq<char>>)>,
    row: Seq<Seq<char>>,
) -> bool {
    let values = cell_map(axes, row, axes.len() as int);
    &&& cell.values.wf()
    &&& cell.values.text() == values
    &&& cell.identity@ == cell_identity(axis_names(axes), values)
}

fn copy_row(row: &Vec<String>) -> (r: Vec<String>)
    ensures
        texts(r@) == texts(row@),
        r@.len() == row@.len(),
{
    let mut out: Vec<String> = Vec::new();
    let mut i: usize = 0;
    assert(texts(out@) =~= texts(row@).take(0));
    while i < row.len()
        invariant
            i <= row@.len(),
            out@.len() == i,
            texts(out@) == texts(row@).take(i as int),
        decreases row@.len() - i,
    {
        let s = row[i].clone();
        proof {
            lemma_texts_push(out@, s);
            assert(texts(row@).take(i + 1) =~= texts(row@).take(i as int).push(s@));
        }
        out.push(s);
        i += 1;
    }
    assert(texts(row@).take(row@.len() as int) =~= texts(row@));
    out
}

fn widen(rows: &Vec<Vec<String>>, values: &Vec<String>) -> (r: Vec<Vec<String>>)
    ensures
        rows_text(r@) == with_values(rows_text(rows@), texts(values@), rows@.len() as int),
{
    let ghost all = rows_text(rows@);
    let ghost choice = texts(values@);
    let mut out: Vec<Vec<String>> = Vec::new();
    let mut i: usize = 0;
    assert(rows_text(out@) =~= with_values(all, choice, 0));
    while i < rows.len()
        invariant
            i <= rows@.len(),
            all == rows_text(rows@),
            choice == texts(values@),
            rows_text(out@) == with_values(all, choice, i as int),
        decreases rows@.len() - i,
    {
        let ghost before = rows_text(out@);
        let ghost more = choice.map_values(|v: Seq<char>| all[i as int].push(v));
        let mut j: usize = 0;
        assert(before + more.take(0) =~= before);
        while j < values.len()
            invariant
                i < rows@.len(),
                j <= values@.len(),
                all == rows_text(rows@),
                choice == texts(values@),
                more == choice.map_values(|v: Seq<char>| all[i as int].push(v)),
                rows_text(out@) == before + more.take(j as int),
            decreases values@.len() - j,
        {
            let mut row = copy_row(&rows[i]);
            let value = values[j].clone();
            proof {
                lemma_texts_push(row@, value);
            }
            row.push(value);
            proof {
                assert(all[i as int] == texts(rows@[i as int]@));
                assert(more[j as int] == texts(row@));
                assert(rows_text(out@.push(row)) =~= rows_text(out@).push(texts(row@)));
                assert(before + more.take(j + 1) =~= (before + more.take(j as int)).push(
                    more[j as int],
                ));
            }
            out.push(row);
            j += 1;
        }
        assert(choice.len() == values@.len());
        assert(more.take(more.len() as int) =~= more);
        i += 1;
    }
    out
}

proof fn lemma_choice_width(axes: Seq<(Seq<char>, Seq<Seq<char>>)>, n: int, i: int)
    requires
        0 <= n <= axes.len(),
        0 <= i < choices(axes, n).len(),
    ensures
        choices(axes, n)[i].len() == n,
    decreases n,
{
    if n > 0 {
        let before = choices(axes, n - 1);
        assert forall|j: int| 0 <= j < before.len() implies (#[trigger] before[j]).len() == n
            - 1 by {
            lemma_choice_width(axes, n - 1, j);
        }
        lemma_widened(before, axes[n - 1].1, before.len() as int, n - 1, i);
    }
}

proof fn lemma_widened(
    rows: Seq<Seq<Seq<char>>>,
    values: Seq<Seq<char>>,
    k: int,
    width: int,
    i: int,
)
    requires
        0 <= k <= rows.len(),
        0 <= i < with_values(rows, values, k).len(),
        forall|j: int| 0 <= j < rows.len() ==> (#[trigger] rows[j]).len() == width,
    ensures
        with_values(rows, values, k)[i].len() == width + 1,
    decreases k,
{
    if k > 0 {
        let before = with_values(rows, values, k - 1);
        let more = values.map_values(|v: Seq<char>| rows[k - 1].push(v));
        if i < before.len() {
            lemma_widened(rows, values, k - 1, width, i);
            assert(with_values(rows, values, k)[i] == before[i]);
        } else {
            assert(with_values(rows, values, k)[i] == more[i - before.len()]);
            assert(rows[k - 1].len() == width);
        }
    }
}

fn cell_of(axes: &Vec<PlanAxis>, row: &Vec<String>) -> (r: PlanCell)
    requires
        row@.len() == axes@.len(),
    ensures
        is_cell(r, plan_text(axes@), texts(row@)),
{
    let ghost all = plan_text(axes@);
    let ghost names = axis_names(all);
    let ghost given_row = texts(row@);
    let mut values: TextMap<String> = TextMap::new();
    let mut i: usize = 0;
    assert(values.text() =~= cell_map(all, given_row, 0));
    assert(values.keys() =~= distinct(names.take(0)));
    while i < axes.len()
        invariant
            i <= axes@.len() == row@.len(),
            all == plan_text(axes@),
            names == axis_names(all),
            given_row == texts(row@),
            values.wf(),
            values.text() == cell_map(all, given_row, i as int),
            values.keys() == distinct(names.take(i as int)),
        decreases axes@.len() - i,
    {
        let name = axes[i].name.clone();
        let value = row[i].clone();
        let ghost before = values;
        proof {
            assert(all[i as int].0 == name@);
            assert(names[i as int] == name@);
            assert(given_row[i as int] == value@);
            assert(names.take(i + 1).drop_last() =~= names.take(i as int));
            values.lemma_keys();
        }
        values.insert(name, value);
        assert(values.text() =~= before.text().insert(name@, value@));
        i += 1;
    }
    assert(names.take(names.len() as int) =~= names);
    let ghost cell = cell_map(all, given_row, all.len() as int);
    assert(all.len() == axes@.len());
    let mut keys: Vec<String> = Vec::new();
    let mut k: usize = 0;
    assert(texts(keys@) =~= values.keys().take(0));
    while k < values.len()
        invariant
            k <= values.keys().len(),
            texts(keys@) == values.keys().take(k as int),
        decreases values.keys().len() - k,
    {
        let key = values.key_at(k).to_owned();
        proof {
            lemma_texts_push(keys@, key);
            assert(values.keys().take(k + 1) =~= values.keys().take(k as int).push(key@));
        }
        keys.push(key);
        k += 1;
    }
    assert(values.keys().take(values.keys().len() as int) =~= values.keys());
    let keys = sort(keys);
    let ghost order = sorted_texts(distinct(names));
    assert(texts(keys@) == order);
    let ghost want = order.map_values(|n: Seq<char>| n + "="@ + cell[n]);
    proof {
        values.lemma_keys();
        sorting_is_exact(distinct(names));
        assert forall|n: Seq<char>| #[trigger] order.contains(n) implies values@.contains_key(
            n,
        ) by {
            assert(distinct(names).to_multiset().count(n) == order.to_multiset().count(n));
            order.to_multiset_ensures();
            distinct(names).to_multiset_ensures();
            assert(values.keys().contains(n));
        }
    }
    let mut parts: Vec<String> = Vec::new();
    let mut j: usize = 0;
    assert(texts(parts@) =~= want.take(0));
    while j < keys.len()
        invariant
            j <= keys@.len(),
            texts(keys@) == order,
            want == order.map_values(|n: Seq<char>| n + "="@ + cell[n]),
            values.text() == cell,
            forall|n: Seq<char>| #[trigger] order.contains(n) ==> values@.contains_key(n),
            texts(parts@) == want.take(j as int),
        decreases keys@.len() - j,
    {
        assert(order[j as int] == keys@[j as int]@);
        assert(order.contains(keys@[j as int]@));
        let value = values.text_or_empty(keys[j].as_str());
        let part = concat3(keys[j].as_str(), "=", value.as_str());
        proof {
            assert(values.text().contains_key(keys@[j as int]@));
            lemma_texts_push(parts@, part);
            assert(want[j as int] == part@);
            assert(want.take(j + 1) =~= want.take(j as int).push(part@));
        }
        parts.push(part);
        j += 1;
    }
    assert(order.len() == keys@.len());
    assert(want.take(want.len() as int) =~= want);
    PlanCell { identity: join(&parts, ","), values }
}

/// Every cell of a plan, none skipped. An axis without values is an error, which
/// names the plan's file.
pub fn classify_plan(axes: &Vec<PlanAxis>, path: &str) -> (r: Result<Vec<PlanCell>, String>)
    ensures
        match r {
            Ok(cells) => {
                let rows = choices(plan_text(axes@), axes@.len() as int);
                &&& forall|i: int|
                    0 <= i < axes@.len() ==> (#[trigger] axes@[i]).values@.len() > 0
                &&& cells@.len() == rows.len()
                &&& forall|i: int|
                    0 <= i < cells@.len() ==> is_cell(
                        #[trigger] cells@[i],
                        plan_text(axes@),
                        rows[i],
                    )
            },
            Err(e) => {
                &&& exists|i: int| 0 <= i < axes@.len() && (#[trigger] axes@[i]).values@.len() == 0
                &&& e@ == debug_text(path@) + ": every plan axis needs at least one value"@
            },
        },
{
    let ghost all = plan_text(axes@);
    let mut a: usize = 0;
    while a < axes.len()
        invariant
            a <= axes@.len(),
            forall|i: int| 0 <= i < a ==> (#[trigger] axes@[i]).values@.len() > 0,
        decreases axes@.len() - a,
    {
        if axes[a].values.len() == 0 {
            let mut out = debug_quote(path);
            out.append(": every plan axis needs at least one value");
            return Err(out);
        }
        a += 1;
    }
    let mut rows: Vec<Vec<String>> = Vec::new();
    let first: Vec<String> = Vec::new();
    assert(texts(first@) =~= Seq::<Seq<char>>::empty());
    rows.push(first);
    assert(rows_text(rows@) =~= choices(all, 0));
    let mut n: usize = 0;
    while n < axes.len()
        invariant
            n <= axes@.len(),
            all == plan_text(axes@),
            rows_text(rows@) == choices(all, n as int),
        decreases axes@.len() - n,
    {
        assert(all[n as int].1 == texts(axes@[n as int].values@));
        assert(rows_text(rows@).len() == rows@.len());
        rows = widen(&rows, &axes[n].values);
        n += 1;
    }
    let ghost want = choices(all, axes@.len() as int);
    assert(all.len() == axes@.len());
    assert(rows_text(rows@).len() == rows@.len());
    let mut cells: Vec<PlanCell> = Vec::new();
    let mut i: usize = 0;
    while i < rows.len()
        invariant
            i <= rows@.len(),
            all == plan_text(axes@),
            all.len() == axes@.len(),
            want == choices(all, axes@.len() as int),
            rows_text(rows@) == want,
            rows@.len() == want.len(),
            cells@.len() == i,
            forall|j: int| 0 <= j < i ==> is_cell(#[trigger] cells@[j], all, want[j]),
        decreases rows@.len() - i,
    {
        proof {
            assert(want[i as int] == texts(rows@[i as int]@));
            lemma_choice_width(all, axes@.len() as int, i as int);
        }
        let cell = cell_of(axes, &rows[i]);
        cells.push(cell);
        i += 1;
    }
    Ok(cells)
}

/// How many cells the first `n` axes make.
pub open spec fn cell_count(axes: Seq<(Seq<char>, Seq<Seq<char>>)>, n: int) -> nat
    decreases n,
{
    if n <= 0 {
        1
    } else {
        cell_count(axes, n - 1) * axes[n - 1].1.len()
    }
}

/// A plan is expanded completely: there are as many cells as the product of the
/// numbers of values.
pub proof fn plans_are_expanded_completely(axes: Seq<(Seq<char>, Seq<Seq<char>>)>, n: int)
    requires
        0 <= n <= axes.len(),
    ensures
        choices(axes, n).len() == cell_count(axes, n),
    decreases n,
{
    if n > 0 {
        plans_are_expanded_completely(axes, n - 1);
        let before = choices(axes, n - 1);
        lemma_widened_count(before, axes[n - 1].1, before.len() as int);
    }
}

proof fn lemma_widened_count(rows: Seq<Seq<Seq<char>>>, values: Seq<Seq<char>>, k: int)
    requires
        0 <= k <= rows.len(),
    ensures
        with_values(rows, values, k).len() == k * values.len(),
    decreases k,
{
    if k > 0 {
        lemma_widened_count(rows, values, k - 1);
        assert(k * values.len() == (k - 1) * values.len() + values.len()) by (nonlinear_arith);
    } else {
        assert(0 * values.len() == 0) by (nonlinear_arith);
    }
}

// ---------------------------------------------------------------------------
// Rendering
// ---------------------------------------------------------------------------

/// A text that cannot break a row: tabs and line ends become spaces.
pub open spec fn tsv_text(s: Seq<char>) -> Seq<char> {
    s.map_values(
        |c: char|
            if c == '\t' || c == '\n' || c == '\r' {
                ' '
            } else {
                c
            },
    )
}

/// A text that cannot break a row: tabs and line ends become spaces.
pub fn tsv(s: &str) -> (r: String)
    ensures
        r@ == tsv_text(s@),
{
    let a = replace_char(s, '\t', ' ');
    let b = replace_char(a.as_str(), '\n', ' ');
    let c = replace_char(b.as_str(), '\r', ' ');
    assert(c@ =~= tsv_text(s@));
    c
}

/// A value with its state.
pub open spec fn state_text(v: Availability<Seq<char>>) -> Seq<char> {
    match v {
        Availability::Known(s) => "{\"state\":\"known\",\"value\":"@ + s + "}"@,
        Availability::Unknown => "{\"state\":\"unknown\"}"@,
        Availability::NotApplicable => "{\"state\":\"not-applicable\"}"@,
    }
}

fn json_availability(v: &Availability<String>) -> (r: String)
    ensures
        r@ == state_text(available_text(*v)),
{
    match v {
        Availability::Known(s) => concat3(
            "{\"state\":\"known\",\"value\":",
            s.as_str(),
            "}",
        ),
        Availability::Unknown => "{\"state\":\"unknown\"}".to_owned(),
        Availability::NotApplicable => "{\"state\":\"not-applicable\"}".to_owned(),
    }
}

fn push_text(list: &mut Vec<String>, s: String)
    ensures
        texts(final(list)@) == texts(old(list)@).push(s@),
{
    proof {
        lemma_texts_push(list@, s);
    }
    list.push(s);
}

pub open spec fn rate_figure_texts(f: RowFigures) -> Seq<Seq<char>> {
    seq![
        availability_text(available_text(f.packet_pps)),
        availability_text(available_text(f.srt_total_bps)),
        availability_text(available_text(f.udp_ip_bps)),
        availability_text(available_text(f.nic_wire_bps)),
        availability_text(available_text(f.retransmission_factor)),
    ]
}

pub open spec fn window_figure_texts(f: RowFigures) -> Seq<Seq<char>> {
    seq![
        availability_text(available_text(f.bdp_packets)),
        availability_text(available_text(f.required_window_packets)),
        availability_text(available_text(f.flow_window_headroom_packets)),
        availability_text(available_text(f.receive_window_headroom_packets)),
    ]
}

pub open spec fn margin_figure_texts(f: RowFigures) -> Seq<Seq<char>> {
    seq![
        availability_text(available_text(f.recovery_margin_ms)),
        availability_text(available_text(f.socket_horizon_recv_s)),
        availability_text(available_text(f.socket_horizon_send_s)),
        availability_text(available_text(f.host_utilization)),
        availability_text(available_text(f.nic_utilization)),
    ]
}

/// The figures, rendered, in the order of the columns.
pub open spec fn figure_texts(f: RowFigures) -> Seq<Seq<char>> {
    rate_figure_texts(f) + window_figure_texts(f) + margin_figure_texts(f)
}

fn push_figures_rate(list: &mut Vec<String>, f: &RowFigures)
    ensures
        texts(final(list)@) == texts(old(list)@) + rate_figure_texts(*f),
{
    let ghost before = texts(list@);
    push_text(list, model_value(&f.packet_pps));
    push_text(list, model_value(&f.srt_total_bps));
    push_text(list, model_value(&f.udp_ip_bps));
    push_text(list, model_value(&f.nic_wire_bps));
    push_text(list, model_value(&f.retransmission_factor));
    assert(texts(list@) =~= before + rate_figure_texts(*f));
}

fn push_figures_window(list: &mut Vec<String>, f: &RowFigures)
    ensures
        texts(final(list)@) == texts(old(list)@) + window_figure_texts(*f),
{
    let ghost before = texts(list@);
    push_text(list, model_value(&f.bdp_packets));
    push_text(list, model_value(&f.required_window_packets));
    push_text(list, model_value(&f.flow_window_headroom_packets));
    push_text(list, model_value(&f.receive_window_headroom_packets));
    assert(texts(list@) =~= before + window_figure_texts(*f));
}

fn push_figures_margin(list: &mut Vec<String>, f: &RowFigures)
    ensures
        texts(final(list)@) == texts(old(list)@) + margin_figure_texts(*f),
{
    let ghost before = texts(list@);
    push_text(list, model_value(&f.recovery_margin_ms));
    push_text(list, model_value(&f.socket_horizon_recv_s));
    push_text(list, model_value(&f.socket_horizon_send_s));
    push_text(list, model_value(&f.host_utilization));
    push_text(list, model_value(&f.nic_utilization));
    assert(texts(list@) =~= before + margin_figure_texts(*f));
}

fn push_figures(list: &mut Vec<String>, f: &RowFigures)
    ensures
        texts(final(list)@) == texts(old(list)@) + figure_texts(*f),
{
    let ghost before = texts(list@);
    push_figures_rate(list, f);
    push_figures_window(list, f);
    push_figures_margin(list, f);
    assert(texts(list@) =~= before + figure_texts(*f));
}

pub open spec fn rate_figure_states(f: RowFigures) -> Seq<Seq<char>> {
    seq![
        state_text(available_text(f.packet_pps)),
        state_text(available_text(f.srt_total_bps)),
        state_text(available_text(f.udp_ip_bps)),
        state_text(available_text(f.nic_wire_bps)),
        state_text(available_text(f.retransmission_factor)),
    ]
}

pub open spec fn window_figure_states(f: RowFigures) -> Seq<Seq<char>> {
    seq![
        state_text(available_text(f.bdp_packets)),
        state_text(available_text(f.required_window_packets)),
        state_text(available_text(f.flow_window_headroom_packets)),
        state_text(available_text(f.receive_window_headroom_packets)),
    ]
}

pub open spec fn margin_figure_states(f: RowFigures) -> Seq<Seq<char>> {
    seq![
        state_text(available_text(f.recovery_margin_ms)),
        state_text(available_text(f.socket_horizon_recv_s)),
        state_text(available_text(f.socket_horizon_send_s)),
        state_text(available_text(f.host_utilization)),
        state_text(available_text(f.nic_utilization)),
    ]
}

/// The figures with their states, in the order of the columns.
pub open spec fn figure_states(f: RowFigures) -> Seq<Seq<char>> {
    rate_figure_states(f) + window_figure_states(f) + margin_figure_states(f)
}

fn push_states_rate(list: &mut Vec<String>, f: &RowFigures)
    ensures
        texts(final(list)@) == texts(old(list)@) + rate_figure_states(*f),
{
    let ghost before = texts(list@);
    push_text(list, json_availability(&f.packet_pps));
    push_text(list, json_availability(&f.srt_total_bps));
    push_text(list, json_availability(&f.udp_ip_bps));
    push_text(list, json_availability(&f.nic_wire_bps));
    push_text(list, json_availability(&f.retransmission_factor));
    assert(texts(list@) =~= before + rate_figure_states(*f));
}

fn push_states_window(list: &mut Vec<String>, f: &RowFigures)
    ensures
        texts(final(list)@) == texts(old(list)@) + window_figure_states(*f),
{
    let ghost before = texts(list@);
    push_text(list, json_availability(&f.bdp_packets));
    push_text(list, json_availability(&f.required_window_packets));
    push_text(list, json_availability(&f.flow_window_headroom_packets));
    push_text(list, json_availability(&f.receive_window_headroom_packets));
    assert(texts(list@) =~= before + window_figure_states(*f));
}

fn push_states_margin(list: &mut Vec<String>, f: &RowFigures)
    ensures
        texts(final(list)@) == texts(old(list)@) + margin_figure_states(*f),
{
    let ghost before = texts(list@);
    push_text(list, json_availability(&f.recovery_margin_ms));
    push_text(list, json_availability(&f.socket_horizon_recv_s));
    push_text(list, json_availability(&f.socket_horizon_send_s));
    push_text(list, json_availability(&f.host_utilization));
    push_text(list, json_availability(&f.nic_utilization));
    assert(texts(list@) =~= before + margin_figure_states(*f));
}

fn push_states(list: &mut Vec<String>, f: &RowFigures)
    ensures
        texts(final(list)@) == texts(old(list)@) + figure_states(*f),
{
    let ghost before = texts(list@);
    push_states_rate(list, f);
    push_states_window(list, f);
    push_states_margin(list, f);
    assert(texts(list@) =~= before + figure_states(*f));
}

/// The cells of a row.
pub open spec fn row_cells(row: OutputRow) -> Seq<Seq<char>> {
    seq![
        tsv_text(row.cell@),
        row.class.text(),
        codes_text(row.reasons@),
        row.figures.source_pps_long@,
    ] + figure_texts(row.figures) + seq![
        decimal(row.admission_waves as nat),
        tsv_text(row.policy_revision@),
    ]
}

/// A row between tabs.
pub fn row_tsv(row: &OutputRow) -> (r: String)
    ensures
        r@ == joined(row_cells(*row), "\t"@),
{
    let mut cells: Vec<String> = Vec::new();
    push_text(&mut cells, tsv(row.cell.as_str()));
    push_text(&mut cells, row.class.name().to_owned());
    push_text(&mut cells, reason_codes(&row.reasons));
    push_text(&mut cells, row.figures.source_pps_long.clone());
    push_figures(&mut cells, &row.figures);
    push_text(&mut cells, render(row.admission_waves));
    push_text(&mut cells, tsv(row.policy_revision.as_str()));
    assert(texts(cells@) =~= row_cells(*row));
    join(&cells, "\t")
}

/// A text in quotes.
pub open spec fn quoted(s: Seq<char>) -> Seq<char> {
    "\""@ + s + "\""@
}

/// The codes of reasons as a JSON array.
pub open spec fn code_array(reasons: Seq<CapacityReason>) -> Seq<char> {
    "["@ + joined(reasons.map_values(|r: CapacityReason| quoted(r.text())), ","@) + "]"@
}

fn reasons_array(reasons: &Vec<CapacityReason>) -> (r: String)
    ensures
        r@ == code_array(reasons@),
{
    let ghost want = reasons@.map_values(|r: CapacityReason| quoted(r.text()));
    let mut parts: Vec<String> = Vec::new();
    let mut i: usize = 0;
    assert(texts(parts@) =~= want.take(0));
    while i < reasons.len()
        invariant
            i <= reasons@.len(),
            want == reasons@.map_values(|r: CapacityReason| quoted(r.text())),
            texts(parts@) == want.take(i as int),
        decreases reasons@.len() - i,
    {
        let part = concat3("\"", reasons[i].code(), "\"");
        assert(want.take(i + 1) =~= want.take(i as int).push(part@));
        push_text(&mut parts, part);
        i += 1;
    }
    assert(want.take(want.len() as int) =~= want);
    let all = join(&parts, ",");
    concat3("[", all.as_str(), "]")
}

/// The JSON values of a row, in the order of the columns.
pub open spec fn row_values(row: OutputRow) -> Seq<Seq<char>> {
    seq![
        json_text(row.cell@, Escapes::Nothing),
        quoted(row.class.text()),
        code_array(row.reasons@),
        row.figures.source_pps_total@,
    ] + figure_states(row.figures) + seq![
        decimal(row.admission_waves as nat),
        json_text(row.policy_revision@, Escapes::Nothing),
    ]
}

/// The first `n` columns of a JSON object with their values.
pub open spec fn members(names: Seq<Seq<char>>, values: Seq<Seq<char>>, n: int) -> Seq<Seq<char>>
    decreases n,
{
    if n <= 0 {
        Seq::empty()
    } else {
        members(names, values, n - 1).push(quoted(names[n - 1]) + ":"@ + values[n - 1])
    }
}

/// A row as a JSON object.
pub open spec fn row_object(row: OutputRow) -> Seq<char> {
    "  {"@ + joined(members(output_columns_text(), row_values(row), 20), ","@) + "}"@
}

fn object_members(names: &Vec<&'static str>, values: &Vec<String>) -> (r: String)
    requires
        names@.len() == values@.len(),
    ensures
        r@ == joined(members(slices(names@), texts(values@), names@.len() as int), ","@),
{
    let ghost n_text = slices(names@);
    let ghost v_text = texts(values@);
    let mut parts: Vec<String> = Vec::new();
    let mut i: usize = 0;
    assert(texts(parts@) =~= members(n_text, v_text, 0));
    while i < names.len()
        invariant
            i <= names@.len() == values@.len(),
            n_text == slices(names@),
            v_text == texts(values@),
            texts(parts@) == members(n_text, v_text, i as int),
        decreases names@.len() - i,
    {
        let mut part = concat3("\"", names[i], "\"");
        part.append(":");
        part.append(values[i].as_str());
        proof {
            assert(n_text[i as int] == names@[i as int]@);
            assert(v_text[i as int] == values@[i as int]@);
        }
        push_text(&mut parts, part);
        i += 1;
    }
    join(&parts, ",")
}

/// A row as a JSON object.
pub fn row_json(row: &OutputRow) -> (r: String)
    ensures
        r@ == row_object(*row),
{
    let mut values: Vec<String> = Vec::new();
    push_text(&mut values, json_string(row.cell.as_str(), Escapes::Nothing));
    push_text(&mut values, concat3("\"", row.class.name(), "\""));
    push_text(&mut values, reasons_array(&row.reasons));
    push_text(&mut values, row.figures.source_pps_total.clone());
    push_states(&mut values, &row.figures);
    push_text(&mut values, render(row.admission_waves));
    push_text(&mut values, json_string(row.policy_revision.as_str(), Escapes::Nothing));
    assert(texts(values@) =~= row_values(*row));
    let names = output_columns();
    assert(slices(names@).len() == names@.len());
    assert(texts(values@).len() == values@.len());
    let inner = object_members(&names, &values);
    concat3("  {", inner.as_str(), "}")
}

/// The first `n` rows, each followed by a line end.
pub open spec fn lines_text(rows: Seq<Seq<char>>, n: int) -> Seq<char>
    decreases n,
{
    if n <= 0 {
        Seq::empty()
    } else {
        lines_text(rows, n - 1) + rows[n - 1] + "\n"@
    }
}

/// The summary cells of a row.
pub open spec fn table_cells(row: OutputRow) -> Seq<Seq<char>> {
    seq![
        tsv_text(row.cell@),
        row.class.text(),
        codes_text(row.reasons@),
        row.figures.source_pps_short@,
        availability_text(available_text(row.figures.packet_pps)),
        availability_text(available_text(row.figures.srt_total_bps)),
        availability_text(available_text(row.figures.bdp_packets)),
        availability_text(available_text(row.figures.recovery_margin_ms)),
        availability_text(available_text(row.figures.host_utilization)),
        availability_text(available_text(row.figures.nic_utilization)),
    ]
}

pub open spec fn table_rows(rows: Seq<OutputRow>) -> Seq<Seq<char>> {
    rows.map_values(|r: OutputRow| joined(table_cells(r), "\t"@))
}

pub open spec fn tsv_rows(rows: Seq<OutputRow>) -> Seq<Seq<char>> {
    rows.map_values(|r: OutputRow| joined(row_cells(r), "\t"@))
}

pub open spec fn json_rows(rows: Seq<OutputRow>) -> Seq<Seq<char>> {
    rows.map_values(|r: OutputRow| row_object(r))
}

/// The assessed rows in a format.
pub open spec fn rendered(rows: Seq<OutputRow>, format: Seq<char>) -> Result<Seq<char>, Seq<char>> {
    if format == "table"@ {
        Ok(
            "policy: "@ + rows[0].policy_revision@ + "\n"@
                + "cell\tclass\treasons\tsource_pps\tpacket_pps\tsrt_total_bps\tbdp_packets\trecovery_margin_ms\thost_utilization\tnic_utilization\n"@
                + lines_text(table_rows(rows), rows.len() as int),
        )
    } else if format == "tsv"@ {
        Ok(
            joined(output_columns_text(), "\t"@) + "\n"@ + lines_text(
                tsv_rows(rows),
                rows.len() as int,
            ),
        )
    } else if format == "json"@ {
        Ok("[\n"@ + joined(json_rows(rows), ",\n"@) + "\n]\n"@)
    } else {
        Err(
            "unknown --format "@ + debug_text(format) + " (expected table, tsv, or json)"@,
        )
    }
}

fn table_line(row: &OutputRow) -> (r: String)
    ensures
        r@ == joined(table_cells(*row), "\t"@),
{
    let mut cells: Vec<String> = Vec::new();
    push_text(&mut cells, tsv(row.cell.as_str()));
    push_text(&mut cells, row.class.name().to_owned());
    push_text(&mut cells, reason_codes(&row.reasons));
    push_text(&mut cells, row.figures.source_pps_short.clone());
    push_text(&mut cells, model_value(&row.figures.packet_pps));
    push_text(&mut cells, model_value(&row.figures.srt_total_bps));
    push_text(&mut cells, model_value(&row.figures.bdp_packets));
    push_text(&mut cells, model_value(&row.figures.recovery_margin_ms));
    push_text(&mut cells, model_value(&row.figures.host_utilization));
    push_text(&mut cells, model_value(&row.figures.nic_utilization));
    assert(texts(cells@) =~= table_cells(*row));
    join(&cells, "\t")
}

fn render_table(rows: &Vec<OutputRow>) -> (r: String)
    requires
        rows@.len() > 0,
    ensures
        rendered(rows@, "table"@) == Ok::<Seq<char>, Seq<char>>(r@),
{
    let mut out = concat3("policy: ", rows[0].policy_revision.as_str(), "\n");
    out.append(
        "cell\tclass\treasons\tsource_pps\tpacket_pps\tsrt_total_bps\tbdp_packets\trecovery_margin_ms\thost_utilization\tnic_utilization\n",
    );
    let ghost head = out@;
    let ghost all = table_rows(rows@);
    let mut i: usize = 0;
    assert(head + lines_text(all, 0) =~= head);
    while i < rows.len()
        invariant
            i <= rows@.len(),
            all == table_rows(rows@),
            out@ == head + lines_text(all, i as int),
        decreases rows@.len() - i,
    {
        out.append(table_line(&rows[i]).as_str());
        out.append("\n");
        assert(out@ =~= head + lines_text(all, i + 1));
        i += 1;
    }
    out
}

/// Names between tabs.
fn heading(names: &Vec<&'static str>) -> (r: String)
    ensures
        r@ == joined(slices(names@), "\t"@),
{
    let mut list: Vec<String> = Vec::new();
    let mut i: usize = 0;
    assert(texts(list@) =~= slices(names@).take(0));
    while i < names.len()
        invariant
            i <= names@.len(),
            texts(list@) == slices(names@).take(i as int),
        decreases names@.len() - i,
    {
        assert(slices(names@).take(i + 1) =~= slices(names@).take(i as int).push(
            names@[i as int]@,
        ));
        push_text(&mut list, names[i].to_owned());
        i += 1;
    }
    assert(slices(names@).take(names@.len() as int) =~= slices(names@));
    join(&list, "\t")
}

fn render_tsv(rows: &Vec<OutputRow>) -> (r: String)
    ensures
        r@ == joined(output_columns_text(), "\t"@) + "\n"@ + lines_text(
            tsv_rows(rows@),
            rows@.len() as int,
        ),
{
    let names = output_columns();
    let mut out = heading(&names);
    out.append("\n");
    let ghost head = out@;
    let ghost all = tsv_rows(rows@);
    let mut i: usize = 0;
    assert(head + lines_text(all, 0) =~= head);
    while i < rows.len()
        invariant
            i <= rows@.len(),
            all == tsv_rows(rows@),
            out@ == head + lines_text(all, i as int),
        decreases rows@.len() - i,
    {
        out.append(row_tsv(&rows[i]).as_str());
        out.append("\n");
        assert(out@ =~= head + lines_text(all, i + 1));
        i += 1;
    }
    out
}

fn render_json_rows(rows: &Vec<OutputRow>) -> (r: String)
    ensures
        r@ == "[\n"@ + joined(json_rows(rows@), ",\n"@) + "\n]\n"@,
{
    let ghost all = json_rows(rows@);
    let mut parts: Vec<String> = Vec::new();
    let mut i: usize = 0;
    assert(texts(parts@) =~= all.take(0));
    while i < rows.len()
        invariant
            i <= rows@.len(),
            all == json_rows(rows@),
            texts(parts@) == all.take(i as int),
        decreases rows@.len() - i,
    {
        let part = row_json(&rows[i]);
        assert(all.take(i + 1) =~= all.take(i as int).push(part@));
        push_text(&mut parts, part);
        i += 1;
    }
    assert(all.take(all.len() as int) =~= all);
    let inner = join(&parts, ",\n");
    concat3("[\n", inner.as_str(), "\n]\n")
}

fn render_rows(rows: &Vec<OutputRow>, format: &str) -> (r: Result<String, String>)
    requires
        rows@.len() > 0,
    ensures
        match (r, rendered(rows@, format@)) {
            (Ok(a), Ok(b)) => a@ == b,
            (Err(a), Err(b)) => a@ == b,
            _ => false,
        },
{
    proof {
        reveal_strlit("table");
        reveal_strlit("tsv");
        reveal_strlit("json");
        assert("table"@.len() == 5 && "tsv"@.len() == 3 && "json"@.len() == 4);
    }
    if same(format, "table") {
        Ok(render_table(rows))
    } else if same(format, "tsv") {
        Ok(render_tsv(rows))
    } else if same(format, "json") {
        Ok(render_json_rows(rows))
    } else {
        let shown = debug_quote(format);
        Err(concat3("unknown --format ", shown.as_str(), " (expected table, tsv, or json)"))
    }
}

/// The format that a command line asks for.
pub open spec fn format_asked(cli: CliText) -> Seq<char> {
    if cli.flag("json"@) is Some {
        "json"@
    } else {
        match cli.flag("format"@) {
            Some(v) => if v.len() == 0 {
                "table"@
            } else {
                v
            },
            None => "table"@,
        }
    }
}

/// The format that a command line asks for.
pub fn output_format(cli: &Cli) -> (r: String)
    ensures
        r@ == format_asked(cli@),
{
    if cli.flag("json").is_some() {
        return "json".to_owned();
    }
    match cli.flag("format") {
        Some(v) => if v.as_str().is_empty() {
            "table".to_owned()
        } else {
            v.clone()
        },
        None => "table".to_owned(),
    }
}

/// The answer to `classify`: the assessed cells in the format that is asked for.
pub fn classify(cli: &Cli, rows: &Vec<OutputRow>) -> (r: Result<String, String>)
    requires
        rows@.len() > 0,
    ensures
        match (r, rendered(rows@, format_asked(cli@))) {
            (Ok(a), Ok(b)) => a@ == b,
            (Err(a), Err(b)) => a@ == b,
            _ => false,
        },
{
    let format = output_format(cli);
    render_rows(rows, format.as_str())
}

// ---------------------------------------------------------------------------
// Validation
// ---------------------------------------------------------------------------

/// `column=value` for the first `n` configuration columns that a record has.
pub open spec fn recorded_parts(record: Seq<(Seq<char>, Seq<char>)>, n: int) -> Seq<Seq<char>>
    decreases n,
{
    if n <= 0 {
        Seq::empty()
    } else {
        let column = config_columns_text()[n - 1];
        match field_in(record, column) {
            Some(v) => recorded_parts(record, n - 1).push(column + "="@ + v),
            None => recorded_parts(record, n - 1),
        }
    }
}

/// The run that a record belongs to.
pub open spec fn run_key(record: Seq<(Seq<char>, Seq<char>)>) -> Seq<char> {
    joined(
        recorded_parts(record, config_columns_text().len() as int).push(
            "rep="@ + or_else(field_in(record, "rep"@), Seq::empty()),
        ).push("attempt="@ + or_else(field_in(record, "attempt"@), Seq::empty())),
        " "@,
    )
}

/// The run that a record belongs to.
pub fn result_key(record: &Record) -> (r: String)
    ensures
        r@ == run_key(record@),
{
    let names = config_columns();
    let ghost all = config_columns_text();
    let mut parts: Vec<String> = Vec::new();
    let mut i: usize = 0;
    assert(texts(parts@) =~= recorded_parts(record@, 0));
    while i < names.len()
        invariant
            i <= names@.len(),
            all == config_columns_text(),
            slices(names@) == all,
            texts(parts@) == recorded_parts(record@, i as int),
        decreases names@.len() - i,
    {
        assert(slices(names@)[i as int] == names@[i as int]@);
        if let Some(v) = record.get(names[i]) {
            push_text(&mut parts, concat3(names[i], "=", v));
        }
        i += 1;
    }
    assert(slices(names@).len() == names@.len());
    let mut rep = "rep=".to_owned();
    rep.append(record.get_or("rep", "").as_str());
    let mut attempt = "attempt=".to_owned();
    attempt.append(record.get_or("attempt", "").as_str());
    proof {
        reveal_strlit("");
        assert(""@ =~= Seq::<char>::empty());
    }
    push_text(&mut parts, rep);
    push_text(&mut parts, attempt);
    join(&parts, " ")
}

/// The rows of one run, as far as they are there.
#[derive(Debug)]
pub struct RunSlot {
    pub key: String,
    pub caller: Option<usize>,
    pub listener: Option<usize>,
}

/// The last of the first `n` records that is the row of `role` in a run.
pub open spec fn last_of_role(
    records: Seq<Seq<(Seq<char>, Seq<char>)>>,
    n: int,
    key: Seq<char>,
    role: Seq<char>,
) -> Option<usize>
    decreases n,
{
    if n <= 0 {
        None
    } else if run_key(records[n - 1]) == key && field_in(records[n - 1], "role"@) == Some(role) {
        Some((n - 1) as usize)
    } else {
        last_of_role(records, n - 1, key, role)
    }
}

/// The runs of the first `n` records that name a role.
pub open spec fn run_keys(records: Seq<Seq<(Seq<char>, Seq<char>)>>, n: int) -> Seq<Seq<char>>
    decreases n,
{
    if n <= 0 {
        Seq::empty()
    } else if field_in(records[n - 1], "role"@) is Some {
        run_keys(records, n - 1).push(run_key(records[n - 1]))
    } else {
        run_keys(records, n - 1)
    }
}

/// The runs of all records that name a role, each once, in ascending order.
pub open spec fn runs_in(records: Seq<Seq<(Seq<char>, Seq<char>)>>) -> Seq<Seq<char>> {
    sorted_texts(distinct(run_keys(records, records.len() as int)))
}

/// Whether a slot holds the rows of a run.
pub open spec fn is_slot_of(
    slot: RunSlot,
    records: Seq<Seq<(Seq<char>, Seq<char>)>>,
    key: Seq<char>,
) -> bool {
    &&& slot.key@ == key
    &&& slot.caller == last_of_role(records, records.len() as int, key, "caller"@)
    &&& slot.listener == last_of_role(records, records.len() as int, key, "listener"@)
}

proof fn lemma_last_of_role(
    records: Seq<Seq<(Seq<char>, Seq<char>)>>,
    n: int,
    key: Seq<char>,
    role: Seq<char>,
)
    requires
        0 <= n <= records.len(),
        records.len() <= usize::MAX,
    ensures
        match last_of_role(records, n, key, role) {
            Some(i) => i < n && run_key(records[i as int]) == key && field_in(
                records[i as int],
                "role"@,
            ) == Some(role),
            None => true,
        },
    decreases n,
{
    if n > 0 {
        lemma_last_of_role(records, n - 1, key, role);
    }
}

fn find_role(records: &Vec<Record>, keys: &Vec<String>, key: &str, role: &str) -> (r: Option<usize>)
    requires
        keys@.len() == records@.len(),
        forall|i: int| 0 <= i < records@.len() ==> (#[trigger] keys@[i])@ == run_key(records@[i]@),
    ensures
        r == last_of_role(all_records(records@), records@.len() as int, key@, role@),
        r is Some ==> r->0 < records@.len(),
{
    let ghost all = all_records(records@);
    let ghost goal = last_of_role(all, records@.len() as int, key@, role@);
    let mut n: usize = records.len();
    while n > 0
        invariant
            n <= records@.len(),
            all == all_records(records@),
            goal == last_of_role(all, records@.len() as int, key@, role@),
            keys@.len() == records@.len(),
            forall|i: int| 0 <= i < records@.len() ==> (#[trigger] keys@[i])@ == run_key(
                records@[i]@,
            ),
            last_of_role(all, n as int, key@, role@) == goal,
        decreases n,
    {
        assert(all[n - 1] == records@[n - 1]@);
        assert(keys@[n - 1]@ == run_key(records@[n - 1]@));
        if same(keys[n - 1].as_str(), key) && records[n - 1].has("role", role) {
            return Some(n - 1);
        }
        n -= 1;
    }
    None
}

/// Every run that a row with a role belongs to, in ascending order, with the last row
/// of each role in it.
pub fn pair_results(records: &Vec<Record>) -> (r: Vec<RunSlot>)
    ensures
        r@.len() == runs_in(all_records(records@)).len(),
        forall|i: int|
            0 <= i < r@.len() ==> is_slot_of(
                #[trigger] r@[i],
                all_records(records@),
                runs_in(all_records(records@))[i],
            ),
        forall|i: int| 0 <= i < r@.len() ==> slot_within(#[trigger] r@[i], records@.len()),
{
    let ghost all = all_records(records@);
    let mut keys: Vec<String> = Vec::new();
    let mut runs: Vec<String> = Vec::new();
    let mut i: usize = 0;
    assert(texts(runs@) =~= distinct(run_keys(all, 0)));
    while i < records.len()
        invariant
            i <= records@.len(),
            all == all_records(records@),
            keys@.len() == i,
            forall|j: int| 0 <= j < i ==> (#[trigger] keys@[j])@ == run_key(records@[j]@),
            texts(runs@) == distinct(run_keys(all, i as int)),
        decreases records@.len() - i,
    {
        assert(all[i as int] == records@[i as int]@);
        let key = result_key(&records[i]);
        if records[i].get("role").is_some() {
            let ghost before = run_keys(all, i as int);
            assert(before.push(key@).drop_last() =~= before);
            if !contains_text(&runs, key.as_str()) {
                push_text(&mut runs, key.clone());
            }
        }
        keys.push(key);
        i += 1;
    }
    assert(all.len() == records@.len());
    let runs = sort(runs);
    let ghost order = runs_in(all);
    assert(texts(runs@) == order);
    let mut slots: Vec<RunSlot> = Vec::new();
    let mut k: usize = 0;
    while k < runs.len()
        invariant
            k <= runs@.len(),
            all == all_records(records@),
            all.len() == records@.len(),
            order == runs_in(all),
            texts(runs@) == order,
            keys@.len() == records@.len(),
            forall|j: int| 0 <= j < records@.len() ==> (#[trigger] keys@[j])@ == run_key(
                records@[j]@,
            ),
            slots@.len() == k,
            forall|j: int| 0 <= j < k ==> is_slot_of(#[trigger] slots@[j], all, order[j]),
            forall|j: int| 0 <= j < k ==> slot_within(#[trigger] slots@[j], records@.len()),
        decreases runs@.len() - k,
    {
        assert(order[k as int] == runs@[k as int]@);
        let slot = RunSlot {
            key: runs[k].clone(),
            caller: find_role(records, &keys, runs[k].as_str(), "caller"),
            listener: find_role(records, &keys, runs[k].as_str(), "listener"),
        };
        slots.push(slot);
        k += 1;
    }
    assert(order.len() == runs@.len());
    slots
}

/// Whether a slot's rows are among the first `n`.
pub open spec fn slot_within(slot: RunSlot, n: nat) -> bool {
    (slot.caller is Some ==> slot.caller->0 < n) && (slot.listener is Some ==> slot.listener->0
        < n)
}

/// The rows that a prediction is held against belong to one run, one of each role.
pub proof fn validated_pairs_belong_together(
    records: Seq<Seq<(Seq<char>, Seq<char>)>>,
    slot: RunSlot,
    key: Seq<char>,
)
    requires
        records.len() <= usize::MAX,
        is_slot_of(slot, records, key),
    ensures
        slot.caller is Some ==> run_key(records[slot.caller->0 as int]) == key && field_in(
            records[slot.caller->0 as int],
            "role"@,
        ) == Some("caller"@),
        slot.listener is Some ==> run_key(records[slot.listener->0 as int]) == key && field_in(
            records[slot.listener->0 as int],
            "role"@,
        ) == Some("listener"@),
{
    lemma_last_of_role(records, records.len() as int, key, "caller"@);
    lemma_last_of_role(records, records.len() as int, key, "listener"@);
}

/// A prediction beside what was observed.
#[derive(Debug)]
pub struct ValidationRow {
    pub cell: String,
    pub predicted: String,
    pub predicted_reasons: String,
    pub observed_clean: String,
    pub agreement: String,
    pub explanation: String,
}

/// What a validation row says.
pub struct ValidationText {
    pub cell: Seq<char>,
    pub predicted: Seq<char>,
    pub predicted_reasons: Seq<char>,
    pub observed_clean: Seq<char>,
    pub agreement: Seq<char>,
    pub explanation: Seq<char>,
}

impl View for ValidationRow {
    type V = ValidationText;

    open spec fn view(&self) -> ValidationText {
        ValidationText {
            cell: self.cell@,
            predicted: self.predicted@,
            predicted_reasons: self.predicted_reasons@,
            observed_clean: self.observed_clean@,
            agreement: self.agreement@,
            explanation: self.explanation@,
        }
    }
}

/// Whether a prediction and an observation contradict each other.
pub open spec fn contradicts(predicted: Seq<char>, clean: bool) -> bool {
    (predicted == "production-candidate"@ && !clean) || (predicted == "exceeds-envelope"@ && clean)
}

/// What the prediction of a run comes to. It is read from the caller's row, or else
/// from the listener's. `reasons` says why a pair that can be computed is not clean.
pub open spec fn validated(
    slot: RunSlot,
    records: Seq<Seq<(Seq<char>, Seq<char>)>>,
    reasons: Seq<Seq<char>>,
) -> ValidationText {
    let source: Seq<(Seq<char>, Seq<char>)> = match (slot.caller, slot.listener) {
        (Some(i), _) => records[i as int],
        (None, Some(i)) => records[i as int],
        (None, None) => Seq::empty(),
    };
    let predicted = or_else(field_in(source, "model_class_pre"@), "missing"@);
    let predicted_reasons = or_else(field_in(source, "model_reasons_pre"@), Seq::empty());
    let answer = |observed_clean: Seq<char>, agreement: Seq<char>, explanation: Seq<char>|
        ValidationText {
            cell: slot.key@,
            predicted,
            predicted_reasons,
            observed_clean,
            agreement,
            explanation,
        };
    if slot.caller is None || slot.listener is None {
        answer("incomplete"@, "incomplete"@, "missing caller or listener row"@)
    } else if !measurable(records[slot.caller->0 as int], records[slot.listener->0 as int]) {
        answer("unknown"@, "unknown"@, "could not compute canonical pair metrics"@)
    } else {
        let clean = reasons.len() == 0;
        answer(
            if clean {
                "true"@
            } else {
                "false"@
            },
            if contradicts(predicted, clean) {
                "mismatch"@
            } else {
                "agreement"@
            },
            if clean {
                "canonical pair is clean"@
            } else {
                joined(reasons, "; "@)
            },
        )
    }
}

/// Holds a run's prediction against what was observed.
pub fn validate_pair(slot: &RunSlot, records: &Vec<Record>, reasons: &Vec<String>) -> (r:
    ValidationRow)
    requires
        slot_within(*slot, records@.len()),
    ensures
        r@ == validated(*slot, all_records(records@), texts(reasons@)),
{
    let ghost all = all_records(records@);
    proof {
        reveal_strlit("");
        assert(""@ =~= Seq::<char>::empty());
    }
    let (predicted, predicted_reasons) = match (slot.caller, slot.listener) {
        (Some(i), _) => {
            assert(all[i as int] == records@[i as int]@);
            (
                records[i].get_or("model_class_pre", "missing"),
                records[i].get_or("model_reasons_pre", ""),
            )
        },
        (None, Some(i)) => {
            assert(all[i as int] == records@[i as int]@);
            (
                records[i].get_or("model_class_pre", "missing"),
                records[i].get_or("model_reasons_pre", ""),
            )
        },
        (None, None) => {
            proof {
                let nothing = Seq::<(Seq<char>, Seq<char>)>::empty();
                assert(field_in(nothing, "model_class_pre"@) is None);
                assert(field_in(nothing, "model_reasons_pre"@) is None);
            }
            ("missing".to_owned(), String::new())
        },
    };
    let cell = slot.key.clone();
    let (c, l) = match (slot.caller, slot.listener) {
        (Some(c), Some(l)) => (c, l),
        _ => {
            return ValidationRow {
                cell,
                predicted,
                predicted_reasons,
                observed_clean: "incomplete".to_owned(),
                agreement: "incomplete".to_owned(),
                explanation: "missing caller or listener row".to_owned(),
            };
        },
    };
    assert(all[c as int] == records@[c as int]@);
    assert(all[l as int] == records@[l as int]@);
    if pair_inputs(&records[c], &records[l]).is_none() {
        return ValidationRow {
            cell,
            predicted,
            predicted_reasons,
            observed_clean: "unknown".to_owned(),
            agreement: "unknown".to_owned(),
            explanation: "could not compute canonical pair metrics".to_owned(),
        };
    }
    assert(texts(reasons@).len() == reasons@.len());
    let clean = reasons.len() == 0;
    let mismatch = (same(predicted.as_str(), CellClass::ProductionCandidate.name()) && !clean) || (
    same(predicted.as_str(), CellClass::ExceedsEnvelope.name()) && clean);
    ValidationRow {
        cell,
        predicted,
        predicted_reasons,
        observed_clean: if clean {
            "true".to_owned()
        } else {
            "false".to_owned()
        },
        agreement: if mismatch {
            "mismatch".to_owned()
        } else {
            "agreement".to_owned()
        },
        explanation: if clean {
            "canonical pair is clean".to_owned()
        } else {
            join(reasons, "; ")
        },
    }
}

/// What every run's prediction comes to.
pub open spec fn all_validated(
    slots: Seq<RunSlot>,
    records: Seq<Seq<(Seq<char>, Seq<char>)>>,
    reasons: Seq<Seq<Seq<char>>>,
) -> Seq<ValidationText> {
    Seq::new(slots.len(), |i: int| validated(slots[i], records, reasons[i]))
}

/// A validation row between tabs, in full.
pub open spec fn full_line(row: ValidationText) -> Seq<char> {
    joined(
        seq![
            tsv_text(row.cell),
            row.predicted,
            row.predicted_reasons,
            row.observed_clean,
            row.agreement,
            tsv_text(row.explanation),
        ],
        "\t"@,
    )
}

/// A validation row between tabs, without the predicted reasons.
pub open spec fn short_line(row: ValidationText) -> Seq<char> {
    joined(
        seq![
            tsv_text(row.cell),
            row.predicted,
            row.observed_clean,
            row.agreement,
            tsv_text(row.explanation),
        ],
        "\t"@,
    )
}

/// The names of a validation row's members.
pub open spec fn validation_names() -> Seq<Seq<char>> {
    seq![
        "cell"@,
        "predicted_class"@,
        "predicted_reasons"@,
        "observed_clean"@,
        "agreement"@,
        "explanation"@,
    ]
}

/// A validation row as a JSON object.
pub open spec fn validation_object(row: ValidationText) -> Seq<char> {
    let e = Escapes::Nothing;
    "{"@ + joined(
        members(
            validation_names(),
            seq![
                json_text(row.cell, e),
                json_text(row.predicted, e),
                json_text(row.predicted_reasons, e),
                json_text(row.observed_clean, e),
                json_text(row.agreement, e),
                json_text(row.explanation, e),
            ],
            6,
        ),
        ","@,
    ) + "}"@
}

/// Validation rows in a format; any other than `json` and `tsv` is the table.
pub open spec fn validation_text(rows: Seq<ValidationText>, format: Seq<char>) -> Seq<char> {
    if format == "json"@ {
        "["@ + joined(rows.map_values(|r: ValidationText| validation_object(r)), ","@) + "]\n"@
    } else if format == "tsv"@ {
        "cell\tpredicted_class\tpredicted_reasons\tobserved_clean\tagreement\texplanation\n"@
            + lines_text(rows.map_values(|r: ValidationText| full_line(r)), rows.len() as int)
    } else {
        "cell\tpredicted\tobserved_clean\tagreement\texplanation\n"@ + lines_text(
            rows.map_values(|r: ValidationText| short_line(r)),
            rows.len() as int,
        )
    }
}

pub open spec fn validation_view(rows: Seq<ValidationRow>) -> Seq<ValidationText> {
    rows.map_values(|r: ValidationRow| r@)
}

fn validation_line(row: &ValidationRow, full: bool) -> (r: String)
    ensures
        r@ == if full {
            full_line(row@)
        } else {
            short_line(row@)
        },
{
    let mut cells: Vec<String> = Vec::new();
    push_text(&mut cells, tsv(row.cell.as_str()));
    push_text(&mut cells, row.predicted.clone());
    if full {
        push_text(&mut cells, row.predicted_reasons.clone());
    }
    push_text(&mut cells, row.observed_clean.clone());
    push_text(&mut cells, row.agreement.clone());
    push_text(&mut cells, tsv(row.explanation.as_str()));
    proof {
        let e = tsv_text(row.explanation@);
        if full {
            assert(texts(cells@) =~= seq![
                tsv_text(row.cell@),
                row.predicted@,
                row.predicted_reasons@,
                row.observed_clean@,
                row.agreement@,
                e,
            ]);
        } else {
            assert(texts(cells@) =~= seq![
                tsv_text(row.cell@),
                row.predicted@,
                row.observed_clean@,
                row.agreement@,
                e,
            ]);
        }
    }
    join(&cells, "\t")
}

fn validation_json_row(row: &ValidationRow) -> (r: String)
    ensures
        r@ == validation_object(row@),
{
    let mut values: Vec<String> = Vec::new();
    push_text(&mut values, json_string(row.cell.as_str(), Escapes::Nothing));
    push_text(&mut values, json_string(row.predicted.as_str(), Escapes::Nothing));
    push_text(&mut values, json_string(row.predicted_reasons.as_str(), Escapes::Nothing));
    push_text(&mut values, json_string(row.observed_clean.as_str(), Escapes::Nothing));
    push_text(&mut values, json_string(row.agreement.as_str(), Escapes::Nothing));
    push_text(&mut values, json_string(row.explanation.as_str(), Escapes::Nothing));
    let names: Vec<&'static str> = vec![
        "cell",
        "predicted_class",
        "predicted_reasons",
        "observed_clean",
        "agreement",
        "explanation",
    ];
    proof {
        let e = Escapes::Nothing;
        assert(slices(names@) =~= validation_names());
        assert(texts(values@) =~= seq![
            json_text(row.cell@, e),
            json_text(row.predicted@, e),
            json_text(row.predicted_reasons@, e),
            json_text(row.observed_clean@, e),
            json_text(row.agreement@, e),
            json_text(row.explanation@, e),
        ]);
        assert(texts(values@).len() == values@.len());
    }
    let inner = object_members(&names, &values);
    concat3("{", inner.as_str(), "}")
}

fn validation_lines(rows: &Vec<ValidationRow>, full: bool) -> (r: String)
    ensures
        r@ == validation_text(
            validation_view(rows@),
            if full {
                "tsv"@
            } else {
                "table"@
            },
        ),
{
    proof {
        reveal_strlit("tsv");
        reveal_strlit("table");
        reveal_strlit("json");
        assert("table"@.len() == 5 && "tsv"@.len() == 3 && "json"@.len() == 4);
    }
    let ghost all = validation_view(rows@);
    let ghost want = if full {
        all.map_values(|r: ValidationText| full_line(r))
    } else {
        all.map_values(|r: ValidationText| short_line(r))
    };
    let mut out = if full {
        "cell\tpredicted_class\tpredicted_reasons\tobserved_clean\tagreement\texplanation\n".to_owned()
    } else {
        "cell\tpredicted\tobserved_clean\tagreement\texplanation\n".to_owned()
    };
    let ghost head = out@;
    let mut i: usize = 0;
    assert(head + lines_text(want, 0) =~= head);
    while i < rows.len()
        invariant
            i <= rows@.len(),
            all == validation_view(rows@),
            want == if full {
                all.map_values(|r: ValidationText| full_line(r))
            } else {
                all.map_values(|r: ValidationText| short_line(r))
            },
            out@ == head + lines_text(want, i as int),
        decreases rows@.len() - i,
    {
        out.append(validation_line(&rows[i], full).as_str());
        out.append("\n");
        proof {
            assert(all[i as int] == rows@[i as int]@);
            assert(out@ =~= head + lines_text(want, i + 1));
        }
        i += 1;
    }
    assert(all.len() == rows@.len());
    out
}

fn validation_json(rows: &Vec<ValidationRow>) -> (r: String)
    ensures
        r@ == validation_text(validation_view(rows@), "json"@),
{
    let ghost all = validation_view(rows@);
    let ghost want = all.map_values(|r: ValidationText| validation_object(r));
    let mut parts: Vec<String> = Vec::new();
    let mut i: usize = 0;
    assert(texts(parts@) =~= want.take(0));
    while i < rows.len()
        invariant
            i <= rows@.len(),
            all == validation_view(rows@),
            want == all.map_values(|r: ValidationText| validation_object(r)),
            texts(parts@) == want.take(i as int),
        decreases rows@.len() - i,
    {
        assert(all[i as int] == rows@[i as int]@);
        let part = validation_json_row(&rows[i]);
        assert(want.take(i + 1) =~= want.take(i as int).push(part@));
        push_text(&mut parts, part);
        i += 1;
    }
    assert(want.take(want.len() as int) =~= want);
    let inner = join(&parts, ",");
    concat3("[", inner.as_str(), "]\n")
}

/// Holds the recorded predictions of every run against what was observed. `reasons`
/// goes with `slots`. Disagreement is reported; the model is not reinterpreted.
pub fn validate_results(
    slots: &Vec<RunSlot>,
    records: &Vec<Record>,
    reasons: &Vec<Vec<String>>,
    format: &str,
) -> (r: String)
    requires
        reasons@.len() == slots@.len(),
        forall|i: int| 0 <= i < slots@.len() ==> slot_within(#[trigger] slots@[i], records@.len()),
    ensures
        r@ == validation_text(
            all_validated(slots@, all_records(records@), reasons_view(reasons@)),
            format@,
        ),
{
    let ghost all = all_records(records@);
    let ghost want = all_validated(slots@, all, reasons_view(reasons@));
    let mut rows: Vec<ValidationRow> = Vec::new();
    let mut i: usize = 0;
    assert(validation_view(rows@) =~= want.take(0));
    while i < slots.len()
        invariant
            i <= slots@.len() == reasons@.len(),
            all == all_records(records@),
            want == all_validated(slots@, all, reasons_view(reasons@)),
            forall|j: int|
                0 <= j < slots@.len() ==> slot_within(#[trigger] slots@[j], records@.len()),
            validation_view(rows@) == want.take(i as int),
        decreases slots@.len() - i,
    {
        assert(reasons_view(reasons@)[i as int] == texts(reasons@[i as int]@));
        let row = validate_pair(&slots[i], records, &reasons[i]);
        proof {
            assert(want[i as int] == row@);
            assert(validation_view(rows@.push(row)) =~= validation_view(rows@).push(row@));
            assert(want.take(i + 1) =~= want.take(i as int).push(row@));
        }
        rows.push(row);
        i += 1;
    }
    assert(want.take(want.len() as int) =~= want);
    proof {
        reveal_strlit("tsv");
        reveal_strlit("table");
        reveal_strlit("json");
        assert("table"@.len() == 5 && "tsv"@.len() == 3 && "json"@.len() == 4);
    }
    if same(format, "json") {
        validation_json(&rows)
    } else if same(format, "tsv") {
        validation_lines(&rows, true)
    } else {
        validation_lines(&rows, false)
    }
}

} // verus!
