//! The scorecard of two result files, cell by cell.
//!
//! The figures are fractions, which arrive rendered; here is which cells are held
//! against each other and how the answer is laid out.
use crate::compare::{
    describe_srt_pacing, format_short_cell_label, key_field, render_reps_string,
    render_unmatched_section, short_label, unmatched_text,
};
use crate::text::{
    concat, concat3, contains_text, decimal, left_in, lemma_texts_push, pad_left, pad_right, render,
    right_in, run_together, slices, texts,
};
use vstd::prelude::*;

verus! {

/// A median with its range, rendered.
#[derive(Debug)]
pub struct SpreadText {
    pub median: String,
    pub min: String,
    pub max: String,
}

/// How a spread is written.
pub open spec fn spread_text(s: SpreadText) -> Seq<char> {
    run_together(seq![s.median@, " ["@, s.min@, ".."@, s.max@, "]"@])
}

/// How a spread is written.
pub fn format_spread(s: &SpreadText) -> (r: String)
    ensures
        r@ == spread_text(*s),
{
    let parts: Vec<&str> = vec![
        s.median.as_str(),
        " [",
        s.min.as_str(),
        "..",
        s.max.as_str(),
        "]",
    ];
    assert(slices(parts@) =~= seq![s.median@, " ["@, s.min@, ".."@, s.max@, "]"@]);
    concat(&parts)
}

/// One file's side of a cell, rendered.
#[derive(Debug)]
pub struct SideFigures {
    pub pairs: usize,
    pub incomplete_reps: usize,
    pub clean: bool,
    /// Percentages to one place.
    pub offer: String,
    pub good: String,
    pub delivery: String,
    /// Percentages without places.
    pub offer_whole: String,
    pub good_whole: String,
    /// Processor milliseconds per gigabit, to one place and without places.
    pub cpu_per_gbit: SpreadText,
    pub cpu_per_gbit_whole: SpreadText,
    /// Processor milliseconds per million packets, to one place.
    pub caller_cpu: String,
    pub listener_cpu: String,
    /// Peak memory per connection without places.
    pub caller_rss: String,
    pub listener_rss: String,
    pub retransmits: String,
    pub lost: String,
    pub duplicates: String,
    /// To two places.
    pub rtt: String,
}

/// A cell that both files have.
#[derive(Debug)]
pub struct CellComparison {
    pub base: SideFigures,
    pub head: SideFigures,
    /// Changes in percent, signed and to one place.
    pub cpu_per_gbit_delta: String,
    pub caller_cpu_delta: String,
    pub listener_cpu_delta: String,
    pub caller_rss_delta: String,
    pub listener_rss_delta: String,
    /// Whether the ranges of the processor cost overlap.
    pub overlap: bool,
}

pub open spec fn yes_no(b: bool) -> Seq<char> {
    if b {
        "yes"@
    } else {
        "no"@
    }
}

fn yes_or_no(b: bool) -> (r: &'static str)
    ensures
        r@ == yes_no(b),
{
    if b {
        "yes"
    } else {
        "no"
    }
}

pub open spec fn y_n(b: bool) -> Seq<char> {
    if b {
        "Y"@
    } else {
        "N"@
    }
}

fn y_or_n(b: bool) -> (r: &'static str)
    ensures
        r@ == y_n(b),
{
    if b {
        "Y"
    } else {
        "N"
    }
}

/// Whether the repetitions of a cell can be counted.
pub open spec fn countable(c: CellComparison) -> bool {
    c.base.pairs + c.base.incomplete_reps <= usize::MAX && c.head.pairs + c.head.incomplete_reps
        <= usize::MAX
}

/// How many complete pairs two sides have.
pub open spec fn reps_text(c: CellComparison) -> Seq<char> {
    if c.base.pairs == c.head.pairs && c.base.incomplete_reps == 0 && c.head.incomplete_reps
        == 0 {
        "n="@ + decimal(c.head.pairs as nat)
    } else {
        "B="@ + decimal(c.base.pairs as nat) + "/"@ + decimal(
            (c.base.pairs + c.base.incomplete_reps) as nat,
        ) + " H="@ + decimal(c.head.pairs as nat) + "/"@ + decimal(
            (c.head.pairs + c.head.incomplete_reps) as nat,
        ) + " (unequal)"@
    }
}

/// What each side offered and delivered, part by part.
pub open spec fn markdown_shares_parts(c: CellComparison) -> Seq<Seq<char>> {
    seq![
        " | "@,
        c.base.offer@,
        "% → "@,
        c.head.offer@,
        "% | "@,
        c.base.good@,
        "% → "@,
        c.head.good@,
        "% | "@,
        c.base.delivery@,
        "% → "@,
        c.head.delivery@,
        "% | "@,
        yes_no(c.base.clean),
        "/"@,
        yes_no(c.head.clean),
        " | "@,
    ]
}

/// What each side offered and delivered.
pub open spec fn markdown_shares_text(c: CellComparison) -> Seq<char> {
    run_together(markdown_shares_parts(c))
}

fn markdown_shares(c: &CellComparison) -> (r: String)
    ensures
        r@ == markdown_shares_text(*c),
{
    let parts: Vec<&str> = vec![
        " | ",
        c.base.offer.as_str(),
        "% → ",
        c.head.offer.as_str(),
        "% | ",
        c.base.good.as_str(),
        "% → ",
        c.head.good.as_str(),
        "% | ",
        c.base.delivery.as_str(),
        "% → ",
        c.head.delivery.as_str(),
        "% | ",
        yes_or_no(c.base.clean),
        "/",
        yes_or_no(c.head.clean),
        " | ",
    ];
    assert(slices(parts@) =~= seq![
        " | "@,
        c.base.offer@,
        "% → "@,
        c.head.offer@,
        "% | "@,
        c.base.good@,
        "% → "@,
        c.head.good@,
        "% | "@,
        c.base.delivery@,
        "% → "@,
        c.head.delivery@,
        "% | "@,
        yes_no(c.base.clean),
        "/"@,
        yes_no(c.head.clean),
        " | "@,
    ]);
    concat(&parts)
}

/// What each side cost, part by part.
pub open spec fn markdown_cost_parts(c: CellComparison) -> Seq<Seq<char>> {
    seq![
        spread_text(c.base.cpu_per_gbit),
        " → "@,
        spread_text(c.head.cpu_per_gbit),
        " (**"@,
        c.cpu_per_gbit_delta@,
        "%**, overlap: "@,
        yes_no(c.overlap),
        ") | "@,
        c.base.caller_cpu@,
        " → "@,
        c.head.caller_cpu@,
        " ("@,
        c.caller_cpu_delta@,
        "%) | "@,
        c.base.listener_cpu@,
        " → "@,
        c.head.listener_cpu@,
        " ("@,
        c.listener_cpu_delta@,
        "%) | "@,
    ]
}

/// What each side cost in processor time.
pub open spec fn markdown_cost_text(c: CellComparison) -> Seq<char> {
    run_together(markdown_cost_parts(c))
}

fn markdown_cost(c: &CellComparison) -> (r: String)
    ensures
        r@ == markdown_cost_text(*c),
{
    let base = format_spread(&c.base.cpu_per_gbit);
    let head = format_spread(&c.head.cpu_per_gbit);
    let parts: Vec<&str> = vec![
        base.as_str(),
        " → ",
        head.as_str(),
        " (**",
        c.cpu_per_gbit_delta.as_str(),
        "%**, overlap: ",
        yes_or_no(c.overlap),
        ") | ",
        c.base.caller_cpu.as_str(),
        " → ",
        c.head.caller_cpu.as_str(),
        " (",
        c.caller_cpu_delta.as_str(),
        "%) | ",
        c.base.listener_cpu.as_str(),
        " → ",
        c.head.listener_cpu.as_str(),
        " (",
        c.listener_cpu_delta.as_str(),
        "%) | ",
    ];
    assert(slices(parts@) =~= seq![
        spread_text(c.base.cpu_per_gbit),
        " → "@,
        spread_text(c.head.cpu_per_gbit),
        " (**"@,
        c.cpu_per_gbit_delta@,
        "%**, overlap: "@,
        yes_no(c.overlap),
        ") | "@,
        c.base.caller_cpu@,
        " → "@,
        c.head.caller_cpu@,
        " ("@,
        c.caller_cpu_delta@,
        "%) | "@,
        c.base.listener_cpu@,
        " → "@,
        c.head.listener_cpu@,
        " ("@,
        c.listener_cpu_delta@,
        "%) | "@,
    ]);
    concat(&parts)
}

/// What each side held in memory and had to recover, part by part.
pub open spec fn markdown_recovery_parts(c: CellComparison) -> Seq<Seq<char>> {
    seq![
        "C: "@,
        c.base.caller_rss@,
        "→"@,
        c.head.caller_rss@,
        " ("@,
        c.caller_rss_delta@,
        "%), L: "@,
        c.base.listener_rss@,
        "→"@,
        c.head.listener_rss@,
        " ("@,
        c.listener_rss_delta@,
        "%) | Retx: "@,
        c.base.retransmits@,
        "→"@,
        c.head.retransmits@,
        ", Lost: "@,
        c.base.lost@,
        "→"@,
        c.head.lost@,
        ", Dup: "@,
        c.base.duplicates@,
        "→"@,
        c.head.duplicates@,
        " | "@,
        c.base.rtt@,
        " → "@,
        c.head.rtt@,
        " |\n"@,
    ]
}

/// What each side held in memory and had to recover.
pub open spec fn markdown_recovery_text(c: CellComparison) -> Seq<char> {
    run_together(markdown_recovery_parts(c))
}

fn markdown_recovery(c: &CellComparison) -> (r: String)
    ensures
        r@ == markdown_recovery_text(*c),
{
    let parts: Vec<&str> = vec![
        "C: ",
        c.base.caller_rss.as_str(),
        "→",
        c.head.caller_rss.as_str(),
        " (",
        c.caller_rss_delta.as_str(),
        "%), L: ",
        c.base.listener_rss.as_str(),
        "→",
        c.head.listener_rss.as_str(),
        " (",
        c.listener_rss_delta.as_str(),
        "%) | Retx: ",
        c.base.retransmits.as_str(),
        "→",
        c.head.retransmits.as_str(),
        ", Lost: ",
        c.base.lost.as_str(),
        "→",
        c.head.lost.as_str(),
        ", Dup: ",
        c.base.duplicates.as_str(),
        "→",
        c.head.duplicates.as_str(),
        " | ",
        c.base.rtt.as_str(),
        " → ",
        c.head.rtt.as_str(),
        " |\n",
    ];
    assert(slices(parts@) =~= seq![
        "C: "@,
        c.base.caller_rss@,
        "→"@,
        c.head.caller_rss@,
        " ("@,
        c.caller_rss_delta@,
        "%), L: "@,
        c.base.listener_rss@,
        "→"@,
        c.head.listener_rss@,
        " ("@,
        c.listener_rss_delta@,
        "%) | Retx: "@,
        c.base.retransmits@,
        "→"@,
        c.head.retransmits@,
        ", Lost: "@,
        c.base.lost@,
        "→"@,
        c.head.lost@,
        ", Dup: "@,
        c.base.duplicates@,
        "→"@,
        c.head.duplicates@,
        " | "@,
        c.base.rtt@,
        " → "@,
        c.head.rtt@,
        " |\n"@,
    ]);
    concat(&parts)
}

/// A cell's row in the scorecard.
pub open spec fn markdown_row(label: Seq<char>, c: CellComparison) -> Seq<char> {
    if c.base.pairs == 0 || c.head.pairs == 0 {
        "| **"@ + label + "** | B="@ + decimal(c.base.pairs as nat) + "/"@ + decimal(
            (c.base.pairs + c.base.incomplete_reps) as nat,
        ) + " H="@ + decimal(c.head.pairs as nat) + "/"@ + decimal(
            (c.head.pairs + c.head.incomplete_reps) as nat,
        ) + " | incomplete (no complete pairs) | -- | -- | -- | -- | -- | -- |\n"@
    } else {
        "| **"@ + label + "** | "@ + reps_text(c) + markdown_shares_text(c) + markdown_cost_text(c)
            + markdown_recovery_text(c)
    }
}

/// A cell's row in the scorecard.
pub fn render_markdown_cell_row(label: &str, c: &CellComparison) -> (r: String)
    requires
        countable(*c),
    ensures
        r@ == markdown_row(label@, *c),
{
    let mut out = concat3("| **", label, "** | ");
    if c.base.pairs == 0 || c.head.pairs == 0 {
        out = concat3("| **", label, "** | B=");
        out.append(render(c.base.pairs as u64).as_str());
        out.append("/");
        out.append(render((c.base.pairs + c.base.incomplete_reps) as u64).as_str());
        out.append(" H=");
        out.append(render(c.head.pairs as u64).as_str());
        out.append("/");
        out.append(render((c.head.pairs + c.head.incomplete_reps) as u64).as_str());
        out.append(" | incomplete (no complete pairs) | -- | -- | -- | -- | -- | -- |\n");
        return out;
    }
    out.append(
        render_reps_string(
            c.base.pairs,
            c.base.incomplete_reps,
            c.head.pairs,
            c.head.incomplete_reps,
        ).as_str(),
    );
    out.append(markdown_shares(c).as_str());
    out.append(markdown_cost(c).as_str());
    out.append(markdown_recovery(c).as_str());
    out
}

/// How many complete pairs two sides have, in short.
pub open spec fn short_reps(c: CellComparison) -> Seq<char> {
    let counts = "B"@ + decimal(c.base.pairs as nat) + "H"@ + decimal(c.head.pairs as nat);
    if c.base.pairs == 0 || c.head.pairs == 0 {
        counts
    } else if c.base.pairs == c.head.pairs && c.base.incomplete_reps == 0
        && c.head.incomplete_reps == 0 {
        "n="@ + decimal(c.head.pairs as nat)
    } else {
        counts + "*"@
    }
}

fn reps_in_short(c: &CellComparison) -> (r: String)
    ensures
        r@ == short_reps(*c),
{
    let mut counts = "B".to_owned();
    counts.append(render(c.base.pairs as u64).as_str());
    counts.append("H");
    counts.append(render(c.head.pairs as u64).as_str());
    if c.base.pairs == 0 || c.head.pairs == 0 {
        return counts;
    }
    if c.base.pairs == c.head.pairs && c.base.incomplete_reps == 0 && c.head.incomplete_reps
        == 0 {
        let mut out = "n=".to_owned();
        out.append(render(c.head.pairs as u64).as_str());
        return out;
    }
    counts.append("*");
    counts
}

/// A change from one percentage to another.
pub open spec fn change_text(from: Seq<char>, to: Seq<char>) -> Seq<char> {
    from + "%->"@ + to + "%"@
}

fn change(from: &str, to: &str) -> (r: String)
    ensures
        r@ == change_text(from@, to@),
{
    let mut out = concat3(from, "%->", to);
    out.append("%");
    out
}

/// The first columns of a cell, part by part.
pub open spec fn table_start_parts(label: Seq<char>, c: CellComparison) -> Seq<Seq<char>> {
    seq![
        left_in(label, 32),
        " "@,
        right_in(short_reps(c), 7),
        " "@,
        right_in(change_text(c.base.offer_whole@, c.head.offer_whole@), 11),
        " "@,
        right_in(change_text(c.base.good_whole@, c.head.good_whole@), 11),
        " "@,
        right_in(c.head.delivery@, 6),
        "% "@,
        right_in(y_n(c.base.clean) + "/"@ + y_n(c.head.clean), 7),
        " "@,
    ]
}

/// The first columns of a cell: what each side offered and delivered.
pub open spec fn table_start_text(label: Seq<char>, c: CellComparison) -> Seq<char> {
    run_together(table_start_parts(label, c))
}

fn table_start(label: &str, c: &CellComparison) -> (r: String)
    ensures
        r@ == table_start_text(label@, *c),
{
    let reps = reps_in_short(c);
    let offer = change(c.base.offer_whole.as_str(), c.head.offer_whole.as_str());
    let good = change(c.base.good_whole.as_str(), c.head.good_whole.as_str());
    let clean = concat3(y_or_n(c.base.clean), "/", y_or_n(c.head.clean));
    let column_0 = pad_right(label, 32);
    let column_1 = pad_left(reps.as_str(), 7);
    let column_2 = pad_left(offer.as_str(), 11);
    let column_3 = pad_left(good.as_str(), 11);
    let column_4 = pad_left(c.head.delivery.as_str(), 6);
    let column_5 = pad_left(clean.as_str(), 7);
    let parts: Vec<&str> = vec![
        column_0.as_str(),
        " ",
        column_1.as_str(),
        " ",
        column_2.as_str(),
        " ",
        column_3.as_str(),
        " ",
        column_4.as_str(),
        "% ",
        column_5.as_str(),
        " ",
    ];
    assert(slices(parts@) =~= seq![
        left_in(label@, 32),
        " "@,
        right_in(short_reps(*c), 7),
        " "@,
        right_in(change_text(c.base.offer_whole@, c.head.offer_whole@), 11),
        " "@,
        right_in(change_text(c.base.good_whole@, c.head.good_whole@), 11),
        " "@,
        right_in(c.head.delivery@, 6),
        "% "@,
        right_in(y_n(c.base.clean) + "/"@ + y_n(c.head.clean), 7),
        " "@,
    ]);
    concat(&parts)
}

/// The last columns of a cell, part by part.
pub open spec fn table_end_parts(c: CellComparison) -> Seq<Seq<char>> {
    seq![
        right_in(spread_text(c.base.cpu_per_gbit_whole), 17),
        " "@,
        right_in(spread_text(c.head.cpu_per_gbit_whole), 17),
        " "@,
        right_in(c.cpu_per_gbit_delta@, 10),
        "% "@,
        right_in(yes_no(c.overlap), 7),
        " "@,
        right_in(c.caller_cpu_delta@, 9),
        "% "@,
        right_in(c.listener_cpu_delta@, 9),
        "% "@,
        right_in(c.head.caller_rss@, 4),
        "/"@,
        left_in(c.head.listener_rss@, 4),
        "\n"@,
    ]
}

/// The last columns of a cell: what each side cost.
pub open spec fn table_end_text(c: CellComparison) -> Seq<char> {
    run_together(table_end_parts(c))
}

fn table_end(c: &CellComparison) -> (r: String)
    ensures
        r@ == table_end_text(*c),
{
    let base = format_spread(&c.base.cpu_per_gbit_whole);
    let head = format_spread(&c.head.cpu_per_gbit_whole);
    let column_0 = pad_left(base.as_str(), 17);
    let column_1 = pad_left(head.as_str(), 17);
    let column_2 = pad_left(c.cpu_per_gbit_delta.as_str(), 10);
    let column_3 = pad_left(yes_or_no(c.overlap), 7);
    let column_4 = pad_left(c.caller_cpu_delta.as_str(), 9);
    let column_5 = pad_left(c.listener_cpu_delta.as_str(), 9);
    let column_6 = pad_left(c.head.caller_rss.as_str(), 4);
    let column_7 = pad_right(c.head.listener_rss.as_str(), 4);
    let parts: Vec<&str> = vec![
        column_0.as_str(),
        " ",
        column_1.as_str(),
        " ",
        column_2.as_str(),
        "% ",
        column_3.as_str(),
        " ",
        column_4.as_str(),
        "% ",
        column_5.as_str(),
        "% ",
        column_6.as_str(),
        "/",
        column_7.as_str(),
        "\n",
    ];
    assert(slices(parts@) =~= seq![
        right_in(spread_text(c.base.cpu_per_gbit_whole), 17),
        " "@,
        right_in(spread_text(c.head.cpu_per_gbit_whole), 17),
        " "@,
        right_in(c.cpu_per_gbit_delta@, 10),
        "% "@,
        right_in(yes_no(c.overlap), 7),
        " "@,
        right_in(c.caller_cpu_delta@, 9),
        "% "@,
        right_in(c.listener_cpu_delta@, 9),
        "% "@,
        right_in(c.head.caller_rss@, 4),
        "/"@,
        left_in(c.head.listener_rss@, 4),
        "\n"@,
    ]);
    concat(&parts)
}

/// The row of a cell that one side has no complete pair of.
pub open spec fn table_gap_text(label: Seq<char>, c: CellComparison) -> Seq<char> {
    run_together(seq![
        left_in(label, 32),
        " "@,
        right_in(short_reps(c), 7),
        " "@,
        right_in("incompl"@, 8),
        " "@,
        right_in("--"@, 17),
        " "@,
        right_in("--"@, 17),
        " "@,
        right_in("--"@, 11),
        " "@,
        right_in("--"@, 7),
        " "@,
        right_in("--"@, 10),
        " "@,
        right_in("--"@, 10),
        " "@,
        right_in("--"@, 9),
        "\n"@,
    ])
}

fn table_gap(label: &str, c: &CellComparison) -> (r: String)
    ensures
        r@ == table_gap_text(label@, *c),
{
    let reps = reps_in_short(c);
    let column_0 = pad_right(label, 32);
    let column_1 = pad_left(reps.as_str(), 7);
    let column_2 = pad_left("incompl", 8);
    let column_3 = pad_left("--", 17);
    let column_4 = pad_left("--", 17);
    let column_5 = pad_left("--", 11);
    let column_6 = pad_left("--", 7);
    let column_7 = pad_left("--", 10);
    let column_8 = pad_left("--", 10);
    let column_9 = pad_left("--", 9);
    let parts: Vec<&str> = vec![
        column_0.as_str(),
        " ",
        column_1.as_str(),
        " ",
        column_2.as_str(),
        " ",
        column_3.as_str(),
        " ",
        column_4.as_str(),
        " ",
        column_5.as_str(),
        " ",
        column_6.as_str(),
        " ",
        column_7.as_str(),
        " ",
        column_8.as_str(),
        " ",
        column_9.as_str(),
        "\n",
    ];
    assert(slices(parts@) =~= seq![
        left_in(label@, 32),
        " "@,
        right_in(short_reps(*c), 7),
        " "@,
        right_in("incompl"@, 8),
        " "@,
        right_in("--"@, 17),
        " "@,
        right_in("--"@, 17),
        " "@,
        right_in("--"@, 11),
        " "@,
        right_in("--"@, 7),
        " "@,
        right_in("--"@, 10),
        " "@,
        right_in("--"@, 10),
        " "@,
        right_in("--"@, 9),
        "\n"@,
    ]);
    concat(&parts)
}

/// A cell's row in the table.
pub open spec fn table_row(label: Seq<char>, c: CellComparison) -> Seq<char> {
    if c.base.pairs == 0 || c.head.pairs == 0 {
        table_gap_text(label, c)
    } else {
        table_start_text(label, c) + table_end_text(c)
    }
}

/// A cell's row in the table.
pub fn render_table_cell_row(label: &str, c: &CellComparison) -> (r: String)
    ensures
        r@ == table_row(label@, *c),
{
    if c.base.pairs == 0 || c.head.pairs == 0 {
        return table_gap(label, c);
    }
    let mut out = table_start(label, c);
    out.append(table_end(c).as_str());
    out
}

// ---------------------------------------------------------------------------
// Matching
// ---------------------------------------------------------------------------

/// Which cells two files share, and which only one of them has.
#[derive(Debug)]
pub struct CellMatch {
    pub both: Vec<String>,
    pub base_only: Vec<String>,
    pub head_only: Vec<String>,
}

/// The keys that `other` has as well (`shared`), or has not.
pub open spec fn keys_shared(keys: Seq<Seq<char>>, other: Seq<Seq<char>>, shared: bool) -> Seq<
    Seq<char>,
>
    decreases keys.len(),
{
    if keys.len() == 0 {
        Seq::empty()
    } else {
        let before = keys_shared(keys.drop_last(), other, shared);
        if other.contains(keys.last()) == shared {
            before.push(keys.last())
        } else {
            before
        }
    }
}

fn share(keys: &Vec<String>, other: &Vec<String>, shared: bool) -> (r: Vec<String>)
    ensures
        texts(r@) == keys_shared(texts(keys@), texts(other@), shared),
{
    let ghost all = texts(keys@);
    let mut out: Vec<String> = Vec::new();
    let mut i: usize = 0;
    assert(texts(out@) =~= keys_shared(all.take(0), texts(other@), shared));
    while i < keys.len()
        invariant
            i <= keys@.len(),
            all == texts(keys@),
            texts(out@) == keys_shared(all.take(i as int), texts(other@), shared),
        decreases keys@.len() - i,
    {
        assert(all.take(i + 1).drop_last() =~= all.take(i as int));
        assert(all.take(i + 1).last() == keys@[i as int]@);
        if contains_text(other, keys[i].as_str()) == shared {
            let key = keys[i].clone();
            proof {
                lemma_texts_push(out@, key);
            }
            out.push(key);
        }
        i += 1;
    }
    assert(all.take(all.len() as int) =~= all);
    out
}

/// Matches the cells of two files, each given in ascending order.
pub fn match_cells(base: &Vec<String>, head: &Vec<String>) -> (r: CellMatch)
    ensures
        texts(r.both@) == keys_shared(texts(base@), texts(head@), true),
        texts(r.base_only@) == keys_shared(texts(base@), texts(head@), false),
        texts(r.head_only@) == keys_shared(texts(head@), texts(base@), false),
{
    CellMatch {
        both: share(base, head, true),
        base_only: share(base, head, false),
        head_only: share(head, base, false),
    }
}

/// Every cell of a file is either held against the other's or named as unmatched,
/// and never both.
pub proof fn matching_loses_no_cell(keys: Seq<Seq<char>>, other: Seq<Seq<char>>, key: Seq<char>)
    requires
        keys.contains(key),
    ensures
        keys_shared(keys, other, true).contains(key) == other.contains(key),
        keys_shared(keys, other, false).contains(key) == !other.contains(key),
{
    lemma_shared(keys, other, true, key);
    lemma_shared(keys, other, false, key);
}

proof fn lemma_shared(keys: Seq<Seq<char>>, other: Seq<Seq<char>>, shared: bool, key: Seq<char>)
    ensures
        keys_shared(keys, other, shared).contains(key) == (keys.contains(key) && other.contains(
            key,
        ) == shared),
    decreases keys.len(),
{
    if keys.len() > 0 {
        let rest = keys.drop_last();
        lemma_shared(rest, other, shared, key);
        let before = keys_shared(rest, other, shared);
        let got = keys_shared(keys, other, shared);
        if keys.contains(key) {
            let i = choose|i: int| 0 <= i < keys.len() && keys[i] == key;
            if i < rest.len() {
                assert(rest[i] == key);
            }
        }
        if rest.contains(key) {
            let i = choose|i: int| 0 <= i < rest.len() && rest[i] == key;
            assert(keys[i] == key);
        }
        assert(keys[keys.len() - 1] == keys.last());
        if other.contains(keys.last()) == shared {
            assert(got[got.len() - 1] == keys.last());
            if before.contains(key) {
                let i = choose|i: int| 0 <= i < before.len() && before[i] == key;
                assert(got[i] == key);
            }
            if got.contains(key) {
                let i = choose|i: int| 0 <= i < got.len() && got[i] == key;
                if i < before.len() {
                    assert(before[i] == key);
                }
            }
        }
    }
}

// ---------------------------------------------------------------------------
// The scorecard
// ---------------------------------------------------------------------------

/// The best clean cell of a file, rendered.
#[derive(Debug)]
pub struct Frontier {
    pub key: String,
    /// Rates in Gbit/s to three places.
    pub achieved: String,
    /// Percentages to one place.
    pub offer: String,
    pub good: String,
}

/// The clean capacity of a file: its rate in Gbit/s, and the cell that reached it.
#[derive(Debug)]
pub struct Capacity {
    pub rate: String,
    pub frontier: Option<Frontier>,
}

/// How a cell's pacing is described.
pub open spec fn pacing_text(key: Seq<char>) -> Seq<char> {
    if key_field(key, "srt_bw_mode"@).len() == 0 {
        "SRT pacing: unrecorded"@
    } else {
        "SRT pacing: "@ + key_field(key, "srt_bw_mode"@)
    }
}

/// How a file's best clean cell is described.
pub open spec fn frontier_text(c: Capacity) -> Seq<char> {
    match c.frontier {
        None => "none (no cell met strict >=99% offer/good across all repetitions)"@,
        Some(f) => run_together(
            seq![
                short_label(f.key@),
                " (source workload: "@,
                c.rate@,
                " Gbit/s, "@,
                pacing_text(f.key@),
                ", achieved payload: "@,
                f.achieved@,
                " Gbit/s, offer: "@,
                f.offer@,
                "%, good: "@,
                f.good@,
                "%)"@,
            ],
        ),
    }
}

fn format_frontier_label(c: &Capacity) -> (r: String)
    ensures
        r@ == frontier_text(*c),
{
    match &c.frontier {
        None => "none (no cell met strict >=99% offer/good across all repetitions)".to_owned(),
        Some(f) => {
            let label = format_short_cell_label(f.key.as_str());
            let pacing = describe_srt_pacing(f.key.as_str());
            let parts: Vec<&str> = vec![
                label.as_str(),
                " (source workload: ",
                c.rate.as_str(),
                " Gbit/s, ",
                pacing.as_str(),
                ", achieved payload: ",
                f.achieved.as_str(),
                " Gbit/s, offer: ",
                f.offer.as_str(),
                "%, good: ",
                f.good.as_str(),
                "%)",
            ];
            assert(slices(parts@) =~= seq![
                short_label(f.key@),
                " (source workload: "@,
                c.rate@,
                " Gbit/s, "@,
                pacing_text(f.key@),
                ", achieved payload: "@,
                f.achieved@,
                " Gbit/s, offer: "@,
                f.offer@,
                "%, good: "@,
                f.good@,
                "%)"@,
            ]);
            concat(&parts)
        },
    }
}

/// The rows of the first `n` shared cells.
pub open spec fn card_rows(
    keys: Seq<Seq<char>>,
    cells: Seq<CellComparison>,
    markdown: bool,
    n: int,
) -> Seq<char>
    decreases n,
{
    if n <= 0 {
        Seq::empty()
    } else {
        card_rows(keys, cells, markdown, n - 1) + if markdown {
            markdown_row(short_label(keys[n - 1]), cells[n - 1])
        } else {
            table_row(short_label(keys[n - 1]), cells[n - 1])
        }
    }
}

fn push_rows(out: &mut String, keys: &Vec<String>, cells: &Vec<CellComparison>, markdown: bool)
    requires
        keys@.len() == cells@.len(),
        forall|i: int| 0 <= i < cells@.len() ==> countable(#[trigger] cells@[i]),
    ensures
        final(out)@ == old(out)@ + card_rows(
            texts(keys@),
            cells@,
            markdown,
            keys@.len() as int,
        ),
{
    let ghost before = out@;
    let ghost all = texts(keys@);
    let mut i: usize = 0;
    assert(before + card_rows(all, cells@, markdown, 0) =~= before);
    while i < keys.len()
        invariant
            i <= keys@.len() == cells@.len(),
            all == texts(keys@),
            forall|j: int| 0 <= j < cells@.len() ==> countable(#[trigger] cells@[j]),
            out@ == before + card_rows(all, cells@, markdown, i as int),
        decreases keys@.len() - i,
    {
        let label = format_short_cell_label(keys[i].as_str());
        if markdown {
            out.append(render_markdown_cell_row(label.as_str(), &cells[i]).as_str());
        } else {
            out.append(render_table_cell_row(label.as_str(), &cells[i]).as_str());
        }
        proof {
            assert(all[i as int] == keys@[i as int]@);
            assert(out@ =~= before + card_rows(all, cells@, markdown, i + 1));
        }
        i += 1;
    }
}

/// What precedes the rows of the scorecard, part by part.
pub open spec fn markdown_opening_parts(
    base_path: Seq<char>,
    head_path: Seq<char>,
    base: Capacity,
    head: Capacity,
    delta: Seq<char>,
) -> Seq<Seq<char>> {
    seq![
        "# Pre/Post DSA End-to-End Benchmark Scorecard\n\n- **Baseline (Pre-DSA #37)**: `"@,
        base_path,
        "`\n- **Head (Post-DSA #61)**: `"@,
        head_path,
        "`\n\n## 1. Capacity Frontier Analysis (Strict All-Repetition Clean Criteria)\n\nClean capacity criteria, across **all** repetitions: `caller_established == conns` (physical legs), `listener_established == logical_streams` (a bonded group is one admitted stream, not two), `torn == 0`, `offer >= 99.0%`, `goodput >= 99.0%`, `deliv >= 99.9%`, `udp_rcvbuf_err == 0` on both roles, and zero benchmark-owned overflow (`src_overflow`, `datapath_q_dropped`, `local_dropped`). A cell whose SRT pacing ceiling sits below its source rate is a legitimate diagnostic configuration and is not rejected for that; it simply fails `offer`, which is the honest way to say the protocol could not service the workload.\nSource target is the application workload, not SRT's pacing ceiling: `target = source_streams × (source_bps ÷ 8) × secs ÷ 1316`. SRT's own ceiling is recorded separately as `srt_maxbw_bps`.\n\n| Metric | Pre-DSA Baseline | Post-DSA HEAD | Delta |\n|---|---|---|---|\n| **Max Clean Aggregate Rate** | **"@,
        base.rate@,
        " Gbit/s** ("@,
        frontier_text(base),
        ") | **"@,
        head.rate@,
        " Gbit/s** ("@,
        frontier_text(head),
        ") | **"@,
        delta,
        "%** |\n\n## 2. Cell-by-Cell Comparative Scorecard\n\n| Workload Cell | Reps | Offer% (B→H) | Good% (B→H) | Deliv% (B→H) | Clean B/H | CPU ms/Gbit (Base [min..max] → Head [min..max], Δ%, Overlap) | Caller CPU ms/Mpkt | Listener CPU ms/Mpkt | Peak RSS/conn KB (Caller, Listener) | Recovery Telemetry (Retx, Lost, Dup) | RTT ms |\n|---|:---:|:---:|:---:|:---:|:---:|:---:|:---:|:---:|:---:|:---:|:---:|\n"@,
    ]
}

/// What precedes the rows of the scorecard.
pub open spec fn markdown_opening_text(
    base_path: Seq<char>,
    head_path: Seq<char>,
    base: Capacity,
    head: Capacity,
    delta: Seq<char>,
) -> Seq<char> {
    run_together(markdown_opening_parts(base_path, head_path, base, head, delta))
}

fn markdown_opening(
    base_path: &str,
    head_path: &str,
    base: &Capacity,
    head: &Capacity,
    delta: &str,
) -> (r: String)
    ensures
        r@ == markdown_opening_text(base_path@, head_path@, *base, *head, delta@),
{
    let base_label = format_frontier_label(base);
    let head_label = format_frontier_label(head);
    let parts: Vec<&str> = vec![
        "# Pre/Post DSA End-to-End Benchmark Scorecard\n\n- **Baseline (Pre-DSA #37)**: `",
        base_path,
        "`\n- **Head (Post-DSA #61)**: `",
        head_path,
        "`\n\n## 1. Capacity Frontier Analysis (Strict All-Repetition Clean Criteria)\n\nClean capacity criteria, across **all** repetitions: `caller_established == conns` (physical legs), `listener_established == logical_streams` (a bonded group is one admitted stream, not two), `torn == 0`, `offer >= 99.0%`, `goodput >= 99.0%`, `deliv >= 99.9%`, `udp_rcvbuf_err == 0` on both roles, and zero benchmark-owned overflow (`src_overflow`, `datapath_q_dropped`, `local_dropped`). A cell whose SRT pacing ceiling sits below its source rate is a legitimate diagnostic configuration and is not rejected for that; it simply fails `offer`, which is the honest way to say the protocol could not service the workload.\nSource target is the application workload, not SRT's pacing ceiling: `target = source_streams × (source_bps ÷ 8) × secs ÷ 1316`. SRT's own ceiling is recorded separately as `srt_maxbw_bps`.\n\n| Metric | Pre-DSA Baseline | Post-DSA HEAD | Delta |\n|---|---|---|---|\n| **Max Clean Aggregate Rate** | **",
        base.rate.as_str(),
        " Gbit/s** (",
        base_label.as_str(),
        ") | **",
        head.rate.as_str(),
        " Gbit/s** (",
        head_label.as_str(),
        ") | **",
        delta,
        "%** |\n\n## 2. Cell-by-Cell Comparative Scorecard\n\n| Workload Cell | Reps | Offer% (B→H) | Good% (B→H) | Deliv% (B→H) | Clean B/H | CPU ms/Gbit (Base [min..max] → Head [min..max], Δ%, Overlap) | Caller CPU ms/Mpkt | Listener CPU ms/Mpkt | Peak RSS/conn KB (Caller, Listener) | Recovery Telemetry (Retx, Lost, Dup) | RTT ms |\n|---|:---:|:---:|:---:|:---:|:---:|:---:|:---:|:---:|:---:|:---:|:---:|\n",
    ];
    assert(slices(parts@) =~= seq![
        "# Pre/Post DSA End-to-End Benchmark Scorecard\n\n- **Baseline (Pre-DSA #37)**: `"@,
        base_path@,
        "`\n- **Head (Post-DSA #61)**: `"@,
        head_path@,
        "`\n\n## 1. Capacity Frontier Analysis (Strict All-Repetition Clean Criteria)\n\nClean capacity criteria, across **all** repetitions: `caller_established == conns` (physical legs), `listener_established == logical_streams` (a bonded group is one admitted stream, not two), `torn == 0`, `offer >= 99.0%`, `goodput >= 99.0%`, `deliv >= 99.9%`, `udp_rcvbuf_err == 0` on both roles, and zero benchmark-owned overflow (`src_overflow`, `datapath_q_dropped`, `local_dropped`). A cell whose SRT pacing ceiling sits below its source rate is a legitimate diagnostic configuration and is not rejected for that; it simply fails `offer`, which is the honest way to say the protocol could not service the workload.\nSource target is the application workload, not SRT's pacing ceiling: `target = source_streams × (source_bps ÷ 8) × secs ÷ 1316`. SRT's own ceiling is recorded separately as `srt_maxbw_bps`.\n\n| Metric | Pre-DSA Baseline | Post-DSA HEAD | Delta |\n|---|---|---|---|\n| **Max Clean Aggregate Rate** | **"@,
        base.rate@,
        " Gbit/s** ("@,
        frontier_text(*base),
        ") | **"@,
        head.rate@,
        " Gbit/s** ("@,
        frontier_text(*head),
        ") | **"@,
        delta@,
        "%** |\n\n## 2. Cell-by-Cell Comparative Scorecard\n\n| Workload Cell | Reps | Offer% (B→H) | Good% (B→H) | Deliv% (B→H) | Clean B/H | CPU ms/Gbit (Base [min..max] → Head [min..max], Δ%, Overlap) | Caller CPU ms/Mpkt | Listener CPU ms/Mpkt | Peak RSS/conn KB (Caller, Listener) | Recovery Telemetry (Retx, Lost, Dup) | RTT ms |\n|---|:---:|:---:|:---:|:---:|:---:|:---:|:---:|:---:|:---:|:---:|:---:|\n"@,
    ]);
    concat(&parts)
}

/// What precedes the rows of the table, part by part.
pub open spec fn table_opening_parts(
    base_path: Seq<char>,
    head_path: Seq<char>,
    base: Capacity,
    head: Capacity,
    delta: Seq<char>,
) -> Seq<Seq<char>> {
    seq![
        "=== Pre/Post DSA End-to-End Benchmark Scorecard ===\nBaseline (Pre-DSA): "@,
        base_path,
        "\nHead (Post-DSA):     "@,
        head_path,
        "\n\n--- Capacity Frontier (Strict All-Rep Clean Criteria) ---\nMax Clean Aggregate Rate: "@,
        base.rate@,
        " Gbit/s -> "@,
        head.rate@,
        " Gbit/s ("@,
        delta,
        "%)\n  Baseline frontier: "@,
        frontier_text(base),
        "\n  HEAD frontier:     "@,
        frontier_text(head),
        "\n\nWorkload                            Reps  Offer B->H   Good B->H  Deliv%   Clean        CPU/Gbit B        CPU/Gbit H  CPU/Gbit Δ Overlap  Call Mpkt  List Mpkt   RSS C/L\n----------------------------------------------------------------------------------------------------------------------------------------------------------------\n"@,
    ]
}

/// What precedes the rows of the table.
pub open spec fn table_opening_text(
    base_path: Seq<char>,
    head_path: Seq<char>,
    base: Capacity,
    head: Capacity,
    delta: Seq<char>,
) -> Seq<char> {
    run_together(table_opening_parts(base_path, head_path, base, head, delta))
}

fn table_opening(
    base_path: &str,
    head_path: &str,
    base: &Capacity,
    head: &Capacity,
    delta: &str,
) -> (r: String)
    ensures
        r@ == table_opening_text(base_path@, head_path@, *base, *head, delta@),
{
    let base_label = format_frontier_label(base);
    let head_label = format_frontier_label(head);
    let parts: Vec<&str> = vec![
        "=== Pre/Post DSA End-to-End Benchmark Scorecard ===\nBaseline (Pre-DSA): ",
        base_path,
        "\nHead (Post-DSA):     ",
        head_path,
        "\n\n--- Capacity Frontier (Strict All-Rep Clean Criteria) ---\nMax Clean Aggregate Rate: ",
        base.rate.as_str(),
        " Gbit/s -> ",
        head.rate.as_str(),
        " Gbit/s (",
        delta,
        "%)\n  Baseline frontier: ",
        base_label.as_str(),
        "\n  HEAD frontier:     ",
        head_label.as_str(),
        "\n\nWorkload                            Reps  Offer B->H   Good B->H  Deliv%   Clean        CPU/Gbit B        CPU/Gbit H  CPU/Gbit Δ Overlap  Call Mpkt  List Mpkt   RSS C/L\n----------------------------------------------------------------------------------------------------------------------------------------------------------------\n",
    ];
    assert(slices(parts@) =~= seq![
        "=== Pre/Post DSA End-to-End Benchmark Scorecard ===\nBaseline (Pre-DSA): "@,
        base_path@,
        "\nHead (Post-DSA):     "@,
        head_path@,
        "\n\n--- Capacity Frontier (Strict All-Rep Clean Criteria) ---\nMax Clean Aggregate Rate: "@,
        base.rate@,
        " Gbit/s -> "@,
        head.rate@,
        " Gbit/s ("@,
        delta@,
        "%)\n  Baseline frontier: "@,
        frontier_text(*base),
        "\n  HEAD frontier:     "@,
        frontier_text(*head),
        "\n\nWorkload                            Reps  Offer B->H   Good B->H  Deliv%   Clean        CPU/Gbit B        CPU/Gbit H  CPU/Gbit Δ Overlap  Call Mpkt  List Mpkt   RSS C/L\n----------------------------------------------------------------------------------------------------------------------------------------------------------------\n"@,
    ]);
    concat(&parts)
}

/// The cells that only one file has, as the table counts them.
pub open spec fn warning_text(base_only: nat, head_only: nat) -> Seq<char> {
    let base = if base_only == 0 {
        Seq::empty()
    } else {
        "Warning: "@ + decimal(base_only) + " cells only present in baseline\n"@
    };
    let head = if head_only == 0 {
        Seq::empty()
    } else {
        "Warning: "@ + decimal(head_only) + " cells only present in head\n"@
    };
    if base_only == 0 && head_only == 0 {
        Seq::empty()
    } else {
        "\n"@ + base + head
    }
}

fn unmatched_warning(base_only: usize, head_only: usize) -> (r: String)
    ensures
        r@ == warning_text(base_only as nat, head_only as nat),
{
    let mut out = String::new();
    if base_only == 0 && head_only == 0 {
        return out;
    }
    out.append("\n");
    if base_only != 0 {
        out.append("Warning: ");
        out.append(render(base_only as u64).as_str());
        out.append(" cells only present in baseline\n");
    }
    if head_only != 0 {
        out.append("Warning: ");
        out.append(render(head_only as u64).as_str());
        out.append(" cells only present in head\n");
    }
    assert(out@ =~= warning_text(base_only as nat, head_only as nat));
    out
}

/// The scorecard of two files.
pub open spec fn scorecard(
    base_path: Seq<char>,
    head_path: Seq<char>,
    base: Capacity,
    head: Capacity,
    delta: Seq<char>,
    cells: CellMatch,
    rows: Seq<CellComparison>,
    markdown: bool,
) -> Seq<char> {
    let both = texts(cells.both@);
    if markdown {
        markdown_opening_text(base_path, head_path, base, head, delta) + card_rows(
            both,
            rows,
            true,
            both.len() as int,
        ) + "\n"@ + unmatched_text(texts(cells.base_only@), texts(cells.head_only@))
    } else {
        table_opening_text(base_path, head_path, base, head, delta) + card_rows(
            both,
            rows,
            false,
            both.len() as int,
        ) + warning_text(cells.base_only@.len(), cells.head_only@.len())
    }
}

/// The scorecard of two files as a document.
pub fn render_markdown_scorecard(
    base_path: &str,
    head_path: &str,
    base: &Capacity,
    head: &Capacity,
    delta: &str,
    cells: &CellMatch,
    rows: &Vec<CellComparison>,
) -> (r: String)
    requires
        rows@.len() == cells.both@.len(),
        forall|i: int| 0 <= i < rows@.len() ==> countable(#[trigger] rows@[i]),
    ensures
        r@ == scorecard(base_path@, head_path@, *base, *head, delta@, *cells, rows@, true),
{
    assert(texts(cells.both@).len() == cells.both@.len());
    let mut out = markdown_opening(base_path, head_path, base, head, delta);
    push_rows(&mut out, &cells.both, rows, true);
    out.append("\n");
    out.append(render_unmatched_section(&cells.base_only, &cells.head_only).as_str());
    out
}

/// The scorecard of two files as a table.
pub fn render_table_scorecard(
    base_path: &str,
    head_path: &str,
    base: &Capacity,
    head: &Capacity,
    delta: &str,
    cells: &CellMatch,
    rows: &Vec<CellComparison>,
) -> (r: String)
    requires
        rows@.len() == cells.both@.len(),
        forall|i: int| 0 <= i < rows@.len() ==> countable(#[trigger] rows@[i]),
    ensures
        r@ == scorecard(base_path@, head_path@, *base, *head, delta@, *cells, rows@, false),
{
    assert(texts(cells.both@).len() == cells.both@.len());
    let mut out = table_opening(base_path, head_path, base, head, delta);
    push_rows(&mut out, &cells.both, rows, false);
    out.append(unmatched_warning(cells.base_only.len(), cells.head_only.len()).as_str());
    out
}

/// The scorecard of two files. `rows` goes with the cells that both files have.
pub fn compare_files(
    base_path: &str,
    head_path: &str,
    base: &Capacity,
    head: &Capacity,
    delta: &str,
    cells: &CellMatch,
    rows: &Vec<CellComparison>,
    markdown: bool,
) -> (r: String)
    requires
        rows@.len() == cells.both@.len(),
        forall|i: int| 0 <= i < rows@.len() ==> countable(#[trigger] rows@[i]),
    ensures
        r@ == scorecard(
            base_path@,
            head_path@,
            *base,
            *head,
            delta@,
            *cells,
            rows@,
            markdown,
        ),
{
    if markdown {
        render_markdown_scorecard(base_path, head_path, base, head, delta, cells, rows)
    } else {
        render_table_scorecard(base_path, head_path, base, head, delta, cells, rows)
    }
}

} // verus!
