//! Comparing result files: the identity of a cell, the pairing of its rows, and the
//! verdict on each pair.
//!
//! The figures of a pair are fractions, which whoever computes them compares with
//! the clean criteria; here is which rows make a pair, and what follows.
use crate::cell_identity::{lemma_equal_columns, lemma_one_column};
use crate::capacity_args::{first_given, given};
use crate::matrix::or_else;
use crate::record::{Record, field_in};
use crate::report::{all_records, distinct};
use crate::results::{config_columns, config_columns_text, join_then_split_is_identity};
use crate::text::{
    concat3, contains_text, decimal, first_where, float_text, is_float_text, join, joined,
    lemma_first_index, lemma_first_where, lemma_first_where_found, lemma_texts_push, parse_u64,
    render, same, slices, sort, sorted_texts, split, split_once, split_once_text, split_text, texts,
    unsigned_of,
};
use vstd::prelude::*;

verus! {

// ---------------------------------------------------------------------------
// Cell identity
// ---------------------------------------------------------------------------

/// Whether a record has a value in one of two columns.
pub open spec fn either_filled(
    record: Seq<(Seq<char>, Seq<char>)>,
    a: Seq<char>,
    b: Seq<char>,
) -> bool {
    or_else(field_in(record, a), Seq::empty()).len() > 0 || or_else(
        field_in(record, b),
        Seq::empty(),
    ).len() > 0
}

/// Whether a column says less than the role-scoped columns that the record has: it
/// then holds the value of whichever role wrote the row, which would split a pair.
pub open spec fn shadowed(record: Seq<(Seq<char>, Seq<char>)>, column: Seq<char>) -> bool {
    if column == "cpus"@ {
        either_filled(record, "recv_cpus"@, "send_cpus"@)
    } else if column == "workers"@ {
        either_filled(record, "recv_workers"@, "send_workers"@)
    } else if column == "runtime"@ {
        either_filled(record, "recv_runtime"@, "send_runtime"@)
    } else if column == "ingress"@ {
        either_filled(record, "recv_ingress"@, "send_ingress"@)
    } else {
        false
    }
}

fn filled_in(record: &Record, a: &str, b: &str) -> (r: bool)
    ensures
        r == either_filled(record@, a@, b@),
{
    let x = match record.get(a) {
        Some(v) => !v.is_empty(),
        None => false,
    };
    let y = match record.get(b) {
        Some(v) => !v.is_empty(),
        None => false,
    };
    x || y
}

fn unscoped_column_is_shadowed(record: &Record, column: &str) -> (r: bool)
    ensures
        r == shadowed(record@, column@),
{
    if same(column, "cpus") {
        filled_in(record, "recv_cpus", "send_cpus")
    } else if same(column, "workers") {
        filled_in(record, "recv_workers", "send_workers")
    } else if same(column, "runtime") {
        filled_in(record, "recv_runtime", "send_runtime")
    } else if same(column, "ingress") {
        filled_in(record, "recv_ingress", "send_ingress")
    } else {
        false
    }
}

/// `column=value` for the first `n` configuration columns that the record has and
/// that are not shadowed.
pub open spec fn identity_parts(record: Seq<(Seq<char>, Seq<char>)>, n: int) -> Seq<Seq<char>>
    decreases n,
{
    if n <= 0 {
        Seq::empty()
    } else {
        let column = config_columns_text()[n - 1];
        let before = identity_parts(record, n - 1);
        if shadowed(record, column) {
            before
        } else {
            match field_in(record, column) {
                Some(v) => before.push(column + "="@ + v),
                None => before,
            }
        }
    }
}

/// The identity of the cell that a record belongs to.
pub open spec fn identity_text(record: Seq<(Seq<char>, Seq<char>)>) -> Seq<char> {
    joined(identity_parts(record, config_columns_text().len() as int), " "@)
}

/// The columns that say what each role of a split axis did.
pub open spec fn scoped_columns() -> Seq<Seq<char>> {
    seq![
        "recv_cpus"@,
        "send_cpus"@,
        "recv_workers"@,
        "send_workers"@,
        "recv_runtime"@,
        "send_runtime"@,
        "recv_ingress"@,
        "send_ingress"@,
    ]
}

/// Records that agree on the configuration columns belong to the same cell, whatever
/// their role, repetition, attempt or measurements. A column that is shadowed by its
/// role-scoped columns has no say.
pub proof fn equal_columns_give_equal_keys(
    a: Seq<(Seq<char>, Seq<char>)>,
    b: Seq<(Seq<char>, Seq<char>)>,
)
    requires
        forall|c: Seq<char>| #[trigger]
            config_columns_text().contains(c) ==> field_in(a, c) == field_in(b, c) || (
            !scoped_columns().contains(c) && shadowed(a, c)),
    ensures
        identity_text(a) == identity_text(b),
{
    lemma_equal_columns(a, b);
}

/// One configuration column makes the difference: records that differ in it alone
/// belong to different cells, unless its role-scoped columns shadow it. This holds of
/// every column and of all values, whatever characters are in them.
pub proof fn one_column_makes_the_difference(
    a: Seq<(Seq<char>, Seq<char>)>,
    b: Seq<(Seq<char>, Seq<char>)>,
    column: Seq<char>,
)
    requires
        config_columns_text().contains(column),
        !shadowed(a, column),
        field_in(a, column) is Some,
        field_in(b, column) is Some,
        field_in(a, column) != field_in(b, column),
        forall|c: Seq<char>| #[trigger]
            config_columns_text().contains(c) && c != column ==> field_in(a, c) == field_in(b, c),
    ensures
        identity_text(a) != identity_text(b),
{
    lemma_one_column(a, b, column);
}

/// The identity of the cell that a record belongs to. What it tells apart is stated by
/// [`equal_columns_give_equal_keys`] and [`one_column_makes_the_difference`].
pub fn cell_key(r: &Record) -> (key: String)
    ensures
        key@ == identity_text(r@),
{
    let names = config_columns();
    let ghost all = config_columns_text();
    let mut parts: Vec<String> = Vec::new();
    let mut i: usize = 0;
    assert(texts(parts@) =~= identity_parts(r@, 0));
    while i < names.len()
        invariant
            i <= names@.len(),
            all == config_columns_text(),
            slices(names@) == all,
            texts(parts@) == identity_parts(r@, i as int),
        decreases names@.len() - i,
    {
        assert(slices(names@)[i as int] == names@[i as int]@);
        if !unscoped_column_is_shadowed(r, names[i]) {
            if let Some(v) = r.get(names[i]) {
                let part = concat3(names[i], "=", v);
                proof {
                    lemma_texts_push(parts@, part);
                }
                parts.push(part);
            }
        }
        i += 1;
    }
    assert(slices(names@).len() == names@.len());
    join(&parts, " ")
}

/// The test for a part of a key that gives `target`.
pub open spec fn gives(target: Seq<char>) -> spec_fn(Seq<char>) -> bool {
    |part: Seq<char>|
        match split_once_text(part, '=') {
            Some((k, _)) => k == target,
            None => false,
        }
}

/// The value that a key gives to `target`, or the empty text.
pub open spec fn key_field(key: Seq<char>, target: Seq<char>) -> Seq<char> {
    let parts = split_text(key, ' ');
    let i = first_where(parts, gives(target));
    if i < parts.len() {
        (split_once_text(parts[i], '=')->0).1
    } else {
        Seq::empty()
    }
}

/// The value that a key gives to `target`, or the empty text.
pub fn extract_key_field(key: &str, target: &str) -> (r: String)
    ensures
        r@ == key_field(key@, target@),
{
    let parts = split(key, ' ');
    let ghost all = split_text(key@, ' ');
    let mut i: usize = 0;
    while i < parts.len()
        invariant
            i <= parts@.len(),
            all == split_text(key@, ' '),
            texts(parts@) == all,
            forall|j: int| 0 <= j < i ==> !gives(target@)(#[trigger] all[j]),
        decreases parts@.len() - i,
    {
        assert(all[i as int] == parts@[i as int]@);
        if let Some((k, v)) = split_once(parts[i].as_str(), '=') {
            if same(k.as_str(), target) {
                proof {
                    lemma_first_where(all, gives(target@), i as int);
                }
                return v;
            }
        }
        i += 1;
    }
    proof {
        assert(all.len() == parts@.len());
        lemma_first_where(all, gives(target@), i as int);
    }
    String::new()
}

/// What a column adds to the identity of a record that has it.
spec fn identity_part(record: Seq<(Seq<char>, Seq<char>)>, column: Seq<char>) -> Seq<char> {
    column + "="@ + field_in(record, column)->0
}

/// Whether a column is part of a record's identity.
spec fn identifies(record: Seq<(Seq<char>, Seq<char>)>, column: Seq<char>) -> bool {
    !shadowed(record, column) && field_in(record, column) is Some
}

proof fn lemma_identity_parts(record: Seq<(Seq<char>, Seq<char>)>, n: int)
    requires
        0 <= n <= config_columns_text().len(),
    ensures
        forall|i: int|
            0 <= i < identity_parts(record, n).len() ==> exists|k: int|
                0 <= k < n && identifies(record, #[trigger] config_columns_text()[k]) && (
                #[trigger] identity_parts(record, n)[i]) == identity_part(
                    record,
                    config_columns_text()[k],
                ),
        forall|k: int|
            0 <= k < n && identifies(record, #[trigger] config_columns_text()[k])
                ==> identity_parts(record, n).contains(
                identity_part(record, config_columns_text()[k]),
            ),
    decreases n,
{
    if n > 0 {
        lemma_identity_parts(record, n - 1);
        let all = config_columns_text();
        let before = identity_parts(record, n - 1);
        let parts = identity_parts(record, n);
        assert forall|i: int| 0 <= i < parts.len() implies exists|k: int|
            0 <= k < n && identifies(record, #[trigger] all[k]) && (#[trigger] parts[i])
                == identity_part(record, all[k]) by {
            if i < before.len() {
                assert(parts[i] == before[i]);
                let k = choose|k: int|
                    0 <= k < n - 1 && identifies(record, #[trigger] all[k]) && before[i]
                        == identity_part(record, all[k]);
                assert(identifies(record, all[k]) && parts[i] == identity_part(record, all[k]));
            } else {
                assert(identifies(record, all[n - 1]));
            }
        }
        assert forall|k: int| 0 <= k < n && identifies(record, #[trigger] all[k]) implies parts.contains(
            identity_part(record, all[k]),
        ) by {
            if k < n - 1 {
                assert(before.contains(identity_part(record, all[k])));
                let i = choose|i: int|
                    0 <= i < before.len() && before[i] == identity_part(record, all[k]);
                assert(parts[i] == before[i]);
            } else {
                assert(parts[before.len() as int] == identity_part(record, all[k]));
            }
        }
    }
}

pub proof fn lemma_config_columns_plain()
    ensures
        forall|i: int, j: int|
            0 <= i < config_columns_text().len() && 0 <= j < config_columns_text()[i].len() ==> {
                let c = #[trigger] config_columns_text()[i][j];
                c != ' ' && c != '='
            },
{
    reveal_strlit("runtime");
    reveal_strlit("encryption");
    reveal_strlit("ingress");
    reveal_strlit("egress");
    reveal_strlit("promotion");
    reveal_strlit("cookie");
    reveal_strlit("batch");
    reveal_strlit("recv_rounds");
    reveal_strlit("would_block_policy");
    reveal_strlit("sock_buf_requested_bytes");
    reveal_strlit("cpus");
    reveal_strlit("pin");
    reveal_strlit("link_delay");
    reveal_strlit("link_jitter");
    reveal_strlit("link_loss");
    reveal_strlit("link_rate");
    reveal_strlit("link_reorder");
    reveal_strlit("link_duplicate");
    reveal_strlit("link_corrupt");
    reveal_strlit("link_limit");
    reveal_strlit("workers");
    reveal_strlit("recv_runtime");
    reveal_strlit("send_runtime");
    reveal_strlit("recv_ingress");
    reveal_strlit("send_ingress");
    reveal_strlit("recv_workers");
    reveal_strlit("send_workers");
    reveal_strlit("recv_cpus");
    reveal_strlit("send_cpus");
    reveal_strlit("conns");
    reveal_strlit("connect_cc");
    reveal_strlit("bond");
    reveal_strlit("source_bps");
    reveal_strlit("srt_bw_mode");
    reveal_strlit("source_backlog_ms");
    reveal_strlit("datapath_q_horizon_ms");
    reveal_strlit("retry_horizon_ms");
    reveal_strlit("secs");
    reveal_strlit("model_policy_rev");
}

proof fn lemma_named_value(column: Seq<char>, value: Seq<char>)
    requires
        forall|j: int| 0 <= j < column.len() ==> #[trigger] column[j] != '=',
    ensures
        split_once_text(column + "="@ + value, '=') == Some((column, value)),
{
    reveal_strlit("=");
    let s = column + "="@ + value;
    lemma_first_index(s, '=', column.len() as int);
    assert(s.subrange(0, column.len() as int) =~= column);
    assert(s.subrange(column.len() as int + 1, s.len() as int) =~= value);
}

/// A cell's key gives back what its record says of a column, unless some recorded
/// value holds a space, which parts the key.
pub proof fn keys_give_their_fields_back(
    record: Seq<(Seq<char>, Seq<char>)>,
    column: Seq<char>,
)
    requires
        config_columns_text().contains(column),
        !shadowed(record, column),
        field_in(record, column) is Some,
        forall|c: Seq<char>| #[trigger]
            config_columns_text().contains(c) && field_in(record, c) is Some
                ==> !field_in(record, c)->0.contains(' '),
    ensures
        key_field(identity_text(record), column) == field_in(record, column)->0,
{
    let all = config_columns_text();
    let n = all.len() as int;
    let parts = identity_parts(record, n);
    lemma_identity_parts(record, n);
    lemma_config_columns_plain();
    reveal_strlit(" ");
    reveal_strlit("=");
    assert(" "@ =~= seq![' ']);
    let at = choose|k: int| 0 <= k < n && all[k] == column;
    assert(identifies(record, all[at]));
    assert(parts.contains(identity_part(record, column)));
    assert forall|i: int, j: int|
        0 <= i < parts.len() && 0 <= j < parts[i].len() implies #[trigger] parts[i][j] != ' ' by {
        let k = choose|k: int|
            0 <= k < n && identifies(record, #[trigger] all[k]) && parts[i] == identity_part(
                record,
                all[k],
            );
        let c = all[k];
        let v = field_in(record, c)->0;
        assert(all.contains(c));
        assert(!v.contains(' '));
        if j < c.len() {
            assert(parts[i][j] == all[k][j]);
        } else if j > c.len() {
            assert(parts[i][j] == v[j - c.len() - 1]);
            assert(v.contains(v[j - c.len() - 1]));
        }
    }
    join_then_split_is_identity(parts, ' ');
    lemma_first_where_found(parts, gives(column));
    let i = first_where(parts, gives(column));
    let here = choose|i: int| 0 <= i < parts.len() && parts[i] == identity_part(record, column);
    assert forall|j: int| 0 <= j < column.len() implies #[trigger] column[j] != '=' by {
        assert(all[at][j] != '=');
    }
    lemma_named_value(column, field_in(record, column)->0);
    assert(gives(column)(parts[here]));
    assert(i <= here);
    let k = choose|k: int|
        0 <= k < n && identifies(record, #[trigger] all[k]) && parts[i] == identity_part(
            record,
            all[k],
        );
    let c = all[k];
    assert forall|j: int| 0 <= j < c.len() implies #[trigger] c[j] != '=' by {
        assert(all[k][j] != '=');
    }
    lemma_named_value(c, field_in(record, c)->0);
    assert(gives(column)(parts[i]));
    assert(c == column);
}

/// A rate in short: whole millions with `M`, whole thousands with `k`, else as it is.
pub open spec fn rate_label(rate: Seq<char>) -> Seq<char> {
    match unsigned_of(rate, u64::MAX as int) {
        Some(b) => if b >= 1_000_000 {
            decimal(b / 1_000_000) + "M"@
        } else if b >= 1_000 {
            decimal(b / 1_000) + "k"@
        } else {
            rate
        },
        None => rate,
    }
}

/// A part of a label that is left out where it says nothing.
pub open spec fn optional_part(value: Seq<char>, nothing: Seq<char>) -> Seq<char> {
    if value == nothing || value.len() == 0 {
        Seq::empty()
    } else {
        " "@ + value
    }
}

/// A link impairment in a label; left out where it is off.
pub open spec fn impairment_part(name: Seq<char>, value: Seq<char>) -> Seq<char> {
    if value == "0"@ || value == "0.0"@ || value == "off"@ || value.len() == 0 {
        Seq::empty()
    } else {
        " "@ + name + "="@ + value
    }
}

/// A cell in short.
pub open spec fn short_label(key: Seq<char>) -> Seq<char> {
    key_field(key, "runtime"@) + " "@ + key_field(key, "conns"@) + "c×"@ + rate_label(
        key_field(key, "source_bps"@),
    ) + optional_part(key_field(key, "encryption"@), "plain"@) + optional_part(
        key_field(key, "ingress"@),
        "per-port"@,
    ) + optional_part(key_field(key, "bond"@), "none"@) + impairment_part(
        "loss"@,
        key_field(key, "link_loss"@),
    ) + impairment_part("reorder"@, key_field(key, "link_reorder"@))
}

fn push_optional(label: &mut String, value: &str, nothing: &str)
    ensures
        final(label)@ == old(label)@ + optional_part(value@, nothing@),
{
    let ghost before = label@;
    if !same(value, nothing) && !value.is_empty() {
        label.append(" ");
        label.append(value);
    }
    assert(label@ =~= before + optional_part(value@, nothing@));
}

fn push_impairment(label: &mut String, name: &str, value: &str)
    ensures
        final(label)@ == old(label)@ + impairment_part(name@, value@),
{
    let ghost before = label@;
    if !same(value, "0") && !same(value, "0.0") && !same(value, "off") && !value.is_empty() {
        label.append(" ");
        label.append(name);
        label.append("=");
        label.append(value);
    }
    assert(label@ =~= before + impairment_part(name@, value@));
}

fn short_rate(rate: &str) -> (r: String)
    ensures
        r@ == rate_label(rate@),
{
    match parse_u64(rate) {
        Some(b) => {
            if b >= 1_000_000 {
                let mut out = render(b / 1_000_000);
                out.append("M");
                return out;
            }
            if b >= 1_000 {
                let mut out = render(b / 1_000);
                out.append("k");
                return out;
            }
        },
        None => {},
    }
    rate.to_owned()
}

/// A cell in short, for tables and headings.
pub fn format_short_cell_label(key: &str) -> (r: String)
    ensures
        r@ == short_label(key@),
{
    let rate = extract_key_field(key, "source_bps");
    let mut label = extract_key_field(key, "runtime");
    label.append(" ");
    label.append(extract_key_field(key, "conns").as_str());
    label.append("c×");
    label.append(short_rate(rate.as_str()).as_str());
    push_optional(&mut label, extract_key_field(key, "encryption").as_str(), "plain");
    push_optional(&mut label, extract_key_field(key, "ingress").as_str(), "per-port");
    push_optional(&mut label, extract_key_field(key, "bond").as_str(), "none");
    push_impairment(&mut label, "loss", extract_key_field(key, "link_loss").as_str());
    push_impairment(&mut label, "reorder", extract_key_field(key, "link_reorder").as_str());
    label
}

/// How a cell's pacing is described.
pub fn describe_srt_pacing(key: &str) -> (r: String)
    ensures
        r@ == if key_field(key@, "srt_bw_mode"@).len() == 0 {
            "SRT pacing: unrecorded"@
        } else {
            "SRT pacing: "@ + key_field(key@, "srt_bw_mode"@)
        },
{
    let mode = extract_key_field(key, "srt_bw_mode");
    if mode.as_str().is_empty() {
        "SRT pacing: unrecorded".to_owned()
    } else {
        let mut out = "SRT pacing: ".to_owned();
        out.append(mode.as_str());
        out
    }
}

/// How many complete pairs two files have of a cell.
pub fn render_reps_string(
    base_pairs: usize,
    base_incomplete: usize,
    head_pairs: usize,
    head_incomplete: usize,
) -> (r: String)
    requires
        base_pairs + base_incomplete <= usize::MAX,
        head_pairs + head_incomplete <= usize::MAX,
    ensures
        r@ == if base_pairs == head_pairs && base_incomplete == 0 && head_incomplete == 0 {
            "n="@ + decimal(head_pairs as nat)
        } else {
            "B="@ + decimal(base_pairs as nat) + "/"@ + decimal(
                (base_pairs + base_incomplete) as nat,
            ) + " H="@ + decimal(head_pairs as nat) + "/"@ + decimal(
                (head_pairs + head_incomplete) as nat,
            ) + " (unequal)"@
        },
{
    if base_pairs == head_pairs && base_incomplete == 0 && head_incomplete == 0 {
        let mut out = "n=".to_owned();
        out.append(render(head_pairs as u64).as_str());
        return out;
    }
    let mut out = "B=".to_owned();
    out.append(render(base_pairs as u64).as_str());
    out.append("/");
    out.append(render((base_pairs + base_incomplete) as u64).as_str());
    out.append(" H=");
    out.append(render(head_pairs as u64).as_str());
    out.append("/");
    out.append(render((head_pairs + head_incomplete) as u64).as_str());
    out.append(" (unequal)");
    out
}

/// One bullet per cell.
pub open spec fn bullets(keys: Seq<Seq<char>>) -> Seq<char>
    decreases keys.len(),
{
    if keys.len() == 0 {
        Seq::empty()
    } else {
        bullets(keys.drop_last()) + "- `"@ + short_label(keys.last()) + "`\n"@
    }
}

pub open spec fn bullet_list(heading: Seq<char>, keys: Seq<Seq<char>>) -> Seq<char> {
    if keys.len() == 0 {
        Seq::empty()
    } else {
        heading + bullets(keys) + "\n"@
    }
}

/// The section on cells that only one of two files has.
pub open spec fn unmatched_text(base_only: Seq<Seq<char>>, head_only: Seq<Seq<char>>) -> Seq<char> {
    if base_only.len() == 0 && head_only.len() == 0 {
        Seq::empty()
    } else {
        "### Unmatched Workload Cells\n\n"@ + bullet_list(
            "**Baseline Only Cells (missing in HEAD)**:\n"@,
            base_only,
        ) + bullet_list("**HEAD Only Cells (missing in Baseline)**:\n"@, head_only)
    }
}

fn push_bullets(out: &mut String, heading: &str, keys: &Vec<String>)
    ensures
        final(out)@ == old(out)@ + bullet_list(heading@, texts(keys@)),
{
    let ghost before = out@;
    let ghost all = texts(keys@);
    assert(all.len() == keys@.len());
    if keys.len() == 0 {
        assert(out@ =~= before + bullet_list(heading@, all));
        return;
    }
    out.append(heading);
    let ghost head = out@;
    let mut i: usize = 0;
    assert(all.take(0) =~= Seq::<Seq<char>>::empty());
    assert(head + bullets(all.take(0)) =~= head);
    while i < keys.len()
        invariant
            i <= keys@.len(),
            all == texts(keys@),
            out@ == head + bullets(all.take(i as int)),
        decreases keys@.len() - i,
    {
        let ghost so_far = out@;
        assert(all.take(i + 1).drop_last() =~= all.take(i as int));
        out.append("- `");
        out.append(format_short_cell_label(keys[i].as_str()).as_str());
        out.append("`\n");
        assert(out@ =~= head + bullets(all.take(i + 1)));
        i += 1;
    }
    assert(all.take(all.len() as int) =~= all);
    out.append("\n");
    assert(out@ =~= before + bullet_list(heading@, all));
}

/// The section on cells that only one of two files has; empty if there are none.
pub fn render_unmatched_section(base_only: &Vec<String>, head_only: &Vec<String>) -> (r: String)
    ensures
        r@ == unmatched_text(texts(base_only@), texts(head_only@)),
{
    assert(texts(base_only@).len() == base_only@.len());
    assert(texts(head_only@).len() == head_only@.len());
    if base_only.len() == 0 && head_only.len() == 0 {
        return String::new();
    }
    let mut out = "### Unmatched Workload Cells\n\n".to_owned();
    push_bullets(&mut out, "**Baseline Only Cells (missing in HEAD)**:\n", base_only);
    push_bullets(&mut out, "**HEAD Only Cells (missing in Baseline)**:\n", head_only);
    out
}

// ---------------------------------------------------------------------------
// Pairing
// ---------------------------------------------------------------------------

/// The repetition and attempt of a record.
pub open spec fn rep_label(record: Seq<(Seq<char>, Seq<char>)>) -> Seq<char> {
    or_else(field_in(record, "rep"@), "1"@) + " attempt="@ + or_else(
        field_in(record, "attempt"@),
        Seq::empty(),
    )
}

/// One repetition of a cell: its rows, as far as they are there.
#[derive(Debug)]
pub struct CellSlot {
    pub cell: String,
    pub rep: String,
    pub caller: Option<usize>,
    pub listener: Option<usize>,
}

/// What a slot says.
pub struct SlotText {
    pub cell: Seq<char>,
    pub rep: Seq<char>,
    pub caller: Option<usize>,
    pub listener: Option<usize>,
}

impl View for CellSlot {
    type V = SlotText;

    open spec fn view(&self) -> SlotText {
        SlotText {
            cell: self.cell@,
            rep: self.rep@,
            caller: self.caller,
            listener: self.listener,
        }
    }
}

/// Whether a record is the row of `role` in a slot.
pub open spec fn fills(
    record: Seq<(Seq<char>, Seq<char>)>,
    cell: Seq<char>,
    rep: Seq<char>,
    role: Seq<char>,
) -> bool {
    identity_text(record) == cell && rep_label(record) == rep && field_in(record, "role"@) == Some(
        role,
    )
}

/// The last of the first `n` records that is the row of `role` in a slot.
pub open spec fn last_fill(
    records: Seq<Seq<(Seq<char>, Seq<char>)>>,
    n: int,
    cell: Seq<char>,
    rep: Seq<char>,
    role: Seq<char>,
) -> Option<usize>
    decreases n,
{
    if n <= 0 {
        None
    } else if fills(records[n - 1], cell, rep, role) {
        Some((n - 1) as usize)
    } else {
        last_fill(records, n - 1, cell, rep, role)
    }
}

/// The slot of a repetition of a cell.
pub open spec fn slot_for(
    records: Seq<Seq<(Seq<char>, Seq<char>)>>,
    cell: Seq<char>,
    rep: Seq<char>,
) -> SlotText {
    SlotText {
        cell,
        rep,
        caller: last_fill(records, records.len() as int, cell, rep, "caller"@),
        listener: last_fill(records, records.len() as int, cell, rep, "listener"@),
    }
}

/// The repetition labels of the first `n` records that belong to a cell.
pub open spec fn labels_in(
    records: Seq<Seq<(Seq<char>, Seq<char>)>>,
    cell: Seq<char>,
    n: int,
) -> Seq<Seq<char>>
    decreases n,
{
    if n <= 0 {
        Seq::empty()
    } else if identity_text(records[n - 1]) == cell {
        labels_in(records, cell, n - 1).push(rep_label(records[n - 1]))
    } else {
        labels_in(records, cell, n - 1)
    }
}

/// The cells of all records, each once, in ascending order.
pub open spec fn cells_in(records: Seq<Seq<(Seq<char>, Seq<char>)>>) -> Seq<Seq<char>> {
    sorted_texts(
        distinct(records.map_values(|r: Seq<(Seq<char>, Seq<char>)>| identity_text(r))),
    )
}

/// The repetitions of a cell, each once, in ascending order.
pub open spec fn reps_in(
    records: Seq<Seq<(Seq<char>, Seq<char>)>>,
    cell: Seq<char>,
) -> Seq<Seq<char>> {
    sorted_texts(distinct(labels_in(records, cell, records.len() as int)))
}

/// The slots of the first `n` repetitions of a cell.
pub open spec fn cell_slots(
    records: Seq<Seq<(Seq<char>, Seq<char>)>>,
    cell: Seq<char>,
    reps: Seq<Seq<char>>,
    n: int,
) -> Seq<SlotText>
    decreases n,
{
    if n <= 0 {
        Seq::empty()
    } else {
        cell_slots(records, cell, reps, n - 1).push(slot_for(records, cell, reps[n - 1]))
    }
}

/// The slots of the first `n` cells.
pub open spec fn all_slots(
    records: Seq<Seq<(Seq<char>, Seq<char>)>>,
    cells: Seq<Seq<char>>,
    n: int,
) -> Seq<SlotText>
    decreases n,
{
    if n <= 0 {
        Seq::empty()
    } else {
        all_slots(records, cells, n - 1) + slots_in(records, cells[n - 1])
    }
}

/// Every repetition of every cell, in ascending order.
pub open spec fn grouped(records: Seq<Seq<(Seq<char>, Seq<char>)>>) -> Seq<SlotText> {
    all_slots(records, cells_in(records), cells_in(records).len() as int)
}

/// Whether a slot's rows are among the first `n`.
pub open spec fn rows_exist(slot: CellSlot, n: nat) -> bool {
    (slot.caller is Some ==> slot.caller->0 < n) && (slot.listener is Some ==> slot.listener->0
        < n)
}

pub open spec fn slots_view(slots: Seq<CellSlot>) -> Seq<SlotText> {
    slots.map_values(|s: CellSlot| s@)
}

fn label_of(record: &Record) -> (r: String)
    ensures
        r@ == rep_label(record@),
{
    let mut out = record.get_or("rep", "1");
    out.append(" attempt=");
    if let Some(attempt) = record.get("attempt") {
        out.append(attempt);
    }
    assert(out@ =~= rep_label(record@));
    out
}

fn find_fill(
    records: &Vec<Record>,
    index: &RecordIndex,
    cell: &str,
    rep: &str,
    role: &str,
) -> (r: Option<usize>)
    requires
        index.covers(records@),
    ensures
        r == last_fill(all_records(records@), records@.len() as int, cell@, rep@, role@),
        r is Some ==> r->0 < records@.len(),
{
    let ghost all = all_records(records@);
    let ghost goal = last_fill(all, records@.len() as int, cell@, rep@, role@);
    let mut n: usize = records.len();
    while n > 0
        invariant
            n <= records@.len(),
            all == all_records(records@),
            index.covers(records@),
            goal == last_fill(all, records@.len() as int, cell@, rep@, role@),
            last_fill(all, n as int, cell@, rep@, role@) == goal,
        decreases n,
    {
        assert(all[n - 1] == records@[n - 1]@);
        assert(index.keys@[n - 1]@ == identity_text(records@[n - 1]@));
        assert(index.labels@[n - 1]@ == rep_label(records@[n - 1]@));
        if same(index.keys[n - 1].as_str(), cell) && same(index.labels[n - 1].as_str(), rep)
            && records[n - 1].has("role", role) {
            return Some(n - 1);
        }
        n -= 1;
    }
    None
}

fn push_distinct(list: &mut Vec<String>, s: &str)
    ensures
        texts(final(list)@) == if texts(old(list)@).contains(s@) {
            texts(old(list)@)
        } else {
            texts(old(list)@).push(s@)
        },
{
    if !contains_text(list, s) {
        let copy = s.to_owned();
        proof {
            lemma_texts_push(list@, copy);
        }
        list.push(copy);
    }
}

/// The cell and the repetition of every record.
struct RecordIndex {
    keys: Vec<String>,
    labels: Vec<String>,
}

impl RecordIndex {
    spec fn covers(&self, records: Seq<Record>) -> bool {
        &&& self.keys@.len() == records.len()
        &&& self.labels@.len() == records.len()
        &&& forall|i: int|
            0 <= i < records.len() ==> (#[trigger] self.keys@[i])@ == identity_text(records[i]@)
        &&& forall|i: int|
            0 <= i < records.len() ==> (#[trigger] self.labels@[i])@ == rep_label(records[i]@)
    }
}

fn index_records(records: &Vec<Record>) -> (r: (RecordIndex, Vec<String>))
    ensures
        r.0.covers(records@),
        texts(r.1@) == cells_in(all_records(records@)),
{
    let ghost all = all_records(records@);
    let ghost named = all.map_values(|r: Seq<(Seq<char>, Seq<char>)>| identity_text(r));
    let mut keys: Vec<String> = Vec::new();
    let mut labels: Vec<String> = Vec::new();
    let mut cells: Vec<String> = Vec::new();
    let mut i: usize = 0;
    assert(texts(cells@) =~= distinct(named.take(0)));
    while i < records.len()
        invariant
            i <= records@.len(),
            all == all_records(records@),
            named == all.map_values(|r: Seq<(Seq<char>, Seq<char>)>| identity_text(r)),
            keys@.len() == i,
            labels@.len() == i,
            forall|j: int| 0 <= j < i ==> (#[trigger] keys@[j])@ == identity_text(records@[j]@),
            forall|j: int| 0 <= j < i ==> (#[trigger] labels@[j])@ == rep_label(records@[j]@),
            texts(cells@) == distinct(named.take(i as int)),
        decreases records@.len() - i,
    {
        assert(all[i as int] == records@[i as int]@);
        let key = cell_key(&records[i]);
        assert(named.take(i + 1).drop_last() =~= named.take(i as int));
        assert(named[i as int] == key@);
        push_distinct(&mut cells, key.as_str());
        keys.push(key);
        labels.push(label_of(&records[i]));
        i += 1;
    }
    assert(named.take(named.len() as int) =~= named);
    (RecordIndex { keys, labels }, sort(cells))
}

/// The slots of one cell, in ascending order of repetition.
pub open spec fn slots_in(
    records: Seq<Seq<(Seq<char>, Seq<char>)>>,
    cell: Seq<char>,
) -> Seq<SlotText> {
    cell_slots(records, cell, reps_in(records, cell), reps_in(records, cell).len() as int)
}

fn slots_of_cell(records: &Vec<Record>, index: &RecordIndex, cell: &str) -> (r: Vec<CellSlot>)
    requires
        index.covers(records@),
    ensures
        slots_view(r@) == slots_in(all_records(records@), cell@),
        forall|i: int| 0 <= i < r@.len() ==> rows_exist(#[trigger] r@[i], records@.len()),
{
    let ghost all = all_records(records@);
    let mut reps: Vec<String> = Vec::new();
    let mut i: usize = 0;
    assert(texts(reps@) =~= distinct(labels_in(all, cell@, 0)));
    while i < records.len()
        invariant
            i <= records@.len(),
            all == all_records(records@),
            index.covers(records@),
            texts(reps@) == distinct(labels_in(all, cell@, i as int)),
        decreases records@.len() - i,
    {
        assert(all[i as int] == records@[i as int]@);
        assert(index.keys@[i as int]@ == identity_text(records@[i as int]@));
        assert(index.labels@[i as int]@ == rep_label(records@[i as int]@));
        if same(index.keys[i].as_str(), cell) {
            let ghost before = labels_in(all, cell@, i as int);
            assert(before.push(index.labels@[i as int]@).drop_last() =~= before);
            push_distinct(&mut reps, index.labels[i].as_str());
        }
        i += 1;
    }
    let reps = sort(reps);
    let ghost ranks = reps_in(all, cell@);
    assert(all.len() == records@.len());
    assert(texts(reps@) == ranks);
    let mut slots: Vec<CellSlot> = Vec::new();
    let mut k: usize = 0;
    assert(slots_view(slots@) =~= cell_slots(all, cell@, ranks, 0));
    while k < reps.len()
        invariant
            k <= reps@.len(),
            all == all_records(records@),
            all.len() == records@.len(),
            index.covers(records@),
            texts(reps@) == ranks,
            slots_view(slots@) == cell_slots(all, cell@, ranks, k as int),
            forall|i: int| 0 <= i < slots@.len() ==> rows_exist(#[trigger] slots@[i], records@.len()),
        decreases reps@.len() - k,
    {
        let rep = reps[k].as_str();
        assert(ranks[k as int] == rep@);
        let slot = CellSlot {
            cell: cell.to_owned(),
            rep: rep.to_owned(),
            caller: find_fill(records, index, cell, rep, "caller"),
            listener: find_fill(records, index, cell, rep, "listener"),
        };
        proof {
            assert(slot@ == slot_for(all, cell@, rep@));
            assert(slots_view(slots@.push(slot)) =~= slots_view(slots@).push(slot@));
        }
        slots.push(slot);
        k += 1;
    }
    assert(ranks.len() == reps@.len());
    slots
}

/// Every repetition of every cell, in ascending order, with the last row of each role
/// in it. Rows of different attempts never share a slot.
pub fn group_records_by_cell(records: &Vec<Record>) -> (r: Vec<CellSlot>)
    ensures
        slots_view(r@) == grouped(all_records(records@)),
        forall|i: int| 0 <= i < r@.len() ==> rows_exist(#[trigger] r@[i], records@.len()),
{
    let ghost all = all_records(records@);
    let (index, cells) = index_records(records);
    let ghost order = cells_in(all);
    let mut slots: Vec<CellSlot> = Vec::new();
    let mut c: usize = 0;
    assert(slots_view(slots@) =~= all_slots(all, order, 0));
    while c < cells.len()
        invariant
            c <= cells@.len(),
            all == all_records(records@),
            order == cells_in(all),
            texts(cells@) == order,
            index.covers(records@),
            slots_view(slots@) == all_slots(all, order, c as int),
            forall|i: int| 0 <= i < slots@.len() ==> rows_exist(#[trigger] slots@[i], records@.len()),
        decreases cells@.len() - c,
    {
        assert(order[c as int] == cells@[c as int]@);
        let mut more = slots_of_cell(records, &index, cells[c].as_str());
        let ghost before = slots@;
        let ghost added = more@;
        slots.append(&mut more);
        assert forall|i: int| 0 <= i < slots@.len() implies rows_exist(
            #[trigger] slots@[i],
            records@.len(),
        ) by {
            if i < before.len() {
                assert(slots@[i] == before[i]);
            } else {
                assert(slots@[i] == added[i - before.len()]);
            }
        }
        assert(slots_view(before + added) =~= slots_view(before) + slots_view(added));
        c += 1;
    }
    assert(order.len() == cells@.len());
    slots
}

proof fn lemma_last_fill(
    records: Seq<Seq<(Seq<char>, Seq<char>)>>,
    n: int,
    cell: Seq<char>,
    rep: Seq<char>,
    role: Seq<char>,
)
    requires
        0 <= n <= records.len(),
        records.len() <= usize::MAX,
    ensures
        match last_fill(records, n, cell, rep, role) {
            Some(i) => i < n && fills(records[i as int], cell, rep, role),
            None => true,
        },
    decreases n,
{
    if n > 0 {
        lemma_last_fill(records, n - 1, cell, rep, role);
    }
}

/// Rows of different attempts are never paired: both rows of a slot belong to the
/// same cell, repetition and attempt, one of each role.
pub proof fn slots_hold_one_attempt(
    records: Seq<Seq<(Seq<char>, Seq<char>)>>,
    cell: Seq<char>,
    rep: Seq<char>,
)
    requires
        records.len() <= usize::MAX,
    ensures
        ({
            let slot = slot_for(records, cell, rep);
            &&& slot.caller is Some ==> fills(
                records[slot.caller->0 as int],
                cell,
                rep,
                "caller"@,
            )
            &&& slot.listener is Some ==> fills(
                records[slot.listener->0 as int],
                cell,
                rep,
                "listener"@,
            )
            &&& slot.caller is Some && slot.listener is Some ==> rep_label(
                records[slot.caller->0 as int],
            ) == rep_label(records[slot.listener->0 as int])
        }),
{
    lemma_last_fill(records, records.len() as int, cell, rep, "caller"@);
    lemma_last_fill(records, records.len() as int, cell, rep, "listener"@);
}

// ---------------------------------------------------------------------------
// What a pair is computed from
// ---------------------------------------------------------------------------

/// The text of a column that holds a number.
pub open spec fn number_in(record: Seq<(Seq<char>, Seq<char>)>, column: Seq<char>) -> Option<
    Seq<char>,
> {
    match field_in(record, column) {
        Some(v) => if is_float_text(v) {
            Some(v)
        } else {
            None
        },
        None => None,
    }
}

/// The text of a column that holds a number.
pub fn number_of(record: &Record, column: &str) -> (r: Option<String>)
    ensures
        given(r) == number_in(record@, column@),
{
    match record.get(column) {
        Some(v) => if float_text(v) {
            Some(v.to_owned())
        } else {
            None
        },
        None => None,
    }
}

/// A number that the listener recorded, or else the caller.
pub open spec fn either_number(
    caller: Seq<(Seq<char>, Seq<char>)>,
    listener: Seq<(Seq<char>, Seq<char>)>,
    column: Seq<char>,
) -> Option<Seq<char>> {
    first_given(number_in(listener, column), number_in(caller, column))
}

fn number_of_either(caller: &Record, listener: &Record, column: &str) -> (r: Option<String>)
    ensures
        given(r) == either_number(caller@, listener@, column@),
{
    match number_of(listener, column) {
        Some(v) => Some(v),
        None => number_of(caller, column),
    }
}

/// Whether the figures of a pair can be computed: its size, rate and length are
/// recorded on either side.
pub open spec fn measurable(
    caller: Seq<(Seq<char>, Seq<char>)>,
    listener: Seq<(Seq<char>, Seq<char>)>,
) -> bool {
    &&& either_number(caller, listener, "conns"@) is Some
    &&& either_number(caller, listener, "source_bps"@) is Some
    &&& either_number(caller, listener, "secs"@) is Some
}

/// How big the pair's workload was. Physical connections, application streams and
/// payload sources are counted apart: the legs of a bonded group carry one stream
/// from one source.
#[derive(Debug)]
pub struct PairWorkload {
    pub conns: String,
    pub source_bps: String,
    pub secs: String,
    /// The number of connections stands in where this is not positive.
    pub logical_streams: Option<String>,
    /// The number of logical streams stands in where this is not positive.
    pub source_streams: Option<String>,
}

/// What the pair established and carried, and what it took; absent is zero.
#[derive(Debug)]
pub struct PairTraffic {
    pub caller_established: Option<String>,
    pub listener_established: Option<String>,
    pub torn_c: Option<String>,
    pub torn_l: Option<String>,
    pub sent_pkts: Option<String>,
    pub recv_pkts: Option<String>,
    pub caller_cpu_user_ms: Option<String>,
    pub caller_cpu_sys_ms: Option<String>,
    pub listener_cpu_user_ms: Option<String>,
    pub listener_cpu_sys_ms: Option<String>,
    pub caller_peak_rss_kb: Option<String>,
    pub listener_peak_rss_kb: Option<String>,
    pub rtt_ms: Option<String>,
}

/// What the pair lost on the way; absent is zero.
#[derive(Debug)]
pub struct PairLosses {
    pub caller_retransmits: Option<String>,
    pub caller_loss_list: Option<String>,
    pub listener_lost: Option<String>,
    pub listener_duplicates: Option<String>,
    pub caller_udp_rcvbuf_err: Option<String>,
    pub listener_udp_rcvbuf_err: Option<String>,
    pub source_overflow: Option<String>,
    pub source_backlog_hwm: Option<String>,
    pub source_backlog_cap: Option<String>,
    pub caller_queue_dropped: Option<String>,
    pub listener_queue_dropped: Option<String>,
    pub caller_local_dropped: Option<String>,
    pub listener_local_dropped: Option<String>,
}

/// What the figures of a pair are computed from.
#[derive(Debug)]
pub struct PairInputs {
    pub workload: PairWorkload,
    pub traffic: PairTraffic,
    pub losses: PairLosses,
}

/// Whether a workload is that of a pair.
pub open spec fn is_workload(
    w: PairWorkload,
    caller: Seq<(Seq<char>, Seq<char>)>,
    listener: Seq<(Seq<char>, Seq<char>)>,
) -> bool {
    &&& either_number(caller, listener, "conns"@) == Some(w.conns@)
    &&& either_number(caller, listener, "source_bps"@) == Some(w.source_bps@)
    &&& either_number(caller, listener, "secs"@) == Some(w.secs@)
    &&& given(w.logical_streams) == either_number(caller, listener, "logical_streams"@)
    &&& given(w.source_streams) == number_in(caller, "source_streams"@)
}

/// Whether these are the numbers of a pair, each from the row that has it.
pub open spec fn is_traffic(
    x: PairTraffic,
    caller: Seq<(Seq<char>, Seq<char>)>,
    listener: Seq<(Seq<char>, Seq<char>)>,
) -> bool {
    &&& given(x.caller_established) == number_in(caller, "established"@)
    &&& given(x.listener_established) == number_in(listener, "established"@)
    &&& given(x.torn_c) == number_in(caller, "torn_down"@)
    &&& given(x.torn_l) == number_in(listener, "torn_down"@)
    &&& given(x.sent_pkts) == number_in(caller, "core_total"@)
    &&& given(x.recv_pkts) == number_in(listener, "core_total"@)
    &&& given(x.caller_cpu_user_ms) == number_in(caller, "cpu_user_ms"@)
    &&& given(x.caller_cpu_sys_ms) == number_in(caller, "cpu_sys_ms"@)
    &&& given(x.listener_cpu_user_ms) == number_in(listener, "cpu_user_ms"@)
    &&& given(x.listener_cpu_sys_ms) == number_in(listener, "cpu_sys_ms"@)
    &&& given(x.caller_peak_rss_kb) == number_in(caller, "peak_rss_kb"@)
    &&& given(x.listener_peak_rss_kb) == number_in(listener, "peak_rss_kb"@)
    &&& given(x.rtt_ms) == number_in(listener, "rtt_ms"@)
}

/// Whether these are the numbers of a pair, each from the row that has it.
pub open spec fn are_losses(
    x: PairLosses,
    caller: Seq<(Seq<char>, Seq<char>)>,
    listener: Seq<(Seq<char>, Seq<char>)>,
) -> bool {
    &&& given(x.caller_retransmits) == number_in(caller, "sec_a"@)
    &&& given(x.caller_loss_list) == number_in(caller, "sec_b"@)
    &&& given(x.listener_lost) == number_in(listener, "sec_a"@)
    &&& given(x.listener_duplicates) == number_in(listener, "sec_b"@)
    &&& given(x.caller_udp_rcvbuf_err) == number_in(caller, "udp_rcvbuf_err"@)
    &&& given(x.listener_udp_rcvbuf_err) == number_in(listener, "udp_rcvbuf_err"@)
    &&& given(x.source_overflow) == number_in(caller, "src_overflow"@)
    &&& given(x.source_backlog_hwm) == number_in(caller, "src_backlog_hwm"@)
    &&& given(x.source_backlog_cap) == number_in(caller, "src_backlog_cap"@)
    &&& given(x.caller_queue_dropped) == number_in(caller, "datapath_q_dropped"@)
    &&& given(x.listener_queue_dropped) == number_in(listener, "datapath_q_dropped"@)
    &&& given(x.caller_local_dropped) == number_in(caller, "local_dropped"@)
    &&& given(x.listener_local_dropped) == number_in(listener, "local_dropped"@)
}

fn pair_traffic(caller: &Record, listener: &Record) -> (r: PairTraffic)
    ensures
        is_traffic(r, caller@, listener@),
{
    PairTraffic {
        caller_established: number_of(caller, "established"),
        listener_established: number_of(listener, "established"),
        torn_c: number_of(caller, "torn_down"),
        torn_l: number_of(listener, "torn_down"),
        sent_pkts: number_of(caller, "core_total"),
        recv_pkts: number_of(listener, "core_total"),
        caller_cpu_user_ms: number_of(caller, "cpu_user_ms"),
        caller_cpu_sys_ms: number_of(caller, "cpu_sys_ms"),
        listener_cpu_user_ms: number_of(listener, "cpu_user_ms"),
        listener_cpu_sys_ms: number_of(listener, "cpu_sys_ms"),
        caller_peak_rss_kb: number_of(caller, "peak_rss_kb"),
        listener_peak_rss_kb: number_of(listener, "peak_rss_kb"),
        rtt_ms: number_of(listener, "rtt_ms"),
    }
}

fn pair_losses(caller: &Record, listener: &Record) -> (r: PairLosses)
    ensures
        are_losses(r, caller@, listener@),
{
    PairLosses {
        caller_retransmits: number_of(caller, "sec_a"),
        caller_loss_list: number_of(caller, "sec_b"),
        listener_lost: number_of(listener, "sec_a"),
        listener_duplicates: number_of(listener, "sec_b"),
        caller_udp_rcvbuf_err: number_of(caller, "udp_rcvbuf_err"),
        listener_udp_rcvbuf_err: number_of(listener, "udp_rcvbuf_err"),
        source_overflow: number_of(caller, "src_overflow"),
        source_backlog_hwm: number_of(caller, "src_backlog_hwm"),
        source_backlog_cap: number_of(caller, "src_backlog_cap"),
        caller_queue_dropped: number_of(caller, "datapath_q_dropped"),
        listener_queue_dropped: number_of(listener, "datapath_q_dropped"),
        caller_local_dropped: number_of(caller, "local_dropped"),
        listener_local_dropped: number_of(listener, "local_dropped"),
    }
}

/// Reads what the figures of a pair are computed from; nothing where they cannot be
/// computed.
pub fn pair_inputs(caller: &Record, listener: &Record) -> (r: Option<PairInputs>)
    ensures
        (r is Some) == measurable(caller@, listener@),
        match r {
            Some(p) => is_workload(p.workload, caller@, listener@) && is_traffic(
                p.traffic,
                caller@,
                listener@,
            ) && are_losses(p.losses, caller@, listener@),
            None => true,
        },
{
    let conns = match number_of_either(caller, listener, "conns") {
        Some(v) => v,
        None => return None,
    };
    let source_bps = match number_of_either(caller, listener, "source_bps") {
        Some(v) => v,
        None => return None,
    };
    let secs = match number_of_either(caller, listener, "secs") {
        Some(v) => v,
        None => return None,
    };
    Some(
        PairInputs {
            workload: PairWorkload {
                conns,
                source_bps,
                secs,
                logical_streams: number_of_either(caller, listener, "logical_streams"),
                source_streams: number_of(caller, "source_streams"),
            },
            traffic: pair_traffic(caller, listener),
            losses: pair_losses(caller, listener),
        },
    )
}

// ---------------------------------------------------------------------------
// Summaries
// ---------------------------------------------------------------------------

/// The runs of a cell that a summary is made from.
#[derive(Debug)]
pub struct CellRuns {
    pub key: String,
    /// The rows of caller and listener of every pair that can be computed.
    pub pairs: Vec<(usize, usize)>,
    /// How many repetitions are not such a pair.
    pub incomplete_reps: usize,
    /// A row to describe the cell by where there is no pair.
    pub sample: Option<usize>,
}

/// Whether a slot is a pair that can be computed.
pub open spec fn is_pair(slot: SlotText, records: Seq<Seq<(Seq<char>, Seq<char>)>>) -> bool {
    slot.caller is Some && slot.listener is Some && measurable(
        records[slot.caller->0 as int],
        records[slot.listener->0 as int],
    )
}

/// The rows of every slot that is a pair.
pub open spec fn pairs_in(
    slots: Seq<SlotText>,
    records: Seq<Seq<(Seq<char>, Seq<char>)>>,
    n: int,
) -> Seq<(usize, usize)>
    decreases n,
{
    if n <= 0 {
        Seq::empty()
    } else if is_pair(slots[n - 1], records) {
        pairs_in(slots, records, n - 1).push((slots[n - 1].caller->0, slots[n - 1].listener->0))
    } else {
        pairs_in(slots, records, n - 1)
    }
}

/// The caller's row of the first slot with any row, or else the listener's.
pub open spec fn sample_in(slots: Seq<SlotText>, n: int) -> Option<usize>
    decreases n,
{
    if n <= 0 {
        None
    } else {
        let before = sample_in(slots, n - 1);
        if before is Some {
            before
        } else if slots[n - 1].caller is Some {
            slots[n - 1].caller
        } else {
            slots[n - 1].listener
        }
    }
}

/// Whether these are the runs of a cell.
pub open spec fn is_summary(
    runs: CellRuns,
    records: Seq<Seq<(Seq<char>, Seq<char>)>>,
    cell: Seq<char>,
) -> bool {
    let slots = slots_in(records, cell);
    let pairs = pairs_in(slots, records, slots.len() as int);
    &&& runs.key@ == cell
    &&& runs.pairs@ == pairs
    &&& runs.incomplete_reps == slots.len() - pairs.len()
    &&& runs.sample == sample_in(slots, slots.len() as int)
}

/// Whether anything is known of a cell: a row with a role.
pub open spec fn is_known_cell(
    records: Seq<Seq<(Seq<char>, Seq<char>)>>,
    cell: Seq<char>,
) -> bool {
    sample_in(slots_in(records, cell), slots_in(records, cell).len() as int) is Some
}

/// The first `n` cells of which anything is known.
pub open spec fn known_cells(
    records: Seq<Seq<(Seq<char>, Seq<char>)>>,
    cells: Seq<Seq<char>>,
    n: int,
) -> Seq<Seq<char>>
    decreases n,
{
    if n <= 0 {
        Seq::empty()
    } else if is_known_cell(records, cells[n - 1]) {
        known_cells(records, cells, n - 1).push(cells[n - 1])
    } else {
        known_cells(records, cells, n - 1)
    }
}

/// The cells of a file that get a summary, in ascending order.
pub open spec fn summarized_cells(records: Seq<Seq<(Seq<char>, Seq<char>)>>) -> Seq<Seq<char>> {
    known_cells(records, cells_in(records), cells_in(records).len() as int)
}

proof fn lemma_slot_rows(
    records: Seq<Seq<(Seq<char>, Seq<char>)>>,
    cell: Seq<char>,
    reps: Seq<Seq<char>>,
    n: int,
    i: int,
)
    requires
        records.len() <= usize::MAX,
        0 <= i < n,
    ensures
        cell_slots(records, cell, reps, n).len() == n,
        cell_slots(records, cell, reps, n)[i] == slot_for(records, cell, reps[i]),
        match cell_slots(records, cell, reps, n)[i].caller {
            Some(k) => k < records.len(),
            None => true,
        },
        match cell_slots(records, cell, reps, n)[i].listener {
            Some(k) => k < records.len(),
            None => true,
        },
    decreases n,
{
    lemma_slot_count(records, cell, reps, n - 1);
    if i < n - 1 {
        lemma_slot_rows(records, cell, reps, n - 1, i);
    } else {
        lemma_last_fill(records, records.len() as int, cell, reps[i], "caller"@);
        lemma_last_fill(records, records.len() as int, cell, reps[i], "listener"@);
    }
}

proof fn lemma_slot_count(
    records: Seq<Seq<(Seq<char>, Seq<char>)>>,
    cell: Seq<char>,
    reps: Seq<Seq<char>>,
    n: int,
)
    requires
        n >= 0,
    ensures
        cell_slots(records, cell, reps, n).len() == n,
    decreases n,
{
    if n > 0 {
        lemma_slot_count(records, cell, reps, n - 1);
    }
}

proof fn lemma_pairs_need_rows(
    slots: Seq<SlotText>,
    records: Seq<Seq<(Seq<char>, Seq<char>)>>,
    n: int,
)
    ensures
        pairs_in(slots, records, n).len() > 0 ==> sample_in(slots, n) is Some,
    decreases n,
{
    if n > 0 {
        lemma_pairs_need_rows(slots, records, n - 1);
    }
}

fn runs_of_cell(records: &Vec<Record>, index: &RecordIndex, cell: &str) -> (r: CellRuns)
    requires
        index.covers(records@),
    ensures
        is_summary(r, all_records(records@), cell@),
{
    let ghost all = all_records(records@);
    let slots = slots_of_cell(records, index, cell);
    let count: usize = records.len();
    let ghost view = slots_in(all, cell@);
    assert(all.len() == records@.len());
    assert(view.len() == slots@.len());
    let mut pairs: Vec<(usize, usize)> = Vec::new();
    let mut incomplete_reps: usize = 0;
    let mut sample: Option<usize> = None;
    let mut i: usize = 0;
    while i < slots.len()
        invariant
            i <= slots@.len(),
            all == all_records(records@),
            all.len() == records@.len() == count,
            view == slots_in(all, cell@),
            slots_view(slots@) == view,
            pairs@ == pairs_in(view, all, i as int),
            incomplete_reps + pairs@.len() == i,
            sample == sample_in(view, i as int),
        decreases slots@.len() - i,
    {
        proof {
            assert(view[i as int] == slots@[i as int]@);
            let reps = reps_in(all, cell@);
            lemma_slot_count(all, cell@, reps, reps.len() as int);
            lemma_slot_rows(all, cell@, reps, reps.len() as int, i as int);
        }
        if sample.is_none() {
            sample = if slots[i].caller.is_some() {
                slots[i].caller
            } else {
                slots[i].listener
            };
        }
        let mut complete = false;
        if let Some(c) = slots[i].caller {
            if let Some(l) = slots[i].listener {
                assert(all[c as int] == records@[c as int]@);
                assert(all[l as int] == records@[l as int]@);
                if pair_inputs(&records[c], &records[l]).is_some() {
                    pairs.push((c, l));
                    complete = true;
                }
            }
        }
        if !complete {
            incomplete_reps += 1;
        }
        i += 1;
    }
    CellRuns { key: cell.to_owned(), pairs, incomplete_reps, sample }
}

/// The runs of every cell of which anything is known, in ascending order.
pub fn summarize_cells(records: &Vec<Record>) -> (r: Vec<CellRuns>)
    ensures
        r@.len() == summarized_cells(all_records(records@)).len(),
        forall|i: int|
            0 <= i < r@.len() ==> is_summary(
                #[trigger] r@[i],
                all_records(records@),
                summarized_cells(all_records(records@))[i],
            ),
{
    let ghost all = all_records(records@);
    let (index, cells) = index_records(records);
    let ghost order = cells_in(all);
    let mut out: Vec<CellRuns> = Vec::new();
    let mut c: usize = 0;
    while c < cells.len()
        invariant
            c <= cells@.len(),
            all == all_records(records@),
            order == cells_in(all),
            texts(cells@) == order,
            index.covers(records@),
            out@.len() == known_cells(all, order, c as int).len(),
            forall|i: int|
                0 <= i < out@.len() ==> is_summary(
                    #[trigger] out@[i],
                    all,
                    known_cells(all, order, c as int)[i],
                ),
        decreases cells@.len() - c,
    {
        assert(order[c as int] == cells@[c as int]@);
        let runs = runs_of_cell(records, &index, cells[c].as_str());
        if runs.sample.is_some() {
            out.push(runs);
        }
        c += 1;
    }
    assert(order.len() == cells@.len());
    out
}

/// A cell without a summary has no pair: nothing measured is left out.
pub proof fn every_pair_is_summarized(
    records: Seq<Seq<(Seq<char>, Seq<char>)>>,
    cell: Seq<char>,
)
    requires
        !is_known_cell(records, cell),
    ensures
        pairs_in(
            slots_in(records, cell),
            records,
            slots_in(records, cell).len() as int,
        ).len() == 0,
{
    lemma_pairs_need_rows(slots_in(records, cell), records, slots_in(records, cell).len() as int);
}

// ---------------------------------------------------------------------------
// The clean predicate
// ---------------------------------------------------------------------------

/// The figures of a pair, rendered.
#[derive(Debug)]
pub struct PairFigures {
    pub conns: String,
    pub caller_established: String,
    pub logical_streams: String,
    pub listener_established: String,
    pub torn_c: String,
    pub torn_l: String,
    pub offer_pct: String,
    pub good_pct: String,
    pub deliv_pct: String,
    pub caller_udp_rcvbuf_err: String,
    pub listener_udp_rcvbuf_err: String,
    pub source_overflow: String,
    pub datapath_queue_overflow: String,
    pub outbound_retry_loss: String,
}

/// Which of the clean criteria a pair fails.
#[derive(Clone, Copy, PartialEq, Eq, Debug, Structural)]
pub struct PairFindings {
    /// There is no connection.
    pub no_connections: bool,
    /// The caller did not establish every physical leg.
    pub caller_partial: bool,
    /// The listener did not admit every logical stream.
    pub listener_partial: bool,
    pub caller_torn: bool,
    pub listener_torn: bool,
    /// Under 99 percent of the source target was sent.
    pub offer_low: bool,
    /// Under 99 percent of the source target arrived.
    pub good_low: bool,
    /// Under 99.9 percent of what was sent arrived.
    pub delivery_low: bool,
    pub caller_rcvbuf: bool,
    pub listener_rcvbuf: bool,
    pub source_overflowed: bool,
    pub queue_dropped: bool,
    pub retry_lost: bool,
}

pub open spec fn said(b: bool, text: Seq<char>) -> Seq<Seq<char>> {
    if b {
        seq![text]
    } else {
        Seq::empty()
    }
}

/// What is wrong with the connections of a pair.
pub open spec fn establishment_texts(f: PairFindings, g: PairFigures) -> Seq<Seq<char>> {
    said(f.no_connections, "physical connection count is zero ("@ + g.conns@ + ")"@)
        + said(f.caller_partial, "caller established "@ + g.caller_established@ + "/"@ + g.conns@)
        + said(f.listener_partial, "listener established "@ + g.listener_established@ + "/"@ + g.logical_streams@)
        + said(f.caller_torn, "caller torn down "@ + g.torn_c@)
        + said(f.listener_torn, "listener torn down "@ + g.torn_l@)
}

/// What is wrong with what flowed.
pub open spec fn flow_texts(f: PairFindings, g: PairFigures) -> Seq<Seq<char>> {
    said(f.offer_low, "source offer "@ + g.offer_pct@ + "% < 99.0%"@)
        + said(f.good_low, "source goodput "@ + g.good_pct@ + "% < 99.0%"@)
        + said(f.delivery_low, "delivery "@ + g.deliv_pct@ + "% < 99.9%"@)
}

/// What was lost on the way.
pub open spec fn drop_texts(f: PairFindings, g: PairFigures) -> Seq<Seq<char>> {
    said(f.caller_rcvbuf, "caller UDP rcvbuf errors "@ + g.caller_udp_rcvbuf_err@)
        + said(f.listener_rcvbuf, "listener UDP rcvbuf errors "@ + g.listener_udp_rcvbuf_err@)
        + said(f.source_overflowed, "source overflow "@ + g.source_overflow@)
        + said(f.queue_dropped, "datapath queue dropped "@ + g.datapath_queue_overflow@)
        + said(f.retry_lost, "outbound retry loss "@ + g.outbound_retry_loss@)
}

/// Why a pair is not clean, in the order in which it is said.
pub open spec fn unclean_texts(f: PairFindings, g: PairFigures) -> Seq<Seq<char>> {
    establishment_texts(f, g) + flow_texts(f, g) + drop_texts(f, g)
}

fn say_if(reasons: &mut Vec<String>, b: bool, before: &str, value: &str, after: &str)
    ensures
        texts(final(reasons)@) == texts(old(reasons)@) + said(b, before@ + value@ + after@),
{
    let ghost start = texts(reasons@);
    if b {
        let text = concat3(before, value, after);
        proof {
            lemma_texts_push(reasons@, text);
        }
        reasons.push(text);
    }
    assert(texts(reasons@) =~= start + said(b, before@ + value@ + after@));
}

fn say(reasons: &mut Vec<String>, b: bool, before: &str, value: &str)
    ensures
        texts(final(reasons)@) == texts(old(reasons)@) + said(b, before@ + value@),
{
    let ghost start = texts(reasons@);
    if b {
        let mut text = before.to_owned();
        text.append(value);
        proof {
            lemma_texts_push(reasons@, text);
        }
        reasons.push(text);
    }
    assert(texts(reasons@) =~= start + said(b, before@ + value@));
}

fn say_ratio_if(reasons: &mut Vec<String>, b: bool, before: &str, part: &str, whole: &str)
    ensures
        texts(final(reasons)@) == texts(old(reasons)@) + said(
            b,
            before@ + part@ + "/"@ + whole@,
        ),
{
    let ghost start = texts(reasons@);
    if b {
        let mut text = concat3(before, part, "/");
        text.append(whole);
        proof {
            lemma_texts_push(reasons@, text);
        }
        reasons.push(text);
    }
    assert(texts(reasons@) =~= start + said(b, before@ + part@ + "/"@ + whole@));
}

impl PairFindings {
    /// Whether no criterion is failed.
    pub open spec fn clean(self) -> bool {
        !self.no_connections
            && !self.caller_partial
            && !self.listener_partial
            && !self.caller_torn
            && !self.listener_torn
            && !self.offer_low
            && !self.good_low
            && !self.delivery_low
            && !self.caller_rcvbuf
            && !self.listener_rcvbuf
            && !self.source_overflowed
            && !self.queue_dropped
            && !self.retry_lost
    }

    /// Why a pair is not clean.
    #[must_use]
    pub fn unclean_reasons(&self, g: &PairFigures) -> (r: Vec<String>)
        ensures
            texts(r@) == unclean_texts(*self, *g),
            (r@.len() == 0) == self.clean(),
    {
        let mut reasons: Vec<String> = Vec::new();
        self.say_establishment(g, &mut reasons);
        self.say_flow(g, &mut reasons);
        self.say_drops(g, &mut reasons);
        assert(texts(reasons@) =~= unclean_texts(*self, *g));
        assert(texts(reasons@).len() == reasons@.len());
        reasons
    }

    fn say_establishment(&self, g: &PairFigures, reasons: &mut Vec<String>)
        ensures
            texts(final(reasons)@) == texts(old(reasons)@) + establishment_texts(*self, *g),
    {
        let ghost start = texts(reasons@);
        say_if(
            reasons,
            self.no_connections,
            "physical connection count is zero (",
            g.conns.as_str(),
            ")",
        );
        say_ratio_if(
            reasons,
            self.caller_partial,
            "caller established ",
            g.caller_established.as_str(),
            g.conns.as_str(),
        );
        say_ratio_if(
            reasons,
            self.listener_partial,
            "listener established ",
            g.listener_established.as_str(),
            g.logical_streams.as_str(),
        );
        say(reasons, self.caller_torn, "caller torn down ", g.torn_c.as_str());
        say(reasons, self.listener_torn, "listener torn down ", g.torn_l.as_str());
        assert(texts(reasons@) =~= start + establishment_texts(*self, *g));
    }

    fn say_flow(&self, g: &PairFigures, reasons: &mut Vec<String>)
        ensures
            texts(final(reasons)@) == texts(old(reasons)@) + flow_texts(*self, *g),
    {
        let ghost start = texts(reasons@);
        say_if(
            reasons,
            self.offer_low,
            "source offer ",
            g.offer_pct.as_str(),
            "% < 99.0%",
        );
        say_if(
            reasons,
            self.good_low,
            "source goodput ",
            g.good_pct.as_str(),
            "% < 99.0%",
        );
        say_if(
            reasons,
            self.delivery_low,
            "delivery ",
            g.deliv_pct.as_str(),
            "% < 99.9%",
        );
        assert(texts(reasons@) =~= start + flow_texts(*self, *g));
    }

    fn say_drops(&self, g: &PairFigures, reasons: &mut Vec<String>)
        ensures
            texts(final(reasons)@) == texts(old(reasons)@) + drop_texts(*self, *g),
    {
        let ghost start = texts(reasons@);
        say(reasons, self.caller_rcvbuf, "caller UDP rcvbuf errors ", g.caller_udp_rcvbuf_err.as_str());
        say(reasons, self.listener_rcvbuf, "listener UDP rcvbuf errors ", g.listener_udp_rcvbuf_err.as_str());
        say(reasons, self.source_overflowed, "source overflow ", g.source_overflow.as_str());
        say(reasons, self.queue_dropped, "datapath queue dropped ", g.datapath_queue_overflow.as_str());
        say(reasons, self.retry_lost, "outbound retry loss ", g.outbound_retry_loss.as_str());
        assert(texts(reasons@) =~= start + drop_texts(*self, *g));
    }

    /// Whether a pair meets every clean criterion.
    pub fn is_clean(&self) -> (r: bool)
        ensures
            r == self.clean(),
    {
        !self.no_connections
            && !self.caller_partial
            && !self.listener_partial
            && !self.caller_torn
            && !self.listener_torn
            && !self.offer_low
            && !self.good_low
            && !self.delivery_low
            && !self.caller_rcvbuf
            && !self.listener_rcvbuf
            && !self.source_overflowed
            && !self.queue_dropped
            && !self.retry_lost
    }
}

/// Whether a cell is clean: it has pairs, none is incomplete, and all are clean.
pub fn cell_is_clean(pairs: &Vec<PairFindings>, incomplete_reps: usize) -> (r: bool)
    ensures
        r == (pairs@.len() > 0 && incomplete_reps == 0 && forall|i: int|
            0 <= i < pairs@.len() ==> (#[trigger] pairs@[i]).clean()),
{
    if pairs.len() == 0 || incomplete_reps != 0 {
        return false;
    }
    let mut i: usize = 0;
    while i < pairs.len()
        invariant
            i <= pairs@.len(),
            forall|j: int| 0 <= j < i ==> (#[trigger] pairs@[j]).clean(),
        decreases pairs@.len() - i,
    {
        if !pairs[i].is_clean() {
            return false;
        }
        i += 1;
    }
    true
}

/// What is said of a slot, if it fails, and whether it fails for want of a row.
/// `reasons` says why a pair that can be computed is not clean.
pub open spec fn slot_failure(
    slot: SlotText,
    records: Seq<Seq<(Seq<char>, Seq<char>)>>,
    reasons: Seq<Seq<char>>,
) -> Option<(bool, Seq<char>)> {
    let place = ": cell=["@ + slot.cell + "] rep="@ + slot.rep + ": "@;
    match (slot.caller, slot.listener) {
        (None, None) => None,
        (Some(_), None) => Some((true, "INCOMPLETE"@ + place + "missing listener row"@)),
        (None, Some(_)) => Some((true, "INCOMPLETE"@ + place + "missing caller row"@)),
        (Some(_), Some(_)) => if !is_pair(slot, records) {
            Some((false, "FAIL"@ + place + "could not compute pair metrics"@))
        } else if reasons.len() == 0 {
            None
        } else {
            Some((false, "FAIL"@ + place + joined(reasons, ", "@)))
        },
    }
}

fn pair_failure(slot: &CellSlot, records: &Vec<Record>, reasons: &Vec<String>) -> (r: Option<
    (bool, String),
>)
    requires
        rows_exist(*slot, records@.len()),
    ensures
        match (r, slot_failure(slot@, all_records(records@), texts(reasons@))) {
            (Some(a), Some(b)) => a.0 == b.0 && a.1@ == b.1,
            (None, None) => true,
            _ => false,
        },
{
    let ghost all = all_records(records@);
    let mut place = concat3(": cell=[", slot.cell.as_str(), "] rep=");
    place.append(slot.rep.as_str());
    place.append(": ");
    match (slot.caller, slot.listener) {
        (None, None) => None,
        (Some(_), None) => Some(
            (true, concat3("INCOMPLETE", place.as_str(), "missing listener row")),
        ),
        (None, Some(_)) => Some(
            (true, concat3("INCOMPLETE", place.as_str(), "missing caller row")),
        ),
        (Some(c), Some(l)) => {
            assert(all[c as int] == records@[c as int]@);
            assert(all[l as int] == records@[l as int]@);
            assert(texts(reasons@).len() == reasons@.len());
            if pair_inputs(&records[c], &records[l]).is_none() {
                Some((false, concat3("FAIL", place.as_str(), "could not compute pair metrics")))
            } else if reasons.len() == 0 {
                None
            } else {
                let said = join(reasons, ", ");
                Some((false, concat3("FAIL", place.as_str(), said.as_str())))
            }
        },
    }
}

/// The reasons of each pair.
pub open spec fn reasons_view(reasons: Seq<Vec<String>>) -> Seq<Seq<Seq<char>>> {
    reasons.map_values(|r: Vec<String>| texts(r@))
}

/// What is said of the first `n` slots that fail.
pub open spec fn failures_in(
    slots: Seq<SlotText>,
    records: Seq<Seq<(Seq<char>, Seq<char>)>>,
    reasons: Seq<Seq<Seq<char>>>,
    n: int,
) -> Seq<(bool, Seq<char>)>
    decreases n,
{
    if n <= 0 {
        Seq::empty()
    } else {
        let before = failures_in(slots, records, reasons, n - 1);
        match slot_failure(slots[n - 1], records, reasons[n - 1]) {
            Some(f) => before.push(f),
            None => before,
        }
    }
}

/// How many failures are for want of a row.
pub open spec fn incomplete_count(failures: Seq<(bool, Seq<char>)>) -> nat
    decreases failures.len(),
{
    if failures.len() == 0 {
        0
    } else {
        incomplete_count(failures.drop_last()) + if failures.last().0 {
            1nat
        } else {
            0
        }
    }
}

/// The answer on a file.
pub open spec fn clean_answer(
    records: Seq<Seq<(Seq<char>, Seq<char>)>>,
    reasons: Seq<Seq<Seq<char>>>,
) -> Result<Seq<char>, Seq<char>> {
    let slots = grouped(records);
    let cells = cells_in(records).len();
    let failures = failures_in(slots, records, reasons, slots.len() as int);
    let incomplete = incomplete_count(failures);
    if failures.len() == 0 {
        Ok(
            "check-clean: OK: all "@ + decimal(cells) + " cells ("@ + decimal(slots.len())
                + " pairs) satisfy the canonical clean predicate\n"@,
        )
    } else {
        Err(
            joined(failures.map_values(|f: (bool, Seq<char>)| f.1), "\n"@)
                + "\ncheck-clean: FAILED: "@ + decimal(incomplete) + " incomplete, "@ + decimal(
                (failures.len() - incomplete) as nat,
            ) + " unclean out of "@ + decimal(slots.len()) + " total pairs across "@ + decimal(
                cells,
            ) + " cells\n"@,
        )
    }
}

/// Whether every cell and repetition of a file is complete and clean: the summary if
/// so, else what is wrong with each of them, and an error for a file without rows.
/// `reasons` goes with the slots of [`group_records_by_cell`].
pub fn check_clean_file(path: &str, records: &Vec<Record>, reasons: &Vec<Vec<String>>) -> (r:
    Result<String, String>)
    requires
        reasons@.len() == grouped(all_records(records@)).len(),
    ensures
        match r {
            Ok(a) => records@.len() > 0 && clean_answer(
                all_records(records@),
                reasons_view(reasons@),
            ) == Ok::<Seq<char>, Seq<char>>(a@),
            Err(a) => if records@.len() == 0 {
                a@ == "check-clean: "@ + path@ + ": result file has no rows\n"@
            } else {
                clean_answer(all_records(records@), reasons_view(reasons@)) == Err::<
                    Seq<char>,
                    Seq<char>,
                >(a@)
            },
        },
{
    if records.len() == 0 {
        return Err(concat3("check-clean: ", path, ": result file has no rows\n"));
    }
    let ghost all = all_records(records@);
    let ghost why = reasons_view(reasons@);
    let ghost view = grouped(all);
    let ghost text = |f: (bool, Seq<char>)| f.1;
    let (_, cells) = index_records(records);
    let slots = group_records_by_cell(records);
    assert(slots_view(slots@).len() == slots@.len());
    assert(texts(cells@).len() == cells@.len());
    let mut lines: Vec<String> = Vec::new();
    let mut incomplete: usize = 0;
    let mut i: usize = 0;
    let ghost mut said = failures_in(view, all, why, 0);
    assert(texts(lines@) =~= said.map_values(text));
    while i < slots.len()
        invariant
            i <= slots@.len() == reasons@.len(),
            all == all_records(records@),
            why == reasons_view(reasons@),
            view == slots_view(slots@),
            text == |f: (bool, Seq<char>)| f.1,
            forall|j: int| 0 <= j < slots@.len() ==> rows_exist(#[trigger] slots@[j], records@.len()),
            said == failures_in(view, all, why, i as int),
            texts(lines@) == said.map_values(text),
            lines@.len() == said.len() <= i,
            incomplete == incomplete_count(said) <= said.len(),
        decreases slots@.len() - i,
    {
        assert(view[i as int] == slots@[i as int]@);
        assert(why[i as int] == texts(reasons@[i as int]@));
        if let Some((short, line)) = pair_failure(&slots[i], records, &reasons[i]) {
            proof {
                let more = said.push((short, line@));
                assert(more.drop_last() =~= said);
                lemma_texts_push(lines@, line);
                assert(more.map_values(text) =~= said.map_values(text).push(line@));
                said = more;
            }
            if short {
                incomplete += 1;
            }
            lines.push(line);
        }
        i += 1;
    }
    let pairs = render(slots.len() as u64);
    let count = render(cells.len() as u64);
    if lines.len() == 0 {
        let mut out = concat3("check-clean: OK: all ", count.as_str(), " cells (");
        out.append(pairs.as_str());
        out.append(" pairs) satisfy the canonical clean predicate\n");
        return Ok(out);
    }
    let mut out = join(&lines, "\n");
    out.append("\ncheck-clean: FAILED: ");
    out.append(render(incomplete as u64).as_str());
    out.append(" incomplete, ");
    out.append(render((lines.len() - incomplete) as u64).as_str());
    out.append(" unclean out of ");
    out.append(pairs.as_str());
    out.append(" total pairs across ");
    out.append(count.as_str());
    out.append(" cells\n");
    Err(out)
}

/// A file passes only if no slot of it fails.
pub proof fn a_pass_means_every_pair_is_clean(
    records: Seq<Seq<(Seq<char>, Seq<char>)>>,
    reasons: Seq<Seq<Seq<char>>>,
    i: int,
)
    requires
        reasons.len() == grouped(records).len(),
        clean_answer(records, reasons) is Ok,
        0 <= i < grouped(records).len(),
    ensures
        slot_failure(grouped(records)[i], records, reasons[i]) is None,
{
    let slots = grouped(records);
    lemma_no_failures(slots, records, reasons, slots.len() as int, i);
}

proof fn lemma_no_failures(
    slots: Seq<SlotText>,
    records: Seq<Seq<(Seq<char>, Seq<char>)>>,
    reasons: Seq<Seq<Seq<char>>>,
    n: int,
    i: int,
)
    requires
        0 <= i < n <= slots.len(),
        failures_in(slots, records, reasons, n).len() == 0,
    ensures
        slot_failure(slots[i], records, reasons[i]) is None,
    decreases n,
{
    if i < n - 1 {
        lemma_no_failures(slots, records, reasons, n - 1, i);
    }
}

} // verus!
