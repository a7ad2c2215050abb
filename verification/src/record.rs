//! Result records and the identity of a cell in them.
use crate::config::{parse_size, size_of};
use crate::counts::{count_read, read_count};
use crate::matrix::{Cell, ValueText, cell_text, or_else};
use crate::text::{
    decimal, first_where, has_prefix, join, joined, lemma_first_where, lemma_texts_push, render,
    replace_char, replaced, same, sort, sorted_texts, starts_with, texts,
};
use vstd::prelude::*;

verus! {

/// One measured run: its configuration plus what came out of it.
#[derive(Debug)]
pub struct Record {
    pub fields: Vec<(String, String)>,
}

/// The names and values of a record.
pub open spec fn fields_text(fields: Seq<(String, String)>) -> Seq<(Seq<char>, Seq<char>)> {
    fields.map_values(|f: (String, String)| (f.0@, f.1@))
}

/// The test for a field called `key`.
pub open spec fn field_named(key: Seq<char>) -> spec_fn((Seq<char>, Seq<char>)) -> bool {
    |f: (Seq<char>, Seq<char>)| f.0 == key
}

/// The value of the first field called `key`.
pub open spec fn field_in(fields: Seq<(Seq<char>, Seq<char>)>, key: Seq<char>) -> Option<
    Seq<char>,
> {
    let i = first_where(fields, field_named(key));
    if i < fields.len() {
        Some(fields[i].1)
    } else {
        None
    }
}

impl View for Record {
    type V = Seq<(Seq<char>, Seq<char>)>;

    open spec fn view(&self) -> Seq<(Seq<char>, Seq<char>)> {
        fields_text(self.fields@)
    }
}

impl Record {
    /// The value of a field.
    #[must_use]
    pub fn get(&self, key: &str) -> (r: Option<&str>)
        ensures
            match (r, field_in(self@, key@)) {
                (Some(a), Some(b)) => a@ == b,
                (None, None) => true,
                _ => false,
            },
    {
        let ghost all = self@;
        let mut i: usize = 0;
        while i < self.fields.len()
            invariant
                i <= self.fields@.len(),
                all == self@,
                forall|j: int| 0 <= j < i ==> !field_named(key@)(#[trigger] all[j]),
            decreases self.fields@.len() - i,
        {
            assert(all[i as int] == (self.fields@[i as int].0@, self.fields@[i as int].1@));
            if same(self.fields[i].0.as_str(), key) {
                proof {
                    lemma_first_where(all, field_named(key@), i as int);
                }
                return Some(self.fields[i].1.as_str());
            }
            i += 1;
        }
        proof {
            lemma_first_where(all, field_named(key@), i as int);
        }
        None
    }

    /// Whether the field `key` is there and holds `value`.
    pub fn has(&self, key: &str, value: &str) -> (r: bool)
        ensures
            r == (field_in(self@, key@) == Some(value@)),
    {
        match self.get(key) {
            Some(v) => same(v, value),
            None => false,
        }
    }

    /// The value of a field, or `default`.
    pub fn get_or(&self, key: &str, default: &str) -> (r: String)
        ensures
            r@ == or_else(field_in(self@, key@), default@),
    {
        match self.get(key) {
            Some(v) => v.to_owned(),
            None => default.to_owned(),
        }
    }

    /// The value of a field as a count: a number, cut to its whole part.
    pub fn count(&self, key: &str) -> (r: Option<usize>)
        ensures
            match r {
                Some(n) => field_count(self@, key@) == Some(n as nat),
                None => field_count(self@, key@) is None,
            },
    {
        match self.get(key) {
            Some(v) => read_count(v),
            None => None,
        }
    }
}

/// The value of a field as a count, if it is one.
pub open spec fn field_count(fields: Seq<(Seq<char>, Seq<char>)>, key: Seq<char>) -> Option<nat> {
    match field_in(fields, key) {
        Some(v) => count_read(v),
        None => None,
    }
}

// ---------------------------------------------------------------------------
// How a cell is recorded
// ---------------------------------------------------------------------------

/// The column of an axis whose values are recorded as they are.
pub open spec fn plain_column(axis: Seq<char>) -> Option<Seq<char>> {
    if axis == "runtime"@ {
        Some("runtime"@)
    } else if axis == "encryption"@ {
        Some("encryption"@)
    } else if axis == "ingress"@ {
        Some("ingress"@)
    } else if axis == "egress"@ {
        Some("egress"@)
    } else if axis == "promotion"@ {
        Some("promotion"@)
    } else if axis == "cookie-routing"@ {
        Some("cookie"@)
    } else if axis == "batch"@ {
        Some("batch"@)
    } else if axis == "workers"@ {
        Some("workers"@)
    } else if axis == "connections"@ {
        Some("conns"@)
    } else if axis == "connect-concurrency"@ {
        Some("connect_cc"@)
    } else if axis == "bond"@ {
        Some("bond"@)
    } else if axis == "bitrate"@ {
        Some("source_bps"@)
    } else if axis == "srt-bandwidth"@ {
        Some("srt_bw_mode"@)
    } else if axis == "source-backlog-ms"@ {
        Some("source_backlog_ms"@)
    } else if axis == "recv-rounds"@ {
        Some("recv_rounds"@)
    } else if axis == "would-block"@ {
        Some("would_block_policy"@)
    } else if axis == "datapath-queue-horizon-ms"@ {
        Some("datapath_q_horizon_ms"@)
    } else if axis == "datapath-q-horizon-ms"@ {
        Some("datapath_q_horizon_ms"@)
    } else if axis == "outbound-retry-horizon-ms"@ {
        Some("retry_horizon_ms"@)
    } else if axis == "retry-horizon-ms"@ {
        Some("retry_horizon_ms"@)
    } else if axis == "pin"@ {
        Some("pin"@)
    } else {
        None
    }
}

/// The column that an axis is recorded in.
pub open spec fn column_of(axis: Seq<char>) -> Seq<char> {
    if axis == "sock-buf"@ {
        "sock_buf_requested_bytes"@
    } else {
        match plain_column(axis) {
            Some(column) => column,
            None => if has_prefix(axis, "link-"@) {
                replaced(axis, '-', '_')
            } else {
                axis
            },
        }
    }
}

/// A socket buffer size as the process records it: in bytes.
pub open spec fn recorded_size(value: Seq<char>) -> Seq<char> {
    if value == "default"@ || value == "0"@ {
        "0"@
    } else {
        match size_of(value) {
            Some(n) => decimal(n as nat),
            None => value,
        }
    }
}

/// A link setting as the process records it: nothing where it is off.
pub open spec fn recorded_link(value: Seq<char>) -> Seq<char> {
    if value == "off"@ {
        Seq::empty()
    } else {
        value
    }
}

/// What is recorded for a value of an axis.
pub open spec fn recorded_value(axis: Seq<char>, value: Seq<char>) -> Seq<char> {
    if axis == "sock-buf"@ {
        recorded_size(value)
    } else if plain_column(axis) is None && has_prefix(axis, "link-"@) {
        recorded_link(value)
    } else {
        value
    }
}

fn recorded_column(axis: &str) -> (r: Option<&'static str>)
    ensures
        match (r, plain_column(axis@)) {
            (Some(a), Some(b)) => a@ == b,
            (None, None) => true,
            _ => false,
        },
{
    if same(axis, "runtime") {
        Some("runtime")
    } else if same(axis, "encryption") {
        Some("encryption")
    } else if same(axis, "ingress") {
        Some("ingress")
    } else if same(axis, "egress") {
        Some("egress")
    } else if same(axis, "promotion") {
        Some("promotion")
    } else if same(axis, "cookie-routing") {
        Some("cookie")
    } else if same(axis, "batch") {
        Some("batch")
    } else if same(axis, "workers") {
        Some("workers")
    } else if same(axis, "connections") {
        Some("conns")
    } else if same(axis, "connect-concurrency") {
        Some("connect_cc")
    } else if same(axis, "bond") {
        Some("bond")
    } else if same(axis, "bitrate") {
        Some("source_bps")
    } else if same(axis, "srt-bandwidth") {
        Some("srt_bw_mode")
    } else if same(axis, "source-backlog-ms") {
        Some("source_backlog_ms")
    } else if same(axis, "recv-rounds") {
        Some("recv_rounds")
    } else if same(axis, "would-block") {
        Some("would_block_policy")
    } else if same(axis, "datapath-queue-horizon-ms") {
        Some("datapath_q_horizon_ms")
    } else if same(axis, "datapath-q-horizon-ms") {
        Some("datapath_q_horizon_ms")
    } else if same(axis, "outbound-retry-horizon-ms") {
        Some("retry_horizon_ms")
    } else if same(axis, "retry-horizon-ms") {
        Some("retry_horizon_ms")
    } else if same(axis, "pin") {
        Some("pin")
    } else {
        None
    }
}

fn recorded_socket_buffer(value: &str) -> (r: String)
    ensures
        r@ == recorded_size(value@),
{
    if same(value, "default") || same(value, "0") {
        return "0".to_owned();
    }
    match parse_size(value) {
        Some(n) => render(n as u64),
        None => value.to_owned(),
    }
}

/// `off` is how a plan or the command line spells "no emulation"; the process
/// records that as an empty field.
fn recorded_link_value(value: &str) -> (r: String)
    ensures
        r@ == recorded_link(value@),
{
    if same(value, "off") {
        String::new()
    } else {
        value.to_owned()
    }
}

/// Map an axis name/value to the (column, value) it will be *recorded* as, so that
/// a resumed sweep can tell which cells are already done.
///
/// Most axes round-trip unchanged. `sock-buf` does not: the axis takes `16m` while
/// the row records `16777216`.
pub fn recorded_as(axis: &str, value: &str) -> (r: (String, String))
    ensures
        r.0@ == column_of(axis@),
        r.1@ == recorded_value(axis@, value@),
{
    if same(axis, "sock-buf") {
        return ("sock_buf_requested_bytes".to_owned(), recorded_socket_buffer(value));
    }
    match recorded_column(axis) {
        Some(column) => (column.to_owned(), value.to_owned()),
        None => if starts_with(axis, "link-") {
            (replace_char(axis, '-', '_'), recorded_link_value(value))
        } else {
            (axis.to_owned(), value.to_owned())
        },
    }
}

/// The column of one value of a cell.
pub open spec fn cell_column(v: ValueText) -> Seq<char> {
    v.scope.prefix_text() + column_of(v.axis)
}

/// `column=value` for one value of a cell.
pub open spec fn cell_part(v: ValueText) -> Seq<char> {
    cell_column(v) + "="@ + recorded_value(v.axis, v.value)
}

/// The parts of a key, in ascending order, and the repetition behind them.
pub open spec fn key_text(parts: Seq<Seq<char>>, rep: nat) -> Seq<char> {
    joined(sorted_texts(parts).push("rep="@ + decimal(rep)), " "@)
}

/// Identity of one (cell, rep) as it appears in a result file.
pub open spec fn cell_key_text(cell: Seq<ValueText>, rep: nat) -> Seq<char> {
    key_text(cell.map_values(|v: ValueText| cell_part(v)), rep)
}

/// The parts that a record holds for the columns of a cell, if it has them all.
pub open spec fn record_parts(
    record: Seq<(Seq<char>, Seq<char>)>,
    cell: Seq<ValueText>,
) -> Option<Seq<Seq<char>>>
    decreases cell.len(),
{
    if cell.len() == 0 {
        Some(Seq::empty())
    } else {
        match (
            record_parts(record, cell.drop_last()),
            field_in(record, cell_column(cell.last())),
        ) {
            (Some(parts), Some(value)) => Some(
                parts.push(cell_column(cell.last()) + "="@ + value),
            ),
            _ => None,
        }
    }
}

/// The same identity, read back off a recorded row.
pub open spec fn record_key_text(
    record: Seq<(Seq<char>, Seq<char>)>,
    cell: Seq<ValueText>,
    rep: nat,
) -> Option<Seq<char>> {
    match record_parts(record, cell) {
        Some(parts) => Some(key_text(parts, rep)),
        None => None,
    }
}

fn finish_key(parts: Vec<String>, rep: usize) -> (r: String)
    ensures
        r@ == key_text(texts(parts@), rep as nat),
{
    let mut parts = sort(parts);
    let mut last = "rep=".to_owned();
    last.append(render(rep as u64).as_str());
    proof {
        lemma_texts_push(parts@, last);
    }
    parts.push(last);
    join(&parts, " ")
}

/// Identity of one (cell, rep) as it appears in a result file.
pub fn cell_key(cell: &Cell, rep: usize) -> (r: String)
    ensures
        r@ == cell_key_text(cell_text(cell@), rep as nat),
{
    let ghost want = cell_text(cell@).map_values(|v: ValueText| cell_part(v));
    let mut parts: Vec<String> = Vec::new();
    let mut i: usize = 0;
    while i < cell.len()
        invariant
            i <= cell@.len(),
            want == cell_text(cell@).map_values(|v: ValueText| cell_part(v)),
            texts(parts@) == want.take(i as int),
        decreases cell@.len() - i,
    {
        let (column, value) = recorded_as(cell[i].axis.as_str(), cell[i].value.as_str());
        let mut part = cell[i].scope.prefix().to_owned();
        part.append(column.as_str());
        part.append("=");
        part.append(value.as_str());
        proof {
            assert(cell_text(cell@)[i as int] == cell@[i as int]@);
            lemma_texts_push(parts@, part);
            assert(part@ =~= cell_part(cell@[i as int]@));
            assert(want.take(i + 1) =~= want.take(i as int).push(part@));
        }
        parts.push(part);
        i += 1;
    }
    assert(want.take(want.len() as int) =~= want);
    finish_key(parts, rep)
}

/// The same identity, read back off a recorded row.
pub fn record_key(record: &Record, cell: &Cell, rep: usize) -> (r: Option<String>)
    ensures
        match (r, record_key_text(record@, cell_text(cell@), rep as nat)) {
            (Some(a), Some(b)) => a@ == b,
            (None, None) => true,
            _ => false,
        },
{
    let ghost all = cell_text(cell@);
    let mut parts: Vec<String> = Vec::new();
    let mut i: usize = 0;
    assert(record_parts(record@, all.take(0)) == Some(texts(parts@))) by {
        assert(texts(parts@) =~= Seq::<Seq<char>>::empty());
    }
    while i < cell.len()
        invariant
            i <= cell@.len(),
            all == cell_text(cell@),
            record_parts(record@, all.take(i as int)) == Some(texts(parts@)),
        decreases cell@.len() - i,
    {
        let (column, _) = recorded_as(cell[i].axis.as_str(), "");
        let mut name = cell[i].scope.prefix().to_owned();
        name.append(column.as_str());
        proof {
            assert(all[i as int] == cell@[i as int]@);
            assert(all.take(i + 1).drop_last() =~= all.take(i as int));
            assert(name@ =~= cell_column(all[i as int]));
        }
        match record.get(name.as_str()) {
            Some(value) => {
                let mut part = name.clone();
                part.append("=");
                part.append(value);
                proof {
                    lemma_texts_push(parts@, part);
                    assert(part@ =~= cell_column(all[i as int]) + "="@ + value@);
                }
                parts.push(part);
            },
            None => {
                proof {
                    lemma_missing_part(record@, all, i + 1);
                    assert(all.take(all.len() as int) =~= all);
                }
                return None;
            },
        }
        i += 1;
    }
    assert(all.take(all.len() as int) =~= all);
    Some(finish_key(parts, rep))
}

proof fn lemma_missing_part(
    record: Seq<(Seq<char>, Seq<char>)>,
    cell: Seq<ValueText>,
    n: int,
)
    requires
        0 <= n <= cell.len(),
        record_parts(record, cell.take(n)) is None,
    ensures
        record_parts(record, cell.take(cell.len() as int)) is None,
    decreases cell.len() - n,
{
    if n < cell.len() {
        assert(cell.take(n + 1).drop_last() =~= cell.take(n));
        lemma_missing_part(record, cell, n + 1);
    }
}

/// A row that records a cell's values has the cell's key: a completed cell is found
/// again when a sweep resumes.
pub proof fn recorded_cells_are_recognised(
    record: Seq<(Seq<char>, Seq<char>)>,
    cell: Seq<ValueText>,
    rep: nat,
)
    requires
        forall|i: int|
            0 <= i < cell.len() ==> field_in(record, cell_column(#[trigger] cell[i])) == Some(
                recorded_value(cell[i].axis, cell[i].value),
            ),
    ensures
        record_key_text(record, cell, rep) == Some(cell_key_text(cell, rep)),
{
    lemma_recorded_parts(record, cell);
}

proof fn lemma_recorded_parts(record: Seq<(Seq<char>, Seq<char>)>, cell: Seq<ValueText>)
    requires
        forall|i: int|
            0 <= i < cell.len() ==> field_in(record, cell_column(#[trigger] cell[i])) == Some(
                recorded_value(cell[i].axis, cell[i].value),
            ),
    ensures
        record_parts(record, cell) == Some(cell.map_values(|v: ValueText| cell_part(v))),
    decreases cell.len(),
{
    let want = cell.map_values(|v: ValueText| cell_part(v));
    if cell.len() == 0 {
        assert(want =~= Seq::<Seq<char>>::empty());
    } else {
        let rest = cell.drop_last();
        assert forall|i: int| 0 <= i < rest.len() implies field_in(
            record,
            cell_column(#[trigger] rest[i]),
        ) == Some(recorded_value(rest[i].axis, rest[i].value)) by {
            assert(rest[i] == cell[i]);
        }
        lemma_recorded_parts(record, rest);
        assert(cell[cell.len() - 1] == cell.last());
        assert(want =~= rest.map_values(|v: ValueText| cell_part(v)).push(cell_part(cell.last())));
    }
}

} // verus!
