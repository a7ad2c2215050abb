//! Result files: tab-separated values under a header row.
use crate::record::{Record, fields_text};
use crate::text::{
    being, contains_text, decimal, first_where, join, joined, lemma_first_where, lemma_pieces_shape,
    lemma_texts_push, lines, lines_of, render, same, slices, split, split_text, texts, trim,
    trimmed, without_return,
};
use vstd::prelude::*;

verus! {

/// Columns, in order.
pub open spec fn columns_text() -> Seq<Seq<char>> {
    seq![
        "runtime"@,
        "encryption"@,
        "role"@,
        "ingress"@,
        "egress"@,
        "promotion"@,
        "cookie"@,
        "batch"@,
        "recv_rounds"@,
        "would_block_policy"@,
        "sock_buf_requested_bytes"@,
        "sock_rcvbuf_effective_min_bytes"@,
        "sock_rcvbuf_effective_max_bytes"@,
        "sock_sndbuf_effective_min_bytes"@,
        "sock_sndbuf_effective_max_bytes"@,
        "cpus"@,
        "pin"@,
        "link_delay"@,
        "link_jitter"@,
        "link_loss"@,
        "link_rate"@,
        "link_reorder"@,
        "link_duplicate"@,
        "link_corrupt"@,
        "link_limit"@,
        "workers"@,
        "recv_runtime"@,
        "send_runtime"@,
        "recv_ingress"@,
        "send_ingress"@,
        "recv_workers"@,
        "send_workers"@,
        "recv_cpus"@,
        "send_cpus"@,
        "conns"@,
        "logical_streams"@,
        "source_streams"@,
        "connect_cc"@,
        "cc_peak"@,
        "bond"@,
        "source_bps"@,
        "srt_bw_mode"@,
        "srt_maxbw_bps"@,
        "srt_inputbw_bps"@,
        "srt_oheadbw_pct"@,
        "model_policy_rev"@,
        "model_class_pre"@,
        "model_reasons_pre"@,
        "model_source_pps_total"@,
        "model_packet_pps"@,
        "model_srt_total_bps"@,
        "model_udp_ip_bps"@,
        "model_nic_wire_bps"@,
        "model_retransmission_factor"@,
        "model_bdp_packets"@,
        "model_required_window_packets"@,
        "model_flow_window_headroom_packets"@,
        "model_receive_window_headroom_packets"@,
        "model_recovery_margin_ms"@,
        "model_socket_horizon_recv_s"@,
        "model_socket_horizon_send_s"@,
        "model_host_utilization"@,
        "model_nic_utilization"@,
        "model_admission_waves"@,
        "rep"@,
        "attempt"@,
        "established"@,
        "torn_down"@,
        "pkt_sent"@,
        "core_total"@,
        "sec_a"@,
        "sec_b"@,
        "rtt_ms"@,
        "elapsed_s"@,
        "cpu_user_ms"@,
        "cpu_sys_ms"@,
        "peak_rss_kb"@,
        "secs"@,
        "udp_rcvbuf_err"@,
        "udp_in_err"@,
        "udp_no_ports"@,
        "src_generated"@,
        "src_accepted"@,
        "src_refusal_polls"@,
        "src_blocked_streaks"@,
        "source_backlog_ms"@,
        "src_backlog_cap"@,
        "src_backlog_hwm"@,
        "src_overflow"@,
        "datapath_q_horizon_ms"@,
        "datapath_q_count"@,
        "datapath_q_cap_per_queue"@,
        "datapath_q_total_cap"@,
        "datapath_q_peak_depth_max"@,
        "datapath_q_peak_depth_sum"@,
        "datapath_q_full"@,
        "datapath_q_dropped"@,
        "datapath_q_disconnected"@,
        "recv_packets"@,
        "recv_syscalls"@,
        "datagrams_per_syscall"@,
        "timer_late_p50_bucket_us"@,
        "timer_late_p95_bucket_us"@,
        "timer_late_p99_bucket_us"@,
        "timer_late_max_us"@,
        "retry_horizon_ms"@,
        "retry_count"@,
        "retry_cap_per_queue"@,
        "retry_total_cap"@,
        "retry_peak_depth_max"@,
        "would_block"@,
        "retry_overflow"@,
        "local_dropped"@,
    ]
}

/// Configuration columns that define a unique benchmark workload/cell.
pub open spec fn config_columns_text() -> Seq<Seq<char>> {
    seq![
        "runtime"@,
        "encryption"@,
        "ingress"@,
        "egress"@,
        "promotion"@,
        "cookie"@,
        "batch"@,
        "recv_rounds"@,
        "would_block_policy"@,
        "sock_buf_requested_bytes"@,
        "cpus"@,
        "pin"@,
        "link_delay"@,
        "link_jitter"@,
        "link_loss"@,
        "link_rate"@,
        "link_reorder"@,
        "link_duplicate"@,
        "link_corrupt"@,
        "link_limit"@,
        "workers"@,
        "recv_runtime"@,
        "send_runtime"@,
        "recv_ingress"@,
        "send_ingress"@,
        "recv_workers"@,
        "send_workers"@,
        "recv_cpus"@,
        "send_cpus"@,
        "conns"@,
        "connect_cc"@,
        "bond"@,
        "source_bps"@,
        "srt_bw_mode"@,
        "source_backlog_ms"@,
        "datapath_q_horizon_ms"@,
        "retry_horizon_ms"@,
        "secs"@,
        "model_policy_rev"@,
    ]
}

/// Columns, in order. Both the writer and the reader use them.
pub fn columns() -> (r: Vec<&'static str>)
    ensures
        slices(r@) == columns_text(),
{
    let all: Vec<&'static str> = vec![
        "runtime",
        "encryption",
        "role",
        "ingress",
        "egress",
        "promotion",
        "cookie",
        "batch",
        "recv_rounds",
        "would_block_policy",
        "sock_buf_requested_bytes",
        "sock_rcvbuf_effective_min_bytes",
        "sock_rcvbuf_effective_max_bytes",
        "sock_sndbuf_effective_min_bytes",
        "sock_sndbuf_effective_max_bytes",
        "cpus",
        "pin",
        "link_delay",
        "link_jitter",
        "link_loss",
        "link_rate",
        "link_reorder",
        "link_duplicate",
        "link_corrupt",
        "link_limit",
        "workers",
        "recv_runtime",
        "send_runtime",
        "recv_ingress",
        "send_ingress",
        "recv_workers",
        "send_workers",
        "recv_cpus",
        "send_cpus",
        "conns",
        "logical_streams",
        "source_streams",
        "connect_cc",
        "cc_peak",
        "bond",
        "source_bps",
        "srt_bw_mode",
        "srt_maxbw_bps",
        "srt_inputbw_bps",
        "srt_oheadbw_pct",
        "model_policy_rev",
        "model_class_pre",
        "model_reasons_pre",
        "model_source_pps_total",
        "model_packet_pps",
        "model_srt_total_bps",
        "model_udp_ip_bps",
        "model_nic_wire_bps",
        "model_retransmission_factor",
        "model_bdp_packets",
        "model_required_window_packets",
        "model_flow_window_headroom_packets",
        "model_receive_window_headroom_packets",
        "model_recovery_margin_ms",
        "model_socket_horizon_recv_s",
        "model_socket_horizon_send_s",
        "model_host_utilization",
        "model_nic_utilization",
        "model_admission_waves",
        "rep",
        "attempt",
        "established",
        "torn_down",
        "pkt_sent",
        "core_total",
        "sec_a",
        "sec_b",
        "rtt_ms",
        "elapsed_s",
        "cpu_user_ms",
        "cpu_sys_ms",
        "peak_rss_kb",
        "secs",
        "udp_rcvbuf_err",
        "udp_in_err",
        "udp_no_ports",
        "src_generated",
        "src_accepted",
        "src_refusal_polls",
        "src_blocked_streaks",
        "source_backlog_ms",
        "src_backlog_cap",
        "src_backlog_hwm",
        "src_overflow",
        "datapath_q_horizon_ms",
        "datapath_q_count",
        "datapath_q_cap_per_queue",
        "datapath_q_total_cap",
        "datapath_q_peak_depth_max",
        "datapath_q_peak_depth_sum",
        "datapath_q_full",
        "datapath_q_dropped",
        "datapath_q_disconnected",
        "recv_packets",
        "recv_syscalls",
        "datagrams_per_syscall",
        "timer_late_p50_bucket_us",
        "timer_late_p95_bucket_us",
        "timer_late_p99_bucket_us",
        "timer_late_max_us",
        "retry_horizon_ms",
        "retry_count",
        "retry_cap_per_queue",
        "retry_total_cap",
        "retry_peak_depth_max",
        "would_block",
        "retry_overflow",
        "local_dropped",
    ];
    assert(slices(all@) =~= columns_text());
    all
}

/// Configuration columns that define a unique benchmark workload/cell. Shared
/// between reporting and comparison so that cell identity never drifts. `attempt` is
/// deliberately absent: two attempts at the same cell are the same experiment.
pub fn config_columns() -> (r: Vec<&'static str>)
    ensures
        slices(r@) == config_columns_text(),
{
    let all: Vec<&'static str> = vec![
        "runtime",
        "encryption",
        "ingress",
        "egress",
        "promotion",
        "cookie",
        "batch",
        "recv_rounds",
        "would_block_policy",
        "sock_buf_requested_bytes",
        "cpus",
        "pin",
        "link_delay",
        "link_jitter",
        "link_loss",
        "link_rate",
        "link_reorder",
        "link_duplicate",
        "link_corrupt",
        "link_limit",
        "workers",
        "recv_runtime",
        "send_runtime",
        "recv_ingress",
        "send_ingress",
        "recv_workers",
        "send_workers",
        "recv_cpus",
        "send_cpus",
        "conns",
        "connect_cc",
        "bond",
        "source_bps",
        "srt_bw_mode",
        "source_backlog_ms",
        "datapath_q_horizon_ms",
        "retry_horizon_ms",
        "secs",
        "model_policy_rev",
    ];
    assert(slices(all@) =~= config_columns_text());
    all
}

// ---------------------------------------------------------------------------
// Reading
// ---------------------------------------------------------------------------

/// Why a result file cannot be read.
#[derive(Clone, Copy, PartialEq, Eq, Debug, Structural)]
pub enum ReadError {
    /// The header has the old `bitrate` column, which was both the payload rate and
    /// the pacing ceiling.
    LegacyBitrate,
    /// The header has the old `sock_buf` column, which did not tell the requested
    /// from the effective size.
    LegacySockBuf,
    /// The header is another one.
    Header { expected: usize, got: usize },
    /// A row has the wrong number of values. Lines count from one.
    Row { line: usize, expected: usize, got: usize },
}

/// What is wrong with a header line, if anything is.
pub open spec fn header_error(keys: Seq<Seq<char>>) -> Option<ReadError> {
    if keys == columns_text() {
        None
    } else if keys.contains("bitrate"@) && !keys.contains("source_bps"@) {
        Some(ReadError::LegacyBitrate)
    } else if keys.contains("sock_buf"@) && !keys.contains("sock_buf_requested_bytes"@) {
        Some(ReadError::LegacySockBuf)
    } else {
        Some(
            ReadError::Header { expected: columns_text().len() as usize, got: keys.len() as usize },
        )
    }
}

/// Whether a line holds nothing but white space.
pub open spec fn is_blank(line: Seq<char>) -> bool {
    trimmed(line).len() == 0
}

/// The test for a row with the wrong number of values.
pub open spec fn malformed() -> spec_fn(Seq<char>) -> bool {
    |line: Seq<char>|
        !is_blank(line) && split_text(line, '\t').len() != columns_text().len()
}

/// The test for a line that holds something.
pub open spec fn filled() -> spec_fn(Seq<char>) -> bool {
    |line: Seq<char>| !is_blank(line)
}

/// The record of a row: its values under the columns.
pub open spec fn record_of(line: Seq<char>) -> Seq<(Seq<char>, Seq<char>)> {
    Seq::new(
        columns_text().len(),
        |i: int| (columns_text()[i], split_text(line, '\t')[i]),
    )
}

pub open spec fn records_text(records: Seq<Record>) -> Seq<Seq<(Seq<char>, Seq<char>)>> {
    records.map_values(|r: Record| r@)
}

/// What `parse_results` makes of the lines of a file.
pub open spec fn read_back(all: Seq<Seq<char>>) -> Result<
    Seq<Seq<(Seq<char>, Seq<char>)>>,
    ReadError,
> {
    if all.len() == 0 {
        Ok(Seq::empty())
    } else if let Some(e) = header_error(split_text(all[0], '\t')) {
        Err(e)
    } else {
        let rows = all.drop_first();
        let bad = first_where(rows, malformed());
        if bad < rows.len() {
            Err(
                ReadError::Row {
                    line: (bad + 2) as usize,
                    expected: columns_text().len() as usize,
                    got: split_text(rows[bad], '\t').len() as usize,
                },
            )
        } else {
            Ok(rows.filter(filled()).map_values(|line: Seq<char>| record_of(line)))
        }
    }
}

fn is_current_header(keys: &Vec<String>) -> (r: bool)
    ensures
        r == (texts(keys@) == columns_text()),
{
    let want = columns();
    assert(slices(want@).len() == want@.len());
    if keys.len() != want.len() {
        assert(texts(keys@).len() != columns_text().len());
        return false;
    }
    let mut i: usize = 0;
    while i < want.len()
        invariant
            slices(want@) == columns_text(),
            keys@.len() == want@.len(),
            i <= want@.len(),
            forall|j: int| 0 <= j < i ==> keys@[j]@ == #[trigger] want@[j]@,
        decreases want@.len() - i,
    {
        if !same(keys[i].as_str(), want[i]) {
            assert(texts(keys@)[i as int] != slices(want@)[i as int]);
            return false;
        }
        i += 1;
    }
    assert(texts(keys@) =~= columns_text()) by {
        assert forall|j: int| 0 <= j < keys@.len() implies texts(keys@)[j] == columns_text()[j] by {
            assert(slices(want@)[j] == want@[j]@);
        }
    }
    true
}

fn check_header(keys: &Vec<String>) -> (r: Option<ReadError>)
    ensures
        r == header_error(texts(keys@)),
{
    if is_current_header(keys) {
        return None;
    }
    let want = columns();
    if contains_text(keys, "bitrate") && !contains_text(keys, "source_bps") {
        Some(ReadError::LegacyBitrate)
    } else if contains_text(keys, "sock_buf") && !contains_text(keys, "sock_buf_requested_bytes") {
        Some(ReadError::LegacySockBuf)
    } else {
        assert(slices(want@).len() == want@.len());
        Some(ReadError::Header { expected: want.len(), got: keys.len() })
    }
}

/// The record that a row of as many values as there are columns makes.
fn make_record(values: Vec<String>) -> (r: Record)
    requires
        values@.len() == columns_text().len(),
    ensures
        r@ == Seq::new(columns_text().len(), |i: int| (columns_text()[i], texts(values@)[i])),
{
    let keys = columns();
    assert(slices(keys@).len() == keys@.len());
    let ghost want = Seq::new(
        columns_text().len(),
        |i: int| (columns_text()[i], texts(values@)[i]),
    );
    let mut fields: Vec<(String, String)> = Vec::new();
    let mut i: usize = 0;
    while i < keys.len()
        invariant
            i <= keys@.len() == values@.len() == want.len(),
            slices(keys@) == columns_text(),
            want == Seq::new(
                columns_text().len(),
                |i: int| (columns_text()[i], texts(values@)[i]),
            ),
            fields_text(fields@) == want.take(i as int),
        decreases keys@.len() - i,
    {
        let field = (keys[i].to_owned(), values[i].clone());
        proof {
            assert(slices(keys@)[i as int] == keys@[i as int]@);
            assert(fields_text(fields@.push(field)) =~= fields_text(fields@).push(
                (field.0@, field.1@),
            ));
            assert(want.take(i + 1) =~= want.take(i as int).push((field.0@, field.1@)));
        }
        fields.push(field);
        i += 1;
    }
    assert(want.take(want.len() as int) =~= want);
    Record { fields }
}

/// Reads every record from the text of a result file.
pub fn parse_results(text: &str) -> (r: Result<Vec<Record>, ReadError>)
    ensures
        match (r, read_back(lines_of(text@))) {
            (Ok(got), Ok(want)) => records_text(got@) == want,
            (Err(got), Err(want)) => got == want,
            _ => false,
        },
{
    let all = lines(text);
    let ghost every = lines_of(text@);
    let mut records: Vec<Record> = Vec::new();
    if all.len() == 0 {
        assert(records_text(records@) =~= Seq::<Seq<(Seq<char>, Seq<char>)>>::empty());
        return Ok(records);
    }
    assert(texts(all@)[0] == all@[0]@);
    let keys = split(all[0].as_str(), '\t');
    if let Some(e) = check_header(&keys) {
        return Err(e);
    }
    let ghost rows = every.drop_first();
    let ghost made = |line: Seq<char>| record_of(line);
    let mut i: usize = 1;
    proof {
        reveal(Seq::filter);
        assert(rows.take(0).filter(filled()) =~= Seq::<Seq<char>>::empty());
        assert(records_text(records@) =~= rows.take(0).filter(filled()).map_values(made));
    }
    while i < all.len()
        invariant
            1 <= i <= all@.len(),
            every == lines_of(text@),
            every == texts(all@),
            texts(keys@) == split_text(every[0], '\t'),
            texts(keys@) == columns_text(),
            rows == every.drop_first(),
            made == |line: Seq<char>| record_of(line),
            forall|j: int| 0 <= j < i - 1 ==> !malformed()(#[trigger] rows[j]),
            records_text(records@) == rows.take(i - 1).filter(filled()).map_values(made),
        decreases all@.len() - i,
    {
        let ghost line = rows[i - 1];
        proof {
            assert(texts(all@)[i as int] == all@[i as int]@);
            assert(line == all@[i as int]@);
            assert(rows.take(i as int).drop_last() =~= rows.take(i - 1));
            reveal(Seq::filter);
        }
        let blank = trim(all[i].as_str());
        if !blank.as_str().is_empty() {
            let values = split(all[i].as_str(), '\t');
            let width: usize = keys.len();
            assert(texts(keys@) == columns_text());
            assert(texts(keys@).len() == keys@.len());
            assert(texts(values@).len() == values@.len());
            if values.len() != width {
                proof {
                    assert(malformed()(rows[i - 1]));
                    lemma_first_where(rows, malformed(), i - 1);
                }
                return Err(
                    ReadError::Row { line: i + 1, expected: width, got: values.len() },
                );
            }
            let record = make_record(values);
            proof {
                assert(record@ =~= record_of(line));
                assert(records_text(records@.push(record)) =~= records_text(records@).push(
                    record@,
                ));
                let kept = rows.take(i - 1).filter(filled());
                assert(kept.push(line).map_values(made) =~= kept.map_values(made).push(
                    record_of(line),
                ));
            }
            records.push(record);
        }
        i += 1;
    }
    proof {
        assert(rows.take(rows.len() as int) =~= rows);
        lemma_first_where(rows, malformed(), rows.len() as int);
    }
    Ok(records)
}

impl ReadError {
    /// What is said of the file `path`.
    pub open spec fn text(self, path: Seq<char>) -> Seq<char> {
        match self {
            ReadError::LegacyBitrate => path
                + ": legacy result schema (has `bitrate`, which meant both the source payload rate and SRTO_MAXBW). Those are now separate columns (`source_bps`, `srt_bw_mode`, `srt_maxbw_bps`), and an old row cannot be reinterpreted as either. Re-run the sweep, or compare old files with an older srt-bench."@,
            ReadError::LegacySockBuf => path
                + ": legacy result schema (has `sock_buf`, which aliased requested vs effective socket buffer size). Those are now separate requested/effective min/max columns. Re-run the sweep, or compare old files with an older srt-bench."@,
            ReadError::Header { expected, got } => path + ": unexpected TSV header (expected "@
                + decimal(expected as nat) + " columns, got "@ + decimal(got as nat) + ")"@,
            ReadError::Row { line, expected, got } => path + ":"@ + decimal(line as nat)
                + ": malformed TSV row (expected "@ + decimal(expected as nat) + " columns, got "@
                + decimal(got as nat) + ")"@,
        }
    }

    /// What to say of the file `path`.
    pub fn describe(self, path: &str) -> (r: String)
        ensures
            r@ == self.text(path@),
    {
        let mut out = path.to_owned();
        match self {
            ReadError::LegacyBitrate => {
                out.append(
                    ": legacy result schema (has `bitrate`, which meant both the source payload rate and SRTO_MAXBW). Those are now separate columns (`source_bps`, `srt_bw_mode`, `srt_maxbw_bps`), and an old row cannot be reinterpreted as either. Re-run the sweep, or compare old files with an older srt-bench.",
                );
            },
            ReadError::LegacySockBuf => {
                out.append(
                    ": legacy result schema (has `sock_buf`, which aliased requested vs effective socket buffer size). Those are now separate requested/effective min/max columns. Re-run the sweep, or compare old files with an older srt-bench.",
                );
            },
            ReadError::Header { expected, got } => {
                out.append(": unexpected TSV header (expected ");
                out.append(render(expected as u64).as_str());
                out.append(" columns, got ");
                out.append(render(got as u64).as_str());
                out.append(")");
            },
            ReadError::Row { line, expected, got } => {
                out.append(":");
                out.append(render(line as u64).as_str());
                out.append(": malformed TSV row (expected ");
                out.append(render(expected as u64).as_str());
                out.append(" columns, got ");
                out.append(render(got as u64).as_str());
                out.append(")");
            },
        }
        out
    }
}

// ---------------------------------------------------------------------------
// Writing
// ---------------------------------------------------------------------------

/// One line of a file: the values between tabs.
pub open spec fn row_line(values: Seq<Seq<char>>) -> Seq<char> {
    joined(values, "\t"@)
}

/// A whole file: header and rows, each line ended by a line feed.
pub open spec fn file_text(rows: Seq<Seq<Seq<char>>>) -> Seq<char>
    decreases rows.len(),
{
    if rows.len() == 0 {
        row_line(columns_text()) + "\n"@
    } else {
        file_text(rows.drop_last()) + row_line(rows.last()) + "\n"@
    }
}

/// The header line of a fresh file.
pub fn header_line() -> (r: String)
    ensures
        r@ == row_line(columns_text()) + "\n"@,
{
    let names = columns();
    let mut all: Vec<String> = Vec::new();
    let mut i: usize = 0;
    while i < names.len()
        invariant
            i <= names@.len(),
            texts(all@) == slices(names@).take(i as int),
        decreases names@.len() - i,
    {
        let name = names[i].to_owned();
        proof {
            lemma_texts_push(all@, name);
            assert(slices(names@).take(i + 1) =~= slices(names@).take(i as int).push(name@));
        }
        all.push(name);
        i += 1;
    }
    assert(slices(names@).take(names@.len() as int) =~= slices(names@));
    let mut line = join(&all, "\t");
    line.append("\n");
    line
}

/// The line of one row.
pub fn row_text(values: &Vec<String>) -> (r: String)
    ensures
        r@ == row_line(texts(values@)) + "\n"@,
{
    let mut line = join(values, "\t");
    line.append("\n");
    line
}

/// A row that survives being written: one value per column, none with a tab or a
/// line end in it, and not all white space.
pub open spec fn writable(values: Seq<Seq<char>>) -> bool {
    &&& values.len() == columns_text().len()
    &&& forall|i: int, j: int|
        0 <= i < values.len() && 0 <= j < values[i].len() ==> {
            let c = #[trigger] values[i][j];
            c != '\t' && c != '\n' && c != '\r'
        }
    &&& !is_blank(row_line(values))
}

/// The record of a row of values.
pub open spec fn values_record(values: Seq<Seq<char>>) -> Seq<(Seq<char>, Seq<char>)> {
    Seq::new(columns_text().len(), |i: int| (columns_text()[i], values[i]))
}

proof fn lemma_pieces_append(s: Seq<char>, t: Seq<char>, c: char)
    requires
        forall|j: int| 0 <= j < t.len() ==> #[trigger] t[j] != c,
    ensures
        split_text(s + t, c) == split_text(s, c).drop_last().push(split_text(s, c).last() + t),
    decreases t.len(),
{
    lemma_pieces_shape(s, being(c));
    let before = split_text(s, c);
    if t.len() == 0 {
        assert(s + t =~= s);
        assert(before.last() + t =~= before.last());
        assert(before =~= before.drop_last().push(before.last()));
    } else {
        let rest = t.drop_last();
        assert forall|j: int| 0 <= j < rest.len() implies #[trigger] rest[j] != c by {
            assert(rest[j] == t[j]);
        }
        lemma_pieces_append(s, rest, c);
        assert((s + t).drop_last() =~= s + rest);
        assert((s + t).last() == t[t.len() - 1]);
        let mid = split_text(s + rest, c);
        assert(mid.drop_last() =~= before.drop_last());
        assert((before.last() + rest).push(t.last()) =~= before.last() + t);
    }
}

/// Splitting what was joined gives the parts back, if none holds the separator.
pub proof fn join_then_split_is_identity(parts: Seq<Seq<char>>, c: char)
    requires
        parts.len() > 0,
        forall|i: int, j: int|
            0 <= i < parts.len() && 0 <= j < parts[i].len() ==> #[trigger] parts[i][j] != c,
    ensures
        split_text(joined(parts, seq![c]), c) == parts,
    decreases parts.len(),
{
    let last = parts.last();
    assert forall|j: int| 0 <= j < last.len() implies #[trigger] last[j] != c by {
        assert(parts[parts.len() - 1][j] != c);
    }
    let empty = Seq::<char>::empty();
    assert(split_text(empty, c) =~= seq![empty]);
    if parts.len() == 1 {
        lemma_pieces_append(empty, last, c);
        assert(empty + last =~= last);
        assert(split_text(last, c) =~= parts);
    } else {
        let front = parts.drop_last();
        assert forall|i: int, j: int|
            0 <= i < front.len() && 0 <= j < front[i].len() implies #[trigger] front[i][j] != c by {
            assert(front[i] == parts[i]);
            assert(parts[i][j] != c);
        }
        join_then_split_is_identity(front, c);
        let head = joined(front, seq![c]);
        let marked = head + seq![c];
        assert(marked.drop_last() =~= head);
        assert(marked.last() == c);
        assert(split_text(marked, c) =~= front.push(empty));
        lemma_pieces_append(marked, last, c);
        assert(empty + last =~= last);
        assert(split_text(marked + last, c) =~= parts);
    }
}

/// The lines of a file, and the empty text behind the last line feed.
spec fn file_pieces(rows: Seq<Seq<Seq<char>>>) -> Seq<Seq<char>>
    decreases rows.len(),
{
    if rows.len() == 0 {
        seq![row_line(columns_text()), Seq::empty()]
    } else {
        file_pieces(rows.drop_last()).drop_last().push(row_line(rows.last())).push(Seq::empty())
    }
}

proof fn lemma_line_holds(values: Seq<Seq<char>>, c: char)
    requires
        c != '\t',
        forall|i: int, j: int|
            0 <= i < values.len() && 0 <= j < values[i].len() ==> #[trigger] values[i][j] != c,
    ensures
        forall|k: int| 0 <= k < row_line(values).len() ==> #[trigger] row_line(values)[k] != c,
    decreases values.len(),
{
    reveal_strlit("\t");
    let line = row_line(values);
    if values.len() == 1 {
        assert forall|k: int| 0 <= k < line.len() implies #[trigger] line[k] != c by {
            assert(values[0][k] != c);
        }
    } else if values.len() > 1 {
        let front = values.drop_last();
        assert forall|i: int, j: int|
            0 <= i < front.len() && 0 <= j < front[i].len() implies #[trigger] front[i][j] != c by {
            assert(front[i] == values[i]);
            assert(values[i][j] != c);
        }
        lemma_line_holds(front, c);
        let head = row_line(front);
        assert forall|k: int| 0 <= k < line.len() implies #[trigger] line[k] != c by {
            if k < head.len() {
                assert(line[k] == head[k]);
            } else if k == head.len() {
                assert(line[k] == "\t"@[0]);
            } else {
                assert(values[values.len() - 1][k - head.len() - 1] != c);
            }
        }
    }
}

proof fn lemma_columns_plain()
    ensures
        forall|i: int, j: int|
            0 <= i < columns_text().len() && 0 <= j < columns_text()[i].len() ==> {
                let c = #[trigger] columns_text()[i][j];
                c != '\t' && c != '\n' && c != '\r'
            },
        columns_text().len() > 1,
{
    reveal_strlit("runtime");
    reveal_strlit("encryption");
    reveal_strlit("role");
    reveal_strlit("ingress");
    reveal_strlit("egress");
    reveal_strlit("promotion");
    reveal_strlit("cookie");
    reveal_strlit("batch");
    reveal_strlit("recv_rounds");
    reveal_strlit("would_block_policy");
    reveal_strlit("sock_buf_requested_bytes");
    reveal_strlit("sock_rcvbuf_effective_min_bytes");
    reveal_strlit("sock_rcvbuf_effective_max_bytes");
    reveal_strlit("sock_sndbuf_effective_min_bytes");
    reveal_strlit("sock_sndbuf_effective_max_bytes");
    reveal_strlit("cpus");
    reveal_strlit("pin");
    reveal_strlit("link_delay");
    reveal_strlit("link_jitter");
    reveal_strlit("link_loss");
    reveal_strlit("link_rate");
    reveal_strlit("link_reorder");
    reveal_strlit("link_duplicate");
    reveal_strlit("link_corrupt");
    reveal_strlit("link_limit");
    reveal_strlit("workers");
    reveal_strlit("recv_runtime");
    reveal_strlit("send_runtime");
    reveal_strlit("recv_ingress");
    reveal_strlit("send_ingress");
    reveal_strlit("recv_workers");
    reveal_strlit("send_workers");
    reveal_strlit("recv_cpus");
    reveal_strlit("send_cpus");
    reveal_strlit("conns");
    reveal_strlit("logical_streams");
    reveal_strlit("source_streams");
    reveal_strlit("connect_cc");
    reveal_strlit("cc_peak");
    reveal_strlit("bond");
    reveal_strlit("source_bps");
    reveal_strlit("srt_bw_mode");
    reveal_strlit("srt_maxbw_bps");
    reveal_strlit("srt_inputbw_bps");
    reveal_strlit("srt_oheadbw_pct");
    reveal_strlit("model_policy_rev");
    reveal_strlit("model_class_pre");
    reveal_strlit("model_reasons_pre");
    reveal_strlit("model_source_pps_total");
    reveal_strlit("model_packet_pps");
    reveal_strlit("model_srt_total_bps");
    reveal_strlit("model_udp_ip_bps");
    reveal_strlit("model_nic_wire_bps");
    reveal_strlit("model_retransmission_factor");
    reveal_strlit("model_bdp_packets");
    reveal_strlit("model_required_window_packets");
    reveal_strlit("model_flow_window_headroom_packets");
    reveal_strlit("model_receive_window_headroom_packets");
    reveal_strlit("model_recovery_margin_ms");
    reveal_strlit("model_socket_horizon_recv_s");
    reveal_strlit("model_socket_horizon_send_s");
    reveal_strlit("model_host_utilization");
    reveal_strlit("model_nic_utilization");
    reveal_strlit("model_admission_waves");
    reveal_strlit("rep");
    reveal_strlit("attempt");
    reveal_strlit("established");
    reveal_strlit("torn_down");
    reveal_strlit("pkt_sent");
    reveal_strlit("core_total");
    reveal_strlit("sec_a");
    reveal_strlit("sec_b");
    reveal_strlit("rtt_ms");
    reveal_strlit("elapsed_s");
    reveal_strlit("cpu_user_ms");
    reveal_strlit("cpu_sys_ms");
    reveal_strlit("peak_rss_kb");
    reveal_strlit("secs");
    reveal_strlit("udp_rcvbuf_err");
    reveal_strlit("udp_in_err");
    reveal_strlit("udp_no_ports");
    reveal_strlit("src_generated");
    reveal_strlit("src_accepted");
    reveal_strlit("src_refusal_polls");
    reveal_strlit("src_blocked_streaks");
    reveal_strlit("source_backlog_ms");
    reveal_strlit("src_backlog_cap");
    reveal_strlit("src_backlog_hwm");
    reveal_strlit("src_overflow");
    reveal_strlit("datapath_q_horizon_ms");
    reveal_strlit("datapath_q_count");
    reveal_strlit("datapath_q_cap_per_queue");
    reveal_strlit("datapath_q_total_cap");
    reveal_strlit("datapath_q_peak_depth_max");
    reveal_strlit("datapath_q_peak_depth_sum");
    reveal_strlit("datapath_q_full");
    reveal_strlit("datapath_q_dropped");
    reveal_strlit("datapath_q_disconnected");
    reveal_strlit("recv_packets");
    reveal_strlit("recv_syscalls");
    reveal_strlit("datagrams_per_syscall");
    reveal_strlit("timer_late_p50_bucket_us");
    reveal_strlit("timer_late_p95_bucket_us");
    reveal_strlit("timer_late_p99_bucket_us");
    reveal_strlit("timer_late_max_us");
    reveal_strlit("retry_horizon_ms");
    reveal_strlit("retry_count");
    reveal_strlit("retry_cap_per_queue");
    reveal_strlit("retry_total_cap");
    reveal_strlit("retry_peak_depth_max");
    reveal_strlit("would_block");
    reveal_strlit("retry_overflow");
    reveal_strlit("local_dropped");
}

proof fn lemma_file_pieces(rows: Seq<Seq<Seq<char>>>)
    requires
        forall|i: int| 0 <= i < rows.len() ==> writable(#[trigger] rows[i]),
    ensures
        split_text(file_text(rows), '\n') == file_pieces(rows),
        file_pieces(rows).len() == rows.len() + 2,
        file_pieces(rows)[0] == row_line(columns_text()),
        forall|i: int| 0 <= i < rows.len() ==> file_pieces(rows)[i + 1] == row_line(#[trigger] rows[i]),
        file_pieces(rows).last() == Seq::<char>::empty(),
    decreases rows.len(),
{
    reveal_strlit("\n");
    let empty = Seq::<char>::empty();
    let end = "\n"@;
    assert(end =~= seq!['\n']);
    lemma_columns_plain();
    let (start, line) = if rows.len() == 0 {
        (empty, row_line(columns_text()))
    } else {
        (file_text(rows.drop_last()), row_line(rows.last()))
    };
    if rows.len() == 0 {
        lemma_line_holds(columns_text(), '\n');
        assert(split_text(empty, '\n') =~= seq![empty]);
    } else {
        let front = rows.drop_last();
        assert forall|i: int| 0 <= i < front.len() implies writable(#[trigger] front[i]) by {
            assert(front[i] == rows[i]);
        }
        lemma_file_pieces(front);
        assert(writable(rows[rows.len() - 1]));
        lemma_line_holds(rows.last(), '\n');
    }
    lemma_pieces_append(start, line, '\n');
    let whole = start + line;
    let ended = whole + end;
    assert(ended.drop_last() =~= whole);
    assert(ended.last() == '\n');
    assert(empty + line =~= line);
    if rows.len() == 0 {
        assert(whole =~= line);
        assert(file_text(rows) =~= ended);
        assert(split_text(ended, '\n') =~= file_pieces(rows));
    } else {
        assert(file_text(rows) =~= ended);
        let front = rows.drop_last();
        assert(split_text(ended, '\n') =~= file_pieces(rows));
        assert forall|i: int| 0 <= i < rows.len() implies file_pieces(rows)[i + 1] == row_line(
            #[trigger] rows[i],
        ) by {
            if i < front.len() {
                assert(front[i] == rows[i]);
                assert(file_pieces(front)[i + 1] == row_line(front[i]));
            }
        }
    }
}

/// Reading gives back what was written: a file of writable rows reads as exactly
/// those rows.
pub proof fn written_rows_read_back(rows: Seq<Seq<Seq<char>>>)
    requires
        forall|i: int| 0 <= i < rows.len() ==> writable(#[trigger] rows[i]),
    ensures
        read_back(lines_of(file_text(rows))) == Ok::<
            Seq<Seq<(Seq<char>, Seq<char>)>>,
            ReadError,
        >(rows.map_values(|values: Seq<Seq<char>>| values_record(values))),
{
    reveal_strlit("\t");
    assert("\t"@ =~= seq!['\t']);
    lemma_file_pieces(rows);
    lemma_columns_plain();
    let parts = file_pieces(rows);
    let all = lines_of(file_text(rows));
    let ended = parts.drop_last().map_values(|p: Seq<char>| without_return(p));
    assert(all == ended);
    lemma_line_holds(columns_text(), '\r');
    assert(all[0] == row_line(columns_text()));
    join_then_split_is_identity(columns_text(), '\t');
    let body = all.drop_first();
    assert forall|i: int| 0 <= i < rows.len() implies #[trigger] body[i] == row_line(rows[i]) by {
        assert(writable(rows[i]));
        lemma_line_holds(rows[i], '\r');
        assert(parts[i + 1] == row_line(rows[i]));
    }
    assert forall|i: int| 0 <= i < rows.len() implies split_text(#[trigger] body[i], '\t')
        == rows[i] && !malformed()(body[i]) && !is_blank(body[i]) by {
        assert(writable(rows[i]));
        join_then_split_is_identity(rows[i], '\t');
    }
    lemma_first_where(body, malformed(), body.len() as int);
    lemma_all_filled(body);
    let want = rows.map_values(|values: Seq<Seq<char>>| values_record(values));
    let got = body.map_values(|line: Seq<char>| record_of(line));
    assert forall|i: int| 0 <= i < rows.len() implies got[i] == want[i] by {
        assert(split_text(body[i], '\t') == rows[i]);
        assert(record_of(body[i]) =~= values_record(rows[i]));
    }
    assert(got =~= want);
}

proof fn lemma_all_filled(lines: Seq<Seq<char>>)
    requires
        forall|i: int| 0 <= i < lines.len() ==> !is_blank(#[trigger] lines[i]),
    ensures
        lines.filter(filled()) == lines,
    decreases lines.len(),
{
    reveal(Seq::filter);
    if lines.len() > 0 {
        let front = lines.drop_last();
        assert forall|i: int| 0 <= i < front.len() implies !is_blank(#[trigger] front[i]) by {
            assert(front[i] == lines[i]);
        }
        lemma_all_filled(front);
        assert(!is_blank(lines[lines.len() - 1]));
        assert(lines.filter(filled()) =~= lines);
    } else {
        assert(lines.filter(filled()) =~= lines);
    }
}

} // verus!
