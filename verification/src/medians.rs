//! Which recorded numbers each figure of the median report is taken from.
use crate::capacity_args::given;
use crate::compare::{number_in, number_of};
use crate::record::Record;
use crate::report::all_records;
use crate::text::{lemma_texts_push, texts};
use vstd::prelude::*;

verus! {

/// A half of a pair.
#[derive(Clone, Copy, PartialEq, Eq, Debug, Structural)]
pub enum Side {
    Caller,
    Listener,
}

/// The row of a pair that belongs to a side.
pub open spec fn row_on(pair: (usize, usize), side: Side) -> usize {
    match side {
        Side::Caller => pair.0,
        Side::Listener => pair.1,
    }
}

/// The numbers that the first `n` pairs have on one side in a column; what is no
/// number does not count.
pub open spec fn readings(
    records: Seq<Seq<(Seq<char>, Seq<char>)>>,
    pairs: Seq<(usize, usize)>,
    side: Side,
    column: Seq<char>,
    n: int,
) -> Seq<Seq<char>>
    decreases n,
{
    if n <= 0 {
        Seq::empty()
    } else {
        let before = readings(records, pairs, side, column, n - 1);
        match number_in(records[row_on(pairs[n - 1], side) as int], column) {
            Some(v) => before.push(v),
            None => before,
        }
    }
}

/// The numbers that the pairs have on one side in a column.
pub open spec fn side_readings(
    records: Seq<Seq<(Seq<char>, Seq<char>)>>,
    pairs: Seq<(usize, usize)>,
    side: Side,
    column: Seq<char>,
) -> Seq<Seq<char>> {
    readings(records, pairs, side, column, pairs.len() as int)
}

/// Whether `pairs` are rows of a file with `n` rows.
pub open spec fn pairs_within(pairs: Seq<(usize, usize)>, n: nat) -> bool {
    forall|k: int| 0 <= k < pairs.len() ==> (#[trigger] pairs[k]).0 < n && pairs[k].1 < n
}

fn column_readings(
    records: &Vec<Record>,
    pairs: &Vec<(usize, usize)>,
    side: Side,
    column: &str,
) -> (r: Vec<String>)
    requires
        pairs_within(pairs@, records@.len()),
    ensures
        texts(r@) == side_readings(all_records(records@), pairs@, side, column@),
{
    let ghost all = all_records(records@);
    let mut out: Vec<String> = Vec::new();
    let mut i: usize = 0;
    assert(texts(out@) =~= readings(all, pairs@, side, column@, 0));
    while i < pairs.len()
        invariant
            i <= pairs@.len(),
            all == all_records(records@),
            pairs_within(pairs@, records@.len()),
            texts(out@) == readings(all, pairs@, side, column@, i as int),
        decreases pairs@.len() - i,
    {
        let pair = pairs[i];
        let row: usize = match side {
            Side::Caller => pair.0,
            Side::Listener => pair.1,
        };
        assert(pairs@[i as int].0 < records@.len() && pairs@[i as int].1 < records@.len());
        assert(all[row as int] == records@[row as int]@);
        if let Some(v) = number_of(&records[row], column) {
            proof {
                lemma_texts_push(out@, v);
            }
            out.push(v);
        }
        i += 1;
    }
    out
}

/// What the number of packets that a source asked for is reckoned from: its rate and
/// time, and how many streams it had, by the first of the three that is positive, or
/// the connections.
#[derive(Debug)]
pub struct TargetInputs {
    pub source_bps: String,
    pub secs: String,
    pub source_streams: Option<String>,
    pub logical_streams: Option<String>,
    pub conns: Option<String>,
}

/// What [`TargetInputs`] say.
pub struct TargetText {
    pub source_bps: Seq<char>,
    pub secs: Seq<char>,
    pub source_streams: Option<Seq<char>>,
    pub logical_streams: Option<Seq<char>>,
    pub conns: Option<Seq<char>>,
}

impl View for TargetInputs {
    type V = TargetText;

    open spec fn view(&self) -> TargetText {
        TargetText {
            source_bps: self.source_bps@,
            secs: self.secs@,
            source_streams: given(self.source_streams),
            logical_streams: given(self.logical_streams),
            conns: given(self.conns),
        }
    }
}

/// What a record says of the packets that its source asked for. Without a rate and a
/// time there is nothing to reckon.
pub open spec fn target_of(record: Seq<(Seq<char>, Seq<char>)>) -> Option<TargetText> {
    match (number_in(record, "source_bps"@), number_in(record, "secs"@)) {
        (Some(source_bps), Some(secs)) => Some(
            TargetText {
                source_bps,
                secs,
                source_streams: number_in(record, "source_streams"@),
                logical_streams: number_in(record, "logical_streams"@),
                conns: number_in(record, "conns"@),
            },
        ),
        _ => None,
    }
}

pub fn target_inputs(record: &Record) -> (r: Option<TargetInputs>)
    ensures
        match (r, target_of(record@)) {
            (Some(got), Some(want)) => got@ == want,
            (None, None) => true,
            _ => false,
        },
{
    match (number_of(record, "source_bps"), number_of(record, "secs")) {
        (Some(source_bps), Some(secs)) => Some(
            TargetInputs {
                source_bps,
                secs,
                source_streams: number_of(record, "source_streams"),
                logical_streams: number_of(record, "logical_streams"),
                conns: number_of(record, "conns"),
            },
        ),
        _ => None,
    }
}

/// The numbers behind the figures of one group.
#[derive(Debug)]
pub struct GroupInputs {
    pub established: Vec<String>,
    pub sent: Vec<String>,
    pub received: Vec<String>,
    pub retransmitted: Vec<String>,
    pub buffer_errors: Vec<String>,
    pub caller_torn: Vec<String>,
    pub listener_torn: Vec<String>,
    pub rtt_ms: Vec<String>,
    pub listener_user_ms: Vec<String>,
    pub listener_sys_ms: Vec<String>,
    pub caller_user_ms: Vec<String>,
    pub caller_sys_ms: Vec<String>,
    pub listener_rss_kb: Vec<String>,
    pub caller_rss_kb: Vec<String>,
}

impl GroupInputs {
    /// Whether these are the numbers of a group of pairs.
    pub open spec fn collects(
        self,
        records: Seq<Seq<(Seq<char>, Seq<char>)>>,
        pairs: Seq<(usize, usize)>,
    ) -> bool {
        &&& texts(self.established@) == side_readings(records, pairs, Side::Listener, "established"@)
        &&& texts(self.sent@) == side_readings(records, pairs, Side::Caller, "core_total"@)
        &&& texts(self.received@) == side_readings(records, pairs, Side::Listener, "core_total"@)
        &&& texts(self.retransmitted@) == side_readings(records, pairs, Side::Listener, "sec_a"@)
        &&& texts(self.buffer_errors@) == side_readings(records, pairs, Side::Listener, "udp_rcvbuf_err"@)
        &&& texts(self.caller_torn@) == side_readings(records, pairs, Side::Caller, "torn_down"@)
        &&& texts(self.listener_torn@) == side_readings(records, pairs, Side::Listener, "torn_down"@)
        &&& texts(self.rtt_ms@) == side_readings(records, pairs, Side::Listener, "rtt_ms"@)
        &&& texts(self.listener_user_ms@) == side_readings(records, pairs, Side::Listener, "cpu_user_ms"@)
        &&& texts(self.listener_sys_ms@) == side_readings(records, pairs, Side::Listener, "cpu_sys_ms"@)
        &&& texts(self.caller_user_ms@) == side_readings(records, pairs, Side::Caller, "cpu_user_ms"@)
        &&& texts(self.caller_sys_ms@) == side_readings(records, pairs, Side::Caller, "cpu_sys_ms"@)
        &&& texts(self.listener_rss_kb@) == side_readings(records, pairs, Side::Listener, "peak_rss_kb"@)
        &&& texts(self.caller_rss_kb@) == side_readings(records, pairs, Side::Caller, "peak_rss_kb"@)
    }
}

/// Collects the numbers behind the figures of one group. Connections, deliveries and
/// delays are the listener's, what was sent is the caller's, and both sides' word is
/// kept on what was torn down and on what the run cost.
pub fn group_inputs(records: &Vec<Record>, pairs: &Vec<(usize, usize)>) -> (r: GroupInputs)
    requires
        pairs_within(pairs@, records@.len()),
    ensures
        r.collects(all_records(records@), pairs@),
{
    GroupInputs {
        established: column_readings(records, pairs, Side::Listener, "established"),
        sent: column_readings(records, pairs, Side::Caller, "core_total"),
        received: column_readings(records, pairs, Side::Listener, "core_total"),
        retransmitted: column_readings(records, pairs, Side::Listener, "sec_a"),
        buffer_errors: column_readings(records, pairs, Side::Listener, "udp_rcvbuf_err"),
        caller_torn: column_readings(records, pairs, Side::Caller, "torn_down"),
        listener_torn: column_readings(records, pairs, Side::Listener, "torn_down"),
        rtt_ms: column_readings(records, pairs, Side::Listener, "rtt_ms"),
        listener_user_ms: column_readings(records, pairs, Side::Listener, "cpu_user_ms"),
        listener_sys_ms: column_readings(records, pairs, Side::Listener, "cpu_sys_ms"),
        caller_user_ms: column_readings(records, pairs, Side::Caller, "cpu_user_ms"),
        caller_sys_ms: column_readings(records, pairs, Side::Caller, "cpu_sys_ms"),
        listener_rss_kb: column_readings(records, pairs, Side::Listener, "peak_rss_kb"),
        caller_rss_kb: column_readings(records, pairs, Side::Caller, "peak_rss_kb"),
    }
}

} // verus!
