//! What the figures of a pair are read from, and what its faults are called.
//!
//! Caller and listener are two observers of the same connections. Each figure is one
//! side's word, and no fault of either goes unnamed.
use crate::capacity_args::given;
use crate::compare::{
    PairFigures, PairFindings, PairInputs, PairLosses, PairTraffic, PairWorkload, are_losses,
    clean_answer, drop_texts, establishment_texts, failures_in, fills, flow_texts, grouped,
    is_traffic, is_workload, last_fill, measurable, rep_label, slot_failure, unclean_texts,
};
use crate::config::BenchConfig;
use crate::record::field_in;
use crate::results::values_record;
use crate::row::{ModelColumns, RunMeasurements, RunSurroundings, row_values};
use crate::row_columns::{
    rows_say_what_source_and_queues_did, rows_say_what_the_run_came_to, rows_say_what_was_asked_for,
};
use crate::stats::one_if;
use crate::text::{
    decimal, decimal_round_trips, is_digit, is_float_text, is_number_text, lemma_first_index,
    lowered, unsigned_part,
};
use vstd::prelude::*;

verus! {

/// Whether `got` is what `record` says under `column`: its text where that is a number,
/// and nothing where it is none or where there is no such column.
pub open spec fn read_from(
    got: Option<String>,
    record: Seq<(Seq<char>, Seq<char>)>,
    column: Seq<char>,
) -> bool {
    &&& got is Some <==> field_in(record, column) is Some && is_float_text(
        field_in(record, column)->0,
    )
    &&& got is Some ==> got->0@ == field_in(record, column)->0
}

/// Each of a pair's figures of traffic is read from one side's own row.
pub proof fn traffic_is_read_side_by_side(
    x: PairTraffic,
    caller: Seq<(Seq<char>, Seq<char>)>,
    listener: Seq<(Seq<char>, Seq<char>)>,
)
    requires
        is_traffic(x, caller, listener),
    ensures
        read_from(x.caller_established, caller, "established"@),
        read_from(x.listener_established, listener, "established"@),
        read_from(x.torn_c, caller, "torn_down"@),
        read_from(x.torn_l, listener, "torn_down"@),
        read_from(x.sent_pkts, caller, "core_total"@),
        read_from(x.recv_pkts, listener, "core_total"@),
        read_from(x.caller_cpu_user_ms, caller, "cpu_user_ms"@),
        read_from(x.caller_cpu_sys_ms, caller, "cpu_sys_ms"@),
        read_from(x.listener_cpu_user_ms, listener, "cpu_user_ms"@),
        read_from(x.listener_cpu_sys_ms, listener, "cpu_sys_ms"@),
        read_from(x.caller_peak_rss_kb, caller, "peak_rss_kb"@),
        read_from(x.listener_peak_rss_kb, listener, "peak_rss_kb"@),
        read_from(x.rtt_ms, listener, "rtt_ms"@),
{
}

/// Each of a pair's figures of loss is read from one side's own row. The state of the
/// source is the caller's word alone: only a caller has a source.
pub proof fn losses_are_read_side_by_side(
    x: PairLosses,
    caller: Seq<(Seq<char>, Seq<char>)>,
    listener: Seq<(Seq<char>, Seq<char>)>,
)
    requires
        are_losses(x, caller, listener),
    ensures
        read_from(x.caller_retransmits, caller, "sec_a"@),
        read_from(x.caller_loss_list, caller, "sec_b"@),
        read_from(x.listener_lost, listener, "sec_a"@),
        read_from(x.listener_duplicates, listener, "sec_b"@),
        read_from(x.caller_udp_rcvbuf_err, caller, "udp_rcvbuf_err"@),
        read_from(x.listener_udp_rcvbuf_err, listener, "udp_rcvbuf_err"@),
        read_from(x.source_overflow, caller, "src_overflow"@),
        read_from(x.source_backlog_hwm, caller, "src_backlog_hwm"@),
        read_from(x.source_backlog_cap, caller, "src_backlog_cap"@),
        read_from(x.caller_queue_dropped, caller, "datapath_q_dropped"@),
        read_from(x.listener_queue_dropped, listener, "datapath_q_dropped"@),
        read_from(x.caller_local_dropped, caller, "local_dropped"@),
        read_from(x.listener_local_dropped, listener, "local_dropped"@),
{
}

/// What a pair's workload is read from: size, rate and length, and how many streams it
/// had, are the listener's word where it has one and else the caller's; how many sources
/// there were is the caller's.
pub proof fn workloads_are_read_from_the_listener_first(
    w: PairWorkload,
    caller: Seq<(Seq<char>, Seq<char>)>,
    listener: Seq<(Seq<char>, Seq<char>)>,
)
    requires
        is_workload(w, caller, listener),
    ensures
        ({
            let says = |record: Seq<(Seq<char>, Seq<char>)>, column: Seq<char>| field_in(
                record,
                column,
            ) is Some && is_float_text(field_in(record, column)->0);
            &&& says(listener, "conns"@) ==> Some(w.conns@) == field_in(listener, "conns"@)
            &&& !says(listener, "conns"@) ==> says(caller, "conns"@) && Some(w.conns@) == field_in(caller, "conns"@)
            &&& says(listener, "source_bps"@) ==> Some(w.source_bps@) == field_in(listener, "source_bps"@)
            &&& !says(listener, "source_bps"@) ==> says(caller, "source_bps"@) && Some(w.source_bps@) == field_in(caller, "source_bps"@)
            &&& says(listener, "secs"@) ==> Some(w.secs@) == field_in(listener, "secs"@)
            &&& !says(listener, "secs"@) ==> says(caller, "secs"@) && Some(w.secs@) == field_in(caller, "secs"@)
            &&& says(listener, "logical_streams"@) ==> read_from(
                w.logical_streams,
                listener,
                "logical_streams"@,
            )
            &&& !says(listener, "logical_streams"@) ==> read_from(
                w.logical_streams,
                caller,
                "logical_streams"@,
            )
            &&& read_from(w.source_streams, caller, "source_streams"@)
        }),
{
}

/// A pair can be computed exactly where its number of connections, its rate and its
/// length are each a number in one of the two rows.
pub proof fn pairs_need_size_rate_and_length(
    caller: Seq<(Seq<char>, Seq<char>)>,
    listener: Seq<(Seq<char>, Seq<char>)>,
)
    ensures
        ({
            let says = |record: Seq<(Seq<char>, Seq<char>)>, column: Seq<char>| field_in(
                record,
                column,
            ) is Some && is_float_text(field_in(record, column)->0);
            measurable(caller, listener) <==> (says(caller, "conns"@) || says(listener, "conns"@))
                && (says(caller, "source_bps"@) || says(listener, "source_bps"@)) && (says(
                caller,
                "secs"@,
            ) || says(listener, "secs"@))
        }),
{
}

/// A written count is a number.
pub proof fn written_counts_are_numbers(n: nat)
    ensures
        is_float_text(decimal(n)),
{
    decimal_round_trips(n);
    let s = decimal(n);
    assert forall|j: int| 0 <= j < s.len() implies s[j] != '.' && s[j] != 'e' && s[j] != '+'
        && s[j] != '-' by {
        assert(is_digit(s[j]));
    }
    assert(lowered(s) =~= s) by {
        assert forall|j: int| 0 <= j < s.len() implies lowered(s)[j] == s[j] by {
            assert(is_digit(s[j]));
        }
    }
    assert(unsigned_part(s) == s);
    lemma_first_index(s, '.', s.len() as int);
    lemma_first_index(s, 'e', s.len() as int);
    assert(is_number_text(s));
}

/// What two processes measured is what their comparison reads: the rows that a caller and
/// a listener write give back, as the figures of their pair, the counts of each.
pub proof fn what_was_measured_is_compared(
    p: PairInputs,
    cc: BenchConfig,
    cl: BenchConfig,
    rep: usize,
    mc: RunMeasurements,
    ml: RunMeasurements,
    model: ModelColumns,
    ec: RunSurroundings,
    el: RunSurroundings,
)
    requires
        ({
            let caller = values_record(row_values(cc, rep, mc, model, ec));
            let listener = values_record(row_values(cl, rep, ml, model, el));
            is_workload(p.workload, caller, listener) && is_traffic(p.traffic, caller, listener)
                && are_losses(p.losses, caller, listener)
        }),
    ensures
        given(p.traffic.caller_established) == Some(decimal(mc.established as nat)),
        given(p.traffic.listener_established) == Some(decimal(ml.established as nat)),
        given(p.traffic.torn_c) == Some(decimal(mc.torn_down as nat)),
        given(p.traffic.torn_l) == Some(decimal(ml.torn_down as nat)),
        given(p.traffic.sent_pkts) == Some(decimal(mc.core_total as nat)),
        given(p.traffic.recv_pkts) == Some(decimal(ml.core_total as nat)),
        given(p.traffic.caller_peak_rss_kb) == Some(decimal(ec.peak_rss_kb as nat)),
        given(p.traffic.listener_peak_rss_kb) == Some(decimal(el.peak_rss_kb as nat)),
        given(p.losses.caller_retransmits) == Some(decimal(mc.sec_a as nat)),
        given(p.losses.caller_loss_list) == Some(decimal(mc.sec_b as nat)),
        given(p.losses.listener_lost) == Some(decimal(ml.sec_a as nat)),
        given(p.losses.listener_duplicates) == Some(decimal(ml.sec_b as nat)),
        given(p.losses.caller_udp_rcvbuf_err) == Some(decimal(ec.udp.rcvbuf_errors as nat)),
        given(p.losses.listener_udp_rcvbuf_err) == Some(decimal(el.udp.rcvbuf_errors as nat)),
        given(p.losses.source_overflow) == Some(decimal(mc.source.overflow as nat)),
        given(p.losses.source_backlog_hwm) == Some(decimal(mc.source.backlog_hwm as nat)),
        given(p.losses.source_backlog_cap) == Some(decimal(ec.backlog_capacity as nat)),
        given(p.losses.caller_queue_dropped) == Some(decimal(mc.datapath_queue.dropped_or_rejected as nat)),
        given(p.losses.listener_queue_dropped) == Some(decimal(ml.datapath_queue.dropped_or_rejected as nat)),
        given(p.losses.caller_local_dropped) == Some(decimal(mc.outbound_retry.local_dropped as nat)),
        given(p.losses.listener_local_dropped) == Some(decimal(ml.outbound_retry.local_dropped as nat)),
        p.workload.conns@ == decimal(cl.connections as nat),
        p.workload.source_bps@ == decimal(cl.source_bitrate_bps as nat),
        given(p.workload.source_streams) == Some(decimal(mc.source_streams as nat)),
{
    rows_say_what_the_run_came_to(cc, rep, mc, model, ec);
    rows_say_what_the_run_came_to(cl, rep, ml, model, el);
    rows_say_what_source_and_queues_did(cc, rep, mc, model, ec);
    rows_say_what_source_and_queues_did(cl, rep, ml, model, el);
    rows_say_what_was_asked_for(cc, rep, mc, model, ec);
    rows_say_what_was_asked_for(cl, rep, ml, model, el);
    written_counts_are_numbers(ec.backlog_capacity as nat);
    written_counts_are_numbers(ec.peak_rss_kb as nat);
    written_counts_are_numbers(ec.udp.rcvbuf_errors as nat);
    written_counts_are_numbers(el.peak_rss_kb as nat);
    written_counts_are_numbers(el.udp.rcvbuf_errors as nat);
    written_counts_are_numbers(mc.core_total as nat);
    written_counts_are_numbers(mc.datapath_queue.dropped_or_rejected as nat);
    written_counts_are_numbers(mc.established as nat);
    written_counts_are_numbers(mc.outbound_retry.local_dropped as nat);
    written_counts_are_numbers(mc.sec_a as nat);
    written_counts_are_numbers(mc.sec_b as nat);
    written_counts_are_numbers(mc.source.backlog_hwm as nat);
    written_counts_are_numbers(mc.source.overflow as nat);
    written_counts_are_numbers(mc.torn_down as nat);
    written_counts_are_numbers(ml.core_total as nat);
    written_counts_are_numbers(ml.datapath_queue.dropped_or_rejected as nat);
    written_counts_are_numbers(ml.established as nat);
    written_counts_are_numbers(ml.outbound_retry.local_dropped as nat);
    written_counts_are_numbers(ml.sec_a as nat);
    written_counts_are_numbers(ml.sec_b as nat);
    written_counts_are_numbers(ml.torn_down as nat);
    written_counts_are_numbers(cl.connections as nat);
    written_counts_are_numbers(cl.source_bitrate_bps as nat);
    written_counts_are_numbers(mc.source_streams as nat);
}

/// The number of criteria that a pair fails.
pub open spec fn faults(f: PairFindings) -> nat {
    one_if(f.no_connections) + one_if(f.caller_partial) + one_if(f.listener_partial) + one_if(f.caller_torn) + one_if(f.listener_torn) + one_if(f.offer_low) + one_if(f.good_low) + one_if(f.delivery_low) + one_if(f.caller_rcvbuf) + one_if(f.listener_rcvbuf) + one_if(f.source_overflowed) + one_if(f.queue_dropped) + one_if(f.retry_lost)
}

proof fn lemma_establishment_texts(f: PairFindings, g: PairFigures)
    ensures
        f.no_connections ==> establishment_texts(f, g).contains("physical connection count is zero ("@ + g.conns@ + ")"@),
        f.caller_partial ==> establishment_texts(f, g).contains("caller established "@ + g.caller_established@ + "/"@ + g.conns@),
        f.listener_partial ==> establishment_texts(f, g).contains("listener established "@ + g.listener_established@ + "/"@
            + g.logical_streams@),
        f.caller_torn ==> establishment_texts(f, g).contains("caller torn down "@ + g.torn_c@),
        f.listener_torn ==> establishment_texts(f, g).contains("listener torn down "@ + g.torn_l@),
        establishment_texts(f, g).len() == one_if(f.no_connections) + one_if(f.caller_partial) + one_if(f.listener_partial) + one_if(f.caller_torn) + one_if(f.listener_torn),
{
    let all = establishment_texts(f, g);
    if f.no_connections {
        assert(all[(0nat) as int] == "physical connection count is zero ("@ + g.conns@ + ")"@);
    }
    if f.caller_partial {
        assert(all[(one_if(f.no_connections)) as int] == "caller established "@ + g.caller_established@ + "/"@ + g.conns@);
    }
    if f.listener_partial {
        assert(all[(one_if(f.no_connections) + one_if(f.caller_partial)) as int] == "listener established "@ + g.listener_established@ + "/"@
            + g.logical_streams@);
    }
    if f.caller_torn {
        assert(all[(one_if(f.no_connections) + one_if(f.caller_partial) + one_if(f.listener_partial)) as int] == "caller torn down "@ + g.torn_c@);
    }
    if f.listener_torn {
        assert(all[(one_if(f.no_connections) + one_if(f.caller_partial) + one_if(f.listener_partial) + one_if(f.caller_torn)) as int] == "listener torn down "@ + g.torn_l@);
    }
}

proof fn lemma_flow_texts(f: PairFindings, g: PairFigures)
    ensures
        f.offer_low ==> flow_texts(f, g).contains("source offer "@ + g.offer_pct@ + "% < 99.0%"@),
        f.good_low ==> flow_texts(f, g).contains("source goodput "@ + g.good_pct@ + "% < 99.0%"@),
        f.delivery_low ==> flow_texts(f, g).contains("delivery "@ + g.deliv_pct@ + "% < 99.9%"@),
        flow_texts(f, g).len() == one_if(f.offer_low) + one_if(f.good_low) + one_if(f.delivery_low),
{
    let all = flow_texts(f, g);
    if f.offer_low {
        assert(all[(0nat) as int] == "source offer "@ + g.offer_pct@ + "% < 99.0%"@);
    }
    if f.good_low {
        assert(all[(one_if(f.offer_low)) as int] == "source goodput "@ + g.good_pct@ + "% < 99.0%"@);
    }
    if f.delivery_low {
        assert(all[(one_if(f.offer_low) + one_if(f.good_low)) as int] == "delivery "@ + g.deliv_pct@ + "% < 99.9%"@);
    }
}

proof fn lemma_drop_texts(f: PairFindings, g: PairFigures)
    ensures
        f.caller_rcvbuf ==> drop_texts(f, g).contains("caller UDP rcvbuf errors "@ + g.caller_udp_rcvbuf_err@),
        f.listener_rcvbuf ==> drop_texts(f, g).contains("listener UDP rcvbuf errors "@ + g.listener_udp_rcvbuf_err@),
        f.source_overflowed ==> drop_texts(f, g).contains("source overflow "@ + g.source_overflow@),
        f.queue_dropped ==> drop_texts(f, g).contains("datapath queue dropped "@ + g.datapath_queue_overflow@),
        f.retry_lost ==> drop_texts(f, g).contains("outbound retry loss "@ + g.outbound_retry_loss@),
        drop_texts(f, g).len() == one_if(f.caller_rcvbuf) + one_if(f.listener_rcvbuf) + one_if(f.source_overflowed) + one_if(f.queue_dropped) + one_if(f.retry_lost),
{
    let all = drop_texts(f, g);
    if f.caller_rcvbuf {
        assert(all[(0nat) as int] == "caller UDP rcvbuf errors "@ + g.caller_udp_rcvbuf_err@);
    }
    if f.listener_rcvbuf {
        assert(all[(one_if(f.caller_rcvbuf)) as int] == "listener UDP rcvbuf errors "@ + g.listener_udp_rcvbuf_err@);
    }
    if f.source_overflowed {
        assert(all[(one_if(f.caller_rcvbuf) + one_if(f.listener_rcvbuf)) as int] == "source overflow "@ + g.source_overflow@);
    }
    if f.queue_dropped {
        assert(all[(one_if(f.caller_rcvbuf) + one_if(f.listener_rcvbuf) + one_if(f.source_overflowed)) as int] == "datapath queue dropped "@ + g.datapath_queue_overflow@);
    }
    if f.retry_lost {
        assert(all[(one_if(f.caller_rcvbuf) + one_if(f.listener_rcvbuf) + one_if(f.source_overflowed) + one_if(f.queue_dropped)) as int] == "outbound retry loss "@ + g.outbound_retry_loss@);
    }
}

proof fn lemma_kept(f: PairFindings, g: PairFigures, t: Seq<char>)
    requires
        establishment_texts(f, g).contains(t) || flow_texts(f, g).contains(t) || drop_texts(
            f,
            g,
        ).contains(t),
    ensures
        unclean_texts(f, g).contains(t),
{
    let a = establishment_texts(f, g);
    let b = flow_texts(f, g);
    let c = drop_texts(f, g);
    lemma_in_three(a, b, c, t);
}

proof fn lemma_in_three(a: Seq<Seq<char>>, b: Seq<Seq<char>>, c: Seq<Seq<char>>, t: Seq<char>)
    requires
        a.contains(t) || b.contains(t) || c.contains(t),
    ensures
        (a + b + c).contains(t),
{
    let all = a + b + c;
    if a.contains(t) {
        assert(all[a.index_of(t)] == t);
    } else if b.contains(t) {
        assert(all[a.len() + b.index_of(t)] == t);
    } else {
        assert(all[a.len() + b.len() + c.index_of(t)] == t);
    }
}

/// Every criterion on a pair's connections that it fails is named by its own reason, with its
/// own figure.
pub proof fn faults_of_connections_are_named(f: PairFindings, g: PairFigures)
    ensures
        f.no_connections ==> unclean_texts(f, g).contains("physical connection count is zero ("@ + g.conns@ + ")"@),
        f.caller_partial ==> unclean_texts(f, g).contains("caller established "@ + g.caller_established@ + "/"@ + g.conns@),
        f.listener_partial ==> unclean_texts(f, g).contains("listener established "@ + g.listener_established@ + "/"@
            + g.logical_streams@),
        f.caller_torn ==> unclean_texts(f, g).contains("caller torn down "@ + g.torn_c@),
        f.listener_torn ==> unclean_texts(f, g).contains("listener torn down "@ + g.torn_l@),
{
    lemma_establishment_texts(f, g);
    if f.no_connections {
        lemma_kept(f, g, "physical connection count is zero ("@ + g.conns@ + ")"@);
    }
    if f.caller_partial {
        lemma_kept(f, g, "caller established "@ + g.caller_established@ + "/"@ + g.conns@);
    }
    if f.listener_partial {
        lemma_kept(f, g, "listener established "@ + g.listener_established@ + "/"@
            + g.logical_streams@);
    }
    if f.caller_torn {
        lemma_kept(f, g, "caller torn down "@ + g.torn_c@);
    }
    if f.listener_torn {
        lemma_kept(f, g, "listener torn down "@ + g.torn_l@);
    }
}

/// Every criterion on a pair's flow that it fails is named by its own reason, with its
/// own figure.
pub proof fn faults_of_flow_are_named(f: PairFindings, g: PairFigures)
    ensures
        f.offer_low ==> unclean_texts(f, g).contains("source offer "@ + g.offer_pct@ + "% < 99.0%"@),
        f.good_low ==> unclean_texts(f, g).contains("source goodput "@ + g.good_pct@ + "% < 99.0%"@),
        f.delivery_low ==> unclean_texts(f, g).contains("delivery "@ + g.deliv_pct@ + "% < 99.9%"@),
{
    lemma_flow_texts(f, g);
    if f.offer_low {
        lemma_kept(f, g, "source offer "@ + g.offer_pct@ + "% < 99.0%"@);
    }
    if f.good_low {
        lemma_kept(f, g, "source goodput "@ + g.good_pct@ + "% < 99.0%"@);
    }
    if f.delivery_low {
        lemma_kept(f, g, "delivery "@ + g.deliv_pct@ + "% < 99.9%"@);
    }
}

/// Every criterion on a pair's losses that it fails is named by its own reason, with its
/// own figure.
pub proof fn faults_of_losses_are_named(f: PairFindings, g: PairFigures)
    ensures
        f.caller_rcvbuf ==> unclean_texts(f, g).contains("caller UDP rcvbuf errors "@ + g.caller_udp_rcvbuf_err@),
        f.listener_rcvbuf ==> unclean_texts(f, g).contains("listener UDP rcvbuf errors "@ + g.listener_udp_rcvbuf_err@),
        f.source_overflowed ==> unclean_texts(f, g).contains("source overflow "@ + g.source_overflow@),
        f.queue_dropped ==> unclean_texts(f, g).contains("datapath queue dropped "@ + g.datapath_queue_overflow@),
        f.retry_lost ==> unclean_texts(f, g).contains("outbound retry loss "@ + g.outbound_retry_loss@),
{
    lemma_drop_texts(f, g);
    if f.caller_rcvbuf {
        lemma_kept(f, g, "caller UDP rcvbuf errors "@ + g.caller_udp_rcvbuf_err@);
    }
    if f.listener_rcvbuf {
        lemma_kept(f, g, "listener UDP rcvbuf errors "@ + g.listener_udp_rcvbuf_err@);
    }
    if f.source_overflowed {
        lemma_kept(f, g, "source overflow "@ + g.source_overflow@);
    }
    if f.queue_dropped {
        lemma_kept(f, g, "datapath queue dropped "@ + g.datapath_queue_overflow@);
    }
    if f.retry_lost {
        lemma_kept(f, g, "outbound retry loss "@ + g.outbound_retry_loss@);
    }
}

/// Nothing is said of a pair but one reason for each criterion that it fails: it is clean
/// exactly where it fails none.
pub proof fn only_faults_are_named(f: PairFindings, g: PairFigures)
    ensures
        unclean_texts(f, g).len() == faults(f),
        f.clean() <==> faults(f) == 0,
{
    lemma_establishment_texts(f, g);
    lemma_flow_texts(f, g);
    lemma_drop_texts(f, g);
}

/// A file passes exactly where every slot that has a row has both, can be computed, and
/// has nothing said against it.
pub proof fn a_pass_is_complete_and_clean(
    records: Seq<Seq<(Seq<char>, Seq<char>)>>,
    reasons: Seq<Seq<Seq<char>>>,
)
    requires
        reasons.len() == grouped(records).len(),
    ensures
        clean_answer(records, reasons) is Ok <==> forall|i: int|
            #![trigger grouped(records)[i]]
            0 <= i < grouped(records).len() ==> {
                let slot = grouped(records)[i];
                ||| slot.caller is None && slot.listener is None
                ||| slot.caller is Some && slot.listener is Some && measurable(
                    records[slot.caller->0 as int],
                    records[slot.listener->0 as int],
                ) && reasons[i].len() == 0
            },
{
    lemma_failures(records, reasons, grouped(records).len() as int);
}

proof fn lemma_failures(
    records: Seq<Seq<(Seq<char>, Seq<char>)>>,
    reasons: Seq<Seq<Seq<char>>>,
    n: int,
)
    requires
        0 <= n <= grouped(records).len(),
    ensures
        failures_in(grouped(records), records, reasons, n).len() == 0 <==> forall|i: int|
            #![trigger grouped(records)[i]]
            0 <= i < n ==> {
                let slot = grouped(records)[i];
                ||| slot.caller is None && slot.listener is None
                ||| slot.caller is Some && slot.listener is Some && measurable(
                    records[slot.caller->0 as int],
                    records[slot.listener->0 as int],
                ) && reasons[i].len() == 0
            },
    decreases n,
{
    if n > 0 {
        lemma_failures(records, reasons, n - 1);
        let slot = grouped(records)[n - 1];
        assert((slot_failure(slot, records, reasons[n - 1]) is None) == ((slot.caller is None
            && slot.listener is None) || (slot.caller is Some && slot.listener is Some
            && measurable(records[slot.caller->0 as int], records[slot.listener->0 as int])
            && reasons[n - 1].len() == 0)));
    }
}

/// The later row of a slot wins, and none that belongs there is overlooked.
pub proof fn later_rows_win(
    records: Seq<Seq<(Seq<char>, Seq<char>)>>,
    n: int,
    cell: Seq<char>,
    rep: Seq<char>,
    role: Seq<char>,
    i: int,
)
    requires
        0 <= i < n <= records.len() <= usize::MAX,
        fills(records[i], cell, rep, role),
    ensures
        ({
            let found = last_fill(records, n, cell, rep, role);
            &&& found is Some
            &&& i <= found->0 < n
            &&& field_in(records[found->0 as int], "role"@) == Some(role)
            &&& forall|j: int| found->0 < j < n ==> !fills(#[trigger] records[j], cell, rep, role)
        }),
    decreases n,
{
    if !fills(records[n - 1], cell, rep, role) {
        later_rows_win(records, n - 1, cell, rep, role, i);
    }
}

/// Rows of the same repetition but of different attempts never share a slot.
pub proof fn attempts_do_not_mix(
    a: Seq<(Seq<char>, Seq<char>)>,
    b: Seq<(Seq<char>, Seq<char>)>,
)
    requires
        field_in(a, "rep"@) == field_in(b, "rep"@),
        field_in(a, "attempt"@) is Some,
        field_in(b, "attempt"@) is Some,
        field_in(a, "attempt"@) != field_in(b, "attempt"@),
    ensures
        rep_label(a) != rep_label(b),
{
    let x = field_in(a, "attempt"@)->0;
    let y = field_in(b, "attempt"@)->0;
    let s = rep_label(a);
    let t = rep_label(b);
    let from = s.len() - x.len();
    if s == t {
        assert(t.len() - y.len() == from);
        assert(s.subrange(from, s.len() as int) =~= x);
        assert(t.subrange(from, t.len() as int) =~= y);
    }
}

/// The same attempt at another repetition is another slot.
pub proof fn repetitions_do_not_mix(
    a: Seq<(Seq<char>, Seq<char>)>,
    b: Seq<(Seq<char>, Seq<char>)>,
)
    requires
        field_in(a, "attempt"@) == field_in(b, "attempt"@),
        field_in(a, "rep"@) is Some,
        field_in(b, "rep"@) is Some,
        field_in(a, "rep"@) != field_in(b, "rep"@),
    ensures
        rep_label(a) != rep_label(b),
{
    let x = field_in(a, "rep"@)->0;
    let y = field_in(b, "rep"@)->0;
    let s = rep_label(a);
    let t = rep_label(b);
    if s == t {
        let z = " attempt="@ + match field_in(a, "attempt"@) {
            Some(v) => v,
            None => Seq::empty(),
        };
        assert(s =~= x + z);
        assert(t =~= y + z);
        assert(s.len() == x.len() + z.len() && t.len() == y.len() + z.len());
        assert(s.subrange(0, x.len() as int) =~= x);
        assert(t.subrange(0, y.len() as int) =~= y);
    }
}

} // verus!
