use srt_bench::compare::{
    cell_is_clean, cell_key, check_clean_file, describe_srt_pacing, extract_key_field,
    format_short_cell_label, group_records_by_cell, pair_inputs, render_reps_string,
    render_unmatched_section, summarize_cells, PairFigures, PairFindings,
};
use srt_bench::medians::{group_inputs, target_inputs};
use srt_bench::record::Record;
use srt_bench::report::{report, report_groups, report_headers};
use srt_bench::results::{columns, header_line, parse_results};
use srt_bench::scorecard::{
    compare_files, match_cells, render_markdown_cell_row, render_table_cell_row, Capacity,
    CellComparison, Frontier, SideFigures, SpreadText,
};
use srt_bench::series::{github_benchmark_json, spread_by, throughput_series};

const PAYLOAD: f64 = 1316.0;

fn test_row(role: &str, own: &[(&str, &str)]) -> Record {
    let mut fields: Vec<(String, String)> = [
        ("runtime", "mio"),
        ("encryption", "plain"),
        ("role", role),
        ("ingress", "shared-pool:4"),
        ("egress", "per-connection"),
        ("promotion", "all"),
        ("cookie", "on"),
        ("batch", "on"),
        ("sock_buf_requested_bytes", "16777216"),
        ("cpus", "6"),
        ("pin", "off"),
        ("link_delay", "off"),
        ("link_jitter", "off"),
        ("link_loss", "off"),
        ("link_rate", "off"),
        ("link_reorder", "off"),
        ("link_duplicate", "off"),
        ("link_corrupt", "off"),
        ("link_limit", "off"),
        ("workers", "1"),
    ]
    .iter()
    .chain(own.iter())
    .map(|(k, v)| (k.to_string(), v.to_string()))
    .collect();
    if role == "listener" {
        fields.push(("rtt_ms".to_string(), "1.5".to_string()));
    }
    Record { fields }
}

#[allow(clippy::too_many_arguments)]
fn make_row(
    role: &str,
    rep: &str,
    conns: &str,
    source_bps: &str,
    secs: &str,
    core_total: &str,
    cpu_user: &str,
    cpu_sys: &str,
    rss: &str,
    sec_a: &str,
    sec_b: &str,
    torn: &str,
    estab: &str,
    rcvbuf_err: &str,
) -> Record {
    test_row(
        role,
        &[
            ("conns", conns),
            ("source_bps", source_bps),
            ("secs", secs),
            ("rep", rep),
            ("established", estab),
            ("torn_down", torn),
            ("core_total", core_total),
            ("sec_a", sec_a),
            ("sec_b", sec_b),
            ("cpu_user_ms", cpu_user),
            ("cpu_sys_ms", cpu_sys),
            ("peak_rss_kb", rss),
            ("udp_rcvbuf_err", rcvbuf_err),
        ],
    )
}

/// The figures of a pair, computed the way the harness computes them.
#[derive(Debug)]
struct Metrics {
    conns: f64,
    logical_streams: f64,
    source_streams: f64,
    caller_established: f64,
    listener_established: f64,
    torn_c: f64,
    torn_l: f64,
    offer_pct: f64,
    good_pct: f64,
    deliv_pct: f64,
    caller_cpu_ms: f64,
    listener_cpu_ms: f64,
    caller_peak_rss_kb: f64,
    listener_peak_rss_kb: f64,
    caller_retransmits: f64,
    caller_loss_list: f64,
    listener_lost: f64,
    listener_duplicates: f64,
    caller_udp_rcvbuf_err: f64,
    listener_udp_rcvbuf_err: f64,
    source_overflow: f64,
    datapath_queue_overflow: f64,
    outbound_retry_loss: f64,
}

fn number(text: &Option<String>) -> f64 {
    text.as_ref().map_or(0.0, |t| t.parse().unwrap())
}

fn ratio(num: f64, den: f64) -> f64 {
    if den > 0.0 {
        100.0 * num / den
    } else {
        0.0
    }
}

fn compute(caller: &Record, listener: &Record) -> Option<Metrics> {
    let p = pair_inputs(caller, listener)?;
    let conns: f64 = p.workload.conns.parse().unwrap();
    let source_bps: f64 = p.workload.source_bps.parse().unwrap();
    let secs: f64 = p.workload.secs.parse().unwrap();
    let logical_streams = Some(number(&p.workload.logical_streams))
        .filter(|n| *n > 0.0)
        .unwrap_or(conns);
    let source_streams = Some(number(&p.workload.source_streams))
        .filter(|n| *n > 0.0)
        .unwrap_or(logical_streams);
    let (sent, recv) = (number(&p.traffic.sent_pkts), number(&p.traffic.recv_pkts));
    let target = (source_streams * (source_bps / 8.0) * secs) / PAYLOAD;
    Some(Metrics {
        conns,
        logical_streams,
        source_streams,
        caller_established: number(&p.traffic.caller_established),
        listener_established: number(&p.traffic.listener_established),
        torn_c: number(&p.traffic.torn_c),
        torn_l: number(&p.traffic.torn_l),
        offer_pct: ratio(sent, target),
        good_pct: ratio(recv, target),
        deliv_pct: ratio(recv, sent),
        caller_cpu_ms: number(&p.traffic.caller_cpu_user_ms) + number(&p.traffic.caller_cpu_sys_ms),
        listener_cpu_ms: number(&p.traffic.listener_cpu_user_ms)
            + number(&p.traffic.listener_cpu_sys_ms),
        caller_peak_rss_kb: number(&p.traffic.caller_peak_rss_kb),
        listener_peak_rss_kb: number(&p.traffic.listener_peak_rss_kb),
        caller_retransmits: number(&p.losses.caller_retransmits),
        caller_loss_list: number(&p.losses.caller_loss_list),
        listener_lost: number(&p.losses.listener_lost),
        listener_duplicates: number(&p.losses.listener_duplicates),
        caller_udp_rcvbuf_err: number(&p.losses.caller_udp_rcvbuf_err),
        listener_udp_rcvbuf_err: number(&p.losses.listener_udp_rcvbuf_err),
        source_overflow: number(&p.losses.source_overflow),
        datapath_queue_overflow: number(&p.losses.caller_queue_dropped)
            + number(&p.losses.listener_queue_dropped),
        outbound_retry_loss: number(&p.losses.caller_local_dropped)
            + number(&p.losses.listener_local_dropped),
    })
}

impl Metrics {
    fn findings(&self) -> PairFindings {
        PairFindings {
            no_connections: self.conns <= 0.0,
            caller_partial: self.caller_established != self.conns,
            listener_partial: self.listener_established != self.logical_streams,
            caller_torn: self.torn_c > 0.0,
            listener_torn: self.torn_l > 0.0,
            offer_low: self.offer_pct < 99.0,
            good_low: self.good_pct < 99.0,
            delivery_low: self.deliv_pct < 99.9,
            caller_rcvbuf: self.caller_udp_rcvbuf_err > 0.0,
            listener_rcvbuf: self.listener_udp_rcvbuf_err > 0.0,
            source_overflowed: self.source_overflow > 0.0,
            queue_dropped: self.datapath_queue_overflow > 0.0,
            retry_lost: self.outbound_retry_loss > 0.0,
        }
    }

    fn unclean_reasons(&self) -> Vec<String> {
        self.findings().unclean_reasons(&PairFigures {
            conns: self.conns.to_string(),
            caller_established: self.caller_established.to_string(),
            logical_streams: self.logical_streams.to_string(),
            listener_established: self.listener_established.to_string(),
            torn_c: self.torn_c.to_string(),
            torn_l: self.torn_l.to_string(),
            offer_pct: format!("{:.1}", self.offer_pct),
            good_pct: format!("{:.1}", self.good_pct),
            deliv_pct: format!("{:.1}", self.deliv_pct),
            caller_udp_rcvbuf_err: self.caller_udp_rcvbuf_err.to_string(),
            listener_udp_rcvbuf_err: self.listener_udp_rcvbuf_err.to_string(),
            source_overflow: self.source_overflow.to_string(),
            datapath_queue_overflow: self.datapath_queue_overflow.to_string(),
            outbound_retry_loss: self.outbound_retry_loss.to_string(),
        })
    }

    fn is_clean(&self) -> bool {
        let clean = self.findings().is_clean();
        assert_eq!(clean, self.unclean_reasons().is_empty());
        clean
    }
}

#[test]
fn test_format_short_cell_label() {
    let key = "runtime=mio conns=600 source_bps=1000000 encryption=plain ingress=shared-pool:4 bond=none link_loss=0 link_reorder=0";
    let label = format_short_cell_label(key);
    assert_eq!(label, "mio 600c×1M shared-pool:4");

    let key_loss = "runtime=tokio conns=1 source_bps=8000000 encryption=256 ingress=per-port bond=none link_loss=0.01 link_reorder=0";
    let label_loss = format_short_cell_label(key_loss);
    assert_eq!(label_loss, "tokio 1c×8M 256 loss=0.01");
}

#[test]
fn short_labels_name_bonds_and_small_rates() {
    assert_eq!(
        format_short_cell_label(
            "runtime=mio conns=2 source_bps=9000 bond=broadcast:1 link_reorder=5%"
        ),
        "mio 2c×9k broadcast:1 reorder=5%"
    );
    assert_eq!(
        format_short_cell_label("runtime=mio conns=2 source_bps=900"),
        "mio 2c×900"
    );
    assert_eq!(extract_key_field("a=1 b=x=y c", "b"), "x=y");
    assert_eq!(extract_key_field("a=1 b=2", "c"), "");
    assert_eq!(describe_srt_pacing("a=1"), "SRT pacing: unrecorded");
    assert_eq!(
        describe_srt_pacing("srt_bw_mode=fixed:5"),
        "SRT pacing: fixed:5"
    );
}

#[test]
fn a_scoped_column_shadows_its_unscoped_one() {
    let plain = Record {
        fields: vec![
            ("runtime".to_string(), "mio".to_string()),
            ("workers".to_string(), "1".to_string()),
        ],
    };
    assert_eq!(cell_key(&plain), "runtime=mio workers=1");
    let split = Record {
        fields: vec![
            ("runtime".to_string(), "mio".to_string()),
            ("workers".to_string(), "1".to_string()),
            ("recv_workers".to_string(), "2".to_string()),
        ],
    };
    let key = cell_key(&split);
    assert!(key.starts_with("runtime=mio"));
    assert!(!key.split(' ').any(|part| part.starts_with("workers=")));
}

#[test]
fn test_recovery_semantics() {
    // Source target, payload denominator:
    // (10 * (1_000_000 / 8) * 10) / 1316 = 1_250_000 / 1316 = 9498.5 -> 9499 pkts
    let caller = make_row(
        "caller", "1", "10", "1000000", "10", "9499", "120.0", "80.0", "2048", "42", "7", "0",
        "10", "0",
    );
    let listener = make_row(
        "listener", "1", "10", "1000000", "10", "9499", "150.0", "100.0", "4096", "15", "3", "0",
        "10", "0",
    );
    let m = compute(&caller, &listener).expect("pair metrics compute");

    // caller sec_a -> retransmits, sec_b -> loss_list
    assert_eq!(m.caller_retransmits, 42.0);
    assert_eq!(m.caller_loss_list, 7.0);

    // listener sec_a -> lost, sec_b -> duplicates
    assert_eq!(m.listener_lost, 15.0);
    assert_eq!(m.listener_duplicates, 3.0);
}

#[test]
fn test_role_separated_metrics() {
    let caller = make_row(
        "caller", "1", "10", "1000000", "10", "9499", "120.0", "80.0", "2048", "0", "0", "0", "10",
        "0",
    );
    let listener = make_row(
        "listener", "1", "10", "1000000", "10", "9499", "150.0", "100.0", "4096", "0", "0", "0",
        "10", "0",
    );
    let m = compute(&caller, &listener).expect("pair metrics compute");

    assert_eq!(m.conns, 10.0);
    assert_eq!(m.caller_established, 10.0);
    assert_eq!(m.listener_established, 10.0);
    assert_eq!(m.deliv_pct, 100.0);
    assert!(m.offer_pct >= 99.0);
    assert!(m.good_pct >= 99.0);

    // Role-separated RSS per connection
    assert_eq!(m.caller_peak_rss_kb / m.caller_established, 204.8);
    assert_eq!(m.listener_peak_rss_kb / m.listener_established, 409.6);

    // CPU metrics
    assert_eq!(m.caller_cpu_ms, 200.0);
    assert_eq!(m.listener_cpu_ms, 250.0);
    assert_eq!(m.caller_cpu_ms + m.listener_cpu_ms, 450.0);
    assert!(m.is_clean());
}

fn usual_caller(core_total: &str, torn: &str, estab: &str, rcvbuf_err: &str) -> Record {
    make_row(
        "caller", "1", "10", "1000000", "10", core_total, "100.0", "100.0", "1000", "0", "0", torn,
        estab, rcvbuf_err,
    )
}

fn usual_listener(core_total: &str, torn: &str, estab: &str, rcvbuf_err: &str) -> Record {
    make_row(
        "listener", "1", "10", "1000000", "10", core_total, "100.0", "100.0", "1000", "0", "0",
        torn, estab, rcvbuf_err,
    )
}

#[test]
fn test_clean_predicate_thresholds() {
    let c = usual_caller("9499", "0", "10", "0");
    let l = usual_listener("9499", "0", "10", "0");
    assert!(compute(&c, &l).unwrap().is_clean());

    // 1. Offer < 99% rejected
    let c_low_offer = usual_caller("8000", "0", "10", "0");
    let l_matched = usual_listener("8000", "0", "10", "0");
    let m_low_offer = compute(&c_low_offer, &l_matched).unwrap();
    assert_eq!(m_low_offer.deliv_pct, 100.0);
    assert!(m_low_offer.offer_pct < 99.0);
    assert!(
        !m_low_offer.is_clean(),
        "offer < 99% must be rejected as clean capacity"
    );

    // 2. Goodput < 99% rejected
    let l_low_recv = usual_listener("8000", "0", "10", "0");
    let m_low_good = compute(&c, &l_low_recv).unwrap();
    assert!(m_low_good.good_pct < 99.0);
    assert!(
        !m_low_good.is_clean(),
        "goodput < 99% must be rejected as clean capacity"
    );

    // 3. Delivery < 99.9% rejected
    let l_lost = usual_listener("9300", "0", "10", "0");
    let m_low_deliv = compute(&c, &l_lost).unwrap();
    assert!(m_low_deliv.deliv_pct < 99.9);
    assert!(!m_low_deliv.is_clean(), "deliv < 99.9% must be rejected");

    // 4. UDP receive-buffer drop rejected (listener or caller)
    let l_drop = usual_listener("9499", "0", "10", "5");
    assert!(
        !compute(&c, &l_drop).unwrap().is_clean(),
        "listener udp_rcvbuf_err > 0 must be rejected"
    );
    let c_drop = usual_caller("9499", "0", "10", "3");
    assert!(
        !compute(&c_drop, &l).unwrap().is_clean(),
        "caller udp_rcvbuf_err > 0 must be rejected"
    );

    // 5. Caller or listener unestablished rejected
    let c_unestab = usual_caller("9499", "0", "9", "0");
    assert!(
        !compute(&c_unestab, &l).unwrap().is_clean(),
        "caller_established < conns must be rejected"
    );
    let l_unestab = usual_listener("9499", "0", "9", "0");
    assert!(
        !compute(&c, &l_unestab).unwrap().is_clean(),
        "listener_established < conns must be rejected"
    );

    // 6. Torn connections rejected
    let c_torn = usual_caller("9499", "1", "10", "0");
    assert!(
        !compute(&c_torn, &l).unwrap().is_clean(),
        "torn_c > 0 must be rejected"
    );
    let l_torn = usual_listener("9499", "1", "10", "0");
    assert!(
        !compute(&c, &l_torn).unwrap().is_clean(),
        "torn_l > 0 must be rejected"
    );
}

#[test]
fn test_unclean_reasons_diagnostics() {
    let c = usual_caller("9499", "0", "9", "5");
    let l = usual_listener("9499", "1", "10", "10");
    let m = compute(&c, &l).unwrap();
    assert!(!m.is_clean());
    let reasons = m.unclean_reasons();
    assert!(reasons
        .iter()
        .any(|r| r.contains("caller established 9/10")));
    assert!(reasons.iter().any(|r| r.contains("listener torn down 1")));
    assert!(reasons
        .iter()
        .any(|r| r.contains("caller UDP rcvbuf errors 5")));
    assert!(reasons
        .iter()
        .any(|r| r.contains("listener UDP rcvbuf errors 10")));
}

#[test]
fn every_reason_is_said_in_order() {
    let all = PairFindings {
        no_connections: true,
        caller_partial: true,
        listener_partial: true,
        caller_torn: true,
        listener_torn: true,
        offer_low: true,
        good_low: true,
        delivery_low: true,
        caller_rcvbuf: true,
        listener_rcvbuf: true,
        source_overflowed: true,
        queue_dropped: true,
        retry_lost: true,
    };
    let t = |s: &str| s.to_string();
    let reasons = all.unclean_reasons(&PairFigures {
        conns: t("0"),
        caller_established: t("1"),
        logical_streams: t("2"),
        listener_established: t("3"),
        torn_c: t("4"),
        torn_l: t("5"),
        offer_pct: t("6.0"),
        good_pct: t("7.0"),
        deliv_pct: t("8.0"),
        caller_udp_rcvbuf_err: t("9"),
        listener_udp_rcvbuf_err: t("10"),
        source_overflow: t("11"),
        datapath_queue_overflow: t("12"),
        outbound_retry_loss: t("13"),
    });
    assert_eq!(
        reasons,
        [
            "physical connection count is zero (0)",
            "caller established 1/0",
            "listener established 3/2",
            "caller torn down 4",
            "listener torn down 5",
            "source offer 6.0% < 99.0%",
            "source goodput 7.0% < 99.0%",
            "delivery 8.0% < 99.9%",
            "caller UDP rcvbuf errors 9",
            "listener UDP rcvbuf errors 10",
            "source overflow 11",
            "datapath queue dropped 12",
            "outbound retry loss 13",
        ]
    );
}

#[test]
fn summaries_do_not_pair_rows_from_different_attempts() {
    let mut caller = usual_caller("9499", "0", "10", "0");
    let mut listener = usual_listener("9499", "0", "10", "0");
    caller.fields.push(("attempt".into(), "old".into()));
    listener.fields.push(("attempt".into(), "new".into()));

    let summaries = summarize_cells(&vec![caller, listener]);
    let summary = summaries.first().unwrap();
    assert_eq!(summary.pairs.len(), 0);
    assert_eq!(summary.incomplete_reps, 2);
    assert!(!cell_is_clean(&Vec::new(), summary.incomplete_reps));
}

/// Why each slot of a file that can be computed is not clean.
fn reasons(records: &Vec<Record>) -> Vec<Vec<String>> {
    group_records_by_cell(records)
        .iter()
        .map(|slot| match (slot.caller, slot.listener) {
            (Some(c), Some(l)) => compute(&records[c], &records[l])
                .map(|m| m.unclean_reasons())
                .unwrap_or_default(),
            _ => Vec::new(),
        })
        .collect()
}

fn check(records: &Vec<Record>) -> Result<String, String> {
    check_clean_file("x.tsv", records, &reasons(records))
}

#[test]
fn test_check_clean_file_clean_and_unclean() {
    let header = header_line();
    let mut c_row = vec![String::new(); columns().len()];
    let mut l_row = vec![String::new(); columns().len()];

    let set_field = |row: &mut [String], col: &str, val: &str| {
        if let Some(pos) = columns().iter().position(|&c| c == col) {
            row[pos] = val.to_string();
        }
    };

    for row in [&mut c_row, &mut l_row] {
        set_field(row, "runtime", "mio");
        set_field(row, "encryption", "plain");
        set_field(row, "ingress", "per-port");
        set_field(row, "egress", "per-connection");
        set_field(row, "promotion", "relocate");
        set_field(row, "cookie", "on");
        set_field(row, "batch", "on");
        set_field(row, "recv_rounds", "8");
        set_field(row, "would_block_policy", "retain");
        set_field(row, "sock_buf_requested_bytes", "16777216");
        set_field(row, "sock_rcvbuf_effective_min_bytes", "2097152");
        set_field(row, "sock_rcvbuf_effective_max_bytes", "2097152");
        set_field(row, "sock_sndbuf_effective_min_bytes", "2097152");
        set_field(row, "sock_sndbuf_effective_max_bytes", "2097152");
        set_field(row, "cpus", "0-3");
        set_field(row, "pin", "off");
        set_field(row, "workers", "1");
        set_field(row, "conns", "10");
        set_field(row, "logical_streams", "10");
        set_field(row, "source_streams", "10");
        set_field(row, "connect_cc", "1");
        set_field(row, "cc_peak", "1");
        set_field(row, "bond", "none");
        set_field(row, "source_bps", "1000000");
        set_field(row, "srt_bw_mode", "input-relative:25");
        set_field(row, "source_backlog_ms", "250");
        set_field(row, "datapath_q_horizon_ms", "250");
        set_field(row, "retry_horizon_ms", "250");
        set_field(row, "rep", "1");
        set_field(row, "secs", "10");
        set_field(row, "attempt", "test-1");
        set_field(row, "established", "10");
        set_field(row, "torn_down", "0");
        set_field(row, "pkt_sent", "9499");
        set_field(row, "core_total", "9499");
        set_field(row, "udp_rcvbuf_err", "0");
        set_field(row, "src_overflow", "0");
        set_field(row, "datapath_q_dropped", "0");
        set_field(row, "local_dropped", "0");
    }
    set_field(&mut c_row, "role", "caller");
    set_field(&mut l_row, "role", "listener");

    let clean_content = format!("{}\n{}\n{}\n", header, c_row.join("\t"), l_row.join("\t"));
    let res = check(&parse_results(&clean_content).unwrap());
    assert!(res.is_ok(), "clean file must pass: {:?}", res.err());
    assert_eq!(
        res.unwrap(),
        "check-clean: OK: all 1 cells (1 pairs) satisfy the canonical clean predicate\n"
    );

    // Now test unclean file (failed establishment)
    let mut bad_c_row = c_row.clone();
    set_field(&mut bad_c_row, "established", "9");
    let unclean_content = format!(
        "{}\n{}\n{}\n",
        header,
        bad_c_row.join("\t"),
        l_row.join("\t")
    );
    let bad_res = check(&parse_results(&unclean_content).unwrap());
    assert!(bad_res.is_err(), "unclean file must fail");
    assert!(bad_res.unwrap_err().contains("caller established 9/10"));

    // Incomplete file (missing listener)
    let incomplete_content = format!("{}\n{}\n", header, c_row.join("\t"));
    let inc_res = check(&parse_results(&incomplete_content).unwrap());
    assert!(inc_res.is_err(), "incomplete file must fail");
    let text = inc_res.unwrap_err();
    assert!(text.contains("missing listener row"));
    assert!(text.ends_with(
        "check-clean: FAILED: 1 incomplete, 0 unclean out of 1 total pairs across 1 cells\n"
    ));

    assert_eq!(
        check(&Vec::new()).unwrap_err(),
        "check-clean: x.tsv: result file has no rows\n"
    );
}

#[test]
fn an_unmeasurable_pair_fails_the_check() {
    let mut caller = usual_caller("9499", "0", "10", "0");
    let mut listener = usual_listener("9499", "0", "10", "0");
    for r in [&mut caller, &mut listener] {
        r.fields.retain(|(k, _)| k != "secs");
    }
    assert!(pair_inputs(&caller, &listener).is_none());
    let error = check(&vec![caller, listener]).unwrap_err();
    assert!(error.contains("could not compute pair metrics"));
}

#[test]
fn a_bonded_cell_is_measured_against_streams_not_physical_legs() {
    // 10 physical legs = 5 bonded groups = 5 sources.
    // Source target: 5 * 125000 * 10 / 1316 = 4749.2 -> 4750 packets.
    let mut caller = usual_caller("4750", "0", "10", "0");
    caller
        .fields
        .push(("logical_streams".to_string(), "5".to_string()));
    caller
        .fields
        .push(("source_streams".to_string(), "5".to_string()));
    let mut listener = usual_listener("4750", "0", "5", "0");
    listener
        .fields
        .push(("logical_streams".to_string(), "5".to_string()));

    let metrics = compute(&caller, &listener).expect("pair metrics");
    assert_eq!(metrics.source_streams, 5.0);
    assert!(
        (metrics.offer_pct - 100.0).abs() < 0.5,
        "a source that produced its full workload must read as ~100%, got {}",
        metrics.offer_pct
    );
    assert!(
        metrics.is_clean(),
        "a healthy bonded cell must be clean: listener admits {} of {} logical streams",
        metrics.listener_established,
        metrics.logical_streams
    );
}

#[test]
fn an_unbonded_cell_still_uses_the_physical_connection_count() {
    let caller = usual_caller("9499", "0", "10", "0");
    let listener = usual_listener("9499", "0", "10", "0");
    let metrics = compute(&caller, &listener).expect("pair metrics");
    assert_eq!(metrics.source_streams, 10.0);
    assert_eq!(metrics.logical_streams, 10.0);
    assert!(metrics.is_clean());
}

#[test]
fn datapath_queue_overflow_invalidates_a_clean_pair() {
    let c = usual_caller("9499", "0", "10", "0");
    let mut l = usual_listener("9499", "0", "10", "0");
    assert!(compute(&c, &l).unwrap().is_clean());
    l.fields
        .push(("datapath_q_dropped".to_string(), "1".to_string()));
    assert!(!compute(&c, &l).unwrap().is_clean());
}

#[test]
fn outbound_retry_loss_invalidates_a_clean_pair() {
    let mut c = usual_caller("9499", "0", "10", "0");
    let l = usual_listener("9499", "0", "10", "0");
    assert!(compute(&c, &l).unwrap().is_clean());
    // A retry overflow is also a local drop, so the total is what the predicate reads.
    c.fields
        .push(("retry_overflow".to_string(), "1".to_string()));
    c.fields
        .push(("local_dropped".to_string(), "1".to_string()));
    let metrics = compute(&c, &l).unwrap();
    assert!(!metrics.is_clean());
    assert_eq!(
        metrics.outbound_retry_loss, 1.0,
        "`retry_overflow` is a reason inside `local_dropped`, not a second loss to add to it"
    );
}

#[test]
fn a_would_block_drop_counts_even_without_overflow() {
    let mut c = usual_caller("9499", "0", "10", "0");
    let l = usual_listener("9499", "0", "10", "0");
    c.fields
        .push(("retry_overflow".to_string(), "0".to_string()));
    c.fields
        .push(("local_dropped".to_string(), "7".to_string()));
    let metrics = compute(&c, &l).unwrap();
    assert_eq!(metrics.outbound_retry_loss, 7.0);
    assert!(!metrics.is_clean());
}

#[test]
fn test_cell_level_all_reps_required_for_clean() {
    let mut records = Vec::new();
    for rep in ["1", "2", "3", "4", "5"] {
        // Rep 5 has 1 UDP drop.
        let drops = if rep == "5" { "1" } else { "0" };
        records.push(make_row(
            "caller", rep, "10", "1000000", "10", "9499", "100.0", "100.0", "1000", "0", "0", "0",
            "10", "0",
        ));
        records.push(make_row(
            "listener", rep, "10", "1000000", "10", "9499", "100.0", "100.0", "1000", "0", "0",
            "0", "10", drops,
        ));
    }
    let summaries = summarize_cells(&records);
    assert_eq!(summaries.len(), 1);
    let summary = summaries.first().unwrap();
    assert_eq!(summary.pairs.len(), 5);
    let metrics: Vec<Metrics> = summary
        .pairs
        .iter()
        .map(|(c, l)| compute(&records[*c], &records[*l]).unwrap())
        .collect();
    let mut drops: Vec<f64> = metrics.iter().map(|m| m.listener_udp_rcvbuf_err).collect();
    drops.sort_by(f64::total_cmp);
    assert_eq!(drops[2], 0.0); // Median is 0!
    let findings: Vec<PairFindings> = metrics.iter().map(Metrics::findings).collect();
    assert!(
        !cell_is_clean(&findings, summary.incomplete_reps),
        "One failed repetition out of five must invalidate cell cleanliness"
    );
    assert!(cell_is_clean(&findings[..4].to_vec(), 0));
    assert!(!cell_is_clean(&findings[..4].to_vec(), 1));
}

#[test]
fn test_pairing_and_config_isolation() {
    let mut r1 = usual_caller("9499", "0", "10", "0");
    r1.fields.retain(|(k, _)| k != "pin");
    r1.fields.push(("pin".to_string(), "off".to_string()));

    let mut r2 = usual_caller("9499", "0", "10", "0");
    r2.fields.retain(|(k, _)| k != "pin");
    r2.fields.push(("pin".to_string(), "on".to_string()));

    let l1 = usual_listener("9499", "0", "10", "0");

    let records = vec![r1, r2, l1];
    let summaries = summarize_cells(&records);
    assert_eq!(
        summaries.len(),
        2,
        "Cells differing in pin must be distinct"
    );
}

fn spread(median: &str) -> SpreadText {
    SpreadText {
        median: median.to_string(),
        min: "1".to_string(),
        max: "9".to_string(),
    }
}

fn side(pairs: usize, incomplete_reps: usize) -> SideFigures {
    let t = |s: &str| s.to_string();
    SideFigures {
        pairs,
        incomplete_reps,
        clean: incomplete_reps == 0,
        offer: t("99.5"),
        good: t("99.4"),
        delivery: t("99.9"),
        offer_whole: t("100"),
        good_whole: t("99"),
        cpu_per_gbit: spread("5.0"),
        cpu_per_gbit_whole: spread("5"),
        caller_cpu: t("2.0"),
        listener_cpu: t("3.0"),
        caller_rss: t("204"),
        listener_rss: t("409"),
        retransmits: t("1"),
        lost: t("2"),
        duplicates: t("3"),
        rtt: t("1.50"),
    }
}

fn comparison(base: SideFigures, head: SideFigures) -> CellComparison {
    let t = |s: &str| s.to_string();
    CellComparison {
        base,
        head,
        cpu_per_gbit_delta: t("+1.0"),
        caller_cpu_delta: t("-2.0"),
        listener_cpu_delta: t("+3.0"),
        caller_rss_delta: t("+4.0"),
        listener_rss_delta: t("+5.0"),
        overlap: true,
    }
}

#[test]
fn a_row_of_the_scorecard_is_laid_out() {
    let row = render_markdown_cell_row("mio", &comparison(side(3, 0), side(3, 0)));
    assert_eq!(
        row,
        "| **mio** | n=3 | 99.5% → 99.5% | 99.4% → 99.4% | 99.9% → 99.9% | yes/yes | \
         5.0 [1..9] → 5.0 [1..9] (**+1.0%**, overlap: yes) | 2.0 → 2.0 (-2.0%) | \
         3.0 → 3.0 (+3.0%) | C: 204→204 (+4.0%), L: 409→409 (+5.0%) | \
         Retx: 1→1, Lost: 2→2, Dup: 3→3 | 1.50 → 1.50 |\n"
    );
    let gap = render_markdown_cell_row("mio", &comparison(side(0, 2), side(3, 0)));
    assert_eq!(
        gap,
        "| **mio** | B=0/2 H=3/3 | incomplete (no complete pairs) | -- | -- | -- | -- | -- | -- |\n"
    );
    assert_eq!(render_reps_string(2, 1, 3, 0), "B=2/3 H=3/3 (unequal)");
}

#[test]
fn a_row_of_the_table_is_laid_out() {
    let row = render_table_cell_row("mio", &comparison(side(3, 0), side(3, 0)));
    assert_eq!(
        row,
        format!(
            "{:<32} {:>7} {:>11} {:>11} {:>6}% {:>7} {:>17} {:>17} {:>10}% {:>7} {:>9}% {:>9}% {:>4}/{:<4}\n",
            "mio", "n=3", "100%->100%", "99%->99%", "99.9", "Y/Y", "5 [1..9]", "5 [1..9]", "+1.0",
            "yes", "-2.0", "+3.0", "204", "409"
        )
    );
    let gap = render_table_cell_row("mio", &comparison(side(0, 2), side(3, 0)));
    assert_eq!(
        gap,
        format!(
            "{:<32} {:>7} {:>8} {:>17} {:>17} {:>11} {:>7} {:>10} {:>10} {:>9}\n",
            "mio", "B0H3", "incompl", "--", "--", "--", "--", "--", "--", "--"
        )
    );
}

#[test]
fn cells_are_matched_by_their_keys() {
    let keys = |list: &[&str]| list.iter().map(|k| k.to_string()).collect::<Vec<String>>();
    let m = match_cells(&keys(&["a", "b", "c"]), &keys(&["b", "c", "d"]));
    assert_eq!(m.both, ["b", "c"]);
    assert_eq!(m.base_only, ["a"]);
    assert_eq!(m.head_only, ["d"]);

    let rows = vec![
        comparison(side(3, 0), side(3, 0)),
        comparison(side(3, 0), side(2, 1)),
    ];
    let capacity = |rate: &str| Capacity {
        rate: rate.to_string(),
        frontier: Some(Frontier {
            key: "runtime=mio conns=1 source_bps=8000000".to_string(),
            achieved: "0.008".to_string(),
            offer: "100.0".to_string(),
            good: "99.9".to_string(),
        }),
    };
    let none = Capacity {
        rate: "0.000".to_string(),
        frontier: None,
    };
    let card = compare_files(
        "b.tsv",
        "h.tsv",
        &capacity("0.008"),
        &none,
        "-100.0",
        &m,
        &rows,
        true,
    );
    assert!(card.starts_with("# Pre/Post DSA End-to-End Benchmark Scorecard\n\n"));
    assert!(card.contains(
        "mio 1c×8M (source workload: 0.008 Gbit/s, SRT pacing: unrecorded, achieved payload: \
         0.008 Gbit/s, offer: 100.0%, good: 99.9%)"
    ));
    assert!(card.contains("none (no cell met strict >=99% offer/good across all repetitions)"));
    assert!(card.contains("**Baseline Only Cells (missing in HEAD)**:\n- ` c×`\n"));
    let table = compare_files(
        "b.tsv",
        "h.tsv",
        &none,
        &capacity("0.008"),
        "+0.0",
        &m,
        &rows,
        false,
    );
    assert!(table.contains("Max Clean Aggregate Rate: 0.000 Gbit/s -> 0.008 Gbit/s (+0.0%)\n"));
    assert!(table.contains(&format!("\n{}\n", "-".repeat(160))));
    assert!(table.ends_with(
        "\nWarning: 1 cells only present in baseline\nWarning: 1 cells only present in head\n"
    ));
    assert_eq!(
        render_unmatched_section(&keys(&[]), &keys(&["runtime=mio conns=1 source_bps=5"])),
        "### Unmatched Workload Cells\n\n**HEAD Only Cells (missing in Baseline)**:\n\
         - `mio 1c×5`\n\n"
    );
}

// ----- Reports -----

fn rec(pairs: &[(&str, &str)]) -> Record {
    Record {
        fields: pairs
            .iter()
            .map(|(k, v)| (k.to_string(), v.to_string()))
            .collect(),
    }
}

/// Base row: one runtime, one cell, everything a report reads.
fn row(role: &str, rep: &str, sent: &str, retx: &str) -> Record {
    rec(&[
        ("runtime", "smol"),
        ("role", role),
        ("rep", rep),
        ("conns", "400"),
        ("source_bps", "8000000"),
        ("secs", "10"),
        ("established", "400"),
        ("core_total", sent),
        ("sec_a", retx),
        ("rtt_ms", "1"),
        ("cpu_user_ms", "0"),
        ("cpu_sys_ms", "0"),
        ("peak_rss_kb", "0"),
        ("udp_rcvbuf_err", "0"),
    ])
}

fn median(mut values: Vec<f64>) -> f64 {
    values.sort_by(f64::total_cmp);
    if values.is_empty() {
        0.0
    } else {
        values[values.len() / 2]
    }
}

fn report_of(rows: &Vec<Record>, group_by: &[&str]) -> String {
    let group_by: Vec<String> = group_by.iter().map(|g| g.to_string()).collect();
    let measures: Vec<Vec<String>> = report_groups(rows, &group_by)
        .iter()
        .map(|group| {
            let inputs = group_inputs(rows, &group.pairs);
            let middle = |texts: &Vec<String>| {
                median(texts.iter().filter_map(|t| t.parse().ok()).collect())
            };
            let (sent, recv) = (middle(&inputs.sent), middle(&inputs.received));
            let asked = target_inputs(&rows[group.pairs[0].0]).unwrap();
            let number = |text: &str| text.parse::<f64>().unwrap();
            let target = number(asked.conns.as_deref().unwrap())
                * (number(&asked.source_bps) / 8.0)
                * number(&asked.secs)
                / PAYLOAD;
            vec![
                format!("{:.0}", middle(&inputs.established)),
                format!("{sent:.0}"),
                format!("{recv:.0}"),
                format!("{:.1}", 100.0 * sent / target),
                format!("{:.1}", 100.0 * recv / target),
                format!("{:.1}", 100.0 * recv / sent),
                format!("{:.0}", middle(&inputs.retransmitted)),
                format!("{:.0}", middle(&inputs.buffer_errors)),
                format!("{:.0}", middle(&inputs.caller_torn)),
                format!("{:.0}", middle(&inputs.listener_torn)),
                format!("{:.2}", middle(&inputs.rtt_ms)),
                "0.0".to_string(),
                "0".to_string(),
            ]
        })
        .collect();
    report(rows, &group_by, &measures)
}

fn field(out: &str, name: &str) -> String {
    let mut lines = out.lines();
    let headers: Vec<&str> = lines.next().unwrap().split_whitespace().collect();
    let values: Vec<&str> = lines.next().unwrap().split_whitespace().collect();
    let i = headers.iter().position(|h| *h == name).expect("column");
    values[i].to_string()
}

#[test]
fn an_orphaned_caller_row_does_not_corrupt_delivery() {
    let rows = vec![
        row("caller", "1", "1336760", "0"), // truncated, no listener
        row("caller", "1", "3045575", "0"), // the completed re-run
        row("listener", "1", "3045575", "0"),
    ];
    let out = report_of(&rows, &["runtime"]);
    assert_eq!(field(&out, "deliv%"), "100.0", "got:\n{out}");
    assert_eq!(field(&out, "pairs"), "1", "got:\n{out}");
}

#[test]
fn offered_load_does_not_subtract_retransmits_twice() {
    let rows = vec![
        row("caller", "1", "2029411", "2048059"),
        row("listener", "1", "731424", "0"),
    ];
    let out = report_of(&rows, &["runtime"]);
    assert_ne!(field(&out, "offer%"), "0.0", "floored at zero:\n{out}");
    // Against the SOURCE target (payload denominator, not wire):
    // 2029411 / (400 * (8e6/8) * 10 / 1316) = 66.8%
    assert_eq!(field(&out, "offer%"), "66.8", "got:\n{out}");
}

#[test]
fn a_report_is_aligned_in_columns() {
    let rows = vec![row("caller", "1", "10", "0"), row("listener", "1", "10", "0")];
    let out = report_of(&rows, &["runtime"]);
    let lines: Vec<&str> = out.lines().collect();
    assert_eq!(lines.len(), 2);
    assert_eq!(lines[0].len(), lines[1].len());
    assert!(lines[0].starts_with("runtime  pairs  estab  "));
    assert!(lines[1].starts_with("smol         1    400  "));
    assert_eq!(report_headers(&vec!["a".to_string()]).len(), 15);
}

#[test]
fn github_benchmark_json_aggregates_listener_throughput_in_first_seen_order() {
    let rows = vec![
        rec(&[
            ("runtime", "mio"),
            ("role", "listener"),
            ("pkt_sent", "10"),
            ("elapsed_s", "2"),
        ]),
        rec(&[
            ("runtime", "tokio"),
            ("role", "caller"),
            ("pkt_sent", "999"),
            ("elapsed_s", "1"),
        ]),
        rec(&[
            ("runtime", "mio"),
            ("role", "listener"),
            ("pkt_sent", "5"),
            ("elapsed_s", "1"),
        ]),
        rec(&[
            ("runtime", "tokio"),
            ("role", "listener"),
            ("pkt_sent", "6"),
            ("elapsed_s", "3"),
        ]),
        rec(&[
            ("runtime", "empty"),
            ("role", "listener"),
            ("pkt_sent", "4"),
            ("elapsed_s", "0"),
        ]),
    ];
    let series = throughput_series(&rows);
    let rates: Vec<Option<String>> = series
        .iter()
        .map(|s| {
            let sum = |column: &str| -> f64 {
                s.rows
                    .iter()
                    .map(|i| rows[*i].get(column).unwrap().parse::<f64>().unwrap())
                    .sum()
            };
            let elapsed = sum("elapsed_s");
            (elapsed > 0.0).then(|| format!("{:.1}", sum("pkt_sent") / elapsed))
        })
        .collect();
    assert_eq!(
        github_benchmark_json(&series, &rates),
        "[\n  {\"name\": \"mio\", \"unit\": \"pkt/s\", \"value\": 5.0},\n  {\"name\": \"tokio\", \"unit\": \"pkt/s\", \"value\": 2.0}\n]\n"
    );
}

#[test]
fn spreads_are_grouped_by_the_asked_columns() {
    let rows = vec![
        rec(&[("runtime", "tokio"), ("rtt_ms", "2.5")]),
        rec(&[("runtime", "mio"), ("rtt_ms", "1")]),
        rec(&[("runtime", "mio"), ("rtt_ms", "n/a")]),
        rec(&[("rtt_ms", "7")]),
    ];
    let groups = spread_by(&rows, &vec!["runtime".to_string()], "rtt_ms");
    let shown: Vec<(&str, Vec<&str>)> = groups
        .iter()
        .map(|g| (g.key.as_str(), g.values.iter().map(String::as_str).collect()))
        .collect();
    assert_eq!(
        shown,
        [("-", vec!["7"]), ("mio", vec!["1"]), ("tokio", vec!["2.5"])]
    );
}

#[test]
fn a_key_gives_back_what_its_record_says() {
    let record = usual_caller("9499", "0", "10", "0");
    let key = cell_key(&record);
    for column in ["ingress", "sock_buf_requested_bytes", "conns", "secs"] {
        assert_eq!(
            Some(extract_key_field(&key, column).as_str()),
            record.get(column),
            "{column}"
        );
    }
}
