use srt_bench::qual_evidence::{
    first_line_with, kv_tokens, last_line_with, parse_args, parse_kv_line, parse_run, render_json,
    EvidenceValue, Provenance, Reading, RunEvidence,
};
use srt_bench::qual_payload::{classify, fence_payload, measured_payload, PayloadKind, TickSet};
use srt_bench::text_map::TextMap;

#[test]
fn measured_payload_roundtrips_and_keeps_its_length() {
    let payload = measured_payload(1316, 42);
    assert_eq!(payload.len(), 1316, "length must not change");
    assert_eq!(classify(&payload), PayloadKind::Measured { tick: 42 });
}

#[test]
fn fence_payload_roundtrips_and_keeps_its_length() {
    let payload = fence_payload(1316, 45_591);
    assert_eq!(payload.len(), 1316);
    assert_eq!(
        classify(&payload),
        PayloadKind::Fence { final_tick: 45_591 }
    );
}

#[test]
fn measured_and_fence_are_distinguishable_at_the_maximum_tick() {
    assert_ne!(
        classify(&measured_payload(16, u32::MAX)),
        classify(&fence_payload(16, u32::MAX))
    );
}

#[test]
fn payloads_without_the_magic_are_foreign() {
    assert_eq!(classify(&[0u8; 64]), PayloadKind::Foreign);
    assert_eq!(classify(b"not a diagnostic payload"), PayloadKind::Foreign);
}

#[test]
fn payloads_shorter_than_the_header_are_foreign() {
    assert_eq!(classify(&[]), PayloadKind::Foreign);
    assert_eq!(classify(&[0x51, 0x4D]), PayloadKind::Foreign);
}

#[test]
fn a_short_request_still_holds_the_header() {
    let payload = measured_payload(0, 5);
    assert!(!payload.is_empty());
    assert_eq!(classify(&payload), PayloadKind::Measured { tick: 5 });
}

#[test]
fn a_tick_arriving_twice_is_counted_once() {
    let mut set = TickSet::new(100);
    assert!(set.insert(7));
    assert!(!set.insert(7), "a duplicate is not a new tick");
    assert_eq!(set.received(), 1);
    assert_eq!(set.duplicates(), 1);
}

#[test]
fn ticks_outside_the_window_are_rejected_not_counted() {
    let mut set = TickSet::new(10);
    assert!(!set.insert(10));
    assert_eq!(set.received(), 0);
    assert_eq!(set.duplicates(), 0);
}

#[test]
fn missing_ranges_are_compact_and_exact() {
    let mut set = TickSet::new(20);
    for tick in 0..20 {
        if !(5..=9).contains(&tick) {
            set.insert(tick);
        }
    }
    assert_eq!(set.missing_ranges(), vec![(5, 9)]);
    assert_eq!(set.missing_ranges_text(), "5-9");
    assert_eq!(set.missing(), 5);
    assert!(!set.missing_is_suffix(), "a middle hole is not a suffix");
}

#[test]
fn a_truncated_tail_is_recognised_as_a_suffix() {
    let mut set = TickSet::new(20);
    for tick in 0..15 {
        set.insert(tick);
    }
    assert_eq!(set.missing_ranges(), vec![(15, 19)]);
    assert!(set.missing_is_suffix(), "15-19 is the trailing suffix");
}

#[test]
fn scatter_is_not_mistaken_for_a_suffix() {
    let mut set = TickSet::new(20);
    for tick in 0..20 {
        if !matches!(tick, 3 | 11 | 19) {
            set.insert(tick);
        }
    }
    assert_eq!(set.missing_ranges(), vec![(3, 3), (11, 11), (19, 19)]);
    assert!(
        !set.missing_is_suffix(),
        "scattered gaps must not read as a truncated tail"
    );
}

#[test]
fn a_complete_window_has_no_missing_ranges() {
    let mut set = TickSet::new(8);
    for tick in 0..8 {
        set.insert(tick);
    }
    assert_eq!(set.missing(), 0);
    assert_eq!(set.missing_ranges_text(), "none");
    assert!(set.missing_is_suffix());
}

#[test]
fn single_tick_gaps_render_as_one_number() {
    let mut set = TickSet::new(6);
    for tick in [0u32, 1, 3, 4] {
        set.insert(tick);
    }
    assert_eq!(set.missing_ranges_text(), "2,5");
    assert_eq!(set.missing_range_count(), 2);
    assert_eq!(set.expected(), 6);
}

/// A complete sender line, including the fractional fields.
const SENDER: &str = "SHARED_OWNER_QUAL fanout=100 tx_lanes=256 connect_cc=64 desired=100 \
issued=100 admitted=100 queued=36 refused=0 established=100 pre_window_drained=true \
expected_ticks=2279 generated_ticks=2278 missed_source_ticks=1 data_offered=227800 \
data_accepted=227800 tx_submitted_wire=271834 tx_completed=271599 short=0 failed=0 \
peer_local=0 transient=0 tx_failures_pending=0 service_visits=2278 lateness_us_p50=367 \
p99=1077 max=3011 drain_ok=true inflight_at_window_end=235 drain_submitted=62 \
drain_completed=297 pending_after_drain=0 rx_mode=Some(RawReadiness) managed_rx=false \
rx_dropped=0 rx_truncated=0 tx_pool=256/256 cpu_ms=2525.6";

const RECEIVER: &str = "STATS role=listener backend=compio connections=100 established=100 \
pkt_sent=227800 core_total=227800 sec_a=0 sec_b=0 rtt_ms=0.027 elapsed_s=3.307 \
throughput_pps=21344 cpu_user_ms=20.000 cpu_sys_ms=30.000 peak_rss_kb=28544";

/// How each token of a line reads as a finite fraction, if it is one.
fn readings(line: &str, prefix: &str) -> Vec<Option<Reading>> {
    kv_tokens(line, prefix)
        .iter()
        .map(|token| {
            let value = token.split_once('=').map_or("", |(_, v)| v);
            value
                .parse::<f64>()
                .ok()
                .filter(|f| f.is_finite())
                .map(|f| Reading {
                    digits: format!("{f}"),
                    shown: format!("{f:?}"),
                })
        })
        .collect()
}

fn fields(line: &str, prefix: &str) -> Result<TextMap<EvidenceValue>, String> {
    parse_kv_line(line, prefix, &readings(line, prefix))
}

fn run(sender: &str, receiver: &str) -> Result<RunEvidence, String> {
    parse_run(
        sender,
        &readings(sender, "SHARED_OWNER_QUAL"),
        receiver,
        &readings(receiver, "STATS"),
    )
}

fn keys(map: &TextMap<EvidenceValue>) -> Vec<String> {
    (0..map.len()).map(|i| map.key_at(i).to_string()).collect()
}

fn fraction(map: &TextMap<EvidenceValue>, key: &str) -> f64 {
    match map.get(key) {
        Some(EvidenceValue::Fraction { written, .. }) => written.parse().unwrap(),
        other => panic!("{key}: {other:?}"),
    }
}

fn integer(map: &TextMap<EvidenceValue>, key: &str) -> i64 {
    match map.get(key) {
        Some(EvidenceValue::Int(n)) => *n,
        other => panic!("{key}: {other:?}"),
    }
}

#[test]
fn parses_every_token_it_was_given() {
    let sender = fields(SENDER, "SHARED_OWNER_QUAL").expect("sender parses");
    let receiver = fields(RECEIVER, "STATS").expect("receiver parses");

    let tokens = |line: &str, prefix: &str| -> Vec<String> {
        line.strip_prefix(prefix)
            .unwrap_or(line)
            .split_whitespace()
            .map(|token| token.split_once('=').expect("key=value").0.to_string())
            .collect()
    };
    // `tx_pool` expands into two fields; everything else is 1:1.
    let mut expected_sender = tokens(SENDER, "SHARED_OWNER_QUAL");
    expected_sender.retain(|key| key != "tx_pool");
    expected_sender.push("tx_pool_free".to_string());
    expected_sender.push("tx_pool_capacity".to_string());
    expected_sender.sort();
    let mut parsed_sender = keys(&sender);
    parsed_sender.sort();
    assert_eq!(parsed_sender, expected_sender, "sender field set");

    let mut expected_receiver = tokens(RECEIVER, "STATS");
    expected_receiver.sort();
    let mut parsed_receiver = keys(&receiver);
    parsed_receiver.sort();
    assert_eq!(parsed_receiver, expected_receiver, "receiver field set");
}

#[test]
fn fractional_fields_parse_as_floats() {
    let receiver = fields(RECEIVER, "STATS").expect("receiver parses");
    assert_eq!(fraction(&receiver, "rtt_ms"), 0.027);
    assert_eq!(fraction(&receiver, "elapsed_s"), 3.307);
    assert_eq!(fraction(&receiver, "cpu_user_ms"), 20.0);
    assert_eq!(fraction(&receiver, "cpu_sys_ms"), 30.0);
    assert_eq!(integer(&receiver, "peak_rss_kb"), 28_544);
    assert_eq!(integer(&receiver, "sec_a"), 0);

    let sender = fields(SENDER, "SHARED_OWNER_QUAL").expect("sender parses");
    assert_eq!(fraction(&sender, "cpu_ms"), 2525.6);
    // No numeric-looking token may be Text.
    for map in [&sender, &receiver] {
        for key in keys(map) {
            if let Some(EvidenceValue::Text(text)) = map.get(&key) {
                assert!(
                    text.parse::<f64>().is_err(),
                    "{key} looks numeric but parsed as text: {text:?}"
                );
            }
        }
    }
}

#[test]
fn malformed_tokens_are_rejected() {
    assert!(fields("SHARED_OWNER_QUAL fanout=1 broken", "").is_err());
    assert!(fields("SHARED_OWNER_QUAL tx_pool=256", "").is_err());
    assert!(fields("SHARED_OWNER_QUAL tx_pool=x/256", "").is_err());
    assert!(fields("SHARED_OWNER_QUAL latency=inf", "").is_err());
}

#[test]
fn each_malformed_token_is_named() {
    let error = |line: &str| fields(line, "X").err().unwrap();
    assert_eq!(
        error("X a=1 broken"),
        "token without '=' in \"X a=1 broken\": \"broken\""
    );
    assert_eq!(error("X =1"), "empty key in \"X =1\": \"=1\"");
    assert_eq!(
        error("X tx_pool=256"),
        "tx_pool is not free/capacity: \"tx_pool=256\""
    );
    assert_eq!(
        error("X tx_pool=x/256"),
        "expected an integer in \"tx_pool=x/256\""
    );
    assert_eq!(error("X a=nan"), "non-finite numeric value: \"a=nan\"");
}

#[test]
fn parse_run_rejects_unreconciled_source_accounting() {
    let broken = SENDER.replace("missed_source_ticks=1", "missed_source_ticks=2");
    assert!(run(&broken, RECEIVER).is_err());

    let run = run(SENDER, RECEIVER).expect("valid run parses");
    assert_eq!(run.fanout, 100);
    assert_eq!(fraction(&run.receiver, "rtt_ms"), 0.027);
    assert!(run.raw_sender_stdout.starts_with("SHARED_OWNER_QUAL"));
    assert!(run.raw_receiver_stdout.starts_with("STATS"));
}

#[test]
fn a_run_without_a_population_is_named() {
    let error = |fanout: &str| {
        let line = SENDER.replace("fanout=100", fanout);
        run(&line, RECEIVER).err().unwrap()
    };
    let say = |value: &str| format!("sender line has no positive fanout: {value}");
    assert_eq!(error("fanout=0"), say("Some(Int(0))"));
    assert_eq!(error("fanout=-3"), say("Some(Int(-3))"));
    assert_eq!(error("fanout=2.5"), say("Some(Float(2.5))"));
    assert_eq!(error("fanout=1e20"), say("Some(Float(1e20))"));
    assert_eq!(error("fanout=true"), say("Some(Bool(true))"));
    assert_eq!(error("fanout=many"), say("Some(Text(\"many\"))"));
    assert_eq!(error("fan=100"), say("None"));
    assert_eq!(
        run(&SENDER.replace("expected_ticks", "ticks"), RECEIVER)
            .err()
            .unwrap(),
        "sender line is missing the source-tick counters"
    );
}

#[test]
fn rendered_json_carries_every_field_and_both_raw_lines() {
    let run = run(SENDER, RECEIVER).expect("valid run parses");
    let provenance = Provenance {
        git_sha: "deadbeef".to_string(),
        git_dirty: false,
        kernel: "test".to_string(),
        machine: "x86_64".to_string(),
        cpus: 6,
    };
    let mut every = keys(&run.sender);
    every.extend(keys(&run.receiver));
    let json = render_json(&provenance, &vec![run]);
    assert!(json.contains("\"git_dirty\": false"));
    for key in every {
        assert!(
            json.contains(&format!("\"{key}\":")),
            "rendered JSON is missing {key}"
        );
    }
    assert!(json.contains("\"rtt_ms\": 0.027"));
    assert!(!json.contains("null"), "no field may render as null");
    assert!(json.contains("SHARED_OWNER_QUAL fanout=100"));
}

#[test]
fn log_lines_are_found_by_their_label() {
    let log = "noise\nSTATS a=1\nmore\nSTATS a=2\n";
    assert_eq!(first_line_with(log, "STATS").unwrap(), "STATS a=1");
    assert_eq!(last_line_with(log, "STATS").unwrap(), "STATS a=2");
    assert!(first_line_with(log, "OTHER").is_none());
}

#[test]
fn artifact_arguments_come_in_pairs_of_logs() {
    let words = |s: &str| s.split(' ').map(str::to_string).collect::<Vec<String>>();
    let args = parse_args(&words("--git-sha abc --git-dirty --out x.json s1 r1")).unwrap();
    assert_eq!(args.git_sha, "abc");
    assert!(args.git_dirty);
    assert_eq!(args.out_path, "x.json");
    assert_eq!(args.logs, ["s1", "r1"]);
    assert!(parse_args(&words("--git-sha abc --out x.json s1")).is_err());
    assert!(parse_args(&words("--out x.json s1 r1")).is_err());
}
