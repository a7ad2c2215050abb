use srt_bench::capacity_args::policy_from_cli;
use srt_bench::cli::{
    BandwidthPolicy, Batching, BondMode, Cli, Egress, Encryption, Ingress, Link, Mode,
    PeerTopology, Promotion, Runtime, WouldBlockPolicy,
};
use srt_bench::config::{
    bench_config_from_args, caller_socket_id_for, parse_ingress_spec, parse_required_positionals,
    parse_size, BenchConfig, RunDefaults,
};
use srt_bench::outcome::{
    apply_sender_stats, collect_listener_stats, stats_line, GroupReport, PeerReport,
    ReceiverReport, SenderReport, StatsFigures,
};
use srt_bench::stats::{deal, worker_count, Aggregate, ConnStats};

fn parse(args: &[&str]) -> Cli {
    let args: Vec<String> = args.iter().map(|a| a.to_string()).collect();
    Cli::parse(&args)
}

fn no_topology() -> PeerTopology {
    PeerTopology {
        recv_runtime: String::new(),
        send_runtime: String::new(),
        recv_ingress: String::new(),
        send_ingress: String::new(),
        recv_workers: String::new(),
        send_workers: String::new(),
        recv_cpus: String::new(),
        send_cpus: String::new(),
    }
}

fn no_link() -> Link {
    Link {
        delay: String::new(),
        jitter: String::new(),
        loss: String::new(),
        rate: String::new(),
        reorder: String::new(),
        duplicate: String::new(),
        corrupt: String::new(),
        limit: String::new(),
    }
}

fn config() -> BenchConfig {
    BenchConfig {
        runtime: Runtime::Mio,
        mode: Mode::Receiver,
        encryption: Encryption::Aes256,
        host: "127.0.0.1".to_owned(),
        port: 0,
        duration: "1.0".to_owned(),
        latency_ms: 120,
        source_bitrate_bps: 1_000_000,
        bandwidth: BandwidthPolicy::LegacySourceFixed,
        source_backlog_ms: 250,
        datapath_queue_horizon_ms: 100,
        outbound_retry_horizon_ms: 100,
        connections: 1,
        egress: Egress::PerConnection,
        ingress: Ingress::SharedPool(4),
        bond_mode: BondMode::Unbonded,
        bond_pairs: 0,
        batching: Batching::On,
        recv_rounds: 8,
        would_block: WouldBlockPolicy::Retain,
        connect_concurrency: 1,
        promotion: Promotion::Never,
        cookie_routing: true,
        sock_buf_bytes: 0,
        out: None,
        rep: 1,
        attempt: String::new(),
        cpus: 0,
        pin: false,
        workers: 1,
        stream: "1.0".to_owned(),
        peer_topology: no_topology(),
        link: no_link(),
        classifier_policy: policy_from_cli(&Cli::parse(&Vec::new())).ok().unwrap(),
    }
}

const DEFAULTS: RunDefaults = RunDefaults {
    cpus: 0,
    sock_buf_bytes: 0,
    source_backlog_ms: 250,
    datapath_queue_horizon_ms: 100,
    outbound_retry_horizon_ms: 100,
};

#[test]
fn encryption_axis_values_round_trip() {
    for (value, expected) in [
        ("plain", Encryption::Plain),
        ("128", Encryption::Aes128),
        ("192", Encryption::Aes192),
        ("256", Encryption::Aes256),
    ] {
        assert_eq!(Encryption::parse(value), Some(expected));
        assert_eq!(expected.name(), value);
    }
    assert_eq!(Encryption::parse("512"), None);
}

#[test]
fn encryption_configures_connection_options() {
    for (mode, key_bits) in [
        (Encryption::Aes128, 128),
        (Encryption::Aes192, 192),
        (Encryption::Aes256, 256),
    ] {
        let options = mode.apply_to();
        assert_eq!(options.passphrase.as_deref(), Some("srt-bench-encryption"));
        assert_eq!(options.key_bits, key_bits);
    }

    let options = Encryption::Plain.apply_to();
    assert_eq!(options.passphrase, None);
    assert_eq!(options.key_bits, 128);
}

#[test]
fn shared_admission_carries_the_encryption_template() {
    let mut cfg = config();
    let admission = cfg.admission_options(0x1234, true);
    assert_eq!(admission.socket_id, 0x1234);
    assert_eq!(
        admission.key.passphrase.as_deref(),
        Some("srt-bench-encryption")
    );
    assert_eq!(admission.key.key_bits, 256);
    assert!(!admission.accept_bonded);
    cfg.bond_mode = BondMode::Backup;
    cfg.bond_pairs = 1;
    let first = cfg.bond_extension_for(0).expect("first group leg");
    let second = cfg.bond_extension_for(1).expect("second group leg");
    assert_eq!(first.group_id, second.group_id);
    assert_eq!(first.backup, second.backup);
    assert_eq!(first.weight, 1);
    assert_eq!(second.weight, 0);
    assert_eq!(cfg.bond_initial_seq_for(0), cfg.bond_initial_seq_for(1));
    assert_eq!(cfg.bond_stream_id_for(0), cfg.bond_stream_id_for(1));
    assert_ne!(caller_socket_id_for(99, 0), caller_socket_id_for(99, 1));
    assert!(cfg.admission_options(17, false).accept_bonded);
}

#[test]
fn a_caller_connects_with_its_group() {
    let mut cfg = config();
    let plain = cfg.caller_options(99, 3);
    assert_eq!(plain.socket_id, 103);
    assert_eq!(plain.tsbpd_delay, 120);
    assert!(plain.group_extension.is_none());
    assert!(plain.stream_id.is_none());
    assert_eq!(plain.bandwidth.max_bytes_per_sec, Some(125_000));
    cfg.bond_mode = BondMode::Broadcast;
    cfg.bond_pairs = 2;
    let leg = cfg.caller_options(99, 3);
    assert_eq!(leg.stream_id.as_deref(), Some("srt-bench-group-1"));
    assert_eq!(leg.initial_seq, Some(0x0100_0001));
    assert_eq!(leg.group_extension.map(|g| g.group_id & 0xffff), Some(2));
}

#[test]
fn bonding_requires_the_shared_group_driver_on_every_runtime() {
    let mut cfg = config();
    cfg.mode = Mode::Sender;
    cfg.connections = 2;
    cfg.bond_mode = BondMode::Broadcast;
    cfg.bond_pairs = 1;
    cfg.ingress = Ingress::SharedPool(1);
    cfg.egress = Egress::SharedSocket;
    cfg.connect_concurrency = 2;

    for runtime in [
        Runtime::Mio,
        Runtime::Tokio,
        Runtime::Smol,
        Runtime::Monoio,
        Runtime::Glommio,
        Runtime::Compio,
    ] {
        cfg.runtime = runtime;
        assert_eq!(cfg.validate_bond_topology(), Ok(()), "{runtime:?}");
    }

    cfg.egress = Egress::PerConnection;
    assert_eq!(
        cfg.validate_bond_topology(),
        Err("--bond requires --egress shared-socket for sender group scheduling")
    );
    cfg.egress = Egress::SharedSocket;
    cfg.ingress = Ingress::PerPort;
    assert_eq!(
        cfg.validate_bond_topology(),
        Err("--bond requires --ingress shared-pool=1")
    );
    cfg.ingress = Ingress::SharedPool(1);
    cfg.bond_pairs = 2;
    assert_eq!(
        cfg.validate_bond_topology(),
        Err("bond pair count exceeds half of --connections")
    );

    cfg.bond_pairs = 1;
    cfg.connect_concurrency = 1;
    assert_eq!(
        cfg.validate_bond_topology(),
        Err("bonded benchmark groups contain two physical SRT legs \
             and therefore require --connect-concurrency >= 2")
    );

    cfg.mode = Mode::Receiver;
    cfg.bond_pairs = 1;
    cfg.egress = Egress::PerConnection;
    assert_eq!(cfg.validate_bond_topology(), Ok(()));
}

#[test]
fn axis_flags_are_repeatable_and_consume_key_value_specs() {
    let cli = parse(&[
        "srt-bench",
        "matrix",
        "--axis",
        "encryption=plain,128",
        "--axis=connections=50,600",
    ]);
    assert_eq!(
        cli.repeated.get("axis"),
        Some(&vec![
            "encryption=plain,128".to_string(),
            "connections=50,600".to_string()
        ])
    );
    assert_eq!(cli.positional, ["matrix"]);
}

#[test]
fn flag_values_can_contain_an_equals_sign() {
    let cli = parse(&["srt-bench", "--ingress", "shared-pool=1"]);
    assert_eq!(cli.flags.get("ingress"), Some(&"shared-pool=1".to_string()));
}

#[test]
fn a_later_flag_replaces_an_earlier_one() {
    let cli = parse(&["srt-bench", "--reps=2", "--reps", "5"]);
    assert_eq!(cli.flag_or("reps", 1), 5);
    assert_eq!(cli.flag_or("secs", 8), 8);
    assert_eq!(cli.flag_or_u16("reps", 0), 5);
}

#[test]
fn required_positionals_keep_sender_and_receiver_layouts() {
    let sender = parse(&[
        "srt-bench",
        "example.test",
        "9000",
        "10.5",
        "120",
        "4000000",
    ]);
    let p = parse_required_positionals(&sender, Mode::Sender).unwrap();
    assert_eq!(
        (
            p.host,
            p.port,
            p.duration.parse::<f64>().unwrap(),
            p.latency_ms,
            p.source_bitrate_bps
        ),
        ("example.test".to_string(), 9000, 10.5, 120, 4_000_000)
    );

    let receiver = parse(&["srt-bench", "9001", "12.0", "80", "2000000"]);
    let p = parse_required_positionals(&receiver, Mode::Receiver).unwrap();
    assert_eq!(
        (
            p.host,
            p.port,
            p.duration.parse::<f64>().unwrap(),
            p.latency_ms,
            p.source_bitrate_bps
        ),
        (String::new(), 9001, 12.0, 80, 2_000_000)
    );
}

#[test]
fn missing_or_unreadable_positionals_ask_for_the_usage() {
    for args in [
        &["srt-bench", "9001", "12.0"][..],
        &["srt-bench", "port", "12.0", "80"][..],
        &["srt-bench", "9001", "soon", "80"][..],
        &["srt-bench", "9001", "12.0", "70000"][..],
    ] {
        let error = parse_required_positionals(&parse(args), Mode::Receiver)
            .err()
            .unwrap();
        assert_eq!(error, "");
    }
    let zero = parse(&["srt-bench", "9001", "12.0", "80", "0"]);
    let error = parse_required_positionals(&zero, Mode::Receiver)
        .err()
        .unwrap();
    assert!(error.contains("must be a positive integer (got '0')"));
}

#[test]
fn a_command_line_becomes_a_configuration() {
    let cli = parse(&[
        "srt-bench",
        "runtime=tokio",
        "mode=sender",
        "10.0.0.1",
        "9000",
        "5",
        "80",
        "--connections=4",
        "--bond=broadcast:1",
        "--ingress=shared-pool=1",
        "--egress=shared-socket",
        "--connect-concurrency=2",
        "--sock-buf=64k",
        "--stream-secs=4.5",
    ]);
    let cfg = bench_config_from_args(&cli, &DEFAULTS).unwrap();
    assert_eq!(cfg.runtime, Runtime::Tokio);
    assert_eq!(cfg.mode, Mode::Sender);
    assert_eq!(cfg.host, "10.0.0.1");
    assert_eq!(cfg.connections, 4);
    assert_eq!(cfg.bond_pairs, 1);
    assert_eq!(cfg.sock_buf_bytes, 65536);
    assert_eq!(cfg.duration, "5");
    assert_eq!(cfg.stream, "4.5");
    assert_eq!(cfg.logical_connection_count(), 3);
    assert_eq!(cfg.peers_per_socket(), 4);
    assert_eq!(cfg.addr_for(3), 9000);
    assert!(!cfg.verbose());
    let bad = parse(&["srt-bench", "runtime=zig", "mode=sender"]);
    assert!(bench_config_from_args(&bad, &DEFAULTS).is_err());
    let unread = parse(&[
        "srt-bench",
        "runtime=tokio",
        "mode=receiver",
        "9000",
        "5",
        "80",
        "--min-window-headroom=abc",
    ]);
    assert_eq!(
        bench_config_from_args(&unread, &DEFAULTS).err().unwrap(),
        "error: invalid --min-window-headroom \"abc\""
    );
    let named = parse(&[
        "srt-bench",
        "runtime=tokio",
        "mode=receiver",
        "9000",
        "5",
        "80",
        "--policy-rev=lab",
        "--max-control-pps=12.5",
    ]);
    let policy = bench_config_from_args(&named, &DEFAULTS)
        .unwrap()
        .classifier_policy;
    assert_eq!(policy.revision, "lab");
    assert_eq!(policy.max_control_pps.as_deref(), Some("12.5"));
    assert!(policy.max_nic_utilization.is_none());
}

#[test]
fn sizes_count_in_binary_units() {
    assert_eq!(parse_size("4096"), Some(4096));
    assert_eq!(parse_size("64k"), Some(65536));
    assert_eq!(parse_size("2M"), Some(2_097_152));
    assert_eq!(parse_size("k"), None);
    assert_eq!(parse_size("99999999999999999999m"), None);
}

#[test]
fn ingress_takes_either_separator() {
    assert_eq!(
        parse_ingress_spec("shared-pool:4").ok(),
        Some(Ingress::SharedPool(4))
    );
    assert_eq!(
        parse_ingress_spec("reuseport-multi=2").ok(),
        Some(Ingress::ReuseportMulti(2))
    );
    assert!(parse_ingress_spec("carrier-pigeon").is_err());
}

#[test]
fn bonded_cc1_rejected() {
    let mut cfg = config();
    cfg.mode = Mode::Sender;
    cfg.connections = 4;
    cfg.bond_mode = BondMode::Broadcast;
    cfg.bond_pairs = 2;
    cfg.ingress = Ingress::SharedPool(1);
    cfg.egress = Egress::SharedSocket;
    cfg.connect_concurrency = 1;
    assert!(cfg.validate_bond_topology().is_err());
    cfg.connect_concurrency = 2;
    assert!(cfg.validate_bond_topology().is_ok());
}

#[test]
fn sender_stats_cc_peak_bounds() {
    let mut agg = Aggregate::new();
    agg.cc_peak = 4;
    let mut stats = ConnStats::default();
    stats.connected = true;
    stats.has_stats = true;
    agg.add(stats);
    assert!(agg.cc_peak >= 1);
    assert!(agg.cc_peak <= 4);
    assert_eq!(agg.cc_peak, 4);
}

#[test]
fn sums_leave_out_totals_that_nobody_reported() {
    let mut agg = Aggregate::new();
    let mut silent = ConnStats::default();
    silent.core_total = 100;
    silent.data_events = 1;
    agg.add(silent);
    let mut loud = ConnStats::default();
    apply_sender_stats(
        &mut loud,
        Some(SenderReport {
            total_sent: 7,
            total_retransmits: 2,
            packets_in_loss_list: 1,
        }),
    );
    agg.add(loud);
    assert_eq!(agg.core_total, 7);
    assert_eq!(agg.secondary_a, 2);
    assert_eq!(agg.secondary_b, 1);
    assert_eq!(agg.stats_count, 1);
    assert_eq!(agg.data_events, 1);
}

#[test]
fn a_bonded_publisher_is_one_row() {
    let group = GroupReport {
        ever_connected: true,
        torn_down: false,
        logical_payloads_received: 50,
        wire_unique_packets_received: 60,
        wire_receiver_packets_lost: 3,
        leg_duplicates: vec![Some(4), None, Some(6)],
    };
    let peer = PeerReport {
        streaming: true,
        torn_down: true,
        data_events: 9,
        receiver: Some(ReceiverReport {
            total_received: 10,
            total_lost: 1,
            total_duplicates: 2,
            rtt_us: 1500,
        }),
    };
    let rows = collect_listener_stats(&vec![group], &vec![peer]);
    assert_eq!(rows.len(), 2);
    assert_eq!(rows[0].secondary_b, 10);
    assert_eq!(rows[0].data_events, 50);
    assert!(rows[0].has_stats);
    assert_eq!(rows[1].rtt_us, 1500);
    assert!(rows[1].torn_down);
}

#[test]
fn every_connection_is_dealt_to_one_worker() {
    let mut seen: Vec<usize> = (0..3).flat_map(|w| deal(w, 3, 10)).collect();
    assert_eq!(deal(1, 3, 10), [1, 4, 7]);
    assert_eq!(worker_count(0, 10), 1);
    assert_eq!(worker_count(16, 10), 10);
    assert_eq!(worker_count(3, 0), 1);
    seen.sort_unstable();
    assert_eq!(seen, (0..10).collect::<Vec<usize>>());
}

#[test]
fn the_final_line_says_how_many_were_asked_for() {
    let mut agg = Aggregate::new();
    let mut s = ConnStats::default();
    s.data_events = 12;
    agg.add(s);
    let figures = StatsFigures {
        rtt_ms: "1.500".to_string(),
        elapsed_s: "2.000".to_string(),
        throughput_pps: "6".to_string(),
        cpu_user_ms: "3.0".to_string(),
        cpu_sys_ms: "4.0".to_string(),
        peak_rss_kb: 2048,
    };
    let mut cfg = config();
    assert_eq!(
        stats_line(&cfg, &agg, &figures),
        "STATS role=listener backend=mio pkt_sent=12 core_total=0 sec_a=0 sec_b=0 rtt_ms=1.500 \
         elapsed_s=2.000 cpu_user_ms=3.0 cpu_sys_ms=4.0 peak_rss_kb=2048"
    );
    cfg.connections = 2;
    cfg.mode = Mode::Sender;
    assert_eq!(
        stats_line(&cfg, &agg, &figures),
        "STATS role=caller backend=mio connections=2 established=0 pkt_sent=12 core_total=0 \
         sec_a=0 sec_b=0 rtt_ms=1.500 elapsed_s=2.000 throughput_pps=6 cpu_user_ms=3.0 \
         cpu_sys_ms=4.0 peak_rss_kb=2048"
    );
}

#[test]
fn pacing_is_resolved_against_the_source_rate() {
    let mut cfg = config();
    assert_eq!(cfg.srt_bandwidth().max_bytes_per_sec, Some(125_000));
    cfg.bandwidth = BandwidthPolicy::Fixed(4);
    assert_eq!(cfg.srt_bandwidth().max_bytes_per_sec, Some(1));
    cfg.bandwidth = BandwidthPolicy::InputRelative {
        overhead_percent: 25,
    };
    let resolved = cfg.srt_bandwidth();
    assert_eq!(resolved.max_bytes_per_sec, None);
    assert_eq!(resolved.input_bytes_per_sec, Some(125_000));
    assert_eq!(resolved.overhead_percent, 25);
}

#[test]
fn only_a_receiver_of_several_connections_pools_its_ingress() {
    let mut cfg = config();
    assert_eq!(cfg.dispatch_ingress(), None);
    cfg.connections = 3;
    assert_eq!(cfg.dispatch_ingress(), Some(Ingress::SharedPool(4)));
    cfg.mode = Mode::Sender;
    assert_eq!(cfg.dispatch_ingress(), None);
}
