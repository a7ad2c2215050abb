use srt_bench::capacity_args::{
    admission_from_cli, duration_text, host_from_cli, host_of_config, inferred_fan_in,
    policy_fingerprint, policy_from_cli, probability_text, protocol_from_cli, value,
    workload_from_cli, workload_of_config, PolicyThresholds,
};
use srt_bench::classifier::{
    classify, classify_plan, output_columns, pair_results, row_json, row_tsv, validate_results,
    OutputRow, RowFigures,
};
use srt_bench::cli::Cli;
use srt_bench::config::{bench_config_from_args, RunDefaults};
use srt_bench::derivation::{
    derive_load, derive_traffic, pacing_base_bytes, KnownInputs,
};
use srt_bench::model::{
    admission_waves, assess as assess_input, effective_windows, encoded_packet_size_bytes,
    pacing_packet_size_bytes, validate, validate_protocol, validate_ranges, validate_workload,
    AdmissionEnvelope, Availability, BondMode, CapacityAssessment, CapacityInput, CapacityReason,
    CellClass, CipherMode, Comparisons, ControlPpsConfidence, EncryptionMode, EndpointEnvelope,
    Knowledge, NetworkEnvelope, ProtocolEnvelope, RangeChecks, SocketBufferRequest,
    SrtBandwidthPolicy, Utilization, WorkloadEnvelope, CLASSIFIER_POLICY_REVISION, MAX_FLOW_WINDOW,
    MIN_FLOW_WINDOW_PACKETS,
};
use srt_bench::plan::parse_plan;
use srt_bench::record::Record;
use srt_bench::text_map::TextMap;

fn cli(args: &[&str]) -> Cli {
    let args: Vec<String> = args.iter().map(|a| a.to_string()).collect();
    Cli::parse(&args)
}

fn no_cell() -> TextMap<String> {
    TextMap::new()
}

const SIXTEEN_MIB: u64 = 16 * 1024 * 1024;

/// Everything known, on the loopback interface.
fn known_input() -> CapacityInput {
    let host = EndpointEnvelope {
        effective_receive_socket_buffer_bytes: Availability::Known(SIXTEEN_MIB),
        effective_send_socket_buffer_bytes: Availability::Known(SIXTEEN_MIB),
        rx_socket_fan_in: 1,
        tx_socket_fan_in: 1,
        host_pps_capacity: Knowledge::Known,
        nic_capacity_bps: Availability::NotApplicable,
        workers: 1,
    };
    CapacityInput {
        workload: WorkloadEnvelope {
            source_bps_per_stream: 8_000_000,
            source_streams: 1,
            physical_connections: 1,
            logical_streams: 1,
            payload_bytes: 1316,
            duration_us: 1_000_000,
        },
        protocol: ProtocolEnvelope {
            bandwidth: SrtBandwidthPolicy::ProtocolDefault,
            encryption: EncryptionMode::Plain,
            cipher_mode: CipherMode::Ctr,
            flow_window_packets: 8192,
            receive_window_packets: 8192,
            tsbpd_latency_ms: 120,
            bond: BondMode::Unbonded,
        },
        network: NetworkEnvelope {
            expected_rtt: Availability::Known(1_000_000),
            rtt_jitter: Availability::Known(0),
            expected_loss_probability: Knowledge::Known,
            expected_reorder_probability: Knowledge::Known,
            udp_ip_header_bytes: 28,
            nic_link_overhead_bytes: Availability::Known(0),
        },
        sender: host,
        receiver: host,
        admission: AdmissionEnvelope { connect_cc: 1 },
    }
}

/// The default: nothing measured.
fn unmeasured_input() -> CapacityInput {
    let mut input = known_input();
    input.network.expected_rtt = Availability::Unknown;
    input.network.rtt_jitter = Availability::Unknown;
    for host in [&mut input.sender, &mut input.receiver] {
        host.effective_receive_socket_buffer_bytes = Availability::Unknown;
        host.effective_send_socket_buffer_bytes = Availability::Unknown;
        host.host_pps_capacity = Knowledge::Unknown;
        host.nic_capacity_bps = Availability::Unknown;
    }
    input
}

const IDLE: Utilization = Utilization {
    over_capacity: false,
    at_limit: false,
};

/// Nothing is exceeded, and nothing is lost.
fn clear() -> Comparisons {
    Comparisons {
        ranges: RangeChecks {
            loss_in_range: true,
            reorder_in_range: true,
            sender_host_positive: true,
            receiver_host_positive: true,
            policy_valid: true,
        },
        loss_positive: false,
        reorder_positive: false,
        traffic_positive: true,
        source_over_pacing: false,
        overhead_over_pacing: false,
        window_short: false,
        window_headroom_low: false,
        recovery_short: false,
        receive_horizon_low: false,
        send_horizon_low: false,
        sender_host: IDLE,
        receiver_host: IDLE,
        sender_nic: IDLE,
        receiver_nic: IDLE,
        control_rate_high: false,
    }
}

fn thresholds(waves: Option<u64>) -> PolicyThresholds {
    PolicyThresholds {
        revision: CLASSIFIER_POLICY_REVISION.to_string(),
        window: "0".to_string(),
        recovery: "0".to_string(),
        socket: "0".to_string(),
        host: "1".to_string(),
        nic: "1".to_string(),
        control: None,
        waves,
    }
}

fn verdict(input: CapacityInput, c: &Comparisons) -> CapacityAssessment {
    assess_input(input, c, &thresholds(None)).ok().expect("valid model")
}

fn unknown_figures(source_pps: f64) -> RowFigures {
    RowFigures {
        source_pps_total: source_pps.to_string(),
        source_pps_short: format!("{source_pps:.3}"),
        source_pps_long: format!("{source_pps:.6}"),
        packet_pps: Availability::Known("760.5".to_string()),
        srt_total_bps: Availability::Unknown,
        udp_ip_bps: Availability::Unknown,
        nic_wire_bps: Availability::Unknown,
        retransmission_factor: Availability::Known("1".to_string()),
        bdp_packets: Availability::Unknown,
        required_window_packets: Availability::Unknown,
        flow_window_headroom_packets: Availability::Unknown,
        receive_window_headroom_packets: Availability::Unknown,
        recovery_margin_ms: Availability::Unknown,
        socket_horizon_recv_s: Availability::Unknown,
        socket_horizon_send_s: Availability::Unknown,
        host_utilization: Availability::Unknown,
        nic_utilization: Availability::NotApplicable,
    }
}

/// The row of a cell whose host was never measured.
fn assess(cli: &Cli, cell: &TextMap<String>, identity: &str) -> OutputRow {
    let (workload, duration) = workload_from_cli(cli, cell).expect("workload");
    assert!(duration.is_none());
    let host = host_from_cli(cli, cell, workload.physical_connections).expect("host");
    let policy = policy_from_cli(cli).expect("policy");
    let admission = admission_from_cli(cli, cell).expect("admission");
    let mut input = unmeasured_input();
    input.workload.source_bps_per_stream = workload.source_bps_per_stream;
    input.workload.source_streams = workload.source_streams;
    input.workload.physical_connections = workload.physical_connections;
    input.workload.logical_streams = workload.logical_streams;
    input.workload.payload_bytes = workload.payload_bytes;
    input.sender.nic_capacity_bps = host.nic_capacity_bps;
    input.receiver.nic_capacity_bps = host.nic_capacity_bps;
    input.admission = admission;
    let assessed = verdict(input, &clear());
    let pps = workload.source_bps_per_stream as f64 / 8.0 / workload.payload_bytes as f64;
    OutputRow {
        cell: identity.to_string(),
        class: assessed.class,
        reasons: assessed.reasons,
        figures: unknown_figures(pps * workload.source_streams as f64),
        admission_waves: assessed.derived.admission_waves,
        policy_revision: policy.revision,
    }
}

#[test]
fn explicit_json_is_stable_and_typed() {
    let cli = cli(&[
        "classify",
        "--format=json",
        "--source-bps=8000000",
        "--nic=loopback",
    ]);
    let output =
        classify(&cli, &vec![assess(&cli, &no_cell(), "explicit")]).expect("classification");
    assert!(output.contains("\"class\":"));
    assert!(output.contains("\"state\":\"unknown\""));
    assert!(output.contains("\"policy_rev\":\"stage-a-v1-no-unvalidated-margin\""));
    assert!(output.starts_with("[\n  {\"cell\":\"explicit\",\"class\":\"conditional\",\"reasons\":["));
    assert!(output.ends_with("}\n]\n"));
}

#[test]
fn plan_expansion_reports_every_cell() {
    let axes = parse_plan("bitrate=8000000,16000000\nconnections=1,2\n")
        .ok()
        .expect("write plan");
    let cli = cli(&["classify", "--plan=x.plan", "--format=tsv", "--nic=loopback"]);
    let cells = classify_plan(&axes, "x.plan").ok().expect("plan");
    let rows: Vec<OutputRow> = cells
        .iter()
        .map(|c| assess(&cli, &c.values, &c.identity))
        .collect();
    let output = classify(&cli, &rows).expect("classification");
    assert_eq!(output.lines().count(), 5);
    assert_eq!(cells[1].identity, "bitrate=8000000,connections=2");
    assert!(output.starts_with(&output_columns().join("\t")));
}

#[test]
fn an_axis_without_values_is_an_error() {
    let mut axes = parse_plan("bitrate=1,2\n").ok().unwrap();
    axes[0].values.clear();
    assert_eq!(
        classify_plan(&axes, "p.txt").err().unwrap(),
        "\"p.txt\": every plan axis needs at least one value"
    );
}

#[test]
fn formats_are_table_tsv_and_json() {
    let plain = cli(&["classify"]);
    let rows = || vec![assess(&plain, &no_cell(), "a\tb")];
    let table = classify(&plain, &rows()).unwrap();
    assert!(table.starts_with("policy: stage-a-v1-no-unvalidated-margin\ncell\tclass\treasons\t"));
    assert!(table.contains("\na b\tconditional\t"));
    let wrong = cli(&["classify", "--format=xml"]);
    assert_eq!(
        classify(&wrong, &rows()).err().unwrap(),
        "unknown --format \"xml\" (expected table, tsv, or json)"
    );
    let json = cli(&["classify", "--json", "--format=tsv"]);
    assert!(classify(&json, &rows()).unwrap().starts_with("[\n"));
    let row = &rows()[0];
    assert_eq!(row_tsv(row).split('\t').count(), output_columns().len());
    assert!(row_json(row).contains("\"retransmission_factor\":{\"state\":\"known\",\"value\":1}"));
    assert!(row_json(row).contains("\"nic_utilization\":{\"state\":\"not-applicable\"}"));
}

#[test]
fn values_come_from_the_cell_before_the_command_line() {
    let cli = cli(&["classify", "--bitrate=5", "--workers=3"]);
    let mut cell = no_cell();
    cell.insert("send-bitrate".to_string(), "7".to_string());
    assert_eq!(value(&cli, &cell, "bitrate").unwrap(), "7");
    assert_eq!(value(&cli, &cell, "workers").unwrap(), "3");
    cell.insert("bitrate".to_string(), "9".to_string());
    assert_eq!(value(&cli, &cell, "bitrate").unwrap(), "9");
    assert!(value(&cli, &cell, "absent").is_none());
}

#[test]
fn unreadable_inputs_are_named() {
    let error = |args: &[&str]| {
        let cli = cli(args);
        workload_from_cli(&cli, &no_cell()).err().unwrap()
    };
    assert_eq!(error(&["classify", "--bitrate=x"]), "invalid integer \"x\"");
    assert_eq!(error(&["classify", "--bond=ring:2"]), "invalid bond \"ring:2\"");
    assert_eq!(
        error(&["classify", "--bond=backup:x"]),
        "invalid bond pair count \"x\""
    );
    assert_eq!(error(&["classify", "--secs=soon"]), "invalid number \"soon\"");
    let protocol = |args: &[&str]| {
        protocol_from_cli(&cli(args), &no_cell(), BondMode::Unbonded)
            .err()
            .unwrap()
    };
    assert_eq!(
        protocol(&["classify", "--encryption=512"]),
        "invalid encryption \"512\""
    );
    assert_eq!(
        protocol(&["classify", "--srt-bandwidth=warp"]),
        "invalid --srt-bandwidth \"warp\""
    );
    let host = |args: &[&str]| host_from_cli(&cli(args), &no_cell(), 1).err().unwrap();
    assert_eq!(
        host(&["classify", "--sock-buf=9x"]),
        "invalid socket buffer \"9x\""
    );
    assert_eq!(
        host(&["classify", "--host-pps=fast"]),
        "invalid availability \"fast\""
    );
    assert_eq!(
        policy_from_cli(&cli(&["classify", "--max-admission-waves=many"]))
            .err()
            .unwrap(),
        "invalid --max-admission-waves \"many\""
    );
}

#[test]
fn inputs_have_defaults_and_aliases() {
    let cli = cli(&[
        "classify",
        "--connections=10",
        "--bond=broadcast:3",
        "--sock-buf=64k",
        "--ingress=shared-pool:4",
        "--latency-ms=200",
        "--effective-rx-buffer=n/a",
        "--nic-bps-capacity=1000",
    ]);
    let (w, _) = workload_from_cli(&cli, &no_cell()).unwrap();
    assert_eq!(w.source_bps_per_stream, 8_000_000);
    assert_eq!(w.logical_streams, 7);
    assert_eq!(w.source_streams, 7);
    assert_eq!(w.payload_bytes, 1316);
    assert_eq!(w.bond, BondMode::Broadcast);
    let p = protocol_from_cli(&cli, &no_cell(), w.bond).unwrap();
    assert_eq!(p.flow_window_packets, 8192);
    assert_eq!(p.tsbpd_latency_ms, 200);
    assert_eq!(p.bandwidth, SrtBandwidthPolicy::LegacySourceFixed);
    let h = host_from_cli(&cli, &no_cell(), 10).unwrap();
    assert_eq!(h.requested_socket_buffer_bytes, 65536);
    assert_eq!(h.socket_fan_in, 3);
    assert_eq!(
        h.effective_receive_socket_buffer_bytes,
        Availability::NotApplicable
    );
    assert_eq!(h.nic_capacity_bps, Availability::Known(1000));
    assert_eq!(h.cpu_allocation, "unspecified");
    assert_eq!(h.workers, 1);
}

#[test]
fn fan_in_is_rounded_up() {
    assert_eq!(inferred_fan_in("shared-pool:4", 10), 3);
    assert_eq!(inferred_fan_in("reuseport-multi=5", 10), 2);
    assert_eq!(inferred_fan_in("reuseport-single:3", 10), 4);
    assert_eq!(inferred_fan_in("per-port", 10), 1);
    assert_eq!(inferred_fan_in("shared-pool:0", 10), 10);
    assert_eq!(inferred_fan_in("shared-pool:4", 0), 1);
}

#[test]
fn durations_and_probabilities_shed_their_units() {
    assert_eq!(duration_text("25ms").unwrap(), "25");
    assert_eq!(duration_text("0.5").unwrap(), "0.5");
    assert!(duration_text("off").is_none());
    assert_eq!(probability_text("1.5%"), Some(("1.5".to_string(), true)));
    assert_eq!(probability_text("0.01"), Some(("0.01".to_string(), false)));
    assert_eq!(probability_text("%"), None);
}

#[test]
fn a_configuration_describes_its_own_cell() {
    let cli = cli(&[
        "srt-bench",
        "runtime=mio",
        "mode=receiver",
        "9000",
        "5",
        "80",
        "--connections=9",
        "--ingress=shared-pool=2",
        "--workers=3",
    ]);
    let env = RunDefaults {
        cpus: 4,
        sock_buf_bytes: 0,
        source_backlog_ms: 250,
        datapath_queue_horizon_ms: 100,
        outbound_retry_horizon_ms: 100,
    };
    let cfg = bench_config_from_args(&cli, &env).unwrap();
    let w = workload_of_config(&cfg);
    assert_eq!(w.physical_connections, 9);
    assert_eq!(w.logical_streams, 9);
    let h = host_of_config(&cfg);
    assert_eq!(h.socket_fan_in, 5);
    assert_eq!(h.workers, 3);
    assert_eq!(h.cpu_allocation, "4");
    assert_eq!(h.nic_capacity_bps, Availability::Unknown);
}

#[test]
fn a_policy_is_identified_by_its_content() {
    let t = |s: &str| s.to_string();
    assert_eq!(
        policy_fingerprint(&PolicyThresholds {
            revision: CLASSIFIER_POLICY_REVISION.to_string(),
            window: t("0"),
            recovery: t("0"),
            socket: t("0"),
            host: t("1"),
            nic: t("1"),
            control: None,
            waves: Some(4),
        }),
        "revision=stage-a-v1-no-unvalidated-margin;window=0;recovery=0;socket=0;host=1;nic=1;\
         control=none;waves=4"
    );
}

#[test]
fn unknown_capacity_is_not_zero_or_infinite() {
    let assessment = verdict(unmeasured_input(), &clear());
    assert_eq!(assessment.derived.load.host, Knowledge::Unknown);
    assert!(assessment
        .reasons
        .contains(&CapacityReason::HostPpsCapacityUnknown));
    assert_eq!(assessment.class, CellClass::Conditional);
}

#[test]
fn loopback_nic_is_not_applicable() {
    let mut input = known_input();
    input.receiver.nic_capacity_bps = Availability::NotApplicable;
    let assessment = verdict(input, &clear());
    assert_eq!(assessment.derived.load.nic, Knowledge::NotApplicable);
    assert!(!assessment
        .reasons
        .contains(&CapacityReason::NicCapacityUnknown));
    assert_eq!(assessment.class, CellClass::ProductionCandidate);
}

#[test]
fn latency_shorter_than_guarded_rtt_is_conditional() {
    let mut input = known_input();
    input.network.expected_rtt = Availability::Known(120_000_000);
    input.protocol.tsbpd_latency_ms = 20;
    let late = Comparisons {
        recovery_short: true,
        ..clear()
    };
    let assessment = verdict(input, &late);
    assert_eq!(assessment.class, CellClass::Conditional);
    assert!(assessment
        .reasons
        .contains(&CapacityReason::RecoveryMarginInsufficient));
    // Where the delay is not known, neither is the margin.
    input.network.expected_rtt = Availability::Unknown;
    assert!(!verdict(input, &late)
        .reasons
        .contains(&CapacityReason::RecoveryMarginInsufficient));
}

#[test]
fn fixed_pacing_over_source_is_diagnostic_not_hard_failure() {
    let mut input = known_input();
    input.protocol.bandwidth = SrtBandwidthPolicy::FixedBps(4_000_000);
    let over = Comparisons {
        source_over_pacing: true,
        ..clear()
    };
    let assessment = verdict(input, &over);
    assert_eq!(assessment.class, CellClass::DiagnosticControl);
    assert!(assessment
        .reasons
        .contains(&CapacityReason::SourceExceedsPacingEnvelope));
}

#[test]
fn what_an_input_leaves_open_is_named() {
    let mut backup = known_input();
    backup.workload.physical_connections = 3;
    backup.workload.logical_streams = 2;
    backup.workload.source_streams = 2;
    backup.protocol.bond = BondMode::Backup;
    backup.sender.nic_capacity_bps = Availability::Unknown;
    backup.receiver.nic_capacity_bps = Availability::Unknown;
    let assessment = verdict(backup, &clear());
    assert_eq!(assessment.class, CellClass::Conditional);
    assert_eq!(
        assessment.reasons,
        [
            CapacityReason::BondLegDistributionUnknown,
            CapacityReason::ControlRateUncertain,
            CapacityReason::PredictedPacketWorkUnknown,
            CapacityReason::NicCapacityUnknown,
        ]
    );
    let mut pair = known_input();
    pair.workload.physical_connections = 2;
    pair.protocol.bond = BondMode::Broadcast;
    assert_eq!(verdict(pair, &clear()).class, CellClass::ProductionCandidate);
    let one = |change: fn(&mut CapacityInput)| {
        let mut input = known_input();
        change(&mut input);
        verdict(input, &clear()).reasons
    };
    assert_eq!(
        one(|i| i.network.rtt_jitter = Availability::Unknown),
        [CapacityReason::RttVarianceUnknown]
    );
    assert_eq!(
        one(|i| i.network.expected_reorder_probability = Knowledge::Unknown),
        [CapacityReason::ReorderImpactUnmodeled]
    );
    assert_eq!(
        one(|i| i.sender.effective_send_socket_buffer_bytes = Availability::Unknown),
        [CapacityReason::EffectiveSocketBufferUnknown]
    );
    assert_eq!(
        one(|i| i.receiver.host_pps_capacity = Knowledge::Unknown),
        [CapacityReason::HostPpsCapacityUnknown]
    );
    assert_eq!(
        one(|i| i.network.expected_loss_probability = Knowledge::Unknown),
        [
            CapacityReason::ExpectedLossUnknown,
            CapacityReason::ControlRateUncertain,
            CapacityReason::PredictedPacketWorkUnknown,
        ]
    );
}

#[test]
fn comparisons_on_what_is_unknown_have_no_say() {
    let all = Comparisons {
        overhead_over_pacing: true,
        window_short: true,
        window_headroom_low: true,
        recovery_short: true,
        receive_horizon_low: true,
        send_horizon_low: true,
        control_rate_high: true,
        ..clear()
    };
    let mut input = unmeasured_input();
    input.network.expected_loss_probability = Knowledge::Unknown;
    assert_eq!(
        verdict(input, &all).reasons,
        verdict(input, &clear()).reasons
    );
    // One horizon alone is not enough.
    let mut half = known_input();
    half.sender.effective_send_socket_buffer_bytes = Availability::NotApplicable;
    let low = Comparisons {
        receive_horizon_low: true,
        ..clear()
    };
    assert_eq!(verdict(half, &low).class, CellClass::ProductionCandidate);
    assert_eq!(
        verdict(known_input(), &low).reasons,
        [CapacityReason::SocketBufferHorizonLow]
    );
    // A control rate is held against a limit only where there is one.
    let busy = Comparisons {
        control_rate_high: true,
        ..clear()
    };
    assert_eq!(
        verdict(known_input(), &busy).class,
        CellClass::ProductionCandidate
    );
    let limited = PolicyThresholds {
        control: Some("10".to_string()),
        ..thresholds(None)
    };
    let assessed = assess_input(known_input(), &busy, &limited).ok().unwrap();
    assert_eq!(assessed.reasons, [CapacityReason::ExpectedControlRateHigh]);
}

#[test]
fn requests_and_unknowns_are_told_apart() {
    assert!(Availability::Known(1).is_known());
    assert!(!Availability::<u64>::Unknown.is_known());
    assert_eq!(
        SocketBufferRequest::from_bytes(0),
        SocketBufferRequest::SystemDefault
    );
    assert_eq!(
        SocketBufferRequest::from_bytes(9),
        SocketBufferRequest::Bytes(9)
    );
}

#[test]
fn a_short_window_exceeds_the_envelope() {
    let short = Comparisons {
        window_short: true,
        ..clear()
    };
    let mut input = known_input();
    input.workload.physical_connections = 10;
    input.admission.connect_cc = 4;
    let policy = PolicyThresholds {
        revision: "lab".to_string(),
        ..thresholds(Some(2))
    };
    let assessed = assess_input(input, &short, &policy).ok().unwrap();
    assert_eq!(assessed.class, CellClass::ExceedsEnvelope);
    assert_eq!(
        assessed.reasons,
        [
            CapacityReason::WindowBelowBdpRequirement,
            CapacityReason::AdmissionWavesHigh
        ]
    );
    assert_eq!(assessed.derived.admission_waves, 3);
    assert_eq!(assessed.derived.pacing_packet_bytes, 1332);
    assert_eq!(assessed.input, input);
    assert_eq!(assessed.policy_revision, "lab");
    assert_eq!(assessed.policy_fingerprint, policy_fingerprint(&policy));
    input.admission.connect_cc = 0;
    assert_eq!(
        assess_input(input, &short, &policy).err().unwrap().0,
        "connect_cc must be positive"
    );
}

#[test]
fn windows_are_classified_against_what_the_protocol_will_actually_use() {
    // Zero is a request like any other: the protocol clamps it up.
    assert_eq!(effective_windows(0, 0), (32, 32), "zero clamps up");
    assert_eq!(effective_windows(1, 1), (32, 32), "below minimum clamps up");
    assert_eq!(effective_windows(31, 31), (32, 32));
    assert_eq!(effective_windows(32, 32), (32, 32), "at minimum unchanged");
    assert_eq!(
        effective_windows(MAX_FLOW_WINDOW, 64),
        (MAX_FLOW_WINDOW, 64),
        "at maximum unchanged"
    );
    assert_eq!(
        effective_windows(MAX_FLOW_WINDOW + 1, 64),
        (MAX_FLOW_WINDOW, 64),
        "above maximum clamps down"
    );
    assert_eq!(
        effective_windows(1000, 5000),
        (1000, 1000),
        "receive cannot exceed flow"
    );

    let mut input = known_input();
    input.protocol.flow_window_packets = 1;
    input.protocol.receive_window_packets = 5000;
    let a = verdict(input, &clear());
    assert_eq!(a.derived.configured_flow_window_packets, 1);
    assert_eq!(a.derived.effective_flow_window_packets, 32);
    assert_eq!(a.derived.effective_receive_window_packets, 32);

    // Zero must assess, not error: the protocol runs 0, 1 and 31 alike.
    input.protocol.flow_window_packets = 0;
    input.protocol.receive_window_packets = 0;
    let zero = verdict(input, &clear());
    assert_eq!(zero.derived.configured_flow_window_packets, 0);
    assert_eq!(
        zero.derived.effective_flow_window_packets,
        MIN_FLOW_WINDOW_PACKETS
    );
    assert_eq!(
        zero.derived.effective_receive_window_packets,
        MIN_FLOW_WINDOW_PACKETS
    );
}

#[test]
fn packets_are_sized_with_their_headers() {
    assert_eq!(pacing_packet_size_bytes(1316), 1332);
    assert_eq!(
        encoded_packet_size_bytes(1316, EncryptionMode::Plain, CipherMode::Gcm, 28),
        1360
    );
    assert_eq!(
        encoded_packet_size_bytes(1316, EncryptionMode::Aes256, CipherMode::Gcm, 28),
        1376
    );
    assert_eq!(admission_waves(10, 4), 3);
    assert_eq!(admission_waves(8, 4), 2);
}

#[test]
fn an_oversized_payload_exceeds_the_protocol() {
    let mut input = known_input();
    input.workload.payload_bytes = 1485;
    let assessed = verdict(input, &clear());
    assert!(assessed
        .reasons
        .contains(&CapacityReason::PayloadExceedsProtocolMtu));
    assert_eq!(assessed.class, CellClass::ExceedsEnvelope);
}

#[test]
fn impossible_inputs_are_rejected() {
    let good = WorkloadEnvelope {
        source_bps_per_stream: 1,
        source_streams: 1,
        physical_connections: 2,
        logical_streams: 1,
        payload_bytes: 1316,
        duration_us: 1,
    };
    assert!(validate_workload(&good).is_ok());
    let none = WorkloadEnvelope {
        source_streams: 0,
        ..good
    };
    assert!(validate_workload(&none)
        .err()
        .unwrap()
        .0
        .contains("must be positive"));
    let few = WorkloadEnvelope {
        logical_streams: 3,
        ..good
    };
    assert!(validate_workload(&few)
        .err()
        .unwrap()
        .0
        .contains("at least logical_streams"));
    let settings = known_input().protocol;
    let host = known_input().sender;
    let cc = |connect_cc: u64| AdmissionEnvelope { connect_cc };
    assert!(validate_protocol(&settings, &cc(1), &host, &host).is_ok());
    assert!(validate_protocol(&settings, &cc(0), &host, &host).is_err());
    let gcm = ProtocolEnvelope {
        encryption: EncryptionMode::Aes192,
        cipher_mode: CipherMode::Gcm,
        ..settings
    };
    assert!(validate_protocol(&gcm, &cc(1), &host, &host).is_err());
    let ranges = clear().ranges;
    let network = known_input().network;
    let card = |bps: u64| EndpointEnvelope {
        nic_capacity_bps: Availability::Known(bps),
        ..host
    };
    assert!(validate_ranges(&network, &card(1), &host, &ranges).is_ok());
    assert!(validate_ranges(&network, &card(0), &host, &ranges).is_err());
    let lossy = RangeChecks {
        loss_in_range: false,
        ..ranges
    };
    assert!(validate_ranges(&network, &host, &host, &lossy).is_err());
    // What is not known is out of no range.
    let unknown = NetworkEnvelope {
        expected_loss_probability: Knowledge::Unknown,
        ..network
    };
    assert!(validate_ranges(&unknown, &host, &host, &lossy).is_ok());
    let powerless = RangeChecks {
        receiver_host_positive: false,
        ..ranges
    };
    assert!(validate_ranges(&network, &host, &host, &powerless)
        .err()
        .unwrap()
        .0
        .contains("host PPS capacity"));
    let all = |w: &WorkloadEnvelope, connect_cc: u64, r: &RangeChecks| {
        let whole = CapacityInput {
            workload: *w,
            admission: cc(connect_cc),
            ..known_input()
        };
        validate(&whole, r).err().map(|e| e.0)
    };
    assert_eq!(all(&good, 1, &ranges), None);
    assert!(all(&none, 0, &lossy).unwrap().contains("must be positive"));
    assert_eq!(all(&good, 0, &lossy).unwrap(), "connect_cc must be positive");
    assert!(all(&good, 1, &lossy).unwrap().contains("loss probability"));
}

fn rec(pairs: &[(&str, &str)]) -> Record {
    Record {
        fields: pairs
            .iter()
            .map(|(k, v)| (k.to_string(), v.to_string()))
            .collect(),
    }
}

#[test]
fn predictions_are_held_against_observations() {
    let row = |runtime: &str, role: &str, class: &str| {
        rec(&[
            ("runtime", runtime),
            ("role", role),
            ("rep", "1"),
            ("attempt", "a"),
            ("conns", "1"),
            ("source_bps", "8"),
            ("secs", "1"),
            ("model_class_pre", class),
            ("model_reasons_pre", "none"),
        ])
    };
    let records = vec![
        row("mio", "caller", "production-candidate"),
        row("mio", "listener", "production-candidate"),
        row("smol", "caller", "exceeds-envelope"),
        row("smol", "listener", "exceeds-envelope"),
        row("tokio", "listener", "conditional"),
        rec(&[("runtime", "compio"), ("rep", "1")]),
    ];
    let slots = pair_results(&records);
    assert_eq!(slots.len(), 3);
    assert_eq!(slots[0].key, "runtime=mio conns=1 source_bps=8 secs=1 rep=1 attempt=a");
    let verdicts = vec![
        vec!["caller torn down 1".to_string()],
        Vec::new(),
        Vec::new(),
    ];
    let tsv = validate_results(&slots, &records, &verdicts, "tsv");
    let lines: Vec<&str> = tsv.lines().collect();
    assert_eq!(
        lines[0],
        "cell\tpredicted_class\tpredicted_reasons\tobserved_clean\tagreement\texplanation"
    );
    assert_eq!(
        lines[1],
        "runtime=mio conns=1 source_bps=8 secs=1 rep=1 attempt=a\tproduction-candidate\tnone\tfalse\tmismatch\tcaller torn down 1"
    );
    assert_eq!(
        lines[2],
        "runtime=smol conns=1 source_bps=8 secs=1 rep=1 attempt=a\texceeds-envelope\tnone\ttrue\tmismatch\tcanonical pair is clean"
    );
    assert_eq!(
        lines[3],
        "runtime=tokio conns=1 source_bps=8 secs=1 rep=1 attempt=a\tconditional\tnone\tincomplete\tincomplete\tmissing caller or listener row"
    );
    let table = validate_results(&slots, &records, &verdicts, "anything");
    assert!(table.starts_with("cell\tpredicted\tobserved_clean\tagreement\texplanation\n"));
    let json = validate_results(&slots, &records, &verdicts, "json");
    assert!(json.starts_with("[{\"cell\":\"runtime=mio conns=1 source_bps=8 secs=1 rep=1 attempt=a\","));
    assert!(json.ends_with("\"explanation\":\"missing caller or listener row\"}]\n"));
    let unmeasured = vec![
        rec(&[("runtime", "mio"), ("role", "caller")]),
        rec(&[("runtime", "mio"), ("role", "listener")]),
    ];
    let slots = pair_results(&unmeasured);
    assert!(validate_results(&slots, &unmeasured, &vec![Vec::new()], "tsv")
        .contains("unknown\tunknown\tcould not compute canonical pair metrics"));
}

fn measured() -> KnownInputs {
    KnownInputs {
        bond: BondMode::Unbonded,
        source_streams: 1,
        logical_streams: 1,
        physical_connections: 1,
        loss: Knowledge::Known,
        loss_positive: false,
        rtt: Knowledge::Known,
        jitter: Knowledge::Known,
        link_overhead: Knowledge::Known,
        sender_host: Knowledge::Known,
        receiver_host: Knowledge::Known,
        sender_nic: Knowledge::NotApplicable,
        receiver_nic: Knowledge::NotApplicable,
        receive_buffer: Knowledge::Known,
        send_buffer: Knowledge::Known,
        traffic_positive: true,
    }
}

#[test]
fn what_is_known_follows_the_inputs() {
    let i = measured();
    let t = derive_traffic(&i);
    assert_eq!(t.control, Knowledge::Known);
    assert_eq!(t.confidence, ControlPpsConfidence::CadenceBound);
    assert_eq!(t.nic_wire, Knowledge::NotApplicable);
    let l = derive_load(&i, &t);
    assert_eq!(l.host, Knowledge::Known);
    assert_eq!(l.nic, Knowledge::NotApplicable);
    assert_eq!(l.resources, Knowledge::Known);

    let lossy = KnownInputs {
        loss_positive: true,
        ..i
    };
    assert_eq!(
        derive_traffic(&lossy).confidence,
        ControlPpsConfidence::ExpectedLoss
    );
    let unheard = KnownInputs {
        loss: Knowledge::Unknown,
        ..i
    };
    let t = derive_traffic(&unheard);
    assert_eq!(t.packets, Knowledge::Unknown);
    assert_eq!(derive_load(&unheard, &t).host, Knowledge::Unknown);
}

#[test]
fn a_backup_pair_knows_its_window_but_not_its_control_rate() {
    let pair = KnownInputs {
        bond: BondMode::Backup,
        physical_connections: 2,
        ..measured()
    };
    let t = derive_traffic(&pair);
    assert_eq!(t.leg, Knowledge::Known);
    assert_eq!(t.ack, Knowledge::Unknown);
    assert_eq!(t.confidence, ControlPpsConfidence::Unknown);
    assert_eq!(derive_load(&pair, &t).window, Knowledge::Known);
    let uneven = KnownInputs {
        bond: BondMode::Broadcast,
        logical_streams: 2,
        source_streams: 2,
        physical_connections: 3,
        ..measured()
    };
    assert_eq!(derive_traffic(&uneven).leg, Knowledge::Unknown);
}

#[test]
fn pacing_counts_from_a_rate_of_at_least_a_byte() {
    assert_eq!(
        pacing_base_bytes(SrtBandwidthPolicy::FixedBps(800), 5),
        Some(100)
    );
    assert_eq!(
        pacing_base_bytes(SrtBandwidthPolicy::LegacySourceFixed, 5),
        Some(1)
    );
    assert_eq!(
        pacing_base_bytes(SrtBandwidthPolicy::ProtocolDefault, 5),
        None
    );
}
