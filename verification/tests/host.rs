use srt_bench::cli::Cli;
use srt_bench::cpu_stats::{udp_counters, UdpCounters};
use srt_bench::host_contention::{
    admission_skipped, admission_step, admission_timeout_secs, evaluate, fingerprint, flag_f64,
    flag_u64, instantaneous_signals, parse_psi, parse_stat_steal, policy_argv,
    policy_mode_from_cli, AdmissionOutcome, HostContentionMode, HostContentionStatus,
    any_host_signal, stall_share, stat_sum_fits, steal_share, HostContentionSnapshot, PolicyRendering, Pressure,
    PsiResource, Share,
};

const SAMPLE_PSI: &str = "\
some avg10=12.50 avg60=1.00 avg300=0.50 total=1000000
full avg10=0.10 avg60=0.00 avg300=0.00 total=1000
";

fn number(text: &str) -> f64 {
    text.parse().unwrap()
}

#[test]
fn parse_psi_reads_some_and_full() {
    let psi = parse_psi(SAMPLE_PSI);
    assert!(psi.available);
    assert!((number(&psi.some_avg10) - 12.5).abs() < f64::EPSILON);
    assert_eq!(psi.some_total_us, 1_000_000);
    assert!((number(&psi.full_avg10) - 0.1).abs() < f64::EPSILON);
    assert_eq!(psi.full_total_us, 1_000);
}

#[test]
fn parse_psi_empty_is_unavailable() {
    let psi = parse_psi("");
    assert!(!psi.available);
    assert_eq!(psi.some_total_us, 0);
}

#[test]
fn parse_stat_steal_reads_eighth_field() {
    let text = "\
cpu  100 0 50 1000 0 0 10 25 0 0
cpu0 50 0 25 500 0 0 5 10 0 0
";
    let (steal, total) = parse_stat_steal(text).expect("steal");
    assert_eq!(steal, 25);
    assert_eq!(
        total,
        [100, 0, 50, 1000, 0, 0, 10, 25, 0, 0].iter().sum::<u64>()
    );
    assert!(parse_stat_steal("cpu  1 2 3\n").is_none());
    assert!(parse_stat_steal("intr 5\n").is_none());
    assert!(stat_sum_fits(text));
    assert!(!stat_sum_fits("cpu  18446744073709551615 1\n"));
}

/// What a policy's thresholds say of two samples, the way the harness compares them.
#[derive(Clone, Copy)]
struct Thresholds {
    mode: HostContentionMode,
    cpu: f64,
    mem: f64,
    io: f64,
    stall: f64,
    steal: f64,
}

const DEFAULTS: Thresholds = Thresholds {
    mode: HostContentionMode::Mark,
    cpu: 10.0,
    mem: 10.0,
    io: 20.0,
    stall: 10.0,
    steal: 5.0,
};

#[derive(Clone, Copy, Default)]
struct Sample {
    cpu_avg10: f64,
    cpu_total_us: u64,
    cpu_available: bool,
    steal_jiffies: u64,
    cpu_jiffies: u64,
    steal_available: bool,
}

fn judge(
    t: Thresholds,
    pre: Sample,
    post: Sample,
    secs: f64,
) -> (HostContentionStatus, Vec<&'static str>) {
    let stall = 100.0 * (post.cpu_total_us - pre.cpu_total_us) as f64 / (secs * 1e6);
    let jiffies = post.cpu_jiffies - pre.cpu_jiffies;
    let steal = if jiffies > 0 {
        100.0 * (post.steal_jiffies - pre.steal_jiffies) as f64 / jiffies as f64
    } else {
        0.0
    };
    let (mem, io) = (0.0, 0.0);
    let p = Pressure {
        cpu_psi: pre.cpu_available && pre.cpu_avg10.max(post.cpu_avg10) > t.cpu,
        cpu_stall: pre.cpu_available && stall > t.stall,
        mem_psi: mem > t.mem,
        io_psi: io > t.io,
        steal: pre.steal_available && steal > t.steal,
    };
    let readable = pre.cpu_available || pre.steal_available;
    evaluate(t.mode, readable, p)
}

#[test]
fn evaluate_marks_cpu_psi_from_post_sample() {
    let pre = Sample {
        cpu_avg10: 0.0,
        cpu_total_us: 1_000_000,
        cpu_available: true,
        ..Sample::default()
    };
    let mut post = pre;
    post.cpu_avg10 = 15.0;
    post.cpu_total_us = 1_000_000;
    let (status, signals) = judge(DEFAULTS, pre, post, 8.0);
    assert_eq!(status, HostContentionStatus::Contended);
    assert!(signals.contains(&"cpu_psi"));
    assert!(fingerprint(&rendering(HostContentionMode::Mark, "10")).contains("mode=mark"));
}

#[test]
fn evaluate_detects_mid_cell_stall_delta() {
    let t = Thresholds {
        mode: HostContentionMode::Refuse,
        cpu: 99.0, // avg10 alone would not fire
        stall: 10.0,
        ..DEFAULTS
    };
    let pre = Sample {
        cpu_total_us: 1_000_000,
        cpu_available: true,
        ..Sample::default()
    };
    let mut post = pre;
    // 2_000_000 us stalled over an 8s (8_000_000 us) cell => 25%.
    post.cpu_total_us = 3_000_000;
    let (status, signals) = judge(t, pre, post, 8.0);
    assert_eq!(status, HostContentionStatus::Contended);
    assert!(signals.contains(&"cpu_stall"));
}

#[test]
fn evaluate_detects_steal() {
    let t = Thresholds {
        mode: HostContentionMode::Mark,
        steal: 5.0,
        cpu: 99.0,
        mem: 99.0,
        io: 99.0,
        stall: 99.0,
    };
    let pre = Sample {
        steal_jiffies: 100,
        cpu_jiffies: 10_000,
        steal_available: true,
        ..Sample::default()
    };
    let post = Sample {
        steal_jiffies: 200,  // +100
        cpu_jiffies: 11_000, // +1000 => 10% steal
        steal_available: true,
        ..Sample::default()
    };
    let (status, signals) = judge(t, pre, post, 1.0);
    assert_eq!(status, HostContentionStatus::Contended);
    assert!(signals.contains(&"steal"));
}

#[test]
fn allow_mode_never_contends() {
    let t = Thresholds {
        mode: HostContentionMode::Allow,
        ..DEFAULTS
    };
    let snap = Sample {
        cpu_avg10: 90.0,
        cpu_total_us: 1,
        cpu_available: true,
        ..Sample::default()
    };
    let (status, signals) = judge(t, snap, snap, 1.0);
    assert_eq!(status, HostContentionStatus::Allowed);
    assert!(signals.is_empty());
}

#[test]
fn quiet_when_below_thresholds() {
    let snap = Sample {
        cpu_avg10: 1.0,
        cpu_total_us: 100,
        cpu_available: true,
        steal_available: true,
        steal_jiffies: 0,
        cpu_jiffies: 1000,
    };
    let (status, signals) = judge(DEFAULTS, snap, snap, 5.0);
    assert_eq!(status, HostContentionStatus::Quiet);
    assert!(signals.is_empty());
}

#[test]
fn an_unreadable_host_is_unknown() {
    let blind = Sample::default();
    let (status, signals) = judge(DEFAULTS, blind, blind, 5.0);
    assert_eq!(status, HostContentionStatus::Unknown);
    assert!(signals.is_empty());
}

fn cli(args: &[&str]) -> Cli {
    let args: Vec<String> = args.iter().map(|a| a.to_string()).collect();
    Cli::parse(&args)
}

fn rendering(mode: HostContentionMode, cpu: &str) -> PolicyRendering {
    PolicyRendering {
        mode,
        cpu_psi_avg10_pct: cpu.to_string(),
        mem_psi_avg10_pct: "10".to_string(),
        io_psi_avg10_pct: "20".to_string(),
        cpu_stall_pct: "10".to_string(),
        steal_pct: "5".to_string(),
        admission_timeout_secs: 300,
        admission_poll_ms: 500,
    }
}

#[test]
fn opt_out_cli_sets_allow() {
    let cli = cli(&["srt-bench", "--allow-host-contention"]);
    assert_eq!(
        policy_mode_from_cli(&cli).expect("parse"),
        HostContentionMode::Allow
    );
}

#[test]
fn host_contention_cli_refuse() {
    let cli = cli(&[
        "srt-bench",
        "--host-contention=refuse",
        "--host-cpu-psi-avg10=5",
    ]);
    let mode = policy_mode_from_cli(&cli).expect("parse");
    assert_eq!(mode, HostContentionMode::Refuse);
    let cpu = flag_f64(&cli, "host-cpu-psi-avg10").unwrap().unwrap();
    assert!((number(&cpu) - 5.0).abs() < f64::EPSILON);
    let shown = fingerprint(&rendering(mode, &cpu));
    assert!(shown.contains("mode=refuse"));
    assert!(shown.contains("cpu_avg10=5"));
}

#[test]
fn unreadable_policy_flags_are_named() {
    let cli = cli(&["srt-bench", "--host-steal-pct=much", "--host-contention-poll-ms=-1"]);
    assert_eq!(
        flag_f64(&cli, "host-steal-pct").err().unwrap(),
        "--host-steal-pct must be a number, got \"much\""
    );
    assert_eq!(
        flag_u64(&cli, "host-contention-poll-ms", 500)
            .err()
            .unwrap(),
        "--host-contention-poll-ms must be an unsigned integer, got \"-1\""
    );
    assert_eq!(flag_u64(&cli, "absent", 500), Ok(500));
}

#[test]
fn a_policy_is_handed_on_whole() {
    assert_eq!(
        policy_argv(&rendering(HostContentionMode::Allow, "7.5")),
        [
            "--host-contention=allow",
            "--host-cpu-psi-avg10=7.5",
            "--host-mem-psi-avg10=10",
            "--host-io-psi-avg10=20",
            "--host-cpu-stall-pct=10",
            "--host-steal-pct=5",
            "--host-contention-timeout-secs=300",
            "--host-contention-poll-ms=500",
        ]
    );
}

const CALM: Pressure = Pressure {
    cpu_psi: false,
    cpu_stall: false,
    mem_psi: false,
    io_psi: false,
    steal: false,
};

#[test]
fn admission_waits_until_quiet_or_out_of_time() {
    assert!(matches!(
        admission_skipped(HostContentionMode::Allow, true),
        Some(AdmissionOutcome::Skipped { reason: "host-contention=allow" })
    ));
    assert!(matches!(
        admission_skipped(HostContentionMode::Mark, false),
        Some(AdmissionOutcome::Skipped { .. })
    ));
    assert!(admission_skipped(HostContentionMode::Refuse, true).is_none());
    assert_eq!(admission_timeout_secs(HostContentionMode::Mark, 300), 2);
    assert_eq!(admission_timeout_secs(HostContentionMode::Refuse, 300), 300);
    assert!(matches!(
        admission_step(CALM, false, 2),
        Some(AdmissionOutcome::Quiet)
    ));
    let busy = Pressure {
        cpu_psi: true,
        io_psi: true,
        ..CALM
    };
    assert!(admission_step(busy, false, 2).is_none());
    match admission_step(busy, true, 2) {
        Some(AdmissionOutcome::Timeout { detail }) => {
            assert_eq!(detail, "still contended after 2s (cpu_psi,io_psi)");
        }
        other => panic!("{other:?}"),
    }
    assert_eq!(
        instantaneous_signals(true, false, true),
        ["cpu_psi", "io_psi"]
    );
}

#[test]
fn a_later_line_of_a_kind_replaces_an_earlier_one() {
    let psi: PsiResource = parse_psi("some avg10=1 total=1\nsome avg10=2 total=x\nother avg10=9\n");
    assert_eq!(psi.some_avg10, "2");
    assert_eq!(psi.some_total_us, 1);
    assert!(psi.available);
}

#[test]
fn udp_counters_are_read_and_subtracted() {
    let text = "Udp: InDatagrams NoPorts InErrors OutDatagrams RcvbufErrors SndbufErrors\n\
                Udp: 10 0 1 20 3 4\n";
    let now = udp_counters(text);
    assert_eq!(now.rcvbuf_errors, 3);
    assert_eq!(now.sndbuf_errors, 4);
    let before = UdpCounters::default();
    let delta = now.since(before);
    assert_eq!(delta.rcvbuf_errors, 3);
    assert_eq!(before.since(now).rcvbuf_errors, 0);
}

#[test]
fn shares_need_two_samples_and_time() {
    let psi = |total: u64, available: bool| PsiResource {
        some_avg10: "0".to_string(),
        some_total_us: total,
        full_avg10: "0".to_string(),
        full_total_us: 0,
        available,
    };
    let sample = |total: u64, steal: u64, jiffies: u64| HostContentionSnapshot {
        cpu: psi(total, true),
        memory: psi(0, false),
        io: psi(0, false),
        steal_jiffies: steal,
        cpu_jiffies: jiffies,
        steal_available: true,
    };
    let (pre, post) = (sample(1_000_000, 100, 10_000), sample(3_000_000, 200, 11_000));
    assert_eq!(
        stall_share(&pre, &post, 8_000_000),
        Some(Share {
            part: 2_000_000,
            whole: 8_000_000
        })
    );
    assert_eq!(stall_share(&pre, &post, 0), None);
    assert_eq!(
        steal_share(&pre, &post),
        Some(Share {
            part: 100,
            whole: 1000
        })
    );
    assert_eq!(
        steal_share(&post, &pre),
        Some(Share { part: 0, whole: 1 })
    );
    assert!(any_host_signal(&pre, &post));
}
