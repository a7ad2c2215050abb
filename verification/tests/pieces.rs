use srt_bench::cli::{BandwidthPolicy, Cli, Runtime};
use srt_bench::driver::{Driver, DriverEvent, TimerKind, Timers};
use srt_bench::json::{json_string, Escapes};
use srt_bench::results::{columns, parse_results, row_text};
use srt_bench::sysprof::{
    parse_perf_csv, sysprof_receiver_args, sysprof_sender_args, SysprofPlan,
};
use srt_bench::text::{
    at_most, float_text, join, lines, pad_left, pad_right, parse_i64, parse_u64, render,
    render_signed, sort, split, split_once, strip_prefix, strip_suffix, to_lower, trim, words,
};

fn strings(list: &[&str]) -> Vec<String> {
    list.iter().map(|s| s.to_string()).collect()
}

#[test]
fn texts_are_cut_as_the_standard_library_cuts_them() {
    for s in ["", "a", "a,b", ",a,,b,", "x y  z", "é=ü", "a\tb\nc"] {
        assert_eq!(split(s, ','), s.split(',').collect::<Vec<_>>());
        assert_eq!(join(&split(s, ','), ","), s);
        assert_eq!(words(s), s.split_whitespace().collect::<Vec<_>>());
        assert_eq!(lines(s), s.lines().collect::<Vec<_>>());
        assert_eq!(trim(s), s.trim());
        assert_eq!(
            split_once(s, '='),
            s.split_once('=')
                .map(|(a, b)| (a.to_string(), b.to_string()))
        );
        assert_eq!(to_lower(s), s.to_ascii_lowercase());
    }
    assert_eq!(lines("a\r\nb\n"), ["a", "b"]);
    assert_eq!(strip_prefix("send-x", "send-").unwrap(), "x");
    assert!(strip_prefix("x", "send-").is_none());
    assert_eq!(strip_suffix("25ms", "ms").unwrap(), "25");
}

#[test]
fn numbers_are_read_as_the_standard_library_reads_them() {
    for s in [
        "0",
        "+7",
        "-7",
        "007",
        "",
        "-",
        "+",
        "1.5",
        "18446744073709551615",
        "18446744073709551616",
        "9223372036854775808",
        "-9223372036854775808",
        " 1",
    ] {
        assert_eq!(parse_u64(s), s.parse::<u64>().ok(), "{s:?}");
        assert_eq!(parse_i64(s), s.parse::<i64>().ok(), "{s:?}");
    }
    for s in [
        "1", "1.", ".5", ".", "", "+1e5", "-1E-5", "1e", "e5", "inf", "-Infinity", "NaN", "infin",
        "1_0", "0x1", " 1", "1 ", "1e+", "--1", "1.5.2", "5e5e5",
    ] {
        assert_eq!(float_text(s), s.parse::<f64>().is_ok(), "{s:?}");
    }
    for n in [0u64, 9, 10, 1234567890, u64::MAX] {
        assert_eq!(render(n), n.to_string());
        assert_eq!(parse_u64(&render(n)), Some(n));
    }
    for n in [0i64, -1, i64::MIN, i64::MAX] {
        assert_eq!(render_signed(n), n.to_string());
    }
}

#[test]
fn texts_sort_by_their_characters() {
    let mut want = strings(&["b", "", "ab", "a", "é", "B"]);
    let got = sort(want.clone());
    want.sort();
    assert_eq!(got, want);
    assert!(at_most("a", "ab") && !at_most("b", "ab"));
}

#[test]
fn columns_are_padded_by_characters() {
    assert_eq!(pad_left("7", 4), "   7");
    assert_eq!(pad_right("×", 3), "×  ");
    assert_eq!(pad_left("12345", 3), "12345");
}

#[test]
fn json_strings_escape_what_could_end_them() {
    assert_eq!(
        json_string("a\"b\\c\n\u{1}\u{85}", Escapes::Nothing),
        "\"a\\\"b\\\\c\\n\u{1}\u{85}\""
    );
    assert_eq!(json_string("\u{1}", Escapes::BelowSpace), "\"\\u0001\"");
    assert_eq!(json_string("\u{85}", Escapes::AllControls), "\"\\u0085\"");
}

#[test]
fn written_rows_are_read_back() {
    let width = columns().len();
    let values: Vec<String> = (0..width).map(|i| format!("v{i}")).collect();
    let text = format!("{}\n{}\n", columns().join("\t"), row_text(&values));
    let records = parse_results(&text).unwrap();
    assert_eq!(records.len(), 1);
    assert_eq!(records[0].get(columns()[5]), Some("v5"));
    assert_eq!(records[0].fields.len(), width);
}

#[test]
fn names_are_found_again() {
    for runtime in [
        Runtime::Mio,
        Runtime::Tokio,
        Runtime::Smol,
        Runtime::Monoio,
        Runtime::Glommio,
        Runtime::Compio,
    ] {
        assert_eq!(Runtime::parse(runtime.name()), Some(runtime));
    }
    for policy in [
        BandwidthPolicy::ProtocolDefault,
        BandwidthPolicy::LegacySourceFixed,
        BandwidthPolicy::Fixed(5_000_000),
        BandwidthPolicy::InputRelative {
            overhead_percent: 25,
        },
    ] {
        assert_eq!(BandwidthPolicy::parse(&policy.name()), Some(policy));
    }
    assert_eq!(BandwidthPolicy::parse("input-relative:4"), None);
}

#[test]
fn timers_fire_once() {
    let mut timers = Timers::new();
    timers.set(TimerKind::Ack, 0, 10);
    timers.set(TimerKind::Nak, 0, 20);
    timers.set(TimerKind::Ack, 5, 10);
    assert!(timers.take_due(14).is_empty());
    assert_eq!(timers.take_due(15), [TimerKind::Ack]);
    assert!(timers.take_due(19).is_empty());
    timers.clear(TimerKind::Nak);
    assert!(timers.take_due(u64::MAX).is_empty());
    timers.set(TimerKind::Keepalive, u64::MAX - 1, 10);
    assert_eq!(timers.take_due(u64::MAX), [TimerKind::Keepalive]);
}

#[test]
fn a_run_lingers_after_its_one_connect_action() {
    let mut driver = Driver::new(1_000, 100);
    assert!(!driver.begin_connect_action());
    driver.on_event(DriverEvent::Connected);
    assert!(driver.begin_connect_action());
    assert!(!driver.begin_connect_action());
    assert!(!driver.lingered(500));
    driver.connect_action_ran(500);
    driver.on_event(DriverEvent::DataReceived(vec![1, 2, 3]));
    driver.on_event(DriverEvent::Disconnected("bye".to_string()));
    driver.on_event(DriverEvent::Error("bad".to_string()));
    driver.on_event(DriverEvent::Other("StateChanged(Closed)".to_string()));
    assert!(!driver.lingered(599));
    assert!(driver.lingered(600));
    assert!(!driver.timed_out(999));
    assert!(driver.timed_out(1_000));
    driver.note("recv error: gone".to_string());
    let result = driver.finish();
    assert!(result.connected);
    assert_eq!(result.received_payloads, [vec![1, 2, 3]]);
    assert_eq!(
        result.events,
        [
            "Connected",
            "DataReceived(3 bytes)",
            "Disconnected: bye",
            "Error: bad",
            "StateChanged(Closed)",
            "TIMEOUT",
            "recv error: gone",
        ]
    );
}

#[test]
fn a_counts_file_is_read_by_its_third_column() {
    let text = "# started on Mon\n\n12,,syscalls:sys_enter_recvmmsg,1,100\n\
                <not counted>,,io_uring:io_uring_submit,0,0\n 3.0 ,,io_uring:cqe,1,100\n";
    let entries = parse_perf_csv(text);
    assert_eq!(
        entries,
        [
            ("sys_enter_recvmmsg".to_string(), "12".to_string()),
            ("cqe".to_string(), "3.0".to_string()),
        ]
    );
}

#[test]
fn a_profile_runs_one_pair() {
    let args = strings(&["srt-bench", "sysprof", "--connections=4", "--secs=2"]);
    let plan = SysprofPlan::of_cli(&Cli::parse(&args));
    assert_eq!(plan.runtime, "mio");
    assert_eq!(plan.dir, "scratch");
    assert_eq!(
        sysprof_receiver_args(&plan, 7000, "r.tsv"),
        [
            "runtime=mio",
            "mode=receiver",
            "7000",
            "7",
            "120",
            "--connections=4",
            "--out=r.tsv",
        ]
    );
    assert_eq!(
        sysprof_sender_args(&plan, 7000, "r.tsv"),
        [
            "runtime=mio",
            "mode=sender",
            "127.0.0.1",
            "7000",
            "2",
            "120",
            "--connections=4",
            "--out=r.tsv",
        ]
    );
}
