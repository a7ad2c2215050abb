use srt_bench::attempt::MatrixFailureKind;
use srt_bench::cli::Cli;
use srt_bench::compare::cell_key;
use srt_bench::counts::read_count;
use srt_bench::limiter::{release_and_wake, ConnectLimiter, HandshakeAdmission, HandshakePermit};
use srt_bench::matrix::{filter_reason, Axis, CellValue, Scope};
use srt_bench::medians::{group_inputs, target_inputs};
use srt_bench::netem::{link_units, link_value_ok};
use srt_bench::plan::{describe_duplicate, parse_plan};
use srt_bench::qual_payload::TickSet;
use srt_bench::record::Record;
use srt_bench::schedule::{shuffle, splitmix64};
use srt_bench::shared_sender::{
    CallerReport, CallerState, Leg, LegReport, SenderEffects, SenderTotals, SharedSender, SlotPhase,
};
use srt_bench::sweep_run::SweepRun;

fn strings(list: &[&str]) -> Vec<String> {
    list.iter().map(|s| s.to_string()).collect()
}

fn rec(pairs: &[(&str, &str)]) -> Record {
    Record {
        fields: pairs
            .iter()
            .map(|(k, v)| (k.to_string(), v.to_string()))
            .collect(),
    }
}

#[test]
fn what_is_no_number_is_not_handed_on() {
    let percent = link_units("link-loss");
    for bad in ["nan%", "NaN%", "-nan%", "inf%", "+inf%", "infinity%", "%", "1", "1e%", ".%"] {
        assert!(!link_value_ok(bad, &percent), "accepted {bad}");
    }
    for good in ["1%", "0.5%", "1e-3%", ".5%", "5.%", "-1%"] {
        assert!(link_value_ok(good, &percent), "rejected {good}");
    }
    assert!(link_value_ok("100mbit", &link_units("link-rate")));
    assert!(link_value_ok("64", &link_units("link-limit")));
    assert!(!link_value_ok("64k", &link_units("link-limit")));
}

#[test]
fn only_axes_are_collected() {
    let cli = Cli::parse(&strings(&[
        "srt-bench",
        "--connections",
        "4",
        "--ingress",
        "shared-pool=1",
        "host",
        "k=v",
        "--pin",
        "--out=a=b",
        "k=w",
    ]));
    assert_eq!(cli.positional, ["host"]);
    assert_eq!(cli.flag("connections").unwrap(), "4");
    assert_eq!(cli.flag("ingress").unwrap(), "shared-pool=1");
    assert_eq!(cli.flag("pin").unwrap(), "");
    assert_eq!(cli.flag("out").unwrap(), "a=b");
    assert_eq!(cli.flag("k").unwrap(), "w");
    assert!(cli.repeated.get("axis").is_none());
    let cli = Cli::parse(&strings(&["srt-bench", "--axis=a=1", "--axis", "b=2"]));
    assert_eq!(*cli.repeated.get("axis").unwrap(), strings(&["a=1", "b=2"]));
    assert!(cli.flag("axis").is_none());
}

#[test]
fn a_parked_caller_holds_its_own_place() {
    let mut limiter = ConnectLimiter::new(1);
    let held = HandshakePermit::try_acquire(&mut limiter, 1).unwrap();
    let mut a = HandshakeAdmission::new(1);
    let mut b = HandshakeAdmission::new(1);
    assert!(a.poll(&mut limiter, 10).is_none());
    assert!(b.poll(&mut limiter, 20).is_none());
    // Polling again keeps the place and takes the latest ticket.
    assert!(a.poll(&mut limiter, 11).is_none());
    assert_eq!(limiter.parked_waiters(), 2);
    assert_eq!(held.complete(&mut limiter), [11]);
    assert_eq!(limiter.granted_waiters(), 1);
    assert_eq!(a.cancel(&mut limiter), [20]);
    assert_eq!(limiter.granted_waiters(), 1);
    assert_eq!(limiter.reserved_tokens(), 1);
    assert_eq!(limiter.in_flight(), 0);
    assert!(b.poll(&mut limiter, 20).is_some());
    assert_eq!(limiter.parked_waiters(), 0);
}

#[test]
fn the_peak_is_the_most_that_was_in_flight() {
    let mut limiter = ConnectLimiter::new(4);
    assert!(limiter.try_acquire(3));
    assert!(limiter.can_acquire(1));
    assert!(!limiter.can_acquire(2));
    assert!(!limiter.can_acquire(usize::MAX));
    release_and_wake(&mut limiter, 2, true);
    release_and_wake(&mut limiter, 1, false);
    assert!(limiter.try_acquire(2));
    assert_eq!(limiter.peak(), 3);
    assert_eq!(
        limiter.started(),
        limiter.in_flight() + limiter.completed() + limiter.failed()
    );
}

fn leg(up: bool) -> Leg {
    Leg {
        member_up: up,
        sender: if up {
            Some(SenderTotals {
                total_sent: 7,
                total_retransmits: 0,
                packets_in_loss_list: 0,
            })
        } else {
            None
        },
    }
}

fn report(state: CallerState, legs: Option<LegReport>) -> CallerReport {
    CallerReport {
        state,
        legs,
        send_wait_us: 5,
    }
}

#[test]
fn looking_at_handshakes_tells_the_transport_what_came_of_each() {
    let mut limiter = ConnectLimiter::new(4);
    let mut sender = SharedSender::new(2, &vec![0, 1, 2, 3]);
    for (caller, ids) in [(100u64, vec![1u32, 2]), (101, vec![3]), (102, vec![4])] {
        let slot = sender.start_next(&mut limiter, 0).unwrap();
        sender.install_caller(slot, caller, ids);
    }
    let mut parked = HandshakeAdmission::new(1);
    assert!(parked.poll(&mut limiter, 77).is_none());
    let mut fx = SenderEffects::new();
    // The pair comes up with one leg of two, the next is gone, the last still waits.
    let reports = vec![
        report(
            CallerState::Connected,
            Some(LegReport::Group {
                pending_legs: 0,
                legs: vec![leg(true), leg(false)],
            }),
        ),
        report(CallerState::Disconnected, Some(LegReport::Direct(leg(false)))),
        report(CallerState::Unsettled, None),
    ];
    sender.check_in_flight(&reports, 1_000, 60_000, &mut limiter, &mut fx);
    assert_eq!(sender.slots[0].phase, SlotPhase::Streaming);
    assert_eq!(sender.slots[1].phase, SlotPhase::Closed);
    assert_eq!(sender.slots[2].phase, SlotPhase::Handshaking);
    assert_eq!(fx.remove, [101]);
    assert_eq!(fx.wake, [77]);
    assert!(fx.disconnect.is_empty());
    assert_eq!(limiter.completed(), 1);
    assert_eq!(limiter.failed(), 2);
    assert_eq!(sender.in_flight_set, [2]);
    assert!(!sender.socket_id_to_slot.contains_key(&3));
    assert_eq!(sender.socket_id_to_slot.len(), 3);
    assert_eq!(sender.terminal_count, 1);
    // Closing the stream asks the transport first; its end drops the caller.
    let mut fx = SenderEffects::new();
    sender.close_slot(0, &mut limiter, &mut fx);
    assert_eq!(fx.disconnect, [100]);
    assert!(fx.remove.is_empty());
    let mut fx = SenderEffects::new();
    let gone = vec![report(CallerState::Disconnected, None)];
    sender.check_closing(&gone, &mut limiter, &mut fx);
    assert_eq!(fx.remove, [100]);
    assert!(fx.wake.is_empty());
    assert_eq!(sender.terminal_count, 2);
    // A handshake that takes too long frees its token and its caller.
    let mut fx = SenderEffects::new();
    sender.timeout_slot(2, &None, &mut limiter, &mut fx);
    assert_eq!(fx.remove, [102]);
    assert_eq!(limiter.failed(), 3);
    assert!(sender.done());
}

#[test]
fn senders_share_a_limiter() {
    let mut limiter = ConnectLimiter::new(3);
    let mut one = SharedSender::new(0, &vec![0, 2]);
    let mut two = SharedSender::new(0, &vec![1, 3]);
    let mut fx = SenderEffects::new();
    for sender in [&mut one, &mut two] {
        let slot = sender.start_next(&mut limiter, 0).unwrap();
        sender.install_caller(slot, slot as u64, Vec::new());
    }
    assert!(one.start_next(&mut limiter, 0).is_some());
    assert!(two.start_next(&mut limiter, 0).is_none());
    assert_eq!(limiter.in_flight(), 3);
    // What one gives back, the other may take, and no more.
    one.timeout_slot(0, &None, &mut limiter, &mut fx);
    assert_eq!(limiter.in_flight(), 2);
    assert!(two.start_next(&mut limiter, 0).is_some());
    assert!(one.start_next(&mut limiter, 0).is_none());
    assert_eq!(limiter.in_flight(), 3);
    assert_eq!(limiter.peak(), 3);
}

#[test]
fn a_plan_that_repeats_itself_is_named() {
    let name = parse_plan("[recv]\nworkers=1\nworkers=2\n").err().unwrap();
    assert_eq!(
        describe_duplicate("a.plan", &name),
        "\"a.plan\": duplicate axis 'recv-workers'"
    );
}

#[test]
fn a_sweep_keeps_each_failure_under_its_label() {
    let mut run = SweepRun::new();
    run.end("a", 1, vec![MatrixFailureKind::MissingResult { role: "sender" }]);
    run.end("b", 2, Vec::new());
    run.end(
        "c",
        3,
        vec![
            MatrixFailureKind::MissingResult { role: "sender" },
            MatrixFailureKind::MissingResult { role: "receiver" },
        ],
    );
    let said: Vec<String> = run.report.failures.iter().map(|f| f.describe()).collect();
    assert_eq!(
        said,
        [
            "rep 1 a: sender recorded no result row",
            "rep 3 c: sender recorded no result row",
            "rep 3 c: receiver recorded no result row",
        ]
    );
    assert_eq!(run.report.completed_runs, 1);
    assert_eq!(run.report.failed_runs, 2);
}

#[test]
fn gaps_hold_what_is_missing() {
    let mut set = TickSet::new(10);
    let arrivals = [3u32, 4, 4, 9, 12, 0, 3];
    for tick in arrivals {
        set.insert(tick);
    }
    assert_eq!(set.expected(), 10);
    assert_eq!(set.missing_ranges(), [(1, 2), (5, 8)]);
    let held: u32 = set.missing_ranges().iter().map(|(a, b)| b - a + 1).sum();
    assert_eq!(held, set.missing());
    assert_eq!(set.missing(), 10 - set.received());
    let inside = arrivals.iter().filter(|t| **t < 10).count() as u32;
    assert_eq!(set.received() + set.duplicates(), inside);
}

fn axis(name: &str, scope: Scope, value: &str) -> (Axis, CellValue) {
    (
        Axis {
            name: name.to_string(),
            scope,
            values: strings(&[value]),
        },
        CellValue {
            axis: name.to_string(),
            scope,
            value: value.to_string(),
        },
    )
}

#[test]
fn a_plan_of_single_values_runs_as_written() {
    let (axes, cell): (Vec<Axis>, Vec<CellValue>) = [
        axis("workers", Scope::Recv, "8"),
        axis("workers", Scope::Send, "4"),
        axis("egress", Scope::Both, "shared-socket"),
        axis("promotion", Scope::Both, "relocate"),
        axis("batch", Scope::Both, "off"),
        axis("pin", Scope::Both, "on"),
        axis("cookie-routing", Scope::Both, "off"),
    ]
    .into_iter()
    .unzip();
    assert!(filter_reason(&cell, &axes).is_none());
}

#[test]
fn a_cell_is_known_by_its_configuration() {
    let base = [("runtime", "mio"), ("pin", "off"), ("conns", "4")];
    let with = |more: &[(&str, &str)]| {
        let all: Vec<(&str, &str)> = base.iter().chain(more).copied().collect();
        cell_key(&rec(&all))
    };
    let plain = cell_key(&rec(&base));
    assert_eq!(
        with(&[("role", "caller"), ("rep", "3"), ("core_total", "9")]),
        plain
    );
    assert_ne!(
        cell_key(&rec(&[("runtime", "mio"), ("pin", "on"), ("conns", "4")])),
        plain
    );
    let split = |runtime: &str| {
        cell_key(&rec(&[
            ("runtime", runtime),
            ("recv_runtime", "mio"),
            ("send_runtime", "smol"),
        ]))
    };
    assert_eq!(split("mio"), split("smol"));
    // A value may hold anything, even what looks like another column.
    let odd = |pin: &str| cell_key(&rec(&[("runtime", "mio"), ("pin", pin), ("conns", "4")]));
    assert_ne!(odd("on conns=4"), odd("on"));
    let scoped = |recv: &str| cell_key(&rec(&[("runtime", "mio"), ("recv_runtime", recv)]));
    assert_ne!(scoped(""), scoped("smol"));
}

#[test]
fn shuffling_moves_positions() {
    let mut places: Vec<usize> = (0..20).collect();
    let mut items: Vec<usize> = (0..20).map(|n| 1000 - 7 * n).collect();
    let before = items.clone();
    shuffle(&mut places, 99);
    shuffle(&mut items, 99);
    for (at, from) in places.iter().enumerate() {
        assert_eq!(items[at], before[*from]);
    }
    let mut state: u64 = 99;
    let first = (splitmix64(&mut state) % 20) as usize;
    assert_eq!(items[19], before[first]);
}

#[test]
fn a_report_reads_each_side_of_its_pairs() {
    let rows = vec![
        rec(&[
            ("role", "caller"),
            ("core_total", "10"),
            ("torn_down", "1"),
            ("source_bps", "8000"),
            ("secs", "2"),
            ("conns", "x"),
        ]),
        rec(&[
            ("role", "listener"),
            ("core_total", "9"),
            ("torn_down", "-"),
            ("rtt_ms", "1.5"),
        ]),
    ];
    let inputs = group_inputs(&rows, &vec![(0, 1)]);
    assert_eq!(inputs.sent, ["10"]);
    assert_eq!(inputs.received, ["9"]);
    assert_eq!(inputs.caller_torn, ["1"]);
    assert!(inputs.listener_torn.is_empty());
    assert_eq!(inputs.rtt_ms, ["1.5"]);
    let target = target_inputs(&rows[0]).unwrap();
    assert_eq!(target.source_bps, "8000");
    assert!(target.conns.is_none());
    assert!(target_inputs(&rows[1]).is_none());
}

/// What a count is meant to come to.
fn by_double(text: &str) -> Option<usize> {
    text.parse::<f64>().ok().map(|v| v as usize)
}

#[test]
fn a_count_is_a_number_cut_to_its_whole_part() {
    let read = |text: &str| rec(&[("rep", text)]).count("rep");
    assert_eq!(read("1"), Some(1));
    assert_eq!(read("1.0"), Some(1));
    assert_eq!(read("2.9"), Some(2));
    assert_eq!(read("1e0"), Some(1));
    assert_eq!(read("-1"), Some(0));
    assert_eq!(read("NaN"), Some(0));
    assert_eq!(read("inf"), Some(usize::MAX));
    assert_eq!(read("x"), None);
    assert_eq!(read("1.x"), None);
    assert_eq!(rec(&[]).count("rep"), None);
    let texts = [
        "", ".", "+", "-", "e5", "1e", "1e+", ".5", "5.", "+.5", "-.5", "-0", "+7", "--7", " 7", "1_0",
        "1e3", "1E3", "12e-1", "12e-2", "1.5e+1", "123456e-3", "0.00012e5", "000123", "0e99999",
        "0.99999999999999999999", "0.9999999999999999", "0.99999999999999994448884876874",
        "0.99999999999999994448884876875", "1.9999999999999998889776975",
        "1.99999999999999988897769753748434595763683319091796875",
        "1.99999999999999988897769753748434595763683319091796874", "4503599627370495.5",
        "4503599627370495.75", "4503599627370495.74999", "4503599627370496.5", "4503599627370497.5",
        "9007199254740991.5", "9007199254740992.9", "9007199254740993", "9007199254740993.0001",
        "9007199254740995", "18446744073709551615", "18446744073709550591", "18446744073709550592",
        "18446744073709549568", "18446744073709551616", "1e19", "1e20", "1e308", "1e309",
        "1e99999999999999999999999999999999999999999", "1e-99999999999999999999999999999999999999",
        "0e99999999999999999999999999999999999999999", "100000000000000000000000000e-20",
        "0.000000000000000000000000001e27", "nan", "-nan", "+nan", "-inf", "Infinity", "-infinity",
        "infinit", "0x10",
    ];
    for text in texts {
        assert_eq!(read_count(text), by_double(text), "{text}");
    }
}

#[test]
fn counts_are_read_as_doubles_are() {
    let mut state: u64 = 7;
    let mut draw = |n: u64| splitmix64(&mut state) % n;
    for _ in 0..60_000 {
        let mut text = String::new();
        if draw(8) == 0 {
            text.push('-');
        }
        let nines = draw(3) == 0;
        for _ in 0..draw(22) {
            let digit = if nines { 9 } else { draw(10) };
            text.push_str(&digit.to_string());
        }
        if draw(2) == 0 {
            text.push('.');
            for _ in 0..draw(25) {
                let digit = if nines { 9 } else { draw(10) };
                text.push_str(&digit.to_string());
            }
        }
        if draw(3) == 0 {
            text.push_str(&format!("e{}", draw(50) as i64 - 25));
        }
        assert_eq!(read_count(&text), by_double(&text), "{text}");
        // Whole numbers and the middles between doubles.
        let shift = draw(64);
        let whole = u128::from(splitmix64(&mut { draw(u64::MAX) }) >> shift);
        for middle in [
            format!("{whole}"),
            format!("{whole}.5"),
            format!("{whole}.50000000000000000000001"),
        ] {
            assert_eq!(read_count(&middle), by_double(&middle), "{middle}");
        }
    }
}
