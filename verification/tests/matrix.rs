use srt_bench::attempt::{
    add_cpu_identity, attempt_id, hex, matrix_cell_argv, matrix_cell_config, new_invocation_nonce,
    nonce_from, port_candidate, receiver_args, role_failures, sender_args, ChildEnd,
    MatrixFailureKind, MatrixReport, NonceError, RunPlan, HIGH_PORT, LOW_PORT,
};
use srt_bench::cli::Cli;
use srt_bench::matrix::{
    filter_matrix_cells, filter_reason, filtered_cartesian_cells, Axis, Cell, CellValue, Scope,
};
use srt_bench::netem::{
    any_link_emulated, elevated, loopback_command, namespace_command, netem_args, netem_command,
    role_command,
};
use srt_bench::plan::{
    axis_overrides, matrix_order, parse_plan, resolve_matrix_axes, AxisDefaults, MatrixOrder,
};
use srt_bench::record::{cell_key, record_key, recorded_as, Record};
use srt_bench::results::{columns, header_line, parse_results, row_text, ReadError};
use srt_bench::schedule::{interleave_indices, round_robin_groups, shuffle, splitmix64};
use srt_bench::sweep::{build_matrix_schedule, recorded_roles};
use srt_bench::cli::{Ingress, Runtime};
use srt_bench::sweep_run::{
    cell_demands, progress_line, recorded_ingress, RunStep, SweepRun, SweepSettings,
};
use srt_bench::text_map::TextMap;

fn cli(args: &[&str]) -> Cli {
    let args: Vec<String> = std::iter::once("srt-bench")
        .chain(args.iter().copied())
        .map(str::to_string)
        .collect();
    Cli::parse(&args)
}

fn axis(name: &str, scope: Scope, values: &[&str]) -> Axis {
    Axis {
        name: name.to_string(),
        scope,
        values: values.iter().map(|v| v.to_string()).collect(),
    }
}

fn axes() -> Vec<Axis> {
    vec![
        axis("promotion", Scope::Both, &["never", "relocate", "bonded", "all"]),
        axis("cookie-routing", Scope::Both, &["on", "off"]),
        axis("batch", Scope::Both, &["on", "off"]),
        axis("pin", Scope::Both, &["off", "on"]),
    ]
}

fn value(axis: &str, scope: Scope, value: &str) -> CellValue {
    CellValue {
        axis: axis.to_string(),
        scope,
        value: value.to_string(),
    }
}

fn cell(values: &[(&str, &str)]) -> Cell {
    values
        .iter()
        .map(|(name, v)| value(name, Scope::Both, v))
        .collect()
}

fn set_field(fields: &mut [(String, String)], key: &str, value: &str) {
    let (_, slot) = fields
        .iter_mut()
        .find(|(field, _)| field == key)
        .unwrap_or_else(|| panic!("unknown result column {key}"));
    *slot = value.to_string();
}

fn record_for(cell: &Cell, role: &str, rep: usize) -> Record {
    let mut fields: Vec<(String, String)> = columns()
        .iter()
        .map(|column| (column.to_string(), String::new()))
        .collect();
    set_field(&mut fields, "role", role);
    set_field(&mut fields, "rep", &rep.to_string());
    for v in cell {
        let (column, value) = recorded_as(&v.axis, &v.value);
        set_field(
            &mut fields,
            &format!("{}{column}", v.scope.prefix()),
            &value,
        );
    }
    Record { fields }
}

/// What a file holds after the records were written to it and read back.
fn written(records: &[Record]) -> Vec<Record> {
    let mut text = header_line();
    text.push('\n');
    for record in records {
        let values: Vec<String> = columns()
            .iter()
            .map(|column| record.get(column).unwrap_or_default().to_string())
            .collect();
        text.push_str(&row_text(&values));
        text.push('\n');
    }
    parse_results(&text).expect("written rows read back")
}

fn schedule_cells() -> Vec<Cell> {
    vec![
        cell(&[
            ("runtime", "mio"),
            ("connections", "1"),
            ("link-delay", "off"),
        ]),
        cell(&[
            ("runtime", "tokio"),
            ("connections", "2"),
            ("link-delay", "off"),
        ]),
    ]
}

#[test]
fn filters_non_multi_promotion_and_cookie_variants() {
    let axes = axes();
    assert_eq!(
        filter_reason(
            &cell(&[
                ("ingress", "shared-pool:4"),
                ("promotion", "all"),
                ("cookie-routing", "on"),
                ("batch", "on"),
                ("pin", "off"),
                ("runtime", "mio"),
                ("connections", "200"),
                ("bond", "none"),
            ]),
            &axes
        ),
        None
    );
    assert_eq!(
        filter_reason(
            &cell(&[
                ("ingress", "shared-pool:4"),
                ("promotion", "all"),
                ("cookie-routing", "off"),
                ("batch", "on"),
                ("pin", "off"),
                ("runtime", "mio"),
                ("connections", "200"),
                ("bond", "none"),
            ]),
            &axes
        ),
        Some("cookie-routing-inert")
    );
}

#[test]
fn shared_egress_now_exercises_connect_concurrency() {
    let axes = vec![
        axis("connect-concurrency", Scope::Both, &["1", "50"]),
        axis("egress", Scope::Both, &["per-connection", "shared-socket"]),
    ];
    assert_eq!(
        filter_reason(
            &cell(&[("egress", "shared-socket"), ("connect-concurrency", "50")]),
            &axes,
        ),
        None,
    );
    assert_eq!(
        filter_reason(
            &cell(&[("egress", "per-connection"), ("connect-concurrency", "50")]),
            &axes,
        ),
        None
    );
}

#[test]
fn bonded_cc_below_2_is_rejected() {
    let axes = vec![
        axis("connect-concurrency", Scope::Both, &["1", "50"]),
        axis("bond", Scope::Both, &["none", "broadcast:4"]),
        axis("egress", Scope::Both, &["shared-socket"]),
        axis("ingress", Scope::Both, &["shared-pool:1"]),
    ];
    assert_eq!(
        filter_reason(
            &cell(&[
                ("egress", "shared-socket"),
                ("ingress", "shared-pool:1"),
                ("bond", "broadcast:4"),
                ("connect-concurrency", "1"),
            ]),
            &axes,
        ),
        Some("bonded-cc-requires-2"),
    );
    assert_eq!(
        filter_reason(
            &cell(&[
                ("egress", "shared-socket"),
                ("ingress", "shared-pool:1"),
                ("bond", "broadcast:4"),
                ("connect-concurrency", "50"),
            ]),
            &axes,
        ),
        None,
    );
}

#[test]
fn shared_egress_filters_only_sender_workers() {
    let axes = vec![
        axis("workers", Scope::Send, &["1", "3"]),
        axis("workers", Scope::Recv, &["1", "2"]),
        axis("egress", Scope::Send, &["per-connection", "shared-socket"]),
    ];
    let cell = |send_workers: &str, recv_workers: &str| {
        vec![
            value("egress", Scope::Send, "shared-socket"),
            value("workers", Scope::Send, send_workers),
            value("workers", Scope::Recv, recv_workers),
        ]
    };
    assert_eq!(
        filter_reason(&cell("3", "1"), &axes),
        Some("shared-egress-workers-inert")
    );
    assert_eq!(filter_reason(&cell("1", "2"), &axes), None);
}

#[test]
fn rejects_bonded_ingress_without_one_group_aware_listener() {
    let axes = axes();
    let bonded = cell(&[
        ("ingress", "reuseport-multi:4"),
        ("egress", "shared-socket"),
        ("promotion", "bonded"),
        ("cookie-routing", "on"),
        ("batch", "on"),
        ("pin", "off"),
        ("runtime", "mio"),
        ("connections", "200"),
        ("bond", "broadcast:64"),
    ]);
    assert_eq!(
        filter_reason(&bonded, &axes),
        Some("bonded-ingress-unsupported")
    );

    let unsupported_egress = cell(&[
        ("ingress", "shared-pool:1"),
        ("egress", "per-connection"),
        ("promotion", "all"),
        ("cookie-routing", "on"),
        ("batch", "on"),
        ("pin", "off"),
        ("runtime", "mio"),
        ("connections", "2"),
        ("bond", "broadcast:1"),
    ]);
    assert_eq!(
        filter_reason(&unsupported_egress, &axes),
        Some("bonded-egress-unsupported")
    );

    for runtime in ["mio", "tokio", "smol", "monoio", "glommio", "compio"] {
        let supported = cell(&[
            ("ingress", "shared-pool:1"),
            ("promotion", "all"),
            ("cookie-routing", "on"),
            ("batch", "on"),
            ("pin", "off"),
            ("runtime", runtime),
            ("connections", "200"),
            ("bond", "broadcast:64"),
            ("egress", "shared-socket"),
        ]);
        assert_eq!(filter_reason(&supported, &axes), None, "{runtime}");
    }

    let unbonded = cell(&[
        ("ingress", "reuseport-multi:4"),
        ("promotion", "relocate"),
        ("cookie-routing", "on"),
        ("batch", "on"),
        ("pin", "off"),
        ("runtime", "mio"),
        ("connections", "200"),
        ("bond", "none"),
    ]);
    assert_eq!(filter_reason(&unbonded, &axes), Some("promotion-inert"));
}

#[test]
fn rejects_bond_groups_larger_than_the_connection_population() {
    let axes = axes();
    let cell = cell(&[
        ("ingress", "reuseport-multi:4"),
        ("egress", "shared-socket"),
        ("promotion", "all"),
        ("cookie-routing", "on"),
        ("batch", "on"),
        ("pin", "off"),
        ("runtime", "mio"),
        ("connections", "50"),
        ("bond", "broadcast:64"),
    ]);
    assert_eq!(filter_reason(&cell, &axes), Some("bond-capacity"));
}

#[test]
fn filters_batch_and_pin_only_where_the_backend_ignores_them() {
    let axes = axes();
    let batch_non_mio = [
        ("ingress", "shared-pool:4"),
        ("promotion", "all"),
        ("cookie-routing", "on"),
        ("batch", "off"),
        ("pin", "off"),
        ("connections", "200"),
        ("bond", "none"),
    ];
    let non_mio = batch_non_mio
        .iter()
        .copied()
        .chain([("runtime", "tokio")])
        .collect::<Vec<_>>();
    assert_eq!(filter_reason(&cell(&non_mio), &axes), Some("batch-inert"));

    let pin_base = [
        ("ingress", "shared-pool:4"),
        ("promotion", "all"),
        ("cookie-routing", "on"),
        ("batch", "on"),
        ("pin", "on"),
        ("connections", "200"),
        ("bond", "none"),
    ];
    let mio = pin_base
        .iter()
        .copied()
        .chain([("runtime", "mio")])
        .collect::<Vec<_>>();
    assert_eq!(filter_reason(&cell(&mio), &axes), Some("pin-inert"));

    let glommio = pin_base
        .iter()
        .copied()
        .chain([("runtime", "glommio")])
        .collect::<Vec<_>>();
    assert_eq!(filter_reason(&cell(&glommio), &axes), None);
}

#[test]
fn filter_summary_counts_each_removed_cell_once() {
    let axes = axes();
    let cells = vec![
        cell(&[
            ("ingress", "shared-pool:4"),
            ("promotion", "relocate"),
            ("cookie-routing", "on"),
            ("batch", "on"),
            ("pin", "off"),
            ("runtime", "mio"),
            ("connections", "200"),
            ("bond", "none"),
        ]),
        cell(&[
            ("ingress", "reuseport-multi:4"),
            ("promotion", "all"),
            ("cookie-routing", "on"),
            ("batch", "on"),
            ("pin", "off"),
            ("runtime", "mio"),
            ("connections", "50"),
            ("bond", "backup:64"),
        ]),
    ];
    let (kept, summary) = filter_matrix_cells(cells, &axes);
    assert!(kept.is_empty());
    assert_eq!(summary.total(), 2);
}

#[test]
fn filtered_cartesian_expansion_keeps_only_capable_cells() {
    let axes = vec![
        axis("runtime", Scope::Both, &["mio", "tokio"]),
        axis("ingress", Scope::Both, &["per-port", "shared-pool:4"]),
        axis("batch", Scope::Both, &["on", "off"]),
    ];
    let (cells, raw, summary) = filtered_cartesian_cells(&axes).unwrap();
    assert_eq!(raw, 8);
    assert_eq!(cells.len(), 5);
    assert_eq!(summary.total(), 3);
}

#[test]
fn an_uncountable_product_is_an_error() {
    let many: Vec<String> = (0..4096).map(|n| n.to_string()).collect();
    let axes: Vec<Axis> = (0..6)
        .map(|n| Axis {
            name: format!("axis-{n}"),
            scope: Scope::Both,
            values: many.clone(),
        })
        .collect();
    let error = filtered_cartesian_cells(&axes).err().unwrap();
    assert_eq!(error, "matrix Cartesian product overflows usize");
}

#[test]
fn axis_overrides_use_canonical_names_and_reject_duplicates() {
    let parsed = axis_overrides(&cli(&[
        "--axis",
        "encryption=plain,128",
        "--axis=recv-runtimes=mio,tokio",
        "--axis=egress=per-connection,shared-socket",
    ]))
    .ok()
    .unwrap();
    let of = |name: &str| parsed.get(name).unwrap().clone();
    assert_eq!(of("encryption"), ["plain", "128"]);
    assert_eq!(of("recv-runtime"), ["mio", "tokio"]);
    assert_eq!(of("egress"), ["per-connection", "shared-socket"]);

    let error = axis_overrides(&cli(&[
        "--axis",
        "encryption=plain",
        "--axis",
        "encryption=128",
    ]))
    .err()
    .unwrap();
    assert!(error.to_string().contains("specified more than once"));

    let error = axis_overrides(&cli(&["--axis", "not-an-axis=on"]))
        .err()
        .unwrap();
    assert!(error.to_string().contains("unknown matrix axis"));
}

#[test]
fn interleaved_order_rotates_the_outer_axis() {
    let axes = vec![
        axis("runtime", Scope::Both, &["mio", "tokio"]),
        axis("encryption", Scope::Both, &["plain", "128"]),
    ];
    let cells: Vec<Cell> = vec![
        vec![
            value("runtime", Scope::Both, "mio"),
            value("encryption", Scope::Both, "plain"),
        ],
        vec![
            value("runtime", Scope::Both, "mio"),
            value("encryption", Scope::Both, "128"),
        ],
        vec![
            value("runtime", Scope::Both, "tokio"),
            value("encryption", Scope::Both, "plain"),
        ],
        vec![
            value("runtime", Scope::Both, "tokio"),
            value("encryption", Scope::Both, "128"),
        ],
    ];
    assert_eq!(interleave_indices(&cells, &axes), [0, 2, 1, 3]);
}

#[test]
fn round_robin_takes_one_of_each_group_in_turn() {
    let groups = vec![vec![0, 1, 2], vec![3], vec![4, 5]];
    assert_eq!(round_robin_groups(&groups), [0, 3, 4, 1, 5, 2]);
}

#[test]
fn shuffle_is_reproducible_and_seed_sensitive() {
    let mut first: Vec<usize> = vec![0, 1, 2, 3, 4, 5];
    let mut second = first.clone();
    let mut third = first.clone();
    shuffle(&mut first, 42);
    shuffle(&mut second, 42);
    shuffle(&mut third, 43);
    assert_eq!(first, second);
    assert_ne!(first, third);
}

#[test]
fn shuffling_loses_and_invents_nothing() {
    let mut items: Vec<usize> = (0..50).collect();
    shuffle(&mut items, 9);
    let mut sorted = items.clone();
    sorted.sort_unstable();
    assert_eq!(sorted, (0..50).collect::<Vec<usize>>());
    assert_ne!(items, sorted);
}

#[test]
fn splitmix_matches_its_published_sequence() {
    let mut state: u64 = 1_234_567;
    assert_eq!(splitmix64(&mut state), 6_457_827_717_110_365_317);
    assert_eq!(splitmix64(&mut state), 3_203_168_211_198_807_973);
}

#[test]
fn malformed_result_files_are_rejected() {
    let text = format!("{}\nshort\n", columns().join("\t"));
    let error = parse_results(&text).err().unwrap();
    assert!(error.describe("results.tsv").contains("malformed TSV row"));
}

#[test]
fn each_unreadable_header_is_told_apart() {
    let old = format!("{}\n", columns().join("\t").replace("source_bps", "bitrate"));
    assert_eq!(parse_results(&old).err().unwrap(), ReadError::LegacyBitrate);
    let older = "role\tsock_buf\n";
    assert_eq!(parse_results(older).err().unwrap(), ReadError::LegacySockBuf);
    let other = "role\truntime\n";
    assert_eq!(
        parse_results(other).err().unwrap(),
        ReadError::Header {
            expected: columns().len(),
            got: 2
        }
    );
    let row = format!("{}\n\na\tb\n", columns().join("\t"));
    let error = parse_results(&row).err().unwrap();
    assert_eq!(
        error,
        ReadError::Row {
            line: 3,
            expected: columns().len(),
            got: 2
        }
    );
    assert!(error.describe("x.tsv").starts_with("x.tsv:3: malformed"));
}

#[test]
fn matrix_schedule_covers_each_cell_and_rep_once() {
    let cells = schedule_cells();
    let nothing: Vec<Record> = Vec::new();

    let default = build_matrix_schedule(&cells, &vec![], 2, MatrixOrder::Default, 0, &nothing);
    assert_eq!(default.total, 4);
    assert_eq!(default.runs, [(0, 1), (0, 2), (1, 1), (1, 2)]);
    assert!(default.done.is_empty());

    let axes = vec![axis("runtime", Scope::Both, &["mio", "tokio"])];
    let interleaved =
        build_matrix_schedule(&cells, &axes, 2, MatrixOrder::Interleaved, 0, &nothing);
    let expected = [(0, 1), (0, 2), (1, 1), (1, 2)]
        .into_iter()
        .collect::<std::collections::HashSet<_>>();
    assert_eq!(interleaved.runs.len(), expected.len());
    assert_eq!(
        interleaved
            .runs
            .iter()
            .copied()
            .collect::<std::collections::HashSet<_>>(),
        expected
    );

    let random_a = build_matrix_schedule(&cells, &axes, 2, MatrixOrder::Random, 7, &nothing);
    let random_b = build_matrix_schedule(&cells, &axes, 2, MatrixOrder::Random, 7, &nothing);
    assert_eq!(random_a.runs, random_b.runs);
}

#[test]
fn matrix_resume_requires_both_roles_and_round_trips_cell_identity() {
    let cells = schedule_cells();
    let listener = record_for(&cells[0], "listener", 1);
    let caller = record_for(&cells[0], "caller", 1);
    assert_eq!(
        record_key(&listener, &cells[0], 1),
        Some(cell_key(&cells[0], 1))
    );
    let records = written(&[listener, caller]);

    let schedule = build_matrix_schedule(&cells, &vec![], 2, MatrixOrder::Default, 0, &records);
    assert!(schedule.done.contains(&cell_key(&cells[0], 1)));
    assert!(!schedule.done.contains(&cell_key(&cells[0], 2)));
    assert!(!schedule.done.contains(&cell_key(&cells[1], 1)));

    let orphan = written(&[record_for(&cells[0], "caller", 1)]);
    let orphaned = build_matrix_schedule(&cells, &vec![], 2, MatrixOrder::Default, 0, &orphan);
    assert!(orphaned.done.is_empty());
}

#[test]
fn attempt_nonce_keeps_stale_partial_rows_out_of_a_new_run() {
    let cells = schedule_cells();
    let old_attempt = attempt_id("old-invocation-nonce", 0);
    let new_attempt = attempt_id("new-invocation-nonce", 0);
    let mut listener = record_for(&cells[0], "listener", 1);
    let mut caller = record_for(&cells[0], "caller", 1);
    set_field(&mut listener.fields, "attempt", &old_attempt);
    set_field(&mut caller.fields, "attempt", &new_attempt);
    let records = written(&[listener, caller]);

    assert_eq!(
        recorded_roles(&records, &cells[0], 1, &new_attempt),
        (true, false),
        "rows from a previous invocation nonce must not satisfy a new attempt"
    );
    assert_eq!(
        recorded_roles(&records, &cells[0], 1, &old_attempt),
        (false, true)
    );
}

#[test]
fn matrix_cell_config_and_argv_keep_role_split_explicit() {
    let cell = vec![
        value("runtime", Scope::Recv, "tokio"),
        value("runtime", Scope::Send, "mio"),
        value("ingress", Scope::Recv, "shared-pool:4"),
        value("ingress", Scope::Send, "per-port"),
        value("workers", Scope::Recv, "2"),
        value("workers", Scope::Send, "3"),
        value("connections", Scope::Both, "4"),
        value("bitrate", Scope::Both, "1000000"),
    ];
    let config = matrix_cell_config(&cell);
    assert_eq!(config.recv_ingress, "shared-pool:4");
    assert_eq!(config.send_ingress, "per-port");
    assert_eq!(config.recv_runtime, "tokio");
    assert_eq!(config.send_runtime, "mio");
    assert_eq!(config.source_bitrate, "1000000");
    assert_eq!(config.ports_needed, 4);

    assert_eq!(
        matrix_cell_argv(&cell, Scope::Recv),
        [
            "--ingress=shared-pool:4",
            "--workers=2",
            "--connections=4",
            "--recv-runtime=tokio",
            "--send-runtime=mio",
            "--recv-ingress=shared-pool:4",
            "--send-ingress=per-port",
            "--recv-workers=2",
            "--send-workers=3",
        ]
    );
}

#[test]
fn both_processes_of_an_attempt_are_told_alike() {
    let cell = cell(&[("runtime", "mio"), ("bitrate", "8000000")]);
    let config = matrix_cell_config(&cell);
    let plan = RunPlan {
        port: 4000,
        secs: 8,
        latency: 120,
        rep: 2,
        attempt: "nonce-1".to_string(),
        out: "r.tsv".to_string(),
    };
    assert_eq!(
        receiver_args(&cell, &config, &plan, "0-1"),
        [
            "runtime=mio",
            "mode=receiver",
            "4000",
            "68",
            "120",
            "8000000",
            "--stream-secs=8",
            "--rep=2",
            "--attempt=nonce-1",
            "--cpus=0-1",
            "--out=r.tsv",
        ]
    );
    assert_eq!(
        sender_args(&cell, &config, &plan, "2-3"),
        [
            "runtime=mio",
            "mode=sender",
            "127.0.0.1",
            "4000",
            "8",
            "120",
            "8000000",
            "--rep=2",
            "--attempt=nonce-1",
            "--cpus=2-3",
            "--out=r.tsv",
        ]
    );
}

const DEFAULTS: AxisDefaults = AxisDefaults {
    source_backlog_ms: 250,
    datapath_queue_horizon_ms: 100,
    outbound_retry_horizon_ms: 100,
};

#[test]
fn matrix_plan_overrides_and_scopes_axes() {
    let plan = parse_plan(
        "runtime=mio,tokio\n[recv]\nworkers=2,4\ncpus=0-1\n[send]\nworkers=3\ncpus=2-3\n",
    )
    .ok()
    .unwrap();
    let config = resolve_matrix_axes(
        &cli(&[
            "--plan",
            "sweep.plan",
            "--axis",
            "runtime=smol",
            "--axis",
            "datapath-q-horizon-ms=100,200",
            "--axis",
            "retry-horizon-ms=75",
        ]),
        &plan,
        &DEFAULTS,
    )
    .ok()
    .unwrap();
    let shown = |i: usize| {
        let a = &config.axes[i];
        (a.name.as_str(), a.scope, a.values.clone())
    };
    assert_eq!(shown(0), ("runtime", Scope::Both, vec!["smol".to_string()]));
    assert_eq!(
        shown(1),
        (
            "workers",
            Scope::Recv,
            vec!["2".to_string(), "4".to_string()]
        )
    );
    assert_eq!(shown(2), ("workers", Scope::Send, vec!["3".to_string()]));
    assert_eq!(config.recv_cpus, "0-1");
    assert_eq!(config.send_cpus, "2-3");
    assert_eq!(
        config
            .axes
            .iter()
            .find(|a| a.name == "datapath-queue-horizon-ms")
            .unwrap()
            .values,
        ["100", "200"]
    );
    assert_eq!(
        config
            .axes
            .iter()
            .find(|a| a.name == "outbound-retry-horizon-ms")
            .unwrap()
            .values,
        ["75"]
    );
}

#[test]
fn a_plan_names_each_axis_once() {
    let error = parse_plan("runtime=mio\n# note\nruntime=tokio\n")
        .err()
        .unwrap();
    assert!(error.contains("runtime"));
}

#[test]
fn the_order_of_a_sweep_is_read_with_its_seed() {
    assert_eq!(
        matrix_order(&cli(&[])).ok().unwrap().0,
        MatrixOrder::Default
    );
    assert_eq!(
        matrix_order(&cli(&["--order=random", "--seed=7"]))
            .ok()
            .unwrap(),
        (MatrixOrder::Random, 7)
    );
    assert!(matrix_order(&cli(&["--order=sideways"])).is_err());
}

#[test]
fn scoped_cpu_sets_are_part_of_recorded_cell_identity() {
    let cell = |send: &str| {
        vec![
            value("runtime", Scope::Both, "mio"),
            value("cpus", Scope::Recv, "0-1"),
            value("cpus", Scope::Send, send),
        ]
    };
    let first = cell("2-3");
    let record = record_for(&first, "caller", 1);
    assert_eq!(record_key(&record, &first, 1), Some(cell_key(&first, 1)));

    let changed = cell("4-5");
    assert_ne!(
        record_key(&record, &changed, 1),
        Some(cell_key(&changed, 1))
    );
    assert_eq!(
        matrix_cell_argv(&first, Scope::Recv),
        ["--recv-cpus=0-1", "--send-cpus=2-3"]
    );
}

#[test]
fn cpu_identity_falls_back_to_the_inherited_set() {
    let mut plain = cell(&[("runtime", "mio")]);
    add_cpu_identity(&mut plain, "", "", "0-7");
    assert_eq!(plain[1].axis, "cpus");
    assert_eq!(plain[1].scope, Scope::Both);
    assert_eq!(plain[1].value, "0-7");
    let mut split = cell(&[("runtime", "mio")]);
    add_cpu_identity(&mut split, "0-1", "", "0-7");
    assert_eq!(split[1].value, "0-1");
    assert_eq!(split[2].scope, Scope::Send);
    assert_eq!(split[2].value, "0-7");
}

#[test]
fn nonces_are_fresh_and_hexadecimal() {
    let a = new_invocation_nonce().ok().unwrap();
    let b = new_invocation_nonce().ok().unwrap();
    assert_ne!(a, b);
    assert_eq!(a.len(), b.len());
    assert!(a.chars().all(|c| c.is_ascii_hexdigit()));
    assert!(a.chars().any(|c| c != '0'));
    assert_eq!(hex(&vec![0, 255, 16]), "00ff10");
}

#[test]
fn a_nonce_needs_a_filled_buffer() {
    let bytes: Vec<u8> = vec![0, 1, 0x9a, 0xff];
    assert_eq!(nonce_from(Ok(()), &bytes), Ok("00019aff".to_owned()));
    assert_eq!(
        nonce_from(Err(getrandom::Error::UNSUPPORTED), &bytes),
        Err(NonceError::NoRandomness(getrandom::Error::UNSUPPORTED))
    );
}

#[test]
fn candidate_ports_leave_room_for_the_range() {
    for attempt in 0..64 {
        let port = port_candidate(12345, attempt, 100);
        assert!(port >= LOW_PORT);
        assert!(u32::from(port) + 100 <= u32::from(HIGH_PORT) + 1);
    }
}

fn end(success: bool) -> ChildEnd {
    ChildEnd {
        success,
        status: if success { "exit status: 0" } else { "signal: 9" }.to_string(),
    }
}

#[test]
fn a_silent_success_is_a_failure() {
    let none = role_failures(&end(true), &end(true), &Ok((true, true)));
    assert!(none.is_empty());
    let silent = role_failures(&end(true), &end(true), &Ok((true, false)));
    assert_eq!(silent.len(), 1);
    assert_eq!(silent[0].describe(), "receiver recorded no result row");
    let died = role_failures(&end(false), &end(true), &Ok((false, true)));
    assert_eq!(died.len(), 1);
    assert_eq!(died[0].describe(), "sender child failed (signal: 9)");
    let unread = role_failures(&end(true), &end(true), &Err("bad row".to_string()));
    assert_eq!(unread[0].describe(), "result file unreadable: bad row");
}

#[test]
fn a_report_is_ok_exactly_when_nothing_failed() {
    let mut report = MatrixReport::new();
    report.record_run("mio", 1, Vec::new());
    assert!(report.ok());
    report.record_run(
        "tokio",
        1,
        vec![MatrixFailureKind::Infrastructure {
            detail: "port allocation failed: none".to_string(),
        }],
    );
    assert!(!report.ok());
    assert_eq!(report.completed_runs, 1);
    assert_eq!(report.failed_runs, 1);
    assert!(report
        .failure_summary()
        .contains("could not run cell: port allocation failed: none"));
}

#[test]
fn a_sweep_skips_resumes_and_runs() {
    let cells = schedule_cells();
    let records = written(&[
        record_for(&cells[0], "listener", 1),
        record_for(&cells[0], "caller", 1),
    ]);
    let schedule = build_matrix_schedule(&cells, &vec![], 2, MatrixOrder::Default, 0, &records);
    let mut sweep = SweepRun::new();
    assert!(matches!(
        sweep.begin(&cells, &schedule, 0, true, 2, "n"),
        RunStep::Resume
    ));
    match sweep.begin(&cells, &schedule, 1, true, 2, "n") {
        RunStep::Run { attempt } => assert_eq!(attempt, "n-1"),
        other => panic!("{other:?}"),
    }
    sweep.end("mio", 2, Vec::new());
    assert!(matches!(
        sweep.begin(&cells, &schedule, 2, false, 2, "n"),
        RunStep::Skip { first: true }
    ));
    assert!(matches!(
        sweep.begin(&cells, &schedule, 3, false, 2, "n"),
        RunStep::Skip { first: false }
    ));
    assert_eq!(sweep.report.resumed_runs, 1);
    assert_eq!(sweep.report.completed_runs, 1);
    assert_eq!(sweep.report.skipped_runs, 2);
    assert_eq!(
        progress_line(1, 4, 2, "mio", "ok", "ok", &Vec::new()),
        "[   2/4] rep 2 mio"
    );
    assert_eq!(
        progress_line(
            1,
            4,
            2,
            "mio",
            "ok",
            "ok",
            &vec![MatrixFailureKind::MissingResult { role: "sender" }]
        ),
        "[   2/4] rep 2 mio FAILED (sender=ok receiver=ok: sender recorded no result row)"
    );
}

#[test]
fn sweep_settings_know_both_names_of_a_role() {
    let s = SweepSettings::of_cli(&cli(&["--caller-exe=/bin/a", "--reps=5"]), "/bin/self");
    assert_eq!(s.sender_exe, "/bin/a");
    assert_eq!(s.receiver_exe, "/bin/self");
    assert_eq!(s.out, "scratch/results.tsv");
    assert_eq!((s.reps, s.secs, s.latency), (5, 8, 120));
}

/// Build the arg list from a `--link-*` flag map, the way a cell does.
fn args(pairs: &[(&str, &str)]) -> Result<Option<Vec<String>>, String> {
    let cell: Cell = pairs
        .iter()
        .map(|(k, v)| value(&format!("link-{k}"), Scope::Both, v))
        .collect();
    netem_args(&cell)
}

#[test]
fn builds_tc_arguments_in_netem_order() {
    assert_eq!(
        args(&[("delay", "25ms"), ("jitter", "5ms"), ("loss", "1%")])
            .unwrap()
            .unwrap(),
        ["limit", "100000", "delay", "25ms", "5ms", "loss", "1%"]
    );
}

#[test]
fn no_link_flags_means_no_emulation() {
    assert_eq!(args(&[]).unwrap(), None);
    assert_eq!(args(&[("delay", "off")]).unwrap(), None);
    // A backlog alone is not a condition worth a qdisc.
    assert_eq!(args(&[("limit", "64")]).unwrap(), None);
}

#[test]
fn raises_the_backlog_unless_told_otherwise() {
    // netem's default limit of 1000 packets would silently become the
    // bottleneck at these packet rates and look like protocol loss.
    assert_eq!(
        args(&[("loss", "1%")]).unwrap().unwrap()[..2],
        ["limit", "100000"]
    );
    assert_eq!(
        args(&[("loss", "1%"), ("limit", "64")]).unwrap().unwrap()[..2],
        ["limit", "64"]
    );
}

#[test]
fn accepts_every_rate_unit() {
    for rate in ["1000bit", "100kbit", "100mbit", "1gbit"] {
        assert!(args(&[("rate", rate)]).is_ok(), "rejected {rate}");
    }
}

#[test]
fn rejects_anything_it_would_have_to_forward_blindly() {
    // These arguments are handed to a privileged command, so a
    // non-numeric or wrongly-united value must not pass through.
    for (flag, value) in [
        ("loss", "1%; rm -rf /"),
        ("delay", "$(whoami)"),
        ("loss", "abc"),
        ("delay", "25"),   // unit required
        ("loss", "1"),     // unit required
        ("rate", "100mb"), // not a netem unit
    ] {
        assert!(args(&[(flag, value)]).is_err(), "accepted {flag}={value}");
    }
}

#[test]
fn jitter_without_delay_is_meaningless() {
    assert!(args(&[("jitter", "5ms")]).is_err());
}

#[test]
fn link_off_keys_the_same_as_it_records() {
    assert_eq!(
        recorded_as("link-delay", "off"),
        ("link_delay".to_string(), String::new())
    );
    assert_eq!(
        recorded_as("link-loss", "1%"),
        ("link_loss".to_string(), "1%".to_string())
    );
}

#[test]
fn a_map_keeps_one_value_per_key() {
    let mut map: TextMap<String> = TextMap::new();
    map.insert("a".to_string(), "1".to_string());
    map.insert("b".to_string(), "2".to_string());
    map.insert("a".to_string(), "3".to_string());
    assert_eq!(map.len(), 2);
    assert_eq!(map.get("a").unwrap(), "3");
    assert_eq!(map.key_at(1), "b");
    assert_eq!(map.text_or_empty("c"), "");
}

#[test]
fn privileged_commands_are_spelled_out() {
    assert_eq!(
        netem_command(&Some(vec!["limit".to_string(), "64".to_string()])).join(" "),
        "ip netns exec srtbench tc qdisc replace dev lo root netem limit 64"
    );
    assert_eq!(
        netem_command(&None).join(" "),
        "ip netns exec srtbench tc qdisc del dev lo root"
    );
    assert_eq!(
        role_command(1000, 100, "/bin/x").join(" "),
        "ip netns exec srtbench setpriv --reuid=1000 --regid=100 --clear-groups env \
         SRT_BENCH_CHILD=1 /bin/x"
    );
    assert_eq!(
        role_command(0, 0, "/bin/x").join(" "),
        "ip netns exec srtbench env SRT_BENCH_CHILD=1 /bin/x"
    );
    assert_eq!(
        elevated(false, namespace_command(true)).join(" "),
        "sudo -n ip netns add srtbench"
    );
    assert_eq!(
        elevated(true, loopback_command()).join(" "),
        "ip netns exec srtbench ip link set lo up"
    );
}

#[test]
fn one_emulated_cell_puts_the_sweep_into_the_namespace() {
    let quiet = || cell(&[("link-delay", "off")]);
    let slow = || cell(&[("link-delay", "25ms")]);
    let bad = || cell(&[("link-loss", "1")]);
    assert_eq!(any_link_emulated(&vec![quiet(), quiet()]), Ok(false));
    assert_eq!(any_link_emulated(&vec![quiet(), slow()]), Ok(true));
    assert_eq!(
        any_link_emulated(&vec![slow(), bad()]),
        Err("--link-loss: bad value '1'".to_string())
    );
}

#[test]
fn recorded_ingress_never_fails_to_read() {
    assert_eq!(recorded_ingress("shared-pool:4"), Ingress::SharedPool(4));
    assert_eq!(recorded_ingress("shared-pool:x"), Ingress::SharedPool(1));
    assert_eq!(
        recorded_ingress("reuseport-single:2"),
        Ingress::ReuseportSingle { workers: 2 }
    );
    assert_eq!(
        recorded_ingress("reuseport-multi:3"),
        Ingress::ReuseportMulti(3)
    );
    assert_eq!(recorded_ingress("per-port"), Ingress::PerPort);
    let config = matrix_cell_config(&vec![
        value("runtime", Scope::Recv, "tokio"),
        value("runtime", Scope::Send, "zig"),
        value("ingress", Scope::Recv, "shared-pool:2"),
    ]);
    assert_eq!(
        cell_demands(&config),
        (
            (Runtime::Tokio, Ingress::SharedPool(2)),
            (Runtime::Mio, Ingress::PerPort)
        )
    );
}
