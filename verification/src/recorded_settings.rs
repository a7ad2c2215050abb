//! A run records what it was told: the settings of a cell come back from its row.
use crate::cli::CliText;
use crate::config::{BenchConfig, RunDefaults, scaled, size_of};
use crate::config_laws::{
    counts_behind_kinds_are_kept, datapaths_are_what_was_asked_for, links_are_what_was_said_of_them,
    numbers_are_what_was_asked_for, peers_are_what_was_said_of_them, roles_are_what_was_asked_for,
};
use crate::matrix::{Scope, ValueText};
use crate::record::{cell_column, column_of, field_in, plain_column, recorded_value};
use crate::results::{config_columns_text, values_record};
use crate::row::{ModelColumns, RunMeasurements, RunSurroundings, row_values};
use crate::row_columns::{
    rows_say_how_the_endpoints_were_configured, rows_say_what_source_and_queues_did,
    rows_say_what_was_asked_for,
};
use crate::text::{decimal, decimal_round_trips, is_digit, replaced, unsigned_of};
use vstd::prelude::*;

verus! {

proof fn lemma_axes()
    ensures
        "runtime"@.len() == 7 && "runtime"@[0] == 'r',
        "encryption"@.len() == 10 && "encryption"@[0] == 'e',
        "ingress"@.len() == 7 && "ingress"@[0] == 'i',
        "egress"@.len() == 6 && "egress"@[0] == 'e',
        "promotion"@.len() == 9 && "promotion"@[0] == 'p',
        "cookie-routing"@.len() == 14 && "cookie-routing"@[0] == 'c',
        "batch"@.len() == 5 && "batch"@[0] == 'b',
        "workers"@.len() == 7 && "workers"@[0] == 'w',
        "connections"@.len() == 11 && "connections"@[0] == 'c',
        "connect-concurrency"@.len() == 19 && "connect-concurrency"@[0] == 'c',
        "bond"@.len() == 4 && "bond"@[0] == 'b',
        "bitrate"@.len() == 7 && "bitrate"@[0] == 'b',
        "srt-bandwidth"@.len() == 13 && "srt-bandwidth"@[0] == 's',
        "source-backlog-ms"@.len() == 17 && "source-backlog-ms"@[0] == 's',
        "recv-rounds"@.len() == 11 && "recv-rounds"@[0] == 'r',
        "would-block"@.len() == 11 && "would-block"@[0] == 'w',
        "datapath-queue-horizon-ms"@.len() == 25 && "datapath-queue-horizon-ms"@[0] == 'd',
        "datapath-q-horizon-ms"@.len() == 21 && "datapath-q-horizon-ms"@[0] == 'd',
        "outbound-retry-horizon-ms"@.len() == 25 && "outbound-retry-horizon-ms"@[0] == 'o',
        "retry-horizon-ms"@.len() == 16 && "retry-horizon-ms"@[0] == 'r',
        "pin"@.len() == 3 && "pin"@[0] == 'p',
        "sock-buf"@.len() == 8 && "sock-buf"@[0] == 's',
{
    reveal_strlit("runtime");
    reveal_strlit("encryption");
    reveal_strlit("ingress");
    reveal_strlit("egress");
    reveal_strlit("promotion");
    reveal_strlit("cookie-routing");
    reveal_strlit("batch");
    reveal_strlit("workers");
    reveal_strlit("connections");
    reveal_strlit("connect-concurrency");
    reveal_strlit("bond");
    reveal_strlit("bitrate");
    reveal_strlit("srt-bandwidth");
    reveal_strlit("source-backlog-ms");
    reveal_strlit("recv-rounds");
    reveal_strlit("would-block");
    reveal_strlit("datapath-queue-horizon-ms");
    reveal_strlit("datapath-q-horizon-ms");
    reveal_strlit("outbound-retry-horizon-ms");
    reveal_strlit("retry-horizon-ms");
    reveal_strlit("pin");
    reveal_strlit("sock-buf");
}

/// Each axis is recorded under the name of its column, and its values as they are.
pub proof fn axes_have_their_columns(v: Seq<char>)
    ensures
        column_of("runtime"@) == "runtime"@ && recorded_value("runtime"@, v) == v,
        column_of("encryption"@) == "encryption"@ && recorded_value("encryption"@, v) == v,
        column_of("ingress"@) == "ingress"@ && recorded_value("ingress"@, v) == v,
        column_of("egress"@) == "egress"@ && recorded_value("egress"@, v) == v,
        column_of("promotion"@) == "promotion"@ && recorded_value("promotion"@, v) == v,
        column_of("cookie-routing"@) == "cookie"@ && recorded_value("cookie-routing"@, v) == v,
        column_of("batch"@) == "batch"@ && recorded_value("batch"@, v) == v,
        column_of("workers"@) == "workers"@ && recorded_value("workers"@, v) == v,
        column_of("connections"@) == "conns"@ && recorded_value("connections"@, v) == v,
        column_of("connect-concurrency"@) == "connect_cc"@ && recorded_value("connect-concurrency"@, v) == v,
        column_of("bond"@) == "bond"@ && recorded_value("bond"@, v) == v,
        column_of("bitrate"@) == "source_bps"@ && recorded_value("bitrate"@, v) == v,
        column_of("srt-bandwidth"@) == "srt_bw_mode"@ && recorded_value("srt-bandwidth"@, v) == v,
        column_of("source-backlog-ms"@) == "source_backlog_ms"@ && recorded_value("source-backlog-ms"@, v) == v,
        column_of("recv-rounds"@) == "recv_rounds"@ && recorded_value("recv-rounds"@, v) == v,
        column_of("would-block"@) == "would_block_policy"@ && recorded_value("would-block"@, v) == v,
        column_of("datapath-queue-horizon-ms"@) == "datapath_q_horizon_ms"@ && recorded_value("datapath-queue-horizon-ms"@, v) == v,
        column_of("datapath-q-horizon-ms"@) == "datapath_q_horizon_ms"@ && recorded_value("datapath-q-horizon-ms"@, v) == v,
        column_of("outbound-retry-horizon-ms"@) == "retry_horizon_ms"@ && recorded_value("outbound-retry-horizon-ms"@, v) == v,
        column_of("retry-horizon-ms"@) == "retry_horizon_ms"@ && recorded_value("retry-horizon-ms"@, v) == v,
        column_of("pin"@) == "pin"@ && recorded_value("pin"@, v) == v,
        column_of("sock-buf"@) == "sock_buf_requested_bytes"@,
{
    lemma_axes();
}

proof fn lemma_link_axis(axis: Seq<char>, column: Seq<char>)
    requires
        axis.len() > 5,
        axis[0] == 'l',
        axis.subrange(0, 5) == "link-"@,
        column == replaced(axis, '-', '_'),
    ensures
        plain_column(axis) is None,
        column_of(axis) == column,
        forall|v: Seq<char>| v != "off"@ ==> #[trigger] recorded_value(axis, v) == v,
        recorded_value(axis, "off"@) == Seq::<char>::empty(),
{
    lemma_axes();
    reveal_strlit("link-");
    reveal_strlit("sock-buf");
}

/// Each setting of a link is recorded under its name, and as nothing where it is off.
pub proof fn link_settings_have_their_columns(v: Seq<char>)
    requires
        v != "off"@,
    ensures
        column_of("link-delay"@) == "link_delay"@ && recorded_value("link-delay"@, v) == v,
        recorded_value("link-delay"@, "off"@) == Seq::<char>::empty(),
        column_of("link-jitter"@) == "link_jitter"@ && recorded_value("link-jitter"@, v) == v,
        recorded_value("link-jitter"@, "off"@) == Seq::<char>::empty(),
        column_of("link-loss"@) == "link_loss"@ && recorded_value("link-loss"@, v) == v,
        recorded_value("link-loss"@, "off"@) == Seq::<char>::empty(),
        column_of("link-rate"@) == "link_rate"@ && recorded_value("link-rate"@, v) == v,
        recorded_value("link-rate"@, "off"@) == Seq::<char>::empty(),
        column_of("link-reorder"@) == "link_reorder"@ && recorded_value("link-reorder"@, v) == v,
        recorded_value("link-reorder"@, "off"@) == Seq::<char>::empty(),
        column_of("link-duplicate"@) == "link_duplicate"@ && recorded_value("link-duplicate"@, v) == v,
        recorded_value("link-duplicate"@, "off"@) == Seq::<char>::empty(),
        column_of("link-corrupt"@) == "link_corrupt"@ && recorded_value("link-corrupt"@, v) == v,
        recorded_value("link-corrupt"@, "off"@) == Seq::<char>::empty(),
        column_of("link-limit"@) == "link_limit"@ && recorded_value("link-limit"@, v) == v,
        recorded_value("link-limit"@, "off"@) == Seq::<char>::empty(),
{
    reveal_strlit("link-");
    reveal_strlit("link-delay");
    reveal_strlit("link_delay");
    assert("link-delay"@.subrange(0, 5) =~= "link-"@);
    assert("link_delay"@ =~= replaced("link-delay"@, '-', '_'));
    assert("link-delay"@[0] == 'l');
    lemma_link_axis("link-delay"@, "link_delay"@);
    reveal_strlit("link-jitter");
    reveal_strlit("link_jitter");
    assert("link-jitter"@.subrange(0, 5) =~= "link-"@);
    assert("link_jitter"@ =~= replaced("link-jitter"@, '-', '_'));
    assert("link-jitter"@[0] == 'l');
    lemma_link_axis("link-jitter"@, "link_jitter"@);
    reveal_strlit("link-loss");
    reveal_strlit("link_loss");
    assert("link-loss"@.subrange(0, 5) =~= "link-"@);
    assert("link_loss"@ =~= replaced("link-loss"@, '-', '_'));
    assert("link-loss"@[0] == 'l');
    lemma_link_axis("link-loss"@, "link_loss"@);
    reveal_strlit("link-rate");
    reveal_strlit("link_rate");
    assert("link-rate"@.subrange(0, 5) =~= "link-"@);
    assert("link_rate"@ =~= replaced("link-rate"@, '-', '_'));
    assert("link-rate"@[0] == 'l');
    lemma_link_axis("link-rate"@, "link_rate"@);
    reveal_strlit("link-reorder");
    reveal_strlit("link_reorder");
    assert("link-reorder"@.subrange(0, 5) =~= "link-"@);
    assert("link_reorder"@ =~= replaced("link-reorder"@, '-', '_'));
    assert("link-reorder"@[0] == 'l');
    lemma_link_axis("link-reorder"@, "link_reorder"@);
    reveal_strlit("link-duplicate");
    reveal_strlit("link_duplicate");
    assert("link-duplicate"@.subrange(0, 5) =~= "link-"@);
    assert("link_duplicate"@ =~= replaced("link-duplicate"@, '-', '_'));
    assert("link-duplicate"@[0] == 'l');
    lemma_link_axis("link-duplicate"@, "link_duplicate"@);
    reveal_strlit("link-corrupt");
    reveal_strlit("link_corrupt");
    assert("link-corrupt"@.subrange(0, 5) =~= "link-"@);
    assert("link_corrupt"@ =~= replaced("link-corrupt"@, '-', '_'));
    assert("link-corrupt"@[0] == 'l');
    lemma_link_axis("link-corrupt"@, "link_corrupt"@);
    reveal_strlit("link-limit");
    reveal_strlit("link_limit");
    assert("link-limit"@.subrange(0, 5) =~= "link-"@);
    assert("link_limit"@ =~= replaced("link-limit"@, '-', '_'));
    assert("link-limit"@[0] == 'l');
    lemma_link_axis("link-limit"@, "link_limit"@);
}

/// Every axis is part of what tells cells apart: what a sweep varies is never taken for the
/// same cell.
pub proof fn every_axis_tells_cells_apart()
    ensures
        config_columns_text().contains(column_of("runtime"@)),
        config_columns_text().contains(column_of("encryption"@)),
        config_columns_text().contains(column_of("ingress"@)),
        config_columns_text().contains(column_of("egress"@)),
        config_columns_text().contains(column_of("promotion"@)),
        config_columns_text().contains(column_of("cookie-routing"@)),
        config_columns_text().contains(column_of("batch"@)),
        config_columns_text().contains(column_of("workers"@)),
        config_columns_text().contains(column_of("connections"@)),
        config_columns_text().contains(column_of("connect-concurrency"@)),
        config_columns_text().contains(column_of("bond"@)),
        config_columns_text().contains(column_of("bitrate"@)),
        config_columns_text().contains(column_of("srt-bandwidth"@)),
        config_columns_text().contains(column_of("source-backlog-ms"@)),
        config_columns_text().contains(column_of("recv-rounds"@)),
        config_columns_text().contains(column_of("would-block"@)),
        config_columns_text().contains(column_of("datapath-queue-horizon-ms"@)),
        config_columns_text().contains(column_of("outbound-retry-horizon-ms"@)),
        config_columns_text().contains(column_of("pin"@)),
        config_columns_text().contains(column_of("sock-buf"@)),
        config_columns_text().contains(column_of("link-delay"@)),
        config_columns_text().contains(column_of("link-jitter"@)),
        config_columns_text().contains(column_of("link-loss"@)),
        config_columns_text().contains(column_of("link-rate"@)),
        config_columns_text().contains(column_of("link-reorder"@)),
        config_columns_text().contains(column_of("link-duplicate"@)),
        config_columns_text().contains(column_of("link-corrupt"@)),
        config_columns_text().contains(column_of("link-limit"@)),
{
    axes_have_their_columns(Seq::empty());
    reveal_strlit("off");
    assert("off"@.len() == 3);
    link_settings_have_their_columns(Seq::empty());
    let all = config_columns_text();
    assert(all[0] == "runtime"@);
    assert(all[1] == "encryption"@);
    assert(all[2] == "ingress"@);
    assert(all[3] == "egress"@);
    assert(all[4] == "promotion"@);
    assert(all[5] == "cookie"@);
    assert(all[6] == "batch"@);
    assert(all[7] == "recv_rounds"@);
    assert(all[8] == "would_block_policy"@);
    assert(all[9] == "sock_buf_requested_bytes"@);
    assert(all[10] == "cpus"@);
    assert(all[11] == "pin"@);
    assert(all[12] == "link_delay"@);
    assert(all[13] == "link_jitter"@);
    assert(all[14] == "link_loss"@);
    assert(all[15] == "link_rate"@);
    assert(all[16] == "link_reorder"@);
    assert(all[17] == "link_duplicate"@);
    assert(all[18] == "link_corrupt"@);
    assert(all[19] == "link_limit"@);
    assert(all[20] == "workers"@);
    assert(all[21] == "recv_runtime"@);
    assert(all[22] == "send_runtime"@);
    assert(all[23] == "recv_ingress"@);
    assert(all[24] == "send_ingress"@);
    assert(all[25] == "recv_workers"@);
    assert(all[26] == "send_workers"@);
    assert(all[27] == "recv_cpus"@);
    assert(all[28] == "send_cpus"@);
    assert(all[29] == "conns"@);
    assert(all[30] == "connect_cc"@);
    assert(all[31] == "bond"@);
    assert(all[32] == "source_bps"@);
    assert(all[33] == "srt_bw_mode"@);
    assert(all[34] == "source_backlog_ms"@);
    assert(all[35] == "datapath_q_horizon_ms"@);
    assert(all[36] == "retry_horizon_ms"@);
    assert(all[37] == "secs"@);
    assert(all[38] == "model_policy_rev"@);
}

/// Whether a row holds what a value of an axis is recorded as.
pub open spec fn records(row: Seq<(Seq<char>, Seq<char>)>, axis: Seq<char>, v: Seq<char>) -> bool {
    field_in(row, column_of(axis)) == Some(recorded_value(axis, v))
}

/// What a run is told to be, of the choices that have names, is what its row says.
pub proof fn choices_come_back(
    config: BenchConfig,
    cli: CliText,
    env: RunDefaults,
    rep: usize,
    m: RunMeasurements,
    model: ModelColumns,
    around: RunSurroundings,
    v: Seq<char>,
)
    requires
        config.reads(cli, env),
        v.len() > 0,
    ensures
        ({
            let row = values_record(row_values(config, rep, m, model, around));
            &&& cli.flag("runtime"@) == Some(v) ==> records(row, "runtime"@, v)
            &&& cli.flag("encryption"@) == Some(v) ==> records(row, "encryption"@, v)
            &&& cli.flag("egress"@) == Some(v) ==> records(row, "egress"@, v)
            &&& cli.flag("promotion"@) == Some(v) ==> records(row, "promotion"@, v)
            &&& cli.flag("cookie-routing"@) == Some(v) ==> records(row, "cookie-routing"@, v)
            &&& cli.flag("batch"@) == Some(v) ==> records(row, "batch"@, v)
            &&& cli.flag("would-block"@) == Some(v) ==> records(row, "would-block"@, v)
            &&& cli.flag("pin"@) == Some("on"@) ==> records(row, "pin"@, "on"@)
            &&& cli.flag("pin"@) == Some("off"@) ==> records(row, "pin"@, "off"@)
            &&& cli.flag("bond"@) == Some("none"@) ==> records(row, "bond"@, "none"@)
            &&& cli.flag("ingress"@) == Some("per-port"@) ==> records(row, "ingress"@, "per-port"@)
        }),
{
    roles_are_what_was_asked_for(config, cli, env);
    datapaths_are_what_was_asked_for(config, cli, env);
    rows_say_how_the_endpoints_were_configured(config, rep, m, model, around);
    rows_say_what_was_asked_for(config, rep, m, model, around);
    axes_have_their_columns(v);
    axes_have_their_columns("on"@);
    axes_have_their_columns("off"@);
    axes_have_their_columns("none"@);
    axes_have_their_columns("per-port"@);
    reveal_strlit("");
    reveal_strlit("on");
    reveal_strlit("off");
}

/// The numbers that a run is told, below the largest count that is run, are those that its
/// row says.
pub proof fn numbers_come_back(
    config: BenchConfig,
    cli: CliText,
    env: RunDefaults,
    rep: usize,
    m: RunMeasurements,
    model: ModelColumns,
    around: RunSurroundings,
    n: nat,
)
    requires
        config.reads(cli, env),
        0 < n < 4096,
    ensures
        ({
            let row = values_record(row_values(config, rep, m, model, around));
            let d = decimal(n);
            &&& cli.flag("workers"@) == Some(d) ==> records(row, "workers"@, d)
            &&& cli.flag("connections"@) == Some(d) ==> records(row, "connections"@, d)
            &&& cli.flag("connect-concurrency"@) == Some(d) ==> records(
                row,
                "connect-concurrency"@,
                d,
            )
            &&& cli.flag("recv-rounds"@) == Some(d) ==> records(row, "recv-rounds"@, d)
            &&& cli.flag("source-backlog-ms"@) == Some(d) ==> records(row, "source-backlog-ms"@, d)
            &&& cli.flag("datapath-queue-horizon-ms"@) == Some(d) ==> records(
                row,
                "datapath-queue-horizon-ms"@,
                d,
            )
            &&& cli.flag("outbound-retry-horizon-ms"@) == Some(d) ==> records(
                row,
                "outbound-retry-horizon-ms"@,
                d,
            )
            &&& cli.flag("bond"@) == Some("broadcast:"@ + d) ==> records(
                row,
                "bond"@,
                "broadcast:"@ + d,
            )
            &&& cli.flag("bond"@) == Some("backup:"@ + d) ==> records(row, "bond"@, "backup:"@ + d)
            &&& cli.flag("ingress"@) == Some("shared-pool:"@ + d) ==> records(
                row,
                "ingress"@,
                "shared-pool:"@ + d,
            )
            &&& cli.flag("ingress"@) == Some("reuseport-multi:"@ + d) ==> records(
                row,
                "ingress"@,
                "reuseport-multi:"@ + d,
            )
            &&& cli.flag("ingress"@) == Some("reuseport-single:"@ + d) ==> records(
                row,
                "ingress"@,
                "reuseport-single:"@ + d,
            )
        }),
{
    let d = decimal(n);
    numbers_are_what_was_asked_for(config, cli, env, n);
    counts_behind_kinds_are_kept(config, cli, env, n);
    rows_say_how_the_endpoints_were_configured(config, rep, m, model, around);
    rows_say_what_was_asked_for(config, rep, m, model, around);
    rows_say_what_source_and_queues_did(config, rep, m, model, around);
    axes_have_their_columns(d);
    axes_have_their_columns("broadcast:"@ + d);
    axes_have_their_columns("backup:"@ + d);
    axes_have_their_columns("shared-pool:"@ + d);
    axes_have_their_columns("reuseport-multi:"@ + d);
    axes_have_their_columns("reuseport-single:"@ + d);
}

/// The link that a run is told to emulate is the one that its row says.
pub proof fn links_come_back(
    config: BenchConfig,
    cli: CliText,
    env: RunDefaults,
    rep: usize,
    m: RunMeasurements,
    model: ModelColumns,
    around: RunSurroundings,
    v: Seq<char>,
)
    requires
        config.reads(cli, env),
        v.len() > 0,
    ensures
        ({
            let row = values_record(row_values(config, rep, m, model, around));
            &&& cli.flag("link-delay"@) == Some(v) ==> records(row, "link-delay"@, v)
            &&& cli.flag("link-jitter"@) == Some(v) ==> records(row, "link-jitter"@, v)
            &&& cli.flag("link-loss"@) == Some(v) ==> records(row, "link-loss"@, v)
            &&& cli.flag("link-rate"@) == Some(v) ==> records(row, "link-rate"@, v)
            &&& cli.flag("link-reorder"@) == Some(v) ==> records(row, "link-reorder"@, v)
            &&& cli.flag("link-duplicate"@) == Some(v) ==> records(row, "link-duplicate"@, v)
            &&& cli.flag("link-corrupt"@) == Some(v) ==> records(row, "link-corrupt"@, v)
            &&& cli.flag("link-limit"@) == Some(v) ==> records(row, "link-limit"@, v)
        }),
{
    reveal_strlit("off");
    reveal_strlit("a");
    assert("off"@.len() == 3 && "a"@.len() == 1);
    let other = if v == "off"@ {
        "a"@
    } else {
        v
    };
    links_are_what_was_said_of_them(config.link, cli, other);
    rows_say_how_the_endpoints_were_configured(config, rep, m, model, around);
    link_settings_have_their_columns(other);
    assert(config.link.delay@.len() == 0 ==> config.link.delay@ =~= Seq::<char>::empty());
    assert(config.link.jitter@.len() == 0 ==> config.link.jitter@ =~= Seq::<char>::empty());
    assert(config.link.loss@.len() == 0 ==> config.link.loss@ =~= Seq::<char>::empty());
    assert(config.link.rate@.len() == 0 ==> config.link.rate@ =~= Seq::<char>::empty());
    assert(config.link.reorder@.len() == 0 ==> config.link.reorder@ =~= Seq::<char>::empty());
    assert(config.link.duplicate@.len() == 0 ==> config.link.duplicate@ =~= Seq::<char>::empty());
    assert(config.link.corrupt@.len() == 0 ==> config.link.corrupt@ =~= Seq::<char>::empty());
    assert(config.link.limit@.len() == 0 ==> config.link.limit@ =~= Seq::<char>::empty());
}

/// The size of socket buffers that a run is told is recorded in bytes, whatever unit it was
/// told in.
pub proof fn buffer_sizes_come_back(
    config: BenchConfig,
    cli: CliText,
    env: RunDefaults,
    rep: usize,
    m: RunMeasurements,
    model: ModelColumns,
    around: RunSurroundings,
    n: nat,
)
    requires
        config.reads(cli, env),
        1 < n < 4096,
    ensures
        ({
            let row = values_record(row_values(config, rep, m, model, around));
            let d = decimal(n);
            &&& cli.flag("sock-buf"@) == Some(d) ==> records(row, "sock-buf"@, d) && field_in(
                row,
                "sock_buf_requested_bytes"@,
            ) == Some(d)
            &&& cli.flag("sock-buf"@) == Some(d.push('k')) ==> records(row, "sock-buf"@, d.push('k'))
                && field_in(row, "sock_buf_requested_bytes"@) == Some(decimal(n * 1024))
            &&& cli.flag("sock-buf"@) == Some(d.push('m')) ==> records(row, "sock-buf"@, d.push('m'))
                && field_in(row, "sock_buf_requested_bytes"@) == Some(decimal(n * 1048576))
            &&& cli.flag("sock-buf"@) == Some("default"@) ==> records(
                row,
                "sock-buf"@,
                "default"@,
            ) && field_in(row, "sock_buf_requested_bytes"@) == Some(decimal(0))
        }),
{
    let d = decimal(n);
    numbers_are_what_was_asked_for(config, cli, env, n);
    datapaths_are_what_was_asked_for(config, cli, env);
    rows_say_how_the_endpoints_were_configured(config, rep, m, model, around);
    axes_have_their_columns(d);
    decimal_round_trips(n);
    reveal_strlit("default");
    reveal_strlit("0");
    assert(d.push('k').drop_last() =~= d && d.push('m').drop_last() =~= d);
    assert(is_digit(d.last()) && is_digit(d[0]));
    assert(d.push('k')[0] == d[0] && d.push('m')[0] == d[0] && "default"@[0] == 'd');
    assert(d.push('k').last() == 'k' && d.push('m').last() == 'm' && "0"@.last() == '0');
    assert("0"@ =~= decimal(0));
    if d == "0"@ {
        decimal_round_trips(0);
    }
    assert(scaled(d) == (d, 1int) && unsigned_of(d, usize::MAX as int) == Some(n));
    assert(n * 1int == n);
    assert(size_of(d) == Some(n as usize));
    assert(size_of(d.push('k')) == Some((n * 1024) as usize));
    assert(size_of(d.push('m')) == Some((n * 1048576) as usize));
}

/// What is told of one side only is recorded under that side's column.
pub proof fn sides_come_back(
    config: BenchConfig,
    cli: CliText,
    env: RunDefaults,
    rep: usize,
    m: RunMeasurements,
    model: ModelColumns,
    around: RunSurroundings,
    v: Seq<char>,
)
    requires
        config.reads(cli, env),
        v.len() > 0,
    ensures
        ({
            let row = values_record(row_values(config, rep, m, model, around));
            let recv = |axis: Seq<char>|
                field_in(row, cell_column(ValueText { axis, scope: Scope::Recv, value: v }));
            let send = |axis: Seq<char>|
                field_in(row, cell_column(ValueText { axis, scope: Scope::Send, value: v }));
            &&& cli.flag("recv-runtime"@) == Some(v) ==> recv("runtime"@) == Some(v)
            &&& cli.flag("send-runtime"@) == Some(v) ==> send("runtime"@) == Some(v)
            &&& cli.flag("recv-ingress"@) == Some(v) ==> recv("ingress"@) == Some(v)
            &&& cli.flag("send-ingress"@) == Some(v) ==> send("ingress"@) == Some(v)
            &&& cli.flag("recv-workers"@) == Some(v) ==> recv("workers"@) == Some(v)
            &&& cli.flag("send-workers"@) == Some(v) ==> send("workers"@) == Some(v)
        }),
{
    peers_are_what_was_said_of_them(config.peer_topology, cli, v);
    rows_say_what_was_asked_for(config, rep, m, model, around);
    axes_have_their_columns(v);
    reveal_strlit("recv_");
    reveal_strlit("send_");
    reveal_strlit("runtime");
    reveal_strlit("recv_runtime");
    assert("recv_"@ + "runtime"@ =~= "recv_runtime"@);
    reveal_strlit("send_runtime");
    assert("send_"@ + "runtime"@ =~= "send_runtime"@);
    reveal_strlit("ingress");
    reveal_strlit("recv_ingress");
    assert("recv_"@ + "ingress"@ =~= "recv_ingress"@);
    reveal_strlit("send_ingress");
    assert("send_"@ + "ingress"@ =~= "send_ingress"@);
    reveal_strlit("workers");
    reveal_strlit("recv_workers");
    assert("recv_"@ + "workers"@ =~= "recv_workers"@);
    reveal_strlit("send_workers");
    assert("send_"@ + "workers"@ =~= "send_workers"@);
}

} // verus!
