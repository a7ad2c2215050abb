//! What the classifier's outputs and the host's verdicts say.
use crate::classifier::{
    OutputRow, RunSlot, code_array, format_asked, members, output_columns_text, row_cells,
    row_values, table_cells, tsv_text, validated, validation_names,
};
use crate::cli::CliText;
use crate::compare::measurable;
use crate::host_contention::{
    HostContentionMode, HostContentionSnapshot, HostContentionStatus, PolicyRendering, Pressure,
    PsiText, flag_if, gained, mode_of_cli, policy_flags, psi_line, readable_between, signal_names,
    stall_between, steal_between, timeout_for, verdict,
};
use crate::json::{Escapes, json_text};
use crate::model::{Availability, codes_text};
use crate::record::field_in;
use crate::text::{decimal, split_once_text};
use vstd::prelude::*;

verus! {

// ---------------------------------------------------------------------------
// Assessed rows
// ---------------------------------------------------------------------------

/// Whether a value stands where a name stands.
pub open spec fn stands_under(
    names: Seq<Seq<char>>,
    values: Seq<Seq<char>>,
    name: Seq<char>,
    value: Seq<char>,
) -> bool {
    exists|k: int|
        0 <= k < names.len() && k < values.len() && #[trigger] names[k] == name && values[k] == value
}

proof fn lemma_stands(
    names: Seq<Seq<char>>,
    values: Seq<Seq<char>>,
    name: Seq<char>,
    value: Seq<char>,
    k: int,
)
    requires
        0 <= k < names.len(),
        k < values.len(),
        names[k] == name,
        values[k] == value,
    ensures
        stands_under(names, values, name, value),
{
}

/// How a figure is told in a table: by its number, or that it is unknown or does not
/// apply.
pub open spec fn told_plainly(v: Availability<String>) -> Seq<char> {
    match v {
        Availability::Known(s) => s@,
        Availability::Unknown => "unknown"@,
        Availability::NotApplicable => "n/a"@,
    }
}

/// How a figure is told in an object: with whether it is known.
pub open spec fn told_with_state(v: Availability<String>) -> Seq<char> {
    match v {
        Availability::Known(s) => "{\"state\":\"known\",\"value\":"@ + s@ + "}"@,
        Availability::Unknown => "{\"state\":\"unknown\"}"@,
        Availability::NotApplicable => "{\"state\":\"not-applicable\"}"@,
    }
}

/// Every figure of an assessed cell stands in the column of its name.
pub proof fn columns_hold_their_figures(row: OutputRow)
    ensures
        ({
            let names = output_columns_text();
            let cells = row_cells(row);
            let f = row.figures;
            &&& names.len() == 20 && cells.len() == 20
            &&& stands_under(names, cells, "cell"@, tsv_text(row.cell@))
            &&& stands_under(names, cells, "class"@, row.class.text())
            &&& stands_under(names, cells, "reasons"@, codes_text(row.reasons@))
            &&& stands_under(names, cells, "source_pps_total"@, f.source_pps_long@)
            &&& stands_under(names, cells, "packet_pps"@, told_plainly(f.packet_pps))
            &&& stands_under(names, cells, "srt_total_bps"@, told_plainly(f.srt_total_bps))
            &&& stands_under(names, cells, "udp_ip_bps"@, told_plainly(f.udp_ip_bps))
            &&& stands_under(names, cells, "nic_wire_bps"@, told_plainly(f.nic_wire_bps))
            &&& stands_under(names, cells, "retransmission_factor"@, told_plainly(f.retransmission_factor))
            &&& stands_under(names, cells, "bdp_packets"@, told_plainly(f.bdp_packets))
            &&& stands_under(names, cells, "required_window_packets"@, told_plainly(f.required_window_packets))
            &&& stands_under(names, cells, "flow_window_headroom_packets"@, told_plainly(f.flow_window_headroom_packets))
            &&& stands_under(names, cells, "receive_window_headroom_packets"@, told_plainly(f.receive_window_headroom_packets))
            &&& stands_under(names, cells, "recovery_margin_ms"@, told_plainly(f.recovery_margin_ms))
            &&& stands_under(names, cells, "socket_horizon_recv_s"@, told_plainly(f.socket_horizon_recv_s))
            &&& stands_under(names, cells, "socket_horizon_send_s"@, told_plainly(f.socket_horizon_send_s))
            &&& stands_under(names, cells, "host_utilization"@, told_plainly(f.host_utilization))
            &&& stands_under(names, cells, "nic_utilization"@, told_plainly(f.nic_utilization))
            &&& stands_under(names, cells, "admission_waves"@, decimal(row.admission_waves as nat))
            &&& stands_under(names, cells, "policy_rev"@, tsv_text(row.policy_revision@))
        }),
{
    let names = output_columns_text();
    let cells = row_cells(row);
    let f = row.figures;
    lemma_stands(names, cells, "cell"@, tsv_text(row.cell@), 0);
    lemma_stands(names, cells, "class"@, row.class.text(), 1);
    lemma_stands(names, cells, "reasons"@, codes_text(row.reasons@), 2);
    lemma_stands(names, cells, "source_pps_total"@, f.source_pps_long@, 3);
    lemma_stands(names, cells, "packet_pps"@, told_plainly(f.packet_pps), 4);
    lemma_stands(names, cells, "srt_total_bps"@, told_plainly(f.srt_total_bps), 5);
    lemma_stands(names, cells, "udp_ip_bps"@, told_plainly(f.udp_ip_bps), 6);
    lemma_stands(names, cells, "nic_wire_bps"@, told_plainly(f.nic_wire_bps), 7);
    lemma_stands(names, cells, "retransmission_factor"@, told_plainly(f.retransmission_factor), 8);
    lemma_stands(names, cells, "bdp_packets"@, told_plainly(f.bdp_packets), 9);
    lemma_stands(names, cells, "required_window_packets"@, told_plainly(f.required_window_packets), 10);
    lemma_stands(names, cells, "flow_window_headroom_packets"@, told_plainly(f.flow_window_headroom_packets), 11);
    lemma_stands(names, cells, "receive_window_headroom_packets"@, told_plainly(f.receive_window_headroom_packets), 12);
    lemma_stands(names, cells, "recovery_margin_ms"@, told_plainly(f.recovery_margin_ms), 13);
    lemma_stands(names, cells, "socket_horizon_recv_s"@, told_plainly(f.socket_horizon_recv_s), 14);
    lemma_stands(names, cells, "socket_horizon_send_s"@, told_plainly(f.socket_horizon_send_s), 15);
    lemma_stands(names, cells, "host_utilization"@, told_plainly(f.host_utilization), 16);
    lemma_stands(names, cells, "nic_utilization"@, told_plainly(f.nic_utilization), 17);
    lemma_stands(names, cells, "admission_waves"@, decimal(row.admission_waves as nat), 18);
    lemma_stands(names, cells, "policy_rev"@, tsv_text(row.policy_revision@), 19);
}

/// Every figure of an assessed cell is the value of the member of its name.
pub proof fn objects_hold_their_figures(row: OutputRow)
    ensures
        ({
            let names = output_columns_text();
            let values = row_values(row);
            let f = row.figures;
            &&& values.len() == 20
            &&& stands_under(names, values, "cell"@, json_text(row.cell@, Escapes::Nothing))
            &&& stands_under(names, values, "class"@, "\""@ + row.class.text() + "\""@)
            &&& stands_under(names, values, "reasons"@, code_array(row.reasons@))
            &&& stands_under(names, values, "source_pps_total"@, f.source_pps_total@)
            &&& stands_under(names, values, "packet_pps"@, told_with_state(f.packet_pps))
            &&& stands_under(names, values, "srt_total_bps"@, told_with_state(f.srt_total_bps))
            &&& stands_under(names, values, "udp_ip_bps"@, told_with_state(f.udp_ip_bps))
            &&& stands_under(names, values, "nic_wire_bps"@, told_with_state(f.nic_wire_bps))
            &&& stands_under(names, values, "retransmission_factor"@, told_with_state(f.retransmission_factor))
            &&& stands_under(names, values, "bdp_packets"@, told_with_state(f.bdp_packets))
            &&& stands_under(names, values, "required_window_packets"@, told_with_state(f.required_window_packets))
            &&& stands_under(names, values, "flow_window_headroom_packets"@, told_with_state(f.flow_window_headroom_packets))
            &&& stands_under(names, values, "receive_window_headroom_packets"@, told_with_state(f.receive_window_headroom_packets))
            &&& stands_under(names, values, "recovery_margin_ms"@, told_with_state(f.recovery_margin_ms))
            &&& stands_under(names, values, "socket_horizon_recv_s"@, told_with_state(f.socket_horizon_recv_s))
            &&& stands_under(names, values, "socket_horizon_send_s"@, told_with_state(f.socket_horizon_send_s))
            &&& stands_under(names, values, "host_utilization"@, told_with_state(f.host_utilization))
            &&& stands_under(names, values, "nic_utilization"@, told_with_state(f.nic_utilization))
            &&& stands_under(names, values, "admission_waves"@, decimal(row.admission_waves as nat))
            &&& stands_under(
                names,
                values,
                "policy_rev"@,
                json_text(row.policy_revision@, Escapes::Nothing),
            )
        }),
{
    let names = output_columns_text();
    let values = row_values(row);
    let f = row.figures;
    lemma_stands(names, values, "cell"@, json_text(row.cell@, Escapes::Nothing), 0);
    lemma_stands(names, values, "class"@, "\""@ + row.class.text() + "\""@, 1);
    lemma_stands(names, values, "reasons"@, code_array(row.reasons@), 2);
    lemma_stands(names, values, "source_pps_total"@, f.source_pps_total@, 3);
    lemma_stands(names, values, "packet_pps"@, told_with_state(f.packet_pps), 4);
    lemma_stands(names, values, "srt_total_bps"@, told_with_state(f.srt_total_bps), 5);
    lemma_stands(names, values, "udp_ip_bps"@, told_with_state(f.udp_ip_bps), 6);
    lemma_stands(names, values, "nic_wire_bps"@, told_with_state(f.nic_wire_bps), 7);
    lemma_stands(names, values, "retransmission_factor"@, told_with_state(f.retransmission_factor), 8);
    lemma_stands(names, values, "bdp_packets"@, told_with_state(f.bdp_packets), 9);
    lemma_stands(names, values, "required_window_packets"@, told_with_state(f.required_window_packets), 10);
    lemma_stands(names, values, "flow_window_headroom_packets"@, told_with_state(f.flow_window_headroom_packets), 11);
    lemma_stands(names, values, "receive_window_headroom_packets"@, told_with_state(f.receive_window_headroom_packets), 12);
    lemma_stands(names, values, "recovery_margin_ms"@, told_with_state(f.recovery_margin_ms), 13);
    lemma_stands(names, values, "socket_horizon_recv_s"@, told_with_state(f.socket_horizon_recv_s), 14);
    lemma_stands(names, values, "socket_horizon_send_s"@, told_with_state(f.socket_horizon_send_s), 15);
    lemma_stands(names, values, "host_utilization"@, told_with_state(f.host_utilization), 16);
    lemma_stands(names, values, "nic_utilization"@, told_with_state(f.nic_utilization), 17);
    lemma_stands(names, values, "admission_waves"@, decimal(row.admission_waves as nat), 18);
    lemma_stands(
        names,
        values,
        "policy_rev"@,
        json_text(row.policy_revision@, Escapes::Nothing),
        19,
    );
}

/// The summary of an assessed cell says what it is, why, and how much it asks of rates,
/// windows, recovery, hosts and cards.
pub proof fn summaries_hold_their_figures(row: OutputRow)
    ensures
        ({
            let cells = table_cells(row);
            let f = row.figures;
            &&& cells.len() == 10
            &&& cells[0] == tsv_text(row.cell@)
            &&& cells[1] == row.class.text()
            &&& cells[2] == codes_text(row.reasons@)
            &&& cells[3] == f.source_pps_short@
            &&& cells[4] == told_plainly(f.packet_pps)
            &&& cells[5] == told_plainly(f.srt_total_bps)
            &&& cells[6] == told_plainly(f.bdp_packets)
            &&& cells[7] == told_plainly(f.recovery_margin_ms)
            &&& cells[8] == told_plainly(f.host_utilization)
            &&& cells[9] == told_plainly(f.nic_utilization)
        }),
{
}

/// Each member of an object is its name in quotes, a colon and its value.
pub proof fn members_are_named(names: Seq<Seq<char>>, values: Seq<Seq<char>>, n: int, k: int)
    requires
        0 <= k < n <= names.len(),
        n <= values.len(),
    ensures
        members(names, values, n).len() == n,
        members(names, values, n)[k] == "\""@ + names[k] + "\""@ + ":"@ + values[k],
    decreases n,
{
    if n > 1 {
        members_are_named(names, values, n - 1, if k < n - 1 {
            k
        } else {
            0
        });
    } else {
        assert(members(names, values, 0).len() == 0);
    }
}

// ---------------------------------------------------------------------------
// Validation
// ---------------------------------------------------------------------------

/// A prediction is held against what was seen: a candidate that was not clean and an
/// excess that was are mismatches, and everything else agrees. Nothing is said of a run
/// that lacks a row or whose figures cannot be computed.
pub proof fn predictions_are_held_against_runs(
    slot: RunSlot,
    records: Seq<Seq<(Seq<char>, Seq<char>)>>,
    reasons: Seq<Seq<char>>,
)
    ensures
        ({
            let v = validated(slot, records, reasons);
            let whole = slot.caller is Some && slot.listener is Some;
            let told = whole && measurable(
                records[slot.caller->0 as int],
                records[slot.listener->0 as int],
            );
            let clean = reasons.len() == 0;
            &&& v.cell == slot.key@
            &&& !whole ==> v.observed_clean == "incomplete"@ && v.agreement == "incomplete"@
            &&& whole && !told ==> v.observed_clean == "unknown"@ && v.agreement == "unknown"@
            &&& told && clean ==> v.observed_clean == "true"@
            &&& told && !clean ==> v.observed_clean == "false"@
            &&& told && v.predicted == "production-candidate"@ && !clean ==> v.agreement
                == "mismatch"@
            &&& told && v.predicted == "production-candidate"@ && clean ==> v.agreement
                == "agreement"@
            &&& told && v.predicted == "exceeds-envelope"@ && clean ==> v.agreement == "mismatch"@
            &&& told && v.predicted == "exceeds-envelope"@ && !clean ==> v.agreement
                == "agreement"@
            &&& told && v.predicted != "exceeds-envelope"@ && v.predicted
                != "production-candidate"@ ==> v.agreement == "agreement"@
        }),
{
    reveal_strlit("production-candidate");
    reveal_strlit("exceeds-envelope");
    assert("production-candidate"@.len() == 20 && "exceeds-envelope"@.len() == 16);
}

/// A prediction is read from the caller's row, and from the listener's where there is no
/// caller.
pub proof fn predictions_are_read_from_the_caller_first(
    slot: RunSlot,
    records: Seq<Seq<(Seq<char>, Seq<char>)>>,
    reasons: Seq<Seq<char>>,
    class: Seq<char>,
    why: Seq<char>,
)
    ensures
        ({
            let v = validated(slot, records, reasons);
            &&& slot.caller is Some && field_in(
                records[slot.caller->0 as int],
                "model_class_pre"@,
            ) == Some(class) ==> v.predicted == class
            &&& slot.caller is Some && field_in(
                records[slot.caller->0 as int],
                "model_reasons_pre"@,
            ) == Some(why) ==> v.predicted_reasons == why
            &&& slot.caller is None && slot.listener is Some && field_in(
                records[slot.listener->0 as int],
                "model_class_pre"@,
            ) == Some(class) ==> v.predicted == class
            &&& slot.caller is None && slot.listener is Some && field_in(
                records[slot.listener->0 as int],
                "model_reasons_pre"@,
            ) == Some(why) ==> v.predicted_reasons == why
        }),
{
}

/// The parts of a validation row in full, in the order of their names.
pub proof fn validation_names_have_their_places()
    ensures
        validation_names().len() == 6,
        validation_names()[0] == "cell"@,
        validation_names()[1] == "predicted_class"@,
        validation_names()[2] == "predicted_reasons"@,
        validation_names()[3] == "observed_clean"@,
        validation_names()[4] == "agreement"@,
        validation_names()[5] == "explanation"@,
{
}

/// The format is what was asked for, a table where nothing was, and JSON wherever that was
/// asked for by its own flag.
pub proof fn formats_are_what_was_asked_for(cli: CliText, v: Seq<char>)
    requires
        v.len() > 0,
    ensures
        cli.flag("json"@) is Some ==> format_asked(cli) == "json"@,
        cli.flag("json"@) is None && cli.flag("format"@) == Some(v) ==> format_asked(cli) == v,
        cli.flag("json"@) is None && cli.flag("format"@) is None ==> format_asked(cli) == "table"@,
{
}

// ---------------------------------------------------------------------------
// Host pressure
// ---------------------------------------------------------------------------

proof fn lemma_signal_words()
    ensures
        "cpu_psi"@.len() == 7,
        "cpu_stall"@.len() == 9,
        "mem_psi"@.len() == 7,
        "io_psi"@.len() == 6,
        "steal"@.len() == 5,
        "cpu_psi"@[0] == 'c',
        "mem_psi"@[0] == 'm',
{
    reveal_strlit("cpu_psi");
    reveal_strlit("cpu_stall");
    reveal_strlit("mem_psi");
    reveal_strlit("io_psi");
    reveal_strlit("steal");
}

proof fn lemma_flag(b: bool, name: Seq<char>, x: Seq<char>)
    ensures
        flag_if(b, name).contains(x) <==> b && x == name,
{
    if b {
        assert(flag_if(b, name)[0] == name);
    }
}

proof fn lemma_sum(a: Seq<Seq<char>>, b: Seq<Seq<char>>, x: Seq<char>)
    ensures
        (a + b).contains(x) <==> a.contains(x) || b.contains(x),
{
    if a.contains(x) {
        assert((a + b)[a.index_of(x)] == x);
    }
    if b.contains(x) {
        assert((a + b)[a.len() + b.index_of(x)] == x);
    }
}

proof fn lemma_signals(p: Pressure, x: Seq<char>)
    ensures
        signal_names(p).contains(x) <==> (p.cpu_psi && x == "cpu_psi"@) || (p.cpu_stall && x
            == "cpu_stall"@) || (p.mem_psi && x == "mem_psi"@) || (p.io_psi && x == "io_psi"@) || (
        p.steal && x == "steal"@),
{
    let a = flag_if(p.cpu_psi, "cpu_psi"@);
    let b = flag_if(p.cpu_stall, "cpu_stall"@);
    let c = flag_if(p.mem_psi, "mem_psi"@);
    let d = flag_if(p.io_psi, "io_psi"@);
    let e = flag_if(p.steal, "steal"@);
    lemma_flag(p.cpu_psi, "cpu_psi"@, x);
    lemma_flag(p.cpu_stall, "cpu_stall"@, x);
    lemma_flag(p.mem_psi, "mem_psi"@, x);
    lemma_flag(p.io_psi, "io_psi"@, x);
    lemma_flag(p.steal, "steal"@, x);
    lemma_sum(a, b, x);
    lemma_sum(a + b, c, x);
    lemma_sum(a + b + c, d, x);
    lemma_sum(a + b + c + d, e, x);
}

/// A signal is named exactly where it is over its threshold.
pub proof fn signals_are_named_where_seen(p: Pressure)
    ensures
        signal_names(p).contains("cpu_psi"@) <==> p.cpu_psi,
        signal_names(p).contains("cpu_stall"@) <==> p.cpu_stall,
        signal_names(p).contains("mem_psi"@) <==> p.mem_psi,
        signal_names(p).contains("io_psi"@) <==> p.io_psi,
        signal_names(p).contains("steal"@) <==> p.steal,
{
    lemma_signal_words();
    lemma_signals(p, "cpu_psi"@);
    lemma_signals(p, "cpu_stall"@);
    lemma_signals(p, "mem_psi"@);
    lemma_signals(p, "io_psi"@);
    lemma_signals(p, "steal"@);
}

/// A host is contended where a signal was seen, quiet where none was, and neither where it
/// cannot be read or the operator opted out.
pub proof fn verdicts_mean_what_they_say(mode: HostContentionMode, readable: bool, p: Pressure)
    ensures
        ({
            let status = verdict(mode, readable, p).0;
            let asked = mode != HostContentionMode::Allow;
            let seen = p.cpu_psi || p.cpu_stall || p.mem_psi || p.io_psi || p.steal;
            &&& status == HostContentionStatus::Allowed <==> !asked
            &&& status == HostContentionStatus::Unknown <==> asked && !readable
            &&& status == HostContentionStatus::Contended <==> asked && readable && seen
            &&& status == HostContentionStatus::Quiet <==> asked && readable && !seen
            &&& status == HostContentionStatus::Contended ==> verdict(mode, readable, p).1
                == signal_names(p)
        }),
{
    signals_are_named_where_seen(p);
    if signal_names(p).len() > 0 {
        lemma_signals(p, signal_names(p)[0]);
        assert(signal_names(p).contains(signal_names(p)[0]));
    }
}

/// Statuses and modes are told by their names.
pub proof fn verdicts_have_their_names()
    ensures
        HostContentionStatus::Quiet.text() == "quiet"@,
        HostContentionStatus::Contended.text() == "contended"@,
        HostContentionStatus::Unknown.text() == "unknown"@,
        HostContentionStatus::Allowed.text() == "allowed"@,
        HostContentionMode::Refuse.text() == "refuse"@,
        HostContentionMode::Mark.text() == "mark"@,
        HostContentionMode::Allow.text() == "allow"@,
{
}

/// Only a run that may be refused waits as long as configured; one that is only marked
/// waits two seconds at most, and one that is allowed not at all.
pub proof fn waiting_depends_on_the_mode(configured: u64)
    ensures
        timeout_for(HostContentionMode::Refuse, configured) == configured,
        timeout_for(HostContentionMode::Mark, configured) <= 2,
        timeout_for(HostContentionMode::Mark, configured) <= configured,
        configured >= 2 ==> timeout_for(HostContentionMode::Mark, configured) == 2,
        configured < 2 ==> timeout_for(HostContentionMode::Mark, configured) == configured,
        timeout_for(HostContentionMode::Allow, configured) == 0,
{
}

/// Without a word on it contention is marked, and an operator opts out by a bare flag.
pub proof fn contention_is_marked_by_default(cli: CliText)
    ensures
        cli.flag("host-contention"@) is None && cli.flag("allow-host-contention"@) is None
            ==> mode_of_cli(cli) == Ok::<HostContentionMode, Seq<char>>(HostContentionMode::Mark),
        cli.flag("host-contention"@) is None && cli.flag("allow-host-contention"@) is Some
            && cli.flag("allow-host-contention"@)->0.len() == 0 ==> mode_of_cli(cli) == Ok::<
            HostContentionMode,
            Seq<char>,
        >(HostContentionMode::Allow),
        cli.flag("host-contention"@) is None && cli.flag("allow-host-contention"@) == Some("off"@)
            ==> mode_of_cli(cli) == Ok::<HostContentionMode, Seq<char>>(HostContentionMode::Mark),
        cli.flag("host-contention"@) is None && cli.flag("allow-host-contention"@) == Some("on"@)
            ==> mode_of_cli(cli) == Ok::<HostContentionMode, Seq<char>>(HostContentionMode::Allow),
{
    reveal_strlit("on");
    reveal_strlit("off");
    reveal_strlit("1");
    reveal_strlit("true");
    reveal_strlit("yes");
    assert("on"@.len() == 2 && "off"@.len() == 3 && "1"@.len() == 1 && "true"@.len() == 4);
    assert("yes"@.len() == 3 && "yes"@[0] == 'y' && "off"@[0] == 'o');
}

/// A child process is handed the mode and each threshold under its own flag.
pub proof fn policies_are_handed_on(p: PolicyRendering)
    ensures
        ({
            let flags = policy_flags(p);
            &&& flags.contains("--host-contention="@ + p.mode.text())
            &&& flags.contains("--host-cpu-psi-avg10="@ + p.cpu_psi_avg10_pct@)
            &&& flags.contains("--host-mem-psi-avg10="@ + p.mem_psi_avg10_pct@)
            &&& flags.contains("--host-io-psi-avg10="@ + p.io_psi_avg10_pct@)
            &&& flags.contains("--host-cpu-stall-pct="@ + p.cpu_stall_pct@)
            &&& flags.contains("--host-steal-pct="@ + p.steal_pct@)
            &&& flags.contains(
                "--host-contention-timeout-secs="@ + decimal(p.admission_timeout_secs as nat),
            )
            &&& flags.contains("--host-contention-poll-ms="@ + decimal(p.admission_poll_ms as nat))
        }),
{
    let flags = policy_flags(p);
    assert(flags[0] == "--host-contention="@ + p.mode.text());
    assert(flags[1] == "--host-cpu-psi-avg10="@ + p.cpu_psi_avg10_pct@);
    assert(flags[2] == "--host-mem-psi-avg10="@ + p.mem_psi_avg10_pct@);
    assert(flags[3] == "--host-io-psi-avg10="@ + p.io_psi_avg10_pct@);
    assert(flags[4] == "--host-cpu-stall-pct="@ + p.cpu_stall_pct@);
    assert(flags[5] == "--host-steal-pct="@ + p.steal_pct@);
    assert(flags[6] == "--host-contention-timeout-secs="@ + decimal(
        p.admission_timeout_secs as nat,
    ));
    assert(flags[7] == "--host-contention-poll-ms="@ + decimal(p.admission_poll_ms as nat));
}

/// A line of a pressure document speaks of what some or of what all tasks waited for, and
/// leaves what the other says; any other line says nothing.
pub proof fn lines_speak_of_some_or_all(acc: PsiText, line: Seq<char>, rest: Seq<char>)
    ensures
        split_once_text(line, ' ') == Some(("some"@, rest)) ==> psi_line(acc, line).full_avg10
            == acc.full_avg10 && psi_line(acc, line).full_total_us == acc.full_total_us && psi_line(
            acc,
            line,
        ).available,
        split_once_text(line, ' ') == Some(("full"@, rest)) ==> psi_line(acc, line).some_avg10
            == acc.some_avg10 && psi_line(acc, line).some_total_us == acc.some_total_us && psi_line(
            acc,
            line,
        ).available,
        split_once_text(line, ' ') is None ==> psi_line(acc, line) == acc,
{
    reveal_strlit("some");
    reveal_strlit("full");
    assert("some"@[0] == 's' && "full"@[0] == 'f');
}

/// Between two readings a counter gained what lies between them, and nothing where it went
/// back.
pub proof fn counters_gain_what_lies_between(a: u64, b: u64)
    ensures
        a <= b ==> a + gained(a, b) == b,
        b <= a ==> gained(a, b) == 0,
{
}

/// The share of a run that tasks were stalled is counted from what some of them waited for
/// the processors, over the time that passed.
pub proof fn stalls_are_counted_over_the_run(
    pre: HostContentionSnapshot,
    post: HostContentionSnapshot,
    elapsed_us: u64,
)
    ensures
        stall_between(pre, post, elapsed_us) is Some <==> pre.cpu.available && post.cpu.available
            && elapsed_us != 0,
        stall_between(pre, post, elapsed_us) is Some && pre.cpu.some_total_us
            <= post.cpu.some_total_us ==> stall_between(pre, post, elapsed_us)->0.part
            + pre.cpu.some_total_us == post.cpu.some_total_us,
        stall_between(pre, post, elapsed_us) is Some ==> stall_between(
            pre,
            post,
            elapsed_us,
        )->0.whole == elapsed_us,
{
}

/// The share that was stolen is counted over all jiffies of the same run, and is none where
/// none passed.
pub proof fn stolen_time_is_counted_over_all_time(
    pre: HostContentionSnapshot,
    post: HostContentionSnapshot,
)
    ensures
        steal_between(pre, post) is Some <==> pre.steal_available && post.steal_available,
        steal_between(pre, post) is Some ==> steal_between(pre, post)->0.whole > 0,
        steal_between(pre, post) is Some && pre.cpu_jiffies < post.cpu_jiffies
            && pre.steal_jiffies <= post.steal_jiffies ==> {
            let s = steal_between(pre, post)->0;
            &&& pre.steal_jiffies + s.part == post.steal_jiffies
            &&& pre.cpu_jiffies + s.whole == post.cpu_jiffies
        },
        steal_between(pre, post) is Some && pre.cpu_jiffies >= post.cpu_jiffies ==> steal_between(
            pre,
            post,
        )->0.part == 0,
{
}

/// A host can be read where any of its figures can, before or after a run.
pub proof fn hosts_are_readable_by_any_figure(
    pre: HostContentionSnapshot,
    post: HostContentionSnapshot,
)
    ensures
        pre.cpu.available || pre.memory.available || pre.io.available || pre.steal_available
            ==> readable_between(pre, post),
        post.cpu.available || post.memory.available || post.io.available || post.steal_available
            ==> readable_between(pre, post),
        readable_between(pre, pre) ==> pre.cpu.available || pre.memory.available || pre.io.available
            || pre.steal_available,
{
}

} // verus!
