//! Which flag or axis each input of the capacity model is read from.
use crate::capacity_args::{
    HostText, ProtocolArgs, WorkloadArgs, available_integer, available_number, duration_digits,
    encryption_spelled, fan_in, host_given, integer_flag, policy_error, policy_given,
    probability_digits, protocol_given, socket_bytes, streams_of, value_named, workload_given,
};
use crate::cli::CliText;
use crate::config::scaled;
use crate::model::{Availability, BondMode, EncryptionMode, SrtBandwidthPolicy};
use crate::text::{decimal, decimal_round_trips, is_digit, is_float_text, unsigned_of};
use vstd::prelude::*;

verus! {

/// A cell says `v` of a name itself, or says nothing of it and the command line does.
pub open spec fn said(
    cli: CliText,
    cell: Map<Seq<char>, Seq<char>>,
    name: Seq<char>,
    v: Seq<char>,
) -> bool {
    ||| cell.contains_key(name) && cell[name] == v
    ||| unsaid(cell, name) && cli.flags.contains_key(name) && cli.flags[name] == v
}

/// A cell says nothing of a name, for either role or both.
pub open spec fn unsaid(cell: Map<Seq<char>, Seq<char>>, name: Seq<char>) -> bool {
    !cell.contains_key(name) && !cell.contains_key("send-"@ + name) && !cell.contains_key(
        "recv-"@ + name,
    )
}

/// Neither a cell nor the command line says anything of a name.
pub open spec fn silent(cli: CliText, cell: Map<Seq<char>, Seq<char>>, name: Seq<char>) -> bool {
    unsaid(cell, name) && !cli.flags.contains_key(name)
}

/// A name has the value that was said of it, and none where nothing was.
pub proof fn names_have_the_values_said_of_them(
    cli: CliText,
    cell: Map<Seq<char>, Seq<char>>,
    name: Seq<char>,
    v: Seq<char>,
)
    ensures
        said(cli, cell, name, v) ==> value_named(cli, cell, name) == Some(v),
        silent(cli, cell, name) ==> value_named(cli, cell, name) is None,
{
}

/// Each threshold of a policy is the flag's of its name, and one that is not given is
/// left open.
pub proof fn thresholds_are_those_of_their_flags(cli: CliText, v: Seq<char>, n: u64)
    requires
        policy_error(cli) is None,
    ensures
        ({
            let p = policy_given(cli);
            &&& cli.flag("policy-rev"@) == Some(v) ==> p.revision == v
            &&& cli.flag("min-window-headroom"@) == Some(v) ==> p.minimum_window_headroom_packets
                == Some(v)
            &&& cli.flag("min-recovery-margin-ms"@) == Some(v) ==> p.minimum_recovery_margin_ms
                == Some(v)
            &&& cli.flag("min-socket-horizon-s"@) == Some(v) ==> p.minimum_socket_horizon_seconds
                == Some(v)
            &&& cli.flag("max-host-utilization"@) == Some(v) ==> p.max_host_pps_utilization == Some(
                v,
            )
            &&& cli.flag("max-nic-utilization"@) == Some(v) ==> p.max_nic_utilization == Some(v)
            &&& cli.flag("max-control-pps"@) == Some(v) ==> p.max_control_pps == Some(v)
            &&& cli.flag("max-admission-waves"@) == Some(decimal(n as nat))
                ==> p.max_admission_waves == Some(n)
            &&& cli.flag("min-window-headroom"@) is None ==> p.minimum_window_headroom_packets
                is None
            &&& cli.flag("min-recovery-margin-ms"@) is None ==> p.minimum_recovery_margin_ms is None
            &&& cli.flag("min-socket-horizon-s"@) is None ==> p.minimum_socket_horizon_seconds
                is None
            &&& cli.flag("max-host-utilization"@) is None ==> p.max_host_pps_utilization is None
            &&& cli.flag("max-nic-utilization"@) is None ==> p.max_nic_utilization is None
            &&& cli.flag("max-control-pps"@) is None ==> p.max_control_pps is None
            &&& cli.flag("max-admission-waves"@) is None ==> p.max_admission_waves is None
        }),
{
    decimal_round_trips(n as nat);
}

/// A policy is refused exactly where one of its thresholds is not a number.
pub proof fn policies_are_made_of_numbers(cli: CliText)
    ensures
        policy_error(cli) is None <==> {
            let fine = |name: Seq<char>| cli.flag(name) is None || is_float_text(cli.flag(name)->0);
            &&& fine("min-window-headroom"@)
            &&& fine("min-recovery-margin-ms"@)
            &&& fine("min-socket-horizon-s"@)
            &&& fine("max-host-utilization"@)
            &&& fine("max-nic-utilization"@)
            &&& fine("max-control-pps"@)
            &&& integer_flag(cli, "max-admission-waves"@) is Ok
        },
{
}

/// A workload has the rate, the connections, the streams, the payload and the duration
/// that were said of it; unsaid it is one stream of eight megabits in live payloads.
pub proof fn workloads_are_what_was_said(
    cli: CliText,
    cell: Map<Seq<char>, Seq<char>>,
    n: u64,
    v: Seq<char>,
    w: WorkloadArgs,
    duration: Option<Seq<char>>,
)
    requires
        workload_given(cli, cell) == Ok::<(WorkloadArgs, Option<Seq<char>>), Seq<char>>(
            (w, duration),
        ),
    ensures
        said(cli, cell, "source-bps"@, decimal(n as nat)) ==> w.source_bps_per_stream == n,
        silent(cli, cell, "source-bps"@) && said(
            cli,
            cell,
            "source-bitrate-bps"@,
            decimal(n as nat),
        ) ==> w.source_bps_per_stream == n,
        silent(cli, cell, "source-bps"@) && silent(cli, cell, "source-bitrate-bps"@) && said(
            cli,
            cell,
            "bitrate"@,
            decimal(n as nat),
        ) ==> w.source_bps_per_stream == n,
        silent(cli, cell, "source-bps"@) && silent(cli, cell, "source-bitrate-bps"@) && silent(
            cli,
            cell,
            "bitrate"@,
        ) ==> w.source_bps_per_stream == 8_000_000,
        said(cli, cell, "connections"@, decimal(n as nat)) ==> w.physical_connections == n,
        silent(cli, cell, "connections"@) ==> w.physical_connections == 1,
        said(cli, cell, "logical-streams"@, decimal(n as nat)) ==> w.logical_streams == n,
        silent(cli, cell, "logical-streams"@) && (silent(cli, cell, "bond"@) || said(
            cli,
            cell,
            "bond"@,
            "none"@,
        )) ==> w.logical_streams == w.physical_connections,
        said(cli, cell, "source-streams"@, decimal(n as nat)) ==> w.source_streams == n,
        silent(cli, cell, "source-streams"@) ==> w.source_streams == w.logical_streams,
        said(cli, cell, "payload-bytes"@, decimal(n as nat)) ==> w.payload_bytes == n,
        silent(cli, cell, "payload-bytes"@) ==> w.payload_bytes == 1316,
        silent(cli, cell, "bond"@) || said(cli, cell, "bond"@, "none"@) ==> w.bond
            == BondMode::Unbonded,
        said(cli, cell, "duration-secs"@, v) ==> duration == Some(v),
        silent(cli, cell, "duration-secs"@) && said(cli, cell, "secs"@, v) ==> duration == Some(v),
        silent(cli, cell, "duration-secs"@) && silent(cli, cell, "secs"@) ==> duration is None,
{
    decimal_round_trips(n as nat);
    reveal_strlit("none");
    reveal_strlit("broadcast");
    reveal_strlit("backup");
    crate::text::lemma_first_index("none"@ + seq![':'], ':', 4);
    assert(crate::text::first_index("none"@, ':') == 4) by {
        reveal_with_fuel(crate::text::first_index, 5);
    }
    assert(crate::text::first_index("none"@, '=') == 4) by {
        reveal_with_fuel(crate::text::first_index, 5);
    }
}

/// Pairs of connections become one stream each, and no connection is in two pairs.
pub proof fn streams_and_pairs_add_up(connections: u64, pairs: u64)
    ensures
        streams_of(connections, 0) == connections,
        2 * pairs <= connections ==> streams_of(connections, pairs) + pairs == connections,
        2 * pairs > connections ==> 2 * streams_of(connections, pairs) == connections + connections
            % 2,
{
}

/// The protocol has the windows, the latency, the pacing and the encryption that were
/// said of it.
pub proof fn protocols_are_what_was_said(
    cli: CliText,
    cell: Map<Seq<char>, Seq<char>>,
    bond: BondMode,
    n: u32,
    p: ProtocolArgs,
)
    requires
        protocol_given(cli, cell, bond) == Ok::<ProtocolArgs, Seq<char>>(p),
    ensures
        p.bond == bond,
        said(cli, cell, "flow-window"@, decimal(n as nat)) ==> p.flow_window_packets == n,
        silent(cli, cell, "flow-window"@) && said(
            cli,
            cell,
            "flow-window-packets"@,
            decimal(n as nat),
        ) ==> p.flow_window_packets == n,
        silent(cli, cell, "flow-window"@) && silent(cli, cell, "flow-window-packets"@)
            ==> p.flow_window_packets == 8192,
        said(cli, cell, "receive-window"@, decimal(n as nat)) ==> p.receive_window_packets == n,
        silent(cli, cell, "receive-window"@) && said(
            cli,
            cell,
            "receive-window-packets"@,
            decimal(n as nat),
        ) ==> p.receive_window_packets == n,
        silent(cli, cell, "receive-window"@) && silent(cli, cell, "receive-window-packets"@)
            ==> p.receive_window_packets == 8192,
        said(cli, cell, "tsbpd-latency-ms"@, decimal(n as nat)) ==> p.tsbpd_latency_ms == n,
        silent(cli, cell, "tsbpd-latency-ms"@) && said(cli, cell, "latency-ms"@, decimal(n as nat))
            ==> p.tsbpd_latency_ms == n,
        silent(cli, cell, "tsbpd-latency-ms"@) && silent(cli, cell, "latency-ms"@)
            ==> p.tsbpd_latency_ms == 120,
        said(cli, cell, "encryption"@, "plain"@) || silent(cli, cell, "encryption"@)
            ==> p.encryption == EncryptionMode::Plain,
        said(cli, cell, "encryption"@, "128"@) ==> p.encryption == EncryptionMode::Aes128,
        said(cli, cell, "encryption"@, "192"@) ==> p.encryption == EncryptionMode::Aes192,
        said(cli, cell, "encryption"@, "256"@) ==> p.encryption == EncryptionMode::Aes256,
        silent(cli, cell, "srt-bandwidth"@) || said(
            cli,
            cell,
            "srt-bandwidth"@,
            "legacy-source-fixed"@,
        ) ==> p.bandwidth == SrtBandwidthPolicy::LegacySourceFixed,
        said(cli, cell, "srt-bandwidth"@, "protocol-default"@) ==> p.bandwidth
            == SrtBandwidthPolicy::ProtocolDefault,
        said(cli, cell, "srt-bandwidth"@, "fixed:"@ + decimal(n as nat)) ==> p.bandwidth
            == SrtBandwidthPolicy::FixedBps(n as u64),
        5 <= n <= 100 && said(cli, cell, "srt-bandwidth"@, "input-relative:"@ + decimal(n as nat))
            ==> p.bandwidth == (SrtBandwidthPolicy::InputRelative { overhead_percent: n as u8 }),
{
    decimal_round_trips(n as nat);
    lemma_ciphers();
    crate::row::bandwidth_names_round_trip(crate::cli::BandwidthPolicy::Fixed(n as u64));
    crate::row::bandwidth_names_round_trip(crate::cli::BandwidthPolicy::ProtocolDefault);
    crate::row::bandwidth_names_round_trip(crate::cli::BandwidthPolicy::LegacySourceFixed);
    if 5 <= n <= 100 {
        crate::row::bandwidth_names_round_trip(
            crate::cli::BandwidthPolicy::InputRelative { overhead_percent: n as u8 },
        );
    }
}

proof fn lemma_ciphers()
    ensures
        encryption_spelled("plain"@) == Ok::<EncryptionMode, Seq<char>>(EncryptionMode::Plain),
        encryption_spelled("128"@) == Ok::<EncryptionMode, Seq<char>>(EncryptionMode::Aes128),
        encryption_spelled("192"@) == Ok::<EncryptionMode, Seq<char>>(EncryptionMode::Aes192),
        encryption_spelled("256"@) == Ok::<EncryptionMode, Seq<char>>(EncryptionMode::Aes256),
{
    reveal_strlit("plain");
    reveal_strlit("128");
    reveal_strlit("192");
    reveal_strlit("256");
    assert("plain"@.len() == 5 && "128"@.len() == 3 && "192"@.len() == 3 && "256"@.len() == 3);
    assert("128"@[1] == '2' && "192"@[1] == '9' && "256"@[1] == '5');
}

/// A quantity that may be unknown is known only where it is a number.
pub proof fn quantities_are_known_where_given(n: u64, v: Seq<char>)
    ensures
        available_integer(None) == Ok::<Availability<u64>, Seq<char>>(Availability::Unknown),
        available_integer(Some("unknown"@)) == Ok::<Availability<u64>, Seq<char>>(
            Availability::Unknown,
        ),
        available_integer(Some("n/a"@)) == Ok::<Availability<u64>, Seq<char>>(
            Availability::NotApplicable,
        ),
        available_integer(Some(decimal(n as nat))) == Ok::<Availability<u64>, Seq<char>>(
            Availability::Known(n),
        ),
        available_number(None) == Ok::<Availability<Seq<char>>, Seq<char>>(Availability::Unknown),
        available_number(Some("unknown"@)) == Ok::<Availability<Seq<char>>, Seq<char>>(
            Availability::Unknown,
        ),
        available_number(Some("n/a"@)) == Ok::<Availability<Seq<char>>, Seq<char>>(
            Availability::NotApplicable,
        ),
        is_float_text(v) && v.len() > 0 && is_digit(v[0]) ==> available_number(Some(v)) == Ok::<
            Availability<Seq<char>>,
            Seq<char>,
        >(Availability::Known(v)),
        available_number(Some(v)) is Ok && available_number(Some(v))->Ok_0 is Known
            ==> is_float_text(v) && available_number(Some(v))->Ok_0->Known_0 == v,
{
    decimal_round_trips(n as nat);
    reveal_strlit("unknown");
    reveal_strlit("n/a");
    reveal_strlit("na");
    reveal_strlit("not-applicable");
    assert("unknown"@[0] == 'u' && "n/a"@[0] == 'n' && "na"@[0] == 'n');
    assert("not-applicable"@[0] == 'n');
    assert(is_digit(decimal(n as nat)[0]));
}

/// A duration may carry its unit, and a probability may be a percentage.
pub proof fn units_are_taken_off(v: Seq<char>)
    requires
        is_float_text(v),
    ensures
        duration_digits(v + "ms"@) == Some(v),
        probability_digits(v + "%"@) == Some((v, true)),
        v.len() > 0 && v.last() != '%' ==> probability_digits(v) == Some((v, false)),
        v.len() > 0 && v.last() != 's' ==> duration_digits(v) == Some(v),
{
    reveal_strlit("ms");
    reveal_strlit("%");
    let a = v + "ms"@;
    let b = v + "%"@;
    assert(a.subrange(a.len() - 2, a.len() as int) =~= "ms"@);
    assert(a.subrange(0, a.len() - 2) =~= v);
    assert(b.subrange(b.len() - 1, b.len() as int) =~= "%"@);
    assert(b.subrange(0, b.len() - 1) =~= v);
    if v.len() > 0 {
        assert(v.subrange(v.len() - 1, v.len() as int)[0] == v.last());
        assert("%"@[0] == '%' && "ms"@[1] == 's');
        if v.len() >= 2 {
            assert(v.subrange(v.len() - 2, v.len() as int)[1] == v.last());
        }
    }
}

/// A host has the buffers, the capacities, the processors and the workers that were said
/// of it; nothing measured is known where nothing was said.
pub proof fn hosts_are_what_was_said(
    cli: CliText,
    cell: Map<Seq<char>, Seq<char>>,
    connections: u64,
    n: u64,
    v: Seq<char>,
    h: HostText,
)
    requires
        host_given(cli, cell, connections) == Ok::<HostText, Seq<char>>(h),
    ensures
        said(cli, cell, "socket-fan-in"@, decimal(n as nat)) ==> h.socket_fan_in == n,
        said(cli, cell, "effective-receive-buffer"@, decimal(n as nat))
            ==> h.effective_receive_socket_buffer_bytes == Availability::Known(n),
        silent(cli, cell, "effective-receive-buffer"@) && said(
            cli,
            cell,
            "effective-rx-buffer"@,
            decimal(n as nat),
        ) ==> h.effective_receive_socket_buffer_bytes == Availability::Known(n),
        silent(cli, cell, "effective-receive-buffer"@) && silent(cli, cell, "effective-rx-buffer"@)
            ==> h.effective_receive_socket_buffer_bytes is Unknown,
        said(cli, cell, "effective-send-buffer"@, decimal(n as nat))
            ==> h.effective_send_socket_buffer_bytes == Availability::Known(n),
        silent(cli, cell, "effective-send-buffer"@) && said(
            cli,
            cell,
            "effective-tx-buffer"@,
            decimal(n as nat),
        ) ==> h.effective_send_socket_buffer_bytes == Availability::Known(n),
        silent(cli, cell, "effective-send-buffer"@) && silent(cli, cell, "effective-tx-buffer"@)
            ==> h.effective_send_socket_buffer_bytes is Unknown,
        said(cli, cell, "nic"@, "loopback"@) ==> h.nic_capacity_bps is NotApplicable,
        silent(cli, cell, "nic"@) && said(cli, cell, "nic-capacity-bps"@, decimal(n as nat))
            ==> h.nic_capacity_bps == Availability::Known(n),
        silent(cli, cell, "nic"@) && silent(cli, cell, "nic-capacity-bps"@) && said(
            cli,
            cell,
            "nic-bps-capacity"@,
            decimal(n as nat),
        ) ==> h.nic_capacity_bps == Availability::Known(n),
        silent(cli, cell, "nic"@) && silent(cli, cell, "nic-capacity-bps"@) && silent(
            cli,
            cell,
            "nic-bps-capacity"@,
        ) ==> h.nic_capacity_bps is Unknown,
        v.len() > 0 && is_digit(v[0]) && said(cli, cell, "host-pps-capacity"@, v)
            ==> h.host_pps_capacity == Availability::Known(v),
        v.len() > 0 && is_digit(v[0]) && silent(cli, cell, "host-pps-capacity"@) && said(
            cli,
            cell,
            "host-pps"@,
            v,
        ) ==> h.host_pps_capacity == Availability::Known(v),
        silent(cli, cell, "host-pps-capacity"@) && silent(cli, cell, "host-pps"@)
            ==> h.host_pps_capacity is Unknown,
        said(cli, cell, "workers"@, decimal(n as nat)) ==> h.workers == n,
        silent(cli, cell, "workers"@) ==> h.workers == 1,
        said(cli, cell, "cpus"@, v) ==> h.cpu_allocation == v,
        silent(cli, cell, "sock-buf"@) && silent(cli, cell, "socket-buffer-bytes"@)
            ==> h.requested_socket_buffer_bytes == 0,
        n > 0 && said(cli, cell, "sock-buf"@, decimal(n as nat)) ==> h.requested_socket_buffer_bytes
            == n,
        n < 0x1_0000_0000 && said(cli, cell, "sock-buf"@, decimal(n as nat).push('k'))
            ==> h.requested_socket_buffer_bytes == n * 1024,
        n < 0x1_0000_0000 && said(cli, cell, "sock-buf"@, decimal(n as nat).push('m'))
            ==> h.requested_socket_buffer_bytes == n * 1048576,
{
    let d = decimal(n as nat);
    decimal_round_trips(n as nat);
    quantities_are_known_where_given(n, v);
    reveal_strlit("unknown");
    reveal_strlit("n/a");
    reveal_strlit("na");
    reveal_strlit("not-applicable");
    reveal_strlit("default");
    reveal_strlit("0");
    assert("unknown"@[0] == 'u' && "n/a"@[0] == 'n' && "na"@[0] == 'n');
    assert("not-applicable"@[0] == 'n' && "default"@[0] == 'd');
    assert(d.push('k').drop_last() =~= d && d.push('m').drop_last() =~= d);
    assert(is_digit(d.last()) && is_digit(d[0]));
    assert(d.push('k')[0] == d[0] && d.push('m')[0] == d[0]);
    assert(d.push('k').last() == 'k' && d.push('m').last() == 'm' && "0"@.last() == '0');
    if d == "0"@ {
        decimal_round_trips(0);
        assert("0"@ =~= decimal(0));
    }
    if n > 0 {
        assert(d != "default"@ && d != "0"@);
        assert(scaled(d) == (d, 1int));
        assert(unsigned_of(d, u64::MAX as int) == Some(n as nat));
        assert((n as nat) * 1int == n);
        assert(socket_bytes(Some(d), 0) == Ok::<u64, Seq<char>>(n));
    }
}

/// As many connections share a socket as it takes to fit all of them, and no more.
pub proof fn sockets_are_shared_evenly(connections: u64, sockets: nat)
    requires
        sockets > 0,
        connections > 0,
    ensures
        fan_in(connections, sockets) * sockets >= connections,
        (fan_in(connections, sockets) - 1) * sockets < connections,
        sockets == connections ==> fan_in(connections, sockets) == 1,
        sockets == 1 ==> fan_in(connections, sockets) == connections,
{
    let c = connections as int;
    let s = sockets as int;
    let up = (c + s - 1) / s;
    assert(up >= 1 && up * s >= c && (up - 1) * s < c) by (nonlinear_arith)
        requires
            up == (c + s - 1) / s,
            c > 0,
            s > 0,
    ;
    assert((s == c ==> up == 1) && (s == 1 ==> up == c)) by (nonlinear_arith)
        requires
            up * s >= c,
            (up - 1) * s < c,
            c > 0,
            s > 0,
    ;
}

} // verus!
