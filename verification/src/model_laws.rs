//! Which inputs can be assessed, and what is derived of them without a fraction.
use crate::capacity_args::encryption_spelled;
use crate::model::{
    Availability, BondMode, CapacityInput, CellClass, CipherMode, Comparisons, ControlPpsConfidence,
    DerivedLoad, EncryptionMode, Knowledge, RangeChecks, SrtBandwidthPolicy, availability_text,
    encoded_size, input_error, waves,
};
use vstd::prelude::*;

verus! {

/// An input can be assessed exactly where its workload is positive and has a connection
/// for every stream, its protocol can run, its endpoints share and serve at least one
/// socket each, and what is known of rates and probabilities is in range.
pub proof fn inputs_can_be_assessed_where_they_make_sense(i: CapacityInput, c: RangeChecks)
    ensures
        input_error(i, c) is None <==> {
            &&& i.workload.source_bps_per_stream > 0
            &&& i.workload.source_streams > 0
            &&& i.workload.physical_connections >= i.workload.logical_streams
            &&& i.workload.logical_streams > 0
            &&& i.workload.payload_bytes > 0
            &&& i.workload.duration_us > 0
            &&& !(i.protocol.encryption == EncryptionMode::Aes192 && i.protocol.cipher_mode
                == CipherMode::Gcm)
            &&& i.admission.connect_cc > 0
            &&& i.sender.rx_socket_fan_in > 0
            &&& i.sender.tx_socket_fan_in > 0
            &&& i.sender.workers > 0
            &&& i.receiver.rx_socket_fan_in > 0
            &&& i.receiver.tx_socket_fan_in > 0
            &&& i.receiver.workers > 0
            &&& match i.protocol.bandwidth {
                SrtBandwidthPolicy::FixedBps(bps) => bps > 0,
                SrtBandwidthPolicy::InputRelative { overhead_percent } => 5 <= overhead_percent
                    <= 100,
                _ => true,
            }
            &&& i.network.expected_loss_probability == Knowledge::Known ==> c.loss_in_range
            &&& i.network.expected_reorder_probability == Knowledge::Known ==> c.reorder_in_range
            &&& i.sender.host_pps_capacity == Knowledge::Known ==> c.sender_host_positive
            &&& i.receiver.host_pps_capacity == Knowledge::Known ==> c.receiver_host_positive
            &&& i.sender.nic_capacity_bps != Availability::Known(0u64)
            &&& i.receiver.nic_capacity_bps != Availability::Known(0u64)
            &&& c.policy_valid
        },
{
}

/// Only authenticated encryption makes packets longer, and headers do by what they are.
pub proof fn packets_grow_by_headers_and_tags(
    payload: u64,
    headers: u64,
    mode: EncryptionMode,
    cipher: CipherMode,
)
    ensures
        encoded_size(payload, EncryptionMode::Plain, cipher, headers) == headers + 16 + payload,
        encoded_size(payload, mode, CipherMode::Ctr, headers) == headers + 16 + payload,
        mode != EncryptionMode::Plain ==> encoded_size(payload, mode, CipherMode::Gcm, headers)
            == headers + 32 + payload,
{
}

/// Windows are run within their bounds, and a receiver's never exceeds the flow window;
/// what was asked for is kept beside them, and a request within the bounds is what runs.
pub proof fn windows_run_within_bounds(d: DerivedLoad, i: CapacityInput, c: Comparisons)
    requires
        d.follows(i, c),
    ensures
        d.configured_flow_window_packets == i.protocol.flow_window_packets,
        d.configured_receive_window_packets == i.protocol.receive_window_packets,
        32 <= d.effective_flow_window_packets <= 65536,
        32 <= d.effective_receive_window_packets <= d.effective_flow_window_packets,
        32 <= i.protocol.flow_window_packets <= 65536 ==> d.effective_flow_window_packets
            == i.protocol.flow_window_packets,
        32 <= i.protocol.receive_window_packets <= d.effective_flow_window_packets
            ==> d.effective_receive_window_packets == i.protocol.receive_window_packets,
        i.protocol.flow_window_packets > 65536 ==> d.effective_flow_window_packets == 65536,
        i.protocol.flow_window_packets < 32 ==> d.effective_flow_window_packets == 32,
        i.protocol.receive_window_packets < 32 ==> d.effective_receive_window_packets == 32,
        i.protocol.receive_window_packets > d.effective_flow_window_packets
            ==> d.effective_receive_window_packets == d.effective_flow_window_packets,
{
}

/// Packets are counted with their protocol header, and on the wire with what encryption
/// adds to them.
pub proof fn packets_are_counted_with_headers(d: DerivedLoad, i: CapacityInput, c: Comparisons)
    requires
        d.follows(i, c),
    ensures
        d.pacing_packet_bytes == i.workload.payload_bytes + 16,
        i.protocol.encryption == EncryptionMode::Plain || i.protocol.cipher_mode == CipherMode::Ctr
            ==> d.srt_data_packet_bytes == d.pacing_packet_bytes,
        i.protocol.encryption != EncryptionMode::Plain && i.protocol.cipher_mode == CipherMode::Gcm
            ==> d.srt_data_packet_bytes == d.pacing_packet_bytes + 16,
{
}

/// Every connection is let in in one of the rounds, and one round fewer would leave
/// somebody out.
pub proof fn rounds_let_everybody_in(connections: u64, at_once: u64)
    requires
        at_once > 0,
    ensures
        waves(connections, at_once) * at_once >= connections,
        connections > 0 ==> (waves(connections, at_once) - 1) * at_once < connections,
        connections == 0 ==> waves(connections, at_once) == 0,
{
    let c = connections as int;
    let n = at_once as int;
    let q = c / n;
    assert(c == n * q + c % n && 0 <= c % n < n && q >= 0) by (nonlinear_arith)
        requires
            n > 0,
            c >= 0,
            q == c / n,
    ;
    assert((c % n == 0 ==> q * n >= c && (c > 0 ==> (q - 1) * n < c)) && (c % n != 0 ==> (q + 1) * n
        >= c && q * n < c) && (c == 0 ==> q == 0)) by (nonlinear_arith)
        requires
            c == n * q + c % n,
            0 <= c % n < n,
            n > 0,
            q >= 0,
    ;
    assert(c == 0 ==> c % n == 0) by (nonlinear_arith)
        requires
            n > 0,
    ;
}

/// What an input leaves open, and whose it is, decides what is known of the derived
/// figures: the receive buffer is the receiver's and the send buffer the sender's.
pub proof fn figures_take_the_inputs_they_are_of(d: DerivedLoad, i: CapacityInput, c: Comparisons)
    requires
        d.follows(i, c),
        i.workload.logical_streams > 0,
    ensures
        ({
            let even = i.protocol.bond == BondMode::Unbonded || (i.workload.source_streams
                == i.workload.logical_streams && i.workload.physical_connections
                % i.workload.logical_streams == 0);
            let lossy = i.network.expected_loss_probability == Knowledge::Known;
            let flow = lossy && even;
            let packets = flow && i.protocol.bond != BondMode::Backup;
            let seen = i.network.expected_loss_probability != Knowledge::Unknown && even
                && i.protocol.bond != BondMode::Backup;
            &&& d.traffic.data == i.network.expected_loss_probability
            &&& d.traffic.leg_data == Knowledge::Known <==> flow
            &&& d.traffic.packets == Knowledge::Known <==> packets
            &&& d.load.window == Knowledge::Known <==> i.network.expected_rtt is Known && flow
            &&& d.load.repair == Knowledge::Known <==> i.network.expected_rtt is Known
                && i.network.rtt_jitter is Known
            &&& d.load.receive_horizon == Knowledge::Known
                <==> i.receiver.effective_receive_socket_buffer_bytes is Known && flow
                && c.traffic_positive
            &&& d.load.send_horizon == Knowledge::Known
                <==> i.sender.effective_send_socket_buffer_bytes is Known && flow
                && c.traffic_positive
            &&& d.load.sender_host == Knowledge::Known <==> packets && i.sender.host_pps_capacity
                == Knowledge::Known
            &&& d.load.receiver_host == Knowledge::Known <==> packets
                && i.receiver.host_pps_capacity == Knowledge::Known
            &&& d.load.sender_nic == Knowledge::Known <==> seen && i.sender.nic_capacity_bps
                is Known && i.network.nic_link_overhead_bytes is Known
            &&& d.load.receiver_nic == Knowledge::Known <==> seen
                && i.receiver.nic_capacity_bps is Known
                && i.network.nic_link_overhead_bytes is Known
            &&& d.traffic.confidence == ControlPpsConfidence::ExpectedLoss <==> packets
                && c.loss_positive
            &&& d.admission_waves * i.admission.connect_cc >= i.workload.physical_connections
                || i.admission.connect_cc == 0
        }),
{
    if i.admission.connect_cc > 0 {
        rounds_let_everybody_in(i.workload.physical_connections, i.admission.connect_cc);
    }
}

/// Modes are found again under the names they are told by, and classes and degrees of
/// confidence are told apart by theirs.
pub proof fn modes_are_found_under_their_names(
    mode: EncryptionMode,
    class: CellClass,
    other: CellClass,
    a: ControlPpsConfidence,
    b: ControlPpsConfidence,
)
    ensures
        encryption_spelled(mode.text()) == Ok::<EncryptionMode, Seq<char>>(mode),
        class.text() == other.text() ==> class == other,
        a.text() == b.text() ==> a == b,
        CellClass::ProductionCandidate.text() == "production-candidate"@,
        CellClass::Conditional.text() == "conditional"@,
        CellClass::DiagnosticControl.text() == "diagnostic-control"@,
        CellClass::ExceedsEnvelope.text() == "exceeds-envelope"@,
        ControlPpsConfidence::CadenceBound.text() == "cadence-bound"@,
        ControlPpsConfidence::ExpectedLoss.text() == "expected-loss"@,
        ControlPpsConfidence::Unknown.text() == "unknown"@,
        BondMode::Unbonded.text() == "none"@,
        BondMode::Broadcast.text() == "broadcast"@,
        BondMode::Backup.text() == "backup"@,
{
    reveal_strlit("plain");
    reveal_strlit("128");
    reveal_strlit("192");
    reveal_strlit("256");
    assert("plain"@.len() == 5 && "128"@.len() == 3 && "192"@.len() == 3 && "256"@.len() == 3);
    assert("128"@[1] == '2' && "192"@[1] == '9' && "256"@[1] == '5');
    reveal_strlit("production-candidate");
    reveal_strlit("conditional");
    reveal_strlit("diagnostic-control");
    reveal_strlit("exceeds-envelope");
    assert("production-candidate"@[0] == 'p' && "conditional"@[0] == 'c');
    assert("diagnostic-control"@[0] == 'd' && "exceeds-envelope"@[0] == 'e');
    reveal_strlit("cadence-bound");
    reveal_strlit("expected-loss");
    reveal_strlit("unknown");
    assert("cadence-bound"@[0] == 'c' && "expected-loss"@[0] == 'e' && "unknown"@[0] == 'u');
}

/// What is told of a value is the value, or that it is unknown or does not apply.
pub proof fn values_are_told_as_they_are(v: Availability<Seq<char>>)
    ensures
        availability_text(v) == "unknown"@ || availability_text(v) == "n/a"@ || v
            == Availability::Known(availability_text(v)),
        v is Unknown ==> availability_text(v) == "unknown"@,
        v is NotApplicable ==> availability_text(v) == "n/a"@,
{
}

} // verus!
