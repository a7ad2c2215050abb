//! What can be known of each figure that the capacity model derives.
//!
//! A figure is known where all that it is computed from is known. Neither an unknown
//! input nor one that does not apply ever stands for zero or for no limit.
use crate::model::{BondMode, ControlPpsConfidence, Knowledge, SrtBandwidthPolicy};
use vstd::prelude::*;

verus! {

/// What is known of a sum or a product. Only where neither part applies does the
/// whole not apply.
pub open spec fn together(a: Knowledge, b: Knowledge) -> Knowledge {
    if a == Knowledge::Known && b == Knowledge::Known {
        Knowledge::Known
    } else if a == Knowledge::NotApplicable && b == Knowledge::NotApplicable {
        Knowledge::NotApplicable
    } else {
        Knowledge::Unknown
    }
}

/// What is known of one figure applied to another. Where either does not apply, the
/// whole does not.
pub open spec fn applied(a: Knowledge, b: Knowledge) -> Knowledge {
    if a == Knowledge::Known && b == Knowledge::Known {
        Knowledge::Known
    } else if a == Knowledge::NotApplicable || b == Knowledge::NotApplicable {
        Knowledge::NotApplicable
    } else {
        Knowledge::Unknown
    }
}

/// What is known of the larger of two figures. One that does not apply is left out.
pub open spec fn larger(a: Knowledge, b: Knowledge) -> Knowledge {
    if a == Knowledge::Unknown || b == Knowledge::Unknown {
        Knowledge::Unknown
    } else if a == Knowledge::NotApplicable && b == Knowledge::NotApplicable {
        Knowledge::NotApplicable
    } else {
        Knowledge::Known
    }
}

fn known_together(a: Knowledge, b: Knowledge) -> (r: Knowledge)
    ensures
        r == together(a, b),
{
    match (a, b) {
        (Knowledge::Known, Knowledge::Known) => Knowledge::Known,
        (Knowledge::NotApplicable, Knowledge::NotApplicable) => Knowledge::NotApplicable,
        _ => Knowledge::Unknown,
    }
}

fn known_applied(a: Knowledge, b: Knowledge) -> (r: Knowledge)
    ensures
        r == applied(a, b),
{
    match (a, b) {
        (Knowledge::Known, Knowledge::Known) => Knowledge::Known,
        (Knowledge::NotApplicable, _) => Knowledge::NotApplicable,
        (_, Knowledge::NotApplicable) => Knowledge::NotApplicable,
        _ => Knowledge::Unknown,
    }
}

fn known_larger(a: Knowledge, b: Knowledge) -> (r: Knowledge)
    ensures
        r == larger(a, b),
{
    match (a, b) {
        (Knowledge::Unknown, _) => Knowledge::Unknown,
        (_, Knowledge::Unknown) => Knowledge::Unknown,
        (Knowledge::NotApplicable, Knowledge::NotApplicable) => Knowledge::NotApplicable,
        _ => Knowledge::Known,
    }
}

/// What the derivation starts from.
#[derive(Clone, Copy, PartialEq, Eq, Debug, Structural)]
pub struct KnownInputs {
    pub bond: BondMode,
    pub source_streams: u64,
    pub logical_streams: u64,
    pub physical_connections: u64,
    pub loss: Knowledge,
    /// The known loss is positive.
    pub loss_positive: bool,
    pub rtt: Knowledge,
    pub jitter: Knowledge,
    pub link_overhead: Knowledge,
    pub sender_host: Knowledge,
    pub receiver_host: Knowledge,
    pub sender_nic: Knowledge,
    pub receiver_nic: Knowledge,
    pub receive_buffer: Knowledge,
    pub send_buffer: Knowledge,
    /// The bytes that cross a socket, where they are known, are more than none.
    pub traffic_positive: bool,
}

/// What is known of the packets on the wire.
#[derive(Clone, Copy, PartialEq, Eq, Debug, Structural)]
pub struct TrafficKnowledge {
    /// Data packets of a single leg, without retransmissions.
    pub leg: Knowledge,
    /// Data packets with retransmissions, over all legs and over one.
    pub data: Knowledge,
    pub leg_data: Knowledge,
    pub ack: Knowledge,
    pub nak: Knowledge,
    pub control: Knowledge,
    pub confidence: ControlPpsConfidence,
    pub control_bits: Knowledge,
    pub total_bits: Knowledge,
    pub packets: Knowledge,
    pub wire_bits: Knowledge,
    pub nic_data: Knowledge,
    pub nic_control: Knowledge,
    pub nic_wire: Knowledge,
}

/// What is known of windows, repair, buffers and resources.
#[derive(Clone, Copy, PartialEq, Eq, Debug, Structural)]
pub struct LoadKnowledge {
    pub window: Knowledge,
    pub repair: Knowledge,
    pub receive_horizon: Knowledge,
    pub send_horizon: Knowledge,
    pub sender_host: Knowledge,
    pub receiver_host: Knowledge,
    pub host: Knowledge,
    pub sender_nic: Knowledge,
    pub receiver_nic: Knowledge,
    pub nic: Knowledge,
    pub resources: Knowledge,
}

/// Whether every stream has the same number of legs and its own source.
pub open spec fn legs_are_even(i: KnownInputs) -> bool {
    i.source_streams == i.logical_streams && i.physical_connections % i.logical_streams == 0
}

/// The packets of one leg. An unbonded connection carries its share. A bonded leg
/// carries its stream's, as far as legs can be told apart; of a backup pair that is
/// the active leg's.
pub open spec fn leg_known(i: KnownInputs) -> Knowledge {
    if i.bond == BondMode::Unbonded || legs_are_even(i) {
        Knowledge::Known
    } else {
        Knowledge::Unknown
    }
}

/// Acknowledgements depend on the packets of every leg, and of a backup pair only
/// the active leg's are known.
pub open spec fn ack_known(i: KnownInputs) -> Knowledge {
    if i.bond == BondMode::Backup {
        Knowledge::Unknown
    } else {
        leg_known(i)
    }
}

/// Loss reports follow the loss; without loss there are none.
pub open spec fn nak_known(i: KnownInputs) -> Knowledge {
    if i.loss == Knowledge::Unknown {
        Knowledge::Unknown
    } else {
        Knowledge::Known
    }
}

/// How far the control rate can be trusted: it follows the whole estimate, not the
/// loss alone.
pub open spec fn control_confidence(i: KnownInputs, control: Knowledge) -> ControlPpsConfidence {
    if control == Knowledge::Unknown || i.loss == Knowledge::Unknown {
        ControlPpsConfidence::Unknown
    } else if i.loss == Knowledge::Known && i.loss_positive {
        ControlPpsConfidence::ExpectedLoss
    } else {
        ControlPpsConfidence::CadenceBound
    }
}

/// The bits of control traffic.
pub open spec fn control_bits_known(ack: Knowledge, nak: Knowledge, control: Knowledge) -> Knowledge {
    if ack == Knowledge::Known && nak == Knowledge::Known && control == Knowledge::Known {
        Knowledge::Known
    } else if ack == Knowledge::NotApplicable || control == Knowledge::NotApplicable {
        Knowledge::NotApplicable
    } else {
        Knowledge::Unknown
    }
}

/// A rate at the network card, where there is one at either end.
pub open spec fn at_nic(i: KnownInputs, bits: Knowledge, packets: Knowledge) -> Knowledge {
    if i.sender_nic == Knowledge::NotApplicable && i.receiver_nic == Knowledge::NotApplicable {
        Knowledge::NotApplicable
    } else if i.link_overhead == Knowledge::Known {
        applied(bits, packets)
    } else {
        i.link_overhead
    }
}

/// What is known of the packets on the wire.
pub open spec fn traffic_known(i: KnownInputs) -> TrafficKnowledge {
    let ack = ack_known(i);
    let nak = nak_known(i);
    let control = applied(ack, nak);
    let control_bits = control_bits_known(ack, nak, control);
    let data = i.loss;
    let control_wire = applied(control_bits, control);
    let wire = together(data, control_wire);
    let packets = together(data, control);
    TrafficKnowledge {
        leg: leg_known(i),
        data,
        leg_data: together(i.loss, leg_known(i)),
        ack,
        nak,
        control,
        confidence: control_confidence(i, control),
        control_bits,
        total_bits: together(data, control_bits),
        packets,
        wire_bits: wire,
        nic_data: at_nic(i, data, data),
        nic_control: at_nic(i, control_wire, control),
        nic_wire: at_nic(i, wire, packets),
    }
}

/// What is known of how long a buffer lasts.
pub open spec fn horizon_known(bytes: Knowledge, rate: Knowledge, positive: bool) -> Knowledge {
    if rate != Knowledge::Known {
        rate
    } else if !positive {
        Knowledge::Unknown
    } else {
        bytes
    }
}

/// What is known of windows, repair, buffers and resources.
pub open spec fn load_known(i: KnownInputs, t: TrafficKnowledge) -> LoadKnowledge {
    let sender_host = applied(t.packets, i.sender_host);
    let receiver_host = applied(t.packets, i.receiver_host);
    let sender_nic = applied(larger(t.nic_data, t.nic_control), i.sender_nic);
    let receiver_nic = applied(larger(t.nic_control, t.nic_data), i.receiver_nic);
    let host = larger(sender_host, receiver_host);
    let nic = larger(sender_nic, receiver_nic);
    LoadKnowledge {
        window: if i.rtt == Knowledge::Known {
            t.leg_data
        } else {
            i.rtt
        },
        repair: together(i.rtt, i.jitter),
        receive_horizon: horizon_known(i.receive_buffer, t.leg_data, i.traffic_positive),
        send_horizon: horizon_known(i.send_buffer, t.leg_data, i.traffic_positive),
        sender_host,
        receiver_host,
        host,
        sender_nic,
        receiver_nic,
        nic,
        resources: larger(host, nic),
    }
}

fn nic_rate(i: &KnownInputs, bits: Knowledge, packets: Knowledge) -> (r: Knowledge)
    ensures
        r == at_nic(*i, bits, packets),
{
    if i.sender_nic == Knowledge::NotApplicable && i.receiver_nic == Knowledge::NotApplicable {
        Knowledge::NotApplicable
    } else if i.link_overhead == Knowledge::Known {
        known_applied(bits, packets)
    } else {
        i.link_overhead
    }
}

/// Derives what is known of the packets on the wire.
pub fn derive_traffic(i: &KnownInputs) -> (r: TrafficKnowledge)
    requires
        i.logical_streams > 0,
    ensures
        r == traffic_known(*i),
{
    let even = i.source_streams == i.logical_streams && i.physical_connections % i.logical_streams
        == 0;
    let leg = if i.bond == BondMode::Unbonded || even {
        Knowledge::Known
    } else {
        Knowledge::Unknown
    };
    let ack = if i.bond == BondMode::Backup {
        Knowledge::Unknown
    } else {
        leg
    };
    let nak = if i.loss == Knowledge::Unknown {
        Knowledge::Unknown
    } else {
        Knowledge::Known
    };
    let control = known_applied(ack, nak);
    let confidence = if control == Knowledge::Unknown || i.loss == Knowledge::Unknown {
        ControlPpsConfidence::Unknown
    } else if i.loss == Knowledge::Known && i.loss_positive {
        ControlPpsConfidence::ExpectedLoss
    } else {
        ControlPpsConfidence::CadenceBound
    };
    let control_bits = if ack == Knowledge::Known && nak == Knowledge::Known && control
        == Knowledge::Known {
        Knowledge::Known
    } else if ack == Knowledge::NotApplicable || control == Knowledge::NotApplicable {
        Knowledge::NotApplicable
    } else {
        Knowledge::Unknown
    };
    let control_wire = known_applied(control_bits, control);
    let wire = known_together(i.loss, control_wire);
    let packets = known_together(i.loss, control);
    TrafficKnowledge {
        leg,
        data: i.loss,
        leg_data: known_together(i.loss, leg),
        ack,
        nak,
        control,
        confidence,
        control_bits,
        total_bits: known_together(i.loss, control_bits),
        packets,
        wire_bits: wire,
        nic_data: nic_rate(i, i.loss, i.loss),
        nic_control: nic_rate(i, control_wire, control),
        nic_wire: nic_rate(i, wire, packets),
    }
}

fn horizon_of(bytes: Knowledge, rate: Knowledge, positive: bool) -> (r: Knowledge)
    ensures
        r == horizon_known(bytes, rate, positive),
{
    if rate != Knowledge::Known {
        rate
    } else if !positive {
        Knowledge::Unknown
    } else {
        bytes
    }
}

/// Derives what is known of windows, repair, buffers and resources. Each endpoint's
/// card is charged the larger of its two directions, not their sum.
pub fn derive_load(i: &KnownInputs, t: &TrafficKnowledge) -> (r: LoadKnowledge)
    ensures
        r == load_known(*i, *t),
{
    let sender_host = known_applied(t.packets, i.sender_host);
    let receiver_host = known_applied(t.packets, i.receiver_host);
    let sender_nic = known_applied(known_larger(t.nic_data, t.nic_control), i.sender_nic);
    let receiver_nic = known_applied(known_larger(t.nic_control, t.nic_data), i.receiver_nic);
    let host = known_larger(sender_host, receiver_host);
    let nic = known_larger(sender_nic, receiver_nic);
    LoadKnowledge {
        window: if i.rtt == Knowledge::Known {
            t.leg_data
        } else {
            i.rtt
        },
        repair: known_together(i.rtt, i.jitter),
        receive_horizon: horizon_of(i.receive_buffer, t.leg_data, i.traffic_positive),
        send_horizon: horizon_of(i.send_buffer, t.leg_data, i.traffic_positive),
        sender_host,
        receiver_host,
        host,
        sender_nic,
        receiver_nic,
        nic,
        resources: known_larger(host, nic),
    }
}

/// The bytes per second that a pacing policy counts from, at least one: its own fixed
/// rate, or the source's. The protocol's default counts from neither.
pub open spec fn pacing_base(policy: SrtBandwidthPolicy, source_bps: u64) -> Option<u64> {
    let rate = match policy {
        SrtBandwidthPolicy::ProtocolDefault => None,
        SrtBandwidthPolicy::FixedBps(bps) => Some(bps),
        _ => Some(source_bps),
    };
    match rate {
        None => None,
        Some(bps) => if bps / 8 == 0 {
            Some(1)
        } else {
            Some(bps / 8)
        },
    }
}

/// The bytes per second that a pacing policy counts from, if it counts from a rate.
pub fn pacing_base_bytes(policy: SrtBandwidthPolicy, source_bps: u64) -> (r: Option<u64>)
    ensures
        r == pacing_base(policy, source_bps),
        (r is None) == (policy == SrtBandwidthPolicy::ProtocolDefault),
        r is Some ==> r->0 > 0,
{
    let rate: u64 = match policy {
        SrtBandwidthPolicy::ProtocolDefault => {
            return None;
        },
        SrtBandwidthPolicy::FixedBps(bps) => bps,
        _ => source_bps,
    };
    if rate / 8 == 0 {
        Some(1)
    } else {
        Some(rate / 8)
    }
}

/// An unknown control rate is never reported with confidence, and neither is the
/// rate of a backup pair, whose legs' activity is not modelled.
pub proof fn unknown_control_is_never_confident(i: KnownInputs)
    ensures
        traffic_known(i).control == Knowledge::Unknown ==> traffic_known(i).confidence
            == ControlPpsConfidence::Unknown,
        i.bond == BondMode::Backup ==> traffic_known(i).confidence
            == ControlPpsConfidence::Unknown,
{
}

/// An unknown loss leaves no figure known that data packets enter.
pub proof fn unknown_loss_spreads(i: KnownInputs)
    requires
        i.loss == Knowledge::Unknown,
    ensures
        ({
            let t = traffic_known(i);
            let l = load_known(i, t);
            &&& t.data != Knowledge::Known
            &&& t.packets != Knowledge::Known
            &&& t.wire_bits != Knowledge::Known
            &&& t.nic_wire != Knowledge::Known
            &&& l.window != Knowledge::Known
            &&& l.host != Knowledge::Known
            &&& l.nic != Knowledge::Known
            &&& l.receive_horizon != Knowledge::Known
            &&& l.send_horizon != Knowledge::Known
        }),
{
}

/// Where everything is known and legs can be told apart, every figure is known.
pub proof fn known_inputs_leave_nothing_unknown(i: KnownInputs)
    requires
        i.bond != BondMode::Backup,
        i.bond == BondMode::Unbonded || legs_are_even(i),
        i.loss == Knowledge::Known,
        i.rtt == Knowledge::Known,
        i.jitter == Knowledge::Known,
        i.link_overhead == Knowledge::Known,
        i.sender_host == Knowledge::Known,
        i.receiver_host == Knowledge::Known,
        i.sender_nic == Knowledge::Known,
        i.receiver_nic == Knowledge::Known,
        i.receive_buffer == Knowledge::Known,
        i.send_buffer == Knowledge::Known,
        i.traffic_positive,
    ensures
        ({
            let l = load_known(i, traffic_known(i));
            &&& l.window == Knowledge::Known
            &&& l.repair == Knowledge::Known
            &&& l.receive_horizon == Knowledge::Known
            &&& l.send_horizon == Knowledge::Known
            &&& l.host == Knowledge::Known
            &&& l.nic == Knowledge::Known
            &&& l.resources == Knowledge::Known
        }),
{
}

} // verus!
