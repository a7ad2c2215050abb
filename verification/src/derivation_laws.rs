//! Which inputs each figure of the capacity model takes to be known.
use crate::derivation::{KnownInputs, load_known, pacing_base, traffic_known};
use crate::model::{BondMode, ControlPpsConfidence, Knowledge, SrtBandwidthPolicy};
use vstd::prelude::*;

verus! {

/// The packets of one leg are known without a bond, and with one where streams have their
/// own sources and equally many legs. Data takes the loss, acknowledgements the packets
/// of every leg, loss reports a loss that is not open, and control traffic both.
pub proof fn traffic_takes_loss_and_legs(i: KnownInputs)
    requires
        i.logical_streams > 0,
    ensures
        ({
            let t = traffic_known(i);
            let even = i.bond == BondMode::Unbonded || (i.source_streams == i.logical_streams
                && i.physical_connections % i.logical_streams == 0);
            let open = i.loss == Knowledge::Unknown;
            &&& t.leg == Knowledge::Known <==> even
            &&& t.data == Knowledge::Known <==> i.loss == Knowledge::Known
            &&& t.leg_data == Knowledge::Known <==> i.loss == Knowledge::Known && even
            &&& t.ack == Knowledge::Known <==> even && i.bond != BondMode::Backup
            &&& t.nak == Knowledge::Known <==> !open
            &&& t.control == Knowledge::Known <==> even && i.bond != BondMode::Backup && !open
            &&& t.control_bits == Knowledge::Known <==> t.control == Knowledge::Known
            &&& t.packets == Knowledge::Known <==> i.loss == Knowledge::Known && t.control
                == Knowledge::Known
            &&& t.wire_bits == Knowledge::Known <==> i.loss == Knowledge::Known && t.control
                == Knowledge::Known
            &&& t.total_bits == Knowledge::Known <==> i.loss == Knowledge::Known && t.control
                == Knowledge::Known
            &&& t.leg != Knowledge::NotApplicable
            &&& t.ack != Knowledge::NotApplicable
            &&& t.control != Knowledge::NotApplicable
            &&& t.data == i.loss
        }),
{
}

/// The control rate is a bound from cadence where nothing is lost, an expectation where
/// something is, and trusted in neither way where it is not known.
pub proof fn control_is_trusted_as_far_as_it_is_known(i: KnownInputs)
    requires
        i.logical_streams > 0,
    ensures
        ({
            let t = traffic_known(i);
            let known = t.control == Knowledge::Known;
            &&& t.confidence == ControlPpsConfidence::Unknown <==> !known
            &&& t.confidence == ControlPpsConfidence::ExpectedLoss <==> known && i.loss
                == Knowledge::Known && i.loss_positive
            &&& t.confidence == ControlPpsConfidence::CadenceBound <==> known && !(i.loss
                == Knowledge::Known && i.loss_positive)
        }),
{
}

/// Cards see what is on the wire with the link's overhead; where neither end has a card,
/// nothing is seen by one.
pub proof fn cards_see_the_wire(i: KnownInputs)
    requires
        i.logical_streams > 0,
    ensures
        ({
            let t = traffic_known(i);
            let carded = i.sender_nic != Knowledge::NotApplicable || i.receiver_nic
                != Knowledge::NotApplicable;
            &&& !carded ==> t.nic_data == Knowledge::NotApplicable && t.nic_control
                == Knowledge::NotApplicable && t.nic_wire == Knowledge::NotApplicable
            &&& t.nic_data == Knowledge::Known <==> carded && i.link_overhead == Knowledge::Known
                && i.loss == Knowledge::Known
            &&& t.nic_control == Knowledge::Known <==> carded && i.link_overhead == Knowledge::Known
                && t.control == Knowledge::Known
            &&& t.nic_wire == Knowledge::Known <==> carded && i.link_overhead == Knowledge::Known
                && i.loss == Knowledge::Known && t.control == Knowledge::Known
        }),
{
}

/// A window takes the round trip and one leg's data, a repair the round trip and the
/// jitter, and a buffer's horizon that buffer, one leg's data and traffic at all.
pub proof fn windows_and_buffers_take_their_own(i: KnownInputs)
    requires
        i.logical_streams > 0,
    ensures
        ({
            let t = traffic_known(i);
            let l = load_known(i, t);
            let flow = t.leg_data == Knowledge::Known;
            &&& l.window == Knowledge::Known <==> i.rtt == Knowledge::Known && flow
            &&& l.repair == Knowledge::Known <==> i.rtt == Knowledge::Known && i.jitter
                == Knowledge::Known
            &&& l.receive_horizon == Knowledge::Known <==> i.receive_buffer == Knowledge::Known
                && flow && i.traffic_positive
            &&& l.send_horizon == Knowledge::Known <==> i.send_buffer == Knowledge::Known && flow
                && i.traffic_positive
            &&& i.rtt == Knowledge::NotApplicable ==> l.window == Knowledge::NotApplicable
            &&& i.receive_buffer == Knowledge::NotApplicable && flow && i.traffic_positive
                ==> l.receive_horizon == Knowledge::NotApplicable
            &&& i.send_buffer == Knowledge::NotApplicable && flow && i.traffic_positive
                ==> l.send_horizon == Knowledge::NotApplicable
        }),
{
}

/// The load of an end takes that end's capacity. One that does not apply never hides
/// the other's, and one that is unknown always does.
pub proof fn loads_take_their_own_ends(i: KnownInputs)
    requires
        i.logical_streams > 0,
    ensures
        ({
            let t = traffic_known(i);
            let l = load_known(i, t);
            let seen = (t.nic_data == Knowledge::Known && t.nic_control != Knowledge::Unknown) || (
            t.nic_control == Knowledge::Known && t.nic_data != Knowledge::Unknown);
            &&& l.sender_host == Knowledge::Known <==> t.packets == Knowledge::Known
                && i.sender_host == Knowledge::Known
            &&& l.receiver_host == Knowledge::Known <==> t.packets == Knowledge::Known
                && i.receiver_host == Knowledge::Known
            &&& l.sender_nic == Knowledge::Known <==> seen && i.sender_nic == Knowledge::Known
            &&& l.receiver_nic == Knowledge::Known <==> seen && i.receiver_nic == Knowledge::Known
            &&& i.sender_host == Knowledge::NotApplicable ==> l.sender_host
                == Knowledge::NotApplicable
            &&& i.receiver_host == Knowledge::NotApplicable ==> l.receiver_host
                == Knowledge::NotApplicable
            &&& i.sender_nic == Knowledge::NotApplicable ==> l.sender_nic
                == Knowledge::NotApplicable
            &&& i.receiver_nic == Knowledge::NotApplicable ==> l.receiver_nic
                == Knowledge::NotApplicable
            &&& l.host == Knowledge::Unknown <==> l.sender_host == Knowledge::Unknown
                || l.receiver_host == Knowledge::Unknown
            &&& l.host == Knowledge::NotApplicable <==> l.sender_host == Knowledge::NotApplicable
                && l.receiver_host == Knowledge::NotApplicable
            &&& l.nic == Knowledge::Unknown <==> l.sender_nic == Knowledge::Unknown
                || l.receiver_nic == Knowledge::Unknown
            &&& l.nic == Knowledge::NotApplicable <==> l.sender_nic == Knowledge::NotApplicable
                && l.receiver_nic == Knowledge::NotApplicable
            &&& l.resources == Knowledge::Unknown <==> l.host == Knowledge::Unknown || l.nic
                == Knowledge::Unknown
            &&& l.resources == Knowledge::NotApplicable <==> l.host == Knowledge::NotApplicable
                && l.nic == Knowledge::NotApplicable
        }),
{
}

/// The two ends are treated alike: with hosts and cards exchanged, so are their loads, and
/// what is known of both together stays.
pub proof fn ends_can_be_exchanged(i: KnownInputs, j: KnownInputs)
    requires
        j == (KnownInputs {
            sender_host: i.receiver_host,
            receiver_host: i.sender_host,
            sender_nic: i.receiver_nic,
            receiver_nic: i.sender_nic,
            receive_buffer: i.send_buffer,
            send_buffer: i.receive_buffer,
            ..i
        }),
    ensures
        ({
            let a = load_known(i, traffic_known(i));
            let b = load_known(j, traffic_known(j));
            &&& traffic_known(i) == traffic_known(j)
            &&& a.sender_host == b.receiver_host && a.receiver_host == b.sender_host
            &&& a.sender_nic == b.receiver_nic && a.receiver_nic == b.sender_nic
            &&& a.receive_horizon == b.send_horizon && a.send_horizon == b.receive_horizon
            &&& a.host == b.host && a.nic == b.nic && a.resources == b.resources
            &&& a.window == b.window && a.repair == b.repair
        }),
{
}

/// Pacing counts in whole bytes from its own rate where it has one, and else from the
/// source's; only the protocol's default counts from neither.
pub proof fn pacing_counts_from_one_rate(bps: u64, source: u64, overhead_percent: u8)
    ensures
        pacing_base(SrtBandwidthPolicy::ProtocolDefault, source) is None,
        bps >= 8 ==> pacing_base(SrtBandwidthPolicy::FixedBps(bps), source) is Some && pacing_base(
            SrtBandwidthPolicy::FixedBps(bps),
            source,
        )->0 * 8 <= bps < pacing_base(SrtBandwidthPolicy::FixedBps(bps), source)->0 * 8 + 8,
        bps < 8 ==> pacing_base(SrtBandwidthPolicy::FixedBps(bps), source) == Some(1u64),
        source >= 8 ==> pacing_base(SrtBandwidthPolicy::LegacySourceFixed, source) is Some
            && pacing_base(SrtBandwidthPolicy::LegacySourceFixed, source)->0 * 8 <= source
            < pacing_base(SrtBandwidthPolicy::LegacySourceFixed, source)->0 * 8 + 8,
        pacing_base(SrtBandwidthPolicy::InputRelative { overhead_percent }, source) == pacing_base(
            SrtBandwidthPolicy::LegacySourceFixed,
            source,
        ),
{
}

} // verus!
