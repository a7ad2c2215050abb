//! What each reason of an assessment means, in terms of the input, the comparisons and
//! the policy.
use crate::capacity_args::PolicyThresholds;
use crate::derivation::{load_known, traffic_known};
use crate::model::{
    BondMode, CapacityInput, CapacityReason, CellClass, CipherMode, Comparisons,
    ControlPpsConfidence, EncryptionMode, Findings, Knowledge, ReasonSeverity, all_reasons,
    class_of, encoded_size, findings_on, has_weight, host_reasons, known_inputs, network_reasons,
    nic_reasons, pacing_reasons, policy_reasons, socket_reasons, waves, window_reasons,
};
use vstd::prelude::*;

verus! {

/// The loss is known.
pub open spec fn loss_known(i: CapacityInput) -> bool {
    i.network.expected_loss_probability == Knowledge::Known
}

/// The packets of one leg can be told from those of the others: there is one leg to a
/// stream, or every stream has its own source and as many legs as the next.
pub open spec fn legs_told_apart(i: CapacityInput) -> bool {
    i.protocol.bond == BondMode::Unbonded || (i.workload.source_streams
        == i.workload.logical_streams && i.workload.physical_connections
        % i.workload.logical_streams == 0)
}

/// The control rate is known: the loss is not open, and the packets of every leg are
/// known, which they are not where all but one of them stand by.
pub open spec fn control_known(i: CapacityInput) -> bool {
    i.network.expected_loss_probability != Knowledge::Unknown && i.protocol.bond
        != BondMode::Backup && legs_told_apart(i)
}

/// The packets that a host has to handle are known.
pub open spec fn work_known(i: CapacityInput) -> bool {
    loss_known(i) && control_known(i)
}

/// The window that a leg requires is known.
pub open spec fn window_known(i: CapacityInput) -> bool {
    i.network.expected_rtt is Known && loss_known(i) && legs_told_apart(i)
}

/// The host capacity of either end is open.
pub open spec fn host_open(i: CapacityInput) -> bool {
    i.sender.host_pps_capacity == Knowledge::Unknown || i.receiver.host_pps_capacity
        == Knowledge::Unknown
}

pub open spec fn host_at_either_end(i: CapacityInput) -> bool {
    i.sender.host_pps_capacity == Knowledge::Known || i.receiver.host_pps_capacity
        == Knowledge::Known
}

/// Either end has more packets to handle than its host can.
pub open spec fn host_over(i: CapacityInput, c: Comparisons) -> bool {
    (i.sender.host_pps_capacity == Knowledge::Known && c.sender_host.over_capacity) || (
    i.receiver.host_pps_capacity == Knowledge::Known && c.receiver_host.over_capacity)
}

/// Either end's host is used up to the policy's limit.
pub open spec fn host_at_limit(i: CapacityInput, c: Comparisons) -> bool {
    (i.sender.host_pps_capacity == Knowledge::Known && c.sender_host.at_limit) || (
    i.receiver.host_pps_capacity == Knowledge::Known && c.receiver_host.at_limit)
}

/// The capacity of either end's card is open.
pub open spec fn nic_open(i: CapacityInput) -> bool {
    i.sender.nic_capacity_bps is Unknown || i.receiver.nic_capacity_bps is Unknown
}

pub open spec fn nic_at_either_end(i: CapacityInput) -> bool {
    i.sender.nic_capacity_bps is Known || i.receiver.nic_capacity_bps is Known
}

/// Either end's card has more to carry than it can.
pub open spec fn nic_over(i: CapacityInput, c: Comparisons) -> bool {
    (i.sender.nic_capacity_bps is Known && c.sender_nic.over_capacity) || (
    i.receiver.nic_capacity_bps is Known && c.receiver_nic.over_capacity)
}

/// Either end's card is used up to the policy's limit.
pub open spec fn nic_at_limit(i: CapacityInput, c: Comparisons) -> bool {
    (i.sender.nic_capacity_bps is Known && c.sender_nic.at_limit) || (
    i.receiver.nic_capacity_bps is Known && c.receiver_nic.at_limit)
}

proof fn lemma_in_sum(a: Seq<CapacityReason>, b: Seq<CapacityReason>, x: CapacityReason)
    ensures
        (a + b).contains(x) <==> a.contains(x) || b.contains(x),
{
    let all = a + b;
    if a.contains(x) {
        assert(all[a.index_of(x)] == x);
    }
    if b.contains(x) {
        assert(all[a.len() + b.index_of(x)] == x);
    }
    if all.contains(x) {
        let k = all.index_of(x);
        if k < a.len() {
            assert(a[k] == x);
        } else {
            assert(b[k - a.len()] == x);
        }
    }
}

proof fn lemma_when(b: bool, reason: CapacityReason, x: CapacityReason)
    ensures
        crate::model::when(b, reason).contains(x) <==> b && x == reason,
{
    if b {
        assert(crate::model::when(b, reason)[0] == reason);
    }
}

#[verifier::opaque]
spec fn in_pacing(f: Findings, x: CapacityReason) -> bool {
    pacing_reasons(f).contains(x)
}

#[verifier::opaque]
spec fn in_window(f: Findings, x: CapacityReason) -> bool {
    window_reasons(f).contains(x)
}

#[verifier::opaque]
spec fn in_recovery(f: Findings, x: CapacityReason) -> bool {
    crate::model::when(f.recovery_short, CapacityReason::RecoveryMarginInsufficient).contains(x)
}

#[verifier::opaque]
spec fn in_network(f: Findings, x: CapacityReason) -> bool {
    network_reasons(f).contains(x)
}

#[verifier::opaque]
spec fn in_socket(f: Findings, x: CapacityReason) -> bool {
    socket_reasons(f).contains(x)
}

#[verifier::opaque]
spec fn in_host(f: Findings, x: CapacityReason) -> bool {
    host_reasons(f).contains(x)
}

#[verifier::opaque]
spec fn in_nic(f: Findings, x: CapacityReason) -> bool {
    nic_reasons(f).contains(x)
}

#[verifier::opaque]
spec fn in_policy(f: Findings, x: CapacityReason) -> bool {
    policy_reasons(f).contains(x)
}

proof fn lemma_in_groups(f: Findings, x: CapacityReason)
    ensures
        all_reasons(f).contains(x) <==> in_pacing(f, x) || in_window(f, x) || in_recovery(f, x) || in_network(f, x) || in_socket(f, x) || in_host(f, x) || in_nic(f, x) || in_policy(f, x),
{
    let recovery = crate::model::when(f.recovery_short, CapacityReason::RecoveryMarginInsufficient);
    let a = pacing_reasons(f) + window_reasons(f);
    let b = a + recovery;
    let c = b + network_reasons(f);
    let d = c + socket_reasons(f);
    let e = d + host_reasons(f);
    let g = e + nic_reasons(f);
    lemma_in_sum(pacing_reasons(f), window_reasons(f), x);
    lemma_in_sum(a, recovery, x);
    lemma_in_sum(b, network_reasons(f), x);
    lemma_in_sum(c, socket_reasons(f), x);
    lemma_in_sum(d, host_reasons(f), x);
    lemma_in_sum(e, nic_reasons(f), x);
    lemma_in_sum(g, policy_reasons(f), x);
    reveal(in_pacing);
    reveal(in_window);
    reveal(in_recovery);
    reveal(in_network);
    reveal(in_socket);
    reveal(in_host);
    reveal(in_nic);
    reveal(in_policy);
}

proof fn lemma_pacing_group(f: Findings, x: CapacityReason)
    ensures
        in_pacing(f, x) <==> (x == CapacityReason::PayloadExceedsProtocolMtu && (f.payload_bytes + 16 > 1500)) || (x == CapacityReason::PayloadExceedsIpv4MtuEnvelope && (encoded_size(
            f.payload_bytes,
            f.protocol.encryption,
            f.protocol.cipher_mode,
            f.udp_ip_header_bytes,
        ) > 1500)) || (x == CapacityReason::SourceExceedsPacingEnvelope && (f.source_over_pacing)) || (x == CapacityReason::ProtocolOverheadExceedsPacingHeadroom && (f.overhead_over_pacing)),
{
    reveal(in_pacing);
    let p0 = crate::model::when(f.payload_bytes + 16 > 1500, CapacityReason::PayloadExceedsProtocolMtu);
    lemma_when(f.payload_bytes + 16 > 1500, CapacityReason::PayloadExceedsProtocolMtu, x);
    let p1 = crate::model::when(encoded_size(
            f.payload_bytes,
            f.protocol.encryption,
            f.protocol.cipher_mode,
            f.udp_ip_header_bytes,
        ) > 1500, CapacityReason::PayloadExceedsIpv4MtuEnvelope);
    lemma_when(encoded_size(
            f.payload_bytes,
            f.protocol.encryption,
            f.protocol.cipher_mode,
            f.udp_ip_header_bytes,
        ) > 1500, CapacityReason::PayloadExceedsIpv4MtuEnvelope, x);
    let p2 = crate::model::when(f.source_over_pacing, CapacityReason::SourceExceedsPacingEnvelope);
    lemma_when(f.source_over_pacing, CapacityReason::SourceExceedsPacingEnvelope, x);
    let p3 = crate::model::when(f.overhead_over_pacing, CapacityReason::ProtocolOverheadExceedsPacingHeadroom);
    lemma_when(f.overhead_over_pacing, CapacityReason::ProtocolOverheadExceedsPacingHeadroom, x);
    lemma_in_sum(p0, p1, x);
    lemma_in_sum(p0 + p1, p2, x);
    lemma_in_sum(p0 + p1 + p2, p3, x);
    assert(pacing_reasons(f) == p0 + p1 + p2 + p3);
}

proof fn lemma_window_group(f: Findings, x: CapacityReason)
    ensures
        in_window(f, x) <==> (x == CapacityReason::BondLegDistributionUnknown && (f.leg_rate_unknown && f.protocol.bond != BondMode::Unbonded)) || (x == CapacityReason::WindowBelowBdpRequirement && (f.window_short)) || (x == CapacityReason::WindowHeadroomLow && (!f.window_short && f.window_headroom_low)),
{
    reveal(in_window);
    let p0 = crate::model::when(f.leg_rate_unknown && f.protocol.bond != BondMode::Unbonded, CapacityReason::BondLegDistributionUnknown);
    lemma_when(f.leg_rate_unknown && f.protocol.bond != BondMode::Unbonded, CapacityReason::BondLegDistributionUnknown, x);
    let p1 = crate::model::when(f.window_short, CapacityReason::WindowBelowBdpRequirement);
    lemma_when(f.window_short, CapacityReason::WindowBelowBdpRequirement, x);
    let p2 = crate::model::when(!f.window_short && f.window_headroom_low, CapacityReason::WindowHeadroomLow);
    lemma_when(!f.window_short && f.window_headroom_low, CapacityReason::WindowHeadroomLow, x);
    lemma_in_sum(p0, p1, x);
    lemma_in_sum(p0 + p1, p2, x);
    assert(window_reasons(f) == p0 + p1 + p2);
}

proof fn lemma_network_group(f: Findings, x: CapacityReason)
    ensures
        in_network(f, x) <==> (x == CapacityReason::ExpectedRttUnknown && (f.rtt == Knowledge::Unknown)) || (x == CapacityReason::RttVarianceUnknown && (f.jitter == Knowledge::Unknown)) || (x == CapacityReason::ExpectedLossUnknown && (f.loss == Knowledge::Unknown)) || (x == CapacityReason::ReorderImpactUnmodeled && (f.reorder == Knowledge::Unknown || (f.reorder == Knowledge::Known && f.reorder_positive))) || (x == CapacityReason::ControlRateUncertain && (f.control != ControlPpsConfidence::CadenceBound)),
{
    reveal(in_network);
    let p0 = crate::model::when(f.rtt == Knowledge::Unknown, CapacityReason::ExpectedRttUnknown);
    lemma_when(f.rtt == Knowledge::Unknown, CapacityReason::ExpectedRttUnknown, x);
    let p1 = crate::model::when(f.jitter == Knowledge::Unknown, CapacityReason::RttVarianceUnknown);
    lemma_when(f.jitter == Knowledge::Unknown, CapacityReason::RttVarianceUnknown, x);
    let p2 = crate::model::when(f.loss == Knowledge::Unknown, CapacityReason::ExpectedLossUnknown);
    lemma_when(f.loss == Knowledge::Unknown, CapacityReason::ExpectedLossUnknown, x);
    let p3 = crate::model::when(f.reorder == Knowledge::Unknown || (f.reorder == Knowledge::Known && f.reorder_positive), CapacityReason::ReorderImpactUnmodeled);
    lemma_when(f.reorder == Knowledge::Unknown || (f.reorder == Knowledge::Known && f.reorder_positive), CapacityReason::ReorderImpactUnmodeled, x);
    let p4 = crate::model::when(f.control != ControlPpsConfidence::CadenceBound, CapacityReason::ControlRateUncertain);
    lemma_when(f.control != ControlPpsConfidence::CadenceBound, CapacityReason::ControlRateUncertain, x);
    lemma_in_sum(p0, p1, x);
    lemma_in_sum(p0 + p1, p2, x);
    lemma_in_sum(p0 + p1 + p2, p3, x);
    lemma_in_sum(p0 + p1 + p2 + p3, p4, x);
    assert(network_reasons(f) == p0 + p1 + p2 + p3 + p4);
}

proof fn lemma_socket_group(f: Findings, x: CapacityReason)
    ensures
        in_socket(f, x) <==> (x == CapacityReason::EffectiveSocketBufferUnknown && (f.receive_buffer == Knowledge::Unknown || f.send_buffer == Knowledge::Unknown)) || (x == CapacityReason::SocketBufferHorizonLow && (f.horizon_low)),
{
    reveal(in_socket);
    let p0 = crate::model::when(f.receive_buffer == Knowledge::Unknown || f.send_buffer == Knowledge::Unknown, CapacityReason::EffectiveSocketBufferUnknown);
    lemma_when(f.receive_buffer == Knowledge::Unknown || f.send_buffer == Knowledge::Unknown, CapacityReason::EffectiveSocketBufferUnknown, x);
    let p1 = crate::model::when(f.horizon_low, CapacityReason::SocketBufferHorizonLow);
    lemma_when(f.horizon_low, CapacityReason::SocketBufferHorizonLow, x);
    lemma_in_sum(p0, p1, x);
    assert(socket_reasons(f) == p0 + p1);
}

proof fn lemma_policy_group(f: Findings, x: CapacityReason)
    ensures
        in_policy(f, x) <==> (x == CapacityReason::ExpectedControlRateHigh && (f.control_rate_high)) || (x == CapacityReason::AdmissionWavesHigh && (f.max_admission_waves is Some && waves(f.physical_connections, f.connect_cc)
            > f.max_admission_waves->0)),
{
    reveal(in_policy);
    let p0 = crate::model::when(f.control_rate_high, CapacityReason::ExpectedControlRateHigh);
    lemma_when(f.control_rate_high, CapacityReason::ExpectedControlRateHigh, x);
    let p1 = crate::model::when(f.max_admission_waves is Some && waves(f.physical_connections, f.connect_cc)
            > f.max_admission_waves->0, CapacityReason::AdmissionWavesHigh);
    lemma_when(f.max_admission_waves is Some && waves(f.physical_connections, f.connect_cc)
            > f.max_admission_waves->0, CapacityReason::AdmissionWavesHigh, x);
    lemma_in_sum(p0, p1, x);
    assert(policy_reasons(f) == p0 + p1);
}

proof fn lemma_one(s: Seq<CapacityReason>, x: CapacityReason)
    ensures
        s.len() == 0 ==> !s.contains(x),
        s.len() == 1 ==> (s.contains(x) <==> s[0] == x),
{
    if s.len() == 1 {
        assert(s.contains(s[0]));
    }
}

proof fn lemma_host_group(f: Findings, x: CapacityReason)
    ensures
        in_host(f, x) <==> ({
            let a = f.sender_host;
            let b = f.receiver_host;
            let open = a.capacity == Knowledge::Unknown || b.capacity == Knowledge::Unknown;
            let blind = (true) && ((a.capacity == Knowledge::Known && a.used
                == Knowledge::Unknown) || (b.capacity == Knowledge::Known && b.used
                == Knowledge::Unknown));
            let over = (a.used == Knowledge::Known && a.utilization.over_capacity) || (b.used
                == Knowledge::Known && b.utilization.over_capacity);
            let low = (a.used == Knowledge::Known && a.utilization.at_limit) || (b.used
                == Knowledge::Known && b.utilization.at_limit);
            ||| x == CapacityReason::HostPpsCapacityUnknown && open
            ||| x == CapacityReason::PredictedPacketWorkUnknown && !open && blind
            ||| x == CapacityReason::HostPpsCapacityExceeded && !open && !blind && over
            ||| x == CapacityReason::HostPpsHeadroomLow && !open && !blind && !over && low
        }),
{
    reveal(in_host);
    lemma_one(host_reasons(f), x);
}

proof fn lemma_nic_group(f: Findings, x: CapacityReason)
    ensures
        in_nic(f, x) <==> ({
            let a = f.sender_nic;
            let b = f.receiver_nic;
            let open = a.capacity == Knowledge::Unknown || b.capacity == Knowledge::Unknown;
            let blind = (f.nic_wire == Knowledge::Unknown) && ((a.capacity == Knowledge::Known && a.used
                == Knowledge::Unknown) || (b.capacity == Knowledge::Known && b.used
                == Knowledge::Unknown));
            let over = (a.used == Knowledge::Known && a.utilization.over_capacity) || (b.used
                == Knowledge::Known && b.utilization.over_capacity);
            let low = (a.used == Knowledge::Known && a.utilization.at_limit) || (b.used
                == Knowledge::Known && b.utilization.at_limit);
            ||| x == CapacityReason::NicCapacityUnknown && open
            ||| x == CapacityReason::NicWireRateUnknown && !open && blind
            ||| x == CapacityReason::NicCapacityExceeded && !open && !blind && over
            ||| x == CapacityReason::NicHeadroomLow && !open && !blind && !over && low
        }),
{
    reveal(in_nic);
    lemma_one(nic_reasons(f), x);
}

proof fn lemma_recovery_group(f: Findings, x: CapacityReason)
    ensures
        in_recovery(f, x) <==> x == CapacityReason::RecoveryMarginInsufficient && f.recovery_short,
{
    reveal(in_recovery);
    lemma_when(f.recovery_short, CapacityReason::RecoveryMarginInsufficient, x);
}

/// When an assessment gives each reason on packet sizes and pacing.
pub proof fn reasons_on_pacing_mean_what_they_say(
    i: CapacityInput,
    c: Comparisons,
    p: PolicyThresholds,
)
    ensures
        ({
            let reasons = all_reasons(findings_on(i, c, p));
            &&& reasons.contains(CapacityReason::PayloadExceedsProtocolMtu) <==> i.workload.payload_bytes > 1484
            &&& reasons.contains(CapacityReason::PayloadExceedsIpv4MtuEnvelope) <==> i.workload.payload_bytes + i.network.udp_ip_header_bytes + (if i.protocol.encryption
                != EncryptionMode::Plain && i.protocol.cipher_mode == CipherMode::Gcm {
                16int
            } else {
                0
            }) > 1484
            &&& reasons.contains(CapacityReason::SourceExceedsPacingEnvelope) <==> c.source_over_pacing
            &&& reasons.contains(CapacityReason::ProtocolOverheadExceedsPacingHeadroom) <==> loss_known(i) && c.overhead_over_pacing
        }),
{
    let f = findings_on(i, c, p);
    lemma_facts(i, c, p);
    lemma_sorted_out(f, CapacityReason::PayloadExceedsProtocolMtu);
    lemma_pacing_group(f, CapacityReason::PayloadExceedsProtocolMtu);
    lemma_sorted_out(f, CapacityReason::PayloadExceedsIpv4MtuEnvelope);
    lemma_pacing_group(f, CapacityReason::PayloadExceedsIpv4MtuEnvelope);
    lemma_sorted_out(f, CapacityReason::SourceExceedsPacingEnvelope);
    lemma_pacing_group(f, CapacityReason::SourceExceedsPacingEnvelope);
    lemma_sorted_out(f, CapacityReason::ProtocolOverheadExceedsPacingHeadroom);
    lemma_pacing_group(f, CapacityReason::ProtocolOverheadExceedsPacingHeadroom);
}

/// When an assessment gives each reason on legs and windows.
pub proof fn reasons_on_windows_mean_what_they_say(
    i: CapacityInput,
    c: Comparisons,
    p: PolicyThresholds,
)
    ensures
        ({
            let reasons = all_reasons(findings_on(i, c, p));
            &&& reasons.contains(CapacityReason::WindowBelowBdpRequirement) <==> window_known(i) && c.window_short
            &&& reasons.contains(CapacityReason::WindowHeadroomLow) <==> window_known(i) && !c.window_short && c.window_headroom_low
            &&& reasons.contains(CapacityReason::BondLegDistributionUnknown) <==> !legs_told_apart(i)
        }),
{
    let f = findings_on(i, c, p);
    lemma_facts(i, c, p);
    lemma_sorted_out(f, CapacityReason::WindowBelowBdpRequirement);
    lemma_window_group(f, CapacityReason::WindowBelowBdpRequirement);
    lemma_sorted_out(f, CapacityReason::WindowHeadroomLow);
    lemma_window_group(f, CapacityReason::WindowHeadroomLow);
    lemma_sorted_out(f, CapacityReason::BondLegDistributionUnknown);
    lemma_window_group(f, CapacityReason::BondLegDistributionUnknown);
}

/// When an assessment gives each reason on the time for repair.
pub proof fn reasons_on_recovery_mean_what_they_say(
    i: CapacityInput,
    c: Comparisons,
    p: PolicyThresholds,
)
    ensures
        ({
            let reasons = all_reasons(findings_on(i, c, p));
            &&& reasons.contains(CapacityReason::RecoveryMarginInsufficient) <==> i.network.expected_rtt is Known && i.network.rtt_jitter is Known && c.recovery_short
        }),
{
    let f = findings_on(i, c, p);
    lemma_facts(i, c, p);
    lemma_sorted_out(f, CapacityReason::RecoveryMarginInsufficient);
    lemma_recovery_group(f, CapacityReason::RecoveryMarginInsufficient);
}

/// When an assessment gives each reason on the network.
pub proof fn reasons_on_the_network_mean_what_they_say(
    i: CapacityInput,
    c: Comparisons,
    p: PolicyThresholds,
)
    ensures
        ({
            let reasons = all_reasons(findings_on(i, c, p));
            &&& reasons.contains(CapacityReason::ExpectedRttUnknown) <==> i.network.expected_rtt is Unknown
            &&& reasons.contains(CapacityReason::RttVarianceUnknown) <==> i.network.rtt_jitter is Unknown
            &&& reasons.contains(CapacityReason::ExpectedLossUnknown) <==> i.network.expected_loss_probability == Knowledge::Unknown
            &&& reasons.contains(CapacityReason::ReorderImpactUnmodeled) <==> i.network.expected_reorder_probability == Knowledge::Unknown || (
            i.network.expected_reorder_probability == Knowledge::Known && c.reorder_positive)
            &&& reasons.contains(CapacityReason::ControlRateUncertain) <==> !control_known(i) || (loss_known(i) && c.loss_positive)
        }),
{
    let f = findings_on(i, c, p);
    lemma_facts(i, c, p);
    lemma_sorted_out(f, CapacityReason::ExpectedRttUnknown);
    lemma_network_group(f, CapacityReason::ExpectedRttUnknown);
    lemma_sorted_out(f, CapacityReason::RttVarianceUnknown);
    lemma_network_group(f, CapacityReason::RttVarianceUnknown);
    lemma_sorted_out(f, CapacityReason::ExpectedLossUnknown);
    lemma_network_group(f, CapacityReason::ExpectedLossUnknown);
    lemma_sorted_out(f, CapacityReason::ReorderImpactUnmodeled);
    lemma_network_group(f, CapacityReason::ReorderImpactUnmodeled);
    lemma_sorted_out(f, CapacityReason::ControlRateUncertain);
    lemma_network_group(f, CapacityReason::ControlRateUncertain);
}

/// When an assessment gives each reason on socket buffers.
pub proof fn reasons_on_buffers_mean_what_they_say(
    i: CapacityInput,
    c: Comparisons,
    p: PolicyThresholds,
)
    ensures
        ({
            let reasons = all_reasons(findings_on(i, c, p));
            &&& reasons.contains(CapacityReason::EffectiveSocketBufferUnknown) <==> i.receiver.effective_receive_socket_buffer_bytes is Unknown
                || i.sender.effective_send_socket_buffer_bytes is Unknown
            &&& reasons.contains(CapacityReason::SocketBufferHorizonLow) <==> loss_known(i) && legs_told_apart(i) && c.traffic_positive
                && i.receiver.effective_receive_socket_buffer_bytes is Known
                && i.sender.effective_send_socket_buffer_bytes is Known && (c.receive_horizon_low
                || c.send_horizon_low)
        }),
{
    let f = findings_on(i, c, p);
    lemma_facts(i, c, p);
    lemma_sorted_out(f, CapacityReason::EffectiveSocketBufferUnknown);
    lemma_socket_group(f, CapacityReason::EffectiveSocketBufferUnknown);
    lemma_sorted_out(f, CapacityReason::SocketBufferHorizonLow);
    lemma_socket_group(f, CapacityReason::SocketBufferHorizonLow);
}

/// When an assessment gives each reason on hosts: either end's counts, and neither more than the other's.
pub proof fn reasons_on_hosts_mean_what_they_say(
    i: CapacityInput,
    c: Comparisons,
    p: PolicyThresholds,
)
    ensures
        ({
            let reasons = all_reasons(findings_on(i, c, p));
            &&& reasons.contains(CapacityReason::HostPpsCapacityUnknown) <==> host_open(i)
            &&& reasons.contains(CapacityReason::PredictedPacketWorkUnknown) <==> !host_open(i) && host_at_either_end(i) && !work_known(i)
            &&& reasons.contains(CapacityReason::HostPpsHeadroomLow) <==> !host_open(i) && work_known(i) && !host_over(i, c) && host_at_limit(i, c)
            &&& reasons.contains(CapacityReason::HostPpsCapacityExceeded) <==> !host_open(i) && work_known(i) && host_over(i, c)
        }),
{
    let f = findings_on(i, c, p);
    lemma_facts(i, c, p);
    lemma_sorted_out(f, CapacityReason::HostPpsCapacityUnknown);
    lemma_host_group(f, CapacityReason::HostPpsCapacityUnknown);
    lemma_sorted_out(f, CapacityReason::PredictedPacketWorkUnknown);
    lemma_host_group(f, CapacityReason::PredictedPacketWorkUnknown);
    lemma_sorted_out(f, CapacityReason::HostPpsHeadroomLow);
    lemma_host_group(f, CapacityReason::HostPpsHeadroomLow);
    lemma_sorted_out(f, CapacityReason::HostPpsCapacityExceeded);
    lemma_host_group(f, CapacityReason::HostPpsCapacityExceeded);
}

/// When an assessment gives each reason on network cards: either end's counts, and neither more than the other's.
pub proof fn reasons_on_cards_mean_what_they_say(
    i: CapacityInput,
    c: Comparisons,
    p: PolicyThresholds,
)
    ensures
        ({
            let reasons = all_reasons(findings_on(i, c, p));
            &&& reasons.contains(CapacityReason::NicCapacityUnknown) <==> nic_open(i)
            &&& reasons.contains(CapacityReason::NicWireRateUnknown) <==> !nic_open(i) && nic_at_either_end(i) && (i.network.nic_link_overhead_bytes is Unknown || (
            i.network.nic_link_overhead_bytes is Known && !control_known(i)))
            &&& reasons.contains(CapacityReason::NicHeadroomLow) <==> !nic_open(i) && i.network.nic_link_overhead_bytes is Known && control_known(i)
                && !nic_over(i, c) && nic_at_limit(i, c)
            &&& reasons.contains(CapacityReason::NicCapacityExceeded) <==> !nic_open(i) && i.network.nic_link_overhead_bytes is Known && control_known(i)
                && nic_over(i, c)
        }),
{
    let f = findings_on(i, c, p);
    lemma_facts(i, c, p);
    lemma_sorted_out(f, CapacityReason::NicCapacityUnknown);
    lemma_nic_group(f, CapacityReason::NicCapacityUnknown);
    lemma_sorted_out(f, CapacityReason::NicWireRateUnknown);
    lemma_nic_group(f, CapacityReason::NicWireRateUnknown);
    lemma_sorted_out(f, CapacityReason::NicHeadroomLow);
    lemma_nic_group(f, CapacityReason::NicHeadroomLow);
    lemma_sorted_out(f, CapacityReason::NicCapacityExceeded);
    lemma_nic_group(f, CapacityReason::NicCapacityExceeded);
}

/// When an assessment gives each reason on the policy's limits.
pub proof fn reasons_of_policy_mean_what_they_say(
    i: CapacityInput,
    c: Comparisons,
    p: PolicyThresholds,
)
    requires
        i.admission.connect_cc > 0,
    ensures
        ({
            let reasons = all_reasons(findings_on(i, c, p));
            &&& reasons.contains(CapacityReason::ExpectedControlRateHigh) <==> control_known(i) && p.control is Some && c.control_rate_high
            &&& reasons.contains(CapacityReason::AdmissionWavesHigh) <==> p.waves is Some && i.workload.physical_connections > p.waves->0 * i.admission.connect_cc
        }),
{
    let f = findings_on(i, c, p);
    lemma_facts(i, c, p);
    if p.waves is Some {
        lemma_waves(i.workload.physical_connections, i.admission.connect_cc, p.waves->0);
    }
    lemma_sorted_out(f, CapacityReason::ExpectedControlRateHigh);
    lemma_policy_group(f, CapacityReason::ExpectedControlRateHigh);
    lemma_sorted_out(f, CapacityReason::AdmissionWavesHigh);
    lemma_policy_group(f, CapacityReason::AdmissionWavesHigh);
}

proof fn lemma_waves(connections: u64, connect_cc: u64, limit: u64)
    requires
        connect_cc > 0,
    ensures
        waves(connections, connect_cc) > limit <==> connections > limit * connect_cc,
{
    let n = connections as int;
    let d = connect_cc as int;
    let k = limit as int;
    let q = n / d;
    let r = n % d;
    assert(n == q * d + r && 0 <= r < d) by (nonlinear_arith)
        requires
            d > 0,
            q == n / d,
            r == n % d,
    ;
    if q > k {
        assert(q * d >= k * d + d) by (nonlinear_arith)
            requires
                q >= k + 1,
                d > 0,
        ;
    } else if q < k {
        assert(q * d + d <= k * d) by (nonlinear_arith)
            requires
                q + 1 <= k,
                d > 0,
        ;
    }
    assert(k * d == limit * connect_cc);
}

/// A reason is given by its own group, if at all.
proof fn lemma_sorted_out(f: Findings, x: CapacityReason)
    ensures
        all_reasons(f).contains(x) <==> match x {
            CapacityReason::PayloadExceedsProtocolMtu => in_pacing(f, x),
            CapacityReason::PayloadExceedsIpv4MtuEnvelope => in_pacing(f, x),
            CapacityReason::SourceExceedsPacingEnvelope => in_pacing(f, x),
            CapacityReason::ProtocolOverheadExceedsPacingHeadroom => in_pacing(f, x),
            CapacityReason::WindowBelowBdpRequirement => in_window(f, x),
            CapacityReason::WindowHeadroomLow => in_window(f, x),
            CapacityReason::RecoveryMarginInsufficient => in_recovery(f, x),
            CapacityReason::ExpectedRttUnknown => in_network(f, x),
            CapacityReason::RttVarianceUnknown => in_network(f, x),
            CapacityReason::ExpectedLossUnknown => in_network(f, x),
            CapacityReason::ReorderImpactUnmodeled => in_network(f, x),
            CapacityReason::BondLegDistributionUnknown => in_window(f, x),
            CapacityReason::ControlRateUncertain => in_network(f, x),
            CapacityReason::EffectiveSocketBufferUnknown => in_socket(f, x),
            CapacityReason::SocketBufferHorizonLow => in_socket(f, x),
            CapacityReason::HostPpsCapacityUnknown => in_host(f, x),
            CapacityReason::PredictedPacketWorkUnknown => in_host(f, x),
            CapacityReason::HostPpsHeadroomLow => in_host(f, x),
            CapacityReason::HostPpsCapacityExceeded => in_host(f, x),
            CapacityReason::NicCapacityUnknown => in_nic(f, x),
            CapacityReason::NicWireRateUnknown => in_nic(f, x),
            CapacityReason::NicHeadroomLow => in_nic(f, x),
            CapacityReason::NicCapacityExceeded => in_nic(f, x),
            CapacityReason::ExpectedControlRateHigh => in_policy(f, x),
            CapacityReason::AdmissionWavesHigh => in_policy(f, x),
        },
{
    lemma_in_groups(f, x);
    lemma_pacing_group(f, x);
    lemma_window_group(f, x);
    lemma_recovery_group(f, x);
    lemma_network_group(f, x);
    lemma_socket_group(f, x);
    lemma_host_group(f, x);
    lemma_nic_group(f, x);
    lemma_policy_group(f, x);
}

/// What the findings come to in terms of the input.
proof fn lemma_facts(i: CapacityInput, c: Comparisons, p: PolicyThresholds)
    ensures
        ({
            let f = findings_on(i, c, p);
            let load = load_known(known_inputs(i, c), traffic_known(known_inputs(i, c)));
            let traffic = traffic_known(known_inputs(i, c));
            &&& traffic.leg == Knowledge::Known <==> legs_told_apart(i)
            &&& traffic.leg == Knowledge::Unknown <==> !legs_told_apart(i)
            &&& traffic.control == Knowledge::Known <==> control_known(i)
            &&& load.window == Knowledge::Known <==> window_known(i)
            &&& f.sender_host.used == Knowledge::Known <==> work_known(i)
                && i.sender.host_pps_capacity == Knowledge::Known
            &&& f.receiver_host.used == Knowledge::Known <==> work_known(i)
                && i.receiver.host_pps_capacity == Knowledge::Known
            &&& i.sender.host_pps_capacity == Knowledge::Known && !work_known(i)
                ==> f.sender_host.used == Knowledge::Unknown
            &&& i.receiver.host_pps_capacity == Knowledge::Known && !work_known(i)
                ==> f.receiver_host.used == Knowledge::Unknown
        }),
{
}

/// The class of an assessment: a cell exceeds its envelope exactly where a packet does not
/// fit, a window is too small, or either end's host or card is over its capacity; failing
/// that it is a diagnostic control where pacing holds the source back; failing that it
/// needs that nothing at all is said against it to be a production candidate.
pub proof fn classes_mean_what_they_say(i: CapacityInput, c: Comparisons, p: PolicyThresholds)
    ensures
        ({
            let reasons = all_reasons(findings_on(i, c, p));
            let class = class_of(reasons);
            let hard = reasons.contains(CapacityReason::PayloadExceedsProtocolMtu)
                || reasons.contains(CapacityReason::PayloadExceedsIpv4MtuEnvelope)
                || reasons.contains(CapacityReason::WindowBelowBdpRequirement)
                || reasons.contains(CapacityReason::HostPpsCapacityExceeded)
                || reasons.contains(CapacityReason::NicCapacityExceeded);
            let held = reasons.contains(CapacityReason::SourceExceedsPacingEnvelope)
                || reasons.contains(CapacityReason::ProtocolOverheadExceedsPacingHeadroom);
            &&& class == CellClass::ExceedsEnvelope <==> hard
            &&& class == CellClass::DiagnosticControl <==> !hard && held
            &&& class == CellClass::ProductionCandidate <==> reasons.len() == 0
            &&& class == CellClass::Conditional <==> !hard && !held && reasons.len() > 0
        }),
{
    let reasons = all_reasons(findings_on(i, c, p));
    lemma_weights(reasons, ReasonSeverity::Hard);
    lemma_weights(reasons, ReasonSeverity::Diagnostic);
}

proof fn lemma_weights(reasons: Seq<CapacityReason>, weight: ReasonSeverity)
    ensures
        has_weight(reasons, weight) <==> exists|x: CapacityReason| #[trigger]
            reasons.contains(x) && x.weight() == weight,
{
    if has_weight(reasons, weight) {
        let k = choose|k: int| 0 <= k < reasons.len() && (#[trigger] reasons[k]).weight() == weight;
        assert(reasons.contains(reasons[k]));
    }
    if exists|x: CapacityReason| #[trigger] reasons.contains(x) && x.weight() == weight {
        let x = choose|x: CapacityReason| #[trigger] reasons.contains(x) && x.weight() == weight;
        assert(reasons[reasons.index_of(x)].weight() == weight);
    }
}

/// An overloaded end is noticed, whichever it is, where its load can be known at all: the
/// cell then exceeds its envelope.
pub proof fn an_overloaded_end_is_noticed(i: CapacityInput, c: Comparisons, p: PolicyThresholds)
    requires
        i.network.expected_loss_probability == Knowledge::Known,
        i.protocol.bond == BondMode::Unbonded,
        i.sender.host_pps_capacity == Knowledge::Known,
        i.receiver.host_pps_capacity == Knowledge::Known,
        c.sender_host.over_capacity || c.receiver_host.over_capacity,
    ensures
        all_reasons(findings_on(i, c, p)).contains(CapacityReason::HostPpsCapacityExceeded),
        class_of(all_reasons(findings_on(i, c, p))) == CellClass::ExceedsEnvelope,
{
    reasons_on_hosts_mean_what_they_say(i, c, p);
    classes_mean_what_they_say(i, c, p);
}

/// Exchanging what the two ends' hosts and cards can do, and how far they are used, changes
/// nothing that is said of either.
pub proof fn ends_are_treated_alike(
    i: CapacityInput,
    j: CapacityInput,
    c: Comparisons,
    d: Comparisons,
    p: PolicyThresholds,
    x: CapacityReason,
)
    requires
        j.workload == i.workload,
        j.protocol == i.protocol,
        j.network == i.network,
        j.sender.host_pps_capacity == i.receiver.host_pps_capacity,
        j.receiver.host_pps_capacity == i.sender.host_pps_capacity,
        j.sender.nic_capacity_bps == i.receiver.nic_capacity_bps,
        j.receiver.nic_capacity_bps == i.sender.nic_capacity_bps,
        d.sender_host == c.receiver_host,
        d.receiver_host == c.sender_host,
        d.sender_nic == c.receiver_nic,
        d.receiver_nic == c.sender_nic,
        x == CapacityReason::HostPpsCapacityUnknown || x
            == CapacityReason::PredictedPacketWorkUnknown || x
            == CapacityReason::HostPpsCapacityExceeded || x == CapacityReason::HostPpsHeadroomLow
            || x == CapacityReason::NicCapacityUnknown || x == CapacityReason::NicWireRateUnknown
            || x == CapacityReason::NicCapacityExceeded || x == CapacityReason::NicHeadroomLow,
    ensures
        all_reasons(findings_on(i, c, p)).contains(x) <==> all_reasons(
            findings_on(j, d, p),
        ).contains(x),
{
    reasons_on_hosts_mean_what_they_say(i, c, p);
    reasons_on_hosts_mean_what_they_say(j, d, p);
    reasons_on_cards_mean_what_they_say(i, c, p);
    reasons_on_cards_mean_what_they_say(j, d, p);
}

/// The code of each reason is its name.
pub proof fn codes_are_names()
    ensures
        CapacityReason::PayloadExceedsProtocolMtu.text() == "payload_exceeds_protocol_mtu"@,
        CapacityReason::PayloadExceedsIpv4MtuEnvelope.text() == "payload_exceeds_ipv4_mtu_envelope"@,
        CapacityReason::SourceExceedsPacingEnvelope.text() == "source_exceeds_pacing_envelope"@,
        CapacityReason::ProtocolOverheadExceedsPacingHeadroom.text() == "protocol_overhead_exceeds_pacing_headroom"@,
        CapacityReason::WindowBelowBdpRequirement.text() == "window_below_bdp_requirement"@,
        CapacityReason::WindowHeadroomLow.text() == "window_headroom_low"@,
        CapacityReason::RecoveryMarginInsufficient.text() == "recovery_margin_insufficient"@,
        CapacityReason::ExpectedRttUnknown.text() == "expected_rtt_unknown"@,
        CapacityReason::RttVarianceUnknown.text() == "rtt_variance_unknown"@,
        CapacityReason::ExpectedLossUnknown.text() == "expected_loss_unknown"@,
        CapacityReason::ReorderImpactUnmodeled.text() == "reorder_impact_unmodeled"@,
        CapacityReason::BondLegDistributionUnknown.text() == "bond_leg_distribution_unknown"@,
        CapacityReason::ControlRateUncertain.text() == "control_rate_uncertain"@,
        CapacityReason::EffectiveSocketBufferUnknown.text() == "effective_socket_buffer_unknown"@,
        CapacityReason::SocketBufferHorizonLow.text() == "socket_buffer_horizon_low"@,
        CapacityReason::HostPpsCapacityUnknown.text() == "host_pps_capacity_unknown"@,
        CapacityReason::PredictedPacketWorkUnknown.text() == "predicted_packet_work_unknown"@,
        CapacityReason::HostPpsHeadroomLow.text() == "host_pps_headroom_low"@,
        CapacityReason::HostPpsCapacityExceeded.text() == "host_pps_capacity_exceeded"@,
        CapacityReason::NicCapacityUnknown.text() == "nic_capacity_unknown"@,
        CapacityReason::NicWireRateUnknown.text() == "nic_wire_rate_unknown"@,
        CapacityReason::NicHeadroomLow.text() == "nic_headroom_low"@,
        CapacityReason::NicCapacityExceeded.text() == "nic_capacity_exceeded"@,
        CapacityReason::ExpectedControlRateHigh.text() == "expected_control_rate_high"@,
        CapacityReason::AdmissionWavesHigh.text() == "admission_waves_high"@,
{
}

} // verus!
