//! The capacity model's vocabulary and the decisions it takes.
//!
//! Rates and ratios are fractions, which whoever derives them compares with the
//! policy's thresholds; here is what follows from an input and from the outcome of each
//! comparison on what is known of it.
use crate::capacity_args::{PolicyThresholds, policy_fingerprint, policy_fingerprint_text};
use crate::cli::{BandwidthPolicy, Encryption};
use crate::derivation::{
    KnownInputs, LoadKnowledge, TrafficKnowledge, derive_load, derive_traffic, load_known,
    traffic_known,
};
use crate::text::{decimal, join, joined, lemma_texts_push, render, texts};
use vstd::prelude::*;

verus! {

/// Payload bytes of one packet of the standard workload.
pub const PAYLOAD_SIZE: usize = 1316;

/// The smallest flow window that the protocol runs with, in packets.
pub const MIN_FLOW_WINDOW_PACKETS: u32 = 32;

/// The largest flow window that the protocol runs with, in packets.
pub const MAX_FLOW_WINDOW: u32 = 65_536;

/// Bytes that an authenticated cipher adds to a packet.
pub const GCM_TAG_LEN: u64 = 16;

/// Revision of the classifier's thresholds.
pub const CLASSIFIER_POLICY_REVISION: &'static str = "stage-a-v1-no-unvalidated-margin";

/// `shiguredo_srt::SRT_HEADER_SIZE`, the bytes of an SRT header: 16.
#[verifier::external_body]
fn srt_header_size() -> (r: usize)
    ensures
        r == 16,
{
    shiguredo_srt::SRT_HEADER_SIZE
}

/// `shiguredo_srt::DEFAULT_MTU`, the largest packet that the protocol sends: 1500.
#[verifier::external_body]
fn default_mtu() -> (r: u32)
    ensures
        r == 1500,
{
    shiguredo_srt::DEFAULT_MTU
}

/// A value that may be unknown, or may not apply at all. Neither is zero or
/// infinite.
#[derive(Clone, Copy, PartialEq, Debug)]
pub enum Availability<T> {
    Known(T),
    Unknown,
    NotApplicable,
}

impl<T> Availability<T> {
    #[must_use]
    pub fn is_known(self) -> (r: bool)
        ensures
            r == (self is Known),
    {
        match self {
            Availability::Known(_) => true,
            _ => false,
        }
    }
}

/// How an input or a result is rendered.
pub open spec fn availability_text(v: Availability<Seq<char>>) -> Seq<char> {
    match v {
        Availability::Known(s) => s,
        Availability::Unknown => "unknown"@,
        Availability::NotApplicable => "n/a"@,
    }
}

/// Renders a value whose text is known, `unknown`, or `n/a`.
pub fn model_value(value: &Availability<String>) -> (r: String)
    ensures
        r@ == availability_text(
            match *value {
                Availability::Known(s) => Availability::Known(s@),
                Availability::Unknown => Availability::Unknown,
                Availability::NotApplicable => Availability::NotApplicable,
            },
        ),
{
    match value {
        Availability::Known(s) => s.clone(),
        Availability::Unknown => "unknown".to_owned(),
        Availability::NotApplicable => "n/a".to_owned(),
    }
}

/// How SRT is told to pace the source.
#[derive(Clone, Copy, PartialEq, Eq, Debug, Structural)]
pub enum SrtBandwidthPolicy {
    ProtocolDefault,
    LegacySourceFixed,
    FixedBps(u64),
    InputRelative { overhead_percent: u8 },
}

impl Default for SrtBandwidthPolicy {
    fn default() -> (r: Self)
        ensures
            r == SrtBandwidthPolicy::LegacySourceFixed,
    {
        SrtBandwidthPolicy::LegacySourceFixed
    }
}

impl SrtBandwidthPolicy {
    pub open spec fn text(self) -> Seq<char> {
        match self {
            SrtBandwidthPolicy::ProtocolDefault => "protocol-default"@,
            SrtBandwidthPolicy::LegacySourceFixed => "legacy-source-fixed"@,
            SrtBandwidthPolicy::FixedBps(bps) => "fixed:"@ + decimal(bps as nat),
            SrtBandwidthPolicy::InputRelative { overhead_percent } => "input-relative:"@ + decimal(
                overhead_percent as nat,
            ),
        }
    }

    #[must_use]
    pub fn name(self) -> (r: String)
        ensures
            r@ == self.text(),
    {
        match self {
            SrtBandwidthPolicy::ProtocolDefault => "protocol-default".to_owned(),
            SrtBandwidthPolicy::LegacySourceFixed => "legacy-source-fixed".to_owned(),
            SrtBandwidthPolicy::FixedBps(bps) => {
                let mut out = "fixed:".to_owned();
                out.append(render(bps).as_str());
                out
            },
            SrtBandwidthPolicy::InputRelative { overhead_percent } => {
                let mut out = "input-relative:".to_owned();
                out.append(render(overhead_percent as u64).as_str());
                out
            },
        }
    }

    /// The policy of a run's configuration.
    pub fn of_config(policy: BandwidthPolicy) -> (r: Self)
        ensures
            r == match policy {
                BandwidthPolicy::ProtocolDefault => SrtBandwidthPolicy::ProtocolDefault,
                BandwidthPolicy::LegacySourceFixed => SrtBandwidthPolicy::LegacySourceFixed,
                BandwidthPolicy::Fixed(bps) => SrtBandwidthPolicy::FixedBps(bps),
                BandwidthPolicy::InputRelative {
                    overhead_percent,
                } => SrtBandwidthPolicy::InputRelative { overhead_percent },
            },
    {
        match policy {
            BandwidthPolicy::ProtocolDefault => SrtBandwidthPolicy::ProtocolDefault,
            BandwidthPolicy::LegacySourceFixed => SrtBandwidthPolicy::LegacySourceFixed,
            BandwidthPolicy::Fixed(bps) => SrtBandwidthPolicy::FixedBps(bps),
            BandwidthPolicy::InputRelative {
                overhead_percent,
            } => SrtBandwidthPolicy::InputRelative { overhead_percent },
        }
    }
}

/// How the legs of a stream share its packets.
#[derive(Clone, Copy, PartialEq, Eq, Debug, Structural)]
pub enum BondMode {
    Unbonded,
    Broadcast,
    Backup,
}

impl BondMode {
    pub open spec fn text(self) -> Seq<char> {
        match self {
            BondMode::Unbonded => "none"@,
            BondMode::Broadcast => "broadcast"@,
            BondMode::Backup => "backup"@,
        }
    }

    #[must_use]
    pub fn name(self) -> (r: &'static str)
        ensures
            r@ == self.text(),
    {
        match self {
            BondMode::Unbonded => "none",
            BondMode::Broadcast => "broadcast",
            BondMode::Backup => "backup",
        }
    }
}

/// Packet encryption.
#[derive(Clone, Copy, PartialEq, Eq, Debug, Structural)]
pub enum EncryptionMode {
    Plain,
    Aes128,
    Aes192,
    Aes256,
}

impl EncryptionMode {
    pub open spec fn text(self) -> Seq<char> {
        match self {
            EncryptionMode::Plain => "plain"@,
            EncryptionMode::Aes128 => "128"@,
            EncryptionMode::Aes192 => "192"@,
            EncryptionMode::Aes256 => "256"@,
        }
    }

    #[must_use]
    pub fn name(self) -> (r: &'static str)
        ensures
            r@ == self.text(),
    {
        match self {
            EncryptionMode::Plain => "plain",
            EncryptionMode::Aes128 => "128",
            EncryptionMode::Aes192 => "192",
            EncryptionMode::Aes256 => "256",
        }
    }
}

/// How a cipher is run.
#[derive(Clone, Copy, PartialEq, Eq, Debug, Structural)]
pub enum CipherMode {
    Ctr,
    Gcm,
}

impl EncryptionMode {
    /// The mode of a run's configuration.
    pub fn of_config(encryption: Encryption) -> (r: Self)
        ensures
            r == match encryption {
                Encryption::Plain => EncryptionMode::Plain,
                Encryption::Aes128 => EncryptionMode::Aes128,
                Encryption::Aes192 => EncryptionMode::Aes192,
                Encryption::Aes256 => EncryptionMode::Aes256,
            },
    {
        match encryption {
            Encryption::Plain => EncryptionMode::Plain,
            Encryption::Aes128 => EncryptionMode::Aes128,
            Encryption::Aes192 => EncryptionMode::Aes192,
            Encryption::Aes256 => EncryptionMode::Aes256,
        }
    }

    /// Bytes that encryption adds to a packet.
    pub open spec fn tag(self, cipher: CipherMode) -> u64 {
        if self == EncryptionMode::Plain || cipher == CipherMode::Ctr {
            0
        } else {
            GCM_TAG_LEN
        }
    }

    #[must_use]
    pub fn tag_bytes(self, cipher: CipherMode) -> (r: u64)
        ensures
            r == self.tag(cipher),
    {
        if self == EncryptionMode::Plain || cipher == CipherMode::Ctr {
            0
        } else {
            GCM_TAG_LEN
        }
    }
}

/// `n` brought into `low..=high`.
pub open spec fn clamped(n: u32, low: u32, high: u32) -> u32 {
    if n < low {
        low
    } else if n > high {
        high
    } else {
        n
    }
}

/// The windows that the protocol runs with, in packets: the flow window within its
/// bounds, and the receive window between the minimum and the flow window.
#[must_use]
pub fn effective_windows(flow_requested: u32, receive_requested: u32) -> (r: (u32, u32))
    ensures
        r.0 == clamped(flow_requested, MIN_FLOW_WINDOW_PACKETS, MAX_FLOW_WINDOW),
        r.1 == clamped(receive_requested, MIN_FLOW_WINDOW_PACKETS, r.0),
        MIN_FLOW_WINDOW_PACKETS <= r.1 <= r.0 <= MAX_FLOW_WINDOW,
{
    let flow: u32 = if flow_requested < MIN_FLOW_WINDOW_PACKETS {
        MIN_FLOW_WINDOW_PACKETS
    } else if flow_requested > MAX_FLOW_WINDOW {
        MAX_FLOW_WINDOW
    } else {
        flow_requested
    };
    let receive: u32 = if receive_requested < MIN_FLOW_WINDOW_PACKETS {
        MIN_FLOW_WINDOW_PACKETS
    } else {
        receive_requested
    };
    (
        flow,
        if receive > flow {
            flow
        } else {
            receive
        },
    )
}

/// Bytes of one packet as pacing counts them.
#[must_use]
pub fn pacing_packet_size_bytes(payload_bytes: u64) -> (r: u64)
    requires
        payload_bytes + 16 <= u64::MAX,
    ensures
        r == payload_bytes + 16,
{
    srt_header_size() as u64 + payload_bytes
}

/// Bytes of one packet on the wire, below the link layer.
pub open spec fn encoded_size(
    payload_bytes: u64,
    encryption: EncryptionMode,
    cipher: CipherMode,
    udp_ip_header_bytes: u64,
) -> int {
    udp_ip_header_bytes + 16 + payload_bytes + encryption.tag(cipher)
}

#[must_use]
pub fn encoded_packet_size_bytes(
    payload_bytes: u64,
    encryption: EncryptionMode,
    cipher: CipherMode,
    udp_ip_header_bytes: u64,
) -> (r: u64)
    requires
        encoded_size(payload_bytes, encryption, cipher, udp_ip_header_bytes) <= u64::MAX,
    ensures
        r == encoded_size(payload_bytes, encryption, cipher, udp_ip_header_bytes),
{
    udp_ip_header_bytes + srt_header_size() as u64 + payload_bytes + encryption.tag_bytes(cipher)
}

/// A request for a socket buffer.
#[derive(Clone, Copy, PartialEq, Eq, Debug, Structural)]
pub enum SocketBufferRequest {
    SystemDefault,
    Bytes(u64),
}

impl SocketBufferRequest {
    #[must_use]
    pub fn from_bytes(bytes: u64) -> (r: Self)
        ensures
            r == if bytes == 0 {
                SocketBufferRequest::SystemDefault
            } else {
                SocketBufferRequest::Bytes(bytes)
            },
    {
        if bytes == 0 {
            SocketBufferRequest::SystemDefault
        } else {
            SocketBufferRequest::Bytes(bytes)
        }
    }
}

/// What the application asks for.
#[derive(Clone, Copy, PartialEq, Eq, Debug, Structural)]
pub struct WorkloadEnvelope {
    pub source_bps_per_stream: u64,
    pub source_streams: u64,
    pub physical_connections: u64,
    pub logical_streams: u64,
    pub payload_bytes: u64,
    pub duration_us: u64,
}

/// How callers are let in.
#[derive(Clone, Copy, PartialEq, Eq, Debug, Structural)]
pub struct AdmissionEnvelope {
    pub connect_cc: u64,
}

impl Default for AdmissionEnvelope {
    fn default() -> (r: Self)
        ensures
            r.connect_cc == 1,
    {
        AdmissionEnvelope { connect_cc: 1 }
    }
}

/// What one host offers. Of a capacity that is a fraction, only whether it is known.
#[derive(Clone, Copy, PartialEq, Debug)]
pub struct EndpointEnvelope {
    pub effective_receive_socket_buffer_bytes: Availability<u64>,
    pub effective_send_socket_buffer_bytes: Availability<u64>,
    pub rx_socket_fan_in: u64,
    pub tx_socket_fan_in: u64,
    pub host_pps_capacity: Knowledge,
    pub nic_capacity_bps: Availability<u64>,
    pub workers: u64,
}

/// What the network is expected to do. Of a probability, only whether it is known.
#[derive(Clone, Copy, PartialEq, Debug)]
pub struct NetworkEnvelope {
    /// In nanoseconds.
    pub expected_rtt: Availability<u64>,
    /// In nanoseconds.
    pub rtt_jitter: Availability<u64>,
    pub expected_loss_probability: Knowledge,
    pub expected_reorder_probability: Knowledge,
    pub udp_ip_header_bytes: u64,
    pub nic_link_overhead_bytes: Availability<u64>,
}

/// How the protocol is configured.
#[derive(Clone, Copy, PartialEq, Eq, Debug, Structural)]
pub struct ProtocolEnvelope {
    pub bandwidth: SrtBandwidthPolicy,
    pub encryption: EncryptionMode,
    pub cipher_mode: CipherMode,
    pub flow_window_packets: u32,
    pub receive_window_packets: u32,
    pub tsbpd_latency_ms: u64,
    pub bond: BondMode,
}

/// Why an input cannot be assessed.
#[derive(Debug)]
pub struct ModelError(pub String);

// ---------------------------------------------------------------------------
// Validation
// ---------------------------------------------------------------------------

/// What is wrong with a workload, if anything is.
pub open spec fn workload_error(w: WorkloadEnvelope) -> Option<Seq<char>> {
    if w.source_bps_per_stream == 0 || w.source_streams == 0 || w.physical_connections == 0
        || w.logical_streams == 0 || w.payload_bytes == 0 || w.duration_us == 0 {
        Some("workload rates, counts, payload, and duration must be positive"@)
    } else if w.physical_connections < w.logical_streams {
        Some("physical_connections must be at least logical_streams"@)
    } else {
        None
    }
}

/// Whether an outcome is the error that `want` describes, or none.
pub open spec fn reports(got: Result<(), ModelError>, want: Option<Seq<char>>) -> bool {
    match (got, want) {
        (Ok(()), None) => true,
        (Err(e), Some(m)) => e.0@ == m,
        _ => false,
    }
}

pub fn validate_workload(w: &WorkloadEnvelope) -> (r: Result<(), ModelError>)
    ensures
        reports(r, workload_error(*w)),
{
    if w.source_bps_per_stream == 0 || w.source_streams == 0 || w.physical_connections == 0
        || w.logical_streams == 0 || w.payload_bytes == 0 || w.duration_us == 0 {
        return Err(
            ModelError(
                "workload rates, counts, payload, and duration must be positive".to_owned(),
            ),
        );
    }
    if w.physical_connections < w.logical_streams {
        return Err(
            ModelError("physical_connections must be at least logical_streams".to_owned()),
        );
    }
    Ok(())
}

/// What is wrong with the protocol's settings and the endpoints' counts.
pub open spec fn protocol_error(
    p: ProtocolEnvelope,
    admission: AdmissionEnvelope,
    sender: EndpointEnvelope,
    receiver: EndpointEnvelope,
) -> Option<Seq<char>> {
    if p.encryption == EncryptionMode::Aes192 && p.cipher_mode == CipherMode::Gcm {
        Some("AES-192 is not supported with GCM mode"@)
    } else if admission.connect_cc == 0 {
        Some("connect_cc must be positive"@)
    } else if sender.rx_socket_fan_in == 0 || sender.tx_socket_fan_in == 0
        || receiver.rx_socket_fan_in == 0 || receiver.tx_socket_fan_in == 0 || sender.workers == 0
        || receiver.workers == 0 {
        Some("endpoint socket fan-in and workers must be positive"@)
    } else {
        match p.bandwidth {
            SrtBandwidthPolicy::FixedBps(bps) => if bps == 0 {
                Some("fixed pacing bandwidth must be positive"@)
            } else {
                None
            },
            SrtBandwidthPolicy::InputRelative { overhead_percent } => if overhead_percent < 5
                || overhead_percent > 100 {
                Some("input-relative overhead must be between 5 and 100 percent"@)
            } else {
                None
            },
            _ => None,
        }
    }
}

pub fn validate_protocol(
    p: &ProtocolEnvelope,
    admission: &AdmissionEnvelope,
    sender: &EndpointEnvelope,
    receiver: &EndpointEnvelope,
) -> (r: Result<(), ModelError>)
    ensures
        reports(r, protocol_error(*p, *admission, *sender, *receiver)),
{
    if p.encryption == EncryptionMode::Aes192 && p.cipher_mode == CipherMode::Gcm {
        return Err(ModelError("AES-192 is not supported with GCM mode".to_owned()));
    }
    if admission.connect_cc == 0 {
        return Err(ModelError("connect_cc must be positive".to_owned()));
    }
    if sender.rx_socket_fan_in == 0 || sender.tx_socket_fan_in == 0 || receiver.rx_socket_fan_in
        == 0 || receiver.tx_socket_fan_in == 0 || sender.workers == 0 || receiver.workers == 0 {
        return Err(
            ModelError("endpoint socket fan-in and workers must be positive".to_owned()),
        );
    }
    match p.bandwidth {
        SrtBandwidthPolicy::FixedBps(bps) => {
            if bps == 0 {
                return Err(ModelError("fixed pacing bandwidth must be positive".to_owned()));
            }
        },
        SrtBandwidthPolicy::InputRelative { overhead_percent } => {
            if overhead_percent < 5 || overhead_percent > 100 {
                return Err(
                    ModelError(
                        "input-relative overhead must be between 5 and 100 percent".to_owned(),
                    ),
                );
            }
        },
        _ => {},
    }
    Ok(())
}

/// The outcome of each test on a fraction. Where the fraction is not known, its test has
/// no say.
#[derive(Clone, Copy, PartialEq, Eq, Debug, Structural)]
pub struct RangeChecks {
    pub loss_in_range: bool,
    pub reorder_in_range: bool,
    pub sender_host_positive: bool,
    pub receiver_host_positive: bool,
    pub policy_valid: bool,
}

/// What is wrong with the network, the hosts and the policy.
pub open spec fn range_error(
    network: NetworkEnvelope,
    sender: EndpointEnvelope,
    receiver: EndpointEnvelope,
    c: RangeChecks,
) -> Option<Seq<char>> {
    if network.expected_loss_probability == Knowledge::Known && !c.loss_in_range {
        Some("expected loss probability must satisfy 0 <= p < 1"@)
    } else if network.expected_reorder_probability == Knowledge::Known && !c.reorder_in_range {
        Some("expected reorder probability must satisfy 0 <= p <= 1"@)
    } else if (sender.host_pps_capacity == Knowledge::Known && !c.sender_host_positive) || (
    receiver.host_pps_capacity == Knowledge::Known && !c.receiver_host_positive) {
        Some("known host PPS capacity must be finite and positive"@)
    } else if sender.nic_capacity_bps == Availability::Known(0u64) || receiver.nic_capacity_bps
        == Availability::Known(0u64) {
        Some("known NIC capacity must be positive"@)
    } else if !c.policy_valid {
        Some("classifier policy thresholds are invalid"@)
    } else {
        None
    }
}

fn is_none_at_all(capacity: Availability<u64>) -> (r: bool)
    ensures
        r == (capacity == Availability::Known(0u64)),
{
    match capacity {
        Availability::Known(n) => n == 0,
        _ => false,
    }
}

pub fn validate_ranges(
    network: &NetworkEnvelope,
    sender: &EndpointEnvelope,
    receiver: &EndpointEnvelope,
    c: &RangeChecks,
) -> (r: Result<(), ModelError>)
    ensures
        reports(r, range_error(*network, *sender, *receiver, *c)),
{
    if network.expected_loss_probability == Knowledge::Known && !c.loss_in_range {
        return Err(ModelError("expected loss probability must satisfy 0 <= p < 1".to_owned()));
    }
    if network.expected_reorder_probability == Knowledge::Known && !c.reorder_in_range {
        return Err(
            ModelError("expected reorder probability must satisfy 0 <= p <= 1".to_owned()),
        );
    }
    if (sender.host_pps_capacity == Knowledge::Known && !c.sender_host_positive) || (
    receiver.host_pps_capacity == Knowledge::Known && !c.receiver_host_positive) {
        return Err(ModelError("known host PPS capacity must be finite and positive".to_owned()));
    }
    if is_none_at_all(sender.nic_capacity_bps) || is_none_at_all(receiver.nic_capacity_bps) {
        return Err(ModelError("known NIC capacity must be positive".to_owned()));
    }
    if !c.policy_valid {
        return Err(ModelError("classifier policy thresholds are invalid".to_owned()));
    }
    Ok(())
}

/// How many rounds of handshakes it takes to connect everybody.
pub open spec fn waves(connections: u64, connect_cc: u64) -> int {
    if connections % connect_cc == 0 {
        connections as int / connect_cc as int
    } else {
        connections as int / connect_cc as int + 1
    }
}

pub fn admission_waves(connections: u64, connect_cc: u64) -> (r: u64)
    requires
        connect_cc > 0,
    ensures
        r == waves(connections, connect_cc),
{
    let whole: u64 = connections / connect_cc;
    if connections % connect_cc == 0 {
        whole
    } else {
        assert(whole < u64::MAX) by (nonlinear_arith)
            requires
                connect_cc > 0,
                whole == connections / connect_cc,
                connections % connect_cc != 0,
                0 <= connections <= u64::MAX,
        ;
        whole + 1
    }
}

// ---------------------------------------------------------------------------
// Reasons
// ---------------------------------------------------------------------------

/// How much a reason weighs.
#[derive(Clone, Copy, PartialEq, Eq, Debug, Structural)]
pub enum ReasonSeverity {
    Hard,
    Diagnostic,
    Conditional,
}

impl ReasonSeverity {
    pub open spec fn text(self) -> Seq<char> {
        match self {
            ReasonSeverity::Hard => "hard"@,
            ReasonSeverity::Diagnostic => "diagnostic"@,
            ReasonSeverity::Conditional => "conditional"@,
        }
    }

    #[must_use]
    pub fn name(self) -> (r: &'static str)
        ensures
            r@ == self.text(),
    {
        match self {
            ReasonSeverity::Hard => "hard",
            ReasonSeverity::Diagnostic => "diagnostic",
            ReasonSeverity::Conditional => "conditional",
        }
    }
}

/// Why a cell is not simply a production candidate.
#[derive(Clone, Copy, PartialEq, Eq, Debug, Structural)]
pub enum CapacityReason {
    PayloadExceedsProtocolMtu,
    PayloadExceedsIpv4MtuEnvelope,
    SourceExceedsPacingEnvelope,
    ProtocolOverheadExceedsPacingHeadroom,
    WindowBelowBdpRequirement,
    WindowHeadroomLow,
    RecoveryMarginInsufficient,
    ExpectedRttUnknown,
    RttVarianceUnknown,
    ExpectedLossUnknown,
    ReorderImpactUnmodeled,
    BondLegDistributionUnknown,
    ControlRateUncertain,
    EffectiveSocketBufferUnknown,
    SocketBufferHorizonLow,
    HostPpsCapacityUnknown,
    PredictedPacketWorkUnknown,
    HostPpsHeadroomLow,
    HostPpsCapacityExceeded,
    NicCapacityUnknown,
    NicWireRateUnknown,
    NicHeadroomLow,
    NicCapacityExceeded,
    ExpectedControlRateHigh,
    AdmissionWavesHigh,
}

impl CapacityReason {
    pub open spec fn text(self) -> Seq<char> {
        match self {
            CapacityReason::PayloadExceedsProtocolMtu => "payload_exceeds_protocol_mtu"@,
            CapacityReason::PayloadExceedsIpv4MtuEnvelope => "payload_exceeds_ipv4_mtu_envelope"@,
            CapacityReason::SourceExceedsPacingEnvelope => "source_exceeds_pacing_envelope"@,
            CapacityReason::ProtocolOverheadExceedsPacingHeadroom => "protocol_overhead_exceeds_pacing_headroom"@,
            CapacityReason::WindowBelowBdpRequirement => "window_below_bdp_requirement"@,
            CapacityReason::WindowHeadroomLow => "window_headroom_low"@,
            CapacityReason::RecoveryMarginInsufficient => "recovery_margin_insufficient"@,
            CapacityReason::ExpectedRttUnknown => "expected_rtt_unknown"@,
            CapacityReason::RttVarianceUnknown => "rtt_variance_unknown"@,
            CapacityReason::ExpectedLossUnknown => "expected_loss_unknown"@,
            CapacityReason::ReorderImpactUnmodeled => "reorder_impact_unmodeled"@,
            CapacityReason::BondLegDistributionUnknown => "bond_leg_distribution_unknown"@,
            CapacityReason::ControlRateUncertain => "control_rate_uncertain"@,
            CapacityReason::EffectiveSocketBufferUnknown => "effective_socket_buffer_unknown"@,
            CapacityReason::SocketBufferHorizonLow => "socket_buffer_horizon_low"@,
            CapacityReason::HostPpsCapacityUnknown => "host_pps_capacity_unknown"@,
            CapacityReason::PredictedPacketWorkUnknown => "predicted_packet_work_unknown"@,
            CapacityReason::HostPpsHeadroomLow => "host_pps_headroom_low"@,
            CapacityReason::HostPpsCapacityExceeded => "host_pps_capacity_exceeded"@,
            CapacityReason::NicCapacityUnknown => "nic_capacity_unknown"@,
            CapacityReason::NicWireRateUnknown => "nic_wire_rate_unknown"@,
            CapacityReason::NicHeadroomLow => "nic_headroom_low"@,
            CapacityReason::NicCapacityExceeded => "nic_capacity_exceeded"@,
            CapacityReason::ExpectedControlRateHigh => "expected_control_rate_high"@,
            CapacityReason::AdmissionWavesHigh => "admission_waves_high"@,
        }
    }

    #[must_use]
    pub fn code(self) -> (r: &'static str)
        ensures
            r@ == self.text(),
    {
        match self {
            CapacityReason::PayloadExceedsProtocolMtu => "payload_exceeds_protocol_mtu",
            CapacityReason::PayloadExceedsIpv4MtuEnvelope => "payload_exceeds_ipv4_mtu_envelope",
            CapacityReason::SourceExceedsPacingEnvelope => "source_exceeds_pacing_envelope",
            CapacityReason::ProtocolOverheadExceedsPacingHeadroom => "protocol_overhead_exceeds_pacing_headroom",
            CapacityReason::WindowBelowBdpRequirement => "window_below_bdp_requirement",
            CapacityReason::WindowHeadroomLow => "window_headroom_low",
            CapacityReason::RecoveryMarginInsufficient => "recovery_margin_insufficient",
            CapacityReason::ExpectedRttUnknown => "expected_rtt_unknown",
            CapacityReason::RttVarianceUnknown => "rtt_variance_unknown",
            CapacityReason::ExpectedLossUnknown => "expected_loss_unknown",
            CapacityReason::ReorderImpactUnmodeled => "reorder_impact_unmodeled",
            CapacityReason::BondLegDistributionUnknown => "bond_leg_distribution_unknown",
            CapacityReason::ControlRateUncertain => "control_rate_uncertain",
            CapacityReason::EffectiveSocketBufferUnknown => "effective_socket_buffer_unknown",
            CapacityReason::SocketBufferHorizonLow => "socket_buffer_horizon_low",
            CapacityReason::HostPpsCapacityUnknown => "host_pps_capacity_unknown",
            CapacityReason::PredictedPacketWorkUnknown => "predicted_packet_work_unknown",
            CapacityReason::HostPpsHeadroomLow => "host_pps_headroom_low",
            CapacityReason::HostPpsCapacityExceeded => "host_pps_capacity_exceeded",
            CapacityReason::NicCapacityUnknown => "nic_capacity_unknown",
            CapacityReason::NicWireRateUnknown => "nic_wire_rate_unknown",
            CapacityReason::NicHeadroomLow => "nic_headroom_low",
            CapacityReason::NicCapacityExceeded => "nic_capacity_exceeded",
            CapacityReason::ExpectedControlRateHigh => "expected_control_rate_high",
            CapacityReason::AdmissionWavesHigh => "admission_waves_high",
        }
    }
}

impl CapacityReason {
    pub open spec fn weight(self) -> ReasonSeverity {
        match self {
            CapacityReason::PayloadExceedsProtocolMtu => ReasonSeverity::Hard,
            CapacityReason::PayloadExceedsIpv4MtuEnvelope => ReasonSeverity::Hard,
            CapacityReason::WindowBelowBdpRequirement => ReasonSeverity::Hard,
            CapacityReason::HostPpsCapacityExceeded => ReasonSeverity::Hard,
            CapacityReason::NicCapacityExceeded => ReasonSeverity::Hard,
            CapacityReason::SourceExceedsPacingEnvelope => ReasonSeverity::Diagnostic,
            CapacityReason::ProtocolOverheadExceedsPacingHeadroom => ReasonSeverity::Diagnostic,
            _ => ReasonSeverity::Conditional,
        }
    }

    #[must_use]
    pub fn severity(self) -> (r: ReasonSeverity)
        ensures
            r == self.weight(),
    {
        match self {
            CapacityReason::PayloadExceedsProtocolMtu => ReasonSeverity::Hard,
            CapacityReason::PayloadExceedsIpv4MtuEnvelope => ReasonSeverity::Hard,
            CapacityReason::WindowBelowBdpRequirement => ReasonSeverity::Hard,
            CapacityReason::HostPpsCapacityExceeded => ReasonSeverity::Hard,
            CapacityReason::NicCapacityExceeded => ReasonSeverity::Hard,
            CapacityReason::SourceExceedsPacingEnvelope => ReasonSeverity::Diagnostic,
            CapacityReason::ProtocolOverheadExceedsPacingHeadroom => ReasonSeverity::Diagnostic,
            _ => ReasonSeverity::Conditional,
        }
    }
}

/// How well the control packet rate is known.
#[derive(Clone, Copy, PartialEq, Eq, Debug, Structural)]
pub enum ControlPpsConfidence {
    CadenceBound,
    ExpectedLoss,
    Unknown,
}

impl ControlPpsConfidence {
    pub open spec fn text(self) -> Seq<char> {
        match self {
            ControlPpsConfidence::CadenceBound => "cadence-bound"@,
            ControlPpsConfidence::ExpectedLoss => "expected-loss"@,
            ControlPpsConfidence::Unknown => "unknown"@,
        }
    }

    #[must_use]
    pub fn name(self) -> (r: &'static str)
        ensures
            r@ == self.text(),
    {
        match self {
            ControlPpsConfidence::CadenceBound => "cadence-bound",
            ControlPpsConfidence::ExpectedLoss => "expected-loss",
            ControlPpsConfidence::Unknown => "unknown",
        }
    }
}

/// What a cell is good for.
#[derive(Clone, Copy, PartialEq, Eq, Debug, Structural)]
pub enum CellClass {
    ProductionCandidate,
    Conditional,
    DiagnosticControl,
    ExceedsEnvelope,
}

impl CellClass {
    pub open spec fn text(self) -> Seq<char> {
        match self {
            CellClass::ProductionCandidate => "production-candidate"@,
            CellClass::Conditional => "conditional"@,
            CellClass::DiagnosticControl => "diagnostic-control"@,
            CellClass::ExceedsEnvelope => "exceeds-envelope"@,
        }
    }

    #[must_use]
    pub fn name(self) -> (r: &'static str)
        ensures
            r@ == self.text(),
    {
        match self {
            CellClass::ProductionCandidate => "production-candidate",
            CellClass::Conditional => "conditional",
            CellClass::DiagnosticControl => "diagnostic-control",
            CellClass::ExceedsEnvelope => "exceeds-envelope",
        }
    }
}

/// Whether something is known.
#[derive(Clone, Copy, PartialEq, Eq, Debug, Structural)]
pub enum Knowledge {
    Known,
    Unknown,
    NotApplicable,
}

/// Whether a value is known.
pub open spec fn knowledge_of(v: Availability<u64>) -> Knowledge {
    match v {
        Availability::Known(_) => Knowledge::Known,
        Availability::Unknown => Knowledge::Unknown,
        Availability::NotApplicable => Knowledge::NotApplicable,
    }
}

/// Whether a value is known.
pub fn knowledge(v: Availability<u64>) -> (r: Knowledge)
    ensures
        r == knowledge_of(v),
{
    match v {
        Availability::Known(_) => Knowledge::Known,
        Availability::Unknown => Knowledge::Unknown,
        Availability::NotApplicable => Knowledge::NotApplicable,
    }
}

/// How a utilization compares: with the whole capacity, and with the policy's limit.
#[derive(Clone, Copy, PartialEq, Eq, Debug, Structural)]
pub struct Utilization {
    pub over_capacity: bool,
    pub at_limit: bool,
}

/// One endpoint's capacity for something, and how far it is used.
#[derive(Clone, Copy, PartialEq, Eq, Debug, Structural)]
pub struct EndpointLoad {
    pub capacity: Knowledge,
    pub used: Knowledge,
    /// Meaningful where `used` is known.
    pub utilization: Utilization,
}

/// Everything that the classifier's reasons are taken from.
#[derive(Clone, Copy, PartialEq, Eq, Debug, Structural)]
pub struct Findings {
    pub payload_bytes: u64,
    pub udp_ip_header_bytes: u64,
    pub protocol: ProtocolEnvelope,
    /// The source's rate is over a known pacing capacity.
    pub source_over_pacing: bool,
    /// Payload with retransmissions is over a known pacing capacity.
    pub overhead_over_pacing: bool,
    /// The packet rate of a single leg is unknown.
    pub leg_rate_unknown: bool,
    /// A known requirement is over an effective window.
    pub window_short: bool,
    /// A known headroom is under the policy's minimum.
    pub window_headroom_low: bool,
    /// A known repair margin is under the policy's minimum.
    pub recovery_short: bool,
    pub rtt: Knowledge,
    pub jitter: Knowledge,
    pub loss: Knowledge,
    pub reorder: Knowledge,
    /// The known reorder probability is positive.
    pub reorder_positive: bool,
    pub control: ControlPpsConfidence,
    pub receive_buffer: Knowledge,
    pub send_buffer: Knowledge,
    /// Both buffer horizons are known, and one is under the policy's minimum.
    pub horizon_low: bool,
    pub sender_host: EndpointLoad,
    pub receiver_host: EndpointLoad,
    pub nic_wire: Knowledge,
    pub sender_nic: EndpointLoad,
    pub receiver_nic: EndpointLoad,
    /// A known control rate is over the policy's limit.
    pub control_rate_high: bool,
    pub physical_connections: u64,
    pub connect_cc: u64,
    pub max_admission_waves: Option<u64>,
}

pub open spec fn when(b: bool, reason: CapacityReason) -> Seq<CapacityReason> {
    if b {
        seq![reason]
    } else {
        Seq::empty()
    }
}

fn add_if(reasons: &mut Vec<CapacityReason>, b: bool, reason: CapacityReason)
    ensures
        final(reasons)@ == old(reasons)@ + when(b, reason),
{
    let ghost before = reasons@;
    if b {
        reasons.push(reason);
    }
    assert(reasons@ =~= before + when(b, reason));
}

pub open spec fn pacing_reasons(f: Findings) -> Seq<CapacityReason> {
    when(f.payload_bytes + 16 > 1500, CapacityReason::PayloadExceedsProtocolMtu) + when(
        encoded_size(
            f.payload_bytes,
            f.protocol.encryption,
            f.protocol.cipher_mode,
            f.udp_ip_header_bytes,
        ) > 1500,
        CapacityReason::PayloadExceedsIpv4MtuEnvelope,
    ) + when(f.source_over_pacing, CapacityReason::SourceExceedsPacingEnvelope) + when(
        f.overhead_over_pacing,
        CapacityReason::ProtocolOverheadExceedsPacingHeadroom,
    )
}

pub open spec fn window_reasons(f: Findings) -> Seq<CapacityReason> {
    when(
        f.leg_rate_unknown && f.protocol.bond != BondMode::Unbonded,
        CapacityReason::BondLegDistributionUnknown,
    ) + when(f.window_short, CapacityReason::WindowBelowBdpRequirement) + when(
        !f.window_short && f.window_headroom_low,
        CapacityReason::WindowHeadroomLow,
    )
}

pub open spec fn network_reasons(f: Findings) -> Seq<CapacityReason> {
    when(f.rtt == Knowledge::Unknown, CapacityReason::ExpectedRttUnknown) + when(
        f.jitter == Knowledge::Unknown,
        CapacityReason::RttVarianceUnknown,
    ) + when(f.loss == Knowledge::Unknown, CapacityReason::ExpectedLossUnknown) + when(
        f.reorder == Knowledge::Unknown || (f.reorder == Knowledge::Known && f.reorder_positive),
        CapacityReason::ReorderImpactUnmodeled,
    ) + when(
        f.control != ControlPpsConfidence::CadenceBound,
        CapacityReason::ControlRateUncertain,
    )
}

pub open spec fn socket_reasons(f: Findings) -> Seq<CapacityReason> {
    when(
        f.receive_buffer == Knowledge::Unknown || f.send_buffer == Knowledge::Unknown,
        CapacityReason::EffectiveSocketBufferUnknown,
    ) + when(f.horizon_low, CapacityReason::SocketBufferHorizonLow)
}

/// The worst that either endpoint says of a capacity: unknown before unpredictable,
/// exceeded before low.
pub open spec fn load_reason(
    a: EndpointLoad,
    b: EndpointLoad,
    unpredictable: bool,
    unknown_reason: CapacityReason,
    unpredictable_reason: CapacityReason,
    exceeded_reason: CapacityReason,
    low_reason: CapacityReason,
) -> Seq<CapacityReason> {
    if a.capacity == Knowledge::Unknown || b.capacity == Knowledge::Unknown {
        seq![unknown_reason]
    } else if unpredictable && ((a.capacity == Knowledge::Known && a.used == Knowledge::Unknown) || (
    b.capacity == Knowledge::Known && b.used == Knowledge::Unknown)) {
        seq![unpredictable_reason]
    } else if (a.used == Knowledge::Known && a.utilization.over_capacity) || (b.used
        == Knowledge::Known && b.utilization.over_capacity) {
        seq![exceeded_reason]
    } else if (a.used == Knowledge::Known && a.utilization.at_limit) || (b.used == Knowledge::Known
        && b.utilization.at_limit) {
        seq![low_reason]
    } else {
        Seq::empty()
    }
}

fn add_load_reason(
    reasons: &mut Vec<CapacityReason>,
    a: EndpointLoad,
    b: EndpointLoad,
    unpredictable: bool,
    unknown_reason: CapacityReason,
    unpredictable_reason: CapacityReason,
    exceeded_reason: CapacityReason,
    low_reason: CapacityReason,
)
    ensures
        final(reasons)@ == old(reasons)@ + load_reason(
            a,
            b,
            unpredictable,
            unknown_reason,
            unpredictable_reason,
            exceeded_reason,
            low_reason,
        ),
{
    let ghost before = reasons@;
    if a.capacity == Knowledge::Unknown || b.capacity == Knowledge::Unknown {
        reasons.push(unknown_reason);
    } else if unpredictable && ((a.capacity == Knowledge::Known && a.used == Knowledge::Unknown) || (
    b.capacity == Knowledge::Known && b.used == Knowledge::Unknown)) {
        reasons.push(unpredictable_reason);
    } else if (a.used == Knowledge::Known && a.utilization.over_capacity) || (b.used
        == Knowledge::Known && b.utilization.over_capacity) {
        reasons.push(exceeded_reason);
    } else if (a.used == Knowledge::Known && a.utilization.at_limit) || (b.used == Knowledge::Known
        && b.utilization.at_limit) {
        reasons.push(low_reason);
    }
    assert(reasons@ =~= before + load_reason(
        a,
        b,
        unpredictable,
        unknown_reason,
        unpredictable_reason,
        exceeded_reason,
        low_reason,
    ));
}

pub open spec fn host_reasons(f: Findings) -> Seq<CapacityReason> {
    load_reason(
        f.sender_host,
        f.receiver_host,
        true,
        CapacityReason::HostPpsCapacityUnknown,
        CapacityReason::PredictedPacketWorkUnknown,
        CapacityReason::HostPpsCapacityExceeded,
        CapacityReason::HostPpsHeadroomLow,
    )
}

pub open spec fn nic_reasons(f: Findings) -> Seq<CapacityReason> {
    load_reason(
        f.sender_nic,
        f.receiver_nic,
        f.nic_wire == Knowledge::Unknown,
        CapacityReason::NicCapacityUnknown,
        CapacityReason::NicWireRateUnknown,
        CapacityReason::NicCapacityExceeded,
        CapacityReason::NicHeadroomLow,
    )
}

pub open spec fn policy_reasons(f: Findings) -> Seq<CapacityReason> {
    when(f.control_rate_high, CapacityReason::ExpectedControlRateHigh) + when(
        f.max_admission_waves is Some && waves(f.physical_connections, f.connect_cc)
            > f.max_admission_waves->0,
        CapacityReason::AdmissionWavesHigh,
    )
}

/// Every reason that the findings give, in the order in which they are reported.
pub open spec fn all_reasons(f: Findings) -> Seq<CapacityReason> {
    pacing_reasons(f) + window_reasons(f) + when(
        f.recovery_short,
        CapacityReason::RecoveryMarginInsufficient,
    ) + network_reasons(f) + socket_reasons(f) + host_reasons(f) + nic_reasons(f) + policy_reasons(
        f,
    )
}

fn collect_pacing_reasons(f: &Findings) -> (r: Vec<CapacityReason>)
    requires
        f.payload_bytes + f.udp_ip_header_bytes + 32 <= u64::MAX,
    ensures
        r@ == pacing_reasons(*f),
{
    let mut reasons: Vec<CapacityReason> = Vec::new();
    let ghost none = reasons@;
    let mtu: u64 = default_mtu() as u64;
    add_if(
        &mut reasons,
        pacing_packet_size_bytes(f.payload_bytes) > mtu,
        CapacityReason::PayloadExceedsProtocolMtu,
    );
    assert(none + when(
        f.payload_bytes + 16 > 1500,
        CapacityReason::PayloadExceedsProtocolMtu,
    ) =~= when(
        f.payload_bytes + 16 > 1500,
        CapacityReason::PayloadExceedsProtocolMtu,
    ));
    add_if(
        &mut reasons,
        encoded_packet_size_bytes(
            f.payload_bytes,
            f.protocol.encryption,
            f.protocol.cipher_mode,
            f.udp_ip_header_bytes,
        ) > mtu,
        CapacityReason::PayloadExceedsIpv4MtuEnvelope,
    );
    add_if(&mut reasons, f.source_over_pacing, CapacityReason::SourceExceedsPacingEnvelope);
    add_if(
        &mut reasons,
        f.overhead_over_pacing,
        CapacityReason::ProtocolOverheadExceedsPacingHeadroom,
    );
    reasons
}

fn collect_window_reasons(f: &Findings) -> (r: Vec<CapacityReason>)
    ensures
        r@ == window_reasons(*f),
{
    let mut reasons: Vec<CapacityReason> = Vec::new();
    let ghost none = reasons@;
    add_if(
        &mut reasons,
        f.leg_rate_unknown && f.protocol.bond != BondMode::Unbonded,
        CapacityReason::BondLegDistributionUnknown,
    );
    assert(none + when(
        f.leg_rate_unknown && f.protocol.bond != BondMode::Unbonded,
        CapacityReason::BondLegDistributionUnknown,
    ) =~= when(
        f.leg_rate_unknown && f.protocol.bond != BondMode::Unbonded,
        CapacityReason::BondLegDistributionUnknown,
    ));
    add_if(&mut reasons, f.window_short, CapacityReason::WindowBelowBdpRequirement);
    add_if(
        &mut reasons,
        !f.window_short && f.window_headroom_low,
        CapacityReason::WindowHeadroomLow,
    );
    reasons
}

fn collect_network_reasons(f: &Findings) -> (r: Vec<CapacityReason>)
    ensures
        r@ == network_reasons(*f),
{
    let mut reasons: Vec<CapacityReason> = Vec::new();
    let ghost none = reasons@;
    add_if(&mut reasons, f.rtt == Knowledge::Unknown, CapacityReason::ExpectedRttUnknown);
    assert(none + when(
        f.rtt == Knowledge::Unknown,
        CapacityReason::ExpectedRttUnknown,
    ) =~= when(
        f.rtt == Knowledge::Unknown,
        CapacityReason::ExpectedRttUnknown,
    ));
    add_if(&mut reasons, f.jitter == Knowledge::Unknown, CapacityReason::RttVarianceUnknown);
    add_if(&mut reasons, f.loss == Knowledge::Unknown, CapacityReason::ExpectedLossUnknown);
    add_if(
        &mut reasons,
        f.reorder == Knowledge::Unknown || (f.reorder == Knowledge::Known && f.reorder_positive),
        CapacityReason::ReorderImpactUnmodeled,
    );
    add_if(
        &mut reasons,
        f.control != ControlPpsConfidence::CadenceBound,
        CapacityReason::ControlRateUncertain,
    );
    reasons
}

fn collect_socket_reasons(f: &Findings) -> (r: Vec<CapacityReason>)
    ensures
        r@ == socket_reasons(*f),
{
    let mut reasons: Vec<CapacityReason> = Vec::new();
    let ghost none = reasons@;
    add_if(
        &mut reasons,
        f.receive_buffer == Knowledge::Unknown || f.send_buffer == Knowledge::Unknown,
        CapacityReason::EffectiveSocketBufferUnknown,
    );
    assert(none + when(
        f.receive_buffer == Knowledge::Unknown || f.send_buffer == Knowledge::Unknown,
        CapacityReason::EffectiveSocketBufferUnknown,
    ) =~= when(
        f.receive_buffer == Knowledge::Unknown || f.send_buffer == Knowledge::Unknown,
        CapacityReason::EffectiveSocketBufferUnknown,
    ));
    add_if(&mut reasons, f.horizon_low, CapacityReason::SocketBufferHorizonLow);
    reasons
}

fn add_host_reasons(f: &Findings, reasons: &mut Vec<CapacityReason>)
    ensures
        final(reasons)@ == old(reasons)@ + host_reasons(*f),
{
    add_load_reason(
        reasons,
        f.sender_host,
        f.receiver_host,
        true,
        CapacityReason::HostPpsCapacityUnknown,
        CapacityReason::PredictedPacketWorkUnknown,
        CapacityReason::HostPpsCapacityExceeded,
        CapacityReason::HostPpsHeadroomLow,
    );
}

fn add_nic_reasons(f: &Findings, reasons: &mut Vec<CapacityReason>)
    ensures
        final(reasons)@ == old(reasons)@ + nic_reasons(*f),
{
    add_load_reason(
        reasons,
        f.sender_nic,
        f.receiver_nic,
        f.nic_wire == Knowledge::Unknown,
        CapacityReason::NicCapacityUnknown,
        CapacityReason::NicWireRateUnknown,
        CapacityReason::NicCapacityExceeded,
        CapacityReason::NicHeadroomLow,
    );
}

fn collect_policy_reasons(f: &Findings) -> (r: Vec<CapacityReason>)
    requires
        f.connect_cc > 0,
    ensures
        r@ == policy_reasons(*f),
{
    let mut reasons: Vec<CapacityReason> = Vec::new();
    let ghost none = reasons@;
    add_if(&mut reasons, f.control_rate_high, CapacityReason::ExpectedControlRateHigh);
    assert(none + when(
        f.control_rate_high,
        CapacityReason::ExpectedControlRateHigh,
    ) =~= when(
        f.control_rate_high,
        CapacityReason::ExpectedControlRateHigh,
    ));
    let high = match f.max_admission_waves {
        Some(limit) => admission_waves(f.physical_connections, f.connect_cc) > limit,
        None => false,
    };
    add_if(&mut reasons, high, CapacityReason::AdmissionWavesHigh);
    reasons
}

fn append_reasons(reasons: &mut Vec<CapacityReason>, more: Vec<CapacityReason>)
    ensures
        final(reasons)@ == old(reasons)@ + more@,
{
    let mut more = more;
    reasons.append(&mut more);
}

/// Collects every reason that the findings give.
pub fn collect_reasons(f: &Findings) -> (r: Vec<CapacityReason>)
    requires
        f.connect_cc > 0,
        f.payload_bytes + f.udp_ip_header_bytes + 32 <= u64::MAX,
    ensures
        r@ == all_reasons(*f),
{
    let mut reasons: Vec<CapacityReason> = Vec::new();
    append_reasons(&mut reasons, collect_pacing_reasons(f));
    assert(reasons@ =~= pacing_reasons(*f));
    append_reasons(&mut reasons, collect_window_reasons(f));
    add_if(&mut reasons, f.recovery_short, CapacityReason::RecoveryMarginInsufficient);
    append_reasons(&mut reasons, collect_network_reasons(f));
    append_reasons(&mut reasons, collect_socket_reasons(f));
    add_host_reasons(f, &mut reasons);
    add_nic_reasons(f, &mut reasons);
    append_reasons(&mut reasons, collect_policy_reasons(f));
    reasons
}

pub open spec fn has_weight(reasons: Seq<CapacityReason>, weight: ReasonSeverity) -> bool {
    exists|i: int| 0 <= i < reasons.len() && (#[trigger] reasons[i]).weight() == weight
}

/// The class that reasons give: the heaviest of them decides.
pub open spec fn class_of(reasons: Seq<CapacityReason>) -> CellClass {
    if has_weight(reasons, ReasonSeverity::Hard) {
        CellClass::ExceedsEnvelope
    } else if has_weight(reasons, ReasonSeverity::Diagnostic) {
        CellClass::DiagnosticControl
    } else if reasons.len() == 0 {
        CellClass::ProductionCandidate
    } else {
        CellClass::Conditional
    }
}

fn any_of(reasons: &Vec<CapacityReason>, weight: ReasonSeverity) -> (r: bool)
    ensures
        r == has_weight(reasons@, weight),
{
    let mut i: usize = 0;
    while i < reasons.len()
        invariant
            i <= reasons@.len(),
            forall|j: int| 0 <= j < i ==> (#[trigger] reasons@[j]).weight() != weight,
        decreases reasons@.len() - i,
    {
        if reasons[i].severity() == weight {
            assert(reasons@[i as int].weight() == weight);
            return true;
        }
        i += 1;
    }
    false
}

/// The class that reasons give.
pub fn classify_reasons(reasons: &Vec<CapacityReason>) -> (r: CellClass)
    ensures
        r == class_of(reasons@),
{
    if any_of(reasons, ReasonSeverity::Hard) {
        CellClass::ExceedsEnvelope
    } else if any_of(reasons, ReasonSeverity::Diagnostic) {
        CellClass::DiagnosticControl
    } else if reasons.len() == 0 {
        CellClass::ProductionCandidate
    } else {
        CellClass::Conditional
    }
}

/// What is assessed.
#[derive(Clone, Copy, PartialEq, Debug)]
pub struct CapacityInput {
    pub workload: WorkloadEnvelope,
    pub protocol: ProtocolEnvelope,
    pub network: NetworkEnvelope,
    pub sender: EndpointEnvelope,
    pub receiver: EndpointEnvelope,
    pub admission: AdmissionEnvelope,
}

/// The first thing that is wrong with an input: its workload, then its protocol and
/// endpoints, then its ranges.
pub open spec fn input_error(i: CapacityInput, ranges: RangeChecks) -> Option<Seq<char>> {
    match workload_error(i.workload) {
        Some(e) => Some(e),
        None => match protocol_error(i.protocol, i.admission, i.sender, i.receiver) {
            Some(e) => Some(e),
            None => range_error(i.network, i.sender, i.receiver, ranges),
        },
    }
}

/// Whether an input can be assessed.
pub fn validate(input: &CapacityInput, ranges: &RangeChecks) -> (r: Result<(), ModelError>)
    ensures
        reports(r, input_error(*input, *ranges)),
{
    match validate_workload(&input.workload) {
        Err(e) => {
            return Err(e);
        },
        Ok(()) => {},
    }
    match validate_protocol(&input.protocol, &input.admission, &input.sender, &input.receiver) {
        Err(e) => {
            return Err(e);
        },
        Ok(()) => {},
    }
    validate_ranges(&input.network, &input.sender, &input.receiver, ranges)
}

/// The outcome of every comparison on fractions. Where a figure that a comparison is
/// about is not known, its outcome has no say.
#[derive(Clone, Copy, PartialEq, Eq, Debug, Structural)]
pub struct Comparisons {
    pub ranges: RangeChecks,
    /// The loss probability is positive.
    pub loss_positive: bool,
    /// The reorder probability is positive.
    pub reorder_positive: bool,
    /// More than nothing crosses a socket.
    pub traffic_positive: bool,
    /// The source's rate is over the pacing capacity.
    pub source_over_pacing: bool,
    /// Payload with retransmissions is over the pacing capacity.
    pub overhead_over_pacing: bool,
    /// The required window is over an effective window.
    pub window_short: bool,
    /// A window's headroom is under the policy's minimum.
    pub window_headroom_low: bool,
    /// The repair margin is under the policy's minimum.
    pub recovery_short: bool,
    /// A buffer's horizon is under the policy's minimum.
    pub receive_horizon_low: bool,
    pub send_horizon_low: bool,
    pub sender_host: Utilization,
    pub receiver_host: Utilization,
    pub sender_nic: Utilization,
    pub receiver_nic: Utilization,
    /// The control rate is over the policy's limit, where it has one.
    pub control_rate_high: bool,
}

/// What the derivation starts from: what the input says, and whether what crosses the
/// network is positive.
pub open spec fn known_inputs(i: CapacityInput, c: Comparisons) -> KnownInputs {
    KnownInputs {
        bond: i.protocol.bond,
        source_streams: i.workload.source_streams,
        logical_streams: i.workload.logical_streams,
        physical_connections: i.workload.physical_connections,
        loss: i.network.expected_loss_probability,
        loss_positive: c.loss_positive,
        rtt: knowledge_of(i.network.expected_rtt),
        jitter: knowledge_of(i.network.rtt_jitter),
        link_overhead: knowledge_of(i.network.nic_link_overhead_bytes),
        sender_host: i.sender.host_pps_capacity,
        receiver_host: i.receiver.host_pps_capacity,
        sender_nic: knowledge_of(i.sender.nic_capacity_bps),
        receiver_nic: knowledge_of(i.receiver.nic_capacity_bps),
        receive_buffer: knowledge_of(i.receiver.effective_receive_socket_buffer_bytes),
        send_buffer: knowledge_of(i.sender.effective_send_socket_buffer_bytes),
        traffic_positive: c.traffic_positive,
    }
}

/// What an input comes to before any comparison.
pub fn inputs_of(i: &CapacityInput, c: &Comparisons) -> (r: KnownInputs)
    ensures
        r == known_inputs(*i, *c),
{
    KnownInputs {
        bond: i.protocol.bond,
        source_streams: i.workload.source_streams,
        logical_streams: i.workload.logical_streams,
        physical_connections: i.workload.physical_connections,
        loss: i.network.expected_loss_probability,
        loss_positive: c.loss_positive,
        rtt: knowledge(i.network.expected_rtt),
        jitter: knowledge(i.network.rtt_jitter),
        link_overhead: knowledge(i.network.nic_link_overhead_bytes),
        sender_host: i.sender.host_pps_capacity,
        receiver_host: i.receiver.host_pps_capacity,
        sender_nic: knowledge(i.sender.nic_capacity_bps),
        receiver_nic: knowledge(i.receiver.nic_capacity_bps),
        receive_buffer: knowledge(i.receiver.effective_receive_socket_buffer_bytes),
        send_buffer: knowledge(i.sender.effective_send_socket_buffer_bytes),
        traffic_positive: c.traffic_positive,
    }
}

/// What a cell's reasons are taken from: what the input says, what can be known of each
/// figure that is derived from it, and, of what is known, how it compares.
pub open spec fn findings_on(
    i: CapacityInput,
    c: Comparisons,
    policy: PolicyThresholds,
) -> Findings {
    let known = known_inputs(i, c);
    let traffic = traffic_known(known);
    let load = load_known(known, traffic);
    Findings {
        payload_bytes: i.workload.payload_bytes,
        udp_ip_header_bytes: i.network.udp_ip_header_bytes,
        protocol: i.protocol,
        source_over_pacing: c.source_over_pacing,
        overhead_over_pacing: traffic.data == Knowledge::Known && c.overhead_over_pacing,
        leg_rate_unknown: traffic.leg == Knowledge::Unknown,
        window_short: load.window == Knowledge::Known && c.window_short,
        window_headroom_low: load.window == Knowledge::Known && c.window_headroom_low,
        recovery_short: load.repair == Knowledge::Known && c.recovery_short,
        rtt: known.rtt,
        jitter: known.jitter,
        loss: known.loss,
        reorder: i.network.expected_reorder_probability,
        reorder_positive: c.reorder_positive,
        control: traffic.confidence,
        receive_buffer: known.receive_buffer,
        send_buffer: known.send_buffer,
        horizon_low: load.receive_horizon == Knowledge::Known && load.send_horizon
            == Knowledge::Known && (c.receive_horizon_low || c.send_horizon_low),
        sender_host: EndpointLoad {
            capacity: known.sender_host,
            used: load.sender_host,
            utilization: c.sender_host,
        },
        receiver_host: EndpointLoad {
            capacity: known.receiver_host,
            used: load.receiver_host,
            utilization: c.receiver_host,
        },
        nic_wire: traffic.nic_wire,
        sender_nic: EndpointLoad {
            capacity: known.sender_nic,
            used: load.sender_nic,
            utilization: c.sender_nic,
        },
        receiver_nic: EndpointLoad {
            capacity: known.receiver_nic,
            used: load.receiver_nic,
            utilization: c.receiver_nic,
        },
        control_rate_high: traffic.control == Knowledge::Known && policy.control is Some
            && c.control_rate_high,
        physical_connections: i.workload.physical_connections,
        connect_cc: i.admission.connect_cc,
        max_admission_waves: policy.waves,
    }
}

/// What is derived of an input, but for the figures that are fractions: of those, what
/// is known.
#[derive(Clone, Copy, PartialEq, Eq, Debug, Structural)]
pub struct DerivedLoad {
    pub traffic: TrafficKnowledge,
    pub load: LoadKnowledge,
    pub pacing_packet_bytes: u64,
    pub srt_data_packet_bytes: u64,
    pub configured_flow_window_packets: u32,
    pub configured_receive_window_packets: u32,
    pub effective_flow_window_packets: u32,
    pub effective_receive_window_packets: u32,
    /// Rounds of handshakes that it takes to connect everybody.
    pub admission_waves: u64,
}

impl DerivedLoad {
    /// Whether this is what an input comes to.
    pub open spec fn follows(self, i: CapacityInput, c: Comparisons) -> bool {
        let p = i.protocol;
        &&& self.traffic == traffic_known(known_inputs(i, c))
        &&& self.load == load_known(known_inputs(i, c), self.traffic)
        &&& self.pacing_packet_bytes == i.workload.payload_bytes + 16
        &&& self.srt_data_packet_bytes == encoded_size(
            i.workload.payload_bytes,
            p.encryption,
            p.cipher_mode,
            0,
        )
        &&& self.configured_flow_window_packets == p.flow_window_packets
        &&& self.configured_receive_window_packets == p.receive_window_packets
        &&& self.effective_flow_window_packets == clamped(
            p.flow_window_packets,
            MIN_FLOW_WINDOW_PACKETS,
            MAX_FLOW_WINDOW,
        )
        &&& self.effective_receive_window_packets == clamped(
            p.receive_window_packets,
            MIN_FLOW_WINDOW_PACKETS,
            self.effective_flow_window_packets,
        )
        &&& self.admission_waves == waves(
            i.workload.physical_connections,
            i.admission.connect_cc,
        )
    }
}

/// Derives what does not take a fraction.
pub fn derive_all(i: &CapacityInput, c: &Comparisons) -> (r: DerivedLoad)
    requires
        i.workload.logical_streams > 0,
        i.admission.connect_cc > 0,
        i.workload.payload_bytes + 32 <= u64::MAX,
    ensures
        r.follows(*i, *c),
{
    let known = inputs_of(i, c);
    let traffic = derive_traffic(&known);
    let (flow, receive) = effective_windows(
        i.protocol.flow_window_packets,
        i.protocol.receive_window_packets,
    );
    DerivedLoad {
        traffic,
        load: derive_load(&known, &traffic),
        pacing_packet_bytes: pacing_packet_size_bytes(i.workload.payload_bytes),
        srt_data_packet_bytes: encoded_packet_size_bytes(
            i.workload.payload_bytes,
            i.protocol.encryption,
            i.protocol.cipher_mode,
            0,
        ),
        configured_flow_window_packets: i.protocol.flow_window_packets,
        configured_receive_window_packets: i.protocol.receive_window_packets,
        effective_flow_window_packets: flow,
        effective_receive_window_packets: receive,
        admission_waves: admission_waves(i.workload.physical_connections, i.admission.connect_cc),
    }
}

/// Puts together what the reasons are taken from.
pub fn findings_of(
    i: &CapacityInput,
    derived: &DerivedLoad,
    c: &Comparisons,
    policy: &PolicyThresholds,
) -> (r: Findings)
    requires
        derived.follows(*i, *c),
    ensures
        r == findings_on(*i, *c, *policy),
{
    let known = inputs_of(i, c);
    let traffic = derived.traffic;
    let load = derived.load;
    Findings {
        payload_bytes: i.workload.payload_bytes,
        udp_ip_header_bytes: i.network.udp_ip_header_bytes,
        protocol: i.protocol,
        source_over_pacing: c.source_over_pacing,
        overhead_over_pacing: traffic.data == Knowledge::Known && c.overhead_over_pacing,
        leg_rate_unknown: traffic.leg == Knowledge::Unknown,
        window_short: load.window == Knowledge::Known && c.window_short,
        window_headroom_low: load.window == Knowledge::Known && c.window_headroom_low,
        recovery_short: load.repair == Knowledge::Known && c.recovery_short,
        rtt: known.rtt,
        jitter: known.jitter,
        loss: known.loss,
        reorder: i.network.expected_reorder_probability,
        reorder_positive: c.reorder_positive,
        control: traffic.confidence,
        receive_buffer: known.receive_buffer,
        send_buffer: known.send_buffer,
        horizon_low: load.receive_horizon == Knowledge::Known && load.send_horizon
            == Knowledge::Known && (c.receive_horizon_low || c.send_horizon_low),
        sender_host: EndpointLoad {
            capacity: known.sender_host,
            used: load.sender_host,
            utilization: c.sender_host,
        },
        receiver_host: EndpointLoad {
            capacity: known.receiver_host,
            used: load.receiver_host,
            utilization: c.receiver_host,
        },
        nic_wire: traffic.nic_wire,
        sender_nic: EndpointLoad {
            capacity: known.sender_nic,
            used: load.sender_nic,
            utilization: c.sender_nic,
        },
        receiver_nic: EndpointLoad {
            capacity: known.receiver_nic,
            used: load.receiver_nic,
            utilization: c.receiver_nic,
        },
        control_rate_high: traffic.control == Knowledge::Known && policy.control.is_some()
            && c.control_rate_high,
        physical_connections: i.workload.physical_connections,
        connect_cc: i.admission.connect_cc,
        max_admission_waves: policy.waves,
    }
}

/// What a cell is good for, and why.
#[derive(Debug)]
pub struct CapacityAssessment {
    pub class: CellClass,
    pub reasons: Vec<CapacityReason>,
    pub derived: DerivedLoad,
    pub input: CapacityInput,
    /// The policy's label. Two sets of thresholds may carry the same one.
    pub policy_revision: String,
    /// Every threshold of the policy, so that a recorded assessment cannot be taken
    /// for that of another policy with the same label.
    pub policy_fingerprint: String,
}

/// Assesses a cell. An input that is not valid is an error, not an assessment.
pub fn assess(input: CapacityInput, c: &Comparisons, policy: &PolicyThresholds) -> (r: Result<
    CapacityAssessment,
    ModelError,
>)
    requires
        input.workload.payload_bytes + input.network.udp_ip_header_bytes + 32 <= u64::MAX,
    ensures
        match r {
            Ok(a) => {
                let reasons = all_reasons(findings_on(input, *c, *policy));
                &&& input_error(input, c.ranges) is None
                &&& a.reasons@ == reasons
                &&& a.class == class_of(reasons)
                &&& a.class == CellClass::ProductionCandidate <==> a.reasons@.len() == 0
                &&& a.derived.follows(input, *c)
                &&& a.input == input
                &&& a.policy_revision@ == policy.revision@
                &&& a.policy_fingerprint@ == policy_fingerprint_text(*policy)
            },
            Err(e) => input_error(input, c.ranges) == Some(e.0@),
        },
{
    match validate(&input, &c.ranges) {
        Err(e) => {
            return Err(e);
        },
        Ok(()) => {},
    }
    let derived = derive_all(&input, c);
    let reasons = collect_reasons(&findings_of(&input, &derived, c, policy));
    Ok(
        CapacityAssessment {
            class: classify_reasons(&reasons),
            reasons,
            derived,
            input,
            policy_revision: policy.revision.clone(),
            policy_fingerprint: policy_fingerprint(policy),
        },
    )
}

/// The codes of reasons between commas.
pub open spec fn codes_text(reasons: Seq<CapacityReason>) -> Seq<char> {
    joined(reasons.map_values(|r: CapacityReason| r.text()), ","@)
}

/// The codes of reasons between commas.
pub fn reason_codes(reasons: &Vec<CapacityReason>) -> (r: String)
    ensures
        r@ == codes_text(reasons@),
{
    let ghost want = reasons@.map_values(|r: CapacityReason| r.text());
    let mut parts: Vec<String> = Vec::new();
    let mut i: usize = 0;
    while i < reasons.len()
        invariant
            i <= reasons@.len(),
            want == reasons@.map_values(|r: CapacityReason| r.text()),
            texts(parts@) == want.take(i as int),
        decreases reasons@.len() - i,
    {
        let code = reasons[i].code().to_owned();
        proof {
            lemma_texts_push(parts@, code);
            assert(want.take(i + 1) =~= want.take(i as int).push(code@));
        }
        parts.push(code);
        i += 1;
    }
    assert(want.take(want.len() as int) =~= want);
    join(&parts, ",")
}

/// A cell is a production candidate only where nothing speaks against it, and any
/// hard reason puts it outside the envelope, whatever else is said of it.
pub proof fn classes_follow_the_heaviest_reason(
    reasons: Seq<CapacityReason>,
    more: CapacityReason,
)
    ensures
        class_of(reasons) == CellClass::ProductionCandidate <==> reasons.len() == 0,
        more.weight() == ReasonSeverity::Hard ==> class_of(reasons.push(more))
            == CellClass::ExceedsEnvelope,
        class_of(reasons) == CellClass::ExceedsEnvelope ==> class_of(reasons.push(more))
            == CellClass::ExceedsEnvelope,
        class_of(reasons.push(more)) != CellClass::ProductionCandidate,
{
    let all = reasons.push(more);
    assert(all[reasons.len() as int] == more);
    if has_weight(reasons, ReasonSeverity::Hard) {
        let i = choose|i: int|
            0 <= i < reasons.len() && (#[trigger] reasons[i]).weight() == ReasonSeverity::Hard;
        assert(all[i].weight() == ReasonSeverity::Hard);
    }
    if reasons.len() == 0 {
        assert(!has_weight(reasons, ReasonSeverity::Hard));
    }
}

/// What stands in a part of a list stands in the list.
proof fn lemma_among(a: Seq<CapacityReason>, b: Seq<CapacityReason>, reason: CapacityReason)
    ensures
        a.contains(reason) || b.contains(reason) ==> (a + b).contains(reason),
{
    let all = a + b;
    if a.contains(reason) {
        assert(all[a.index_of(reason)] == reason);
    }
    if b.contains(reason) {
        assert(all[a.len() + b.index_of(reason)] == reason);
    }
}

/// Every group's reasons are among all reasons.
proof fn lemma_groups_are_kept(f: Findings, reason: CapacityReason)
    ensures
        window_reasons(f).contains(reason) || network_reasons(f).contains(reason)
            || socket_reasons(f).contains(reason) || host_reasons(f).contains(reason)
            || nic_reasons(f).contains(reason) ==> all_reasons(f).contains(reason),
{
    let recovery = when(f.recovery_short, CapacityReason::RecoveryMarginInsufficient);
    let a = pacing_reasons(f) + window_reasons(f);
    let b = a + recovery;
    let c = b + network_reasons(f);
    let d = c + socket_reasons(f);
    let e = d + host_reasons(f);
    let g = e + nic_reasons(f);
    lemma_among(pacing_reasons(f), window_reasons(f), reason);
    lemma_among(a, recovery, reason);
    lemma_among(b, network_reasons(f), reason);
    lemma_among(c, socket_reasons(f), reason);
    lemma_among(d, host_reasons(f), reason);
    lemma_among(e, nic_reasons(f), reason);
    lemma_among(g, policy_reasons(f), reason);
}

/// Whether an input leaves open what the classifier has to know: a capacity, a delay, a
/// probability or a buffer, or how a bonded stream's packets are spread over its legs.
pub open spec fn leaves_open(i: CapacityInput) -> bool {
    ||| i.sender.nic_capacity_bps is Unknown
    ||| i.receiver.nic_capacity_bps is Unknown
    ||| i.sender.host_pps_capacity == Knowledge::Unknown
    ||| i.receiver.host_pps_capacity == Knowledge::Unknown
    ||| i.network.expected_rtt is Unknown
    ||| i.network.rtt_jitter is Unknown
    ||| i.network.expected_loss_probability == Knowledge::Unknown
    ||| i.network.expected_reorder_probability == Knowledge::Unknown
    ||| i.receiver.effective_receive_socket_buffer_bytes is Unknown
    ||| i.sender.effective_send_socket_buffer_bytes is Unknown
    ||| i.protocol.bond == BondMode::Backup
    ||| i.protocol.bond != BondMode::Unbonded && (i.workload.source_streams
        != i.workload.logical_streams || i.workload.physical_connections
        % i.workload.logical_streams != 0)
}

/// What an input leaves open is named among its reasons, whatever the comparisons say:
/// the absence of a value is neither zero nor without bounds.
pub proof fn unknowns_are_named(i: CapacityInput, c: Comparisons, p: PolicyThresholds)
    ensures
        ({
            let reasons = all_reasons(findings_on(i, c, p));
            let bonded = i.protocol.bond != BondMode::Unbonded;
            let uneven = i.workload.source_streams != i.workload.logical_streams
                || i.workload.physical_connections % i.workload.logical_streams != 0;
            &&& i.sender.nic_capacity_bps is Unknown || i.receiver.nic_capacity_bps is Unknown
                ==> reasons.contains(CapacityReason::NicCapacityUnknown)
            &&& i.sender.host_pps_capacity == Knowledge::Unknown || i.receiver.host_pps_capacity
                == Knowledge::Unknown ==> reasons.contains(CapacityReason::HostPpsCapacityUnknown)
            &&& i.network.expected_rtt is Unknown ==> reasons.contains(
                CapacityReason::ExpectedRttUnknown,
            )
            &&& i.network.rtt_jitter is Unknown ==> reasons.contains(
                CapacityReason::RttVarianceUnknown,
            )
            &&& i.network.expected_loss_probability == Knowledge::Unknown ==> reasons.contains(
                CapacityReason::ExpectedLossUnknown,
            )
            &&& i.network.expected_reorder_probability == Knowledge::Unknown ==> reasons.contains(
                CapacityReason::ReorderImpactUnmodeled,
            )
            &&& i.receiver.effective_receive_socket_buffer_bytes is Unknown
                || i.sender.effective_send_socket_buffer_bytes is Unknown ==> reasons.contains(
                CapacityReason::EffectiveSocketBufferUnknown,
            )
            &&& bonded && uneven ==> reasons.contains(CapacityReason::BondLegDistributionUnknown)
            &&& i.protocol.bond == BondMode::Backup || (bonded && uneven) ==> reasons.contains(
                CapacityReason::ControlRateUncertain,
            )
        }),
{
    let f = findings_on(i, c, p);
    lemma_groups_are_kept(f, CapacityReason::NicCapacityUnknown);
    lemma_groups_are_kept(f, CapacityReason::HostPpsCapacityUnknown);
    lemma_groups_are_kept(f, CapacityReason::ExpectedRttUnknown);
    lemma_groups_are_kept(f, CapacityReason::RttVarianceUnknown);
    lemma_groups_are_kept(f, CapacityReason::ExpectedLossUnknown);
    lemma_groups_are_kept(f, CapacityReason::ReorderImpactUnmodeled);
    lemma_groups_are_kept(f, CapacityReason::EffectiveSocketBufferUnknown);
    lemma_groups_are_kept(f, CapacityReason::BondLegDistributionUnknown);
    lemma_groups_are_kept(f, CapacityReason::ControlRateUncertain);
    lemma_window_reason(f);
    lemma_network_reasons(f);
    lemma_first_reasons(f);
}

proof fn lemma_window_reason(f: Findings)
    ensures
        f.leg_rate_unknown && f.protocol.bond != BondMode::Unbonded ==> window_reasons(f).contains(
            CapacityReason::BondLegDistributionUnknown,
        ),
{
    if f.leg_rate_unknown && f.protocol.bond != BondMode::Unbonded {
        assert(window_reasons(f)[0] == CapacityReason::BondLegDistributionUnknown);
    }
}

proof fn lemma_network_reasons(f: Findings)
    ensures
        f.rtt == Knowledge::Unknown ==> network_reasons(f).contains(
            CapacityReason::ExpectedRttUnknown,
        ),
        f.jitter == Knowledge::Unknown ==> network_reasons(f).contains(
            CapacityReason::RttVarianceUnknown,
        ),
        f.loss == Knowledge::Unknown ==> network_reasons(f).contains(
            CapacityReason::ExpectedLossUnknown,
        ),
        f.reorder == Knowledge::Unknown ==> network_reasons(f).contains(
            CapacityReason::ReorderImpactUnmodeled,
        ),
        f.control != ControlPpsConfidence::CadenceBound ==> network_reasons(f).contains(
            CapacityReason::ControlRateUncertain,
        ),
{
    let rtt = when(f.rtt == Knowledge::Unknown, CapacityReason::ExpectedRttUnknown);
    let jitter = when(f.jitter == Knowledge::Unknown, CapacityReason::RttVarianceUnknown);
    let loss = when(f.loss == Knowledge::Unknown, CapacityReason::ExpectedLossUnknown);
    let reorder = when(
        f.reorder == Knowledge::Unknown || (f.reorder == Knowledge::Known && f.reorder_positive),
        CapacityReason::ReorderImpactUnmodeled,
    );
    let all = network_reasons(f);
    if f.rtt == Knowledge::Unknown {
        assert(all[0] == CapacityReason::ExpectedRttUnknown);
    }
    if f.jitter == Knowledge::Unknown {
        assert(all[rtt.len() as int] == CapacityReason::RttVarianceUnknown);
    }
    if f.loss == Knowledge::Unknown {
        assert(all[(rtt.len() + jitter.len()) as int] == CapacityReason::ExpectedLossUnknown);
    }
    if f.reorder == Knowledge::Unknown {
        assert(all[(rtt.len() + jitter.len() + loss.len()) as int]
            == CapacityReason::ReorderImpactUnmodeled);
    }
    if f.control != ControlPpsConfidence::CadenceBound {
        assert(all[(rtt.len() + jitter.len() + loss.len() + reorder.len()) as int]
            == CapacityReason::ControlRateUncertain);
    }
}

proof fn lemma_first_reasons(f: Findings)
    ensures
        f.receive_buffer == Knowledge::Unknown || f.send_buffer == Knowledge::Unknown
            ==> socket_reasons(f).contains(CapacityReason::EffectiveSocketBufferUnknown),
        f.sender_host.capacity == Knowledge::Unknown || f.receiver_host.capacity
            == Knowledge::Unknown ==> host_reasons(f).contains(
            CapacityReason::HostPpsCapacityUnknown,
        ),
        f.sender_nic.capacity == Knowledge::Unknown || f.receiver_nic.capacity
            == Knowledge::Unknown ==> nic_reasons(f).contains(CapacityReason::NicCapacityUnknown),
{
    if f.receive_buffer == Knowledge::Unknown || f.send_buffer == Knowledge::Unknown {
        assert(socket_reasons(f)[0] == CapacityReason::EffectiveSocketBufferUnknown);
    }
    if f.sender_host.capacity == Knowledge::Unknown || f.receiver_host.capacity
        == Knowledge::Unknown {
        assert(host_reasons(f)[0] == CapacityReason::HostPpsCapacityUnknown);
    }
    if f.sender_nic.capacity == Knowledge::Unknown || f.receiver_nic.capacity
        == Knowledge::Unknown {
        assert(nic_reasons(f)[0] == CapacityReason::NicCapacityUnknown);
    }
}

/// What an input leaves open keeps its cell from being a production candidate, whatever
/// the comparisons and the policy say.
pub proof fn unknown_inputs_never_pass(i: CapacityInput, c: Comparisons, p: PolicyThresholds)
    requires
        leaves_open(i),
    ensures
        class_of(all_reasons(findings_on(i, c, p))) != CellClass::ProductionCandidate,
{
    unknowns_are_named(i, c, p);
}

/// A network card that does not apply is not an unknown one: on the loopback interface
/// nothing is said of it.
pub proof fn cards_that_do_not_apply_say_nothing(
    i: CapacityInput,
    c: Comparisons,
    p: PolicyThresholds,
)
    requires
        i.sender.nic_capacity_bps is NotApplicable,
        i.receiver.nic_capacity_bps is NotApplicable,
    ensures
        nic_reasons(findings_on(i, c, p)).len() == 0,
        load_known(known_inputs(i, c), traffic_known(known_inputs(i, c))).nic
            == Knowledge::NotApplicable,
{
}

} // verus!
