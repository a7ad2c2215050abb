//! The row that one process writes about its own run.
use crate::cli::{
    BandwidthPolicy, Batching, BondMode, Egress, Ingress, Mode, Promotion, WouldBlockPolicy,
};
use crate::config::{BenchConfig, after, bandwidth_spelled};
use crate::cpu_stats::UdpCounters;
use crate::results::columns_text;
use crate::stats::SourceStats;
use crate::text::{decimal, decimal_round_trips, has_prefix, render, texts};
use vstd::prelude::*;

verus! {

/// Benchmark-owned packet queues.
#[derive(Clone, Copy, Debug)]
pub struct QueueStats {
    pub queues: u64,
    pub capacity_per_queue: u64,
    pub total_capacity: u64,
    pub peak_depth_max: u64,
    pub peak_depth_sum: u64,
    pub full_events: u64,
    pub dropped_or_rejected: u64,
    pub disconnected: u64,
}

/// Receive batching and timer lateness. The ratio is rendered by whoever measured it.
#[derive(Debug)]
pub struct RecvSchedulingStats {
    pub packets: u64,
    pub syscalls: u64,
    pub late_p50_bucket_us: u64,
    pub late_p95_bucket_us: u64,
    pub late_p99_bucket_us: u64,
    pub lateness_max_us: u64,
    pub datagrams_per_syscall: String,
}

/// Retained outbound work.
#[derive(Clone, Copy, Debug)]
pub struct RetryStats {
    pub queues: u64,
    pub capacity: u64,
    pub total_capacity: u64,
    pub high_water: u64,
    pub would_block: u64,
    pub overflow: u64,
    pub local_dropped: u64,
}

/// Socket buffer sizes that the system granted.
#[derive(Clone, Copy, Debug)]
pub struct SocketBuffers {
    pub sockets: usize,
    pub rcvbuf_min_bytes: usize,
    pub rcvbuf_max_bytes: usize,
    pub sndbuf_min_bytes: usize,
    pub sndbuf_max_bytes: usize,
}

/// What the pacing policy resolved to.
#[derive(Clone, Copy, Debug)]
pub struct ResolvedBandwidth {
    pub max_bytes_per_sec: Option<u64>,
    pub input_bytes_per_sec: Option<u64>,
    pub overhead_percent: u8,
}

/// The capacity model's verdict on the run, rendered.
#[derive(Debug)]
pub struct ModelColumns {
    pub policy_revision: String,
    pub class: String,
    pub reasons: String,
    pub source_pps_total: String,
    pub packet_pps: String,
    pub srt_total_bps: String,
    pub udp_ip_bps: String,
    pub nic_wire_bps: String,
    pub retransmission_factor: String,
    pub bdp_packets: String,
    pub required_window_packets: String,
    pub flow_window_headroom_packets: String,
    pub receive_window_headroom_packets: String,
    pub recovery_margin_ms: String,
    pub socket_horizon_recv_s: String,
    pub socket_horizon_send_s: String,
    pub host_utilization: String,
    pub nic_utilization: String,
    pub admission_waves: String,
}

/// Everything one process measured about its own run. Times are rendered by whoever measured them.
#[derive(Debug)]
pub struct RunMeasurements {
    pub established: u64,
    pub torn_down: u64,
    pub pkt_sent: u64,
    pub core_total: u64,
    pub sec_a: u64,
    pub sec_b: u64,
    pub rtt_ms: String,
    pub elapsed_s: String,
    pub cc_peak: usize,
    pub source: SourceStats,
    pub source_streams: u64,
    pub datapath_queue: QueueStats,
    pub recv_scheduling: RecvSchedulingStats,
    pub outbound_retry: RetryStats,
}

/// What the system says about the process.
#[derive(Debug)]
pub struct RunSurroundings {
    pub buffers: SocketBuffers,
    pub cpu_spec: String,
    pub cpu_user_ms: String,
    pub cpu_sys_ms: String,
    pub peak_rss_kb: u64,
    pub stream_secs: String,
    pub udp: UdpCounters,
    pub backlog_capacity: u64,
}

/// A rate in whole bytes per second, at least one.
pub open spec fn whole_bytes(bps: u64) -> u64 {
    if bps / 8 == 0 {
        1
    } else {
        bps / 8
    }
}

fn bytes_of(bps: u64) -> (r: u64)
    ensures
        r == whole_bytes(bps),
        r * 8 <= u64::MAX,
{
    if bps / 8 == 0 {
        1
    } else {
        bps / 8
    }
}

impl BenchConfig {
    /// What the run's pacing policy comes to.
    pub open spec fn pacing(&self) -> ResolvedBandwidth {
        match self.bandwidth {
            BandwidthPolicy::ProtocolDefault => ResolvedBandwidth {
                max_bytes_per_sec: None,
                input_bytes_per_sec: None,
                overhead_percent: 0,
            },
            BandwidthPolicy::LegacySourceFixed => ResolvedBandwidth {
                max_bytes_per_sec: Some(whole_bytes(self.source_bitrate_bps)),
                input_bytes_per_sec: None,
                overhead_percent: 0,
            },
            BandwidthPolicy::Fixed(bps) => ResolvedBandwidth {
                max_bytes_per_sec: Some(whole_bytes(bps)),
                input_bytes_per_sec: None,
                overhead_percent: 0,
            },
            BandwidthPolicy::InputRelative { overhead_percent } => ResolvedBandwidth {
                max_bytes_per_sec: None,
                input_bytes_per_sec: Some(whole_bytes(self.source_bitrate_bps)),
                overhead_percent,
            },
        }
    }

    /// What the run's pacing policy comes to, resolved once against the source's
    /// payload rate: a ceiling, or an input rate with an allowance, or neither.
    #[must_use]
    pub fn srt_bandwidth(&self) -> (r: ResolvedBandwidth)
        ensures
            r == self.pacing(),
            r.max_bytes_per_sec is Some ==> r.max_bytes_per_sec->0 * 8 <= u64::MAX,
            r.input_bytes_per_sec is Some ==> r.input_bytes_per_sec->0 * 8 <= u64::MAX,
    {
        match self.bandwidth {
            BandwidthPolicy::ProtocolDefault => ResolvedBandwidth {
                max_bytes_per_sec: None,
                input_bytes_per_sec: None,
                overhead_percent: 0,
            },
            BandwidthPolicy::LegacySourceFixed => ResolvedBandwidth {
                max_bytes_per_sec: Some(bytes_of(self.source_bitrate_bps)),
                input_bytes_per_sec: None,
                overhead_percent: 0,
            },
            BandwidthPolicy::Fixed(bps) => ResolvedBandwidth {
                max_bytes_per_sec: Some(bytes_of(bps)),
                input_bytes_per_sec: None,
                overhead_percent: 0,
            },
            BandwidthPolicy::InputRelative { overhead_percent } => ResolvedBandwidth {
                max_bytes_per_sec: None,
                input_bytes_per_sec: Some(bytes_of(self.source_bitrate_bps)),
                overhead_percent,
            },
        }
    }
}

/// The role as recorded.
pub open spec fn role_text(v: Mode) -> Seq<char> {
    match v {
        Mode::Sender => "caller"@,
        Mode::Receiver => "listener"@,
    }
}

pub fn role_name(v: Mode) -> (r: &'static str)
    ensures
        r@ == role_text(v),
{
    match v {
        Mode::Sender => "caller",
        Mode::Receiver => "listener",
    }
}

/// The egress as recorded.
pub open spec fn egress_text(v: Egress) -> Seq<char> {
    match v {
        Egress::PerConnection => "per-connection"@,
        Egress::SharedSocket => "shared-socket"@,
    }
}

pub fn egress_name(v: Egress) -> (r: &'static str)
    ensures
        r@ == egress_text(v),
{
    match v {
        Egress::PerConnection => "per-connection",
        Egress::SharedSocket => "shared-socket",
    }
}

/// The promotion policy as recorded.
pub open spec fn promotion_text(v: Promotion) -> Seq<char> {
    match v {
        Promotion::Never => "never"@,
        Promotion::Relocate => "relocate"@,
        Promotion::Bonded => "bonded"@,
        Promotion::All => "all"@,
    }
}

pub fn promotion_name(v: Promotion) -> (r: &'static str)
    ensures
        r@ == promotion_text(v),
{
    match v {
        Promotion::Never => "never",
        Promotion::Relocate => "relocate",
        Promotion::Bonded => "bonded",
        Promotion::All => "all",
    }
}

/// The yield policy as recorded.
pub open spec fn would_block_text(v: WouldBlockPolicy) -> Seq<char> {
    match v {
        WouldBlockPolicy::Retain => "retain"@,
        WouldBlockPolicy::Drop => "drop"@,
    }
}

pub fn would_block_name(v: WouldBlockPolicy) -> (r: &'static str)
    ensures
        r@ == would_block_text(v),
{
    match v {
        WouldBlockPolicy::Retain => "retain",
        WouldBlockPolicy::Drop => "drop",
    }
}

/// A switch as recorded.
pub open spec fn switch_text(v: bool) -> Seq<char> {
    match v {
        true => "on"@,
        false => "off"@,
    }
}

pub fn switch_name(v: bool) -> (r: &'static str)
    ensures
        r@ == switch_text(v),
{
    match v {
        true => "on",
        false => "off",
    }
}

/// The ingress as recorded.
pub open spec fn ingress_text(ingress: Ingress) -> Seq<char> {
    match ingress {
        Ingress::PerPort => "per-port"@,
        Ingress::SharedPool(k) => "shared-pool:"@ + decimal(k as nat),
        Ingress::ReuseportMulti(k) => "reuseport-multi:"@ + decimal(k as nat),
        Ingress::ReuseportSingle { workers } => "reuseport-single:"@ + decimal(workers as nat),
    }
}

/// The ingress, rendered for the result file.
#[must_use]
pub fn describe_ingress(ingress: Ingress) -> (r: String)
    ensures
        r@ == ingress_text(ingress),
{
    match ingress {
        Ingress::PerPort => "per-port".to_owned(),
        Ingress::SharedPool(k) => {
            let mut out = "shared-pool:".to_owned();
            out.append(render(k as u64).as_str());
            out
        },
        Ingress::ReuseportMulti(k) => {
            let mut out = "reuseport-multi:".to_owned();
            out.append(render(k as u64).as_str());
            out
        },
        Ingress::ReuseportSingle { workers } => {
            let mut out = "reuseport-single:".to_owned();
            out.append(render(workers as u64).as_str());
            out
        },
    }
}

/// Bonding as recorded.
pub open spec fn bond_text(mode: BondMode, pairs: usize) -> Seq<char> {
    match mode {
        BondMode::Unbonded => "none"@,
        BondMode::Broadcast => "broadcast:"@ + decimal(pairs as nat),
        BondMode::Backup => "backup:"@ + decimal(pairs as nat),
    }
}

/// Bonding, rendered for the result file.
#[must_use]
pub fn describe_bond(cfg: &BenchConfig) -> (r: String)
    ensures
        r@ == bond_text(cfg.bond_mode, cfg.bond_pairs),
{
    match cfg.bond_mode {
        BondMode::Unbonded => "none".to_owned(),
        BondMode::Broadcast => {
            let mut out = "broadcast:".to_owned();
            out.append(render(cfg.bond_pairs as u64).as_str());
            out
        },
        BondMode::Backup => {
            let mut out = "backup:".to_owned();
            out.append(render(cfg.bond_pairs as u64).as_str());
            out
        },
    }
}

impl BandwidthPolicy {
    /// The policy as it is spelled and recorded.
    pub open spec fn text(self) -> Seq<char> {
        match self {
            BandwidthPolicy::ProtocolDefault => "protocol-default"@,
            BandwidthPolicy::LegacySourceFixed => "legacy-source-fixed"@,
            BandwidthPolicy::Fixed(bps) => "fixed:"@ + decimal(bps as nat),
            BandwidthPolicy::InputRelative { overhead_percent } => "input-relative:"@ + decimal(
                overhead_percent as nat,
            ),
        }
    }

    pub fn name(self) -> (r: String)
        ensures
            r@ == self.text(),
    {
        match self {
            BandwidthPolicy::ProtocolDefault => "protocol-default".to_owned(),
            BandwidthPolicy::LegacySourceFixed => "legacy-source-fixed".to_owned(),
            BandwidthPolicy::Fixed(bps) => {
                let mut out = "fixed:".to_owned();
                out.append(render(bps).as_str());
                out
            },
            BandwidthPolicy::InputRelative { overhead_percent } => {
                let mut out = "input-relative:".to_owned();
                out.append(render(overhead_percent as u64).as_str());
                out
            },
        }
    }
}

/// A pacing policy that can be configured is found again under its recorded name,
/// so that a sweep's cell and the row it wrote agree.
pub proof fn bandwidth_names_round_trip(p: BandwidthPolicy)
    requires
        p is InputRelative ==> 5 <= p->overhead_percent <= 100,
    ensures
        bandwidth_spelled(p.text()) == Some(p),
{
    reveal_strlit("protocol-default");
    reveal_strlit("legacy-source-fixed");
    reveal_strlit("fixed:");
    reveal_strlit("input-relative:");
    assert("protocol-default"@[0] == 'p' && "legacy-source-fixed"@[0] == 'l');
    assert("fixed:"@[0] == 'f' && "input-relative:"@[0] == 'i');
    match p {
        BandwidthPolicy::ProtocolDefault => {},
        BandwidthPolicy::LegacySourceFixed => {},
        BandwidthPolicy::Fixed(bps) => {
            let t = p.text();
            decimal_round_trips(bps as nat);
            assert(t[0] == 'f');
            assert(t.subrange(0, 6) =~= "fixed:"@);
            assert(after(t, "fixed:"@) =~= decimal(bps as nat));
        },
        BandwidthPolicy::InputRelative { overhead_percent } => {
            let t = p.text();
            decimal_round_trips(overhead_percent as nat);
            assert(t[0] == 'i');
            assert(t.subrange(0, 15) =~= "input-relative:"@);
            assert(!has_prefix(t, "fixed:"@)) by {
                if has_prefix(t, "fixed:"@) {
                    assert(t.subrange(0, 6)[0] == "fixed:"@[0]);
                }
            }
            assert(after(t, "input-relative:"@) =~= decimal(overhead_percent as nat));
        },
    }
}

/// A rate in bytes per second, recorded in bits per second; nothing if unset.
pub open spec fn rate_text(rate: Option<u64>) -> Seq<char> {
    match rate {
        Some(b) => decimal((b * 8) as nat),
        None => Seq::empty(),
    }
}

fn rate_in_bits(rate: Option<u64>) -> (r: String)
    requires
        rate is Some ==> rate->0 * 8 <= u64::MAX,
    ensures
        r@ == rate_text(rate),
{
    match rate {
        Some(b) => render(b * 8),
        None => String::new(),
    }
}

/// An observed size; nothing if no socket was observed.
pub open spec fn observed_text(buffers: SocketBuffers, value: usize) -> Seq<char> {
    if buffers.sockets > 0 {
        decimal(value as nat)
    } else {
        Seq::empty()
    }
}

fn observed(buffers: &SocketBuffers, value: usize) -> (r: String)
    ensures
        r@ == observed_text(*buffers, value),
{
    if buffers.sockets > 0 {
        render(value as u64)
    } else {
        String::new()
    }
}

/// Datagrams per receive call; `0` without a call.
pub open spec fn per_syscall_text(s: RecvSchedulingStats) -> Seq<char> {
    if s.syscalls == 0 {
        "0"@
    } else {
        s.datagrams_per_syscall@
    }
}

fn per_syscall(s: &RecvSchedulingStats) -> (r: String)
    ensures
        r@ == per_syscall_text(*s),
{
    if s.syscalls == 0 {
        "0".to_owned()
    } else {
        s.datagrams_per_syscall.clone()
    }
}

/// Application-visible streams of a configuration.
pub open spec fn logical_streams(cfg: BenchConfig) -> int {
    if cfg.bond_mode == BondMode::Unbonded {
        cfg.connections as int
    } else if cfg.bond_pairs < cfg.connections / 2 {
        cfg.connections - cfg.bond_pairs
    } else {
        cfg.connections - cfg.connections / 2
    }
}

/// Whether the system granted less than the buffers that were asked for.
pub fn buffers_clamped(requested: usize, buffers: &SocketBuffers) -> (r: bool)
    ensures
        r == (buffers.sockets > 0 && requested > 0 && (buffers.rcvbuf_min_bytes < requested
            || buffers.sndbuf_min_bytes < requested)),
{
    buffers.sockets > 0 && requested > 0 && (buffers.rcvbuf_min_bytes < requested
        || buffers.sndbuf_min_bytes < requested)
}

/// What the endpoints were configured with.
pub open spec fn topology_values(cfg: BenchConfig, env: RunSurroundings) -> Seq<Seq<char>> {
    seq![
        cfg.runtime.text(),
        cfg.encryption.text(),
        role_text(cfg.mode),
        ingress_text(cfg.ingress),
        egress_text(cfg.egress),
        promotion_text(cfg.promotion),
        switch_text(cfg.cookie_routing),
        switch_text(cfg.batching == Batching::On),
        decimal(cfg.recv_rounds as nat),
        would_block_text(cfg.would_block),
        decimal(cfg.sock_buf_bytes as nat),
        observed_text(env.buffers, env.buffers.rcvbuf_min_bytes),
        observed_text(env.buffers, env.buffers.rcvbuf_max_bytes),
        observed_text(env.buffers, env.buffers.sndbuf_min_bytes),
        observed_text(env.buffers, env.buffers.sndbuf_max_bytes),
        env.cpu_spec@,
        switch_text(cfg.pin),
        cfg.link.delay@,
        cfg.link.jitter@,
        cfg.link.loss@,
        cfg.link.rate@,
        cfg.link.reorder@,
        cfg.link.duplicate@,
        cfg.link.corrupt@,
        cfg.link.limit@,
    ]
}

fn topology_part(cfg: &BenchConfig, env: &RunSurroundings) -> (r: Vec<String>)
    ensures
        texts(r@) == topology_values(*cfg, *env),
{
    let values: Vec<String> = vec![
        cfg.runtime.name().to_owned(),
        cfg.encryption.name().to_owned(),
        role_name(cfg.mode).to_owned(),
        describe_ingress(cfg.ingress),
        egress_name(cfg.egress).to_owned(),
        promotion_name(cfg.promotion).to_owned(),
        switch_name(cfg.cookie_routing).to_owned(),
        switch_name(cfg.batching == Batching::On).to_owned(),
        render(cfg.recv_rounds as u64),
        would_block_name(cfg.would_block).to_owned(),
        render(cfg.sock_buf_bytes as u64),
        observed(&env.buffers, env.buffers.rcvbuf_min_bytes),
        observed(&env.buffers, env.buffers.rcvbuf_max_bytes),
        observed(&env.buffers, env.buffers.sndbuf_min_bytes),
        observed(&env.buffers, env.buffers.sndbuf_max_bytes),
        env.cpu_spec.clone(),
        switch_name(cfg.pin).to_owned(),
        cfg.link.delay.clone(),
        cfg.link.jitter.clone(),
        cfg.link.loss.clone(),
        cfg.link.rate.clone(),
        cfg.link.reorder.clone(),
        cfg.link.duplicate.clone(),
        cfg.link.corrupt.clone(),
        cfg.link.limit.clone(),
    ];
    assert(texts(values@) =~= topology_values(*cfg, *env));
    values
}

/// What the cell asked for.
pub open spec fn workload_values(cfg: BenchConfig, m: RunMeasurements) -> Seq<Seq<char>> {
    seq![
        decimal(cfg.workers as nat),
        cfg.peer_topology.recv_runtime@,
        cfg.peer_topology.send_runtime@,
        cfg.peer_topology.recv_ingress@,
        cfg.peer_topology.send_ingress@,
        cfg.peer_topology.recv_workers@,
        cfg.peer_topology.send_workers@,
        cfg.peer_topology.recv_cpus@,
        cfg.peer_topology.send_cpus@,
        decimal(cfg.connections as nat),
        decimal(logical_streams(cfg) as nat),
        decimal(m.source_streams as nat),
        decimal(cfg.connect_concurrency as nat),
        decimal(m.cc_peak as nat),
        bond_text(cfg.bond_mode, cfg.bond_pairs),
        decimal(cfg.source_bitrate_bps as nat),
        cfg.bandwidth.text(),
        rate_text(cfg.pacing().max_bytes_per_sec),
        rate_text(cfg.pacing().input_bytes_per_sec),
        decimal(cfg.pacing().overhead_percent as nat),
    ]
}

fn workload_part(cfg: &BenchConfig, m: &RunMeasurements) -> (r: Vec<String>)
    ensures
        texts(r@) == workload_values(*cfg, *m),
{
    let bandwidth = cfg.srt_bandwidth();
    let values: Vec<String> = vec![
        render(cfg.workers as u64),
        cfg.peer_topology.recv_runtime.clone(),
        cfg.peer_topology.send_runtime.clone(),
        cfg.peer_topology.recv_ingress.clone(),
        cfg.peer_topology.send_ingress.clone(),
        cfg.peer_topology.recv_workers.clone(),
        cfg.peer_topology.send_workers.clone(),
        cfg.peer_topology.recv_cpus.clone(),
        cfg.peer_topology.send_cpus.clone(),
        render(cfg.connections as u64),
        render(cfg.logical_connection_count() as u64),
        render(m.source_streams as u64),
        render(cfg.connect_concurrency as u64),
        render(m.cc_peak as u64),
        describe_bond(cfg),
        render(cfg.source_bitrate_bps as u64),
        cfg.bandwidth.name(),
        rate_in_bits(bandwidth.max_bytes_per_sec),
        rate_in_bits(bandwidth.input_bytes_per_sec),
        render(bandwidth.overhead_percent as u64),
    ];
    assert(texts(values@) =~= workload_values(*cfg, *m));
    values
}

/// What the capacity model expected.
pub open spec fn model_values(model: ModelColumns) -> Seq<Seq<char>> {
    seq![
        model.policy_revision@,
        model.class@,
        model.reasons@,
        model.source_pps_total@,
        model.packet_pps@,
        model.srt_total_bps@,
        model.udp_ip_bps@,
        model.nic_wire_bps@,
        model.retransmission_factor@,
        model.bdp_packets@,
        model.required_window_packets@,
        model.flow_window_headroom_packets@,
        model.receive_window_headroom_packets@,
        model.recovery_margin_ms@,
        model.socket_horizon_recv_s@,
        model.socket_horizon_send_s@,
        model.host_utilization@,
        model.nic_utilization@,
        model.admission_waves@,
    ]
}

fn model_part(model: &ModelColumns) -> (r: Vec<String>)
    ensures
        texts(r@) == model_values(*model),
{
    let values: Vec<String> = vec![
        model.policy_revision.clone(),
        model.class.clone(),
        model.reasons.clone(),
        model.source_pps_total.clone(),
        model.packet_pps.clone(),
        model.srt_total_bps.clone(),
        model.udp_ip_bps.clone(),
        model.nic_wire_bps.clone(),
        model.retransmission_factor.clone(),
        model.bdp_packets.clone(),
        model.required_window_packets.clone(),
        model.flow_window_headroom_packets.clone(),
        model.receive_window_headroom_packets.clone(),
        model.recovery_margin_ms.clone(),
        model.socket_horizon_recv_s.clone(),
        model.socket_horizon_send_s.clone(),
        model.host_utilization.clone(),
        model.nic_utilization.clone(),
        model.admission_waves.clone(),
    ];
    assert(texts(values@) =~= model_values(*model));
    values
}

/// What the run came to.
pub open spec fn outcome_values(
    cfg: BenchConfig,
    rep: usize,
    m: RunMeasurements,
    env: RunSurroundings,
) -> Seq<Seq<char>> {
    seq![
        decimal(rep as nat),
        cfg.attempt@,
        decimal(m.established as nat),
        decimal(m.torn_down as nat),
        decimal(m.pkt_sent as nat),
        decimal(m.core_total as nat),
        decimal(m.sec_a as nat),
        decimal(m.sec_b as nat),
        m.rtt_ms@,
        m.elapsed_s@,
        env.cpu_user_ms@,
        env.cpu_sys_ms@,
        decimal(env.peak_rss_kb as nat),
        env.stream_secs@,
        decimal(env.udp.rcvbuf_errors as nat),
        decimal(env.udp.in_errors as nat),
        decimal(env.udp.no_ports as nat),
    ]
}

fn outcome_part(
    cfg: &BenchConfig,
    rep: usize,
    m: &RunMeasurements,
    env: &RunSurroundings,
) -> (r: Vec<String>)
    ensures
        texts(r@) == outcome_values(*cfg, rep, *m, *env),
{
    let values: Vec<String> = vec![
        render(rep as u64),
        cfg.attempt.clone(),
        render(m.established as u64),
        render(m.torn_down as u64),
        render(m.pkt_sent as u64),
        render(m.core_total as u64),
        render(m.sec_a as u64),
        render(m.sec_b as u64),
        m.rtt_ms.clone(),
        m.elapsed_s.clone(),
        env.cpu_user_ms.clone(),
        env.cpu_sys_ms.clone(),
        render(env.peak_rss_kb as u64),
        env.stream_secs.clone(),
        render(env.udp.rcvbuf_errors as u64),
        render(env.udp.in_errors as u64),
        render(env.udp.no_ports as u64),
    ];
    assert(texts(values@) =~= outcome_values(*cfg, rep, *m, *env));
    values
}

/// What the source and the queues did.
pub open spec fn queue_values(
    cfg: BenchConfig,
    m: RunMeasurements,
    env: RunSurroundings,
) -> Seq<Seq<char>> {
    seq![
        decimal(m.source.generated as nat),
        decimal(m.source.accepted as nat),
        decimal(m.source.refusal_polls as nat),
        decimal(m.source.blocked_streaks as nat),
        decimal(cfg.source_backlog_ms as nat),
        decimal(env.backlog_capacity as nat),
        decimal(m.source.backlog_hwm as nat),
        decimal(m.source.overflow as nat),
        decimal(cfg.datapath_queue_horizon_ms as nat),
        decimal(m.datapath_queue.queues as nat),
        decimal(m.datapath_queue.capacity_per_queue as nat),
        decimal(m.datapath_queue.total_capacity as nat),
        decimal(m.datapath_queue.peak_depth_max as nat),
        decimal(m.datapath_queue.peak_depth_sum as nat),
        decimal(m.datapath_queue.full_events as nat),
        decimal(m.datapath_queue.dropped_or_rejected as nat),
        decimal(m.datapath_queue.disconnected as nat),
        decimal(m.recv_scheduling.packets as nat),
        decimal(m.recv_scheduling.syscalls as nat),
        per_syscall_text(m.recv_scheduling),
        decimal(m.recv_scheduling.late_p50_bucket_us as nat),
        decimal(m.recv_scheduling.late_p95_bucket_us as nat),
        decimal(m.recv_scheduling.late_p99_bucket_us as nat),
        decimal(m.recv_scheduling.lateness_max_us as nat),
        decimal(cfg.outbound_retry_horizon_ms as nat),
        decimal(m.outbound_retry.queues as nat),
        decimal(m.outbound_retry.capacity as nat),
        decimal(m.outbound_retry.total_capacity as nat),
        decimal(m.outbound_retry.high_water as nat),
        decimal(m.outbound_retry.would_block as nat),
        decimal(m.outbound_retry.overflow as nat),
        decimal(m.outbound_retry.local_dropped as nat),
    ]
}

fn queue_part(cfg: &BenchConfig, m: &RunMeasurements, env: &RunSurroundings) -> (r: Vec<String>)
    ensures
        texts(r@) == queue_values(*cfg, *m, *env),
{
    let values: Vec<String> = vec![
        render(m.source.generated as u64),
        render(m.source.accepted as u64),
        render(m.source.refusal_polls as u64),
        render(m.source.blocked_streaks as u64),
        render(cfg.source_backlog_ms as u64),
        render(env.backlog_capacity as u64),
        render(m.source.backlog_hwm as u64),
        render(m.source.overflow as u64),
        render(cfg.datapath_queue_horizon_ms as u64),
        render(m.datapath_queue.queues as u64),
        render(m.datapath_queue.capacity_per_queue as u64),
        render(m.datapath_queue.total_capacity as u64),
        render(m.datapath_queue.peak_depth_max as u64),
        render(m.datapath_queue.peak_depth_sum as u64),
        render(m.datapath_queue.full_events as u64),
        render(m.datapath_queue.dropped_or_rejected as u64),
        render(m.datapath_queue.disconnected as u64),
        render(m.recv_scheduling.packets as u64),
        render(m.recv_scheduling.syscalls as u64),
        per_syscall(&m.recv_scheduling),
        render(m.recv_scheduling.late_p50_bucket_us as u64),
        render(m.recv_scheduling.late_p95_bucket_us as u64),
        render(m.recv_scheduling.late_p99_bucket_us as u64),
        render(m.recv_scheduling.lateness_max_us as u64),
        render(cfg.outbound_retry_horizon_ms as u64),
        render(m.outbound_retry.queues as u64),
        render(m.outbound_retry.capacity as u64),
        render(m.outbound_retry.total_capacity as u64),
        render(m.outbound_retry.high_water as u64),
        render(m.outbound_retry.would_block as u64),
        render(m.outbound_retry.overflow as u64),
        render(m.outbound_retry.local_dropped as u64),
    ];
    assert(texts(values@) =~= queue_values(*cfg, *m, *env));
    values
}

/// The values of a row, column by column.
pub open spec fn row_values(
    cfg: BenchConfig,
    rep: usize,
    m: RunMeasurements,
    model: ModelColumns,
    env: RunSurroundings,
) -> Seq<Seq<char>> {
    topology_values(cfg, env) + workload_values(cfg, m) + model_values(model)
        + outcome_values(cfg, rep, m, env) + queue_values(cfg, m, env)
}

/// A row has one value for every column.
pub proof fn rows_are_as_wide_as_the_header(
    cfg: BenchConfig,
    rep: usize,
    m: RunMeasurements,
    model: ModelColumns,
    env: RunSurroundings,
)
    ensures
        row_values(cfg, rep, m, model, env).len() == columns_text().len(),
{
}

fn extend(row: &mut Vec<String>, part: Vec<String>)
    ensures
        texts(final(row)@) == texts(old(row)@) + texts(part@),
{
    let mut part = part;
    let ghost before = row@;
    let ghost more = part@;
    row.append(&mut part);
    assert(texts(before + more) =~= texts(before) + texts(more));
}

/// The values of one run's row.
pub fn result_row(
    cfg: &BenchConfig,
    rep: usize,
    m: &RunMeasurements,
    model: &ModelColumns,
    env: &RunSurroundings,
) -> (r: Vec<String>)
    ensures
        texts(r@) == row_values(*cfg, rep, *m, *model, *env),
{
    let mut row = topology_part(cfg, env);
    extend(&mut row, workload_part(cfg, m));
    extend(&mut row, model_part(model));
    extend(&mut row, outcome_part(cfg, rep, m, env));
    extend(&mut row, queue_part(cfg, m, env));
    row
}

} // verus!
