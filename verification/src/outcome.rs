//! What a run hands to the protocol and what it reports at the end.
use crate::cli::{BondMode, Encryption, KeySettings};
use crate::config::{BenchConfig, GroupExtension, SRTGROUP_MASK, caller_socket_id_for, socket_id};
use crate::row::{ResolvedBandwidth, role_name, role_text};
use crate::stats::{Aggregate, ConnStats, no_stats};
use crate::text::{concat, decimal, render, run_together, slices};
use vstd::prelude::*;

verus! {

// ---------------------------------------------------------------------------
// Connection options
// ---------------------------------------------------------------------------

/// What a shared listener admits callers with: the same complete template as a
/// per-port listener.
#[derive(Debug)]
pub struct AdmissionOptions {
    pub socket_id: u32,
    pub tsbpd_delay: u16,
    pub cookie_routing: bool,
    /// Whether grouped callers are taken as one stream.
    pub accept_bonded: bool,
    pub key: KeySettings,
}

/// What a caller connects with.
#[derive(Debug)]
pub struct CallerOptions {
    pub socket_id: u32,
    pub tsbpd_delay: u16,
    pub group_extension: Option<GroupExtension>,
    pub initial_seq: Option<u32>,
    pub stream_id: Option<String>,
    /// What the connection may send, and how that is reckoned.
    pub bandwidth: ResolvedBandwidth,
    pub key: KeySettings,
}

/// Whether key settings are those of an encryption mode.
pub open spec fn keyed_for(key: KeySettings, encryption: Encryption) -> bool {
    &&& key.key_bits == encryption.key_bits()
    &&& (key.passphrase is Some) == (encryption != Encryption::Plain)
    &&& key.passphrase is Some ==> key.passphrase->0@ == "srt-bench-encryption"@
}

impl BenchConfig {
    /// What a shared listener admits callers with.
    pub fn admission_options(&self, socket_id: u32, cookie_routing: bool) -> (r: AdmissionOptions)
        ensures
            r.socket_id == socket_id,
            r.tsbpd_delay == self.latency_ms,
            r.cookie_routing == cookie_routing,
            r.accept_bonded == (self.bond_mode != BondMode::Unbonded),
            keyed_for(r.key, self.encryption),
    {
        AdmissionOptions {
            socket_id,
            tsbpd_delay: self.latency_ms,
            cookie_routing,
            accept_bonded: self.bond_mode != BondMode::Unbonded,
            key: self.encryption.apply_to(),
        }
    }

    /// What connection `index` of the process `pid` connects with.
    pub fn caller_options(&self, pid: u32, index: usize) -> (r: CallerOptions)
        requires
            self.bond_pairs * 2 <= usize::MAX,
            self.bonded(index) ==> index / 2 < u32::MAX,
        ensures
            r.socket_id == socket_id(pid, index as u32),
            r.tsbpd_delay == self.latency_ms,
            (r.group_extension is Some) == self.bonded(index),
            r.group_extension is Some ==> r.group_extension->0 == (GroupExtension {
                group_id: SRTGROUP_MASK | ((index / 2 + 1) as u32),
                backup: self.bond_mode == BondMode::Backup,
                flags: 0,
                weight: if self.bond_mode == BondMode::Backup && index % 2 == 1 {
                    0
                } else {
                    1
                },
            }),
            (r.initial_seq is Some) == self.bonded(index),
            r.initial_seq is Some ==> r.initial_seq->0 == 0x0100_0000u32 | ((index / 2) as u32),
            (r.stream_id is Some) == self.bonded(index),
            r.stream_id is Some ==> r.stream_id->0@ == "srt-bench-group-"@ + decimal(
                (index / 2) as nat,
            ),
            r.bandwidth == self.pacing(),
            keyed_for(r.key, self.encryption),
    {
        CallerOptions {
            socket_id: caller_socket_id_for(pid, index),
            tsbpd_delay: self.latency_ms,
            group_extension: self.bond_extension_for(index),
            initial_seq: self.bond_initial_seq_for(index),
            stream_id: self.bond_stream_id_for(index),
            bandwidth: self.srt_bandwidth(),
            key: self.encryption.apply_to(),
        }
    }
}

// ---------------------------------------------------------------------------
// Connection outcomes
// ---------------------------------------------------------------------------

/// What a sender's protocol reports.
#[derive(Clone, Copy, PartialEq, Eq, Debug, Structural)]
pub struct SenderReport {
    pub total_sent: u64,
    pub total_retransmits: u64,
    pub packets_in_loss_list: u64,
}

/// A connection's outcome with a sender's report taken into it.
pub open spec fn with_report(stats: ConnStats, sender: Option<SenderReport>) -> ConnStats {
    match sender {
        Some(s) => ConnStats {
            has_stats: true,
            core_total: s.total_sent,
            secondary_a: s.total_retransmits,
            secondary_b: s.packets_in_loss_list,
            ..stats
        },
        None => stats,
    }
}

/// Takes a sender's report into the connection's outcome, if there is one.
pub fn apply_sender_stats(stats: &mut ConnStats, sender: Option<SenderReport>)
    ensures
        *final(stats) == with_report(*old(stats), sender),
{
    if let Some(s) = sender {
        stats.has_stats = true;
        stats.core_total = s.total_sent;
        stats.secondary_a = s.total_retransmits;
        stats.secondary_b = s.packets_in_loss_list;
    }
}

/// What a bonded group received.
#[derive(Debug)]
pub struct GroupReport {
    pub ever_connected: bool,
    pub torn_down: bool,
    pub logical_payloads_received: u64,
    pub wire_unique_packets_received: u64,
    pub wire_receiver_packets_lost: u64,
    /// The duplicates that each leg saw, where it reports them.
    pub leg_duplicates: Vec<Option<u64>>,
}

/// What a receiver's protocol reports.
#[derive(Clone, Copy, PartialEq, Eq, Debug, Structural)]
pub struct ReceiverReport {
    pub total_received: u64,
    pub total_lost: u64,
    pub total_duplicates: u64,
    pub rtt_us: u64,
}

/// What a single peer received.
#[derive(Clone, Copy, PartialEq, Eq, Debug, Structural)]
pub struct PeerReport {
    pub streaming: bool,
    pub torn_down: bool,
    pub data_events: u64,
    pub receiver: Option<ReceiverReport>,
}

/// The sum of the duplicates that legs report.
pub open spec fn duplicates_of(legs: Seq<Option<u64>>) -> nat
    decreases legs.len(),
{
    if legs.len() == 0 {
        0
    } else {
        duplicates_of(legs.drop_last()) + match legs.last() {
            Some(n) => n as nat,
            None => 0,
        }
    }
}

/// A group as one row: a bonded publisher is one logical receiver.
pub open spec fn group_row(g: GroupReport) -> ConnStats {
    ConnStats {
        connected: g.ever_connected,
        torn_down: g.torn_down,
        data_events: g.logical_payloads_received,
        has_stats: g.leg_duplicates@.len() > 0,
        core_total: g.wire_unique_packets_received,
        secondary_a: g.wire_receiver_packets_lost,
        secondary_b: duplicates_of(g.leg_duplicates@) as u64,
        ..no_stats()
    }
}

/// A peer as one row.
pub open spec fn peer_row(p: PeerReport) -> ConnStats {
    let s = ConnStats {
        connected: p.streaming,
        torn_down: p.torn_down,
        data_events: p.data_events,
        ..no_stats()
    };
    match p.receiver {
        Some(r) => ConnStats {
            has_stats: true,
            core_total: r.total_received,
            secondary_a: r.total_lost,
            secondary_b: r.total_duplicates,
            rtt_us: r.rtt_us,
            ..s
        },
        None => s,
    }
}

/// The rows of a listener: its groups, then its single peers.
pub open spec fn listener_rows(groups: Seq<GroupReport>, peers: Seq<PeerReport>) -> Seq<ConnStats> {
    groups.map_values(|g: GroupReport| group_row(g)) + peers.map_values(|p: PeerReport| peer_row(p))
}

proof fn lemma_duplicates_grow(legs: Seq<Option<u64>>, n: int)
    requires
        0 <= n <= legs.len(),
    ensures
        duplicates_of(legs.take(n)) <= duplicates_of(legs),
    decreases legs.len() - n,
{
    if n < legs.len() {
        assert(legs.take(n + 1).drop_last() =~= legs.take(n));
        lemma_duplicates_grow(legs, n + 1);
    } else {
        assert(legs.take(n) =~= legs);
    }
}

fn sum_duplicates(legs: &Vec<Option<u64>>) -> (r: u64)
    requires
        duplicates_of(legs@) <= u64::MAX,
    ensures
        r == duplicates_of(legs@),
{
    let mut sum: u64 = 0;
    let mut i: usize = 0;
    assert(duplicates_of(legs@.take(0)) == 0);
    while i < legs.len()
        invariant
            i <= legs@.len(),
            sum == duplicates_of(legs@.take(i as int)),
            duplicates_of(legs@) <= u64::MAX,
        decreases legs@.len() - i,
    {
        proof {
            assert(legs@.take(i + 1).drop_last() =~= legs@.take(i as int));
            lemma_duplicates_grow(legs@, i + 1);
        }
        if let Some(n) = legs[i] {
            sum += n;
        }
        i += 1;
    }
    assert(legs@.take(legs@.len() as int) =~= legs@);
    sum
}

/// The rows of a listener. A bonded publisher is one logical receiver, with logical
/// delivery and summed wire counts; every other peer keeps its own row.
pub fn collect_listener_stats(groups: &Vec<GroupReport>, peers: &Vec<PeerReport>) -> (r: Vec<
    ConnStats,
>)
    requires
        forall|i: int|
            0 <= i < groups@.len() ==> duplicates_of((#[trigger] groups@[i]).leg_duplicates@)
                <= u64::MAX,
    ensures
        r@ == listener_rows(groups@, peers@),
{
    let ghost all = listener_rows(groups@, peers@);
    let mut rows: Vec<ConnStats> = Vec::new();
    let mut i: usize = 0;
    while i < groups.len()
        invariant
            i <= groups@.len(),
            all == listener_rows(groups@, peers@),
            rows@ == all.take(i as int),
            forall|j: int|
                0 <= j < groups@.len() ==> duplicates_of((#[trigger] groups@[j]).leg_duplicates@)
                    <= u64::MAX,
        decreases groups@.len() - i,
    {
        let g = &groups[i];
        let mut row = ConnStats::default();
        row.connected = g.ever_connected;
        row.torn_down = g.torn_down;
        row.data_events = g.logical_payloads_received;
        row.has_stats = g.leg_duplicates.len() > 0;
        row.core_total = g.wire_unique_packets_received;
        row.secondary_a = g.wire_receiver_packets_lost;
        row.secondary_b = sum_duplicates(&g.leg_duplicates);
        rows.push(row);
        assert(rows@ =~= all.take(i + 1));
        i += 1;
    }
    let mut k: usize = 0;
    while k < peers.len()
        invariant
            k <= peers@.len(),
            all == listener_rows(groups@, peers@),
            rows@ == all.take(groups@.len() + k),
        decreases peers@.len() - k,
    {
        let p = &peers[k];
        let mut row = ConnStats::default();
        row.connected = p.streaming;
        row.torn_down = p.torn_down;
        row.data_events = p.data_events;
        if let Some(r) = p.receiver {
            row.has_stats = true;
            row.core_total = r.total_received;
            row.secondary_a = r.total_lost;
            row.secondary_b = r.total_duplicates;
            row.rtt_us = r.rtt_us;
        }
        rows.push(row);
        assert(rows@ =~= all.take(groups@.len() + k + 1));
        k += 1;
    }
    assert(all.take(all.len() as int) =~= all);
    rows
}

// ---------------------------------------------------------------------------
// The final line
// ---------------------------------------------------------------------------

/// The figures of a run that are fractions, rendered.
#[derive(Debug)]
pub struct StatsFigures {
    pub rtt_ms: String,
    pub elapsed_s: String,
    pub throughput_pps: String,
    pub cpu_user_ms: String,
    pub cpu_sys_ms: String,
    pub peak_rss_kb: u64,
}

/// The names and figures of the final line of a run of one connection.
pub open spec fn single_line_parts(c: BenchConfig, a: Aggregate, f: StatsFigures) -> Seq<Seq<char>> {
    seq![
        "STATS role="@,
        role_text(c.mode),
        " backend="@,
        c.runtime.text(),
        " pkt_sent="@,
        decimal(a.data_events as nat),
        " core_total="@,
        decimal(a.core_total as nat),
        " sec_a="@,
        decimal(a.secondary_a as nat),
        " sec_b="@,
        decimal(a.secondary_b as nat),
        " rtt_ms="@,
        f.rtt_ms@,
        " elapsed_s="@,
        f.elapsed_s@,
        " cpu_user_ms="@,
        f.cpu_user_ms@,
        " cpu_sys_ms="@,
        f.cpu_sys_ms@,
        " peak_rss_kb="@,
        decimal(f.peak_rss_kb as nat),
    ]
}

/// The final line of a run of one connection.
pub open spec fn single_line_text(c: BenchConfig, a: Aggregate, f: StatsFigures) -> Seq<char> {
    run_together(single_line_parts(c, a, f))
}

fn single_line(c: &BenchConfig, a: &Aggregate, f: &StatsFigures) -> (r: String)
    ensures
        r@ == single_line_text(*c, *a, *f),
{
    let data_events = render(a.data_events);
    let core_total = render(a.core_total);
    let secondary_a = render(a.secondary_a);
    let secondary_b = render(a.secondary_b);
    let peak = render(f.peak_rss_kb);
    let parts: Vec<&str> = vec![
        "STATS role=",
        role_name(c.mode),
        " backend=",
        c.runtime.name(),
        " pkt_sent=",
        data_events.as_str(),
        " core_total=",
        core_total.as_str(),
        " sec_a=",
        secondary_a.as_str(),
        " sec_b=",
        secondary_b.as_str(),
        " rtt_ms=",
        f.rtt_ms.as_str(),
        " elapsed_s=",
        f.elapsed_s.as_str(),
        " cpu_user_ms=",
        f.cpu_user_ms.as_str(),
        " cpu_sys_ms=",
        f.cpu_sys_ms.as_str(),
        " peak_rss_kb=",
        peak.as_str(),
    ];
    assert(slices(parts@) =~= seq![
        "STATS role="@,
        role_text(c.mode),
        " backend="@,
        c.runtime.text(),
        " pkt_sent="@,
        decimal(a.data_events as nat),
        " core_total="@,
        decimal(a.core_total as nat),
        " sec_a="@,
        decimal(a.secondary_a as nat),
        " sec_b="@,
        decimal(a.secondary_b as nat),
        " rtt_ms="@,
        f.rtt_ms@,
        " elapsed_s="@,
        f.elapsed_s@,
        " cpu_user_ms="@,
        f.cpu_user_ms@,
        " cpu_sys_ms="@,
        f.cpu_sys_ms@,
        " peak_rss_kb="@,
        decimal(f.peak_rss_kb as nat),
    ]);
    concat(&parts)
}

/// The names and figures of the final line of a run of several connections.
pub open spec fn fleet_line_parts(c: BenchConfig, a: Aggregate, f: StatsFigures) -> Seq<Seq<char>> {
    seq![
        "STATS role="@,
        role_text(c.mode),
        " backend="@,
        c.runtime.text(),
        " connections="@,
        decimal(c.connections as nat),
        " established="@,
        decimal(a.stats_count as nat),
        " pkt_sent="@,
        decimal(a.data_events as nat),
        " core_total="@,
        decimal(a.core_total as nat),
        " sec_a="@,
        decimal(a.secondary_a as nat),
        " sec_b="@,
        decimal(a.secondary_b as nat),
        " rtt_ms="@,
        f.rtt_ms@,
        " elapsed_s="@,
        f.elapsed_s@,
        " throughput_pps="@,
        f.throughput_pps@,
        " cpu_user_ms="@,
        f.cpu_user_ms@,
        " cpu_sys_ms="@,
        f.cpu_sys_ms@,
        " peak_rss_kb="@,
        decimal(f.peak_rss_kb as nat),
    ]
}

/// The final line of a run of several connections, which says how many were asked for
/// and how many reported.
pub open spec fn fleet_line_text(c: BenchConfig, a: Aggregate, f: StatsFigures) -> Seq<char> {
    run_together(fleet_line_parts(c, a, f))
}

fn fleet_line(c: &BenchConfig, a: &Aggregate, f: &StatsFigures) -> (r: String)
    ensures
        r@ == fleet_line_text(*c, *a, *f),
{
    let data_events = render(a.data_events);
    let core_total = render(a.core_total);
    let secondary_a = render(a.secondary_a);
    let secondary_b = render(a.secondary_b);
    let peak = render(f.peak_rss_kb);
    let connections = render(c.connections as u64);
    let stats_count = render(a.stats_count);
    let parts: Vec<&str> = vec![
        "STATS role=",
        role_name(c.mode),
        " backend=",
        c.runtime.name(),
        " connections=",
        connections.as_str(),
        " established=",
        stats_count.as_str(),
        " pkt_sent=",
        data_events.as_str(),
        " core_total=",
        core_total.as_str(),
        " sec_a=",
        secondary_a.as_str(),
        " sec_b=",
        secondary_b.as_str(),
        " rtt_ms=",
        f.rtt_ms.as_str(),
        " elapsed_s=",
        f.elapsed_s.as_str(),
        " throughput_pps=",
        f.throughput_pps.as_str(),
        " cpu_user_ms=",
        f.cpu_user_ms.as_str(),
        " cpu_sys_ms=",
        f.cpu_sys_ms.as_str(),
        " peak_rss_kb=",
        peak.as_str(),
    ];
    assert(slices(parts@) =~= seq![
        "STATS role="@,
        role_text(c.mode),
        " backend="@,
        c.runtime.text(),
        " connections="@,
        decimal(c.connections as nat),
        " established="@,
        decimal(a.stats_count as nat),
        " pkt_sent="@,
        decimal(a.data_events as nat),
        " core_total="@,
        decimal(a.core_total as nat),
        " sec_a="@,
        decimal(a.secondary_a as nat),
        " sec_b="@,
        decimal(a.secondary_b as nat),
        " rtt_ms="@,
        f.rtt_ms@,
        " elapsed_s="@,
        f.elapsed_s@,
        " throughput_pps="@,
        f.throughput_pps@,
        " cpu_user_ms="@,
        f.cpu_user_ms@,
        " cpu_sys_ms="@,
        f.cpu_sys_ms@,
        " peak_rss_kb="@,
        decimal(f.peak_rss_kb as nat),
    ]);
    concat(&parts)
}

/// The final line of a run.
pub fn stats_line(c: &BenchConfig, a: &Aggregate, f: &StatsFigures) -> (r: String)
    ensures
        r@ == if c.connections == 1 {
            single_line_text(*c, *a, *f)
        } else {
            fleet_line_text(*c, *a, *f)
        },
{
    if c.connections == 1 {
        single_line(c, a, f)
    } else {
        fleet_line(c, a, f)
    }
}

} // verus!
