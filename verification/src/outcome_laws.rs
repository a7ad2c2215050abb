//! What a run's outcome is made of, and what is told of it.
use crate::capacity_args::{PolicyThresholds, policy_fingerprint_parts, policy_fingerprint_text};
use crate::cli::{BandwidthPolicy, Encryption, KeySettings, Mode};
use crate::config::BenchConfig;
use crate::host_contention::{PolicyRendering, fingerprint_parts, fingerprint_text};
use crate::outcome::{
    GroupReport, PeerReport, SenderReport, StatsFigures, duplicates_of, fleet_line_parts,
    fleet_line_text, group_row, keyed_for, listener_rows, peer_row, single_line_parts,
    single_line_text, with_report,
};
use crate::stats::{Aggregate, ConnStats, deepest, total};
use crate::text::{decimal, run_together};
use vstd::prelude::*;

verus! {

// ---------------------------------------------------------------------------
// Connections
// ---------------------------------------------------------------------------

/// A sender's report tells how much was sent, sent again and lost, and nothing else of
/// its connection.
pub proof fn reports_tell_of_packets(stats: ConnStats, s: SenderReport)
    ensures
        ({
            let after = with_report(stats, Some(s));
            &&& after.core_total == s.total_sent
            &&& after.secondary_a == s.total_retransmits
            &&& after.secondary_b == s.packets_in_loss_list
            &&& after.has_stats
            &&& after.connected == stats.connected && after.torn_down == stats.torn_down
            &&& after.data_events == stats.data_events && after.rtt_us == stats.rtt_us
            &&& after.source == stats.source && after.has_source == stats.has_source
        }),
        with_report(stats, None) == stats,
{
}

/// A listener has a row for every group and every single peer. A group's row counts what
/// was delivered once and what its legs saw together; a peer's row is its own report.
pub proof fn listeners_count_groups_once(
    groups: Seq<GroupReport>,
    peers: Seq<PeerReport>,
    g: int,
    p: int,
)
    requires
        0 <= g < groups.len(),
        0 <= p < peers.len(),
    ensures
        ({
            let rows = listener_rows(groups, peers);
            let group = rows[g];
            let peer = rows[groups.len() + p];
            &&& rows.len() == groups.len() + peers.len()
            &&& group.connected == groups[g].ever_connected
            &&& group.torn_down == groups[g].torn_down
            &&& group.data_events == groups[g].logical_payloads_received
            &&& group.core_total == groups[g].wire_unique_packets_received
            &&& group.secondary_a == groups[g].wire_receiver_packets_lost
            &&& group.has_stats == (groups[g].leg_duplicates@.len() != 0)
            &&& group.rtt_us == 0 && !group.has_source
            &&& peer.connected == peers[p].streaming
            &&& peer.torn_down == peers[p].torn_down
            &&& peer.data_events == peers[p].data_events
            &&& peer.has_stats == (peers[p].receiver is Some)
            &&& !peer.has_source
            &&& match peers[p].receiver {
                Some(r) => peer.core_total == r.total_received && peer.secondary_a == r.total_lost
                    && peer.secondary_b == r.total_duplicates && peer.rtt_us == r.rtt_us,
                None => peer.core_total == 0 && peer.secondary_a == 0 && peer.secondary_b == 0
                    && peer.rtt_us == 0,
            }
        }),
{
    let rows = listener_rows(groups, peers);
    assert(rows[g] == group_row(groups[g]));
    assert(rows[groups.len() + p] == peer_row(peers[p]));
}

/// The duplicates of a group are those of its legs, one leg more at a time; a leg that
/// reports none adds none.
pub proof fn duplicates_are_summed_over_legs(
    a: Seq<Option<u64>>,
    b: Seq<Option<u64>>,
    g: GroupReport,
)
    requires
        g.leg_duplicates@ == a + b,
        duplicates_of(a + b) <= u64::MAX,
    ensures
        duplicates_of(a + b) == duplicates_of(a) + duplicates_of(b),
        group_row(g).secondary_b == duplicates_of(a) + duplicates_of(b),
        b.len() == 1 && b[0] is Some ==> duplicates_of(b) == b[0]->0,
        b.len() == 1 && b[0] is None ==> duplicates_of(b) == 0,
        b.len() == 0 ==> duplicates_of(b) == 0,
{
    lemma_duplicates_add(a, b);
    if b.len() == 1 {
        assert(duplicates_of(b.drop_last()) == 0);
    }
}

proof fn lemma_duplicates_add(a: Seq<Option<u64>>, b: Seq<Option<u64>>)
    ensures
        duplicates_of(a + b) == duplicates_of(a) + duplicates_of(b),
    decreases b.len(),
{
    if b.len() == 0 {
        assert(a + b =~= a);
    } else {
        assert((a + b).drop_last() =~= a + b.drop_last());
        lemma_duplicates_add(a, b.drop_last());
    }
}

// ---------------------------------------------------------------------------
// Sums
// ---------------------------------------------------------------------------

/// The sum over one connection is that connection's own figures: protocol counts where
/// the protocol reported, and one more stream that failed, reported or produced where the
/// connection did.
pub proof fn a_single_connection_is_its_own_sum(a: Aggregate, s: ConnStats)
    requires
        a.sums(seq![s]),
    ensures
        a.data_events == s.data_events,
        s.has_stats ==> a.core_total == s.core_total && a.secondary_a == s.secondary_a
            && a.secondary_b == s.secondary_b && a.rtt_sum_us == s.rtt_us && a.stats_count == 1,
        !s.has_stats ==> a.core_total == 0 && a.secondary_a == 0 && a.secondary_b == 0
            && a.rtt_sum_us == 0 && a.stats_count == 0,
        s.torn_down ==> a.torn_down == 1,
        !s.torn_down ==> a.torn_down == 0,
        a.any_connected == s.connected,
        s.has_source ==> a.source_streams == 1,
        !s.has_source ==> a.source_streams == 0,
        a.source.generated == s.source.generated,
        a.source.accepted == s.source.accepted,
        a.source.refusal_polls == s.source.refusal_polls,
        a.source.blocked_streaks == s.source.blocked_streaks,
        a.source.overflow == s.source.overflow,
        a.source.backlog_hwm == s.source.backlog_hwm,
{
    let all = seq![s];
    assert(all.drop_last() =~= Seq::<ConnStats>::empty());
    assert(all.last() == s);
    assert(all[0].connected == s.connected);
    reveal_with_fuel(total, 2);
    reveal_with_fuel(deepest, 2);
}

proof fn lemma_total_adds(x: Seq<ConnStats>, y: Seq<ConnStats>, f: spec_fn(ConnStats) -> nat)
    ensures
        total(x + y, f) == total(x, f) + total(y, f),
    decreases y.len(),
{
    if y.len() == 0 {
        assert(x + y =~= x);
    } else {
        assert((x + y).drop_last() =~= x + y.drop_last());
        lemma_total_adds(x, y.drop_last(), f);
    }
}

proof fn lemma_deepest_adds(x: Seq<ConnStats>, y: Seq<ConnStats>)
    ensures
        deepest(x + y) == if deepest(x) > deepest(y) {
            deepest(x)
        } else {
            deepest(y)
        },
    decreases y.len(),
{
    if y.len() == 0 {
        assert(x + y =~= x);
    } else {
        assert((x + y).drop_last() =~= x + y.drop_last());
        lemma_deepest_adds(x, y.drop_last());
    }
}

/// Sums over two sets of connections make the sum over both: counts add up, and the
/// deepest backlog is the deeper of the two.
pub proof fn sums_of_parts_make_the_whole(
    a: Aggregate,
    b: Aggregate,
    c: Aggregate,
    x: Seq<ConnStats>,
    y: Seq<ConnStats>,
)
    requires
        a.sums(x),
        b.sums(y),
        c.sums(x + y),
    ensures
        c.data_events == a.data_events + b.data_events,
        c.torn_down == a.torn_down + b.torn_down,
        c.core_total == a.core_total + b.core_total,
        c.secondary_a == a.secondary_a + b.secondary_a,
        c.secondary_b == a.secondary_b + b.secondary_b,
        c.rtt_sum_us == a.rtt_sum_us + b.rtt_sum_us,
        c.stats_count == a.stats_count + b.stats_count,
        c.any_connected == (a.any_connected || b.any_connected),
        c.source_streams == a.source_streams + b.source_streams,
        c.source.generated == a.source.generated + b.source.generated,
        c.source.accepted == a.source.accepted + b.source.accepted,
        c.source.refusal_polls == a.source.refusal_polls + b.source.refusal_polls,
        c.source.blocked_streaks == a.source.blocked_streaks + b.source.blocked_streaks,
        c.source.overflow == a.source.overflow + b.source.overflow,
        c.source.backlog_hwm >= a.source.backlog_hwm,
        c.source.backlog_hwm >= b.source.backlog_hwm,
        c.source.backlog_hwm == a.source.backlog_hwm || c.source.backlog_hwm
            == b.source.backlog_hwm,
{
    assert forall|f: spec_fn(ConnStats) -> nat| #[trigger] total(x + y, f) == total(x, f) + total(
        y,
        f,
    ) by {
        lemma_total_adds(x, y, f);
    }
    lemma_deepest_adds(x, y);
    if a.any_connected {
        let i = choose|i: int| 0 <= i < x.len() && (#[trigger] x[i]).connected;
        assert((x + y)[i].connected);
    }
    if b.any_connected {
        let i = choose|i: int| 0 <= i < y.len() && (#[trigger] y[i]).connected;
        assert((x + y)[x.len() + i].connected);
    }
    if c.any_connected {
        let i = choose|i: int| 0 <= i < x.len() + y.len() && (#[trigger] (x + y)[i]).connected;
        if i < x.len() {
            assert(x[i].connected);
        } else {
            assert(y[i - x.len()].connected);
        }
    }
}

// ---------------------------------------------------------------------------
// Options
// ---------------------------------------------------------------------------

/// A plain connection has no passphrase, and an encrypted one has keys of the length that
/// its mode is named after.
pub proof fn keys_are_as_long_as_named(key: KeySettings, mode: Encryption)
    requires
        keyed_for(key, mode),
    ensures
        key.passphrase is None <==> mode == Encryption::Plain,
        mode == Encryption::Aes128 ==> key.key_bits == 128,
        mode == Encryption::Aes192 ==> key.key_bits == 192,
        mode == Encryption::Aes256 ==> key.key_bits == 256,
{
}

/// Pacing has a ceiling where one is set and follows its input where an allowance is
/// given, never both; a rate is cut to whole bytes, and is one byte at least.
pub proof fn pacing_has_one_basis(config: BenchConfig)
    ensures
        ({
            let p = config.pacing();
            &&& p.max_bytes_per_sec is None || p.input_bytes_per_sec is None
            &&& config.bandwidth == BandwidthPolicy::ProtocolDefault ==> p.max_bytes_per_sec is None
                && p.input_bytes_per_sec is None
            &&& config.bandwidth == BandwidthPolicy::LegacySourceFixed && config.source_bitrate_bps
                >= 8 ==> p.max_bytes_per_sec is Some && p.max_bytes_per_sec->0 * 8
                <= config.source_bitrate_bps < p.max_bytes_per_sec->0 * 8 + 8
            &&& match config.bandwidth {
                BandwidthPolicy::Fixed(bps) => p.max_bytes_per_sec is Some && (bps >= 8
                    ==> p.max_bytes_per_sec->0 * 8 <= bps < p.max_bytes_per_sec->0 * 8 + 8) && (bps
                    < 8 ==> p.max_bytes_per_sec->0 == 1),
                BandwidthPolicy::InputRelative { overhead_percent } => p.input_bytes_per_sec is Some
                    && p.overhead_percent == overhead_percent && (config.source_bitrate_bps >= 8
                    ==> p.input_bytes_per_sec->0 * 8 <= config.source_bitrate_bps
                    < p.input_bytes_per_sec->0 * 8 + 8),
                _ => p.overhead_percent == 0 && p.input_bytes_per_sec is None,
            }
        }),
{
}

// ---------------------------------------------------------------------------
// Lines
// ---------------------------------------------------------------------------

/// A text holds `value` directly behind `name`, and then ends or goes on with `mark`.
pub open spec fn told(text: Seq<char>, name: Seq<char>, value: Seq<char>, mark: char) -> bool {
    exists|before: Seq<char>, rest: Seq<char>|
        text == before + name + value + rest && #[trigger] starts(before, rest, mark)
}

/// Whether what comes after some text goes on with `mark`.
pub open spec fn starts(before: Seq<char>, rest: Seq<char>, mark: char) -> bool {
    rest.len() == 0 || rest[0] == mark
}

proof fn lemma_together_splits(a: Seq<Seq<char>>, b: Seq<Seq<char>>)
    ensures
        run_together(a + b) == run_together(a) + run_together(b),
    decreases b.len(),
{
    if b.len() == 0 {
        assert(a + b =~= a);
        assert(run_together(a) + run_together(b) =~= run_together(a));
    } else {
        assert((a + b).drop_last() =~= a + b.drop_last());
        lemma_together_splits(a, b.drop_last());
        assert(run_together(a) + run_together(b.drop_last()) + b.last() =~= run_together(a) + (
        run_together(b.drop_last()) + b.last()));
    }
}

/// What stands at a place in a text that is put together is told behind what stands
/// before it.
pub proof fn lemma_told(parts: Seq<Seq<char>>, k: int, mark: char)
    requires
        0 <= k,
        k + 1 < parts.len(),
        k + 2 < parts.len() ==> parts[k + 2].len() > 0 && parts[k + 2][0] == mark,
    ensures
        told(run_together(parts), parts[k], parts[k + 1], mark),
{
    let a = parts.take(k);
    let m = seq![parts[k], parts[k + 1]];
    let b = parts.skip(k + 2);
    assert(parts =~= a + m + b);
    lemma_together_splits(a + m, b);
    lemma_together_splits(a, m);
    reveal_with_fuel(run_together, 3);
    assert(m.drop_last().drop_last() =~= Seq::<Seq<char>>::empty());
    assert(run_together(m) =~= parts[k] + parts[k + 1]);
    assert(run_together(parts) =~= run_together(a) + parts[k] + parts[k + 1] + run_together(b));
    if b.len() > 0 {
        let one = seq![b[0]];
        assert(b =~= one + b.drop_first());
        lemma_together_splits(one, b.drop_first());
        assert(one.drop_last() =~= Seq::<Seq<char>>::empty());
        assert(run_together(one) =~= b[0]);
        assert(run_together(b)[0] == parts[k + 2][0]);
    }
    assert(starts(run_together(a), run_together(b), mark));
}

/// The final line of a run of one connection tells each figure under its name.
pub proof fn final_lines_tell_every_figure(c: BenchConfig, a: Aggregate, f: StatsFigures)
    ensures
        ({
            let text = single_line_text(c, a, f);
            &&& told(text, "STATS role="@, if c.mode == Mode::Sender {
                "caller"@
            } else {
                "listener"@
            }, ' ')
            &&& told(text, " backend="@, c.runtime.text(), ' ')
            &&& told(text, " pkt_sent="@, decimal(a.data_events as nat), ' ')
            &&& told(text, " core_total="@, decimal(a.core_total as nat), ' ')
            &&& told(text, " sec_a="@, decimal(a.secondary_a as nat), ' ')
            &&& told(text, " sec_b="@, decimal(a.secondary_b as nat), ' ')
            &&& told(text, " rtt_ms="@, f.rtt_ms@, ' ')
            &&& told(text, " elapsed_s="@, f.elapsed_s@, ' ')
            &&& told(text, " cpu_user_ms="@, f.cpu_user_ms@, ' ')
            &&& told(text, " cpu_sys_ms="@, f.cpu_sys_ms@, ' ')
            &&& told(text, " peak_rss_kb="@, decimal(f.peak_rss_kb as nat), ' ')
        }),
{
    let parts = single_line_parts(c, a, f);
    reveal_strlit("STATS role=");
    reveal_strlit(" backend=");
    reveal_strlit(" pkt_sent=");
    reveal_strlit(" core_total=");
    reveal_strlit(" sec_a=");
    reveal_strlit(" sec_b=");
    reveal_strlit(" rtt_ms=");
    reveal_strlit(" elapsed_s=");
    reveal_strlit(" cpu_user_ms=");
    reveal_strlit(" cpu_sys_ms=");
    reveal_strlit(" peak_rss_kb=");
    assert(parts[0] == "STATS role="@);
    lemma_told(parts, 0, ' ');
    assert(parts[2] == " backend="@);
    lemma_told(parts, 2, ' ');
    assert(parts[4] == " pkt_sent="@);
    lemma_told(parts, 4, ' ');
    assert(parts[6] == " core_total="@);
    lemma_told(parts, 6, ' ');
    assert(parts[8] == " sec_a="@);
    lemma_told(parts, 8, ' ');
    assert(parts[10] == " sec_b="@);
    lemma_told(parts, 10, ' ');
    assert(parts[12] == " rtt_ms="@);
    lemma_told(parts, 12, ' ');
    assert(parts[14] == " elapsed_s="@);
    lemma_told(parts, 14, ' ');
    assert(parts[16] == " cpu_user_ms="@);
    lemma_told(parts, 16, ' ');
    assert(parts[18] == " cpu_sys_ms="@);
    lemma_told(parts, 18, ' ');
    assert(parts[20] == " peak_rss_kb="@);
    lemma_told(parts, 20, ' ');
}

/// The final line of a run of several connections tells each figure under its name, and
/// with them how many connections were asked for and how many reported.
pub proof fn final_lines_tell_how_many_reported(c: BenchConfig, a: Aggregate, f: StatsFigures)
    ensures
        ({
            let text = fleet_line_text(c, a, f);
            &&& told(text, "STATS role="@, if c.mode == Mode::Sender {
                "caller"@
            } else {
                "listener"@
            }, ' ')
            &&& told(text, " backend="@, c.runtime.text(), ' ')
            &&& told(text, " connections="@, decimal(c.connections as nat), ' ')
            &&& told(text, " established="@, decimal(a.stats_count as nat), ' ')
            &&& told(text, " pkt_sent="@, decimal(a.data_events as nat), ' ')
            &&& told(text, " core_total="@, decimal(a.core_total as nat), ' ')
            &&& told(text, " sec_a="@, decimal(a.secondary_a as nat), ' ')
            &&& told(text, " sec_b="@, decimal(a.secondary_b as nat), ' ')
            &&& told(text, " rtt_ms="@, f.rtt_ms@, ' ')
            &&& told(text, " elapsed_s="@, f.elapsed_s@, ' ')
            &&& told(text, " throughput_pps="@, f.throughput_pps@, ' ')
            &&& told(text, " cpu_user_ms="@, f.cpu_user_ms@, ' ')
            &&& told(text, " cpu_sys_ms="@, f.cpu_sys_ms@, ' ')
            &&& told(text, " peak_rss_kb="@, decimal(f.peak_rss_kb as nat), ' ')
        }),
{
    let parts = fleet_line_parts(c, a, f);
    reveal_strlit("STATS role=");
    reveal_strlit(" backend=");
    reveal_strlit(" connections=");
    reveal_strlit(" established=");
    reveal_strlit(" pkt_sent=");
    reveal_strlit(" core_total=");
    reveal_strlit(" sec_a=");
    reveal_strlit(" sec_b=");
    reveal_strlit(" rtt_ms=");
    reveal_strlit(" elapsed_s=");
    reveal_strlit(" throughput_pps=");
    reveal_strlit(" cpu_user_ms=");
    reveal_strlit(" cpu_sys_ms=");
    reveal_strlit(" peak_rss_kb=");
    assert(parts[0] == "STATS role="@);
    lemma_told(parts, 0, ' ');
    assert(parts[2] == " backend="@);
    lemma_told(parts, 2, ' ');
    assert(parts[4] == " connections="@);
    lemma_told(parts, 4, ' ');
    assert(parts[6] == " established="@);
    lemma_told(parts, 6, ' ');
    assert(parts[8] == " pkt_sent="@);
    lemma_told(parts, 8, ' ');
    assert(parts[10] == " core_total="@);
    lemma_told(parts, 10, ' ');
    assert(parts[12] == " sec_a="@);
    lemma_told(parts, 12, ' ');
    assert(parts[14] == " sec_b="@);
    lemma_told(parts, 14, ' ');
    assert(parts[16] == " rtt_ms="@);
    lemma_told(parts, 16, ' ');
    assert(parts[18] == " elapsed_s="@);
    lemma_told(parts, 18, ' ');
    assert(parts[20] == " throughput_pps="@);
    lemma_told(parts, 20, ' ');
    assert(parts[22] == " cpu_user_ms="@);
    lemma_told(parts, 22, ' ');
    assert(parts[24] == " cpu_sys_ms="@);
    lemma_told(parts, 24, ' ');
    assert(parts[26] == " peak_rss_kb="@);
    lemma_told(parts, 26, ' ');
}

/// The identity of a classifier policy holds each of its thresholds under its name.
pub proof fn policies_are_identified_by_their_thresholds(p: PolicyThresholds)
    ensures
        ({
            let text = policy_fingerprint_text(p);
            &&& told(text, "revision="@, p.revision@, ';')
            &&& told(text, ";window="@, p.window@, ';')
            &&& told(text, ";recovery="@, p.recovery@, ';')
            &&& told(text, ";socket="@, p.socket@, ';')
            &&& told(text, ";host="@, p.host@, ';')
            &&& told(text, ";nic="@, p.nic@, ';')
            &&& told(text, ";control="@, match p.control {
                Some(v) => v@,
                None => "none"@,
            }, ';')
            &&& told(text, ";waves="@, match p.waves {
                Some(n) => decimal(n as nat),
                None => "none"@,
            }, ';')
        }),
{
    let parts = policy_fingerprint_parts(p);
    reveal_strlit("revision=");
    reveal_strlit(";window=");
    reveal_strlit(";recovery=");
    reveal_strlit(";socket=");
    reveal_strlit(";host=");
    reveal_strlit(";nic=");
    reveal_strlit(";control=");
    reveal_strlit(";waves=");
    assert(parts[0] == "revision="@);
    lemma_told(parts, 0, ';');
    assert(parts[2] == ";window="@);
    lemma_told(parts, 2, ';');
    assert(parts[4] == ";recovery="@);
    lemma_told(parts, 4, ';');
    assert(parts[6] == ";socket="@);
    lemma_told(parts, 6, ';');
    assert(parts[8] == ";host="@);
    lemma_told(parts, 8, ';');
    assert(parts[10] == ";nic="@);
    lemma_told(parts, 10, ';');
    assert(parts[12] == ";control="@);
    lemma_told(parts, 12, ';');
    assert(parts[14] == ";waves="@);
    lemma_told(parts, 14, ';');
}

/// The identity of a host policy holds its mode and each of its thresholds under its name.
pub proof fn host_policies_are_identified_by_their_thresholds(p: PolicyRendering)
    ensures
        ({
            let text = fingerprint_text(p);
            &&& told(text, "mode="@, p.mode.text(), ';')
            &&& told(text, ";cpu_avg10="@, p.cpu_psi_avg10_pct@, ';')
            &&& told(text, ";mem_avg10="@, p.mem_psi_avg10_pct@, ';')
            &&& told(text, ";io_avg10="@, p.io_psi_avg10_pct@, ';')
            &&& told(text, ";cpu_stall="@, p.cpu_stall_pct@, ';')
            &&& told(text, ";steal="@, p.steal_pct@, ';')
            &&& told(text, ";timeout_s="@, decimal(p.admission_timeout_secs as nat), ';')
            &&& told(text, ";poll_ms="@, decimal(p.admission_poll_ms as nat), ';')
        }),
{
    let parts = fingerprint_parts(p);
    reveal_strlit("mode=");
    reveal_strlit(";cpu_avg10=");
    reveal_strlit(";mem_avg10=");
    reveal_strlit(";io_avg10=");
    reveal_strlit(";cpu_stall=");
    reveal_strlit(";steal=");
    reveal_strlit(";timeout_s=");
    reveal_strlit(";poll_ms=");
    assert(parts[0] == "mode="@);
    lemma_told(parts, 0, ';');
    assert(parts[2] == ";cpu_avg10="@);
    lemma_told(parts, 2, ';');
    assert(parts[4] == ";mem_avg10="@);
    lemma_told(parts, 4, ';');
    assert(parts[6] == ";io_avg10="@);
    lemma_told(parts, 6, ';');
    assert(parts[8] == ";cpu_stall="@);
    lemma_told(parts, 8, ';');
    assert(parts[10] == ";steal="@);
    lemma_told(parts, 10, ';');
    assert(parts[12] == ";timeout_s="@);
    lemma_told(parts, 12, ';');
    assert(parts[14] == ";poll_ms="@);
    lemma_told(parts, 14, ';');
}

} // verus!
