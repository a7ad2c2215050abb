//! How connections are bonded, addressed and counted.
use crate::cli::{BondMode, Egress, Encryption, Ingress, Mode};
use crate::config::{BenchConfig, GroupExtension, caller_socket_id_for, legs_share_their_group};
use crate::outcome::{AdmissionOptions, CallerOptions};
use crate::row::ResolvedBandwidth;
use crate::text::decimal;
use vstd::prelude::*;

verus! {

/// Streams and bonded pairs add up to the connections, and without a bond every
/// connection is a stream.
pub proof fn pairs_replace_two_connections_by_one(config: &BenchConfig, streams: usize)
    requires
        call_ensures(BenchConfig::logical_connection_count, (config,), streams),
    ensures
        config.bond_mode == BondMode::Unbonded ==> streams == config.connections,
        config.bond_mode != BondMode::Unbonded && 2 * config.bond_pairs <= config.connections
            ==> streams + config.bond_pairs == config.connections,
        streams <= config.connections,
        2 * streams >= config.connections,
{
}

/// The two legs of a pair are one group: they share its id, its first sequence number and
/// its stream, and so are told apart from every other pair's. In a backup pair only the
/// first carries weight, in a broadcast pair both do.
pub proof fn legs_of_a_pair_are_one_group(
    config: &BenchConfig,
    pair: u32,
    first: Option<GroupExtension>,
    second: Option<GroupExtension>,
)
    requires
        2 * pair + 1 <= usize::MAX,
        call_ensures(BenchConfig::bond_extension_for, (config, (2 * pair) as usize), first),
        call_ensures(BenchConfig::bond_extension_for, (config, (2 * pair + 1) as usize), second),
    ensures
        first is Some <==> config.bond_mode != BondMode::Unbonded && pair < config.bond_pairs,
        second is Some <==> first is Some,
        first is Some ==> {
            &&& first->0.group_id == second->0.group_id
            &&& first->0.backup == second->0.backup
            &&& first->0.backup <==> config.bond_mode == BondMode::Backup
            &&& first->0.weight == 1
            &&& config.bond_mode == BondMode::Backup ==> second->0.weight == 0
            &&& config.bond_mode == BondMode::Broadcast ==> second->0.weight == 1
            &&& first->0.flags == 0 && second->0.flags == 0
        },
{
    lemma_halves(pair);
}

proof fn lemma_halves(pair: u32)
    ensures
        (2 * pair) as int / 2 == pair,
        (2 * pair + 1) as int / 2 == pair,
        (2 * pair) as int % 2 == 0,
        (2 * pair + 1) as int % 2 == 1,
{
}

/// Legs of different pairs are in different groups, and a group's id is marked as one.
pub proof fn groups_are_told_apart(
    config: &BenchConfig,
    a: usize,
    b: usize,
    x: Option<GroupExtension>,
    y: Option<GroupExtension>,
)
    requires
        a / 2 != b / 2,
        a / 2 < 0x3fff_ffff,
        b / 2 < 0x3fff_ffff,
        call_ensures(BenchConfig::bond_extension_for, (config, a), x),
        call_ensures(BenchConfig::bond_extension_for, (config, b), y),
        x is Some,
        y is Some,
    ensures
        x->0.group_id != y->0.group_id,
        x->0.group_id >= 0x4000_0000,
{
    legs_share_their_group((a / 2) as u32, (b / 2) as u32);
    let n = (a / 2 + 1) as u32;
    assert(0x4000_0000u32 | n >= 0x4000_0000u32) by (bit_vector);
}

/// The two legs of a pair start at the same sequence number.
pub proof fn legs_start_together(
    config: &BenchConfig,
    pair: u32,
    first: Option<u32>,
    second: Option<u32>,
)
    requires
        2 * pair + 1 <= usize::MAX,
        call_ensures(BenchConfig::bond_initial_seq_for, (config, (2 * pair) as usize), first),
        call_ensures(BenchConfig::bond_initial_seq_for, (config, (2 * pair + 1) as usize), second),
    ensures
        first == second,
        first is Some <==> config.bond_mode != BondMode::Unbonded && pair < config.bond_pairs,
        first is Some && pair < 0x100_0000 ==> first->0 == 0x100_0000 + pair,
{
    lemma_halves(pair);
    let n = pair;
    assert(n < 0x100_0000u32 ==> 0x0100_0000u32 | n == 0x0100_0000u32 + n) by (bit_vector);
}

/// The two legs of a pair carry one stream, which is named after the pair.
pub proof fn legs_carry_one_stream(
    config: &BenchConfig,
    pair: u32,
    first: Option<String>,
    second: Option<String>,
)
    requires
        2 * pair + 1 <= usize::MAX,
        call_ensures(BenchConfig::bond_stream_id_for, (config, (2 * pair) as usize), first),
        call_ensures(BenchConfig::bond_stream_id_for, (config, (2 * pair + 1) as usize), second),
    ensures
        first is Some <==> second is Some,
        first is Some <==> config.bond_mode != BondMode::Unbonded && pair < config.bond_pairs,
        first is Some ==> first->0@ == second->0@ && first->0@ == "srt-bench-group-"@ + decimal(
            pair as nat,
        ),
{
    lemma_halves(pair);
}

/// A caller connects with what its configuration says of it: its own id, the latency, its
/// group where it is in one, and the pacing and keys of the run.
pub proof fn callers_connect_with_what_is_configured(
    config: &BenchConfig,
    pid: u32,
    index: usize,
    options: CallerOptions,
    group: Option<GroupExtension>,
    seq: Option<u32>,
    stream: Option<String>,
    id: u32,
    pacing: ResolvedBandwidth,
)
    requires
        call_ensures(BenchConfig::caller_options, (config, pid, index), options),
        call_ensures(BenchConfig::bond_extension_for, (config, index), group),
        call_ensures(BenchConfig::bond_initial_seq_for, (config, index), seq),
        call_ensures(BenchConfig::bond_stream_id_for, (config, index), stream),
        call_ensures(BenchConfig::srt_bandwidth, (config,), pacing),
        call_ensures(caller_socket_id_for, (pid, index), id),
    ensures
        options.socket_id == id,
        options.socket_id != 0,
        options.tsbpd_delay == config.latency_ms,
        options.group_extension == group,
        options.initial_seq == seq,
        options.stream_id is Some <==> stream is Some,
        stream is Some ==> options.stream_id->0@ == stream->0@,
        options.bandwidth == pacing,
        options.key.passphrase is Some <==> config.encryption != Encryption::Plain,
        config.encryption == Encryption::Aes256 ==> options.key.key_bits == 256,
{
}

/// A listener admits callers with its id, its latency and the keys of the run, and takes
/// grouped callers where the run is bonded.
pub proof fn listeners_admit_with_what_is_configured(
    config: &BenchConfig,
    id: u32,
    cookie_routing: bool,
    options: AdmissionOptions,
)
    requires
        call_ensures(BenchConfig::admission_options, (config, id, cookie_routing), options),
    ensures
        options.socket_id == id,
        options.tsbpd_delay == config.latency_ms,
        options.cookie_routing == cookie_routing,
        options.accept_bonded <==> config.bond_mode != BondMode::Unbonded,
        options.key.passphrase is Some <==> config.encryption != Encryption::Plain,
        config.encryption == Encryption::Aes192 ==> options.key.key_bits == 192,
{
}

/// As many peers meet on a socket as share it: all that a sender's one socket serves, one
/// where every connection has its own, and a listener's fair share.
pub proof fn sockets_serve_their_peers(config: &BenchConfig, peers: usize, at_ingress: usize)
    requires
        call_ensures(BenchConfig::peers_per_socket, (config,), peers),
        call_ensures(BenchConfig::peers_per_ingress_socket, (config,), at_ingress),
    ensures
        peers >= 1,
        config.mode == Mode::Receiver ==> peers == at_ingress,
        config.ingress == Ingress::PerPort ==> at_ingress == 1,
        config.ingress == Ingress::SharedPool(1) && config.connections > 0 ==> at_ingress
            == config.connections,
        config.mode == Mode::Sender && config.egress == Egress::PerConnection ==> peers == 1,
        config.mode == Mode::Sender && config.egress == Egress::SharedSocket && config.connections
            > 0 ==> peers == config.connections,
{
    if config.connections > 0 {
        let c = config.connections as int;
        assert(c % 1 == 0 && c / 1 == c);
    }
}

/// Only a receiver of several connections runs a pooled ingress, and then the one that is
/// configured.
pub proof fn pooled_ingress_is_for_receivers(config: &BenchConfig, pooled: Option<Ingress>)
    requires
        call_ensures(BenchConfig::dispatch_ingress, (config,), pooled),
    ensures
        pooled is Some ==> pooled->0 == config.ingress && config.mode == Mode::Receiver
            && config.connections > 1 && config.ingress != Ingress::PerPort,
        config.mode == Mode::Receiver && config.connections > 1 && config.ingress
            == Ingress::SharedPool(1) ==> pooled is Some,
{
}

/// Connections that are addressed apart are so by their place: the first has the port that
/// is configured, and the next one the next port.
pub proof fn ports_count_up(config: &BenchConfig, first: u16, second: u16)
    requires
        config.ingress == Ingress::PerPort,
        call_ensures(BenchConfig::addr_for, (config, 0usize), first),
        call_ensures(BenchConfig::addr_for, (config, 1usize), second),
    ensures
        first == config.port,
        second == config.port + 1,
{
}

} // verus!
