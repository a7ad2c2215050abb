//! What a command line's flags make of a configuration.
use crate::cli::{
    BandwidthPolicy, Batching, BondMode, CliText, Egress, Encryption, Ingress, Link, Mode,
    PeerTopology, Promotion, Runtime, WouldBlockPolicy,
};
use crate::config::{
    BenchConfig, MAX_COUNT, RunDefaults, after, bond_of, config_error, ingress_of, ingress_spelled,
};
use crate::text::{
    decimal, decimal_round_trips, is_digit, is_float_text, lemma_first_index, split_once_text,
    unsigned_of,
};
use vstd::prelude::*;

verus! {

// ---------------------------------------------------------------------------
// Choices
// ---------------------------------------------------------------------------

proof fn lemma_choices()
    ensures
        "mio"@.len() == 3,
        "tokio"@.len() == 5,
        "smol"@.len() == 4,
        "monoio"@.len() == 6,
        "glommio"@.len() == 7,
        "compio"@.len() == 6,
        "monoio"@[0] == 'm',
        "compio"@[0] == 'c',
        "sender"@.len() == 6,
        "receiver"@.len() == 8,
        ""@.len() == 0,
        "plain"@.len() == 5,
        "128"@ =~= seq!['1', '2', '8'],
        "192"@ =~= seq!['1', '9', '2'],
        "256"@ =~= seq!['2', '5', '6'],
        "per-connection"@.len() == 14,
        "shared-socket"@.len() == 13,
        "on"@.len() == 2,
        "off"@.len() == 3,
        "relocate"@.len() == 8,
        "never"@.len() == 5,
        "bonded"@.len() == 6,
        "all"@.len() == 3,
        "retain"@.len() == 6,
        "drop"@.len() == 4,
{
    reveal_strlit("mio");
    reveal_strlit("tokio");
    reveal_strlit("smol");
    reveal_strlit("monoio");
    reveal_strlit("glommio");
    reveal_strlit("compio");
    reveal_strlit("sender");
    reveal_strlit("receiver");
    reveal_strlit("");
    reveal_strlit("plain");
    reveal_strlit("128");
    reveal_strlit("192");
    reveal_strlit("256");
    reveal_strlit("per-connection");
    reveal_strlit("shared-socket");
    reveal_strlit("on");
    reveal_strlit("off");
    reveal_strlit("relocate");
    reveal_strlit("never");
    reveal_strlit("bonded");
    reveal_strlit("all");
    reveal_strlit("retain");
    reveal_strlit("drop");
}

/// A configuration has the role, the runtime and the encryption that its command line
/// names; only encryption has a default.
pub proof fn roles_are_what_was_asked_for(config: BenchConfig, cli: CliText, env: RunDefaults)
    requires
        config.reads(cli, env),
    ensures
        config.mode == Mode::Sender <==> cli.flag("mode"@) == Some("sender"@),
        config.mode == Mode::Receiver <==> cli.flag("mode"@) == Some("receiver"@),
        config.runtime == Runtime::Mio <==> cli.flag("runtime"@) == Some("mio"@),
        config.runtime == Runtime::Tokio <==> cli.flag("runtime"@) == Some("tokio"@),
        config.runtime == Runtime::Smol <==> cli.flag("runtime"@) == Some("smol"@),
        config.runtime == Runtime::Monoio <==> cli.flag("runtime"@) == Some("monoio"@),
        config.runtime == Runtime::Glommio <==> cli.flag("runtime"@) == Some("glommio"@),
        config.runtime == Runtime::Compio <==> cli.flag("runtime"@) == Some("compio"@),
        config.encryption == Encryption::Aes128 <==> cli.flag("encryption"@) == Some("128"@),
        config.encryption == Encryption::Aes192 <==> cli.flag("encryption"@) == Some("192"@),
        config.encryption == Encryption::Aes256 <==> cli.flag("encryption"@) == Some("256"@),
        config.encryption == Encryption::Plain <==> cli.flag("encryption"@) is None || cli.flag(
            "encryption"@,
        ) == Some("plain"@) || cli.flag("encryption"@)->0.len() == 0,
{
    lemma_choices();
    if cli.flag("encryption"@) is Some && cli.flag("encryption"@)->0.len() == 0 {
        assert(cli.flag("encryption"@)->0 =~= ""@);
    }
    if cli.flag("runtime"@) is None {
        assert(cli.flag_or_empty("runtime"@).len() == 0);
    } else {
        assert(cli.flag_or_empty("runtime"@) == cli.flag("runtime"@)->0);
    }
}

/// The sockets, the datapath and the bond of a configuration are those that its flags
/// name; without a flag each connection has its own socket and port, datagrams are
/// batched, blocked ones are kept, connections may be relocated and cookies are routed.
pub proof fn datapaths_are_what_was_asked_for(config: BenchConfig, cli: CliText, env: RunDefaults)
    requires
        config.reads(cli, env),
    ensures
        config.egress == Egress::SharedSocket <==> cli.flag("egress"@) == Some("shared-socket"@),
        config.egress == Egress::PerConnection <==> cli.flag("egress"@) is None || cli.flag(
            "egress"@,
        ) == Some("per-connection"@),
        config.batching == Batching::Off <==> cli.flag("batch"@) == Some("off"@),
        config.batching == Batching::On <==> cli.flag("batch"@) is None || cli.flag("batch"@)
            == Some("on"@),
        config.would_block == WouldBlockPolicy::Drop <==> cli.flag("would-block"@) == Some(
            "drop"@,
        ),
        config.would_block == WouldBlockPolicy::Retain <==> cli.flag("would-block"@) is None
            || cli.flag("would-block"@) == Some("retain"@),
        config.promotion == Promotion::Never <==> cli.flag("promotion"@) == Some("never"@),
        config.promotion == Promotion::Bonded <==> cli.flag("promotion"@) == Some("bonded"@),
        config.promotion == Promotion::All <==> cli.flag("promotion"@) == Some("all"@),
        cli.flag("promotion"@) is None ==> config.promotion == Promotion::Relocate,
        cli.flag("promotion"@) == Some("relocate"@) ==> config.promotion == Promotion::Relocate,
        !config.cookie_routing <==> cli.flag("cookie-routing"@) == Some("off"@),
        config.pin <==> cli.flag("pin"@) == Some("on"@) || (cli.flag("pin"@) is Some && cli.flag(
            "pin"@,
        )->0.len() == 0),
        config.bond_mode == BondMode::Unbonded <==> cli.flag("bond"@) is None || cli.flag("bond"@)
            == Some("none"@),
        config.bond_mode == BondMode::Unbonded ==> config.bond_pairs == 0,
        cli.flag("ingress"@) is None || cli.flag("ingress"@) == Some("per-port"@) ==> config.ingress
            == Ingress::PerPort,
        cli.flag("sock-buf"@) is None ==> config.sock_buf_bytes == env.sock_buf_bytes,
        cli.flag("sock-buf"@) == Some("default"@) ==> config.sock_buf_bytes == 0,
{
    lemma_choices();
}

/// A count behind the kind of a bond or an ingress is how many there are, up to the
/// largest that is run.
pub proof fn counts_behind_kinds_are_kept(
    config: BenchConfig,
    cli: CliText,
    env: RunDefaults,
    n: nat,
)
    requires
        config.reads(cli, env),
        0 < n <= usize::MAX,
    ensures
        ({
            let kept: int = if n < 4096 {
                n as int
            } else {
                4096
            };
            &&& cli.flag("bond"@) == Some("broadcast:"@ + decimal(n)) ==> config.bond_mode
                == BondMode::Broadcast && config.bond_pairs == kept
            &&& cli.flag("bond"@) == Some("backup:"@ + decimal(n)) ==> config.bond_mode
                == BondMode::Backup && config.bond_pairs == kept
            &&& cli.flag("ingress"@) == Some("shared-pool:"@ + decimal(n)) ==> config.ingress
                == Ingress::SharedPool(kept as usize)
            &&& cli.flag("ingress"@) == Some("reuseport-multi:"@ + decimal(n)) ==> config.ingress
                == Ingress::ReuseportMulti(kept as usize)
            &&& cli.flag("ingress"@) == Some("reuseport-single:"@ + decimal(n)) ==> config.ingress
                == (Ingress::ReuseportSingle { workers: kept as usize })
        }),
{
    lemma_bonds(cli, n);
    lemma_pool(n);
    lemma_multi(n);
    lemma_single(n);
    assert(config.bond_mode == bond_of(cli)->Ok_0.0 && config.bond_pairs == bond_of(cli)->Ok_0.1);
    assert(ingress_of(cli) == Ok::<Ingress, Seq<char>>(config.ingress));
}

spec fn kept_count(n: nat) -> usize {
    if n < 4096 {
        n as usize
    } else {
        4096
    }
}

proof fn lemma_bonds(cli: CliText, n: nat)
    requires
        0 < n <= usize::MAX,
    ensures
        cli.flag("bond"@) == Some("broadcast:"@ + decimal(n)) ==> bond_of(cli) == Ok::<
            (BondMode, usize),
            Seq<char>,
        >((BondMode::Broadcast, kept_count(n))),
        cli.flag("bond"@) == Some("backup:"@ + decimal(n)) ==> bond_of(cli) == Ok::<
            (BondMode, usize),
            Seq<char>,
        >((BondMode::Backup, kept_count(n))),
{
    decimal_round_trips(n);
    reveal_strlit("none");
    reveal_strlit("broadcast");
    reveal_strlit("backup");
    reveal_strlit("broadcast:");
    reveal_strlit("backup:");
    lemma_parts_of("broadcast"@, n);
    lemma_parts_of("backup"@, n);
    assert("broadcast:"@ + decimal(n) =~= "broadcast"@ + seq![':'] + decimal(n));
    assert("backup:"@ + decimal(n) =~= "backup"@ + seq![':'] + decimal(n));
    assert("broadcast"@.len() == 9 && "backup"@.len() == 6 && "none"@.len() == 4);
}

proof fn lemma_pool(n: nat)
    requires
        0 < n <= usize::MAX,
    ensures
        "shared-pool:"@ + decimal(n) != "per-port"@,
        ingress_spelled("shared-pool:"@ + decimal(n)) == Ok::<Ingress, Seq<char>>(
            Ingress::SharedPool(kept_count(n)),
        ),
{
    decimal_round_trips(n);
    reveal_strlit("per-port");
    reveal_strlit("shared-pool:");
    reveal_strlit("shared-pool=");
    reveal_strlit("=");
    let kind = "shared-pool:"@.drop_last();
    lemma_parts_of(kind, n);
    assert("shared-pool:"@ + decimal(n) =~= kind + seq![':'] + decimal(n));
    let a = "shared-pool="@ + decimal(n);
    assert(kind + "="@ + decimal(n) =~= a);
    assert(a.subrange(0, 12) =~= "shared-pool="@);
    assert(after(a, "shared-pool="@) =~= decimal(n));
    assert(("shared-pool:"@ + decimal(n))[0] == 's' && "per-port"@[0] == 'p');
}

proof fn lemma_multi(n: nat)
    requires
        0 < n <= usize::MAX,
    ensures
        "reuseport-multi:"@ + decimal(n) != "per-port"@,
        ingress_spelled("reuseport-multi:"@ + decimal(n)) == Ok::<Ingress, Seq<char>>(
            Ingress::ReuseportMulti(kept_count(n)),
        ),
{
    decimal_round_trips(n);
    reveal_strlit("per-port");
    reveal_strlit("reuseport-multi:");
    reveal_strlit("reuseport-multi=");
    reveal_strlit("shared-pool=");
    reveal_strlit("=");
    let kind = "reuseport-multi:"@.drop_last();
    lemma_parts_of(kind, n);
    assert("reuseport-multi:"@ + decimal(n) =~= kind + seq![':'] + decimal(n));
    let a = "reuseport-multi="@ + decimal(n);
    assert(kind + "="@ + decimal(n) =~= a);
    assert(a.subrange(0, 16) =~= "reuseport-multi="@);
    assert(after(a, "reuseport-multi="@) =~= decimal(n));
    assert(a.subrange(0, 12)[0] == 'r' && "shared-pool="@[0] == 's');
    assert(("reuseport-multi:"@ + decimal(n))[0] == 'r' && "per-port"@[0] == 'p');
}

proof fn lemma_single(n: nat)
    requires
        0 < n <= usize::MAX,
    ensures
        "reuseport-single:"@ + decimal(n) != "per-port"@,
        ingress_spelled("reuseport-single:"@ + decimal(n)) == Ok::<Ingress, Seq<char>>(
            Ingress::ReuseportSingle { workers: kept_count(n) },
        ),
{
    decimal_round_trips(n);
    reveal_strlit("per-port");
    reveal_strlit("reuseport-single:");
    reveal_strlit("reuseport-single=");
    reveal_strlit("reuseport-multi=");
    reveal_strlit("shared-pool=");
    reveal_strlit("=");
    let kind = "reuseport-single:"@.drop_last();
    lemma_parts_of(kind, n);
    assert("reuseport-single:"@ + decimal(n) =~= kind + seq![':'] + decimal(n));
    let a = "reuseport-single="@ + decimal(n);
    assert(kind + "="@ + decimal(n) =~= a);
    assert(a.subrange(0, 17) =~= "reuseport-single="@);
    assert(after(a, "reuseport-single="@) =~= decimal(n));
    assert(a.subrange(0, 12)[0] == 'r' && "shared-pool="@[0] == 's');
    assert(a.subrange(0, 16)[10] == 's' && "reuseport-multi="@[10] == 'm');
    assert(("reuseport-single:"@ + decimal(n))[0] == 'r' && "per-port"@[0] == 'p');
}

proof fn lemma_parts_of(kind: Seq<char>, n: nat)
    requires
        forall|i: int| 0 <= i < kind.len() ==> kind[i] != ':',
    ensures
        split_once_text(kind + seq![':'] + decimal(n), ':') == Some((kind, decimal(n))),
        (kind + seq![':'] + decimal(n))[kind.len() as int] == ':',
{
    let s = kind + seq![':'] + decimal(n);
    lemma_first_index(s, ':', kind.len() as int);
    assert(s.subrange(0, kind.len() as int) =~= kind);
    assert(s.subrange(kind.len() as int + 1, s.len() as int) =~= decimal(n));
}

// ---------------------------------------------------------------------------
// Numbers and texts
// ---------------------------------------------------------------------------

/// Numbers are those of their own flags, and their defaults where a flag is not given.
pub proof fn numbers_are_what_was_asked_for(
    config: BenchConfig,
    cli: CliText,
    env: RunDefaults,
    n: nat,
)
    requires
        config.reads(cli, env),
        0 < n < MAX_COUNT,
    ensures
        cli.flag("connections"@) == Some(decimal(n)) ==> config.connections == n,
        cli.flag("connections"@) is None ==> config.connections == 1,
        cli.flag("connect-concurrency"@) == Some(decimal(n)) ==> config.connect_concurrency == n,
        cli.flag("connect-concurrency"@) is None ==> config.connect_concurrency == 1,
        cli.flag("recv-rounds"@) == Some(decimal(n)) ==> config.recv_rounds == n,
        cli.flag("recv-rounds"@) is None ==> config.recv_rounds == 8,
        cli.flag("workers"@) == Some(decimal(n)) ==> config.workers == n,
        cli.flag("workers"@) is None ==> config.workers == 1,
        cli.flag("rep"@) == Some(decimal(n)) ==> config.rep == n,
        cli.flag("rep"@) is None ==> config.rep == 1,
        cli.flag("source-backlog-ms"@) == Some(decimal(n)) ==> config.source_backlog_ms == n,
        cli.flag("source-backlog-ms"@) is None ==> config.source_backlog_ms
            == env.source_backlog_ms,
        cli.flag("datapath-queue-horizon-ms"@) == Some(decimal(n))
            ==> config.datapath_queue_horizon_ms == n,
        cli.flag("datapath-queue-horizon-ms"@) is None ==> config.datapath_queue_horizon_ms
            == env.datapath_queue_horizon_ms,
        cli.flag("outbound-retry-horizon-ms"@) == Some(decimal(n))
            ==> config.outbound_retry_horizon_ms == n,
        cli.flag("outbound-retry-horizon-ms"@) is None ==> config.outbound_retry_horizon_ms
            == env.outbound_retry_horizon_ms,
        n > 1 && cli.flag("sock-buf"@) == Some(decimal(n)) ==> config.sock_buf_bytes == n,
        cli.flag("sock-buf"@) == Some(decimal(n).push('k')) ==> config.sock_buf_bytes == n * 1024,
        cli.flag("sock-buf"@) == Some(decimal(n).push('m')) ==> config.sock_buf_bytes == n
            * 1048576,
        cli.flag("srt-bandwidth"@) is None ==> config.bandwidth
            == BandwidthPolicy::LegacySourceFixed,
{
    decimal_round_trips(n);
    reveal_strlit("default");
    reveal_strlit("0");
    assert(decimal(n).push('k').drop_last() =~= decimal(n));
    assert(decimal(n).push('m').drop_last() =~= decimal(n));
    assert(is_digit(decimal(n).last()));
    assert(decimal(n)[0] != 'd' && "default"@[0] == 'd');
    assert(decimal(n).push('k')[0] == decimal(n)[0]);
    assert(decimal(n).push('m')[0] == decimal(n)[0]);
    if decimal(n) == "0"@ {
        decimal_round_trips(0);
        assert("0"@ =~= decimal(0));
    }
    assert("0"@.last() == '0');
    assert(decimal(n).push('k').last() == 'k');
    assert(decimal(n).push('m').last() == 'm');
}

/// A sender is given host, port, duration, latency and rate, in this order, and a
/// receiver the same without a host.
pub proof fn positions_have_their_meaning(
    config: BenchConfig,
    cli: CliText,
    env: RunDefaults,
    port: u16,
    latency: u16,
    rate: u64,
)
    requires
        config.reads(cli, env),
    ensures
        cli.flag("mode"@) == Some("sender"@) && cli.positional.len() >= 4 ==> {
            &&& config.host@ == cli.positional[0]
            &&& cli.positional[1] == decimal(port as nat) ==> config.port == port
            &&& config.duration@ == cli.positional[2]
            &&& cli.positional[3] == decimal(latency as nat) ==> config.latency_ms == latency
        },
        cli.flag("mode"@) == Some("sender"@) && cli.positional.len() > 4 && cli.positional[4]
            == decimal(rate as nat) ==> config.source_bitrate_bps == rate,
        cli.flag("mode"@) == Some("receiver"@) && cli.positional.len() >= 3 ==> {
            &&& config.host@.len() == 0
            &&& cli.positional[0] == decimal(port as nat) ==> config.port == port
            &&& config.duration@ == cli.positional[1]
            &&& cli.positional[2] == decimal(latency as nat) ==> config.latency_ms == latency
        },
        cli.flag("mode"@) == Some("receiver"@) && cli.positional.len() > 3 && cli.positional[3]
            == decimal(rate as nat) ==> config.source_bitrate_bps == rate,
        cli.flag("stream-secs"@) is None ==> config.stream@ == config.duration@,
        cli.flag("stream-secs"@) is Some && is_float_text(cli.flag("stream-secs"@)->0)
            ==> config.stream@ == cli.flag("stream-secs"@)->0,
        cli.flag("attempt"@) is Some ==> config.attempt@ == cli.flag("attempt"@)->0,
        cli.flag("out"@) is Some && cli.flag("out"@)->0.len() > 0 ==> config.out is Some
            && config.out->0@ == cli.flag("out"@)->0,
        cli.flag("out"@) is None ==> config.out is None,
        config.cpus == env.cpus,
{
    lemma_choices();
    decimal_round_trips(port as nat);
    decimal_round_trips(latency as nat);
    decimal_round_trips(rate as nat);
}

/// What is said of one side's peer is kept for that side.
pub proof fn peers_are_what_was_said_of_them(peers: PeerTopology, cli: CliText, v: Seq<char>)
    requires
        peers.reads(cli),
        v.len() > 0,
    ensures
        cli.flag("recv-runtime"@) == Some(v) ==> peers.recv_runtime@ == v,
        cli.flag("send-runtime"@) == Some(v) ==> peers.send_runtime@ == v,
        cli.flag("recv-runtime"@) is None && cli.flag("recv-runtimes"@) == Some(v)
            ==> peers.recv_runtime@ == v,
        cli.flag("send-runtime"@) is None && cli.flag("send-runtimes"@) == Some(v)
            ==> peers.send_runtime@ == v,
        cli.flag("recv-ingress"@) == Some(v) ==> peers.recv_ingress@ == v,
        cli.flag("send-ingress"@) == Some(v) ==> peers.send_ingress@ == v,
        cli.flag("recv-workers"@) == Some(v) ==> peers.recv_workers@ == v,
        cli.flag("send-workers"@) == Some(v) ==> peers.send_workers@ == v,
        cli.flag("recv-cpus"@) == Some(v) ==> peers.recv_cpus@ == v,
        cli.flag("send-cpus"@) == Some(v) ==> peers.send_cpus@ == v,
{
}

/// Each knob of a link is set by the flag of its name, and `off` leaves it unset.
pub proof fn links_are_what_was_said_of_them(link: Link, cli: CliText, v: Seq<char>)
    requires
        link.reads(cli),
        v.len() > 0,
        v != "off"@,
    ensures
        cli.flag("link-delay"@) == Some(v) ==> link.delay@ == v,
        cli.flag("link-jitter"@) == Some(v) ==> link.jitter@ == v,
        cli.flag("link-loss"@) == Some(v) ==> link.loss@ == v,
        cli.flag("link-rate"@) == Some(v) ==> link.rate@ == v,
        cli.flag("link-reorder"@) == Some(v) ==> link.reorder@ == v,
        cli.flag("link-duplicate"@) == Some(v) ==> link.duplicate@ == v,
        cli.flag("link-corrupt"@) == Some(v) ==> link.corrupt@ == v,
        cli.flag("link-limit"@) == Some(v) ==> link.limit@ == v,
        cli.flag("link-delay"@) == Some("off"@) ==> link.delay@.len() == 0,
        cli.flag("link-jitter"@) == Some("off"@) ==> link.jitter@.len() == 0,
        cli.flag("link-loss"@) == Some("off"@) ==> link.loss@.len() == 0,
        cli.flag("link-rate"@) == Some("off"@) ==> link.rate@.len() == 0,
        cli.flag("link-reorder"@) == Some("off"@) ==> link.reorder@.len() == 0,
        cli.flag("link-duplicate"@) == Some("off"@) ==> link.duplicate@.len() == 0,
        cli.flag("link-corrupt"@) == Some("off"@) ==> link.corrupt@.len() == 0,
        cli.flag("link-limit"@) == Some("off"@) ==> link.limit@.len() == 0,
{
}

/// The knobs of a link are found again under the names of their fields.
pub proof fn knobs_have_their_names(link: Link)
    ensures
        link.field("delay"@) == link.delay@,
        link.field("jitter"@) == link.jitter@,
        link.field("loss"@) == link.loss@,
        link.field("rate"@) == link.rate@,
        link.field("reorder"@) == link.reorder@,
        link.field("duplicate"@) == link.duplicate@,
        link.field("corrupt"@) == link.corrupt@,
        link.field("limit"@) == link.limit@,
{
    reveal_strlit("delay");
    reveal_strlit("jitter");
    reveal_strlit("loss");
    reveal_strlit("rate");
    reveal_strlit("reorder");
    reveal_strlit("duplicate");
    reveal_strlit("corrupt");
    reveal_strlit("limit");
    assert("delay"@.len() == 5 && "jitter"@.len() == 6 && "loss"@.len() == 4);
    assert("rate"@.len() == 4 && "reorder"@.len() == 7 && "duplicate"@.len() == 9);
    assert("corrupt"@.len() == 7 && "limit"@.len() == 5);
    assert("delay"@[0] == 'd' && "limit"@[0] == 'l' && "loss"@[0] == 'l' && "rate"@[0] == 'r');
    assert("reorder"@[0] == 'r' && "corrupt"@[0] == 'c');
}

// ---------------------------------------------------------------------------
// What is refused, and how connections are spread
// ---------------------------------------------------------------------------

/// A command line that is accepted names a runtime, a role and the numbers that the role
/// needs, and asks for a bond only where the bond can be driven.
pub proof fn accepted_lines_are_complete(cli: CliText, env: RunDefaults)
    requires
        config_error(cli, env) is None,
    ensures
        cli.flag("mode"@) == Some("sender"@) || cli.flag("mode"@) == Some("receiver"@),
        cli.flag("runtime"@) is Some,
        ({
            let at: int = if cli.flag("mode"@) == Some("sender"@) {
                1
            } else {
                0
            };
            &&& cli.positional.len() >= at + 3
            &&& unsigned_of(cli.positional[at], 65535) is Some
            &&& is_float_text(cli.positional[at + 1])
            &&& unsigned_of(cli.positional[at + 2], 65535) is Some
            &&& cli.positional.len() > at + 3 ==> unsigned_of(
                cli.positional[at + 3],
                u64::MAX as int,
            ) is Some && unsigned_of(cli.positional[at + 3], u64::MAX as int)->0 > 0
        }),
        cli.flag("bond"@) is Some && cli.flag("bond"@) != Some("none"@) && cli.flag("mode"@)
            == Some("sender"@) ==> cli.flag("egress"@) == Some("shared-socket"@) && cli.flag(
            "ingress"@,
        ) is Some && cli.flag("connect-concurrency"@) is Some,
{
    lemma_choices();
}

/// Peers are spread over a listener's sockets as evenly as can be: all of them fit, and
/// with one fewer on each they would not.
pub proof fn peers_are_spread_evenly(config: BenchConfig, sockets: usize)
    requires
        sockets > 0,
        config.connections > 0,
        config.ingress == Ingress::SharedPool(sockets) || config.ingress
            == Ingress::ReuseportMulti(sockets) || config.ingress == (Ingress::ReuseportSingle {
            workers: sockets,
        }),
    ensures
        config.ingress_peers() * sockets >= config.connections,
        (config.ingress_peers() - 1) * sockets < config.connections,
{
    let c = config.connections as int;
    let s = sockets as int;
    let q = c / s;
    assert(c == s * q + c % s && 0 <= c % s < s) by (nonlinear_arith)
        requires
            s > 0,
            c > 0,
            q == c / s,
    ;
    assert((c % s == 0 ==> q * s >= c && (q - 1) * s < c) && (c % s != 0 ==> (q + 1) * s >= c && q
        * s < c)) by (nonlinear_arith)
        requires
            c == s * q + c % s,
            0 <= c % s < s,
            s > 0,
    ;
}

/// Connections of a pool share its ports in turn, those with ports of their own never
/// meet, and where the kernel dispatches there is one port.
pub proof fn connections_have_their_ports(config: BenchConfig, i: usize, j: usize)
    ensures
        config.ingress == Ingress::PerPort && i < 65536 && j < 65536 && i != j
            ==> config.port_offset(i) != config.port_offset(j),
        config.ingress == Ingress::PerPort ==> config.port_offset(0) == 0,
        config.ingress is ReuseportMulti || config.ingress is ReuseportSingle
            ==> config.port_offset(i) == 0,
        match config.ingress {
            Ingress::SharedPool(k) => 0 < k < 65536 ==> {
                &&& config.port_offset(i) < k
                &&& i < k ==> config.port_offset(i) == i
                &&& i + k <= usize::MAX ==> config.port_offset((i + k) as usize)
                    == config.port_offset(i)
            },
            _ => true,
        },
{
    match config.ingress {
        Ingress::SharedPool(k) => {
            if 0 < k < 65536 {
                assert(0 <= i as int % k as int && (i as int % k as int) < k && (i < k ==> i as int
                    % k as int == i)) by (nonlinear_arith)
                    requires
                        k > 0,
                ;
            }
            if 0 < k < 65536 && i + k <= usize::MAX {
                assert((i + k) % k as int == i as int % k as int) by (nonlinear_arith)
                    requires
                        k > 0,
                ;
            }
        },
        _ => {},
    }
}

} // verus!
