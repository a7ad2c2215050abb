//! The configuration of one benchmark process.
use crate::capacity_args::{PolicyArgs, policy_error, policy_from_cli, policy_given};
use crate::cli::{
    BandwidthPolicy, Batching, BondMode, Cli, CliText, Egress, Encryption, Ingress, Link, Mode,
    PeerTopology, Promotion, Runtime, WouldBlockPolicy, runtime_named,
};
use crate::text::{
    agrees, chars_of, concat3, decimal, float_text, has_prefix, is_float_text, parse_bounded,
    parse_u64, parse_usize, render, same, split_once, split_once_text, string_of, strip_prefix,
    texts, unsigned_of,
};
use vstd::prelude::*;

verus! {

/// Application payload rate unless the command line gives one.
pub const DEFAULT_SOURCE_BITRATE_BPS: u64 = 8_000_000;

/// The largest count that a topology flag may ask for.
pub const MAX_COUNT: usize = 4096;

/// Marks a socket id as that of a group.
pub const SRTGROUP_MASK: u32 = 0x4000_0000;

// ---------------------------------------------------------------------------
// Flags
// ---------------------------------------------------------------------------

/// A count of at least one, cut at [`MAX_COUNT`], or why it is none.
pub open spec fn positive_of(label: Seq<char>, raw: Seq<char>) -> Result<usize, Seq<char>> {
    match unsigned_of(raw, usize::MAX as int) {
        Some(n) if n > 0 => Ok(
            if n < MAX_COUNT {
                n as usize
            } else {
                MAX_COUNT
            },
        ),
        _ => Err("error: "@ + label + " must be a positive integer (got '"@ + raw + "')"@),
    }
}

pub fn parse_positive(label: &str, raw: &str) -> (r: Result<usize, String>)
    ensures
        agrees(r, positive_of(label@, raw@)),
{
    match parse_usize(raw) {
        Some(n) => {
            if n > 0 {
                return Ok(if n < MAX_COUNT {
                    n
                } else {
                    MAX_COUNT
                });
            }
        },
        None => {},
    }
    let mut message = concat3("error: ", label, " must be a positive integer (got '");
    message.append(raw);
    message.append("')");
    Err(message)
}

/// The count that a flag gives, or `default` without the flag.
pub open spec fn count_of(
    cli: CliText,
    flag: Seq<char>,
    label: Seq<char>,
    default: usize,
) -> Result<usize, Seq<char>> {
    match cli.flag(flag) {
        Some(raw) => positive_of(label, raw),
        None => Ok(default),
    }
}

fn parse_count(cli: &Cli, flag: &str, default: usize) -> (r: Result<usize, String>)
    ensures
        agrees(r, count_of(cli@, flag@, flag@, default)),
{
    match cli.flag(flag) {
        Some(raw) => parse_positive(flag, raw.as_str()),
        None => Ok(default),
    }
}

pub open spec fn runtime_of(cli: CliText) -> Result<Runtime, Seq<char>> {
    match runtime_named(cli.flag_or_empty("runtime"@)) {
        Some(r) => Ok(r),
        None => Err("missing or unknown runtime=<...>"@),
    }
}

pub fn parse_runtime(cli: &Cli) -> (r: Result<Runtime, String>)
    ensures
        agrees(r, runtime_of(cli@)),
{
    let name = cli.scoped_flag("runtime");
    match Runtime::parse(name.as_str()) {
        Some(r) => Ok(r),
        None => Err("missing or unknown runtime=<...>".to_owned()),
    }
}

pub open spec fn mode_of(cli: CliText) -> Result<Mode, Seq<char>> {
    match cli.flag("mode"@) {
        None => Err("missing or unknown mode=<sender|receiver>"@),
        Some(v) => if v == "sender"@ {
            Ok(Mode::Sender)
        } else if v == "receiver"@ {
            Ok(Mode::Receiver)
        } else {
            Err("missing or unknown mode=<sender|receiver>"@)
        },
    }
}

pub fn parse_mode(cli: &Cli) -> (r: Result<Mode, String>)
    ensures
        agrees(r, mode_of(cli@)),
{
    match cli.flag("mode") {
        None => Err("missing or unknown mode=<sender|receiver>".to_owned()),
        Some(v) => if same(v.as_str(), "sender") {
            Ok(Mode::Sender)
        } else if same(v.as_str(), "receiver") {
            Ok(Mode::Receiver)
        } else {
            Err("missing or unknown mode=<sender|receiver>".to_owned())
        },
    }
}

pub open spec fn encryption_of(cli: CliText) -> Result<Encryption, Seq<char>> {
    match cli.flag("encryption"@) {
        None => Ok(Encryption::Plain),
        Some(v) => if v == ""@ {
            Ok(Encryption::Plain)
        } else if v == "plain"@ {
            Ok(Encryption::Plain)
        } else if v == "128"@ {
            Ok(Encryption::Aes128)
        } else if v == "192"@ {
            Ok(Encryption::Aes192)
        } else if v == "256"@ {
            Ok(Encryption::Aes256)
        } else {
            Err("error: unknown --encryption '"@ + v + "' (want plain|128|192|256)"@)
        },
    }
}

pub fn parse_encryption(cli: &Cli) -> (r: Result<Encryption, String>)
    ensures
        agrees(r, encryption_of(cli@)),
{
    match cli.flag("encryption") {
        None => Ok(Encryption::Plain),
        Some(v) => if same(v.as_str(), "") {
            Ok(Encryption::Plain)
        } else if same(v.as_str(), "plain") {
            Ok(Encryption::Plain)
        } else if same(v.as_str(), "128") {
            Ok(Encryption::Aes128)
        } else if same(v.as_str(), "192") {
            Ok(Encryption::Aes192)
        } else if same(v.as_str(), "256") {
            Ok(Encryption::Aes256)
        } else {
            Err(concat3("error: unknown --encryption '", v.as_str(), "' (want plain|128|192|256)"))
        },
    }
}

pub open spec fn egress_of(cli: CliText) -> Result<Egress, Seq<char>> {
    match cli.flag("egress"@) {
        None => Ok(Egress::PerConnection),
        Some(v) => if v == "per-connection"@ {
            Ok(Egress::PerConnection)
        } else if v == "shared-socket"@ {
            Ok(Egress::SharedSocket)
        } else {
            Err("error: unknown --egress '"@ + v + "' (want per-connection|shared-socket)"@)
        },
    }
}

pub fn parse_egress(cli: &Cli) -> (r: Result<Egress, String>)
    ensures
        agrees(r, egress_of(cli@)),
{
    match cli.flag("egress") {
        None => Ok(Egress::PerConnection),
        Some(v) => if same(v.as_str(), "per-connection") {
            Ok(Egress::PerConnection)
        } else if same(v.as_str(), "shared-socket") {
            Ok(Egress::SharedSocket)
        } else {
            Err(concat3("error: unknown --egress '", v.as_str(), "' (want per-connection|shared-socket)"))
        },
    }
}

pub open spec fn batching_of(cli: CliText) -> Result<Batching, Seq<char>> {
    match cli.flag("batch"@) {
        None => Ok(Batching::On),
        Some(v) => if v == "on"@ {
            Ok(Batching::On)
        } else if v == "off"@ {
            Ok(Batching::Off)
        } else {
            Err("error: unknown --batch '"@ + v + "' (want on|off)"@)
        },
    }
}

pub fn parse_batching(cli: &Cli) -> (r: Result<Batching, String>)
    ensures
        agrees(r, batching_of(cli@)),
{
    match cli.flag("batch") {
        None => Ok(Batching::On),
        Some(v) => if same(v.as_str(), "on") {
            Ok(Batching::On)
        } else if same(v.as_str(), "off") {
            Ok(Batching::Off)
        } else {
            Err(concat3("error: unknown --batch '", v.as_str(), "' (want on|off)"))
        },
    }
}

pub open spec fn promotion_of(cli: CliText) -> Result<Promotion, Seq<char>> {
    match cli.flag("promotion"@) {
        None => Ok(Promotion::Relocate),
        Some(v) => if v == ""@ {
            Ok(Promotion::Relocate)
        } else if v == "relocate"@ {
            Ok(Promotion::Relocate)
        } else if v == "never"@ {
            Ok(Promotion::Never)
        } else if v == "bonded"@ {
            Ok(Promotion::Bonded)
        } else if v == "all"@ {
            Ok(Promotion::All)
        } else {
            Err("error: unknown --promotion '"@ + v + "' (want never|relocate|bonded|all)"@)
        },
    }
}

pub fn parse_promotion(cli: &Cli) -> (r: Result<Promotion, String>)
    ensures
        agrees(r, promotion_of(cli@)),
{
    match cli.flag("promotion") {
        None => Ok(Promotion::Relocate),
        Some(v) => if same(v.as_str(), "") {
            Ok(Promotion::Relocate)
        } else if same(v.as_str(), "relocate") {
            Ok(Promotion::Relocate)
        } else if same(v.as_str(), "never") {
            Ok(Promotion::Never)
        } else if same(v.as_str(), "bonded") {
            Ok(Promotion::Bonded)
        } else if same(v.as_str(), "all") {
            Ok(Promotion::All)
        } else {
            Err(concat3("error: unknown --promotion '", v.as_str(), "' (want never|relocate|bonded|all)"))
        },
    }
}

pub open spec fn cookie_routing_of(cli: CliText) -> Result<bool, Seq<char>> {
    match cli.flag("cookie-routing"@) {
        None => Ok(true),
        Some(v) => if v == ""@ {
            Ok(true)
        } else if v == "on"@ {
            Ok(true)
        } else if v == "off"@ {
            Ok(false)
        } else {
            Err("error: unknown --cookie-routing '"@ + v + "' (want on|off)"@)
        },
    }
}

pub fn parse_cookie_routing(cli: &Cli) -> (r: Result<bool, String>)
    ensures
        agrees(r, cookie_routing_of(cli@)),
{
    match cli.flag("cookie-routing") {
        None => Ok(true),
        Some(v) => if same(v.as_str(), "") {
            Ok(true)
        } else if same(v.as_str(), "on") {
            Ok(true)
        } else if same(v.as_str(), "off") {
            Ok(false)
        } else {
            Err(concat3("error: unknown --cookie-routing '", v.as_str(), "' (want on|off)"))
        },
    }
}

pub open spec fn would_block_of(cli: CliText) -> Result<WouldBlockPolicy, Seq<char>> {
    match cli.flag("would-block"@) {
        None => Ok(WouldBlockPolicy::Retain),
        Some(v) => if v == "retain"@ {
            Ok(WouldBlockPolicy::Retain)
        } else if v == "drop"@ {
            Ok(WouldBlockPolicy::Drop)
        } else {
            Err("error: unknown --would-block '"@ + v + "' (want retain|drop)"@)
        },
    }
}

pub fn parse_would_block(cli: &Cli) -> (r: Result<WouldBlockPolicy, String>)
    ensures
        agrees(r, would_block_of(cli@)),
{
    match cli.flag("would-block") {
        None => Ok(WouldBlockPolicy::Retain),
        Some(v) => if same(v.as_str(), "retain") {
            Ok(WouldBlockPolicy::Retain)
        } else if same(v.as_str(), "drop") {
            Ok(WouldBlockPolicy::Drop)
        } else {
            Err(concat3("error: unknown --would-block '", v.as_str(), "' (want retain|drop)"))
        },
    }
}

/// `s` with its first `:` replaced by `=`.
pub open spec fn colon_to_equals(s: Seq<char>) -> Seq<char> {
    match split_once_text(s, ':') {
        Some((kind, count)) => kind + "="@ + count,
        None => s,
    }
}

/// What follows `prefix`, which `s` has to begin with.
pub open spec fn after(s: Seq<char>, prefix: Seq<char>) -> Seq<char> {
    s.subrange(prefix.len() as int, s.len() as int)
}

/// The ingress that a spelling such as `shared-pool=4` or `shared-pool:4` names.
pub open spec fn ingress_spelled(text: Seq<char>) -> Result<Ingress, Seq<char>> {
    let s = colon_to_equals(text);
    if has_prefix(s, "shared-pool="@) {
        match positive_of("shared-pool size"@, after(s, "shared-pool="@)) {
            Ok(n) => Ok(Ingress::SharedPool(n)),
            Err(e) => Err(e),
        }
    } else if has_prefix(s, "reuseport-multi="@) {
        match positive_of("reuseport-multi acceptor count"@, after(s, "reuseport-multi="@)) {
            Ok(n) => Ok(Ingress::ReuseportMulti(n)),
            Err(e) => Err(e),
        }
    } else if has_prefix(s, "reuseport-single="@) {
        match positive_of("reuseport-single worker count"@, after(s, "reuseport-single="@)) {
            Ok(n) => Ok(Ingress::ReuseportSingle { workers: n }),
            Err(e) => Err(e),
        }
    } else {
        Err(
            "error: unknown --ingress '"@ + s
                + "' (want per-port | shared-pool=K | reuseport-multi=K | reuseport-single=W)"@,
        )
    }
}

pub fn parse_ingress_spec(text: &str) -> (r: Result<Ingress, String>)
    ensures
        agrees(r, ingress_spelled(text@)),
{
    let s = match split_once(text, ':') {
        Some((kind, count)) => concat3(kind.as_str(), "=", count.as_str()),
        None => text.to_owned(),
    };
    if let Some(size) = strip_prefix(s.as_str(), "shared-pool=") {
        match parse_positive("shared-pool size", size.as_str()) {
            Ok(n) => Ok(Ingress::SharedPool(n)),
            Err(e) => Err(e),
        }
    } else if let Some(count) = strip_prefix(s.as_str(), "reuseport-multi=") {
        match parse_positive("reuseport-multi acceptor count", count.as_str()) {
            Ok(n) => Ok(Ingress::ReuseportMulti(n)),
            Err(e) => Err(e),
        }
    } else if let Some(workers) = strip_prefix(s.as_str(), "reuseport-single=") {
        match parse_positive("reuseport-single worker count", workers.as_str()) {
            Ok(n) => Ok(Ingress::ReuseportSingle { workers: n }),
            Err(e) => Err(e),
        }
    } else {
        Err(
            concat3(
                "error: unknown --ingress '",
                s.as_str(),
                "' (want per-port | shared-pool=K | reuseport-multi=K | reuseport-single=W)",
            ),
        )
    }
}

pub open spec fn ingress_of(cli: CliText) -> Result<Ingress, Seq<char>> {
    match cli.flag("ingress"@) {
        None => Ok(Ingress::PerPort),
        Some(v) => if v == "per-port"@ {
            Ok(Ingress::PerPort)
        } else {
            ingress_spelled(v)
        },
    }
}

pub fn parse_ingress(cli: &Cli) -> (r: Result<Ingress, String>)
    ensures
        agrees(r, ingress_of(cli@)),
{
    match cli.flag("ingress") {
        None => Ok(Ingress::PerPort),
        Some(v) => if same(v.as_str(), "per-port") {
            Ok(Ingress::PerPort)
        } else {
            parse_ingress_spec(v.as_str())
        },
    }
}

/// The bond mode and the number of pairs that `--bond` names.
pub open spec fn bond_of(cli: CliText) -> Result<(BondMode, usize), Seq<char>> {
    match cli.flag("bond"@) {
        None => Ok((BondMode::Unbonded, 0)),
        Some(v) => if v == "none"@ {
            Ok((BondMode::Unbonded, 0))
        } else {
            let (kind, count) = match split_once_text(v, ':') {
                Some(parts) => parts,
                None => (v, Seq::empty()),
            };
            let pairs = positive_of("bond pair count"@, count);
            if kind != "broadcast"@ && kind != "backup"@ {
                Err("error: unknown --bond mode '"@ + kind + "' (want broadcast|backup|none)"@)
            } else {
                match pairs {
                    Ok(n) => Ok(
                        (
                            if kind == "broadcast"@ {
                                BondMode::Broadcast
                            } else {
                                BondMode::Backup
                            },
                            n,
                        ),
                    ),
                    Err(e) => Err(e),
                }
            }
        },
    }
}

pub fn parse_bond(cli: &Cli) -> (r: Result<(BondMode, usize), String>)
    ensures
        agrees(r, bond_of(cli@)),
{
    match cli.flag("bond") {
        None => Ok((BondMode::Unbonded, 0)),
        Some(v) => {
            if same(v.as_str(), "none") {
                return Ok((BondMode::Unbonded, 0));
            }
            let (kind, count) = match split_once(v.as_str(), ':') {
                Some(parts) => parts,
                None => (v.clone(), String::new()),
            };
            let mode = if same(kind.as_str(), "broadcast") {
                BondMode::Broadcast
            } else if same(kind.as_str(), "backup") {
                BondMode::Backup
            } else {
                return Err(
                    concat3(
                        "error: unknown --bond mode '",
                        kind.as_str(),
                        "' (want broadcast|backup|none)",
                    ),
                );
            };
            match parse_positive("bond pair count", count.as_str()) {
                Ok(n) => Ok((mode, n)),
                Err(e) => Err(e),
            }
        },
    }
}

/// The digits of a size and what one unit of it is worth: `m` is 2^20, `k` is 2^10.
pub open spec fn scaled(raw: Seq<char>) -> (Seq<char>, int) {
    if raw.len() > 0 && (raw.last() == 'm' || raw.last() == 'M') {
        (raw.drop_last(), 0x10_0000)
    } else if raw.len() > 0 && (raw.last() == 'k' || raw.last() == 'K') {
        (raw.drop_last(), 0x400)
    } else {
        (raw, 1)
    }
}

/// The size in bytes that `raw` spells, if it spells one that fits.
pub open spec fn size_of(raw: Seq<char>) -> Option<usize> {
    let (digits, unit) = scaled(raw);
    match unsigned_of(digits, usize::MAX as int) {
        Some(n) => if n * unit <= usize::MAX {
            Some((n * unit) as usize)
        } else {
            None
        },
        None => None,
    }
}

/// Reads a size such as `4096`, `64k` or `16m`.
pub fn parse_size(raw: &str) -> (r: Option<usize>)
    ensures
        r == size_of(raw@),
{
    let chars = chars_of(raw);
    let n: usize = chars.len();
    let mut end: usize = n;
    let mut unit: usize = 1;
    if n > 0 {
        let last = chars[n - 1];
        if last == 'm' || last == 'M' {
            end = n - 1;
            unit = 0x10_0000;
        } else if last == 'k' || last == 'K' {
            end = n - 1;
            unit = 0x400;
        }
    }
    let digits = string_of(&chars, 0, end);
    assert(digits@ =~= scaled(raw@).0);
    match parse_usize(digits.as_str()) {
        Some(value) => value.checked_mul(unit),
        None => None,
    }
}

/// The socket buffer request: `default` and `0` leave the system's own size.
pub open spec fn sock_buf_of(cli: CliText, default: usize) -> Result<usize, Seq<char>> {
    match cli.flag("sock-buf"@) {
        None => Ok(default),
        Some(v) => if v == "default"@ || v == "0"@ {
            Ok(0)
        } else {
            match size_of(v) {
                Some(n) => Ok(n),
                None => Err("error: --sock-buf wants bytes, <N>k, <N>m, or 'default'"@),
            }
        },
    }
}

pub fn parse_sock_buf(cli: &Cli, default: usize) -> (r: Result<usize, String>)
    ensures
        agrees(r, sock_buf_of(cli@, default)),
{
    match cli.flag("sock-buf") {
        None => Ok(default),
        Some(v) => if same(v.as_str(), "default") || same(v.as_str(), "0") {
            Ok(0)
        } else {
            match parse_size(v.as_str()) {
                Some(n) => Ok(n),
                None => Err("error: --sock-buf wants bytes, <N>k, <N>m, or 'default'".to_owned()),
            }
        },
    }
}

/// The pacing policy that a spelling names.
pub open spec fn bandwidth_spelled(s: Seq<char>) -> Option<BandwidthPolicy> {
    if s == "protocol-default"@ {
        Some(BandwidthPolicy::ProtocolDefault)
    } else if s == "legacy-source-fixed"@ {
        Some(BandwidthPolicy::LegacySourceFixed)
    } else if has_prefix(s, "fixed:"@) {
        match unsigned_of(after(s, "fixed:"@), u64::MAX as int) {
            Some(n) => Some(BandwidthPolicy::Fixed(n as u64)),
            None => None,
        }
    } else if has_prefix(s, "input-relative:"@) {
        match unsigned_of(after(s, "input-relative:"@), 100) {
            Some(n) if n >= 5 => Some(BandwidthPolicy::InputRelative { overhead_percent: n as u8 }),
            _ => None,
        }
    } else {
        None
    }
}

impl BandwidthPolicy {
    /// Parses `protocol-default`, `legacy-source-fixed`, `fixed:<bps>` or
    /// `input-relative:<5..=100>`.
    pub fn parse(s: &str) -> (r: Option<Self>)
        ensures
            r == bandwidth_spelled(s@),
    {
        if same(s, "protocol-default") {
            return Some(BandwidthPolicy::ProtocolDefault);
        }
        if same(s, "legacy-source-fixed") {
            return Some(BandwidthPolicy::LegacySourceFixed);
        }
        if let Some(bps) = strip_prefix(s, "fixed:") {
            return match parse_u64(bps.as_str()) {
                Some(n) => Some(BandwidthPolicy::Fixed(n)),
                None => None,
            };
        }
        if let Some(percent) = strip_prefix(s, "input-relative:") {
            return match parse_bounded(percent.as_str(), 100) {
                Some(n) => if n >= 5 {
                    Some(BandwidthPolicy::InputRelative { overhead_percent: n as u8 })
                } else {
                    None
                },
                None => None,
            };
        }
        None
    }
}

pub open spec fn bandwidth_of(cli: CliText) -> Result<BandwidthPolicy, Seq<char>> {
    match cli.flag("srt-bandwidth"@) {
        None => Ok(BandwidthPolicy::LegacySourceFixed),
        Some(v) => if v.len() == 0 {
            Ok(BandwidthPolicy::LegacySourceFixed)
        } else {
            match bandwidth_spelled(v) {
                Some(p) => Ok(p),
                None => Err(
                    "error: unknown --srt-bandwidth '"@ + v
                        + "' (want protocol-default|legacy-source-fixed|fixed:<bps>|input-relative:<5..=100>)"@,
                ),
            }
        },
    }
}

pub fn parse_bandwidth_policy(cli: &Cli) -> (r: Result<BandwidthPolicy, String>)
    ensures
        agrees(r, bandwidth_of(cli@)),
{
    match cli.flag("srt-bandwidth") {
        None => Ok(BandwidthPolicy::LegacySourceFixed),
        Some(v) => if v.as_str().is_empty() {
            Ok(BandwidthPolicy::LegacySourceFixed)
        } else {
            match BandwidthPolicy::parse(v.as_str()) {
                Some(p) => Ok(p),
                None => Err(
                    concat3(
                        "error: unknown --srt-bandwidth '",
                        v.as_str(),
                        "' (want protocol-default|legacy-source-fixed|fixed:<bps>|input-relative:<5..=100>)",
                    ),
                ),
            }
        },
    }
}

/// The value of a runtime flag, under its own name or else under the plural.
pub open spec fn runtime_flag(cli: CliText, name: Seq<char>, plural: Seq<char>) -> Seq<char> {
    if cli.flag_or_empty(name).len() == 0 {
        cli.flag_or_empty(plural)
    } else {
        cli.flag_or_empty(name)
    }
}

fn scoped_runtime_flag(cli: &Cli, name: &str, plural: &str) -> (r: String)
    ensures
        r@ == runtime_flag(cli@, name@, plural@),
{
    let value = cli.scoped_flag(name);
    if value.as_str().is_empty() {
        cli.scoped_flag(plural)
    } else {
        value
    }
}

impl PeerTopology {
    /// The role-scoped values are those of the flags of their names.
    pub open spec fn reads(&self, cli: CliText) -> bool {
        &&& self.recv_runtime@ == runtime_flag(cli, "recv-runtime"@, "recv-runtimes"@)
        &&& self.send_runtime@ == runtime_flag(cli, "send-runtime"@, "send-runtimes"@)
        &&& self.recv_ingress@ == cli.flag_or_empty("recv-ingress"@)
        &&& self.send_ingress@ == cli.flag_or_empty("send-ingress"@)
        &&& self.recv_workers@ == cli.flag_or_empty("recv-workers"@)
        &&& self.send_workers@ == cli.flag_or_empty("send-workers"@)
        &&& self.recv_cpus@ == cli.flag_or_empty("recv-cpus"@)
        &&& self.send_cpus@ == cli.flag_or_empty("send-cpus"@)
    }
}

pub fn parse_peer_topology(cli: &Cli) -> (r: PeerTopology)
    ensures
        r.reads(cli@),
{
    PeerTopology {
        recv_runtime: scoped_runtime_flag(cli, "recv-runtime", "recv-runtimes"),
        send_runtime: scoped_runtime_flag(cli, "send-runtime", "send-runtimes"),
        recv_ingress: cli.scoped_flag("recv-ingress"),
        send_ingress: cli.scoped_flag("send-ingress"),
        recv_workers: cli.scoped_flag("recv-workers"),
        send_workers: cli.scoped_flag("send-workers"),
        recv_cpus: cli.scoped_flag("recv-cpus"),
        send_cpus: cli.scoped_flag("send-cpus"),
    }
}

/// The value of a link flag; `off` is the empty text.
pub open spec fn link_value(cli: CliText, name: Seq<char>) -> Seq<char> {
    if cli.flag_or_empty(name) == "off"@ {
        Seq::empty()
    } else {
        cli.flag_or_empty(name)
    }
}

fn link_flag(cli: &Cli, name: &str) -> (r: String)
    ensures
        r@ == link_value(cli@, name@),
{
    let value = cli.scoped_flag(name);
    if same(value.as_str(), "off") {
        String::new()
    } else {
        value
    }
}

impl Link {
    /// Every knob is the flag of its name.
    pub open spec fn reads(&self, cli: CliText) -> bool {
        &&& self.delay@ == link_value(cli, "link-delay"@)
        &&& self.jitter@ == link_value(cli, "link-jitter"@)
        &&& self.loss@ == link_value(cli, "link-loss"@)
        &&& self.rate@ == link_value(cli, "link-rate"@)
        &&& self.reorder@ == link_value(cli, "link-reorder"@)
        &&& self.duplicate@ == link_value(cli, "link-duplicate"@)
        &&& self.corrupt@ == link_value(cli, "link-corrupt"@)
        &&& self.limit@ == link_value(cli, "link-limit"@)
    }
}

pub fn parse_link(cli: &Cli) -> (r: Link)
    ensures
        r.reads(cli@),
{
    Link {
        delay: link_flag(cli, "link-delay"),
        jitter: link_flag(cli, "link-jitter"),
        loss: link_flag(cli, "link-loss"),
        rate: link_flag(cli, "link-rate"),
        reorder: link_flag(cli, "link-reorder"),
        duplicate: link_flag(cli, "link-duplicate"),
        corrupt: link_flag(cli, "link-corrupt"),
        limit: link_flag(cli, "link-limit"),
    }
}

// ---------------------------------------------------------------------------
// Positional arguments
// ---------------------------------------------------------------------------

/// What the positional arguments say; a sender has its host in front.
#[derive(Debug)]
pub struct Positionals {
    pub host: String,
    pub port: u16,
    /// The duration in seconds, as it was written.
    pub duration: String,
    pub latency_ms: u16,
    pub source_bitrate_bps: u64,
}

/// Where the port stands.
pub open spec fn port_at(mode: Mode) -> int {
    match mode {
        Mode::Sender => 1,
        Mode::Receiver => 0,
    }
}

/// The `i`-th positional argument as a number of at most `max`.
pub open spec fn positional_number(cli: CliText, i: int, max: int) -> Option<nat> {
    if i < cli.positional.len() {
        unsigned_of(cli.positional[i], max)
    } else {
        None
    }
}

/// The payload rate: the fourth argument after the host, or the default.
pub open spec fn source_rate_of(cli: CliText, mode: Mode) -> Result<u64, Seq<char>> {
    let i = port_at(mode) + 3;
    if i >= cli.positional.len() {
        Ok(DEFAULT_SOURCE_BITRATE_BPS)
    } else {
        match unsigned_of(cli.positional[i], u64::MAX as int) {
            Some(n) if n > 0 => Ok(n as u64),
            _ => Err(
                "error: source_bitrate_bps must be a positive integer (got '"@ + cli.positional[i]
                    + "'); it is the application payload rate in bits per second, not SRT's pacing ceiling"@,
            ),
        }
    }
}

/// Why the positional arguments cannot be used; the empty text where nothing but
/// the usage is to be said.
pub open spec fn positional_error(cli: CliText, mode: Mode) -> Option<Seq<char>> {
    let at = port_at(mode);
    if positional_number(cli, at, u16::MAX as int) is None || at + 1 >= cli.positional.len()
        || !is_float_text(cli.positional[at + 1]) || positional_number(
        cli,
        at + 2,
        u16::MAX as int,
    ) is None {
        Some(Seq::empty())
    } else {
        match source_rate_of(cli, mode) {
            Err(e) => Some(e),
            Ok(_) => None,
        }
    }
}

/// Reads host, port, duration, latency and payload rate.
pub fn parse_required_positionals(cli: &Cli, mode: Mode) -> (r: Result<Positionals, String>)
    ensures
        match r {
            Ok(p) => {
                &&& positional_error(cli@, mode) is None
                &&& p.host@ == match mode {
                    Mode::Sender => cli@.positional[0],
                    Mode::Receiver => Seq::empty(),
                }
                &&& Some(p.port as nat) == positional_number(
                    cli@,
                    port_at(mode),
                    u16::MAX as int,
                )
                &&& p.duration@ == cli@.positional[port_at(mode) + 1]
                &&& Some(p.latency_ms as nat) == positional_number(
                    cli@,
                    port_at(mode) + 2,
                    u16::MAX as int,
                )
                &&& source_rate_of(cli@, mode) == Ok::<u64, Seq<char>>(p.source_bitrate_bps)
            },
            Err(e) => positional_error(cli@, mode) == Some(e@),
        },
{
    let offset: usize = match mode {
        Mode::Sender => 1,
        Mode::Receiver => 0,
    };
    let ghost words = texts(cli.positional@);
    if cli.positional.len() < offset + 3 {
        let none = String::new();
        return Err(none);
    }
    assert(words[offset as int] == cli.positional@[offset as int]@);
    assert(words[offset + 2] == cli.positional@[offset + 2]@);
    let port: u16 = match parse_bounded(cli.positional[offset].as_str(), u16::MAX as u64) {
        Some(n) => n as u16,
        None => {
            return Err(String::new());
        },
    };
    assert(words[offset + 1] == cli.positional@[offset + 1]@);
    if !float_text(cli.positional[offset + 1].as_str()) {
        return Err(String::new());
    }
    let latency_ms: u16 = match parse_bounded(
        cli.positional[offset + 2].as_str(),
        u16::MAX as u64,
    ) {
        Some(n) => n as u16,
        None => {
            return Err(String::new());
        },
    };
    let mut source_bitrate_bps: u64 = DEFAULT_SOURCE_BITRATE_BPS;
    if cli.positional.len() > offset + 3 {
        assert(words[offset + 3] == cli.positional@[offset + 3]@);
        let raw = cli.positional[offset + 3].as_str();
        let rate: u64 = match parse_u64(raw) {
            Some(n) => n,
            None => 0,
        };
        if rate == 0 {
            return Err(
                concat3(
                    "error: source_bitrate_bps must be a positive integer (got '",
                    raw,
                    "'); it is the application payload rate in bits per second, not SRT's pacing ceiling",
                ),
            );
        }
        source_bitrate_bps = rate;
    }
    let host = match mode {
        Mode::Sender => cli.positional[0].clone(),
        Mode::Receiver => String::new(),
    };
    assert(mode == Mode::Sender ==> host@ == words[0]);
    let duration = cli.positional[offset + 1].clone();
    Ok(Positionals { host, port, duration, latency_ms, source_bitrate_bps })
}

/// The length of the stream: what `--stream-secs` says if that is a number, else the
/// duration.
pub open spec fn stream_length(cli: CliText, duration: Seq<char>) -> Seq<char> {
    match cli.flag("stream-secs"@) {
        Some(v) => if is_float_text(v) {
            v
        } else {
            duration
        },
        None => duration,
    }
}

fn stream_secs(cli: &Cli, duration: &str) -> (r: String)
    ensures
        r@ == stream_length(cli@, duration@),
{
    match cli.flag("stream-secs") {
        Some(v) => if float_text(v.as_str()) {
            v.clone()
        } else {
            duration.to_owned()
        },
        None => duration.to_owned(),
    }
}

// ---------------------------------------------------------------------------
// The whole configuration
// ---------------------------------------------------------------------------

/// What a process knows without its command line, or measured on it.
#[derive(Clone, Copy, Debug)]
pub struct RunDefaults {
    /// How many logical CPUs the process was restricted to.
    pub cpus: usize,
    pub sock_buf_bytes: usize,
    pub source_backlog_ms: u64,
    pub datapath_queue_horizon_ms: u64,
    pub outbound_retry_horizon_ms: u64,
}

/// Fully-parsed configuration for one bench process invocation.
#[derive(Debug)]
pub struct BenchConfig {
    pub runtime: Runtime,
    pub mode: Mode,
    pub encryption: Encryption,
    pub host: String,
    pub port: u16,
    /// How long to run, in seconds, as it was written.
    pub duration: String,
    pub latency_ms: u16,
    /// The application payload rate, in bits per second.
    pub source_bitrate_bps: u64,
    pub bandwidth: BandwidthPolicy,
    pub source_backlog_ms: u64,
    pub datapath_queue_horizon_ms: u64,
    pub outbound_retry_horizon_ms: u64,
    pub connections: usize,
    pub egress: Egress,
    pub ingress: Ingress,
    pub bond_mode: BondMode,
    pub bond_pairs: usize,
    pub batching: Batching,
    pub recv_rounds: usize,
    pub would_block: WouldBlockPolicy,
    pub connect_concurrency: usize,
    pub promotion: Promotion,
    pub cookie_routing: bool,
    pub sock_buf_bytes: usize,
    pub out: Option<String>,
    pub rep: usize,
    /// Identity of the matrix attempt that started this process; empty without one.
    pub attempt: String,
    pub cpus: usize,
    pub pin: bool,
    pub workers: usize,
    /// The stream length the cell asked for, in seconds, as it was written.
    pub stream: String,
    pub peer_topology: PeerTopology,
    pub link: Link,
    /// Thresholds of the capacity classifier.
    pub classifier_policy: PolicyArgs,
}

/// The part of a configuration that bonding depends on.
pub open spec fn bond_error(
    mode: Mode,
    connections: usize,
    ingress: Ingress,
    egress: Egress,
    bond_mode: BondMode,
    bond_pairs: usize,
    connect_concurrency: usize,
) -> Option<Seq<char>> {
    if bond_mode == BondMode::Unbonded {
        None
    } else if bond_pairs > connections / 2 {
        Some("bond pair count exceeds half of --connections"@)
    } else if ingress != Ingress::SharedPool(1) {
        Some("--bond requires --ingress shared-pool=1"@)
    } else if mode == Mode::Sender && egress != Egress::SharedSocket {
        Some("--bond requires --egress shared-socket for sender group scheduling"@)
    } else if mode == Mode::Sender && connect_concurrency < 2 {
        Some(
            "bonded benchmark groups contain two physical SRT legs and therefore require --connect-concurrency >= 2"@,
        )
    } else {
        None
    }
}

pub open spec fn connections_of(cli: CliText) -> usize {
    match cli.number("connections"@, usize::MAX as int) {
        Some(n) => n as usize,
        None => 1,
    }
}

/// A number flag, or `default`.
pub open spec fn number_or(cli: CliText, flag: Seq<char>, max: int, default: int) -> int {
    match cli.number(flag, max) {
        Some(n) => n as int,
        None => default,
    }
}

/// The first thing that is wrong with a command line, in the order in which it is
/// looked at.
pub open spec fn config_error(cli: CliText, env: RunDefaults) -> Option<Seq<char>> {
    if let Err(e) = runtime_of(cli) {
        Some(e)
    } else if let Err(e) = mode_of(cli) {
        Some(e)
    } else if let Err(e) = encryption_of(cli) {
        Some(e)
    } else if let Some(e) = positional_error(cli, mode_of(cli)->Ok_0) {
        Some(e)
    } else if let Err(e) = ingress_of(cli) {
        Some(e)
    } else if let Err(e) = egress_of(cli) {
        Some(e)
    } else if let Err(e) = bond_of(cli) {
        Some(e)
    } else if let Err(e) = batching_of(cli) {
        Some(e)
    } else if let Err(e) = count_of(cli, "connect-concurrency"@, "connect-concurrency"@, 1) {
        Some(e)
    } else if let Err(e) = count_of(cli, "recv-rounds"@, "recv-rounds"@, 8) {
        Some(e)
    } else if let Err(e) = would_block_of(cli) {
        Some(e)
    } else if let Err(e) = promotion_of(cli) {
        Some(e)
    } else if let Err(e) = cookie_routing_of(cli) {
        Some(e)
    } else if let Err(e) = sock_buf_of(cli, env.sock_buf_bytes) {
        Some(e)
    } else if let Some(e) = policy_error(cli) {
        Some("error: "@ + e)
    } else if let Err(e) = bandwidth_of(cli) {
        Some(e)
    } else if let Some(e) = bond_error(
        mode_of(cli)->Ok_0,
        connections_of(cli),
        ingress_of(cli)->Ok_0,
        egress_of(cli)->Ok_0,
        bond_of(cli)->Ok_0.0,
        bond_of(cli)->Ok_0.1,
        count_of(cli, "connect-concurrency"@, "connect-concurrency"@, 1)->Ok_0,
    ) {
        Some("error: "@ + e)
    } else {
        None
    }
}

impl BenchConfig {
    /// Every setting is what the command line and the defaults say.
    pub open spec fn reads(&self, cli: CliText, env: RunDefaults) -> bool {
        &&& runtime_of(cli) == Ok::<Runtime, Seq<char>>(self.runtime)
        &&& mode_of(cli) == Ok::<Mode, Seq<char>>(self.mode)
        &&& encryption_of(cli) == Ok::<Encryption, Seq<char>>(self.encryption)
        &&& self.host@ == match self.mode {
            Mode::Sender => cli.positional[0],
            Mode::Receiver => Seq::empty(),
        }
        &&& Some(self.port as nat) == positional_number(cli, port_at(self.mode), u16::MAX as int)
        &&& Some(self.latency_ms as nat) == positional_number(
            cli,
            port_at(self.mode) + 2,
            u16::MAX as int,
        )
        &&& source_rate_of(cli, self.mode) == Ok::<u64, Seq<char>>(self.source_bitrate_bps)
        &&& self.duration@ == cli.positional[port_at(self.mode) + 1]
        &&& self.stream@ == stream_length(cli, self.duration@)
        &&& bandwidth_of(cli) == Ok::<BandwidthPolicy, Seq<char>>(self.bandwidth)
        &&& self.source_backlog_ms == number_or(
            cli,
            "source-backlog-ms"@,
            u64::MAX as int,
            env.source_backlog_ms as int,
        )
        &&& self.datapath_queue_horizon_ms == number_or(
            cli,
            "datapath-queue-horizon-ms"@,
            u64::MAX as int,
            env.datapath_queue_horizon_ms as int,
        )
        &&& self.outbound_retry_horizon_ms == number_or(
            cli,
            "outbound-retry-horizon-ms"@,
            u64::MAX as int,
            env.outbound_retry_horizon_ms as int,
        )
        &&& self.connections == connections_of(cli)
        &&& ingress_of(cli) == Ok::<Ingress, Seq<char>>(self.ingress)
        &&& egress_of(cli) == Ok::<Egress, Seq<char>>(self.egress)
        &&& bond_of(cli) == Ok::<(BondMode, usize), Seq<char>>((self.bond_mode, self.bond_pairs))
        &&& batching_of(cli) == Ok::<Batching, Seq<char>>(self.batching)
        &&& count_of(cli, "connect-concurrency"@, "connect-concurrency"@, 1) == Ok::<
            usize,
            Seq<char>,
        >(self.connect_concurrency)
        &&& count_of(cli, "recv-rounds"@, "recv-rounds"@, 8) == Ok::<usize, Seq<char>>(
            self.recv_rounds,
        )
        &&& would_block_of(cli) == Ok::<WouldBlockPolicy, Seq<char>>(self.would_block)
        &&& promotion_of(cli) == Ok::<Promotion, Seq<char>>(self.promotion)
        &&& cookie_routing_of(cli) == Ok::<bool, Seq<char>>(self.cookie_routing)
        &&& sock_buf_of(cli, env.sock_buf_bytes) == Ok::<usize, Seq<char>>(self.sock_buf_bytes)
        &&& (self.out is Some) == (cli.flag_or_empty("out"@).len() > 0)
        &&& self.out is Some ==> self.out->0@ == cli.flag_or_empty("out"@)
        &&& self.rep == number_or(cli, "rep"@, usize::MAX as int, 1)
        &&& self.attempt@ == cli.flag_or_empty("attempt"@)
        &&& self.cpus == env.cpus
        &&& self.pin == (cli.flag("pin"@) is Some && (cli.flag("pin"@)->0.len() == 0 || cli.flag(
            "pin"@,
        )->0 == "on"@))
        &&& self.workers == if number_or(cli, "workers"@, usize::MAX as int, 1) > 1 {
            number_or(cli, "workers"@, usize::MAX as int, 1)
        } else {
            1
        }
        &&& self.peer_topology.reads(cli)
        &&& self.link.reads(cli)
        &&& self.classifier_policy@ == policy_given(cli)
    }
}

/// The configuration that a command line asks for, or the first thing that is
/// wrong with it (the empty text where nothing but the usage is to be said).
pub fn bench_config_from_args(cli: &Cli, env: &RunDefaults) -> (r: Result<BenchConfig, String>)
    ensures
        match r {
            Ok(config) => config_error(cli@, *env) is None && config.reads(cli@, *env),
            Err(e) => config_error(cli@, *env) == Some(e@),
        },
{
    let runtime = match parse_runtime(cli) {
        Ok(v) => v,
        Err(e) => {
            return Err(e);
        },
    };
    let mode = match parse_mode(cli) {
        Ok(v) => v,
        Err(e) => {
            return Err(e);
        },
    };
    let encryption = match parse_encryption(cli) {
        Ok(v) => v,
        Err(e) => {
            return Err(e);
        },
    };
    let positionals = match parse_required_positionals(cli, mode) {
        Ok(v) => v,
        Err(e) => {
            return Err(e);
        },
    };
    let stream = stream_secs(cli, positionals.duration.as_str());
    let ingress = match parse_ingress(cli) {
        Ok(v) => v,
        Err(e) => {
            return Err(e);
        },
    };
    let egress = match parse_egress(cli) {
        Ok(v) => v,
        Err(e) => {
            return Err(e);
        },
    };
    let (bond_mode, bond_pairs) = match parse_bond(cli) {
        Ok(v) => v,
        Err(e) => {
            return Err(e);
        },
    };
    let batching = match parse_batching(cli) {
        Ok(v) => v,
        Err(e) => {
            return Err(e);
        },
    };
    let connect_concurrency: usize = match parse_count(cli, "connect-concurrency", 1) {
        Ok(v) => v,
        Err(e) => {
            return Err(e);
        },
    };
    let recv_rounds: usize = match parse_count(cli, "recv-rounds", 8) {
        Ok(v) => v,
        Err(e) => {
            return Err(e);
        },
    };
    let would_block = match parse_would_block(cli) {
        Ok(v) => v,
        Err(e) => {
            return Err(e);
        },
    };
    let promotion = match parse_promotion(cli) {
        Ok(v) => v,
        Err(e) => {
            return Err(e);
        },
    };
    let cookie_routing = match parse_cookie_routing(cli) {
        Ok(v) => v,
        Err(e) => {
            return Err(e);
        },
    };
    let sock_buf_bytes: usize = match parse_sock_buf(cli, env.sock_buf_bytes) {
        Ok(v) => v,
        Err(e) => {
            return Err(e);
        },
    };
    let classifier_policy = match policy_from_cli(cli) {
        Ok(v) => v,
        Err(e) => {
            let mut message = "error: ".to_owned();
            message.append(e.as_str());
            return Err(message);
        },
    };
    let bandwidth = match parse_bandwidth_policy(cli) {
        Ok(v) => v,
        Err(e) => {
            return Err(e);
        },
    };
    let out = cli.scoped_flag("out");
    let pin = match cli.flag("pin") {
        Some(v) => v.as_str().is_empty() || same(v.as_str(), "on"),
        None => false,
    };
    let workers: usize = cli.flag_or("workers", 1);
    let config = BenchConfig {
        runtime,
        mode,
        encryption,
        host: positionals.host,
        port: positionals.port,
        duration: positionals.duration,
        latency_ms: positionals.latency_ms,
        source_bitrate_bps: positionals.source_bitrate_bps,
        bandwidth,
        source_backlog_ms: cli.flag_or_u64("source-backlog-ms", env.source_backlog_ms),
        datapath_queue_horizon_ms: cli.flag_or_u64(
            "datapath-queue-horizon-ms",
            env.datapath_queue_horizon_ms,
        ),
        outbound_retry_horizon_ms: cli.flag_or_u64(
            "outbound-retry-horizon-ms",
            env.outbound_retry_horizon_ms,
        ),
        connections: cli.connections(),
        egress,
        ingress,
        bond_mode,
        bond_pairs,
        batching,
        recv_rounds,
        would_block,
        connect_concurrency,
        promotion,
        cookie_routing,
        sock_buf_bytes,
        out: if out.as_str().is_empty() {
            None
        } else {
            Some(out)
        },
        rep: cli.flag_or("rep", 1),
        attempt: cli.scoped_flag("attempt"),
        cpus: env.cpus,
        pin,
        workers: if workers > 1 {
            workers
        } else {
            1
        },
        stream,
        peer_topology: parse_peer_topology(cli),
        link: parse_link(cli),
        classifier_policy,
    };
    match config.validate_bond_topology() {
        Ok(()) => Ok(config),
        Err(e) => {
            let mut message = "error: ".to_owned();
            message.append(e);
            Err(message)
        },
    }
}

/// Handshake group metadata for one physical leg.
#[derive(Clone, Copy, PartialEq, Eq, Debug, Structural)]
pub struct GroupExtension {
    pub group_id: u32,
    pub backup: bool,
    pub flags: u8,
    pub weight: u16,
}

impl BenchConfig {
    /// What keeps this topology from driving its bonded legs as one group, if
    /// anything does.
    pub open spec fn topology_error(&self) -> Option<Seq<char>> {
        bond_error(
            self.mode,
            self.connections,
            self.ingress,
            self.egress,
            self.bond_mode,
            self.bond_pairs,
            self.connect_concurrency,
        )
    }

    /// Reject benchmark topologies that advertise a bond without actually driving
    /// its legs as one logical caller and listener group.
    pub fn validate_bond_topology(&self) -> (r: Result<(), &'static str>)
        ensures
            match r {
                Ok(()) => self.topology_error() is None,
                Err(e) => self.topology_error() == Some(e@),
            },
    {
        if self.bond_mode == BondMode::Unbonded {
            return Ok(());
        }
        if self.bond_pairs > self.connections / 2 {
            return Err("bond pair count exceeds half of --connections");
        }
        if self.ingress != Ingress::SharedPool(1) {
            return Err("--bond requires --ingress shared-pool=1");
        }
        if self.mode == Mode::Sender && self.egress != Egress::SharedSocket {
            return Err("--bond requires --egress shared-socket for sender group scheduling");
        }
        if self.mode == Mode::Sender && self.connect_concurrency < 2 {
            return Err(
                "bonded benchmark groups contain two physical SRT legs and therefore require --connect-concurrency >= 2",
            );
        }
        Ok(())
    }

    /// How far the port of connection `i` is from the first one.
    pub open spec fn port_offset(&self, i: usize) -> u16 {
        match self.ingress {
            Ingress::SharedPool(k) => (i % k) as u16,
            Ingress::ReuseportMulti(_) => 0,
            Ingress::ReuseportSingle { .. } => 0,
            Ingress::PerPort => i as u16,
        }
    }

    /// Destination/bind port for connection `i`.
    #[verifier::truncate]
    pub fn addr_for(&self, i: usize) -> (r: u16)
        requires
            self.ingress != Ingress::SharedPool(0),
            self.port + self.port_offset(i) <= u16::MAX,
        ensures
            r == self.port + self.port_offset(i),
    {
        match self.ingress {
            Ingress::SharedPool(k) => {
                let offset: usize = i % k;
                self.port + #[verifier::truncate] (offset as u16)
            },
            Ingress::ReuseportMulti(_) => self.port,
            Ingress::ReuseportSingle { workers: _ } => self.port,
            Ingress::PerPort => self.port + #[verifier::truncate] (i as u16),
        }
    }

    pub fn verbose(&self) -> (r: bool)
        ensures
            r == (self.connections == 1 && self.ingress == Ingress::PerPort),
    {
        self.connections == 1 && self.ingress == Ingress::PerPort
    }

    /// Number of application-visible streams expected at the receiver. A complete
    /// two-leg group replaces two physical connections with one logical stream;
    /// ungrouped connections remain one-to-one.
    #[must_use]
    pub fn logical_connection_count(&self) -> (r: usize)
        ensures
            r == if self.bond_mode == BondMode::Unbonded {
                self.connections as int
            } else if self.bond_pairs < self.connections / 2 {
                self.connections - self.bond_pairs
            } else {
                self.connections - self.connections / 2
            },
    {
        if self.bond_mode == BondMode::Unbonded {
            self.connections
        } else if self.bond_pairs < self.connections / 2 {
            self.connections - self.bond_pairs
        } else {
            self.connections - self.connections / 2
        }
    }

    /// Whether connection `index` is a leg of a bonded pair.
    pub open spec fn bonded(&self, index: usize) -> bool {
        self.bond_mode != BondMode::Unbonded && index < self.bond_pairs * 2
    }

    /// How many connections are legs of bonded pairs.
    pub fn bonded_legs(&self) -> (r: usize)
        requires
            self.bond_pairs * 2 <= usize::MAX,
        ensures
            r == if self.bond_mode == BondMode::Unbonded {
                0
            } else {
                self.bond_pairs * 2
            },
    {
        if self.bond_mode == BondMode::Unbonded {
            0
        } else {
            self.bond_pairs * 2
        }
    }

    /// Handshake group metadata for one physical leg. Two adjacent legs form one
    /// group; the second leg of a backup pair carries no weight.
    pub fn bond_extension_for(&self, index: usize) -> (r: Option<GroupExtension>)
        requires
            self.bond_pairs * 2 <= usize::MAX,
            self.bonded(index) ==> index / 2 < u32::MAX,
        ensures
            (r is Some) == self.bonded(index),
            r is Some ==> r->0 == (GroupExtension {
                group_id: SRTGROUP_MASK | ((index / 2 + 1) as u32),
                backup: self.bond_mode == BondMode::Backup,
                flags: 0,
                weight: if self.bond_mode == BondMode::Backup && index % 2 == 1 {
                    0
                } else {
                    1
                },
            }),
    {
        if self.bond_mode == BondMode::Unbonded || index >= self.bond_pairs * 2 {
            return None;
        }
        let backup = self.bond_mode == BondMode::Backup;
        Some(
            GroupExtension {
                group_id: SRTGROUP_MASK | ((index / 2) as u32 + 1),
                backup,
                flags: 0,
                weight: if backup && index % 2 == 1 {
                    0
                } else {
                    1
                },
            },
        )
    }

    /// Grouped legs need the same initial sequence for receiver-side deduplication.
    pub fn bond_initial_seq_for(&self, index: usize) -> (r: Option<u32>)
        requires
            self.bond_pairs * 2 <= usize::MAX,
            self.bonded(index) ==> index / 2 < u32::MAX,
        ensures
            (r is Some) == self.bonded(index),
            r is Some ==> r->0 == 0x0100_0000u32 | ((index / 2) as u32),
    {
        if self.bond_extension_for(index).is_some() {
            Some(0x0100_0000u32 | ((index / 2) as u32))
        } else {
            None
        }
    }

    /// Grouped legs share one stream identity.
    pub fn bond_stream_id_for(&self, index: usize) -> (r: Option<String>)
        requires
            self.bond_pairs * 2 <= usize::MAX,
            self.bonded(index) ==> index / 2 < u32::MAX,
        ensures
            (r is Some) == self.bonded(index),
            r is Some ==> r->0@ == "srt-bench-group-"@ + decimal((index / 2) as nat),
    {
        if self.bond_extension_for(index).is_some() {
            let mut id = "srt-bench-group-".to_owned();
            id.append(render((index / 2) as u64).as_str());
            Some(id)
        } else {
            None
        }
    }

    /// How many peers' traffic arrives on one listener ingress socket: one on a
    /// port of its own, else a share of all.
    pub open spec fn ingress_peers(&self) -> int {
        let sockets = match self.ingress {
            Ingress::PerPort => 0usize,
            Ingress::SharedPool(k) => k,
            Ingress::ReuseportMulti(k) => k,
            Ingress::ReuseportSingle { workers } => workers,
        };
        if self.ingress == Ingress::PerPort || self.connections == 0 {
            1
        } else if sockets == 0 {
            self.connections as int
        } else if self.connections % sockets == 0 {
            self.connections as int / sockets as int
        } else {
            self.connections as int / sockets as int + 1
        }
    }

    #[must_use]
    pub fn peers_per_ingress_socket(&self) -> (r: usize)
        ensures
            r == self.ingress_peers(),
            r >= 1,
    {
        let sockets: usize = match self.ingress {
            Ingress::PerPort => {
                return 1;
            },
            Ingress::SharedPool(k) => k,
            Ingress::ReuseportMulti(k) => k,
            Ingress::ReuseportSingle { workers } => workers,
        };
        if self.connections == 0 {
            return 1;
        }
        if sockets == 0 {
            return self.connections;
        }
        let whole: usize = self.connections / sockets;
        assert(self.connections == sockets * whole + self.connections % sockets && whole
            <= self.connections && (self.connections % sockets != 0 ==> whole < self.connections))
            by (nonlinear_arith)
            requires
                sockets > 0,
                self.connections > 0,
                whole == self.connections / sockets,
        ;
        if self.connections % sockets == 0 {
            assert(whole >= 1) by (nonlinear_arith)
                requires
                    self.connections == sockets * whole,
                    self.connections > 0,
            ;
            whole
        } else {
            whole + 1
        }
    }

    /// How many peers share one of this process's UDP sockets.
    #[must_use]
    pub fn peers_per_socket(&self) -> (r: usize)
        ensures
            r == match self.mode {
                Mode::Receiver => self.ingress_peers(),
                Mode::Sender => if self.egress == Egress::SharedSocket && self.connections > 0 {
                    self.connections as int
                } else {
                    1
                },
            },
    {
        match self.mode {
            Mode::Receiver => self.peers_per_ingress_socket(),
            Mode::Sender => if self.egress == Egress::SharedSocket && self.connections > 0 {
                self.connections
            } else {
                1
            },
        }
    }

    /// The pooled ingress that a receiver of more than one connection runs, if it
    /// runs one; otherwise every connection has its own port.
    pub fn dispatch_ingress(&self) -> (r: Option<Ingress>)
        ensures
            (r is Some) == (self.mode == Mode::Receiver && self.connections > 1 && match self.ingress {
                Ingress::PerPort => false,
                Ingress::SharedPool(k) => k >= 1,
                Ingress::ReuseportMulti(k) => k >= 1,
                Ingress::ReuseportSingle { workers } => workers >= 1,
            }),
            r is Some ==> r->0 == self.ingress,
    {
        if self.mode != Mode::Receiver || self.connections <= 1 {
            return None;
        }
        let count: usize = match self.ingress {
            Ingress::PerPort => 0,
            Ingress::SharedPool(k) => k,
            Ingress::ReuseportMulti(k) => k,
            Ingress::ReuseportSingle { workers } => workers,
        };
        if count >= 1 {
            Some(self.ingress)
        } else {
            None
        }
    }
}

/// The socket id of caller `index` in process `pid`: never zero.
pub open spec fn socket_id(pid: u32, index: u32) -> int {
    let n = (pid + index + 1) % 0x1_0000_0000;
    if n == 0 {
        1
    } else {
        n
    }
}

/// A socket id for connection `index`, distinct within the process.
#[verifier::truncate]
pub fn caller_socket_id_for(pid: u32, index: usize) -> (r: u32)
    ensures
        r == socket_id(pid, index as u32),
        r != 0,
{
    let i: u32 = #[verifier::truncate] (index as u32);
    let n: u32 = pid.wrapping_add(i).wrapping_add(1);
    if n == 0 {
        1
    } else {
        n
    }
}

/// The two legs of a bonded pair share group, initial sequence and stream identity;
/// the legs of different pairs differ in their group.
pub proof fn legs_share_their_group(pair: u32, other: u32)
    requires
        pair < 0x3fff_ffff,
        other < 0x3fff_ffff,
    ensures
        (2 * pair) / 2 == (2 * pair + 1) / 2,
        pair != other ==> SRTGROUP_MASK | ((pair + 1) as u32) != SRTGROUP_MASK | ((other
            + 1) as u32),
{
    let a = (pair + 1) as u32;
    let b = (other + 1) as u32;
    assert(a < 0x4000_0000u32 && b < 0x4000_0000u32 && a != b ==> 0x4000_0000u32 | a
        != 0x4000_0000u32 | b) by (bit_vector);
}

/// Callers of one process have distinct socket ids, unless numbering runs over the
/// end of the id space.
pub proof fn socket_ids_are_distinct(pid: u32, i: u32, j: u32)
    requires
        i != j,
        pid + i + 1 != 0x1_0000_0000,
        pid + j + 1 != 0x1_0000_0000,
    ensures
        socket_id(pid, i) != socket_id(pid, j),
{
}

/// A bonded configuration that was accepted has room for every pair, and a sender
/// of it can admit both legs of a pair at once.
pub proof fn accepted_bonds_fit(config: &BenchConfig)
    requires
        config.topology_error() is None,
        config.bond_mode != BondMode::Unbonded,
    ensures
        2 * config.bond_pairs <= config.connections,
        config.ingress == Ingress::SharedPool(1),
        config.mode == Mode::Sender ==> config.connect_concurrency >= 2 && config.egress
            == Egress::SharedSocket,
{
}

} // verus!
