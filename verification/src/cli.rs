//! Command line: positional arguments, flags and the values they spell.
use crate::text::{
    has_prefix, lemma_texts_push, parse_bounded, parse_u64, parse_usize, same, split_once,
    split_once_text, starts_with, strip_prefix, texts, unsigned_of,
};
use crate::text_map::TextMap;
use vstd::prelude::*;

verus! {

/// Parsed CLI: positional arguments plus `--flag value` pairs.
///
/// Flag values are consumed even when they don't start with `--`, so
/// `--connections 4` never leaks `4` into the positionals.
#[derive(Debug)]
pub struct Cli {
    pub positional: Vec<String>,
    pub flags: TextMap<String>,
    /// Values for flags that are intentionally repeatable, such as
    /// `--axis name=value`. Ordinary flags are last-value-wins in `flags`.
    pub repeated: TextMap<Vec<String>>,
}

/// What a command line says.
pub struct CliText {
    pub positional: Seq<Seq<char>>,
    pub flags: Map<Seq<char>, Seq<char>>,
    /// The values of every `--axis`, in order.
    pub axes: Seq<Seq<char>>,
}

impl CliText {
    pub open spec fn empty() -> CliText {
        CliText { positional: Seq::empty(), flags: Map::empty(), axes: Seq::empty() }
    }

    /// With one long flag more.
    pub open spec fn with_flag(self, name: Seq<char>, value: Seq<char>) -> CliText {
        if name == "axis"@ {
            CliText { axes: self.axes.push(value), ..self }
        } else {
            CliText { flags: self.flags.insert(name, value), ..self }
        }
    }

    /// The value of a flag, if it is set.
    pub open spec fn flag(self, name: Seq<char>) -> Option<Seq<char>> {
        if self.flags.contains_key(name) {
            Some(self.flags[name])
        } else {
            None
        }
    }

    /// The value of a flag, or the empty text.
    pub open spec fn flag_or_empty(self, name: Seq<char>) -> Seq<char> {
        if self.flags.contains_key(name) {
            self.flags[name]
        } else {
            Seq::empty()
        }
    }

    /// The number that a flag spells, if it spells one of at most `max`.
    pub open spec fn number(self, name: Seq<char>, max: int) -> Option<nat> {
        match self.flag(name) {
            Some(v) => unsigned_of(v, max),
            None => None,
        }
    }
}

/// What `args` from `i` on add to `acc`.
///
/// `--name=value` and `--name value` set a flag, the latter unless the next
/// argument is a flag itself, in which case the value is empty. `name=value` sets a
/// flag too. Everything else is positional.
pub open spec fn parse_from(args: Seq<Seq<char>>, i: int, acc: CliText) -> CliText
    decreases args.len() - i,
{
    if i < 0 || i >= args.len() {
        acc
    } else if has_prefix(args[i], "--"@) {
        let flag = args[i].subrange("--"@.len() as int, args[i].len() as int);
        match split_once_text(flag, '=') {
            Some((name, value)) => parse_from(args, i + 1, acc.with_flag(name, value)),
            None => if i + 1 < args.len() && !has_prefix(args[i + 1], "--"@) {
                parse_from(args, i + 2, acc.with_flag(flag, args[i + 1]))
            } else {
                parse_from(args, i + 1, acc.with_flag(flag, Seq::empty()))
            },
        }
    } else {
        match split_once_text(args[i], '=') {
            Some((name, value)) => parse_from(
                args,
                i + 1,
                CliText { flags: acc.flags.insert(name, value), ..acc },
            ),
            None => parse_from(
                args,
                i + 1,
                CliText { positional: acc.positional.push(args[i]), ..acc },
            ),
        }
    }
}

impl View for Cli {
    type V = CliText;

    open spec fn view(&self) -> CliText {
        CliText {
            positional: texts(self.positional@),
            flags: self.flags.text(),
            axes: if self.repeated@.contains_key("axis"@) {
                texts(self.repeated@["axis"@]@)
            } else {
                Seq::empty()
            },
        }
    }
}

impl Cli {
    pub open spec fn wf(&self) -> bool {
        self.flags.wf() && self.repeated.wf()
    }

    /// Only `--axis` is collected, and only where it is given.
    pub open spec fn collects_axes_only(&self) -> bool {
        forall|k: Seq<char>| #[trigger]
            self.repeated@.contains_key(k) ==> k == "axis"@ && self.repeated@[k]@.len() > 0
    }

    /// Parse `args[1..]`.
    ///
    /// Accepts both `--flag value` / `--flag=value` and `key=value`.
    pub fn parse(args: &Vec<String>) -> (r: Self)
        ensures
            r.wf(),
            r@ == parse_from(texts(args@), 1, CliText::empty()),
            r.collects_axes_only(),
            r.repeated@.contains_key("axis"@) == (r@.axes.len() > 0),
            r@.axes.len() == 0 ==> r.repeated@ == Map::<Seq<char>, Vec<String>>::empty(),
    {
        let mut cli = Cli {
            positional: Vec::new(),
            flags: TextMap::new(),
            repeated: TextMap::new(),
        };
        assert(cli@.positional =~= Seq::<Seq<char>>::empty());
        assert(cli@.flags =~= Map::<Seq<char>, Seq<char>>::empty());
        let mut i: usize = 1;
        while i < args.len()
            invariant
                cli.wf(),
                cli.collects_axes_only(),
                1 <= i,
                parse_from(texts(args@), i as int, cli@) == parse_from(
                    texts(args@),
                    1,
                    CliText::empty(),
                ),
            decreases args@.len() - i,
        {
            let ghost all = texts(args@);
            let tok = &args[i];
            assert(all[i as int] == tok@);
            match strip_prefix(tok.as_str(), "--") {
                Some(flag) => {
                    match split_once(flag.as_str(), '=') {
                        Some((name, value)) => {
                            cli.insert_flag(name, value);
                        },
                        None => {
                            if i + 1 < args.len() && !starts_with(args[i + 1].as_str(), "--") {
                                i += 1;
                                assert(all[i as int] == args@[i as int]@);
                                cli.insert_flag(flag, args[i].clone());
                            } else {
                                if i + 1 < args.len() {
                                    assert(all[i + 1] == args@[i + 1]@);
                                }
                                cli.insert_flag(flag, String::new());
                            }
                        },
                    }
                },
                None => {
                    match split_once(tok.as_str(), '=') {
                        Some((name, value)) => {
                            let ghost before = cli;
                            cli.flags.insert(name, value);
                            assert(cli@.flags =~= before@.flags.insert(name@, value@));
                        },
                        None => {
                            let ghost before = cli;
                            let word = tok.clone();
                            proof {
                                lemma_texts_push(cli.positional@, word);
                            }
                            cli.positional.push(word);
                        },
                    }
                },
            }
            i += 1;
        }
        proof {
            if cli@.axes.len() == 0 {
                assert(cli.repeated@ =~= Map::<Seq<char>, Vec<String>>::empty());
            }
        }
        cli
    }

    fn insert_flag(&mut self, flag: String, value: String)
        requires
            old(self).wf(),
        ensures
            final(self).wf(),
            final(self)@ == old(self)@.with_flag(flag@, value@),
            old(self).collects_axes_only() ==> final(self).collects_axes_only(),
    {
        let ghost start = *self;
        if same(flag.as_str(), "axis") {
            let mut values: Vec<String> = Vec::new();
            if let Some(earlier) = self.repeated.get("axis") {
                let mut i: usize = 0;
                while i < earlier.len()
                    invariant
                        i <= earlier@.len(),
                        texts(values@) == texts(earlier@).take(i as int),
                    decreases earlier@.len() - i,
                {
                    let v = earlier[i].clone();
                    proof {
                        lemma_texts_push(values@, v);
                        assert(texts(earlier@).take(i + 1) =~= texts(earlier@).take(i as int).push(
                            v@,
                        ));
                    }
                    values.push(v);
                    i += 1;
                }
                assert(texts(earlier@).take(earlier@.len() as int) =~= texts(earlier@));
            } else {
                assert(texts(values@) =~= Seq::<Seq<char>>::empty());
            }
            proof {
                lemma_texts_push(values@, value);
            }
            values.push(value);
            self.repeated.insert(flag, values);
        } else {
            self.flags.insert(flag, value);
            assert(self@.flags =~= start@.flags.insert(flag@, value@));
        }
    }

    /// The value of a flag, if it is set.
    pub fn flag(&self, name: &str) -> (r: Option<&String>)
        ensures
            match r {
                Some(v) => self@.flag(name@) == Some(v@),
                None => self@.flag(name@) is None,
            },
    {
        self.flags.get(name)
    }

    /// The value of a flag, or the empty text.
    pub fn scoped_flag(&self, name: &str) -> (r: String)
        ensures
            r@ == self@.flag_or_empty(name@),
    {
        self.flags.text_or_empty(name)
    }

    /// Value of `--connections N` (default 1).
    pub fn connections(&self) -> (r: usize)
        ensures
            r == match self@.number("connections"@, usize::MAX as int) {
                Some(n) => n,
                None => 1,
            },
    {
        self.flag_or("connections", 1)
    }

    /// Value of `--<flag>` as an integer, or the default.
    pub fn flag_or(&self, flag: &str, default: usize) -> (r: usize)
        ensures
            r == match self@.number(flag@, usize::MAX as int) {
                Some(n) => n,
                None => default as nat,
            },
    {
        match self.flag(flag) {
            Some(v) => match parse_usize(v.as_str()) {
                Some(n) => n,
                None => default,
            },
            None => default,
        }
    }

    /// Value of `--<flag>` as a 64-bit integer, or the default.
    pub fn flag_or_u64(&self, flag: &str, default: u64) -> (r: u64)
        ensures
            r == match self@.number(flag@, u64::MAX as int) {
                Some(n) => n,
                None => default as nat,
            },
    {
        match self.flag(flag) {
            Some(v) => match parse_u64(v.as_str()) {
                Some(n) => n,
                None => default,
            },
            None => default,
        }
    }

    /// Value of `--<flag>` as a 16-bit integer, or the default.
    pub fn flag_or_u16(&self, flag: &str, default: u16) -> (r: u16)
        ensures
            r == match self@.number(flag@, u16::MAX as int) {
                Some(n) => n,
                None => default as nat,
            },
    {
        match self.flag(flag) {
            Some(v) => match parse_bounded(v.as_str(), u16::MAX as u64) {
                Some(n) => n as u16,
                None => default,
            },
            None => default,
        }
    }
}

/// A flag that appears again replaces its earlier value; `--axis` collects.
pub proof fn later_flags_win(c: CliText, name: Seq<char>, first: Seq<char>, second: Seq<char>)
    ensures
        name != "axis"@ ==> c.with_flag(name, first).with_flag(name, second) == c.with_flag(
            name,
            second,
        ),
        name != "axis"@ ==> c.with_flag(name, second).flag(name) == Some(second),
        name == "axis"@ ==> c.with_flag(name, first).with_flag(name, second).axes == c.axes.push(
            first,
        ).push(second),
{
    if name != "axis"@ {
        assert(c.flags.insert(name, first).insert(name, second) =~= c.flags.insert(name, second));
    }
}

// ---------------------------------------------------------------------------
// Named values
// ---------------------------------------------------------------------------

/// The I/O runtime that drives a role.
#[derive(Clone, Copy, PartialEq, Eq, Debug, Structural)]
pub enum Runtime {
    Mio,
    Tokio,
    Smol,
    Monoio,
    Glommio,
    Compio,
}

pub open spec fn runtime_named(s: Seq<char>) -> Option<Runtime> {
    if s == "mio"@ {
        Some(Runtime::Mio)
    } else if s == "tokio"@ {
        Some(Runtime::Tokio)
    } else if s == "smol"@ {
        Some(Runtime::Smol)
    } else if s == "monoio"@ {
        Some(Runtime::Monoio)
    } else if s == "glommio"@ {
        Some(Runtime::Glommio)
    } else if s == "compio"@ {
        Some(Runtime::Compio)
    } else {
        None
    }
}

impl Runtime {
    pub open spec fn text(self) -> Seq<char> {
        match self {
            Runtime::Mio => "mio"@,
            Runtime::Tokio => "tokio"@,
            Runtime::Smol => "smol"@,
            Runtime::Monoio => "monoio"@,
            Runtime::Glommio => "glommio"@,
            Runtime::Compio => "compio"@,
        }
    }

    pub fn parse(s: &str) -> (r: Option<Self>)
        ensures
            r == runtime_named(s@),
    {
        if same(s, "mio") {
            Some(Runtime::Mio)
        } else if same(s, "tokio") {
            Some(Runtime::Tokio)
        } else if same(s, "smol") {
            Some(Runtime::Smol)
        } else if same(s, "monoio") {
            Some(Runtime::Monoio)
        } else if same(s, "glommio") {
            Some(Runtime::Glommio)
        } else if same(s, "compio") {
            Some(Runtime::Compio)
        } else {
            None
        }
    }

    pub fn name(self) -> (r: &'static str)
        ensures
            r@ == self.text(),
    {
        match self {
            Runtime::Mio => "mio",
            Runtime::Tokio => "tokio",
            Runtime::Smol => "smol",
            Runtime::Monoio => "monoio",
            Runtime::Glommio => "glommio",
            Runtime::Compio => "compio",
        }
    }
}

/// Every runtime is found again under its own name.
pub proof fn runtime_names_round_trip(r: Runtime)
    ensures
        runtime_named(r.text()) == Some(r),
{
    reveal_strlit("mio");
    reveal_strlit("tokio");
    reveal_strlit("smol");
    reveal_strlit("monoio");
    reveal_strlit("glommio");
    reveal_strlit("compio");
    assert("mio"@.len() == 3 && "tokio"@.len() == 5 && "smol"@.len() == 4 && "glommio"@.len() == 7);
    assert("monoio"@.len() == 6 && "compio"@.len() == 6);
    assert("monoio"@[0] == 'm' && "compio"@[0] == 'c');
}

#[derive(Clone, Copy, PartialEq, Eq, Debug, Structural)]
pub enum Mode {
    Sender,
    Receiver,
}

/// Encryption mode used by one benchmark cell.
#[derive(Clone, Copy, PartialEq, Eq, Debug, Structural)]
pub enum Encryption {
    Plain,
    Aes128,
    Aes192,
    Aes256,
}

pub open spec fn encryption_named(s: Seq<char>) -> Option<Encryption> {
    if s == "plain"@ {
        Some(Encryption::Plain)
    } else if s == "128"@ {
        Some(Encryption::Aes128)
    } else if s == "192"@ {
        Some(Encryption::Aes192)
    } else if s == "256"@ {
        Some(Encryption::Aes256)
    } else {
        None
    }
}

/// The encryption part of a connection's options.
#[derive(Debug)]
pub struct KeySettings {
    /// Without one the connection is not encrypted, and carries no salt or key.
    pub passphrase: Option<String>,
    pub key_bits: u16,
}

impl Encryption {
    pub open spec fn text(self) -> Seq<char> {
        match self {
            Encryption::Plain => "plain"@,
            Encryption::Aes128 => "128"@,
            Encryption::Aes192 => "192"@,
            Encryption::Aes256 => "256"@,
        }
    }

    pub open spec fn key_bits(self) -> u16 {
        match self {
            Encryption::Plain => 128,
            Encryption::Aes128 => 128,
            Encryption::Aes192 => 192,
            Encryption::Aes256 => 256,
        }
    }

    /// Parse the spelling used by the single-run CLI and matrix axis.
    #[must_use]
    pub fn parse(value: &str) -> (r: Option<Self>)
        ensures
            r == encryption_named(value@),
    {
        if same(value, "plain") {
            Some(Encryption::Plain)
        } else if same(value, "128") {
            Some(Encryption::Aes128)
        } else if same(value, "192") {
            Some(Encryption::Aes192)
        } else if same(value, "256") {
            Some(Encryption::Aes256)
        } else {
            None
        }
    }

    #[must_use]
    pub fn name(self) -> (r: &'static str)
        ensures
            r@ == self.text(),
    {
        match self {
            Encryption::Plain => "plain",
            Encryption::Aes128 => "128",
            Encryption::Aes192 => "192",
            Encryption::Aes256 => "256",
        }
    }

    /// The benchmark's shared passphrase and the selected AES key length.
    pub fn apply_to(self) -> (r: KeySettings)
        ensures
            r.key_bits == self.key_bits(),
            (r.passphrase is Some) == (self != Encryption::Plain),
            r.passphrase is Some ==> r.passphrase->0@ == "srt-bench-encryption"@,
    {
        match self {
            Encryption::Plain => KeySettings { passphrase: None, key_bits: 128 },
            Encryption::Aes128 => KeySettings {
                passphrase: Some("srt-bench-encryption".to_owned()),
                key_bits: 128,
            },
            Encryption::Aes192 => KeySettings {
                passphrase: Some("srt-bench-encryption".to_owned()),
                key_bits: 192,
            },
            Encryption::Aes256 => KeySettings {
                passphrase: Some("srt-bench-encryption".to_owned()),
                key_bits: 256,
            },
        }
    }
}

/// Every encryption mode is found again under its own name.
pub proof fn encryption_names_round_trip(e: Encryption)
    ensures
        encryption_named(e.text()) == Some(e),
{
    reveal_strlit("plain");
    reveal_strlit("128");
    reveal_strlit("192");
    reveal_strlit("256");
    assert("128"@[1] == '2' && "192"@[1] == '9' && "256"@[1] == '5');
}

/// Whether queued datagrams are read in batches.
#[derive(Clone, Copy, PartialEq, Eq, Debug, Structural)]
pub enum Batching {
    On,
    Off,
}

/// Listener ingress topology.
#[derive(Clone, Copy, PartialEq, Eq, Debug, Structural)]
pub enum Ingress {
    PerPort,
    SharedPool(usize),
    ReuseportMulti(usize),
    ReuseportSingle { workers: usize },
}

/// Caller-side socket topology.
#[derive(Clone, Copy, PartialEq, Eq, Debug, Structural)]
pub enum Egress {
    PerConnection,
    SharedSocket,
}

impl Default for Egress {
    fn default() -> (r: Self)
        ensures
            r == Egress::PerConnection,
    {
        Egress::PerConnection
    }
}

/// Bond group type to advertise in the sender's handshake extension.
#[derive(Clone, Copy, PartialEq, Eq, Debug, Structural)]
pub enum BondMode {
    Unbonded,
    Broadcast,
    Backup,
}

/// Which connections get their own socket once connected.
#[derive(Clone, Copy, PartialEq, Eq, Debug, Structural)]
pub enum Promotion {
    Never,
    Relocate,
    Bonded,
    All,
}

/// What happens to a datagram that the socket would not take.
#[derive(Clone, Copy, PartialEq, Eq, Debug, Structural)]
pub enum WouldBlockPolicy {
    Retain,
    Drop,
}

/// How SRT is told to pace the source.
#[derive(Clone, Copy, PartialEq, Eq, Debug, Structural)]
pub enum BandwidthPolicy {
    ProtocolDefault,
    LegacySourceFixed,
    Fixed(u64),
    InputRelative { overhead_percent: u8 },
}

/// Role-scoped values for axes the harness split, as recorded in results.
#[derive(Debug)]
pub struct PeerTopology {
    pub recv_runtime: String,
    pub send_runtime: String,
    pub recv_ingress: String,
    pub send_ingress: String,
    pub recv_workers: String,
    pub send_workers: String,
    pub recv_cpus: String,
    pub send_cpus: String,
}

/// Link conditions to emulate, one field per `--link-*` flag. Empty means "leave it
/// alone".
#[derive(Debug)]
pub struct Link {
    /// One-way latency, e.g. `25ms`.
    pub delay: String,
    /// Variation around `delay`; requires it.
    pub jitter: String,
    /// e.g. `1%`.
    pub loss: String,
    /// A hard bottleneck, e.g. `100mbit`.
    pub rate: String,
    pub reorder: String,
    pub duplicate: String,
    pub corrupt: String,
    /// The emulator's own backlog in packets.
    pub limit: String,
}

/// `s` without any number of leading `link-`.
pub open spec fn without_link(s: Seq<char>) -> Seq<char>
    decreases s.len(),
{
    if "link-"@.len() > 0 && has_prefix(s, "link-"@) {
        without_link(s.subrange("link-"@.len() as int, s.len() as int))
    } else {
        s
    }
}

pub fn trim_link(s: &str) -> (r: String)
    ensures
        r@ == without_link(s@),
    decreases s@.len(),
{
    proof {
        reveal_strlit("link-");
    }
    match strip_prefix(s, "link-") {
        Some(rest) => trim_link(rest.as_str()),
        None => s.to_owned(),
    }
}

impl Link {
    /// The field that a knob's name stands for.
    pub open spec fn field(&self, knob: Seq<char>) -> Seq<char> {
        if knob == "delay"@ {
            self.delay@
        } else if knob == "jitter"@ {
            self.jitter@
        } else if knob == "loss"@ {
            self.loss@
        } else if knob == "rate"@ {
            self.rate@
        } else if knob == "reorder"@ {
            self.reorder@
        } else if knob == "duplicate"@ {
            self.duplicate@
        } else if knob == "corrupt"@ {
            self.corrupt@
        } else if knob == "limit"@ {
            self.limit@
        } else {
            Seq::empty()
        }
    }

    /// Value for one `--link-*` flag name, as the harness records it.
    #[must_use]
    pub fn get(&self, flag: &str) -> (r: &str)
        ensures
            r@ == self.field(without_link(flag@)),
    {
        let knob = trim_link(flag);
        if same(knob.as_str(), "delay") {
            self.delay.as_str()
        } else if same(knob.as_str(), "jitter") {
            self.jitter.as_str()
        } else if same(knob.as_str(), "loss") {
            self.loss.as_str()
        } else if same(knob.as_str(), "rate") {
            self.rate.as_str()
        } else if same(knob.as_str(), "reorder") {
            self.reorder.as_str()
        } else if same(knob.as_str(), "duplicate") {
            self.duplicate.as_str()
        } else if same(knob.as_str(), "corrupt") {
            self.corrupt.as_str()
        } else if same(knob.as_str(), "limit") {
            self.limit.as_str()
        } else {
            proof {
                reveal_strlit("");
                assert(""@ =~= Seq::<char>::empty());
            }
            ""
        }
    }
}

} // verus!
