//! Reading the capacity model's inputs from a command line and a plan's cell.
//!
//! Fractions stay as the text that was given, once it is known to be a number.
use crate::cli::{BandwidthPolicy, Cli, CliText, Egress, Mode};
use crate::config::{BenchConfig, bandwidth_spelled, scaled};
use crate::model::{
    AdmissionEnvelope, Availability, BondMode, CLASSIFIER_POLICY_REVISION, EncryptionMode,
    PAYLOAD_SIZE, SrtBandwidthPolicy,
};
use crate::text::{
    agrees, chars_of, concat, concat3, debug_quote, debug_text, decimal, first_index, float_text,
    has_prefix, has_suffix, is_float_text, lemma_first_index, parse_u64, render, run_together, same,
    slices, split_once_text, string_of, strip_prefix, strip_suffix, unsigned_of,
};
use crate::text_map::TextMap;
use vstd::prelude::*;

verus! {

/// The text of a value that may be absent.
pub open spec fn given(v: Option<String>) -> Option<Seq<char>> {
    match v {
        Some(s) => Some(s@),
        None => None,
    }
}

/// The value that a cell, or else the command line, gives to one name. A cell's value
/// may be scoped to either role.
pub open spec fn value_named(
    cli: CliText,
    cell: Map<Seq<char>, Seq<char>>,
    name: Seq<char>,
) -> Option<Seq<char>> {
    if cell.contains_key(name) {
        Some(cell[name])
    } else if cell.contains_key("send-"@ + name) {
        Some(cell["send-"@ + name])
    } else if cell.contains_key("recv-"@ + name) {
        Some(cell["recv-"@ + name])
    } else {
        cli.flag(name)
    }
}

/// The first of two values that is there.
pub open spec fn first_given(a: Option<Seq<char>>, b: Option<Seq<char>>) -> Option<Seq<char>> {
    if a is Some {
        a
    } else {
        b
    }
}

/// The value under a name, or else under its alias.
pub open spec fn value_either(
    cli: CliText,
    cell: Map<Seq<char>, Seq<char>>,
    name: Seq<char>,
    alias: Seq<char>,
) -> Option<Seq<char>> {
    first_given(value_named(cli, cell, name), value_named(cli, cell, alias))
}

fn scoped_value(cell: &TextMap<String>, scope: &str, name: &str) -> (r: Option<String>)
    ensures
        given(r) == if cell.text().contains_key(scope@ + name@) {
            Some(cell.text()[scope@ + name@])
        } else {
            None
        },
{
    let mut key = scope.to_owned();
    key.append(name);
    match cell.get(key.as_str()) {
        Some(v) => Some(v.clone()),
        None => None,
    }
}

/// The value that a cell, or else the command line, gives to one name.
pub fn value(cli: &Cli, cell: &TextMap<String>, name: &str) -> (r: Option<String>)
    ensures
        given(r) == value_named(cli@, cell.text(), name@),
{
    if let Some(v) = cell.get(name) {
        return Some(v.clone());
    }
    if let Some(v) = scoped_value(cell, "send-", name) {
        return Some(v);
    }
    if let Some(v) = scoped_value(cell, "recv-", name) {
        return Some(v);
    }
    match cli.flag(name) {
        Some(v) => Some(v.clone()),
        None => None,
    }
}

/// The value under a name, or else under its alias.
pub fn value_or_alias(cli: &Cli, cell: &TextMap<String>, name: &str, alias: &str) -> (r: Option<
    String,
>)
    ensures
        given(r) == value_either(cli@, cell.text(), name@, alias@),
{
    match value(cli, cell, name) {
        Some(v) => Some(v),
        None => value(cli, cell, alias),
    }
}

/// The error for a value that is not what it should be.
pub open spec fn unreadable(what: Seq<char>, raw: Seq<char>) -> Seq<char> {
    what + debug_text(raw)
}

fn cannot_read(what: &str, raw: &str) -> (r: String)
    ensures
        r@ == unreadable(what@, raw@),
{
    let mut out = what.to_owned();
    out.append(debug_quote(raw).as_str());
    out
}

/// A whole number, or the default where none is given.
pub open spec fn integer_or(raw: Option<Seq<char>>, default: u64) -> Result<u64, Seq<char>> {
    match raw {
        None => Ok(default),
        Some(s) => match unsigned_of(s, u64::MAX as int) {
            Some(n) => Ok(n as u64),
            None => Err(unreadable("invalid integer "@, s)),
        },
    }
}

/// A whole number, or the default where none is given.
pub fn value_u64(raw: &Option<String>, default: u64) -> (r: Result<u64, String>)
    ensures
        agrees(r, integer_or(given(*raw), default)),
{
    match raw {
        None => Ok(default),
        Some(s) => match parse_u64(s.as_str()) {
            Some(n) => Ok(n),
            None => Err(cannot_read("invalid integer ", s.as_str())),
        },
    }
}

/// The text of a number, if one is given; an error if what is given is not one.
pub open spec fn number_given(raw: Option<Seq<char>>, what: Seq<char>) -> Result<
    Option<Seq<char>>,
    Seq<char>,
> {
    match raw {
        None => Ok(None),
        Some(s) => if is_float_text(s) {
            Ok(Some(s))
        } else {
            Err(unreadable(what, s))
        },
    }
}

/// Whether an outcome is the optional text that `want` describes.
pub open spec fn agrees_text(
    got: Result<Option<String>, String>,
    want: Result<Option<Seq<char>>, Seq<char>>,
) -> bool {
    match (got, want) {
        (Ok(a), Ok(b)) => given(a) == b,
        (Err(e), Err(m)) => e@ == m,
        _ => false,
    }
}

fn number_text(raw: Option<String>, what: &str) -> (r: Result<Option<String>, String>)
    ensures
        agrees_text(r, number_given(given(raw), what@)),
{
    match raw {
        None => Ok(None),
        Some(s) => if float_text(s.as_str()) {
            Ok(Some(s))
        } else {
            Err(cannot_read(what, s.as_str()))
        },
    }
}

/// The number that a cell, or else the command line, gives to a name or its alias.
pub fn value_f64(cli: &Cli, cell: &TextMap<String>, name: &str, alias: &str) -> (r: Result<
    Option<String>,
    String,
>)
    ensures
        agrees_text(
            r,
            number_given(value_either(cli@, cell.text(), name@, alias@), "invalid number "@),
        ),
{
    number_text(value_or_alias(cli, cell, name, alias), "invalid number ")
}

/// The error for a flag that does not read.
pub open spec fn bad_flag(name: Seq<char>) -> Seq<char> {
    "invalid --"@ + name + " "@
}

/// The number that a flag gives, if it is set.
pub fn optional_f64(cli: &Cli, name: &str) -> (r: Result<Option<String>, String>)
    ensures
        agrees_text(r, number_given(cli@.flag(name@), bad_flag(name@))),
{
    let what = concat3("invalid --", name, " ");
    match cli.flag(name) {
        Some(v) => number_text(Some(v.clone()), what.as_str()),
        None => Ok(None),
    }
}

/// The whole number that a flag gives, if it is set.
pub open spec fn integer_flag(cli: CliText, name: Seq<char>) -> Result<Option<u64>, Seq<char>> {
    match cli.flag(name) {
        None => Ok(None),
        Some(s) => match unsigned_of(s, u64::MAX as int) {
            Some(n) => Ok(Some(n as u64)),
            None => Err(unreadable(bad_flag(name), s)),
        },
    }
}

/// The whole number that a flag gives, if it is set.
pub fn optional_u64(cli: &Cli, name: &str) -> (r: Result<Option<u64>, String>)
    ensures
        agrees(r, integer_flag(cli@, name@)),
{
    match cli.flag(name) {
        None => Ok(None),
        Some(s) => match parse_u64(s.as_str()) {
            Some(n) => Ok(Some(n)),
            None => {
                let what = concat3("invalid --", name, " ");
                Err(cannot_read(what.as_str(), s.as_str()))
            },
        },
    }
}

/// The policy's thresholds as the command line gives them.
#[derive(Debug)]
pub struct PolicyArgs {
    pub revision: String,
    pub minimum_window_headroom_packets: Option<String>,
    pub minimum_recovery_margin_ms: Option<String>,
    pub minimum_socket_horizon_seconds: Option<String>,
    pub max_host_pps_utilization: Option<String>,
    pub max_nic_utilization: Option<String>,
    pub max_control_pps: Option<String>,
    pub max_admission_waves: Option<u64>,
}

/// What a policy says.
pub struct PolicyText {
    pub revision: Seq<char>,
    pub minimum_window_headroom_packets: Option<Seq<char>>,
    pub minimum_recovery_margin_ms: Option<Seq<char>>,
    pub minimum_socket_horizon_seconds: Option<Seq<char>>,
    pub max_host_pps_utilization: Option<Seq<char>>,
    pub max_nic_utilization: Option<Seq<char>>,
    pub max_control_pps: Option<Seq<char>>,
    pub max_admission_waves: Option<u64>,
}

impl View for PolicyArgs {
    type V = PolicyText;

    open spec fn view(&self) -> PolicyText {
        PolicyText {
            revision: self.revision@,
            minimum_window_headroom_packets: given(self.minimum_window_headroom_packets),
            minimum_recovery_margin_ms: given(self.minimum_recovery_margin_ms),
            minimum_socket_horizon_seconds: given(self.minimum_socket_horizon_seconds),
            max_host_pps_utilization: given(self.max_host_pps_utilization),
            max_nic_utilization: given(self.max_nic_utilization),
            max_control_pps: given(self.max_control_pps),
            max_admission_waves: self.max_admission_waves,
        }
    }
}

/// The first of the policy's flags that does not read, if there is one.
pub open spec fn policy_error(cli: CliText) -> Option<Seq<char>> {
    let n = |name: Seq<char>| number_given(cli.flag(name), bad_flag(name));
    if n("min-window-headroom"@) is Err {
        Some(n("min-window-headroom"@)->Err_0)
    } else if n("min-recovery-margin-ms"@) is Err {
        Some(n("min-recovery-margin-ms"@)->Err_0)
    } else if n("min-socket-horizon-s"@) is Err {
        Some(n("min-socket-horizon-s"@)->Err_0)
    } else if n("max-host-utilization"@) is Err {
        Some(n("max-host-utilization"@)->Err_0)
    } else if n("max-nic-utilization"@) is Err {
        Some(n("max-nic-utilization"@)->Err_0)
    } else if n("max-control-pps"@) is Err {
        Some(n("max-control-pps"@)->Err_0)
    } else if integer_flag(cli, "max-admission-waves"@) is Err {
        Some(integer_flag(cli, "max-admission-waves"@)->Err_0)
    } else {
        None
    }
}

/// The policy of a command line; what is not given keeps its default.
pub open spec fn policy_given(cli: CliText) -> PolicyText {
    PolicyText {
        revision: match cli.flag("policy-rev"@) {
            Some(v) => v,
            None => CLASSIFIER_POLICY_REVISION@,
        },
        minimum_window_headroom_packets: cli.flag("min-window-headroom"@),
        minimum_recovery_margin_ms: cli.flag("min-recovery-margin-ms"@),
        minimum_socket_horizon_seconds: cli.flag("min-socket-horizon-s"@),
        max_host_pps_utilization: cli.flag("max-host-utilization"@),
        max_nic_utilization: cli.flag("max-nic-utilization"@),
        max_control_pps: cli.flag("max-control-pps"@),
        max_admission_waves: integer_flag(cli, "max-admission-waves"@)->Ok_0,
    }
}

/// Reads the policy's thresholds.
pub fn policy_from_cli(cli: &Cli) -> (r: Result<PolicyArgs, String>)
    ensures
        match (r, policy_error(cli@)) {
            (Ok(p), None) => p@ == policy_given(cli@),
            (Err(e), Some(m)) => e@ == m,
            _ => false,
        },
{
    let revision = match cli.flag("policy-rev") {
        Some(v) => v.clone(),
        None => CLASSIFIER_POLICY_REVISION.to_owned(),
    };
    let minimum_window_headroom_packets = match optional_f64(cli, "min-window-headroom") {
        Ok(v) => v,
        Err(e) => return Err(e),
    };
    let minimum_recovery_margin_ms = match optional_f64(cli, "min-recovery-margin-ms") {
        Ok(v) => v,
        Err(e) => return Err(e),
    };
    let minimum_socket_horizon_seconds = match optional_f64(cli, "min-socket-horizon-s") {
        Ok(v) => v,
        Err(e) => return Err(e),
    };
    let max_host_pps_utilization = match optional_f64(cli, "max-host-utilization") {
        Ok(v) => v,
        Err(e) => return Err(e),
    };
    let max_nic_utilization = match optional_f64(cli, "max-nic-utilization") {
        Ok(v) => v,
        Err(e) => return Err(e),
    };
    let max_control_pps = match optional_f64(cli, "max-control-pps") {
        Ok(v) => v,
        Err(e) => return Err(e),
    };
    let max_admission_waves = match optional_u64(cli, "max-admission-waves") {
        Ok(v) => v,
        Err(e) => return Err(e),
    };
    Ok(
        PolicyArgs {
            revision,
            minimum_window_headroom_packets,
            minimum_recovery_margin_ms,
            minimum_socket_horizon_seconds,
            max_host_pps_utilization,
            max_nic_utilization,
            max_control_pps,
            max_admission_waves,
        },
    )
}

/// A policy whose thresholds are rendered to seventeen places.
#[derive(Debug)]
pub struct PolicyThresholds {
    pub revision: String,
    pub window: String,
    pub recovery: String,
    pub socket: String,
    pub host: String,
    pub nic: String,
    pub control: Option<String>,
    pub waves: Option<u64>,
}

/// A limit, or that there is none.
pub open spec fn limit_text(v: Option<Seq<char>>) -> Seq<char> {
    match v {
        Some(s) => s,
        None => "none"@,
    }
}

/// The rendered number of waves.
pub open spec fn waves_text(v: Option<u64>) -> Option<Seq<char>> {
    match v {
        Some(n) => Some(decimal(n as nat)),
        None => None,
    }
}

/// The names and thresholds of a policy.
pub open spec fn policy_fingerprint_parts(p: PolicyThresholds) -> Seq<Seq<char>> {
    seq![
        "revision="@,
        p.revision@,
        ";window="@,
        p.window@,
        ";recovery="@,
        p.recovery@,
        ";socket="@,
        p.socket@,
        ";host="@,
        p.host@,
        ";nic="@,
        p.nic@,
        ";control="@,
        limit_text(given(p.control)),
        ";waves="@,
        limit_text(waves_text(p.waves)),
    ]
}

/// Identity of the complete policy, not only its label.
pub open spec fn policy_fingerprint_text(p: PolicyThresholds) -> Seq<char> {
    run_together(policy_fingerprint_parts(p))
}

/// Identity of the complete policy, not only its label.
pub fn policy_fingerprint(p: &PolicyThresholds) -> (r: String)
    ensures
        r@ == policy_fingerprint_text(*p),
{
    let control = match &p.control {
        Some(s) => s.clone(),
        None => "none".to_owned(),
    };
    let waves = match p.waves {
        Some(n) => render(n),
        None => "none".to_owned(),
    };
    let parts: Vec<&str> = vec![
        "revision=",
        p.revision.as_str(),
        ";window=",
        p.window.as_str(),
        ";recovery=",
        p.recovery.as_str(),
        ";socket=",
        p.socket.as_str(),
        ";host=",
        p.host.as_str(),
        ";nic=",
        p.nic.as_str(),
        ";control=",
        control.as_str(),
        ";waves=",
        waves.as_str(),
    ];
    assert(slices(parts@) =~= seq![
        "revision="@,
        p.revision@,
        ";window="@,
        p.window@,
        ";recovery="@,
        p.recovery@,
        ";socket="@,
        p.socket@,
        ";host="@,
        p.host@,
        ";nic="@,
        p.nic@,
        ";control="@,
        limit_text(given(p.control)),
        ";waves="@,
        limit_text(waves_text(p.waves)),
    ]);
    concat(&parts)
}

// ---------------------------------------------------------------------------
// Spellings
// ---------------------------------------------------------------------------

/// The text before and after the first `:` or `=`, whichever comes first.
pub open spec fn split_at_mark(s: Seq<char>) -> Option<(Seq<char>, Seq<char>)> {
    let colon = first_index(s, ':');
    let equals = first_index(s, '=');
    if colon < equals {
        split_once_text(s, ':')
    } else {
        split_once_text(s, '=')
    }
}

fn split_mark(s: &str) -> (r: Option<(String, String)>)
    ensures
        match (r, split_at_mark(s@)) {
            (Some(got), Some(want)) => got.0@ == want.0 && got.1@ == want.1,
            (None, None) => true,
            _ => false,
        },
{
    let chars = chars_of(s);
    let n: usize = chars.len();
    let mut i: usize = 0;
    while i < n
        invariant
            i <= n == chars@.len(),
            chars@ == s@,
            forall|j: int| 0 <= j < i ==> s@[j] != ':' && s@[j] != '=',
        decreases n - i,
    {
        if chars[i] == ':' || chars[i] == '=' {
            proof {
                lemma_first_index_bounds(s@, ':');
                lemma_first_index_bounds(s@, '=');
                if s@[i as int] == ':' {
                    lemma_first_index(s@, ':', i as int);
                } else {
                    lemma_first_index(s@, '=', i as int);
                }
            }
            return Some((string_of(&chars, 0, i), string_of(&chars, i + 1, n)));
        }
        i += 1;
    }
    proof {
        lemma_first_index(s@, ':', n as int);
        lemma_first_index(s@, '=', n as int);
    }
    None
}

proof fn lemma_first_index_bounds(s: Seq<char>, c: char)
    ensures
        0 <= first_index(s, c) <= s.len(),
        first_index(s, c) < s.len() ==> s[first_index(s, c)] == c,
    decreases s.len(),
{
    if s.len() > 0 && s[0] != c {
        lemma_first_index_bounds(s.drop_first(), c);
    }
}

/// The encryption that a text names.
pub open spec fn encryption_spelled(s: Seq<char>) -> Result<EncryptionMode, Seq<char>> {
    if s == "plain"@ {
        Ok(EncryptionMode::Plain)
    } else if s == "128"@ {
        Ok(EncryptionMode::Aes128)
    } else if s == "192"@ {
        Ok(EncryptionMode::Aes192)
    } else if s == "256"@ {
        Ok(EncryptionMode::Aes256)
    } else {
        Err(unreadable("invalid encryption "@, s))
    }
}

/// Reads an encryption mode.
pub fn parse_encryption_mode(s: &str) -> (r: Result<EncryptionMode, String>)
    ensures
        agrees(r, encryption_spelled(s@)),
{
    if same(s, "plain") {
        Ok(EncryptionMode::Plain)
    } else if same(s, "128") {
        Ok(EncryptionMode::Aes128)
    } else if same(s, "192") {
        Ok(EncryptionMode::Aes192)
    } else if same(s, "256") {
        Ok(EncryptionMode::Aes256)
    } else {
        Err(cannot_read("invalid encryption ", s))
    }
}

/// The bonding mode and number of pairs that a text names.
pub open spec fn bond_spelled(s: Seq<char>) -> Result<(BondMode, u64), Seq<char>> {
    let (mode, count) = match split_at_mark(s) {
        Some(p) => p,
        None => (s, "0"@),
    };
    if mode == "none"@ {
        Ok((BondMode::Unbonded, 0))
    } else if mode != "broadcast"@ && mode != "backup"@ {
        Err(unreadable("invalid bond "@, s))
    } else {
        match unsigned_of(count, u64::MAX as int) {
            Some(n) => Ok(
                (
                    if mode == "broadcast"@ {
                        BondMode::Broadcast
                    } else {
                        BondMode::Backup
                    },
                    n as u64,
                ),
            ),
            None => Err(unreadable("invalid bond pair count "@, count)),
        }
    }
}

/// Reads a bonding mode and a number of pairs; without a number there are none.
pub fn parse_bond_mode(s: &str) -> (r: Result<(BondMode, u64), String>)
    ensures
        agrees(r, bond_spelled(s@)),
{
    let (mode, count) = match split_mark(s) {
        Some(p) => p,
        None => (s.to_owned(), "0".to_owned()),
    };
    if same(mode.as_str(), "none") {
        return Ok((BondMode::Unbonded, 0));
    }
    let bond = if same(mode.as_str(), "broadcast") {
        BondMode::Broadcast
    } else if same(mode.as_str(), "backup") {
        BondMode::Backup
    } else {
        return Err(cannot_read("invalid bond ", s));
    };
    match parse_u64(count.as_str()) {
        Some(n) => Ok((bond, n)),
        None => Err(cannot_read("invalid bond pair count ", count.as_str())),
    }
}

/// A socket buffer request in bytes; `default` and `0` leave the system's own size.
pub open spec fn socket_bytes(raw: Option<Seq<char>>, default: u64) -> Result<u64, Seq<char>> {
    match raw {
        None => Ok(default),
        Some(s) => if s == "default"@ || s == "0"@ {
            Ok(0)
        } else {
            let (digits, unit) = scaled(s);
            match unsigned_of(digits, u64::MAX as int) {
                Some(n) => if n * unit <= u64::MAX {
                    Ok((n * unit) as u64)
                } else {
                    Err(unreadable("invalid socket buffer "@, s))
                },
                None => Err(unreadable("invalid socket buffer "@, s)),
            }
        },
    }
}

/// Reads a socket buffer request. One too large to count is an error.
pub fn socket_value(raw: &Option<String>, default: u64) -> (r: Result<u64, String>)
    ensures
        agrees(r, socket_bytes(given(*raw), default)),
{
    let s = match raw {
        None => return Ok(default),
        Some(s) => s.as_str(),
    };
    if same(s, "default") || same(s, "0") {
        return Ok(0);
    }
    let chars = chars_of(s);
    let n: usize = chars.len();
    let mut end: usize = n;
    let mut unit: u64 = 1;
    if n > 0 {
        let last = chars[n - 1];
        if last == 'm' || last == 'M' {
            end = n - 1;
            unit = 0x10_0000;
        } else if last == 'k' || last == 'K' {
            end = n - 1;
            unit = 0x400;
        }
    }
    let digits = string_of(&chars, 0, end);
    assert(digits@ =~= scaled(s@).0);
    match parse_u64(digits.as_str()) {
        Some(value) => match value.checked_mul(unit) {
            Some(bytes) => Ok(bytes),
            None => Err(cannot_read("invalid socket buffer ", s)),
        },
        None => Err(cannot_read("invalid socket buffer ", s)),
    }
}

/// Whether a text says that a value does not apply.
pub open spec fn says_not_applicable(s: Seq<char>) -> bool {
    s == "n/a"@ || s == "na"@ || s == "not-applicable"@
}

/// A whole number that may be unknown or not apply; unknown where nothing is given.
pub open spec fn available_integer(raw: Option<Seq<char>>) -> Result<Availability<u64>, Seq<char>> {
    match raw {
        None => Ok(Availability::Unknown),
        Some(s) => if s == "unknown"@ {
            Ok(Availability::Unknown)
        } else if says_not_applicable(s) {
            Ok(Availability::NotApplicable)
        } else {
            match unsigned_of(s, u64::MAX as int) {
                Some(n) => Ok(Availability::Known(n as u64)),
                None => Err(unreadable("invalid availability "@, s)),
            }
        },
    }
}

/// Reads a whole number that may be unknown or not apply.
pub fn availability_u64(raw: &Option<String>) -> (r: Result<Availability<u64>, String>)
    ensures
        agrees(r, available_integer(given(*raw))),
{
    match raw {
        None => Ok(Availability::Unknown),
        Some(s) => {
            let t = s.as_str();
            if same(t, "unknown") {
                Ok(Availability::Unknown)
            } else if same(t, "n/a") || same(t, "na") || same(t, "not-applicable") {
                Ok(Availability::NotApplicable)
            } else {
                match parse_u64(t) {
                    Some(n) => Ok(Availability::Known(n)),
                    None => Err(cannot_read("invalid availability ", t)),
                }
            }
        },
    }
}

/// The text of a number that may be unknown or not apply.
pub open spec fn available_number(raw: Option<Seq<char>>) -> Result<
    Availability<Seq<char>>,
    Seq<char>,
> {
    match raw {
        None => Ok(Availability::Unknown),
        Some(s) => if s == "unknown"@ {
            Ok(Availability::Unknown)
        } else if says_not_applicable(s) {
            Ok(Availability::NotApplicable)
        } else if is_float_text(s) {
            Ok(Availability::Known(s))
        } else {
            Err(unreadable("invalid availability "@, s))
        },
    }
}

/// What an available text says.
pub open spec fn available_text(v: Availability<String>) -> Availability<Seq<char>> {
    match v {
        Availability::Known(s) => Availability::Known(s@),
        Availability::Unknown => Availability::Unknown,
        Availability::NotApplicable => Availability::NotApplicable,
    }
}

/// Reads the text of a number that may be unknown or not apply.
pub fn availability_f64(raw: &Option<String>) -> (r: Result<Availability<String>, String>)
    ensures
        match (r, available_number(given(*raw))) {
            (Ok(a), Ok(b)) => available_text(a) == b,
            (Err(e), Err(m)) => e@ == m,
            _ => false,
        },
{
    match raw {
        None => Ok(Availability::Unknown),
        Some(s) => {
            let t = s.as_str();
            if same(t, "unknown") {
                Ok(Availability::Unknown)
            } else if same(t, "n/a") || same(t, "na") || same(t, "not-applicable") {
                Ok(Availability::NotApplicable)
            } else if float_text(t) {
                Ok(Availability::Known(s.clone()))
            } else {
                Err(cannot_read("invalid availability ", t))
            }
        },
    }
}

/// The text of a duration in milliseconds, without its unit, if it is a number.
pub open spec fn duration_digits(raw: Seq<char>) -> Option<Seq<char>> {
    let digits = if has_suffix(raw, "ms"@) {
        raw.subrange(0, raw.len() - 2)
    } else {
        raw
    };
    if is_float_text(digits) {
        Some(digits)
    } else {
        None
    }
}

/// Reads a duration in milliseconds; whether it is negative is not asked here.
pub fn duration_text(raw: &str) -> (r: Option<String>)
    ensures
        given(r) == duration_digits(raw@),
{
    proof {
        reveal_strlit("ms");
    }
    let digits = match strip_suffix(raw, "ms") {
        Some(d) => d,
        None => raw.to_owned(),
    };
    if float_text(digits.as_str()) {
        Some(digits)
    } else {
        None
    }
}

/// A probability's number, and whether it is a percentage, if it is a number.
pub open spec fn probability_digits(raw: Seq<char>) -> Option<(Seq<char>, bool)> {
    let percent = has_suffix(raw, "%"@);
    let digits = if percent {
        raw.subrange(0, raw.len() - 1)
    } else {
        raw
    };
    if is_float_text(digits) {
        Some((digits, percent))
    } else {
        None
    }
}

/// Reads a probability; whether it is below one is not asked here.
pub fn probability_text(raw: &str) -> (r: Option<(String, bool)>)
    ensures
        match (r, probability_digits(raw@)) {
            (Some(a), Some(b)) => a.0@ == b.0 && a.1 == b.1,
            (None, None) => true,
            _ => false,
        },
{
    proof {
        reveal_strlit("%");
    }
    let (digits, percent) = match strip_suffix(raw, "%") {
        Some(d) => (d, true),
        None => (raw.to_owned(), false),
    };
    if float_text(digits.as_str()) {
        Some((digits, percent))
    } else {
        None
    }
}

/// How many sockets an ingress names, if it names a number.
pub open spec fn sockets_named(ingress: Seq<char>) -> Option<nat> {
    let pool = match split_at_mark(ingress) {
        Some((kind, count)) => if kind == "shared-pool"@ || kind == "reuseport-multi"@ {
            unsigned_of(count, u64::MAX as int)
        } else {
            None
        },
        None => None,
    };
    if pool is Some {
        pool
    } else if has_prefix(ingress, "reuseport-single:"@) {
        unsigned_of(
            ingress.subrange("reuseport-single:"@.len() as int, ingress.len() as int),
            u64::MAX as int,
        )
    } else {
        None
    }
}

/// How many of `connections` share a socket, at least one: `connections` over
/// `sockets`, rounded up.
pub open spec fn fan_in(connections: u64, sockets: nat) -> int {
    let s = if sockets == 0 {
        1
    } else {
        sockets as int
    };
    let up = (connections + s - 1) / s;
    if up < 1 {
        1
    } else {
        up
    }
}

/// How many peers share a socket; all of them where the ingress names no number.
pub open spec fn fan_in_of(ingress: Seq<char>, connections: u64) -> int {
    fan_in(
        connections,
        match sockets_named(ingress) {
            Some(n) => n,
            None => connections as nat,
        },
    )
}

fn named_sockets(ingress: &str) -> (r: Option<u64>)
    ensures
        match (r, sockets_named(ingress@)) {
            (Some(a), Some(b)) => a == b,
            (None, None) => true,
            _ => false,
        },
{
    if let Some((kind, count)) = split_mark(ingress) {
        if same(kind.as_str(), "shared-pool") || same(kind.as_str(), "reuseport-multi") {
            if let Some(n) = parse_u64(count.as_str()) {
                return Some(n);
            }
        }
    }
    match strip_prefix(ingress, "reuseport-single:") {
        Some(rest) => parse_u64(rest.as_str()),
        None => None,
    }
}

/// How many peers share a socket under an ingress spelling.
pub fn inferred_fan_in(ingress: &str, connections: u64) -> (r: u64)
    ensures
        r == fan_in_of(ingress@, connections),
{
    let named: u64 = match named_sockets(ingress) {
        Some(n) => n,
        None => connections,
    };
    let sockets: u64 = if named == 0 {
        1
    } else {
        named
    };
    let whole: u64 = connections / sockets;
    let rest: u64 = connections % sockets;
    proof {
        let c = connections as int;
        let s = sockets as int;
        let w = whole as int;
        let t = rest as int;
        assert(c == s * w + t && 0 <= t < s && 0 <= w <= c) by (nonlinear_arith)
            requires
                w == c / s,
                t == c % s,
                c >= 0,
                s >= 1,
        ;
        assert(t > 0 ==> w < c) by (nonlinear_arith)
            requires
                c == s * w + t,
                s >= 1,
                w >= 0,
                t >= 0,
        ;
        assert((c + s - 1) / s == if t > 0 {
            w + 1
        } else {
            w
        }) by (nonlinear_arith)
            requires
                c == s * w + t,
                0 <= t < s,
                s >= 1,
        ;
    }
    let up: u64 = if rest > 0 {
        whole + 1
    } else {
        whole
    };
    if up < 1 {
        1
    } else {
        up
    }
}

// ---------------------------------------------------------------------------
// The envelopes
// ---------------------------------------------------------------------------

/// The whole-number part of a workload.
#[derive(Clone, Copy, PartialEq, Eq, Debug, Structural)]
pub struct WorkloadArgs {
    pub source_bps_per_stream: u64,
    pub source_streams: u64,
    pub physical_connections: u64,
    pub logical_streams: u64,
    pub payload_bytes: u64,
    pub bond: BondMode,
}

/// How many streams remain when `pairs` pairs of connections become one each.
pub open spec fn streams_of(connections: u64, pairs: u64) -> u64 {
    let bonded = if pairs < connections / 2 {
        pairs
    } else {
        connections / 2
    };
    (connections - bonded) as u64
}

/// The workload that a command line and a cell give, and the text of its duration in
/// seconds: the first value that does not read is the error.
pub open spec fn workload_given(cli: CliText, cell: Map<Seq<char>, Seq<char>>) -> Result<
    (WorkloadArgs, Option<Seq<char>>),
    Seq<char>,
> {
    let rate = first_given(
        value_either(cli, cell, "source-bps"@, "source-bitrate-bps"@),
        value_named(cli, cell, "bitrate"@),
    );
    let bond = match value_named(cli, cell, "bond"@) {
        Some(s) => s,
        None => "none"@,
    };
    match integer_or(rate, 8_000_000) {
        Err(e) => Err(e),
        Ok(source_bps_per_stream) => match integer_or(value_named(cli, cell, "connections"@), 1) {
            Err(e) => Err(e),
            Ok(physical_connections) => match bond_spelled(bond) {
                Err(e) => Err(e),
                Ok((bond, pairs)) => match integer_or(
                    value_named(cli, cell, "logical-streams"@),
                    streams_of(physical_connections, pairs),
                ) {
                    Err(e) => Err(e),
                    Ok(logical_streams) => match integer_or(
                        value_named(cli, cell, "source-streams"@),
                        logical_streams,
                    ) {
                        Err(e) => Err(e),
                        Ok(source_streams) => match integer_or(
                            value_named(cli, cell, "payload-bytes"@),
                            1316,
                        ) {
                            Err(e) => Err(e),
                            Ok(payload_bytes) => match number_given(
                                value_either(cli, cell, "duration-secs"@, "secs"@),
                                "invalid number "@,
                            ) {
                                Err(e) => Err(e),
                                Ok(duration) => Ok(
                                    (
                                        WorkloadArgs {
                                            source_bps_per_stream,
                                            source_streams,
                                            physical_connections,
                                            logical_streams,
                                            payload_bytes,
                                            bond,
                                        },
                                        duration,
                                    ),
                                ),
                            },
                        },
                    },
                },
            },
        },
    }
}

/// Reads a workload, and the text of its duration in seconds.
pub fn workload_from_cli(cli: &Cli, cell: &TextMap<String>) -> (r: Result<
    (WorkloadArgs, Option<String>),
    String,
>)
    ensures
        match (r, workload_given(cli@, cell.text())) {
            (Ok(a), Ok(b)) => a.0 == b.0 && given(a.1) == b.1,
            (Err(e), Err(m)) => e@ == m,
            _ => false,
        },
{
    let rate = match value_or_alias(cli, cell, "source-bps", "source-bitrate-bps") {
        Some(v) => Some(v),
        None => value(cli, cell, "bitrate"),
    };
    let source_bps_per_stream: u64 = match value_u64(&rate, 8_000_000) {
        Ok(n) => n,
        Err(e) => return Err(e),
    };
    let physical_connections: u64 = match value_u64(&value(cli, cell, "connections"), 1) {
        Ok(n) => n,
        Err(e) => return Err(e),
    };
    let spelled = match value(cli, cell, "bond") {
        Some(s) => s,
        None => "none".to_owned(),
    };
    let (bond, pairs) = match parse_bond_mode(spelled.as_str()) {
        Ok(p) => p,
        Err(e) => return Err(e),
    };
    let bonded: u64 = if pairs < physical_connections / 2 {
        pairs
    } else {
        physical_connections / 2
    };
    let logical_streams: u64 = match value_u64(
        &value(cli, cell, "logical-streams"),
        physical_connections - bonded,
    ) {
        Ok(n) => n,
        Err(e) => return Err(e),
    };
    let source_streams: u64 = match value_u64(
        &value(cli, cell, "source-streams"),
        logical_streams,
    ) {
        Ok(n) => n,
        Err(e) => return Err(e),
    };
    let payload_bytes: u64 = match value_u64(
        &value(cli, cell, "payload-bytes"),
        PAYLOAD_SIZE as u64,
    ) {
        Ok(n) => n,
        Err(e) => return Err(e),
    };
    let duration = match value_f64(cli, cell, "duration-secs", "secs") {
        Ok(d) => d,
        Err(e) => return Err(e),
    };
    Ok(
        (
            WorkloadArgs {
                source_bps_per_stream,
                source_streams,
                physical_connections,
                logical_streams,
                payload_bytes,
                bond,
            },
            duration,
        ),
    )
}

/// The part of the protocol's configuration that can be chosen.
#[derive(Clone, Copy, PartialEq, Eq, Debug, Structural)]
pub struct ProtocolArgs {
    pub bandwidth: SrtBandwidthPolicy,
    pub encryption: EncryptionMode,
    pub flow_window_packets: u32,
    pub receive_window_packets: u32,
    pub tsbpd_latency_ms: u64,
    pub bond: BondMode,
}

/// The low 32 bits of a window.
pub open spec fn window_bits(n: u64) -> u32 {
    (n % 0x1_0000_0000) as u32
}

fn low_bits(n: u64) -> (r: u32)
    ensures
        r == window_bits(n),
{
    (n % 0x1_0000_0000) as u32
}

/// The pacing policy under its model name.
pub open spec fn model_bandwidth(policy: BandwidthPolicy) -> SrtBandwidthPolicy {
    match policy {
        BandwidthPolicy::ProtocolDefault => SrtBandwidthPolicy::ProtocolDefault,
        BandwidthPolicy::LegacySourceFixed => SrtBandwidthPolicy::LegacySourceFixed,
        BandwidthPolicy::Fixed(bps) => SrtBandwidthPolicy::FixedBps(bps),
        BandwidthPolicy::InputRelative { overhead_percent } => SrtBandwidthPolicy::InputRelative {
            overhead_percent,
        },
    }
}

/// The pacing policy that a text names; the default where none is given.
pub open spec fn bandwidth_given(raw: Option<Seq<char>>) -> Result<SrtBandwidthPolicy, Seq<char>> {
    match raw {
        None => Ok(SrtBandwidthPolicy::LegacySourceFixed),
        Some(s) => match bandwidth_spelled(s) {
            Some(p) => Ok(model_bandwidth(p)),
            None => Err(unreadable("invalid --srt-bandwidth "@, s)),
        },
    }
}

/// The protocol settings that a command line and a cell give.
pub open spec fn protocol_given(
    cli: CliText,
    cell: Map<Seq<char>, Seq<char>>,
    bond: BondMode,
) -> Result<ProtocolArgs, Seq<char>> {
    let cipher = match value_named(cli, cell, "encryption"@) {
        Some(s) => s,
        None => "plain"@,
    };
    match bandwidth_given(value_named(cli, cell, "srt-bandwidth"@)) {
        Err(e) => Err(e),
        Ok(bandwidth) => match encryption_spelled(cipher) {
            Err(e) => Err(e),
            Ok(encryption) => match integer_or(
                value_either(cli, cell, "flow-window"@, "flow-window-packets"@),
                8192,
            ) {
                Err(e) => Err(e),
                Ok(flow) => match integer_or(
                    value_either(cli, cell, "receive-window"@, "receive-window-packets"@),
                    8192,
                ) {
                    Err(e) => Err(e),
                    Ok(receive) => match integer_or(
                        value_either(cli, cell, "tsbpd-latency-ms"@, "latency-ms"@),
                        120,
                    ) {
                        Err(e) => Err(e),
                        Ok(tsbpd_latency_ms) => Ok(
                            ProtocolArgs {
                                bandwidth,
                                encryption,
                                flow_window_packets: window_bits(flow),
                                receive_window_packets: window_bits(receive),
                                tsbpd_latency_ms,
                                bond,
                            },
                        ),
                    },
                },
            },
        },
    }
}

/// `shiguredo_srt::DEFAULT_FLOW_WINDOW`, the window that the protocol starts from, in
/// packets: 8192.
#[verifier::external_body]
fn default_flow_window() -> (r: u32)
    ensures
        r == 8192,
{
    shiguredo_srt::DEFAULT_FLOW_WINDOW
}

/// Reads the protocol settings.
pub fn protocol_from_cli(cli: &Cli, cell: &TextMap<String>, bond: BondMode) -> (r: Result<
    ProtocolArgs,
    String,
>)
    ensures
        agrees(r, protocol_given(cli@, cell.text(), bond)),
{
    let bandwidth = match value(cli, cell, "srt-bandwidth") {
        None => SrtBandwidthPolicy::LegacySourceFixed,
        Some(s) => match BandwidthPolicy::parse(s.as_str()) {
            Some(p) => SrtBandwidthPolicy::of_config(p),
            None => return Err(cannot_read("invalid --srt-bandwidth ", s.as_str())),
        },
    };
    let cipher = match value(cli, cell, "encryption") {
        Some(s) => s,
        None => "plain".to_owned(),
    };
    let encryption = match parse_encryption_mode(cipher.as_str()) {
        Ok(m) => m,
        Err(e) => return Err(e),
    };
    let window: u64 = default_flow_window() as u64;
    let flow: u64 = match value_u64(
        &value_or_alias(cli, cell, "flow-window", "flow-window-packets"),
        window,
    ) {
        Ok(n) => n,
        Err(e) => return Err(e),
    };
    let receive: u64 = match value_u64(
        &value_or_alias(cli, cell, "receive-window", "receive-window-packets"),
        window,
    ) {
        Ok(n) => n,
        Err(e) => return Err(e),
    };
    let tsbpd_latency_ms: u64 = match value_u64(
        &value_or_alias(cli, cell, "tsbpd-latency-ms", "latency-ms"),
        120,
    ) {
        Ok(n) => n,
        Err(e) => return Err(e),
    };
    Ok(
        ProtocolArgs {
            bandwidth,
            encryption,
            flow_window_packets: low_bits(flow),
            receive_window_packets: low_bits(receive),
            tsbpd_latency_ms,
            bond,
        },
    )
}

/// What one host offers, as far as it is given.
#[derive(Debug)]
pub struct HostArgs {
    pub requested_socket_buffer_bytes: u64,
    pub effective_receive_socket_buffer_bytes: Availability<u64>,
    pub effective_send_socket_buffer_bytes: Availability<u64>,
    pub socket_fan_in: u64,
    pub host_pps_capacity: Availability<String>,
    pub nic_capacity_bps: Availability<u64>,
    pub cpu_allocation: String,
    pub workers: u64,
}

/// What a host's description says.
pub struct HostText {
    pub requested_socket_buffer_bytes: u64,
    pub effective_receive_socket_buffer_bytes: Availability<u64>,
    pub effective_send_socket_buffer_bytes: Availability<u64>,
    pub socket_fan_in: u64,
    pub host_pps_capacity: Availability<Seq<char>>,
    pub nic_capacity_bps: Availability<u64>,
    pub cpu_allocation: Seq<char>,
    pub workers: u64,
}

impl View for HostArgs {
    type V = HostText;

    open spec fn view(&self) -> HostText {
        HostText {
            requested_socket_buffer_bytes: self.requested_socket_buffer_bytes,
            effective_receive_socket_buffer_bytes: self.effective_receive_socket_buffer_bytes,
            effective_send_socket_buffer_bytes: self.effective_send_socket_buffer_bytes,
            socket_fan_in: self.socket_fan_in,
            host_pps_capacity: available_text(self.host_pps_capacity),
            nic_capacity_bps: self.nic_capacity_bps,
            cpu_allocation: self.cpu_allocation@,
            workers: self.workers,
        }
    }
}

/// The network card's capacity; one that packets never reach has none.
pub open spec fn nic_given(cli: CliText, cell: Map<Seq<char>, Seq<char>>) -> Result<
    Availability<u64>,
    Seq<char>,
> {
    let nic = value_named(cli, cell, "nic"@);
    if nic == Some("loopback"@) || nic == Some("n/a"@) {
        Ok(Availability::NotApplicable)
    } else {
        available_integer(value_either(cli, cell, "nic-capacity-bps"@, "nic-bps-capacity"@))
    }
}

/// The host that a command line and a cell describe.
pub open spec fn host_given(
    cli: CliText,
    cell: Map<Seq<char>, Seq<char>>,
    physical_connections: u64,
) -> Result<HostText, Seq<char>> {
    let ingress = match value_named(cli, cell, "ingress"@) {
        Some(s) => s,
        None => "per-port"@,
    };
    match integer_or(
        value_named(cli, cell, "socket-fan-in"@),
        fan_in_of(ingress, physical_connections) as u64,
    ) {
        Err(e) => Err(e),
        Ok(socket_fan_in) => match socket_bytes(
            value_either(cli, cell, "sock-buf"@, "socket-buffer-bytes"@),
            0,
        ) {
            Err(e) => Err(e),
            Ok(requested_socket_buffer_bytes) => match available_integer(
                value_either(cli, cell, "effective-receive-buffer"@, "effective-rx-buffer"@),
            ) {
                Err(e) => Err(e),
                Ok(effective_receive_socket_buffer_bytes) => match available_integer(
                    value_either(cli, cell, "effective-send-buffer"@, "effective-tx-buffer"@),
                ) {
                    Err(e) => Err(e),
                    Ok(effective_send_socket_buffer_bytes) => match nic_given(cli, cell) {
                        Err(e) => Err(e),
                        Ok(nic_capacity_bps) => match available_number(
                            value_either(cli, cell, "host-pps-capacity"@, "host-pps"@),
                        ) {
                            Err(e) => Err(e),
                            Ok(host_pps_capacity) => match integer_or(
                                value_named(cli, cell, "workers"@),
                                1,
                            ) {
                                Err(e) => Err(e),
                                Ok(workers) => Ok(
                                    HostText {
                                        requested_socket_buffer_bytes,
                                        effective_receive_socket_buffer_bytes,
                                        effective_send_socket_buffer_bytes,
                                        socket_fan_in,
                                        host_pps_capacity,
                                        nic_capacity_bps,
                                        cpu_allocation: match value_named(cli, cell, "cpus"@) {
                                            Some(s) => s,
                                            None => "unspecified"@,
                                        },
                                        workers,
                                    },
                                ),
                            },
                        },
                    },
                },
            },
        },
    }
}

fn nic_from_cli(cli: &Cli, cell: &TextMap<String>) -> (r: Result<Availability<u64>, String>)
    ensures
        agrees(r, nic_given(cli@, cell.text())),
{
    if let Some(nic) = value(cli, cell, "nic") {
        if same(nic.as_str(), "loopback") || same(nic.as_str(), "n/a") {
            return Ok(Availability::NotApplicable);
        }
    }
    availability_u64(&value_or_alias(cli, cell, "nic-capacity-bps", "nic-bps-capacity"))
}

/// Reads what the host offers.
pub fn host_from_cli(cli: &Cli, cell: &TextMap<String>, physical_connections: u64) -> (r: Result<
    HostArgs,
    String,
>)
    ensures
        match (r, host_given(cli@, cell.text(), physical_connections)) {
            (Ok(a), Ok(b)) => a@ == b,
            (Err(e), Err(m)) => e@ == m,
            _ => false,
        },
{
    let ingress = match value(cli, cell, "ingress") {
        Some(s) => s,
        None => "per-port".to_owned(),
    };
    let socket_fan_in: u64 = match value_u64(
        &value(cli, cell, "socket-fan-in"),
        inferred_fan_in(ingress.as_str(), physical_connections),
    ) {
        Ok(n) => n,
        Err(e) => return Err(e),
    };
    let requested_socket_buffer_bytes: u64 = match socket_value(
        &value_or_alias(cli, cell, "sock-buf", "socket-buffer-bytes"),
        0,
    ) {
        Ok(n) => n,
        Err(e) => return Err(e),
    };
    let effective_receive_socket_buffer_bytes = match availability_u64(
        &value_or_alias(cli, cell, "effective-receive-buffer", "effective-rx-buffer"),
    ) {
        Ok(v) => v,
        Err(e) => return Err(e),
    };
    let effective_send_socket_buffer_bytes = match availability_u64(
        &value_or_alias(cli, cell, "effective-send-buffer", "effective-tx-buffer"),
    ) {
        Ok(v) => v,
        Err(e) => return Err(e),
    };
    let nic_capacity_bps = match nic_from_cli(cli, cell) {
        Ok(v) => v,
        Err(e) => return Err(e),
    };
    let host_pps_capacity = match availability_f64(
        &value_or_alias(cli, cell, "host-pps-capacity", "host-pps"),
    ) {
        Ok(v) => v,
        Err(e) => return Err(e),
    };
    let workers: u64 = match value_u64(&value(cli, cell, "workers"), 1) {
        Ok(n) => n,
        Err(e) => return Err(e),
    };
    let cpu_allocation = match value(cli, cell, "cpus") {
        Some(s) => s,
        None => "unspecified".to_owned(),
    };
    Ok(
        HostArgs {
            requested_socket_buffer_bytes,
            effective_receive_socket_buffer_bytes,
            effective_send_socket_buffer_bytes,
            socket_fan_in,
            host_pps_capacity,
            nic_capacity_bps,
            cpu_allocation,
            workers,
        },
    )
}

/// Reads how many callers may connect at once.
pub fn admission_from_cli(cli: &Cli, cell: &TextMap<String>) -> (r: Result<
    AdmissionEnvelope,
    String,
>)
    ensures
        match (
            r,
            integer_or(
                value_either(cli@, cell.text(), "connect-concurrency"@, "connect-cc"@),
                1,
            ),
        ) {
            (Ok(a), Ok(n)) => a.connect_cc == n,
            (Err(e), Err(m)) => e@ == m,
            _ => false,
        },
{
    match value_u64(&value_or_alias(cli, cell, "connect-concurrency", "connect-cc"), 1) {
        Ok(connect_cc) => Ok(AdmissionEnvelope { connect_cc }),
        Err(e) => Err(e),
    }
}

// ---------------------------------------------------------------------------
// From a run's configuration
// ---------------------------------------------------------------------------

/// The workload of a run's configuration.
pub fn workload_of_config(cfg: &BenchConfig) -> (r: WorkloadArgs)
    ensures
        r.source_bps_per_stream == cfg.source_bitrate_bps,
        r.physical_connections == cfg.connections,
        r.logical_streams == if cfg.bond_mode == crate::cli::BondMode::Unbonded {
            cfg.connections as u64
        } else {
            streams_of(cfg.connections as u64, cfg.bond_pairs as u64)
        },
        r.source_streams == r.logical_streams,
        r.payload_bytes == 1316,
        r.bond == match cfg.bond_mode {
            crate::cli::BondMode::Unbonded => BondMode::Unbonded,
            crate::cli::BondMode::Broadcast => BondMode::Broadcast,
            crate::cli::BondMode::Backup => BondMode::Backup,
        },
{
    let streams: u64 = cfg.logical_connection_count() as u64;
    WorkloadArgs {
        source_bps_per_stream: cfg.source_bitrate_bps,
        source_streams: streams,
        physical_connections: cfg.connections as u64,
        logical_streams: streams,
        payload_bytes: PAYLOAD_SIZE as u64,
        bond: match cfg.bond_mode {
            crate::cli::BondMode::Unbonded => BondMode::Unbonded,
            crate::cli::BondMode::Broadcast => BondMode::Broadcast,
            crate::cli::BondMode::Backup => BondMode::Backup,
        },
    }
}

/// What a run's configuration says of the host. Nothing measured is known before the
/// run; on the loopback interface there is no card.
pub fn host_of_config(cfg: &BenchConfig) -> (r: HostArgs)
    ensures
        r.requested_socket_buffer_bytes == cfg.sock_buf_bytes,
        r.effective_receive_socket_buffer_bytes == Availability::<u64>::Unknown,
        r.effective_send_socket_buffer_bytes == Availability::<u64>::Unknown,
        r.socket_fan_in == match cfg.mode {
            Mode::Receiver => cfg.ingress_peers(),
            Mode::Sender => if cfg.egress == Egress::SharedSocket && cfg.connections > 0 {
                cfg.connections as int
            } else {
                1
            },
        },
        r.host_pps_capacity is Unknown,
        r.nic_capacity_bps == if cfg.host@ == "127.0.0.1"@ || cfg.host@ == "localhost"@ {
            Availability::<u64>::NotApplicable
        } else {
            Availability::<u64>::Unknown
        },
        r.cpu_allocation@ == decimal(cfg.cpus as nat),
        r.workers == cfg.workers,
{
    let nic_capacity_bps = if same(cfg.host.as_str(), "127.0.0.1") || same(
        cfg.host.as_str(),
        "localhost",
    ) {
        Availability::NotApplicable
    } else {
        Availability::Unknown
    };
    HostArgs {
        requested_socket_buffer_bytes: cfg.sock_buf_bytes as u64,
        effective_receive_socket_buffer_bytes: Availability::Unknown,
        effective_send_socket_buffer_bytes: Availability::Unknown,
        socket_fan_in: cfg.peers_per_socket() as u64,
        host_pps_capacity: Availability::Unknown,
        nic_capacity_bps,
        cpu_allocation: render(cfg.cpus as u64),
        workers: cfg.workers as u64,
    }
}

/// A cell's own value always beats the command line's, whatever its scope.
pub proof fn cells_beat_flags(cli: CliText, cell: Map<Seq<char>, Seq<char>>, name: Seq<char>)
    requires
        cell.contains_key(name) || cell.contains_key("send-"@ + name) || cell.contains_key(
            "recv-"@ + name,
        ),
    ensures
        exists|k: Seq<char>|
            cell.contains_key(k) && value_named(cli, cell, name) == Some(cell[k]) && (k == name
                || k == "send-"@ + name || k == "recv-"@ + name),
{
    let k = if cell.contains_key(name) {
        name
    } else if cell.contains_key("send-"@ + name) {
        "send-"@ + name
    } else {
        "recv-"@ + name
    };
    assert(cell.contains_key(k) && value_named(cli, cell, name) == Some(cell[k]));
}

} // verus!
