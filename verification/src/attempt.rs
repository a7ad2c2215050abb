//! One attempted run: its identity, what its two processes are told, and how it can
//! fail.
use crate::matrix::{
    Cell, CellValue, Scope, ValueText, bond_pairs, cell_text, cell_value, count_behind_colon,
    or_else, role_value, role_value_in, value_in,
};
use crate::text::{
    concat3, decimal, decimal_round_trips, digit_char, lemma_texts_push, parse_usize, render, same,
    texts, unsigned_of,
};
use vstd::prelude::*;

verus! {

// ---------------------------------------------------------------------------
// Identity
// ---------------------------------------------------------------------------

/// Why no nonce could be made.
#[derive(Debug, PartialEq)]
pub enum NonceError {
    /// The system's random source failed, for this reason.
    NoRandomness(getrandom::Error),
}

/// `getrandom::Error`, which says why the system's random source failed.
#[verifier::external_type_specification]
#[verifier::external_body]
pub struct RandomError(getrandom::Error);

/// `getrandom::fill`: overwrites the buffer with bytes from the system's random
/// source. Whether it succeeds, and with which bytes, is open; their number stays.
#[verifier::external_body]
fn fill_random(bytes: &mut Vec<u8>) -> (r: Result<(), getrandom::Error>)
    ensures
        final(bytes)@.len() == old(bytes)@.len(),
{
    getrandom::fill(bytes.as_mut_slice())
}

pub open spec fn hex_digit(n: int) -> char {
    if n < 10 {
        digit_char(n as nat)
    } else if n == 10 {
        'a'
    } else if n == 11 {
        'b'
    } else if n == 12 {
        'c'
    } else if n == 13 {
        'd'
    } else if n == 14 {
        'e'
    } else {
        'f'
    }
}

/// `bytes` in hexadecimal, two digits each.
pub open spec fn hex_text(bytes: Seq<u8>) -> Seq<char>
    decreases bytes.len(),
{
    if bytes.len() == 0 {
        Seq::empty()
    } else {
        hex_text(bytes.drop_last()).push(hex_digit(bytes.last() as int / 16)).push(
            hex_digit(bytes.last() as int % 16),
        )
    }
}

pub(crate) fn hex_char(n: u8) -> (r: char)
    requires
        n < 16,
    ensures
        r == hex_digit(n as int),
{
    match n {
        0 => '0',
        1 => '1',
        2 => '2',
        3 => '3',
        4 => '4',
        5 => '5',
        6 => '6',
        7 => '7',
        8 => '8',
        9 => '9',
        10 => 'a',
        11 => 'b',
        12 => 'c',
        13 => 'd',
        14 => 'e',
        _ => 'f',
    }
}

/// Renders bytes in hexadecimal.
pub fn hex(bytes: &Vec<u8>) -> (r: String)
    ensures
        r@ == hex_text(bytes@),
{
    let mut out = String::new();
    let mut i: usize = 0;
    assert(bytes@.take(0) =~= Seq::<u8>::empty());
    while i < bytes.len()
        invariant
            i <= bytes@.len(),
            out@ == hex_text(bytes@.take(i as int)),
        decreases bytes@.len() - i,
    {
        assert(bytes@.take(i + 1).drop_last() =~= bytes@.take(i as int));
        out.push(hex_char(bytes[i] / 16));
        out.push(hex_char(bytes[i] % 16));
        i += 1;
    }
    assert(bytes@.take(bytes@.len() as int) =~= bytes@);
    out
}

/// Generate a nonce of sixteen random bytes, which remains fresh even when the
/// system reuses a process id. The random source decides whether there is one.
pub fn new_invocation_nonce() -> (r: Result<String, NonceError>)
    ensures
        r is Ok ==> exists|bytes: Seq<u8>| bytes.len() == 16 && r->Ok_0@ == #[trigger] hex_text(
            bytes,
        ),
{
    let mut bytes: Vec<u8> = Vec::new();
    while bytes.len() < 16
        invariant
            bytes@.len() <= 16,
        decreases 16 - bytes@.len(),
    {
        bytes.push(0);
    }
    let filled = fill_random(&mut bytes);
    nonce_from(filled, &bytes)
}

/// The nonce that the random source's answer gives: the bytes that it left in the
/// buffer, in hexadecimal, if it filled the buffer, and its own error if it did not.
pub fn nonce_from(filled: Result<(), getrandom::Error>, bytes: &Vec<u8>) -> (r: Result<
    String,
    NonceError,
>)
    ensures
        match r {
            Ok(nonce) => filled is Ok && nonce@ == hex_text(bytes@),
            Err(e) => filled is Err && e == NonceError::NoRandomness(filled->Err_0),
        },
{
    match filled {
        Ok(_) => Ok(hex(bytes)),
        Err(reason) => Err(NonceError::NoRandomness(reason)),
    }
}

pub open spec fn attempt_text(nonce: Seq<char>, sequence: nat) -> Seq<char> {
    nonce + "-"@ + decimal(sequence)
}

/// Identity for one attempted cell. Both roles of one attempt share it.
pub fn attempt_id(invocation_nonce: &str, sequence: usize) -> (r: String)
    ensures
        r@ == attempt_text(invocation_nonce@, sequence as nat),
{
    let number = render(sequence as u64);
    concat3(invocation_nonce, "-", number.as_str())
}

/// Attempts of one invocation differ by their number, and attempts of different
/// invocations by their nonce: rows of an earlier attempt never pass for those of a
/// later one.
pub proof fn attempts_are_told_apart(a: Seq<char>, m: nat, b: Seq<char>, n: nat)
    requires
        a.len() == b.len(),
        attempt_text(a, m) == attempt_text(b, n),
    ensures
        a == b,
        m == n,
{
    reveal_strlit("-");
    let x = attempt_text(a, m);
    let y = attempt_text(b, n);
    let k = a.len() as int;
    assert(x.subrange(0, k) =~= a);
    assert(y.subrange(0, k) =~= b);
    assert(x.subrange(k + 1, x.len() as int) =~= decimal(m));
    assert(y.subrange(k + 1, y.len() as int) =~= decimal(n));
    decimal_round_trips(m);
    decimal_round_trips(n);
}

// ---------------------------------------------------------------------------
// What a cell asks of its two processes
// ---------------------------------------------------------------------------

/// What running a cell takes.
#[derive(Debug)]
pub struct MatrixCellConfig {
    pub label: Vec<String>,
    pub recv_ingress: String,
    pub send_ingress: String,
    pub recv_runtime: String,
    pub send_runtime: String,
    /// The source payload rate, passed positionally to both roles.
    pub source_bitrate: String,
    pub ports_needed: usize,
}

/// `axis=value`, with the role before it where the axis is split.
pub open spec fn label_part(v: ValueText) -> Seq<char> {
    v.scope.flag_text() + v.axis + "="@ + v.value
}

/// How many consecutive ports a cell needs: one per connection if each has its own,
/// else one per pooled socket.
pub open spec fn ports_for(cell: Seq<ValueText>) -> nat {
    let ingress = or_else(role_value_in(cell, "ingress"@, Scope::Recv), "per-port"@);
    let count = if ingress == "per-port"@ {
        match value_in(cell, "connections"@, None) {
            Some(v) => unsigned_of(v, usize::MAX as int),
            None => None,
        }
    } else {
        count_behind_colon(ingress)
    };
    match count {
        Some(n) => n,
        None => 1,
    }
}

fn role_or(cell: &Cell, name: &str, role: Scope, default: &str) -> (r: String)
    ensures
        r@ == or_else(role_value_in(cell_text(cell@), name@, role), default@),
{
    match role_value(cell, name, role) {
        Some(v) => v.clone(),
        None => default.to_owned(),
    }
}

pub fn matrix_cell_config(cell: &Cell) -> (r: MatrixCellConfig)
    ensures
        texts(r.label@) == cell_text(cell@).map_values(|v: ValueText| label_part(v)),
        r.recv_ingress@ == or_else(
            role_value_in(cell_text(cell@), "ingress"@, Scope::Recv),
            "per-port"@,
        ),
        r.send_ingress@ == or_else(
            role_value_in(cell_text(cell@), "ingress"@, Scope::Send),
            "per-port"@,
        ),
        r.recv_runtime@ == or_else(
            role_value_in(cell_text(cell@), "runtime"@, Scope::Recv),
            "mio"@,
        ),
        r.send_runtime@ == or_else(
            role_value_in(cell_text(cell@), "runtime"@, Scope::Send),
            "mio"@,
        ),
        r.source_bitrate@ == or_else(value_in(cell_text(cell@), "bitrate"@, None), "8000000"@),
        r.ports_needed == ports_for(cell_text(cell@)),
{
    let ghost want = cell_text(cell@).map_values(|v: ValueText| label_part(v));
    let mut label: Vec<String> = Vec::new();
    let mut i: usize = 0;
    while i < cell.len()
        invariant
            i <= cell@.len(),
            want == cell_text(cell@).map_values(|v: ValueText| label_part(v)),
            texts(label@) == want.take(i as int),
        decreases cell@.len() - i,
    {
        let mut part = cell[i].scope.flag_prefix().to_owned();
        part.append(cell[i].axis.as_str());
        part.append("=");
        part.append(cell[i].value.as_str());
        proof {
            assert(cell_text(cell@)[i as int] == cell@[i as int]@);
            lemma_texts_push(label@, part);
            assert(part@ =~= label_part(cell@[i as int]@));
            assert(want.take(i + 1) =~= want.take(i as int).push(part@));
        }
        label.push(part);
        i += 1;
    }
    assert(want.take(want.len() as int) =~= want);
    let recv_ingress = role_or(cell, "ingress", Scope::Recv, "per-port");
    let count: Option<usize> = if same(recv_ingress.as_str(), "per-port") {
        match cell_value(cell, "connections", None) {
            Some(v) => parse_usize(v.as_str()),
            None => None,
        }
    } else {
        bond_pairs(recv_ingress.as_str())
    };
    let source_bitrate = match cell_value(cell, "bitrate", None) {
        Some(v) => v.clone(),
        None => "8000000".to_owned(),
    };
    MatrixCellConfig {
        label,
        recv_ingress,
        send_ingress: role_or(cell, "ingress", Scope::Send, "per-port"),
        recv_runtime: role_or(cell, "runtime", Scope::Recv, "mio"),
        send_runtime: role_or(cell, "runtime", Scope::Send, "mio"),
        source_bitrate,
        ports_needed: match count {
            Some(n) => n,
            None => 1,
        },
    }
}

/// Whether a value is handed to a role as a plain flag: rate, runtime and CPU set
/// travel by other ways.
pub open spec fn plain_flag(v: ValueText, role: Scope) -> bool {
    v.axis != "bitrate"@ && v.axis != "runtime"@ && v.axis != "cpus"@ && v.scope.reaches(role)
}

/// The flags of the first `n` values of a cell that reach a role.
pub open spec fn plain_flags(cell: Seq<ValueText>, role: Scope, n: int) -> Seq<Seq<char>>
    decreases n,
{
    if n <= 0 {
        Seq::empty()
    } else if plain_flag(cell[n - 1], role) {
        plain_flags(cell, role, n - 1).push("--"@ + cell[n - 1].axis + "="@ + cell[n - 1].value)
    } else {
        plain_flags(cell, role, n - 1)
    }
}

/// The record-only flags of the first `n` values of a cell that are split by role.
pub open spec fn split_flags(cell: Seq<ValueText>, n: int) -> Seq<Seq<char>>
    decreases n,
{
    if n <= 0 {
        Seq::empty()
    } else if cell[n - 1].scope != Scope::Both {
        split_flags(cell, n - 1).push("--"@ + label_part(cell[n - 1]))
    } else {
        split_flags(cell, n - 1)
    }
}

/// Everything a cell tells a role.
pub open spec fn cell_flags(cell: Seq<ValueText>, role: Scope) -> Seq<Seq<char>> {
    plain_flags(cell, role, cell.len() as int) + split_flags(cell, cell.len() as int)
}

/// Each role gets the axes scoped to it plus the shared ones. Both roles
/// additionally get every split axis as a record-only `--recv-*`/`--send-*` flag, so
/// that a single row states the whole cell.
pub fn matrix_cell_argv(cell: &Cell, role: Scope) -> (r: Vec<String>)
    ensures
        texts(r@) == cell_flags(cell_text(cell@), role),
{
    let ghost text = cell_text(cell@);
    let mut out: Vec<String> = Vec::new();
    let mut i: usize = 0;
    assert(texts(out@) =~= plain_flags(text, role, 0));
    while i < cell.len()
        invariant
            i <= cell@.len(),
            text == cell_text(cell@),
            texts(out@) == plain_flags(text, role, i as int),
        decreases cell@.len() - i,
    {
        assert(text[i as int] == cell@[i as int]@);
        let axis = cell[i].axis.as_str();
        if !same(axis, "bitrate") && !same(axis, "runtime") && !same(axis, "cpus")
            && cell[i].scope.applies_to(role) {
            let mut flag = concat3("--", axis, "=");
            flag.append(cell[i].value.as_str());
            proof {
                lemma_texts_push(out@, flag);
            }
            out.push(flag);
        }
        i += 1;
    }
    let ghost plain = texts(out@);
    let mut i: usize = 0;
    assert(plain + split_flags(text, 0) =~= plain);
    while i < cell.len()
        invariant
            i <= cell@.len(),
            text == cell_text(cell@),
            texts(out@) == plain + split_flags(text, i as int),
        decreases cell@.len() - i,
    {
        assert(text[i as int] == cell@[i as int]@);
        if cell[i].scope != Scope::Both {
            let mut flag = concat3("--", cell[i].scope.flag_prefix(), cell[i].axis.as_str());
            flag.append("=");
            flag.append(cell[i].value.as_str());
            proof {
                assert(flag@ =~= "--"@ + label_part(text[i as int]));
                lemma_texts_push(out@, flag);
                assert((plain + split_flags(text, i as int)).push(flag@) =~= plain + split_flags(
                    text,
                    i as int,
                ).push(flag@));
            }
            out.push(flag);
        }
        i += 1;
    }
    out
}

/// What both processes of an attempt are told alike.
#[derive(Debug)]
pub struct RunPlan {
    pub port: u16,
    pub secs: u64,
    pub latency: u16,
    pub rep: usize,
    pub attempt: String,
    pub out: String,
}

/// The flags that end either command line.
pub open spec fn common_flags(plan: RunPlan, cpus: Seq<char>) -> Seq<Seq<char>> {
    seq![
        "--rep="@ + decimal(plan.rep as nat),
        "--attempt="@ + plan.attempt@,
        "--cpus="@ + cpus,
        "--out="@ + plan.out@,
    ]
}

/// The receiver's arguments. It outlives the sender by a minute as a backstop, and
/// is told the length of the stream separately.
pub open spec fn receiver_line(
    cell: Seq<ValueText>,
    config: MatrixCellConfig,
    plan: RunPlan,
    cpus: Seq<char>,
) -> Seq<Seq<char>> {
    seq![
        "runtime="@ + config.recv_runtime@,
        "mode=receiver"@,
        decimal(plan.port as nat),
        decimal((plan.secs + 60) as nat),
        decimal(plan.latency as nat),
        config.source_bitrate@,
    ] + cell_flags(cell, Scope::Recv) + seq!["--stream-secs="@ + decimal(plan.secs as nat)]
        + common_flags(plan, cpus)
}

/// The sender's arguments.
pub open spec fn sender_line(
    cell: Seq<ValueText>,
    config: MatrixCellConfig,
    plan: RunPlan,
    cpus: Seq<char>,
) -> Seq<Seq<char>> {
    seq![
        "runtime="@ + config.send_runtime@,
        "mode=sender"@,
        "127.0.0.1"@,
        decimal(plan.port as nat),
        decimal(plan.secs as nat),
        decimal(plan.latency as nat),
        config.source_bitrate@,
    ] + cell_flags(cell, Scope::Send) + common_flags(plan, cpus)
}

fn setting(name: &str, value: &str) -> (r: String)
    ensures
        r@ == name@ + value@,
{
    let mut out = name.to_owned();
    out.append(value);
    out
}

fn common_args(plan: &RunPlan, cpus: &str) -> (r: Vec<String>)
    ensures
        texts(r@) == common_flags(*plan, cpus@),
{
    let rep = render(plan.rep as u64);
    let args: Vec<String> = vec![
        setting("--rep=", rep.as_str()),
        setting("--attempt=", plan.attempt.as_str()),
        setting("--cpus=", cpus),
        setting("--out=", plan.out.as_str()),
    ];
    assert(texts(args@) =~= common_flags(*plan, cpus@));
    args
}

fn extend_args(args: &mut Vec<String>, more: Vec<String>)
    ensures
        texts(final(args)@) == texts(old(args)@) + texts(more@),
{
    let mut more = more;
    let ghost before = args@;
    let ghost tail = more@;
    args.append(&mut more);
    assert(texts(before + tail) =~= texts(before) + texts(tail));
}

pub fn receiver_args(cell: &Cell, config: &MatrixCellConfig, plan: &RunPlan, cpus: &str) -> (r: Vec<
    String,
>)
    requires
        plan.secs + 60 <= u64::MAX,
    ensures
        texts(r@) == receiver_line(cell_text(cell@), *config, *plan, cpus@),
{
    let secs = render(plan.secs);
    let mut args: Vec<String> = vec![
        setting("runtime=", config.recv_runtime.as_str()),
        "mode=receiver".to_owned(),
        render(plan.port as u64),
        render(plan.secs + 60),
        render(plan.latency as u64),
        config.source_bitrate.clone(),
    ];
    assert(texts(args@) =~= seq![
        "runtime="@ + config.recv_runtime@,
        "mode=receiver"@,
        decimal(plan.port as nat),
        decimal((plan.secs + 60) as nat),
        decimal(plan.latency as nat),
        config.source_bitrate@,
    ]);
    extend_args(&mut args, matrix_cell_argv(cell, Scope::Recv));
    let stream: Vec<String> = vec![setting("--stream-secs=", secs.as_str())];
    assert(texts(stream@) =~= seq!["--stream-secs="@ + decimal(plan.secs as nat)]);
    extend_args(&mut args, stream);
    extend_args(&mut args, common_args(plan, cpus));
    args
}

pub fn sender_args(cell: &Cell, config: &MatrixCellConfig, plan: &RunPlan, cpus: &str) -> (r: Vec<
    String,
>)
    ensures
        texts(r@) == sender_line(cell_text(cell@), *config, *plan, cpus@),
{
    let mut args: Vec<String> = vec![
        setting("runtime=", config.send_runtime.as_str()),
        "mode=sender".to_owned(),
        "127.0.0.1".to_owned(),
        render(plan.port as u64),
        render(plan.secs),
        render(plan.latency as u64),
        config.source_bitrate.clone(),
    ];
    assert(texts(args@) =~= seq![
        "runtime="@ + config.send_runtime@,
        "mode=sender"@,
        "127.0.0.1"@,
        decimal(plan.port as nat),
        decimal(plan.secs as nat),
        decimal(plan.latency as nat),
        config.source_bitrate@,
    ]);
    extend_args(&mut args, matrix_cell_argv(cell, Scope::Send));
    extend_args(&mut args, common_args(plan, cpus));
    args
}

/// What a cell is extended by so that its CPU sets are part of its identity:
/// nothing where no set is known, one shared value where no role has a set of its
/// own, else one value per role.
pub open spec fn cpu_values(recv: Seq<char>, send: Seq<char>, inherited: Seq<char>) -> Seq<
    ValueText,
> {
    if recv.len() == 0 && send.len() == 0 {
        if inherited.len() == 0 {
            Seq::empty()
        } else {
            seq![ValueText { axis: "cpus"@, scope: Scope::Both, value: inherited }]
        }
    } else {
        seq![
            ValueText {
                axis: "cpus"@,
                scope: Scope::Recv,
                value: if recv.len() == 0 {
                    inherited
                } else {
                    recv
                },
            },
            ValueText {
                axis: "cpus"@,
                scope: Scope::Send,
                value: if send.len() == 0 {
                    inherited
                } else {
                    send
                },
            },
        ]
    }
}

/// Makes the CPU sets part of a cell's identity.
pub fn add_cpu_identity(cell: &mut Cell, recv_cpus: &str, send_cpus: &str, inherited: &str)
    ensures
        cell_text(final(cell)@) == cell_text(old(cell)@) + cpu_values(
            recv_cpus@,
            send_cpus@,
            inherited@,
        ),
{
    let ghost before = cell@;
    if recv_cpus.is_empty() && send_cpus.is_empty() {
        if !inherited.is_empty() {
            cell.push(
                CellValue {
                    axis: "cpus".to_owned(),
                    scope: Scope::Both,
                    value: inherited.to_owned(),
                },
            );
        }
    } else {
        cell.push(
            CellValue {
                axis: "cpus".to_owned(),
                scope: Scope::Recv,
                value: if recv_cpus.is_empty() {
                    inherited.to_owned()
                } else {
                    recv_cpus.to_owned()
                },
            },
        );
        cell.push(
            CellValue {
                axis: "cpus".to_owned(),
                scope: Scope::Send,
                value: if send_cpus.is_empty() {
                    inherited.to_owned()
                } else {
                    send_cpus.to_owned()
                },
            },
        );
    }
    assert(cell_text(cell@) =~= cell_text(before) + cpu_values(recv_cpus@, send_cpus@, inherited@));
}

/// The lowest port to try.
pub const LOW_PORT: u16 = 20_000;

/// The end of the ports to try, below the system's ephemeral range.
pub const HIGH_PORT: u16 = 31_000;

/// The `attempt`-th place to look for `count` consecutive ports, spread by `seed`.
pub fn port_candidate(seed: u32, attempt: u32, count: usize) -> (r: u16)
    requires
        count < HIGH_PORT - LOW_PORT,
        attempt < 200,
    ensures
        LOW_PORT <= r,
        r + count <= HIGH_PORT,
        r == LOW_PORT + ((seed * 2_654_435_761 % 0x1_0000_0000 + attempt * 7_919) % 0x1_0000_0000)
            % (HIGH_PORT - LOW_PORT - count),
{
    let span: u32 = (HIGH_PORT - LOW_PORT) as u32 - count as u32;
    let mixed: u32 = seed.wrapping_mul(2_654_435_761).wrapping_add(attempt * 7_919);
    LOW_PORT + (mixed % span) as u16
}

// ---------------------------------------------------------------------------
// Failures
// ---------------------------------------------------------------------------

/// Why one scheduled matrix run did not complete.
///
/// Every variant is a *required* role failing to do its job. None of them is "this
/// configuration is not supported": that is decided up front from configuration and
/// never inferred from a crash.
#[derive(Debug)]
pub enum MatrixFailureKind {
    /// The child exited non-zero, or was killed by a signal.
    ChildStatus { role: &'static str, status: String },
    /// The child exited cleanly but recorded no result row for this cell.
    MissingResult { role: &'static str },
    /// The result file could not be read back, so the run cannot be confirmed either
    /// way.
    UnreadableResults { detail: String },
    /// The cell could not be run at all for an environmental reason.
    Infrastructure { detail: String },
}

/// What a failure says.
pub enum FailureText {
    ChildStatus { role: Seq<char>, status: Seq<char> },
    MissingResult { role: Seq<char> },
    UnreadableResults { detail: Seq<char> },
    Infrastructure { detail: Seq<char> },
}

impl View for MatrixFailureKind {
    type V = FailureText;

    open spec fn view(&self) -> FailureText {
        match self {
            MatrixFailureKind::ChildStatus { role, status } => FailureText::ChildStatus {
                role: role@,
                status: status@,
            },
            MatrixFailureKind::MissingResult { role } => FailureText::MissingResult {
                role: role@,
            },
            MatrixFailureKind::UnreadableResults { detail } => FailureText::UnreadableResults {
                detail: detail@,
            },
            MatrixFailureKind::Infrastructure { detail } => FailureText::Infrastructure {
                detail: detail@,
            },
        }
    }
}

impl FailureText {
    pub open spec fn text(self) -> Seq<char> {
        match self {
            FailureText::ChildStatus { role, status } => role + " child failed ("@ + status + ")"@,
            FailureText::MissingResult { role } => role + " recorded no result row"@,
            FailureText::UnreadableResults { detail } => "result file unreadable: "@ + detail,
            FailureText::Infrastructure { detail } => "could not run cell: "@ + detail,
        }
    }
}

impl MatrixFailureKind {
    /// The failure in words.
    pub fn describe(&self) -> (r: String)
        ensures
            r@ == self@.text(),
    {
        match self {
            MatrixFailureKind::ChildStatus { role, status } => {
                let mut out = concat3(role, " child failed (", status.as_str());
                out.append(")");
                out
            },
            MatrixFailureKind::MissingResult { role } => setting(role, " recorded no result row"),
            MatrixFailureKind::UnreadableResults { detail } => setting(
                "result file unreadable: ",
                detail.as_str(),
            ),
            MatrixFailureKind::Infrastructure { detail } => setting(
                "could not run cell: ",
                detail.as_str(),
            ),
        }
    }
}

pub open spec fn failures_text(v: Seq<MatrixFailureKind>) -> Seq<FailureText> {
    v.map_values(|f: MatrixFailureKind| f@)
}

/// How one child ended.
#[derive(Debug)]
pub struct ChildEnd {
    pub success: bool,
    pub status: String,
}

pub open spec fn only_if(b: bool, f: FailureText) -> Seq<FailureText> {
    if b {
        seq![f]
    } else {
        Seq::empty()
    }
}

/// Every way in which a required role failed: a bad exit; a good exit without a row;
/// or a result file that cannot be read.
pub open spec fn failures_of(
    sender: ChildEnd,
    receiver: ChildEnd,
    recorded: Result<(bool, bool), String>,
) -> Seq<FailureText> {
    only_if(
        !sender.success,
        FailureText::ChildStatus { role: "sender"@, status: sender.status@ },
    ) + only_if(
        !receiver.success,
        FailureText::ChildStatus { role: "receiver"@, status: receiver.status@ },
    ) + match recorded {
        Ok((caller, listener)) => only_if(
            !caller && sender.success,
            FailureText::MissingResult { role: "sender"@ },
        ) + only_if(
            !listener && receiver.success,
            FailureText::MissingResult { role: "receiver"@ },
        ),
        Err(e) => seq![FailureText::UnreadableResults { detail: e@ }],
    }
}

/// Every way in which a *required* role failed. An empty list means that both roles
/// exited cleanly and both recorded their result row.
pub fn role_failures(sender: &ChildEnd, receiver: &ChildEnd, recorded: &Result<
    (bool, bool),
    String,
>) -> (r: Vec<MatrixFailureKind>)
    ensures
        failures_text(r@) == failures_of(*sender, *receiver, *recorded),
        r@.len() == 0 <==> sender.success && receiver.success && *recorded == Ok::<
            (bool, bool),
            String,
        >((true, true)),
{
    let mut failures: Vec<MatrixFailureKind> = Vec::new();
    if !sender.success {
        failures.push(
            MatrixFailureKind::ChildStatus { role: "sender", status: sender.status.clone() },
        );
    }
    if !receiver.success {
        failures.push(
            MatrixFailureKind::ChildStatus { role: "receiver", status: receiver.status.clone() },
        );
    }
    match recorded {
        Ok((caller, listener)) => {
            if !*caller && sender.success {
                failures.push(MatrixFailureKind::MissingResult { role: "sender" });
            }
            if !*listener && receiver.success {
                failures.push(MatrixFailureKind::MissingResult { role: "receiver" });
            }
        },
        Err(e) => {
            failures.push(MatrixFailureKind::UnreadableResults { detail: e.clone() });
        },
    }
    assert(failures_text(failures@) =~= failures_of(*sender, *receiver, *recorded));
    failures
}

/// One failed (cell, rep), kept so that the sweep can carry on and still fail at the
/// end.
#[derive(Debug)]
pub struct MatrixFailure {
    pub label: String,
    pub rep: usize,
    pub kind: MatrixFailureKind,
}

impl MatrixFailure {
    pub open spec fn text(&self) -> Seq<char> {
        "rep "@ + decimal(self.rep as nat) + " "@ + self.label@ + ": "@ + self.kind@.text()
    }

    /// The failure in words.
    pub fn describe(&self) -> (r: String)
        ensures
            r@ == self.text(),
    {
        let rep = render(self.rep as u64);
        let mut out = concat3("rep ", rep.as_str(), " ");
        out.append(self.label.as_str());
        out.append(": ");
        out.append(self.kind.describe().as_str());
        out
    }
}

/// What a whole `srt-bench matrix` invocation did.
///
/// The invariant that this type exists for: exit status 0 if and only if every
/// required cell and role completed successfully.
#[derive(Debug)]
pub struct MatrixReport {
    /// Every required-role failure seen, in schedule order.
    pub failures: Vec<MatrixFailure>,
    /// Runs not attempted because their configuration is explicitly unsupported.
    pub skipped_runs: usize,
    /// Runs skipped because a previous invocation already recorded them.
    pub resumed_runs: usize,
    /// Runs that started and recorded both roles.
    pub completed_runs: usize,
    /// Runs that were attempted and did not complete.
    pub failed_runs: usize,
}

/// `now` is `was` with one more run that came to its end, with these failures.
pub open spec fn run_recorded(
    was: MatrixReport,
    now: MatrixReport,
    label: Seq<char>,
    rep: usize,
    failures: Seq<MatrixFailureKind>,
) -> bool {
    &&& now.completed_runs == was.completed_runs + if failures.len() == 0 {
        1int
    } else {
        0
    }
    &&& now.failed_runs == was.failed_runs + if failures.len() == 0 {
        0int
    } else {
        1
    }
    &&& now.skipped_runs == was.skipped_runs
    &&& now.resumed_runs == was.resumed_runs
    &&& now.failures@.len() == was.failures@.len() + failures.len()
    &&& forall|i: int|
        0 <= i < was.failures@.len() ==> now.failures@[i] == was.failures@[i]
    &&& forall|i: int|
        0 <= i < failures.len() ==> {
            let f = #[trigger] now.failures@[was.failures@.len() + i];
            f.label@ == label && f.rep == rep && f.kind == failures[i]
        }
}

/// The lines of the failures.
pub open spec fn failure_lines(failures: Seq<MatrixFailure>) -> Seq<char>
    decreases failures.len(),
{
    if failures.len() == 0 {
        Seq::empty()
    } else {
        failure_lines(failures.drop_last()) + "  "@ + failures.last().text() + "\n"@
    }
}

impl MatrixReport {
    /// Each failed run left at least one failure, and nothing else did.
    pub open spec fn wf(&self) -> bool {
        (self.failures@.len() == 0) == (self.failed_runs == 0)
    }

    pub fn new() -> (r: Self)
        ensures
            r.wf(),
            r.failures@.len() == 0,
            r.skipped_runs == 0,
            r.resumed_runs == 0,
            r.completed_runs == 0,
            r.failed_runs == 0,
    {
        MatrixReport {
            failures: Vec::new(),
            skipped_runs: 0,
            resumed_runs: 0,
            completed_runs: 0,
            failed_runs: 0,
        }
    }

    /// An attempted run came to its end, with these failures.
    pub fn record_run(&mut self, label: &str, rep: usize, failures: Vec<MatrixFailureKind>)
        requires
            old(self).wf(),
            old(self).completed_runs < usize::MAX,
            old(self).failed_runs < usize::MAX,
        ensures
            final(self).wf(),
            run_recorded(*old(self), *final(self), label@, rep, failures@),
    {
        if failures.len() == 0 {
            self.completed_runs = self.completed_runs + 1;
            return;
        }
        self.failed_runs = self.failed_runs + 1;
        let ghost start = self.failures@;
        let ghost all = failures@;
        let mut failures = failures;
        let mut back: Vec<MatrixFailureKind> = Vec::new();
        // Turn the list round so that taking from its end walks it from the front.
        while failures.len() > 0
            invariant
                failures@.len() + back@.len() == all.len(),
                failures@ == all.take(failures@.len() as int),
                forall|i: int|
                    0 <= i < back@.len() ==> #[trigger] back@[i] == all[all.len() - 1 - i],
            decreases failures@.len(),
        {
            let ghost before = failures@;
            let f = failures.pop().unwrap();
            assert(f == all[before.len() - 1]);
            assert(failures@ =~= all.take(failures@.len() as int));
            back.push(f);
        }
        while back.len() > 0
            invariant
                back@.len() <= all.len(),
                forall|i: int|
                    0 <= i < back@.len() ==> #[trigger] back@[i] == all[all.len() - 1 - i],
                self.failures@.len() == start.len() + all.len() - back@.len(),
                forall|i: int| 0 <= i < start.len() ==> self.failures@[i] == start[i],
                forall|i: int|
                    0 <= i < all.len() - back@.len() ==> {
                        let f = #[trigger] self.failures@[start.len() + i];
                        f.label@ == label@ && f.rep == rep && f.kind == all[i]
                    },
                self.completed_runs == old(self).completed_runs,
                self.failed_runs == old(self).failed_runs + 1,
                self.skipped_runs == old(self).skipped_runs,
                self.resumed_runs == old(self).resumed_runs,
            decreases back@.len(),
        {
            let ghost before = back@;
            let ghost had = self.failures@;
            let kind = back.pop().unwrap();
            assert(kind == all[all.len() - before.len()]) by {
                assert(before[before.len() - 1] == kind);
            }
            self.failures.push(MatrixFailure { label: label.to_owned(), rep, kind });
            assert forall|i: int| 0 <= i < all.len() - back@.len() implies {
                let f = #[trigger] self.failures@[start.len() + i];
                f.label@ == label@ && f.rep == rep && f.kind == all[i]
            } by {
                if i < all.len() - before.len() {
                    assert(self.failures@[start.len() + i] == had[start.len() + i]);
                }
            }
        }
    }

    /// The runs of an unsupported cell were skipped.
    pub fn record_skipped(&mut self, reps: usize)
        requires
            old(self).wf(),
            old(self).skipped_runs + reps <= usize::MAX,
        ensures
            final(self).wf(),
            *final(self) == (MatrixReport {
                skipped_runs: (old(self).skipped_runs + reps) as usize,
                ..*old(self)
            }),
    {
        self.skipped_runs = self.skipped_runs + reps;
    }

    /// A run that is already recorded was passed over.
    pub fn record_resumed(&mut self)
        requires
            old(self).wf(),
            old(self).resumed_runs < usize::MAX,
        ensures
            final(self).wf(),
            *final(self) == (MatrixReport {
                resumed_runs: (old(self).resumed_runs + 1) as usize,
                ..*old(self)
            }),
    {
        self.resumed_runs = self.resumed_runs + 1;
    }

    /// True when every required role of every attempted cell succeeded.
    #[must_use]
    pub fn ok(&self) -> (r: bool)
        requires
            self.wf(),
        ensures
            r == (self.failures@.len() == 0),
            r == (self.failed_runs == 0),
    {
        self.failures.len() == 0
    }

    /// Human-readable summary of what failed.
    #[must_use]
    pub fn failure_summary(&self) -> (r: String)
        requires
            self.failed_runs + self.completed_runs <= usize::MAX,
        ensures
            r@ == "matrix: "@ + decimal(self.failed_runs as nat) + " of "@ + decimal(
                (self.failed_runs + self.completed_runs) as nat,
            ) + " attempted runs failed ("@ + decimal(self.failures@.len()) + " distinct failures)\n"@
                + failure_lines(self.failures@),
    {
        let failed = render(self.failed_runs as u64);
        let attempted = render((self.failed_runs + self.completed_runs) as u64);
        let distinct = render(self.failures.len() as u64);
        let mut out = concat3("matrix: ", failed.as_str(), " of ");
        out.append(attempted.as_str());
        out.append(" attempted runs failed (");
        out.append(distinct.as_str());
        out.append(" distinct failures)\n");
        let ghost head = out@;
        let mut i: usize = 0;
        assert(self.failures@.take(0) =~= Seq::<MatrixFailure>::empty());
        assert(head + failure_lines(self.failures@.take(0)) =~= head);
        while i < self.failures.len()
            invariant
                i <= self.failures@.len(),
                out@ == head + failure_lines(self.failures@.take(i as int)),
            decreases self.failures@.len() - i,
        {
            let ghost now = self.failures@.take(i + 1);
            assert(now.drop_last() =~= self.failures@.take(i as int));
            out.append("  ");
            out.append(self.failures[i].describe().as_str());
            out.append("\n");
            assert(out@ =~= head + failure_lines(now));
            i += 1;
        }
        assert(self.failures@.take(self.failures@.len() as int) =~= self.failures@);
        out
    }
}

} // verus!
