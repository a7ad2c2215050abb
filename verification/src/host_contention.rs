//! Host-contention admission and evidence for timing-sensitive cells.
//!
//! Contention is an *environment* property, not a run property: it can degrade a
//! run without violating the canonical clean predicate. A cell waits for a quiet
//! host, is refused or marked when the host is not quiet, and its rows record what
//! was observed. Pressure figures are fractions; whoever samples them compares them
//! with the thresholds, and what follows from the outcome is decided here.
use crate::cli::{Cli, CliText};
use crate::text::{
    agrees, beginning_with, concat, concat3, debug_quote, debug_text, decimal, first_where,
    float_text, has_prefix, is_float_text, join, joined, lemma_first_where, lemma_texts_push, lines,
    lines_of, lowered, parse_u64, render, run_together, same, slices, split_once, split_once_text,
    starts_with, strip_prefix, texts, to_lower, trim, trimmed, unsigned_of, words, words_of,
};
use vstd::prelude::*;

verus! {

/// How the harness reacts when the host is (or becomes) contended.
#[derive(Clone, Copy, PartialEq, Eq, Debug, Structural)]
pub enum HostContentionMode {
    /// Wait for quiet; on timeout refuse the cell. Mid-cell contention also fails
    /// the cell after the run.
    Refuse,
    /// Always run. Contended cells are stamped in the result row.
    Mark,
    /// Skip admission waits and never treat contention as a failure.
    Allow,
}

pub open spec fn mode_named(raw: Seq<char>) -> Option<HostContentionMode> {
    let s = lowered(trimmed(raw));
    if s == "refuse"@ {
        Some(HostContentionMode::Refuse)
    } else if s == "mark"@ {
        Some(HostContentionMode::Mark)
    } else if s == "allow"@ || s == "ignore"@ || s == "off"@ {
        Some(HostContentionMode::Allow)
    } else {
        None
    }
}

impl HostContentionMode {
    pub open spec fn text(self) -> Seq<char> {
        match self {
            HostContentionMode::Refuse => "refuse"@,
            HostContentionMode::Mark => "mark"@,
            HostContentionMode::Allow => "allow"@,
        }
    }

    #[must_use]
    pub fn parse(raw: &str) -> (r: Option<Self>)
        ensures
            r == mode_named(raw@),
    {
        let t = trim(raw);
        let s = to_lower(t.as_str());
        let s = s.as_str();
        if same(s, "refuse") {
            Some(HostContentionMode::Refuse)
        } else if same(s, "mark") {
            Some(HostContentionMode::Mark)
        } else if same(s, "allow") || same(s, "ignore") || same(s, "off") {
            Some(HostContentionMode::Allow)
        } else {
            None
        }
    }

    #[must_use]
    pub fn as_str(self) -> (r: &'static str)
        ensures
            r@ == self.text(),
    {
        match self {
            HostContentionMode::Refuse => "refuse",
            HostContentionMode::Mark => "mark",
            HostContentionMode::Allow => "allow",
        }
    }
}

/// Verdict recorded on a result row.
#[derive(Clone, Copy, PartialEq, Eq, Debug, Structural)]
pub enum HostContentionStatus {
    Quiet,
    Contended,
    /// Pressure and steal figures are unreadable.
    Unknown,
    /// Operator opted out with `--host-contention=allow`.
    Allowed,
}

impl HostContentionStatus {
    pub open spec fn text(self) -> Seq<char> {
        match self {
            HostContentionStatus::Quiet => "quiet"@,
            HostContentionStatus::Contended => "contended"@,
            HostContentionStatus::Unknown => "unknown"@,
            HostContentionStatus::Allowed => "allowed"@,
        }
    }

    #[must_use]
    pub fn as_str(self) -> (r: &'static str)
        ensures
            r@ == self.text(),
    {
        match self {
            HostContentionStatus::Quiet => "quiet",
            HostContentionStatus::Contended => "contended",
            HostContentionStatus::Unknown => "unknown",
            HostContentionStatus::Allowed => "allowed",
        }
    }
}

/// Evidence written beside measurements on every result row. Figures are rendered
/// by whoever measured them.
#[derive(Debug)]
pub struct HostContentionEvidence {
    pub status: HostContentionStatus,
    pub signals: Vec<&'static str>,
    pub policy_fingerprint: String,
    pub cpu_psi_some_avg10_pre: String,
    pub cpu_psi_some_avg10_post: String,
    pub cpu_psi_stall_pct: String,
    pub mem_psi_some_avg10_max: String,
    pub io_psi_some_avg10_max: String,
    pub steal_pct: String,
}

/// `signals` between commas.
fn join_signals(signals: &Vec<&'static str>) -> (r: String)
    ensures
        r@ == joined(slices(signals@), ","@),
{
    let mut parts: Vec<String> = Vec::new();
    let mut i: usize = 0;
    while i < signals.len()
        invariant
            i <= signals@.len(),
            texts(parts@) == slices(signals@).take(i as int),
        decreases signals@.len() - i,
    {
        let s = signals[i].to_owned();
        proof {
            lemma_texts_push(parts@, s);
            assert(slices(signals@).take(i + 1) =~= slices(signals@).take(i as int).push(s@));
        }
        parts.push(s);
        i += 1;
    }
    assert(slices(signals@).take(signals@.len() as int) =~= slices(signals@));
    join(&parts, ",")
}

impl HostContentionEvidence {
    #[must_use]
    pub fn signals_joined(&self) -> (r: String)
        ensures
            r@ == joined(slices(self.signals@), ","@),
    {
        join_signals(&self.signals)
    }
}

/// Which signals a host shows.
#[derive(Clone, Copy, PartialEq, Eq, Debug, Structural)]
pub struct Pressure {
    pub cpu_psi: bool,
    pub cpu_stall: bool,
    pub mem_psi: bool,
    pub io_psi: bool,
    pub steal: bool,
}

pub open spec fn flag_if(b: bool, name: Seq<char>) -> Seq<Seq<char>> {
    if b {
        seq![name]
    } else {
        Seq::empty()
    }
}

/// The names of the signals, in the order in which they are recorded.
pub open spec fn signal_names(p: Pressure) -> Seq<Seq<char>> {
    flag_if(p.cpu_psi, "cpu_psi"@) + flag_if(p.cpu_stall, "cpu_stall"@) + flag_if(
        p.mem_psi,
        "mem_psi"@,
    ) + flag_if(p.io_psi, "io_psi"@) + flag_if(p.steal, "steal"@)
}

/// The signals of one sample or of a run. A single sample has neither stall nor
/// steal: they need a window.
pub fn collect_contention_signals(p: Pressure) -> (r: Vec<&'static str>)
    ensures
        slices(r@) == signal_names(p),
        (r@.len() == 0) == !(p.cpu_psi || p.cpu_stall || p.mem_psi || p.io_psi || p.steal),
{
    let mut signals: Vec<&'static str> = Vec::new();
    if p.cpu_psi {
        signals.push("cpu_psi");
    }
    if p.cpu_stall {
        signals.push("cpu_stall");
    }
    if p.mem_psi {
        signals.push("mem_psi");
    }
    if p.io_psi {
        signals.push("io_psi");
    }
    if p.steal {
        signals.push("steal");
    }
    assert(slices(signals@) =~= signal_names(p));
    signals
}

/// The verdict on a run, given whether any signal could be read and which were over
/// their thresholds.
pub open spec fn verdict(mode: HostContentionMode, readable: bool, p: Pressure) -> (
    HostContentionStatus,
    Seq<Seq<char>>,
) {
    if mode == HostContentionMode::Allow {
        (HostContentionStatus::Allowed, Seq::empty())
    } else if !readable {
        (HostContentionStatus::Unknown, Seq::empty())
    } else if signal_names(p).len() == 0 {
        (HostContentionStatus::Quiet, Seq::empty())
    } else {
        (HostContentionStatus::Contended, signal_names(p))
    }
}

/// Evaluate what was observed against the mode.
pub fn evaluate(mode: HostContentionMode, readable: bool, p: Pressure) -> (r: (
    HostContentionStatus,
    Vec<&'static str>,
))
    ensures
        r.0 == verdict(mode, readable, p).0,
        slices(r.1@) == verdict(mode, readable, p).1,
{
    let nothing: Vec<&'static str> = Vec::new();
    assert(slices(nothing@) =~= Seq::<Seq<char>>::empty());
    if mode == HostContentionMode::Allow {
        return (HostContentionStatus::Allowed, nothing);
    }
    if !readable {
        return (HostContentionStatus::Unknown, nothing);
    }
    let signals = collect_contention_signals(p);
    assert(slices(signals@).len() == signals@.len());
    if signals.len() == 0 {
        (HostContentionStatus::Quiet, nothing)
    } else {
        (HostContentionStatus::Contended, signals)
    }
}

/// An operator who opted out never sees a run marked as contended; a host that shows
/// nothing is never called contended either.
pub proof fn contention_needs_a_signal(mode: HostContentionMode, readable: bool, p: Pressure)
    ensures
        verdict(mode, readable, p).0 == HostContentionStatus::Contended ==> mode
            != HostContentionMode::Allow && readable && verdict(mode, readable, p).1.len() > 0,
        verdict(mode, readable, p).0 != HostContentionStatus::Contended ==> verdict(
            mode,
            readable,
            p,
        ).1.len() == 0,
{
}

/// Outcome of the pre-cell admission wait.
#[derive(Debug)]
pub enum AdmissionOutcome {
    Quiet,
    /// Timed out still contended; refused when the mode is Refuse.
    Timeout { detail: String },
    /// Mode is Allow, or signals are unavailable so that nothing can be gated.
    Skipped { reason: &'static str },
}

/// How long admission waits at most.
pub open spec fn timeout_for(mode: HostContentionMode, configured: u64) -> u64 {
    match mode {
        HostContentionMode::Refuse => configured,
        HostContentionMode::Mark => if configured < 2 {
            configured
        } else {
            2
        },
        HostContentionMode::Allow => 0,
    }
}

/// How long admission waits at most. Marking settles briefly: spending the full
/// refuse timeout would stall every cell on a noisy host.
pub fn admission_timeout_secs(mode: HostContentionMode, configured: u64) -> (r: u64)
    ensures
        r == timeout_for(mode, configured),
{
    match mode {
        HostContentionMode::Refuse => configured,
        HostContentionMode::Mark => if configured < 2 {
            configured
        } else {
            2
        },
        HostContentionMode::Allow => 0,
    }
}

/// Whether admission waits at all, decided on a first sample.
pub fn admission_skipped(mode: HostContentionMode, readable: bool) -> (r: Option<AdmissionOutcome>)
    ensures
        match r {
            Some(AdmissionOutcome::Skipped { reason }) => if mode == HostContentionMode::Allow {
                reason@ == "host-contention=allow"@
            } else {
                !readable && reason@ == "host pressure signals unavailable"@
            },
            Some(_) => false,
            None => mode != HostContentionMode::Allow && readable,
        },
{
    if mode == HostContentionMode::Allow {
        return Some(AdmissionOutcome::Skipped { reason: "host-contention=allow" });
    }
    if !readable {
        return Some(AdmissionOutcome::Skipped { reason: "host pressure signals unavailable" });
    }
    None
}

/// What one more sample means for a waiting cell: `None` is to wait on.
pub fn admission_step(p: Pressure, expired: bool, timeout_secs: u64) -> (r: Option<
    AdmissionOutcome,
>)
    ensures
        match r {
            Some(AdmissionOutcome::Quiet) => signal_names(p).len() == 0,
            Some(AdmissionOutcome::Timeout { detail }) => signal_names(p).len() > 0 && expired
                && detail@ == "still contended after "@ + decimal(timeout_secs as nat) + "s ("@
                + joined(signal_names(p), ","@) + ")"@,
            Some(AdmissionOutcome::Skipped { .. }) => false,
            None => signal_names(p).len() > 0 && !expired,
        },
{
    let signals = collect_contention_signals(p);
    assert(slices(signals@).len() == signals@.len());
    if signals.len() == 0 {
        return Some(AdmissionOutcome::Quiet);
    }
    if !expired {
        return None;
    }
    let secs = render(timeout_secs);
    let names = join_signals(&signals);
    let mut detail = concat3("still contended after ", secs.as_str(), "s (");
    detail.append(names.as_str());
    detail.append(")");
    Some(AdmissionOutcome::Timeout { detail })
}

// ---------------------------------------------------------------------------
// Reading /proc
// ---------------------------------------------------------------------------

/// One pressure resource (`some` / `full`). Averages are kept as text.
#[derive(Debug)]
pub struct PsiResource {
    pub some_avg10: String,
    pub some_total_us: u64,
    pub full_avg10: String,
    pub full_total_us: u64,
    pub available: bool,
}

/// What a pressure document says.
pub struct PsiText {
    pub some_avg10: Seq<char>,
    pub some_total_us: u64,
    pub full_avg10: Seq<char>,
    pub full_total_us: u64,
    pub available: bool,
}

impl View for PsiResource {
    type V = PsiText;

    open spec fn view(&self) -> PsiText {
        PsiText {
            some_avg10: self.some_avg10@,
            some_total_us: self.some_total_us,
            full_avg10: self.full_avg10@,
            full_total_us: self.full_total_us,
            available: self.available,
        }
    }
}

pub open spec fn no_pressure() -> PsiText {
    PsiText {
        some_avg10: "0"@,
        some_total_us: 0,
        full_avg10: "0"@,
        full_total_us: 0,
        available: false,
    }
}

/// What the first `n` tokens of a line say of the average, if it is a number.
pub open spec fn avg10_in(tokens: Seq<Seq<char>>, n: int) -> Option<Seq<char>>
    decreases n,
{
    if n <= 0 {
        None
    } else {
        let t = tokens[n - 1];
        if has_prefix(t, "avg10="@) {
            let v = t.subrange("avg10="@.len() as int, t.len() as int);
            if is_float_text(v) {
                Some(v)
            } else {
                None
            }
        } else {
            avg10_in(tokens, n - 1)
        }
    }
}

/// What the first `n` tokens of a line say of the total, if it is a number.
pub open spec fn total_in(tokens: Seq<Seq<char>>, n: int) -> Option<nat>
    decreases n,
{
    if n <= 0 {
        None
    } else {
        let t = tokens[n - 1];
        if !has_prefix(t, "avg10="@) && has_prefix(t, "total="@) {
            unsigned_of(t.subrange("total="@.len() as int, t.len() as int), u64::MAX as int)
        } else {
            total_in(tokens, n - 1)
        }
    }
}

/// One more line of a pressure document.
pub open spec fn psi_line(acc: PsiText, line: Seq<char>) -> PsiText {
    match split_once_text(line, ' ') {
        None => acc,
        Some((kind, rest)) => {
            let tokens = words_of(rest);
            let avg = avg10_in(tokens, tokens.len() as int);
            let total = total_in(tokens, tokens.len() as int);
            if kind == "some"@ {
                PsiText {
                    some_avg10: match avg {
                        Some(v) => v,
                        None => acc.some_avg10,
                    },
                    some_total_us: match total {
                        Some(v) => v as u64,
                        None => acc.some_total_us,
                    },
                    available: true,
                    ..acc
                }
            } else if kind == "full"@ {
                PsiText {
                    full_avg10: match avg {
                        Some(v) => v,
                        None => acc.full_avg10,
                    },
                    full_total_us: match total {
                        Some(v) => v as u64,
                        None => acc.full_total_us,
                    },
                    available: true,
                    ..acc
                }
            } else {
                acc
            }
        },
    }
}

/// The first `n` lines of a pressure document.
pub open spec fn psi_lines(lines: Seq<Seq<char>>, n: int) -> PsiText
    decreases n,
{
    if n <= 0 {
        no_pressure()
    } else {
        psi_line(psi_lines(lines, n - 1), lines[n - 1])
    }
}

fn parse_psi_kv(rest: &str) -> (r: (Option<String>, Option<u64>))
    ensures
        ({
            let tokens = words_of(rest@);
            &&& match (r.0, avg10_in(tokens, tokens.len() as int)) {
                (Some(a), Some(b)) => a@ == b,
                (None, None) => true,
                _ => false,
            }
            &&& match (r.1, total_in(tokens, tokens.len() as int)) {
                (Some(a), Some(b)) => a == b,
                (None, None) => true,
                _ => false,
            }
        }),
{
    let tokens = words(rest);
    let ghost all = words_of(rest@);
    let mut avg10: Option<String> = None;
    let mut total: Option<u64> = None;
    let mut i: usize = 0;
    while i < tokens.len()
        invariant
            i <= tokens@.len(),
            all == words_of(rest@),
            texts(tokens@) == all,
            match (avg10, avg10_in(all, i as int)) {
                (Some(a), Some(b)) => a@ == b,
                (None, None) => true,
                _ => false,
            },
            match (total, total_in(all, i as int)) {
                (Some(a), Some(b)) => a == b,
                (None, None) => true,
                _ => false,
            },
        decreases tokens@.len() - i,
    {
        assert(all[i as int] == tokens@[i as int]@);
        if let Some(value) = strip_prefix(tokens[i].as_str(), "avg10=") {
            avg10 = if float_text(value.as_str()) {
                Some(value)
            } else {
                None
            };
        } else if let Some(value) = strip_prefix(tokens[i].as_str(), "total=") {
            total = parse_u64(value.as_str());
        }
        i += 1;
    }
    assert(all.len() == tokens@.len());
    (avg10, total)
}

/// Parse one `/proc/pressure/{cpu,memory,io}` document.
#[must_use]
pub fn parse_psi(text: &str) -> (r: PsiResource)
    ensures
        r@ == psi_lines(lines_of(text@), lines_of(text@).len() as int),
{
    let all = lines(text);
    let ghost every = lines_of(text@);
    let mut r = PsiResource {
        some_avg10: "0".to_owned(),
        some_total_us: 0,
        full_avg10: "0".to_owned(),
        full_total_us: 0,
        available: false,
    };
    let mut i: usize = 0;
    while i < all.len()
        invariant
            i <= all@.len(),
            every == lines_of(text@),
            texts(all@) == every,
            r@ == psi_lines(every, i as int),
        decreases all@.len() - i,
    {
        assert(every[i as int] == all@[i as int]@);
        if let Some((kind, rest)) = split_once(all[i].as_str(), ' ') {
            let some = same(kind.as_str(), "some");
            if some || same(kind.as_str(), "full") {
                let (avg10, total) = parse_psi_kv(rest.as_str());
                if some {
                    if let Some(v) = avg10 {
                        r.some_avg10 = v;
                    }
                    if let Some(v) = total {
                        r.some_total_us = v;
                    }
                } else {
                    if let Some(v) = avg10 {
                        r.full_avg10 = v;
                    }
                    if let Some(v) = total {
                        r.full_total_us = v;
                    }
                }
                r.available = true;
            }
        }
        i += 1;
    }
    assert(every.len() == all@.len());
    r
}

/// The numbers among the first `n` words.
pub open spec fn numbers_in(words: Seq<Seq<char>>, n: int) -> Seq<u64>
    decreases n,
{
    if n <= 0 {
        Seq::empty()
    } else {
        match unsigned_of(words[n - 1], u64::MAX as int) {
            Some(v) => numbers_in(words, n - 1).push(v as u64),
            None => numbers_in(words, n - 1),
        }
    }
}

pub open spec fn sum_of(values: Seq<u64>) -> nat
    decreases values.len(),
{
    if values.len() == 0 {
        0
    } else {
        sum_of(values.drop_last()) + values.last() as nat
    }
}

/// The figures of the aggregate `cpu` line, if there is one.
pub open spec fn cpu_figures(text: Seq<char>) -> Option<Seq<u64>> {
    let lines = lines_of(text);
    let i = first_where(lines, beginning_with("cpu "@));
    if i < lines.len() {
        let words = words_of(lines[i]);
        if words.len() == 0 {
            None
        } else {
            let rest = words.drop_first();
            Some(numbers_in(rest, rest.len() as int))
        }
    } else {
        None
    }
}

proof fn lemma_sum_grows(values: Seq<u64>, n: int)
    requires
        0 <= n <= values.len(),
    ensures
        sum_of(values.take(n)) <= sum_of(values),
    decreases values.len() - n,
{
    if n < values.len() {
        lemma_sum_grows(values, n + 1);
        assert(values.take(n + 1).drop_last() =~= values.take(n));
    } else {
        assert(values.take(n) =~= values);
    }
}

fn line_figures(line: &str) -> (r: Option<Vec<u64>>)
    ensures
        ({
            let all = words_of(line@);
            match r {
                Some(v) => all.len() > 0 && v@ == numbers_in(all.drop_first(), all.len() - 1),
                None => all.len() == 0,
            }
        }),
{
    let fields = words(line);
    let ghost all = words_of(line@);
    assert(all.len() == fields@.len());
    if fields.len() == 0 {
        return None;
    }
    let ghost rest = all.drop_first();
    let mut values: Vec<u64> = Vec::new();
    let mut i: usize = 1;
    assert(values@ =~= numbers_in(rest, 0));
    while i < fields.len()
        invariant
            1 <= i <= fields@.len(),
            all == texts(fields@),
            rest == all.drop_first(),
            values@ == numbers_in(rest, i - 1),
        decreases fields@.len() - i,
    {
        assert(rest[i - 1] == fields@[i as int]@);
        if let Some(v) = parse_u64(fields[i].as_str()) {
            values.push(v);
        }
        i += 1;
    }
    Some(values)
}

fn stat_figures(text: &str) -> (r: Option<Vec<u64>>)
    ensures
        match r {
            Some(v) => cpu_figures(text@) == Some(v@),
            None => cpu_figures(text@) is None,
        },
{
    let all = lines(text);
    let ghost every = lines_of(text@);
    let ghost p = beginning_with("cpu "@);
    let mut i: usize = 0;
    while i < all.len()
        invariant
            i <= all@.len(),
            every == lines_of(text@),
            texts(all@) == every,
            p == beginning_with("cpu "@),
            forall|j: int| 0 <= j < i ==> !p(#[trigger] every[j]),
        decreases all@.len() - i,
    {
        assert(every[i as int] == all@[i as int]@);
        if starts_with(all[i].as_str(), "cpu ") {
            proof {
                lemma_first_where(every, p, i as int);
            }
            return line_figures(all[i].as_str());
        }
        i += 1;
    }
    proof {
        lemma_first_where(every, p, i as int);
        assert(every.len() == all@.len());
    }
    None
}

fn sum_figures(values: &Vec<u64>) -> (r: Option<u64>)
    ensures
        match r {
            Some(n) => n == sum_of(values@),
            None => sum_of(values@) > u64::MAX,
        },
{
    let mut total: u64 = 0;
    let mut k: usize = 0;
    assert(values@.take(0) =~= Seq::<u64>::empty());
    while k < values.len()
        invariant
            k <= values@.len(),
            total == sum_of(values@.take(k as int)),
        decreases values@.len() - k,
    {
        proof {
            lemma_sum_grows(values@, k + 1);
            assert(values@.take(k + 1).drop_last() =~= values@.take(k as int));
        }
        match total.checked_add(values[k]) {
            Some(n) => {
                total = n;
            },
            None => {
                return None;
            },
        }
        k += 1;
    }
    assert(values@.take(values@.len() as int) =~= values@);
    Some(total)
}

/// Whether the jiffies of the aggregate `cpu` line can be summed.
pub open spec fn jiffies_fit(text: Seq<char>) -> bool {
    cpu_figures(text) is Some ==> sum_of(cpu_figures(text)->0) <= u64::MAX
}

/// Whether the jiffies of the aggregate `cpu` line can be summed.
pub fn stat_sum_fits(text: &str) -> (r: bool)
    ensures
        r == jiffies_fit(text@),
{
    match stat_figures(text) {
        Some(values) => sum_figures(&values).is_some(),
        None => true,
    }
}

/// Parse aggregate steal and total jiffies from `/proc/stat`.
///
/// Returns `(steal, total_jiffies)`. `total` is the sum of every field on the `cpu`
/// line, so that a steal fraction is well-defined even when guest fields are absent.
#[must_use]
pub fn parse_stat_steal(text: &str) -> (r: Option<(u64, u64)>)
    requires
        jiffies_fit(text@),
    ensures
        match r {
            Some((steal, total)) => cpu_figures(text@) is Some && cpu_figures(text@)->0.len() >= 8
                && steal == cpu_figures(text@)->0[7] && total == sum_of(cpu_figures(text@)->0),
            None => cpu_figures(text@) is None || cpu_figures(text@)->0.len() < 8,
        },
{
    let values = match stat_figures(text) {
        Some(v) => v,
        None => {
            return None;
        },
    };
    if values.len() < 8 {
        return None;
    }
    match sum_figures(&values) {
        Some(total) => Some((values[7], total)),
        None => None,
    }
}

// ---------------------------------------------------------------------------
// Flags
// ---------------------------------------------------------------------------

/// The mode that the command line asks for, `mark` by default.
pub open spec fn mode_of_cli(cli: CliText) -> Result<HostContentionMode, Seq<char>> {
    let raw = cli.flag_or_empty("allow-host-contention"@);
    let opted = cli.flag("allow-host-contention"@) is Some && (raw.len() == 0 || raw == "1"@ || raw
        == "true"@ || raw == "on"@ || raw == "yes"@);
    let kept = cli.flag("allow-host-contention"@) is None || raw == "0"@ || raw == "false"@ || raw
        == "off"@ || raw == "no"@;
    if !opted && !kept {
        Err(
            "unknown --allow-host-contention value "@ + debug_text(raw)
                + " (want on/off, or omit the value)"@,
        )
    } else {
        match cli.flag("host-contention"@) {
            Some(v) => match mode_named(v) {
                Some(mode) => Ok(mode),
                None => Err(
                    "unknown --host-contention "@ + debug_text(v) + " (want refuse|mark|allow)"@,
                ),
            },
            None => if opted {
                Ok(HostContentionMode::Allow)
            } else {
                Ok(HostContentionMode::Mark)
            },
        }
    }
}

/// Reads the mode from the command line. Unknown values are errors.
pub fn policy_mode_from_cli(cli: &Cli) -> (r: Result<HostContentionMode, String>)
    ensures
        agrees(r, mode_of_cli(cli@)),
{
    let mut mode = HostContentionMode::Mark;
    if let Some(raw) = cli.flag("allow-host-contention") {
        let raw = raw.as_str();
        if raw.is_empty() || same(raw, "1") || same(raw, "true") || same(raw, "on") || same(
            raw,
            "yes",
        ) {
            mode = HostContentionMode::Allow;
        } else if !(same(raw, "0") || same(raw, "false") || same(raw, "off") || same(raw, "no")) {
            let shown = debug_quote(raw);
            return Err(
                concat3(
                    "unknown --allow-host-contention value ",
                    shown.as_str(),
                    " (want on/off, or omit the value)",
                ),
            );
        }
    }
    if let Some(raw) = cli.flag("host-contention") {
        match HostContentionMode::parse(raw.as_str()) {
            Some(m) => {
                mode = m;
            },
            None => {
                let shown = debug_quote(raw.as_str());
                return Err(
                    concat3(
                        "unknown --host-contention ",
                        shown.as_str(),
                        " (want refuse|mark|allow)",
                    ),
                );
            },
        }
    }
    Ok(mode)
}

/// A flag that has to be an unsigned integer.
pub open spec fn unsigned_flag(cli: CliText, name: Seq<char>, default: u64) -> Result<
    u64,
    Seq<char>,
> {
    match cli.flag(name) {
        None => Ok(default),
        Some(raw) => match unsigned_of(raw, u64::MAX as int) {
            Some(n) => Ok(n as u64),
            None => Err(
                "--"@ + name + " must be an unsigned integer, got "@ + debug_text(raw),
            ),
        },
    }
}

pub fn flag_u64(cli: &Cli, name: &str, default: u64) -> (r: Result<u64, String>)
    ensures
        agrees(r, unsigned_flag(cli@, name@, default)),
{
    match cli.flag(name) {
        None => Ok(default),
        Some(raw) => match parse_u64(raw.as_str()) {
            Some(n) => Ok(n),
            None => {
                let shown = debug_quote(raw.as_str());
                let mut out = concat3("--", name, " must be an unsigned integer, got ");
                out.append(shown.as_str());
                Err(out)
            },
        },
    }
}

/// The number that a flag gives, if it is set.
pub open spec fn number_flag(cli: CliText, name: Seq<char>) -> Result<
    Option<Seq<char>>,
    Seq<char>,
> {
    match cli.flag(name) {
        None => Ok(None),
        Some(raw) => if is_float_text(raw) {
            Ok(Some(raw))
        } else {
            Err("--"@ + name + " must be a number, got "@ + debug_text(raw))
        },
    }
}

/// The text of the number that a flag gives, if it is set.
pub fn flag_f64(cli: &Cli, name: &str) -> (r: Result<Option<String>, String>)
    ensures
        match (r, number_flag(cli@, name@)) {
            (Ok(Some(a)), Ok(Some(b))) => a@ == b,
            (Ok(None), Ok(None)) => true,
            (Err(e), Err(m)) => e@ == m,
            _ => false,
        },
{
    match cli.flag(name) {
        None => Ok(None),
        Some(raw) => if float_text(raw.as_str()) {
            Ok(Some(raw.clone()))
        } else {
            let shown = debug_quote(raw.as_str());
            let mut out = concat3("--", name, " must be a number, got ");
            out.append(shown.as_str());
            Err(out)
        },
    }
}

/// A policy whose thresholds are rendered.
#[derive(Debug)]
pub struct PolicyRendering {
    pub mode: HostContentionMode,
    pub cpu_psi_avg10_pct: String,
    pub mem_psi_avg10_pct: String,
    pub io_psi_avg10_pct: String,
    pub cpu_stall_pct: String,
    pub steal_pct: String,
    pub admission_timeout_secs: u64,
    pub admission_poll_ms: u64,
}

/// The names and thresholds of a host policy.
pub open spec fn fingerprint_parts(p: PolicyRendering) -> Seq<Seq<char>> {
    seq![
        "mode="@,
        p.mode.text(),
        ";cpu_avg10="@,
        p.cpu_psi_avg10_pct@,
        ";mem_avg10="@,
        p.mem_psi_avg10_pct@,
        ";io_avg10="@,
        p.io_psi_avg10_pct@,
        ";cpu_stall="@,
        p.cpu_stall_pct@,
        ";steal="@,
        p.steal_pct@,
        ";timeout_s="@,
        decimal(p.admission_timeout_secs as nat),
        ";poll_ms="@,
        decimal(p.admission_poll_ms as nat),
    ]
}

/// Identity of the complete policy: its mode and its thresholds.
pub open spec fn fingerprint_text(p: PolicyRendering) -> Seq<char> {
    run_together(fingerprint_parts(p))
}

/// Identity of the complete policy, from thresholds to seventeen places.
pub fn fingerprint(p: &PolicyRendering) -> (r: String)
    ensures
        r@ == fingerprint_text(*p),
{
    let timeout = render(p.admission_timeout_secs);
    let poll = render(p.admission_poll_ms);
    let parts: Vec<&str> = vec![
        "mode=",
        p.mode.as_str(),
        ";cpu_avg10=",
        p.cpu_psi_avg10_pct.as_str(),
        ";mem_avg10=",
        p.mem_psi_avg10_pct.as_str(),
        ";io_avg10=",
        p.io_psi_avg10_pct.as_str(),
        ";cpu_stall=",
        p.cpu_stall_pct.as_str(),
        ";steal=",
        p.steal_pct.as_str(),
        ";timeout_s=",
        timeout.as_str(),
        ";poll_ms=",
        poll.as_str(),
    ];
    assert(slices(parts@) =~= seq![
        "mode="@,
        p.mode.text(),
        ";cpu_avg10="@,
        p.cpu_psi_avg10_pct@,
        ";mem_avg10="@,
        p.mem_psi_avg10_pct@,
        ";io_avg10="@,
        p.io_psi_avg10_pct@,
        ";cpu_stall="@,
        p.cpu_stall_pct@,
        ";steal="@,
        p.steal_pct@,
        ";timeout_s="@,
        decimal(p.admission_timeout_secs as nat),
        ";poll_ms="@,
        decimal(p.admission_poll_ms as nat),
    ]);
    concat(&parts)
}

/// The flags that hand a policy on to a child process.
pub open spec fn policy_flags(p: PolicyRendering) -> Seq<Seq<char>> {
    seq![
        "--host-contention="@ + p.mode.text(),
        "--host-cpu-psi-avg10="@ + p.cpu_psi_avg10_pct@,
        "--host-mem-psi-avg10="@ + p.mem_psi_avg10_pct@,
        "--host-io-psi-avg10="@ + p.io_psi_avg10_pct@,
        "--host-cpu-stall-pct="@ + p.cpu_stall_pct@,
        "--host-steal-pct="@ + p.steal_pct@,
        "--host-contention-timeout-secs="@ + decimal(p.admission_timeout_secs as nat),
        "--host-contention-poll-ms="@ + decimal(p.admission_poll_ms as nat),
    ]
}

fn flag_with(name: &str, value: &str) -> (r: String)
    ensures
        r@ == name@ + value@,
{
    let mut out = name.to_owned();
    out.append(value);
    out
}

/// The flags that hand a policy on to a child process.
pub fn policy_argv(p: &PolicyRendering) -> (r: Vec<String>)
    ensures
        texts(r@) == policy_flags(*p),
{
    let timeout = render(p.admission_timeout_secs);
    let poll = render(p.admission_poll_ms);
    let args: Vec<String> = vec![
        flag_with("--host-contention=", p.mode.as_str()),
        flag_with("--host-cpu-psi-avg10=", p.cpu_psi_avg10_pct.as_str()),
        flag_with("--host-mem-psi-avg10=", p.mem_psi_avg10_pct.as_str()),
        flag_with("--host-io-psi-avg10=", p.io_psi_avg10_pct.as_str()),
        flag_with("--host-cpu-stall-pct=", p.cpu_stall_pct.as_str()),
        flag_with("--host-steal-pct=", p.steal_pct.as_str()),
        flag_with("--host-contention-timeout-secs=", timeout.as_str()),
        flag_with("--host-contention-poll-ms=", poll.as_str()),
    ];
    assert(texts(args@) =~= policy_flags(*p));
    args
}

/// The signals of a single sample: pressure only, since stall and steal need a
/// window.
pub fn instantaneous_signals(cpu: bool, memory: bool, io: bool) -> (r: Vec<&'static str>)
    ensures
        slices(r@) == flag_if(cpu, "cpu_psi"@) + flag_if(memory, "mem_psi"@) + flag_if(
            io,
            "io_psi"@,
        ),
        (r@.len() == 0) == !(cpu || memory || io),
{
    let p = Pressure { cpu_psi: cpu, cpu_stall: false, mem_psi: memory, io_psi: io, steal: false };
    let signals = collect_contention_signals(p);
    assert(slices(signals@) =~= flag_if(cpu, "cpu_psi"@) + flag_if(memory, "mem_psi"@) + flag_if(
        io,
        "io_psi"@,
    ));
    signals
}

/// One sample of the host.
#[derive(Debug)]
pub struct HostContentionSnapshot {
    pub cpu: PsiResource,
    pub memory: PsiResource,
    pub io: PsiResource,
    pub steal_jiffies: u64,
    /// All jiffies, for the fraction that was stolen.
    pub cpu_jiffies: u64,
    pub steal_available: bool,
}

/// A fraction, as its two parts.
#[derive(Clone, Copy, PartialEq, Eq, Debug, Structural)]
pub struct Share {
    pub part: u64,
    pub whole: u64,
}

/// What was left of `b` after `a` was there, or nothing where a counter went back.
pub open spec fn gained(a: u64, b: u64) -> u64 {
    if b > a {
        (b - a) as u64
    } else {
        0
    }
}

/// The share of a run in which something was stalled on the processors, where both ends
/// of the run can be read.
pub open spec fn stall_between(
    pre: HostContentionSnapshot,
    post: HostContentionSnapshot,
    elapsed_us: u64,
) -> Option<Share> {
    if pre.cpu.available && post.cpu.available && elapsed_us > 0 {
        Some(
            Share {
                part: gained(pre.cpu.some_total_us, post.cpu.some_total_us),
                whole: elapsed_us,
            },
        )
    } else {
        None
    }
}

/// The share of all jiffies that was stolen, where both ends of the run can be read.
pub open spec fn steal_between(
    pre: HostContentionSnapshot,
    post: HostContentionSnapshot,
) -> Option<Share> {
    if pre.steal_available && post.steal_available {
        if gained(pre.cpu_jiffies, post.cpu_jiffies) == 0 {
            Some(Share { part: 0, whole: 1 })
        } else {
            Some(
                Share {
                    part: gained(pre.steal_jiffies, post.steal_jiffies),
                    whole: gained(pre.cpu_jiffies, post.cpu_jiffies),
                },
            )
        }
    } else {
        None
    }
}

/// Whether anything could be read at either end of a run.
pub open spec fn readable_between(
    pre: HostContentionSnapshot,
    post: HostContentionSnapshot,
) -> bool {
    pre.cpu.available || post.cpu.available || pre.memory.available || post.memory.available
        || pre.io.available || post.io.available || pre.steal_available || post.steal_available
}

fn gain(a: u64, b: u64) -> (r: u64)
    ensures
        r == gained(a, b),
{
    if b > a {
        b - a
    } else {
        0
    }
}

/// How much of a run's time its processes stood still for want of a processor, where
/// both samples say and time passed.
pub fn stall_share(
    pre: &HostContentionSnapshot,
    post: &HostContentionSnapshot,
    elapsed_us: u64,
) -> (r: Option<Share>)
    ensures
        r == stall_between(*pre, *post, elapsed_us),
{
    if !pre.cpu.available || !post.cpu.available || elapsed_us == 0 {
        return None;
    }
    Some(Share { part: gain(pre.cpu.some_total_us, post.cpu.some_total_us), whole: elapsed_us })
}

/// How much of a run's processor time was stolen, where both samples say. Without
/// any processor time nothing was.
pub fn steal_share(pre: &HostContentionSnapshot, post: &HostContentionSnapshot) -> (r: Option<
    Share,
>)
    ensures
        r == steal_between(*pre, *post),
{
    if !pre.steal_available || !post.steal_available {
        return None;
    }
    let whole: u64 = gain(pre.cpu_jiffies, post.cpu_jiffies);
    if whole == 0 {
        return Some(Share { part: 0, whole: 1 });
    }
    Some(Share { part: gain(pre.steal_jiffies, post.steal_jiffies), whole })
}

/// Whether anything can be said of the host.
pub fn any_host_signal(pre: &HostContentionSnapshot, post: &HostContentionSnapshot) -> (r: bool)
    ensures
        r == readable_between(*pre, *post),
{
    pre.cpu.available || post.cpu.available || pre.memory.available || post.memory.available
        || pre.io.available || post.io.available || pre.steal_available || post.steal_available
}

} // verus!
