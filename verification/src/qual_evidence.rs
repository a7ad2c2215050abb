//! Machine-readable qualification evidence.
//!
//! The qualification harness prints one `key=value` line per run, and the receiver
//! process prints one `STATS key=value` line. Every token of both lines becomes a
//! field of the committed artifact; a line that cannot be represented is an error,
//! not a silently shorter schema.
use crate::json::{Escapes, json_string, json_text};
use crate::text::{
    beginning_with, chars_of, concat3, debug_quote, debug_text, decimal, first_where, float_text,
    has_prefix, is_float_text, lemma_first_where, lemma_texts_push, lines, lines_of, parse_i64,
    render, render_signed, same, signed_decimal, signed_of, sort, sorted_texts, sorting_is_exact,
    split_once, split_once_text, starts_with, strip_prefix, texts, trim, trimmed, words, words_of,
};
use crate::text_map::TextMap;
use vstd::prelude::*;

verus! {

/// One parsed value from a `key=value` line.
#[derive(Debug)]
pub enum EvidenceValue {
    /// An integer token.
    Int(i64),
    /// A fractional token (for example an `_ms` duration), as it is written out and as
    /// a message shows it.
    Fraction { written: String, shown: String },
    /// `true` or `false`.
    Bool(bool),
    /// Anything else, kept verbatim rather than coerced.
    Text(String),
}

/// What a value says.
pub enum ValueOf {
    Int(int),
    Fraction { written: Seq<char>, shown: Seq<char> },
    Bool(bool),
    Text(Seq<char>),
}

impl View for EvidenceValue {
    type V = ValueOf;

    open spec fn view(&self) -> ValueOf {
        match self {
            EvidenceValue::Int(n) => ValueOf::Int(*n as int),
            EvidenceValue::Fraction { written, shown } => ValueOf::Fraction {
                written: written@,
                shown: shown@,
            },
            EvidenceValue::Bool(b) => ValueOf::Bool(*b),
            EvidenceValue::Text(s) => ValueOf::Text(s@),
        }
    }
}

/// How a finite fraction reads: its digits, and how a message shows it. The two differ
/// only where a message shows an exponent.
#[derive(Debug)]
pub struct Reading {
    pub digits: String,
    pub shown: String,
}

/// What a reading says.
pub struct ReadingText {
    pub digits: Seq<char>,
    pub shown: Seq<char>,
}

impl View for Reading {
    type V = ReadingText;

    open spec fn view(&self) -> ReadingText {
        ReadingText { digits: self.digits@, shown: self.shown@ }
    }
}

/// What a reading says, if there is one.
pub open spec fn reading_of(reading: Option<Reading>) -> Option<ReadingText> {
    match reading {
        Some(r) => Some(r@),
        None => None,
    }
}

/// The fields of a line.
pub open spec fn fields_of(m: Map<Seq<char>, EvidenceValue>) -> Map<Seq<char>, ValueOf> {
    m.map_values(|v: EvidenceValue| v@)
}

/// A line without its label and without white space around it.
pub open spec fn body_of(line: Seq<char>, prefix: Seq<char>) -> Seq<char> {
    trimmed(
        if has_prefix(line, prefix) {
            line.subrange(prefix.len() as int, line.len() as int)
        } else {
            line
        },
    )
}

/// The tokens of a line.
pub open spec fn tokens_of(line: Seq<char>, prefix: Seq<char>) -> Seq<Seq<char>> {
    words_of(body_of(line, prefix))
}

/// The tokens of a line behind its label.
pub fn kv_tokens(line: &str, prefix: &str) -> (r: Vec<String>)
    ensures
        texts(r@) == tokens_of(line@, prefix@),
{
    let body = match strip_prefix(line, prefix) {
        Some(rest) => trim(rest.as_str()),
        None => trim(line),
    };
    words(body.as_str())
}

/// A fraction as it is written out: with a point, an exponent, or `.0` behind it.
pub open spec fn fraction_text(digits: Seq<char>) -> Seq<char> {
    if digits.contains('.') || digits.contains('e') || digits.contains('E') {
        digits
    } else {
        digits + ".0"@
    }
}

/// The integer halves of `free/capacity`.
pub open spec fn pool_of(value: Seq<char>) -> Option<(Seq<char>, Seq<char>)> {
    split_once_text(value, '/')
}

/// What one token adds to the fields, or why it cannot be represented. `reading` is
/// how the token's value reads as a finite fraction, if it is one.
pub open spec fn take_token(
    fields: Map<Seq<char>, ValueOf>,
    line: Seq<char>,
    token: Seq<char>,
    reading: Option<ReadingText>,
) -> Result<Map<Seq<char>, ValueOf>, Seq<char>> {
    match split_once_text(token, '=') {
        None => Err("token without '=' in "@ + debug_text(line) + ": "@ + debug_text(token)),
        Some((key, value)) => if key.len() == 0 {
            Err("empty key in "@ + debug_text(line) + ": "@ + debug_text(token))
        } else if key == "tx_pool"@ {
            match pool_of(value) {
                None => Err("tx_pool is not free/capacity: "@ + debug_text(token)),
                Some((free, capacity)) => match (signed_of(free), signed_of(capacity)) {
                    (Some(f), Some(c)) => Ok(
                        fields.insert("tx_pool_free"@, ValueOf::Int(f)).insert(
                            "tx_pool_capacity"@,
                            ValueOf::Int(c),
                        ),
                    ),
                    _ => Err("expected an integer in "@ + debug_text(token)),
                },
            }
        } else if let Some(n) = signed_of(value) {
            Ok(fields.insert(key, ValueOf::Int(n)))
        } else if is_float_text(value) {
            match reading {
                Some(r) => Ok(
                    fields.insert(
                        key,
                        ValueOf::Fraction { written: fraction_text(r.digits), shown: r.shown },
                    ),
                ),
                None => Err("non-finite numeric value: "@ + debug_text(token)),
            }
        } else if value == "true"@ {
            Ok(fields.insert(key, ValueOf::Bool(true)))
        } else if value == "false"@ {
            Ok(fields.insert(key, ValueOf::Bool(false)))
        } else {
            Ok(fields.insert(key, ValueOf::Text(value)))
        },
    }
}

/// What the tokens from `i` on add to the fields.
pub open spec fn take_tokens(
    fields: Map<Seq<char>, ValueOf>,
    line: Seq<char>,
    tokens: Seq<Seq<char>>,
    readings: Seq<Option<ReadingText>>,
    i: int,
) -> Result<Map<Seq<char>, ValueOf>, Seq<char>>
    decreases tokens.len() - i,
{
    if i < 0 || i >= tokens.len() {
        Ok(fields)
    } else {
        match take_token(fields, line, tokens[i], readings[i]) {
            Ok(more) => take_tokens(more, line, tokens, readings, i + 1),
            Err(e) => Err(e),
        }
    }
}

/// How each token reads as a finite fraction, if it is one.
pub open spec fn readings_of(readings: Seq<Option<Reading>>) -> Seq<Option<ReadingText>> {
    readings.map_values(|r: Option<Reading>| reading_of(r))
}

fn contains_char(s: &str, c: char) -> (r: bool)
    ensures
        r == s@.contains(c),
{
    let chars = chars_of(s);
    let mut i: usize = 0;
    while i < chars.len()
        invariant
            i <= chars@.len(),
            chars@ == s@,
            forall|j: int| 0 <= j < i ==> s@[j] != c,
        decreases chars@.len() - i,
    {
        if chars[i] == c {
            assert(s@[i as int] == c);
            return true;
        }
        i += 1;
    }
    false
}

fn about(message: &str, token: &str) -> (r: String)
    ensures
        r@ == message@ + debug_text(token@),
{
    let mut out = message.to_owned();
    out.append(debug_quote(token).as_str());
    out
}

fn about_line(message: &str, line: &str, token: &str) -> (r: String)
    ensures
        r@ == message@ + debug_text(line@) + ": "@ + debug_text(token@),
{
    let mut out = message.to_owned();
    out.append(debug_quote(line).as_str());
    out.append(": ");
    out.append(debug_quote(token).as_str());
    out
}

fn put(fields: &mut TextMap<EvidenceValue>, key: String, value: EvidenceValue)
    requires
        old(fields).wf(),
    ensures
        final(fields).wf(),
        fields_of(final(fields)@) == fields_of(old(fields)@).insert(key@, value@),
{
    let ghost before = fields@;
    fields.insert(key, value);
    assert(fields_of(fields@) =~= fields_of(before).insert(key@, value@));
}

fn parse_token(
    fields: &mut TextMap<EvidenceValue>,
    line: &str,
    token: &str,
    reading: &Option<Reading>,
) -> (r: Result<(), String>)
    requires
        old(fields).wf(),
    ensures
        final(fields).wf(),
        match (
            r,
            take_token(
                fields_of(old(fields)@),
                line@,
                token@,
                reading_of(*reading),
            ),
        ) {
            (Ok(()), Ok(more)) => fields_of(final(fields)@) == more,
            (Err(e), Err(m)) => e@ == m,
            _ => false,
        },
{
    let (key, value) = match split_once(token, '=') {
        Some(parts) => parts,
        None => {
            return Err(about_line("token without '=' in ", line, token));
        },
    };
    if key.as_str().is_empty() {
        return Err(about_line("empty key in ", line, token));
    }
    // `tx_pool` is printed as a pair; keep both halves as numbers.
    if same(key.as_str(), "tx_pool") {
        let (free, capacity) = match split_once(value.as_str(), '/') {
            Some(parts) => parts,
            None => {
                return Err(about("tx_pool is not free/capacity: ", token));
            },
        };
        return match (parse_i64(free.as_str()), parse_i64(capacity.as_str())) {
            (Some(f), Some(c)) => {
                put(fields, "tx_pool_free".to_owned(), EvidenceValue::Int(f));
                put(fields, "tx_pool_capacity".to_owned(), EvidenceValue::Int(c));
                Ok(())
            },
            _ => Err(about("expected an integer in ", token)),
        };
    }
    let parsed = if let Some(n) = parse_i64(value.as_str()) {
        EvidenceValue::Int(n)
    } else if float_text(value.as_str()) {
        match reading {
            Some(r) => {
                let mut written = r.digits.clone();
                if !contains_char(r.digits.as_str(), '.') && !contains_char(r.digits.as_str(), 'e')
                    && !contains_char(r.digits.as_str(), 'E') {
                    written.append(".0");
                }
                EvidenceValue::Fraction { written, shown: r.shown.clone() }
            },
            None => {
                return Err(about("non-finite numeric value: ", token));
            },
        }
    } else if same(value.as_str(), "true") {
        EvidenceValue::Bool(true)
    } else if same(value.as_str(), "false") {
        EvidenceValue::Bool(false)
    } else {
        EvidenceValue::Text(value)
    };
    put(fields, key, parsed);
    Ok(())
}

/// Parse one `key=value` line into every token it contains.
///
/// `prefix` is dropped from the front when present (the harness's own line label).
/// `tx_pool=free/capacity` is expanded into `tx_pool_free`/`tx_pool_capacity` so that
/// both halves survive as numbers. `readings` goes with the tokens: how each reads
/// as a finite fraction, if it is one.
pub fn parse_kv_line(line: &str, prefix: &str, readings: &Vec<Option<Reading>>) -> (r: Result<
    TextMap<EvidenceValue>,
    String,
>)
    requires
        readings@.len() == tokens_of(line@, prefix@).len(),
    ensures
        match (
            r,
            take_tokens(
                Map::empty(),
                line@,
                tokens_of(line@, prefix@),
                readings_of(readings@),
                0,
            ),
        ) {
            (Ok(fields), Ok(want)) => fields.wf() && fields_of(fields@) == want,
            (Err(e), Err(m)) => e@ == m,
            _ => false,
        },
{
    let tokens = kv_tokens(line, prefix);
    let ghost all = tokens_of(line@, prefix@);
    let ghost shown = readings_of(readings@);
    let ghost goal = take_tokens(Map::empty(), line@, all, shown, 0);
    let mut fields: TextMap<EvidenceValue> = TextMap::new();
    assert(fields_of(fields@) =~= Map::<Seq<char>, ValueOf>::empty());
    let mut i: usize = 0;
    while i < tokens.len()
        invariant
            i <= tokens@.len(),
            all == tokens_of(line@, prefix@),
            texts(tokens@) == all,
            readings@.len() == all.len(),
            shown == readings_of(readings@),
            fields.wf(),
            goal == take_tokens(Map::empty(), line@, all, shown, 0),
            take_tokens(fields_of(fields@), line@, all, shown, i as int) == goal,
        decreases tokens@.len() - i,
    {
        assert(all[i as int] == tokens@[i as int]@);
        assert(all.len() == tokens@.len());
        match parse_token(&mut fields, line, tokens[i].as_str(), &readings[i]) {
            Ok(()) => {},
            Err(e) => {
                return Err(e);
            },
        }
        i += 1;
    }
    assert(all.len() == tokens@.len());
    Ok(fields)
}

/// The key that a token is kept under: its own, but for the pool, which is kept
/// under two.
pub open spec fn token_key(token: Seq<char>) -> Option<Seq<char>> {
    match split_once_text(token, '=') {
        Some((key, _)) => Some(key),
        None => None,
    }
}

/// No token is lost: every key that a line gives is a field of what was parsed.
pub proof fn every_token_is_kept(
    fields: Map<Seq<char>, ValueOf>,
    line: Seq<char>,
    tokens: Seq<Seq<char>>,
    readings: Seq<Option<ReadingText>>,
    i: int,
    k: int,
)
    requires
        0 <= i <= k < tokens.len(),
        take_tokens(fields, line, tokens, readings, i) is Ok,
    ensures
        ({
            let all = take_tokens(fields, line, tokens, readings, i)->Ok_0;
            &&& token_key(tokens[k]) is Some
            &&& token_key(tokens[k])->0 == "tx_pool"@ ==> all.contains_key("tx_pool_free"@)
                && all.contains_key("tx_pool_capacity"@)
            &&& token_key(tokens[k])->0 != "tx_pool"@ ==> all.contains_key(token_key(tokens[k])->0)
        }),
    decreases tokens.len() - i,
{
    let more = take_token(fields, line, tokens[i], readings[i])->Ok_0;
    if i < k {
        every_token_is_kept(more, line, tokens, readings, i + 1, k);
    } else {
        if token_key(tokens[k])->0 == "tx_pool"@ {
            lemma_keys_stay(more, line, tokens, readings, i + 1, "tx_pool_free"@);
            lemma_keys_stay(more, line, tokens, readings, i + 1, "tx_pool_capacity"@);
        } else {
            lemma_keys_stay(more, line, tokens, readings, i + 1, token_key(tokens[k])->0);
        }
    }
}

proof fn lemma_keys_stay(
    fields: Map<Seq<char>, ValueOf>,
    line: Seq<char>,
    tokens: Seq<Seq<char>>,
    readings: Seq<Option<ReadingText>>,
    i: int,
    key: Seq<char>,
)
    requires
        0 <= i <= tokens.len(),
        fields.contains_key(key),
        take_tokens(fields, line, tokens, readings, i) is Ok,
    ensures
        take_tokens(fields, line, tokens, readings, i)->Ok_0.contains_key(key),
    decreases tokens.len() - i,
{
    if i < tokens.len() {
        let more = take_token(fields, line, tokens[i], readings[i])->Ok_0;
        lemma_keys_stay(more, line, tokens, readings, i + 1, key);
    }
}

// ---------------------------------------------------------------------------
// Runs
// ---------------------------------------------------------------------------

/// One run's evidence: every printed field of the sender line and of the receiver
/// line, plus both lines verbatim.
#[derive(Debug)]
pub struct RunEvidence {
    /// Destination population the run was configured for.
    pub fanout: u64,
    /// Fields of the sender's `SHARED_OWNER_QUAL` line.
    pub sender: TextMap<EvidenceValue>,
    /// Fields of the receiver's `STATS` line.
    pub receiver: TextMap<EvidenceValue>,
    /// Sender line, verbatim.
    pub raw_sender_stdout: String,
    /// Receiver line, verbatim.
    pub raw_receiver_stdout: String,
}

/// The integer under a key.
pub open spec fn int_at(fields: Map<Seq<char>, ValueOf>, key: Seq<char>) -> Option<int> {
    if fields.contains_key(key) {
        match fields[key] {
            ValueOf::Int(n) => Some(n),
            _ => None,
        }
    } else {
        None
    }
}

/// A field as a message shows it, present or not.
pub open spec fn field_shown(fields: Map<Seq<char>, ValueOf>, key: Seq<char>) -> Seq<char> {
    if fields.contains_key(key) {
        "Some("@ + match fields[key] {
            ValueOf::Int(n) => "Int("@ + signed_decimal(n),
            ValueOf::Fraction { written, shown } => "Float("@ + shown,
            ValueOf::Bool(b) => "Bool("@ + bool_text(b),
            ValueOf::Text(s) => "Text("@ + debug_text(s),
        } + "))"@
    } else {
        "None"@
    }
}

/// What is wrong with the fields of a sender line, if anything is: every tick that
/// was expected has to have been generated or missed.
pub open spec fn sender_error(fields: Map<Seq<char>, ValueOf>) -> Option<Seq<char>> {
    if !(int_at(fields, "fanout"@) is Some && int_at(fields, "fanout"@)->0 > 0) {
        Some("sender line has no positive fanout: "@ + field_shown(fields, "fanout"@))
    } else {
        match (
            int_at(fields, "expected_ticks"@),
            int_at(fields, "generated_ticks"@),
            int_at(fields, "missed_source_ticks"@),
        ) {
            (Some(expected), Some(generated), Some(missed)) => if expected == generated + missed {
                None
            } else {
                Some(
                    "source accounting does not reconcile: expected="@ + signed_decimal(expected)
                        + " generated="@ + signed_decimal(generated) + " missed="@
                        + signed_decimal(missed),
                )
            },
            _ => Some("sender line is missing the source-tick counters"@),
        }
    }
}

fn get_int(fields: &TextMap<EvidenceValue>, key: &str) -> (r: Option<i64>)
    ensures
        match r {
            Some(n) => int_at(fields_of(fields@), key@) == Some(n as int),
            None => int_at(fields_of(fields@), key@) is None,
        },
{
    match fields.get(key) {
        Some(EvidenceValue::Int(n)) => Some(*n),
        _ => None,
    }
}

fn show_field(fields: &TextMap<EvidenceValue>, key: &str) -> (r: String)
    ensures
        r@ == field_shown(fields_of(fields@), key@),
{
    match fields.get(key) {
        None => "None".to_owned(),
        Some(value) => {
            let inner = match value {
                EvidenceValue::Int(n) => {
                    let mut out = "Int(".to_owned();
                    out.append(render_signed(*n).as_str());
                    out
                },
                EvidenceValue::Fraction { written: _, shown } => {
                    let mut out = "Float(".to_owned();
                    out.append(shown.as_str());
                    out
                },
                EvidenceValue::Bool(b) => {
                    let mut out = "Bool(".to_owned();
                    out.append(
                        if *b {
                            "true"
                        } else {
                            "false"
                        },
                    );
                    out
                },
                EvidenceValue::Text(s) => {
                    let mut out = "Text(".to_owned();
                    out.append(debug_quote(s.as_str()).as_str());
                    out
                },
            };
            concat3("Some(", inner.as_str(), "))")
        },
    }
}

fn check_sender(fields: &TextMap<EvidenceValue>) -> (r: Result<u64, String>)
    ensures
        match r {
            Ok(fanout) => sender_error(fields_of(fields@)) is None && Some(fanout as int) == int_at(
                fields_of(fields@),
                "fanout"@,
            ),
            Err(e) => sender_error(fields_of(fields@)) == Some(e@),
        },
{
    let fanout: i64 = match get_int(fields, "fanout") {
        Some(n) => n,
        None => 0,
    };
    if fanout <= 0 {
        let mut out = "sender line has no positive fanout: ".to_owned();
        out.append(show_field(fields, "fanout").as_str());
        return Err(out);
    }
    match (
        get_int(fields, "expected_ticks"),
        get_int(fields, "generated_ticks"),
        get_int(fields, "missed_source_ticks"),
    ) {
        (Some(expected), Some(generated), Some(missed)) => {
            let sum: i128 = generated as i128 + missed as i128;
            if expected as i128 != sum {
                let mut out = "source accounting does not reconcile: expected=".to_owned();
                out.append(render_signed(expected).as_str());
                out.append(" generated=");
                out.append(render_signed(generated).as_str());
                out.append(" missed=");
                out.append(render_signed(missed).as_str());
                return Err(out);
            }
        },
        _ => {
            return Err("sender line is missing the source-tick counters".to_owned());
        },
    }
    Ok(fanout as u64)
}

/// Parse one harness sender line plus its receiver line into run evidence.
///
/// The reconciliation that the harness asserts is checked again here, so that a
/// committed artifact can never carry an unreconciled row.
pub fn parse_run(
    sender_line: &str,
    sender_readings: &Vec<Option<Reading>>,
    receiver_line: &str,
    receiver_readings: &Vec<Option<Reading>>,
) -> (r: Result<RunEvidence, String>)
    requires
        sender_readings@.len() == tokens_of(sender_line@, "SHARED_OWNER_QUAL"@).len(),
        receiver_readings@.len() == tokens_of(receiver_line@, "STATS"@).len(),
    ensures
        ({
            let sender = take_tokens(
                Map::empty(),
                sender_line@,
                tokens_of(sender_line@, "SHARED_OWNER_QUAL"@),
                readings_of(sender_readings@),
                0,
            );
            let receiver = take_tokens(
                Map::empty(),
                receiver_line@,
                tokens_of(receiver_line@, "STATS"@),
                readings_of(receiver_readings@),
                0,
            );
            match r {
                Ok(run) => {
                    &&& sender == Ok::<Map<Seq<char>, ValueOf>, Seq<char>>(fields_of(run.sender@))
                    &&& receiver == Ok::<Map<Seq<char>, ValueOf>, Seq<char>>(
                        fields_of(run.receiver@),
                    )
                    &&& run.sender.wf()
                    &&& run.receiver.wf()
                    &&& sender_error(fields_of(run.sender@)) is None
                    &&& Some(run.fanout as int) == int_at(fields_of(run.sender@), "fanout"@)
                    &&& run.raw_sender_stdout@ == trimmed(sender_line@)
                    &&& run.raw_receiver_stdout@ == trimmed(receiver_line@)
                },
                Err(e) => {
                    ||| sender is Err && e@ == sender->Err_0
                    ||| sender is Ok && receiver is Err && e@ == receiver->Err_0
                    ||| sender is Ok && receiver is Ok && sender_error(sender->Ok_0) == Some(e@)
                },
            }
        }),
{
    let sender = match parse_kv_line(sender_line, "SHARED_OWNER_QUAL", sender_readings) {
        Ok(v) => v,
        Err(e) => {
            return Err(e);
        },
    };
    let receiver = match parse_kv_line(receiver_line, "STATS", receiver_readings) {
        Ok(v) => v,
        Err(e) => {
            return Err(e);
        },
    };
    let fanout: u64 = match check_sender(&sender) {
        Ok(n) => n,
        Err(e) => {
            return Err(e);
        },
    };
    Ok(
        RunEvidence {
            fanout,
            sender,
            receiver,
            raw_sender_stdout: trim(sender_line),
            raw_receiver_stdout: trim(receiver_line),
        },
    )
}

/// Evidence that was accepted reconciles.
pub proof fn accepted_runs_reconcile(fields: Map<Seq<char>, ValueOf>)
    requires
        sender_error(fields) is None,
    ensures
        int_at(fields, "expected_ticks"@) is Some,
        int_at(fields, "expected_ticks"@)->0 == int_at(fields, "generated_ticks"@)->0 + int_at(
            fields,
            "missed_source_ticks"@,
        )->0,
        int_at(fields, "fanout"@)->0 > 0,
{
}

/// The first line of a log that begins with `label`.
pub fn first_line_with(log: &str, label: &str) -> (r: Option<String>)
    ensures
        ({
            let lines = lines_of(log@);
            let i = first_where(lines, beginning_with(label@));
            match r {
                Some(line) => i < lines.len() && line@ == lines[i],
                None => i == lines.len(),
            }
        }),
{
    let all = lines(log);
    let ghost every = lines_of(log@);
    let ghost p = beginning_with(label@);
    let mut i: usize = 0;
    while i < all.len()
        invariant
            i <= all@.len(),
            every == lines_of(log@),
            texts(all@) == every,
            p == beginning_with(label@),
            forall|j: int| 0 <= j < i ==> !p(#[trigger] every[j]),
        decreases all@.len() - i,
    {
        assert(every[i as int] == all@[i as int]@);
        if starts_with(all[i].as_str(), label) {
            proof {
                lemma_first_where(every, p, i as int);
            }
            return Some(all[i].clone());
        }
        i += 1;
    }
    proof {
        assert(every.len() == all@.len());
        lemma_first_where(every, p, i as int);
    }
    None
}

/// The last line of a log that begins with `label`.
pub fn last_line_with(log: &str, label: &str) -> (r: Option<String>)
    ensures
        ({
            let lines = lines_of(log@);
            match r {
                Some(line) => exists|i: int|
                    0 <= i < lines.len() && line@ == #[trigger] lines[i] && has_prefix(
                        lines[i],
                        label@,
                    ) && forall|j: int| i < j < lines.len() ==> !has_prefix(
                        #[trigger] lines[j],
                        label@,
                    ),
                None => forall|j: int| 0 <= j < lines.len() ==> !has_prefix(
                    #[trigger] lines[j],
                    label@,
                ),
            }
        }),
{
    let all = lines(log);
    let ghost every = lines_of(log@);
    let mut n: usize = all.len();
    assert(every.len() == all@.len());
    while n > 0
        invariant
            n <= all@.len() == every.len(),
            every == lines_of(log@),
            texts(all@) == every,
            forall|j: int| n <= j < every.len() ==> !has_prefix(#[trigger] every[j], label@),
        decreases n,
    {
        assert(every[n - 1] == all@[n - 1]@);
        if starts_with(all[n - 1].as_str(), label) {
            return Some(all[n - 1].clone());
        }
        n -= 1;
    }
    None
}

// ---------------------------------------------------------------------------
// The artifact
// ---------------------------------------------------------------------------

/// Provenance for one artifact: exactly which code and host produced it.
#[derive(Debug)]
pub struct Provenance {
    pub git_sha: String,
    /// Whether the measuring worktree had uncommitted changes.
    pub git_dirty: bool,
    pub kernel: String,
    pub machine: String,
    pub cpus: usize,
}

pub open spec fn bool_text(b: bool) -> Seq<char> {
    if b {
        "true"@
    } else {
        "false"@
    }
}

fn bool_name(b: bool) -> (r: &'static str)
    ensures
        r@ == bool_text(b),
{
    if b {
        "true"
    } else {
        "false"
    }
}

/// A text as the artifact quotes it.
pub open spec fn quoted(s: Seq<char>) -> Seq<char> {
    json_text(s, Escapes::BelowSpace)
}

fn quote(s: &str) -> (r: String)
    ensures
        r@ == quoted(s@),
{
    json_string(s, Escapes::BelowSpace)
}

/// A value as the artifact writes it.
pub open spec fn value_text(v: ValueOf) -> Seq<char> {
    match v {
        ValueOf::Int(n) => signed_decimal(n),
        ValueOf::Fraction { written, shown } => written,
        ValueOf::Bool(b) => bool_text(b),
        ValueOf::Text(s) => quoted(s),
    }
}

fn render_value(v: &EvidenceValue) -> (r: String)
    ensures
        r@ == value_text(v@),
{
    match v {
        EvidenceValue::Int(n) => render_signed(*n),
        EvidenceValue::Fraction { written, shown: _ } => written.clone(),
        EvidenceValue::Bool(b) => bool_name(*b).to_owned(),
        EvidenceValue::Text(s) => quote(s.as_str()),
    }
}

/// The lines of the first `n` fields, in ascending order of their keys.
pub open spec fn field_lines(
    keys: Seq<Seq<char>>,
    fields: Map<Seq<char>, ValueOf>,
    n: int,
) -> Seq<char>
    decreases n,
{
    if n <= 0 {
        Seq::empty()
    } else {
        field_lines(keys, fields, n - 1) + "        "@ + quoted(keys[n - 1]) + ": "@ + value_text(
            fields[keys[n - 1]],
        ) + (if n == keys.len() {
            ""@
        } else {
            ","@
        }) + "\n"@
    }
}

/// The fields of one line of a run.
pub open spec fn map_text(
    label: Seq<char>,
    keys: Seq<Seq<char>>,
    fields: Map<Seq<char>, ValueOf>,
) -> Seq<char> {
    let sorted = sorted_texts(keys);
    "      \""@ + label + "\": {\n"@ + field_lines(sorted, fields, sorted.len() as int)
        + "      },\n"@
}

fn write_map(out: &mut String, label: &str, map: &TextMap<EvidenceValue>)
    requires
        map.wf(),
    ensures
        final(out)@ == old(out)@ + map_text(label@, map.keys(), fields_of(map@)),
{
    let ghost before = out@;
    let ghost fields = fields_of(map@);
    out.append("      \"");
    out.append(label);
    out.append("\": {\n");
    let mut keys: Vec<String> = Vec::new();
    let mut i: usize = 0;
    while i < map.len()
        invariant
            i <= map.keys().len(),
            texts(keys@) == map.keys().take(i as int),
        decreases map.keys().len() - i,
    {
        let key = map.key_at(i).to_owned();
        proof {
            lemma_texts_push(keys@, key);
            assert(map.keys().take(i + 1) =~= map.keys().take(i as int).push(key@));
        }
        keys.push(key);
        i += 1;
    }
    assert(map.keys().take(map.keys().len() as int) =~= map.keys());
    let keys = sort(keys);
    let ghost sorted = sorted_texts(map.keys());
    proof {
        map.lemma_keys();
        sorting_is_exact(map.keys());
        map.keys().to_multiset_ensures();
        sorted.to_multiset_ensures();
    }
    let ghost head = out@;
    let mut i: usize = 0;
    assert(head + field_lines(sorted, fields, 0) =~= head);
    while i < keys.len()
        invariant
            i <= keys@.len() == sorted.len(),
            map.wf(),
            fields == fields_of(map@),
            texts(keys@) == sorted,
            sorted.to_multiset() == map.keys().to_multiset(),
            forall|k: Seq<char>| #[trigger] map.keys().contains(k) <==> map@.contains_key(k),
            out@ == head + field_lines(sorted, fields, i as int),
        decreases keys@.len() - i,
    {
        let ghost so_far = out@;
        let key = keys[i].as_str();
        proof {
            assert(sorted[i as int] == key@);
            sorted.to_multiset_ensures();
            map.keys().to_multiset_ensures();
            assert(sorted.contains(key@));
            assert(sorted.to_multiset().count(key@) > 0);
            assert(map.keys().to_multiset().count(key@) > 0);
            assert(map.keys().contains(key@));
        }
        out.append("        ");
        out.append(quote(key).as_str());
        out.append(": ");
        if let Some(v) = map.get(key) {
            out.append(render_value(v).as_str());
        }
        if i + 1 != keys.len() {
            out.append(",");
        } else {
            out.append("");
        }
        out.append("\n");
        assert(out@ =~= so_far + "        "@ + quoted(key@) + ": "@ + value_text(fields[key@]) + (
        if i + 1 == sorted.len() {
            ""@
        } else {
            ","@
        }) + "\n"@);
        i += 1;
        assert(out@ =~= head + field_lines(sorted, fields, i as int));
    }
    out.append("      },\n");
    assert(out@ =~= before + map_text(label@, map.keys(), fields));
}

/// One run of the artifact.
pub open spec fn run_text(run: RunEvidence, last: bool) -> Seq<char> {
    "    {\n      \"fanout\": "@ + decimal(run.fanout as nat)
        + ",\n      \"raw_sender_stdout\": "@ + quoted(run.raw_sender_stdout@)
        + ",\n      \"raw_receiver_stdout\": "@ + quoted(run.raw_receiver_stdout@) + ",\n"@
        + map_text("sender"@, run.sender.keys(), fields_of(run.sender@)) + map_text(
        "receiver"@,
        run.receiver.keys(),
        fields_of(run.receiver@),
    ) + "      \"row_end\": true\n    }"@ + (if last {
        ""@
    } else {
        ","@
    }) + "\n"@
}

/// The first `n` runs of the artifact.
pub open spec fn runs_text(runs: Seq<RunEvidence>, n: int) -> Seq<char>
    decreases n,
{
    if n <= 0 {
        Seq::empty()
    } else {
        runs_text(runs, n - 1) + run_text(runs[n - 1], n == runs.len())
    }
}

/// What stands before the runs.
pub open spec fn artifact_head(p: Provenance) -> Seq<char> {
    "{\n  \"kind\": \"srt-rs shared-Owner qualification (fixed K/H, one sender process, independent receiver process)\",\n  \"harness\": \"crates/srt-bench/benches/compio_shared_owner_qual.rs (sender) + `srt-bench runtime=compio mode=receiver` (receiver)\",\n"@
        + "  \"git_sha\": "@ + quoted(p.git_sha@) + ",\n  \"git_dirty\": "@ + bool_text(p.git_dirty)
        + ",\n  \"host\": {\n    \"kernel\": "@ + quoted(p.kernel@) + ",\n    \"machine\": "@
        + quoted(p.machine@) + ",\n    \"cpus\": "@ + decimal(p.cpus as nat) + "\n  },\n"@
        + "  \"field_notes\": {\n    \"sender\": \"every `key=value` token of raw_sender_stdout, parsed; `tx_pool=free/capacity` is expanded to tx_pool_free/tx_pool_capacity\",\n    \"receiver\": \"every `key=value` token of raw_receiver_stdout, parsed\",\n    \"raw_sender_stdout\": \"the harness's own output line for this run, verbatim\",\n    \"raw_receiver_stdout\": \"the receiver process's STATS line for this run, verbatim\"\n  },\n  \"rows\": [\n"@
}

/// The whole artifact.
pub open spec fn artifact_text(p: Provenance, runs: Seq<RunEvidence>) -> Seq<char> {
    artifact_head(p) + runs_text(runs, runs.len() as int) + "  ]\n}\n"@
}

fn write_run(out: &mut String, run: &RunEvidence, last: bool)
    requires
        run.sender.wf(),
        run.receiver.wf(),
    ensures
        final(out)@ == old(out)@ + run_text(*run, last),
{
    let ghost before = out@;
    out.append("    {\n      \"fanout\": ");
    out.append(render(run.fanout).as_str());
    out.append(",\n      \"raw_sender_stdout\": ");
    out.append(quote(run.raw_sender_stdout.as_str()).as_str());
    out.append(",\n      \"raw_receiver_stdout\": ");
    out.append(quote(run.raw_receiver_stdout.as_str()).as_str());
    out.append(",\n");
    write_map(out, "sender", &run.sender);
    write_map(out, "receiver", &run.receiver);
    out.append("      \"row_end\": true\n    }");
    if last {
        out.append("");
    } else {
        out.append(",");
    }
    out.append("\n");
    assert(out@ =~= before + run_text(*run, last));
}

/// Render the artifact as indented JSON. Every value is emitted, and any key or
/// string that needs escaping is escaped.
pub fn render_json(provenance: &Provenance, runs: &Vec<RunEvidence>) -> (r: String)
    requires
        forall|i: int|
            0 <= i < runs@.len() ==> (#[trigger] runs@[i]).sender.wf() && runs@[i].receiver.wf(),
    ensures
        r@ == artifact_text(*provenance, runs@),
{
    let mut out =
        "{\n  \"kind\": \"srt-rs shared-Owner qualification (fixed K/H, one sender process, independent receiver process)\",\n  \"harness\": \"crates/srt-bench/benches/compio_shared_owner_qual.rs (sender) + `srt-bench runtime=compio mode=receiver` (receiver)\",\n".to_owned();
    out.append("  \"git_sha\": ");
    out.append(quote(provenance.git_sha.as_str()).as_str());
    out.append(",\n  \"git_dirty\": ");
    out.append(bool_name(provenance.git_dirty));
    out.append(",\n  \"host\": {\n    \"kernel\": ");
    out.append(quote(provenance.kernel.as_str()).as_str());
    out.append(",\n    \"machine\": ");
    out.append(quote(provenance.machine.as_str()).as_str());
    out.append(",\n    \"cpus\": ");
    out.append(render(provenance.cpus as u64).as_str());
    out.append("\n  },\n");
    out.append(
        "  \"field_notes\": {\n    \"sender\": \"every `key=value` token of raw_sender_stdout, parsed; `tx_pool=free/capacity` is expanded to tx_pool_free/tx_pool_capacity\",\n    \"receiver\": \"every `key=value` token of raw_receiver_stdout, parsed\",\n    \"raw_sender_stdout\": \"the harness's own output line for this run, verbatim\",\n    \"raw_receiver_stdout\": \"the receiver process's STATS line for this run, verbatim\"\n  },\n  \"rows\": [\n",
    );
    let ghost head = artifact_head(*provenance);
    assert(out@ =~= head);
    let mut i: usize = 0;
    assert(head + runs_text(runs@, 0) =~= head);
    while i < runs.len()
        invariant
            i <= runs@.len(),
            forall|i: int|
                0 <= i < runs@.len() ==> (#[trigger] runs@[i]).sender.wf()
                    && runs@[i].receiver.wf(),
            out@ == head + runs_text(runs@, i as int),
        decreases runs@.len() - i,
    {
        let ghost so_far = out@;
        assert(runs@[i as int].sender.wf());
        write_run(&mut out, &runs[i], i + 1 == runs.len());
        i += 1;
        assert(out@ =~= head + runs_text(runs@, i as int));
    }
    out.append("  ]\n}\n");
    out
}

// ---------------------------------------------------------------------------
// Command line
// ---------------------------------------------------------------------------

/// Command-line shape for one artifact build.
#[derive(Debug)]
pub struct EvidenceArgs {
    pub git_sha: String,
    pub git_dirty: bool,
    pub out_path: String,
    /// Sender and receiver logs, in turn.
    pub logs: Vec<String>,
}

/// What an artifact command line says.
pub struct EvidenceArgsText {
    pub git_sha: Seq<char>,
    pub git_dirty: bool,
    pub out_path: Seq<char>,
    pub logs: Seq<Seq<char>>,
}

impl View for EvidenceArgs {
    type V = EvidenceArgsText;

    open spec fn view(&self) -> EvidenceArgsText {
        EvidenceArgsText {
            git_sha: self.git_sha@,
            git_dirty: self.git_dirty,
            out_path: self.out_path@,
            logs: texts(self.logs@),
        }
    }
}

/// The argument behind `i`, or the empty text.
pub open spec fn next_of(args: Seq<Seq<char>>, i: int) -> Seq<char> {
    if i + 1 < args.len() {
        args[i + 1]
    } else {
        Seq::empty()
    }
}

/// What `args` from `i` on add.
pub open spec fn evidence_args_from(
    args: Seq<Seq<char>>,
    i: int,
    acc: EvidenceArgsText,
) -> EvidenceArgsText
    decreases
        if i < args.len() {
            args.len() - i
        } else {
            0
        },
{
    if i < 0 || i >= args.len() {
        acc
    } else if args[i] == "--git-sha"@ {
        evidence_args_from(args, i + 2, EvidenceArgsText { git_sha: next_of(args, i), ..acc })
    } else if args[i] == "--git-dirty"@ {
        evidence_args_from(args, i + 1, EvidenceArgsText { git_dirty: true, ..acc })
    } else if args[i] == "--out"@ {
        evidence_args_from(args, i + 2, EvidenceArgsText { out_path: next_of(args, i), ..acc })
    } else {
        evidence_args_from(
            args,
            i + 1,
            EvidenceArgsText { logs: acc.logs.push(args[i]), ..acc },
        )
    }
}

/// Whether a command line names everything that an artifact needs, its logs in
/// pairs.
pub open spec fn evidence_args_complete(a: EvidenceArgsText) -> bool {
    a.git_sha.len() > 0 && a.out_path.len() > 0 && a.logs.len() > 0 && a.logs.len() % 2 == 0
}

pub open spec fn no_evidence_args() -> EvidenceArgsText {
    EvidenceArgsText {
        git_sha: Seq::empty(),
        git_dirty: false,
        out_path: Seq::empty(),
        logs: Seq::empty(),
    }
}

/// Reads the command line of an artifact build; the error is the usage.
pub fn parse_args(args: &Vec<String>) -> (r: Result<EvidenceArgs, &'static str>)
    ensures
        ({
            let want = evidence_args_from(texts(args@), 0, no_evidence_args());
            match r {
                Ok(a) => a@ == want && evidence_args_complete(want),
                Err(e) => !evidence_args_complete(want) && e@
                    == "usage: qual-evidence --git-sha <sha> [--git-dirty] --out <file.json> <send-log> <recv-log> [<send-log> <recv-log> ...]"@,
            }
        }),
{
    let ghost all = texts(args@);
    let ghost goal = evidence_args_from(all, 0, no_evidence_args());
    let mut cli = EvidenceArgs {
        git_sha: String::new(),
        git_dirty: false,
        out_path: String::new(),
        logs: Vec::new(),
    };
    assert(cli@.logs =~= Seq::<Seq<char>>::empty());
    let mut i: usize = 0;
    let n: usize = args.len();
    while i < n
        invariant_except_break
            evidence_args_from(all, i as int, cli@) == goal,
        invariant
            n == args@.len() == all.len(),
            all == texts(args@),
            goal == evidence_args_from(all, 0, no_evidence_args()),
        ensures
            cli@ == goal,
        decreases
            if i < n {
                n - i
            } else {
                0
            },
    {
        assert(all[i as int] == args@[i as int]@);
        if i + 1 < n {
            assert(all[i + 1] == args@[i + 1]@);
        }
        let word = args[i].as_str();
        if same(word, "--git-sha") {
            i += 1;
            cli.git_sha = if i < n {
                args[i].clone()
            } else {
                String::new()
            };
        } else if same(word, "--git-dirty") {
            cli.git_dirty = true;
        } else if same(word, "--out") {
            i += 1;
            cli.out_path = if i < n {
                args[i].clone()
            } else {
                String::new()
            };
        } else {
            let log = args[i].clone();
            proof {
                lemma_texts_push(cli.logs@, log);
            }
            cli.logs.push(log);
        }
        if i < n {
            i += 1;
        } else {
            assert(evidence_args_from(all, n + 1, cli@) == cli@);
            break;
        }
    }
    assert(cli@.logs.len() == cli.logs@.len());
    if cli.git_sha.as_str().is_empty() || cli.out_path.as_str().is_empty() || cli.logs.len() == 0
        || cli.logs.len() % 2 != 0 {
        return Err(
            "usage: qual-evidence --git-sha <sha> [--git-dirty] --out <file.json> <send-log> <recv-log> [<send-log> <recv-log> ...]",
        );
    }
    Ok(cli)
}

} // verus!
