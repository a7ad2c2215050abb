//! What a qualification's evidence holds.
use crate::qual_evidence::{
    EvidenceArgsText, Provenance, ReadingText, RunEvidence, ValueOf, artifact_head, artifact_text,
    bool_text, evidence_args_complete, evidence_args_from, fields_of, int_at, map_text,
    no_evidence_args, quoted, run_text, runs_text, sender_error, take_token, value_text,
};
use crate::qual_payload::{arrived_of, range_text};
use crate::scorecard_laws::{holds, lemma_holds_within};
use crate::text::{decimal, signed_decimal, signed_of, split_once_text};
use vstd::prelude::*;

verus! {

/// A tick has arrived exactly where it is in the window and came at least once.
pub proof fn arrived_ticks_came(window: u32, ticks: Seq<u32>, t: u32)
    ensures
        arrived_of(window, ticks).contains(t as int) <==> t < window && ticks.contains(t),
    decreases ticks.len(),
{
    if ticks.len() > 0 {
        let rest = ticks.drop_last();
        arrived_ticks_came(window, rest, t);
        if ticks.contains(t) {
            let i = ticks.index_of(t);
            if i < rest.len() {
                assert(rest[i] == t);
            }
        }
        if rest.contains(t) {
            assert(ticks[rest.index_of(t)] == t);
        }
        if ticks.last() == t {
            assert(ticks[ticks.len() - 1] == t);
        }
    }
}

/// A range of one tick is told by it, and a longer one by its first and last.
pub proof fn ranges_are_told_by_their_ends(a: u32, b: u32)
    ensures
        range_text((a, a)) == decimal(a as nat),
        a != b ==> range_text((a, b)) == decimal(a as nat) + "-"@ + decimal(b as nat),
{
}

/// A pool is told as what is free of what there is, and kept as both.
pub proof fn pools_are_free_of_capacity(
    fields: Map<Seq<char>, ValueOf>,
    line: Seq<char>,
    token: Seq<char>,
    reading: Option<ReadingText>,
    value: Seq<char>,
    a: Seq<char>,
    b: Seq<char>,
    free: int,
    capacity: int,
)
    requires
        split_once_text(token, '=') == Some(("tx_pool"@, value)),
        split_once_text(value, '/') == Some((a, b)),
        signed_of(a) == Some(free),
        signed_of(b) == Some(capacity),
    ensures
        take_token(fields, line, token, reading) is Ok,
        ({
            let all = take_token(fields, line, token, reading)->Ok_0;
            &&& all["tx_pool_free"@] == ValueOf::Int(free)
            &&& all["tx_pool_capacity"@] == ValueOf::Int(capacity)
            &&& forall|k: Seq<char>|
                k != "tx_pool_free"@ && k != "tx_pool_capacity"@ ==> (#[trigger] all.contains_key(k)
                    <==> fields.contains_key(k)) && (fields.contains_key(k) ==> all[k]
                    == fields[k])
        }),
{
    reveal_strlit("tx_pool");
    reveal_strlit("tx_pool_free");
    reveal_strlit("tx_pool_capacity");
    assert("tx_pool"@.len() == 7 && "tx_pool_free"@.len() == 12);
    assert("tx_pool_capacity"@.len() == 16);
}

/// A whole number is kept as one under its own name, and so is what is true or false;
/// nothing else of the line changes.
pub proof fn values_are_kept_under_their_names(
    fields: Map<Seq<char>, ValueOf>,
    line: Seq<char>,
    token: Seq<char>,
    reading: Option<ReadingText>,
    key: Seq<char>,
    value: Seq<char>,
    n: int,
)
    requires
        split_once_text(token, '=') == Some((key, value)),
        key.len() > 0,
        key != "tx_pool"@,
        take_token(fields, line, token, reading) is Ok,
    ensures
        ({
            let all = take_token(fields, line, token, reading)->Ok_0;
            &&& all.contains_key(key)
            &&& signed_of(value) == Some(n) ==> all[key] == ValueOf::Int(n)
            &&& all[key] == ValueOf::Int(n) ==> signed_of(value) == Some(n)
            &&& all[key] == ValueOf::Bool(true) ==> value == "true"@
            &&& all[key] == ValueOf::Bool(false) ==> value == "false"@
            &&& all[key] is Text ==> all[key] == ValueOf::Text(value)
            &&& forall|k: Seq<char>|
                k != key ==> (#[trigger] all.contains_key(k) <==> fields.contains_key(k)) && (
                fields.contains_key(k) ==> all[k] == fields[k])
        }),
{
    reveal_strlit("tx_pool");
}

/// A sender's line is accepted exactly where it has a positive fanout and every tick that
/// was expected was generated or missed.
pub proof fn sender_lines_are_accepted_where_they_reconcile(fields: Map<Seq<char>, ValueOf>)
    ensures
        sender_error(fields) is None <==> {
            &&& int_at(fields, "fanout"@) is Some && int_at(fields, "fanout"@)->0 > 0
            &&& int_at(fields, "expected_ticks"@) is Some
            &&& int_at(fields, "generated_ticks"@) is Some
            &&& int_at(fields, "missed_source_ticks"@) is Some
            &&& int_at(fields, "expected_ticks"@)->0 - int_at(fields, "missed_source_ticks"@)->0
                == int_at(fields, "generated_ticks"@)->0
        },
{
}

/// Values are written as what they are.
pub proof fn values_are_written_as_they_are(n: int, s: Seq<char>, shown: Seq<char>)
    ensures
        value_text(ValueOf::Int(n)) == signed_decimal(n),
        value_text(ValueOf::Bool(true)) == "true"@,
        value_text(ValueOf::Bool(false)) == "false"@,
        value_text(ValueOf::Fraction { written: s, shown }) == s,
        value_text(ValueOf::Text(s)) == quoted(s),
{
}

proof fn lemma_piece(a: Seq<char>, piece: Seq<char>, b: Seq<char>)
    ensures
        holds(a + piece + b, piece),
{
}

/// A run of the artifact holds its fanout and, each under its own name, what the sender and
/// the receiver said and what was read from it.
pub proof fn runs_hold_both_sides(run: RunEvidence, last: bool)
    ensures
        ({
            let text = run_text(run, last);
            &&& holds(text, "\"fanout\": "@ + decimal(run.fanout as nat))
            &&& holds(text, "\"raw_sender_stdout\": "@ + quoted(run.raw_sender_stdout@))
            &&& holds(text, "\"raw_receiver_stdout\": "@ + quoted(run.raw_receiver_stdout@))
            &&& holds(text, map_text("sender"@, run.sender.keys(), fields_of(run.sender@)))
            &&& holds(text, map_text("receiver"@, run.receiver.keys(), fields_of(run.receiver@)))
        }),
{
    reveal_strlit("    {\n      \"fanout\": ");
    reveal_strlit("\"fanout\": ");
    reveal_strlit("    {\n      ");
    reveal_strlit(",\n      \"raw_sender_stdout\": ");
    reveal_strlit("\"raw_sender_stdout\": ");
    reveal_strlit(",\n      ");
    reveal_strlit(",\n      \"raw_receiver_stdout\": ");
    reveal_strlit("\"raw_receiver_stdout\": ");
    assert("    {\n      \"fanout\": "@ =~= "    {\n      "@ + "\"fanout\": "@);
    assert(",\n      \"raw_sender_stdout\": "@ =~= ",\n      "@ + "\"raw_sender_stdout\": "@);
    assert(",\n      \"raw_receiver_stdout\": "@ =~= ",\n      "@ + "\"raw_receiver_stdout\": "@);
    let opening = "    {\n      "@;
    let next = ",\n      "@;
    let fanout = "\"fanout\": "@ + decimal(run.fanout as nat);
    let sent = "\"raw_sender_stdout\": "@ + quoted(run.raw_sender_stdout@);
    let received = "\"raw_receiver_stdout\": "@ + quoted(run.raw_receiver_stdout@);
    let sender = map_text("sender"@, run.sender.keys(), fields_of(run.sender@));
    let receiver = map_text("receiver"@, run.receiver.keys(), fields_of(run.receiver@));
    let closing = "      \"row_end\": true\n    }"@;
    let comma = if last {
        ""@
    } else {
        ","@
    };
    let a = opening + fanout;
    let b = next + sent;
    let c = next + received + ",\n"@;
    lemma_run(run, last, a, b, c);
    let tail = closing + comma + "\n"@;
    let text = run_text(run, last);
    assert(text == a + b + c + sender + receiver + tail);
    lemma_five(a, b, c, sender, receiver, tail);
    lemma_piece(opening, fanout, Seq::empty());
    assert(opening + fanout + Seq::<char>::empty() =~= a);
    lemma_piece(next, sent, Seq::empty());
    assert(next + sent + Seq::<char>::empty() =~= b);
    lemma_piece(next, received, ",\n"@);
    let none = Seq::<char>::empty();
    lemma_holds_within(a, fanout, none, b + c + sender + receiver + tail);
    assert(none + a + (b + c + sender + receiver + tail) =~= text);
    lemma_holds_within(b, sent, a, c + sender + receiver + tail);
    assert(a + b + (c + sender + receiver + tail) =~= text);
    lemma_holds_within(c, received, a + b, sender + receiver + tail);
    assert((a + b) + c + (sender + receiver + tail) =~= text);
}

proof fn lemma_five(
    a: Seq<char>,
    b: Seq<char>,
    c: Seq<char>,
    d: Seq<char>,
    e: Seq<char>,
    f: Seq<char>,
)
    ensures
        holds(a + b + c + d + e + f, d),
        holds(a + b + c + d + e + f, e),
{
    assert(a + b + c + d + e + f =~= (a + b + c) + d + (e + f));
    assert(a + b + c + d + e + f =~= (a + b + c + d) + e + f);
}

proof fn lemma_run(run: RunEvidence, last: bool, a: Seq<char>, b: Seq<char>, c: Seq<char>)
    requires
        a == "    {\n      "@ + ("\"fanout\": "@ + decimal(run.fanout as nat)),
        b == ",\n      "@ + ("\"raw_sender_stdout\": "@ + quoted(run.raw_sender_stdout@)),
        c == ",\n      "@ + ("\"raw_receiver_stdout\": "@ + quoted(run.raw_receiver_stdout@))
            + ",\n"@,
        "    {\n      \"fanout\": "@ == "    {\n      "@ + "\"fanout\": "@,
        ",\n      \"raw_sender_stdout\": "@ == ",\n      "@ + "\"raw_sender_stdout\": "@,
        ",\n      \"raw_receiver_stdout\": "@ == ",\n      "@ + "\"raw_receiver_stdout\": "@,
    ensures
        run_text(run, last) == a + b + c + map_text(
            "sender"@,
            run.sender.keys(),
            fields_of(run.sender@),
        ) + map_text("receiver"@, run.receiver.keys(), fields_of(run.receiver@)) + (
        "      \"row_end\": true\n    }"@ + (if last {
            ""@
        } else {
            ","@
        }) + "\n"@),
{
    let o = "    {\n      "@;
    let n = ",\n      "@;
    let f = "\"fanout\": "@;
    let s = "\"raw_sender_stdout\": "@;
    let r = "\"raw_receiver_stdout\": "@;
    let x = decimal(run.fanout as nat);
    let y = quoted(run.raw_sender_stdout@);
    let z = quoted(run.raw_receiver_stdout@);
    lemma_front(o, f, x, n, s, y, r, z, ",\n"@);
    let front = a + b + c;
    let sender = map_text("sender"@, run.sender.keys(), fields_of(run.sender@));
    let receiver = map_text("receiver"@, run.receiver.keys(), fields_of(run.receiver@));
    let closing = "      \"row_end\": true\n    }"@;
    let comma = if last {
        ""@
    } else {
        ","@
    };
    assert(run_text(run, last) == front + sender + receiver + closing + comma + "\n"@);
    assert(front + sender + receiver + closing + comma + "\n"@ =~= front + sender + receiver + (
    closing + comma + "\n"@));
}

proof fn lemma_front(
    o: Seq<char>,
    f: Seq<char>,
    x: Seq<char>,
    n: Seq<char>,
    s: Seq<char>,
    y: Seq<char>,
    r: Seq<char>,
    z: Seq<char>,
    e: Seq<char>,
)
    ensures
        (o + f) + x + (n + s) + y + (n + r) + z + e == (o + (f + x)) + (n + (s + y)) + (n + (r + z)
            + e),
{
    assert((o + f) + x =~= o + (f + x));
    assert((o + (f + x)) + (n + s) + y =~= (o + (f + x)) + (n + (s + y)));
    let a = (o + (f + x)) + (n + (s + y));
    assert(a + (n + r) + z + e =~= a + (n + (r + z) + e));
}

/// The artifact opens with where it comes from, and then has a run for each that was
/// measured.
pub proof fn artifacts_hold_their_runs(p: Provenance, runs: Seq<RunEvidence>, k: int)
    requires
        0 <= k < runs.len(),
    ensures
        holds(artifact_text(p, runs), artifact_head(p)),
        holds(artifact_text(p, runs), run_text(runs[k], k + 1 == runs.len())),
{
    let all = runs_text(runs, runs.len() as int);
    let end = "  ]\n}\n"@;
    lemma_runs(runs, runs.len() as int, k);
    lemma_holds_within(all, run_text(runs[k], k + 1 == runs.len()), artifact_head(p), end);
    let none = Seq::<char>::empty();
    assert(artifact_text(p, runs) =~= none + artifact_head(p) + (all + end));
}

proof fn lemma_runs(runs: Seq<RunEvidence>, n: int, k: int)
    requires
        0 <= k < n <= runs.len(),
    ensures
        holds(runs_text(runs, n), run_text(runs[k], k + 1 == runs.len())),
    decreases n,
{
    let before = runs_text(runs, n - 1);
    let last = run_text(runs[n - 1], n == runs.len());
    let none = Seq::<char>::empty();
    if k < n - 1 {
        lemma_runs(runs, n - 1, k);
        lemma_holds_within(before, run_text(runs[k], k + 1 == runs.len()), none, last);
        assert(none + before + last =~= before + last);
    } else {
        assert(before + last =~= before + last + none);
    }
}

/// The artifact says which commit was measured and whether it was changed, and on which
/// kernel, machine and processors.
pub proof fn artifacts_say_where_they_come_from(p: Provenance)
    ensures
        holds(
            artifact_head(p),
            "  \"git_sha\": "@ + quoted(p.git_sha@) + ",\n  \"git_dirty\": "@ + (if p.git_dirty {
                "true"@
            } else {
                "false"@
            }),
        ),
        holds(
            artifact_head(p),
            ",\n  \"host\": {\n    \"kernel\": "@ + quoted(p.kernel@) + ",\n    \"machine\": "@
                + quoted(p.machine@) + ",\n    \"cpus\": "@ + decimal(p.cpus as nat),
        ),
{
    let a = "{\n  \"kind\": \"srt-rs shared-Owner qualification (fixed K/H, one sender process, independent receiver process)\",\n  \"harness\": \"crates/srt-bench/benches/compio_shared_owner_qual.rs (sender) + `srt-bench runtime=compio mode=receiver` (receiver)\",\n"@;
    let b = "  \"git_sha\": "@;
    let c = quoted(p.git_sha@);
    let d = ",\n  \"git_dirty\": "@;
    let e = bool_text(p.git_dirty);
    let f = ",\n  \"host\": {\n    \"kernel\": "@;
    let g = quoted(p.kernel@);
    let h = ",\n    \"machine\": "@;
    let i = quoted(p.machine@);
    let j = ",\n    \"cpus\": "@;
    let k = decimal(p.cpus as nat);
    let l = "\n  },\n"@;
    let m = "  \"field_notes\": {\n    \"sender\": \"every `key=value` token of raw_sender_stdout, parsed; `tx_pool=free/capacity` is expanded to tx_pool_free/tx_pool_capacity\",\n    \"receiver\": \"every `key=value` token of raw_receiver_stdout, parsed\",\n    \"raw_sender_stdout\": \"the harness's own output line for this run, verbatim\",\n    \"raw_receiver_stdout\": \"the receiver process's STATS line for this run, verbatim\"\n  },\n  \"rows\": [\n"@;
    lemma_head(a, b, c, d, e, f, g, h, i, j, k, l, m);
}

proof fn lemma_head(
    a: Seq<char>,
    b: Seq<char>,
    c: Seq<char>,
    d: Seq<char>,
    e: Seq<char>,
    f: Seq<char>,
    g: Seq<char>,
    h: Seq<char>,
    i: Seq<char>,
    j: Seq<char>,
    k: Seq<char>,
    l: Seq<char>,
    m: Seq<char>,
)
    ensures
        holds(a + b + c + d + e + f + g + h + i + j + k + l + m, b + c + d + e),
        holds(a + b + c + d + e + f + g + h + i + j + k + l + m, f + g + h + i + j + k),
{
    let front = a + b + c + d + e;
    assert(front =~= a + (b + c + d + e));
    let host = f + g + h + i + j + k;
    let rest = f + g + h + i + j + k + l + m;
    assert(front + f + g + h + i + j + k =~= front + host);
    assert(front + host + l + m =~= front + host + (l + m));
    assert(front + host + (l + m) =~= a + (b + c + d + e) + (host + (l + m)));
}

/// A command line that names a commit, a file and pairs of logs is complete, and is read as
/// it says.
pub proof fn evidence_is_what_was_named(
    sha: Seq<char>,
    out: Seq<char>,
    sent: Seq<char>,
    received: Seq<char>,
)
    requires
        sha.len() > 0,
        out.len() > 0,
        sent != "--git-sha"@ && sent != "--git-dirty"@ && sent != "--out"@,
        received != "--git-sha"@ && received != "--git-dirty"@ && received != "--out"@,
    ensures
        ({
            let args = seq!["--git-sha"@, sha, "--out"@, out, sent, received];
            let dirty = seq!["--git-dirty"@] + args;
            let got = evidence_args_from(args, 0, no_evidence_args());
            &&& evidence_args_complete(got)
            &&& got.git_sha == sha && got.out_path == out && !got.git_dirty
            &&& got.logs == seq![sent, received]
            &&& evidence_args_from(dirty, 0, no_evidence_args()).git_dirty
        }),
{
    reveal_strlit("--git-sha");
    reveal_strlit("--git-dirty");
    reveal_strlit("--out");
    assert("--git-sha"@.len() == 9 && "--git-dirty"@.len() == 11 && "--out"@.len() == 5);
    let args = seq!["--git-sha"@, sha, "--out"@, out, sent, received];
    reveal_with_fuel(evidence_args_from, 8);
    let got = evidence_args_from(args, 0, no_evidence_args());
    assert(got.logs =~= seq![sent, received]);
    let dirty = seq!["--git-dirty"@] + args;
    lemma_dirty_stays(
        dirty,
        1,
        EvidenceArgsText { git_dirty: true, ..no_evidence_args() },
    );
}

proof fn lemma_dirty_stays(args: Seq<Seq<char>>, i: int, acc: EvidenceArgsText)
    requires
        acc.git_dirty,
        0 <= i,
    ensures
        evidence_args_from(args, i, acc).git_dirty,
    decreases
        if i < args.len() {
            args.len() - i
        } else {
            0
        },
{
    if i < args.len() {
        if args[i] == "--git-sha"@ {
            lemma_dirty_stays(
                args,
                i + 2,
                EvidenceArgsText { git_sha: crate::qual_evidence::next_of(args, i), ..acc },
            );
        } else if args[i] == "--git-dirty"@ {
            lemma_dirty_stays(args, i + 1, EvidenceArgsText { git_dirty: true, ..acc });
        } else if args[i] == "--out"@ {
            lemma_dirty_stays(
                args,
                i + 2,
                EvidenceArgsText { out_path: crate::qual_evidence::next_of(args, i), ..acc },
            );
        } else {
            lemma_dirty_stays(
                args,
                i + 1,
                EvidenceArgsText { logs: acc.logs.push(args[i]), ..acc },
            );
        }
    }
}

} // verus!
