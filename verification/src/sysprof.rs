//! Profiling one pair under `perf`: the commands, and what the counts file says.
use crate::cli::{Cli, CliText};
use crate::text::{
    decimal, float_text, is_float_text, lines, lines_of, render, split, split_once, split_once_text,
    split_text, texts, trim, trimmed,
};
use vstd::prelude::*;

verus! {

/// The event and the count that a line gives, if it gives them: the count comes
/// first and is a number, the event is the third value, after its subsystem.
pub open spec fn perf_entry(line: Seq<char>) -> Option<(Seq<char>, Seq<char>)> {
    let parts = split_text(line, ',');
    if parts.len() < 3 {
        None
    } else {
        match split_once_text(parts[2], ':') {
            Some((_, name)) => if is_float_text(trimmed(parts[0])) {
                Some((name, trimmed(parts[0])))
            } else {
                None
            },
            None => None,
        }
    }
}

/// The entries of the first `n` lines.
pub open spec fn perf_entries(all: Seq<Seq<char>>, n: int) -> Seq<(Seq<char>, Seq<char>)>
    decreases n,
{
    if n <= 0 {
        Seq::empty()
    } else {
        match perf_entry(all[n - 1]) {
            Some(e) => perf_entries(all, n - 1).push(e),
            None => perf_entries(all, n - 1),
        }
    }
}

pub open spec fn pairs_text(pairs: Seq<(String, String)>) -> Seq<(Seq<char>, Seq<char>)> {
    pairs.map_values(|p: (String, String)| (p.0@, p.1@))
}

fn parse_perf_line(line: &str) -> (r: Option<(String, String)>)
    ensures
        match (r, perf_entry(line@)) {
            (Some(a), Some(b)) => a.0@ == b.0 && a.1@ == b.1,
            (None, None) => true,
            _ => false,
        },
{
    let parts = split(line, ',');
    let ghost all = split_text(line@, ',');
    assert(all.len() == parts@.len());
    if parts.len() < 3 {
        return None;
    }
    assert(all[2] == parts@[2]@ && all[0] == parts@[0]@);
    match split_once(parts[2].as_str(), ':') {
        Some((_, name)) => {
            let count = trim(parts[0].as_str());
            if float_text(count.as_str()) {
                Some((name, count))
            } else {
                None
            }
        },
        None => None,
    }
}

/// The events of a counts file with their counts. Anything without a
/// `subsystem:event` in the third column is a comment or a heading.
pub fn parse_perf_csv(text: &str) -> (r: Vec<(String, String)>)
    ensures
        pairs_text(r@) == perf_entries(lines_of(text@), lines_of(text@).len() as int),
{
    let all = lines(text);
    let ghost want = lines_of(text@);
    let mut out: Vec<(String, String)> = Vec::new();
    let mut i: usize = 0;
    assert(pairs_text(out@) =~= perf_entries(want, 0));
    while i < all.len()
        invariant
            i <= all@.len(),
            want == lines_of(text@),
            texts(all@) == want,
            pairs_text(out@) == perf_entries(want, i as int),
        decreases all@.len() - i,
    {
        assert(want[i as int] == all@[i as int]@);
        if let Some(entry) = parse_perf_line(all[i].as_str()) {
            assert(pairs_text(out@.push(entry)) =~= pairs_text(out@).push((entry.0@, entry.1@)));
            out.push(entry);
        }
        i += 1;
    }
    assert(want.len() == all@.len());
    out
}

/// What a profile runs.
#[derive(Debug)]
pub struct SysprofPlan {
    pub runtime: String,
    pub connections: usize,
    pub secs: u64,
    pub latency: u16,
    pub dir: String,
}

/// The text of a flag, or a default.
pub open spec fn flag_text(cli: CliText, name: Seq<char>, default: Seq<char>) -> Seq<char> {
    match cli.flag(name) {
        Some(v) => v,
        None => default,
    }
}

/// The whole number of a flag, or a default.
pub open spec fn flag_count(cli: CliText, name: Seq<char>, max: int, default: nat) -> nat {
    match cli.number(name, max) {
        Some(n) => n,
        None => default,
    }
}

fn flag_or_text(cli: &Cli, name: &str, default: &str) -> (r: String)
    ensures
        r@ == flag_text(cli@, name@, default@),
{
    match cli.flag(name) {
        Some(v) => v.clone(),
        None => default.to_owned(),
    }
}

impl SysprofPlan {
    /// The plan that a command line asks for.
    pub fn of_cli(cli: &Cli) -> (r: Self)
        ensures
            r.runtime@ == flag_text(cli@, "runtime"@, "mio"@),
            r.connections == flag_count(cli@, "connections"@, usize::MAX as int, 25),
            r.secs == flag_count(cli@, "secs"@, u64::MAX as int, 8),
            r.latency == flag_count(cli@, "latency"@, u16::MAX as int, 120),
            r.dir@ == flag_text(cli@, "dir"@, "scratch"@),
    {
        SysprofPlan {
            runtime: flag_or_text(cli, "runtime", "mio"),
            connections: cli.flag_or("connections", 25),
            secs: cli.flag_or_u64("secs", 8),
            latency: cli.flag_or_u16("latency", 120),
            dir: flag_or_text(cli, "dir", "scratch"),
        }
    }
}

/// The arguments of the receiving side, which outlives the sending one by five
/// seconds.
pub open spec fn receiver_command(
    plan: SysprofPlan,
    port: u16,
    results: Seq<char>,
) -> Seq<Seq<char>> {
    seq![
        "runtime="@ + plan.runtime@,
        "mode=receiver"@,
        decimal(port as nat),
        decimal((plan.secs + 5) as nat),
        decimal(plan.latency as nat),
        "--connections="@ + decimal(plan.connections as nat),
        "--out="@ + results,
    ]
}

/// The arguments of the sending side.
pub open spec fn sender_command(plan: SysprofPlan, port: u16, results: Seq<char>) -> Seq<
    Seq<char>,
> {
    seq![
        "runtime="@ + plan.runtime@,
        "mode=sender"@,
        "127.0.0.1"@,
        decimal(port as nat),
        decimal(plan.secs as nat),
        decimal(plan.latency as nat),
        "--connections="@ + decimal(plan.connections as nat),
        "--out="@ + results,
    ]
}

fn with_prefix(prefix: &str, s: &str) -> (r: String)
    ensures
        r@ == prefix@ + s@,
{
    let mut out = prefix.to_owned();
    out.append(s);
    out
}

/// The arguments of the receiving side.
pub fn sysprof_receiver_args(plan: &SysprofPlan, port: u16, results: &str) -> (r: Vec<String>)
    requires
        plan.secs + 5 <= u64::MAX,
    ensures
        texts(r@) == receiver_command(*plan, port, results@),
{
    let connections = render(plan.connections as u64);
    let args: Vec<String> = vec![
        with_prefix("runtime=", plan.runtime.as_str()),
        "mode=receiver".to_owned(),
        render(port as u64),
        render(plan.secs + 5),
        render(plan.latency as u64),
        with_prefix("--connections=", connections.as_str()),
        with_prefix("--out=", results),
    ];
    assert(texts(args@) =~= receiver_command(*plan, port, results@));
    args
}

/// The arguments of the sending side.
pub fn sysprof_sender_args(plan: &SysprofPlan, port: u16, results: &str) -> (r: Vec<String>)
    ensures
        texts(r@) == sender_command(*plan, port, results@),
{
    let connections = render(plan.connections as u64);
    let args: Vec<String> = vec![
        with_prefix("runtime=", plan.runtime.as_str()),
        "mode=sender".to_owned(),
        "127.0.0.1".to_owned(),
        render(port as u64),
        render(plan.secs),
        render(plan.latency as u64),
        with_prefix("--connections=", connections.as_str()),
        with_prefix("--out=", results),
    ];
    assert(texts(args@) =~= sender_command(*plan, port, results@));
    args
}

} // verus!
