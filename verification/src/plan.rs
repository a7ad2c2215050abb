//! Sweep plans: which axes to sweep, and over which values.
use crate::cli::{Cli, CliText};
use crate::matrix::{Axis, AxisText, Scope, axes_text};
use crate::text::{
    agrees, being, concat3, debug_quote, debug_text, decimal, first_where, has_prefix, has_suffix,
    join, joined, lemma_first_where, lemma_pieces_shape, lemma_texts_push, lines, lines_of,
    nonempty, parse_u64, render, same, split, split_once, split_once_text, split_text, strip_prefix,
    strip_suffix, texts, trim, trimmed, unsigned_of,
};
use crate::text_map::TextMap;
use vstd::prelude::*;

verus! {

/// One line of a plan.
#[derive(Debug)]
pub struct PlanAxis {
    pub name: String,
    pub values: Vec<String>,
}

/// A plan as a list of names and values.
pub open spec fn plan_text(plan: Seq<PlanAxis>) -> Seq<(Seq<char>, Seq<Seq<char>>)> {
    plan.map_values(|a: PlanAxis| (a.name@, texts(a.values@)))
}

/// The values of a comma-separated list, trimmed.
pub open spec fn trimmed_list(s: Seq<char>) -> Seq<Seq<char>> {
    split_text(s, ',').map_values(|v: Seq<char>| trimmed(v))
}

/// The values of a comma-separated list, trimmed and without empty ones.
pub open spec fn listed(s: Seq<char>) -> Seq<Seq<char>> {
    nonempty(trimmed_list(s))
}

/// Splits a comma-separated list and trims its values.
pub fn split_list(s: &str) -> (r: Vec<String>)
    ensures
        texts(r@) == trimmed_list(s@),
{
    let parts = split(s, ',');
    let ghost want = trimmed_list(s@);
    let mut out: Vec<String> = Vec::new();
    let mut i: usize = 0;
    while i < parts.len()
        invariant
            i <= parts@.len(),
            texts(parts@) == split_text(s@, ','),
            want == trimmed_list(s@),
            texts(out@) == want.take(i as int),
        decreases parts@.len() - i,
    {
        let v = trim(parts[i].as_str());
        proof {
            assert(texts(parts@)[i as int] == parts@[i as int]@);
            lemma_texts_push(out@, v);
            assert(want.take(i + 1) =~= want.take(i as int).push(v@));
        }
        out.push(v);
        i += 1;
    }
    assert(want.take(want.len() as int) =~= want);
    out
}

/// Splits a comma-separated list, trims its values and drops empty ones.
pub fn split_values(s: &str) -> (r: Vec<String>)
    ensures
        texts(r@) == listed(s@),
{
    let parts = split_list(s);
    let ghost all = trimmed_list(s@);
    let mut out: Vec<String> = Vec::new();
    let mut i: usize = 0;
    assert(texts(out@) =~= nonempty(all.take(0)));
    while i < parts.len()
        invariant
            i <= parts@.len(),
            all == trimmed_list(s@),
            texts(parts@) == all,
            texts(out@) == nonempty(all.take(i as int)),
        decreases parts@.len() - i,
    {
        proof {
            assert(all.take(i + 1).drop_last() =~= all.take(i as int));
            assert(texts(parts@)[i as int] == parts@[i as int]@);
        }
        if !parts[i].as_str().is_empty() {
            let v = parts[i].clone();
            proof {
                lemma_texts_push(out@, v);
            }
            out.push(v);
        }
        i += 1;
    }
    assert(all.take(all.len() as int) =~= all);
    out
}

// ---------------------------------------------------------------------------
// Plan files
// ---------------------------------------------------------------------------

/// A plan line without its comment and without white space around it.
pub open spec fn plan_line(raw: Seq<char>) -> Seq<char> {
    trimmed(split_text(raw, '#')[0])
}

/// What stands between brackets, if the line is a section header.
pub open spec fn section_of(line: Seq<char>) -> Option<Seq<char>> {
    if has_prefix(line, "["@) && has_suffix(line.subrange("["@.len() as int, line.len() as int), "]"@) {
        let rest = line.subrange("["@.len() as int, line.len() as int);
        Some(trimmed(rest.subrange(0, rest.len() - "]"@.len())))
    } else {
        None
    }
}

/// The prefix that a section puts before the names under it. A section of any other
/// name ends the scope.
pub open spec fn section_prefix(section: Seq<char>) -> Seq<char> {
    if section == "recv"@ || section == "receiver"@ || section == "listener"@ {
        "recv-"@
    } else if section == "send"@ || section == "sender"@ || section == "caller"@ {
        "send-"@
    } else {
        Seq::empty()
    }
}

/// Whether a plan names an axis.
pub open spec fn plans(plan: Seq<(Seq<char>, Seq<Seq<char>>)>, name: Seq<char>) -> bool {
    exists|i: int| 0 <= i < plan.len() && (#[trigger] plan[i]).0 == name
}

/// What the lines from `i` on make of the plan so far, or the name that they give
/// twice.
pub open spec fn plan_from(
    lines: Seq<Seq<char>>,
    i: int,
    prefix: Seq<char>,
    plan: Seq<(Seq<char>, Seq<Seq<char>>)>,
) -> Result<Seq<(Seq<char>, Seq<Seq<char>>)>, Seq<char>>
    decreases lines.len() - i,
{
    if i < 0 || i >= lines.len() {
        Ok(plan)
    } else {
        let line = plan_line(lines[i]);
        if line.len() == 0 {
            plan_from(lines, i + 1, prefix, plan)
        } else if let Some(section) = section_of(line) {
            plan_from(lines, i + 1, section_prefix(section), plan)
        } else if let Some((name, values)) = split_once_text(line, '=') {
            let full = prefix + trimmed(name);
            if plans(plan, full) {
                Err(full)
            } else {
                plan_from(lines, i + 1, prefix, plan.push((full, listed(values))))
            }
        } else {
            plan_from(lines, i + 1, prefix, plan)
        }
    }
}

fn find_plan(plan: &Vec<PlanAxis>, name: &str) -> (r: Option<usize>)
    ensures
        match r {
            Some(i) => i < plan@.len() && plan@[i as int].name@ == name@ && plans(
                plan_text(plan@),
                name@,
            ) && planned(plan_text(plan@), name@) == Some(texts(plan@[i as int].values@)),
            None => !plans(plan_text(plan@), name@) && planned(plan_text(plan@), name@) is None,
        },
{
    let ghost all = plan_text(plan@);
    let mut i: usize = 0;
    while i < plan.len()
        invariant
            i <= plan@.len(),
            all == plan_text(plan@),
            forall|j: int| 0 <= j < i ==> (#[trigger] all[j]).0 != name@,
        decreases plan@.len() - i,
    {
        assert(all[i as int] == (plan@[i as int].name@, texts(plan@[i as int].values@)));
        if same(plan[i].name.as_str(), name) {
            proof {
                lemma_first_where(all, plan_named(name@), i as int);
                assert(all[i as int].0 == name@);
            }
            return Some(i);
        }
        i += 1;
    }
    proof {
        lemma_first_where(all, plan_named(name@), i as int);
    }
    None
}

/// The test for the plan entry of `name`.
pub open spec fn plan_named(name: Seq<char>) -> spec_fn((Seq<char>, Seq<Seq<char>>)) -> bool {
    |a: (Seq<char>, Seq<Seq<char>>)| a.0 == name
}

/// The values that a plan gives to an axis.
pub open spec fn planned(plan: Seq<(Seq<char>, Seq<Seq<char>>)>, name: Seq<char>) -> Option<
    Seq<Seq<char>>,
> {
    let i = first_where(plan, plan_named(name));
    if i < plan.len() {
        Some(plan[i].1)
    } else {
        None
    }
}

/// What is said of a plan that gives an axis twice.
pub fn describe_duplicate(path: &str, name: &str) -> (r: String)
    ensures
        r@ == debug_text(path@) + ": duplicate axis '"@ + name@ + "'"@,
{
    let mut out = debug_quote(path);
    out.append(": duplicate axis '");
    out.append(name);
    out.append("'");
    out
}

/// Read a declarative sweep plan: `axis = v1,v2,v3` per line, `#` for comments,
/// `[recv]` / `[send]` for keys of one role. The error is the name that the plan
/// gives twice.
pub fn parse_plan(text: &str) -> (r: Result<Vec<PlanAxis>, String>)
    ensures
        match (r, plan_from(lines_of(text@), 0, Seq::empty(), Seq::empty())) {
            (Ok(got), Ok(want)) => plan_text(got@) == want,
            (Err(got), Err(want)) => got@ == want,
            _ => false,
        },
{
    let all = lines(text);
    let ghost every = lines_of(text@);
    let ghost goal = plan_from(every, 0, Seq::empty(), Seq::empty());
    let mut plan: Vec<PlanAxis> = Vec::new();
    let mut prefix = String::new();
    let mut i: usize = 0;
    assert(plan_text(plan@) =~= Seq::<(Seq<char>, Seq<Seq<char>>)>::empty());
    while i < all.len()
        invariant
            i <= all@.len(),
            every == lines_of(text@),
            every == texts(all@),
            goal == plan_from(every, 0, Seq::empty(), Seq::empty()),
            plan_from(every, i as int, prefix@, plan_text(plan@)) == goal,
        decreases all@.len() - i,
    {
        assert(texts(all@)[i as int] == all@[i as int]@);
        let parts = split(all[i].as_str(), '#');
        proof {
            lemma_pieces_shape(all@[i as int]@, being('#'));
            assert(texts(parts@).len() == parts@.len());
            assert(texts(parts@)[0] == parts@[0]@);
        }
        let line = trim(parts[0].as_str());
        assert(line@ == plan_line(every[i as int]));
        if !line.as_str().is_empty() {
            if let Some(section) = parse_section(line.as_str()) {
                prefix = if same(section.as_str(), "recv") || same(section.as_str(), "receiver")
                    || same(section.as_str(), "listener") {
                    "recv-".to_owned()
                } else if same(section.as_str(), "send") || same(section.as_str(), "sender")
                    || same(section.as_str(), "caller") {
                    "send-".to_owned()
                } else {
                    String::new()
                };
            } else if let Some((name, values)) = split_once(line.as_str(), '=') {
                let mut full = prefix.clone();
                full.append(trim(name.as_str()).as_str());
                if find_plan(&plan, full.as_str()).is_some() {
                    return Err(full);
                }
                let axis = PlanAxis { name: full, values: split_values(values.as_str()) };
                assert(plan_text(plan@.push(axis)) =~= plan_text(plan@).push(
                    (axis.name@, texts(axis.values@)),
                ));
                plan.push(axis);
            }
        }
        i += 1;
    }
    Ok(plan)
}

fn parse_section(line: &str) -> (r: Option<String>)
    ensures
        match (r, section_of(line@)) {
            (Some(a), Some(b)) => a@ == b,
            (None, None) => true,
            _ => false,
        },
{
    match strip_prefix(line, "[") {
        Some(rest) => match strip_suffix(rest.as_str(), "]") {
            Some(inner) => Some(trim(inner.as_str())),
            None => None,
        },
        None => None,
    }
}

/// No axis is planned twice.
pub proof fn plans_name_each_axis_once(
    lines: Seq<Seq<char>>,
    i: int,
    prefix: Seq<char>,
    plan: Seq<(Seq<char>, Seq<Seq<char>>)>,
)
    requires
        forall|a: int, b: int| 0 <= a < plan.len() && 0 <= b < plan.len() && a != b ==> (
        #[trigger] plan[a]).0 != (#[trigger] plan[b]).0,
        plan_from(lines, i, prefix, plan) is Ok,
    ensures
        ({
            let all = plan_from(lines, i, prefix, plan)->Ok_0;
            forall|a: int, b: int| 0 <= a < all.len() && 0 <= b < all.len() && a != b ==> (
            #[trigger] all[a]).0 != (#[trigger] all[b]).0
        }),
    decreases lines.len() - i,
{
    if 0 <= i < lines.len() {
        let line = plan_line(lines[i]);
        if line.len() == 0 {
            plans_name_each_axis_once(lines, i + 1, prefix, plan);
        } else if let Some(section) = section_of(line) {
            plans_name_each_axis_once(lines, i + 1, section_prefix(section), plan);
        } else if let Some((name, values)) = split_once_text(line, '=') {
            let full = prefix + trimmed(name);
            let more = plan.push((full, listed(values)));
            assert forall|a: int, b: int|
                0 <= a < more.len() && 0 <= b < more.len() && a != b implies (
            #[trigger] more[a]).0 != (#[trigger] more[b]).0 by {
                if a == plan.len() {
                    assert(plan[b].0 != full);
                } else if b == plan.len() {
                    assert(plan[a].0 != full);
                } else {
                    assert(plan[a].0 != plan[b].0);
                }
            }
            plans_name_each_axis_once(lines, i + 1, prefix, more);
        } else {
            plans_name_each_axis_once(lines, i + 1, prefix, plan);
        }
    }
}

// ---------------------------------------------------------------------------
// Overrides
// ---------------------------------------------------------------------------

/// The axis that a name or alias stands for.
pub open spec fn canonical(name: Seq<char>) -> Option<Seq<char>> {
    let n = trimmed(name);
    if n == "runtime"@ {
        Some("runtime"@)
    } else if n == "runtimes"@ {
        Some("runtime"@)
    } else if n == "recv-runtime"@ {
        Some("recv-runtime"@)
    } else if n == "recv-runtimes"@ {
        Some("recv-runtime"@)
    } else if n == "send-runtime"@ {
        Some("send-runtime"@)
    } else if n == "send-runtimes"@ {
        Some("send-runtime"@)
    } else if n == "workers"@ {
        Some("workers"@)
    } else if n == "recv-workers"@ {
        Some("recv-workers"@)
    } else if n == "send-workers"@ {
        Some("send-workers"@)
    } else if n == "ingress"@ {
        Some("ingress"@)
    } else if n == "egress"@ {
        Some("egress"@)
    } else if n == "encryption"@ {
        Some("encryption"@)
    } else if n == "promotion"@ {
        Some("promotion"@)
    } else if n == "cookie-routing"@ {
        Some("cookie-routing"@)
    } else if n == "batch"@ {
        Some("batch"@)
    } else if n == "sock-buf"@ {
        Some("sock-buf"@)
    } else if n == "pin"@ {
        Some("pin"@)
    } else if n == "connections"@ {
        Some("connections"@)
    } else if n == "connect-concurrency"@ {
        Some("connect-concurrency"@)
    } else if n == "bond"@ {
        Some("bond"@)
    } else if n == "bitrate"@ {
        Some("bitrate"@)
    } else if n == "srt-bandwidth"@ {
        Some("srt-bandwidth"@)
    } else if n == "source-backlog-ms"@ {
        Some("source-backlog-ms"@)
    } else if n == "recv-rounds"@ {
        Some("recv-rounds"@)
    } else if n == "would-block"@ {
        Some("would-block"@)
    } else if n == "datapath-queue-horizon-ms"@ {
        Some("datapath-queue-horizon-ms"@)
    } else if n == "datapath-q-horizon-ms"@ {
        Some("datapath-queue-horizon-ms"@)
    } else if n == "outbound-retry-horizon-ms"@ {
        Some("outbound-retry-horizon-ms"@)
    } else if n == "retry-horizon-ms"@ {
        Some("outbound-retry-horizon-ms"@)
    } else if n == "link-delay"@ {
        Some("link-delay"@)
    } else if n == "link-jitter"@ {
        Some("link-jitter"@)
    } else if n == "link-loss"@ {
        Some("link-loss"@)
    } else if n == "link-rate"@ {
        Some("link-rate"@)
    } else if n == "link-reorder"@ {
        Some("link-reorder"@)
    } else if n == "link-duplicate"@ {
        Some("link-duplicate"@)
    } else if n == "link-corrupt"@ {
        Some("link-corrupt"@)
    } else if n == "link-limit"@ {
        Some("link-limit"@)
    } else {
        None
    }
}

fn canonical_axis_name(name: &str) -> (r: Option<&'static str>)
    ensures
        match (r, canonical(name@)) {
            (Some(a), Some(b)) => a@ == b,
            (None, None) => true,
            _ => false,
        },
{
    let n = trim(name);
    let n = n.as_str();
    if same(n, "runtime") {
        Some("runtime")
    } else if same(n, "runtimes") {
        Some("runtime")
    } else if same(n, "recv-runtime") {
        Some("recv-runtime")
    } else if same(n, "recv-runtimes") {
        Some("recv-runtime")
    } else if same(n, "send-runtime") {
        Some("send-runtime")
    } else if same(n, "send-runtimes") {
        Some("send-runtime")
    } else if same(n, "workers") {
        Some("workers")
    } else if same(n, "recv-workers") {
        Some("recv-workers")
    } else if same(n, "send-workers") {
        Some("send-workers")
    } else if same(n, "ingress") {
        Some("ingress")
    } else if same(n, "egress") {
        Some("egress")
    } else if same(n, "encryption") {
        Some("encryption")
    } else if same(n, "promotion") {
        Some("promotion")
    } else if same(n, "cookie-routing") {
        Some("cookie-routing")
    } else if same(n, "batch") {
        Some("batch")
    } else if same(n, "sock-buf") {
        Some("sock-buf")
    } else if same(n, "pin") {
        Some("pin")
    } else if same(n, "connections") {
        Some("connections")
    } else if same(n, "connect-concurrency") {
        Some("connect-concurrency")
    } else if same(n, "bond") {
        Some("bond")
    } else if same(n, "bitrate") {
        Some("bitrate")
    } else if same(n, "srt-bandwidth") {
        Some("srt-bandwidth")
    } else if same(n, "source-backlog-ms") {
        Some("source-backlog-ms")
    } else if same(n, "recv-rounds") {
        Some("recv-rounds")
    } else if same(n, "would-block") {
        Some("would-block")
    } else if same(n, "datapath-queue-horizon-ms") {
        Some("datapath-queue-horizon-ms")
    } else if same(n, "datapath-q-horizon-ms") {
        Some("datapath-queue-horizon-ms")
    } else if same(n, "outbound-retry-horizon-ms") {
        Some("outbound-retry-horizon-ms")
    } else if same(n, "retry-horizon-ms") {
        Some("outbound-retry-horizon-ms")
    } else if same(n, "link-delay") {
        Some("link-delay")
    } else if same(n, "link-jitter") {
        Some("link-jitter")
    } else if same(n, "link-loss") {
        Some("link-loss")
    } else if same(n, "link-rate") {
        Some("link-rate")
    } else if same(n, "link-reorder") {
        Some("link-reorder")
    } else if same(n, "link-duplicate") {
        Some("link-duplicate")
    } else if same(n, "link-corrupt") {
        Some("link-corrupt")
    } else if same(n, "link-limit") {
        Some("link-limit")
    } else {
        None
    }
}

/// What the `--axis` specifications from `i` on add, or why they cannot be used.
pub open spec fn overrides_from(
    specs: Seq<Seq<char>>,
    i: int,
    acc: Map<Seq<char>, Seq<Seq<char>>>,
) -> Result<Map<Seq<char>, Seq<Seq<char>>>, Seq<char>>
    decreases specs.len() - i,
{
    if i < 0 || i >= specs.len() {
        Ok(acc)
    } else {
        match split_once_text(specs[i], '=') {
            None => Err("--axis requires NAME=VALUE[,VALUE...] (got '"@ + specs[i] + "')"@),
            Some((name, values)) => match canonical(name) {
                None => Err("--axis: unknown matrix axis '"@ + name + "'"@),
                Some(axis) => if listed(values).len() == 0 {
                    Err("--axis "@ + axis + "=... must contain at least one value"@)
                } else if acc.contains_key(axis) {
                    Err("--axis '"@ + axis + "' was specified more than once"@)
                } else {
                    overrides_from(specs, i + 1, acc.insert(axis, listed(values)))
                },
            },
        }
    }
}

/// The values under each key.
pub open spec fn lists_text(m: Map<Seq<char>, Vec<String>>) -> Map<Seq<char>, Seq<Seq<char>>> {
    m.map_values(|v: Vec<String>| texts(v@))
}

/// The axes that `--axis name=v1,v2` gives on the command line.
pub fn axis_overrides(cli: &Cli) -> (r: Result<TextMap<Vec<String>>, String>)
    requires
        cli.wf(),
    ensures
        match (r, overrides_from(cli@.axes, 0, Map::empty())) {
            (Ok(got), Ok(want)) => got.wf() && lists_text(got@) == want,
            (Err(got), Err(want)) => got@ == want,
            _ => false,
        },
{
    let ghost goal = overrides_from(cli@.axes, 0, Map::empty());
    let mut overrides: TextMap<Vec<String>> = TextMap::new();
    assert(lists_text(overrides@) =~= Map::<Seq<char>, Seq<Seq<char>>>::empty());
    let specs = match cli.repeated.get("axis") {
        Some(v) => v,
        None => {
            return Ok(overrides);
        },
    };
    let mut i: usize = 0;
    while i < specs.len()
        invariant
            i <= specs@.len(),
            cli@.axes == texts(specs@),
            goal == overrides_from(cli@.axes, 0, Map::empty()),
            overrides.wf(),
            overrides_from(cli@.axes, i as int, lists_text(overrides@)) == goal,
        decreases specs@.len() - i,
    {
        let spec_text = specs[i].as_str();
        assert(texts(specs@)[i as int] == spec_text@);
        let (name, values) = match split_once(spec_text, '=') {
            Some(parts) => parts,
            None => {
                return Err(
                    concat3("--axis requires NAME=VALUE[,VALUE...] (got '", spec_text, "')"),
                );
            },
        };
        let axis = match canonical_axis_name(name.as_str()) {
            Some(axis) => axis,
            None => {
                return Err(concat3("--axis: unknown matrix axis '", name.as_str(), "'"));
            },
        };
        let list = split_values(values.as_str());
        assert(texts(list@).len() == list@.len());
        if list.len() == 0 {
            return Err(concat3("--axis ", axis, "=... must contain at least one value"));
        }
        if overrides.contains_key(axis) {
            return Err(concat3("--axis '", axis, "' was specified more than once"));
        }
        let ghost before = overrides@;
        overrides.insert(axis.to_owned(), list);
        assert(lists_text(overrides@) =~= lists_text(before).insert(axis@, texts(list@)));
        i += 1;
    }
    Ok(overrides)
}

// ---------------------------------------------------------------------------
// Order
// ---------------------------------------------------------------------------

/// In which order the runs of a sweep happen.
#[derive(Clone, Copy, PartialEq, Eq, Debug, Structural)]
pub enum MatrixOrder {
    Default,
    Interleaved,
    Random,
}

pub open spec fn order_named(s: Seq<char>) -> Option<MatrixOrder> {
    if s == "default"@ {
        Some(MatrixOrder::Default)
    } else if s == "interleaved"@ {
        Some(MatrixOrder::Interleaved)
    } else if s == "random"@ || s == "randomized"@ {
        Some(MatrixOrder::Random)
    } else {
        None
    }
}

/// The order and seed that the command line asks for.
pub open spec fn order_of(cli: CliText) -> Result<(MatrixOrder, u64), Seq<char>> {
    let name = match cli.flag("order"@) {
        Some(v) => v,
        None => "default"@,
    };
    match order_named(name) {
        None => Err(
            "--order: unknown value '"@ + name + "' (want default|interleaved|random)"@,
        ),
        Some(order) => match cli.flag("seed"@) {
            None => Ok((order, 0)),
            Some(v) => match unsigned_of(v, u64::MAX as int) {
                Some(n) => Ok((order, n as u64)),
                None => Err("--seed: invalid integer '"@ + v + "'"@),
            },
        },
    }
}

pub fn matrix_order(cli: &Cli) -> (r: Result<(MatrixOrder, u64), String>)
    ensures
        agrees(r, order_of(cli@)),
{
    let name = match cli.flag("order") {
        Some(v) => v.as_str(),
        None => "default",
    };
    let order = if same(name, "default") {
        MatrixOrder::Default
    } else if same(name, "interleaved") {
        MatrixOrder::Interleaved
    } else if same(name, "random") || same(name, "randomized") {
        MatrixOrder::Random
    } else {
        return Err(
            concat3(
                "--order: unknown value '",
                name,
                "' (want default|interleaved|random)",
            ),
        );
    };
    match cli.flag("seed") {
        None => Ok((order, 0)),
        Some(v) => match parse_u64(v.as_str()) {
            Some(n) => Ok((order, n)),
            None => Err(concat3("--seed: invalid integer '", v.as_str(), "'")),
        },
    }
}

// ---------------------------------------------------------------------------
// Resolving axes
// ---------------------------------------------------------------------------

/// Defaults of axes that the data path defines.
#[derive(Clone, Copy, Debug)]
pub struct AxisDefaults {
    pub source_backlog_ms: u64,
    pub datapath_queue_horizon_ms: u64,
    pub outbound_retry_horizon_ms: u64,
}

/// The axes of a sweep and the CPU sets of its roles.
#[derive(Debug)]
pub struct MatrixAxisConfig {
    pub axes: Vec<Axis>,
    pub recv_cpus: String,
    pub send_cpus: String,
}

/// The values of a flag, or the default.
pub open spec fn flag_values(cli: CliText, flag: Seq<char>, default: Seq<char>) -> Seq<Seq<char>> {
    if cli.flag_or_empty(flag).len() == 0 {
        seq![default]
    } else {
        trimmed_list(cli.flag_or_empty(flag))
    }
}

/// What a sweep is made from.
pub struct SweepText {
    pub cli: CliText,
    pub plan: Seq<(Seq<char>, Seq<Seq<char>>)>,
    pub overrides: Map<Seq<char>, Seq<Seq<char>>>,
}

impl SweepText {
    /// The values that an override or else the plan gives.
    pub open spec fn given(self, name: Seq<char>) -> Option<Seq<Seq<char>>> {
        if self.overrides.contains_key(name) {
            Some(self.overrides[name])
        } else {
            planned(self.plan, name)
        }
    }

    /// The values of an axis: an override before the plan, the plan before the
    /// flag, the flag before the default.
    pub open spec fn resolved(self, name: Seq<char>, flag: Seq<char>, default: Seq<char>) -> Seq<
        Seq<char>,
    > {
        match self.given(name) {
            Some(values) => values,
            None => flag_values(self.cli, flag, default),
        }
    }

    /// The values of an axis for one role, if any are given for it alone.
    pub open spec fn for_role(self, prefix: Seq<char>, name: Seq<char>, flag: Seq<char>) -> Option<
        Seq<Seq<char>>,
    > {
        match self.given(prefix + name) {
            Some(values) => Some(values),
            None => if self.cli.flag_or_empty(prefix + flag).len() == 0 {
                None
            } else {
                Some(trimmed_list(self.cli.flag_or_empty(prefix + flag)))
            },
        }
    }

    /// An axis that may be split by role: one shared axis, or one per role as soon
    /// as either role has values of its own.
    pub open spec fn role_axes(
        self,
        name: Seq<char>,
        flag: Seq<char>,
        default: Seq<char>,
    ) -> Seq<AxisText> {
        let recv = self.for_role("recv-"@, name, flag);
        let send = self.for_role("send-"@, name, flag);
        let shared = self.resolved(name, flag, default);
        if recv is None && send is None {
            seq![AxisText { name, scope: Scope::Both, values: shared }]
        } else {
            seq![
                AxisText {
                    name,
                    scope: Scope::Recv,
                    values: match recv {
                        Some(v) => v,
                        None => shared,
                    },
                },
                AxisText {
                    name,
                    scope: Scope::Send,
                    values: match send {
                        Some(v) => v,
                        None => shared,
                    },
                },
            ]
        }
    }

    /// The CPU set of a role: from the plan, or else from the command line.
    pub open spec fn cpus(self, role_key: Seq<char>) -> Seq<char> {
        let from_plan = match planned(self.plan, role_key) {
            Some(v) => Some(v),
            None => planned(self.plan, "cpus"@),
        };
        if from_plan is Some && from_plan->0.len() > 0 {
            from_plan->0[0]
        } else if self.cli.flag(role_key) is Some {
            self.cli.flag(role_key)->0
        } else {
            self.cli.flag_or_empty("cpus"@)
        }
    }

    /// All axes, in order.
    pub open spec fn axes(self, d: AxisDefaults) -> Seq<AxisText> {
        self.role_axes("runtime"@, "runtimes"@, "mio"@) + self.role_axes(
            "workers"@,
            "workers"@,
            "1"@,
        ) + shared_axes(d).map_values(self.shared_axis())
    }

    /// The axis for a name and its default.
    pub open spec fn shared_axis(self) -> spec_fn((Seq<char>, Seq<char>)) -> AxisText {
        |a: (Seq<char>, Seq<char>)|
            AxisText { name: a.0, scope: Scope::Both, values: self.resolved(a.0, a.0, a.1) }
    }

    /// Whether anything reads the plan's entry for `name`.
    pub open spec fn reads(self, d: AxisDefaults, name: Seq<char>) -> bool {
        ||| name == "recv-cpus"@ || name == "send-cpus"@
        ||| name == "cpus"@ && (planned(self.plan, "recv-cpus"@) is None || planned(
            self.plan,
            "send-cpus"@,
        ) is None)
        ||| name == "runtime"@ || name == "recv-runtime"@ || name == "send-runtime"@
        ||| name == "workers"@ || name == "recv-workers"@ || name == "send-workers"@
        ||| exists|i: int| 0 <= i < shared_axes(d).len() && (#[trigger] shared_axes(d)[i]).0 == name
    }

    /// The planned names that nothing reads.
    pub open spec fn unread(self, d: AxisDefaults, n: int) -> Seq<Seq<char>>
        decreases n,
    {
        if n <= 0 {
            Seq::empty()
        } else if self.reads(d, self.plan[n - 1].0) {
            self.unread(d, n - 1)
        } else {
            self.unread(d, n - 1).push(self.plan[n - 1].0)
        }
    }
}

/// The axes that always apply to both roles, with their defaults.
pub open spec fn shared_axes(d: AxisDefaults) -> Seq<(Seq<char>, Seq<char>)> {
    seq![
        ("ingress"@, "per-port"@),
        ("egress"@, "per-connection"@),
        ("encryption"@, "plain"@),
        ("promotion"@, "relocate"@),
        ("cookie-routing"@, "on"@),
        ("batch"@, "on"@),
        ("sock-buf"@, "16m"@),
        ("pin"@, "off"@),
        ("link-delay"@, "off"@),
        ("link-jitter"@, "off"@),
        ("link-loss"@, "off"@),
        ("link-rate"@, "off"@),
        ("link-reorder"@, "off"@),
        ("link-duplicate"@, "off"@),
        ("link-corrupt"@, "off"@),
        ("link-limit"@, "off"@),
        ("connections"@, "25"@),
        ("connect-concurrency"@, "1"@),
        ("bond"@, "none"@),
        ("bitrate"@, "8000000"@),
        ("srt-bandwidth"@, "legacy-source-fixed"@),
        ("source-backlog-ms"@, decimal(d.source_backlog_ms as nat)),
        ("recv-rounds"@, "8"@),
        ("would-block"@, "retain"@),
        ("datapath-queue-horizon-ms"@, decimal(d.datapath_queue_horizon_ms as nat)),
        ("outbound-retry-horizon-ms"@, decimal(d.outbound_retry_horizon_ms as nat)),
    ]
}

fn shared_axis_table(d: &AxisDefaults) -> (r: Vec<(&'static str, String)>)
    ensures
        r@.map_values(|a: (&'static str, String)| (a.0@, a.1@)) == shared_axes(*d),
{
    let table: Vec<(&'static str, String)> = vec![
        ("ingress", "per-port".to_owned()),
        ("egress", "per-connection".to_owned()),
        ("encryption", "plain".to_owned()),
        ("promotion", "relocate".to_owned()),
        ("cookie-routing", "on".to_owned()),
        ("batch", "on".to_owned()),
        ("sock-buf", "16m".to_owned()),
        ("pin", "off".to_owned()),
        ("link-delay", "off".to_owned()),
        ("link-jitter", "off".to_owned()),
        ("link-loss", "off".to_owned()),
        ("link-rate", "off".to_owned()),
        ("link-reorder", "off".to_owned()),
        ("link-duplicate", "off".to_owned()),
        ("link-corrupt", "off".to_owned()),
        ("link-limit", "off".to_owned()),
        ("connections", "25".to_owned()),
        ("connect-concurrency", "1".to_owned()),
        ("bond", "none".to_owned()),
        ("bitrate", "8000000".to_owned()),
        ("srt-bandwidth", "legacy-source-fixed".to_owned()),
        ("source-backlog-ms", render(d.source_backlog_ms)),
        ("recv-rounds", "8".to_owned()),
        ("would-block", "retain".to_owned()),
        ("datapath-queue-horizon-ms", render(d.datapath_queue_horizon_ms)),
        ("outbound-retry-horizon-ms", render(d.outbound_retry_horizon_ms)),
    ];
    assert(table@.map_values(|a: (&'static str, String)| (a.0@, a.1@)) =~= shared_axes(*d));
    table
}

fn axis_values(cli: &Cli, flag: &str, default: &str) -> (r: Vec<String>)
    ensures
        texts(r@) == flag_values(cli@, flag@, default@),
{
    let value = cli.scoped_flag(flag);
    if value.as_str().is_empty() {
        let mut out: Vec<String> = Vec::new();
        out.push(default.to_owned());
        assert(texts(out@) =~= seq![default@]);
        out
    } else {
        split_list(value.as_str())
    }
}

fn copy_texts(v: &Vec<String>) -> (r: Vec<String>)
    ensures
        texts(r@) == texts(v@),
{
    let mut out: Vec<String> = Vec::new();
    let mut i: usize = 0;
    while i < v.len()
        invariant
            i <= v@.len(),
            texts(out@) == texts(v@).take(i as int),
        decreases v@.len() - i,
    {
        let s = v[i].clone();
        proof {
            lemma_texts_push(out@, s);
            assert(texts(v@).take(i + 1) =~= texts(v@).take(i as int).push(s@));
        }
        out.push(s);
        i += 1;
    }
    assert(texts(v@).take(v@.len() as int) =~= texts(v@));
    out
}

/// What a sweep is made from.
struct Sweep<'a> {
    cli: &'a Cli,
    plan: &'a Vec<PlanAxis>,
    overrides: &'a TextMap<Vec<String>>,
}

impl<'a> Sweep<'a> {
    spec fn text(&self) -> SweepText {
        SweepText {
            cli: self.cli@,
            plan: plan_text(self.plan@),
            overrides: lists_text(self.overrides@),
        }
    }

    fn given(&self, name: &str) -> (r: Option<Vec<String>>)
        ensures
            match (r, self.text().given(name@)) {
                (Some(a), Some(b)) => texts(a@) == b,
                (None, None) => true,
                _ => false,
            },
    {
        match self.overrides.get(name) {
            Some(values) => Some(copy_texts(values)),
            None => match find_plan(self.plan, name) {
                Some(i) => Some(copy_texts(&self.plan[i].values)),
                None => None,
            },
        }
    }

    fn resolved(&self, name: &str, flag: &str, default: &str) -> (r: Vec<String>)
        ensures
            texts(r@) == self.text().resolved(name@, flag@, default@),
    {
        match self.given(name) {
            Some(values) => values,
            None => axis_values(self.cli, flag, default),
        }
    }

    fn for_role(&self, prefix: &str, name: &str, flag: &str) -> (r: Option<Vec<String>>)
        ensures
            match (r, self.text().for_role(prefix@, name@, flag@)) {
                (Some(a), Some(b)) => texts(a@) == b,
                (None, None) => true,
                _ => false,
            },
    {
        let mut scoped_name = prefix.to_owned();
        scoped_name.append(name);
        match self.given(scoped_name.as_str()) {
            Some(values) => Some(values),
            None => {
                let mut scoped_flag = prefix.to_owned();
                scoped_flag.append(flag);
                let value = self.cli.scoped_flag(scoped_flag.as_str());
                if value.as_str().is_empty() {
                    None
                } else {
                    Some(split_list(value.as_str()))
                }
            },
        }
    }

    /// Adds an axis that may be split by role.
    fn role_axis(&self, name: &str, flag: &str, default: &str, out: &mut Vec<Axis>)
        ensures
            axes_text(final(out)@) == axes_text(old(out)@) + self.text().role_axes(
                name@,
                flag@,
                default@,
            ),
    {
        let ghost before = axes_text(out@);
        let recv = self.for_role("recv-", name, flag);
        let send = self.for_role("send-", name, flag);
        if recv.is_none() && send.is_none() {
            out.push(
                Axis {
                    name: name.to_owned(),
                    scope: Scope::Both,
                    values: self.resolved(name, flag, default),
                },
            );
        } else {
            let recv_values = match recv {
                Some(v) => v,
                None => self.resolved(name, flag, default),
            };
            let send_values = match send {
                Some(v) => v,
                None => self.resolved(name, flag, default),
            };
            out.push(Axis { name: name.to_owned(), scope: Scope::Recv, values: recv_values });
            out.push(Axis { name: name.to_owned(), scope: Scope::Send, values: send_values });
        }
        assert(axes_text(out@) =~= before + self.text().role_axes(name@, flag@, default@));
    }

    fn cpu_set(&self, role_key: &str) -> (r: String)
        ensures
            r@ == self.text().cpus(role_key@),
    {
        let found: Option<usize> = match find_plan(self.plan, role_key) {
            Some(i) => Some(i),
            None => find_plan(self.plan, "cpus"),
        };
        if let Some(i) = found {
            assert(texts(self.plan@[i as int].values@).len() == self.plan@[i as int].values@.len());
            if self.plan[i].values.len() > 0 {
                assert(texts(self.plan@[i as int].values@)[0] == self.plan@[i as int].values@[0]@);
                return self.plan[i].values[0].clone();
            }
        }
        match self.cli.flag(role_key) {
            Some(v) => v.clone(),
            None => self.cli.scoped_flag("cpus"),
        }
    }

    fn is_read(&self, d: &AxisDefaults, name: &str) -> (r: bool)
        ensures
            r == self.text().reads(*d, name@),
    {
        if same(name, "recv-cpus") || same(name, "send-cpus") || same(name, "runtime") || same(
            name,
            "recv-runtime",
        ) || same(name, "send-runtime") || same(name, "workers") || same(name, "recv-workers")
            || same(name, "send-workers") {
            return true;
        }
        if same(name, "cpus") && (find_plan(self.plan, "recv-cpus").is_none() || find_plan(
            self.plan,
            "send-cpus",
        ).is_none()) {
            return true;
        }
        let table = shared_axis_table(d);
        let ghost all = shared_axes(*d);
        let mut i: usize = 0;
        while i < table.len()
            invariant
                i <= table@.len(),
                all == shared_axes(*d),
                table@.map_values(|a: (&'static str, String)| (a.0@, a.1@)) == all,
                forall|j: int| 0 <= j < i ==> (#[trigger] all[j]).0 != name@,
            decreases table@.len() - i,
        {
            assert(table@.map_values(|a: (&'static str, String)| (a.0@, a.1@))[i as int]
                == (table@[i as int].0@, table@[i as int].1@));
            if same(table[i].0, name) {
                assert(shared_axes(*d)[i as int].0 == name@);
                return true;
            }
            i += 1;
        }
        assert(table@.map_values(|a: (&'static str, String)| (a.0@, a.1@)).len() == table@.len());
        false
    }
}

/// What a plan that nothing reads in full is answered.
pub open spec fn unread_text(names: Seq<Seq<char>>) -> Seq<char> {
    "plan declares axes nothing reads: "@ + joined(names, ", "@)
        + " -- check for a typo, or an axis that isn't (or is no longer) role-splittable"@
}

/// Resolves every axis of a sweep from the command line and a plan.
///
/// An explicit `--axis name=value` overrides a plan value; anything the plan omits
/// falls back to the CLI flag and then to the built-in default. A plan key that
/// nothing reads is an error rather than a silently ignored line.
pub fn resolve_matrix_axes(cli: &Cli, plan: &Vec<PlanAxis>, defaults: &AxisDefaults) -> (r: Result<
    MatrixAxisConfig,
    String,
>)
    requires
        cli.wf(),
    ensures
        match overrides_from(cli@.axes, 0, Map::empty()) {
            Err(e) => r is Err && r->Err_0@ == e,
            Ok(overrides) => {
                let sweep = SweepText { cli: cli@, plan: plan_text(plan@), overrides };
                let unread = sweep.unread(*defaults, plan@.len() as int);
                match r {
                    Ok(config) => {
                        &&& unread.len() == 0
                        &&& axes_text(config.axes@) == sweep.axes(*defaults)
                        &&& config.recv_cpus@ == sweep.cpus("recv-cpus"@)
                        &&& config.send_cpus@ == sweep.cpus("send-cpus"@)
                    },
                    Err(e) => unread.len() > 0 && e@ == unread_text(unread),
                }
            },
        },
{
    let overrides = match axis_overrides(cli) {
        Ok(v) => v,
        Err(e) => {
            return Err(e);
        },
    };
    let sweep = Sweep { cli, plan, overrides: &overrides };
    let ghost text = sweep.text();
    let mut axes: Vec<Axis> = Vec::new();
    assert(axes_text(axes@) =~= Seq::<AxisText>::empty());
    sweep.role_axis("runtime", "runtimes", "mio", &mut axes);
    sweep.role_axis("workers", "workers", "1", &mut axes);
    let ghost split = axes_text(axes@);
    assert(split =~= text.role_axes("runtime"@, "runtimes"@, "mio"@) + text.role_axes(
        "workers"@,
        "workers"@,
        "1"@,
    ));
    let table = shared_axis_table(defaults);
    let ghost all = shared_axes(*defaults);
    let ghost shape = |a: (&'static str, String)| (a.0@, a.1@);
    let ghost made = text.shared_axis();
    let mut i: usize = 0;
    assert(table@.map_values(shape) =~= all);
    assert(axes_text(axes@) =~= split + all.take(0).map_values(made));
    while i < table.len()
        invariant
            i <= table@.len(),
            text == sweep.text(),
            shape == |a: (&'static str, String)| (a.0@, a.1@),
            made == text.shared_axis(),
            table@.map_values(shape) == all,
            axes_text(axes@) == split + all.take(i as int).map_values(made),
        decreases table@.len() - i,
    {
        assert(table@.map_values(shape)[i as int] == (table@[i as int].0@, table@[i as int].1@));
        let axis = Axis {
            name: table[i].0.to_owned(),
            scope: Scope::Both,
            values: sweep.resolved(table[i].0, table[i].0, table[i].1.as_str()),
        };
        proof {
            assert(axis@ == made(all[i as int]));
            assert(axes_text(axes@.push(axis)) =~= axes_text(axes@).push(axis@));
            assert(all.take(i + 1).map_values(made) =~= all.take(i as int).map_values(made).push(
                axis@,
            ));
            assert(split + all.take(i + 1).map_values(made) =~= (split + all.take(
                i as int,
            ).map_values(made)).push(axis@));
        }
        axes.push(axis);
        i += 1;
    }
    assert(table@.map_values(shape).len() == table@.len());
    assert(all.take(all.len() as int) =~= all);
    assert(axes_text(axes@) =~= text.axes(*defaults));
    let mut unread: Vec<String> = Vec::new();
    let mut i: usize = 0;
    assert(texts(unread@) =~= text.unread(*defaults, 0));
    while i < plan.len()
        invariant
            i <= plan@.len(),
            text == sweep.text(),
            sweep.plan == plan,
            texts(unread@) == text.unread(*defaults, i as int),
        decreases plan@.len() - i,
    {
        assert(text.plan[i as int] == (plan@[i as int].name@, texts(plan@[i as int].values@)));
        if !sweep.is_read(defaults, plan[i].name.as_str()) {
            let name = plan[i].name.clone();
            proof {
                lemma_texts_push(unread@, name);
            }
            unread.push(name);
        }
        i += 1;
    }
    assert(texts(unread@).len() == unread@.len());
    if unread.len() > 0 {
        let names = join(&unread, ", ");
        return Err(
            concat3(
                "plan declares axes nothing reads: ",
                names.as_str(),
                " -- check for a typo, or an axis that isn't (or is no longer) role-splittable",
            ),
        );
    }
    Ok(
        MatrixAxisConfig {
            axes,
            recv_cpus: sweep.cpu_set("recv-cpus"),
            send_cpus: sweep.cpu_set("send-cpus"),
        },
    )
}

} // verus!
