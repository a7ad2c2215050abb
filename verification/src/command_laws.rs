//! What other programs are asked for, and what is read from the system.
use crate::attempt::{FailureText, MatrixCellConfig};
use crate::cli::{Cli, Ingress, Runtime};
use crate::cpu_stats::{UdpCounters, column_value, counters_in, udp_rows};
use crate::deadlines::{AppDeadlineEntry, AppDeadlineKind, before};
use crate::netem::{inside_namespace, netem_command_text, role_command_text, units_of};
use crate::sweep_run::{SweepSettings, cell_demands, ingress_recorded};
use crate::sysprof::{SysprofPlan, perf_entry, receiver_command, sender_command};
use crate::text::{
    being_text, decimal, decimal_round_trips, lemma_first_index, lemma_first_where, split_once_text,
    split_text, trimmed, words_of,
};
use vstd::prelude::*;

verus! {

// ---------------------------------------------------------------------------
// Commands
// ---------------------------------------------------------------------------

/// Delays are given in fractions of a second, probabilities in percent, rates in bits, and
/// a backlog is a bare number.
pub proof fn settings_have_their_units()
    ensures
        units_of("link-delay"@) == seq!["ms"@, "us"@, "s"@],
        units_of("link-jitter"@) == seq!["ms"@, "us"@, "s"@],
        units_of("link-loss"@) == seq!["%"@],
        units_of("link-reorder"@) == seq!["%"@],
        units_of("link-duplicate"@) == seq!["%"@],
        units_of("link-corrupt"@) == seq!["%"@],
        units_of("link-rate"@) == seq!["bit"@, "kbit"@, "mbit"@, "gbit"@],
        units_of("link-limit"@) == seq![""@],
{
    reveal_strlit("link-delay");
    reveal_strlit("link-jitter");
    reveal_strlit("link-loss");
    reveal_strlit("link-rate");
    reveal_strlit("link-reorder");
    reveal_strlit("link-duplicate");
    reveal_strlit("link-corrupt");
    reveal_strlit("link-limit");
    assert("link-delay"@.len() == 10 && "link-jitter"@.len() == 11 && "link-loss"@.len() == 9);
    assert("link-rate"@.len() == 9 && "link-reorder"@.len() == 12);
    assert("link-duplicate"@.len() == 14 && "link-corrupt"@.len() == 12);
    assert("link-limit"@.len() == 10 && "link-limit"@[5] == 'l' && "link-delay"@[5] == 'd');
    assert("link-loss"@[5] == 'l' && "link-rate"@[5] == 'r');
}

/// Conditions are set on the loopback of the namespace where there are some, and taken off
/// the same one where there are none.
pub proof fn conditions_are_set_or_cleared(args: Seq<Seq<char>>)
    ensures
        ({
            let set = netem_command_text(Some(args));
            let clear = netem_command_text(None);
            &&& set[0] == "ip"@ && set[1] == "netns"@ && set[2] == "exec"@ && set[3] == "srtbench"@
            &&& clear.take(4) == set.take(4)
            &&& set[4] == "tc"@ && set[5] == "qdisc"@ && set[6] == "replace"@ && set[7] == "dev"@
                && set[8] == "lo"@ && set[9] == "root"@ && set[10] == "netem"@
            &&& set.len() == 11 + args.len()
            &&& forall|k: int| 0 <= k < args.len() ==> set[11 + k] == #[trigger] args[k]
            &&& clear.len() == 10
            &&& clear[4] == "tc"@ && clear[5] == "qdisc"@ && clear[6] == "del"@ && clear[7]
                == "dev"@ && clear[8] == "lo"@ && clear[9] == "root"@
        }),
{
    assert(netem_command_text(None).take(4) =~= netem_command_text(Some(args)).take(4));
}

/// A role is run in the namespace under the user and group that asked for it, and told that
/// it is a child; whoever is root already stays so.
pub proof fn roles_run_as_who_asked(uid: u32, gid: u32, exe: Seq<char>)
    ensures
        ({
            let command = role_command_text(uid, gid, exe);
            &&& command.take(4) == inside_namespace()
            &&& command.last() == exe
            &&& command[command.len() - 2] == "SRT_BENCH_CHILD=1"@
            &&& command[command.len() - 3] == "env"@
            &&& uid == 0 ==> command.len() == 7
            &&& uid != 0 ==> command.len() == 11 && command[4] == "setpriv"@ && command[5]
                == "--reuid="@ + decimal(uid as nat) && command[6] == "--regid="@ + decimal(
                gid as nat,
            ) && command[7] == "--clear-groups"@
        }),
{
    assert(role_command_text(uid, gid, exe).take(4) =~= inside_namespace());
}

/// The two sides of a profiled run agree on runtime, port, latency, connections and file,
/// and the receiving side stays five seconds longer.
pub proof fn profiled_sides_agree(plan: SysprofPlan, port: u16, results: Seq<char>)
    ensures
        ({
            let r = receiver_command(plan, port, results);
            let s = sender_command(plan, port, results);
            &&& r[0] == "runtime="@ + plan.runtime@ && s[0] == r[0]
            &&& r[1] == "mode=receiver"@ && s[1] == "mode=sender"@
            &&& s[2] == "127.0.0.1"@
            &&& r[2] == decimal(port as nat) && s[3] == r[2]
            &&& s[4] == decimal(plan.secs as nat) && r[3] == decimal((plan.secs + 5) as nat)
            &&& r[4] == decimal(plan.latency as nat) && s[5] == r[4]
            &&& r[5] == "--connections="@ + decimal(plan.connections as nat) && s[6] == r[5]
            &&& r[6] == "--out="@ + results && s[7] == r[6]
            &&& r.len() == 7 && s.len() == 8
        }),
{
}

/// A profile is of the runtime, the connections, the time and the latency that were asked
/// for.
pub proof fn profiles_are_what_was_asked_for(cli: &Cli, plan: SysprofPlan, n: u16, v: Seq<char>)
    requires
        call_ensures(SysprofPlan::of_cli, (cli,), plan),
    ensures
        cli@.flag("runtime"@) == Some(v) ==> plan.runtime@ == v,
        cli@.flag("runtime"@) is None ==> plan.runtime@ == "mio"@,
        cli@.flag("connections"@) == Some(decimal(n as nat)) ==> plan.connections == n,
        cli@.flag("connections"@) is None ==> plan.connections == 25,
        cli@.flag("secs"@) == Some(decimal(n as nat)) ==> plan.secs == n,
        cli@.flag("secs"@) is None ==> plan.secs == 8,
        cli@.flag("latency"@) == Some(decimal(n as nat)) ==> plan.latency == n,
        cli@.flag("latency"@) is None ==> plan.latency == 120,
        cli@.flag("dir"@) == Some(v) ==> plan.dir@ == v,
{
    decimal_round_trips(n as nat);
}

/// A sweep runs the programs, as often and as long, that were asked for; a role's program
/// goes by either name of the role, and is this program where none is named.
pub proof fn sweeps_are_what_was_asked_for(
    cli: &Cli,
    this: &str,
    s: SweepSettings,
    n: u16,
    v: Seq<char>,
)
    requires
        call_ensures(SweepSettings::of_cli, (cli, this), s),
    ensures
        cli@.flag("sender-exe"@) == Some(v) ==> s.sender_exe@ == v,
        cli@.flag("sender-exe"@) is None && cli@.flag("caller-exe"@) == Some(v) ==> s.sender_exe@
            == v,
        cli@.flag("sender-exe"@) is None && cli@.flag("caller-exe"@) is None ==> s.sender_exe@
            == this@,
        cli@.flag("receiver-exe"@) == Some(v) ==> s.receiver_exe@ == v,
        cli@.flag("receiver-exe"@) is None && cli@.flag("listener-exe"@) == Some(v)
            ==> s.receiver_exe@ == v,
        cli@.flag("receiver-exe"@) is None && cli@.flag("listener-exe"@) is None
            ==> s.receiver_exe@ == this@,
        cli@.flag("out"@) == Some(v) ==> s.out@ == v,
        cli@.flag("reps"@) == Some(decimal(n as nat)) ==> s.reps == n,
        cli@.flag("reps"@) is None ==> s.reps == 3,
        cli@.flag("secs"@) == Some(decimal(n as nat)) ==> s.secs == n,
        cli@.flag("secs"@) is None ==> s.secs == 8,
        cli@.flag("latency"@) == Some(decimal(n as nat)) ==> s.latency == n,
        cli@.flag("latency"@) is None ==> s.latency == 120,
{
    decimal_round_trips(n as nat);
}

// ---------------------------------------------------------------------------
// Cells and failures
// ---------------------------------------------------------------------------

/// A recorded ingress is read back as the one that was recorded.
pub proof fn recorded_ingresses_read_back(n: usize)
    ensures
        ingress_recorded("per-port"@) == Ingress::PerPort,
        ingress_recorded("shared-pool:"@ + decimal(n as nat)) == Ingress::SharedPool(n),
        ingress_recorded("reuseport-multi:"@ + decimal(n as nat)) == Ingress::ReuseportMulti(n),
        ingress_recorded("reuseport-single:"@ + decimal(n as nat)) == (Ingress::ReuseportSingle {
            workers: n,
        }),
{
    decimal_round_trips(n as nat);
    reveal_strlit("per-port");
    reveal_strlit("shared-pool");
    reveal_strlit("reuseport-multi");
    reveal_strlit("reuseport-single");
    reveal_strlit("shared-pool:");
    reveal_strlit("reuseport-multi:");
    reveal_strlit("reuseport-single:");
    lemma_first_index("per-port"@, ':', 8);
    lemma_kind("shared-pool"@, n);
    lemma_kind("reuseport-multi"@, n);
    lemma_kind("reuseport-single"@, n);
    assert("shared-pool:"@ + decimal(n as nat) =~= "shared-pool"@ + seq![':'] + decimal(n as nat));
    assert("reuseport-multi:"@ + decimal(n as nat) =~= "reuseport-multi"@ + seq![':'] + decimal(
        n as nat,
    ));
    assert("reuseport-single:"@ + decimal(n as nat) =~= "reuseport-single"@ + seq![':'] + decimal(
        n as nat,
    ));
    assert("shared-pool"@.len() == 11 && "reuseport-multi"@.len() == 15);
    assert("reuseport-single"@.len() == 16);
}

proof fn lemma_kind(kind: Seq<char>, n: usize)
    requires
        forall|i: int| 0 <= i < kind.len() ==> kind[i] != ':',
    ensures
        split_once_text(kind + seq![':'] + decimal(n as nat), ':') == Some(
            (kind, decimal(n as nat)),
        ),
{
    let s = kind + seq![':'] + decimal(n as nat);
    lemma_first_index(s, ':', kind.len() as int);
    assert(s.subrange(0, kind.len() as int) =~= kind);
    assert(s.subrange(kind.len() as int + 1, s.len() as int) =~= decimal(n as nat));
}

/// What a cell asks of the receiving runtime is what the cell has for receivers, and what it
/// asks of the sending one what it has for senders.
pub proof fn cells_ask_each_side_for_its_own(
    config: &MatrixCellConfig,
    demands: ((Runtime, Ingress), (Runtime, Ingress)),
    r: Runtime,
)
    requires
        call_ensures(cell_demands, (config,), demands),
    ensures
        config.recv_runtime@ == r.text() ==> (demands.0).0 == r,
        config.send_runtime@ == r.text() ==> (demands.1).0 == r,
        (demands.0).1 == ingress_recorded(config.recv_ingress@),
        (demands.1).1 == ingress_recorded(config.send_ingress@),
{
    crate::cli::runtime_names_round_trip(r);
}

/// A failure is told with the role it happened to, or with what could not be done.
pub proof fn failures_are_told_in_words(role: Seq<char>, why: Seq<char>)
    ensures
        (FailureText::ChildStatus { role, status: why }).text() == role + " child failed ("@ + why
            + ")"@,
        (FailureText::MissingResult { role }).text() == role + " recorded no result row"@,
        (FailureText::UnreadableResults { detail: why }).text() == "result file unreadable: "@
            + why,
        (FailureText::Infrastructure { detail: why }).text() == "could not run cell: "@ + why,
{
}

// ---------------------------------------------------------------------------
// Deadlines
// ---------------------------------------------------------------------------

/// Deadlines are in one order: of two that differ, exactly one comes first, and what comes
/// first is never later. At one time slots come in turn, and for one slot a send comes
/// before the end of its stream, and that before a timeout.
pub proof fn deadlines_are_ordered(a: AppDeadlineEntry, b: AppDeadlineEntry)
    ensures
        a != b ==> (before(a, b) <==> !before(b, a)),
        !before(a, a),
        before(a, b) ==> a.deadline_us <= b.deadline_us,
        a.deadline_us < b.deadline_us ==> before(a, b),
        a.deadline_us == b.deadline_us && a.slot < b.slot ==> before(a, b),
        a.deadline_us == b.deadline_us && a.slot == b.slot && a.kind == AppDeadlineKind::Send
            && b.kind == AppDeadlineKind::StreamEnd ==> before(a, b),
        a.deadline_us == b.deadline_us && a.slot == b.slot && a.kind == AppDeadlineKind::StreamEnd
            && b.kind == AppDeadlineKind::ConnectTimeout ==> before(a, b),
{
}

// ---------------------------------------------------------------------------
// Counters
// ---------------------------------------------------------------------------

/// Each counter is what the column of its name holds, wherever that column stands.
pub proof fn counters_are_found_by_name(text: Seq<char>, at: int, n: u64)
    requires
        udp_rows(text).len() >= 2,
    ensures
        ({
            let names = words_of(udp_rows(text)[0]);
            let values = words_of(udp_rows(text)[1]);
            let c = counters_in(text);
            let first = |name: Seq<char>|
                {
                    &&& 0 <= at < names.len() && at < values.len()
                    &&& names[at] == name
                    &&& forall|j: int| 0 <= j < at ==> #[trigger] names[j] != name
                    &&& values[at] == decimal(n as nat)
                };
            &&& first("RcvbufErrors"@) ==> c.rcvbuf_errors == n
            &&& first("InErrors"@) ==> c.in_errors == n
            &&& first("NoPorts"@) ==> c.no_ports == n
            &&& first("SndbufErrors"@) ==> c.sndbuf_errors == n
        }),
{
    let names = words_of(udp_rows(text)[0]);
    let values = words_of(udp_rows(text)[1]);
    lemma_column(names, values, "RcvbufErrors"@, at, n);
    lemma_column(names, values, "InErrors"@, at, n);
    lemma_column(names, values, "NoPorts"@, at, n);
    lemma_column(names, values, "SndbufErrors"@, at, n);
}

proof fn lemma_column(
    names: Seq<Seq<char>>,
    values: Seq<Seq<char>>,
    name: Seq<char>,
    at: int,
    n: u64,
)
    ensures
        0 <= at < names.len() && at < values.len() && names[at] == name && (forall|j: int|
            0 <= j < at ==> #[trigger] names[j] != name) && values[at] == decimal(n as nat)
            ==> column_value(names, values, name) == n,
{
    decimal_round_trips(n as nat);
    if 0 <= at < names.len() && at < values.len() && names[at] == name && (forall|j: int|
        0 <= j < at ==> #[trigger] names[j] != name) && values[at] == decimal(n as nat) {
        let p = being_text(name);
        assert forall|j: int| 0 <= j < at implies !p(#[trigger] names[j]) by {
            assert(names[j] != name);
        }
        lemma_first_where(names, p, at);
    }
}

/// Between two readings each counter gained what it gained, and nothing where it went back.
pub proof fn counters_gain_on_their_own(a: UdpCounters, b: UdpCounters, d: UdpCounters)
    requires
        call_ensures(UdpCounters::since, (b, a), d),
    ensures
        a.rcvbuf_errors <= b.rcvbuf_errors ==> a.rcvbuf_errors + d.rcvbuf_errors == b.rcvbuf_errors,
        a.in_errors <= b.in_errors ==> a.in_errors + d.in_errors == b.in_errors,
        a.no_ports <= b.no_ports ==> a.no_ports + d.no_ports == b.no_ports,
        a.sndbuf_errors <= b.sndbuf_errors ==> a.sndbuf_errors + d.sndbuf_errors
            == b.sndbuf_errors,
        a.rcvbuf_errors > b.rcvbuf_errors ==> d.rcvbuf_errors == 0,
        a.in_errors > b.in_errors ==> d.in_errors == 0,
        a.no_ports > b.no_ports ==> d.no_ports == 0,
        a.sndbuf_errors > b.sndbuf_errors ==> d.sndbuf_errors == 0,
{
}

/// A profiler's line gives its first value as the count of the event that its third names.
pub proof fn events_have_their_counts(line: Seq<char>, name: Seq<char>, count: Seq<char>)
    ensures
        perf_entry(line) == Some((name, count)) ==> split_text(line, ',').len() >= 3 && count
            == trimmed(split_text(line, ',')[0]) && crate::text::is_float_text(count)
            && split_once_text(split_text(line, ',')[2], ':') is Some && (split_once_text(
            split_text(line, ',')[2],
            ':',
        )->0).1 == name,
{
}

} // verus!
