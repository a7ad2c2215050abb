//! Where a sweep's values come from, and what a plan's names stand for.
use crate::matrix::{AxisText, Scope};
use crate::plan::{
    AxisDefaults, MatrixOrder, SweepText, canonical, order_named, order_of, planned, section_prefix,
    shared_axes, trimmed_list,
};
use crate::cli::CliText;
use crate::text::{decimal, decimal_round_trips, lemma_first_where_found, trimmed};
use vstd::prelude::*;

verus! {

/// An override beats the plan, the plan beats the flag, and the flag beats the default.
pub proof fn the_closest_word_wins(
    s: SweepText,
    name: Seq<char>,
    flag: Seq<char>,
    default: Seq<char>,
)
    ensures
        ({
            let values = s.resolved(name, flag, default);
            &&& s.overrides.contains_key(name) ==> values == s.overrides[name]
            &&& !s.overrides.contains_key(name) && planned(s.plan, name) is Some ==> values
                == planned(s.plan, name)->0
            &&& !s.overrides.contains_key(name) && planned(s.plan, name) is None && s.cli.flag(flag)
                is Some && s.cli.flag(flag)->0.len() > 0 ==> values == trimmed_list(
                s.cli.flag(flag)->0,
            )
            &&& !s.overrides.contains_key(name) && planned(s.plan, name) is None && s.cli.flag(flag)
                is None ==> values == seq![default]
        }),
{
}

/// What a plan says of a name is under that name.
pub proof fn plans_are_read_by_name(plan: Seq<(Seq<char>, Seq<Seq<char>>)>, name: Seq<char>)
    ensures
        planned(plan, name) is Some ==> plan.contains((name, planned(plan, name)->0)),
        planned(plan, name) is None ==> forall|i: int|
            0 <= i < plan.len() ==> (#[trigger] plan[i]).0 != name,
{
    let p = crate::plan::plan_named(name);
    lemma_first_where_found(plan, p);
    let i = crate::text::first_where(plan, p);
    if i < plan.len() {
        assert(p(plan[i]));
        assert(plan[i] == (name, plan[i].1));
    } else {
        assert forall|i: int| 0 <= i < plan.len() implies (#[trigger] plan[i]).0 != name by {
            assert(!p(plan[i]));
        }
    }
}

/// An axis is shared until one role has values of its own; then each role has its own
/// values, and the shared ones where it has none.
pub proof fn axes_split_where_a_role_has_values(
    s: SweepText,
    name: Seq<char>,
    flag: Seq<char>,
    default: Seq<char>,
)
    ensures
        ({
            let axes = s.role_axes(name, flag, default);
            let recv = s.overrides.contains_key("recv-"@ + name) || planned(s.plan, "recv-"@ + name)
                is Some || (s.cli.flag("recv-"@ + flag) is Some && s.cli.flag(
                "recv-"@ + flag,
            )->0.len() > 0);
            let send = s.overrides.contains_key("send-"@ + name) || planned(s.plan, "send-"@ + name)
                is Some || (s.cli.flag("send-"@ + flag) is Some && s.cli.flag(
                "send-"@ + flag,
            )->0.len() > 0);
            let shared = s.resolved(name, flag, default);
            &&& forall|i: int| 0 <= i < axes.len() ==> (#[trigger] axes[i]).name == name
            &&& !recv && !send ==> axes.len() == 1 && axes[0].scope == Scope::Both
                && axes[0].values == shared
            &&& recv || send ==> axes.len() == 2 && axes[0].scope == Scope::Recv && axes[1].scope
                == Scope::Send
            &&& recv && !send ==> axes[1].values == shared
            &&& send && !recv ==> axes[0].values == shared
            &&& s.overrides.contains_key("recv-"@ + name) ==> axes[0].values
                == s.overrides["recv-"@ + name]
            &&& s.overrides.contains_key("send-"@ + name) ==> axes[1].values
                == s.overrides["send-"@ + name]
            &&& !s.overrides.contains_key("recv-"@ + name) && planned(s.plan, "recv-"@ + name)
                is Some ==> axes[0].values == planned(s.plan, "recv-"@ + name)->0
            &&& !s.overrides.contains_key("send-"@ + name) && planned(s.plan, "send-"@ + name)
                is Some ==> axes[1].values == planned(s.plan, "send-"@ + name)->0
        }),
{
}

/// A role's processors come from the plan, by the role's own name before the common one,
/// and else from the command line in the same way.
pub proof fn processors_are_those_of_the_role(s: SweepText, role: Seq<char>, v: Seq<char>)
    ensures
        planned(s.plan, role) is Some && planned(s.plan, role)->0.len() > 0 ==> s.cpus(role)
            == planned(s.plan, role)->0[0],
        planned(s.plan, role) is None && planned(s.plan, "cpus"@) is Some && planned(
            s.plan,
            "cpus"@,
        )->0.len() > 0 ==> s.cpus(role) == planned(s.plan, "cpus"@)->0[0],
        planned(s.plan, role) is None && planned(s.plan, "cpus"@) is None && s.cli.flag(role)
            == Some(v) ==> s.cpus(role) == v,
        planned(s.plan, role) is None && planned(s.plan, "cpus"@) is None && s.cli.flag(role) is None
            && s.cli.flag("cpus"@) == Some(v) ==> s.cpus(role) == v,
{
}

/// A sweep has an axis for every shared setting, under the setting's own name and for both
/// roles, with the values that were given to it.
pub proof fn every_shared_setting_is_an_axis(s: SweepText, d: AxisDefaults, i: int)
    requires
        0 <= i < shared_axes(d).len(),
    ensures
        s.axes(d).contains(
            AxisText {
                name: shared_axes(d)[i].0,
                scope: Scope::Both,
                values: s.resolved(shared_axes(d)[i].0, shared_axes(d)[i].0, shared_axes(d)[i].1),
            },
        ),
{
    let a = s.role_axes("runtime"@, "runtimes"@, "mio"@);
    let b = s.role_axes("workers"@, "workers"@, "1"@);
    let c = shared_axes(d).map_values(s.shared_axis());
    assert(s.axes(d)[a.len() + b.len() + i] == c[i]);
}

/// A sweep's first axes are runtimes and workers, which may be split by role.
pub proof fn runtimes_and_workers_come_first(s: SweepText, d: AxisDefaults)
    ensures
        s.axes(d).len() >= 2,
        s.axes(d)[0] == s.role_axes("runtime"@, "runtimes"@, "mio"@)[0],
        s.axes(d)[s.role_axes("runtime"@, "runtimes"@, "mio"@).len() as int] == s.role_axes(
            "workers"@,
            "workers"@,
            "1"@,
        )[0],
{
}

/// The settings that are shared, and what each is where nothing is said of it.
pub proof fn shared_settings_have_their_defaults(d: AxisDefaults)
    ensures
        shared_axes(d).contains(("ingress"@, "per-port"@)),
        shared_axes(d).contains(("egress"@, "per-connection"@)),
        shared_axes(d).contains(("encryption"@, "plain"@)),
        shared_axes(d).contains(("promotion"@, "relocate"@)),
        shared_axes(d).contains(("cookie-routing"@, "on"@)),
        shared_axes(d).contains(("batch"@, "on"@)),
        shared_axes(d).contains(("sock-buf"@, "16m"@)),
        shared_axes(d).contains(("pin"@, "off"@)),
        shared_axes(d).contains(("link-delay"@, "off"@)),
        shared_axes(d).contains(("link-jitter"@, "off"@)),
        shared_axes(d).contains(("link-loss"@, "off"@)),
        shared_axes(d).contains(("link-rate"@, "off"@)),
        shared_axes(d).contains(("link-reorder"@, "off"@)),
        shared_axes(d).contains(("link-duplicate"@, "off"@)),
        shared_axes(d).contains(("link-corrupt"@, "off"@)),
        shared_axes(d).contains(("link-limit"@, "off"@)),
        shared_axes(d).contains(("connections"@, "25"@)),
        shared_axes(d).contains(("connect-concurrency"@, "1"@)),
        shared_axes(d).contains(("bond"@, "none"@)),
        shared_axes(d).contains(("bitrate"@, "8000000"@)),
        shared_axes(d).contains(("srt-bandwidth"@, "legacy-source-fixed"@)),
        shared_axes(d).contains(("source-backlog-ms"@, decimal(d.source_backlog_ms as nat))),
        shared_axes(d).contains(("recv-rounds"@, "8"@)),
        shared_axes(d).contains(("would-block"@, "retain"@)),
        shared_axes(d).contains(("datapath-queue-horizon-ms"@, decimal(d.datapath_queue_horizon_ms as nat))),
        shared_axes(d).contains(("outbound-retry-horizon-ms"@, decimal(d.outbound_retry_horizon_ms as nat))),
{
    let all = shared_axes(d);
    assert(all[0] == ("ingress"@, "per-port"@));
    assert(all[1] == ("egress"@, "per-connection"@));
    assert(all[2] == ("encryption"@, "plain"@));
    assert(all[3] == ("promotion"@, "relocate"@));
    assert(all[4] == ("cookie-routing"@, "on"@));
    assert(all[5] == ("batch"@, "on"@));
    assert(all[6] == ("sock-buf"@, "16m"@));
    assert(all[7] == ("pin"@, "off"@));
    assert(all[8] == ("link-delay"@, "off"@));
    assert(all[9] == ("link-jitter"@, "off"@));
    assert(all[10] == ("link-loss"@, "off"@));
    assert(all[11] == ("link-rate"@, "off"@));
    assert(all[12] == ("link-reorder"@, "off"@));
    assert(all[13] == ("link-duplicate"@, "off"@));
    assert(all[14] == ("link-corrupt"@, "off"@));
    assert(all[15] == ("link-limit"@, "off"@));
    assert(all[16] == ("connections"@, "25"@));
    assert(all[17] == ("connect-concurrency"@, "1"@));
    assert(all[18] == ("bond"@, "none"@));
    assert(all[19] == ("bitrate"@, "8000000"@));
    assert(all[20] == ("srt-bandwidth"@, "legacy-source-fixed"@));
    assert(all[21] == ("source-backlog-ms"@, decimal(d.source_backlog_ms as nat)));
    assert(all[22] == ("recv-rounds"@, "8"@));
    assert(all[23] == ("would-block"@, "retain"@));
    assert(all[24] == ("datapath-queue-horizon-ms"@, decimal(d.datapath_queue_horizon_ms as nat)));
    assert(all[25] == ("outbound-retry-horizon-ms"@, decimal(d.outbound_retry_horizon_ms as nat)));
}

proof fn lemma_axis_names()
    ensures
        "runtime"@.len() == 7 && "runtime"@[0] == 'r',
        "runtimes"@.len() == 8 && "runtimes"@[0] == 'r',
        "recv-runtime"@.len() == 12 && "recv-runtime"@[0] == 'r' && "recv-runtime"@[5] == 'r',
        "recv-runtimes"@.len() == 13 && "recv-runtimes"@[0] == 'r',
        "send-runtime"@.len() == 12 && "send-runtime"@[0] == 's' && "send-runtime"@[5] == 'r',
        "send-runtimes"@.len() == 13 && "send-runtimes"@[0] == 's' && "send-runtimes"@[1] == 'e',
        "workers"@.len() == 7 && "workers"@[0] == 'w',
        "recv-workers"@.len() == 12 && "recv-workers"@[0] == 'r' && "recv-workers"@[5] == 'w',
        "send-workers"@.len() == 12 && "send-workers"@[0] == 's' && "send-workers"@[5] == 'w',
        "ingress"@.len() == 7 && "ingress"@[0] == 'i',
        "egress"@.len() == 6,
        "encryption"@.len() == 10 && "encryption"@[0] == 'e',
        "promotion"@.len() == 9 && "promotion"@[0] == 'p',
        "cookie-routing"@.len() == 14 && "cookie-routing"@[0] == 'c',
        "batch"@.len() == 5,
        "sock-buf"@.len() == 8 && "sock-buf"@[0] == 's',
        "pin"@.len() == 3,
        "connections"@.len() == 11 && "connections"@[0] == 'c',
        "connect-concurrency"@.len() == 19,
        "bond"@.len() == 4,
        "bitrate"@.len() == 7 && "bitrate"@[0] == 'b',
        "srt-bandwidth"@.len() == 13 && "srt-bandwidth"@[0] == 's' && "srt-bandwidth"@[1] == 'r',
        "source-backlog-ms"@.len() == 17,
        "recv-rounds"@.len() == 11 && "recv-rounds"@[0] == 'r',
        "would-block"@.len() == 11 && "would-block"@[0] == 'w',
        "datapath-queue-horizon-ms"@.len() == 25 && "datapath-queue-horizon-ms"@[0] == 'd',
        "datapath-q-horizon-ms"@.len() == 21,
        "outbound-retry-horizon-ms"@.len() == 25 && "outbound-retry-horizon-ms"@[0] == 'o',
        "retry-horizon-ms"@.len() == 16,
        "link-delay"@.len() == 10 && "link-delay"@[0] == 'l' && "link-delay"@[5] == 'd',
        "link-jitter"@.len() == 11 && "link-jitter"@[0] == 'l',
        "link-loss"@.len() == 9 && "link-loss"@[0] == 'l' && "link-loss"@[5] == 'l',
        "link-rate"@.len() == 9 && "link-rate"@[0] == 'l' && "link-rate"@[5] == 'r',
        "link-reorder"@.len() == 12 && "link-reorder"@[0] == 'l' && "link-reorder"@[5] == 'r',
        "link-duplicate"@.len() == 14 && "link-duplicate"@[0] == 'l',
        "link-corrupt"@.len() == 12 && "link-corrupt"@[0] == 'l' && "link-corrupt"@[5] == 'c',
        "link-limit"@.len() == 10 && "link-limit"@[0] == 'l' && "link-limit"@[5] == 'l',
{
    reveal_strlit("runtime");
    reveal_strlit("runtimes");
    reveal_strlit("recv-runtime");
    reveal_strlit("recv-runtimes");
    reveal_strlit("send-runtime");
    reveal_strlit("send-runtimes");
    reveal_strlit("workers");
    reveal_strlit("recv-workers");
    reveal_strlit("send-workers");
    reveal_strlit("ingress");
    reveal_strlit("egress");
    reveal_strlit("encryption");
    reveal_strlit("promotion");
    reveal_strlit("cookie-routing");
    reveal_strlit("batch");
    reveal_strlit("sock-buf");
    reveal_strlit("pin");
    reveal_strlit("connections");
    reveal_strlit("connect-concurrency");
    reveal_strlit("bond");
    reveal_strlit("bitrate");
    reveal_strlit("srt-bandwidth");
    reveal_strlit("source-backlog-ms");
    reveal_strlit("recv-rounds");
    reveal_strlit("would-block");
    reveal_strlit("datapath-queue-horizon-ms");
    reveal_strlit("datapath-q-horizon-ms");
    reveal_strlit("outbound-retry-horizon-ms");
    reveal_strlit("retry-horizon-ms");
    reveal_strlit("link-delay");
    reveal_strlit("link-jitter");
    reveal_strlit("link-loss");
    reveal_strlit("link-rate");
    reveal_strlit("link-reorder");
    reveal_strlit("link-duplicate");
    reveal_strlit("link-corrupt");
    reveal_strlit("link-limit");
}

/// Axes go by their own names; the plural of runtimes and the short names of the horizons
/// stand for the same.
pub proof fn names_stand_for_their_axes(name: Seq<char>)
    ensures
        trimmed(name) == "runtime"@ ==> canonical(name) == Some("runtime"@),
        trimmed(name) == "runtimes"@ ==> canonical(name) == Some("runtime"@),
        trimmed(name) == "recv-runtime"@ ==> canonical(name) == Some("recv-runtime"@),
        trimmed(name) == "recv-runtimes"@ ==> canonical(name) == Some("recv-runtime"@),
        trimmed(name) == "send-runtime"@ ==> canonical(name) == Some("send-runtime"@),
        trimmed(name) == "send-runtimes"@ ==> canonical(name) == Some("send-runtime"@),
        trimmed(name) == "workers"@ ==> canonical(name) == Some("workers"@),
        trimmed(name) == "recv-workers"@ ==> canonical(name) == Some("recv-workers"@),
        trimmed(name) == "send-workers"@ ==> canonical(name) == Some("send-workers"@),
        trimmed(name) == "ingress"@ ==> canonical(name) == Some("ingress"@),
        trimmed(name) == "egress"@ ==> canonical(name) == Some("egress"@),
        trimmed(name) == "encryption"@ ==> canonical(name) == Some("encryption"@),
        trimmed(name) == "promotion"@ ==> canonical(name) == Some("promotion"@),
        trimmed(name) == "cookie-routing"@ ==> canonical(name) == Some("cookie-routing"@),
        trimmed(name) == "batch"@ ==> canonical(name) == Some("batch"@),
        trimmed(name) == "sock-buf"@ ==> canonical(name) == Some("sock-buf"@),
        trimmed(name) == "pin"@ ==> canonical(name) == Some("pin"@),
        trimmed(name) == "connections"@ ==> canonical(name) == Some("connections"@),
        trimmed(name) == "connect-concurrency"@ ==> canonical(name) == Some("connect-concurrency"@),
        trimmed(name) == "bond"@ ==> canonical(name) == Some("bond"@),
        trimmed(name) == "bitrate"@ ==> canonical(name) == Some("bitrate"@),
        trimmed(name) == "srt-bandwidth"@ ==> canonical(name) == Some("srt-bandwidth"@),
        trimmed(name) == "source-backlog-ms"@ ==> canonical(name) == Some("source-backlog-ms"@),
        trimmed(name) == "recv-rounds"@ ==> canonical(name) == Some("recv-rounds"@),
        trimmed(name) == "would-block"@ ==> canonical(name) == Some("would-block"@),
        trimmed(name) == "datapath-queue-horizon-ms"@ ==> canonical(name) == Some("datapath-queue-horizon-ms"@),
        trimmed(name) == "datapath-q-horizon-ms"@ ==> canonical(name) == Some("datapath-queue-horizon-ms"@),
        trimmed(name) == "outbound-retry-horizon-ms"@ ==> canonical(name) == Some("outbound-retry-horizon-ms"@),
        trimmed(name) == "retry-horizon-ms"@ ==> canonical(name) == Some("outbound-retry-horizon-ms"@),
        trimmed(name) == "link-delay"@ ==> canonical(name) == Some("link-delay"@),
        trimmed(name) == "link-jitter"@ ==> canonical(name) == Some("link-jitter"@),
        trimmed(name) == "link-loss"@ ==> canonical(name) == Some("link-loss"@),
        trimmed(name) == "link-rate"@ ==> canonical(name) == Some("link-rate"@),
        trimmed(name) == "link-reorder"@ ==> canonical(name) == Some("link-reorder"@),
        trimmed(name) == "link-duplicate"@ ==> canonical(name) == Some("link-duplicate"@),
        trimmed(name) == "link-corrupt"@ ==> canonical(name) == Some("link-corrupt"@),
        trimmed(name) == "link-limit"@ ==> canonical(name) == Some("link-limit"@),
{
    lemma_axis_names();
}

/// A section of a plan speaks of one role, and any other section of both.
pub proof fn sections_speak_of_a_role(section: Seq<char>)
    ensures
        section == "recv"@ || section == "receiver"@ || section == "listener"@ ==> section_prefix(
            section,
        ) == "recv-"@,
        section == "send"@ || section == "sender"@ || section == "caller"@ ==> section_prefix(
            section,
        ) == "send-"@,
        section != "recv"@ && section != "receiver"@ && section != "listener"@ && section != "send"@
            && section != "sender"@ && section != "caller"@ ==> section_prefix(section).len() == 0,
{
    reveal_strlit("recv");
    reveal_strlit("receiver");
    reveal_strlit("listener");
    reveal_strlit("send");
    reveal_strlit("sender");
    reveal_strlit("caller");
    assert("recv"@[0] == 'r' && "receiver"@[0] == 'r' && "listener"@[0] == 'l');
    assert("send"@[0] == 's' && "sender"@[0] == 's' && "caller"@[0] == 'c');
}

/// The order of a sweep is the one that was asked for, and the seed is the number given.
pub proof fn orders_are_what_was_asked_for(cli: CliText, n: u64)
    ensures
        cli.flag("order"@) is None && cli.flag("seed"@) is None ==> order_of(cli) == Ok::<
            (MatrixOrder, u64),
            Seq<char>,
        >((MatrixOrder::Default, 0)),
        cli.flag("order"@) == Some("interleaved"@) && cli.flag("seed"@) == Some(decimal(n as nat))
            ==> order_of(cli) == Ok::<(MatrixOrder, u64), Seq<char>>(
            (MatrixOrder::Interleaved, n),
        ),
        cli.flag("order"@) == Some("random"@) && cli.flag("seed"@) == Some(decimal(n as nat))
            ==> order_of(cli) == Ok::<(MatrixOrder, u64), Seq<char>>((MatrixOrder::Random, n)),
        cli.flag("order"@) == Some("default"@) && cli.flag("seed"@) == Some(decimal(n as nat))
            ==> order_of(cli) == Ok::<(MatrixOrder, u64), Seq<char>>((MatrixOrder::Default, n)),
{
    decimal_round_trips(n as nat);
    reveal_strlit("default");
    reveal_strlit("interleaved");
    reveal_strlit("random");
    assert("default"@[0] == 'd' && "interleaved"@[0] == 'i' && "random"@[0] == 'r');
    assert(order_named("default"@) == Some(MatrixOrder::Default));
}

} // verus!
