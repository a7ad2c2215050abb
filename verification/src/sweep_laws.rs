//! What a sweep runs, what it tells the two processes of a run, and what it makes of how
//! they ended.
use crate::attempt::{
    ChildEnd, FailureText, MatrixCellConfig, RunPlan, cell_flags, common_flags, cpu_values,
    failures_of, plain_flags, ports_for, receiver_line, sender_line, split_flags,
};
use crate::matrix::{
    AxisText, Scope, ValueText, cell_at, count_behind_colon, rejection, role_value_in, span,
    value_in, values_of,
};
use crate::record::field_in;
use crate::sweep::{completes, run_done};
use crate::text::{decimal, has_prefix, unsigned_of};
use vstd::prelude::*;

verus! {

// ---------------------------------------------------------------------------
// Cells
// ---------------------------------------------------------------------------

/// Each cell of a product has one value of every axis, under the axis's name and scope.
pub proof fn cells_choose_one_value_of_each_axis(axes: Seq<AxisText>, n: int, k: int, a: int)
    requires
        0 <= a < n <= axes.len(),
        0 <= k < span(axes, n),
    ensures
        cell_at(axes, n, k).len() == n,
        cell_at(axes, n, k)[a].axis == axes[a].name,
        cell_at(axes, n, k)[a].scope == axes[a].scope,
        axes[a].values.contains(cell_at(axes, n, k)[a].value),
    decreases n,
{
    let size = axes[n - 1].values.len() as int;
    lemma_step(span(axes, n - 1) as int, size, k);
    lemma_width(axes, n - 1, k / size);
    if a < n - 1 {
        cells_choose_one_value_of_each_axis(axes, n - 1, k / size, a);
    } else {
        assert(axes[a].values.contains(axes[a].values[k % size]));
    }
}

proof fn lemma_width(axes: Seq<AxisText>, n: int, k: int)
    requires
        0 <= n,
    ensures
        cell_at(axes, n, k).len() == n,
    decreases n,
{
    if n > 0 {
        lemma_width(axes, n - 1, k / axes[n - 1].values.len() as int);
    }
}

proof fn lemma_step(before: int, size: int, k: int)
    requires
        0 <= k < before * size,
        before >= 0,
        size >= 0,
    ensures
        size > 0,
        0 <= k / size < before,
        0 <= k % size < size,
{
    assert(size > 0) by (nonlinear_arith)
        requires
            0 <= k < before * size,
            size >= 0,
            before >= 0,
    ;
    assert(0 <= k / size < before && 0 <= k % size < size) by (nonlinear_arith)
        requires
            0 <= k < before * size,
            size > 0,
    ;
}

/// Every choice of one value of each axis is a cell: for any values there is the cell that
/// has them all.
pub proof fn every_choice_is_a_cell(axes: Seq<AxisText>, n: int, choice: Seq<int>) -> (k: int)
    requires
        0 <= n <= axes.len(),
        choice.len() == axes.len(),
        forall|a: int| 0 <= a < n ==> 0 <= #[trigger] choice[a] < axes[a].values.len(),
    ensures
        0 <= k < span(axes, n),
        forall|a: int|
            0 <= a < n ==> (#[trigger] cell_at(axes, n, k)[a]).value == axes[a].values[choice[a]],
    decreases n,
{
    if n == 0 {
        0
    } else {
        let before = every_choice_is_a_cell(axes, n - 1, choice);
        let size = axes[n - 1].values.len() as int;
        let last = choice[n - 1];
        let k = before * size + last;
        let wide = span(axes, n - 1) as int;
        assert(0 <= k < wide * size && k / size == before && k % size == last) by (nonlinear_arith)
            requires
                0 <= before < wide,
                0 <= last < size,
                k == before * size + last,
        ;
        lemma_width(axes, n - 1, before);
        assert forall|a: int| 0 <= a < n implies (#[trigger] cell_at(axes, n, k)[a]).value
            == axes[a].values[choice[a]] by {
            if a < n - 1 {
                assert(cell_at(axes, n, k)[a] == cell_at(axes, n - 1, before)[a]);
            }
        }
        k
    }
}

/// A bonded cell that is run sends from one shared socket to one shared port, lets two
/// handshakes in at once, and has connections for its legs.
pub proof fn bonded_cells_that_run_can_be_driven(cell: Seq<ValueText>, axes: Seq<AxisText>)
    requires
        rejection(cell, axes) is None,
        value_in(cell, "bond"@, Some(Scope::Both)) is Some,
        value_in(cell, "bond"@, Some(Scope::Both)) != Some("none"@),
    ensures
        role_value_in(cell, "egress"@, Scope::Send) == Some("shared-socket"@),
        role_value_in(cell, "ingress"@, Scope::Recv) == Some("shared-pool:1"@),
        match value_in(cell, "connect-concurrency"@, Some(Scope::Both)) {
            Some(cc) => unsigned_of(cc, usize::MAX as int) is Some && unsigned_of(
                cc,
                usize::MAX as int,
            )->0 >= 2,
            None => true,
        },
        match (
            count_behind_colon(value_in(cell, "bond"@, Some(Scope::Both))->0),
            value_in(cell, "connections"@, Some(Scope::Both)),
        ) {
            (Some(pairs), Some(c)) => unsigned_of(c, usize::MAX as int) is Some ==> 2 * pairs
                <= unsigned_of(c, usize::MAX as int)->0,
            _ => true,
        },
{
    reveal_strlit("per-connection");
    reveal_strlit("shared-socket");
    reveal_strlit("per-port");
    reveal_strlit("shared-pool:1");
    assert("per-connection"@[0] == 'p' && "shared-socket"@[0] == 's');
    assert("per-port"@[0] == 'p' && "shared-pool:1"@[0] == 's');
}

/// Of an axis that makes no difference to a cell, one value is run: the one that is
/// preferred where the sweep has it, and else the first.
pub open spec fn kept_value(values: Seq<Seq<char>>, preferred: Seq<char>) -> Seq<char> {
    if values.contains(preferred) {
        preferred
    } else {
        values[0]
    }
}

/// Cells that differ only in what makes no difference are run once: threads of a sender
/// that has one socket, routing by cookie and promotion where no port is shared by
/// kernel dispatch, batching where there is nothing to batch, and pinning where no
/// runtime pins.
pub proof fn inert_axes_run_once(cell: Seq<ValueText>, axes: Seq<AxisText>)
    requires
        rejection(cell, axes) is None,
    ensures
        ({
            let ingress = role_value_in(cell, "ingress"@, Scope::Recv);
            let runtime = role_value_in(cell, "runtime"@, Scope::Recv);
            let sender = role_value_in(cell, "runtime"@, Scope::Send);
            let dispatched = ingress is Some && has_prefix(ingress->0, "reuseport-multi:"@);
            &&& role_value_in(cell, "egress"@, Scope::Send) == Some("shared-socket"@)
                && role_value_in(cell, "workers"@, Scope::Send) is Some && values_of(
                axes,
                "workers"@,
                Some(Scope::Send),
            ).len() > 0 ==> role_value_in(cell, "workers"@, Scope::Send)->0 == kept_value(
                values_of(axes, "workers"@, Some(Scope::Send)),
                "1"@,
            )
            &&& !dispatched && value_in(cell, "cookie-routing"@, Some(Scope::Both)) is Some
                && values_of(axes, "cookie-routing"@, None).len() > 0 ==> value_in(
                cell,
                "cookie-routing"@,
                Some(Scope::Both),
            )->0 == kept_value(values_of(axes, "cookie-routing"@, None), "on"@)
            &&& !dispatched && value_in(cell, "promotion"@, Some(Scope::Both)) is Some
                && values_of(axes, "promotion"@, None).len() > 0 ==> value_in(
                cell,
                "promotion"@,
                Some(Scope::Both),
            )->0 == kept_value(values_of(axes, "promotion"@, None), "all"@)
            &&& (ingress is None || ingress == Some("per-port"@) || (runtime is Some && runtime
                != Some("mio"@))) && value_in(cell, "batch"@, Some(Scope::Both)) is Some
                && values_of(axes, "batch"@, None).len() > 0 ==> value_in(
                cell,
                "batch"@,
                Some(Scope::Both),
            )->0 == kept_value(values_of(axes, "batch"@, None), "on"@)
            &&& (runtime is None || runtime != Some("glommio"@)) && (sender is None || sender
                != Some("glommio"@)) && value_in(cell, "pin"@, Some(Scope::Both)) is Some
                && values_of(axes, "pin"@, None).len() > 0 ==> value_in(
                cell,
                "pin"@,
                Some(Scope::Both),
            )->0 == kept_value(values_of(axes, "pin"@, None), "off"@)
        }),
{
    reveal_strlit("mio");
    reveal_strlit("glommio");
    reveal_strlit("per-port");
    reveal_strlit("reuseport-multi:");
    assert("mio"@.len() == 3 && "glommio"@.len() == 7);
    assert("per-port"@.len() == 8 && "reuseport-multi:"@.len() == 16);
    assert(!has_prefix("per-port"@, "reuseport-multi:"@));
}

// ---------------------------------------------------------------------------
// What the two processes are told
// ---------------------------------------------------------------------------

proof fn lemma_plain_flags(cell: Seq<ValueText>, role: Scope, n: int, i: int)
    requires
        0 <= i < n <= cell.len(),
        cell[i].axis != "bitrate"@,
        cell[i].axis != "runtime"@,
        cell[i].axis != "cpus"@,
        cell[i].scope == Scope::Both || cell[i].scope == role,
    ensures
        plain_flags(cell, role, n).contains("--"@ + cell[i].axis + "="@ + cell[i].value),
    decreases n,
{
    let want = "--"@ + cell[i].axis + "="@ + cell[i].value;
    let all = plain_flags(cell, role, n);
    let before = plain_flags(cell, role, n - 1);
    if i < n - 1 {
        lemma_plain_flags(cell, role, n - 1, i);
        assert(all[before.index_of(want)] == want);
    } else {
        assert(all[before.len() as int] == want);
    }
}

proof fn lemma_split_flags(cell: Seq<ValueText>, n: int, i: int)
    requires
        0 <= i < n <= cell.len(),
        cell[i].scope != Scope::Both,
    ensures
        cell[i].scope == Scope::Recv ==> split_flags(cell, n).contains(
            "--"@ + ("recv-"@ + cell[i].axis + "="@ + cell[i].value),
        ),
        cell[i].scope == Scope::Send ==> split_flags(cell, n).contains(
            "--"@ + ("send-"@ + cell[i].axis + "="@ + cell[i].value),
        ),
    decreases n,
{
    let prefix = if cell[i].scope == Scope::Recv {
        "recv-"@
    } else {
        "send-"@
    };
    let want = "--"@ + (prefix + cell[i].axis + "="@ + cell[i].value);
    let all = split_flags(cell, n);
    let before = split_flags(cell, n - 1);
    if i < n - 1 {
        lemma_split_flags(cell, n - 1, i);
        assert(all[before.index_of(want)] == want);
    } else {
        assert(all[before.len() as int] == want);
    }
}

/// A role is told every value that is for it or for both, but for rate, runtime and CPU
/// set, which travel otherwise; and both roles are told of every split value whose it is.
pub proof fn roles_are_told_their_values(cell: Seq<ValueText>, role: Scope, i: int)
    requires
        0 <= i < cell.len(),
    ensures
        cell[i].axis != "bitrate"@ && cell[i].axis != "runtime"@ && cell[i].axis != "cpus"@ && (
        cell[i].scope == Scope::Both || cell[i].scope == role) ==> cell_flags(cell, role).contains(
            "--"@ + cell[i].axis + "="@ + cell[i].value,
        ),
        cell[i].scope == Scope::Recv ==> cell_flags(cell, role).contains(
            "--"@ + ("recv-"@ + cell[i].axis + "="@ + cell[i].value),
        ),
        cell[i].scope == Scope::Send ==> cell_flags(cell, role).contains(
            "--"@ + ("send-"@ + cell[i].axis + "="@ + cell[i].value),
        ),
{
    let n = cell.len() as int;
    let a = plain_flags(cell, role, n);
    let b = split_flags(cell, n);
    let all = cell_flags(cell, role);
    if cell[i].axis != "bitrate"@ && cell[i].axis != "runtime"@ && cell[i].axis != "cpus"@ && (
    cell[i].scope == Scope::Both || cell[i].scope == role) {
        let want = "--"@ + cell[i].axis + "="@ + cell[i].value;
        lemma_plain_flags(cell, role, n, i);
        assert(all[a.index_of(want)] == want);
    }
    if cell[i].scope != Scope::Both {
        lemma_split_flags(cell, n, i);
        let prefix = if cell[i].scope == Scope::Recv {
            "recv-"@
        } else {
            "send-"@
        };
        let want = "--"@ + (prefix + cell[i].axis + "="@ + cell[i].value);
        assert(all[a.len() + b.index_of(want)] == want);
    }
}

/// A role is told nothing else: its plain flags are those of its own values.
pub proof fn roles_are_told_nothing_else(cell: Seq<ValueText>, role: Scope, n: int, k: int)
    requires
        0 <= n <= cell.len(),
        0 <= k < plain_flags(cell, role, n).len(),
    ensures
        exists|i: int|
            0 <= i < n && (#[trigger] cell[i]).scope.reaches(role) && (cell[i].scope == Scope::Both
                || cell[i].scope == role) && cell[i].axis != "bitrate"@ && cell[i].axis
                != "runtime"@ && cell[i].axis != "cpus"@ && plain_flags(cell, role, n)[k] == "--"@
                + cell[i].axis + "="@ + cell[i].value,
    decreases n,
{
    if n > 0 {
        let before = plain_flags(cell, role, n - 1);
        if k < before.len() {
            roles_are_told_nothing_else(cell, role, n - 1, k);
        } else {
            assert(cell[n - 1].scope.reaches(role));
        }
    }
}

/// The listener is told, in this order, its runtime and role, its port, how long to stay
/// (a minute longer than the sender), the latency and the rate; then its values, and how
/// long the stream is.
pub proof fn receivers_are_told_how_to_run(
    cell: Seq<ValueText>,
    config: MatrixCellConfig,
    plan: RunPlan,
    cpus: Seq<char>,
)
    ensures
        ({
            let line = receiver_line(cell, config, plan, cpus);
            &&& line[0] == "runtime="@ + config.recv_runtime@
            &&& line[1] == "mode=receiver"@
            &&& line[2] == decimal(plan.port as nat)
            &&& line[3] == decimal((plan.secs + 60) as nat)
            &&& line[4] == decimal(plan.latency as nat)
            &&& line[5] == config.source_bitrate@
            &&& line.contains("--stream-secs="@ + decimal(plan.secs as nat))
            &&& line.contains("--rep="@ + decimal(plan.rep as nat))
            &&& line.contains("--attempt="@ + plan.attempt@)
            &&& line.contains("--cpus="@ + cpus)
            &&& line.contains("--out="@ + plan.out@)
            &&& forall|k: int|
                0 <= k < cell_flags(cell, Scope::Recv).len() ==> line[6 + k] == #[trigger] cell_flags(
                    cell,
                    Scope::Recv,
                )[k]
        }),
{
    let line = receiver_line(cell, config, plan, cpus);
    let n: int = 6 + cell_flags(cell, Scope::Recv).len() as int;
    let tail = common_flags(plan, cpus);
    assert(line[n] == "--stream-secs="@ + decimal(plan.secs as nat));
    assert(line[n + 1] == tail[0]);
    assert(line[n + 2] == tail[1]);
    assert(line[n + 3] == tail[2]);
    assert(line[n + 4] == tail[3]);
}

/// The sender is told, in this order, its runtime and role, where to send to, how long to
/// send, the latency and the rate; then its values.
pub proof fn senders_are_told_how_to_run(
    cell: Seq<ValueText>,
    config: MatrixCellConfig,
    plan: RunPlan,
    cpus: Seq<char>,
)
    ensures
        ({
            let line = sender_line(cell, config, plan, cpus);
            &&& line[0] == "runtime="@ + config.send_runtime@
            &&& line[1] == "mode=sender"@
            &&& line[2] == "127.0.0.1"@
            &&& line[3] == decimal(plan.port as nat)
            &&& line[4] == decimal(plan.secs as nat)
            &&& line[5] == decimal(plan.latency as nat)
            &&& line[6] == config.source_bitrate@
            &&& line.contains("--rep="@ + decimal(plan.rep as nat))
            &&& line.contains("--attempt="@ + plan.attempt@)
            &&& line.contains("--cpus="@ + cpus)
            &&& line.contains("--out="@ + plan.out@)
            &&& forall|k: int|
                0 <= k < cell_flags(cell, Scope::Send).len() ==> line[7 + k] == #[trigger] cell_flags(
                    cell,
                    Scope::Send,
                )[k]
        }),
{
    let line = sender_line(cell, config, plan, cpus);
    let n: int = 7 + cell_flags(cell, Scope::Send).len() as int;
    let tail = common_flags(plan, cpus);
    assert(line[n] == tail[0]);
    assert(line[n + 1] == tail[1]);
    assert(line[n + 2] == tail[2]);
    assert(line[n + 3] == tail[3]);
}

/// Both processes of a run are told the same port, latency, rate, repetition, attempt and
/// file.
pub proof fn both_roles_are_told_the_same(
    cell: Seq<ValueText>,
    config: MatrixCellConfig,
    plan: RunPlan,
    a: Seq<char>,
    b: Seq<char>,
)
    ensures
        receiver_line(cell, config, plan, a)[2] == sender_line(cell, config, plan, b)[3],
        receiver_line(cell, config, plan, a)[4] == sender_line(cell, config, plan, b)[5],
        receiver_line(cell, config, plan, a)[5] == sender_line(cell, config, plan, b)[6],
        common_flags(plan, a)[0] == common_flags(plan, b)[0],
        common_flags(plan, a)[1] == common_flags(plan, b)[1],
        common_flags(plan, a)[3] == common_flags(plan, b)[3],
{
}

/// A cell needs one port for each connection where each has its own, and else as many as
/// its ingress names; one where that is no number.
pub proof fn ports_follow_the_ingress(cell: Seq<ValueText>)
    ensures
        ({
            let ingress = role_value_in(cell, "ingress"@, Scope::Recv);
            let alone = ingress is None || ingress == Some("per-port"@);
            &&& alone && value_in(cell, "connections"@, None) is Some && unsigned_of(
                value_in(cell, "connections"@, None)->0,
                usize::MAX as int,
            ) is Some ==> Some(ports_for(cell)) == unsigned_of(
                value_in(cell, "connections"@, None)->0,
                usize::MAX as int,
            )
            &&& alone && value_in(cell, "connections"@, None) is None ==> ports_for(cell) == 1
            &&& !alone && count_behind_colon(ingress->0) is Some ==> Some(ports_for(cell))
                == count_behind_colon(ingress->0)
            &&& !alone && count_behind_colon(ingress->0) is None ==> ports_for(cell) == 1
        }),
{
}

/// The CPU sets become part of a cell: one for both roles where neither has its own, and
/// else each role's own, with what was inherited standing in.
pub proof fn cpu_sets_are_part_of_a_cell(
    recv: Seq<char>,
    send: Seq<char>,
    inherited: Seq<char>,
)
    ensures
        ({
            let added = cpu_values(recv, send, inherited);
            &&& forall|i: int| 0 <= i < added.len() ==> (#[trigger] added[i]).axis == "cpus"@
            &&& recv.len() == 0 && send.len() == 0 && inherited.len() == 0 ==> added.len() == 0
            &&& recv.len() == 0 && send.len() == 0 && inherited.len() > 0 ==> added.len() == 1
                && added[0].scope == Scope::Both && added[0].value == inherited
            &&& recv.len() > 0 || send.len() > 0 ==> added.len() == 2 && added[0].scope
                == Scope::Recv && added[1].scope == Scope::Send
            &&& recv.len() > 0 ==> added[0].value == recv
            &&& send.len() > 0 ==> added[1].value == send
            &&& recv.len() > 0 && send.len() == 0 ==> added[1].value == inherited
            &&& send.len() > 0 && recv.len() == 0 ==> added[0].value == inherited
        }),
{
}

// ---------------------------------------------------------------------------
// How runs end
// ---------------------------------------------------------------------------

/// A run fails by exactly what went wrong: a process that ended badly, one that ended well
/// and recorded nothing, or a file that cannot be read.
pub proof fn failures_are_what_went_wrong(
    sender: ChildEnd,
    receiver: ChildEnd,
    recorded: Result<(bool, bool), String>,
)
    ensures
        ({
            let all = failures_of(sender, receiver, recorded);
            &&& !sender.success ==> all.contains(
                FailureText::ChildStatus { role: "sender"@, status: sender.status@ },
            )
            &&& !receiver.success ==> all.contains(
                FailureText::ChildStatus { role: "receiver"@, status: receiver.status@ },
            )
            &&& match recorded {
                Ok((caller, listener)) => {
                    &&& !caller && sender.success ==> all.contains(
                        FailureText::MissingResult { role: "sender"@ },
                    )
                    &&& !listener && receiver.success ==> all.contains(
                        FailureText::MissingResult { role: "receiver"@ },
                    )
                    &&& all.len() == (if sender.success && caller {
                        0int
                    } else {
                        1
                    }) + (if receiver.success && listener {
                        0int
                    } else {
                        1
                    })
                },
                Err(e) => all.contains(FailureText::UnreadableResults { detail: e@ }) && all.len()
                    == 1 + (if sender.success {
                    0int
                } else {
                    1
                }) + (if receiver.success {
                    0int
                } else {
                    1
                }),
            }
        }),
{
    let all = failures_of(sender, receiver, recorded);
    let a: int = if sender.success {
        0
    } else {
        1
    };
    let b: int = a + if receiver.success {
        0int
    } else {
        1
    };
    if !sender.success {
        assert(all[0] == FailureText::ChildStatus { role: "sender"@, status: sender.status@ });
    }
    if !receiver.success {
        assert(all[a] == FailureText::ChildStatus { role: "receiver"@, status: receiver.status@ });
    }
    match recorded {
        Ok((caller, listener)) => {
            let c: int = b + if !caller && sender.success {
                1int
            } else {
                0
            };
            if !caller && sender.success {
                assert(all[b] == FailureText::MissingResult { role: "sender"@ });
            }
            if !listener && receiver.success {
                assert(all[c] == FailureText::MissingResult { role: "receiver"@ });
            }
        },
        Err(e) => {
            assert(all[b] == FailureText::UnreadableResults { detail: e@ });
        },
    }
}

/// A run counts as done only where a listener and a caller have each recorded it, in the
/// same attempt.
pub proof fn done_runs_have_both_halves(
    records: Seq<Seq<(Seq<char>, Seq<char>)>>,
    cells: Seq<Seq<ValueText>>,
    key: Seq<char>,
)
    requires
        run_done(records, cells, key),
    ensures
        exists|i: int, j: int|
            0 <= i < records.len() && 0 <= j < records.len() && field_in(
                #[trigger] records[i],
                "role"@,
            ) == Some("listener"@) && field_in(#[trigger] records[j], "role"@) == Some("caller"@)
                && field_in(records[i], "attempt"@) is Some && field_in(records[i], "attempt"@)
                == field_in(records[j], "attempt"@),
{
    let (i, j) = choose|i: int, j: int|
        0 <= i < records.len() && 0 <= j < records.len() && #[trigger] completes(
            records[i],
            records[j],
            cells,
            key,
        );
    assert(field_in(records[i], "role"@) == Some("listener"@));
    assert(field_in(records[j], "role"@) == Some("caller"@));
}

} // verus!
