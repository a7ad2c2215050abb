//! Which cells a sweep leaves out, what it looks up in a cell, and in which order it runs.
use crate::attempt::{MatrixCellConfig, matrix_cell_config};
use crate::matrix::{
    AxisText, Cell, Scope, ValueText, cell_text, count_behind_colon, on_axis, rejection,
    role_value_in, value_in, values_of,
};
use crate::plan::MatrixOrder;
use crate::schedule::counting;
use crate::sweep::{cell_by_cell, cell_order, one_round, repeats, round_by_round, runs_of};
use crate::sweep_laws::kept_value;
use crate::text::{first_where, has_prefix, lemma_first_where_found, unsigned_of};
use vstd::prelude::*;

verus! {

// ---------------------------------------------------------------------------
// Values of a cell
// ---------------------------------------------------------------------------

/// A value that is found in a cell is the cell's on that axis and in that scope, and where
/// none is found the cell has none.
pub proof fn values_are_found_by_axis_and_scope(
    cell: Seq<ValueText>,
    name: Seq<char>,
    scope: Option<Scope>,
)
    ensures
        match value_in(cell, name, scope) {
            Some(v) => exists|i: int|
                0 <= i < cell.len() && (#[trigger] cell[i]).axis == name && cell[i].value == v && (
                scope is None || scope == Some(cell[i].scope)),
            None => forall|i: int|
                0 <= i < cell.len() && (scope is None || scope == Some((#[trigger] cell[i]).scope))
                    ==> cell[i].axis != name,
        },
{
    let p = on_axis(name, scope);
    lemma_first_where_found(cell, p);
    let at = first_where(cell, p);
    if at < cell.len() {
        assert(p(cell[at]));
    } else {
        assert forall|i: int|
            0 <= i < cell.len() && (scope is None || scope == Some(
                (#[trigger] cell[i]).scope,
            )) implies cell[i].axis != name by {
            assert(!p(cell[i]));
        }
    }
}

/// A role's own value counts before the one that both share.
pub proof fn own_values_count_first(cell: Seq<ValueText>, name: Seq<char>, role: Scope)
    ensures
        value_in(cell, name, Some(role)) is Some ==> role_value_in(cell, name, role) == value_in(
            cell,
            name,
            Some(role),
        ),
        value_in(cell, name, Some(role)) is None ==> role_value_in(cell, name, role) == value_in(
            cell,
            name,
            Some(Scope::Both),
        ),
{
}

/// A run of a cell uses the receiver's runtime and ingress to receive and the sender's to
/// send, at the rate of the cell; what a cell does not say is one port each on the first
/// runtime.
pub proof fn cells_configure_each_side(cell: &Cell, config: MatrixCellConfig, v: Seq<char>)
    requires
        call_ensures(matrix_cell_config, (cell,), config),
    ensures
        ({
            let c = cell_text(cell@);
            &&& role_value_in(c, "runtime"@, Scope::Recv) == Some(v) ==> config.recv_runtime@ == v
            &&& role_value_in(c, "runtime"@, Scope::Send) == Some(v) ==> config.send_runtime@ == v
            &&& role_value_in(c, "ingress"@, Scope::Recv) == Some(v) ==> config.recv_ingress@ == v
            &&& role_value_in(c, "ingress"@, Scope::Send) == Some(v) ==> config.send_ingress@ == v
            &&& value_in(c, "bitrate"@, None) == Some(v) ==> config.source_bitrate@ == v
            &&& role_value_in(c, "runtime"@, Scope::Recv) is None ==> config.recv_runtime@ == "mio"@
            &&& role_value_in(c, "runtime"@, Scope::Send) is None ==> config.send_runtime@ == "mio"@
            &&& role_value_in(c, "ingress"@, Scope::Recv) is None ==> config.recv_ingress@
                == "per-port"@
            &&& role_value_in(c, "ingress"@, Scope::Send) is None ==> config.send_ingress@
                == "per-port"@
        }),
{
}

// ---------------------------------------------------------------------------
// Cells that are left out
// ---------------------------------------------------------------------------

proof fn lemma_reasons()
    ensures
        "shared-egress-workers-inert"@.len() == 27,
        "bonded-egress-unsupported"@.len() == 25,
        "bonded-cc-requires-2"@.len() == 20,
        "bond-capacity"@.len() == 13,
        "bonded-ingress-unsupported"@.len() == 26,
        "promotion-inert"@.len() == 15,
        "cookie-routing-inert"@.len() == 20,
        "batch-inert"@.len() == 11,
        "pin-inert"@.len() == 9,
        "bonded-cc-requires-2"@[0] == 'b',
        "cookie-routing-inert"@[0] == 'c',
{
    reveal_strlit("shared-egress-workers-inert");
    reveal_strlit("bonded-egress-unsupported");
    reveal_strlit("bonded-cc-requires-2");
    reveal_strlit("bond-capacity");
    reveal_strlit("bonded-ingress-unsupported");
    reveal_strlit("promotion-inert");
    reveal_strlit("cookie-routing-inert");
    reveal_strlit("batch-inert");
    reveal_strlit("pin-inert");
}

/// A bonded cell is left out for what its bond lacks: a shared socket to send from, room for
/// two handshakes, connections for its legs, or a shared port to arrive at.
pub proof fn bonds_are_left_out_for_what_they_lack(cell: Seq<ValueText>, axes: Seq<AxisText>)
    ensures
        ({
            let why = rejection(cell, axes);
            let bond = value_in(cell, "bond"@, Some(Scope::Both));
            let bonded = bond is Some && bond != Some("none"@);
            let cc = value_in(cell, "connect-concurrency"@, Some(Scope::Both));
            let conns = value_in(cell, "connections"@, Some(Scope::Both));
            &&& why == Some("bonded-egress-unsupported"@) ==> bonded && role_value_in(
                cell,
                "egress"@,
                Scope::Send,
            ) != Some("shared-socket"@)
            &&& why == Some("bonded-ingress-unsupported"@) ==> bonded && role_value_in(
                cell,
                "ingress"@,
                Scope::Recv,
            ) != Some("shared-pool:1"@)
            &&& why == Some("bonded-cc-requires-2"@) ==> bonded && cc is Some && (unsigned_of(
                cc->0,
                usize::MAX as int,
            ) is None || unsigned_of(cc->0, usize::MAX as int)->0 < 2)
            &&& why == Some("bond-capacity"@) ==> bond is Some && count_behind_colon(bond->0) is Some
                && conns is Some && unsigned_of(conns->0, usize::MAX as int) is Some && 2
                * count_behind_colon(bond->0)->0 > unsigned_of(conns->0, usize::MAX as int)->0
        }),
{
    lemma_reasons();
    reveal_strlit("per-connection");
    reveal_strlit("shared-socket");
    reveal_strlit("per-port");
    reveal_strlit("shared-pool:1");
    assert("per-connection"@[0] == 'p' && "shared-socket"@[0] == 's');
    assert("per-port"@[0] == 'p' && "shared-pool:1"@[0] == 's');
}

/// Whether another policy of a sweep already says what this one does where nothing is bonded:
/// `never` what relocating and bonding say, and else `all` what all others say.
pub open spec fn promotes_in_vain(policy: Option<Seq<char>>, values: Seq<Seq<char>>) -> bool {
    if values.contains("never"@) {
        policy == Some("relocate"@) || policy == Some("bonded"@)
    } else {
        values.contains("all"@) && policy is Some && policy != Some("all"@)
    }
}

/// A cell is left out for an axis that makes no difference only where the axis makes none,
/// and only where the cell has another value of it than the one that is kept.
pub proof fn inert_axes_make_no_difference(cell: Seq<ValueText>, axes: Seq<AxisText>)
    ensures
        ({
            let why = rejection(cell, axes);
            let ingress = role_value_in(cell, "ingress"@, Scope::Recv);
            let recv = role_value_in(cell, "runtime"@, Scope::Recv);
            let send = role_value_in(cell, "runtime"@, Scope::Send);
            let dispatched = ingress is Some && has_prefix(ingress->0, "reuseport-multi:"@);
            let other = |value: Option<Seq<char>>, values: Seq<Seq<char>>, keep: Seq<char>|
                value is Some && values.len() > 0 && value->0 != kept_value(values, keep);
            &&& why == Some("shared-egress-workers-inert"@) ==> role_value_in(
                cell,
                "egress"@,
                Scope::Send,
            ) == Some("shared-socket"@) && other(
                role_value_in(cell, "workers"@, Scope::Send),
                values_of(axes, "workers"@, Some(Scope::Send)),
                "1"@,
            )
            &&& why == Some("cookie-routing-inert"@) ==> !dispatched && other(
                value_in(cell, "cookie-routing"@, Some(Scope::Both)),
                values_of(axes, "cookie-routing"@, None),
                "on"@,
            )
            &&& why == Some("batch-inert"@) ==> (ingress is None || ingress == Some("per-port"@) || (
            recv is Some && recv != Some("mio"@))) && other(
                value_in(cell, "batch"@, Some(Scope::Both)),
                values_of(axes, "batch"@, None),
                "on"@,
            )
            &&& why == Some("pin-inert"@) ==> recv != Some("glommio"@) && send != Some("glommio"@)
                && other(
                value_in(cell, "pin"@, Some(Scope::Both)),
                values_of(axes, "pin"@, None),
                "off"@,
            )
            &&& why == Some("promotion-inert"@) && !dispatched ==> other(
                value_in(cell, "promotion"@, Some(Scope::Both)),
                values_of(axes, "promotion"@, None),
                "all"@,
            )
            &&& why == Some("promotion-inert"@) && dispatched ==> value_in(
                cell,
                "bond"@,
                Some(Scope::Both),
            ) == Some("none"@) && promotes_in_vain(
                value_in(cell, "promotion"@, Some(Scope::Both)),
                values_of(axes, "promotion"@, None),
            )
            &&& why is None && dispatched && value_in(cell, "bond"@, Some(Scope::Both)) == Some(
                "none"@,
            ) ==> !promotes_in_vain(
                value_in(cell, "promotion"@, Some(Scope::Both)),
                values_of(axes, "promotion"@, None),
            )
        }),
{
    lemma_reasons();
    reveal_strlit("per-connection");
    reveal_strlit("shared-socket");
    reveal_strlit("per-port");
    reveal_strlit("mio");
    reveal_strlit("glommio");
    reveal_strlit("reuseport-multi:");
    assert("per-connection"@[0] == 'p' && "shared-socket"@[0] == 's');
    assert("mio"@.len() == 3 && "glommio"@.len() == 7);
    assert("per-port"@.len() == 8 && "reuseport-multi:"@.len() == 16);
    assert(values_of(axes, "workers"@, Some(Scope::Send)).contains("1"@) ==> values_of(
        axes,
        "workers"@,
        Some(Scope::Send),
    ).len() > 0);
}

/// A cell is left out for one of the reasons that there are.
pub proof fn reasons_are_known(cell: Seq<ValueText>, axes: Seq<AxisText>)
    ensures
        rejection(cell, axes) is Some ==> seq![
            "shared-egress-workers-inert"@,
            "bonded-egress-unsupported"@,
            "bonded-cc-requires-2"@,
            "bond-capacity"@,
            "bonded-ingress-unsupported"@,
            "promotion-inert"@,
            "cookie-routing-inert"@,
            "batch-inert"@,
            "pin-inert"@,
        ].contains(rejection(cell, axes)->0),
{
    let all = seq![
        "shared-egress-workers-inert"@,
        "bonded-egress-unsupported"@,
        "bonded-cc-requires-2"@,
        "bond-capacity"@,
        "bonded-ingress-unsupported"@,
        "promotion-inert"@,
        "cookie-routing-inert"@,
        "batch-inert"@,
        "pin-inert"@,
    ];
    assert(all[0] == "shared-egress-workers-inert"@ && all[1] == "bonded-egress-unsupported"@);
    assert(all[2] == "bonded-cc-requires-2"@ && all[3] == "bond-capacity"@);
    assert(all[4] == "bonded-ingress-unsupported"@ && all[5] == "promotion-inert"@);
    assert(all[6] == "cookie-routing-inert"@ && all[7] == "batch-inert"@);
    assert(all[8] == "pin-inert"@);
}

// ---------------------------------------------------------------------------
// Order
// ---------------------------------------------------------------------------

proof fn lemma_repeats(cell: usize, reps: int, r: int)
    requires
        0 <= r < reps <= usize::MAX,
    ensures
        repeats(cell, reps).len() == reps,
        repeats(cell, reps)[r] == (cell, (r + 1) as usize),
    decreases reps,
{
    if reps > 1 {
        lemma_repeats(cell, reps - 1, if r < reps - 1 {
            r
        } else {
            0
        });
    } else {
        assert(repeats(cell, 0).len() == 0);
    }
}

proof fn lemma_cell_by_cell(order: Seq<usize>, n: int, reps: int, c: int, r: int)
    requires
        0 <= c < n <= order.len(),
        0 <= r < reps <= usize::MAX,
    ensures
        cell_by_cell(order, n, reps).len() == n * reps,
        c * reps + r < n * reps,
        cell_by_cell(order, n, reps)[c * reps + r] == (order[c], (r + 1) as usize),
    decreases n,
{
    lemma_repeats(order[n - 1], reps, r);
    let before = cell_by_cell(order, n - 1, reps);
    assert((n - 1) * reps + reps == n * reps) by (nonlinear_arith);
    assert(c * reps + r < n * reps) by (nonlinear_arith)
        requires
            0 <= c < n,
            0 <= r < reps,
    ;
    if n > 1 {
        lemma_cell_by_cell(order, n - 1, reps, if c < n - 1 {
            c
        } else {
            0
        }, r);
        if c < n - 1 {
            assert(c * reps + r < (n - 1) * reps);
        }
    } else {
        assert(before.len() == 0);
        assert(c * reps == 0) by (nonlinear_arith)
            requires
                c == 0,
        ;
    }
    if c < n - 1 {
        assert(0 <= c * reps) by (nonlinear_arith)
            requires
                0 <= c,
                0 < reps,
        ;
    }
}

proof fn lemma_one_round(order: Seq<usize>, n: int, rep: int, c: int)
    requires
        0 <= c < n <= order.len(),
    ensures
        one_round(order, n, rep).len() == n,
        one_round(order, n, rep)[c] == (order[c], rep as usize),
    decreases n,
{
    if n > 1 {
        lemma_one_round(order, n - 1, rep, if c < n - 1 {
            c
        } else {
            0
        });
    } else {
        assert(one_round(order, 0, rep).len() == 0);
    }
}

proof fn lemma_round_by_round(order: Seq<usize>, reps: int, c: int, r: int)
    requires
        0 <= c < order.len(),
        0 <= r < reps <= usize::MAX,
    ensures
        round_by_round(order, reps).len() == reps * order.len(),
        r * order.len() + c < reps * order.len(),
        round_by_round(order, reps)[r * order.len() + c] == (order[c], (r + 1) as usize),
    decreases reps,
{
    let n = order.len() as int;
    lemma_one_round(order, n, reps, c);
    assert((reps - 1) * n + n == reps * n) by (nonlinear_arith);
    assert(r * n + c < reps * n && 0 <= r * n) by (nonlinear_arith)
        requires
            0 <= c < n,
            0 <= r < reps,
    ;
    if reps > 1 {
        lemma_round_by_round(order, reps - 1, c, if r < reps - 1 {
            r
        } else {
            0
        });
    } else {
        assert(round_by_round(order, 0).len() == 0);
        assert(r * n == 0) by (nonlinear_arith)
            requires
                r == 0,
        ;
    }
}

/// By default a cell is repeated before the next one is run, and cells come as they are
/// listed.
pub proof fn cells_are_repeated_in_turn_by_default(
    cells: Seq<Seq<ValueText>>,
    axes: Seq<AxisText>,
    reps: usize,
    seed: u64,
    c: int,
    r: int,
)
    requires
        0 <= c < cells.len() <= usize::MAX,
        0 <= r < reps,
    ensures
        ({
            let runs = runs_of(cells, axes, reps, MatrixOrder::Default, seed);
            &&& runs.len() == cells.len() * reps
            &&& c * reps + r < runs.len()
            &&& runs[c * reps + r] == (c as usize, (r + 1) as usize)
        }),
{
    let order = counting(cells.len());
    lemma_cell_by_cell(order, order.len() as int, reps as int, c, r);
}

/// Where cells are spread, every cell is run once before any is repeated, and each round
/// takes them in the same order.
pub proof fn rounds_are_finished_where_cells_are_spread(
    cells: Seq<Seq<ValueText>>,
    axes: Seq<AxisText>,
    reps: usize,
    order: MatrixOrder,
    seed: u64,
    c: int,
    r: int,
)
    requires
        order != MatrixOrder::Default,
        0 <= c < cell_order(cells, axes, order, seed).len(),
        0 <= r < reps,
    ensures
        ({
            let runs = runs_of(cells, axes, reps, order, seed);
            let n = cell_order(cells, axes, order, seed).len();
            &&& runs.len() == reps * n
            &&& r * n + c < runs.len()
            &&& runs[r * n + c].1 == r + 1
            &&& runs[r * n + c].0 == runs[c].0
        }),
{
    let spread = cell_order(cells, axes, order, seed);
    lemma_round_by_round(spread, reps as int, c, r);
    lemma_round_by_round(spread, reps as int, c, 0);
    assert(0 * spread.len() == 0);
}

} // verus!
