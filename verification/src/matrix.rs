//! The cells of a sweep: axes, their product, and which points are worth running.
use crate::text::{
    concat3, contains_text, decimal, first_where, has_prefix, join, joined, lemma_first_where,
    lemma_first_where_found, lemma_texts_push, parse_usize, render, same, sort, sorted_texts,
    split_once, split_once_text, starts_with, texts, unsigned_of,
};
use crate::text_map::TextMap;
use vstd::prelude::*;

verus! {

/// Which role an axis value applies to.
///
/// `Both` keeps the two ends in lockstep. `Recv` and `Send` appear only once a knob
/// has been given a role-prefixed value, and then the two sides are independent
/// axes.
#[derive(Clone, Copy, PartialEq, Eq, Debug, Structural)]
pub enum Scope {
    Both,
    Recv,
    Send,
}

impl Scope {
    pub open spec fn reaches(self, role: Scope) -> bool {
        self == Scope::Both || self == role
    }

    pub open spec fn prefix_text(self) -> Seq<char> {
        match self {
            Scope::Both => ""@,
            Scope::Recv => "recv_"@,
            Scope::Send => "send_"@,
        }
    }

    pub open spec fn flag_text(self) -> Seq<char> {
        match self {
            Scope::Both => ""@,
            Scope::Recv => "recv-"@,
            Scope::Send => "send-"@,
        }
    }

    /// Does a value with this scope reach the given role's process?
    pub fn applies_to(self, role: Scope) -> (r: bool)
        ensures
            r == self.reaches(role),
    {
        self == Scope::Both || self == role
    }

    /// Column prefix used to record this scope's value.
    pub fn prefix(self) -> (r: &'static str)
        ensures
            r@ == self.prefix_text(),
    {
        match self {
            Scope::Both => "",
            Scope::Recv => "recv_",
            Scope::Send => "send_",
        }
    }

    /// Flag prefix used to hand this scope's value to a process.
    pub fn flag_prefix(self) -> (r: &'static str)
        ensures
            r@ == self.flag_text(),
    {
        match self {
            Scope::Both => "",
            Scope::Recv => "recv-",
            Scope::Send => "send-",
        }
    }
}

/// One axis of the sweep: a name and the values to try.
#[derive(Debug)]
pub struct Axis {
    pub name: String,
    pub scope: Scope,
    pub values: Vec<String>,
}

/// One axis resolved to a value.
#[derive(Debug)]
pub struct CellValue {
    pub axis: String,
    pub scope: Scope,
    pub value: String,
}

/// One point in the sweep: every axis resolved to a value, with the role it applies
/// to.
pub type Cell = Vec<CellValue>;

/// What an axis says.
pub struct AxisText {
    pub name: Seq<char>,
    pub scope: Scope,
    pub values: Seq<Seq<char>>,
}

/// What a cell says of one axis.
pub struct ValueText {
    pub axis: Seq<char>,
    pub scope: Scope,
    pub value: Seq<char>,
}

impl View for Axis {
    type V = AxisText;

    open spec fn view(&self) -> AxisText {
        AxisText { name: self.name@, scope: self.scope, values: texts(self.values@) }
    }
}

impl View for CellValue {
    type V = ValueText;

    open spec fn view(&self) -> ValueText {
        ValueText { axis: self.axis@, scope: self.scope, value: self.value@ }
    }
}

pub open spec fn axes_text(axes: Seq<Axis>) -> Seq<AxisText> {
    axes.map_values(|a: Axis| a@)
}

pub open spec fn cell_text(cell: Seq<CellValue>) -> Seq<ValueText> {
    cell.map_values(|v: CellValue| v@)
}

pub open spec fn cells_text(cells: Seq<Cell>) -> Seq<Seq<ValueText>> {
    cells.map_values(|c: Cell| cell_text(c@))
}

// ---------------------------------------------------------------------------
// Looking up values
// ---------------------------------------------------------------------------

/// The test for the axis `name` in one scope, or in any.
pub open spec fn on_axis(name: Seq<char>, scope: Option<Scope>) -> spec_fn(ValueText) -> bool {
    |v: ValueText| v.axis == name && (scope is None || v.scope == scope->0)
}

/// The first value of a cell on the axis `name`.
pub open spec fn value_in(cell: Seq<ValueText>, name: Seq<char>, scope: Option<Scope>) -> Option<
    Seq<char>,
> {
    let i = first_where(cell, on_axis(name, scope));
    if i < cell.len() {
        Some(cell[i].value)
    } else {
        None
    }
}

/// The value that reaches a role: its own, or else the shared one.
pub open spec fn role_value_in(cell: Seq<ValueText>, name: Seq<char>, role: Scope) -> Option<
    Seq<char>,
> {
    match value_in(cell, name, Some(role)) {
        Some(v) => Some(v),
        None => value_in(cell, name, Some(Scope::Both)),
    }
}

/// Whether an optional text is the one that `want` describes.
pub open spec fn same_text(got: Option<&String>, want: Option<Seq<char>>) -> bool {
    match (got, want) {
        (Some(a), Some(b)) => a@ == b,
        (None, None) => true,
        _ => false,
    }
}

pub fn cell_value<'a>(cell: &'a Cell, name: &str, scope: Option<Scope>) -> (r: Option<&'a String>)
    ensures
        same_text(r, value_in(cell_text(cell@), name@, scope)),
{
    let ghost all = cell_text(cell@);
    let mut i: usize = 0;
    while i < cell.len()
        invariant
            i <= cell@.len(),
            all == cell_text(cell@),
            forall|j: int| 0 <= j < i ==> !on_axis(name@, scope)(#[trigger] all[j]),
        decreases cell@.len() - i,
    {
        let wanted = match scope {
            Some(s) => cell[i].scope == s,
            None => true,
        };
        assert(all[i as int] == cell@[i as int]@);
        if wanted && same(cell[i].axis.as_str(), name) {
            proof {
                lemma_first_where(all, on_axis(name@, scope), i as int);
            }
            return Some(&cell[i].value);
        }
        i += 1;
    }
    proof {
        lemma_first_where(all, on_axis(name@, scope), i as int);
    }
    None
}

pub fn role_value<'a>(cell: &'a Cell, name: &str, role: Scope) -> (r: Option<&'a String>)
    ensures
        same_text(r, role_value_in(cell_text(cell@), name@, role)),
{
    match cell_value(cell, name, Some(role)) {
        Some(v) => Some(v),
        None => cell_value(cell, name, Some(Scope::Both)),
    }
}

/// The test for an axis that is called `name` and reaches `role`, if one is given.
pub open spec fn axis_for(name: Seq<char>, role: Option<Scope>) -> spec_fn(AxisText) -> bool {
    |a: AxisText| a.name == name && (role is None || a.scope.reaches(role->0))
}

/// The values of the first such axis.
pub open spec fn values_of(axes: Seq<AxisText>, name: Seq<char>, role: Option<Scope>) -> Seq<
    Seq<char>,
> {
    let i = first_where(axes, axis_for(name, role));
    if i < axes.len() {
        axes[i].values
    } else {
        Seq::empty()
    }
}

/// The value that stands for an axis which makes no difference: the preferred one
/// if it is among the values, else the first.
pub open spec fn representative_of(values: Seq<Seq<char>>, preferred: Seq<char>) -> Option<
    Seq<char>,
> {
    if values.contains(preferred) {
        Some(preferred)
    } else if values.len() > 0 {
        Some(values[0])
    } else {
        None
    }
}

/// Position of the first axis that is called `name` and reaches `role`.
fn find_axis(axes: &Vec<Axis>, name: &str, role: Option<Scope>) -> (r: usize)
    ensures
        r == first_where(axes_text(axes@), axis_for(name@, role)),
        r <= axes@.len(),
{
    let ghost all = axes_text(axes@);
    let mut i: usize = 0;
    while i < axes.len()
        invariant
            i <= axes@.len(),
            all == axes_text(axes@),
            forall|j: int| 0 <= j < i ==> !axis_for(name@, role)(#[trigger] all[j]),
        decreases axes@.len() - i,
    {
        let wanted = match role {
            Some(s) => axes[i].scope.applies_to(s),
            None => true,
        };
        assert(all[i as int] == axes@[i as int]@);
        if wanted && same(axes[i].name.as_str(), name) {
            proof {
                lemma_first_where(all, axis_for(name@, role), i as int);
            }
            return i;
        }
        i += 1;
    }
    proof {
        lemma_first_where(all, axis_for(name@, role), i as int);
    }
    i
}

/// Whether the axis `name` has `value` among its values.
pub fn axis_has(axes: &Vec<Axis>, name: &str, value: &str) -> (r: bool)
    ensures
        r == values_of(axes_text(axes@), name@, None).contains(value@),
{
    let at: usize = find_axis(axes, name, None);
    if at < axes.len() {
        assert(axes_text(axes@)[at as int] == axes@[at as int]@);
        contains_text(&axes[at].values, value)
    } else {
        false
    }
}

/// The value that stands for the axis `name`, as far as it reaches `role`.
pub fn representative(axes: &Vec<Axis>, name: &str, role: Option<Scope>, preferred: &str) -> (r:
    Option<String>)
    ensures
        match (r, representative_of(values_of(axes_text(axes@), name@, role), preferred@)) {
            (Some(a), Some(b)) => a@ == b,
            (None, None) => true,
            _ => false,
        },
{
    let at: usize = find_axis(axes, name, role);
    if at >= axes.len() {
        return None;
    }
    assert(axes_text(axes@)[at as int] == axes@[at as int]@);
    if contains_text(&axes[at].values, preferred) {
        Some(preferred.to_owned())
    } else if axes[at].values.len() > 0 {
        assert(texts(axes@[at as int].values@)[0] == axes@[at as int].values@[0]@);
        Some(axes[at].values[0].clone())
    } else {
        None
    }
}

// ---------------------------------------------------------------------------
// Filtering
// ---------------------------------------------------------------------------

/// The number behind the first `:`, if there is one.
pub open spec fn count_behind_colon(s: Seq<char>) -> Option<nat> {
    match split_once_text(s, ':') {
        Some((_, count)) => unsigned_of(count, usize::MAX as int),
        None => None,
    }
}

pub fn bond_pairs(value: &str) -> (r: Option<usize>)
    ensures
        match r {
            Some(n) => count_behind_colon(value@) == Some(n as nat),
            None => count_behind_colon(value@) is None,
        },
{
    match split_once(value, ':') {
        Some((_, pairs)) => parse_usize(pairs.as_str()),
        None => None,
    }
}

pub open spec fn or_else(v: Option<Seq<char>>, default: Seq<char>) -> Seq<char> {
    match v {
        Some(s) => s,
        None => default,
    }
}

/// Whether a value of an axis that makes no difference is not its representative.
pub open spec fn redundant(
    value: Option<Seq<char>>,
    axes: Seq<AxisText>,
    name: Seq<char>,
    role: Option<Scope>,
    preferred: Seq<char>,
) -> bool {
    match (value, representative_of(values_of(axes, name, role), preferred)) {
        (Some(v), Some(keep)) => v != keep,
        _ => false,
    }
}

/// Whether a cell runs bonded pairs.
pub open spec fn is_bonded(cell: Seq<ValueText>) -> bool {
    match value_in(cell, "bond"@, Some(Scope::Both)) {
        Some(mode) => mode != "none"@,
        None => false,
    }
}

/// Whether a cell asks for more bonded legs than it has connections.
pub open spec fn overbonded(cell: Seq<ValueText>) -> bool {
    let pairs = match value_in(cell, "bond"@, Some(Scope::Both)) {
        Some(b) => count_behind_colon(b),
        None => None,
    };
    let connections = match value_in(cell, "connections"@, Some(Scope::Both)) {
        Some(c) => unsigned_of(c, usize::MAX as int),
        None => None,
    };
    match (pairs, connections) {
        (Some(p), Some(c)) => p > c / 2,
        _ => false,
    }
}

/// Whether a bonded cell admits fewer than two handshakes at once.
pub open spec fn underadmitted(cell: Seq<ValueText>) -> bool {
    match value_in(cell, "connect-concurrency"@, Some(Scope::Both)) {
        Some(cc) => match unsigned_of(cc, usize::MAX as int) {
            Some(n) => n < 2,
            None => true,
        },
        None => false,
    }
}

/// Whether the promotion policy of a cell makes no difference to it.
pub open spec fn promotion_inert(cell: Seq<ValueText>, axes: Seq<AxisText>) -> bool {
    let ingress = or_else(role_value_in(cell, "ingress"@, Scope::Recv), "per-port"@);
    let promotion = value_in(cell, "promotion"@, Some(Scope::Both));
    let values = values_of(axes, "promotion"@, None);
    if !has_prefix(ingress, "reuseport-multi:"@) {
        redundant(promotion, axes, "promotion"@, None, "all"@)
    } else if value_in(cell, "bond"@, Some(Scope::Both)) != Some("none"@) {
        false
    } else {
        match promotion {
            None => false,
            Some(p) => {
                ||| (p == "relocate"@ || p == "bonded"@) && values.contains("never"@)
                ||| !values.contains("never"@) && values.contains("all"@) && p != "all"@
            },
        }
    }
}

/// Why a cell is redundant or invalid, if it should not be run.
pub open spec fn rejection(cell: Seq<ValueText>, axes: Seq<AxisText>) -> Option<Seq<char>> {
    let ingress = or_else(role_value_in(cell, "ingress"@, Scope::Recv), "per-port"@);
    let egress = or_else(role_value_in(cell, "egress"@, Scope::Send), "per-connection"@);
    let runtime_recv = or_else(role_value_in(cell, "runtime"@, Scope::Recv), "mio"@);
    let runtime_send = or_else(role_value_in(cell, "runtime"@, Scope::Send), runtime_recv);
    if egress == "shared-socket"@ && redundant(
        role_value_in(cell, "workers"@, Scope::Send),
        axes,
        "workers"@,
        Some(Scope::Send),
        "1"@,
    ) {
        Some("shared-egress-workers-inert"@)
    } else if is_bonded(cell) && egress != "shared-socket"@ {
        Some("bonded-egress-unsupported"@)
    } else if is_bonded(cell) && underadmitted(cell) {
        Some("bonded-cc-requires-2"@)
    } else if overbonded(cell) {
        Some("bond-capacity"@)
    } else if is_bonded(cell) && ingress != "shared-pool:1"@ {
        Some("bonded-ingress-unsupported"@)
    } else if promotion_inert(cell, axes) {
        Some("promotion-inert"@)
    } else if !has_prefix(ingress, "reuseport-multi:"@) && redundant(
        value_in(cell, "cookie-routing"@, Some(Scope::Both)),
        axes,
        "cookie-routing"@,
        None,
        "on"@,
    ) {
        Some("cookie-routing-inert"@)
    } else if (runtime_recv != "mio"@ || ingress == "per-port"@) && redundant(
        value_in(cell, "batch"@, Some(Scope::Both)),
        axes,
        "batch"@,
        None,
        "on"@,
    ) {
        Some("batch-inert"@)
    } else if runtime_recv != "glommio"@ && runtime_send != "glommio"@ && redundant(
        value_in(cell, "pin"@, Some(Scope::Both)),
        axes,
        "pin"@,
        None,
        "off"@,
    ) {
        Some("pin-inert"@)
    } else {
        None
    }
}

fn value_or(v: Option<&String>, default: &str) -> (r: String)
    ensures
        r@ == match v {
            Some(s) => s@,
            None => default@,
        },
{
    match v {
        Some(s) => s.clone(),
        None => default.to_owned(),
    }
}

fn is_redundant(
    value: Option<&String>,
    axes: &Vec<Axis>,
    name: &str,
    role: Option<Scope>,
    preferred: &str,
) -> (r: bool)
    ensures
        r == redundant(
            match value {
                Some(v) => Some(v@),
                None => None,
            },
            axes_text(axes@),
            name@,
            role,
            preferred@,
        ),
{
    match (value, representative(axes, name, role, preferred)) {
        (Some(v), Some(keep)) => !same(v.as_str(), keep.as_str()),
        _ => false,
    }
}

fn filter_bond_capacity(cell: &Cell) -> (r: bool)
    ensures
        r == overbonded(cell_text(cell@)),
{
    let pairs: Option<usize> = match cell_value(cell, "bond", Some(Scope::Both)) {
        Some(b) => bond_pairs(b.as_str()),
        None => None,
    };
    let connections: Option<usize> = match cell_value(cell, "connections", Some(Scope::Both)) {
        Some(c) => parse_usize(c.as_str()),
        None => None,
    };
    match (pairs, connections) {
        (Some(p), Some(c)) => p > c / 2,
        _ => false,
    }
}

fn filter_promotion(cell: &Cell, axes: &Vec<Axis>, is_multi: bool) -> (r: bool)
    requires
        is_multi == has_prefix(
            or_else(role_value_in(cell_text(cell@), "ingress"@, Scope::Recv), "per-port"@),
            "reuseport-multi:"@,
        ),
    ensures
        r == promotion_inert(cell_text(cell@), axes_text(axes@)),
{
    let promotion = cell_value(cell, "promotion", Some(Scope::Both));
    if !is_multi {
        return is_redundant(promotion, axes, "promotion", None, "all");
    }
    let unbonded = match cell_value(cell, "bond", Some(Scope::Both)) {
        Some(mode) => same(mode.as_str(), "none"),
        None => false,
    };
    if !unbonded {
        return false;
    }
    match promotion {
        None => false,
        Some(p) => {
            let keep_never = axis_has(axes, "promotion", "never");
            let keep_all = axis_has(axes, "promotion", "all");
            let p = p.as_str();
            (same(p, "relocate") || same(p, "bonded")) && keep_never || (!keep_never && keep_all
                && !same(p, "all"))
        },
    }
}

/// Return why a cell is redundant or invalid, if it should not be run.
///
/// The matrix remains a cartesian product at the plan level, but this removes
/// combinations where the selected runtime/topology cannot observe an axis. A
/// representative value is kept when an axis is inert, so that a plan with one
/// value still runs as written.
pub fn filter_reason(cell: &Cell, axes: &Vec<Axis>) -> (r: Option<&'static str>)
    ensures
        match (r, rejection(cell_text(cell@), axes_text(axes@))) {
            (Some(a), Some(b)) => a@ == b,
            (None, None) => true,
            _ => false,
        },
{
    let ingress = value_or(role_value(cell, "ingress", Scope::Recv), "per-port");
    let egress = value_or(role_value(cell, "egress", Scope::Send), "per-connection");
    let runtime_recv = value_or(role_value(cell, "runtime", Scope::Recv), "mio");
    let runtime_send = value_or(role_value(cell, "runtime", Scope::Send), runtime_recv.as_str());
    let shared = same(egress.as_str(), "shared-socket");
    let bonded = match cell_value(cell, "bond", Some(Scope::Both)) {
        Some(mode) => !same(mode.as_str(), "none"),
        None => false,
    };
    // One shared UDP socket has one owning runtime loop. Extra sender workers cannot
    // alter it.
    if shared && is_redundant(
        role_value(cell, "workers", Scope::Send),
        axes,
        "workers",
        Some(Scope::Send),
        "1",
    ) {
        return Some("shared-egress-workers-inert");
    }
    if bonded && !shared {
        return Some("bonded-egress-unsupported");
    }
    if bonded {
        if let Some(cc) = cell_value(cell, "connect-concurrency", Some(Scope::Both)) {
            let n: usize = match parse_usize(cc.as_str()) {
                Some(n) => n,
                None => 1,
            };
            if n < 2 {
                return Some("bonded-cc-requires-2");
            }
        }
    }
    if filter_bond_capacity(cell) {
        return Some("bond-capacity");
    }
    // A bonded publisher is one logical ingress stream, so its legs must reach the
    // same group-aware peer table.
    if bonded && !same(ingress.as_str(), "shared-pool:1") {
        return Some("bonded-ingress-unsupported");
    }
    let is_multi = starts_with(ingress.as_str(), "reuseport-multi:");
    let is_per_port = same(ingress.as_str(), "per-port");
    if filter_promotion(cell, axes, is_multi) {
        return Some("promotion-inert");
    }
    if !is_multi && is_redundant(
        cell_value(cell, "cookie-routing", Some(Scope::Both)),
        axes,
        "cookie-routing",
        None,
        "on",
    ) {
        return Some("cookie-routing-inert");
    }
    if (!same(runtime_recv.as_str(), "mio") || is_per_port) && is_redundant(
        cell_value(cell, "batch", Some(Scope::Both)),
        axes,
        "batch",
        None,
        "on",
    ) {
        return Some("batch-inert");
    }
    if !same(runtime_recv.as_str(), "glommio") && !same(runtime_send.as_str(), "glommio")
        && is_redundant(
        cell_value(cell, "pin", Some(Scope::Both)),
        axes,
        "pin",
        None,
        "off",
    ) {
        return Some("pin-inert");
    }
    None
}

// ---------------------------------------------------------------------------
// Summary
// ---------------------------------------------------------------------------

/// How many cells were removed, by reason.
#[derive(Debug)]
pub struct MatrixFilterSummary {
    pub by_reason: TextMap<usize>,
}

/// The sum of `counts` over `keys`.
pub open spec fn count_sum(keys: Seq<Seq<char>>, counts: Map<Seq<char>, usize>) -> nat
    decreases keys.len(),
{
    if keys.len() == 0 {
        0
    } else {
        count_sum(keys.drop_last(), counts) + counts[keys.last()] as nat
    }
}

proof fn lemma_count_sum_other(
    keys: Seq<Seq<char>>,
    counts: Map<Seq<char>, usize>,
    k: Seq<char>,
    n: usize,
)
    requires
        !keys.contains(k),
    ensures
        count_sum(keys, counts.insert(k, n)) == count_sum(keys, counts),
    decreases keys.len(),
{
    if keys.len() > 0 {
        assert(keys[keys.len() - 1] != k) by {
            if keys[keys.len() - 1] == k {
                assert(keys.contains(k));
            }
        }
        assert(!keys.drop_last().contains(k)) by {
            if keys.drop_last().contains(k) {
                assert(keys[keys.drop_last().index_of(k)] == k);
            }
        }
        lemma_count_sum_other(keys.drop_last(), counts, k, n);
    }
}

proof fn lemma_count_sum_update(
    keys: Seq<Seq<char>>,
    counts: Map<Seq<char>, usize>,
    k: Seq<char>,
    n: usize,
)
    requires
        keys.no_duplicates(),
        keys.contains(k),
    ensures
        count_sum(keys, counts.insert(k, n)) + counts[k] == count_sum(keys, counts) + n,
        counts[k] <= count_sum(keys, counts),
    decreases keys.len(),
{
    let rest = keys.drop_last();
    assert(keys =~= rest.push(keys.last()));
    if keys.last() == k {
        assert(!rest.contains(k)) by {
            if rest.contains(k) {
                assert(keys[rest.index_of(k)] == keys[keys.len() - 1]);
            }
        }
        lemma_count_sum_other(rest, counts, k, n);
    } else {
        assert(rest.contains(k)) by {
            let i = keys.index_of(k);
            assert(rest[i] == k);
        }
        lemma_count_sum_update(rest, counts, k, n);
    }
}

proof fn lemma_count_sum_grows(keys: Seq<Seq<char>>, counts: Map<Seq<char>, usize>, n: int)
    requires
        0 <= n <= keys.len(),
    ensures
        count_sum(keys.take(n), counts) <= count_sum(keys, counts),
    decreases keys.len() - n,
{
    if n < keys.len() {
        lemma_count_sum_grows(keys, counts, n + 1);
        assert(keys.take(n + 1).drop_last() =~= keys.take(n));
    } else {
        assert(keys.take(n) =~= keys);
    }
}

impl MatrixFilterSummary {
    pub open spec fn wf(&self) -> bool {
        &&& self.by_reason.wf()
        &&& self.sum() <= usize::MAX
    }

    /// All removed cells.
    pub open spec fn sum(&self) -> nat {
        count_sum(self.by_reason.keys(), self.by_reason@)
    }

    /// Cells removed for one reason.
    pub open spec fn count(&self, reason: Seq<char>) -> nat {
        if self.by_reason@.contains_key(reason) {
            self.by_reason@[reason] as nat
        } else {
            0
        }
    }

    pub fn new() -> (r: Self)
        ensures
            r.wf(),
            r.sum() == 0,
            forall|reason: Seq<char>| #[trigger] r.count(reason) == 0,
    {
        MatrixFilterSummary { by_reason: TextMap::new() }
    }

    /// One more cell was removed for `reason`.
    pub fn record(&mut self, reason: &str)
        requires
            old(self).wf(),
            old(self).sum() < usize::MAX,
        ensures
            final(self).wf(),
            final(self).sum() == old(self).sum() + 1,
            forall|other: Seq<char>| #[trigger]
                final(self).count(other) == old(self).count(other) + if other == reason@ {
                    1nat
                } else {
                    0
                },
    {
        let ghost start = *self;
        let ghost keys = self.by_reason.keys();
        proof {
            self.by_reason.lemma_keys();
        }
        let before: usize = match self.by_reason.get(reason) {
            Some(n) => *n,
            None => 0,
        };
        proof {
            if start.by_reason@.contains_key(reason@) {
                lemma_count_sum_update(keys, start.by_reason@, reason@, before);
                lemma_count_sum_update(keys, start.by_reason@, reason@, (before + 1) as usize);
            } else {
                lemma_count_sum_other(keys, start.by_reason@, reason@, 1);
                assert(keys.push(reason@).drop_last() =~= keys);
            }
        }
        self.by_reason.insert(reason.to_owned(), before + 1);
    }

    /// How many cells were removed.
    pub fn total(&self) -> (r: usize)
        requires
            self.wf(),
        ensures
            r == self.sum(),
    {
        let ghost keys = self.by_reason.keys();
        let mut sum: usize = 0;
        let mut i: usize = 0;
        proof {
            self.by_reason.lemma_keys();
            assert(keys.take(0) =~= Seq::<Seq<char>>::empty());
        }
        while i < self.by_reason.len()
            invariant
                self.wf(),
                keys == self.by_reason.keys(),
                i <= keys.len(),
                forall|k: Seq<char>| #[trigger] keys.contains(k) ==> self.by_reason@.contains_key(k),
                sum == count_sum(keys.take(i as int), self.by_reason@),
            decreases keys.len() - i,
        {
            let key = self.by_reason.key_at(i);
            proof {
                assert(keys.contains(key@)) by {
                    assert(keys[i as int] == key@);
                }
                lemma_count_sum_grows(keys, self.by_reason@, i + 1);
                assert(keys.take(i + 1).drop_last() =~= keys.take(i as int));
            }
            let n: usize = match self.by_reason.get(key) {
                Some(n) => *n,
                None => 0,
            };
            sum += n;
            i += 1;
        }
        assert(keys.take(keys.len() as int) =~= keys);
        sum
    }

    /// `reason=count` for every reason, in ascending order.
    pub fn describe(&self) -> (r: String)
        requires
            self.wf(),
        ensures
            r@ == joined(
                sorted_texts(self.by_reason.keys()).map_values(
                    |k: Seq<char>| k + "="@ + decimal(self.count(k)),
                ),
                " "@,
            ),
    {
        let ghost all = self.by_reason.keys();
        let mut keys: Vec<String> = Vec::new();
        let mut i: usize = 0;
        while i < self.by_reason.len()
            invariant
                all == self.by_reason.keys(),
                i <= all.len(),
                texts(keys@) == all.take(i as int),
            decreases all.len() - i,
        {
            let key = self.by_reason.key_at(i).to_owned();
            proof {
                lemma_texts_push(keys@, key);
                assert(all.take(i + 1) =~= all.take(i as int).push(key@));
            }
            keys.push(key);
            i += 1;
        }
        assert(all.take(all.len() as int) =~= all);
        let keys = sort(keys);
        let ghost want = sorted_texts(all).map_values(
            |k: Seq<char>| k + "="@ + decimal(self.count(k)),
        );
        let mut parts: Vec<String> = Vec::new();
        let mut i: usize = 0;
        while i < keys.len()
            invariant
                texts(keys@) == sorted_texts(all),
                i <= keys@.len(),
                want == sorted_texts(all).map_values(
                    |k: Seq<char>| k + "="@ + decimal(self.count(k)),
                ),
                texts(parts@) == want.take(i as int),
            decreases keys@.len() - i,
        {
            let n: usize = match self.by_reason.get(keys[i].as_str()) {
                Some(n) => *n,
                None => 0,
            };
            let count = render(n as u64);
            let part = concat3(keys[i].as_str(), "=", count.as_str());
            proof {
                lemma_texts_push(parts@, part);
                assert(texts(keys@)[i as int] == keys@[i as int]@);
                assert(want.take(i + 1) =~= want.take(i as int).push(part@));
            }
            parts.push(part);
            i += 1;
        }
        assert(want.take(want.len() as int) =~= want);
        join(&parts, " ")
    }
}

// ---------------------------------------------------------------------------
// The Cartesian product
// ---------------------------------------------------------------------------

/// How many cells the first `n` axes span.
pub open spec fn span(axes: Seq<AxisText>, n: int) -> nat
    decreases n,
{
    if n <= 0 {
        1
    } else {
        span(axes, n - 1) * axes[n - 1].values.len()
    }
}

/// The `k`-th cell of the product of the first `n` axes; the last axis varies
/// fastest.
pub open spec fn cell_at(axes: Seq<AxisText>, n: int, k: int) -> Seq<ValueText>
    decreases n,
{
    if n <= 0 {
        Seq::empty()
    } else {
        let axis = axes[n - 1];
        let size = axis.values.len() as int;
        cell_at(axes, n - 1, k / size).push(
            ValueText { axis: axis.name, scope: axis.scope, value: axis.values[k % size] },
        )
    }
}

/// All cells of the product of `axes`, in order.
pub open spec fn product(axes: Seq<AxisText>) -> Seq<Seq<ValueText>> {
    Seq::new(span(axes, axes.len() as int), |k: int| cell_at(axes, axes.len() as int, k))
}

/// The test for a cell that is worth running.
pub open spec fn kept_by(axes: Seq<AxisText>) -> spec_fn(Seq<ValueText>) -> bool {
    |cell: Seq<ValueText>| rejection(cell, axes) is None
}

/// How many of `cells` are removed for `reason`.
pub open spec fn removed(
    cells: Seq<Seq<ValueText>>,
    axes: Seq<AxisText>,
    reason: Seq<char>,
) -> nat
    decreases cells.len(),
{
    if cells.len() == 0 {
        0
    } else {
        removed(cells.drop_last(), axes, reason) + if rejection(cells.last(), axes) == Some(
            reason,
        ) {
            1nat
        } else {
            0
        }
    }
}

/// The cells of `all` that were kept, and a summary of those that were not.
pub open spec fn filtered(
    all: Seq<Seq<ValueText>>,
    axes: Seq<AxisText>,
    kept: Seq<Cell>,
    summary: MatrixFilterSummary,
) -> bool {
    &&& cells_text(kept) == all.filter(kept_by(axes))
    &&& summary.wf()
    &&& summary.sum() == all.len() - kept.len()
    &&& forall|reason: Seq<char>| #[trigger] summary.count(reason) == removed(all, axes, reason)
}

/// Looks at one more cell.
fn sift(
    cell: Cell,
    axes: &Vec<Axis>,
    kept: &mut Vec<Cell>,
    summary: &mut MatrixFilterSummary,
    Ghost(before): Ghost<Seq<Seq<ValueText>>>,
)
    requires
        filtered(before, axes_text(axes@), old(kept)@, *old(summary)),
        before.len() < usize::MAX,
    ensures
        filtered(before.push(cell_text(cell@)), axes_text(axes@), final(kept)@, *final(summary)),
        final(kept)@.len() <= before.len() + 1,
{
    let ghost text = axes_text(axes@);
    let ghost now = before.push(cell_text(cell@));
    let ghost was_kept = kept@;
    let ghost was = *summary;
    proof {
        reveal(Seq::filter);
        assert(now.drop_last() =~= before);
        lemma_filter_shrinks(before, kept_by(text));
        assert(was_kept.len() == cells_text(was_kept).len());
    }
    match filter_reason(&cell, axes) {
        Some(reason) => {
            summary.record(reason);
            assert(now.filter(kept_by(text)) == before.filter(kept_by(text)));
            assert forall|other: Seq<char>| #[trigger] summary.count(other) == removed(
                now,
                text,
                other,
            ) by {
                assert(was.count(other) == removed(before, text, other));
            }
        },
        None => {
            kept.push(cell);
            assert(cells_text(kept@) =~= cells_text(was_kept).push(cell_text(cell@)));
            assert forall|other: Seq<char>| #[trigger] summary.count(other) == removed(
                now,
                text,
                other,
            ) by {
                assert(was.count(other) == removed(before, text, other));
            }
        },
    }
}

proof fn lemma_filter_shrinks(s: Seq<Seq<ValueText>>, p: spec_fn(Seq<ValueText>) -> bool)
    ensures
        s.filter(p).len() <= s.len(),
    decreases s.len(),
{
    reveal(Seq::filter);
    if s.len() > 0 {
        lemma_filter_shrinks(s.drop_last(), p);
    }
}

proof fn lemma_nothing_filtered(axes: Seq<AxisText>, kept: Seq<Cell>, summary: MatrixFilterSummary)
    requires
        kept.len() == 0,
        summary.wf(),
        summary.sum() == 0,
        forall|reason: Seq<char>| #[trigger] summary.count(reason) == 0,
    ensures
        filtered(Seq::empty(), axes, kept, summary),
{
    reveal(Seq::filter);
    assert(cells_text(kept) =~= Seq::<Seq<ValueText>>::empty().filter(kept_by(axes)));
}

/// Keeps the cells that are worth running.
pub fn filter_matrix_cells(cells: Vec<Cell>, axes: &Vec<Axis>) -> (r: (
    Vec<Cell>,
    MatrixFilterSummary,
))
    ensures
        filtered(cells_text(cells@), axes_text(axes@), r.0@, r.1),
{
    let ghost all = cells_text(cells@);
    let mut cells = cells;
    let mut rest: Vec<Cell> = Vec::new();
    let n: usize = cells.len();
    // Turn the list round so that taking from its end walks it from the front.
    while cells.len() > 0
        invariant
            n == all.len(),
            cells@.len() + rest@.len() == n,
            cells_text(cells@) == all.take(cells@.len() as int),
            forall|i: int|
                0 <= i < rest@.len() ==> cell_text((#[trigger] rest@[i])@) == all[n - 1 - i],
        decreases cells@.len(),
    {
        let ghost before = cells@;
        let cell = cells.pop().unwrap();
        proof {
            assert(cells_text(before)[before.len() - 1] == cell_text(cell@));
            assert(cells_text(cells@) =~= all.take(cells@.len() as int)) by {
                assert forall|i: int| 0 <= i < cells@.len() implies cells_text(cells@)[i]
                    == all[i] by {
                    assert(cells_text(before)[i] == all.take(before.len() as int)[i]);
                }
            }
        }
        rest.push(cell);
    }
    let mut kept: Vec<Cell> = Vec::new();
    let mut summary = MatrixFilterSummary::new();
    proof {
        lemma_nothing_filtered(axes_text(axes@), kept@, summary);
        assert(all.take(0) =~= Seq::<Seq<ValueText>>::empty());
    }
    while rest.len() > 0
        invariant
            n == all.len(),
            rest@.len() <= n,
            forall|i: int|
                0 <= i < rest@.len() ==> cell_text((#[trigger] rest@[i])@) == all[n - 1 - i],
            filtered(all.take(n - rest@.len()), axes_text(axes@), kept@, summary),
        decreases rest@.len(),
    {
        let ghost done = n - rest@.len();
        let ghost before = rest@;
        let cell = rest.pop().unwrap();
        assert(cell_text(cell@) == all[done]) by {
            assert(before[before.len() - 1] == cell);
        }
        assert(all.take(done + 1) =~= all.take(done).push(all[done]));
        sift(cell, axes, &mut kept, &mut summary, Ghost(all.take(done)));
    }
    assert(all.take(n as int) =~= all);
    (kept, summary)
}

/// Whether counting the cells of `axes` stays in range, axis by axis.
pub open spec fn countable(axes: Seq<AxisText>) -> bool {
    forall|n: int| 0 <= n <= axes.len() ==> #[trigger] span(axes, n) <= usize::MAX
}

/// Whether digit `d`, counted from the last axis, is what remains of its quotient.
spec fn digit_ok(
    digits: Seq<usize>,
    quotients: Seq<int>,
    axes: Seq<AxisText>,
    n: int,
    d: int,
) -> bool {
    let size = axes[n - 1 - d].values.len() as int;
    digits[d] == quotients[d] % size && quotients[d + 1] == quotients[d] / size
}

/// The `k`-th cell of the product.
fn make_cell(axes: &Vec<Axis>, k: usize) -> (r: Cell)
    requires
        forall|i: int| 0 <= i < axes@.len() ==> (#[trigger] axes@[i]).values@.len() > 0,
    ensures
        cell_text(r@) == cell_at(axes_text(axes@), axes@.len() as int, k as int),
{
    let ghost text = axes_text(axes@);
    let n: usize = axes.len();
    // The digits of `k`, last axis first.
    let mut digits: Vec<usize> = Vec::new();
    let mut left: usize = k;
    let mut i: usize = n;
    let ghost mut quotients: Seq<int> = seq![k as int];
    while i > 0
        invariant
            i <= n == axes@.len() == text.len(),
            text == axes_text(axes@),
            digits@.len() == n - i,
            quotients.len() == n - i + 1,
            quotients[0] == k,
            quotients[n - i] == left,
            forall|a: int| 0 <= a < axes@.len() ==> (#[trigger] axes@[a]).values@.len() > 0,
            forall|d: int|
                0 <= d < n - i ==> #[trigger] digit_ok(digits@, quotients, text, n as int, d),
        decreases i,
    {
        i -= 1;
        assert(axes@[i as int].values@.len() > 0);
        assert(text[i as int] == axes@[i as int]@);
        assert(text[i as int].values.len() == axes@[i as int].values@.len());
        let size: usize = axes[i].values.len();
        let ghost before = quotients;
        let ghost had = digits@;
        digits.push(left % size);
        proof {
            quotients = quotients.push(left as int / size as int);
            assert forall|d: int| 0 <= d < n - i implies #[trigger] digit_ok(
                digits@,
                quotients,
                text,
                n as int,
                d,
            ) by {
                if d < n - i - 1 {
                    assert(digits@[d] == had[d]);
                    assert(digit_ok(had, before, text, n as int, d));
                    assert(quotients[d + 1] == before[d + 1]);
                }
            }
        }
        left = left / size;
    }
    let mut cell: Cell = Vec::new();
    let mut i: usize = 0;
    proof {
        assert(cell_text(cell@) =~= cell_at(text, 0, quotients[n as int]));
    }
    while i < n
        invariant
            i <= n == axes@.len() == text.len(),
            text == axes_text(axes@),
            digits@.len() == n,
            quotients.len() == n + 1,
            quotients[0] == k,
            forall|a: int| 0 <= a < axes@.len() ==> (#[trigger] axes@[a]).values@.len() > 0,
            forall|d: int|
                0 <= d < n ==> #[trigger] digit_ok(digits@, quotients, text, n as int, d),
            cell_text(cell@) == cell_at(text, i as int, quotients[n - i]),
        decreases n - i,
    {
        let ghost d = n - 1 - i;
        assert(text[i as int] == axes@[i as int]@);
        assert(text[i as int].values.len() == axes@[i as int].values@.len());
        assert(digit_ok(digits@, quotients, text, n as int, d));
        assert(digits@[d] == quotients[d] % text[i as int].values.len() as int);
        let at: usize = digits[n - 1 - i];
        proof {
            assert(0 <= at < axes@[i as int].values@.len()) by {
                assert(axes@[i as int].values@.len() > 0);
                vstd::arithmetic::div_mod::lemma_mod_bound(
                    quotients[d],
                    text[i as int].values.len() as int,
                );
            }
        }
        let v = CellValue {
            axis: axes[i].name.clone(),
            scope: axes[i].scope,
            value: axes[i].values[at].clone(),
        };
        proof {
            assert(texts(axes@[i as int].values@)[at as int] == v.value@);
            assert(cell_text(cell@.push(v)) =~= cell_text(cell@).push(v@));
        }
        cell.push(v);
        i += 1;
    }
    cell
}

/// Expand and filter one Cartesian point at a time. The second result is the size
/// of the unfiltered product.
///
/// Holding the raw product first would take gigabytes before filtering could
/// discard the inert combinations.
pub fn filtered_cartesian_cells(axes: &Vec<Axis>) -> (r: Result<
    (Vec<Cell>, usize, MatrixFilterSummary),
    String,
>)
    ensures
        match r {
            Ok((kept, raw, summary)) => {
                &&& countable(axes_text(axes@))
                &&& raw == span(axes_text(axes@), axes@.len() as int)
                &&& filtered(product(axes_text(axes@)), axes_text(axes@), kept@, summary)
            },
            Err(e) => !countable(axes_text(axes@)) && e@
                == "matrix Cartesian product overflows usize"@,
        },
{
    let ghost text = axes_text(axes@);
    let mut raw: usize = 1;
    let mut i: usize = 0;
    while i < axes.len()
        invariant
            i <= axes@.len() == text.len(),
            text == axes_text(axes@),
            raw == span(text, i as int),
            forall|n: int| 0 <= n <= i ==> #[trigger] span(text, n) <= usize::MAX,
            raw > 0 ==> forall|a: int| 0 <= a < i ==> (#[trigger] axes@[a]).values@.len() > 0,
        decreases axes@.len() - i,
    {
        assert(text[i as int] == axes@[i as int]@);
        assert(text[i as int].values.len() == axes@[i as int].values@.len());
        let size: usize = axes[i].values.len();
        let ghost next = span(text, i + 1);
        assert(next == raw * size);
        match raw.checked_mul(size) {
            Some(n) => {
                proof {
                    assert(n > 0 ==> raw > 0 && size > 0) by (nonlinear_arith)
                        requires
                            n == raw * size,
                            n >= 0,
                            raw >= 0,
                            size >= 0,
                    ;
                }
                raw = n;
            },
            None => {
                assert(span(text, i + 1) > usize::MAX);
                return Err("matrix Cartesian product overflows usize".to_owned());
            },
        }
        i += 1;
    }
    let mut kept: Vec<Cell> = Vec::new();
    let mut summary = MatrixFilterSummary::new();
    let ghost all = product(text);
    proof {
        lemma_nothing_filtered(text, kept@, summary);
        assert(all.take(0) =~= Seq::<Seq<ValueText>>::empty());
    }
    let mut k: usize = 0;
    while k < raw
        invariant
            k <= raw == all.len(),
            text == axes_text(axes@),
            all == product(text),
            raw > 0 ==> forall|a: int|
                0 <= a < axes@.len() ==> (#[trigger] axes@[a]).values@.len() > 0,
            filtered(all.take(k as int), text, kept@, summary),
        decreases raw - k,
    {
        let cell = make_cell(axes, k);
        assert(cell_text(cell@) == all[k as int]);
        assert(all.take(k + 1) =~= all.take(k as int).push(all[k as int]));
        sift(cell, axes, &mut kept, &mut summary, Ghost(all.take(k as int)));
        k += 1;
    }
    assert(all.take(raw as int) =~= all);
    Ok((kept, raw, summary))
}

/// Every removed cell is counted once: what was kept and what was counted make up
/// the whole.
pub proof fn each_cell_is_kept_or_counted(
    all: Seq<Seq<ValueText>>,
    axes: Seq<AxisText>,
    kept: Seq<Cell>,
    summary: MatrixFilterSummary,
)
    requires
        filtered(all, axes, kept, summary),
    ensures
        kept.len() + summary.sum() == all.len(),
{
    lemma_filter_shrinks(all, kept_by(axes));
    assert(kept.len() == cells_text(kept).len());
}

/// `cell` is the one cell of `axes`, each of which has one value. No axis is given
/// twice: one that is split between the roles is not shared by them as well.
pub open spec fn only_cell(cell: Seq<ValueText>, axes: Seq<AxisText>) -> bool {
    &&& axes.len() == cell.len()
    &&& forall|i: int|
        0 <= i < axes.len() ==> (#[trigger] axes[i]).values == seq![cell[i].value] && axes[i].name
            == cell[i].axis && axes[i].scope == cell[i].scope
    &&& forall|i: int, j: int|
        0 <= i < cell.len() && 0 <= j < cell.len() && i != j && (#[trigger] cell[i]).axis == (
        #[trigger] cell[j]).axis ==> cell[i].scope != cell[j].scope && cell[i].scope != Scope::Both
            && cell[j].scope != Scope::Both
}

/// A plan that gives every axis one value, for both roles or for each, runs as
/// written, as far as bonding permits: nothing that makes no difference is removed.
pub proof fn single_valued_plans_run(cell: Seq<ValueText>, axes: Seq<AxisText>)
    requires
        only_cell(cell, axes),
    ensures
        rejection(cell, axes) is None || rejection(cell, axes) == Some(
            "bonded-egress-unsupported"@,
        ) || rejection(cell, axes) == Some("bonded-cc-requires-2"@) || rejection(cell, axes)
            == Some("bond-capacity"@) || rejection(cell, axes) == Some(
            "bonded-ingress-unsupported"@,
        ),
{
    lemma_single_for_role(cell, axes, "workers"@, Scope::Send, "1"@);
    lemma_single(cell, axes, "promotion"@, "all"@);
    lemma_single(cell, axes, "cookie-routing"@, "on"@);
    lemma_single(cell, axes, "batch"@, "on"@);
    lemma_single(cell, axes, "pin"@, "off"@);
    lemma_single_promotion(cell, axes);
}

/// The shared value of an axis is the only one that the axis has.
proof fn lemma_single(
    cell: Seq<ValueText>,
    axes: Seq<AxisText>,
    name: Seq<char>,
    preferred: Seq<char>,
)
    requires
        only_cell(cell, axes),
    ensures
        !redundant(value_in(cell, name, Some(Scope::Both)), axes, name, None, preferred),
        value_in(cell, name, Some(Scope::Both)) is Some ==> values_of(axes, name, None) == seq![
            value_in(cell, name, Some(Scope::Both))->0,
        ],
{
    let both = on_axis(name, Some(Scope::Both));
    let p = axis_for(name, None);
    lemma_first_where_found(cell, both);
    lemma_first_where_found(axes, p);
    let i = first_where(cell, both);
    let j = first_where(axes, p);
    if i < cell.len() {
        assert(axes[i].name == name);
        assert(p(axes[i]));
        assert(axes[j].name == cell[j].axis);
        assert(i == j);
        assert(axes[i].values == seq![cell[i].value]);
        assert(axes[i].values.contains(preferred) ==> preferred == cell[i].value);
    }
}

/// The value of an axis that reaches a role is the only one that reaches it.
proof fn lemma_single_for_role(
    cell: Seq<ValueText>,
    axes: Seq<AxisText>,
    name: Seq<char>,
    role: Scope,
    preferred: Seq<char>,
)
    requires
        only_cell(cell, axes),
        role != Scope::Both,
    ensures
        !redundant(role_value_in(cell, name, role), axes, name, Some(role), preferred),
{
    let both = on_axis(name, Some(Scope::Both));
    let own = on_axis(name, Some(role));
    let p = axis_for(name, Some(role));
    lemma_first_where_found(cell, both);
    lemma_first_where_found(cell, own);
    lemma_first_where_found(axes, p);
    let i = if first_where(cell, own) < cell.len() {
        first_where(cell, own)
    } else {
        first_where(cell, both)
    };
    let j = first_where(axes, p);
    if i < cell.len() {
        assert(axes[i].name == name && axes[i].scope == cell[i].scope);
        assert(p(axes[i]));
        assert(axes[j].name == cell[j].axis);
        assert(i == j);
        assert(axes[i].values == seq![cell[i].value]);
        assert(axes[i].values.contains(preferred) ==> preferred == cell[i].value);
    }
}

proof fn lemma_single_promotion(cell: Seq<ValueText>, axes: Seq<AxisText>)
    requires
        only_cell(cell, axes),
    ensures
        !promotion_inert(cell, axes),
{
    lemma_single(cell, axes, "promotion"@, "all"@);
    let promotion = value_in(cell, "promotion"@, Some(Scope::Both));
    if promotion is Some {
        let values = values_of(axes, "promotion"@, None);
        reveal_strlit("never");
        reveal_strlit("relocate");
        reveal_strlit("bonded");
        reveal_strlit("all");
        assert("never"@.len() == 5 && "relocate"@.len() == 8 && "bonded"@.len() == 6);
        assert(values.contains("never"@) ==> promotion->0 == "never"@);
        assert(values.contains("all"@) ==> promotion->0 == "all"@);
    }
}

} // verus!
