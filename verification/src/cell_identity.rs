//! What a cell's key tells apart: the configuration of a record, and nothing else.
//! The laws stand beside the key itself, in [`crate::compare`].
use crate::compare::{
    identity_parts, identity_text, lemma_config_columns_plain, scoped_columns, shadowed,
};
use crate::record::field_in;
use crate::results::config_columns_text;
use crate::text::joined;
use vstd::prelude::*;

verus! {

/// A number that tells the configuration columns apart: length, first letter and last
/// letter but one.
spec fn column_mark(s: Seq<char>) -> int {
    s.len() * 1_000_000 + s[0] as int * 1_000 + s[s.len() - 2] as int
}

spec fn column_place(mark: int) -> int {
    if mark == 7114109 {
        0int
    } else if mark == 10101111 {
        1int
    } else if mark == 7105115 {
        2int
    } else if mark == 6101115 {
        3int
    } else if mark == 9112111 {
        4int
    } else if mark == 6099105 {
        5int
    } else if mark == 5098099 {
        6int
    } else if mark == 11114100 {
        7int
    } else if mark == 18119099 {
        8int
    } else if mark == 24115101 {
        9int
    } else if mark == 4099117 {
        10int
    } else if mark == 3112105 {
        11int
    } else if mark == 10108097 {
        12int
    } else if mark == 11108101 {
        13int
    } else if mark == 9108115 {
        14int
    } else if mark == 9108116 {
        15int
    } else if mark == 12108101 {
        16int
    } else if mark == 14108116 {
        17int
    } else if mark == 12108112 {
        18int
    } else if mark == 10108105 {
        19int
    } else if mark == 7119114 {
        20int
    } else if mark == 12114109 {
        21int
    } else if mark == 12115109 {
        22int
    } else if mark == 12114115 {
        23int
    } else if mark == 12115115 {
        24int
    } else if mark == 12114114 {
        25int
    } else if mark == 12115114 {
        26int
    } else if mark == 9114117 {
        27int
    } else if mark == 9115117 {
        28int
    } else if mark == 5099110 {
        29int
    } else if mark == 10099099 {
        30int
    } else if mark == 4098110 {
        31int
    } else if mark == 10115112 {
        32int
    } else if mark == 11115100 {
        33int
    } else if mark == 17115109 {
        34int
    } else if mark == 21100109 {
        35int
    } else if mark == 16114109 {
        36int
    } else if mark == 4115099 {
        37int
    } else if mark == 16109101 {
        38int
    } else {
        -1
    }
}

/// No configuration column is listed twice.
proof fn lemma_config_columns_distinct()
    ensures
        forall|i: int|
            0 <= i < config_columns_text().len() ==> column_place(
                column_mark(#[trigger] config_columns_text()[i]),
            ) == i,
{
    reveal_strlit("runtime");
    reveal_strlit("encryption");
    reveal_strlit("ingress");
    reveal_strlit("egress");
    reveal_strlit("promotion");
    reveal_strlit("cookie");
    reveal_strlit("batch");
    reveal_strlit("recv_rounds");
    reveal_strlit("would_block_policy");
    reveal_strlit("sock_buf_requested_bytes");
    reveal_strlit("cpus");
    reveal_strlit("pin");
    reveal_strlit("link_delay");
    reveal_strlit("link_jitter");
    reveal_strlit("link_loss");
    reveal_strlit("link_rate");
    reveal_strlit("link_reorder");
    reveal_strlit("link_duplicate");
    reveal_strlit("link_corrupt");
    reveal_strlit("link_limit");
    reveal_strlit("workers");
    reveal_strlit("recv_runtime");
    reveal_strlit("send_runtime");
    reveal_strlit("recv_ingress");
    reveal_strlit("send_ingress");
    reveal_strlit("recv_workers");
    reveal_strlit("send_workers");
    reveal_strlit("recv_cpus");
    reveal_strlit("send_cpus");
    reveal_strlit("conns");
    reveal_strlit("connect_cc");
    reveal_strlit("bond");
    reveal_strlit("source_bps");
    reveal_strlit("srt_bw_mode");
    reveal_strlit("source_backlog_ms");
    reveal_strlit("datapath_q_horizon_ms");
    reveal_strlit("retry_horizon_ms");
    reveal_strlit("secs");
    reveal_strlit("model_policy_rev");
    let all = config_columns_text();
    assert forall|i: int| 0 <= i < all.len() implies column_place(column_mark(#[trigger] all[i]))
        == i by {
        if i == 0 {
            assert(all[i] == "runtime"@);
        } else if i == 1 {
            assert(all[i] == "encryption"@);
        } else if i == 2 {
            assert(all[i] == "ingress"@);
        } else if i == 3 {
            assert(all[i] == "egress"@);
        } else if i == 4 {
            assert(all[i] == "promotion"@);
        } else if i == 5 {
            assert(all[i] == "cookie"@);
        } else if i == 6 {
            assert(all[i] == "batch"@);
        } else if i == 7 {
            assert(all[i] == "recv_rounds"@);
        } else if i == 8 {
            assert(all[i] == "would_block_policy"@);
        } else if i == 9 {
            assert(all[i] == "sock_buf_requested_bytes"@);
        } else if i == 10 {
            assert(all[i] == "cpus"@);
        } else if i == 11 {
            assert(all[i] == "pin"@);
        } else if i == 12 {
            assert(all[i] == "link_delay"@);
        } else if i == 13 {
            assert(all[i] == "link_jitter"@);
        } else if i == 14 {
            assert(all[i] == "link_loss"@);
        } else if i == 15 {
            assert(all[i] == "link_rate"@);
        } else if i == 16 {
            assert(all[i] == "link_reorder"@);
        } else if i == 17 {
            assert(all[i] == "link_duplicate"@);
        } else if i == 18 {
            assert(all[i] == "link_corrupt"@);
        } else if i == 19 {
            assert(all[i] == "link_limit"@);
        } else if i == 20 {
            assert(all[i] == "workers"@);
        } else if i == 21 {
            assert(all[i] == "recv_runtime"@);
        } else if i == 22 {
            assert(all[i] == "send_runtime"@);
        } else if i == 23 {
            assert(all[i] == "recv_ingress"@);
        } else if i == 24 {
            assert(all[i] == "send_ingress"@);
        } else if i == 25 {
            assert(all[i] == "recv_workers"@);
        } else if i == 26 {
            assert(all[i] == "send_workers"@);
        } else if i == 27 {
            assert(all[i] == "recv_cpus"@);
        } else if i == 28 {
            assert(all[i] == "send_cpus"@);
        } else if i == 29 {
            assert(all[i] == "conns"@);
        } else if i == 30 {
            assert(all[i] == "connect_cc"@);
        } else if i == 31 {
            assert(all[i] == "bond"@);
        } else if i == 32 {
            assert(all[i] == "source_bps"@);
        } else if i == 33 {
            assert(all[i] == "srt_bw_mode"@);
        } else if i == 34 {
            assert(all[i] == "source_backlog_ms"@);
        } else if i == 35 {
            assert(all[i] == "datapath_q_horizon_ms"@);
        } else if i == 36 {
            assert(all[i] == "retry_horizon_ms"@);
        } else if i == 37 {
            assert(all[i] == "secs"@);
        } else if i == 38 {
            assert(all[i] == "model_policy_rev"@);
        }
    }
}

/// Two records that agree on the scoped columns leave the same columns out.
proof fn lemma_same_shadows(
    a: Seq<(Seq<char>, Seq<char>)>,
    b: Seq<(Seq<char>, Seq<char>)>,
    column: Seq<char>,
)
    requires
        forall|c: Seq<char>| #[trigger]
            scoped_columns().contains(c) ==> field_in(a, c) == field_in(b, c),
    ensures
        shadowed(a, column) == shadowed(b, column),
{
    let scoped = scoped_columns();
    assert(scoped.contains(scoped[0]) && scoped.contains(scoped[1]));
    assert(scoped.contains(scoped[2]) && scoped.contains(scoped[3]));
    assert(scoped.contains(scoped[4]) && scoped.contains(scoped[5]));
    assert(scoped.contains(scoped[6]) && scoped.contains(scoped[7]));
}

proof fn lemma_scoped_columns_configure()
    ensures
        forall|c: Seq<char>| #[trigger]
            scoped_columns().contains(c) ==> config_columns_text().contains(c),
{
    let all = config_columns_text();
    assert(all[27] == "recv_cpus"@ && all[28] == "send_cpus"@);
    assert(all[25] == "recv_workers"@ && all[26] == "send_workers"@);
    assert(all[21] == "recv_runtime"@ && all[22] == "send_runtime"@);
    assert(all[23] == "recv_ingress"@ && all[24] == "send_ingress"@);
}

/// What the key of a record says of a column: nothing where the record has no such
/// column, or where its role-scoped columns shadow it.
pub open spec fn said_of(record: Seq<(Seq<char>, Seq<char>)>, column: Seq<char>) -> Option<
    Seq<char>,
> {
    if shadowed(record, column) {
        None
    } else {
        field_in(record, column)
    }
}

/// Whether two keys say the same of column number `i`.
spec fn agree(a: Seq<(Seq<char>, Seq<char>)>, b: Seq<(Seq<char>, Seq<char>)>, i: int) -> bool {
    said_of(a, config_columns_text()[i]) == said_of(b, config_columns_text()[i])
}

proof fn lemma_same_parts(a: Seq<(Seq<char>, Seq<char>)>, b: Seq<(Seq<char>, Seq<char>)>, n: int)
    requires
        n <= config_columns_text().len(),
        forall|i: int| 0 <= i < n ==> #[trigger] agree(a, b, i),
    ensures
        identity_parts(a, n) == identity_parts(b, n),
    decreases n,
{
    if n > 0 {
        lemma_same_parts(a, b, n - 1);
        assert(agree(a, b, n - 1));
    }
}

/// Records that agree on the configuration columns have the same key.
pub proof fn lemma_equal_columns(
    a: Seq<(Seq<char>, Seq<char>)>,
    b: Seq<(Seq<char>, Seq<char>)>,
)
    requires
        forall|c: Seq<char>| #[trigger]
            config_columns_text().contains(c) ==> field_in(a, c) == field_in(b, c) || (
            !scoped_columns().contains(c) && shadowed(a, c)),
    ensures
        identity_text(a) == identity_text(b),
{
    let all = config_columns_text();
    lemma_scoped_columns_configure();
    assert forall|i: int| 0 <= i < all.len() implies #[trigger] agree(a, b, i) by {
        lemma_same_shadows(a, b, all[i]);
        assert(all.contains(all[i]));
    }
    lemma_same_parts(a, b, all.len() as int);
}

/// The keys of two records that differ in column number `k` alone: the same text
/// before and behind the two values.
proof fn lemma_keys_around(
    a: Seq<(Seq<char>, Seq<char>)>,
    b: Seq<(Seq<char>, Seq<char>)>,
    k: int,
    n: int,
) -> (around: (Seq<char>, Seq<char>))
    requires
        0 <= k < n <= config_columns_text().len(),
        forall|i: int| 0 <= i < n && i != k ==> #[trigger] agree(a, b, i),
        said_of(a, config_columns_text()[k]) is Some,
        said_of(b, config_columns_text()[k]) is Some,
    ensures
        identity_parts(a, n).len() == identity_parts(b, n).len() > 0,
        joined(identity_parts(a, n), " "@) == around.0 + said_of(a, config_columns_text()[k])->0
            + around.1,
        joined(identity_parts(b, n), " "@) == around.0 + said_of(b, config_columns_text()[k])->0
            + around.1,
    decreases n,
{
    let column = config_columns_text()[n - 1];
    let x = identity_parts(a, n);
    let y = identity_parts(b, n);
    if n == k + 1 {
        lemma_same_parts(a, b, k);
        let before = identity_parts(a, k);
        let head = if before.len() == 0 {
            column + "="@
        } else {
            joined(before, " "@) + " "@ + (column + "="@)
        };
        let va = said_of(a, column)->0;
        let vb = said_of(b, column)->0;
        assert(x.drop_last() =~= before);
        assert(y.drop_last() =~= before);
        assert(joined(x, " "@) =~= head + va + Seq::<char>::empty());
        assert(joined(y, " "@) =~= head + vb + Seq::<char>::empty());
        (head, Seq::empty())
    } else {
        let around = lemma_keys_around(a, b, k, n - 1);
        assert(agree(a, b, n - 1));
        match said_of(a, column) {
            None => around,
            Some(v) => {
                let part = column + "="@ + v;
                let tail = around.1 + (" "@ + part);
                assert(x.drop_last() =~= identity_parts(a, n - 1));
                assert(y.drop_last() =~= identity_parts(b, n - 1));
                assert(joined(x, " "@) =~= around.0 + said_of(a, config_columns_text()[k])->0
                    + tail);
                assert(joined(y, " "@) =~= around.0 + said_of(b, config_columns_text()[k])->0
                    + tail);
                (around.0, tail)
            },
        }
    }
}

/// Keys that say different things of one column, and the same of every other, differ.
proof fn lemma_values_tell_apart(
    a: Seq<(Seq<char>, Seq<char>)>,
    b: Seq<(Seq<char>, Seq<char>)>,
    k: int,
)
    requires
        0 <= k < config_columns_text().len(),
        forall|i: int|
            0 <= i < config_columns_text().len() && i != k ==> #[trigger] agree(a, b, i),
        said_of(a, config_columns_text()[k]) is Some,
        said_of(b, config_columns_text()[k]) is Some,
        !agree(a, b, k),
    ensures
        identity_text(a) != identity_text(b),
{
    let all = config_columns_text();
    let around = lemma_keys_around(a, b, k, all.len() as int);
    let va = said_of(a, all[k])->0;
    let vb = said_of(b, all[k])->0;
    if identity_text(a) == identity_text(b) {
        let key = identity_text(a);
        let from = around.0.len() as int;
        assert(key.len() == around.0.len() + va.len() + around.1.len());
        assert(key.len() == around.0.len() + vb.len() + around.1.len());
        assert(key.subrange(from, from + va.len()) =~= va);
        assert(key.subrange(from, from + vb.len()) =~= vb);
    }
}

/// Whether `s` begins with `front`.
spec fn begins(s: Seq<char>, front: Seq<char>) -> bool {
    front.len() <= s.len() && s.subrange(0, front.len() as int) == front
}

/// A joined text begins with what the first `m` parts come to.
proof fn lemma_joined_begins(parts: Seq<Seq<char>>, sep: Seq<char>, m: int)
    requires
        0 < m <= parts.len(),
    ensures
        begins(joined(parts, sep), joined(parts.take(m), sep)),
    decreases parts.len(),
{
    let whole = joined(parts, sep);
    let front = joined(parts.take(m), sep);
    if m == parts.len() {
        assert(parts.take(m) =~= parts);
        assert(whole.subrange(0, whole.len() as int) =~= whole);
    } else {
        let less = parts.drop_last();
        lemma_joined_begins(less, sep, m);
        assert(less.take(m) =~= parts.take(m));
        let shorter = joined(less, sep);
        assert(whole == shorter + sep + parts.last());
        assert(whole.subrange(0, front.len() as int) =~= shorter.subrange(
            0,
            front.len() as int,
        ));
    }
}

/// What stands before the part that follows `before` in a key.
spec fn lead(before: Seq<Seq<char>>) -> Seq<char> {
    if before.len() == 0 {
        Seq::empty()
    } else {
        joined(before, " "@) + " "@
    }
}

/// The parts of the first columns come first.
proof fn lemma_parts_begin(r: Seq<(Seq<char>, Seq<char>)>, i: int, n: int)
    requires
        0 <= i <= n,
    ensures
        identity_parts(r, i).len() <= identity_parts(r, n).len(),
        identity_parts(r, n).take(identity_parts(r, i).len() as int) == identity_parts(r, i),
    decreases n,
{
    let front = identity_parts(r, i);
    if i < n {
        lemma_parts_begin(r, i, n - 1);
        let less = identity_parts(r, n - 1);
        let all = identity_parts(r, n);
        assert(all.take(front.len() as int) =~= less.take(front.len() as int));
    } else {
        assert(front.take(front.len() as int) =~= front);
    }
}

/// The part that follows those of the first columns names a later column.
proof fn lemma_next_part(r: Seq<(Seq<char>, Seq<char>)>, i: int, n: int) -> (j: int)
    requires
        0 <= i <= n <= config_columns_text().len(),
        identity_parts(r, n).len() > identity_parts(r, i).len(),
    ensures
        i <= j < n,
        said_of(r, config_columns_text()[j]) is Some,
        identity_parts(r, n)[identity_parts(r, i).len() as int] == config_columns_text()[j] + "="@
            + said_of(r, config_columns_text()[j])->0,
    decreases n,
{
    let front = identity_parts(r, i);
    let less = identity_parts(r, n - 1);
    if less.len() > front.len() {
        lemma_next_part(r, i, n - 1)
    } else {
        lemma_parts_begin(r, i, n - 1);
        n - 1
    }
}

/// A key with a part behind those of the first `i` columns goes on with that part's
/// name.
proof fn lemma_key_goes_on(r: Seq<(Seq<char>, Seq<char>)>, i: int) -> (j: int)
    requires
        0 <= i <= config_columns_text().len(),
        identity_parts(r, config_columns_text().len() as int).len() > identity_parts(r, i).len(),
    ensures
        i <= j < config_columns_text().len(),
        said_of(r, config_columns_text()[j]) is Some,
        begins(identity_text(r), lead(identity_parts(r, i)) + config_columns_text()[j] + "="@),
        i < config_columns_text().len() && said_of(r, config_columns_text()[i]) is Some ==> j == i,
{
    let all = config_columns_text();
    let n = all.len() as int;
    let front = identity_parts(r, i);
    let parts = identity_parts(r, n);
    let at = front.len() as int;
    lemma_parts_begin(r, i, n);
    let j = if i < n && said_of(r, all[i]) is Some {
        lemma_parts_begin(r, i + 1, n);
        let one = identity_parts(r, i + 1);
        assert(one == front.push(all[i] + "="@ + said_of(r, all[i])->0));
        assert(parts.take(one.len() as int)[at] == parts[at]);
        i
    } else {
        lemma_next_part(r, i, n)
    };
    let value = said_of(r, all[j])->0;
    let part = all[j] + "="@ + value;
    assert(parts[at] == part);
    let head = parts.take(at + 1);
    lemma_joined_begins(parts, " "@, at + 1);
    assert(head.drop_last() =~= front);
    assert(head.last() == part);
    let key = identity_text(r);
    let text = joined(head, " "@);
    let name = lead(front) + all[j] + "="@;
    assert(text =~= name + value);
    assert(text.subrange(0, name.len() as int) =~= name);
    assert(key.subrange(0, name.len() as int) =~= key.subrange(0, text.len() as int).subrange(
        0,
        name.len() as int,
    ));
    j
}

/// Where one key goes on with a column of which the other says nothing, they differ.
proof fn lemma_names_tell_apart(
    a: Seq<(Seq<char>, Seq<char>)>,
    b: Seq<(Seq<char>, Seq<char>)>,
    i: int,
)
    requires
        0 <= i < config_columns_text().len(),
        forall|j: int| 0 <= j < i ==> #[trigger] agree(a, b, j),
        said_of(a, config_columns_text()[i]) is Some,
        said_of(b, config_columns_text()[i]) is None,
    ensures
        identity_text(a) != identity_text(b),
{
    let all = config_columns_text();
    let n = all.len() as int;
    lemma_same_parts(a, b, i);
    lemma_parts_begin(a, i + 1, n);
    lemma_parts_begin(b, i, n);
    lemma_config_columns_plain();
    lemma_config_columns_distinct();
    reveal_strlit("=");
    reveal_strlit(" ");
    let front = identity_parts(a, i);
    let before = lead(front);
    let x = lemma_key_goes_on(a, i);
    assert(x == i);
    let key = identity_text(a);
    let mine = before + all[i] + "="@;
    assert(begins(key, mine));
    if key == identity_text(b) {
        let rest = identity_parts(b, n);
        if rest.len() > front.len() {
            let j = lemma_key_goes_on(b, i);
            assert(j != i);
            let other = before + all[j] + "="@;
            assert(begins(key, other));
            assert(all[i] != all[j]) by {
                assert(column_place(column_mark(all[i])) == i);
                assert(column_place(column_mark(all[j])) == j);
            }
            let p = before.len() as int;
            let li = all[i].len() as int;
            let lj = all[j].len() as int;
            assert(mine[p + li] == '=');
            assert(other[p + lj] == '=');
            assert(key.subrange(0, mine.len() as int)[p + li] == key[p + li]);
            assert(key.subrange(0, other.len() as int)[p + lj] == key[p + lj]);
            if li < lj {
                assert(other[p + li] == all[j][li]);
                assert(key.subrange(0, other.len() as int)[p + li] == key[p + li]);
            } else if lj < li {
                assert(mine[p + lj] == all[i][lj]);
                assert(key.subrange(0, mine.len() as int)[p + lj] == key[p + lj]);
            } else {
                assert(mine.subrange(p, p + li) =~= all[i]);
                assert(other.subrange(p, p + lj) =~= all[j]);
                assert(mine == other);
            }
        } else {
            assert(rest.take(front.len() as int) =~= rest);
            assert(rest == front);
            assert(key == joined(front, " "@));
            assert(mine.len() > key.len());
        }
    }
}

/// A role-scoped column is never shadowed itself.
proof fn lemma_scoped_columns_speak(record: Seq<(Seq<char>, Seq<char>)>, column: Seq<char>)
    requires
        scoped_columns().contains(column),
    ensures
        !shadowed(record, column),
{
    reveal_strlit("cpus");
    reveal_strlit("workers");
    reveal_strlit("runtime");
    reveal_strlit("ingress");
    reveal_strlit("recv_cpus");
    reveal_strlit("send_cpus");
    reveal_strlit("recv_workers");
    reveal_strlit("send_workers");
    reveal_strlit("recv_runtime");
    reveal_strlit("send_runtime");
    reveal_strlit("recv_ingress");
    reveal_strlit("send_ingress");
    assert(column.len() >= 9);
    assert("cpus"@.len() == 4 && "workers"@.len() == 7 && "runtime"@.len() == 7 && "ingress"@.len()
        == 7);
}

/// The first column of which two keys say different things.
proof fn lemma_first_difference(
    a: Seq<(Seq<char>, Seq<char>)>,
    b: Seq<(Seq<char>, Seq<char>)>,
    k: int,
) -> (i: int)
    requires
        0 <= k,
        !agree(a, b, k),
    ensures
        0 <= i <= k,
        !agree(a, b, i),
        forall|j: int| 0 <= j < i ==> #[trigger] agree(a, b, j),
    decreases k,
{
    if exists|j: int| 0 <= j < k && !#[trigger] agree(a, b, j) {
        let j = choose|j: int| 0 <= j < k && !#[trigger] agree(a, b, j);
        lemma_first_difference(a, b, j)
    } else {
        k
    }
}

/// The columns that may be shadowed stand before those that shadow them.
proof fn lemma_shadowed_columns_come_first(
    a: Seq<(Seq<char>, Seq<char>)>,
    b: Seq<(Seq<char>, Seq<char>)>,
    i: int,
    j: int,
)
    requires
        0 <= i < j < config_columns_text().len(),
        forall|c: Seq<char>| #[trigger]
            config_columns_text().contains(c) && c != config_columns_text()[i] ==> field_in(a, c)
                == field_in(b, c),
    ensures
        shadowed(a, config_columns_text()[j]) == shadowed(b, config_columns_text()[j]),
{
    let all = config_columns_text();
    let column = all[i];
    lemma_scoped_columns_configure();
    if scoped_columns().contains(column) {
        lemma_config_columns_distinct();
        assert(column_place(column_mark(all[i])) == i);
        assert(column_place(column_mark(all[j])) == j);
        assert(all[27] == "recv_cpus"@ && all[28] == "send_cpus"@);
        assert(all[25] == "recv_workers"@ && all[26] == "send_workers"@);
        assert(all[21] == "recv_runtime"@ && all[22] == "send_runtime"@);
        assert(all[23] == "recv_ingress"@ && all[24] == "send_ingress"@);
        assert(all[0] == "runtime"@ && all[2] == "ingress"@ && all[10] == "cpus"@ && all[20]
            == "workers"@);
        assert(i >= 21) by {
            assert(column_place(column_mark(all[21])) == 21 && column_place(column_mark(all[22]))
                == 22 && column_place(column_mark(all[23])) == 23 && column_place(
                column_mark(all[24]),
            ) == 24 && column_place(column_mark(all[25])) == 25 && column_place(
                column_mark(all[26]),
            ) == 26 && column_place(column_mark(all[27])) == 27 && column_place(
                column_mark(all[28]),
            ) == 28);
        }
        assert(column_place(column_mark(all[0])) == 0 && column_place(column_mark(all[2])) == 2
            && column_place(column_mark(all[10])) == 10 && column_place(column_mark(all[20]))
            == 20);
    } else {
        lemma_same_shadows(a, b, all[j]);
    }
}

/// Records that differ in one configuration column alone have different keys.
pub proof fn lemma_one_column(
    a: Seq<(Seq<char>, Seq<char>)>,
    b: Seq<(Seq<char>, Seq<char>)>,
    column: Seq<char>,
)
    requires
        config_columns_text().contains(column),
        !shadowed(a, column),
        field_in(a, column) is Some,
        field_in(b, column) is Some,
        field_in(a, column) != field_in(b, column),
        forall|c: Seq<char>| #[trigger]
            config_columns_text().contains(c) && c != column ==> field_in(a, c) == field_in(b, c),
    ensures
        identity_text(a) != identity_text(b),
{
    let all = config_columns_text();
    let n = all.len() as int;
    let k = choose|k: int| 0 <= k < all.len() && all[k] == column;
    lemma_config_columns_distinct();
    lemma_scoped_columns_configure();
    if scoped_columns().contains(column) {
        lemma_scoped_columns_speak(a, column);
        lemma_scoped_columns_speak(b, column);
    } else {
        lemma_same_shadows(a, b, column);
    }
    assert(!agree(a, b, k));
    let i = lemma_first_difference(a, b, k);
    if said_of(a, all[i]) is Some && said_of(b, all[i]) is None {
        lemma_names_tell_apart(a, b, i);
    } else if said_of(a, all[i]) is None {
        assert forall|j: int| 0 <= j < i implies #[trigger] agree(b, a, j) by {
            assert(agree(a, b, j));
        }
        lemma_names_tell_apart(b, a, i);
    } else {
        // Both say something of it, and not the same: this is the column.
        assert(field_in(a, all[i]) != field_in(b, all[i]));
        assert(all.contains(all[i]));
        assert(all[i] == column);
        assert(column_place(column_mark(all[i])) == i);
        assert forall|j: int| 0 <= j < n && j != i implies #[trigger] agree(a, b, j) by {
            assert(column_place(column_mark(all[j])) == j);
            assert(all.contains(all[j]));
            if j > i {
                lemma_shadowed_columns_come_first(a, b, i, j);
            }
        }
        lemma_values_tell_apart(a, b, i);
    }
}

} // verus!
