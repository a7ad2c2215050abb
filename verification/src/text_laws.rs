//! What reading and laying out texts keeps of them.
use crate::cli::{CliText, parse_from};
use crate::compare::{rate_label, shadowed};
use crate::record::field_in;
use crate::row::{SocketBuffers, buffers_clamped};
use crate::text::{
    decimal, decimal_round_trips, has_prefix, is_white, left_in, lemma_first_index, lower, lowered,
    nonempty, pieces, right_in, signed_decimal, signed_of, split_once_text, trim_back, trim_front,
    trimmed, words_of,
};
use vstd::prelude::*;

verus! {

// ---------------------------------------------------------------------------
// White space and case
// ---------------------------------------------------------------------------

proof fn lemma_front(s: Seq<char>) -> (k: int)
    ensures
        0 <= k <= s.len(),
        trim_front(s) == s.skip(k),
        forall|i: int| 0 <= i < k ==> is_white(#[trigger] s[i]),
        k < s.len() ==> !is_white(s[k]),
    decreases s.len(),
{
    if s.len() > 0 && is_white(s[0]) {
        let rest = s.drop_first();
        let k = lemma_front(rest);
        assert(rest.skip(k) =~= s.skip(k + 1));
        assert forall|i: int| 0 <= i < k + 1 implies is_white(#[trigger] s[i]) by {
            if i > 0 {
                assert(s[i] == rest[i - 1]);
            }
        }
        k + 1
    } else {
        assert(s.skip(0) =~= s);
        0
    }
}

proof fn lemma_back(s: Seq<char>) -> (k: int)
    ensures
        0 <= k <= s.len(),
        trim_back(s) == s.take(k),
        forall|i: int| k <= i < s.len() ==> is_white(#[trigger] s[i]),
        k > 0 ==> !is_white(s[k - 1]),
    decreases s.len(),
{
    if s.len() > 0 && is_white(s.last()) {
        let rest = s.drop_last();
        let k = lemma_back(rest);
        assert(rest.take(k) =~= s.take(k));
        assert forall|i: int| k <= i < s.len() implies is_white(#[trigger] s[i]) by {
            if i < rest.len() {
                assert(s[i] == rest[i]);
            }
        }
        k
    } else {
        assert(s.take(s.len() as int) =~= s);
        s.len() as int
    }
}

/// Trimming takes white space off both ends, all of it and nothing else.
pub proof fn trimming_takes_white_space_off(s: Seq<char>) -> (at: (int, int))
    ensures
        0 <= at.0 <= at.1 <= s.len(),
        trimmed(s) == s.subrange(at.0, at.1),
        forall|i: int| 0 <= i < at.0 ==> is_white(#[trigger] s[i]),
        forall|i: int| at.1 <= i < s.len() ==> is_white(#[trigger] s[i]),
        trimmed(s).len() > 0 ==> !is_white(trimmed(s)[0]) && !is_white(trimmed(s).last()),
{
    let a = lemma_front(s);
    let rest = s.skip(a);
    let b = lemma_back(rest);
    assert(rest.take(b) =~= s.subrange(a, a + b));
    assert forall|i: int| a + b <= i < s.len() implies is_white(#[trigger] s[i]) by {
        assert(rest[i - a] == s[i]);
    }
    (a, a + b)
}

proof fn lemma_nonempty(parts: Seq<Seq<char>>, i: int)
    requires
        0 <= i < nonempty(parts).len(),
    ensures
        nonempty(parts)[i].len() > 0,
        parts.contains(nonempty(parts)[i]),
    decreases parts.len(),
{
    let rest = parts.drop_last();
    if parts.last().len() == 0 {
        lemma_nonempty(rest, i);
        assert(parts[rest.index_of(nonempty(rest)[i])] == nonempty(rest)[i]);
    } else if i < nonempty(rest).len() {
        lemma_nonempty(rest, i);
        assert(parts[rest.index_of(nonempty(rest)[i])] == nonempty(rest)[i]);
    } else {
        assert(parts[parts.len() - 1] == parts.last());
    }
}

/// Words are not empty and hold no white space.
pub proof fn words_hold_no_white_space(s: Seq<char>, i: int, j: int)
    requires
        0 <= i < words_of(s).len(),
        0 <= j < words_of(s)[i].len(),
    ensures
        words_of(s)[i].len() > 0,
        !is_white(words_of(s)[i][j]),
{
    let sep = |c: char| is_white(c);
    let parts = pieces(s, sep);
    lemma_nonempty(parts, i);
    crate::text::lemma_pieces_shape(s, sep);
    let k = parts.index_of(words_of(s)[i]);
    assert(!sep(parts[k][j]));
}

/// Capital letters become small, and everything else stays.
pub proof fn only_capitals_become_small(c: char)
    ensures
        'A' as int <= c as int <= 'Z' as int ==> lower(c) as int == c as int + 32,
        !('A' as int <= c as int <= 'Z' as int) ==> lower(c) == c,
{
}

/// Lowering keeps length and places.
pub proof fn lowering_keeps_places(s: Seq<char>, i: int)
    requires
        0 <= i < s.len(),
    ensures
        lowered(s).len() == s.len(),
        lowered(s)[i] == lower(s[i]),
        lowered(lowered(s)) == lowered(s),
{
    assert forall|k: int| 0 <= k < s.len() implies lowered(lowered(s))[k] == #[trigger] lowered(
        s,
    )[k] by {
        only_capitals_become_small(s[k]);
        only_capitals_become_small(lower(s[k]));
    }
    assert(lowered(lowered(s)) =~= lowered(s));
}

// ---------------------------------------------------------------------------
// Numbers and columns
// ---------------------------------------------------------------------------

/// A signed number that is written is read back.
pub proof fn signed_numbers_read_back(n: int)
    requires
        i64::MIN <= n <= i64::MAX,
    ensures
        signed_of(signed_decimal(n)) == Some(n),
{
    if n < 0 {
        let m = (-n) as nat;
        decimal_round_trips(m);
        assert(signed_decimal(n).drop_first() =~= decimal(m));
        assert(signed_decimal(n)[0] == '-');
    } else {
        decimal_round_trips(n as nat);
        assert(crate::text::is_digit(decimal(n as nat)[0]));
    }
}

/// A text is filled up to the width of its column on the side it does not stand at, and is
/// never cut.
pub proof fn columns_are_filled(s: Seq<char>, width: int)
    ensures
        right_in(s, width).len() == if width > s.len() {
            width
        } else {
            s.len() as int
        },
        left_in(s, width).len() == right_in(s, width).len(),
        right_in(s, width).skip(right_in(s, width).len() - s.len()) == s,
        left_in(s, width).take(s.len() as int) == s,
        width > s.len() ==> right_in(s, width)[0] == ' ' && left_in(s, width).last() == ' ',
{
    assert(right_in(s, width).skip(right_in(s, width).len() - s.len()) =~= s);
    assert(left_in(s, width).take(s.len() as int) =~= s);
}

/// A rate is told in whole millions or thousands where it has them.
pub proof fn rates_are_told_in_short(n: nat)
    requires
        n <= u64::MAX,
    ensures
        n >= 1_000_000 ==> rate_label(decimal(n)) == decimal(n / 1_000_000) + "M"@,
        1_000 <= n < 1_000_000 ==> rate_label(decimal(n)) == decimal(n / 1_000) + "k"@,
        n < 1_000 ==> rate_label(decimal(n)) == decimal(n),
{
    decimal_round_trips(n);
}

// ---------------------------------------------------------------------------
// Flags
// ---------------------------------------------------------------------------

/// `--name=value` and `--name value` say the same, and so does `name=value`: the flag has
/// the value, and nothing else is said.
pub proof fn flags_can_be_spelled_in_three_ways(name: Seq<char>, value: Seq<char>)
    requires
        name.len() > 0,
        !name.contains('='),
        name != "axis"@,
        !has_prefix(name, "--"@),
        name[0] != '-',
        !has_prefix(value, "--"@),
    ensures
        ({
            let eq = seq!["--"@ + name + "="@ + value];
            let apart = seq!["--"@ + name, value];
            let bare = seq![name + "="@ + value];
            let none = CliText::empty();
            &&& parse_from(eq, 0, none).flag(name) == Some(value)
            &&& parse_from(eq, 0, none).positional.len() == 0
            &&& parse_from(apart, 0, none) == parse_from(eq, 0, none)
            &&& parse_from(bare, 0, none) == parse_from(eq, 0, none)
        }),
{
    reveal_strlit("--");
    reveal_strlit("=");
    let none = CliText::empty();
    let a = "--"@ + name + "="@ + value;
    let b = "--"@ + name;
    let c = name + "="@ + value;
    let n = name.len() as int;
    assert forall|i: int| 0 <= i < n implies name[i] != '=' by {
        if name[i] == '=' {
            assert(name.contains('='));
        }
    }
    assert(a.subrange(0, 2) =~= "--"@);
    assert(b.subrange(0, 2) =~= "--"@);
    assert(a.subrange(2, a.len() as int) =~= c);
    assert(b.subrange(2, b.len() as int) =~= name);
    lemma_first_index(c, '=', n);
    assert(c.subrange(0, n) =~= name);
    assert(c.subrange(n + 1, c.len() as int) =~= value);
    assert(split_once_text(c, '=') == Some((name, value)));
    lemma_first_index(name, '=', n);
    assert(split_once_text(name, '=') is None);
    assert(c[0] == name[0] && "--"@[0] == '-');
    assert(!has_prefix(c, "--"@)) by {
        if has_prefix(c, "--"@) {
            assert(c.subrange(0, 2)[0] == c[0]);
        }
    }
    let done = none.with_flag(name, value);
    let eq = seq![a];
    let apart = seq![b, value];
    let bare = seq![c];
    assert(eq[0] == a && apart[0] == b && apart[1] == value && bare[0] == c);
    assert(parse_from(eq, 1, done) == done);
    assert(parse_from(eq, 0, none) == done);
    assert(parse_from(apart, 2, done) == done);
    assert(parse_from(apart, 0, none) == done);
    assert(parse_from(bare, 1, done) == done);
    assert(parse_from(bare, 0, none) == done);
}

/// A column is left to the columns of its own roles where a record has them, and no other
/// column is.
pub proof fn columns_are_left_to_their_roles(
    record: Seq<(Seq<char>, Seq<char>)>,
    column: Seq<char>,
    v: Seq<char>,
)
    requires
        v.len() > 0,
    ensures
        field_in(record, "recv_cpus"@) == Some(v) || field_in(record, "send_cpus"@) == Some(v)
            ==> shadowed(record, "cpus"@),
        field_in(record, "recv_workers"@) == Some(v) || field_in(record, "send_workers"@) == Some(v)
            ==> shadowed(record, "workers"@),
        field_in(record, "recv_runtime"@) == Some(v) || field_in(record, "send_runtime"@) == Some(v)
            ==> shadowed(record, "runtime"@),
        field_in(record, "recv_ingress"@) == Some(v) || field_in(record, "send_ingress"@) == Some(v)
            ==> shadowed(record, "ingress"@),
        field_in(record, "recv_cpus"@) is None && field_in(record, "send_cpus"@) is None
            ==> !shadowed(record, "cpus"@),
        field_in(record, "recv_workers"@) is None && field_in(record, "send_workers"@) is None
            ==> !shadowed(record, "workers"@),
        field_in(record, "recv_runtime"@) is None && field_in(record, "send_runtime"@) is None
            ==> !shadowed(record, "runtime"@),
        field_in(record, "recv_ingress"@) is None && field_in(record, "send_ingress"@) is None
            ==> !shadowed(record, "ingress"@),
        shadowed(record, column) ==> column == "cpus"@ || column == "workers"@ || column
            == "runtime"@ || column == "ingress"@,
{
    reveal_strlit("cpus");
    reveal_strlit("workers");
    reveal_strlit("runtime");
    reveal_strlit("ingress");
    assert("cpus"@[0] == 'c' && "workers"@[0] == 'w' && "runtime"@[0] == 'r');
    assert("ingress"@[0] == 'i');
}

/// Buffers were cut where a socket was granted less than was asked for, in either
/// direction.
pub proof fn buffers_are_cut_where_less_was_granted(
    requested: usize,
    buffers: &SocketBuffers,
    cut: bool,
)
    requires
        call_ensures(buffers_clamped, (requested, buffers), cut),
    ensures
        cut ==> buffers.sockets > 0 && (buffers.rcvbuf_min_bytes < requested
            || buffers.sndbuf_min_bytes < requested),
        buffers.sockets > 0 && buffers.rcvbuf_min_bytes < requested ==> cut,
        buffers.sockets > 0 && buffers.sndbuf_min_bytes < requested ==> cut,
        requested == 0 ==> !cut,
{
}

} // verus!
