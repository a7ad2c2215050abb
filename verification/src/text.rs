//! Text primitives: splitting, trimming, joining, decimal numbers and ordering.
//!
//! Every function is stated over the sequence of characters of its argument.
use vstd::prelude::*;

verus! {

/// Appends one character, as `String::push` documents it.
pub assume_specification[ String::push ](s: &mut String, c: char)
    ensures
        final(s)@ == old(s)@.push(c),
;

/// The characters of each string of `v`.
pub open spec fn texts(v: Seq<String>) -> Seq<Seq<char>> {
    v.map_values(|s: String| s@)
}

/// The characters of each string slice of `v`.
pub open spec fn slices(v: Seq<&str>) -> Seq<Seq<char>> {
    v.map_values(|s: &str| s@)
}

pub proof fn lemma_texts_push(v: Seq<String>, s: String)
    ensures
        texts(v.push(s)) == texts(v).push(s@),
{
    assert(texts(v.push(s)) =~= texts(v).push(s@));
}

/// All characters of `s`, in order.
pub fn chars_of(s: &str) -> (r: Vec<char>)
    ensures
        r@ == s@,
{
    let mut out: Vec<char> = Vec::new();
    for c in it: s.chars()
        invariant
            it.seq() == s@,
            out@ == s@.take(it.index()),
    {
        out.push(c);
    }
    assert(s@.take(s@.len() as int) =~= s@);
    out
}

/// The characters `from..to` as a string.
pub fn string_of(chars: &Vec<char>, from: usize, to: usize) -> (r: String)
    requires
        from <= to <= chars@.len(),
    ensures
        r@ == chars@.subrange(from as int, to as int),
{
    let mut out = String::new();
    let mut i: usize = from;
    while i < to
        invariant
            from <= i <= to <= chars@.len(),
            out@ == chars@.subrange(from as int, i as int),
        decreases to - i,
    {
        out.push(chars[i]);
        i += 1;
        assert(out@ =~= chars@.subrange(from as int, i as int));
    }
    out
}

/// Whether two strings hold the same characters.
pub fn same(a: &str, b: &str) -> (r: bool)
    ensures
        r == (a@ == b@),
{
    a.to_owned() == b.to_owned()
}

/// Whether `s` occurs in `list`.
pub fn contains_text(list: &Vec<String>, s: &str) -> (r: bool)
    ensures
        r == texts(list@).contains(s@),
{
    let mut i: usize = 0;
    while i < list.len()
        invariant
            i <= list@.len(),
            forall|j: int| 0 <= j < i ==> list@[j]@ != s@,
        decreases list@.len() - i,
    {
        if same(list[i].as_str(), s) {
            assert(texts(list@)[i as int] == s@);
            return true;
        }
        i += 1;
    }
    false
}

// ---------------------------------------------------------------------------
// Splitting
// ---------------------------------------------------------------------------

/// The pieces of `s` between the characters that satisfy `sep`; one piece more
/// than there are such characters.
pub open spec fn pieces(s: Seq<char>, sep: spec_fn(char) -> bool) -> Seq<Seq<char>>
    decreases s.len(),
{
    if s.len() == 0 {
        seq![Seq::<char>::empty()]
    } else {
        let before = pieces(s.drop_last(), sep);
        if sep(s.last()) {
            before.push(Seq::<char>::empty())
        } else {
            before.drop_last().push(before.last().push(s.last()))
        }
    }
}

/// The test for being `c`.
pub open spec fn being(c: char) -> spec_fn(char) -> bool {
    |x: char| x == c
}

/// The pieces of `s` between occurrences of `c`.
pub open spec fn split_text(s: Seq<char>, c: char) -> Seq<Seq<char>> {
    pieces(s, being(c))
}

/// There is always at least one piece, and no piece holds a separator.
pub proof fn lemma_pieces_shape(s: Seq<char>, sep: spec_fn(char) -> bool)
    ensures
        pieces(s, sep).len() >= 1,
        forall|i: int, j: int|
            0 <= i < pieces(s, sep).len() && 0 <= j < pieces(s, sep)[i].len()
                ==> !sep(#[trigger] pieces(s, sep)[i][j]),
    decreases s.len(),
{
    if s.len() > 0 {
        lemma_pieces_shape(s.drop_last(), sep);
    }
}

/// `parts` with `sep` between neighbours.
pub open spec fn joined(parts: Seq<Seq<char>>, sep: Seq<char>) -> Seq<char>
    decreases parts.len(),
{
    if parts.len() == 0 {
        Seq::empty()
    } else if parts.len() == 1 {
        parts[0]
    } else {
        joined(parts.drop_last(), sep) + sep + parts.last()
    }
}

/// Joining the pieces of a split with the separator gives the text back.
pub proof fn split_then_join_is_identity(s: Seq<char>, c: char)
    ensures
        joined(split_text(s, c), seq![c]) == s,
    decreases s.len(),
{
    let sep = being(c);
    if s.len() > 0 {
        let rest = s.drop_last();
        split_then_join_is_identity(rest, c);
        lemma_pieces_shape(rest, sep);
        let before = pieces(rest, sep);
        let now = pieces(s, sep);
        if sep(s.last()) {
            assert(now.drop_last() =~= before);
            assert(joined(now, seq![c]) =~= rest + seq![c] + Seq::<char>::empty());
            assert(s =~= rest + seq![c]);
        } else {
            assert(now.drop_last() =~= before.drop_last());
            assert(now.last() == before.last().push(s.last()));
            assert(s =~= rest.push(s.last()));
            if before.len() == 1 {
                assert(before[0] == rest);
            } else {
                assert(joined(now, seq![c]) =~= rest.push(s.last()));
            }
        }
    }
}

/// Splits `s` at every `c`, as `str::split` does.
pub fn split(s: &str, c: char) -> (r: Vec<String>)
    ensures
        texts(r@) == split_text(s@, c),
{
    let chars = chars_of(s);
    let ghost sep = being(c);
    let mut out: Vec<String> = Vec::new();
    let mut current = String::new();
    let mut i: usize = 0;
    assert(texts(out@).push(current@) =~= pieces(s@.take(0), sep));
    while i < chars.len()
        invariant
            i <= chars@.len(),
            chars@ == s@,
            sep == being(c),
            texts(out@).push(current@) == pieces(s@.take(i as int), sep),
        decreases chars@.len() - i,
    {
        let x = chars[i];
        let ghost before = texts(out@).push(current@);
        assert(s@.take(i + 1).drop_last() =~= s@.take(i as int));
        assert(before.drop_last() =~= texts(out@));
        if x == c {
            proof {
                lemma_texts_push(out@, current);
            }
            out.push(current);
            current = String::new();
        } else {
            current.push(x);
        }
        i += 1;
    }
    assert(s@.take(s@.len() as int) =~= s@);
    proof {
        lemma_texts_push(out@, current);
    }
    out.push(current);
    out
}

/// Position of the first `c` in `s`; the length of `s` if there is none.
pub open spec fn first_index(s: Seq<char>, c: char) -> int
    decreases s.len(),
{
    if s.len() == 0 {
        0
    } else if s[0] == c {
        0
    } else {
        1 + first_index(s.drop_first(), c)
    }
}

proof fn lemma_index_in_range(s: Seq<char>, c: char)
    ensures
        0 <= first_index(s, c) <= s.len(),
    decreases s.len(),
{
    if s.len() > 0 {
        lemma_index_in_range(s.drop_first(), c);
    }
}

/// The first occurrence is the one position that holds `c` with none before it.
pub proof fn lemma_first_index(s: Seq<char>, c: char, i: int)
    requires
        0 <= i <= s.len(),
        forall|j: int| 0 <= j < i ==> s[j] != c,
        i == s.len() || s[i] == c,
    ensures
        first_index(s, c) == i,
    decreases s.len(),
{
    if s.len() > 0 && i > 0 {
        let t = s.drop_first();
        assert forall|j: int| 0 <= j < i - 1 implies t[j] != c by {
            assert(t[j] == s[j + 1]);
        }
        lemma_first_index(t, c, i - 1);
    }
}

/// The text before and after the first `c`, if there is one.
pub open spec fn split_once_text(s: Seq<char>, c: char) -> Option<(Seq<char>, Seq<char>)> {
    let i = first_index(s, c);
    if 0 <= i < s.len() {
        Some((s.subrange(0, i), s.subrange(i + 1, s.len() as int)))
    } else {
        None
    }
}

/// Splits at the first `c`, as `str::split_once` does.
pub fn split_once(s: &str, c: char) -> (r: Option<(String, String)>)
    ensures
        match (r, split_once_text(s@, c)) {
            (Some(got), Some(want)) => got.0@ == want.0 && got.1@ == want.1,
            (None, None) => true,
            _ => false,
        },
{
    let chars = chars_of(s);
    let mut i: usize = 0;
    while i < chars.len()
        invariant
            i <= chars@.len(),
            chars@ == s@,
            forall|j: int| 0 <= j < i ==> s@[j] != c,
        decreases chars@.len() - i,
    {
        if chars[i] == c {
            proof {
                lemma_first_index(s@, c, i as int);
            }
            let n: usize = chars.len();
            return Some((string_of(&chars, 0, i), string_of(&chars, i + 1, n)));
        }
        i += 1;
    }
    proof {
        lemma_first_index(s@, c, s@.len() as int);
    }
    None
}

// ---------------------------------------------------------------------------
// Searching
// ---------------------------------------------------------------------------

/// Position of the first element of `s` that satisfies `p`; the length of `s` if
/// none does.
pub open spec fn first_where<A>(s: Seq<A>, p: spec_fn(A) -> bool) -> int
    decreases s.len(),
{
    if s.len() == 0 {
        0
    } else if p(s[0]) {
        0
    } else {
        1 + first_where(s.drop_first(), p)
    }
}

/// The first match is the one position that satisfies `p` with none before it.
pub proof fn lemma_first_where<A>(s: Seq<A>, p: spec_fn(A) -> bool, i: int)
    requires
        0 <= i <= s.len(),
        forall|j: int| 0 <= j < i ==> !p(#[trigger] s[j]),
        i == s.len() || p(s[i]),
    ensures
        first_where(s, p) == i,
    decreases s.len(),
{
    if s.len() > 0 && i > 0 {
        assert(!p(s[0]));
        let t = s.drop_first();
        assert forall|j: int| 0 <= j < i - 1 implies !p(#[trigger] t[j]) by {
            assert(t[j] == s[j + 1]);
        }
        lemma_first_where(t, p, i - 1);
    }
}

/// What `first_where` finds satisfies `p`, and nothing before it does.
pub proof fn lemma_first_where_found<A>(s: Seq<A>, p: spec_fn(A) -> bool)
    ensures
        0 <= first_where(s, p) <= s.len(),
        first_where(s, p) < s.len() ==> p(s[first_where(s, p)]),
        forall|j: int| 0 <= j < first_where(s, p) ==> !p(#[trigger] s[j]),
    decreases s.len(),
{
    if s.len() > 0 && !p(s[0]) {
        let t = s.drop_first();
        lemma_first_where_found(t, p);
        assert forall|j: int| 0 <= j < first_where(s, p) implies !p(#[trigger] s[j]) by {
            if j > 0 {
                assert(s[j] == t[j - 1]);
            }
        }
    }
}

/// The test for being the text `t`.
pub open spec fn being_text(t: Seq<char>) -> spec_fn(Seq<char>) -> bool {
    |x: Seq<char>| x == t
}

/// Position of the first occurrence of `t` in `list`; the length if there is none.
pub fn position(list: &Vec<String>, t: &str) -> (r: usize)
    ensures
        r == first_where(texts(list@), being_text(t@)),
        r <= list@.len(),
        r < list@.len() ==> list@[r as int]@ == t@,
{
    let mut i: usize = 0;
    while i < list.len()
        invariant
            i <= list@.len(),
            forall|j: int| 0 <= j < i ==> list@[j]@ != t@,
        decreases list@.len() - i,
    {
        if same(list[i].as_str(), t) {
            proof {
                lemma_first_where(texts(list@), being_text(t@), i as int);
            }
            return i;
        }
        i += 1;
    }
    proof {
        lemma_first_where(texts(list@), being_text(t@), i as int);
    }
    i
}

/// The test for beginning with `prefix`.
pub open spec fn beginning_with(prefix: Seq<char>) -> spec_fn(Seq<char>) -> bool {
    |x: Seq<char>| has_prefix(x, prefix)
}

// ---------------------------------------------------------------------------
// Whitespace
// ---------------------------------------------------------------------------

/// The characters with the Unicode `White_Space` property.
pub open spec fn is_white(c: char) -> bool {
    let n = c as int;
    ||| 0x09 <= n <= 0x0d
    ||| n == 0x20
    ||| n == 0x85
    ||| n == 0xa0
    ||| n == 0x1680
    ||| 0x2000 <= n <= 0x200a
    ||| n == 0x2028
    ||| n == 0x2029
    ||| n == 0x202f
    ||| n == 0x205f
    ||| n == 0x3000
}

/// The code point of `c`.
pub fn code_point(c: char) -> (r: u32)
    ensures
        r == c as int,
{
    c as u32
}

pub fn white(c: char) -> (r: bool)
    ensures
        r == is_white(c),
{
    let n: u32 = code_point(c);
    (0x09 <= n && n <= 0x0d) || n == 0x20 || n == 0x85 || n == 0xa0 || n == 0x1680 || (0x2000 <= n
        && n <= 0x200a) || n == 0x2028 || n == 0x2029 || n == 0x202f || n == 0x205f || n == 0x3000
}

/// `s` without its leading white space.
pub open spec fn trim_front(s: Seq<char>) -> Seq<char>
    decreases s.len(),
{
    if s.len() > 0 && is_white(s[0]) {
        trim_front(s.drop_first())
    } else {
        s
    }
}

/// `s` without its trailing white space.
pub open spec fn trim_back(s: Seq<char>) -> Seq<char>
    decreases s.len(),
{
    if s.len() > 0 && is_white(s.last()) {
        trim_back(s.drop_last())
    } else {
        s
    }
}

/// `s` without white space at either end.
pub open spec fn trimmed(s: Seq<char>) -> Seq<char> {
    trim_back(trim_front(s))
}

/// Removes white space at both ends, as `str::trim` does.
pub fn trim(s: &str) -> (r: String)
    ensures
        r@ == trimmed(s@),
{
    let chars = chars_of(s);
    let mut from: usize = 0;
    let n: usize = chars.len();
    assert(s@.subrange(0, n as int) =~= s@);
    while from < n && white(chars[from])
        invariant
            from <= n == chars@.len(),
            chars@ == s@,
            trim_front(s@.subrange(from as int, n as int)) == trim_front(s@),
        decreases n - from,
    {
        assert(s@.subrange(from as int, n as int).drop_first() =~= s@.subrange(
            from + 1,
            n as int,
        ));
        from += 1;
    }
    let ghost front = s@.subrange(from as int, n as int);
    assert(trim_front(s@) == front);
    let mut to: usize = n;
    while to > from && white(chars[to - 1])
        invariant
            from <= to <= n == chars@.len(),
            chars@ == s@,
            front == s@.subrange(from as int, n as int),
            trim_back(s@.subrange(from as int, to as int)) == trim_back(front),
        decreases to - from,
    {
        assert(s@.subrange(from as int, to as int).drop_last() =~= s@.subrange(
            from as int,
            to - 1,
        ));
        to -= 1;
    }
    string_of(&chars, from, to)
}

/// The sequences of `parts` that are not empty, in order.
pub open spec fn nonempty(parts: Seq<Seq<char>>) -> Seq<Seq<char>>
    decreases parts.len(),
{
    if parts.len() == 0 {
        Seq::empty()
    } else if parts.last().len() == 0 {
        nonempty(parts.drop_last())
    } else {
        nonempty(parts.drop_last()).push(parts.last())
    }
}

/// The maximal runs of characters of `s` that are not white space.
pub open spec fn words_of(s: Seq<char>) -> Seq<Seq<char>> {
    nonempty(pieces(s, |c: char| is_white(c)))
}

/// Splits at white space, as `str::split_whitespace` does.
pub fn words(s: &str) -> (r: Vec<String>)
    ensures
        texts(r@) == words_of(s@),
{
    let chars = chars_of(s);
    let ghost sep = |c: char| is_white(c);
    let mut out: Vec<String> = Vec::new();
    let mut current = String::new();
    let mut i: usize = 0;
    proof {
        let first = pieces(s@.take(0), sep);
        assert(first.drop_last() =~= Seq::<Seq<char>>::empty());
        assert(texts(out@) =~= nonempty(first.drop_last()));
        assert(current@ == first.last());
    }
    while i < chars.len()
        invariant
            i <= chars@.len(),
            chars@ == s@,
            sep == |c: char| is_white(c),
            texts(out@) == nonempty(pieces(s@.take(i as int), sep).drop_last()),
            current@ == pieces(s@.take(i as int), sep).last(),
        decreases chars@.len() - i,
    {
        let x = chars[i];
        let ghost before = pieces(s@.take(i as int), sep);
        let ghost after = pieces(s@.take(i + 1), sep);
        proof {
            assert(s@.take(i + 1).drop_last() =~= s@.take(i as int));
            lemma_pieces_shape(s@.take(i as int), sep);
            assert(before.drop_last().push(before.last()) =~= before);
        }
        if white(x) {
            assert(after.drop_last() =~= before);
            if !current.as_str().is_empty() {
                proof {
                    lemma_texts_push(out@, current);
                }
                out.push(current);
            }
            current = String::new();
        } else {
            assert(after.drop_last() =~= before.drop_last());
            current.push(x);
        }
        i += 1;
    }
    assert(s@.take(s@.len() as int) =~= s@);
    proof {
        lemma_pieces_shape(s@, sep);
    }
    if !current.as_str().is_empty() {
        proof {
            lemma_texts_push(out@, current);
        }
        out.push(current);
    }
    out
}

// ---------------------------------------------------------------------------
// Lines
// ---------------------------------------------------------------------------

/// `s` without one trailing carriage return.
pub open spec fn without_return(s: Seq<char>) -> Seq<char> {
    if s.len() > 0 && s.last() == '\r' {
        s.drop_last()
    } else {
        s
    }
}

/// The lines of `s`: what stands before each line feed, less a carriage return
/// there, and what follows the last line feed unless that is empty.
pub open spec fn lines_of(s: Seq<char>) -> Seq<Seq<char>> {
    let parts = split_text(s, '\n');
    let ended = parts.drop_last().map_values(|p: Seq<char>| without_return(p));
    if parts.last().len() == 0 {
        ended
    } else {
        ended.push(parts.last())
    }
}

/// Splits into lines, as `str::lines` does.
pub fn lines(s: &str) -> (r: Vec<String>)
    ensures
        texts(r@) == lines_of(s@),
{
    let mut parts = split(s, '\n');
    let ghost all = split_text(s@, '\n');
    proof {
        lemma_pieces_shape(s@, being('\n'));
        assert(all.last() == parts@.last()@);
    }
    let last = parts.pop().unwrap();
    let mut out: Vec<String> = Vec::new();
    let mut i: usize = 0;
    assert(texts(parts@) =~= all.drop_last());
    while i < parts.len()
        invariant
            i <= parts@.len(),
            out@.len() == i,
            forall|j: int| 0 <= j < i ==> (#[trigger] out@[j])@ == without_return(parts@[j]@),
        decreases parts@.len() - i,
    {
        let chars = chars_of(parts[i].as_str());
        let n: usize = chars.len();
        if n > 0 && chars[n - 1] == '\r' {
            let cut = string_of(&chars, 0, n - 1);
            assert(cut@ =~= without_return(parts@[i as int]@));
            out.push(cut);
        } else {
            let whole = string_of(&chars, 0, n);
            assert(whole@ =~= parts@[i as int]@);
            out.push(whole);
        }
        i += 1;
    }
    let ghost ended = all.drop_last().map_values(|p: Seq<char>| without_return(p));
    assert(texts(out@) =~= ended) by {
        assert forall|j: int| 0 <= j < out@.len() implies texts(out@)[j] == ended[j] by {
            assert(texts(parts@)[j] == parts@[j]@);
        }
    }
    if !last.as_str().is_empty() {
        proof {
            lemma_texts_push(out@, last);
        }
        out.push(last);
    }
    out
}

/// Joins `parts` with `sep` between neighbours.
pub fn join(parts: &Vec<String>, sep: &str) -> (r: String)
    ensures
        r@ == joined(texts(parts@), sep@),
{
    let mut out = String::new();
    let mut i: usize = 0;
    assert(texts(parts@).take(0) =~= Seq::<Seq<char>>::empty());
    while i < parts.len()
        invariant
            i <= parts@.len(),
            out@ == joined(texts(parts@).take(i as int), sep@),
        decreases parts@.len() - i,
    {
        let ghost now = texts(parts@).take(i + 1);
        assert(now.drop_last() =~= texts(parts@).take(i as int));
        if i > 0 {
            out.append(sep);
        }
        out.append(parts[i].as_str());
        i += 1;
        assert(out@ =~= joined(now, sep@));
    }
    assert(texts(parts@).take(parts@.len() as int) =~= texts(parts@));
    out
}

/// `a`, `b` and `c` one after the other.
pub fn concat3(a: &str, b: &str, c: &str) -> (r: String)
    ensures
        r@ == a@ + b@ + c@,
{
    let mut out = a.to_owned();
    out.append(b);
    out.append(c);
    out
}

/// Whether an outcome is the one that `want` describes.
pub open spec fn agrees<T>(got: Result<T, String>, want: Result<T, Seq<char>>) -> bool {
    match (got, want) {
        (Ok(a), Ok(b)) => a == b,
        (Err(e), Err(m)) => e@ == m,
        _ => false,
    }
}

/// `s` in quotes, with what cannot be printed escaped, as Rust shows a string for
/// debugging.
pub uninterp spec fn debug_text(s: Seq<char>) -> Seq<char>;

/// `format!` with `{:?}` of a string, named by [`debug_text`]: the escapes are those
/// of `str`'s own `Debug`, and depend on the string alone.
#[verifier::external_body]
pub(crate) fn debug_quote(s: &str) -> (r: String)
    ensures
        r@ == debug_text(s@),
{
    format!("{s:?}")
}

// ---------------------------------------------------------------------------
// Prefixes and suffixes
// ---------------------------------------------------------------------------

pub open spec fn has_prefix(s: Seq<char>, prefix: Seq<char>) -> bool {
    prefix.len() <= s.len() && s.subrange(0, prefix.len() as int) == prefix
}

pub open spec fn has_suffix(s: Seq<char>, suffix: Seq<char>) -> bool {
    suffix.len() <= s.len() && s.subrange(s.len() - suffix.len(), s.len() as int) == suffix
}

/// Whether `s` begins with `prefix`.
pub fn starts_with(s: &str, prefix: &str) -> (r: bool)
    ensures
        r == has_prefix(s@, prefix@),
{
    match strip_prefix(s, prefix) {
        Some(_) => true,
        None => false,
    }
}

/// What follows `prefix` in `s`, if `s` begins with it.
pub fn strip_prefix(s: &str, prefix: &str) -> (r: Option<String>)
    ensures
        match r {
            Some(rest) => has_prefix(s@, prefix@) && rest@ == s@.subrange(
                prefix@.len() as int,
                s@.len() as int,
            ),
            None => !has_prefix(s@, prefix@),
        },
{
    let a = chars_of(s);
    let b = chars_of(prefix);
    let m: usize = b.len();
    let n: usize = a.len();
    if m > n {
        return None;
    }
    let mut i: usize = 0;
    while i < m
        invariant
            i <= m <= n,
            m == b@.len(),
            n == a@.len(),
            a@ == s@,
            b@ == prefix@,
            forall|j: int| 0 <= j < i ==> a@[j] == b@[j],
        decreases m - i,
    {
        if a[i] != b[i] {
            assert(s@.subrange(0, m as int)[i as int] != prefix@[i as int]);
            return None;
        }
        i += 1;
    }
    assert(s@.subrange(0, m as int) =~= prefix@);
    Some(string_of(&a, m, n))
}

/// What precedes `suffix` in `s`, if `s` ends with it.
pub fn strip_suffix(s: &str, suffix: &str) -> (r: Option<String>)
    ensures
        match r {
            Some(rest) => has_suffix(s@, suffix@) && rest@ == s@.subrange(
                0,
                s@.len() - suffix@.len(),
            ),
            None => !has_suffix(s@, suffix@),
        },
{
    let a = chars_of(s);
    let b = chars_of(suffix);
    let m: usize = b.len();
    let n: usize = a.len();
    if m > n {
        return None;
    }
    let mut i: usize = 0;
    while i < m
        invariant
            i <= m <= n,
            m == b@.len(),
            n == a@.len(),
            a@ == s@,
            b@ == suffix@,
            forall|j: int| 0 <= j < i ==> #[trigger] a@[n - m + j] == b@[j],
        decreases m - i,
    {
        if a[n - m + i] != b[i] {
            assert(s@.subrange(n - m, n as int)[i as int] != suffix@[i as int]);
            return None;
        }
        i += 1;
    }
    assert(s@.subrange(n - m, n as int) =~= suffix@) by {
        assert forall|j: int| 0 <= j < m implies s@.subrange(n - m, n as int)[j] == suffix@[j] by {
            assert(a@[n - m + j] == b@[j]);
        }
    }
    Some(string_of(&a, 0, n - m))
}

/// `s` with every `from` replaced by `to`.
pub open spec fn replaced(s: Seq<char>, from: char, to: char) -> Seq<char> {
    s.map_values(|c: char| if c == from { to } else { c })
}

pub fn replace_char(s: &str, from: char, to: char) -> (r: String)
    ensures
        r@ == replaced(s@, from, to),
{
    let chars = chars_of(s);
    let mut out = String::new();
    let mut i: usize = 0;
    while i < chars.len()
        invariant
            i <= chars@.len(),
            chars@ == s@,
            out@ == replaced(s@, from, to).take(i as int),
        decreases chars@.len() - i,
    {
        out.push(if chars[i] == from { to } else { chars[i] });
        i += 1;
        assert(out@ =~= replaced(s@, from, to).take(i as int));
    }
    assert(replaced(s@, from, to).take(s@.len() as int) =~= replaced(s@, from, to));
    out
}

// ---------------------------------------------------------------------------
// Decimal numbers
// ---------------------------------------------------------------------------

pub open spec fn is_digit(c: char) -> bool {
    '0' as int <= c as int <= '9' as int
}

pub open spec fn digit_value(c: char) -> nat {
    (c as int - '0' as int) as nat
}

pub open spec fn all_digits(s: Seq<char>) -> bool {
    forall|i: int| 0 <= i < s.len() ==> is_digit(#[trigger] s[i])
}

/// The number that the digits of `s` spell in base ten.
pub open spec fn digits_value(s: Seq<char>) -> nat
    decreases s.len(),
{
    if s.len() == 0 {
        0
    } else {
        digits_value(s.drop_last()) * 10 + digit_value(s.last())
    }
}

/// The unsigned number that `s` spells, if it spells one that is at most `max`:
/// an optional `+`, then one digit or more.
pub open spec fn unsigned_of(s: Seq<char>, max: int) -> Option<nat> {
    let body = if s.len() > 0 && s[0] == '+' {
        s.drop_first()
    } else {
        s
    };
    if body.len() > 0 && all_digits(body) && digits_value(body) <= max {
        Some(digits_value(body))
    } else {
        None
    }
}

/// The signed number that `s` spells, if it fits in 64 bits.
pub open spec fn signed_of(s: Seq<char>) -> Option<int> {
    let negative = s.len() > 0 && s[0] == '-';
    let body = if s.len() > 0 && (s[0] == '+' || s[0] == '-') {
        s.drop_first()
    } else {
        s
    };
    let value = if negative {
        -(digits_value(body) as int)
    } else {
        digits_value(body) as int
    };
    if body.len() > 0 && all_digits(body) && i64::MIN <= value <= i64::MAX {
        Some(value)
    } else {
        None
    }
}

pub proof fn lemma_digits_value_grows(s: Seq<char>, i: int)
    requires
        0 <= i <= s.len(),
    ensures
        digits_value(s.take(i)) <= digits_value(s),
    decreases s.len() - i,
{
    if i < s.len() {
        lemma_digits_value_grows(s, i + 1);
        assert(s.take(i + 1).drop_last() =~= s.take(i));
    } else {
        assert(s.take(i) =~= s);
    }
}

/// Reads `chars[from..]` as a number of at most `max`, if it is one.
fn read_digits(chars: &Vec<char>, from: usize, max: u64) -> (r: Option<u64>)
    requires
        from <= chars@.len(),
    ensures
        ({
            let body = chars@.subrange(from as int, chars@.len() as int);
            match r {
                Some(n) => body.len() > 0 && all_digits(body) && digits_value(body) == n && n <= max,
                None => !(body.len() > 0 && all_digits(body) && digits_value(body) <= max),
            }
        }),
{
    let ghost body = chars@.subrange(from as int, chars@.len() as int);
    if from == chars.len() {
        return None;
    }
    let mut value: u64 = 0;
    let mut i: usize = from;
    assert(body.take(0) =~= Seq::<char>::empty());
    while i < chars.len()
        invariant
            from <= i <= chars@.len(),
            body == chars@.subrange(from as int, chars@.len() as int),
            forall|j: int| 0 <= j < i - from ==> is_digit(#[trigger] body[j]),
            value == digits_value(body.take(i - from)),
            value <= max,
        decreases chars@.len() - i,
    {
        let c = chars[i];
        assert(body[i - from] == c);
        let code: u32 = code_point(c);
        if code < 48 || code > 57 {
            assert(!is_digit(body[i - from]));
            return None;
        }
        let digit: u64 = (code - 48) as u64;
        proof {
            assert(body.take(i - from + 1).drop_last() =~= body.take(i - from));
            lemma_digits_value_grows(body, i - from + 1);
        }
        if digit > max || value > max / 10 || value * 10 > max - digit {
            assert(value * 10 + digit > max) by (nonlinear_arith)
                requires
                    value > max / 10 || value * 10 > max - digit || digit > max,
                    digit <= 9,
                    0 <= value <= max,
            ;
            return None;
        }
        value = value * 10 + digit;
        i += 1;
    }
    assert(body.take(body.len() as int) =~= body);
    Some(value)
}

/// Reads an unsigned number of at most `max`.
pub fn parse_bounded(s: &str, max: u64) -> (r: Option<u64>)
    ensures
        match r {
            Some(n) => unsigned_of(s@, max as int) == Some(n as nat),
            None => unsigned_of(s@, max as int) is None,
        },
{
    let chars = chars_of(s);
    if chars.len() > 0 && chars[0] == '+' {
        assert(s@.subrange(1, s@.len() as int) =~= s@.drop_first());
        read_digits(&chars, 1, max)
    } else {
        assert(s@.subrange(0, s@.len() as int) =~= s@);
        read_digits(&chars, 0, max)
    }
}

/// Reads a `u64`, accepting what `str::parse` accepts.
pub fn parse_u64(s: &str) -> (r: Option<u64>)
    ensures
        match r {
            Some(n) => unsigned_of(s@, u64::MAX as int) == Some(n as nat),
            None => unsigned_of(s@, u64::MAX as int) is None,
        },
{
    parse_bounded(s, u64::MAX)
}

/// Reads a `usize`, accepting what `str::parse` accepts.
pub fn parse_usize(s: &str) -> (r: Option<usize>)
    ensures
        match r {
            Some(n) => unsigned_of(s@, usize::MAX as int) == Some(n as nat),
            None => unsigned_of(s@, usize::MAX as int) is None,
        },
{
    match parse_bounded(s, usize::MAX as u64) {
        Some(n) => Some(n as usize),
        None => None,
    }
}

/// Reads an `i64`, accepting what `str::parse` accepts.
pub fn parse_i64(s: &str) -> (r: Option<i64>)
    ensures
        match r {
            Some(n) => signed_of(s@) == Some(n as int),
            None => signed_of(s@) is None,
        },
{
    let chars = chars_of(s);
    let signed = chars.len() > 0 && (chars[0] == '+' || chars[0] == '-');
    let negative = chars.len() > 0 && chars[0] == '-';
    let from: usize = if signed { 1 } else { 0 };
    assert(s@.subrange(1, s@.len() as int) =~= s@.drop_first()) by {
        if s@.len() == 0 {
        }
    }
    assert(s@.subrange(0, s@.len() as int) =~= s@);
    if negative {
        match read_digits(&chars, from, 0x8000_0000_0000_0000) {
            Some(n) => {
                if n == 0x8000_0000_0000_0000 {
                    Some(i64::MIN)
                } else {
                    Some(-(n as i64))
                }
            },
            None => None,
        }
    } else {
        match read_digits(&chars, from, 0x7fff_ffff_ffff_ffff) {
            Some(n) => Some(n as i64),
            None => None,
        }
    }
}

pub open spec fn digit_char(d: nat) -> char {
    if d == 0 {
        '0'
    } else if d == 1 {
        '1'
    } else if d == 2 {
        '2'
    } else if d == 3 {
        '3'
    } else if d == 4 {
        '4'
    } else if d == 5 {
        '5'
    } else if d == 6 {
        '6'
    } else if d == 7 {
        '7'
    } else if d == 8 {
        '8'
    } else {
        '9'
    }
}

/// `n` written in base ten, without leading zeroes.
pub open spec fn decimal(n: nat) -> Seq<char>
    decreases n,
{
    if n < 10 {
        seq![digit_char(n)]
    } else {
        decimal(n / 10).push(digit_char(n % 10))
    }
}

/// Reading back a rendered number gives that number.
pub proof fn decimal_round_trips(n: nat)
    ensures
        decimal(n).len() > 0,
        all_digits(decimal(n)),
        digits_value(decimal(n)) == n,
        forall|max: int| n <= max ==> #[trigger] unsigned_of(decimal(n), max) == Some(n),
    decreases n,
{
    assert(digit_value(digit_char(n % 10)) == n % 10);
    assert(is_digit(digit_char(n % 10)));
    if n < 10 {
        assert(decimal(n).drop_last() =~= Seq::<char>::empty());
        assert(digits_value(Seq::<char>::empty()) == 0);
        assert(decimal(n).last() == digit_char(n % 10));
    } else {
        decimal_round_trips(n / 10);
        assert(decimal(n).drop_last() =~= decimal(n / 10));
        assert(decimal(n).last() == digit_char(n % 10));
    }
    assert(is_digit(decimal(n)[0]));
}

fn digit(d: u64) -> (r: char)
    requires
        d < 10,
    ensures
        r == digit_char(d as nat),
{
    match d {
        0 => '0',
        1 => '1',
        2 => '2',
        3 => '3',
        4 => '4',
        5 => '5',
        6 => '6',
        7 => '7',
        8 => '8',
        _ => '9',
    }
}

/// Writes `n` in base ten.
pub fn render(n: u64) -> (r: String)
    ensures
        r@ == decimal(n as nat),
    decreases n,
{
    if n < 10 {
        let mut out = String::new();
        out.push(digit(n));
        assert(out@ =~= seq![digit_char(n as nat)]);
        out
    } else {
        let mut out = render(n / 10);
        out.push(digit(n % 10));
        out
    }
}

/// `n` written in base ten, with a `-` before a negative number.
pub open spec fn signed_decimal(n: int) -> Seq<char> {
    if n < 0 {
        seq!['-'] + decimal((-n) as nat)
    } else {
        decimal(n as nat)
    }
}

/// Writes a signed `n` in base ten.
pub fn render_signed(n: i64) -> (r: String)
    ensures
        r@ == signed_decimal(n as int),
{
    if n < 0 {
        let magnitude: u64 = if n == i64::MIN {
            0x8000_0000_0000_0000
        } else {
            (-n) as u64
        };
        let mut out = String::new();
        out.push('-');
        out.append(render(magnitude).as_str());
        assert(out@ =~= signed_decimal(n as int));
        out
    } else {
        render(n as u64)
    }
}

// ---------------------------------------------------------------------------
// Order
// ---------------------------------------------------------------------------

/// Lexicographic order by code point.
pub open spec fn text_le(a: Seq<char>, b: Seq<char>) -> bool
    decreases a.len(),
{
    if a.len() == 0 {
        true
    } else if b.len() == 0 {
        false
    } else if a[0] == b[0] {
        text_le(a.drop_first(), b.drop_first())
    } else {
        (a[0] as int) < (b[0] as int)
    }
}

pub proof fn lemma_text_le_total(a: Seq<char>, b: Seq<char>)
    ensures
        text_le(a, b) || text_le(b, a),
    decreases a.len(),
{
    if a.len() > 0 && b.len() > 0 && a[0] == b[0] {
        lemma_text_le_total(a.drop_first(), b.drop_first());
    }
}

pub proof fn lemma_text_le_transitive(a: Seq<char>, b: Seq<char>, c: Seq<char>)
    requires
        text_le(a, b),
        text_le(b, c),
    ensures
        text_le(a, c),
    decreases a.len(),
{
    if a.len() > 0 && b.len() > 0 && c.len() > 0 && a[0] == b[0] && b[0] == c[0] {
        lemma_text_le_transitive(a.drop_first(), b.drop_first(), c.drop_first());
    }
}

pub fn at_most(a: &str, b: &str) -> (r: bool)
    ensures
        r == text_le(a@, b@),
{
    let x = chars_of(a);
    let y = chars_of(b);
    let n: usize = x.len();
    let m: usize = y.len();
    let mut i: usize = 0;
    assert(a@.skip(0) =~= a@ && b@.skip(0) =~= b@);
    while i < n && i < m
        invariant
            i <= n == x@.len(),
            i <= m == y@.len(),
            x@ == a@,
            y@ == b@,
            text_le(a@, b@) == text_le(a@.skip(i as int), b@.skip(i as int)),
        decreases n - i,
    {
        assert(a@.skip(i as int).drop_first() =~= a@.skip(i + 1));
        assert(b@.skip(i as int).drop_first() =~= b@.skip(i + 1));
        assert(a@.skip(i as int)[0] == x@[i as int]);
        assert(b@.skip(i as int)[0] == y@[i as int]);
        if x[i] != y[i] {
            return code_point(x[i]) < code_point(y[i]);
        }
        i += 1;
    }
    i == n
}

/// Each text is at most its successor.
pub open spec fn ascending(v: Seq<Seq<char>>) -> bool {
    forall|i: int, j: int| 0 <= i < j < v.len() ==> text_le(#[trigger] v[i], #[trigger] v[j])
}

/// `sorted` with `x` put behind the last text that is at most `x`.
pub open spec fn insert_sorted(sorted: Seq<Seq<char>>, x: Seq<char>) -> Seq<Seq<char>>
    decreases sorted.len(),
{
    if sorted.len() == 0 || !text_le(sorted[0], x) {
        seq![x] + sorted
    } else {
        seq![sorted[0]] + insert_sorted(sorted.drop_first(), x)
    }
}

/// The texts of `v` in ascending order.
pub open spec fn sorted_texts(v: Seq<Seq<char>>) -> Seq<Seq<char>>
    decreases v.len(),
{
    if v.len() == 0 {
        Seq::empty()
    } else {
        insert_sorted(sorted_texts(v.drop_last()), v.last())
    }
}

proof fn lemma_insert_at(sorted: Seq<Seq<char>>, x: Seq<char>, at: int)
    requires
        0 <= at <= sorted.len(),
        forall|j: int| 0 <= j < at ==> text_le(#[trigger] sorted[j], x),
        at < sorted.len() ==> !text_le(sorted[at], x),
    ensures
        insert_sorted(sorted, x) == sorted.insert(at, x),
    decreases sorted.len(),
{
    if at == 0 {
        assert(sorted.insert(0, x) =~= seq![x] + sorted);
    } else {
        let rest = sorted.drop_first();
        assert(text_le(sorted[0], x));
        assert forall|j: int| 0 <= j < at - 1 implies text_le(#[trigger] rest[j], x) by {
            assert(rest[j] == sorted[j + 1]);
        }
        lemma_insert_at(rest, x, at - 1);
        assert(sorted.insert(at, x) =~= seq![sorted[0]] + rest.insert(at - 1, x));
    }
}

/// Sorting orders the texts and keeps each as often as it occurred.
pub proof fn sorting_is_exact(v: Seq<Seq<char>>)
    ensures
        ascending(sorted_texts(v)),
        sorted_texts(v).to_multiset() == v.to_multiset(),
        sorted_texts(v).len() == v.len(),
    decreases v.len(),
{
    if v.len() > 0 {
        let rest = v.drop_last();
        sorting_is_exact(rest);
        let before = sorted_texts(rest);
        let x = v.last();
        let p = |t: Seq<char>| !text_le(t, x);
        let at = first_where(before, p);
        lemma_first_where_found(before, p);
        lemma_insert_at(before, x, at);
        let after = before.insert(at, x);
        vstd::seq_lib::to_multiset_insert(before, at, x);
        assert(v =~= rest.push(x));
        rest.to_multiset_ensures();
        assert forall|a: int, b: int| 0 <= a < b < after.len() implies text_le(
            #[trigger] after[a],
            #[trigger] after[b],
        ) by {
            if at < before.len() {
                lemma_text_le_total(before[at], x);
            }
            if a < at && b == at {
                assert(!p(before[a]));
            } else if a < at && b > at {
                assert(after[a] == before[a] && after[b] == before[b - 1]);
            } else if a < at {
                assert(after[a] == before[a] && after[b] == before[b]);
            } else if a == at {
                assert(after[b] == before[b - 1]);
                if b - 1 > at {
                    assert(text_le(before[at], before[b - 1]));
                    lemma_text_le_transitive(x, before[at], before[b - 1]);
                }
            } else {
                assert(after[a] == before[a - 1] && after[b] == before[b - 1]);
            }
        }
    } else {
        assert(sorted_texts(v) =~= v);
    }
}

/// Sorts `v` in ascending order, as sorting a slice of strings does.
pub fn sort(v: Vec<String>) -> (r: Vec<String>)
    ensures
        texts(r@) == sorted_texts(texts(v@)),
        r@.len() == v@.len(),
{
    let mut out: Vec<String> = Vec::new();
    let mut i: usize = 0;
    assert(texts(out@) =~= sorted_texts(texts(v@).take(0)));
    while i < v.len()
        invariant
            i <= v@.len(),
            out@.len() == i,
            texts(out@) == sorted_texts(texts(v@).take(i as int)),
        decreases v@.len() - i,
    {
        let item = v[i].clone();
        let mut at: usize = 0;
        while at < out.len() && at_most(out[at].as_str(), item.as_str())
            invariant
                at <= out@.len(),
                forall|j: int| 0 <= j < at ==> text_le((#[trigger] out@[j])@, item@),
            decreases out@.len() - at,
        {
            at += 1;
        }
        proof {
            let before = texts(out@);
            assert forall|j: int| 0 <= j < at implies text_le(#[trigger] before[j], item@) by {
                assert(before[j] == out@[j]@);
            }
            lemma_insert_at(before, item@, at as int);
            let now = texts(v@).take(i + 1);
            assert(now.drop_last() =~= texts(v@).take(i as int));
            assert(texts(out@.insert(at as int, item)) =~= before.insert(at as int, item@));
        }
        out.insert(at, item);
        i += 1;
    }
    assert(texts(v@).take(v@.len() as int) =~= texts(v@));
    out
}

// ---------------------------------------------------------------------------
// Fractions
// ---------------------------------------------------------------------------

/// `c` in lower case, if it is an ASCII letter.
pub open spec fn lower(c: char) -> char {
    if c == 'A' {
        'a'
    } else if c == 'B' {
        'b'
    } else if c == 'C' {
        'c'
    } else if c == 'D' {
        'd'
    } else if c == 'E' {
        'e'
    } else if c == 'F' {
        'f'
    } else if c == 'G' {
        'g'
    } else if c == 'H' {
        'h'
    } else if c == 'I' {
        'i'
    } else if c == 'J' {
        'j'
    } else if c == 'K' {
        'k'
    } else if c == 'L' {
        'l'
    } else if c == 'M' {
        'm'
    } else if c == 'N' {
        'n'
    } else if c == 'O' {
        'o'
    } else if c == 'P' {
        'p'
    } else if c == 'Q' {
        'q'
    } else if c == 'R' {
        'r'
    } else if c == 'S' {
        's'
    } else if c == 'T' {
        't'
    } else if c == 'U' {
        'u'
    } else if c == 'V' {
        'v'
    } else if c == 'W' {
        'w'
    } else if c == 'X' {
        'x'
    } else if c == 'Y' {
        'y'
    } else if c == 'Z' {
        'z'
    } else {
        c
    }
}

/// `s` with its ASCII letters in lower case.
pub open spec fn lowered(s: Seq<char>) -> Seq<char> {
    s.map_values(|c: char| lower(c))
}

fn lower_char(c: char) -> (r: char)
    ensures
        r == lower(c),
{
    match c {
        'A' => 'a',
        'B' => 'b',
        'C' => 'c',
        'D' => 'd',
        'E' => 'e',
        'F' => 'f',
        'G' => 'g',
        'H' => 'h',
        'I' => 'i',
        'J' => 'j',
        'K' => 'k',
        'L' => 'l',
        'M' => 'm',
        'N' => 'n',
        'O' => 'o',
        'P' => 'p',
        'Q' => 'q',
        'R' => 'r',
        'S' => 's',
        'T' => 't',
        'U' => 'u',
        'V' => 'v',
        'W' => 'w',
        'X' => 'x',
        'Y' => 'y',
        'Z' => 'z',
        _ => c,
    }
}

/// Puts ASCII letters in lower case.
pub fn to_lower(s: &str) -> (r: String)
    ensures
        r@ == lowered(s@),
{
    let chars = chars_of(s);
    let mut out = String::new();
    let mut i: usize = 0;
    while i < chars.len()
        invariant
            i <= chars@.len(),
            chars@ == s@,
            out@ == lowered(s@).take(i as int),
        decreases chars@.len() - i,
    {
        out.push(lower_char(chars[i]));
        i += 1;
        assert(out@ =~= lowered(s@).take(i as int));
    }
    assert(lowered(s@).take(s@.len() as int) =~= lowered(s@));
    out
}

/// `s` without one leading sign.
pub open spec fn unsigned_part(s: Seq<char>) -> Seq<char> {
    if s.len() > 0 && (s[0] == '+' || s[0] == '-') {
        s.drop_first()
    } else {
        s
    }
}

/// Digits with at most one point among them, and at least one digit.
pub open spec fn is_mantissa(s: Seq<char>) -> bool {
    match split_once_text(s, '.') {
        Some((whole, part)) => all_digits(whole) && all_digits(part) && whole.len() + part.len() > 0,
        None => all_digits(s) && s.len() > 0,
    }
}

/// A decimal number as floating-point text allows it, in lower case and without
/// sign: a mantissa, and an exponent behind an `e`.
pub open spec fn is_scientific(s: Seq<char>) -> bool {
    match split_once_text(s, 'e') {
        Some((mantissa, exponent)) => is_mantissa(mantissa) && all_digits(unsigned_part(exponent))
            && unsigned_part(exponent).len() > 0,
        None => is_mantissa(s),
    }
}

/// Whether `s` writes a number out, with or without a sign.
pub open spec fn is_number_text(s: Seq<char>) -> bool {
    is_scientific(unsigned_part(lowered(s)))
}

/// Whether `s` is text that a floating-point number may be read from: a number, or the
/// name of what is none.
pub open spec fn is_float_text(s: Seq<char>) -> bool {
    let t = unsigned_part(lowered(s));
    t == "inf"@ || t == "infinity"@ || t == "nan"@ || is_number_text(s)
}

/// A number begins with a digit or a point.
pub proof fn numbers_begin_with_digits(s: Seq<char>)
    requires
        is_scientific(s),
    ensures
        s.len() > 0,
        is_digit(s[0]) || s[0] == '.',
{
    lemma_index_in_range(s, 'e');
    let m = match split_once_text(s, 'e') {
        Some((mantissa, exponent)) => mantissa,
        None => s,
    };
    assert(is_mantissa(m));
    lemma_index_in_range(m, '.');
    let point = first_index(m, '.');
    assert(m.len() > 0);
    assert(m[0] == s[0]);
    if 0 <= point < m.len() {
        if point > 0 {
            assert(is_digit(m.subrange(0, point)[0]));
        } else {
            lemma_index_in_range(m.drop_first(), '.');
        }
    } else {
        assert(is_digit(m[0]));
    }
}

pub(crate) fn only_digits(s: &str) -> (r: bool)
    ensures
        r == all_digits(s@),
{
    let chars = chars_of(s);
    let mut i: usize = 0;
    while i < chars.len()
        invariant
            i <= chars@.len(),
            chars@ == s@,
            forall|j: int| 0 <= j < i ==> is_digit(#[trigger] s@[j]),
        decreases chars@.len() - i,
    {
        let code: u32 = code_point(chars[i]);
        if code < 48 || code > 57 {
            assert(!is_digit(s@[i as int]));
            return false;
        }
        i += 1;
    }
    true
}

pub(crate) fn without_sign(s: &str) -> (r: String)
    ensures
        r@ == unsigned_part(s@),
{
    let chars = chars_of(s);
    let n: usize = chars.len();
    let from: usize = if n > 0 && (chars[0] == '+' || chars[0] == '-') {
        1
    } else {
        0
    };
    let r = string_of(&chars, from, n);
    assert(r@ =~= unsigned_part(s@));
    r
}

fn mantissa(s: &str) -> (r: bool)
    ensures
        r == is_mantissa(s@),
{
    match split_once(s, '.') {
        Some((whole, part)) => only_digits(whole.as_str()) && only_digits(part.as_str()) && !(
        whole.as_str().is_empty() && part.as_str().is_empty()),
        None => only_digits(s) && !s.is_empty(),
    }
}

/// Whether `s` writes a number out.
pub fn number_text(s: &str) -> (r: bool)
    ensures
        r == is_number_text(s@),
{
    let small = to_lower(s);
    let t = without_sign(small.as_str());
    match split_once(t.as_str(), 'e') {
        Some((digits, exponent)) => {
            let power = without_sign(exponent.as_str());
            mantissa(digits.as_str()) && only_digits(power.as_str()) && !power.as_str().is_empty()
        },
        None => mantissa(t.as_str()),
    }
}

/// Whether a floating-point number may be read from `s`.
pub fn float_text(s: &str) -> (r: bool)
    ensures
        r == is_float_text(s@),
{
    let small = to_lower(s);
    let t = without_sign(small.as_str());
    same(t.as_str(), "inf") || same(t.as_str(), "infinity") || same(t.as_str(), "nan")
        || number_text(s)
}

// ---------------------------------------------------------------------------
// Columns
// ---------------------------------------------------------------------------

/// Texts one after another.
pub open spec fn run_together(parts: Seq<Seq<char>>) -> Seq<char>
    decreases parts.len(),
{
    if parts.len() == 0 {
        Seq::empty()
    } else {
        run_together(parts.drop_last()) + parts.last()
    }
}

/// Texts one after another.
pub fn concat(parts: &Vec<&str>) -> (r: String)
    ensures
        r@ == run_together(slices(parts@)),
{
    let ghost all = slices(parts@);
    let mut out = String::new();
    let mut i: usize = 0;
    assert(out@ =~= run_together(all.take(0)));
    while i < parts.len()
        invariant
            i <= parts@.len(),
            all == slices(parts@),
            out@ == run_together(all.take(i as int)),
        decreases parts@.len() - i,
    {
        assert(all.take(i + 1).drop_last() =~= all.take(i as int));
        assert(all.take(i + 1).last() == parts@[i as int]@);
        out.append(parts[i]);
        i += 1;
    }
    assert(all.take(all.len() as int) =~= all);
    out
}

/// `n` spaces.
pub open spec fn spaces(n: int) -> Seq<char> {
    Seq::new(
        if n < 0 {
            0
        } else {
            n as nat
        },
        |i: int| ' ',
    )
}

/// `s` at the right of a column of `width` characters, or as it is where it is wider.
pub open spec fn right_in(s: Seq<char>, width: int) -> Seq<char> {
    spaces(width - s.len()) + s
}

/// `s` at the left of a column of `width` characters, or as it is where it is wider.
pub open spec fn left_in(s: Seq<char>, width: int) -> Seq<char> {
    s + spaces(width - s.len())
}

fn blanks(from: usize, to: usize) -> (r: String)
    ensures
        r@ == spaces(to - from),
{
    let mut out = String::new();
    let mut n: usize = from;
    assert(out@ =~= spaces(0));
    while n < to
        invariant
            from <= n,
            from < to ==> n <= to,
            from >= to ==> n == from,
            out@ == spaces(n - from),
        decreases to - n,
    {
        out.push(' ');
        assert(out@ =~= spaces(n + 1 - from));
        n += 1;
    }
    assert(out@ =~= spaces(to - from));
    out
}

/// `s` at the right of a column.
pub fn pad_left(s: &str, width: usize) -> (r: String)
    ensures
        r@ == right_in(s@, width as int),
{
    let mut out = blanks(chars_of(s).len(), width);
    out.append(s);
    out
}

/// `s` at the left of a column.
pub fn pad_right(s: &str, width: usize) -> (r: String)
    ensures
        r@ == left_in(s@, width as int),
{
    let mut out = s.to_owned();
    out.append(blanks(chars_of(s).len(), width).as_str());
    out
}

} // verus!
