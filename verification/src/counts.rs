//! Counts that are recorded as numbers: what a text comes to when it is read as a
//! number in double precision and cut to a count.
//!
//! A double has 53 significant bits. From 2^52 on the doubles are whole numbers, with
//! ever wider steps between them; below that, every whole number is one, and the steps
//! between two whole numbers are the finer the smaller they are. A text is read as the
//! double that is nearest to it, the even one where two are equally near. No double is
//! computed here: which one is nearest is decided on the digits.
use crate::text::{
    all_digits, chars_of, code_point, decimal, decimal_round_trips, digit_value, digits_value,
    float_text, is_digit, is_float_text, is_mantissa, is_number_text, is_scientific,
    lemma_digits_value_grows, lemma_first_index, lowered, same, split_once, split_once_text,
    to_lower, unsigned_part, without_sign,
};
use vstd::prelude::*;

verus! {

/// From here on every double is a whole number: 2^52.
pub const WHOLE: u128 = 0x10_0000_0000_0000;

/// 10^n.
pub open spec fn ten_to(n: nat) -> nat
    decreases n,
{
    if n == 0 {
        1
    } else {
        10 * ten_to((n - 1) as nat)
    }
}

/// How far apart the doubles are at `n`, where they are whole numbers.
pub open spec fn stride(n: nat) -> nat
    decreases n,
{
    if n < 2 * WHOLE {
        1
    } else {
        2 * stride(n / 2)
    }
}

/// How many doubles there are from `n` on to just below `n + 1`, near that end.
pub open spec fn fineness(n: nat) -> nat
    decreases
        if n < WHOLE {
            WHOLE - n
        } else {
            0
        },
{
    if n >= WHOLE {
        1
    } else if n == 0 {
        (2 * WHOLE) as nat
    } else {
        2 * fineness(2 * n)
    }
}

/// The whole part of the double that is nearest to `n + rest / den`, where `rest` is
/// less than `den`.
///
/// Where whole numbers are finer than the doubles, `n` goes to the nearer end of its
/// stride. Elsewhere it stays, unless the number is no more than half a double away
/// from the next whole number.
pub open spec fn nearest_whole(n: nat, rest: nat, den: nat) -> nat {
    if n < WHOLE {
        if (den - rest) * (2 * fineness(n)) <= den {
            n + 1
        } else {
            n
        }
    } else {
        let u = stride(n);
        let over = n % u * den + rest;
        let low = (n - n % u) as nat;
        if 2 * over > u * den || (2 * over == u * den && n / u % 2 == 1) {
            low + u
        } else {
            low
        }
    }
}

/// `n`, or the largest count where it is larger.
pub open spec fn at_most_max(n: nat) -> nat {
    if n > usize::MAX {
        usize::MAX as nat
    } else {
        n
    }
}

pub open spec fn zeros(n: int) -> Seq<char> {
    Seq::new(
        if n < 0 {
            0
        } else {
            n as nat
        },
        |i: int| '0',
    )
}

/// The digits before and behind the point, where it stands behind the first `at` of
/// `digits`.
pub open spec fn parted(digits: Seq<char>, at: int) -> (Seq<char>, Seq<char>) {
    if at < 0 {
        (Seq::empty(), zeros(-at) + digits)
    } else if at > digits.len() {
        (digits + zeros(at - digits.len()), Seq::empty())
    } else {
        (digits.take(at), digits.skip(at))
    }
}

/// The count that `digits` come to with the point behind the first `at` of them.
pub open spec fn cut(digits: Seq<char>, at: int) -> nat {
    let (whole, part) = parted(digits, at);
    at_most_max(nearest_whole(digits_value(whole), digits_value(part), ten_to(part.len())))
}

/// What an exponent says.
pub open spec fn exponent_of(s: Seq<char>) -> int {
    if s.len() > 0 && s[0] == '-' {
        -(digits_value(unsigned_part(s)) as int)
    } else {
        digits_value(unsigned_part(s)) as int
    }
}

/// The mantissa and the exponent of a number without a sign.
pub open spec fn scientific_parts(t: Seq<char>) -> (Seq<char>, int) {
    match split_once_text(t, 'e') {
        Some((mantissa, exponent)) => (mantissa, exponent_of(exponent)),
        None => (t, 0),
    }
}

/// The digits of a mantissa before and behind its point.
pub open spec fn mantissa_parts(m: Seq<char>) -> (Seq<char>, Seq<char>) {
    match split_once_text(m, '.') {
        Some(parts) => parts,
        None => (m, Seq::empty()),
    }
}

/// The count that a number without a sign comes to.
pub open spec fn number_cut(t: Seq<char>) -> nat {
    let (mantissa, exponent) = scientific_parts(t);
    let (whole, part) = mantissa_parts(mantissa);
    cut(whole + part, whole.len() + exponent)
}

/// The count that a text comes to: the whole part of the number that it writes. What is
/// below zero, or no number at all, counts as zero, and what is beyond every count as
/// the largest.
pub open spec fn count_read(s: Seq<char>) -> Option<nat> {
    let t = unsigned_part(lowered(s));
    if !is_float_text(s) {
        None
    } else if s[0] == '-' || t == "nan"@ {
        Some(0)
    } else if t == "inf"@ || t == "infinity"@ {
        Some(usize::MAX as nat)
    } else {
        Some(number_cut(t))
    }
}

// ---------------------------------------------------------------------------
// Digits
// ---------------------------------------------------------------------------

proof fn lemma_ten_to_positive(n: nat)
    ensures
        ten_to(n) >= 1,
    decreases n,
{
    if n > 0 {
        lemma_ten_to_positive((n - 1) as nat);
    }
}

proof fn lemma_ten_to_adds(a: nat, b: nat)
    ensures
        ten_to(a + b) == ten_to(a) * ten_to(b),
    decreases b,
{
    if b > 0 {
        lemma_ten_to_adds(a, (b - 1) as nat);
        let x = ten_to(a);
        let y = ten_to((b - 1) as nat);
        assert(ten_to(a + b) == 10 * ten_to((a + b - 1) as nat));
        assert(10 * (x * y) == x * (10 * y)) by (nonlinear_arith);
    } else {
        let x = ten_to(a);
        assert(x * 1 == x) by (nonlinear_arith);
    }
}

proof fn lemma_digits_bounded(s: Seq<char>)
    requires
        all_digits(s),
    ensures
        digits_value(s) < ten_to(s.len()),
    decreases s.len(),
{
    if s.len() > 0 {
        let front = s.drop_last();
        assert forall|i: int| 0 <= i < front.len() implies is_digit(#[trigger] front[i]) by {
            assert(is_digit(s[i]));
        }
        lemma_digits_bounded(front);
        assert(is_digit(s[s.len() - 1]));
    }
}

/// Digits behind others shift them.
proof fn lemma_digits_concat(a: Seq<char>, b: Seq<char>)
    ensures
        digits_value(a + b) == digits_value(a) * ten_to(b.len()) + digits_value(b),
    decreases b.len(),
{
    if b.len() == 0 {
        assert(a + b =~= a);
        let x = digits_value(a);
        assert(x * 1 == x) by (nonlinear_arith);
    } else {
        let less = b.drop_last();
        lemma_digits_concat(a, less);
        assert((a + b).drop_last() =~= a + less);
        assert((a + b).last() == b.last());
        let x = digits_value(a);
        let y = ten_to(less.len());
        assert((x * y) * 10 == x * (10 * y)) by (nonlinear_arith);
        assert(ten_to(b.len()) == 10 * y);
    }
}

proof fn lemma_zeros(n: int)
    ensures
        digits_value(zeros(n)) == 0,
        all_digits(zeros(n)),
    decreases n,
{
    if n > 0 {
        lemma_zeros(n - 1);
        assert(zeros(n).drop_last() =~= zeros(n - 1));
    }
}

proof fn lemma_nothing_but_zeros(s: Seq<char>)
    requires
        all_digits(s),
    ensures
        digits_value(s) == 0 <==> (forall|i: int| 0 <= i < s.len() ==> #[trigger] s[i] == '0'),
    decreases s.len(),
{
    if s.len() > 0 {
        let front = s.drop_last();
        let end = s.len() - 1;
        assert forall|i: int| 0 <= i < front.len() implies is_digit(#[trigger] front[i]) by {
            assert(is_digit(s[i]));
        }
        lemma_nothing_but_zeros(front);
        assert(is_digit(s[end]));
        if digits_value(s) == 0 {
            assert forall|i: int| 0 <= i < s.len() implies #[trigger] s[i] == '0' by {
                if i < end {
                    assert(front[i] == s[i]);
                }
            }
        }
        if forall|i: int| 0 <= i < s.len() ==> #[trigger] s[i] == '0' {
            assert forall|i: int| 0 <= i < front.len() implies #[trigger] front[i] == '0' by {
                assert(s[i] == '0');
            }
            assert(s[end] == '0');
        }
    }
}

// ---------------------------------------------------------------------------
// Doubles
// ---------------------------------------------------------------------------

/// A number is at least 2^52 strides, and less than 2^53 of them.
proof fn lemma_stride(n: nat)
    requires
        n >= WHOLE,
    ensures
        stride(n) >= 1,
        stride(n) * WHOLE <= n < stride(n) * (2 * WHOLE),
        stride(n) == 1 || stride(n) % 2 == 0,
    decreases n,
{
    if n >= 2 * WHOLE {
        lemma_stride(n / 2);
    }
}

proof fn lemma_fineness(n: nat)
    ensures
        fineness(n) >= 1,
    decreases
        if n < WHOLE {
            WHOLE - n
        } else {
            0
        },
{
    if 0 < n < WHOLE {
        lemma_fineness(2 * n);
    }
}

/// A number far beyond every count stays beyond them.
proof fn lemma_beyond(n: nat, rest: nat, den: nat)
    requires
        n >= 0x4_0000_0000_0000_0000,
    ensures
        at_most_max(nearest_whole(n, rest, den)) == usize::MAX,
{
    lemma_stride(n);
    let u = stride(n);
    assert(n % u < u) by (nonlinear_arith)
        requires
            u >= 1,
    ;
    assert(2 * u <= u * WHOLE) by (nonlinear_arith)
        requires
            WHOLE >= 2,
            u >= 1,
    ;
}

/// What begins with a zero behind the point is less than one.
proof fn lemma_small(rest: nat, den: nat)
    requires
        10 * rest <= den,
        den >= 1,
    ensures
        nearest_whole(0, rest, den) == 0,
{
    let f = 2 * fineness(0);
    assert((den - rest) * f > den) by (nonlinear_arith)
        requires
            10 * rest <= den,
            den >= 1,
            f >= 2,
    ;
}

/// How a number compares.
#[derive(Clone, Copy, PartialEq, Eq, Debug, Structural)]
enum Against {
    Below,
    At,
    Above,
}

/// How `rest / den` compares with `c / h`.
spec fn against(rest: nat, den: nat, c: nat, h: nat) -> Against {
    if rest * h < c * den {
        Against::Below
    } else if rest * h == c * den {
        Against::At
    } else {
        Against::Above
    }
}

fn digit_at(digits: &Vec<char>, i: usize) -> (r: u128)
    requires
        all_digits(digits@),
        i < digits@.len(),
    ensures
        r == digit_value(digits@[i as int]),
        r <= 9,
{
    assert(is_digit(digits@[i as int]));
    (code_point(digits[i]) - 48) as u128
}

/// The digit that decides: the digits up to it agree, and it is larger or smaller.
proof fn lemma_decided(
    all: Seq<char>,
    k: int,
    c: nat,
    h: nat,
    before: nat,
    a: nat,
    d: nat,
    left: nat,
)
    requires
        all_digits(all),
        0 <= k < all.len(),
        before == digits_value(all.take(k)),
        c * ten_to(k as nat) == before * h + a,
        a * 10 == d * h + left,
        left < h,
        digit_value(all[k]) != d,
    ensures
        against(digits_value(all), ten_to(all.len()), c, h) == if digit_value(all[k]) > d {
            Against::Above
        } else {
            Against::Below
        },
{
    let p = digit_value(all[k]);
    let head = all.take(k + 1);
    let tail = all.skip(k + 1);
    let v = digits_value(head);
    let t = ten_to(tail.len());
    let total = digits_value(all);
    assert(head.drop_last() =~= all.take(k));
    assert(v == before * 10 + p);
    assert(head + tail =~= all);
    lemma_digits_concat(head, tail);
    assert forall|i: int| 0 <= i < tail.len() implies is_digit(#[trigger] tail[i]) by {
        assert(is_digit(all[i + k + 1]));
    }
    lemma_digits_bounded(tail);
    lemma_ten_to_positive(tail.len());
    lemma_ten_to_adds((k + 1) as nat, tail.len());
    let mark = c * ten_to((k + 1) as nat);
    assert(ten_to((k + 1) as nat) == 10 * ten_to(k as nat));
    assert(mark == (before * 10 + d) * h + left) by (nonlinear_arith)
        requires
            mark == c * (10 * ten_to(k as nat)),
            c * ten_to(k as nat) == before * h + a,
            a * 10 == d * h + left,
    ;
    assert(c * ten_to(all.len()) == mark * t) by (nonlinear_arith)
        requires
            ten_to(all.len()) == ten_to((k + 1) as nat) * t,
            mark == c * ten_to((k + 1) as nat),
    ;
    if p > d {
        assert(total * h > mark * t) by (nonlinear_arith)
            requires
                total >= v * t,
                v >= before * 10 + d + 1,
                mark == (before * 10 + d) * h + left,
                left < h,
                t >= 1,
        ;
    } else {
        assert(total * h < mark * t) by (nonlinear_arith)
            requires
                total < v * t + t,
                v + 1 <= before * 10 + d,
                mark == (before * 10 + d) * h + left,
                left >= 0,
                h >= 1,
                t >= 1,
        ;
    }
}

/// Compares the fraction that the digits from `from` on write with `c / h`.
fn compare_fraction(digits: &Vec<char>, from: usize, c: u128, h: u128) -> (r: Against)
    requires
        all_digits(digits@),
        from <= digits@.len(),
        c < h <= 0x1000_0000_0000_0000,
    ensures
        ({
            let part = digits@.skip(from as int);
            r == against(digits_value(part), ten_to(part.len()), c as nat, h as nat)
        }),
{
    let ghost part = digits@.skip(from as int);
    let mut a: u128 = c;
    let mut i: usize = from;
    assert(part.take(0) =~= Seq::<char>::empty());
    assert(c as nat * 1 == 0 * h as nat + c as nat) by (nonlinear_arith);
    assert(all_digits(part)) by {
        assert forall|j: int| 0 <= j < part.len() implies is_digit(#[trigger] part[j]) by {
            assert(is_digit(digits@[j + from]));
        }
    }
    while i < digits.len()
        invariant
            all_digits(digits@),
            from <= i <= digits@.len(),
            part == digits@.skip(from as int),
            all_digits(part),
            c < h <= 0x1000_0000_0000_0000,
            a < h,
            c as nat * ten_to((i - from) as nat) == digits_value(part.take(i - from)) * h as nat
                + a as nat,
        decreases digits@.len() - i,
    {
        let ghost k = i - from;
        let ghost before = digits_value(part.take(k));
        let d: u128 = a * 10 / h;
        let left: u128 = a * 10 % h;
        let p: u128 = digit_at(digits, i);
        assert(a * 10 == d * h + left) by (nonlinear_arith)
            requires
                d as int == a as int * 10 / h as int,
                left as int == a as int * 10 % h as int,
                h > 0,
        ;
        assert(part[k] == digits@[i as int]);
        if p > d {
            proof {
                lemma_decided(part, k, c as nat, h as nat, before, a as nat, d as nat, left as nat);
            }
            return Against::Above;
        }
        if p < d {
            proof {
                lemma_decided(part, k, c as nat, h as nat, before, a as nat, d as nat, left as nat);
            }
            return Against::Below;
        }
        proof {
            assert(part.take(k + 1).drop_last() =~= part.take(k));
            let now = digits_value(part.take(k + 1));
            assert(now == before * 10 + p);
            assert(ten_to((k + 1) as nat) == 10 * ten_to(k as nat));
            assert(c as nat * (10 * ten_to(k as nat)) == now * h as nat + left as nat)
                by (nonlinear_arith)
                requires
                    c as nat * ten_to(k as nat) == before * h as nat + a as nat,
                    a * 10 == p * h + left,
                    now == before * 10 + p,
            ;
        }
        a = left;
        i += 1;
    }
    assert(part.take(part.len() as int) =~= part);
    if a == 0 {
        Against::At
    } else {
        Against::Below
    }
}

/// The stride at `n`.
fn stride_of(n: u128) -> (r: u128)
    requires
        n < 0x4_0000_0000_0000_0000,
    ensures
        r == stride(n as nat),
        1 <= r <= 0x1000_0000,
    decreases n,
{
    if n < 2 * WHOLE {
        1
    } else {
        proof {
            lemma_stride(n as nat);
        }
        2 * stride_of(n / 2)
    }
}

fn fineness_of(n: u128) -> (r: u128)
    requires
        n < WHOLE,
    ensures
        r == fineness(n as nat),
        1 <= r <= 2 * WHOLE,
{
    if n == 0 {
        return 2 * WHOLE;
    }
    let mut m: u128 = n;
    let mut r: u128 = 1;
    while m < WHOLE
        invariant
            0 < n <= m < 2 * WHOLE,
            m == n * r,
            r >= 1,
            r * fineness(m as nat) == fineness(n as nat),
        decreases 2 * WHOLE - m,
    {
        assert(r <= m) by (nonlinear_arith)
            requires
                m == n * r,
                n >= 1,
        ;
        assert(2 * m == n * (2 * r)) by (nonlinear_arith)
            requires
                m == n * r,
        ;
        assert((2 * r) * fineness(2 * m as nat) == r * fineness(m as nat)) by (nonlinear_arith)
            requires
                fineness(m as nat) == 2 * fineness(2 * m as nat),
        ;
        m = 2 * m;
        r = 2 * r;
    }
    assert(r <= m) by (nonlinear_arith)
        requires
            m == n * r,
            n >= 1,
    ;
    assert(r * 1 == r) by (nonlinear_arith);
    r
}

// ---------------------------------------------------------------------------
// Reading
// ---------------------------------------------------------------------------

/// Whether the digits from `from` on are all zero.
fn only_zeros(digits: &Vec<char>, from: usize) -> (r: bool)
    requires
        all_digits(digits@),
        from <= digits@.len(),
    ensures
        r == (digits_value(digits@.skip(from as int)) == 0),
{
    let ghost part = digits@.skip(from as int);
    proof {
        assert forall|j: int| 0 <= j < part.len() implies is_digit(#[trigger] part[j]) by {
            assert(is_digit(digits@[j + from]));
        }
        lemma_nothing_but_zeros(part);
    }
    let mut i: usize = from;
    while i < digits.len()
        invariant
            from <= i <= digits@.len(),
            part == digits@.skip(from as int),
            digits_value(part) == 0 <==> (forall|j: int|
                0 <= j < part.len() ==> #[trigger] part[j] == '0'),
            forall|j: int| 0 <= j < i - from ==> #[trigger] part[j] == '0',
        decreases digits@.len() - i,
    {
        assert(part[i - from] == digits@[i as int]);
        if digits[i] != '0' {
            return false;
        }
        i += 1;
    }
    true
}

/// Where a stride is wider than one, its middle is a whole number.
proof fn lemma_wide_stride(n: nat, rest: nat, den: nat)
    requires
        n >= 2 * WHOLE,
        rest < den,
    ensures
        ({
            let u = stride(n);
            let half = u / 2;
            let m = n % u;
            &&& u == 2 * half
            &&& (2 * (m * den + rest) > u * den) == (m > half || (m == half && rest > 0))
            &&& (2 * (m * den + rest) == u * den) == (m == half && rest == 0)
        }),
{
    lemma_stride(n);
    assert(stride(n) == 2 * stride(n / 2));
    let u = stride(n);
    let half = u / 2;
    let m = n % u;
    assert(u * den == 2 * (half * den)) by (nonlinear_arith)
        requires
            u == 2 * half,
    ;
    if m > half {
        assert(m * den >= half * den + den) by (nonlinear_arith)
            requires
                m >= half + 1,
                den > 0,
        ;
    } else if m < half {
        assert(m * den + den <= half * den) by (nonlinear_arith)
            requires
                m + 1 <= half,
                den > 0,
        ;
    }
}

/// The whole part of the double nearest to `n` and the digits from `from` on behind a
/// point.
fn nearest(n: u128, digits: &Vec<char>, from: usize) -> (r: u128)
    requires
        all_digits(digits@),
        from <= digits@.len(),
        n < 0x4_0000_0000_0000_0000,
    ensures
        ({
            let part = digits@.skip(from as int);
            r == nearest_whole(n as nat, digits_value(part), ten_to(part.len()))
        }),
{
    let ghost part = digits@.skip(from as int);
    let ghost rest = digits_value(part);
    let ghost den = ten_to(part.len());
    proof {
        assert forall|j: int| 0 <= j < part.len() implies is_digit(#[trigger] part[j]) by {
            assert(is_digit(digits@[j + from]));
        }
        lemma_digits_bounded(part);
    }
    if n < WHOLE {
        let h: u128 = 2 * fineness_of(n);
        assert(((den - rest) * h as nat <= den) == (rest * h as nat >= (h - 1) as nat * den))
            by (nonlinear_arith)
            requires
                h >= 1,
                rest < den,
        ;
        return match compare_fraction(digits, from, h - 1, h) {
            Against::Below => n,
            _ => n + 1,
        };
    }
    let u: u128 = stride_of(n);
    let m: u128 = n % u;
    let odd = n / u % 2 == 1;
    let up = if u == 1 {
        assert(n as int % 1 == 0);
        assert(0 * den == 0) by (nonlinear_arith);
        match compare_fraction(digits, from, 1, 2) {
            Against::Below => false,
            Against::At => odd,
            Against::Above => true,
        }
    } else {
        proof {
            lemma_wide_stride(n as nat, rest, den);
        }
        let half: u128 = u / 2;
        m > half || (m == half && (odd || !only_zeros(digits, from)))
    };
    if up {
        n - m + u
    } else {
        n - m
    }
}

/// The largest count, or a smaller number.
fn as_count(n: u128) -> (r: usize)
    ensures
        r == at_most_max(n as nat),
{
    if n > usize::MAX as u128 {
        usize::MAX
    } else {
        n as usize
    }
}

/// The count that digits come to with the point behind the first `at` of them, or so
/// many zeros further on.
fn cut_near(digits: &Vec<char>, at: usize, more: usize) -> (r: usize)
    requires
        all_digits(digits@),
        at <= digits@.len(),
        more > 0 ==> at == digits@.len(),
    ensures
        r == cut(digits@, at + more),
{
    let ghost whole = parted(digits@, at + more).0;
    let ghost part = parted(digits@, at + more).1;
    let mut n: u128 = 0;
    let mut i: usize = 0;
    assert(part =~= digits@.skip(at as int));
    assert(whole =~= digits@.take(at as int) + zeros(more as int));
    assert(whole.take(0) =~= Seq::<char>::empty());
    while i < at
        invariant
            all_digits(digits@),
            i <= at <= digits@.len(),
            whole == digits@.take(at as int) + zeros(more as int),
            whole == parted(digits@, at + more).0,
            part == parted(digits@, at + more).1,
            n < 0x4_0000_0000_0000_0000,
            n == digits_value(whole.take(i as int)),
        decreases at - i,
    {
        let d: u128 = digit_at(digits, i);
        n = n * 10 + d;
        proof {
            assert(whole.take(i + 1).drop_last() =~= whole.take(i as int));
            assert(whole.take(i + 1).last() == digits@[i as int]);
        }
        i += 1;
        if n >= 0x4_0000_0000_0000_0000 {
            proof {
                lemma_digits_value_grows(whole, i as int);
                lemma_beyond(digits_value(whole), digits_value(part), ten_to(part.len()));
            }
            return usize::MAX;
        }
    }
    let mut j: usize = 0;
    while j < more
        invariant
            at <= digits@.len(),
            j <= more,
            whole == digits@.take(at as int) + zeros(more as int),
            whole == parted(digits@, at + more).0,
            part == parted(digits@, at + more).1,
            n < 0x4_0000_0000_0000_0000,
            n == digits_value(whole.take(at + j)),
        decreases more - j,
    {
        n = n * 10;
        proof {
            assert(whole.take(at + j + 1).drop_last() =~= whole.take(at + j));
            assert(whole.take(at + j + 1).last() == '0');
        }
        j += 1;
        if n >= 0x4_0000_0000_0000_0000 {
            proof {
                lemma_digits_value_grows(whole, at + j);
                lemma_beyond(digits_value(whole), digits_value(part), ten_to(part.len()));
            }
            return usize::MAX;
        }
    }
    assert(whole.take(at + more) =~= whole);
    as_count(nearest(n, digits, at))
}

/// What an exponent comes to as far as it matters: itself, or something far beyond the
/// length of any text.
fn magnitude(digits: &Vec<char>) -> (r: u128)
    requires
        all_digits(digits@),
    ensures
        r <= digits_value(digits@),
        r == digits_value(digits@) || r >= 0x100_0000_0000_0000_0000,
        r < 0x1_0000_0000_0000_0000_0000,
{
    let mut n: u128 = 0;
    let mut i: usize = 0;
    assert(digits@.take(0) =~= Seq::<char>::empty());
    while i < digits.len()
        invariant
            all_digits(digits@),
            i <= digits@.len(),
            n < 0x100_0000_0000_0000_0000,
            n == digits_value(digits@.take(i as int)),
        decreases digits@.len() - i,
    {
        let d: u128 = digit_at(digits, i);
        n = n * 10 + d;
        assert(digits@.take(i + 1).drop_last() =~= digits@.take(i as int));
        i += 1;
        if n >= 0x100_0000_0000_0000_0000 {
            proof {
                lemma_digits_value_grows(digits@, i as int);
            }
            return n;
        }
    }
    assert(digits@.take(digits@.len() as int) =~= digits@);
    n
}

proof fn lemma_cut_left(digits: Seq<char>, at: int)
    requires
        all_digits(digits),
        at < 0,
    ensures
        cut(digits, at) == 0,
{
    let part = parted(digits, at).1;
    lemma_zeros(-at);
    lemma_digits_concat(zeros(-at), digits);
    lemma_digits_bounded(digits);
    lemma_ten_to_positive(digits.len());
    lemma_ten_to_positive((-at - 1) as nat);
    lemma_ten_to_adds((-at) as nat, digits.len());
    let t = ten_to(digits.len());
    let far = ten_to((-at) as nat);
    assert(far == 10 * ten_to((-at - 1) as nat));
    assert(0 * t == 0) by (nonlinear_arith);
    assert(10 * digits_value(digits) <= far * t) by (nonlinear_arith)
        requires
            digits_value(digits) < t,
            far >= 10,
    ;
    assert(part.len() == -at + digits.len());
    lemma_ten_to_positive(part.len());
    lemma_small(digits_value(part), ten_to(part.len()));
}

proof fn lemma_cut_right(digits: Seq<char>, at: int)
    requires
        all_digits(digits),
        at >= digits.len() + 20,
    ensures
        cut(digits, at) == if digits_value(digits) == 0 {
            0
        } else {
            usize::MAX as nat
        },
{
    let more = at - digits.len();
    let (whole, part) = parted(digits, at);
    lemma_zeros(more);
    lemma_digits_concat(digits, zeros(more));
    lemma_ten_to_adds(20, (more - 20) as nat);
    lemma_ten_to_positive((more - 20) as nat);
    assert(ten_to(20) == 100_000_000_000_000_000_000) by {
        reveal_with_fuel(ten_to, 21);
    }
    let v = digits_value(digits);
    let t = ten_to(more as nat);
    assert(t >= 100_000_000_000_000_000_000) by (nonlinear_arith)
        requires
            t == 100_000_000_000_000_000_000 * ten_to((more - 20) as nat),
            ten_to((more - 20) as nat) >= 1,
    ;
    assert(part =~= Seq::<char>::empty());
    assert(ten_to(0) == 1);
    assert(digits_value(part) == 0);
    if v == 0 {
        assert(0 * t == 0) by (nonlinear_arith);
        lemma_small(0, 1);
    } else {
        assert(v * t >= t) by (nonlinear_arith)
            requires
                v >= 1,
                t >= 0,
        ;
        lemma_beyond(digits_value(whole), 0, 1);
    }
}

/// The place of a point that is moved from `at`.
pub open spec fn moved(at: int, left: bool, by: int) -> int {
    if left {
        at - by
    } else {
        at + by
    }
}

/// Moves the point of a number and cuts it: `by` places to the left or to the right of
/// where `at` says.
fn cut_moved(digits: &Vec<char>, at: usize, left: bool, by: u128) -> (r: usize)
    requires
        all_digits(digits@),
        at <= digits@.len(),
        by < 0x1_0000_0000_0000_0000_0000,
    ensures
        r == cut(digits@, moved(at as int, left, by as int)),
        by >= 0x100_0000_0000_0000_0000 ==> forall|more: int|
            more >= by ==> r == cut(digits@, #[trigger] moved(at as int, left, more)),
{
    let n: usize = digits.len();
    if left {
        if by > at as u128 {
            proof {
                assert forall|more: int| more >= by implies cut(
                    digits@,
                    #[trigger] moved(at as int, left, more),
                ) == 0 by {
                    lemma_cut_left(digits@, at - more);
                }
                lemma_cut_left(digits@, at - by);
            }
            return 0;
        }
        return cut_near(digits, at - by as usize, 0);
    }
    let target: u128 = at as u128 + by;
    if target <= n as u128 {
        return cut_near(digits, target as usize, 0);
    }
    let beyond: u128 = target - n as u128;
    if beyond >= 20 {
        let zero = only_zeros(digits, 0);
        proof {
            assert(digits@.skip(0) =~= digits@);
            assert forall|more: int| more >= by implies cut(
                digits@,
                #[trigger] moved(at as int, left, more),
            ) == (if zero {
                0nat
            } else {
                usize::MAX as nat
            }) by {
                lemma_cut_right(digits@, at + more);
            }
            lemma_cut_right(digits@, at + by);
        }
        return if zero {
            0
        } else {
            usize::MAX
        };
    }
    cut_near(digits, n, beyond as usize)
}

proof fn lemma_parts_are_digits(m: Seq<char>)
    requires
        is_mantissa(m),
    ensures
        all_digits(mantissa_parts(m).0 + mantissa_parts(m).1),
{
    let (whole, part) = mantissa_parts(m);
    let all = whole + part;
    assert forall|i: int| 0 <= i < all.len() implies is_digit(#[trigger] all[i]) by {
        if i < whole.len() {
            assert(is_digit(whole[i]));
        } else {
            assert(is_digit(part[i - whole.len()]));
        }
    }
}

fn cut_mantissa(m: &str, left: bool, by: u128) -> (r: usize)
    requires
        is_mantissa(m@),
        by < 0x1_0000_0000_0000_0000_0000,
    ensures
        ({
            let (whole, part) = mantissa_parts(m@);
            &&& r == cut(whole + part, moved(whole.len() as int, left, by as int))
            &&& by >= 0x100_0000_0000_0000_0000 ==> forall|more: int|
                more >= by ==> r == cut(
                    whole + part,
                    #[trigger] moved(whole.len() as int, left, more),
                )
        }),
{
    proof {
        lemma_parts_are_digits(m@);
    }
    let (mut digits, mut behind) = match split_once(m, '.') {
        Some((whole, part)) => (chars_of(whole.as_str()), chars_of(part.as_str())),
        None => {
            let none: Vec<char> = Vec::new();
            assert(none@ =~= Seq::<char>::empty());
            (chars_of(m), none)
        },
    };
    let at: usize = digits.len();
    digits.append(&mut behind);
    cut_moved(&digits, at, left, by)
}

fn cut_number(t: &str) -> (r: usize)
    requires
        is_scientific(t@),
    ensures
        r == number_cut(t@),
{
    match split_once(t, 'e') {
        None => cut_mantissa(t, false, 0),
        Some((mantissa, exponent)) => {
            let signs = chars_of(exponent.as_str());
            let left = signs.len() > 0 && signs[0] == '-';
            let digits = without_sign(exponent.as_str());
            let by: u128 = magnitude(&chars_of(digits.as_str()));
            let ghost at = mantissa_parts(mantissa@).0.len() as int;
            assert(moved(at, left, digits_value(digits@) as int) == at + exponent_of(exponent@));
            cut_mantissa(mantissa.as_str(), left, by)
        },
    }
}

/// Reads a count.
pub fn read_count(s: &str) -> (r: Option<usize>)
    ensures
        match r {
            Some(n) => count_read(s@) == Some(n as nat),
            None => count_read(s@) is None,
        },
{
    if !float_text(s) {
        return None;
    }
    let chars = chars_of(s);
    let small = to_lower(s);
    let t = without_sign(small.as_str());
    proof {
        lemma_float_text_is_not_empty(s@);
    }
    if chars[0] == '-' || same(t.as_str(), "nan") {
        return Some(0);
    }
    if same(t.as_str(), "inf") || same(t.as_str(), "infinity") {
        return Some(usize::MAX);
    }
    Some(cut_number(t.as_str()))
}

proof fn lemma_float_text_is_not_empty(s: Seq<char>)
    requires
        is_float_text(s),
    ensures
        s.len() > 0,
{
    reveal_strlit("inf");
    reveal_strlit("infinity");
    reveal_strlit("nan");
    if s.len() == 0 {
        let t = unsigned_part(lowered(s));
        assert(t =~= Seq::<char>::empty());
        lemma_first_index(t, 'e', 0);
        lemma_first_index(t, '.', 0);
    }
}

/// A count is read back as it was written, up to where the doubles are no longer all
/// whole numbers.
pub proof fn written_counts_read_back(n: nat)
    requires
        n < 2 * WHOLE,
        n <= usize::MAX,
    ensures
        count_read(decimal(n)) == Some(n),
{
    decimal_round_trips(n);
    let s = decimal(n);
    reveal_strlit("inf");
    reveal_strlit("infinity");
    reveal_strlit("nan");
    assert forall|j: int| 0 <= j < s.len() implies s[j] != '.' && s[j] != 'e' && s[j] != '+'
        && s[j] != '-' && s[j] != 'i' && s[j] != 'n' by {
        assert(is_digit(s[j]));
    }
    assert(lowered(s) =~= s) by {
        assert forall|j: int| 0 <= j < s.len() implies lowered(s)[j] == s[j] by {
            assert(is_digit(s[j]));
        }
    }
    assert(unsigned_part(s) == s);
    lemma_first_index(s, '.', s.len() as int);
    lemma_first_index(s, 'e', s.len() as int);
    assert(is_number_text(s));
    let none = Seq::<char>::empty();
    assert(s + none =~= s);
    assert(s.take(s.len() as int) =~= s);
    assert(s.skip(s.len() as int) =~= none);
    assert(digits_value(none) == 0);
    assert(ten_to(0) == 1);
    if n < WHOLE {
        lemma_fineness(n);
        let f = 2 * fineness(n);
        assert(1 * f > 1);
    } else {
        assert(stride(n) == 1);
        assert(n % 1 == 0);
    }
    assert(nearest_whole(n, 0, 1) == n);
    assert(parted(s, s.len() as int) == (s, none));
    assert(scientific_parts(s) == (s, 0int));
    assert(mantissa_parts(s) == (s, none));
    assert(number_cut(s) == n);
    assert(s[0] != "inf"@[0] && s[0] != "infinity"@[0] && s[0] != "nan"@[0]);
}

} // verus!
