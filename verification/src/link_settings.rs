//! What the link emulator is told of a cell's link settings.
use crate::matrix::{ValueText, or_else, value_in};
use crate::netem::{
    in_unit, knob_args, link_flags_text, link_value_fits, netem_of,
    only_tested_values_are_handed_on, setting, tc_args, units_of,
};
use crate::text::{is_digit, lower, lowered, numbers_begin_with_digits, unsigned_of, unsigned_part};
use vstd::prelude::*;

verus! {

/// Whether `v` stands directly behind `word`.
pub open spec fn said_behind(args: Seq<Seq<char>>, word: Seq<char>, v: Seq<char>) -> bool {
    exists|k: int| 0 <= k < args.len() - 1 && #[trigger] args[k] == word && args[k + 1] == v
}

/// A value that was tested begins with no small letter, so that it is never taken for a
/// word.
proof fn lemma_values_are_no_words(v: Seq<char>, units: Seq<Seq<char>>)
    requires
        link_value_fits(v, units),
    ensures
        v.len() > 0,
        !('a' <= v[0] <= 'z'),
{
    let k = choose|k: int| 0 <= k < units.len() && in_unit(v, #[trigger] units[k]);
    let unit = units[k];
    if unit.len() == 0 {
        let body = if v[0] == '+' {
            v.drop_first()
        } else {
            v
        };
        assert(unsigned_of(v, u64::MAX as int) is Some);
        if v.len() > 0 && v[0] != '+' {
            assert(is_digit(v[0]));
        }
    } else {
        let number = v.subrange(0, v.len() - unit.len());
        let small = lowered(number);
        let t = unsigned_part(small);
        numbers_begin_with_digits(t);
        assert(small.len() == number.len());
        assert(small.len() > 0);
        assert(number[0] == v[0]);
        assert(small[0] == lower(v[0]));
        if small[0] == '+' || small[0] == '-' {
        } else {
            assert(t[0] == small[0]);
        }
        if 'a' <= v[0] <= 'z' {
            assert(lower(v[0]) == v[0]);
        }
    }
}

/// The arguments in parts, one for each knob.
spec fn parts(cell: Seq<ValueText>) -> Seq<Seq<Seq<char>>> {
    seq![
        seq!["limit"@, or_else(setting(cell, "link-limit"@), "100000"@)],
        knob_args(cell, "link-delay"@, "delay"@) + match setting(cell, "link-jitter"@) {
            Some(v) => seq![v],
            None => Seq::empty(),
        },
        knob_args(cell, "link-loss"@, "loss"@),
        knob_args(cell, "link-rate"@, "rate"@),
        knob_args(cell, "link-reorder"@, "reorder"@),
        knob_args(cell, "link-duplicate"@, "duplicate"@),
        knob_args(cell, "link-corrupt"@, "corrupt"@),
    ]
}

proof fn lemma_parts(cell: Seq<ValueText>)
    ensures
        ({
            let p = parts(cell);
            tc_args(cell) == p[0] + p[1] + p[2] + p[3] + p[4] + p[5] + p[6]
        }),
{
    let p = parts(cell);
    assert(tc_args(cell) =~= p[0] + p[1] + p[2] + p[3] + p[4] + p[5] + p[6]);
}

proof fn lemma_behind(a: Seq<Seq<char>>, b: Seq<Seq<char>>, word: Seq<char>, v: Seq<char>)
    ensures
        said_behind(a, word, v) ==> said_behind(a + b, word, v),
        said_behind(b, word, v) ==> said_behind(a + b, word, v),
{
    let all = a + b;
    if said_behind(a, word, v) {
        let k = choose|k: int| 0 <= k < a.len() - 1 && #[trigger] a[k] == word && a[k + 1] == v;
        assert(all[k] == word && all[k + 1] == v);
    }
    if said_behind(b, word, v) {
        let k = choose|k: int| 0 <= k < b.len() - 1 && #[trigger] b[k] == word && b[k + 1] == v;
        assert(all[a.len() + k] == word && all[a.len() + k + 1] == v);
    }
}

proof fn lemma_knob_says(cell: Seq<ValueText>, flag: Seq<char>, word: Seq<char>)
    requires
        setting(cell, flag) is Some,
    ensures
        said_behind(knob_args(cell, flag, word), word, setting(cell, flag)->0),
{
    let a = knob_args(cell, flag, word);
    assert(a[0] == word && a[1] == setting(cell, flag)->0);
}

/// Whatever a cell asks of its link, the emulator is told under the setting's own name:
/// the value of `link-loss` stands behind `loss`, that of `link-rate` behind `rate`, and
/// so on; the delay is followed by the jitter; and the backlog comes first, raised where
/// the cell does not set it.
pub proof fn settings_are_told_under_their_names(cell: Seq<ValueText>)
    requires
        netem_of(cell) matches Ok(Some(_)),
    ensures
        ({
            let args = (netem_of(cell)->Ok_0)->0;
            &&& args.len() >= 2
            &&& args[0] == "limit"@
            &&& setting(cell, "link-limit"@) is Some ==> Some(args[1]) == setting(
                cell,
                "link-limit"@,
            )
            &&& setting(cell, "link-limit"@) is None ==> args[1] == "100000"@
            &&& setting(cell, "link-delay"@) is Some ==> said_behind(
                args,
                "delay"@,
                setting(cell, "link-delay"@)->0,
            )
            &&& setting(cell, "link-jitter"@) is Some ==> said_behind(
                args,
                setting(cell, "link-delay"@)->0,
                setting(cell, "link-jitter"@)->0,
            )
            &&& setting(cell, "link-loss"@) is Some ==> said_behind(
                args,
                "loss"@,
                setting(cell, "link-loss"@)->0,
            )
            &&& setting(cell, "link-rate"@) is Some ==> said_behind(
                args,
                "rate"@,
                setting(cell, "link-rate"@)->0,
            )
            &&& setting(cell, "link-reorder"@) is Some ==> said_behind(
                args,
                "reorder"@,
                setting(cell, "link-reorder"@)->0,
            )
            &&& setting(cell, "link-duplicate"@) is Some ==> said_behind(
                args,
                "duplicate"@,
                setting(cell, "link-duplicate"@)->0,
            )
            &&& setting(cell, "link-corrupt"@) is Some ==> said_behind(
                args,
                "corrupt"@,
                setting(cell, "link-corrupt"@)->0,
            )
        }),
{
    let args = (netem_of(cell)->Ok_0)->0;
    let p = parts(cell);
    lemma_parts(cell);
    assert(args[0] == p[0][0] && args[1] == p[0][1]);
    lemma_delay_says(cell);
    if setting(cell, "link-delay"@) is Some {
        lemma_reaches(cell, 1, "delay"@, setting(cell, "link-delay"@)->0);
    }
    if setting(cell, "link-jitter"@) is Some {
        lemma_reaches(
            cell,
            1,
            setting(cell, "link-delay"@)->0,
            setting(cell, "link-jitter"@)->0,
        );
    }
    if setting(cell, "link-loss"@) is Some {
        lemma_knob_says(cell, "link-loss"@, "loss"@);
        lemma_reaches(cell, 2, "loss"@, setting(cell, "link-loss"@)->0);
    }
    if setting(cell, "link-rate"@) is Some {
        lemma_knob_says(cell, "link-rate"@, "rate"@);
        lemma_reaches(cell, 3, "rate"@, setting(cell, "link-rate"@)->0);
    }
    if setting(cell, "link-reorder"@) is Some {
        lemma_knob_says(cell, "link-reorder"@, "reorder"@);
        lemma_reaches(cell, 4, "reorder"@, setting(cell, "link-reorder"@)->0);
    }
    if setting(cell, "link-duplicate"@) is Some {
        lemma_knob_says(cell, "link-duplicate"@, "duplicate"@);
        lemma_reaches(cell, 5, "duplicate"@, setting(cell, "link-duplicate"@)->0);
    }
    if setting(cell, "link-corrupt"@) is Some {
        lemma_knob_says(cell, "link-corrupt"@, "corrupt"@);
        lemma_reaches(cell, 6, "corrupt"@, setting(cell, "link-corrupt"@)->0);
    }
}

proof fn lemma_delay_says(cell: Seq<ValueText>)
    ensures
        setting(cell, "link-delay"@) is Some ==> said_behind(
            parts(cell)[1],
            "delay"@,
            setting(cell, "link-delay"@)->0,
        ),
        setting(cell, "link-delay"@) is Some && setting(cell, "link-jitter"@) is Some
            ==> said_behind(
            parts(cell)[1],
            setting(cell, "link-delay"@)->0,
            setting(cell, "link-jitter"@)->0,
        ),
{
    let a = parts(cell)[1];
    if setting(cell, "link-delay"@) is Some {
        assert(a[0] == "delay"@ && a[1] == setting(cell, "link-delay"@)->0);
        if setting(cell, "link-jitter"@) is Some {
            assert(a[2] == setting(cell, "link-jitter"@)->0);
        }
    }
}

proof fn lemma_reaches(cell: Seq<ValueText>, at: int, word: Seq<char>, v: Seq<char>)
    requires
        0 <= at < 7,
        said_behind(parts(cell)[at], word, v),
    ensures
        said_behind(tc_args(cell), word, v),
{
    let p = parts(cell);
    lemma_parts(cell);
    let a = p[0] + p[1];
    let b = a + p[2];
    let c = b + p[3];
    let d = c + p[4];
    let e = d + p[5];
    lemma_behind(p[0], p[1], word, v);
    lemma_behind(a, p[2], word, v);
    lemma_behind(b, p[3], word, v);
    lemma_behind(c, p[4], word, v);
    lemma_behind(d, p[5], word, v);
    lemma_behind(e, p[6], word, v);
}

/// A word of the emulator's is used only where the cell sets what it names.
pub proof fn only_what_is_set_is_told(cell: Seq<ValueText>)
    requires
        netem_of(cell) matches Ok(Some(_)),
    ensures
        ({
            let args = (netem_of(cell)->Ok_0)->0;
            &&& args.contains("delay"@) ==> setting(cell, "link-delay"@) is Some
            &&& args.contains("loss"@) ==> setting(cell, "link-loss"@) is Some
            &&& args.contains("rate"@) ==> setting(cell, "link-rate"@) is Some
            &&& args.contains("reorder"@) ==> setting(cell, "link-reorder"@) is Some
            &&& args.contains("duplicate"@) ==> setting(cell, "link-duplicate"@) is Some
            &&& args.contains("corrupt"@) ==> setting(cell, "link-corrupt"@) is Some
        }),
{
    lemma_words();
    lemma_flags();
    lemma_word_is_used(cell, "delay"@, 1);
    lemma_word_is_used(cell, "loss"@, 2);
    lemma_word_is_used(cell, "rate"@, 3);
    lemma_word_is_used(cell, "reorder"@, 4);
    lemma_word_is_used(cell, "duplicate"@, 5);
    lemma_word_is_used(cell, "corrupt"@, 6);
}

/// The emulator's words, each under its place among the parts.
spec fn word_at(i: int) -> Seq<char> {
    if i == 0 {
        "limit"@
    } else if i == 1 {
        "delay"@
    } else if i == 2 {
        "loss"@
    } else if i == 3 {
        "rate"@
    } else if i == 4 {
        "reorder"@
    } else if i == 5 {
        "duplicate"@
    } else {
        "corrupt"@
    }
}

proof fn lemma_words()
    ensures
        forall|i: int, j: int|
            0 <= i < 7 && 0 <= j < 7 && i != j ==> #[trigger] word_at(i) != #[trigger] word_at(j),
        forall|i: int|
            0 <= i < 7 ==> (#[trigger] word_at(i)).len() > 0 && 'a' <= word_at(i)[0] <= 'z',
{
    reveal_strlit("limit");
    reveal_strlit("delay");
    reveal_strlit("loss");
    reveal_strlit("rate");
    reveal_strlit("reorder");
    reveal_strlit("duplicate");
    reveal_strlit("corrupt");
    assert("limit"@[0] == 'l' && "loss"@[0] == 'l' && "limit"@.len() == 5 && "loss"@.len() == 4);
    assert("delay"@[0] == 'd' && "duplicate"@[0] == 'd' && "delay"@.len() == 5
        && "duplicate"@.len() == 9);
    assert("rate"@[0] == 'r' && "reorder"@[0] == 'r' && "rate"@.len() == 4 && "reorder"@.len() == 7);
    assert("corrupt"@[0] == 'c');
}

proof fn lemma_flags()
    ensures
        link_flags_text().contains("link-delay"@),
        link_flags_text().contains("link-jitter"@),
        link_flags_text().contains("link-loss"@),
        link_flags_text().contains("link-rate"@),
        link_flags_text().contains("link-reorder"@),
        link_flags_text().contains("link-duplicate"@),
        link_flags_text().contains("link-corrupt"@),
        link_flags_text().contains("link-limit"@),
{
    let all = link_flags_text();
    assert(all[0] == "link-delay"@ && all[1] == "link-jitter"@ && all[2] == "link-loss"@ && all[3]
        == "link-rate"@ && all[4] == "link-reorder"@ && all[5] == "link-duplicate"@ && all[6]
        == "link-corrupt"@ && all[7] == "link-limit"@);
}

/// What stands in a part: its own word, or a value that was tested.
proof fn lemma_part_holds(cell: Seq<ValueText>, at: int, k: int)
    requires
        netem_of(cell) is Ok,
        0 <= at < 7,
        0 <= k < parts(cell)[at].len(),
    ensures
        parts(cell)[at][k] == word_at(at) || (parts(cell)[at][k].len() > 0 && !('a'
            <= parts(cell)[at][k][0] <= 'z')),
{
    lemma_flags();
    lemma_tested(cell, "link-delay"@);
    lemma_tested(cell, "link-jitter"@);
    lemma_tested(cell, "link-loss"@);
    lemma_tested(cell, "link-rate"@);
    lemma_tested(cell, "link-reorder"@);
    lemma_tested(cell, "link-duplicate"@);
    lemma_tested(cell, "link-corrupt"@);
    lemma_tested(cell, "link-limit"@);
    reveal_strlit("100000");
    assert("100000"@[0] == '1');
}

proof fn lemma_tested(cell: Seq<ValueText>, flag: Seq<char>)
    requires
        netem_of(cell) is Ok,
        link_flags_text().contains(flag),
    ensures
        setting(cell, flag) is Some ==> setting(cell, flag)->0.len() > 0 && !('a' <= setting(
            cell,
            flag,
        )->0[0] <= 'z'),
{
    if setting(cell, flag) is Some {
        only_tested_values_are_handed_on(cell, flag);
        lemma_values_are_no_words(setting(cell, flag)->0, units_of(flag));
    }
}

proof fn lemma_found_in_part(cell: Seq<ValueText>, word: Seq<char>) -> (at: (int, int))
    requires
        tc_args(cell).contains(word),
    ensures
        0 <= at.0 < 7,
        0 <= at.1 < parts(cell)[at.0].len(),
        parts(cell)[at.0][at.1] == word,
{
    let p = parts(cell);
    lemma_parts(cell);
    let all = tc_args(cell);
    let i = all.index_of(word);
    let n0 = p[0].len() as int;
    let n1 = n0 + p[1].len();
    let n2 = n1 + p[2].len();
    let n3 = n2 + p[3].len();
    let n4 = n3 + p[4].len();
    let n5 = n4 + p[5].len();
    if i < n0 {
        (0, i)
    } else if i < n1 {
        (1, i - n0)
    } else if i < n2 {
        (2, i - n1)
    } else if i < n3 {
        (3, i - n2)
    } else if i < n4 {
        (4, i - n3)
    } else if i < n5 {
        (5, i - n4)
    } else {
        (6, i - n5)
    }
}

proof fn lemma_word_is_used(cell: Seq<ValueText>, word: Seq<char>, at: int)
    requires
        netem_of(cell) matches Ok(Some(_)),
        1 <= at < 7,
        word == word_at(at),
    ensures
        tc_args(cell).contains(word) ==> parts(cell)[at].len() > 0,
        at == 1 && tc_args(cell).contains(word) ==> setting(cell, "link-delay"@) is Some,
{
    if tc_args(cell).contains(word) {
        lemma_words();
        let (a, k) = lemma_found_in_part(cell, word);
        lemma_part_holds(cell, a, k);
        if a != at {
            assert(parts(cell)[a][k] != word_at(a));
            assert(word_at(at) != word_at(a));
        }
    }
}

/// A cell gets an emulated link exactly where it sets something besides the backlog, and
/// a jitter without a delay is refused.
pub proof fn links_are_emulated_where_they_are_set(cell: Seq<ValueText>)
    ensures
        netem_of(cell) matches Ok(None) ==> setting(cell, "link-delay"@) is None && setting(
            cell,
            "link-jitter"@,
        ) is None && setting(cell, "link-loss"@) is None && setting(cell, "link-rate"@) is None
            && setting(cell, "link-reorder"@) is None && setting(cell, "link-duplicate"@) is None
            && setting(cell, "link-corrupt"@) is None,
        netem_of(cell) matches Ok(Some(_)) ==> setting(cell, "link-delay"@) is Some || (setting(
            cell,
            "link-jitter"@,
        ) is None && (setting(cell, "link-loss"@) is Some || setting(cell, "link-rate"@) is Some
            || setting(cell, "link-reorder"@) is Some || setting(cell, "link-duplicate"@) is Some
            || setting(cell, "link-corrupt"@) is Some)),
{
}

/// A setting is what the cell gives under that axis, unless that is nothing or `off`.
pub proof fn settings_are_what_cells_give(cell: Seq<ValueText>, flag: Seq<char>)
    ensures
        setting(cell, flag) is Some <==> value_in(cell, flag, None) is Some && value_in(
            cell,
            flag,
            None,
        )->0.len() > 0 && value_in(cell, flag, None)->0 != "off"@,
        setting(cell, flag) is Some ==> setting(cell, flag) == value_in(cell, flag, None),
{
}

} // verus!
