//! What a scorecard tells of the two files that it compares.
use crate::compare::{bullet_list, bullets, short_label, unmatched_text};
use crate::scorecard::{
    Capacity, CellComparison, CellMatch, SpreadText, card_rows, change_text, frontier_text,
    markdown_cost_parts, markdown_cost_text, markdown_opening_parts, markdown_opening_text,
    markdown_recovery_parts, markdown_recovery_text, markdown_row, markdown_shares_parts,
    markdown_shares_text, reps_text, scorecard, short_reps, spread_text, table_end_parts,
    table_end_text, table_opening_parts, table_opening_text, table_row, table_start_parts,
    table_start_text, warning_text, y_n, yes_no,
};
use crate::text::{decimal, left_in, right_in, run_together, texts};
use vstd::prelude::*;

verus! {

/// A text holds a piece.
pub open spec fn holds(text: Seq<char>, piece: Seq<char>) -> bool {
    exists|before: Seq<char>, rest: Seq<char>| text == #[trigger] (before + piece + rest)
}

proof fn lemma_splits(a: Seq<Seq<char>>, b: Seq<Seq<char>>)
    ensures
        run_together(a + b) == run_together(a) + run_together(b),
    decreases b.len(),
{
    if b.len() == 0 {
        assert(a + b =~= a);
        assert(run_together(a) + run_together(b) =~= run_together(a));
    } else {
        assert((a + b).drop_last() =~= a + b.drop_last());
        lemma_splits(a, b.drop_last());
        assert(run_together(a) + run_together(b.drop_last()) + b.last() =~= run_together(a) + (
        run_together(b.drop_last()) + b.last()));
    }
}

proof fn lemma_push(a: Seq<Seq<char>>, x: Seq<char>)
    ensures
        run_together(a.push(x)) == run_together(a) + x,
{
    assert(a.push(x).drop_last() =~= a);
}

proof fn lemma_holds(parts: Seq<Seq<char>>, i: int, j: int)
    requires
        0 <= i <= j <= parts.len(),
    ensures
        holds(run_together(parts), run_together(parts.subrange(i, j))),
{
    let a = parts.take(i);
    let m = parts.subrange(i, j);
    let b = parts.skip(j);
    assert(parts =~= a + m + b);
    lemma_splits(a + m, b);
    lemma_splits(a, m);
    assert(run_together(parts) == run_together(a) + run_together(m) + run_together(b));
}

proof fn lemma_three(a: Seq<char>, b: Seq<char>, c: Seq<char>)
    ensures
        holds(a + b + c, a),
        holds(a + b + c, b),
        holds(a + b + c, c),
{
    let none = Seq::<char>::empty();
    assert(a + b + c =~= none + a + (b + c));
    assert(a + b + c =~= (a + b) + c + none);
}

proof fn lemma_four(a: Seq<char>, b: Seq<char>, c: Seq<char>, d: Seq<char>)
    ensures
        holds(a + b + c + d, a),
        holds(a + b + c + d, b),
        holds(a + b + c + d, c),
        holds(a + b + c + d, d),
{
    let none = Seq::<char>::empty();
    lemma_three(a, b, c);
    lemma_holds_within(a + b + c, a, none, d);
    lemma_holds_within(a + b + c, b, none, d);
    lemma_holds_within(a + b + c, c, none, d);
    assert(none + (a + b + c) + d =~= a + b + c + d);
    assert(a + b + c + d =~= (a + b + c) + d + none);
}

/// A text that holds a piece holds it with more text around it.
pub proof fn lemma_holds_within(text: Seq<char>, piece: Seq<char>, a: Seq<char>, b: Seq<char>)
    requires
        holds(text, piece),
    ensures
        holds(a + text + b, piece),
{
    let (before, rest) = choose|before: Seq<char>, rest: Seq<char>|
        text == #[trigger] (before + piece + rest);
    assert(a + text + b =~= (a + before) + piece + (rest + b));
}

/// What was offered, what was good and what was delivered are told in this order, each from
/// the base to the head, and then whether each side was clean.
pub proof fn shares_go_from_base_to_head(c: CellComparison)
    ensures
        holds(
            markdown_shares_text(c),
            " | "@
                + c.base.offer@
                + "% → "@
                + c.head.offer@
                + "% | "@
                + c.base.good@
                + "% → "@
                + c.head.good@
                + "% | "@,
        ),
        holds(
            markdown_shares_text(c),
            "% | "@
                + c.base.delivery@
                + "% → "@
                + c.head.delivery@
                + "% | "@
                + yes_no(c.base.clean)
                + "/"@
                + yes_no(c.head.clean)
                + " | "@,
        ),
{
    let parts = markdown_shares_parts(c);
    let q0_0 = Seq::<Seq<char>>::empty();
    let q0_1 = q0_0.push(parts[0]);
    lemma_push(q0_0, parts[0]);
    let q0_2 = q0_1.push(parts[1]);
    lemma_push(q0_1, parts[1]);
    let q0_3 = q0_2.push(parts[2]);
    lemma_push(q0_2, parts[2]);
    let q0_4 = q0_3.push(parts[3]);
    lemma_push(q0_3, parts[3]);
    let q0_5 = q0_4.push(parts[4]);
    lemma_push(q0_4, parts[4]);
    let q0_6 = q0_5.push(parts[5]);
    lemma_push(q0_5, parts[5]);
    let q0_7 = q0_6.push(parts[6]);
    lemma_push(q0_6, parts[6]);
    let q0_8 = q0_7.push(parts[7]);
    lemma_push(q0_7, parts[7]);
    let q0_9 = q0_8.push(parts[8]);
    lemma_push(q0_8, parts[8]);
    assert(run_together(q0_1) =~= parts[0]);
    assert(parts[0] == " | "@);
    assert(parts[1] == c.base.offer@);
    assert(parts[2] == "% → "@);
    assert(parts[3] == c.head.offer@);
    assert(parts[4] == "% | "@);
    assert(parts[5] == c.base.good@);
    assert(parts[6] == "% → "@);
    assert(parts[7] == c.head.good@);
    assert(parts[8] == "% | "@);
    assert(q0_9 =~= parts.subrange(0, 9));
    lemma_holds(parts, 0, 9);
    let q1_0 = Seq::<Seq<char>>::empty();
    let q1_1 = q1_0.push(parts[8]);
    lemma_push(q1_0, parts[8]);
    let q1_2 = q1_1.push(parts[9]);
    lemma_push(q1_1, parts[9]);
    let q1_3 = q1_2.push(parts[10]);
    lemma_push(q1_2, parts[10]);
    let q1_4 = q1_3.push(parts[11]);
    lemma_push(q1_3, parts[11]);
    let q1_5 = q1_4.push(parts[12]);
    lemma_push(q1_4, parts[12]);
    let q1_6 = q1_5.push(parts[13]);
    lemma_push(q1_5, parts[13]);
    let q1_7 = q1_6.push(parts[14]);
    lemma_push(q1_6, parts[14]);
    let q1_8 = q1_7.push(parts[15]);
    lemma_push(q1_7, parts[15]);
    let q1_9 = q1_8.push(parts[16]);
    lemma_push(q1_8, parts[16]);
    assert(run_together(q1_1) =~= parts[8]);
    assert(parts[8] == "% | "@);
    assert(parts[9] == c.base.delivery@);
    assert(parts[10] == "% → "@);
    assert(parts[11] == c.head.delivery@);
    assert(parts[12] == "% | "@);
    assert(parts[13] == yes_no(c.base.clean));
    assert(parts[14] == "/"@);
    assert(parts[15] == yes_no(c.head.clean));
    assert(parts[16] == " | "@);
    assert(q1_9 =~= parts.subrange(8, 17));
    lemma_holds(parts, 8, 17);
}

/// Processor time is told from the base to the head with the change, over all, for callers
/// and for listeners.
pub proof fn costs_go_from_base_to_head(c: CellComparison)
    ensures
        holds(
            markdown_cost_text(c),
            spread_text(c.base.cpu_per_gbit)
                + " → "@
                + spread_text(c.head.cpu_per_gbit)
                + " (**"@
                + c.cpu_per_gbit_delta@
                + "%**, overlap: "@
                + yes_no(c.overlap)
                + ") | "@,
        ),
        holds(
            markdown_cost_text(c),
            ") | "@
                + c.base.caller_cpu@
                + " → "@
                + c.head.caller_cpu@
                + " ("@
                + c.caller_cpu_delta@
                + "%) | "@,
        ),
        holds(
            markdown_cost_text(c),
            "%) | "@
                + c.base.listener_cpu@
                + " → "@
                + c.head.listener_cpu@
                + " ("@
                + c.listener_cpu_delta@
                + "%) | "@,
        ),
{
    let parts = markdown_cost_parts(c);
    let q0_0 = Seq::<Seq<char>>::empty();
    let q0_1 = q0_0.push(parts[0]);
    lemma_push(q0_0, parts[0]);
    let q0_2 = q0_1.push(parts[1]);
    lemma_push(q0_1, parts[1]);
    let q0_3 = q0_2.push(parts[2]);
    lemma_push(q0_2, parts[2]);
    let q0_4 = q0_3.push(parts[3]);
    lemma_push(q0_3, parts[3]);
    let q0_5 = q0_4.push(parts[4]);
    lemma_push(q0_4, parts[4]);
    let q0_6 = q0_5.push(parts[5]);
    lemma_push(q0_5, parts[5]);
    let q0_7 = q0_6.push(parts[6]);
    lemma_push(q0_6, parts[6]);
    let q0_8 = q0_7.push(parts[7]);
    lemma_push(q0_7, parts[7]);
    assert(run_together(q0_1) =~= parts[0]);
    assert(parts[0] == spread_text(c.base.cpu_per_gbit));
    assert(parts[1] == " → "@);
    assert(parts[2] == spread_text(c.head.cpu_per_gbit));
    assert(parts[3] == " (**"@);
    assert(parts[4] == c.cpu_per_gbit_delta@);
    assert(parts[5] == "%**, overlap: "@);
    assert(parts[6] == yes_no(c.overlap));
    assert(parts[7] == ") | "@);
    assert(q0_8 =~= parts.subrange(0, 8));
    lemma_holds(parts, 0, 8);
    let q1_0 = Seq::<Seq<char>>::empty();
    let q1_1 = q1_0.push(parts[7]);
    lemma_push(q1_0, parts[7]);
    let q1_2 = q1_1.push(parts[8]);
    lemma_push(q1_1, parts[8]);
    let q1_3 = q1_2.push(parts[9]);
    lemma_push(q1_2, parts[9]);
    let q1_4 = q1_3.push(parts[10]);
    lemma_push(q1_3, parts[10]);
    let q1_5 = q1_4.push(parts[11]);
    lemma_push(q1_4, parts[11]);
    let q1_6 = q1_5.push(parts[12]);
    lemma_push(q1_5, parts[12]);
    let q1_7 = q1_6.push(parts[13]);
    lemma_push(q1_6, parts[13]);
    assert(run_together(q1_1) =~= parts[7]);
    assert(parts[7] == ") | "@);
    assert(parts[8] == c.base.caller_cpu@);
    assert(parts[9] == " → "@);
    assert(parts[10] == c.head.caller_cpu@);
    assert(parts[11] == " ("@);
    assert(parts[12] == c.caller_cpu_delta@);
    assert(parts[13] == "%) | "@);
    assert(q1_7 =~= parts.subrange(7, 14));
    lemma_holds(parts, 7, 14);
    let q2_0 = Seq::<Seq<char>>::empty();
    let q2_1 = q2_0.push(parts[13]);
    lemma_push(q2_0, parts[13]);
    let q2_2 = q2_1.push(parts[14]);
    lemma_push(q2_1, parts[14]);
    let q2_3 = q2_2.push(parts[15]);
    lemma_push(q2_2, parts[15]);
    let q2_4 = q2_3.push(parts[16]);
    lemma_push(q2_3, parts[16]);
    let q2_5 = q2_4.push(parts[17]);
    lemma_push(q2_4, parts[17]);
    let q2_6 = q2_5.push(parts[18]);
    lemma_push(q2_5, parts[18]);
    let q2_7 = q2_6.push(parts[19]);
    lemma_push(q2_6, parts[19]);
    assert(run_together(q2_1) =~= parts[13]);
    assert(parts[13] == "%) | "@);
    assert(parts[14] == c.base.listener_cpu@);
    assert(parts[15] == " → "@);
    assert(parts[16] == c.head.listener_cpu@);
    assert(parts[17] == " ("@);
    assert(parts[18] == c.listener_cpu_delta@);
    assert(parts[19] == "%) | "@);
    assert(q2_7 =~= parts.subrange(13, 20));
    lemma_holds(parts, 13, 20);
}

/// Memory is told for callers and for listeners from the base to the head with the change,
/// and what was sent again, lost and doubled, and the delay, from the base to the head.
pub proof fn memory_and_recovery_go_from_base_to_head(c: CellComparison)
    ensures
        holds(
            markdown_recovery_text(c),
            "C: "@
                + c.base.caller_rss@
                + "→"@
                + c.head.caller_rss@
                + " ("@
                + c.caller_rss_delta@
                + "%), L: "@,
        ),
        holds(
            markdown_recovery_text(c),
            "%), L: "@
                + c.base.listener_rss@
                + "→"@
                + c.head.listener_rss@
                + " ("@
                + c.listener_rss_delta@
                + "%) | Retx: "@,
        ),
        holds(
            markdown_recovery_text(c),
            "%) | Retx: "@
                + c.base.retransmits@
                + "→"@
                + c.head.retransmits@,
        ),
        holds(
            markdown_recovery_text(c),
            ", Lost: "@
                + c.base.lost@
                + "→"@
                + c.head.lost@,
        ),
        holds(
            markdown_recovery_text(c),
            ", Dup: "@
                + c.base.duplicates@
                + "→"@
                + c.head.duplicates@,
        ),
        holds(
            markdown_recovery_text(c),
            " | "@
                + c.base.rtt@
                + " → "@
                + c.head.rtt@
                + " |\n"@,
        ),
{
    let parts = markdown_recovery_parts(c);
    let q0_0 = Seq::<Seq<char>>::empty();
    let q0_1 = q0_0.push(parts[0]);
    lemma_push(q0_0, parts[0]);
    let q0_2 = q0_1.push(parts[1]);
    lemma_push(q0_1, parts[1]);
    let q0_3 = q0_2.push(parts[2]);
    lemma_push(q0_2, parts[2]);
    let q0_4 = q0_3.push(parts[3]);
    lemma_push(q0_3, parts[3]);
    let q0_5 = q0_4.push(parts[4]);
    lemma_push(q0_4, parts[4]);
    let q0_6 = q0_5.push(parts[5]);
    lemma_push(q0_5, parts[5]);
    let q0_7 = q0_6.push(parts[6]);
    lemma_push(q0_6, parts[6]);
    assert(run_together(q0_1) =~= parts[0]);
    assert(parts[0] == "C: "@);
    assert(parts[1] == c.base.caller_rss@);
    assert(parts[2] == "→"@);
    assert(parts[3] == c.head.caller_rss@);
    assert(parts[4] == " ("@);
    assert(parts[5] == c.caller_rss_delta@);
    assert(parts[6] == "%), L: "@);
    assert(q0_7 =~= parts.subrange(0, 7));
    lemma_holds(parts, 0, 7);
    let q1_0 = Seq::<Seq<char>>::empty();
    let q1_1 = q1_0.push(parts[6]);
    lemma_push(q1_0, parts[6]);
    let q1_2 = q1_1.push(parts[7]);
    lemma_push(q1_1, parts[7]);
    let q1_3 = q1_2.push(parts[8]);
    lemma_push(q1_2, parts[8]);
    let q1_4 = q1_3.push(parts[9]);
    lemma_push(q1_3, parts[9]);
    let q1_5 = q1_4.push(parts[10]);
    lemma_push(q1_4, parts[10]);
    let q1_6 = q1_5.push(parts[11]);
    lemma_push(q1_5, parts[11]);
    let q1_7 = q1_6.push(parts[12]);
    lemma_push(q1_6, parts[12]);
    assert(run_together(q1_1) =~= parts[6]);
    assert(parts[6] == "%), L: "@);
    assert(parts[7] == c.base.listener_rss@);
    assert(parts[8] == "→"@);
    assert(parts[9] == c.head.listener_rss@);
    assert(parts[10] == " ("@);
    assert(parts[11] == c.listener_rss_delta@);
    assert(parts[12] == "%) | Retx: "@);
    assert(q1_7 =~= parts.subrange(6, 13));
    lemma_holds(parts, 6, 13);
    let q2_0 = Seq::<Seq<char>>::empty();
    let q2_1 = q2_0.push(parts[12]);
    lemma_push(q2_0, parts[12]);
    let q2_2 = q2_1.push(parts[13]);
    lemma_push(q2_1, parts[13]);
    let q2_3 = q2_2.push(parts[14]);
    lemma_push(q2_2, parts[14]);
    let q2_4 = q2_3.push(parts[15]);
    lemma_push(q2_3, parts[15]);
    assert(run_together(q2_1) =~= parts[12]);
    assert(parts[12] == "%) | Retx: "@);
    assert(parts[13] == c.base.retransmits@);
    assert(parts[14] == "→"@);
    assert(parts[15] == c.head.retransmits@);
    assert(q2_4 =~= parts.subrange(12, 16));
    lemma_holds(parts, 12, 16);
    let q3_0 = Seq::<Seq<char>>::empty();
    let q3_1 = q3_0.push(parts[16]);
    lemma_push(q3_0, parts[16]);
    let q3_2 = q3_1.push(parts[17]);
    lemma_push(q3_1, parts[17]);
    let q3_3 = q3_2.push(parts[18]);
    lemma_push(q3_2, parts[18]);
    let q3_4 = q3_3.push(parts[19]);
    lemma_push(q3_3, parts[19]);
    assert(run_together(q3_1) =~= parts[16]);
    assert(parts[16] == ", Lost: "@);
    assert(parts[17] == c.base.lost@);
    assert(parts[18] == "→"@);
    assert(parts[19] == c.head.lost@);
    assert(q3_4 =~= parts.subrange(16, 20));
    lemma_holds(parts, 16, 20);
    let q4_0 = Seq::<Seq<char>>::empty();
    let q4_1 = q4_0.push(parts[20]);
    lemma_push(q4_0, parts[20]);
    let q4_2 = q4_1.push(parts[21]);
    lemma_push(q4_1, parts[21]);
    let q4_3 = q4_2.push(parts[22]);
    lemma_push(q4_2, parts[22]);
    let q4_4 = q4_3.push(parts[23]);
    lemma_push(q4_3, parts[23]);
    assert(run_together(q4_1) =~= parts[20]);
    assert(parts[20] == ", Dup: "@);
    assert(parts[21] == c.base.duplicates@);
    assert(parts[22] == "→"@);
    assert(parts[23] == c.head.duplicates@);
    assert(q4_4 =~= parts.subrange(20, 24));
    lemma_holds(parts, 20, 24);
    let q5_0 = Seq::<Seq<char>>::empty();
    let q5_1 = q5_0.push(parts[24]);
    lemma_push(q5_0, parts[24]);
    let q5_2 = q5_1.push(parts[25]);
    lemma_push(q5_1, parts[25]);
    let q5_3 = q5_2.push(parts[26]);
    lemma_push(q5_2, parts[26]);
    let q5_4 = q5_3.push(parts[27]);
    lemma_push(q5_3, parts[27]);
    let q5_5 = q5_4.push(parts[28]);
    lemma_push(q5_4, parts[28]);
    assert(run_together(q5_1) =~= parts[24]);
    assert(parts[24] == " | "@);
    assert(parts[25] == c.base.rtt@);
    assert(parts[26] == " → "@);
    assert(parts[27] == c.head.rtt@);
    assert(parts[28] == " |\n"@);
    assert(q5_5 =~= parts.subrange(24, 29));
    lemma_holds(parts, 24, 29);
}

/// A row of the table begins with the cell, its repetitions, and what was offered and good
/// from the base to the head.
pub proof fn tables_begin_with_shares(label: Seq<char>, c: CellComparison)
    ensures
        holds(
            table_start_text(label, c),
            left_in(label, 32)
                + " "@
                + right_in(short_reps(c), 7)
                + " "@
                + right_in(change_text(c.base.offer_whole@, c.head.offer_whole@), 11)
                + " "@
                + right_in(change_text(c.base.good_whole@, c.head.good_whole@), 11),
        ),
        holds(
            table_start_text(label, c),
            right_in(change_text(c.base.good_whole@, c.head.good_whole@), 11)
                + " "@
                + right_in(c.head.delivery@, 6)
                + "% "@
                + right_in(y_n(c.base.clean) + "/"@ + y_n(c.head.clean), 7)
                + " "@,
        ),
{
    let parts = table_start_parts(label, c);
    let q0_0 = Seq::<Seq<char>>::empty();
    let q0_1 = q0_0.push(parts[0]);
    lemma_push(q0_0, parts[0]);
    let q0_2 = q0_1.push(parts[1]);
    lemma_push(q0_1, parts[1]);
    let q0_3 = q0_2.push(parts[2]);
    lemma_push(q0_2, parts[2]);
    let q0_4 = q0_3.push(parts[3]);
    lemma_push(q0_3, parts[3]);
    let q0_5 = q0_4.push(parts[4]);
    lemma_push(q0_4, parts[4]);
    let q0_6 = q0_5.push(parts[5]);
    lemma_push(q0_5, parts[5]);
    let q0_7 = q0_6.push(parts[6]);
    lemma_push(q0_6, parts[6]);
    assert(run_together(q0_1) =~= parts[0]);
    assert(parts[0] == left_in(label, 32));
    assert(parts[1] == " "@);
    assert(parts[2] == right_in(short_reps(c), 7));
    assert(parts[3] == " "@);
    assert(parts[4] == right_in(change_text(c.base.offer_whole@, c.head.offer_whole@), 11));
    assert(parts[5] == " "@);
    assert(parts[6] == right_in(change_text(c.base.good_whole@, c.head.good_whole@), 11));
    assert(q0_7 =~= parts.subrange(0, 7));
    lemma_holds(parts, 0, 7);
    let q1_0 = Seq::<Seq<char>>::empty();
    let q1_1 = q1_0.push(parts[6]);
    lemma_push(q1_0, parts[6]);
    let q1_2 = q1_1.push(parts[7]);
    lemma_push(q1_1, parts[7]);
    let q1_3 = q1_2.push(parts[8]);
    lemma_push(q1_2, parts[8]);
    let q1_4 = q1_3.push(parts[9]);
    lemma_push(q1_3, parts[9]);
    let q1_5 = q1_4.push(parts[10]);
    lemma_push(q1_4, parts[10]);
    let q1_6 = q1_5.push(parts[11]);
    lemma_push(q1_5, parts[11]);
    assert(run_together(q1_1) =~= parts[6]);
    assert(parts[6] == right_in(change_text(c.base.good_whole@, c.head.good_whole@), 11));
    assert(parts[7] == " "@);
    assert(parts[8] == right_in(c.head.delivery@, 6));
    assert(parts[9] == "% "@);
    assert(parts[10] == right_in(y_n(c.base.clean) + "/"@ + y_n(c.head.clean), 7));
    assert(parts[11] == " "@);
    assert(q1_6 =~= parts.subrange(6, 12));
    lemma_holds(parts, 6, 12);
}

/// A row of the table ends with the cost of the base, that of the head, the changes, and
/// the memory of the head's callers and listeners.
pub proof fn tables_end_with_costs(c: CellComparison)
    ensures
        holds(
            table_end_text(c),
            right_in(spread_text(c.base.cpu_per_gbit_whole), 17)
                + " "@
                + right_in(spread_text(c.head.cpu_per_gbit_whole), 17)
                + " "@,
        ),
        holds(
            table_end_text(c),
            " "@
                + right_in(c.cpu_per_gbit_delta@, 10)
                + "% "@
                + right_in(yes_no(c.overlap), 7)
                + " "@,
        ),
        holds(
            table_end_text(c),
            " "@
                + right_in(c.caller_cpu_delta@, 9)
                + "% "@
                + right_in(c.listener_cpu_delta@, 9)
                + "% "@,
        ),
        holds(
            table_end_text(c),
            "% "@
                + right_in(c.head.caller_rss@, 4)
                + "/"@
                + left_in(c.head.listener_rss@, 4)
                + "\n"@,
        ),
{
    let parts = table_end_parts(c);
    let q0_0 = Seq::<Seq<char>>::empty();
    let q0_1 = q0_0.push(parts[0]);
    lemma_push(q0_0, parts[0]);
    let q0_2 = q0_1.push(parts[1]);
    lemma_push(q0_1, parts[1]);
    let q0_3 = q0_2.push(parts[2]);
    lemma_push(q0_2, parts[2]);
    let q0_4 = q0_3.push(parts[3]);
    lemma_push(q0_3, parts[3]);
    assert(run_together(q0_1) =~= parts[0]);
    assert(parts[0] == right_in(spread_text(c.base.cpu_per_gbit_whole), 17));
    assert(parts[1] == " "@);
    assert(parts[2] == right_in(spread_text(c.head.cpu_per_gbit_whole), 17));
    assert(parts[3] == " "@);
    assert(q0_4 =~= parts.subrange(0, 4));
    lemma_holds(parts, 0, 4);
    let q1_0 = Seq::<Seq<char>>::empty();
    let q1_1 = q1_0.push(parts[3]);
    lemma_push(q1_0, parts[3]);
    let q1_2 = q1_1.push(parts[4]);
    lemma_push(q1_1, parts[4]);
    let q1_3 = q1_2.push(parts[5]);
    lemma_push(q1_2, parts[5]);
    let q1_4 = q1_3.push(parts[6]);
    lemma_push(q1_3, parts[6]);
    let q1_5 = q1_4.push(parts[7]);
    lemma_push(q1_4, parts[7]);
    assert(run_together(q1_1) =~= parts[3]);
    assert(parts[3] == " "@);
    assert(parts[4] == right_in(c.cpu_per_gbit_delta@, 10));
    assert(parts[5] == "% "@);
    assert(parts[6] == right_in(yes_no(c.overlap), 7));
    assert(parts[7] == " "@);
    assert(q1_5 =~= parts.subrange(3, 8));
    lemma_holds(parts, 3, 8);
    let q2_0 = Seq::<Seq<char>>::empty();
    let q2_1 = q2_0.push(parts[7]);
    lemma_push(q2_0, parts[7]);
    let q2_2 = q2_1.push(parts[8]);
    lemma_push(q2_1, parts[8]);
    let q2_3 = q2_2.push(parts[9]);
    lemma_push(q2_2, parts[9]);
    let q2_4 = q2_3.push(parts[10]);
    lemma_push(q2_3, parts[10]);
    let q2_5 = q2_4.push(parts[11]);
    lemma_push(q2_4, parts[11]);
    assert(run_together(q2_1) =~= parts[7]);
    assert(parts[7] == " "@);
    assert(parts[8] == right_in(c.caller_cpu_delta@, 9));
    assert(parts[9] == "% "@);
    assert(parts[10] == right_in(c.listener_cpu_delta@, 9));
    assert(parts[11] == "% "@);
    assert(q2_5 =~= parts.subrange(7, 12));
    lemma_holds(parts, 7, 12);
    let q3_0 = Seq::<Seq<char>>::empty();
    let q3_1 = q3_0.push(parts[11]);
    lemma_push(q3_0, parts[11]);
    let q3_2 = q3_1.push(parts[12]);
    lemma_push(q3_1, parts[12]);
    let q3_3 = q3_2.push(parts[13]);
    lemma_push(q3_2, parts[13]);
    let q3_4 = q3_3.push(parts[14]);
    lemma_push(q3_3, parts[14]);
    let q3_5 = q3_4.push(parts[15]);
    lemma_push(q3_4, parts[15]);
    assert(run_together(q3_1) =~= parts[11]);
    assert(parts[11] == "% "@);
    assert(parts[12] == right_in(c.head.caller_rss@, 4));
    assert(parts[13] == "/"@);
    assert(parts[14] == left_in(c.head.listener_rss@, 4));
    assert(parts[15] == "\n"@);
    assert(q3_5 =~= parts.subrange(11, 16));
    lemma_holds(parts, 11, 16);
}

/// A scorecard names the file of the base and that of the head, and tells the best clean rate
/// of each with the change.
pub proof fn scorecards_open_with_base_and_head(
    base_path: Seq<char>,
    head_path: Seq<char>,
    base: Capacity,
    head: Capacity,
    delta: Seq<char>,
)
    ensures
        holds(
            markdown_opening_text(base_path, head_path, base, head, delta),
            "`\n- **Head (Post-DSA #61)**: `"@
                + head_path,
        ),
        holds(
            markdown_opening_text(base_path, head_path, base, head, delta),
            base.rate@
                + " Gbit/s** ("@
                + frontier_text(base)
                + ") | **"@
                + head.rate@
                + " Gbit/s** ("@
                + frontier_text(head)
                + ") | **"@
                + delta,
        ),
{
    let parts = markdown_opening_parts(base_path, head_path, base, head, delta);
    let q0_0 = Seq::<Seq<char>>::empty();
    let q0_1 = q0_0.push(parts[2]);
    lemma_push(q0_0, parts[2]);
    let q0_2 = q0_1.push(parts[3]);
    lemma_push(q0_1, parts[3]);
    assert(run_together(q0_1) =~= parts[2]);
    assert(parts[2] == "`\n- **Head (Post-DSA #61)**: `"@);
    assert(parts[3] == head_path);
    assert(q0_2 =~= parts.subrange(2, 4));
    lemma_holds(parts, 2, 4);
    let q1_0 = Seq::<Seq<char>>::empty();
    let q1_1 = q1_0.push(parts[5]);
    lemma_push(q1_0, parts[5]);
    let q1_2 = q1_1.push(parts[6]);
    lemma_push(q1_1, parts[6]);
    let q1_3 = q1_2.push(parts[7]);
    lemma_push(q1_2, parts[7]);
    let q1_4 = q1_3.push(parts[8]);
    lemma_push(q1_3, parts[8]);
    let q1_5 = q1_4.push(parts[9]);
    lemma_push(q1_4, parts[9]);
    let q1_6 = q1_5.push(parts[10]);
    lemma_push(q1_5, parts[10]);
    let q1_7 = q1_6.push(parts[11]);
    lemma_push(q1_6, parts[11]);
    let q1_8 = q1_7.push(parts[12]);
    lemma_push(q1_7, parts[12]);
    let q1_9 = q1_8.push(parts[13]);
    lemma_push(q1_8, parts[13]);
    assert(run_together(q1_1) =~= parts[5]);
    assert(parts[5] == base.rate@);
    assert(parts[6] == " Gbit/s** ("@);
    assert(parts[7] == frontier_text(base));
    assert(parts[8] == ") | **"@);
    assert(parts[9] == head.rate@);
    assert(parts[10] == " Gbit/s** ("@);
    assert(parts[11] == frontier_text(head));
    assert(parts[12] == ") | **"@);
    assert(parts[13] == delta);
    assert(q1_9 =~= parts.subrange(5, 14));
    lemma_holds(parts, 5, 14);
}

/// A table names the file of the base and that of the head, and tells the best clean rate of
/// each with the change.
pub proof fn tables_open_with_base_and_head(
    base_path: Seq<char>,
    head_path: Seq<char>,
    base: Capacity,
    head: Capacity,
    delta: Seq<char>,
)
    ensures
        holds(
            table_opening_text(base_path, head_path, base, head, delta),
            "=== Pre/Post DSA End-to-End Benchmark Scorecard ===\nBaseline (Pre-DSA): "@
                + base_path
                + "\nHead (Post-DSA):     "@
                + head_path,
        ),
        holds(
            table_opening_text(base_path, head_path, base, head, delta),
            base.rate@
                + " Gbit/s -> "@
                + head.rate@
                + " Gbit/s ("@
                + delta
                + "%)\n  Baseline frontier: "@
                + frontier_text(base)
                + "\n  HEAD frontier:     "@
                + frontier_text(head),
        ),
{
    let parts = table_opening_parts(base_path, head_path, base, head, delta);
    let q0_0 = Seq::<Seq<char>>::empty();
    let q0_1 = q0_0.push(parts[0]);
    lemma_push(q0_0, parts[0]);
    let q0_2 = q0_1.push(parts[1]);
    lemma_push(q0_1, parts[1]);
    let q0_3 = q0_2.push(parts[2]);
    lemma_push(q0_2, parts[2]);
    let q0_4 = q0_3.push(parts[3]);
    lemma_push(q0_3, parts[3]);
    assert(run_together(q0_1) =~= parts[0]);
    assert(parts[0] == "=== Pre/Post DSA End-to-End Benchmark Scorecard ===\nBaseline (Pre-DSA): "@);
    assert(parts[1] == base_path);
    assert(parts[2] == "\nHead (Post-DSA):     "@);
    assert(parts[3] == head_path);
    assert(q0_4 =~= parts.subrange(0, 4));
    lemma_holds(parts, 0, 4);
    let q1_0 = Seq::<Seq<char>>::empty();
    let q1_1 = q1_0.push(parts[5]);
    lemma_push(q1_0, parts[5]);
    let q1_2 = q1_1.push(parts[6]);
    lemma_push(q1_1, parts[6]);
    let q1_3 = q1_2.push(parts[7]);
    lemma_push(q1_2, parts[7]);
    let q1_4 = q1_3.push(parts[8]);
    lemma_push(q1_3, parts[8]);
    let q1_5 = q1_4.push(parts[9]);
    lemma_push(q1_4, parts[9]);
    let q1_6 = q1_5.push(parts[10]);
    lemma_push(q1_5, parts[10]);
    let q1_7 = q1_6.push(parts[11]);
    lemma_push(q1_6, parts[11]);
    let q1_8 = q1_7.push(parts[12]);
    lemma_push(q1_7, parts[12]);
    let q1_9 = q1_8.push(parts[13]);
    lemma_push(q1_8, parts[13]);
    assert(run_together(q1_1) =~= parts[5]);
    assert(parts[5] == base.rate@);
    assert(parts[6] == " Gbit/s -> "@);
    assert(parts[7] == head.rate@);
    assert(parts[8] == " Gbit/s ("@);
    assert(parts[9] == delta);
    assert(parts[10] == "%)\n  Baseline frontier: "@);
    assert(parts[11] == frontier_text(base));
    assert(parts[12] == "\n  HEAD frontier:     "@);
    assert(parts[13] == frontier_text(head));
    assert(q1_9 =~= parts.subrange(5, 14));
    lemma_holds(parts, 5, 14);
}

/// A change is told from what was to what is.
pub proof fn changes_go_from_old_to_new(from: Seq<char>, to: Seq<char>)
    ensures
        change_text(from, to) == from + "%->"@ + to + "%"@,
        yes_no(true) == "yes"@ && yes_no(false) == "no"@,
        y_n(true) == "Y"@ && y_n(false) == "N"@,
{
}

/// A spread is told by its median, and then its smallest and its largest value.
pub proof fn spreads_go_from_smallest_to_largest(s: SpreadText)
    ensures
        spread_text(s) == s.median@ + " ["@ + s.min@ + ".."@ + s.max@ + "]"@,
{
    let q0 = Seq::<Seq<char>>::empty();
    let q1 = q0.push(s.median@);
    let q2 = q1.push(" ["@);
    let q3 = q2.push(s.min@);
    let q4 = q3.push(".."@);
    let q5 = q4.push(s.max@);
    lemma_push(q0, s.median@);
    lemma_push(q1, " ["@);
    lemma_push(q2, s.min@);
    lemma_push(q3, ".."@);
    lemma_push(q4, s.max@);
    lemma_push(q5, "]"@);
    assert(run_together(q1) =~= s.median@);
    assert(q5.push("]"@) =~= seq![s.median@, " ["@, s.min@, ".."@, s.max@, "]"@]);
}

/// Repetitions are told once where both sides have equally many and all are complete, and
/// else for the base and for the head, how many are complete of how many.
pub proof fn repetitions_are_told_for_both_sides(c: CellComparison)
    ensures
        ({
            let even = c.base.pairs == c.head.pairs && c.base.incomplete_reps == 0
                && c.head.incomplete_reps == 0;
            &&& even ==> reps_text(c) == "n="@ + decimal(c.base.pairs as nat)
            &&& !even ==> reps_text(c) == "B="@ + decimal(c.base.pairs as nat) + "/"@ + decimal(
                (c.base.pairs + c.base.incomplete_reps) as nat,
            ) + " H="@ + decimal(c.head.pairs as nat) + "/"@ + decimal(
                (c.head.pairs + c.head.incomplete_reps) as nat,
            ) + " (unequal)"@
            &&& even && c.base.pairs > 0 ==> short_reps(c) == "n="@ + decimal(c.base.pairs as nat)
            &&& !even && c.base.pairs > 0 && c.head.pairs > 0 ==> short_reps(c) == "B"@ + decimal(
                c.base.pairs as nat,
            ) + "H"@ + decimal(c.head.pairs as nat) + "*"@
        }),
{
}

/// The row of a cell is told under that cell's own name, and holds that cell's own figures.
pub proof fn rows_are_told_under_their_cells(
    keys: Seq<Seq<char>>,
    cells: Seq<CellComparison>,
    markdown: bool,
    n: int,
    k: int,
)
    requires
        0 <= k < n <= keys.len(),
        n <= cells.len(),
    ensures
        holds(
            card_rows(keys, cells, markdown, n),
            if markdown {
                markdown_row(short_label(keys[k]), cells[k])
            } else {
                table_row(short_label(keys[k]), cells[k])
            },
        ),
    decreases n,
{
    let row = if markdown {
        markdown_row(short_label(keys[n - 1]), cells[n - 1])
    } else {
        table_row(short_label(keys[n - 1]), cells[n - 1])
    };
    let before = card_rows(keys, cells, markdown, n - 1);
    let none = Seq::<char>::empty();
    if k < n - 1 {
        rows_are_told_under_their_cells(keys, cells, markdown, n - 1, k);
        let piece = if markdown {
            markdown_row(short_label(keys[k]), cells[k])
        } else {
            table_row(short_label(keys[k]), cells[k])
        };
        lemma_holds_within(before, piece, none, row);
        assert(none + before + row =~= before + row);
    } else {
        assert(before + row =~= before + row + none);
    }
}

/// Cells that only one file has are counted for the file that has them.
pub proof fn warnings_count_for_their_file(base_only: nat, head_only: nat)
    ensures
        base_only > 0 ==> holds(
            warning_text(base_only, head_only),
            "Warning: "@ + decimal(base_only) + " cells only present in baseline\n"@,
        ),
        head_only > 0 ==> holds(
            warning_text(base_only, head_only),
            "Warning: "@ + decimal(head_only) + " cells only present in head\n"@,
        ),
        base_only == 0 && head_only == 0 ==> warning_text(base_only, head_only).len() == 0,
{
    let none = Seq::<char>::empty();
    let base = "Warning: "@ + decimal(base_only) + " cells only present in baseline\n"@;
    let head = "Warning: "@ + decimal(head_only) + " cells only present in head\n"@;
    if base_only > 0 && head_only > 0 {
        assert(warning_text(base_only, head_only) =~= "\n"@ + base + head);
        assert(warning_text(base_only, head_only) =~= ("\n"@ + base) + head + none);
    } else if base_only > 0 {
        assert(warning_text(base_only, head_only) =~= "\n"@ + base + none);
    } else if head_only > 0 {
        assert(warning_text(base_only, head_only) =~= "\n"@ + head + none);
    }
}

/// Cells that only one file has are listed under the file that has them.
pub proof fn unmatched_cells_are_listed_under_their_file(
    base_only: Seq<Seq<char>>,
    head_only: Seq<Seq<char>>,
)
    ensures
        base_only.len() > 0 ==> holds(
            unmatched_text(base_only, head_only),
            "**Baseline Only Cells (missing in HEAD)**:\n"@ + bullets(base_only),
        ),
        head_only.len() > 0 ==> holds(
            unmatched_text(base_only, head_only),
            "**HEAD Only Cells (missing in Baseline)**:\n"@ + bullets(head_only),
        ),
{
    let opening = "### Unmatched Workload Cells\n\n"@;
    let base = "**Baseline Only Cells (missing in HEAD)**:\n"@ + bullets(base_only);
    let head = "**HEAD Only Cells (missing in Baseline)**:\n"@ + bullets(head_only);
    let first = bullet_list("**Baseline Only Cells (missing in HEAD)**:\n"@, base_only);
    let second = bullet_list("**HEAD Only Cells (missing in Baseline)**:\n"@, head_only);
    if base_only.len() > 0 {
        assert(unmatched_text(base_only, head_only) =~= opening + base + ("\n"@ + second));
    }
    if head_only.len() > 0 {
        assert(unmatched_text(base_only, head_only) =~= (opening + first) + head + "\n"@);
    }
}

/// A scorecard of two files opens with both of them, base first, has a row for every cell
/// that both have, and ends with what only one has.
pub proof fn scorecards_hold_their_parts(
    base_path: Seq<char>,
    head_path: Seq<char>,
    base: Capacity,
    head: Capacity,
    delta: Seq<char>,
    cells: CellMatch,
    rows: Seq<CellComparison>,
)
    ensures
        ({
            let both = texts(cells.both@);
            let card = scorecard(base_path, head_path, base, head, delta, cells, rows, true);
            let table = scorecard(base_path, head_path, base, head, delta, cells, rows, false);
            &&& holds(card, markdown_opening_text(base_path, head_path, base, head, delta))
            &&& holds(card, card_rows(both, rows, true, both.len() as int))
            &&& holds(card, unmatched_text(texts(cells.base_only@), texts(cells.head_only@)))
            &&& holds(table, table_opening_text(base_path, head_path, base, head, delta))
            &&& holds(table, card_rows(both, rows, false, both.len() as int))
            &&& holds(table, warning_text(cells.base_only@.len(), cells.head_only@.len()))
        }),
{
    let both = texts(cells.both@);
    let a = markdown_opening_text(base_path, head_path, base, head, delta);
    let b = card_rows(both, rows, true, both.len() as int);
    let c = unmatched_text(texts(cells.base_only@), texts(cells.head_only@));
    lemma_four(a, b, "\n"@, c);
    let x = table_opening_text(base_path, head_path, base, head, delta);
    let y = card_rows(both, rows, false, both.len() as int);
    let z = warning_text(cells.base_only@.len(), cells.head_only@.len());
    lemma_three(x, y, z);
}

/// A row of a scorecard holds its cell's name, its repetitions and every group of figures.
pub proof fn rows_hold_their_parts(label: Seq<char>, c: CellComparison)
    requires
        c.base.pairs > 0,
        c.head.pairs > 0,
    ensures
        holds(markdown_row(label, c), "| **"@ + label + "** | "@ + reps_text(c)),
        holds(markdown_row(label, c), markdown_shares_text(c)),
        holds(markdown_row(label, c), markdown_cost_text(c)),
        holds(markdown_row(label, c), markdown_recovery_text(c)),
        holds(table_row(label, c), table_start_text(label, c)),
        holds(table_row(label, c), table_end_text(c)),
{
    let none = Seq::<char>::empty();
    let head = "| **"@ + label + "** | "@ + reps_text(c);
    let s = markdown_shares_text(c);
    let k = markdown_cost_text(c);
    let r = markdown_recovery_text(c);
    lemma_four(head, s, k, r);
    let t = table_row(label, c);
    assert(t =~= none + table_start_text(label, c) + table_end_text(c));
    assert(t =~= table_start_text(label, c) + table_end_text(c) + none);
}

} // verus!
