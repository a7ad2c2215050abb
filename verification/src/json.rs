//! JSON strings.
use crate::attempt::{hex_char, hex_digit};
use crate::text::{chars_of, code_point};
use vstd::prelude::*;

verus! {

/// Which characters are written as `\uXXXX`.
#[derive(Clone, Copy, PartialEq, Eq, Debug, Structural)]
pub enum Escapes {
    /// None.
    Nothing,
    /// Those below the space.
    BelowSpace,
    /// All that Unicode calls control characters.
    AllControls,
}

/// Whether a code point is written as `\uXXXX`.
pub open spec fn is_escaped(code: int, escapes: Escapes) -> bool {
    match escapes {
        Escapes::Nothing => false,
        Escapes::BelowSpace => code < 0x20,
        Escapes::AllControls => code < 0x20 || 0x7f <= code < 0xa0,
    }
}

/// How one character stands in a JSON string.
pub open spec fn escaped(c: char, escapes: Escapes) -> Seq<char> {
    let code = c as int;
    if c == '"' {
        seq!['\\', '"']
    } else if c == '\\' {
        seq!['\\', '\\']
    } else if c == '\n' {
        seq!['\\', 'n']
    } else if c == '\r' {
        seq!['\\', 'r']
    } else if c == '\t' {
        seq!['\\', 't']
    } else if is_escaped(code, escapes) {
        seq!['\\', 'u', '0', '0', hex_digit(code / 16), hex_digit(code % 16)]
    } else {
        seq![c]
    }
}

/// The inside of a JSON string.
pub open spec fn escaped_text(s: Seq<char>, escapes: Escapes) -> Seq<char>
    decreases s.len(),
{
    if s.len() == 0 {
        Seq::empty()
    } else {
        escaped_text(s.drop_last(), escapes) + escaped(s.last(), escapes)
    }
}

/// `s` as a JSON string.
pub open spec fn json_text(s: Seq<char>, escapes: Escapes) -> Seq<char> {
    seq!['"'] + escaped_text(s, escapes) + seq!['"']
}

fn push_escaped(out: &mut String, c: char, escapes: Escapes)
    ensures
        final(out)@ == old(out)@ + escaped(c, escapes),
{
    let ghost before = out@;
    let code: u32 = code_point(c);
    let control = match escapes {
        Escapes::Nothing => false,
        Escapes::BelowSpace => code < 0x20,
        Escapes::AllControls => code < 0x20 || (0x7f <= code && code < 0xa0),
    };
    if c == '"' {
        out.push('\\');
        out.push('"');
    } else if c == '\\' {
        out.push('\\');
        out.push('\\');
    } else if c == '\n' {
        out.push('\\');
        out.push('n');
    } else if c == '\r' {
        out.push('\\');
        out.push('r');
    } else if c == '\t' {
        out.push('\\');
        out.push('t');
    } else if control {
        out.push('\\');
        out.push('u');
        out.push('0');
        out.push('0');
        out.push(hex_char((code / 16) as u8));
        out.push(hex_char((code % 16) as u8));
    } else {
        out.push(c);
    }
    assert(out@ =~= before + escaped(c, escapes));
}

/// Renders `s` as a JSON string.
pub fn json_string(s: &str, escapes: Escapes) -> (r: String)
    ensures
        r@ == json_text(s@, escapes),
{
    let chars = chars_of(s);
    let mut out = String::new();
    out.push('"');
    let mut i: usize = 0;
    assert(s@.take(0) =~= Seq::<char>::empty());
    assert(out@ =~= seq!['"'] + escaped_text(s@.take(0), escapes));
    while i < chars.len()
        invariant
            i <= chars@.len(),
            chars@ == s@,
            out@ == seq!['"'] + escaped_text(s@.take(i as int), escapes),
        decreases chars@.len() - i,
    {
        let ghost before = out@;
        push_escaped(&mut out, chars[i], escapes);
        proof {
            assert(s@.take(i + 1).drop_last() =~= s@.take(i as int));
            assert(out@ =~= seq!['"'] + escaped_text(s@.take(i + 1), escapes));
        }
        i += 1;
    }
    assert(s@.take(s@.len() as int) =~= s@);
    out.push('"');
    assert(out@ =~= json_text(s@, escapes));
    out
}

/// Neither a bare quote nor a bare line end is left inside a JSON string: every
/// quote in it has a backslash before it.
pub proof fn json_strings_end_once(s: Seq<char>, escapes: Escapes, i: int)
    requires
        0 <= i < escaped_text(s, escapes).len(),
    ensures
        escaped_text(s, escapes)[i] != '\n',
        escaped_text(s, escapes)[i] == '"' ==> i > 0 && escaped_text(s, escapes)[i - 1] == '\\',
    decreases s.len(),
{
    let front = escaped_text(s.drop_last(), escapes);
    let last = escaped(s.last(), escapes);
    if i < front.len() {
        json_strings_end_once(s.drop_last(), escapes, i);
    } else {
        assert(escaped_text(s, escapes)[i] == last[i - front.len()]);
    }
}

} // verus!
