//! Escaping text for interpolation into Pango markup: the five markup
//! metacharacters become entity references, and the control characters that
//! markup cannot carry literally become hexadecimal character references.

use vstd::prelude::*;

use crate::text::{chars_of, push_char};

verus! {

/// The lowercase hexadecimal digit character for `d` (`0..=15`).
pub open spec fn hex_digit(d: nat) -> char {
    if d < 10 {
        ((d + 48) as char)
    } else {
        ((d + 87) as char)
    }
}

/// The lowercase hexadecimal rendering of `n`, no leading zeros.
pub open spec fn hex(n: nat) -> Seq<char>
    decreases n,
{
    if n < 16 {
        seq![hex_digit(n)]
    } else {
        hex(n / 16).push(hex_digit(n % 16))
    }
}

/// Whether `c` is one of the control characters written as a character
/// reference: U+0001 to U+0008, U+000B, U+000C, U+000E to U+001F, U+007F to
/// U+0084, U+0086 to U+009F. Tab, newline and carriage return pass through.
pub open spec fn is_escaped_control(c: char) -> bool {
    let u = c as u32;
    (1 <= u <= 8) || (11 <= u <= 12) || (14 <= u <= 31) || (127 <= u <= 132) || (134 <= u <= 159)
}

/// The escaped form of one character.
pub open spec fn escape_char(c: char) -> Seq<char> {
    if c == '&' {
        "&amp;"@
    } else if c == '<' {
        "&lt;"@
    } else if c == '>' {
        "&gt;"@
    } else if c == '\'' {
        "&apos;"@
    } else if c == '"' {
        "&quot;"@
    } else if is_escaped_control(c) {
        "&#x"@ + hex(c as u32 as nat) + ";"@
    } else {
        seq![c]
    }
}

/// The escaped form of a whole text: each character escaped in turn.
pub open spec fn escaped(s: Seq<char>) -> Seq<char>
    decreases s.len(),
{
    if s.len() == 0 {
        Seq::empty()
    } else {
        escaped(s.drop_last()) + escape_char(s.last())
    }
}

/// Appends the lowercase hexadecimal rendering of `n` to `s`.
fn push_hex(s: &mut String, n: u32)
    ensures
        final(s)@ == old(s)@ + hex(n as nat),
    decreases n,
{
    if n >= 16 {
        push_hex(s, n / 16);
    }
    let d = n % 16;
    let c: char = if d == 0 {
        '0'
    } else if d == 1 {
        '1'
    } else if d == 2 {
        '2'
    } else if d == 3 {
        '3'
    } else if d == 4 {
        '4'
    } else if d == 5 {
        '5'
    } else if d == 6 {
        '6'
    } else if d == 7 {
        '7'
    } else if d == 8 {
        '8'
    } else if d == 9 {
        '9'
    } else if d == 10 {
        'a'
    } else if d == 11 {
        'b'
    } else if d == 12 {
        'c'
    } else if d == 13 {
        'd'
    } else if d == 14 {
        'e'
    } else {
        'f'
    };
    assert(c == hex_digit(d as nat));
    push_char(s, c);
    proof {
        if n < 16 {
            assert(hex(n as nat) =~= seq![hex_digit(n as nat)]);
        }
    }
}

/// Escape `text` for Pango markup: `&`, `<`, `>`, `'` and `"` become entity
/// references, and the control characters markup cannot carry become
/// `&#x..;` references. Everything else is copied unchanged.
pub fn markup_escape_text(text: &str) -> (r: String)
    ensures
        r@ == escaped(text@),
{
    let cs = chars_of(text);
    let mut r = String::new();
    let mut i: usize = 0;
    while i < cs.len()
        invariant
            cs@ == text@,
            i <= cs.len(),
            r@ == escaped(cs@.take(i as int)),
        decreases cs.len() - i,
    {
        let c = cs[i];
        let u = c as u32;
        if c == '&' {
            r.append("&amp;");
        } else if c == '<' {
            r.append("&lt;");
        } else if c == '>' {
            r.append("&gt;");
        } else if c == '\'' {
            r.append("&apos;");
        } else if c == '"' {
            r.append("&quot;");
        } else if (1 <= u && u <= 8) || (11 <= u && u <= 12) || (14 <= u && u <= 31) || (127 <= u
            && u <= 132) || (134 <= u && u <= 159) {
            r.append("&#x");
            push_hex(&mut r, u);
            r.append(";");
        } else {
            push_char(&mut r, c);
        }
        proof {
            assert(cs@.take(i + 1).drop_last() =~= cs@.take(i as int));
            assert(cs@.take(i + 1).last() == c);
        }
        i = i + 1;
    }
    assert(cs@.take(cs.len() as int) =~= cs@);
    r
}

} // verus!
