//! The display form of a record: one tab per level, the size right-justified
//! in a bracketed field, a space, the path.

use crate::record::{Line, LineModel};
use vstd::prelude::*;
use vstd::string::*;

verus! {

/// Width of the size field between the brackets.
pub const SIZE_WIDTH: usize = 14;

/// The character of a decimal digit.
pub open spec fn digit_char(d: int) -> char {
    if d == 0 {
        '0'
    } else if d == 1 {
        '1'
    } else if d == 2 {
        '2'
    } else if d == 3 {
        '3'
    } else if d == 4 {
        '4'
    } else if d == 5 {
        '5'
    } else if d == 6 {
        '6'
    } else if d == 7 {
        '7'
    } else if d == 8 {
        '8'
    } else {
        '9'
    }
}

/// The decimal digits of a natural number, without leading zeros.
pub open spec fn decimal_digits(n: nat) -> Seq<char>
    decreases n,
{
    if n < 10 {
        seq![digit_char(n as int)]
    } else {
        decimal_digits(n / 10).push(digit_char((n % 10) as int))
    }
}

/// The decimal text of an integer: a minus sign where it is negative.
pub open spec fn decimal_text(v: int) -> Seq<char> {
    if v < 0 {
        seq!['-'] + decimal_digits((-v) as nat)
    } else {
        decimal_digits(v as nat)
    }
}

/// `count` times the character `c`.
pub open spec fn repeated(c: char, count: nat) -> Seq<char> {
    Seq::new(count, |i: int| c)
}

/// `s` with spaces before it, up to `width` characters; unchanged where it is
/// that long already.
pub open spec fn pad_left(s: Seq<char>, width: nat) -> Seq<char> {
    if s.len() >= width {
        s
    } else {
        repeated(' ', (width - s.len()) as nat) + s
    }
}

/// The display form of a record.
pub open spec fn display_spec(m: LineModel) -> Seq<char> {
    repeated('\t', m.indent) + seq!['['] + pad_left(decimal_text(m.size), 14) + seq![']', ' ']
        + m.path
}

/// The text of one decimal digit.
pub fn digit_text(d: u8) -> (r: &'static str)
    requires
        d < 10,
    ensures
        r@ == seq![digit_char(d as int)],
{
    proof {
        reveal_strlit("0");
        reveal_strlit("1");
        reveal_strlit("2");
        reveal_strlit("3");
        reveal_strlit("4");
        reveal_strlit("5");
        reveal_strlit("6");
        reveal_strlit("7");
        reveal_strlit("8");
        reveal_strlit("9");
    }
    let r: &'static str = if d == 0 {
        "0"
    } else if d == 1 {
        "1"
    } else if d == 2 {
        "2"
    } else if d == 3 {
        "3"
    } else if d == 4 {
        "4"
    } else if d == 5 {
        "5"
    } else if d == 6 {
        "6"
    } else if d == 7 {
        "7"
    } else if d == 8 {
        "8"
    } else {
        "9"
    };
    assert(r@ =~= seq![digit_char(d as int)]);
    r
}

/// Appends the decimal digits of `n`.
pub fn push_digits(out: &mut String, n: u64)
    ensures
        final(out)@ == old(out)@ + decimal_digits(n as nat),
    decreases n,
{
    if n >= 10 {
        push_digits(out, n / 10);
    }
    let d: u8 = (n % 10) as u8;
    out.append(digit_text(d));
    assert(final(out)@ =~= old(out)@ + decimal_digits(n as nat));
}

/// Appends `count` times the one-character text `unit`.
pub fn push_repeated(out: &mut String, unit: &str, count: usize)
    requires
        unit@.len() == 1,
    ensures
        final(out)@ == old(out)@ + repeated(unit@[0], count as nat),
{
    let mut i: usize = 0;
    while i < count
        invariant
            i <= count,
            unit@.len() == 1,
            out@ == old(out)@ + repeated(unit@[0], i as nat),
        decreases count - i,
    {
        out.append(unit);
        i += 1;
        assert(out@ =~= old(out)@ + repeated(unit@[0], i as nat));
    }
}

/// The decimal text of a size.
pub fn size_text(size: i64) -> (r: String)
    ensures
        r@ == decimal_text(size as int),
{
    let mut out: String = String::new();
    if size < 0 {
        proof {
            reveal_strlit("-");
        }
        out.append("-");
        let below: u64 = (-(size + 1)) as u64;
        push_digits(&mut out, below + 1);
        assert(out@ =~= decimal_text(size as int));
    } else {
        push_digits(&mut out, size as u64);
        assert(out@ =~= decimal_text(size as int));
    }
    out
}

impl Line {
    /// The display form of this record.
    pub fn display(&self) -> (r: String)
        ensures
            r@ == display_spec(self@),
    {
        proof {
            reveal_strlit("\t");
            reveal_strlit(" ");
            reveal_strlit("[");
            reveal_strlit("] ");
        }
        let number: String = size_text(self.size);
        let width: usize = number.as_str().unicode_len();
        let mut out: String = String::new();
        push_repeated(&mut out, "\t", self.indent);
        out.append("[");
        if width < SIZE_WIDTH {
            push_repeated(&mut out, " ", SIZE_WIDTH - width);
        }
        out.append(number.as_str());
        out.append("] ");
        out.append(self.path.as_str());
        assert(out@ =~= display_spec(self@));
        out
    }
}

} // verus!
