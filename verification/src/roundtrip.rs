//! The display form of a top-level record parses back to that record.

use crate::display::{
    decimal_digits, decimal_text, digit_char, display_spec, pad_left, repeated,
};
use crate::parse::{parse_spec, ParseError};
use crate::record::LineModel;
use crate::text::{
    all_digits, decimal_i64, digit_value, digits_value, is_digit, is_space, lemma_first_pos_is,
    trim, trim_front,
};
use vstd::prelude::*;

verus! {

/// A digit's character is a digit, and has the digit's value.
pub proof fn lemma_digit_char(d: int)
    requires
        0 <= d < 10,
    ensures
        is_digit(digit_char(d)),
        digit_value(digit_char(d)) == d,
        !is_space(digit_char(d)),
        digit_char(d) != '[',
        digit_char(d) != ']',
        digit_char(d) != '-',
        digit_char(d) != '+',
{
}

/// The decimal digits of a number are digits, at least one, and write that
/// number.
pub proof fn lemma_decimal_digits(n: nat)
    ensures
        decimal_digits(n).len() >= 1,
        all_digits(decimal_digits(n)),
        digits_value(decimal_digits(n)) == n,
    decreases n,
{
    let s = decimal_digits(n);
    if n < 10 {
        lemma_digit_char(n as int);
        assert(s.drop_last() =~= Seq::<char>::empty());
        assert(digits_value(s.drop_last()) == 0);
        assert(s.last() == digit_char(n as int));
    } else {
        lemma_decimal_digits(n / 10);
        lemma_digit_char((n % 10) as int);
        assert(s.drop_last() =~= decimal_digits(n / 10));
        assert(s.last() == digit_char((n % 10) as int));
        assert forall|i: int| 0 <= i < s.len() implies is_digit(#[trigger] s[i]) by {
            if i < s.len() - 1 {
                assert(s[i] == decimal_digits(n / 10)[i]);
            }
        }
    }
}

/// The decimal text of a 64-bit number reads back as that number.
pub proof fn lemma_decimal_text_reads_back(v: int)
    requires
        -0x8000_0000_0000_0000 <= v <= 0x7fff_ffff_ffff_ffff,
    ensures
        decimal_i64(decimal_text(v)) == Some(v),
{
    let s = decimal_text(v);
    if v < 0 {
        let digits = decimal_digits((-v) as nat);
        lemma_decimal_digits((-v) as nat);
        assert(s[0] == '-');
        assert(s.drop_first() =~= digits);
    } else {
        lemma_decimal_digits(v as nat);
        assert(is_digit(s[0]));
    }
}

/// The decimal text of a number holds no bracket, and neither starts nor ends
/// with white space.
pub proof fn lemma_decimal_text_shape(v: int)
    ensures
        decimal_text(v).len() >= 1,
        !is_space(decimal_text(v)[0]),
        !is_space(decimal_text(v).last()),
        forall|i: int|
            0 <= i < decimal_text(v).len() ==> (#[trigger] decimal_text(v)[i]) != ']'
                && decimal_text(v)[i] != '[',
{
    let s = decimal_text(v);
    if v < 0 {
        let digits = decimal_digits((-v) as nat);
        lemma_decimal_digits((-v) as nat);
        assert(s[0] == '-');
        assert(s.last() == digits.last());
        assert(is_digit(digits[digits.len() - 1]));
        assert forall|i: int| 0 <= i < s.len() implies (#[trigger] s[i]) != ']' && s[i] != '[' by {
            if i > 0 {
                assert(s[i] == digits[i - 1]);
                assert(is_digit(digits[i - 1]));
            }
        }
    } else {
        lemma_decimal_digits(v as nat);
        assert(is_digit(s[0]));
        assert(is_digit(s[s.len() - 1]));
        assert forall|i: int| 0 <= i < s.len() implies (#[trigger] s[i]) != ']' && s[i] != '[' by {
            assert(is_digit(s[i]));
        }
    }
}

/// Spaces before a text that does not start with white space are what
/// trimming at the front takes away.
pub proof fn lemma_trim_front_spaces(count: nat, t: Seq<char>)
    requires
        t.len() == 0 || !is_space(t[0]),
    ensures
        trim_front(repeated(' ', count) + t) == t,
    decreases count,
{
    let s = repeated(' ', count) + t;
    if count == 0 {
        assert(s =~= t);
    } else {
        assert(s[0] == ' ');
        assert(s.drop_first() =~= repeated(' ', (count - 1) as nat) + t);
        lemma_trim_front_spaces((count - 1) as nat, t);
    }
}

/// For every record at the top level whose path holds no bracket and neither
/// starts nor ends with white space, the display form parses back to the
/// record itself: same path, same depth, and the very same size.
pub proof fn lemma_display_parses_back(m: LineModel)
    requires
        m.indent == 0,
        -0x8000_0000_0000_0000 <= m.size <= 0x7fff_ffff_ffff_ffff,
        forall|i: int| 0 <= i < m.path.len() ==> m.path[i] != '[' && m.path[i] != ']',
        m.path.len() > 0 ==> !is_space(m.path[0]) && !is_space(m.path.last()),
    ensures
        parse_spec(display_spec(m)) == Ok::<Option<LineModel>, ParseError>(Some(m)),
{
    let text = decimal_text(m.size);
    let field = pad_left(text, 14);
    let s = display_spec(m);
    let close = 1 + field.len() as int;
    lemma_decimal_text_shape(m.size);
    lemma_decimal_text_reads_back(m.size);
    assert(repeated('\t', 0) =~= Seq::<char>::empty());
    assert(s =~= seq!['['] + field + seq![']', ' '] + m.path);
    let spaces: nat = if text.len() >= 14 {
        0
    } else {
        (14 - text.len()) as nat
    };
    assert(field =~= repeated(' ', spaces) + text);
    assert(s[0] == '[');
    lemma_first_pos_is(s, '[', 0);
    assert(s[close] == ']');
    assert forall|j: int| 0 <= j < close implies s[j] != ']' by {
        if j > 0 {
            assert(s[j] == field[j - 1]);
            if j - 1 >= spaces {
                assert(field[j - 1] == text[j - 1 - spaces]);
            }
        }
    }
    lemma_first_pos_is(s, ']', close);
    assert(s.subrange(1, close) =~= field);
    lemma_trim_front_spaces(spaces, text);
    assert(trim(field) == text);
    assert(s.subrange(close + 1, s.len() as int) =~= repeated(' ', 1) + m.path);
    lemma_trim_front_spaces(1, m.path);
    assert(trim(s.subrange(close + 1, s.len() as int)) == m.path);
}

} // verus!
