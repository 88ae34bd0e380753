//! Numbers: an integer literal is read as the number whose decimal
//! writing is its text.

use vstd::prelude::*;

use crate::lexer::types::KindModel;
use crate::lexer::{byte_chars, decimal_value, digit_run, is_digit_byte, token_at};
use crate::text::{decimal, digit_char};

verus! {

/// The bytes of a run of digits are digits.
pub proof fn lemma_digit_run_digits(src: Seq<u8>, p: int)
    requires
        0 <= p,
    ensures
        p + digit_run(src, p) <= src.len() || digit_run(src, p) == 0,
        forall|i: int| p <= i < p + digit_run(src, p) ==> is_digit_byte(#[trigger] src[i]),
    decreases src.len() - p,
{
    if 0 <= p < src.len() && is_digit_byte(src[p]) {
        lemma_digit_run_digits(src, p + 1);
    }
}

/// Digits that do not begin with `0` have a value of at least one.
pub proof fn lemma_value_positive(s: Seq<u8>)
    requires
        s.len() > 0,
        forall|i: int| 0 <= i < s.len() ==> is_digit_byte(#[trigger] s[i]),
        s[0] != ('0' as u8),
    ensures
        decimal_value(s) >= 1,
    decreases s.len(),
{
    if s.len() > 1 {
        let t = s.drop_last();
        assert(t[0] == s[0]);
        assert forall|i: int| 0 <= i < t.len() implies is_digit_byte(#[trigger] t[i]) by {
            assert(t[i] == s[i]);
        }
        lemma_value_positive(t);
    }
}

/// Digits without a leading `0` (or the single digit `0`) are the decimal
/// writing of their value.
pub proof fn lemma_decimal_of_value(s: Seq<u8>)
    requires
        s.len() > 0,
        forall|i: int| 0 <= i < s.len() ==> is_digit_byte(#[trigger] s[i]),
        s.len() == 1 || s[0] != ('0' as u8),
    ensures
        decimal(decimal_value(s)) == byte_chars(s),
    decreases s.len(),
{
    let d = (s.last() - ('0' as u8)) as nat;
    assert(is_digit_byte(s[s.len() - 1]));
    assert(d < 10);
    assert(((d + 48) as u8) == s.last());
    if s.len() == 1 {
        assert(s.drop_last().len() == 0);
        assert(decimal_value(s.drop_last()) == 0);
        assert(decimal_value(s) == d);
        assert(decimal(d) == seq![digit_char(d)]);
        assert(byte_chars(s) =~= seq![s[0] as char]);
    } else {
        let t = s.drop_last();
        assert(t[0] == s[0]);
        assert forall|i: int| 0 <= i < t.len() implies is_digit_byte(#[trigger] t[i]) by {
            assert(t[i] == s[i]);
        }
        lemma_value_positive(t);
        lemma_decimal_of_value(t);
        let v = decimal_value(t);
        let n = decimal_value(s);
        assert(n == v * 10 + d);
        assert(n / 10 == v && n % 10 == d) by (nonlinear_arith)
            requires
                n == v * 10 + d,
                d < 10,
        ;
        assert(n >= 10);
        assert(decimal(n) == decimal(v).push(digit_char(d)));
        assert(byte_chars(s) =~= byte_chars(t).push(s.last() as char));
    }
}

/// An integer literal is read as the number that its text writes: where a
/// digit starts a token and the digits do not begin with a `0` (or are the
/// single digit `0`), the token is an integer whose decimal writing is the
/// token's text.
pub proof fn law_integers_are_read_as_written(src: Seq<u8>, p: int)
    requires
        0 <= p < src.len(),
        is_digit_byte(src[p]),
        src[p] != ('0' as u8) || digit_run(src, p) == 1,
    ensures
        token_at(src, p).1 == digit_run(src, p),
        p + digit_run(src, p) <= src.len(),
        token_at(src, p).0 matches KindModel::Integer(v) && decimal(v) == byte_chars(
            src.subrange(p, p + digit_run(src, p)),
        ),
{
    lemma_digit_run_digits(src, p);
    let n = digit_run(src, p);
    let s = src.subrange(p, p + n);
    assert(n >= 1);
    assert forall|i: int| 0 <= i < s.len() implies is_digit_byte(#[trigger] s[i]) by {
        assert(s[i] == src[p + i]);
    }
    assert(s[0] == src[p]);
    lemma_decimal_of_value(s);
}

} // verus!
