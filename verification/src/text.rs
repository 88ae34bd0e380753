//! Building program text: characters, decimal numbers and the trusted
//! character push of `String`.

use vstd::prelude::*;

verus! {

/// The character that stands for a decimal digit `d < 10`.
pub open spec fn digit_char(d: nat) -> char {
    ((d + 48) as u8) as char
}

/// The decimal representation of `n`, without sign or leading zeros.
pub open spec fn decimal(n: nat) -> Seq<char>
    decreases n,
{
    if n < 10 {
        seq![digit_char(n)]
    } else {
        decimal(n / 10).push(digit_char(n % 10))
    }
}

/// The decimal representation of a signed integer: a minus sign before the
/// digits of its magnitude when it is negative.
pub open spec fn signed_decimal(v: int) -> Seq<char> {
    if v < 0 {
        seq!['-'] + decimal((-v) as nat)
    } else {
        decimal(v as nat)
    }
}

/// `String::push`: appends one character at the end of the string.
#[verifier::external_body]
pub(crate) fn push_char(s: &mut String, c: char)
    ensures
        final(s)@ == old(s)@.push(c),
{
    s.push(c)
}

/// Appends `text` at the end of `s`.
pub fn push_str(s: &mut String, text: &str)
    ensures
        final(s)@ == old(s)@ + text@,
{
    s.append(text);
}

/// Appends the decimal representation of `n` at the end of `s`.
pub fn push_decimal(s: &mut String, n: u64)
    ensures
        final(s)@ == old(s)@ + decimal(n as nat),
{
    let mut digits: Vec<char> = Vec::new();
    let mut m: u64 = n;
    // digits are produced least significant first
    loop
        invariant_except_break
            decimal(n as nat) == decimal(m as nat) + digits@.reverse(),
        ensures
            decimal(n as nat) == digits@.reverse(),
        decreases m,
    {
        let d = m % 10;
        let c = (d as u8 + 48) as char;
        assert(c == digit_char(d as nat));
        proof {
            if m >= 10 {
                assert(decimal(m as nat) == decimal((m / 10) as nat).push(digit_char((m % 10) as nat)));
            }
            let old_digits = digits@;
            assert(old_digits.push(c).reverse() =~= seq![c] + old_digits.reverse());
        }
        digits.push(c);
        m = m / 10;
        if m == 0 {
            break;
        }
    }
    let mut i = digits.len();
    while i > 0
        invariant
            i <= digits.len(),
            s@ == old(s)@ + digits@.reverse().subrange(0, (digits.len() - i) as int),
            decimal(n as nat) == digits@.reverse(),
        decreases i,
    {
        i = i - 1;
        push_char(s, digits[i]);
        proof {
            let r = digits@.reverse();
            assert(r.subrange(0, (digits.len() - i) as int) =~= r.subrange(0, (digits.len() - i - 1) as int).push(digits@[i as int]));
        }
    }
    assert(digits@.reverse().subrange(0, digits.len() as int) =~= digits@.reverse());
}

/// Appends the decimal representation of `n` at the end of `s`.
pub fn push_usize(s: &mut String, n: usize)
    ensures
        final(s)@ == old(s)@ + decimal(n as nat),
{
    push_decimal(s, n as u64);
}

/// Appends the decimal representation of a signed integer at the end of `s`.
pub fn push_signed_decimal(s: &mut String, v: i64)
    ensures
        final(s)@ == old(s)@ + signed_decimal(v as int),
{
    if v < 0 {
        push_char(s, '-');
        let m = (-(v as i128)) as u64;
        push_decimal(s, m);
        assert(final(s)@ =~= old(s)@ + signed_decimal(v as int));
    } else {
        push_decimal(s, v as u64);
    }
}

/// A number has at least one digit, and two from ten on.
pub proof fn lemma_decimal_len(n: nat)
    ensures
        decimal(n).len() >= 1,
        n >= 10 ==> decimal(n).len() >= 2,
    decreases n,
{
    if n >= 10 {
        lemma_decimal_len(n / 10);
    }
}

/// Different numbers are written differently.
pub proof fn lemma_decimal_injective(x: nat, y: nat)
    requires
        decimal(x) == decimal(y),
    ensures
        x == y,
    decreases x,
{
    lemma_decimal_len(x);
    lemma_decimal_len(y);
    if x < 10 && y < 10 {
        assert(digit_char(x) == decimal(x)[0]);
        assert(digit_char(y) == decimal(y)[0]);
        assert(((x + 48) as u8) as char == ((y + 48) as u8) as char);
    } else if x >= 10 && y >= 10 {
        let dx = decimal(x / 10);
        let dy = decimal(y / 10);
        assert(decimal(x) == dx.push(digit_char(x % 10)));
        assert(decimal(y) == dy.push(digit_char(y % 10)));
        assert(dx =~= decimal(x).drop_last());
        assert(dy =~= decimal(y).drop_last());
        lemma_decimal_injective(x / 10, y / 10);
        assert(digit_char(x % 10) == decimal(x).last());
        assert(digit_char(y % 10) == decimal(y).last());
        assert((((x % 10) + 48) as u8) as char == (((y % 10) + 48) as u8) as char);
    }
}

} // verus!
