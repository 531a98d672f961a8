use vstd::prelude::*;

verus! {

/// Appends one character to a string.
///
/// Trusted: calls `String::push`, of which the standard library documents that it
/// appends the given `char` to the end of the string; vstd gives it no specification.
#[verifier::external_body]
pub(crate) fn push_char(s: &mut String, c: char)
    ensures
        final(s)@ == old(s)@.push(c),
{
    s.push(c);
}

/// The characters of `s`, in order, as a vector.
pub fn chars_of(s: &str) -> (v: Vec<char>)
    ensures
        v@ == s@,
{
    let mut v: Vec<char> = Vec::new();
    for c in it: s.chars()
        invariant
            v@ == it.seq().take(it.index() as int),
            it.seq() == s@,
    {
        v.push(c);
    }
    v
}

/// The decimal digit character for a value below ten.
pub open spec fn digit_char(d: nat) -> char
    recommends
        d < 10,
{
    (d + 48) as char
}

/// The decimal representation of a natural number, without leading zeros
/// (the number zero is written as a single `0`).
pub open spec fn decimal_digits(n: nat) -> Seq<char>
    decreases n,
{
    if n < 10 {
        seq![digit_char(n)]
    } else {
        decimal_digits(n / 10).push(digit_char(n % 10))
    }
}

/// The decimal representation of an integer, with a leading `-` when it is negative.
pub open spec fn decimal_int(n: int) -> Seq<char> {
    if n < 0 {
        seq!['-'] + decimal_digits((-n) as nat)
    } else {
        decimal_digits(n as nat)
    }
}

fn digit(d: u64) -> (c: char)
    requires
        d < 10,
    ensures
        c == digit_char(d as nat),
{
    let b: u8 = (d as u8) + 48u8;
    b as char
}

fn push_decimal(out: &mut String, n: u64)
    ensures
        final(out)@ == old(out)@ + decimal_digits(n as nat),
    decreases n,
{
    if n >= 10 {
        push_decimal(out, n / 10);
    }
    push_char(out, digit(n % 10));
    assert(final(out)@ =~= old(out)@ + decimal_digits(n as nat));
}

/// Writes an unsigned integer in decimal, as `to_string` does.
pub fn u64_to_decimal(n: u64) -> (s: String)
    ensures
        s@ == decimal_digits(n as nat),
{
    let mut s = String::new();
    push_decimal(&mut s, n);
    assert(s@ =~= decimal_digits(n as nat));
    s
}

/// Writes a signed integer in decimal, as `to_string` does.
pub fn i64_to_decimal(n: i64) -> (s: String)
    ensures
        s@ == decimal_int(n as int),
{
    let mut s = String::new();
    if n < 0 {
        push_char(&mut s, '-');
        let m: u64 = (-(n as i128)) as u64;
        push_decimal(&mut s, m);
    } else {
        push_decimal(&mut s, n as u64);
    }
    assert(s@ =~= decimal_int(n as int));
    s
}

/// The number that a string of decimal digits stands for.
pub open spec fn decimal_value(s: Seq<char>) -> int
    decreases s.len(),
{
    if s.len() == 0 {
        0
    } else {
        decimal_value(s.drop_last()) * 10 + (s.last() as int - 48)
    }
}

/// Whether a character is one of the decimal digits `0` to `9`.
pub open spec fn is_decimal_digit(c: char) -> bool {
    48 <= c as int <= 57
}

/// The decimal form of a number is a non-empty string of digits that stands for
/// the number, and starts with `0` only when the number is zero.
pub proof fn lemma_decimal_digits_value(n: nat)
    ensures
        decimal_digits(n).len() > 0,
        forall|i: int|
            0 <= i < decimal_digits(n).len() ==> is_decimal_digit(#[trigger] decimal_digits(n)[i]),
        decimal_value(decimal_digits(n)) == n,
        n > 0 ==> decimal_digits(n)[0] != '0',
    decreases n,
{
    if n < 10 {
        let s = decimal_digits(n);
        assert(s.drop_last() =~= Seq::<char>::empty());
        assert((n + 48) as char as int == n + 48);
        assert(s.last() == digit_char(n));
        assert(decimal_value(s.drop_last()) == 0);
        assert(decimal_value(s) == n);
    } else {
        lemma_decimal_digits_value(n / 10);
        let p = decimal_digits(n / 10);
        let s = decimal_digits(n);
        assert(s.drop_last() =~= p);
        assert(((n % 10) + 48) as char as int == (n % 10) + 48);
        assert(s[0] == p[0]);
        assert(n == (n / 10) * 10 + n % 10);
        assert(s.last() == digit_char(n % 10));
        assert(decimal_value(s) == decimal_value(p) * 10 + (s.last() as int - 48));
    }
}

/// The decimal form of a signed number: its digits stand for the number's
/// magnitude, behind a `-` exactly when it is negative.
pub proof fn lemma_decimal_int_value(n: int)
    ensures
        n >= 0 ==> decimal_int(n) == decimal_digits(n as nat),
        n >= 0 ==> decimal_value(decimal_int(n)) == n,
        n < 0 ==> decimal_int(n)[0] == '-' && decimal_value(decimal_int(n).skip(1)) == -n,
        n < 0 ==> forall|i: int|
            1 <= i < decimal_int(n).len() ==> is_decimal_digit(#[trigger] decimal_int(n)[i]),
{
    if n < 0 {
        lemma_decimal_digits_value((-n) as nat);
        assert(decimal_int(n).skip(1) =~= decimal_digits((-n) as nat));
        assert forall|i: int| 1 <= i < decimal_int(n).len() implies is_decimal_digit(
            #[trigger] decimal_int(n)[i],
        ) by {
            assert(decimal_int(n)[i] == decimal_digits((-n) as nat)[i - 1]);
        }
    } else {
        lemma_decimal_digits_value(n as nat);
    }
}

} // verus!
