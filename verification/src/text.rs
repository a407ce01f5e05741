use vstd::prelude::*;

verus! {

/// Appends one character to a text.
///
/// Trusted: calls `String::push`, which std documents as appending the
/// given `char` to the end of the `String`.
#[verifier::external_body]
fn push_char(text: &mut String, c: char)
    ensures
        final(text)@ == old(text)@.push(c),
{
    text.push(c);
}

/// The character of a decimal digit.
pub open spec fn digit_char(d: nat) -> char
    recommends
        d < 10,
{
    (48 + d) as char
}

/// The decimal digits of a natural number, most significant first, with
/// no leading zeros.
pub open spec fn decimal_digits(n: nat) -> Seq<char>
    decreases n,
{
    if n < 10 {
        seq![digit_char(n)]
    } else {
        decimal_digits(n / 10).push(digit_char(n % 10))
    }
}

/// An integer written in decimal, as `{}` formats it: a `-` before the
/// digits of a negative number.
pub open spec fn decimal_text(n: int) -> Seq<char> {
    if n < 0 {
        seq!['-'] + decimal_digits((-n) as nat)
    } else {
        decimal_digits(n as nat)
    }
}

/// A character is one of `0` to `9`.
pub open spec fn is_digit(c: char) -> bool {
    48 <= (c as int) <= 57
}

/// The value of a run of decimal digits, most significant first.
pub open spec fn digits_value(t: Seq<char>) -> int
    decreases t.len(),
{
    if t.len() == 0 {
        0
    } else {
        digits_value(t.drop_last()) * 10 + ((t.last() as int) - 48)
    }
}

/// The digits of a decimal text: all of it, or what follows the `-` of a
/// negative number.
pub open spec fn magnitude_part(t: Seq<char>, n: int) -> Seq<char> {
    if n < 0 {
        t.drop_first()
    } else {
        t
    }
}

/// `t` is how `{}` writes the integer `n`: a `-` exactly when `n` is
/// negative, then one or more digits without a leading zero (unless the
/// digits are just `0`) whose value is the magnitude of `n`.
pub open spec fn is_decimal_of(t: Seq<char>, n: int) -> bool {
    let digits = magnitude_part(t, n);
    &&& n < 0 ==> t.len() > 0 && t[0] == '-'
    &&& digits.len() > 0
    &&& forall|i: int| 0 <= i < digits.len() ==> is_digit(#[trigger] digits[i])
    &&& digits.len() > 1 ==> digits[0] != '0'
    &&& digits_value(digits) == if n < 0 {
        -n
    } else {
        n
    }
}

proof fn lemma_decimal_digits_read_back(m: nat)
    ensures
        decimal_digits(m).len() > 0,
        forall|i: int| 0 <= i < decimal_digits(m).len() ==> is_digit(#[trigger] decimal_digits(m)[i]),
        m > 0 ==> decimal_digits(m)[0] != '0',
        digits_value(decimal_digits(m)) == m,
    decreases m,
{
    let s = decimal_digits(m);
    let d = (m % 10) as nat;
    assert((digit_char(d) as int) == 48 + d);
    if m >= 10 {
        lemma_decimal_digits_read_back(m / 10);
        let prev = decimal_digits(m / 10);
        assert(s.drop_last() =~= prev);
        assert(s[0] == prev[0]);
        assert forall|i: int| 0 <= i < s.len() implies is_digit(#[trigger] s[i]) by {
            if i < prev.len() {
                assert(s[i] == prev[i]);
            }
        }
        assert(m == (m / 10) * 10 + m % 10) by (nonlinear_arith);
        assert(s.last() == digit_char(d));
        assert(digits_value(s) == digits_value(prev) * 10 + ((s.last() as int) - 48));
    } else {
        assert(s.drop_last() =~= Seq::<char>::empty());
        assert(s.last() == digit_char(d));
        assert(digits_value(s) == digits_value(s.drop_last()) * 10 + ((s.last() as int) - 48));
    }
}

/// `decimal_text(n)` is how `{}` writes `n`: it reads back as `n`.
pub proof fn lemma_decimal_text_is_decimal(n: int)
    ensures
        is_decimal_of(decimal_text(n), n),
{
    if n < 0 {
        let m = (-n) as nat;
        lemma_decimal_digits_read_back(m);
        assert(decimal_text(n).drop_first() =~= decimal_digits(m));
    } else {
        lemma_decimal_digits_read_back(n as nat);
    }
}

/// A text writes at most one integer in decimal.
pub proof fn lemma_decimal_of_unique(t: Seq<char>, n1: int, n2: int)
    requires
        is_decimal_of(t, n1),
        is_decimal_of(t, n2),
    ensures
        n1 == n2,
{
    if n1 < 0 && n2 >= 0 {
        assert(is_digit(magnitude_part(t, n2)[0]));
    } else if n2 < 0 && n1 >= 0 {
        assert(is_digit(magnitude_part(t, n1)[0]));
    }
}

fn push_digits(text: &mut String, m: u64)
    ensures
        final(text)@ == old(text)@ + decimal_digits(m as nat),
    decreases m,
{
    if m >= 10 {
        push_digits(text, m / 10);
    }
    let d: u8 = (m % 10) as u8;
    let c = (48u8 + d) as char;
    push_char(text, c);
    proof {
        assert(old(text)@ + decimal_digits(m as nat) =~= text@);
    }
}

/// Writes an integer in decimal.
pub fn decimal_string(n: i64) -> (text: String)
    ensures
        text@ == decimal_text(n as int),
        is_decimal_of(text@, n as int),
{
    proof {
        lemma_decimal_text_is_decimal(n as int);
    }
    let mut text = String::new();
    if n < 0 {
        push_char(&mut text, '-');
        let m: u64 = (0i128 - n as i128) as u64;
        push_digits(&mut text, m);
    } else {
        push_digits(&mut text, n as u64);
    }
    proof {
        if n < 0 {
            assert(text@ =~= decimal_text(n as int));
        }
    }
    text
}


/// A character with a decimal comma turned into a decimal point.
pub open spec fn comma_to_point(c: char) -> char {
    if c == ',' {
        '.'
    } else {
        c
    }
}

/// A text with every `,` replaced by `.`.
pub open spec fn decimal_points(s: Seq<char>) -> Seq<char> {
    s.map_values(|c: char| comma_to_point(c))
}

/// Replaces every `,` of an amount by `.`, so that an amount written with
/// a decimal comma reads as one with a decimal point.
pub fn with_decimal_points(raw: &str) -> (text: String)
    ensures
        text@ == decimal_points(raw@),
        text@.len() == raw@.len(),
        forall|i: int| 0 <= i < raw@.len() && raw@[i] == ',' ==> text@[i] == '.',
        forall|i: int| 0 <= i < raw@.len() && raw@[i] != ',' ==> text@[i] == raw@[i],
{
    let mut text = String::new();
    for c in it: raw.chars()
        invariant
            it.seq() == raw@,
            text@ == decimal_points(raw@.take(it.index() as int)),
    {
        let ghost k = it.index();
        if c == ',' {
            push_char(&mut text, '.');
        } else {
            push_char(&mut text, c);
        }
        assert(raw@.take(k + 1) =~= raw@.take(k as int).push(c));
        assert(text@ =~= decimal_points(raw@.take(k + 1)));
    }
    assert(raw@.take(raw@.len() as int) =~= raw@);
    proof {
        lemma_decimal_points_pointwise(raw@);
    }
    text
}

/// Replacing decimal commas keeps the length, turns each `,` into `.`
/// and keeps every other character where it is.
pub proof fn lemma_decimal_points_pointwise(s: Seq<char>)
    ensures
        decimal_points(s).len() == s.len(),
        forall|i: int| 0 <= i < s.len() && s[i] == ',' ==> #[trigger] decimal_points(s)[i] == '.',
        forall|i: int| 0 <= i < s.len() && s[i] != ',' ==> #[trigger] decimal_points(s)[i] == s[i],
{
}

} // verus!
