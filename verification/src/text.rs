use vstd::prelude::*;

verus! {

/// The character of decimal digit `d` (0 to 9).
pub open spec fn digit_char(d: int) -> char {
    if d == 0 {
        '0'
    } else if d == 1 {
        '1'
    } else if d == 2 {
        '2'
    } else if d == 3 {
        '3'
    } else if d == 4 {
        '4'
    } else if d == 5 {
        '5'
    } else if d == 6 {
        '6'
    } else if d == 7 {
        '7'
    } else if d == 8 {
        '8'
    } else {
        '9'
    }
}

/// The digit value of a character, if it is a decimal digit.
pub open spec fn digit_value(c: char) -> Option<int> {
    if c == '0' {
        Some(0)
    } else if c == '1' {
        Some(1)
    } else if c == '2' {
        Some(2)
    } else if c == '3' {
        Some(3)
    } else if c == '4' {
        Some(4)
    } else if c == '5' {
        Some(5)
    } else if c == '6' {
        Some(6)
    } else if c == '7' {
        Some(7)
    } else if c == '8' {
        Some(8)
    } else if c == '9' {
        Some(9)
    } else {
        None
    }
}

/// The decimal representation of `n`, without leading zeros.
pub open spec fn decimal_text(n: nat) -> Seq<char>
    decreases n,
{
    if n < 10 {
        seq![digit_char(n as int)]
    } else {
        decimal_text(n / 10) + seq![digit_char((n % 10) as int)]
    }
}

/// The decimal representation of `n`, left-padded with zeros to `width` digits
/// (the lowest `width` digits when `n` has more).
pub open spec fn padded_decimal_text(n: nat, width: nat) -> Seq<char>
    decreases width,
{
    if width == 0 {
        seq![]
    } else {
        padded_decimal_text(n / 10, (width - 1) as nat) + seq![digit_char((n % 10) as int)]
    }
}

/// The value of a sequence of decimal digits, or `None` if some character is not a digit.
pub open spec fn digits_value(s: Seq<char>) -> Option<nat>
    decreases s.len(),
{
    if s.len() == 0 {
        Some(0)
    } else {
        match (digits_value(s.drop_last()), digit_value(s.last())) {
            (Some(v), Some(d)) => Some((v * 10 + d) as nat),
            _ => None,
        }
    }
}

/// A one-character string holding decimal digit `d`.
pub fn digit_str(d: u8) -> (s: &'static str)
    requires
        d < 10,
    ensures
        s@ == seq![digit_char(d as int)],
{
    proof {
        reveal_strlit("0");
        reveal_strlit("1");
        reveal_strlit("2");
        reveal_strlit("3");
        reveal_strlit("4");
        reveal_strlit("5");
        reveal_strlit("6");
        reveal_strlit("7");
        reveal_strlit("8");
        reveal_strlit("9");
    }
    if d == 0 {
        "0"
    } else if d == 1 {
        "1"
    } else if d == 2 {
        "2"
    } else if d == 3 {
        "3"
    } else if d == 4 {
        "4"
    } else if d == 5 {
        "5"
    } else if d == 6 {
        "6"
    } else if d == 7 {
        "7"
    } else if d == 8 {
        "8"
    } else {
        "9"
    }
}

/// The decimal representation of `n`.
pub fn decimal_string(n: u64) -> (s: String)
    ensures
        s@ == decimal_text(n as nat),
    decreases n,
{
    if n < 10 {
        digit_str(n as u8).to_owned()
    } else {
        let mut s = decimal_string(n / 10);
        s.append(digit_str((n % 10) as u8));
        s
    }
}

/// `n` written with exactly `width` decimal digits, zero-padded on the left.
pub fn padded_decimal_string(n: u64, width: u8) -> (s: String)
    ensures
        s@ == padded_decimal_text(n as nat, width as nat),
    decreases width,
{
    if width == 0 {
        String::new()
    } else {
        let mut s = padded_decimal_string(n / 10, width - 1);
        s.append(digit_str((n % 10) as u8));
        s
    }
}

/// Ten to the power `w`.
pub open spec fn pow10(w: nat) -> nat
    decreases w,
{
    if w == 0 {
        1
    } else {
        10 * pow10((w - 1) as nat)
    }
}

proof fn lemma_digit_roundtrip(d: int)
    requires
        0 <= d < 10,
    ensures
        digit_value(digit_char(d)) == Some(d),
{
}

/// Reading back `w` zero-padded digits of `n` gives `n` modulo `10^w`.
pub proof fn lemma_padded_value(n: nat, w: nat)
    ensures
        pow10(w) > 0,
        digits_value(padded_decimal_text(n, w)) == Some((n % pow10(w)) as nat),
    decreases w,
{
    if w == 0 {
        assert(padded_decimal_text(n, w) =~= Seq::<char>::empty());
    } else {
        let p = pow10((w - 1) as nat);
        lemma_padded_value(n / 10, (w - 1) as nat);
        let s = padded_decimal_text(n, w);
        assert(s.drop_last() =~= padded_decimal_text(n / 10, (w - 1) as nat));
        lemma_digit_roundtrip((n % 10) as int);
        vstd::arithmetic::div_mod::lemma_mod_breakdown(n as int, 10, p as int);
        assert(pow10(w) == 10 * p);
    }
}

/// Distinct numbers below `10^w` have distinct `w`-digit texts.
pub proof fn lemma_padded_injective(n: nat, m: nat, w: nat)
    requires
        n < pow10(w),
        m < pow10(w),
        padded_decimal_text(n, w) == padded_decimal_text(m, w),
    ensures
        n == m,
{
    lemma_padded_value(n, w);
    lemma_padded_value(m, w);
    vstd::arithmetic::div_mod::lemma_small_mod(n, pow10(w));
    vstd::arithmetic::div_mod::lemma_small_mod(m, pow10(w));
}

/// A text made of the characters of a string literal.
pub fn owned(s: &str) -> (r: String)
    ensures
        r@ == s@,
{
    s.to_owned()
}

} // verus!
