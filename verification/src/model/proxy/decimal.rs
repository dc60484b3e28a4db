//! Decimal notation of port numbers: writing a port as text and reading one
//! back.

use vstd::prelude::*;
use vstd::string::StringExecFns;
use super::tool::chars_of;

verus! {

/// Whether `c` is one of the ASCII digits `0` to `9`.
pub open spec fn is_digit(c: char) -> bool {
    '0' <= c <= '9'
}

/// The number that the ASCII digit `c` stands for.
pub open spec fn digit_value(c: char) -> nat
    recommends
        is_digit(c),
{
    (c as u32 - 48) as nat
}

/// The ASCII digit that stands for `d`.
pub open spec fn digit_char(d: nat) -> char
    recommends
        d < 10,
{
    ((48 + d) as u8) as char
}

/// The shortest decimal notation of `n`: no sign, no leading zero, and `0`
/// for zero.
pub open spec fn decimal_text(n: nat) -> Seq<char>
    decreases n,
{
    if n < 10 {
        seq![digit_char(n)]
    } else {
        decimal_text(n / 10).push(digit_char(n % 10))
    }
}

/// The number that a run of digits denotes, read most significant digit
/// first. The empty run denotes zero.
pub open spec fn decimal_value(digits: Seq<char>) -> nat
    decreases digits.len(),
{
    if digits.len() == 0 {
        0
    } else {
        10 * decimal_value(digits.drop_last()) + digit_value(digits.last())
    }
}

/// Whether every character of `s` is an ASCII digit.
pub open spec fn all_digits(s: Seq<char>) -> bool {
    forall|i: int| 0 <= i < s.len() ==> is_digit(#[trigger] s[i])
}

/// `s` without its leading `+`, if it has one.
pub open spec fn without_sign(s: Seq<char>) -> Seq<char> {
    if s.len() > 0 && s[0] == '+' {
        s.skip(1)
    } else {
        s
    }
}

/// The port that `s` denotes, if any.
///
/// A port is written as an optional `+` followed by one or more ASCII digits
/// whose value is at most 65535. Leading zeros are allowed; blanks, a minus
/// sign and any other character are not.
pub open spec fn port_of_text(s: Seq<char>) -> Option<u16> {
    let digits = without_sign(s);
    if digits.len() > 0 && all_digits(digits) && decimal_value(digits) <= u16::MAX {
        Some(decimal_value(digits) as u16)
    } else {
        None
    }
}

/// Reading more digits never gives a smaller number.
pub proof fn lemma_decimal_value_prefix(digits: Seq<char>, k: int)
    requires
        0 <= k <= digits.len(),
    ensures
        decimal_value(digits.take(k)) <= decimal_value(digits),
    decreases digits.len(),
{
    if k == digits.len() {
        assert(digits.take(k) =~= digits);
    } else {
        lemma_decimal_value_prefix(digits.drop_last(), k);
        assert(digits.drop_last().take(k) =~= digits.take(k));
    }
}

/// The decimal notation of a number consists of digits only, does not start
/// with a sign, and denotes that number.
pub proof fn lemma_decimal_text_value(n: nat)
    ensures
        decimal_text(n).len() > 0,
        all_digits(decimal_text(n)),
        decimal_value(decimal_text(n)) == n,
    decreases n,
{
    if n < 10 {
        let t = decimal_text(n);
        assert(t.drop_last() =~= Seq::<char>::empty());
        assert(decimal_value(t.drop_last()) == 0);
    } else {
        lemma_decimal_text_value(n / 10);
        let t = decimal_text(n);
        assert(t.drop_last() =~= decimal_text(n / 10));
    }
}

/// Writing a port and reading the text back gives the port again.
pub proof fn lemma_port_text_round_trip(port: u16)
    ensures
        port_of_text(decimal_text(port as nat)) == Some(port),
{
    lemma_decimal_text_value(port as nat);
    let t = decimal_text(port as nat);
    assert(is_digit(t[0]));
    assert(without_sign(t) == t);
}

/// The one-character text of a single digit.
fn digit_str(d: u8) -> (s: &'static str)
    requires
        d < 10,
    ensures
        s@ == seq![digit_char(d as nat)],
{
    proof {
        reveal_strlit("0");
        reveal_strlit("1");
        reveal_strlit("2");
        reveal_strlit("3");
        reveal_strlit("4");
        reveal_strlit("5");
        reveal_strlit("6");
        reveal_strlit("7");
        reveal_strlit("8");
        reveal_strlit("9");
    }
    let s = match d {
        0 => "0",
        1 => "1",
        2 => "2",
        3 => "3",
        4 => "4",
        5 => "5",
        6 => "6",
        7 => "7",
        8 => "8",
        _ => "9",
    };
    assert(s@ =~= seq![digit_char(d as nat)]);
    s
}

/// Appends the decimal notation of `port` to `out`.
pub fn append_port(out: &mut String, port: u16)
    ensures
        final(out)@ == old(out)@ + decimal_text(port as nat),
    decreases port,
{
    if port >= 10 {
        append_port(out, port / 10);
    }
    out.append(digit_str((port % 10) as u8));
}

/// The decimal notation of `port`.
pub fn port_text(port: u16) -> (r: String)
    ensures
        r@ == decimal_text(port as nat),
{
    let mut r = String::new();
    append_port(&mut r, port);
    r
}

/// Reads the port written in `chars[from..to]`.
pub(crate) fn parse_port_in(chars: &Vec<char>, from: usize, to: usize) -> (r: Option<u16>)
    requires
        from <= to <= chars.len(),
    ensures
        r == port_of_text(chars@.subrange(from as int, to as int)),
{
    let mut i: usize = from;
    if i < to && chars[i] == '+' {
        i += 1;
    }
    let first: usize = i;
    let ghost digits = chars@.subrange(first as int, to as int);
    assert(digits =~= without_sign(chars@.subrange(from as int, to as int)));
    if i == to {
        return None;
    }
    let mut value: u32 = 0;
    while i < to
        invariant
            first <= i <= to <= chars.len(),
            digits == chars@.subrange(first as int, to as int),
            digits == without_sign(chars@.subrange(from as int, to as int)),
            all_digits(digits.take(i - first)),
            value == decimal_value(digits.take(i - first)),
            value <= u16::MAX,
        decreases to - i,
    {
        let c = chars[i];
        assert(c == digits[i - first]);
        if c < '0' || c > '9' {
            return None;
        }
        assert(digits.take(i - first + 1).drop_last() =~= digits.take(i - first));
        value = value * 10 + (c as u32 - 48);
        if value > 65535 {
            proof {
                lemma_decimal_value_prefix(digits, i - first + 1);
            }
            return None;
        }
        i += 1;
    }
    assert(digits.take(i - first) =~= digits);
    Some(value as u16)
}

/// Reads a port from its text.
///
/// The text is an optional `+` followed by one or more ASCII digits whose
/// value is at most 65535; anything else is no port.
pub fn parse_port(text: &str) -> (r: Option<u16>)
    ensures
        r == port_of_text(text@),
{
    let chars = chars_of(text);
    assert(chars@.subrange(0, chars@.len() as int) =~= text@);
    parse_port_in(&chars, 0, chars.len())
}

} // verus!
