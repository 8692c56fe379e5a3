//! Small verified helpers on strings: decimal rendering and joining.

use vstd::prelude::*;
use vstd::string::*;
use vstd::utf8::decode_utf8;
use vstd::utf8::valid_utf8;

verus! {

/// The character of one decimal digit.
pub open spec fn digit(d: int) -> char {
    if d == 0 {
        '0'
    } else if d == 1 {
        '1'
    } else if d == 2 {
        '2'
    } else if d == 3 {
        '3'
    } else if d == 4 {
        '4'
    } else if d == 5 {
        '5'
    } else if d == 6 {
        '6'
    } else if d == 7 {
        '7'
    } else if d == 8 {
        '8'
    } else {
        '9'
    }
}

/// The decimal rendering of a natural number, most significant digit first,
/// without leading zeros.
pub open spec fn decimal(n: nat) -> Seq<char>
    decreases n,
{
    if n < 10 {
        seq![digit(n as int)]
    } else {
        decimal(n / 10).push(digit((n % 10) as int))
    }
}

fn digit_str(d: u64) -> (r: &'static str)
    requires
        d < 10,
    ensures
        r@ == seq![digit(d as int)],
{
    proof {
        reveal_strlit("0");
        reveal_strlit("1");
        reveal_strlit("2");
        reveal_strlit("3");
        reveal_strlit("4");
        reveal_strlit("5");
        reveal_strlit("6");
        reveal_strlit("7");
        reveal_strlit("8");
        reveal_strlit("9");
    }
    let r = if d == 0 {
        "0"
    } else if d == 1 {
        "1"
    } else if d == 2 {
        "2"
    } else if d == 3 {
        "3"
    } else if d == 4 {
        "4"
    } else if d == 5 {
        "5"
    } else if d == 6 {
        "6"
    } else if d == 7 {
        "7"
    } else if d == 8 {
        "8"
    } else {
        "9"
    };
    assert(r@ =~= seq![digit(d as int)]);
    r
}

/// Renders `n` in decimal.
pub fn decimal_string(n: u64) -> (r: String)
    ensures
        r@ == decimal(n as nat),
    decreases n,
{
    if n < 10 {
        String::from_str(digit_str(n))
    } else {
        let mut s = decimal_string(n / 10);
        s.append(digit_str(n % 10));
        assert(s@ =~= decimal(n as nat));
        s
    }
}

/// `prefix`, then the decimal rendering of `n`.
pub fn numbered(prefix: &str, n: u64) -> (r: String)
    ensures
        r@ == prefix@ + decimal(n as nat),
{
    let mut s = String::from_str(prefix);
    let d = decimal_string(n);
    s.append(d.as_str());
    s
}

/// The characters of a string.
pub fn chars_of(s: &str) -> (r: Vec<char>)
    ensures
        r@ == s@,
{
    let n = s.unicode_len();
    let mut out: Vec<char> = Vec::new();
    let mut i: usize = 0;
    while i < n
        invariant
            n == s@.len(),
            i <= n,
            out@ == s@.subrange(0, i as int),
        decreases n - i,
    {
        out.push(s.get_char(i));
        assert(out@ =~= s@.subrange(0, i + 1));
        i = i + 1;
    }
    assert(s@.subrange(0, n as int) =~= s@);
    out
}

/// The position of the first space at or after `from`, or the length of `s`
/// if there is none.
pub open spec fn first_space(s: Seq<char>, from: int) -> int
    decreases s.len() - from,
{
    if from >= s.len() {
        s.len() as int
    } else if from >= 0 && s[from] == ' ' {
        from
    } else {
        first_space(s, from + 1)
    }
}

/// Finds the first space at or after `from`.
pub fn find_space(s: &Vec<char>, from: usize) -> (r: usize)
    requires
        from <= s@.len(),
    ensures
        r == first_space(s@, from as int),
        from <= r <= s@.len(),
{
    let mut i: usize = from;
    while i < s.len()
        invariant
            from <= i <= s@.len(),
            first_space(s@, i as int) == first_space(s@, from as int),
        decreases s@.len() - i,
    {
        if s[i] == ' ' {
            return i;
        }
        i = i + 1;
    }
    i
}

/// The value of a hexadecimal digit, lower or upper case.
pub open spec fn hex_digit(c: char) -> Option<u64> {
    let v = c as u32;
    if 48 <= v <= 57 {
        Some((v - 48) as u64)
    } else if 97 <= v <= 102 {
        Some((v - 87) as u64)
    } else if 65 <= v <= 70 {
        Some((v - 55) as u64)
    } else {
        None
    }
}

/// Whether all characters are hexadecimal digits.
pub open spec fn all_hex(d: Seq<char>) -> bool {
    forall|i: int| 0 <= i < d.len() ==> hex_digit(#[trigger] d[i]) is Some
}

/// The number that a sequence of hexadecimal digits stands for.
pub open spec fn hex_value(d: Seq<char>) -> nat
    decreases d.len(),
{
    if d.len() == 0 {
        0
    } else {
        hex_value(d.drop_last()) * 16 + (match hex_digit(d.last()) {
            Some(v) => v as nat,
            None => 0,
        })
    }
}

/// The number that the text stands for in hexadecimal: an optional `+`, then
/// at least one digit and nothing but digits, whose value fits in 64 bits.
pub open spec fn hex_number(s: Seq<char>) -> Option<u64> {
    if s.len() > 0 && s[0] == '+' {
        digits_number(s.drop_first())
    } else {
        digits_number(s)
    }
}

/// The number that the digits stand for: there is at least one, all are
/// hexadecimal digits, and the value fits in 64 bits.
pub open spec fn digits_number(d: Seq<char>) -> Option<u64> {
    if d.len() == 0 || !all_hex(d) || hex_value(d) > u64::MAX {
        None
    } else {
        Some(hex_value(d) as u64)
    }
}

proof fn lemma_hex_grows(d: Seq<char>, k: int)
    requires
        0 <= k <= d.len(),
    ensures
        hex_value(d.take(k)) <= hex_value(d),
    decreases d.len() - k,
{
    if k == d.len() {
        assert(d.take(k) =~= d);
    } else {
        lemma_hex_grows(d, k + 1);
        assert(d.take(k + 1).drop_last() =~= d.take(k));
    }
}

fn digit_value(c: char) -> (r: Option<u64>)
    ensures
        r == hex_digit(c),
{
    let v = c as u32;
    if 48 <= v && v <= 57 {
        Some((v - 48) as u64)
    } else if 97 <= v && v <= 102 {
        Some((v - 87) as u64)
    } else if 65 <= v && v <= 70 {
        Some((v - 55) as u64)
    } else {
        None
    }
}

/// Reads a number in hexadecimal from the characters from `from` to `to`.
pub fn parse_hex(s: &Vec<char>, from: usize, to: usize) -> (r: Option<u64>)
    requires
        from <= to <= s@.len(),
    ensures
        r == hex_number(s@.subrange(from as int, to as int)),
{
    let ghost text = s@.subrange(from as int, to as int);
    let start = if from < to && s[from] == '+' {
        from + 1
    } else {
        from
    };
    let ghost d = s@.subrange(start as int, to as int);
    proof {
        if start == from {
            assert(d =~= text);
        } else {
            assert(text[0] == '+');
            assert(d =~= text.drop_first());
        }
    }
    if start == to {
        return None;
    }
    let mut acc: u64 = 0;
    let mut i: usize = start;
    while i < to
        invariant
            start <= i <= to <= s@.len(),
            d == s@.subrange(start as int, to as int),
            text == s@.subrange(from as int, to as int),
            from <= start,
            hex_number(text) == digits_number(d),
            acc == hex_value(d.take(i - start)),
            forall|j: int| 0 <= j < i - start ==> hex_digit(#[trigger] d[j]) is Some,
        decreases to - i,
    {
        let ghost k = i - start;
        proof {
            assert(d.take(k + 1).drop_last() =~= d.take(k));
            assert(d.take(k + 1).last() == d[k]);
            assert(d[k] == s@[i as int]);
        }
        let v = match digit_value(s[i]) {
            Some(v) => v,
            None => {
                assert(hex_digit(d[k]) is None);
                assert(!all_hex(d));
                return None;
            },
        };
        assert(hex_value(d.take(k + 1)) == acc * 16 + v);
        if acc > (u64::MAX - v) / 16 {
            proof {
                lemma_hex_grows(d, k + 1);
                assert(hex_value(d) > u64::MAX);
            }
            return None;
        }
        acc = acc * 16 + v;
        i = i + 1;
    }
    proof {
        assert(d.take(d.len() as int) =~= d);
    }
    Some(acc)
}

/// `a - b` in arithmetic modulo 2^64.
pub open spec fn wrapped_minus(a: u64, b: u64) -> u64 {
    if a >= b {
        (a - b) as u64
    } else {
        (a - b + 0x1_0000_0000_0000_0000) as u64
    }
}

/// Subtracts modulo 2^64.
pub fn minus(a: u64, b: u64) -> (r: u64)
    ensures
        r == wrapped_minus(a, b),
{
    if a >= b {
        a - b
    } else {
        u64::MAX - (b - a) + 1
    }
}

/// The text from character `from` to character `to` of `s`.
pub fn text_between(s: &str, from: usize, to: usize) -> (r: String)
    requires
        from <= to <= s@.len(),
    ensures
        r@ == s@.subrange(from as int, to as int),
{
    String::from_str(s.substring_char(from, to))
}


/// `String::from_utf8` of the standard library: the text that the bytes
/// encode in UTF-8, if they encode one.
#[verifier::external_body]
pub(crate) fn string_from_utf8(bytes: Vec<u8>) -> (r: Option<String>)
    ensures
        r is Some <==> valid_utf8(bytes@),
        r matches Some(s) ==> s@ == decode_utf8(bytes@),
{
    String::from_utf8(bytes).ok()
}

} // verus!
