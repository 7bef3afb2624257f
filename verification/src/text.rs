//! Text building blocks shared by the front ends: characters of a string,
//! decimal and hexadecimal rendering of integers, and parsing of numbers.

use vstd::prelude::*;
use vstd::std_specs::iter::IteratorSpec;
use vstd::string::*;

verus! {

/// `String::push` of the standard library: the character is appended to the
/// end of the string.
pub assume_specification[ String::push ](s: &mut String, ch: char)
    ensures
        final(s)@ == old(s)@.push(ch),
;

/// The characters of `s`, in order.
pub fn chars_of(s: &str) -> (v: Vec<char>)
    ensures
        v@ == s@,
{
    let mut v: Vec<char> = Vec::new();
    for c in it: s.chars()
        invariant
            it.seq() == s@,
            v@ == s@.subrange(0, it.index() as int),
    {
        v.push(c);
        assert(v@ =~= s@.subrange(0, it.index() + 1));
    }
    assert(v@ =~= s@);
    v
}

/// Whether two strings hold the same text.
pub fn str_equal(a: &str, b: &str) -> (eq: bool)
    ensures
        eq == (a@ == b@),
{
    let x: Vec<char> = chars_of(a);
    let y: Vec<char> = chars_of(b);
    if x.len() != y.len() {
        return false;
    }
    let mut i: usize = 0;
    while i < x.len()
        invariant
            i <= x.len(),
            x.len() == y.len(),
            x@ == a@,
            y@ == b@,
            x@.subrange(0, i as int) == y@.subrange(0, i as int),
        decreases x.len() - i,
    {
        if x[i] != y[i] {
            assert(a@[i as int] != b@[i as int]);
            return false;
        }
        i = i + 1;
        assert(x@.subrange(0, i as int) =~= x@.subrange(0, i - 1).push(x@[i - 1]));
        assert(y@.subrange(0, i as int) =~= y@.subrange(0, i - 1).push(y@[i - 1]));
    }
    assert(x@ =~= x@.subrange(0, i as int));
    assert(y@ =~= y@.subrange(0, i as int));
    true
}

/// The string made of `chars`, in order.
pub fn string_of(chars: &[char]) -> (s: String)
    ensures
        s@ == chars@,
{
    let mut s: String = String::new();
    let mut i: usize = 0;
    while i < chars.len()
        invariant
            i <= chars.len(),
            s@ == chars@.subrange(0, i as int),
        decreases chars.len() - i,
    {
        s.push(chars[i]);
        i = i + 1;
        assert(s@ =~= chars@.subrange(0, i as int));
    }
    assert(s@ =~= chars@);
    s
}

/// Appends the characters of `chars` to `out`.
pub fn push_chars(out: &mut String, chars: &[char])
    ensures
        final(out)@ == old(out)@ + chars@,
{
    let ghost start = out@;
    let mut i: usize = 0;
    while i < chars.len()
        invariant
            i <= chars.len(),
            out@ == start + chars@.subrange(0, i as int),
        decreases chars.len() - i,
    {
        out.push(chars[i]);
        i = i + 1;
        assert(out@ =~= start + chars@.subrange(0, i as int));
    }
    assert(out@ =~= start + chars@);
}

/// The lowercase digit character of a value below sixteen.
pub open spec fn digit_char(d: nat) -> char {
    if d == 0 {
        '0'
    } else if d == 1 {
        '1'
    } else if d == 2 {
        '2'
    } else if d == 3 {
        '3'
    } else if d == 4 {
        '4'
    } else if d == 5 {
        '5'
    } else if d == 6 {
        '6'
    } else if d == 7 {
        '7'
    } else if d == 8 {
        '8'
    } else if d == 9 {
        '9'
    } else if d == 10 {
        'a'
    } else if d == 11 {
        'b'
    } else if d == 12 {
        'c'
    } else if d == 13 {
        'd'
    } else if d == 14 {
        'e'
    } else {
        'f'
    }
}

/// The value of a digit character in the given radix (ten or sixteen; both
/// cases of the letters count in radix sixteen), if it is one.
pub open spec fn digit_value(c: char, radix: nat) -> Option<nat> {
    if '0' <= c && c <= '9' {
        Some((c as nat - '0' as nat) as nat)
    } else if radix == 16 && 'a' <= c && c <= 'f' {
        Some((c as nat - 'a' as nat + 10) as nat)
    } else if radix == 16 && 'A' <= c && c <= 'F' {
        Some((c as nat - 'A' as nat + 10) as nat)
    } else {
        None
    }
}

/// The digits of `n` in radix sixteen (any other radix counts as ten), most
/// significant first, without leading zeros (a single `0` for zero).
pub open spec fn digits(n: nat, radix: nat) -> Seq<char>
    decreases n,
{
    if radix == 16 {
        if n < 16 {
            seq![digit_char(n)]
        } else {
            digits(n / 16, 16).push(digit_char(n % 16))
        }
    } else {
        if n < 10 {
            seq![digit_char(n)]
        } else {
            digits(n / 10, radix).push(digit_char(n % 10))
        }
    }
}

/// The digits of `n` in the given radix, padded on the left with zeros to at
/// least `width` characters.
pub open spec fn padded_digits(n: nat, radix: nat, width: nat) -> Seq<char> {
    let d = digits(n, radix);
    if d.len() >= width {
        d
    } else {
        Seq::new((width - d.len()) as nat, |i: int| '0') + d
    }
}

/// `n` in decimal.
pub open spec fn decimal(n: nat) -> Seq<char> {
    digits(n, 10)
}

/// `n` in lowercase hexadecimal, without prefix.
pub open spec fn hex(n: nat) -> Seq<char> {
    digits(n, 16)
}

/// `n` as `0x` and sixteen lowercase hexadecimal digits.
pub open spec fn hex16(n: nat) -> Seq<char> {
    seq!['0', 'x'] + padded_digits(n, 16, 16)
}

/// The digit character of a value below sixteen.
pub fn digit_to_char(d: u8) -> (c: char)
    requires
        d < 16,
    ensures
        c == digit_char(d as nat),
{
    if d == 0 {
        '0'
    } else if d == 1 {
        '1'
    } else if d == 2 {
        '2'
    } else if d == 3 {
        '3'
    } else if d == 4 {
        '4'
    } else if d == 5 {
        '5'
    } else if d == 6 {
        '6'
    } else if d == 7 {
        '7'
    } else if d == 8 {
        '8'
    } else if d == 9 {
        '9'
    } else if d == 10 {
        'a'
    } else if d == 11 {
        'b'
    } else if d == 12 {
        'c'
    } else if d == 13 {
        'd'
    } else if d == 14 {
        'e'
    } else {
        'f'
    }
}

/// The digits of `value` in radix ten or sixteen, most significant first.
#[verifier::rlimit(50)]
fn digits_of(value: u64, radix: u64) -> (v: Vec<char>)
    requires
        radix == 10 || radix == 16,
    ensures
        v@ == digits(value as nat, radix as nat),
    decreases value,
{
    if value < radix {
        let mut v: Vec<char> = Vec::new();
        v.push(digit_to_char(value as u8));
        assert(v@ =~= seq![digit_char(value as nat)]);
        v
    } else {
        let mut v: Vec<char> = digits_of(value / radix, radix);
        v.push(digit_to_char((value % radix) as u8));
        v
    }
}

/// Appends `value` in decimal.
pub fn push_decimal(out: &mut String, value: u64)
    ensures
        final(out)@ == old(out)@ + decimal(value as nat),
{
    let d: Vec<char> = digits_of(value, 10);
    push_chars(out, d.as_slice());
}

/// Appends `value` in lowercase hexadecimal, without prefix or padding.
pub fn push_hex(out: &mut String, value: u64)
    ensures
        final(out)@ == old(out)@ + hex(value as nat),
{
    let d: Vec<char> = digits_of(value, 16);
    push_chars(out, d.as_slice());
}

/// Appends `value` in lowercase hexadecimal, padded with zeros on the left
/// to at least `width` digits.
pub fn push_hex_padded(out: &mut String, value: u64, width: usize)
    ensures
        final(out)@ == old(out)@ + padded_digits(value as nat, 16, width as nat),
{
    let ghost start = out@;
    let d: Vec<char> = digits_of(value, 16);
    if d.len() < width {
        let fill: usize = width - d.len();
        let mut i: usize = 0;
        while i < fill
            invariant
                i <= fill,
                out@ == start + Seq::new(i as nat, |k: int| '0'),
            decreases fill - i,
        {
            out.push('0');
            i = i + 1;
            assert(out@ =~= start + Seq::new(i as nat, |k: int| '0'));
        }
    }
    push_chars(out, d.as_slice());
    assert(out@ =~= start + padded_digits(value as nat, 16, width as nat));
}

/// Appends `value` as `0x` and sixteen lowercase hexadecimal digits.
pub fn push_hex16(out: &mut String, value: u64)
    ensures
        final(out)@ == old(out)@ + hex16(value as nat),
{
    let ghost start = out@;
    out.push('0');
    out.push('x');
    push_hex_padded(out, value, 16);
    assert(out@ =~= start + hex16(value as nat));
}

/// Appends a string literal or any other string slice.
pub fn push_str(out: &mut String, s: &str)
    ensures
        final(out)@ == old(out)@ + s@,
{
    out.append(s);
}

/// The number that a run of digit characters denotes in the given radix, or
/// `None` if one of the characters is no digit of that radix. The empty run
/// denotes zero.
pub open spec fn digits_value(s: Seq<char>, radix: nat) -> Option<nat>
    decreases s.len(),
{
    if s.len() == 0 {
        Some(0)
    } else {
        match (digits_value(s.drop_last(), radix), digit_value(s.last(), radix)) {
            (Some(high), Some(d)) => Some(high * radix + d),
            _ => None,
        }
    }
}

/// The unsigned number that `s` denotes: an optional `+`, then at least one
/// digit of the radix and nothing else, with a value of at most `max`.
pub open spec fn parse_unsigned(s: Seq<char>, radix: nat, max: nat) -> Option<nat> {
    let body = if s.len() > 0 && s[0] == '+' {
        s.drop_first()
    } else {
        s
    };
    if body.len() == 0 {
        None
    } else {
        match digits_value(body, radix) {
            Some(v) => if v <= max {
                Some(v)
            } else {
                None
            },
            None => None,
        }
    }
}

/// A run of digits denotes at least what any of its prefixes denotes, and
/// every prefix of a run of digits is one.
pub proof fn lemma_digits_value_prefix(s: Seq<char>, radix: nat, k: int)
    requires
        0 <= k <= s.len(),
        radix >= 1,
    ensures
        digits_value(s, radix) matches Some(v) ==> (digits_value(s.subrange(0, k), radix) matches Some(
            w,
        ) && w <= v),
    decreases s.len(),
{
    if k == s.len() {
        assert(s.subrange(0, k) =~= s);
    } else {
        assert(s.drop_last().subrange(0, k) =~= s.subrange(0, k));
        lemma_digits_value_prefix(s.drop_last(), radix, k);
        if let Some(v) = digits_value(s, radix) {
            let high = digits_value(s.drop_last(), radix)->0;
            assert(high * radix >= high) by (nonlinear_arith)
                requires
                    radix >= 1,
                    high >= 0,
            ;
        }
    }
}

/// The value of a digit character in radix ten or sixteen.
pub fn char_digit(c: char, radix: u64) -> (d: Option<u8>)
    ensures
        d matches Some(x) ==> digit_value(c, radix as nat) == Some(x as nat) && x < 16 && (radix
            != 16 ==> x < 10),
        d is None ==> digit_value(c, radix as nat) is None,
{
    let x: u32 = c as u32;
    if 48 <= x && x <= 57 {
        Some((x - 48) as u8)
    } else if radix == 16 && 97 <= x && x <= 102 {
        Some((x - 97 + 10) as u8)
    } else if radix == 16 && 65 <= x && x <= 70 {
        Some((x - 65 + 10) as u8)
    } else {
        None
    }
}

/// Reads an unsigned number in radix ten or sixteen, as `parse_unsigned`
/// describes it, with `u64::MAX` as the largest value.
#[verifier::rlimit(50)]
pub fn parse_u64(s: &[char], radix: u64) -> (r: Option<u64>)
    requires
        radix == 10 || radix == 16,
    ensures
        match parse_unsigned(s@, radix as nat, u64::MAX as nat) {
            Some(v) => r == Some(v as u64),
            None => r is None,
        },
{
    let start: usize = if s.len() > 0 && s[0] == '+' {
        1
    } else {
        0
    };
    if start == s.len() {
        return None;
    }
    let ghost body = s@.subrange(start as int, s@.len() as int);
    assert(body =~= if start == 1 {
        s@.drop_first()
    } else {
        s@
    });
    let mut acc: u64 = 0;
    let mut i: usize = start;
    while i < s.len()
        invariant
            start <= i <= s.len(),
            radix == 10 || radix == 16,
            body == s@.subrange(start as int, s@.len() as int),
            body.len() > 0,
            body == (if s@.len() > 0 && s@[0] == '+' {
                s@.drop_first()
            } else {
                s@
            }),
            digits_value(body.subrange(0, i - start), radix as nat) == Some(acc as nat),
        decreases s.len() - i,
    {
        let ghost prefix = body.subrange(0, i - start);
        let ghost next = body.subrange(0, i + 1 - start);
        proof {
            assert(next.drop_last() =~= prefix);
            assert(next.last() == s@[i as int]);
            lemma_digits_value_prefix(body, radix as nat, i + 1 - start);
        }
        match char_digit(s[i], radix) {
            None => {
                return None;
            },
            Some(d) => {
                if acc > (u64::MAX - d as u64) / radix {
                    proof {
                        assert(acc as nat * radix as nat + d as nat > u64::MAX as nat)
                            by (nonlinear_arith)
                            requires
                                acc as int > (u64::MAX as int - d as int) / (radix as int),
                                radix == 10 || radix == 16,
                                d < 16,
                        ;
                    }
                    return None;
                }
                assert(acc * radix + d <= u64::MAX) by (nonlinear_arith)
                    requires
                        acc as int <= (u64::MAX as int - d as int) / (radix as int),
                        radix == 10 || radix == 16,
                        d < 16,
                ;
                acc = acc * radix + d as u64;
            },
        }
        i = i + 1;
    }
    assert(body.subrange(0, i - start) =~= body);
    Some(acc)
}

/// Reads an unsigned decimal number that fits in `usize`.
pub fn parse_usize(s: &[char]) -> (r: Option<usize>)
    ensures
        match parse_unsigned(s@, 10, usize::MAX as nat) {
            Some(v) => r == Some(v as usize),
            None => r is None,
        },
{
    match parse_u64(s, 10) {
        Some(v) => {
            if v <= usize::MAX as u64 {
                Some(v as usize)
            } else {
                None
            }
        },
        None => None,
    }
}

} // verus!
