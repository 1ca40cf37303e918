//! Character and string building blocks: decimal rendering, padding,
//! ASCII case mapping, and string equality, all with exact contracts.

use vstd::prelude::*;
use vstd::string::*;

verus! {

/// Relies on std's String::push: appends exactly one character at the end.
#[verifier::external_body]
pub(crate) fn push_char(s: &mut String, c: char)
    ensures
        final(s)@ == old(s)@.push(c),
{
    s.push(c);
}

pub open spec fn is_digit_char(c: char) -> bool {
    '0' <= c && c <= '9'
}

pub open spec fn digit_val(c: char) -> nat
    recommends
        is_digit_char(c),
{
    (c as int - '0' as int) as nat
}

pub open spec fn char_of_digit(d: nat) -> char
    recommends
        d < 10,
{
    if d == 0 {
        '0'
    } else if d == 1 {
        '1'
    } else if d == 2 {
        '2'
    } else if d == 3 {
        '3'
    } else if d == 4 {
        '4'
    } else if d == 5 {
        '5'
    } else if d == 6 {
        '6'
    } else if d == 7 {
        '7'
    } else if d == 8 {
        '8'
    } else {
        '9'
    }
}

pub fn digit_char(d: u64) -> (c: char)
    requires
        d < 10,
    ensures
        c == char_of_digit(d as nat),
{
    if d == 0 {
        '0'
    } else if d == 1 {
        '1'
    } else if d == 2 {
        '2'
    } else if d == 3 {
        '3'
    } else if d == 4 {
        '4'
    } else if d == 5 {
        '5'
    } else if d == 6 {
        '6'
    } else if d == 7 {
        '7'
    } else if d == 8 {
        '8'
    } else {
        '9'
    }
}

/// The decimal digits of `n`, most significant first, no leading zeros
/// (a lone `'0'` for zero).
pub open spec fn dec_digits(n: nat) -> Seq<char>
    decreases n,
{
    if n < 10 {
        seq![char_of_digit(n)]
    } else {
        dec_digits(n / 10).push(char_of_digit(n % 10))
    }
}

/// Renders `n` in decimal, most significant digit first.
pub fn u64_to_dec(n: u64) -> (s: String)
    ensures
        s@ == dec_digits(n as nat),
    decreases n,
{
    if n < 10 {
        let mut s = String::new();
        push_char(&mut s, digit_char(n));
        s
    } else {
        let mut s = u64_to_dec(n / 10);
        push_char(&mut s, digit_char(n % 10));
        s
    }
}

pub open spec fn zeros(n: nat) -> Seq<char>
    decreases n,
{
    if n == 0 {
        Seq::empty()
    } else {
        zeros((n - 1) as nat).push('0')
    }
}

/// `s` left-padded with `'0'` to width `w` (unchanged if already wide enough).
pub open spec fn zero_pad(s: Seq<char>, w: nat) -> Seq<char> {
    if s.len() >= w {
        s
    } else {
        zeros((w - s.len()) as nat) + s
    }
}

/// Compares two strings character by character.
pub fn str_eq(a: &str, b: &str) -> (r: bool)
    ensures
        r == (a@ == b@),
{
    let an = a.unicode_len();
    let bn = b.unicode_len();
    if an != bn {
        return false;
    }
    for i in 0..an
        invariant
            an == a@.len(),
            an == b@.len(),
            forall|k: int| 0 <= k < i ==> a@[k] == b@[k],
    {
        if a.get_char(i) != b.get_char(i) {
            return false;
        }
    }
    proof {
        assert(a@ =~= b@);
    }
    true
}

/// The characters of `s`, in order.
pub fn str_to_chars(s: &str) -> (v: Vec<char>)
    ensures
        v@ == s@,
{
    let n = s.unicode_len();
    let mut v: Vec<char> = Vec::new();
    for i in 0..n
        invariant
            n == s@.len(),
            v@ == s@.take(i as int),
    {
        v.push(s.get_char(i));
        proof {
            assert(v@ =~= s@.take(i + 1));
        }
    }
    proof {
        assert(s@.take(n as int) =~= s@);
    }
    v
}

pub open spec fn to_upper_char(c: char) -> char {
    if c == 'a' {
        'A'
    } else if c == 'b' {
        'B'
    } else if c == 'c' {
        'C'
    } else if c == 'd' {
        'D'
    } else if c == 'e' {
        'E'
    } else if c == 'f' {
        'F'
    } else if c == 'g' {
        'G'
    } else if c == 'h' {
        'H'
    } else if c == 'i' {
        'I'
    } else if c == 'j' {
        'J'
    } else if c == 'k' {
        'K'
    } else if c == 'l' {
        'L'
    } else if c == 'm' {
        'M'
    } else if c == 'n' {
        'N'
    } else if c == 'o' {
        'O'
    } else if c == 'p' {
        'P'
    } else if c == 'q' {
        'Q'
    } else if c == 'r' {
        'R'
    } else if c == 's' {
        'S'
    } else if c == 't' {
        'T'
    } else if c == 'u' {
        'U'
    } else if c == 'v' {
        'V'
    } else if c == 'w' {
        'W'
    } else if c == 'x' {
        'X'
    } else if c == 'y' {
        'Y'
    } else if c == 'z' {
        'Z'
    } else {
        c
    }
}

pub open spec fn to_lower_char(c: char) -> char {
    if c == 'A' {
        'a'
    } else if c == 'B' {
        'b'
    } else if c == 'C' {
        'c'
    } else if c == 'D' {
        'd'
    } else if c == 'E' {
        'e'
    } else if c == 'F' {
        'f'
    } else if c == 'G' {
        'g'
    } else if c == 'H' {
        'h'
    } else if c == 'I' {
        'i'
    } else if c == 'J' {
        'j'
    } else if c == 'K' {
        'k'
    } else if c == 'L' {
        'l'
    } else if c == 'M' {
        'm'
    } else if c == 'N' {
        'n'
    } else if c == 'O' {
        'o'
    } else if c == 'P' {
        'p'
    } else if c == 'Q' {
        'q'
    } else if c == 'R' {
        'r'
    } else if c == 'S' {
        's'
    } else if c == 'T' {
        't'
    } else if c == 'U' {
        'u'
    } else if c == 'V' {
        'v'
    } else if c == 'W' {
        'w'
    } else if c == 'X' {
        'x'
    } else if c == 'Y' {
        'y'
    } else if c == 'Z' {
        'z'
    } else {
        c
    }
}

pub fn upper_char(c: char) -> (r: char)
    ensures
        r == to_upper_char(c),
{
    if 'a' <= c && c <= 'z' {
        if c == 'a' {
            'A'
        } else if c == 'b' {
            'B'
        } else if c == 'c' {
            'C'
        } else if c == 'd' {
            'D'
        } else if c == 'e' {
            'E'
        } else if c == 'f' {
            'F'
        } else if c == 'g' {
            'G'
        } else if c == 'h' {
            'H'
        } else if c == 'i' {
            'I'
        } else if c == 'j' {
            'J'
        } else if c == 'k' {
            'K'
        } else if c == 'l' {
            'L'
        } else if c == 'm' {
            'M'
        } else if c == 'n' {
            'N'
        } else if c == 'o' {
            'O'
        } else if c == 'p' {
            'P'
        } else if c == 'q' {
            'Q'
        } else if c == 'r' {
            'R'
        } else if c == 's' {
            'S'
        } else if c == 't' {
            'T'
        } else if c == 'u' {
            'U'
        } else if c == 'v' {
            'V'
        } else if c == 'w' {
            'W'
        } else if c == 'x' {
            'X'
        } else if c == 'y' {
            'Y'
        } else {
            'Z'
        }
    } else {
        c
    }
}

pub fn lower_char(c: char) -> (r: char)
    ensures
        r == to_lower_char(c),
{
    if 'A' <= c && c <= 'Z' {
        if c == 'A' {
            'a'
        } else if c == 'B' {
            'b'
        } else if c == 'C' {
            'c'
        } else if c == 'D' {
            'd'
        } else if c == 'E' {
            'e'
        } else if c == 'F' {
            'f'
        } else if c == 'G' {
            'g'
        } else if c == 'H' {
            'h'
        } else if c == 'I' {
            'i'
        } else if c == 'J' {
            'j'
        } else if c == 'K' {
            'k'
        } else if c == 'L' {
            'l'
        } else if c == 'M' {
            'm'
        } else if c == 'N' {
            'n'
        } else if c == 'O' {
            'o'
        } else if c == 'P' {
            'p'
        } else if c == 'Q' {
            'q'
        } else if c == 'R' {
            'r'
        } else if c == 'S' {
            's'
        } else if c == 'T' {
            't'
        } else if c == 'U' {
            'u'
        } else if c == 'V' {
            'v'
        } else if c == 'W' {
            'w'
        } else if c == 'X' {
            'x'
        } else if c == 'Y' {
            'y'
        } else {
            'z'
        }
    } else {
        c
    }
}

/// `s` with every ASCII letter mapped to upper case.
pub open spec fn upper_seq(s: Seq<char>) -> Seq<char> {
    s.map_values(|c: char| to_upper_char(c))
}

pub fn to_ascii_upper(s: &str) -> (r: String)
    ensures
        r@ == upper_seq(s@),
{
    let n = s.unicode_len();
    let mut r = String::new();
    for i in 0..n
        invariant
            n == s@.len(),
            r@ == s@.take(i as int).map_values(|c: char| to_upper_char(c)),
    {
        push_char(&mut r, upper_char(s.get_char(i)));
        proof {
            assert(r@ =~= s@.take(i + 1).map_values(|c: char| to_upper_char(c)));
        }
    }
    proof {
        assert(s@.take(n as int) =~= s@);
    }
    r
}

/// The numeric value of a sequence of decimal digit characters,
/// most significant first; the empty sequence has value zero.
pub open spec fn digits_val(s: Seq<char>) -> nat
    decreases s.len(),
{
    if s.len() == 0 {
        0
    } else {
        digits_val(s.drop_last()) * 10 + digit_val(s.last())
    }
}

} // verus!
