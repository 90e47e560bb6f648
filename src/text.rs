//! Character-level building blocks of the envelope text: the standard base64
//! alphabet and decimal scheme tags.
use vstd::prelude::*;

use crate::primitives::push_char;

verus! {

/// The character that stands for a six-bit value in the standard base64 alphabet.
pub open spec fn base64_digit(v: int) -> char {
    if v < 26 {
        ((65 + v) as u8) as char
    } else if v < 52 {
        ((97 + v - 26) as u8) as char
    } else if v < 62 {
        ((48 + v - 52) as u8) as char
    } else if v == 62 {
        '+'
    } else {
        '/'
    }
}

/// Standard base64 with padding: each group of three bytes becomes four
/// characters, and a final group of one or two bytes is padded with `=`.
pub open spec fn base64_of(b: Seq<u8>) -> Seq<char>
    decreases b.len(),
{
    if b.len() == 0 {
        Seq::empty()
    } else if b.len() == 1 {
        seq![base64_digit((b[0] as int) / 4), base64_digit(((b[0] as int) % 4) * 16), '=', '=']
    } else if b.len() == 2 {
        seq![
            base64_digit((b[0] as int) / 4),
            base64_digit(((b[0] as int) % 4) * 16 + (b[1] as int) / 16),
            base64_digit(((b[1] as int) % 16) * 4),
            '=',
        ]
    } else {
        seq![
            base64_digit((b[0] as int) / 4),
            base64_digit(((b[0] as int) % 4) * 16 + (b[1] as int) / 16),
            base64_digit(((b[1] as int) % 16) * 4 + (b[2] as int) / 64),
            base64_digit((b[2] as int) % 64),
        ] + base64_of(b.subrange(3, b.len() as int))
    }
}

/// A character that can occur in padded standard base64 text.
pub open spec fn is_base64_char(c: char) -> bool {
    ||| 'A' <= c <= 'Z'
    ||| 'a' <= c <= 'z'
    ||| '0' <= c <= '9'
    ||| c == '+'
    ||| c == '/'
    ||| c == '='
}

pub open spec fn all_base64_chars(s: Seq<char>) -> bool {
    forall|i: int| 0 <= i < s.len() ==> is_base64_char(#[trigger] s[i])
}

proof fn lemma_base64_digit(v: int)
    requires
        0 <= v < 64,
    ensures
        is_base64_char(base64_digit(v)),
{
}

/// Every character of an encoding is taken from the base64 alphabet.
pub proof fn lemma_base64_chars(b: Seq<u8>)
    ensures
        all_base64_chars(base64_of(b)),
    decreases b.len(),
{
    if b.len() == 0 {
    } else if b.len() == 1 {
        lemma_base64_digit((b[0] as int) / 4);
        lemma_base64_digit(((b[0] as int) % 4) * 16);
    } else if b.len() == 2 {
        lemma_base64_digit((b[0] as int) / 4);
        lemma_base64_digit(((b[0] as int) % 4) * 16 + (b[1] as int) / 16);
        lemma_base64_digit(((b[1] as int) % 16) * 4);
    } else {
        lemma_base64_digit((b[0] as int) / 4);
        lemma_base64_digit(((b[0] as int) % 4) * 16 + (b[1] as int) / 16);
        lemma_base64_digit(((b[1] as int) % 16) * 4 + (b[2] as int) / 64);
        lemma_base64_digit((b[2] as int) % 64);
        let rest = b.subrange(3, b.len() as int);
        lemma_base64_chars(rest);
        let head = seq![
            base64_digit((b[0] as int) / 4),
            base64_digit(((b[0] as int) % 4) * 16 + (b[1] as int) / 16),
            base64_digit(((b[1] as int) % 16) * 4 + (b[2] as int) / 64),
            base64_digit((b[2] as int) % 64),
        ];
        assert forall|i: int| 0 <= i < base64_of(b).len() implies is_base64_char(
            #[trigger] base64_of(b)[i],
        ) by {
            if i >= 4 {
                assert(base64_of(b)[i] == base64_of(rest)[i - 4]);
            } else {
                assert(base64_of(b)[i] == head[i]);
            }
        }
    }
}

/// The base64 text of `b` has four characters for each started group of three bytes.
proof fn lemma_base64_len(b: Seq<u8>)
    ensures
        base64_of(b).len() == 4 * ((b.len() + 2) / 3),
    decreases b.len(),
{
    if b.len() >= 3 {
        lemma_base64_len(b.subrange(3, b.len() as int));
    }
}

proof fn lemma_digit_injective(u: int, v: int)
    requires
        0 <= u < 64,
        0 <= v < 64,
        base64_digit(u) == base64_digit(v),
    ensures
        u == v,
{
}

proof fn lemma_digit_not_pad(u: int)
    requires
        0 <= u < 64,
    ensures
        base64_digit(u) != '=',
{
}

/// Three bytes are recovered from their four sextets.
proof fn lemma_group_injective(x0: int, x1: int, x2: int, y0: int, y1: int, y2: int)
    requires
        0 <= x0 < 256 && 0 <= x1 < 256 && 0 <= x2 < 256,
        0 <= y0 < 256 && 0 <= y1 < 256 && 0 <= y2 < 256,
        x0 / 4 == y0 / 4,
        (x0 % 4) * 16 + x1 / 16 == (y0 % 4) * 16 + y1 / 16,
        (x1 % 16) * 4 + x2 / 64 == (y1 % 16) * 4 + y2 / 64,
        x2 % 64 == y2 % 64,
    ensures
        x0 == y0 && x1 == y1 && x2 == y2,
{
}

/// Distinct byte strings have distinct base64 texts.
pub proof fn lemma_base64_injective(x: Seq<u8>, y: Seq<u8>)
    requires
        base64_of(x) == base64_of(y),
    ensures
        x == y,
    decreases x.len(),
{
    let s = base64_of(x);
    lemma_base64_len(x);
    lemma_base64_len(y);
    if x.len() >= 3 && y.len() >= 3 {
        let x0 = x[0] as int;
        let x1 = x[1] as int;
        let x2 = x[2] as int;
        let y0 = y[0] as int;
        let y1 = y[1] as int;
        let y2 = y[2] as int;
        assert(s[0] == base64_digit(x0 / 4) && s[0] == base64_digit(y0 / 4));
        assert(s[1] == base64_digit((x0 % 4) * 16 + x1 / 16));
        assert(s[1] == base64_digit((y0 % 4) * 16 + y1 / 16));
        assert(s[2] == base64_digit((x1 % 16) * 4 + x2 / 64));
        assert(s[2] == base64_digit((y1 % 16) * 4 + y2 / 64));
        assert(s[3] == base64_digit(x2 % 64) && s[3] == base64_digit(y2 % 64));
        lemma_digit_injective(x0 / 4, y0 / 4);
        lemma_digit_injective((x0 % 4) * 16 + x1 / 16, (y0 % 4) * 16 + y1 / 16);
        lemma_digit_injective((x1 % 16) * 4 + x2 / 64, (y1 % 16) * 4 + y2 / 64);
        lemma_digit_injective(x2 % 64, y2 % 64);
        lemma_group_injective(x0, x1, x2, y0, y1, y2);
        let xr = x.subrange(3, x.len() as int);
        let yr = y.subrange(3, y.len() as int);
        assert(base64_of(xr) == s.subrange(4, s.len() as int));
        assert(base64_of(yr) == s.subrange(4, s.len() as int));
        lemma_base64_injective(xr, yr);
        assert(x == seq![x[0], x[1], x[2]] + xr);
        assert(y == seq![y[0], y[1], y[2]] + yr);
    } else if x.len() == 0 || y.len() == 0 {
        assert(x.len() == 0 && y.len() == 0);
        assert(x == y);
    } else {
        // Both texts are one group of four characters; the padding tells the
        // byte counts apart.
        assert(x.len() <= 3 && y.len() <= 3);
        let x0 = x[0] as int;
        let y0 = y[0] as int;
        if x.len() == 1 {
            lemma_digit_not_pad(((y[1] as int) % 16) * 4 + (y[2] as int) / 64);
            lemma_digit_not_pad(((y[1] as int) % 16) * 4);
            assert(y.len() == 1);
            lemma_digit_injective(x0 / 4, y0 / 4);
            lemma_digit_injective((x0 % 4) * 16, (y0 % 4) * 16);
            lemma_group_injective(x0, 0, 0, y0, 0, 0);
            assert(x == y);
        } else if x.len() == 2 {
            lemma_digit_not_pad(((x[1] as int) % 16) * 4);
            lemma_digit_not_pad((y[2] as int) % 64);
            assert(y.len() == 2);
            let x1 = x[1] as int;
            let y1 = y[1] as int;
            lemma_digit_injective(x0 / 4, y0 / 4);
            lemma_digit_injective((x0 % 4) * 16 + x1 / 16, (y0 % 4) * 16 + y1 / 16);
            lemma_digit_injective((x1 % 16) * 4, (y1 % 16) * 4);
            lemma_group_injective(x0, x1, 0, y0, y1, 0);
            assert(x == y);
        } else {
            lemma_digit_not_pad((x[2] as int) % 64);
            lemma_digit_not_pad(((x[1] as int) % 16) * 4 + (x[2] as int) / 64);
            lemma_base64_injective(y, x);
        }
    }
}

pub open spec fn is_digit(c: char) -> bool {
    '0' <= c <= '9'
}

pub open spec fn all_digits(s: Seq<char>) -> bool {
    forall|i: int| 0 <= i < s.len() ==> is_digit(#[trigger] s[i])
}

pub open spec fn digit_char(d: nat) -> char {
    ((48 + d) as u8) as char
}

/// The number that a string of decimal digits denotes.
pub open spec fn digits_value(s: Seq<char>) -> nat
    decreases s.len(),
{
    if s.len() == 0 {
        0
    } else {
        digits_value(s.drop_last()) * 10 + ((s.last() as u32) - 48) as nat
    }
}

/// The decimal digits of `n`, without leading zeros.
pub open spec fn decimal_of(n: nat) -> Seq<char>
    decreases n,
{
    if n < 10 {
        seq![digit_char(n)]
    } else {
        decimal_of(n / 10).push(digit_char(n % 10))
    }
}

/// A scheme tag: one or more decimal digits whose value fits in a `usize`.
pub open spec fn scheme_of(s: Seq<char>) -> Option<usize> {
    if s.len() > 0 && all_digits(s) && digits_value(s) <= usize::MAX {
        Some(digits_value(s) as usize)
    } else {
        None
    }
}

/// Reading the decimal digits of `n` gives back `n`.
pub proof fn lemma_decimal_round_trip(n: nat)
    ensures
        decimal_of(n).len() > 0,
        all_digits(decimal_of(n)),
        digits_value(decimal_of(n)) == n,
    decreases n,
{
    let d = decimal_of(n);
    assert((digit_char(n % 10) as u32) == 48 + n % 10);
    if n >= 10 {
        lemma_decimal_round_trip(n / 10);
        assert(d.drop_last() == decimal_of(n / 10));
        assert(d.last() == digit_char(n % 10));
        assert(digits_value(d) == digits_value(decimal_of(n / 10)) * 10 + n % 10);
        assert((n / 10) * 10 + n % 10 == n);
    } else {
        assert(d.drop_last() == Seq::<char>::empty());
        assert(d.last() == digit_char(n));
        assert(digits_value(d) == digits_value(d.drop_last()) * 10 + n);
    }
}

/// A prefix of a digit string never denotes more than the whole string.
proof fn lemma_digits_prefix(s: Seq<char>, k: int)
    requires
        0 <= k <= s.len(),
    ensures
        digits_value(s.subrange(0, k)) <= digits_value(s),
    decreases s.len(),
{
    if k < s.len() {
        assert(s.drop_last().subrange(0, k) == s.subrange(0, k));
        lemma_digits_prefix(s.drop_last(), k);
    } else {
        assert(s.subrange(0, k) == s);
    }
}

/// Appends the decimal digits of `n` to `out`.
pub fn write_decimal(n: usize, out: &mut String)
    ensures
        final(out)@ == old(out)@ + decimal_of(n as nat),
    decreases n,
{
    if n >= 10 {
        write_decimal(n / 10, out);
    }
    let d: u8 = (n % 10) as u8;
    push_char(out, (48 + d) as char);
    assert(decimal_of(n as nat) == if n < 10 {
        seq![digit_char(n as nat)]
    } else {
        decimal_of((n / 10) as nat).push(digit_char((n % 10) as nat))
    });
}

/// Reads a scheme tag from ASCII text.
pub fn parse_scheme(s: &str) -> (r: Option<usize>)
    requires
        s.is_ascii(),
    ensures
        r == scheme_of(s@),
{
    let n = s.unicode_len();
    if n == 0 {
        return None;
    }
    let mut value: usize = 0;
    let mut i: usize = 0;
    while i < n
        invariant
            n == s@.len(),
            s.is_ascii(),
            0 <= i <= n,
            all_digits(s@.subrange(0, i as int)),
            value as nat == digits_value(s@.subrange(0, i as int)),
        decreases n - i,
    {
        let c = s.get_ascii(i);
        proof {
            assert('\0' <= s@[i as int] <= '\u{7f}');
        }
        if c < 48 || c > 57 {
            assert(!is_digit(s@[i as int]));
            return None;
        }
        let d: usize = (c - 48) as usize;
        let ghost prefix = s@.subrange(0, i as int + 1);
        assert(prefix.drop_last() == s@.subrange(0, i as int));
        if value > (usize::MAX - d) / 10 {
            proof {
                assert(digits_value(prefix) > usize::MAX) by (nonlinear_arith)
                    requires
                        value > (usize::MAX - d) / 10,
                        digits_value(prefix) == value * 10 + d,
                ;
                if all_digits(s@) {
                    lemma_digits_prefix(s@, i as int + 1);
                }
            }
            return None;
        }
        value = value * 10 + d;
        i = i + 1;
    }
    assert(s@.subrange(0, n as int) == s@);
    Some(value)
}

} // verus!
