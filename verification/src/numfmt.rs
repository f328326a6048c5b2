//! Numeral formatting: writing a value in a numeric radix, zero-padded on
//! the left to a minimum width, and reading such a digit string back.

use vstd::prelude::*;
use vstd::arithmetic::div_mod::{lemma_div_decreases, lemma_fundamental_div_mod};
use vstd::arithmetic::div_mod::lemma_multiply_divide_lt;
use vstd::arithmetic::power::pow;

verus! {

/// The character for one digit value, for radices up to 16.
pub open spec fn spec_digit_char(d: nat) -> char {
    if d == 0 {
        '0'
    } else if d == 1 {
        '1'
    } else if d == 2 {
        '2'
    } else if d == 3 {
        '3'
    } else if d == 4 {
        '4'
    } else if d == 5 {
        '5'
    } else if d == 6 {
        '6'
    } else if d == 7 {
        '7'
    } else if d == 8 {
        '8'
    } else if d == 9 {
        '9'
    } else if d == 10 {
        'A'
    } else if d == 11 {
        'B'
    } else if d == 12 {
        'C'
    } else if d == 13 {
        'D'
    } else if d == 14 {
        'E'
    } else {
        'F'
    }
}

/// The value of one digit character; 16 marks a character that is no digit.
pub open spec fn spec_digit_val(c: char) -> nat {
    if c == '0' {
        0
    } else if c == '1' {
        1
    } else if c == '2' {
        2
    } else if c == '3' {
        3
    } else if c == '4' {
        4
    } else if c == '5' {
        5
    } else if c == '6' {
        6
    } else if c == '7' {
        7
    } else if c == '8' {
        8
    } else if c == '9' {
        9
    } else if c == 'A' {
        10
    } else if c == 'B' {
        11
    } else if c == 'C' {
        12
    } else if c == 'D' {
        13
    } else if c == 'E' {
        14
    } else if c == 'F' {
        15
    } else {
        16
    }
}

/// Every character of `s` is a digit of `radix`.
pub open spec fn all_digits(s: Seq<char>, radix: nat) -> bool {
    forall|i: int| 0 <= i < s.len() ==> spec_digit_val(#[trigger] s[i]) < radix
}

/// `n` written in `radix`, zero-padded on the left to at least `width`
/// digits (a value with more digits than `width` keeps them all).
pub open spec fn spec_padded(n: nat, radix: nat, width: nat) -> Seq<char>
    decreases n, width,
{
    if radix < 2 {
        Seq::empty()
    } else if n < radix && width <= 1 {
        seq![spec_digit_char(n)]
    } else {
        proof {
            if n > 0 {
                lemma_div_decreases(n as int, radix as int);
            }
        }
        spec_padded(n / radix, radix, if width == 0 {
            0
        } else {
            (width - 1) as nat
        }) + seq![spec_digit_char(n % radix)]
    }
}

/// The value of a digit string, most significant digit first.
pub open spec fn spec_text_val(s: Seq<char>, radix: nat) -> nat
    decreases s.len(),
{
    if s.len() == 0 {
        0
    } else {
        spec_text_val(s.drop_last(), radix) * radix + spec_digit_val(s.last())
    }
}

/// Reading a digit character back gives the digit's value.
proof fn lemma_digit_char_val(d: nat)
    requires
        d < 16,
    ensures
        spec_digit_val(spec_digit_char(d)) == d,
{
}

/// Round-trip law of the numeral encoding: the value can be re-derived
/// from the padded digit string, whose characters are all digits.
pub proof fn lemma_padded_val(n: nat, radix: nat, width: nat)
    requires
        2 <= radix <= 16,
    ensures
        spec_text_val(spec_padded(n, radix, width), radix) == n,
        all_digits(spec_padded(n, radix, width), radix),
    decreases n, width,
{
    if n < radix && width <= 1 {
        let s = spec_padded(n, radix, width);
        assert(s == seq![spec_digit_char(n)]);
        assert(s.len() == 1);
        assert(s.last() == spec_digit_char(n));
        assert(s.drop_last() =~= Seq::<char>::empty());
        assert(spec_text_val(s.drop_last(), radix) == 0);
        lemma_digit_char_val(n);
        assert(spec_digit_val(s.last()) == n);
        assert(spec_text_val(s, radix) == 0 * radix + n);
    } else {
        let w2: nat = if width == 0 {
            0
        } else {
            (width - 1) as nat
        };
        if n > 0 {
            lemma_div_decreases(n as int, radix as int);
        }
        lemma_padded_val(n / radix, radix, w2);
        let p = spec_padded(n / radix, radix, w2);
        let s = spec_padded(n, radix, width);
        assert(s == p + seq![spec_digit_char(n % radix)]);
        assert(s.drop_last() =~= p);
        assert(s.last() == spec_digit_char(n % radix));
        lemma_digit_char_val(n % radix);
        lemma_fundamental_div_mod(n as int, radix as int);
        assert(spec_text_val(s, radix) == (n / radix) * radix + (n % radix));
        assert(forall|i: int|
            0 <= i < s.len() ==> spec_digit_val(#[trigger] s[i]) < radix) by {
            assert(forall|i: int| 0 <= i < p.len() ==> s[i] == p[i]);
        }
    }
}

/// A value below `radix ^ width` is written in exactly `width` digits.
pub proof fn lemma_padded_len(n: nat, radix: nat, width: nat)
    requires
        2 <= radix,
        1 <= width,
        n < pow(radix as int, width),
    ensures
        spec_padded(n, radix, width).len() == width,
    decreases width,
{
    reveal(pow);
    if width == 1 {
        vstd::arithmetic::power::lemma_pow1(radix as int);
        assert(n < radix);
    } else {
        let w2 = (width - 1) as nat;
        assert(pow(radix as int, width) == radix * pow(radix as int, w2));
        vstd::arithmetic::power::lemma_pow_positive(radix as int, w2);
        lemma_multiply_divide_lt(n as int, radix as int, pow(radix as int, w2));
        lemma_padded_len(n / radix, radix, w2);
    }
}

/// A digit string's value is below `radix ^ length`.
pub proof fn lemma_text_val_bound(s: Seq<char>, radix: nat)
    requires
        2 <= radix,
        all_digits(s, radix),
    ensures
        spec_text_val(s, radix) < pow(radix as int, s.len()),
    decreases s.len(),
{
    reveal(pow);
    if s.len() == 0 {
        assert(pow(radix as int, 0) == 1);
    } else {
        let d = s.drop_last();
        assert(all_digits(d, radix)) by {
            assert(forall|i: int| 0 <= i < d.len() ==> d[i] == s[i]);
        }
        lemma_text_val_bound(d, radix);
        let p = pow(radix as int, d.len());
        assert(pow(radix as int, s.len()) == radix * p);
        assert(spec_text_val(d, radix) * radix + spec_digit_val(s.last()) < radix * p) by (nonlinear_arith)
            requires
                spec_text_val(d, radix) < p,
                spec_digit_val(s.last()) < radix,
                radix >= 2,
                p >= 1,
        ;
    }
}

/// One digit character.
fn digit_char(d: u128) -> (c: char)
    requires
        d < 16,
    ensures
        c == spec_digit_char(d as nat),
{
    if d == 0 {
        '0'
    } else if d == 1 {
        '1'
    } else if d == 2 {
        '2'
    } else if d == 3 {
        '3'
    } else if d == 4 {
        '4'
    } else if d == 5 {
        '5'
    } else if d == 6 {
        '6'
    } else if d == 7 {
        '7'
    } else if d == 8 {
        '8'
    } else if d == 9 {
        '9'
    } else if d == 10 {
        'A'
    } else if d == 11 {
        'B'
    } else if d == 12 {
        'C'
    } else if d == 13 {
        'D'
    } else if d == 14 {
        'E'
    } else {
        'F'
    }
}

/// The value of a digit character, or `None` where the character is none.
fn digit_val(c: char) -> (d: Option<u8>)
    ensures
        match d {
            Some(v) => v == spec_digit_val(c) && v < 16,
            None => spec_digit_val(c) == 16,
        },
{
    match c {
        '0' => Some(0),
        '1' => Some(1),
        '2' => Some(2),
        '3' => Some(3),
        '4' => Some(4),
        '5' => Some(5),
        '6' => Some(6),
        '7' => Some(7),
        '8' => Some(8),
        '9' => Some(9),
        'A' => Some(10),
        'B' => Some(11),
        'C' => Some(12),
        'D' => Some(13),
        'E' => Some(14),
        'F' => Some(15),
        _ => None,
    }
}

/// Appends `n` written in `radix`, zero-padded to at least `width` digits.
pub fn push_padded(out: &mut Vec<char>, n: u128, radix: u64, width: usize)
    requires
        2 <= radix <= 16,
    ensures
        final(out)@ == old(out)@ + spec_padded(n as nat, radix as nat, width as nat),
    decreases n, width,
{
    let r = radix as u128;
    if n < r && width <= 1 {
        out.push(digit_char(n));
        assert(out@ =~= old(out)@ + spec_padded(n as nat, radix as nat, width as nat));
    } else {
        proof {
            if n > 0 {
                lemma_div_decreases(n as int, radix as int);
            }
        }
        let w2: usize = if width == 0 {
            0
        } else {
            width - 1
        };
        push_padded(out, n / r, radix, w2);
        out.push(digit_char(n % r));
        assert(out@ =~= old(out)@ + spec_padded(n as nat, radix as nat, width as nat));
    }
}

/// Reads a digit string of `radix` back to its value; `None` where some
/// character is no digit of the radix. The string must be short enough
/// for the value to fit the machine word.
pub fn parse_digits(s: &Vec<char>, radix: u64) -> (r: Option<u64>)
    requires
        2 <= radix <= 16,
        s@.len() <= 8,
    ensures
        match r {
            Some(v) => all_digits(s@, radix as nat) && v == spec_text_val(s@, radix as nat),
            None => !all_digits(s@, radix as nat),
        },
{
    let mut val: u64 = 0;
    let mut i: usize = 0;
    proof {
        assert(s@.take(0) =~= Seq::<char>::empty());
    }
    while i < s.len()
        invariant
            2 <= radix <= 16,
            s@.len() <= 8,
            0 <= i <= s@.len(),
            all_digits(s@.take(i as int), radix as nat),
            val == spec_text_val(s@.take(i as int), radix as nat),
        decreases s@.len() - i,
    {
        let c = s[i];
        proof {
            lemma_text_val_bound(s@.take(i as int), radix as nat);
            lemma_pow_base_le(radix as nat, 16, i as nat);
            vstd::arithmetic::power::lemma_pow_increases(16, i as nat, 8);
            lemma_pow_16_8();
        }
        match digit_val(c) {
            Some(d) => {
                if d as u64 >= radix {
                    assert(spec_digit_val(s@[i as int]) >= radix);
                    return None;
                }
                proof {
                    assert(val * radix + 16 < 0x10000000000) by (nonlinear_arith)
                        requires
                            val < 0x100000000,
                            radix <= 16,
                    ;
                }
                val = val * radix + (d as u64);
                proof {
                    assert(s@.take(i + 1).drop_last() =~= s@.take(i as int));
                    assert(s@.take(i + 1).last() == s@[i as int]);
                }
                i += 1;
            },
            None => {
                assert(spec_digit_val(s@[i as int]) >= radix);
                return None;
            },
        }
    }
    proof {
        assert(s@.take(i as int) =~= s@);
    }
    Some(val)
}

/// `16 ^ 8` written out, for overflow bounds.
proof fn lemma_pow_16_8()
    ensures
        pow(16, 8) == 0x100000000,
{
    reveal(pow);
    assert(pow(16, 0) == 1);
    assert(pow(16, 1) == 16);
    assert(pow(16, 2) == 0x100);
    assert(pow(16, 3) == 0x1000);
    assert(pow(16, 4) == 0x10000);
    assert(pow(16, 5) == 0x100000);
    assert(pow(16, 6) == 0x1000000);
    assert(pow(16, 7) == 0x10000000);
    assert(pow(16, 8) == 0x100000000);
}

/// A power of a smaller base is no larger.
proof fn lemma_pow_base_le(a: nat, b: nat, e: nat)
    requires
        1 <= a <= b,
    ensures
        pow(a as int, e) <= pow(b as int, e),
    decreases e,
{
    reveal(pow);
    if e > 0 {
        lemma_pow_base_le(a, b, (e - 1) as nat);
        vstd::arithmetic::power::lemma_pow_positive(a as int, (e - 1) as nat);
        vstd::arithmetic::power::lemma_pow_positive(b as int, (e - 1) as nat);
        assert(a as int * pow(a as int, (e - 1) as nat) <= b as int * pow(
            b as int,
            (e - 1) as nat,
        )) by (nonlinear_arith)
            requires
                0 <= a <= b,
                0 < pow(a as int, (e - 1) as nat) <= pow(b as int, (e - 1) as nat),
        ;
    }
}

} // verus!
