//! Parsing and rendering of unsigned integers in decimal and hexadecimal,
//! at the exactness the debugger needs: parsing rejects values over the
//! machine word, rendering matches the usual digit expansion.

use vstd::prelude::*;

verus! {

/// An ASCII decimal digit.
pub open spec fn is_digit10(c: char) -> bool {
    '0' <= c && c <= '9'
}

/// An ASCII hexadecimal digit, either case.
pub open spec fn is_digit16(c: char) -> bool {
    is_digit10(c) || ('a' <= c && c <= 'f') || ('A' <= c && c <= 'F')
}

/// A digit of the given radix; only 10 and 16 are used.
pub open spec fn is_digit(c: char, radix: nat) -> bool {
    if radix == 10 {
        is_digit10(c)
    } else {
        is_digit16(c)
    }
}

/// Numeric value of one digit character.
pub open spec fn digit_val(c: char) -> nat {
    if '0' <= c && c <= '9' {
        ((c as int) - ('0' as int)) as nat
    } else if 'a' <= c && c <= 'f' {
        ((c as int) - ('a' as int) + 10) as nat
    } else if 'A' <= c && c <= 'F' {
        ((c as int) - ('A' as int) + 10) as nat
    } else {
        0
    }
}

/// Every character of `s` is a digit of the radix.
pub open spec fn all_digits(s: Seq<char>, radix: nat) -> bool {
    forall|i: int| 0 <= i < s.len() ==> is_digit(s[i], radix)
}

/// The value of the digit string `s` read in the given radix.
pub open spec fn radix_val(s: Seq<char>, radix: nat) -> nat
    decreases s.len(),
{
    if s.len() == 0 {
        0
    } else {
        radix_val(s.drop_last(), radix) * radix + digit_val(s.last())
    }
}

proof fn lemma_prefix_step(s: Seq<char>, i: int, radix: nat)
    requires
        0 <= i < s.len(),
    ensures
        radix_val(s.subrange(0, i + 1), radix) == radix_val(s.subrange(0, i), radix) * radix
            + digit_val(s[i]),
{
    let p = s.subrange(0, i + 1);
    assert(p.drop_last() =~= s.subrange(0, i));
    assert(p.last() == s[i]);
}

proof fn lemma_prefix_mono(s: Seq<char>, i: int, j: int, radix: nat)
    requires
        0 <= i <= j <= s.len(),
        radix >= 1,
    ensures
        radix_val(s.subrange(0, i), radix) <= radix_val(s.subrange(0, j), radix),
    decreases j - i,
{
    if i < j {
        lemma_prefix_mono(s, i + 1, j, radix);
        lemma_prefix_step(s, i, radix);
        let vi = radix_val(s.subrange(0, i), radix);
        assert(vi * radix >= vi * 1) by (nonlinear_arith)
            requires
                radix >= 1,
                vi >= 0,
        ;
    }
}

/// Read `s[from..to]` as an unsigned integer in the given radix, as
/// `usize::from_str_radix` reads a digit run: the result exists exactly when
/// the run is non-empty, all digits, and its value fits the machine word.
pub fn parse_usize_digits(s: &Vec<char>, from: usize, to: usize, radix: usize) -> (r: Option<
    usize,
>)
    requires
        radix == 10 || radix == 16,
        from <= to <= s@.len(),
    ensures
        ({
            let digits = s@.subrange(from as int, to as int);
            match r {
                Some(v) => from < to && all_digits(digits, radix as nat) && v == radix_val(
                    digits,
                    radix as nat,
                ) && radix_val(digits, radix as nat) <= usize::MAX,
                None => from == to || !all_digits(digits, radix as nat) || radix_val(
                    digits,
                    radix as nat,
                ) > usize::MAX,
            }
        }),
{
    if from == to {
        return None;
    }
    let ghost digits = s@.subrange(from as int, to as int);
    let mut acc: usize = 0;
    let mut i: usize = from;
    while i < to
        invariant
            from <= i <= to <= s@.len(),
            radix == 10 || radix == 16,
            digits == s@.subrange(from as int, to as int),
            all_digits(digits.subrange(0, i - from), radix as nat),
            acc == radix_val(digits.subrange(0, i - from), radix as nat),
        decreases to - i,
    {
        let c = s[i];
        let d: usize = if '0' <= c && c <= '9' {
            (c as u32 as usize) - ('0' as u32 as usize)
        } else if radix == 16 && 'a' <= c && c <= 'f' {
            (c as u32 as usize) - ('a' as u32 as usize) + 10
        } else if radix == 16 && 'A' <= c && c <= 'F' {
            (c as u32 as usize) - ('A' as u32 as usize) + 10
        } else {
            proof {
                assert(digits[i - from] == s@[i as int]);
                assert(!is_digit(digits[i - from], radix as nat));
            }
            return None;
        };
        proof {
            assert(digits[i - from] == s@[i as int]);
            assert(d == digit_val(digits[i - from]));
            assert(is_digit(digits[i - from], radix as nat));
        }
        let cap: usize = (usize::MAX - d) / radix;
        if acc > cap {
            proof {
                let pre1 = digits.subrange(0, i - from + 1);
                lemma_prefix_step(digits, i - from, radix as nat);
                if radix == 10 {
                    assert(acc * 10 + d > usize::MAX);
                } else {
                    assert(acc * 16 + d > usize::MAX);
                }
                assert(radix_val(pre1, radix as nat) > usize::MAX);
                lemma_prefix_mono(digits, i - from + 1, digits.len() as int, radix as nat);
                assert(digits.subrange(0, digits.len() as int) =~= digits);
            }
            return None;
        }
        proof {
            if radix == 10 {
                assert(acc * 10 + d <= usize::MAX);
            } else {
                assert(acc * 16 + d <= usize::MAX);
            }
            lemma_prefix_step(digits, i - from, radix as nat);
            assert(digits.subrange(0, i - from + 1).drop_last() =~= digits.subrange(0, i - from));
        }
        acc = acc * radix + d;
        i += 1;
        proof {
            assert forall|k: int| 0 <= k < i - from implies is_digit(
                #[trigger] digits.subrange(0, i - from)[k],
                radix as nat,
            ) by {
                if k < i - from - 1 {
                    assert(is_digit(digits.subrange(0, i - from - 1)[k], radix as nat));
                }
            }
        }
    }
    proof {
        assert(digits.subrange(0, to - from) =~= digits);
    }
    Some(acc)
}

/// End of the run of digits of the radix starting at `from`: the first
/// position at or after `from` holding no such digit.
pub open spec fn digit_run_end(s: Seq<char>, from: int, radix: nat) -> int
    decreases s.len() - from,
{
    if from < 0 || from >= s.len() || !is_digit(s[from], radix) {
        from
    } else {
        digit_run_end(s, from + 1, radix)
    }
}

/// A digit run lies in bounds, holds only digits, and is maximal.
pub proof fn lemma_digit_run(s: Seq<char>, from: int, radix: nat)
    requires
        0 <= from <= s.len(),
    ensures
        from <= digit_run_end(s, from, radix) <= s.len(),
        forall|j: int| from <= j < digit_run_end(s, from, radix) ==> is_digit(s[j], radix),
        digit_run_end(s, from, radix) < s.len() ==> !is_digit(
            s[digit_run_end(s, from, radix)],
            radix,
        ),
    decreases s.len() - from,
{
    if from < s.len() && is_digit(s[from], radix) {
        lemma_digit_run(s, from + 1, radix);
    }
}

/// A decimal-digit test matching `char::is_ascii_digit`.
pub fn is_digit10_char(c: char) -> (r: bool)
    ensures
        r == is_digit10(c),
{
    '0' <= c && c <= '9'
}

/// A hexadecimal-digit test matching `char::is_ascii_hexdigit`.
pub fn is_digit16_char(c: char) -> (r: bool)
    ensures
        r == is_digit16(c),
{
    ('0' <= c && c <= '9') || ('a' <= c && c <= 'f') || ('A' <= c && c <= 'F')
}

/// A digit test for the given radix.
pub fn is_digit_char(c: char, radix: usize) -> (r: bool)
    requires
        radix == 10 || radix == 16,
    ensures
        r == is_digit(c, radix as nat),
{
    if radix == 10 {
        is_digit10_char(c)
    } else {
        is_digit16_char(c)
    }
}

/// Scan the maximal digit run of the radix starting at `from`, returning its
/// end.
pub fn scan_digits(s: &Vec<char>, from: usize, radix: usize) -> (r: usize)
    requires
        radix == 10 || radix == 16,
        from <= s@.len(),
    ensures
        r == digit_run_end(s@, from as int, radix as nat),
        from <= r <= s@.len(),
{
    let n = s.len();
    let mut i: usize = from;
    while i < n && is_digit_char(s[i], radix)
        invariant
            from <= i <= n,
            n == s@.len(),
            radix == 10 || radix == 16,
            digit_run_end(s@, from as int, radix as nat) == digit_run_end(
                s@,
                i as int,
                radix as nat,
            ),
        decreases n - i,
    {
        i += 1;
    }
    i
}

/// The character for one decimal or hexadecimal digit value (lowercase).
pub open spec fn digit_char(d: nat) -> char {
    if d == 0 {
        '0'
    } else if d == 1 {
        '1'
    } else if d == 2 {
        '2'
    } else if d == 3 {
        '3'
    } else if d == 4 {
        '4'
    } else if d == 5 {
        '5'
    } else if d == 6 {
        '6'
    } else if d == 7 {
        '7'
    } else if d == 8 {
        '8'
    } else if d == 9 {
        '9'
    } else if d == 10 {
        'a'
    } else if d == 11 {
        'b'
    } else if d == 12 {
        'c'
    } else if d == 13 {
        'd'
    } else if d == 14 {
        'e'
    } else {
        'f'
    }
}

/// Decimal expansion of `n`, most significant digit first.
pub open spec fn dec_str(n: nat) -> Seq<char>
    decreases n,
{
    if n < 10 {
        seq![digit_char(n)]
    } else {
        dec_str(n / 10).push(digit_char(n % 10))
    }
}

/// Hexadecimal expansion of `n`, lowercase, most significant digit first.
pub open spec fn hex_str(n: nat) -> Seq<char>
    decreases n,
{
    if n < 16 {
        seq![digit_char(n)]
    } else {
        hex_str(n / 16).push(digit_char(n % 16))
    }
}

fn digit_char_exec(d: usize) -> (r: char)
    requires
        d < 16,
    ensures
        r == digit_char(d as nat),
{
    match d {
        0 => '0',
        1 => '1',
        2 => '2',
        3 => '3',
        4 => '4',
        5 => '5',
        6 => '6',
        7 => '7',
        8 => '8',
        9 => '9',
        10 => 'a',
        11 => 'b',
        12 => 'c',
        13 => 'd',
        14 => 'e',
        _ => 'f',
    }
}

/// The decimal digits of `n` as characters.
pub fn dec_chars(n: usize) -> (r: Vec<char>)
    ensures
        r@ == dec_str(n as nat),
    decreases n,
{
    if n < 10 {
        let mut v: Vec<char> = Vec::new();
        v.push(digit_char_exec(n));
        proof {
            assert(v@ =~= dec_str(n as nat));
        }
        v
    } else {
        let mut v = dec_chars(n / 10);
        v.push(digit_char_exec(n % 10));
        v
    }
}

/// The decimal digits of a 64-bit value as characters.
pub fn dec_chars64(n: u64) -> (r: Vec<char>)
    ensures
        r@ == dec_str(n as nat),
    decreases n,
{
    if n < 10 {
        let mut v: Vec<char> = Vec::new();
        v.push(digit_char_exec((n % 10) as usize));
        proof {
            assert(v@ =~= dec_str(n as nat));
        }
        v
    } else {
        let mut v = dec_chars64(n / 10);
        v.push(digit_char_exec((n % 10) as usize));
        v
    }
}

/// The lowercase hexadecimal digits of `n` as characters.
pub fn hex_chars(n: usize) -> (r: Vec<char>)
    ensures
        r@ == hex_str(n as nat),
    decreases n,
{
    if n < 16 {
        let mut v: Vec<char> = Vec::new();
        v.push(digit_char_exec(n));
        proof {
            assert(v@ =~= hex_str(n as nat));
        }
        v
    } else {
        let mut v = hex_chars(n / 16);
        v.push(digit_char_exec(n % 16));
        v
    }
}

} // verus!
