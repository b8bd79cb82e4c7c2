//! Parsing of command-line numbers: a plain decimal `u64`, or power
//! notation `base**exp` / `base^exp` with a decimal base and exponent.
//!
//! A power split is taken only when the separator occurs exactly once;
//! otherwise the text falls through to the next notation and finally to a
//! plain parse. The decimal parts follow `u64`/`u32` string parsing: an
//! optional leading `+`, then at least one digit, rejecting values out of
//! range.

use vstd::arithmetic::mul::lemma_mul_inequality;
use vstd::arithmetic::power::{lemma_pow_adds, lemma_pow_positive, pow};
use vstd::prelude::*;

verus! {

/// Failure of `parse_number`: a malformed part of a power notation, a
/// plain text that is no decimal number, or a power whose value does not
/// fit in 64 bits.
#[derive(Clone, Copy, Debug, PartialEq, Eq, Structural)]
pub enum ParseNumberError {
    InvalidPower,
    InvalidNumber,
    TooLarge,
}

/// A decimal digit `'0'..='9'`.
pub open spec fn is_dec_digit(c: char) -> bool {
    48 <= c as u32 <= 57
}

/// The value of a digit string read left to right in base 10.
pub open spec fn dec_digits_value(s: Seq<char>) -> int
    decreases s.len(),
{
    if s.len() == 0 {
        0
    } else {
        10 * dec_digits_value(s.drop_last()) + (s.last() as u32 - 48)
    }
}

/// Every character is a decimal digit.
pub open spec fn all_dec_digits(s: Seq<char>) -> bool {
    forall|i: int| 0 <= i < s.len() ==> is_dec_digit(#[trigger] s[i])
}

/// The digit part of an unsigned decimal: the text after an optional
/// leading `+`.
pub open spec fn digits_part(s: Seq<char>) -> Seq<char> {
    if s.len() > 0 && s[0] == '+' {
        s.subrange(1, s.len() as int)
    } else {
        s
    }
}

/// Unsigned decimal parsing: an optional `+`, then at least one digit,
/// with a value below `bound`; `None` otherwise.
pub open spec fn spec_parse_uint(s: Seq<char>, bound: int) -> Option<int> {
    let ds = digits_part(s);
    if ds.len() >= 1 && all_dec_digits(ds) && dec_digits_value(ds) < bound {
        Some(dec_digits_value(ds))
    } else {
        None
    }
}

/// First position at or after `from` where `**` occurs.
pub open spec fn find_star_star(s: Seq<char>, from: int) -> Option<int>
    decreases s.len() - from,
{
    if from < 0 || from + 2 > s.len() {
        None
    } else if s[from] == '*' && s[from + 1] == '*' {
        Some(from)
    } else {
        find_star_star(s, from + 1)
    }
}

/// First position at or after `from` where the character `c` occurs.
pub open spec fn find_char(s: Seq<char>, from: int, c: char) -> Option<int>
    decreases s.len() - from,
{
    if from < 0 || from >= s.len() {
        None
    } else if s[from] == c {
        Some(from)
    } else {
        find_char(s, from + 1, c)
    }
}

/// The power path: parse the base before position `j` and the exponent
/// after the separator of length `seplen`, then raise; a power beyond
/// `u64` is `TooLarge`, a malformed part `InvalidPower`.
pub open spec fn spec_parse_power(s: Seq<char>, j: int, seplen: int) -> Result<
    u64,
    ParseNumberError,
> {
    let base = spec_parse_uint(s.subrange(0, j), 0x10000000000000000);
    let expo = spec_parse_uint(s.subrange(j + seplen, s.len() as int), 0x100000000);
    match (base, expo) {
        (Some(b), Some(e)) => if pow(b, e as nat) < 0x10000000000000000 {
            Ok(pow(b, e as nat) as u64)
        } else {
            Err(ParseNumberError::TooLarge)
        },
        _ => Err(ParseNumberError::InvalidPower),
    }
}

/// What `parse_number` returns for a character sequence: the `**` power
/// path when `**` occurs exactly once, else the `^` power path when `^`
/// occurs exactly once, else a plain decimal parse.
pub open spec fn spec_parse_number(s: Seq<char>) -> Result<u64, ParseNumberError> {
    let plain = match spec_parse_uint(s, 0x10000000000000000) {
        Some(v) => Result::<u64, ParseNumberError>::Ok(v as u64),
        None => Result::<u64, ParseNumberError>::Err(ParseNumberError::InvalidNumber),
    };
    match find_star_star(s, 0) {
        Some(j) => if find_star_star(s, j + 2) is None {
            spec_parse_power(s, j, 2)
        } else {
            match find_char(s, 0, '^') {
                Some(j2) => if find_char(s, j2 + 1, '^') is None {
                    spec_parse_power(s, j2, 1)
                } else {
                    plain
                },
                None => plain,
            }
        },
        None => match find_char(s, 0, '^') {
            Some(j2) => if find_char(s, j2 + 1, '^') is None {
                spec_parse_power(s, j2, 1)
            } else {
                plain
            },
            None => plain,
        },
    }
}

/// A digit string is nonnegative as a number.
proof fn lemma_dec_value_nonneg(s: Seq<char>)
    requires
        all_dec_digits(s),
    ensures
        dec_digits_value(s) >= 0,
    decreases s.len(),
{
    if s.len() > 0 {
        assert(all_dec_digits(s.drop_last())) by {
            assert forall|i: int| 0 <= i < s.drop_last().len() implies is_dec_digit(
                #[trigger] s.drop_last()[i],
            ) by {
                assert(s.drop_last()[i] == s[i]);
            }
        }
        lemma_dec_value_nonneg(s.drop_last());
    }
}

/// Extending a digit string can only grow its value.
proof fn lemma_dec_value_mono(s: Seq<char>, i: int)
    requires
        all_dec_digits(s),
        0 <= i <= s.len(),
    ensures
        dec_digits_value(s.subrange(0, i)) <= dec_digits_value(s),
    decreases s.len() - i,
{
    if i < s.len() {
        lemma_dec_value_mono(s, i + 1);
        assert(s.subrange(0, i + 1).drop_last() =~= s.subrange(0, i));
        assert(all_dec_digits(s.subrange(0, i))) by {
            assert forall|k: int| 0 <= k < i implies is_dec_digit(
                #[trigger] s.subrange(0, i)[k],
            ) by {
                assert(s.subrange(0, i)[k] == s[k]);
            }
        }
        lemma_dec_value_nonneg(s.subrange(0, i));
        assert(s.subrange(0, i + 1).last() == s[i]);
        assert(dec_digits_value(s.subrange(0, i + 1)) >= dec_digits_value(s.subrange(0, i)));
    } else {
        assert(s.subrange(0, i) =~= s);
    }
}

/// Scan for the first `**` at or after `from`.
fn find_star_star_exec(cs: &Vec<char>, from: usize) -> (r: Option<usize>)
    requires
        from <= cs@.len(),
    ensures
        r is Some <==> find_star_star(cs@, from as int) is Some,
        r matches Some(j) ==> find_star_star(cs@, from as int) == Some(j as int) && j + 2
            <= cs@.len(),
{
    let l: usize = cs.len();
    let mut i: usize = from;
    while l >= 2 && i <= l - 2
        invariant
            l == cs@.len(),
            from <= i <= l,
            find_star_star(cs@, from as int) == find_star_star(cs@, i as int),
        decreases l - i,
    {
        if cs[i] == '*' && cs[i + 1] == '*' {
            return Some(i);
        }
        i = i + 1;
    }
    None
}

/// Scan for the first occurrence of `c` at or after `from`.
fn find_char_exec(cs: &Vec<char>, from: usize, c: char) -> (r: Option<usize>)
    requires
        from <= cs@.len(),
    ensures
        r is Some <==> find_char(cs@, from as int, c) is Some,
        r matches Some(j) ==> find_char(cs@, from as int, c) == Some(j as int) && j < cs@.len(),
{
    let mut i: usize = from;
    while i < cs.len()
        invariant
            from <= i <= cs@.len(),
            find_char(cs@, from as int, c) == find_char(cs@, i as int, c),
        decreases cs@.len() - i,
    {
        if cs[i] == c {
            return Some(i);
        }
        i = i + 1;
    }
    None
}

/// Parse an unsigned decimal `u64` from the character range `[from, to)`.
fn parse_u64_range(cs: &Vec<char>, from: usize, to: usize) -> (r: Option<u64>)
    requires
        from <= to <= cs@.len(),
    ensures
        r is Some <==> spec_parse_uint(cs@.subrange(from as int, to as int), 0x10000000000000000)
            is Some,
        r matches Some(v) ==> Some(v as int) == spec_parse_uint(
            cs@.subrange(from as int, to as int),
            0x10000000000000000,
        ),
{
    let mut start: usize = from;
    if start < to && cs[start] == '+' {
        proof {
            assert(cs@.subrange(from as int, to as int)[0] == cs@[from as int]);
        }
        start = start + 1;
    } else {
        proof {
            if from < to {
                assert(cs@.subrange(from as int, to as int)[0] == cs@[from as int]);
            }
        }
    }
    proof {
        assert(digits_part(cs@.subrange(from as int, to as int)) =~= cs@.subrange(
            start as int,
            to as int,
        ));
    }
    if start == to {
        return None;
    }
    let mut i: usize = start;
    let mut acc: u64 = 0;
    while i < to
        invariant
            from <= start <= i <= to <= cs@.len(),
            start < to,
            digits_part(cs@.subrange(from as int, to as int)) == cs@.subrange(
                start as int,
                to as int,
            ),
            all_dec_digits(cs@.subrange(start as int, i as int)),
            acc as int == dec_digits_value(cs@.subrange(start as int, i as int)),
        decreases to - i,
    {
        let c: char = cs[i];
        let cu: u32 = c as u32;
        proof {
            assert(cs@.subrange(start as int, to as int)[i - start] == c);
        }
        if cu < 48 || cu > 57 {
            proof {
                assert(!is_dec_digit(cs@.subrange(start as int, to as int)[i - start]));
            }
            return None;
        }
        let d: u64 = (cu - 48) as u64;
        let lim: u64 = (0xffffffffffffffff - d) / 10;
        if acc > lim {
            proof {
                assert(cs@.subrange(start as int, i as int + 1).drop_last() =~= cs@.subrange(
                    start as int,
                    i as int,
                ));
                assert(cs@.subrange(start as int, i as int + 1).last() == c);
                assert(dec_digits_value(cs@.subrange(start as int, i as int + 1)) == 10 * (
                acc as int) + (cu - 48));
                if all_dec_digits(cs@.subrange(start as int, to as int)) {
                    assert(cs@.subrange(start as int, to as int).subrange(0, i - start + 1)
                        =~= cs@.subrange(start as int, i as int + 1));
                    lemma_dec_value_mono(cs@.subrange(start as int, to as int), i - start + 1);
                }
            }
            return None;
        }
        proof {
            assert(cs@.subrange(start as int, i as int + 1).drop_last() =~= cs@.subrange(
                start as int,
                i as int,
            ));
            assert(cs@.subrange(start as int, i as int + 1).last() == c);
            assert forall|k: int| 0 <= k < i - start + 1 implies is_dec_digit(
                #[trigger] cs@.subrange(start as int, i as int + 1)[k],
            ) by {
                if k < i - start {
                    assert(cs@.subrange(start as int, i as int + 1)[k] == cs@.subrange(
                        start as int,
                        i as int,
                    )[k]);
                } else {
                    assert(cs@.subrange(start as int, i as int + 1)[k] == c);
                }
            }
        }
        acc = acc * 10 + d;
        i = i + 1;
    }
    Some(acc)
}

/// Parse an unsigned decimal `u32` from the character range `[from, to)`.
fn parse_u32_range(cs: &Vec<char>, from: usize, to: usize) -> (r: Option<u32>)
    requires
        from <= to <= cs@.len(),
    ensures
        r is Some <==> spec_parse_uint(cs@.subrange(from as int, to as int), 0x100000000)
            is Some,
        r matches Some(v) ==> Some(v as int) == spec_parse_uint(
            cs@.subrange(from as int, to as int),
            0x100000000,
        ),
{
    match parse_u64_range(cs, from, to) {
        Some(v) => if v <= 0xffffffff {
            Some(v as u32)
        } else {
            None
        },
        None => None,
    }
}

/// Raise `base` to the `expo`-th power, or `None` when the result exceeds
/// `u64`.
fn pow_u64(base: u64, expo: u32) -> (r: Option<u64>)
    ensures
        r matches Some(v) ==> v as int == pow(base as int, expo as nat),
        r is None <==> pow(base as int, expo as nat) > 0xffffffffffffffff,
{
    let mut acc: u64 = 1;
    let mut i: u32 = 0;
    proof {
        vstd::arithmetic::power::lemma_pow0(base as int);
    }
    while i < expo
        invariant
            i <= expo,
            acc as int == pow(base as int, i as nat),
        decreases expo - i,
    {
        proof {
            vstd::arithmetic::power::lemma_pow1(base as int);
            lemma_pow_adds(base as int, 1, i as nat);
            assert(pow(base as int, (i + 1) as nat) == (base as int) * pow(
                base as int,
                i as nat,
            ));
        }
        if base != 0 && acc > 0xffffffffffffffff / base {
            proof {
                let ghost maxv: int = 0xffffffffffffffff;
                let ghost bb: int = base as int;
                vstd::arithmetic::div_mod::lemma_fundamental_div_mod(maxv, bb);
                assert((acc as int) * bb > maxv) by (nonlinear_arith)
                    requires
                        bb >= 1,
                        acc as int > maxv / bb,
                        maxv == bb * (maxv / bb) + maxv % bb,
                        0 <= maxv % bb,
                        maxv % bb < bb,
                ;
                lemma_pow_adds(base as int, (i + 1) as nat, (expo - i - 1) as nat);
                lemma_pow_positive(base as int, (expo - i - 1) as nat);
                lemma_pow_positive(base as int, (i + 1) as nat);
                lemma_mul_inequality(1, pow(base as int, (expo - i - 1) as nat), pow(
                    base as int,
                    (i + 1) as nat,
                ));
                assert(pow(base as int, (i + 1) as nat) == (acc as int) * bb) by (nonlinear_arith)
                    requires
                        pow(base as int, (i + 1) as nat) == (base as int) * pow(
                            base as int,
                            i as nat,
                        ),
                        acc as int == pow(base as int, i as nat),
                        bb == base as int,
                ;
                assert(pow(base as int, expo as nat) >= pow(base as int, (i + 1) as nat));
            }
            return None;
        }
        proof {
            if base != 0 {
                let ghost maxv: int = 0xffffffffffffffff;
                let ghost bb: int = base as int;
                vstd::arithmetic::div_mod::lemma_fundamental_div_mod(maxv, bb);
                assert((acc as int) * (base as int) <= maxv) by (nonlinear_arith)
                    requires
                        bb >= 1,
                        bb == base as int,
                        acc as int <= maxv / bb,
                        maxv == bb * (maxv / bb) + maxv % bb,
                        0 <= maxv % bb,
                ;
            } else {
                assert((acc as int) * (base as int) == 0) by (nonlinear_arith)
                    requires
                        base as int == 0,
                ;
            }
            assert((base as int) * (acc as int) == (acc as int) * (base as int))
                by (nonlinear_arith);
        }
        acc = acc * base;
        i = i + 1;
    }
    Some(acc)
}

/// Parse a number: plain decimal, or `base**exp` / `base^exp` power
/// notation. Mirrors `spec_parse_number` on the character sequence of the
/// input.
pub fn parse_number(s: &str) -> (r: Result<u64, ParseNumberError>)
    ensures
        r == spec_parse_number(s@),
{
    let len: usize = s.unicode_len();
    let mut cs: Vec<char> = Vec::new();
    let mut i: usize = 0;
    while i < len
        invariant
            i <= len,
            len == s@.len(),
            cs@ == s@.subrange(0, i as int),
        decreases len - i,
    {
        let c: char = s.get_char(i);
        cs.push(c);
        i = i + 1;
    }
    proof {
        assert(cs@ =~= s@);
    }
    let ss1: Option<usize> = find_star_star_exec(&cs, 0);
    match ss1 {
        Some(j) => {
            let ss2: Option<usize> = find_star_star_exec(&cs, j + 2);
            if ss2.is_none() {
                return parse_power(&cs, j, 2);
            }
        },
        None => {},
    }
    let c1: Option<usize> = find_char_exec(&cs, 0, '^');
    match c1 {
        Some(j) => {
            let c2: Option<usize> = find_char_exec(&cs, j + 1, '^');
            if c2.is_none() {
                return parse_power(&cs, j, 1);
            }
        },
        None => {},
    }
    match parse_u64_range(&cs, 0, cs.len()) {
        Some(v) => {
            proof {
                assert(cs@.subrange(0, cs@.len() as int) =~= cs@);
            }
            Ok(v)
        },
        None => {
            proof {
                assert(cs@.subrange(0, cs@.len() as int) =~= cs@);
            }
            Err(ParseNumberError::InvalidNumber)
        },
    }
}

/// The power path shared by both separators.
fn parse_power(cs: &Vec<char>, j: usize, seplen: usize) -> (r: Result<u64, ParseNumberError>)
    requires
        j + seplen <= cs@.len(),
    ensures
        r == spec_parse_power(cs@, j as int, seplen as int),
{
    let l: usize = cs.len();
    let b: Option<u64> = parse_u64_range(cs, 0, j);
    let e: Option<u32> = parse_u32_range(cs, j + seplen, l);
    match (b, e) {
        (Some(bv), Some(ev)) => match pow_u64(bv, ev) {
            Some(v) => Ok(v),
            None => Err(ParseNumberError::TooLarge),
        },
        _ => Err(ParseNumberError::InvalidPower),
    }
}

} // verus!
