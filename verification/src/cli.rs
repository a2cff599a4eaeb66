use crate::discovery::profile::BuildProfile;
use vstd::prelude::*;

verus! {

/// Why a string is not an unsigned integer.
#[derive(Clone, Copy, Debug, PartialEq, Eq)]
pub enum IntFailure {
    /// There is nothing to read.
    Empty,
    /// A character is not a digit of the radix.
    InvalidDigit,
    /// The number does not fit in 64 bits.
    Overflow,
}

/// The value of `c` as a digit of `radix` (10 or 16).
pub open spec fn digit_of(c: char, radix: nat) -> Option<nat> {
    if '0' <= c && c <= '9' && (c as nat) - ('0' as nat) < radix {
        Some(((c as nat) - ('0' as nat)) as nat)
    } else if radix == 16 && 'a' <= c && c <= 'f' {
        Some(((c as nat) - ('a' as nat) + 10) as nat)
    } else if radix == 16 && 'A' <= c && c <= 'F' {
        Some(((c as nat) - ('A' as nat) + 10) as nat)
    } else {
        None
    }
}

/// Reads the first `n` characters of `d` as digits of `radix`, left to right: the value, or
/// the first problem met.
pub open spec fn scan_digits(d: Seq<char>, radix: nat, n: nat) -> Result<nat, IntFailure>
    decreases n,
{
    if n == 0 {
        Ok(0)
    } else {
        match scan_digits(d, radix, (n - 1) as nat) {
            Err(e) => Err(e),
            Ok(v) => match digit_of(d[n - 1], radix) {
                None => Err(IntFailure::InvalidDigit),
                Some(x) => if v * radix + x > u64::MAX {
                    Err(IntFailure::Overflow)
                } else {
                    Ok(v * radix + x)
                },
            },
        }
    }
}

/// How a string reads as an unsigned 64-bit number in `radix`: a `+` sign may lead; an empty
/// string, a lone sign or a character that is no digit is refused, and so is a number beyond
/// 64 bits, whichever comes first.
pub open spec fn read_unsigned(s: Seq<char>, radix: nat) -> Result<nat, IntFailure> {
    if s.len() == 0 {
        Err(IntFailure::Empty)
    } else if s.len() == 1 && (s[0] == '+' || s[0] == '-') {
        Err(IntFailure::InvalidDigit)
    } else {
        let d = if s[0] == '+' {
            s.drop_first()
        } else {
            s
        };
        scan_digits(d, radix, d.len())
    }
}

/// `s` without its `_` separators.
pub open spec fn without_separators(s: Seq<char>) -> Seq<char> {
    s.filter(|c: char| c != '_')
}

/// A profile number: decimal, or hexadecimal after `0x` or `0X`, with `_` separators
/// anywhere.
pub open spec fn read_profile_number(s: Seq<char>) -> Result<nat, IntFailure> {
    let v = without_separators(s);
    if v.len() >= 2 && v[0] == '0' && (v[1] == 'x' || v[1] == 'X') {
        read_unsigned(v.subrange(2, v.len() as int), 16)
    } else {
        read_unsigned(v, 10)
    }
}

/// The message that the standard library gives for each failure.
pub open spec fn failure_message(e: IntFailure) -> Seq<char> {
    match e {
        IntFailure::Empty => "cannot parse integer from empty string"@,
        IntFailure::InvalidDigit => "invalid digit found in string"@,
        IntFailure::Overflow => "number too large to fit in target type"@,
    }
}

fn failure_text(e: IntFailure) -> (r: String)
    ensures
        r@ == failure_message(e),
{
    match e {
        IntFailure::Empty => "cannot parse integer from empty string".to_owned(),
        IntFailure::InvalidDigit => "invalid digit found in string".to_owned(),
        IntFailure::Overflow => "number too large to fit in target type".to_owned(),
    }
}

fn digit(c: char, radix: u32) -> (r: Option<u64>)
    requires
        radix == 10 || radix == 16,
    ensures
        r matches Some(x) ==> digit_of(c, radix as nat) == Some(x as nat),
        r is None ==> digit_of(c, radix as nat) is None,
{
    if '0' <= c && c <= '9' && (c as u32) - ('0' as u32) < radix {
        Some(((c as u32) - ('0' as u32)) as u64)
    } else if radix == 16 && 'a' <= c && c <= 'f' {
        Some(((c as u32) - ('a' as u32) + 10) as u64)
    } else if radix == 16 && 'A' <= c && c <= 'F' {
        Some(((c as u32) - ('A' as u32) + 10) as u64)
    } else {
        None
    }
}

fn read_digits(d: &Vec<char>, start: usize, radix: u32) -> (r: Result<u64, IntFailure>)
    requires
        start <= d@.len(),
        radix == 10 || radix == 16,
    ensures
        ({
            let rest = d@.subrange(start as int, d@.len() as int);
            match scan_digits(rest, radix as nat, rest.len()) {
                Ok(v) => r == Ok::<u64, IntFailure>(v as u64),
                Err(e) => r == Err::<u64, IntFailure>(e),
            }
        }),
{
    let ghost rest = d@.subrange(start as int, d@.len() as int);
    let mut value: u64 = 0;
    let mut i: usize = start;
    while i < d.len()
        invariant
            start <= i <= d@.len(),
            rest == d@.subrange(start as int, d@.len() as int),
            radix == 10 || radix == 16,
            scan_digits(rest, radix as nat, (i - start) as nat) == Ok::<nat, IntFailure>(value as nat),
        decreases d.len() - i,
    {
        assert(rest[i - start] == d@[i as int]);
        let x = match digit(d[i], radix) {
            Some(x) => x,
            None => {
                proof {
                    assert(scan_digits(rest, radix as nat, (i - start + 1) as nat) == Err::<nat, IntFailure>(IntFailure::InvalidDigit));
                    lemma_scan_failure_sticks(rest, radix as nat, (i - start + 1) as nat, rest.len());
                }
                return Err(IntFailure::InvalidDigit);
            },
        };
        let r64 = radix as u64;
        let bound = (u64::MAX - x) / r64;
        if value > bound {
            assert(value * r64 + x > u64::MAX) by (nonlinear_arith)
                requires
                    value > bound,
                    bound as int == (u64::MAX as int - x as int) / (r64 as int),
                    r64 > 0,
                    x <= 15,
            ;
            proof {
                lemma_scan_failure_sticks(rest, radix as nat, (i - start + 1) as nat, rest.len());
            }
            return Err(IntFailure::Overflow);
        }
        assert(value * r64 + x <= u64::MAX) by (nonlinear_arith)
            requires
                value <= bound,
                bound as int == (u64::MAX as int - x as int) / (r64 as int),
                r64 > 0,
                x <= 15,
        ;
        value = value * r64 + x;
        i = i + 1;
    }
    Ok(value)
}

proof fn lemma_scan_failure_sticks(d: Seq<char>, radix: nat, n: nat, m: nat)
    requires
        n <= m,
        scan_digits(d, radix, n) is Err,
    ensures
        scan_digits(d, radix, m) == scan_digits(d, radix, n),
    decreases m - n,
{
    if n < m {
        lemma_scan_failure_sticks(d, radix, n, (m - 1) as nat);
    }
}

fn read_unsigned_from(d: &Vec<char>, start: usize, radix: u32) -> (r: Result<u64, IntFailure>)
    requires
        start <= d@.len(),
        radix == 10 || radix == 16,
    ensures
        match read_unsigned(d@.subrange(start as int, d@.len() as int), radix as nat) {
            Ok(v) => r == Ok::<u64, IntFailure>(v as u64),
            Err(e) => r == Err::<u64, IntFailure>(e),
        },
{
    let ghost s = d@.subrange(start as int, d@.len() as int);
    if start == d.len() {
        return Err(IntFailure::Empty);
    }
    assert(s[0] == d@[start as int]);
    if d.len() - start == 1 && (d[start] == '+' || d[start] == '-') {
        return Err(IntFailure::InvalidDigit);
    }
    if d[start] == '+' {
        assert(s.drop_first() =~= d@.subrange(start + 1, d@.len() as int));
        read_digits(d, start + 1, radix)
    } else {
        read_digits(d, start, radix)
    }
}

/// Reads a profile number: decimal, or hexadecimal after `0x` or `0X`, with `_` separators
/// anywhere; failures carry the message of the standard library.
pub fn parse_u64(value: &str) -> (r: Result<u64, String>)
    ensures
        match read_profile_number(value@) {
            Ok(v) => r == Ok::<u64, String>(v as u64),
            Err(e) => r matches Err(m) && m@ == failure_message(e),
        },
{
    let n = value.unicode_len();
    let mut chars: Vec<char> = Vec::new();
    let mut i: usize = 0;
    while i < n
        invariant
            i <= n,
            n == value@.len(),
            chars@ == without_separators(value@.subrange(0, i as int)),
        decreases n - i,
    {
        let c = value.get_char(i);
        proof {
            let p = value@.subrange(0, i as int);
            assert(value@.subrange(0, i + 1) =~= p.push(c));
            p.lemma_filter_push(c, |c: char| c != '_');
        }
        if c != '_' {
            chars.push(c);
        }
        i = i + 1;
    }
    assert(value@.subrange(0, n as int) =~= value@);
    let outcome = if chars.len() >= 2 && chars[0] == '0' && (chars[1] == 'x' || chars[1] == 'X') {
        read_unsigned_from(&chars, 2, 16)
    } else {
        assert(chars@.subrange(0, chars@.len() as int) =~= chars@);
        read_unsigned_from(&chars, 0, 10)
    };
    match outcome {
        Ok(v) => Ok(v),
        Err(e) => Err(failure_text(e)),
    }
}

/// Reads a profile number (see `parse_u64`) that must also fit in `usize`.
pub fn parse_usize(value: &str) -> (r: Result<usize, String>)
    ensures
        match read_profile_number(value@) {
            Ok(v) => if v <= usize::MAX {
                r == Ok::<usize, String>(v as usize)
            } else {
                r matches Err(m) && m@ == "out of range integral type conversion attempted"@
            },
            Err(e) => r matches Err(m) && m@ == failure_message(e),
        },
{
    match parse_u64(value) {
        Ok(v) => if v as u128 <= usize::MAX as u128 {
            Ok(v as usize)
        } else {
            Err("out of range integral type conversion attempted".to_owned())
        },
        Err(m) => Err(m),
    }
}

/// Refuses a profile without types or with an empty method-pointer range.
pub fn validate_profile(profile: &BuildProfile) -> (r: Result<(), String>)
    ensures
        profile.type_definition_count == 0 ==> (r matches Err(m) && m@
            == "type definition count must not be zero"@),
        profile.type_definition_count != 0 && profile.minimum_method_pointer_va
            >= profile.maximum_method_pointer_va ==> (r matches Err(m) && m@
            == "method pointer VA range is empty"@),
        r is Ok <==> profile.type_definition_count != 0 && profile.minimum_method_pointer_va
            < profile.maximum_method_pointer_va,
{
    if profile.type_definition_count == 0 {
        return Err("type definition count must not be zero".to_owned());
    }
    if profile.minimum_method_pointer_va >= profile.maximum_method_pointer_va {
        return Err("method pointer VA range is empty".to_owned());
    }
    Ok(())
}

} // verus!
