//! Integer parsing and formatting over character sequences.
//!
//! Parsing follows the rules of `from_str_radix` for Rust's integer types:
//! an optional `+` (or, for signed types, `-`) followed by at least one digit
//! of the radix, and a value in the type's range. Formatting writes the
//! shortest digit sequence, lower-case for hexadecimal, as `Display` and
//! `{:x}` do.

use vstd::prelude::*;

verus! {

/// The value of `c` as a digit, as `char::to_digit(36)`.
pub open spec fn digit_value_spec(c: char) -> Option<nat> {
    if '0' <= c <= '9' {
        Some((c as u32 - '0' as u32) as nat)
    } else if 'a' <= c <= 'z' {
        Some((c as u32 - 'a' as u32 + 10) as nat)
    } else if 'A' <= c <= 'Z' {
        Some((c as u32 - 'A' as u32 + 10) as nat)
    } else {
        None
    }
}

/// The value of the digits `s` in base `radix` (`Some(0)` for no digits), or
/// `None` when a character is not a digit of the radix.
pub open spec fn digits_value_spec(s: Seq<char>, radix: nat) -> Option<nat>
    decreases s.len(),
{
    if s.len() == 0 {
        Some(0)
    } else {
        match (digits_value_spec(s.drop_last(), radix), digit_value_spec(s.last())) {
            (Some(v), Some(d)) => if d < radix {
                Some(v * radix + d)
            } else {
                None
            },
            _ => None,
        }
    }
}

/// The integer that `s` denotes in base `radix`, before any range check: an
/// optional sign (`-` only when `signed`) and at least one digit.
pub open spec fn parse_int_spec(s: Seq<char>, radix: nat, signed: bool) -> Option<int> {
    if s.len() == 0 {
        None
    } else if (s[0] == '+' || s[0] == '-') && s.len() == 1 {
        None
    } else if s[0] == '+' {
        match digits_value_spec(s.drop_first(), radix) {
            Some(v) => Some(v as int),
            None => None,
        }
    } else if s[0] == '-' && signed {
        match digits_value_spec(s.drop_first(), radix) {
            Some(v) => Some(-(v as int)),
            None => None,
        }
    } else {
        match digits_value_spec(s, radix) {
            Some(v) => Some(v as int),
            None => None,
        }
    }
}

/// What `i64::from_str_radix(s, radix)` returns, as an option.
pub open spec fn parse_i64_spec(s: Seq<char>, radix: nat) -> Option<i64> {
    match parse_int_spec(s, radix, true) {
        Some(v) => if i64::MIN <= v <= i64::MAX {
            Some(v as i64)
        } else {
            None
        },
        None => None,
    }
}

/// What `u32::from_str_radix(s, radix)` returns, as an option.
pub open spec fn parse_u32_spec(s: Seq<char>, radix: nat) -> Option<u32> {
    match parse_int_spec(s, radix, false) {
        Some(v) => if 0 <= v <= u32::MAX {
            Some(v as u32)
        } else {
            None
        },
        None => None,
    }
}

/// The lower-case digit for `d < 16`.
pub open spec fn digit_char_spec(d: nat) -> char {
    if d < 10 {
        ((d + '0' as u32) as u32) as char
    } else {
        ((d - 10 + 'a' as u32) as u32) as char
    }
}

/// The shortest digits of `n` in base `radix`.
pub open spec fn radix_digits_spec(n: nat, radix: nat) -> Seq<char>
    decreases n,
{
    if radix < 2 || n < radix {
        seq![digit_char_spec(n)]
    } else {
        proof {
            lemma_div_shrinks(n, radix);
        }
        radix_digits_spec(n / radix, radix) + seq![digit_char_spec(n % radix)]
    }
}

/// Dividing by a radix of at least two shrinks a number that is at least the radix.
pub proof fn lemma_div_shrinks(n: nat, radix: nat)
    requires
        radix >= 2,
        n >= radix,
    ensures
        n / radix < n,
{
    assert(n / radix < n) by (nonlinear_arith)
        requires
            radix >= 2,
            n >= radix,
    ;
}

/// `Display` of a non-negative integer.
pub open spec fn decimal_spec(n: nat) -> Seq<char> {
    radix_digits_spec(n, 10)
}

/// `{:x}` of a non-negative integer.
pub open spec fn hex_spec(n: nat) -> Seq<char> {
    radix_digits_spec(n, 16)
}

/// `Display` of an integer.
pub open spec fn int_decimal_spec(i: int) -> Seq<char> {
    if i < 0 {
        seq!['-'] + decimal_spec((-i) as nat)
    } else {
        decimal_spec(i as nat)
    }
}

/// `{:02x}` of a byte.
pub open spec fn byte_hex_spec(b: u8) -> Seq<char> {
    seq![digit_char_spec((b / 16) as nat), digit_char_spec((b % 16) as nat)]
}

/// A prefix of a digit string is worth no more than the whole, and a prefix
/// that is not made of digits spoils the whole.
proof fn lemma_digits_prefix(s: Seq<char>, k: int, radix: nat)
    requires
        0 <= k <= s.len(),
        radix >= 1,
    ensures
        digits_value_spec(s.take(k), radix) is None ==> digits_value_spec(s, radix) is None,
        digits_value_spec(s, radix) matches Some(v) ==> digits_value_spec(s.take(k), radix) matches Some(
            w,
        ) && w <= v,
    decreases s.len() - k,
{
    if k == s.len() {
        assert(s.take(k) =~= s);
    } else {
        lemma_digits_prefix(s.drop_last(), k, radix);
        assert(s.drop_last().take(k) =~= s.take(k));
        if let Some(v) = digits_value_spec(s, radix) {
            let p = digits_value_spec(s.drop_last(), radix).unwrap();
            assert(p * radix >= p) by (nonlinear_arith)
                requires
                    radix >= 1,
            ;
        }
    }
}

/// The value of `c` as a digit of base 36.
pub fn digit_value(c: char) -> (r: Option<u32>)
    ensures
        r matches Some(d) ==> digit_value_spec(c) == Some(d as nat) && d < 36,
        r is None ==> digit_value_spec(c) is None,
{
    if c >= '0' && c <= '9' {
        Some((c as u32) - ('0' as u32))
    } else if c >= 'a' && c <= 'z' {
        Some((c as u32) - ('a' as u32) + 10)
    } else if c >= 'A' && c <= 'Z' {
        Some((c as u32) - ('A' as u32) + 10)
    } else {
        None
    }
}

/// The value of the digits `s[start..]` in base `radix` when it is at most
/// `limit`.
fn digits_up_to(s: &[char], start: usize, radix: u32, limit: u64) -> (r: Option<u64>)
    requires
        start <= s@.len(),
        2 <= radix <= 36,
        limit <= 0x8000_0000_0000_0000u64,
    ensures
        r matches Some(v) ==> digits_value_spec(
            s@.subrange(start as int, s@.len() as int),
            radix as nat,
        ) == Some(v as nat) && v <= limit,
        r is None ==> match digits_value_spec(
            s@.subrange(start as int, s@.len() as int),
            radix as nat,
        ) {
            Some(v) => v > limit,
            None => true,
        },
{
    let ghost t = s@.subrange(start as int, s@.len() as int);
    let mut acc: u64 = 0;
    let mut i: usize = start;
    assert(t.take(0) =~= Seq::<char>::empty());
    while i < s.len()
        invariant
            start <= i <= s@.len(),
            2 <= radix <= 36,
            limit <= 0x8000_0000_0000_0000u64,
            t == s@.subrange(start as int, s@.len() as int),
            digits_value_spec(t.take(i - start), radix as nat) == Some(acc as nat),
            acc <= limit,
        decreases s.len() - i,
    {
        let ghost k = i - start;
        assert(t.take(k + 1).drop_last() =~= t.take(k));
        assert(t.take(k + 1).last() == s@[i as int]);
        match digit_value(s[i]) {
            Some(d) => {
                if d >= radix {
                    proof {
                        lemma_digits_prefix(t, k + 1, radix as nat);
                    }
                    return None;
                }
                assert(acc as u128 * radix as u128 <= 0x8000_0000_0000_0000u128 * 36) by (
                nonlinear_arith)
                    requires
                        acc <= 0x8000_0000_0000_0000u64,
                        radix <= 36,
                ;
                let next: u128 = acc as u128 * radix as u128 + d as u128;
                if next > limit as u128 {
                    proof {
                        lemma_digits_prefix(t, k + 1, radix as nat);
                    }
                    return None;
                }
                acc = next as u64;
            },
            None => {
                proof {
                    lemma_digits_prefix(t, k + 1, radix as nat);
                }
                return None;
            },
        }
        i = i + 1;
    }
    assert(t.take(t.len() as int) =~= t);
    Some(acc)
}

/// What `i64::from_str_radix(s, radix)` returns, as an option.
pub fn parse_i64_radix(s: &[char], radix: u32) -> (r: Option<i64>)
    requires
        2 <= radix <= 36,
    ensures
        r == parse_i64_spec(s@, radix as nat),
{
    if s.len() == 0 {
        return None;
    }
    if (s[0] == '+' || s[0] == '-') && s.len() == 1 {
        return None;
    }
    if s[0] == '+' || s[0] == '-' {
        assert(s@.drop_first() =~= s@.subrange(1, s@.len() as int));
    } else {
        assert(s@ =~= s@.subrange(0, s@.len() as int));
    }
    if s[0] == '+' {
        match digits_up_to(s, 1, radix, 0x7FFF_FFFF_FFFF_FFFFu64) {
            Some(v) => Some(v as i64),
            None => None,
        }
    } else if s[0] == '-' {
        match digits_up_to(s, 1, radix, 0x8000_0000_0000_0000u64) {
            Some(v) => {
                if v == 0x8000_0000_0000_0000u64 {
                    Some(i64::MIN)
                } else {
                    let m = v as i64;
                    Some(-m)
                }
            },
            None => None,
        }
    } else {
        match digits_up_to(s, 0, radix, 0x7FFF_FFFF_FFFF_FFFFu64) {
            Some(v) => Some(v as i64),
            None => None,
        }
    }
}

/// What `u32::from_str_radix(s, radix)` returns, as an option.
pub fn parse_u32_radix(s: &[char], radix: u32) -> (r: Option<u32>)
    requires
        2 <= radix <= 36,
    ensures
        r == parse_u32_spec(s@, radix as nat),
{
    if s.len() == 0 {
        return None;
    }
    if (s[0] == '+' || s[0] == '-') && s.len() == 1 {
        return None;
    }
    if s[0] == '+' {
        assert(s@.drop_first() =~= s@.subrange(1, s@.len() as int));
        match digits_up_to(s, 1, radix, 0xFFFF_FFFFu64) {
            Some(v) => Some(v as u32),
            None => None,
        }
    } else {
        assert(s@ =~= s@.subrange(0, s@.len() as int));
        match digits_up_to(s, 0, radix, 0xFFFF_FFFFu64) {
            Some(v) => Some(v as u32),
            None => None,
        }
    }
}

/// The lower-case digit for `d < 16`.
pub fn digit_char(d: u64) -> (c: char)
    requires
        d < 16,
    ensures
        c == digit_char_spec(d as nat),
{
    if d < 10 {
        let b = (d as u8) + ('0' as u8);
        b as char
    } else {
        let b = (d as u8) - 10 + ('a' as u8);
        b as char
    }
}

/// Appends the shortest digits of `n` in base `radix`.
pub fn push_radix_digits(out: &mut Vec<char>, n: u64, radix: u64)
    requires
        2 <= radix <= 16,
    ensures
        final(out)@ == old(out)@ + radix_digits_spec(n as nat, radix as nat),
    decreases n,
{
    if n < radix {
        out.push(digit_char(n));
    } else {
        proof {
            lemma_div_shrinks(n as nat, radix as nat);
        }
        push_radix_digits(out, n / radix, radix);
        out.push(digit_char(n % radix));
    }
}

/// Appends `Display` of `v`.
pub fn push_i64_decimal(out: &mut Vec<char>, v: i64)
    ensures
        final(out)@ == old(out)@ + int_decimal_spec(v as int),
{
    if v < 0 {
        out.push('-');
        let m: u64 = ((-(v + 1)) as u64) + 1;
        push_radix_digits(out, m, 10);
        assert(final(out)@ =~= old(out)@ + int_decimal_spec(v as int));
    } else {
        push_radix_digits(out, v as u64, 10);
    }
}

/// Appends `{:x}` of `v`.
pub fn push_u64_hex(out: &mut Vec<char>, v: u64)
    ensures
        final(out)@ == old(out)@ + hex_spec(v as nat),
{
    push_radix_digits(out, v, 16);
}

/// Appends `{:02x}` of `b`.
pub fn push_byte_hex(out: &mut Vec<char>, b: u8)
    ensures
        final(out)@ == old(out)@ + byte_hex_spec(b),
{
    out.push(digit_char((b / 16) as u64));
    out.push(digit_char((b % 16) as u64));
    assert(final(out)@ =~= old(out)@ + byte_hex_spec(b));
}

/// A lower-case digit reads back as its value, and so does its upper-case
/// form.
pub proof fn lemma_digit_char_value(d: nat)
    requires
        d < 16,
    ensures
        digit_value_spec(digit_char_spec(d)) == Some(d),
        d < 10 ==> '0' <= digit_char_spec(d) <= '9',
        d >= 10 ==> 'a' <= digit_char_spec(d) <= 'f',
        d >= 10 ==> digit_value_spec((((digit_char_spec(d) as u32) - 32) as u32) as char) == Some(d),
        d >= 10 ==> 'A' <= (((digit_char_spec(d) as u32) - 32) as u32) as char <= 'F',
{
}

/// The shortest digits of `n` read back as `n`; they are digits of the
/// radix, decimal digits for radix ten.
pub proof fn lemma_radix_digits_value(n: nat, radix: nat)
    requires
        2 <= radix <= 16,
    ensures
        digits_value_spec(radix_digits_spec(n, radix), radix) == Some(n),
        radix_digits_spec(n, radix).len() > 0,
        forall|i: int|
            0 <= i < radix_digits_spec(n, radix).len() ==> {
                let c = #[trigger] radix_digits_spec(n, radix)[i];
                ('0' <= c <= '9') || (radix > 10 && 'a' <= c <= 'f')
            },
    decreases n,
{
    let s = radix_digits_spec(n, radix);
    lemma_digit_char_value(n % radix);
    if n < radix {
        assert(n % radix == n) by (nonlinear_arith)
            requires
                n < radix,
        ;
        assert(s == seq![digit_char_spec(n)]);
        assert(s.drop_last() =~= Seq::<char>::empty());
        assert(digits_value_spec(s.drop_last(), radix) == Some(0nat));
        assert(s.last() == digit_char_spec(n));
        assert(0 * radix + n == n) by (nonlinear_arith);
    } else {
        lemma_div_shrinks(n, radix);
        lemma_radix_digits_value(n / radix, radix);
        let p = radix_digits_spec(n / radix, radix);
        assert(s == p + seq![digit_char_spec(n % radix)]);
        assert(s.drop_last() =~= p);
        assert(n == (n / radix) * radix + n % radix) by (nonlinear_arith)
            requires
                radix > 0,
        ;
        assert(n % radix < radix) by (nonlinear_arith)
            requires
                radix > 0,
        ;
        assert(digits_value_spec(s.drop_last(), radix) == Some(n / radix));
        assert(s.last() == digit_char_spec(n % radix));
        assert forall|i: int| 0 <= i < s.len() implies {
            let c = #[trigger] s[i];
            ('0' <= c <= '9') || (radix > 10 && 'a' <= c <= 'f')
        } by {
            if i < p.len() {
                assert(s[i] == p[i]);
            }
        }
    }
}

/// Digits that read the same as their upper-case forms keep their value in
/// upper case.
pub proof fn lemma_upper_digits_value(s: Seq<char>, radix: nat)
    requires
        forall|i: int| 0 <= i < s.len() ==> ('0' <= #[trigger] s[i] <= '9') || ('a' <= s[i] <= 'f'),
    ensures
        digits_value_spec(
            s.map_values(|c: char| if 'a' <= c <= 'z' { ((c as u32) - 32) as char } else { c }),
            radix,
        ) == digits_value_spec(s, radix),
    decreases s.len(),
{
    let u = s.map_values(|c: char| if 'a' <= c <= 'z' { ((c as u32) - 32) as char } else { c });
    if s.len() > 0 {
        lemma_upper_digits_value(s.drop_last(), radix);
        assert(u.drop_last() =~= s.drop_last().map_values(
            |c: char| if 'a' <= c <= 'z' { ((c as u32) - 32) as char } else { c },
        ));
        let c = s.last();
        assert('0' <= c <= '9' || 'a' <= c <= 'f');
        assert(u.last() == (if 'a' <= c <= 'z' { ((c as u32) - 32) as char } else { c }));
        if 'a' <= c <= 'f' {
            let d = (c as u32 - 'a' as u32 + 10) as nat;
            assert(digit_char_spec(d) == c);
            lemma_digit_char_value(d);
        }
    }
}

/// Digits that do not start with a sign, worth at most `i64::MAX`, parse as
/// that `i64`.
pub proof fn lemma_digits_parse_i64(d: Seq<char>, radix: nat, v: nat)
    requires
        d.len() > 0,
        d[0] != '+',
        d[0] != '-',
        digits_value_spec(d, radix) == Some(v),
        v <= i64::MAX,
    ensures
        parse_i64_spec(d, radix) == Some(v as i64),
{
}

} // verus!
