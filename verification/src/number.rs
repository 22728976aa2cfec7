//! Reading integers from attribute text: `u32` and `i32` as `FromStr`
//! reads them, and the measurement values of WordprocessingML, which may
//! carry a unit suffix or a decimal part.

use vstd::prelude::*;

verus! {

pub open spec fn is_digit(c: char) -> bool {
    '0' <= c && c <= '9'
}

pub open spec fn all_digits(s: Seq<char>) -> bool {
    forall|i: int| 0 <= i < s.len() ==> is_digit(#[trigger] s[i])
}

/// The value of a string of decimal digits.
pub open spec fn digits_value(s: Seq<char>) -> int
    decreases s.len(),
{
    if s.len() == 0 {
        0
    } else {
        digits_value(s.drop_last()) * 10 + (s.last() as int - 48)
    }
}

/// `s` without a leading sign character from `signs`.
pub open spec fn unsigned_part(s: Seq<char>, minus_allowed: bool) -> Seq<char> {
    if s.len() > 0 && (s[0] == '+' || (minus_allowed && s[0] == '-')) {
        s.drop_first()
    } else {
        s
    }
}

/// `u32::from_str`: an optional `+` and at least one digit, in range.
pub open spec fn parse_u32(s: Seq<char>) -> Option<u32> {
    let body = unsigned_part(s, false);
    if body.len() > 0 && all_digits(body) && digits_value(body) <= u32::MAX {
        Some(digits_value(body) as u32)
    } else {
        None
    }
}

/// `i32::from_str`: an optional `+` or `-` and at least one digit, in
/// range.
pub open spec fn parse_i32(s: Seq<char>) -> Option<i32> {
    let body = unsigned_part(s, true);
    let v = if s.len() > 0 && s[0] == '-' {
        -digits_value(body)
    } else {
        digits_value(body)
    };
    if body.len() > 0 && all_digits(body) && i32::MIN <= v <= i32::MAX {
        Some(v as i32)
    } else {
        None
    }
}

/// `i64::from_str`: an optional sign, then one or more ASCII digits, the
/// value within range.
pub open spec fn parse_i64(s: Seq<char>) -> Option<i64> {
    let body = unsigned_part(s, true);
    let v = if s.len() > 0 && s[0] == '-' {
        -digits_value(body)
    } else {
        digits_value(body)
    };
    if body.len() > 0 && all_digits(body) && i64::MIN <= v <= i64::MAX {
        Some(v as i64)
    } else {
        None
    }
}

pub proof fn lemma_digits_value_nonneg(s: Seq<char>)
    requires
        all_digits(s),
    ensures
        digits_value(s) >= 0,
    decreases s.len(),
{
    if s.len() > 0 {
        lemma_digits_value_nonneg(s.drop_last());
    }
}

/// A longer run of digits is worth at least as much as its prefix.
pub proof fn lemma_digits_value_prefix(s: Seq<char>, k: int)
    requires
        all_digits(s),
        0 <= k <= s.len(),
    ensures
        digits_value(s.take(k)) <= digits_value(s),
    decreases s.len() - k,
{
    if k < s.len() {
        lemma_digits_value_prefix(s, k + 1);
        assert(s.take(k + 1).drop_last() =~= s.take(k));
        lemma_digits_value_nonneg(s.take(k));
    } else {
        assert(s.take(k) =~= s);
    }
}

/// Whether every character of `s` is a digit.
pub fn chars_all_digits(s: &[char]) -> (r: bool)
    ensures
        r == all_digits(s@),
{
    let mut i: usize = 0;
    while i < s.len()
        invariant
            i <= s@.len(),
            forall|j: int| 0 <= j < i ==> is_digit(#[trigger] s@[j]),
        decreases s@.len() - i,
    {
        if !('0' <= s[i] && s[i] <= '9') {
            return false;
        }
        i = i + 1;
    }
    true
}

/// The value of the digits `s[from..]`, or `None` where it exceeds
/// `limit`.
pub fn digits_value_upto(s: &[char], from: usize, limit: u64) -> (r: Option<u64>)
    requires
        from <= s@.len(),
        all_digits(s@.subrange(from as int, s@.len() as int)),
        limit < 0x1000_0000_0000,
    ensures
        match r {
            Some(v) => v == digits_value(s@.subrange(from as int, s@.len() as int)) && v <= limit,
            None => digits_value(s@.subrange(from as int, s@.len() as int)) > limit,
        },
{
    let ghost body = s@.subrange(from as int, s@.len() as int);
    let mut acc: u64 = 0;
    let mut i: usize = from;
    while i < s.len()
        invariant
            from <= i <= s@.len(),
            body == s@.subrange(from as int, s@.len() as int),
            all_digits(body),
            acc == digits_value(body.take(i - from)),
            acc <= limit,
            limit < 0x1000_0000_0000,
        decreases s@.len() - i,
    {
        proof {
            assert(is_digit(body[i - from]));
        }
        let d = (s[i] as u32 - 48) as u64;
        proof {
            assert(body.take(i - from + 1).drop_last() =~= body.take(i - from));
            assert(body.take(i - from + 1).last() == s@[i as int]);
        }
        let next = acc * 10 + d;
        if next > limit {
            proof {
                lemma_digits_value_prefix(body, i - from + 1);
            }
            return None;
        }
        acc = next;
        i = i + 1;
    }
    proof {
        assert(body.take(i - from) =~= body);
    }
    Some(acc)
}

/// `digits_value_upto` with a wide accumulator.
fn digits_value_wide(s: &[char], from: usize, limit: u128) -> (r: Option<u128>)
    requires
        from <= s@.len(),
        all_digits(s@.subrange(from as int, s@.len() as int)),
        limit < 0x1_0000_0000_0000_0000,
    ensures
        match r {
            Some(v) => v == digits_value(s@.subrange(from as int, s@.len() as int)) && v <= limit,
            None => digits_value(s@.subrange(from as int, s@.len() as int)) > limit,
        },
{
    let ghost body = s@.subrange(from as int, s@.len() as int);
    let mut acc: u128 = 0;
    let mut i: usize = from;
    while i < s.len()
        invariant
            from <= i <= s@.len(),
            body == s@.subrange(from as int, s@.len() as int),
            all_digits(body),
            acc == digits_value(body.take(i - from)),
            acc <= limit,
            limit < 0x1_0000_0000_0000_0000,
        decreases s@.len() - i,
    {
        proof {
            assert(is_digit(body[i - from]));
        }
        let d = (s[i] as u32 - 48) as u128;
        proof {
            assert(body.take(i - from + 1).drop_last() =~= body.take(i - from));
            assert(body.take(i - from + 1).last() == s@[i as int]);
        }
        let next = acc * 10 + d;
        if next > limit {
            proof {
                lemma_digits_value_prefix(body, i - from + 1);
            }
            return None;
        }
        acc = next;
        i = i + 1;
    }
    proof {
        assert(body.take(i - from) =~= body);
    }
    Some(acc)
}

/// `i64::from_str` on characters.
pub fn parse_i64_chars(s: &[char]) -> (r: Option<i64>)
    ensures
        r == parse_i64(s@),
{
    let neg = s.len() > 0 && s[0] == '-';
    let from: usize = if s.len() > 0 && (s[0] == '+' || s[0] == '-') {
        1
    } else {
        0
    };
    proof {
        assert(unsigned_part(s@, true) =~= s@.subrange(from as int, s@.len() as int));
    }
    if from >= s.len() || !chars_all_digits(&s[from..s.len()]) {
        return None;
    }
    let limit: u128 = if neg {
        0x8000_0000_0000_0000
    } else {
        0x7FFF_FFFF_FFFF_FFFF
    };
    match digits_value_wide(s, from, limit) {
        Some(v) => {
            if neg {
                if v == 0x8000_0000_0000_0000 {
                    Some(i64::MIN)
                } else {
                    Some(-(v as i64))
                }
            } else {
                Some(v as i64)
            }
        },
        None => None,
    }
}

/// `i64::from_str` on a string.
pub fn parse_i64_str(s: &str) -> (r: Option<i64>)
    ensures
        r == parse_i64(s@),
{
    let v = crate::text::chars_of(s);
    parse_i64_chars(v.as_slice())
}

/// `u32::from_str` on characters.
pub fn parse_u32_chars(s: &[char]) -> (r: Option<u32>)
    ensures
        r == parse_u32(s@),
{
    let from: usize = if s.len() > 0 && s[0] == '+' {
        1
    } else {
        0
    };
    proof {
        assert(unsigned_part(s@, false) =~= s@.subrange(from as int, s@.len() as int));
    }
    if from >= s.len() || !chars_all_digits(&s[from..s.len()]) {
        return None;
    }
    match digits_value_upto(s, from, 0xFFFF_FFFF) {
        Some(v) => Some(v as u32),
        None => None,
    }
}

/// `i32::from_str` on characters.
pub fn parse_i32_chars(s: &[char]) -> (r: Option<i32>)
    ensures
        r == parse_i32(s@),
{
    let neg = s.len() > 0 && s[0] == '-';
    let from: usize = if s.len() > 0 && (s[0] == '+' || s[0] == '-') {
        1
    } else {
        0
    };
    proof {
        assert(unsigned_part(s@, true) =~= s@.subrange(from as int, s@.len() as int));
    }
    if from >= s.len() || !chars_all_digits(&s[from..s.len()]) {
        return None;
    }
    let limit: u64 = if neg {
        0x8000_0000
    } else {
        0x7FFF_FFFF
    };
    match digits_value_upto(s, from, limit) {
        Some(v) => {
            if neg {
                if v == 0x8000_0000 {
                    Some(i32::MIN)
                } else {
                    Some(-(v as i32))
                }
            } else {
                Some(v as i32)
            }
        },
        None => None,
    }
}

/// `is_ascii_alphabetic`
pub open spec fn is_ascii_alpha(c: char) -> bool {
    ('a' <= c && c <= 'z') || ('A' <= c && c <= 'Z')
}

/// `s` with trailing letters and `%` signs removed: a unit suffix such
/// as `pt` or `%`.
pub open spec fn trim_unit(s: Seq<char>) -> Seq<char>
    decreases s.len(),
{
    if s.len() > 0 && (is_ascii_alpha(s.last()) || s.last() == '%') {
        trim_unit(s.drop_last())
    } else {
        s
    }
}

/// The position of the first `c` in `s` at or after `i`.
pub open spec fn index_of_from(s: Seq<char>, c: char, i: int) -> Option<int>
    decreases s.len() - i,
{
    if i < 0 || i >= s.len() {
        None
    } else if s[i] == c {
        Some(i)
    } else {
        index_of_from(s, c, i + 1)
    }
}

/// The position of the first `c` in `s`.
pub open spec fn index_of(s: Seq<char>, c: char) -> Option<int> {
    index_of_from(s, c, 0)
}

/// `10` to the power `n`.
pub open spec fn pow10(n: nat) -> int
    decreases n,
{
    if n == 0 {
        1
    } else {
        10 * pow10((n - 1) as nat)
    }
}

/// The position of the first `e` or `E` in `s` at or after `i`, or the
/// length of `s` where there is none.
pub open spec fn exp_marker_from(s: Seq<char>, i: int) -> int
    decreases s.len() - i,
{
    if i < 0 || i >= s.len() {
        s.len() as int
    } else if s[i] == 'e' || s[i] == 'E' {
        i
    } else {
        exp_marker_from(s, i + 1)
    }
}

/// The value of an exponent: an optional sign and at least one digit.
pub open spec fn exponent_value(e: Seq<char>) -> Option<int> {
    let b = unsigned_part(e, true);
    if b.len() > 0 && all_digits(b) {
        Some(
            if e.len() > 0 && e[0] == '-' {
                -digits_value(b)
            } else {
                digits_value(b)
            },
        )
    } else {
        None
    }
}

/// The integer part of the digits `d` with the decimal point after the
/// first `k` of them.
pub open spec fn shifted_int(d: Seq<char>, k: int) -> int {
    if k <= 0 {
        0
    } else if k <= d.len() {
        digits_value(d.take(k))
    } else {
        digits_value(d) * pow10((k - d.len()) as nat)
    }
}

/// A number with a decimal point (`12.95`, `-.5`, `7.`, `1.5e2`),
/// decimals truncated toward zero; `None` where `s` is not one.
pub open spec fn truncate_decimal(s: Seq<char>) -> Option<int> {
    let body = unsigned_part(s, true);
    let ep = exp_marker_from(body, 0);
    let mant = body.take(ep);
    let exp = if ep < body.len() {
        exponent_value(body.skip(ep + 1))
    } else {
        Some(0int)
    };
    match (index_of(mant, '.'), exp) {
        (Some(dot), Some(e)) => {
            let whole = mant.take(dot);
            let frac = mant.skip(dot + 1);
            if all_digits(whole) && all_digits(frac) && whole.len() + frac.len() > 0 {
                let m = shifted_int(whole + frac, whole.len() + e);
                Some(
                    if s.len() > 0 && s[0] == '-' {
                        -m
                    } else {
                        m
                    },
                )
            } else {
                None
            }
        },
        _ => None,
    }
}

pub proof fn lemma_pow10_mono(m: nat, n: nat)
    requires
        m <= n,
    ensures
        pow10(m) <= pow10(n),
    decreases n,
{
    if m < n {
        lemma_pow10_mono(m, (n - 1) as nat);
        lemma_pow10_ge((n - 1) as nat);
    }
}

pub proof fn lemma_pow10_nine()
    ensures
        pow10(9) == 1_000_000_000,
{
    reveal_with_fuel(pow10, 10);
}

pub proof fn lemma_pow10_ge(n: nat)
    ensures
        pow10(n) >= 1,
        n >= 9 ==> pow10(n) >= 1_000_000_000,
        n >= 10 ==> pow10(n) >= 10_000_000_000,
    decreases n,
{
    if n == 9 {
        lemma_pow10_nine();
    } else if n > 0 {
        lemma_pow10_ge((n - 1) as nat);
    }
}

/// A measurement for a `u32` field: the integer itself, or where that
/// fails, the truncated decimal when it is one and in range.
pub open spec fn numeric_u32(s: Seq<char>) -> Option<u32> {
    let n = trim_unit(s);
    match parse_u32(n) {
        Some(v) => Some(v),
        None => match truncate_decimal(n) {
            Some(r) => if 0 <= r <= u32::MAX {
                Some(r as u32)
            } else {
                None
            },
            None => None,
        },
    }
}

/// A measurement for an `i32` field, read as `numeric_u32` reads one.
pub open spec fn numeric_i32(s: Seq<char>) -> Option<i32> {
    let n = trim_unit(s);
    match parse_i32(n) {
        Some(v) => Some(v),
        None => match truncate_decimal(n) {
            Some(r) => if i32::MIN <= r <= i32::MAX {
                Some(r as i32)
            } else {
                None
            },
            None => None,
        },
    }
}

/// The length of `trim_unit(s)`.
fn trim_unit_len(s: &[char]) -> (n: usize)
    ensures
        n <= s@.len(),
        trim_unit(s@) == s@.take(n as int),
{
    let mut n: usize = s.len();
    proof {
        assert(s@.take(n as int) =~= s@);
    }
    while n > 0 && (('a' <= s[n - 1] && s[n - 1] <= 'z') || ('A' <= s[n - 1] && s[n - 1] <= 'Z')
        || s[n - 1] == '%')
        invariant
            n <= s@.len(),
            trim_unit(s@) == trim_unit(s@.take(n as int)),
        decreases n,
    {
        proof {
            assert(s@.take(n as int).drop_last() =~= s@.take(n - 1));
        }
        n = n - 1;
    }
    n
}

/// The value of the digits `s`, or `CAP` (`2^66`) where it is larger.
fn digits_value_capped(s: &[char]) -> (r: u128)
    requires
        all_digits(s@),
    ensures
        digits_value(s@) >= 0x4_0000_0000_0000_0000 ==> r == 0x4_0000_0000_0000_0000,
        digits_value(s@) < 0x4_0000_0000_0000_0000 ==> r == digits_value(s@),
{
    let mut acc: u128 = 0;
    let mut i: usize = 0;
    while i < s.len()
        invariant
            i <= s@.len(),
            all_digits(s@),
            digits_value(s@.take(i as int)) >= 0x4_0000_0000_0000_0000 ==> acc
                == 0x4_0000_0000_0000_0000,
            digits_value(s@.take(i as int)) < 0x4_0000_0000_0000_0000 ==> acc == digits_value(
                s@.take(i as int),
            ),
        decreases s@.len() - i,
    {
        proof {
            assert(is_digit(s@[i as int]));
            assert(s@.take(i + 1).drop_last() =~= s@.take(i as int));
            assert(s@.take(i + 1).last() == s@[i as int]);
            lemma_digits_value_nonneg(s@.take(i as int));
        }
        let d = (s[i] as u32 - 48) as u128;
        if acc < 0x4_0000_0000_0000_0000 {
            let next = acc * 10 + d;
            acc = if next >= 0x4_0000_0000_0000_0000 {
                0x4_0000_0000_0000_0000
            } else {
                next
            };
        }
        i = i + 1;
    }
    proof {
        assert(s@.take(s@.len() as int) =~= s@);
    }
    acc
}

/// `shifted_int(d, kt)` where `k` places the point as `kt` does (equal,
/// or both past the end of `d` by ten or more); `None` where it is above
/// `2^32`.
#[verifier::rlimit(40)]
fn shifted_int_exec(dv: &[char], k: i128, Ghost(kt): Ghost<int>) -> (r: Option<u64>)
    requires
        all_digits(dv@),
        kt <= 0 <==> k <= 0,
        0 < k <= dv@.len() ==> kt == k,
        k > dv@.len() ==> kt >= k,
        k > dv@.len() && k - dv@.len() < 10 ==> kt == k,
    ensures
        match r {
            Some(m) => shifted_int(dv@, kt) == m && m <= 0x1_0000_0000,
            None => shifted_int(dv@, kt) > 0x1_0000_0000,
        },
{
    let ghost dd = dv@;
    let nd = dv.len();
    proof {
        lemma_digits_value_nonneg(dd);
    }
    if k <= 0 {
        return Some(0);
    }
    let m: u64 = if false {
        0
    } else if k <= nd as i128 {
        let kk = k as usize;
        proof {
            assert(dv@.take(kk as int) =~= dv@.subrange(0, kk as int));
            assert(dv@.take(kk as int).subrange(0, kk as int) =~= dv@.take(kk as int));
        }
        match digits_value_upto(&dv[0..kk], 0, 0x1_0000_0000) {
            None => {
                proof {
                    assert(dv@.subrange(0, kk as int).subrange(0, kk as int) =~= dd.take(kk as int));
                }
                return None;
            },
            Some(v) => {
                proof {
                    assert(dv@.subrange(0, kk as int).subrange(0, kk as int) =~= dd.take(kk as int));
                }
                v
            },
        }
    } else {
        proof {
            assert(dv@.subrange(0, nd as int) =~= dd);
        }
        match digits_value_upto(dv, 0, 0x1_0000_0000) {
            None => {
                proof {
                    lemma_pow10_ge((kt - nd) as nat);
                    assert(digits_value(dd) * pow10((kt - nd) as nat) >= digits_value(dd)) by (nonlinear_arith)
                        requires
                            digits_value(dd) >= 0,
                            pow10((kt - nd) as nat) >= 1,
                    ;
                }
                return None;
            },
            Some(v) => {
                if v == 0 {
                    proof {
                        assert(digits_value(dd) * pow10((kt - nd) as nat) == 0);
                    }
                    0
                } else if k - nd as i128 >= 10 {
                    proof {
                        lemma_pow10_ge((kt - nd) as nat);
                        assert(digits_value(dd) * pow10((kt - nd) as nat) >= pow10((kt - nd) as nat)) by (nonlinear_arith)
                            requires
                                digits_value(dd) >= 1,
                                pow10((kt - nd) as nat) >= 1,
                        ;
                    }
                    return None;
                } else {
                    let j = (k - nd as i128) as u32;
                    let mut p: u64 = 1;
                    let mut t: u32 = 0;
                    while t < j
                        invariant
                            t <= j,
                            j < 10,
                            p == pow10(t as nat),
                            p <= 1_000_000_000,
                        decreases j - t,
                    {
                        proof {
                            assert(pow10((t + 1) as nat) == 10 * pow10(t as nat));
                            lemma_pow10_mono((t + 1) as nat, 9);
                            lemma_pow10_nine();
                        }
                        p = p * 10;
                        t = t + 1;
                    }
                    proof {
                        assert(v * p <= 0x1_0000_0000 * 1_000_000_000) by (nonlinear_arith)
                            requires
                                v <= 0x1_0000_0000,
                                p <= 1_000_000_000,
                        ;
                    }
                    let prod: u64 = v * p;
                    if prod > 0x1_0000_0000 {
                        return None;
                    }
                    prod
                }
            },
        }
    };
    Some(m)
}

/// `truncate_decimal` as an executable reading, with values of magnitude
/// above `2^32` reported as `None` too.
#[verifier::rlimit(40)]
fn truncate_decimal_chars(s: &[char]) -> (r: Option<i64>)
    ensures
        match r {
            Some(v) => truncate_decimal(s@) == Some(v as int),
            None => match truncate_decimal(s@) {
                None => true,
                Some(m) => m > u32::MAX || m < i32::MIN,
            },
        },
{
    let neg = s.len() > 0 && s[0] == '-';
    let from: usize = if s.len() > 0 && (s[0] == '+' || s[0] == '-') {
        1
    } else {
        0
    };
    let ghost body = unsigned_part(s@, true);
    proof {
        assert(body =~= s@.subrange(from as int, s@.len() as int));
    }
    let mut ep: usize = from;
    while ep < s.len() && s[ep] != 'e' && s[ep] != 'E'
        invariant
            from <= ep <= s@.len(),
            body == s@.subrange(from as int, s@.len() as int),
            exp_marker_from(body, 0) == exp_marker_from(body, ep - from),
        decreases s@.len() - ep,
    {
        ep = ep + 1;
    }
    let ghost mant = body.take(ep - from);
    proof {
        assert(exp_marker_from(body, 0) == ep - from);
    }
    let mut dot: usize = from;
    while dot < ep && s[dot] != '.'
        invariant
            from <= dot <= ep,
            ep <= s@.len(),
            mant == s@.subrange(from as int, ep as int),
            index_of(mant, '.') == index_of_from(mant, '.', dot - from),
        decreases ep - dot,
    {
        dot = dot + 1;
    }
    if dot >= ep {
        return None;
    }
    let ghost d = dot - from;
    proof {
        assert(index_of(mant, '.') == Some(d));
    }
    let whole = &s[from..dot];
    let frac = &s[dot + 1..ep];
    proof {
        assert(whole@ =~= mant.take(d));
        assert(frac@ =~= mant.skip(d + 1));
    }
    if !chars_all_digits(whole) || !chars_all_digits(frac) || whole.len() + frac.len() == 0 {
        return None;
    }
    // The exponent, its magnitude capped.
    let mut eneg = false;
    let mut emag: u128 = 0;
    if ep < s.len() {
        let es = &s[ep + 1..s.len()];
        proof {
            assert(es@ =~= body.skip(ep - from + 1));
        }
        let efrom: usize = if es.len() > 0 && (es[0] == '+' || es[0] == '-') {
            1
        } else {
            0
        };
        eneg = es.len() > 0 && es[0] == '-';
        let eb = &es[efrom..es.len()];
        proof {
            assert(eb@ =~= unsigned_part(es@, true));
        }
        if eb.len() == 0 || !chars_all_digits(eb) {
            return None;
        }
        emag = digits_value_capped(eb);
    }
    let ghost e: int = match (if ep < s.len() {
        exponent_value(body.skip(ep - from + 1))
    } else {
        Some(0int)
    }) {
        Some(v) => v,
        None => 0,
    };
    let mut dv: Vec<char> = Vec::new();
    dv.extend_from_slice(whole);
    dv.extend_from_slice(frac);
    let ghost dd = whole@ + frac@;
    proof {
        assert(dv@ =~= dd);
        assert(all_digits(dd)) by {
            assert forall|i: int| 0 <= i < dd.len() implies is_digit(#[trigger] dd[i]) by {
                if i < whole@.len() {
                    assert(dd[i] == whole@[i]);
                } else {
                    assert(dd[i] == frac@[i - whole@.len()]);
                }
            }
        }
        lemma_digits_value_nonneg(dd);
    }
    let nd = dv.len();
    let wl = whole.len() as i128;
    let k: i128 = if eneg {
        wl - emag as i128
    } else {
        wl + emag as i128
    };
    let ghost kt = whole@.len() + e;
    proof {
        if ep < s.len() {
            let eb = unsigned_part(body.skip(ep - from + 1), true);
            lemma_digits_value_nonneg(eb);
        }
        // The capped and the true exponent place the point alike.
        assert(kt <= 0 ==> k <= 0);
        assert(k <= 0 ==> kt <= 0);
        assert(0 < k <= nd ==> kt == k);
        assert(k > nd ==> kt >= k);
    }
    let m: u64 = match shifted_int_exec(dv.as_slice(), k, Ghost(kt)) {
        None => {
            return None;
        },
        Some(m) => m,
    };
    if neg {
        Some(-(m as i64))
    } else {
        Some(m as i64)
    }
}

/// A measurement for a `u32` field.
pub fn parse_numeric_u32(s: &str) -> (r: Option<u32>)
    ensures
        r == numeric_u32(s@),
{
    let v = crate::text::chars_of(s);
    let n = trim_unit_len(v.as_slice());
    let t = &v.as_slice()[0..n];
    proof {
        assert(t@ =~= v@.take(n as int));
    }
    match parse_u32_chars(t) {
        Some(x) => Some(x),
        None => match truncate_decimal_chars(t) {
            Some(r) => {
                if 0 <= r && r <= 0xFFFF_FFFF {
                    Some(r as u32)
                } else {
                    None
                }
            },
            None => None,
        },
    }
}

/// A measurement for an `i32` field.
pub fn parse_numeric_i32(s: &str) -> (r: Option<i32>)
    ensures
        r == numeric_i32(s@),
{
    let v = crate::text::chars_of(s);
    let n = trim_unit_len(v.as_slice());
    let t = &v.as_slice()[0..n];
    proof {
        assert(t@ =~= v@.take(n as int));
    }
    match parse_i32_chars(t) {
        Some(x) => Some(x),
        None => match truncate_decimal_chars(t) {
            Some(r) => {
                if -0x8000_0000 <= r && r <= 0x7FFF_FFFF {
                    Some(r as i32)
                } else {
                    None
                }
            },
            None => None,
        },
    }
}

/// `i32::from_str` on a string.
pub fn parse_i32_str(s: &str) -> (r: Option<i32>)
    ensures
        r == parse_i32(s@),
{
    let v = crate::text::chars_of(s);
    parse_i32_chars(v.as_slice())
}

/// `u32::from_str` on a string.
pub fn parse_u32_str(s: &str) -> (r: Option<u32>)
    ensures
        r == parse_u32(s@),
{
    let v = crate::text::chars_of(s);
    parse_u32_chars(v.as_slice())
}

} // verus!
