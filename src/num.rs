use vstd::prelude::*;
use vstd::utf8::encode_utf8;

verus! {

/// Relies on `String::push`: the character is appended.
#[verifier::external_body]
pub(crate) fn push_char(s: &mut String, c: char)
    ensures
        final(s)@ == old(s)@.push(c),
{
    s.push(c);
}

pub open spec fn is_digit(c: u8) -> bool {
    0x30 <= c <= 0x39
}

/// The character of the digit `d`, in lower-case hexadecimal above nine.
pub open spec fn digit_char(d: int) -> char {
    if d < 10 {
        ((48 + d) as u8) as char
    } else {
        ((87 + d) as u8) as char
    }
}

/// Decimal text of `n`, without leading zeros.
pub open spec fn decimal(n: nat) -> Seq<char>
    decreases n,
{
    if n < 10 {
        seq![digit_char(n as int)]
    } else {
        decimal(n / 10).push(digit_char((n % 10) as int))
    }
}

/// The last `width` hexadecimal digits of `n`, zero-padded.
pub open spec fn hex_digits(n: nat, width: nat) -> Seq<char>
    decreases width,
{
    if width == 0 {
        Seq::empty()
    } else {
        hex_digits(n / 16, (width - 1) as nat).push(digit_char((n % 16) as int))
    }
}

fn digit_char_exec(d: u64) -> (c: char)
    requires
        d < 16,
    ensures
        c == digit_char(d as int),
{
    if d < 10 {
        ((48 + d) as u8) as char
    } else {
        ((87 + d) as u8) as char
    }
}

/// Appends the decimal text of `n`.
pub fn push_decimal(s: &mut String, n: u64)
    ensures
        final(s)@ == old(s)@ + decimal(n as nat),
    decreases n,
{
    if n >= 10 {
        push_decimal(s, n / 10);
    }
    push_char(s, digit_char_exec(n % 10));
    assert(final(s)@ =~= old(s)@ + decimal(n as nat));
}

/// Appends the last `width` hexadecimal digits of `n`, zero-padded.
pub fn push_hex(s: &mut String, n: u64, width: u32)
    ensures
        final(s)@ == old(s)@ + hex_digits(n as nat, width as nat),
    decreases width,
{
    if width > 0 {
        push_hex(s, n / 16, width - 1);
        push_char(s, digit_char_exec(n % 16));
    }
    assert(final(s)@ =~= old(s)@ + hex_digits(n as nat, width as nat));
}

/// Value of the decimal digits `b[s..e]`.
pub open spec fn digits_value(b: Seq<u8>, s: int, e: int) -> int
    decreases e - s,
{
    if e <= s {
        0
    } else {
        10 * digits_value(b, s, e - 1) + (b[e - 1] - 0x30)
    }
}

pub open spec fn all_digits(b: Seq<u8>, s: int, e: int) -> bool {
    forall|k: int| s <= k < e ==> is_digit(#[trigger] b[k])
}

/// Start of the digits of `b[s..e]` after an optional `+`.
pub open spec fn after_plus(b: Seq<u8>, s: int, e: int) -> int {
    if s < e && b[s] == 0x2B {
        s + 1
    } else {
        s
    }
}

/// `str::parse` of an unsigned integer type whose largest value is `max`:
/// an optional `+`, then one or more decimal digits, with no overflow.
pub open spec fn parse_uint(b: Seq<u8>, s: int, e: int, max: int) -> Option<int> {
    let d = after_plus(b, s, e);
    if d < e && all_digits(b, d, e) && digits_value(b, d, e) <= max {
        Some(digits_value(b, d, e))
    } else {
        None
    }
}

proof fn lemma_digits_value_mono(b: Seq<u8>, s: int, e: int)
    requires
        s <= e,
        all_digits(b, s, e),
    ensures
        0 <= digits_value(b, s, e),
    decreases e - s,
{
    if s < e {
        lemma_digits_value_mono(b, s, e - 1);
    }
}

/// Parses `b[s..e]` as an unsigned integer no larger than `max`, as `str::parse` does.
pub fn parse_uint_exec(b: &[u8], s: usize, e: usize, max: u64) -> (r: Option<u64>)
    requires
        s <= e <= b@.len(),
    ensures
        r matches Some(v) ==> parse_uint(b@, s as int, e as int, max as int) == Some(v as int),
        r is None ==> parse_uint(b@, s as int, e as int, max as int) is None,
{
    let d = if s < e && b[s] == 0x2B {
        s + 1
    } else {
        s
    };
    if d >= e {
        return None;
    }
    let mut v: u64 = 0;
    let mut i = d;
    while i < e
        invariant
            s <= d <= i <= e <= b@.len(),
            d == after_plus(b@, s as int, e as int),
            all_digits(b@, d as int, i as int),
            v == digits_value(b@, d as int, i as int),
            v <= max,
        decreases e - i,
    {
        let c = b[i];
        if c < 0x30 || c > 0x39 {
            assert(!all_digits(b@, d as int, e as int));
            return None;
        }
        let dv = (c - 0x30) as u64;
        if dv > max || v > (max - dv) / 10 {
            proof {
                assert forall|k: int| i + 1 <= k <= e && all_digits(b@, d as int, k) implies digits_value(b@, d as int, k) > max by {
                    lemma_digits_grow(b@, d as int, i as int + 1, k);
                }
                assert(digits_value(b@, d as int, i + 1) == 10 * v + dv);
                assert(10 * v + dv > max) by (nonlinear_arith)
                    requires
                        dv > max || v > (max - dv) / 10,
                        v >= 0,
                        max >= 0,
                ;
            }
            return None;
        }
        v = 10 * v + dv;
        i = i + 1;
    }
    Some(v)
}

proof fn lemma_digits_grow(b: Seq<u8>, d: int, i: int, k: int)
    requires
        d <= i <= k,
        all_digits(b, d, k),
    ensures
        digits_value(b, d, k) >= digits_value(b, d, i),
    decreases k - i,
{
    if i < k {
        lemma_digits_grow(b, d, i, k - 1);
        lemma_digits_value_mono(b, d, k - 1);
    }
}


pub open spec fn pow10(n: nat) -> int
    decreases n,
{
    if n == 0 {
        1
    } else {
        10 * pow10((n - 1) as nat)
    }
}

/// First index in `s..e` that is not a decimal digit, or `e`.
pub open spec fn digit_run_end(b: Seq<u8>, s: int, e: int) -> int
    decreases e - s,
{
    if s < e && is_digit(b[s]) {
        digit_run_end(b, s + 1, e)
    } else {
        s
    }
}

/// Start of the fraction digits of a number whose integer digits end at `p`.
pub open spec fn fraction_start(b: Seq<u8>, p: int, e: int) -> int {
    if p < e {
        p + 1
    } else {
        e
    }
}

/// Number of fraction digits that count at `places` places.
pub open spec fn taken(fs: int, e: int, places: nat) -> int {
    if e - fs < places {
        e - fs
    } else {
        places as int
    }
}

/// A non-negative decimal `[+]digits[.digits]`, with at least one digit,
/// in units of `10^-places`; further fraction digits are cut off. `None`
/// for any other text and for values above `u64::MAX`.
pub open spec fn parse_scaled(b: Seq<u8>, s: int, e: int, places: nat) -> Option<int> {
    let d = after_plus(b, s, e);
    let p = digit_run_end(b, d, e);
    let fs = fraction_start(b, p, e);
    let t = taken(fs, e, places);
    let value = digits_value(b, d, p) * pow10(places) + digits_value(b, fs, fs + t) * pow10(
        (places - t) as nat,
    );
    if (p == e || (b[p] == 0x2E && all_digits(b, fs, e))) && (p > d || e > fs) && value
        <= u64::MAX {
        Some(value)
    } else {
        None
    }
}

proof fn lemma_digit_run(b: Seq<u8>, s: int, e: int)
    requires
        s <= e,
    ensures
        s <= digit_run_end(b, s, e) <= e,
        all_digits(b, s, digit_run_end(b, s, e)),
        digit_run_end(b, s, e) < e ==> !is_digit(b[digit_run_end(b, s, e)]),
    decreases e - s,
{
    if s < e && is_digit(b[s]) {
        lemma_digit_run(b, s + 1, e);
    }
}

proof fn lemma_digits_below(b: Seq<u8>, s: int, e: int)
    requires
        s <= e,
        all_digits(b, s, e),
    ensures
        0 <= digits_value(b, s, e) < pow10((e - s) as nat),
    decreases e - s,
{
    if s < e {
        lemma_digits_below(b, s, e - 1);
        assert(pow10((e - s) as nat) == 10 * pow10((e - 1 - s) as nat));
    }
}

fn pow10_exec(n: u32) -> (r: u64)
    requires
        n <= 6,
    ensures
        r == pow10(n as nat),
        1 <= r <= 1000000,
{
    proof {
        reveal_with_fuel(pow10, 7);
    }
    if n == 0 {
        1
    } else if n == 1 {
        10
    } else if n == 2 {
        100
    } else if n == 3 {
        1000
    } else if n == 4 {
        10000
    } else if n == 5 {
        100000
    } else {
        1000000
    }
}

/// Parses a non-negative decimal in units of `10^-places`, as [`parse_scaled`] says.
pub fn parse_scaled_exec(b: &[u8], s: usize, e: usize, places: u32) -> (r: Option<u64>)
    requires
        s <= e <= b@.len(),
        places <= 6,
    ensures
        r matches Some(v) ==> parse_scaled(b@, s as int, e as int, places as nat) == Some(v as int),
        r is None ==> parse_scaled(b@, s as int, e as int, places as nat) is None,
{
    let d = if s < e && b[s] == 0x2B {
        s + 1
    } else {
        s
    };
    let mut p = d;
    while p < e && 0x30 <= b[p] && b[p] <= 0x39
        invariant
            d <= p <= e <= b@.len(),
            digit_run_end(b@, d as int, e as int) == digit_run_end(b@, p as int, e as int),
        decreases e - p,
    {
        p = p + 1;
    }
    proof {
        lemma_digit_run(b@, d as int, e as int);
        assert(digit_run_end(b@, p as int, e as int) == p);
    }
    let fs = if p < e {
        p + 1
    } else {
        e
    };
    if p < e && b[p] != 0x2E {
        return None;
    }
    let mut k = fs;
    while k < e
        invariant
            fs <= k <= e <= b@.len(),
            all_digits(b@, fs as int, k as int),
            digit_run_end(b@, d as int, e as int) == p,
            fs == fraction_start(b@, p as int, e as int),
            d == after_plus(b@, s as int, e as int),
        decreases e - k,
    {
        if b[k] < 0x30 || b[k] > 0x39 {
            assert(!all_digits(b@, fs as int, e as int));
            return None;
        }
        k = k + 1;
    }
    if p == d && e == fs {
        return None;
    }
    let scale = pow10_exec(places);
    let cap = u64::MAX / scale;
    let whole: u64 = if p == d {
        0
    } else {
        match parse_uint_exec(b, d, p, cap) {
            Some(v) => v,
            None => {
                proof {
                    lemma_digits_value_mono(b@, fs as int, fs + taken(fs as int, e as int, places as nat));
                    assert(digits_value(b@, d as int, p as int) > cap);
                    assert(digits_value(b@, d as int, p as int) * scale > u64::MAX) by (nonlinear_arith)
                        requires
                            digits_value(b@, d as int, p as int) > cap,
                            cap == u64::MAX / scale,
                            scale >= 1,
                    ;
                    let f = digits_value(b@, fs as int, fs + taken(fs as int, e as int, places as nat));
                    let q = pow10((places - taken(fs as int, e as int, places as nat)) as nat);
                    lemma_pow10_pos((places - taken(fs as int, e as int, places as nat)) as nat);
                    assert(f * q >= 0) by (nonlinear_arith)
                        requires
                            f >= 0,
                            q >= 1,
                    ;
                }
                return None;
            },
        }
    };
    let t: usize = if e - fs < places as usize {
        e - fs
    } else {
        places as usize
    };
    let frac: u64 = if t == 0 {
        0
    } else {
        match parse_uint_exec(b, fs, fs + t, 999999) {
            Some(v) => v,
            None => {
                proof {
                    lemma_digits_below(b@, fs as int, fs + t);
                    reveal_with_fuel(pow10, 7);
                    assert(pow10(t as nat) <= 1000000);
                }
                return None;
            },
        }
    };
    let rest = pow10_exec(places - t as u32);
    proof {
        lemma_digits_below(b@, fs as int, fs + t);
        lemma_pow10_split(t as nat, (places - t) as nat);
        assert(frac * rest < scale) by (nonlinear_arith)
            requires
                frac < pow10(t as nat),
                rest == pow10((places - t) as nat),
                scale == pow10(t as nat) * pow10((places - t) as nat),
                rest >= 1,
        ;
        assert(whole * scale <= u64::MAX) by (nonlinear_arith)
            requires
                whole <= cap,
                cap == u64::MAX / scale,
                scale >= 1,
        ;
    }
    let fpart = frac * rest;
    if whole * scale > u64::MAX - fpart {
        return None;
    }
    Some(whole * scale + fpart)
}

proof fn lemma_pow10_pos(n: nat)
    ensures
        pow10(n) >= 1,
    decreases n,
{
    if n > 0 {
        lemma_pow10_pos((n - 1) as nat);
    }
}

proof fn lemma_pow10_split(a: nat, b: nat)
    ensures
        pow10(a + b) == pow10(a) * pow10(b),
    decreases a,
{
    if a > 0 {
        lemma_pow10_split((a - 1) as nat, b);
        assert(pow10(a + b) == 10 * pow10((a - 1 + b) as nat));
        assert(10 * (pow10((a - 1) as nat) * pow10(b)) == (10 * pow10((a - 1) as nat)) * pow10(b)) by (nonlinear_arith);
    }
}


/// Relies on `String::push_str`: the text is appended.
#[verifier::external_body]
pub(crate) fn push_text(s: &mut String, t: &str)
    ensures
        final(s)@ == old(s)@ + t@,
{
    s.push_str(t);
}

proof fn lemma_digits_value_ext(b1: Seq<u8>, b2: Seq<u8>, s: int, e: int)
    requires
        forall|k: int| s <= k < e ==> b1[k] == b2[k],
    ensures
        digits_value(b1, s, e) == digits_value(b2, s, e),
    decreases e - s,
{
    if s < e {
        lemma_digits_value_ext(b1, b2, s, e - 1);
    }
}

pub open spec fn is_digit_char(c: char) -> bool {
    '0' <= c <= '9'
}

proof fn lemma_decimal_digits(n: nat)
    ensures
        decimal(n).len() >= 1,
        forall|i: int| 0 <= i < decimal(n).len() ==> is_digit_char(#[trigger] decimal(n)[i]),
    decreases n,
{
    if n >= 10 {
        lemma_decimal_digits(n / 10);
    }
}

/// The UTF-8 bytes of the decimal text of `n` are digits whose value is `n`.
pub proof fn lemma_decimal_bytes(n: nat)
    ensures
        encode_utf8(decimal(n)).len() == decimal(n).len() >= 1,
        all_digits(encode_utf8(decimal(n)), 0, decimal(n).len() as int),
        digits_value(encode_utf8(decimal(n)), 0, decimal(n).len() as int) == n,
    decreases n,
{
    let c = decimal(n);
    let b = encode_utf8(c);
    lemma_decimal_digits(n);
    assert(vstd::utf8::is_ascii_chars(c));
    vstd::utf8::is_ascii_chars_encode_utf8(c);
    let d = (n % 10) as int;
    let last = c.len() - 1;
    assert(c[last] == digit_char(d));
    assert(digit_char(d) as u8 == (48 + d) as u8);
    assert(b[last] == (48 + d) as u8);
    if n >= 10 {
        let p = decimal(n / 10);
        lemma_decimal_bytes(n / 10);
        lemma_decimal_digits(n / 10);
        assert(vstd::utf8::is_ascii_chars(p));
        vstd::utf8::is_ascii_chars_encode_utf8(p);
        assert forall|k: int| 0 <= k < p.len() implies b[k] == encode_utf8(p)[k] by {
            assert(c[k] == p[k]);
        }
        lemma_digits_value_ext(b, encode_utf8(p), 0, p.len() as int);
        assert(c.len() == p.len() + 1);
        assert(digits_value(b, 0, c.len() as int) == 10 * digits_value(b, 0, p.len() as int) + (b[last] - 0x30));
        assert(n == 10 * (n / 10) + d) by (nonlinear_arith)
            requires
                d == n % 10,
        ;
    } else {
        assert(digits_value(b, 0, 1) == 10 * digits_value(b, 0, 0) + (b[0] - 0x30));
    }
}

} // verus!
