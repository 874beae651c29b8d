//! Digit strings and the integer values they denote.
//!
//! Token texts are the only numeric representation the language has, so
//! everything the evaluator does with numbers is specified here: which
//! sequences of characters form an integer literal, which value such a
//! literal denotes, and how a computed value is rendered back into the
//! canonical literal text.

use vstd::prelude::*;

verus! {

// ---------------------------------------------------------------------------
// Digit characters
// ---------------------------------------------------------------------------
pub open spec fn is_nonzero_digit_char(c: char) -> bool {
    c == '1' || c == '2' || c == '3' || c == '4' || c == '5' || c == '6' || c == '7' || c == '8'
        || c == '9'
}

pub open spec fn is_digit_char(c: char) -> bool {
    c == '0' || is_nonzero_digit_char(c)
}

/// The value of one digit character; unconstrained input falls back to 9.
pub open spec fn digit_char_val(c: char) -> int {
    if c == '0' {
        0
    } else if c == '1' {
        1
    } else if c == '2' {
        2
    } else if c == '3' {
        3
    } else if c == '4' {
        4
    } else if c == '5' {
        5
    } else if c == '6' {
        6
    } else if c == '7' {
        7
    } else if c == '8' {
        8
    } else {
        9
    }
}

/// The digit character of one value in 0..=9; inputs outside fall back to '9'.
pub open spec fn digit_char_of(d: int) -> char {
    if d == 0 {
        '0'
    } else if d == 1 {
        '1'
    } else if d == 2 {
        '2'
    } else if d == 3 {
        '3'
    } else if d == 4 {
        '4'
    } else if d == 5 {
        '5'
    } else if d == 6 {
        '6'
    } else if d == 7 {
        '7'
    } else if d == 8 {
        '8'
    } else {
        '9'
    }
}

pub open spec fn all_digit_chars(s: Seq<char>) -> bool {
    forall|i: int| 0 <= i < s.len() ==> is_digit_char(#[trigger] s[i])
}

// ---------------------------------------------------------------------------
// Digit strings and their values
// ---------------------------------------------------------------------------
/// The number denoted by a digit string, most significant digit first.
pub open spec fn digits_val(s: Seq<char>) -> int
    decreases s.len(),
{
    if s.len() == 0 {
        0
    } else {
        digits_val(s.drop_last()) * 10 + digit_char_val(s.last())
    }
}

/// The decimal digit string of a value `n >= 0`, without leading zeros
/// (except for `"0"` itself).
pub open spec fn nat_digits(n: int) -> Seq<char>
    decreases n,
{
    if n < 10 {
        seq![digit_char_of(n)]
    } else {
        nat_digits(n / 10).push(digit_char_of(n % 10))
    }
}

/// The canonical token text of an integer value: a minus sign for negative
/// values, followed by the digits without leading zeros.
pub open spec fn int_literal_str(v: int) -> Seq<char> {
    if v < 0 {
        seq!['-'] + nat_digits(-v)
    } else {
        nat_digits(v)
    }
}

/// Integer-literal classification: solely digits without leading zeros
/// (`"0"` itself is the one single-zero literal), optionally prefixed
/// with a single `-` followed by a nonzero digit.
pub open spec fn is_int_literal(s: Seq<char>) -> bool {
    if s.len() == 0 {
        false
    } else if s[0] == '-' {
        s.len() >= 2 && is_nonzero_digit_char(s[1]) && all_digit_chars(s.skip(1))
    } else {
        all_digit_chars(s) && (is_nonzero_digit_char(s[0]) || s.len() == 1)
    }
}

/// The value denoted by an integer-literal text.
pub open spec fn int_literal_val(s: Seq<char>) -> int {
    if s.len() > 0 && s[0] == '-' {
        -digits_val(s.skip(1))
    } else {
        digits_val(s)
    }
}

/// The digits of a numeric literal after the optional sign.
pub open spec fn dec_body(s: Seq<char>) -> Seq<char> {
    if s.len() > 0 && s[0] == '-' {
        s.skip(1)
    } else {
        s
    }
}

/// `k` is the position of the one embedded decimal point of `b`: not first,
/// not last, and every other character is a digit.
pub open spec fn dec_dot_at(b: Seq<char>, k: int) -> bool {
    &&& 0 < k < b.len() - 1
    &&& b[k] == '.'
    &&& forall|i: int| 0 <= i < b.len() && i != k ==> is_digit_char(#[trigger] b[i])
}

/// Decimal-literal classification: the integer rule with one embedded `.`
/// that stands neither first nor last among the digits; the integer part
/// carries no leading zero unless it is the single digit `0`.
pub open spec fn is_dec_literal(s: Seq<char>) -> bool {
    let b = dec_body(s);
    b.len() >= 3 && (exists|k: int|
        dec_dot_at(b, k) && (is_nonzero_digit_char(b[0]) || (k == 1 && b[0] == '0')))
}

/// Whether the magnitude of the denoted value is representable in a `u64`,
/// the machine bound this evaluator computes within.
pub open spec fn int_text_fits(s: Seq<char>) -> bool {
    -(u64::MAX as int) <= int_literal_val(s) <= u64::MAX as int
}

// ---------------------------------------------------------------------------
// Decimal literals as scaled integers
// ---------------------------------------------------------------------------
pub open spec fn pow10(k: int) -> int
    decreases k,
{
    if k <= 0 {
        1
    } else {
        pow10(k - 1) * 10
    }
}

/// The position of the one decimal point of a well-dotted digit body.
pub open spec fn dec_dot_pos(b: Seq<char>) -> int {
    choose|k: int| dec_dot_at(b, k)
}

/// The mantissa digits: everything but the decimal point.
pub open spec fn dec_mantissa_digits(b: Seq<char>) -> Seq<char> {
    let k = dec_dot_pos(b);
    b.subrange(0, k) + b.subrange(k + 1, b.len() as int)
}

/// The number of fraction digits.
pub open spec fn dec_scale(b: Seq<char>) -> int {
    b.len() - dec_dot_pos(b) - 1
}

/// The mantissa value: the denoted value times ten to the scale.
pub open spec fn dec_mantissa_val(b: Seq<char>) -> int {
    digits_val(dec_mantissa_digits(b))
}

pub open spec fn dec_neg(s: Seq<char>) -> bool {
    s.len() > 0 && s[0] == '-'
}

/// The signed mantissa of a decimal-literal text.
pub open spec fn dec_signed_mantissa(s: Seq<char>) -> int {
    if dec_neg(s) {
        -dec_mantissa_val(dec_body(s))
    } else {
        dec_mantissa_val(dec_body(s))
    }
}

/// Whether a decimal literal is representable within the evaluator's
/// machine bounds: mantissa in a `u64`, at most nine fraction digits.
pub open spec fn dec_text_fits(s: Seq<char>) -> bool {
    dec_mantissa_val(dec_body(s)) <= u64::MAX && dec_scale(dec_body(s)) <= 9
}

/// A run of `n` zero digits.
pub open spec fn zero_run(n: int) -> Seq<char> {
    Seq::new(n as nat, |i: int| '0')
}

/// The digit text of a nonnegative mantissa `m` at scale `s`: integer
/// part, point, zero-padded fraction part.
pub open spec fn dec_digits_str(m: int, s: int) -> Seq<char> {
    let ip = m / pow10(s);
    let fp = m % pow10(s);
    nat_digits(ip) + seq!['.'] + zero_run(s - nat_digits(fp).len()) + nat_digits(fp)
}

/// The canonical token text of the signed mantissa `v` at scale `s`.
pub open spec fn dec_literal_str(v: int, s: int) -> Seq<char> {
    if v < 0 {
        seq!['-'] + dec_digits_str(-v, s)
    } else {
        dec_digits_str(v, s)
    }
}

// ---------------------------------------------------------------------------
// Lemmas about digit strings
// ---------------------------------------------------------------------------
pub proof fn lemma_pow10_pos(k: int)
    ensures
        pow10(k) >= 1,
    decreases k,
{
    if k > 0 {
        lemma_pow10_pos(k - 1);
    }
}

pub proof fn lemma_pow10_mono(k1: int, k2: int)
    requires
        k1 <= k2,
    ensures
        pow10(k1) <= pow10(k2),
    decreases k2 - k1,
{
    if k1 < k2 {
        lemma_pow10_mono(k1, k2 - 1);
        lemma_pow10_pos(k2 - 1);
    }
}

/// The powers of ten the evaluator works with, spelled out.
pub proof fn lemma_pow10_values()
    ensures
        pow10(0) == 1,
        pow10(8) == 0x5f5e100,
        pow10(9) == 0x3b9aca00,
        pow10(17) == 100000000000000000,
        pow10(18) == 1000000000000000000,
{
    assert(pow10(0) == 1);
    assert(pow10(1) == 10);
    assert(pow10(2) == 100);
    assert(pow10(3) == 1000);
    assert(pow10(4) == 10000);
    assert(pow10(5) == 100000);
    assert(pow10(6) == 1000000);
    assert(pow10(7) == 10000000);
    assert(pow10(8) == 100000000);
    assert(pow10(9) == 1000000000);
    assert(pow10(10) == 10000000000);
    assert(pow10(11) == 100000000000);
    assert(pow10(12) == 1000000000000);
    assert(pow10(13) == 10000000000000);
    assert(pow10(14) == 100000000000000);
    assert(pow10(15) == 1000000000000000);
    assert(pow10(16) == 10000000000000000);
    assert(pow10(17) == 100000000000000000);
    assert(pow10(18) == 1000000000000000000);
}

/// The decimal point of a well-formed body is where it is found.
pub proof fn lemma_dec_dot_unique(b: Seq<char>, k: int)
    requires
        dec_dot_at(b, k),
    ensures
        dec_dot_pos(b) == k,
{
    let k2 = dec_dot_pos(b);
    assert(dec_dot_at(b, k2));
    if k2 != k {
        assert(is_digit_char(b[k2]));
    }
}
pub proof fn lemma_digits_val_bounds(s: Seq<char>)
    ensures
        digits_val(s) >= 0,
    decreases s.len(),
{
    if s.len() > 0 {
        lemma_digits_val_bounds(s.drop_last());
    }
}

/// `nat_digits(n)` is a nonempty digit string denoting `n`, with a nonzero
/// leading digit whenever `n > 0`.
pub proof fn lemma_nat_digits(n: int)
    requires
        n >= 0,
    ensures
        nat_digits(n).len() >= 1,
        all_digit_chars(nat_digits(n)),
        digits_val(nat_digits(n)) == n,
        n > 0 ==> is_nonzero_digit_char(nat_digits(n)[0]),
    decreases n,
{
    if n < 10 {
        let s = seq![digit_char_of(n)];
        assert(s.drop_last() =~= Seq::<char>::empty());
        assert(digits_val(s) == digits_val(s.drop_last()) * 10 + digit_char_val(s.last()));
        assert(digit_char_val(digit_char_of(n)) == n);
    } else {
        lemma_nat_digits(n / 10);
        let p = nat_digits(n / 10);
        let w = p.push(digit_char_of(n % 10));
        assert(w.drop_last() =~= p);
        assert(w.last() == digit_char_of(n % 10));
        assert(digits_val(w) == (n / 10) * 10 + n % 10);
        assert((n / 10) * 10 + n % 10 == n) by (nonlinear_arith);
        assert(forall|i: int| 0 <= i < w.len() ==> is_digit_char(#[trigger] w[i]));
        assert(w[0] == p[0]);
    }
}

/// A digit-string prefix never denotes more than the whole string.
pub proof fn lemma_digits_val_prefix_le(s: Seq<char>, i: int)
    requires
        0 <= i <= s.len(),
    ensures
        digits_val(s.subrange(0, i)) <= digits_val(s),
    decreases s.len(),
{
    if i == s.len() {
        assert(s.subrange(0, i) =~= s);
    } else {
        let t = s.drop_last();
        assert(s.subrange(0, i) =~= t.subrange(0, i));
        lemma_digits_val_prefix_le(t, i);
        lemma_digits_val_bounds(t);
    }
}

/// Integer-literal texts denote their value back: parsing what
/// `int_literal_str` produced recovers the value, and the text is always
/// a valid integer literal.
pub proof fn lemma_int_literal_str(v: int)
    ensures
        int_literal_val(int_literal_str(v)) == v,
        is_int_literal(int_literal_str(v)),
{
    if v < 0 {
        lemma_nat_digits(-v);
        let d = nat_digits(-v);
        let s = seq!['-'] + d;
        assert(s[0] == '-');
        assert(s.skip(1) =~= d);
        assert(s.len() >= 2);
        assert(s[1] == d[0]);
        assert(int_literal_val(s) == -digits_val(d));
    } else {
        lemma_nat_digits(v);
        let s = nat_digits(v);
        assert(is_nonzero_digit_char(s[0]) ==> s[0] != '-');
        if v == 0 {
            assert(s =~= seq!['0']);
        }
        assert(is_int_literal(s));
        assert(s.len() > 0 && s[0] == '-' ==> false);
    }
}

// ---------------------------------------------------------------------------
// Executable classifiers
// ---------------------------------------------------------------------------
/// Whether `ch` is a digit other than `0`.
pub fn is_non_zero_number(ch: char) -> (b: bool)
    ensures
        b == is_nonzero_digit_char(ch),
{
    match ch {
        '1' | '2' | '3' | '4' | '5' | '6' | '7' | '8' | '9' => true,
        _ => false,
    }
}

/// Whether `ch` is a digit.
pub fn is_number(ch: char) -> (b: bool)
    ensures
        b == is_digit_char(ch),
{
    ch == '0' || is_non_zero_number(ch)
}

/// Whether a token text is an integer literal: solely digits without
/// leading zeros, optionally prefixed with a single `-`.
pub fn is_part_int_numeric(part: &str) -> (b: bool)
    ensures
        b == is_int_literal(part@),
{
    let n = part.unicode_len();
    if n == 0 {
        return false;
    }
    let first = part.get_char(0);
    let start: usize = if first == '-' {
        if n < 2 || !is_non_zero_number(part.get_char(1)) {
            return false;
        }
        1
    } else {
        if !is_number(first) {
            return false;
        }
        if !is_non_zero_number(first) && n > 1 {
            return false;
        }
        0
    };
    let mut i: usize = start;
    while i < n
        invariant
            n == part@.len(),
            start <= i <= n,
            start == 0 || start == 1,
            start == 1 ==> part@[0] == '-' && n >= 2 && is_nonzero_digit_char(part@[1]),
            start == 0 ==> part@[0] != '-' && is_digit_char(part@[0]) && (is_nonzero_digit_char(
                part@[0],
            ) || n == 1),
            forall|j: int| start <= j < i ==> is_digit_char(#[trigger] part@[j]),
        decreases n - i,
    {
        if !is_number(part.get_char(i)) {
            proof {
                if part@[0] == '-' {
                    assert(!is_digit_char(part@.skip(1)[i - 1]));
                } else {
                    assert(!is_digit_char(part@[i as int]));
                }
            }
            return false;
        }
        i += 1;
    }
    proof {
        if part@[0] == '-' {
            assert(forall|j: int|
                0 <= j < part@.skip(1).len() ==> is_digit_char(#[trigger] part@.skip(1)[j]));
        }
    }
    true
}

/// Whether a token text is a decimal literal.
pub fn is_part_dec_numeric(part: &str) -> (b: bool)
    ensures
        b == is_dec_literal(part@),
{
    let n = part.unicode_len();
    if n == 0 {
        return false;
    }
    let neg = part.get_char(0) == '-';
    let start: usize = if neg {
        1
    } else {
        0
    };
    let ghost body = dec_body(part@);
    proof {
        if neg {
            assert(body =~= part@.skip(1));
        }
    }
    if n - start < 3 {
        return false;
    }
    let c0 = part.get_char(start);
    if !is_number(c0) {
        return false;
    }
    let zero_first = !is_non_zero_number(c0);
    let mut dot: usize = 0;
    let mut seen_dot = false;
    let mut i: usize = start;
    while i < n
        invariant
            n == part@.len(),
            start == (if n > 0 && part@[0] == '-' {
                1int
            } else {
                0int
            }),
            body == dec_body(part@),
            body.len() == n - start,
            forall|j: int| 0 <= j < body.len() ==> body[j] == part@[j + start],
            n - start >= 3,
            is_digit_char(part@[start as int]),
            zero_first == !is_nonzero_digit_char(part@[start as int]),
            start <= i <= n,
            seen_dot ==> start < dot < n - 1 && dot < i && part@[dot as int] == '.',
            forall|j: int|
                start <= j < i && (!seen_dot || j != dot) ==> is_digit_char(#[trigger] part@[j]),
        decreases n - i,
    {
        let c = part.get_char(i);
        if c == '.' {
            if seen_dot {
                proof {
                    assert forall|k: int| !dec_dot_at(body, k) by {
                        if dec_dot_at(body, k) {
                            if k != dot - start {
                                assert(is_digit_char(body[dot - start]));
                            } else {
                                assert(is_digit_char(body[i - start]));
                            }
                        }
                    }
                }
                return false;
            }
            if i == n - 1 {
                proof {
                    assert forall|k: int| !dec_dot_at(body, k) by {
                        if dec_dot_at(body, k) {
                            assert(is_digit_char(body[i - start]));
                        }
                    }
                }
                return false;
            }
            dot = i;
            seen_dot = true;
        } else {
            if !is_number(c) {
                proof {
                    assert forall|k: int| !dec_dot_at(body, k) by {
                        if dec_dot_at(body, k) {
                            if k == i - start {
                                assert(body[k] == '.');
                            } else {
                                assert(is_digit_char(body[i - start]));
                            }
                        }
                    }
                }
                return false;
            }
        }
        i += 1;
    }
    if seen_dot {
        proof {
            assert(dec_dot_at(body, dot - start));
        }
        if !zero_first {
            return true;
        }
        if dot == start + 1 {
            proof {
                assert(dec_dot_at(body, 1) && body[0] == '0');
            }
            return true;
        }
        proof {
            // A multi-digit integer part may not begin with a zero: the
            // one decimal point sits elsewhere.
            assert forall|k: int|
                !(dec_dot_at(body, k) && (is_nonzero_digit_char(body[0]) || (k == 1 && body[0]
                    == '0'))) by {
                if dec_dot_at(body, k) && k == 1 {
                    assert(body[1] == '.');
                    assert(part@[start + 1] == '.');
                    assert(is_digit_char(part@[start + 1]));
                }
            }
        }
        false
    } else {
        proof {
            assert forall|k: int| !dec_dot_at(body, k) by {
                if dec_dot_at(body, k) {
                    assert(is_digit_char(body[k]));
                }
            }
        }
        false
    }
}

// ---------------------------------------------------------------------------
// Executable digit helpers
// ---------------------------------------------------------------------------
fn digit_val_exec(c: char) -> (d: u64)
    requires
        is_digit_char(c),
    ensures
        d == digit_char_val(c),
{
    match c {
        '0' => 0,
        '1' => 1,
        '2' => 2,
        '3' => 3,
        '4' => 4,
        '5' => 5,
        '6' => 6,
        '7' => 7,
        '8' => 8,
        _ => 9,
    }
}

fn digit_char_exec(d: u64) -> (c: char)
    requires
        d < 10,
    ensures
        c == digit_char_of(d as int),
{
    match d {
        0 => '0',
        1 => '1',
        2 => '2',
        3 => '3',
        4 => '4',
        5 => '5',
        6 => '6',
        7 => '7',
        8 => '8',
        _ => '9',
    }
}

/// The digit characters of `n`, most significant first.
fn fmt_u128_digits(n: u128) -> (v: Vec<char>)
    ensures
        v@ == nat_digits(n as int),
    decreases n,
{
    if n < 10 {
        let mut v: Vec<char> = Vec::new();
        v.push(digit_char_exec(n as u64));
        proof {
            assert(v@ =~= nat_digits(n as int));
        }
        v
    } else {
        let mut v = fmt_u128_digits(n / 10);
        v.push(digit_char_exec((n % 10) as u64));
        v
    }
}

// ---------------------------------------------------------------------------
// Parsing and formatting
// ---------------------------------------------------------------------------
/// The signed value described by a sign flag and a magnitude.
pub open spec fn signed_val(neg: bool, mag: int) -> int {
    if neg {
        -mag
    } else {
        mag
    }
}

/// Parse an integer-literal text into sign and magnitude.  Returns `None`
/// exactly when the text is not an integer literal or its magnitude does
/// not fit in a `u64`.
pub fn parse_int_text(s: &str) -> (r: Option<(bool, u64)>)
    ensures
        (r is Some) == (is_int_literal(s@) && int_text_fits(s@)),
        r matches Some(p) ==> int_literal_val(s@) == signed_val(p.0, p.1 as int),
{
    if !is_part_int_numeric(s) {
        return None;
    }
    let n = s.unicode_len();
    let first = s.get_char(0);
    let neg = first == '-';
    let start: usize = if neg {
        1
    } else {
        0
    };
    let ghost body = s@.skip(start as int);
    proof {
        if neg {
            assert(body =~= s@.skip(1));
        } else {
            assert(body =~= s@);
        }
        lemma_digits_val_bounds(body);
    }
    let mut mag: u64 = 0;
    let mut i: usize = start;
    while i < n
        invariant
            n == s@.len(),
            is_int_literal(s@),
            neg == (s@[0] == '-'),
            start == (if neg {
                1int
            } else {
                0int
            }),
            start <= i <= n,
            body == s@.skip(start as int),
            mag == digits_val(s@.subrange(start as int, i as int)),
        decreases n - i,
    {
        let c = s.get_char(i);
        proof {
            if neg {
                assert(is_digit_char(s@.skip(1)[i - 1]));
            }
        }
        let d = digit_val_exec(c);
        let ghost pre = s@.subrange(start as int, i as int);
        let ghost ext = s@.subrange(start as int, i + 1);
        proof {
            assert(ext.drop_last() =~= pre);
            assert(ext.last() == s@[i as int]);
            assert(digits_val(ext) == mag * 10 + digit_char_val(c));
        }
        let step = match mag.checked_mul(10) {
            Some(m) => m.checked_add(d),
            None => None,
        };
        match step {
            Some(m) => {
                mag = m;
            },
            None => {
                proof {
                    assert(digits_val(ext) > u64::MAX);
                    assert(ext =~= body.subrange(0, i + 1 - start));
                    lemma_digits_val_prefix_le(body, i + 1 - start);
                    assert(digits_val(body) > u64::MAX);
                    if neg {
                        assert(int_literal_val(s@) == -digits_val(body));
                    } else {
                        assert(body =~= s@);
                        assert(int_literal_val(s@) == digits_val(body));
                    }
                }
                return None;
            },
        }
        i += 1;
    }
    proof {
        assert(s@.subrange(start as int, n as int) =~= body);
        if neg {
            assert(int_literal_val(s@) == -digits_val(body));
        } else {
            assert(int_literal_val(s@) == digits_val(body));
        }
    }
    Some((neg, mag))
}

/// Signed addition over sign-and-magnitude pairs; a `u128` magnitude
/// cannot overflow on `u64` inputs.
pub fn sign_add(aneg: bool, amag: u64, bneg: bool, bmag: u64) -> (r: (bool, u128))
    ensures
        signed_val(r.0, r.1 as int) == signed_val(aneg, amag as int) + signed_val(
            bneg,
            bmag as int,
        ),
{
    if aneg == bneg {
        (aneg, amag as u128 + bmag as u128)
    } else if amag >= bmag {
        (aneg, (amag - bmag) as u128)
    } else {
        (bneg, (bmag - amag) as u128)
    }
}

/// Signed subtraction over sign-and-magnitude pairs.
pub fn sign_sub(aneg: bool, amag: u64, bneg: bool, bmag: u64) -> (r: (bool, u128))
    ensures
        signed_val(r.0, r.1 as int) == signed_val(aneg, amag as int) - signed_val(
            bneg,
            bmag as int,
        ),
{
    sign_add(aneg, amag, !bneg, bmag)
}

/// Signed multiplication over sign-and-magnitude pairs.
pub fn sign_mul(aneg: bool, amag: u64, bneg: bool, bmag: u64) -> (r: (bool, u128))
    ensures
        signed_val(r.0, r.1 as int) == signed_val(aneg, amag as int) * signed_val(
            bneg,
            bmag as int,
        ),
{
    proof {
        assert(amag as int * bmag as int <= (u64::MAX as int) * (u64::MAX as int))
            by (nonlinear_arith)
            requires
                0 <= amag as int <= u64::MAX as int,
                0 <= bmag as int <= u64::MAX as int,
        ;
    }
    let m = amag as u128 * bmag as u128;
    let neg = aneg != bneg;
    proof {
        assert(signed_val(neg, m as int) == signed_val(aneg, amag as int) * signed_val(
            bneg,
            bmag as int,
        )) by (nonlinear_arith)
            requires
                m as int == amag as int * bmag as int,
                neg == (aneg != bneg),
        ;
    }
    (neg, m)
}

/// Division truncated toward zero, the native integer division of the
/// language: the magnitude quotient with the algebraic sign.
pub open spec fn trunc_div(a: int, b: int) -> int {
    let mag = (if a < 0 {
        -a
    } else {
        a
    }) / (if b < 0 {
        -b
    } else {
        b
    });
    if (a < 0) == (b < 0) {
        mag
    } else {
        -mag
    }
}

/// Signed truncating division over sign-and-magnitude pairs.
pub fn sign_div(aneg: bool, amag: u64, bneg: bool, bmag: u64) -> (r: (bool, u128))
    requires
        bmag > 0,
    ensures
        signed_val(r.0, r.1 as int) == trunc_div(
            signed_val(aneg, amag as int),
            signed_val(bneg, bmag as int),
        ),
{
    let q = amag / bmag;
    (aneg != bneg, q as u128)
}

/// A mantissa below its scale's power of ten has at most `scale` digits.
proof fn lemma_nat_digits_len(n: int, k: int)
    requires
        0 <= n,
        1 <= k,
        n < pow10(k),
    ensures
        nat_digits(n).len() <= k,
    decreases k,
{
    if n < 10 {
    } else {
        vstd::arithmetic::div_mod::lemma_multiply_divide_lt(n, 10, pow10(k - 1));
        lemma_nat_digits_len(n / 10, k - 1);
    }
}

/// Ten to the `k`.
pub fn pow10_u128(k: u32) -> (r: u128)
    requires
        k <= 18,
    ensures
        r == pow10(k as int),
    decreases k,
{
    proof {
        lemma_pow10_values();
        lemma_pow10_mono(k as int, 18);
        lemma_pow10_mono(0, k as int);
    }
    if k == 0 {
        1
    } else {
        let p = pow10_u128(k - 1);
        proof {
            lemma_pow10_mono(k as int - 1, 17);
        }
        p * 10
    }
}

/// Parse a decimal-literal text into sign, mantissa and scale.  Returns
/// `None` exactly when the text is not a decimal literal, its mantissa
/// does not fit in a `u64`, or it has more than nine fraction digits.
pub fn parse_dec_text(s: &str) -> (r: Option<(bool, u64, u32)>)
    ensures
        (r is Some) == (is_dec_literal(s@) && dec_text_fits(s@)),
        r matches Some(p) ==> p.0 == dec_neg(s@) && p.1 == dec_mantissa_val(dec_body(s@)) && p.2
            == dec_scale(dec_body(s@)) && 1 <= p.2 <= 9,
{
    if !is_part_dec_numeric(s) {
        return None;
    }
    let n = s.unicode_len();
    let neg = s.get_char(0) == '-';
    let start: usize = if neg {
        1
    } else {
        0
    };
    let ghost body = dec_body(s@);
    proof {
        if neg {
            assert(body =~= s@.skip(1));
        } else {
            assert(body =~= s@);
        }
    }
    // Locate the decimal point.
    let mut dot: usize = start;
    while dot < n && s.get_char(dot) != '.'
        invariant
            n == s@.len(),
            start <= dot <= n,
            forall|j: int| start <= j < dot ==> s@[j] != '.',
        decreases n - dot,
    {
        dot = dot + 1;
    }
    let ghost k = dec_dot_pos(body);
    proof {
        assert(dec_dot_at(body, k));
        assert(body[k] == s@[k + start]);
        assert(dot - start == k) by {
            if dot - start < k {
                assert(s@[dot as int] == '.');
                assert(is_digit_char(body[dot - start]));
            }
            if dot - start > k {
                assert(s@[k + start] != '.');
            }
        }
    }
    let scale = n - 1 - dot;
    if scale > 9 {
        return None;
    }
    let ghost md = dec_mantissa_digits(body);
    proof {
        lemma_digits_val_bounds(md);
        assert(md.len() == body.len() - 1);
        assert(forall|j: int| 0 <= j < k ==> md[j] == s@[j + start]);
        assert(forall|j: int| k <= j < md.len() ==> md[j] == s@[j + start + 1]);
    }
    // Accumulate the mantissa digits, skipping the point.
    let mut mag: u64 = 0;
    let mut i: usize = start;
    while i < n
        invariant
            n == s@.len(),
            is_dec_literal(s@),
            body == dec_body(s@),
            md == dec_mantissa_digits(body),
            md.len() == body.len() - 1,
            body.len() == n - start,
            neg == dec_neg(s@),
            start == (if neg {
                1int
            } else {
                0int
            }),
            k == dec_dot_pos(body),
            dec_dot_at(body, k),
            dot == k + start,
            start <= dot < n,
            forall|j: int| 0 <= j < k ==> md[j] == s@[j + start],
            forall|j: int| k <= j < md.len() ==> md[j] == s@[j + start + 1],
            start <= i <= n,
            i != dot ==> mag == digits_val(
                md.take(
                    if i <= dot {
                        i - start
                    } else {
                        i - start - 1
                    },
                ),
            ),
            i == dot ==> mag == digits_val(md.take(i - start)),
        decreases n - i,
    {
        let c = s.get_char(i);
        if c != '.' {
            let ghost p = (if i < dot {
            i - start
        } else {
            i - start - 1
        });
            proof {
                if i < dot {
                    assert(i - start < k);
                    assert(md[p] == s@[i as int]);
                } else {
                    assert(i > dot);
                    assert(k <= i - start - 1 < md.len());
                    assert(md[p] == s@[i as int]);
                }
                assert(is_digit_char(md[p]));
                assert(md.take(p + 1).drop_last() =~= md.take(p));
                assert(md.take(p + 1).last() == md[p]);
                assert(digits_val(md.take(p + 1)) == mag * 10 + digit_char_val(c));
            }
            let d = digit_val_exec(c);
            let step = match mag.checked_mul(10) {
                Some(m) => m.checked_add(d),
                None => None,
            };
            match step {
                Some(m) => {
                    mag = m;
                },
                None => {
                    proof {
                        assert(digits_val(md.take(p + 1)) > u64::MAX);
                        lemma_digits_val_prefix_le(md, p + 1);
                        assert(md.take(p + 1) =~= md.subrange(0, p + 1));
                        assert(dec_mantissa_val(body) > u64::MAX);
                    }
                    return None;
                },
            }
        }
        i = i + 1;
    }
    proof {
        assert(md.take(n - start - 1) =~= md);
        assert(dec_scale(body) == n - 1 - dot);
    }
    Some((neg, mag, scale as u32))
}

/// The canonical decimal token text of the signed value with mantissa
/// magnitude `mant` at `scale` fraction digits.
pub fn dec_token_text(neg: bool, mant: u128, scale: u32) -> (s: String)
    requires
        1 <= scale <= 18,
    ensures
        s@ == dec_literal_str(
            if neg {
                -(mant as int)
            } else {
                mant as int
            },
            scale as int,
        ),
{
    let p = pow10_u128(scale);
    proof {
        lemma_pow10_pos(scale as int);
    }
    let ip = mant / p;
    let fp = mant % p;
    let mut v = fmt_u128_digits(ip);
    v.push('.');
    let ghost head = nat_digits(ip as int) + seq!['.'];
    proof {
        assert(v@ =~= head);
        lemma_nat_digits_len(fp as int, scale as int);
    }
    let fd = fmt_u128_digits(fp);
    let zlen: usize = scale as usize - fd.len();
    let mut z: usize = 0;
    while z < zlen
        invariant
            z <= zlen,
            v@ =~= head + zero_run(z as int),
        decreases zlen - z,
    {
        v.push('0');
        proof {
            assert(v@ =~= head + zero_run(z + 1));
        }
        z = z + 1;
    }
    let mut fdm = fd;
    v.append(&mut fdm);
    proof {
        assert(v@ =~= nat_digits(ip as int) + seq!['.'] + zero_run(zlen as int) + nat_digits(
            fp as int,
        ));
        assert(v@ =~= dec_digits_str(mant as int, scale as int));
    }
    let txt = crate::text::string_from_chars(&v);
    if neg && mant > 0 {
        let mut out = "-".to_owned();
        out.append(txt.as_str());
        proof {
            reveal_strlit("-");
            assert(out@ =~= seq!['-'] + dec_digits_str(mant as int, scale as int));
        }
        out
    } else {
        txt
    }
}

/// Signed addition over sign-and-magnitude `u128` pairs.
pub fn sign_add_u128(aneg: bool, amag: u128, bneg: bool, bmag: u128) -> (r: (bool, u128))
    requires
        amag + bmag <= u128::MAX,
    ensures
        signed_val(r.0, r.1 as int) == signed_val(aneg, amag as int) + signed_val(
            bneg,
            bmag as int,
        ),
{
    if aneg == bneg {
        (aneg, amag + bmag)
    } else if amag >= bmag {
        (aneg, amag - bmag)
    } else {
        (bneg, bmag - amag)
    }
}

/// Signed subtraction over sign-and-magnitude `u128` pairs.
pub fn sign_sub_u128(aneg: bool, amag: u128, bneg: bool, bmag: u128) -> (r: (bool, u128))
    requires
        amag + bmag <= u128::MAX,
    ensures
        signed_val(r.0, r.1 as int) == signed_val(aneg, amag as int) - signed_val(
            bneg,
            bmag as int,
        ),
{
    sign_add_u128(aneg, amag, !bneg, bmag)
}

/// Signed truncating division over sign-and-magnitude `u128` pairs.
pub fn sign_div_u128(aneg: bool, amag: u128, bneg: bool, bmag: u128) -> (r: (bool, u128))
    requires
        bmag > 0,
    ensures
        signed_val(r.0, r.1 as int) == trunc_div(
            signed_val(aneg, amag as int),
            signed_val(bneg, bmag as int),
        ),
{
    let q = amag / bmag;
    (aneg != bneg, q)
}

/// The canonical literal text of the signed value with magnitude `mag`,
/// negative if `neg` (a zero magnitude always renders as `"0"`).
pub fn int_token_text(neg: bool, mag: u128) -> (s: String)
    ensures
        s@ == int_literal_str(
            if neg {
                -(mag as int)
            } else {
                mag as int
            },
        ),
{
    let digits = fmt_u128_digits(mag);
    if neg && mag > 0 {
        let mut s = "-".to_owned();
        let tail = crate::text::string_from_chars(&digits);
        s.append(tail.as_str());
        proof {
            reveal_strlit("-");
            assert(s@ =~= seq!['-'] + nat_digits(mag as int));
        }
        s
    } else {
        crate::text::string_from_chars(&digits)
    }
}

} // verus!
