//! Decimal text: parsing digit/dot tokens and amounts into fixed-point
//! values, and rendering fixed-point values back as decimal strings.

use crate::fixed::{fx_sat, Fx, FX_MAX, FX_SCALE};
use vstd::math::abs;
use vstd::prelude::*;
use vstd::string::*;

verus! {

/// `c` is one of the ten decimal digits.
pub open spec fn is_digit_char(c: char) -> bool {
    48 <= c as u32 <= 57
}

/// Numeric value of a digit character.
pub open spec fn digit_val(c: char) -> int {
    c as u32 - 48
}

/// A character a calculator token may hold: a digit or the decimal point.
pub open spec fn token_char(c: char) -> bool {
    is_digit_char(c) || c == '.'
}

/// `i` is the position of the first decimal point of `s`.
pub open spec fn dot_at(s: Seq<char>, i: int) -> bool {
    0 <= i < s.len() && s[i] == '.' && (forall|j: int| 0 <= j < i ==> s[j] != '.')
}

/// Position of the first decimal point of `s`, or `s.len()` if there is none.
pub open spec fn dot_pos(s: Seq<char>) -> int {
    if exists|i: int| dot_at(s, i) {
        choose|i: int| dot_at(s, i)
    } else {
        s.len() as int
    }
}

/// An in-progress numeric token: digits with at most one decimal point.
pub open spec fn valid_token(s: Seq<char>) -> bool {
    &&& forall|i: int| 0 <= i < s.len() ==> token_char(#[trigger] s[i])
    &&& forall|j: int| dot_pos(s) < j < s.len() ==> s[j] != '.'
}

/// `s` holds at least one digit.
pub open spec fn has_digit(s: Seq<char>) -> bool {
    exists|i: int| 0 <= i < s.len() && is_digit_char(#[trigger] s[i])
}

/// Value of a sequence of digit characters read as a decimal integer.
pub open spec fn ipval(s: Seq<char>) -> int
    decreases s.len(),
{
    if s.len() == 0 {
        0
    } else {
        ipval(s.drop_last()) * 10 + digit_val(s.last())
    }
}

/// Ten to the power `k`, for the small exponents fraction digits use.
pub open spec fn pow10_5(k: int) -> int {
    if k <= 0 {
        1
    } else if k == 1 {
        10
    } else if k == 2 {
        100
    } else if k == 3 {
        1000
    } else if k == 4 {
        10000
    } else if k == 5 {
        100000
    } else {
        1000000
    }
}

/// Micro-units contributed by the fraction digits `s[i..]`, keeping only
/// the first six digits after the point (the fixed-point resolution).
pub open spec fn fracval_from(s: Seq<char>, i: int) -> int
    decreases 6 - i,
{
    if i < 0 || i >= 6 || i >= s.len() {
        0
    } else {
        digit_val(s[i]) * pow10_5(5 - i) + fracval_from(s, i + 1)
    }
}

/// The digits before the decimal point.
pub open spec fn int_chars(s: Seq<char>) -> Seq<char> {
    s.take(dot_pos(s))
}

/// The digits after the decimal point, if any.
pub open spec fn frac_chars(s: Seq<char>) -> Seq<char> {
    if dot_pos(s) < s.len() {
        s.skip(dot_pos(s) + 1)
    } else {
        Seq::<char>::empty()
    }
}

/// Value of a digit/dot token in micro-units, saturated into range.
/// The empty token and a lone point are worth zero.
pub open spec fn token_val(s: Seq<char>) -> int {
    fx_sat(ipval(int_chars(s)) * (FX_SCALE as int) + fracval_from(frac_chars(s), 0))
}

/// An amount as a user types it: an optional minus sign, then digits with
/// at most one decimal point and at least one digit.
pub open spec fn valid_amount(s: Seq<char>) -> bool {
    if s.len() > 0 && s[0] == '-' {
        valid_token(s.skip(1)) && has_digit(s.skip(1))
    } else {
        valid_token(s) && has_digit(s)
    }
}

/// Value of a valid amount in micro-units, saturated into range.
pub open spec fn amount_val(s: Seq<char>) -> int {
    if s.len() > 0 && s[0] == '-' {
        -token_val(s.skip(1))
    } else {
        token_val(s)
    }
}

/// If some position of `s` holds a point, a first such position exists.
proof fn lemma_first_dot_exists(s: Seq<char>, j: int)
    requires
        0 <= j < s.len(),
        s[j] == '.',
    ensures
        exists|i: int| dot_at(s, i),
    decreases j,
{
    if forall|k: int| 0 <= k < j ==> s[k] != '.' {
        assert(dot_at(s, j));
    } else {
        let k = choose|k: int| 0 <= k < j && s[k] == '.';
        lemma_first_dot_exists(s, k);
    }
}

/// No position before the first decimal point holds a point.
proof fn lemma_no_dot_before(s: Seq<char>, j: int)
    requires
        0 <= j < dot_pos(s),
        j < s.len(),
    ensures
        s[j] != '.',
{
    if s[j] == '.' {
        lemma_first_dot_exists(s, j);
        let i = choose|i: int| dot_at(s, i);
        assert(dot_pos(s) == i);
        assert(s[j] != '.');
    }
}

/// The first decimal point of a sequence is at one position only.
proof fn lemma_dot_at_unique(s: Seq<char>, i1: int, i2: int)
    requires
        dot_at(s, i1),
        dot_at(s, i2),
    ensures
        i1 == i2,
{
    if i1 < i2 {
        assert(s[i1] != '.');
    } else if i2 < i1 {
        assert(s[i2] != '.');
    }
}

/// Index of the first `'.'` of `s`, or its length if there is none.
fn find_dot(s: &str) -> (r: usize)
    ensures
        r as int == dot_pos(s@),
        r <= s@.len(),
{
    let n = s.unicode_len();
    let mut i: usize = 0;
    while i < n
        invariant
            0 <= i <= n,
            n == s@.len(),
            forall|j: int| 0 <= j < i ==> s@[j] != '.',
        decreases n - i,
    {
        let c = s.get_char(i);
        if c == '.' {
            proof {
                assert(dot_at(s@, i as int));
                lemma_dot_at_unique(s@, i as int, dot_pos(s@));
            }
            return i;
        }
        i += 1;
    }
    proof {
        if exists|k: int| dot_at(s@, k) {
            let k = choose|k: int| dot_at(s@, k);
            assert(s@[k] != '.');
        }
    }
    n
}

/// Whether `s` is digits with at most one decimal point.
fn check_token(s: &str) -> (r: bool)
    ensures
        r == valid_token(s@),
{
    let n = s.unicode_len();
    let mut i: usize = 0;
    while i < n
        invariant
            0 <= i <= n,
            n == s@.len(),
            forall|j: int| 0 <= j < i ==> token_char(#[trigger] s@[j]),
        decreases n - i,
    {
        let c = s.get_char(i);
        let u: u32 = c as u32;
        if !(c == '.' || (48 <= u && u <= 57)) {
            return false;
        }
        i += 1;
    }
    let dp = find_dot(s);
    if dp < n {
        let mut j: usize = dp + 1;
        while j < n
            invariant
                dp < j <= n,
                n == s@.len(),
                dp as int == dot_pos(s@),
                forall|k: int| dp < k < j ==> s@[k] != '.',
            decreases n - j,
        {
            let c = s.get_char(j);
            if c == '.' {
                return false;
            }
            j += 1;
        }
    }
    true
}

/// Whether `s` holds at least one digit.
fn check_has_digit(s: &str) -> (r: bool)
    ensures
        r == has_digit(s@),
{
    let n = s.unicode_len();
    let mut i: usize = 0;
    while i < n
        invariant
            0 <= i <= n,
            n == s@.len(),
            forall|j: int| 0 <= j < i ==> !is_digit_char(#[trigger] s@[j]),
        decreases n - i,
    {
        let c = s.get_char(i);
        let u: u32 = c as u32;
        if 48 <= u && u <= 57 {
            return true;
        }
        i += 1;
    }
    false
}

/// A decimal-integer value of digits is never negative.
proof fn lemma_ipval_nonneg(s: Seq<char>)
    requires
        forall|i: int| 0 <= i < s.len() ==> is_digit_char(#[trigger] s[i]),
    ensures
        ipval(s) >= 0,
    decreases s.len(),
{
    if s.len() > 0 {
        lemma_ipval_nonneg(s.drop_last());
    }
}

/// Fraction digits contribute at least zero and less than one whole unit.
proof fn lemma_fracval_bounds(s: Seq<char>, i: int)
    requires
        forall|k: int| 0 <= k < s.len() ==> is_digit_char(#[trigger] s[k]),
        0 <= i <= 6,
    ensures
        0 <= fracval_from(s, i) < pow10_5(6 - i),
    decreases 6 - i,
{
    if i < 6 && i < s.len() {
        lemma_fracval_bounds(s, i + 1);
        let d = digit_val(s[i]);
        let p = pow10_5(5 - i);
        assert(d * p <= 9 * p) by (nonlinear_arith)
            requires
                0 <= d <= 9,
                p >= 0,
        ;
    }
}

/// Parse a digit/dot token into micro-units, saturating at the range bound.
pub fn token_value(s: &str) -> (r: Fx)
    requires
        valid_token(s@),
    ensures
        r.m as int == token_val(s@),
        r.m >= 0,
        r.wf(),
{
    let ghost whole = s@;
    let n = s.unicode_len();
    let dp = find_dot(s);
    proof {
        assert forall|j: int| 0 <= j < dp implies is_digit_char(whole[j]) by {
            lemma_no_dot_before(whole, j);
            assert(token_char(whole[j]));
        }
        assert forall|j: int| 0 <= j < frac_chars(whole).len() implies is_digit_char(
            #[trigger] frac_chars(whole)[j],
        ) by {
            assert(frac_chars(whole)[j] == whole[dot_pos(whole) + 1 + j]);
            assert(token_char(whole[dot_pos(whole) + 1 + j]));
            assert(whole[dot_pos(whole) + 1 + j] != '.');
        }
    }
    // Integer part: accumulate digits; once the value passes the largest
    // representable whole amount, only the saturation matters.
    let mut acc: u64 = 0;
    let mut big = false;
    let mut i: usize = 0;
    while i < dp
        invariant
            0 <= i <= dp <= n,
            n == whole.len(),
            s@ == whole,
            dp as int == dot_pos(whole),
            forall|j: int| 0 <= j < dp ==> is_digit_char(#[trigger] whole[j]),
            !big ==> acc as int == ipval(whole.take(i as int)) && acc <= 100_000_000_000u64,
            big ==> ipval(whole.take(i as int)) > 100_000_000_000,
        decreases dp - i,
    {
        let c = s.get_char(i);
        let d: u64 = ((c as u32) - 48) as u64;
        proof {
            assert(whole.take(i + 1).drop_last() =~= whole.take(i as int));
            assert(whole.take(i + 1).last() == whole[i as int]);
            lemma_ipval_nonneg(whole.take(i as int));
        }
        if big {
            proof {
                let v = ipval(whole.take(i as int));
                assert(v * 10 + digit_val(whole[i as int]) > 100_000_000_000) by (nonlinear_arith)
                    requires
                        v > 100_000_000_000,
                        digit_val(whole[i as int]) >= 0,
                ;
            }
        } else {
            let next = acc * 10 + d;
            if next > 100_000_000_000 {
                big = true;
            } else {
                acc = next;
            }
        }
        i += 1;
    }
    proof {
        assert(whole.take(dp as int) =~= int_chars(whole));
        lemma_fracval_bounds(frac_chars(whole), 0);
    }
    if big {
        proof {
            let v = ipval(int_chars(whole));
            assert(v * (FX_SCALE as int) >= 100_000_000_001 * (FX_SCALE as int))
                by (nonlinear_arith)
                requires
                    v >= 100_000_000_001,
                    FX_SCALE > 0,
            ;
        }
        return Fx { m: FX_MAX };
    }
    // Fraction part: the first six digits after the point.
    let mut fr: u64 = 0;
    let mut scale: u64 = 100_000;
    let mut j: usize = 0;
    let ghost fs = frac_chars(whole);
    let flen: usize = if dp < n {
        n - dp - 1
    } else {
        0
    };
    let lim: usize = if flen > 6 {
        6
    } else {
        flen
    };
    while j < lim
        invariant
            0 <= j <= lim <= 6,
            lim <= flen,
            flen as int == fs.len(),
            dp < n ==> flen == n - dp - 1,
            n == whole.len(),
            s@ == whole,
            dp as int == dot_pos(whole),
            dp <= n,
            fs == frac_chars(whole),
            lim == if flen > 6 { 6int } else { flen as int },
            forall|k: int| 0 <= k < fs.len() ==> is_digit_char(#[trigger] fs[k]),
            j < 6 ==> scale as int == pow10_5(5 - j),
            fracval_from(fs, 0) == fr + fracval_from(fs, j as int),
            fr as int <= fracval_from(fs, 0),
            fracval_from(fs, 0) < 1_000_000,
            fracval_from(fs, j as int) >= 0,
        decreases lim - j,
    {
        let c = s.get_char(dp + 1 + j);
        let d: u64 = ((c as u32) - 48) as u64;
        proof {
            assert(fs[j as int] == whole[dp + 1 + j]);
            lemma_fracval_bounds(fs, j + 1);
        }
        fr = fr + d * scale;
        scale = scale / 10;
        j += 1;
    }
    proof {
        assert(fracval_from(fs, j as int) == 0);
        lemma_ipval_nonneg(int_chars(whole));
    }
    let total: u64 = acc * 1_000_000 + fr;
    if total > FX_MAX as u64 {
        Fx { m: FX_MAX }
    } else {
        Fx { m: total as i64 }
    }
}

/// Parse a typed amount: `Some` exactly on an optional minus sign followed
/// by digits with at most one decimal point and at least one digit.
pub fn parse_amount(s: &str) -> (r: Option<Fx>)
    ensures
        r is Some <==> valid_amount(s@),
        r matches Some(v) ==> v.m as int == amount_val(s@) && v.wf(),
{
    let n = s.unicode_len();
    let neg = n > 0 && s.get_char(0) == '-';
    let body: &str = if neg {
        s.substring_char(1, n)
    } else {
        s.substring_char(0, n)
    };
    proof {
        if neg {
            assert(body@ =~= s@.skip(1));
        } else {
            assert(body@ =~= s@);
        }
    }
    if !check_token(body) {
        return None;
    }
    if !check_has_digit(body) {
        return None;
    }
    let t = token_value(body);
    if neg {
        Some(Fx { m: -t.m })
    } else {
        Some(t)
    }
}

/// `c` marks an exponent in scientific notation.
pub open spec fn is_exp_marker(c: char) -> bool {
    c == 'e' || c == 'E'
}

/// `i` is the position of the first exponent marker of `s`.
pub open spec fn marker_at(s: Seq<char>, i: int) -> bool {
    0 <= i < s.len() && is_exp_marker(s[i]) && (forall|j: int|
        0 <= j < i ==> !is_exp_marker(#[trigger] s[j]))
}

/// Position of the first exponent marker of `s`, or `s.len()` if none.
pub open spec fn marker_pos(s: Seq<char>) -> int {
    if exists|i: int| marker_at(s, i) {
        choose|i: int| marker_at(s, i)
    } else {
        s.len() as int
    }
}

/// The first exponent marker of a sequence is at one position only.
proof fn lemma_marker_at_unique(s: Seq<char>, i1: int, i2: int)
    requires
        marker_at(s, i1),
        marker_at(s, i2),
    ensures
        i1 == i2,
{
    if i1 < i2 {
        assert(!is_exp_marker(s[i1]));
    } else if i2 < i1 {
        assert(!is_exp_marker(s[i2]));
    }
}

/// Index of the first exponent marker of `s`, or its length if none.
fn find_marker(s: &str) -> (r: usize)
    ensures
        r as int == marker_pos(s@),
        r <= s@.len(),
{
    let n = s.unicode_len();
    let mut i: usize = 0;
    while i < n
        invariant
            0 <= i <= n,
            n == s@.len(),
            forall|j: int| 0 <= j < i ==> !is_exp_marker(#[trigger] s@[j]),
        decreases n - i,
    {
        let c = s.get_char(i);
        if c == 'e' || c == 'E' {
            proof {
                assert(marker_at(s@, i as int));
                lemma_marker_at_unique(s@, i as int, marker_pos(s@));
            }
            return i;
        }
        i += 1;
    }
    proof {
        if exists|k: int| marker_at(s@, k) {
            let k = choose|k: int| marker_at(s@, k);
            assert(!is_exp_marker(s@[k]));
        }
    }
    n
}

/// Every character of `s` is a digit.
pub open spec fn all_digits(s: Seq<char>) -> bool {
    forall|i: int| 0 <= i < s.len() ==> is_digit_char(#[trigger] s[i])
}

/// Whether every character of `s` is a digit.
fn check_all_digits(s: &str) -> (r: bool)
    ensures
        r == all_digits(s@),
{
    let n = s.unicode_len();
    let mut i: usize = 0;
    while i < n
        invariant
            0 <= i <= n,
            n == s@.len(),
            forall|j: int| 0 <= j < i ==> is_digit_char(#[trigger] s@[j]),
        decreases n - i,
    {
        let c = s.get_char(i);
        let u: u32 = c as u32;
        if !(48 <= u && u <= 57) {
            return false;
        }
        i += 1;
    }
    true
}

/// The digits of an exponent, after its optional sign.
pub open spec fn exp_digits(t: Seq<char>) -> Seq<char> {
    if t.len() > 0 && (t[0] == '+' || t[0] == '-') {
        t.skip(1)
    } else {
        t
    }
}

/// The exponent is negative.
pub open spec fn exp_is_neg(t: Seq<char>) -> bool {
    t.len() > 0 && t[0] == '-'
}

/// A valid exponent: an optional sign, then at least one digit.
pub open spec fn valid_exp(t: Seq<char>) -> bool {
    exp_digits(t).len() > 0 && all_digits(exp_digits(t))
}

/// Ten to the power `e` (one for negative `e`).
pub open spec fn pow10(e: int) -> int
    decreases e,
{
    if e <= 0 {
        1
    } else {
        10 * pow10(e - 1)
    }
}

/// Powers of ten are positive.
proof fn lemma_pow10_pos(e: int)
    ensures
        pow10(e) >= 1,
    decreases e,
{
    if e > 0 {
        lemma_pow10_pos(e - 1);
    }
}

/// The powers of ten an exponent in range can name.
proof fn lemma_pow10_vals()
    ensures
        pow10(0) == 1,
        pow10(1) == 10,
        pow10(2) == 100,
        pow10(3) == 1000,
        pow10(4) == 10000,
        pow10(5) == 100000,
        pow10(6) == 1000000,
        pow10(7) == 10000000,
        pow10(8) == 100000000,
        pow10(9) == 1000000000,
        pow10(10) == 10000000000,
        pow10(11) == 100000000000,
        pow10(12) == 1000000000000,
        pow10(13) == 10000000000000,
        pow10(14) == 100000000000000,
        pow10(15) == 1000000000000000,
        pow10(16) == 10000000000000000,
        pow10(17) == 100000000000000000,
{
    assert(pow10(0) == 1);
    assert(pow10(1) == 10);
    assert(pow10(2) == 100);
    assert(pow10(3) == 1000);
    assert(pow10(4) == 10000);
    assert(pow10(5) == 100000);
    assert(pow10(6) == 1000000);
    assert(pow10(7) == 10000000);
    assert(pow10(8) == 100000000);
    assert(pow10(9) == 1000000000);
    assert(pow10(10) == 10000000000);
    assert(pow10(11) == 100000000000);
    assert(pow10(12) == 1000000000000);
    assert(pow10(13) == 10000000000000);
    assert(pow10(14) == 100000000000000);
    assert(pow10(15) == 1000000000000000);
    assert(pow10(16) == 10000000000000000);
    assert(pow10(17) == 100000000000000000);
}

/// Beyond the representable range every power of ten passes the bound.
proof fn lemma_pow10_big(e: int)
    requires
        e >= 18,
    ensures
        pow10(e) > FX_MAX as int,
    decreases e,
{
    if e == 18 {
        lemma_pow10_vals();
        assert(pow10(18) == 10 * pow10(17));
    } else {
        lemma_pow10_big(e - 1);
        lemma_pow10_pos(e - 1);
        assert(pow10(e) == 10 * pow10(e - 1));
    }
}

/// Ten to the power `e`, for exponents in the representable range.
fn pow10_u64(e: u64) -> (r: u64)
    requires
        e <= 17,
    ensures
        r as int == pow10(e as int),
        1 <= r,
{
    proof {
        lemma_pow10_vals();
    }
    if e == 0 {
        1
    } else if e == 1 {
        10
    } else if e == 2 {
        100
    } else if e == 3 {
        1000
    } else if e == 4 {
        10000
    } else if e == 5 {
        100000
    } else if e == 6 {
        1000000
    } else if e == 7 {
        10000000
    } else if e == 8 {
        100000000
    } else if e == 9 {
        1000000000
    } else if e == 10 {
        10000000000
    } else if e == 11 {
        100000000000
    } else if e == 12 {
        1000000000000
    } else if e == 13 {
        10000000000000
    } else if e == 14 {
        100000000000000
    } else if e == 15 {
        1000000000000000
    } else if e == 16 {
        10000000000000000
    } else {
        100000000000000000
    }
}

/// A nonnegative value shifted by a signed power of ten, saturating
/// upward and truncating what falls below the resolution.
pub open spec fn shifted(m: int, neg: bool, e: int) -> int {
    if neg {
        m / pow10(e)
    } else {
        fx_sat(m * pow10(e))
    }
}

/// Shift a nonnegative value by a signed power of ten.
fn apply_exp(m: Fx, neg: bool, e_digits: &str) -> (r: Fx)
    requires
        m.wf(),
        m.m >= 0,
        all_digits(e_digits@),
    ensures
        r.m as int == shifted(m.m as int, neg, ipval(e_digits@)),
        r.m >= 0,
        r.wf(),
{
    let ghost etrue = ipval(e_digits@);
    let n = e_digits.unicode_len();
    let mut e: u64 = 0;
    let mut i: usize = 0;
    while i < n
        invariant
            0 <= i <= n,
            n == e_digits@.len(),
            all_digits(e_digits@),
            e < 18 ==> e as int == ipval(e_digits@.take(i as int)),
            e == 18 ==> ipval(e_digits@.take(i as int)) >= 18,
            e <= 18,
        decreases n - i,
    {
        let c = e_digits.get_char(i);
        let d: u64 = ((c as u32) - 48) as u64;
        proof {
            assert(e_digits@.take(i + 1).drop_last() =~= e_digits@.take(i as int));
            assert(e_digits@.take(i + 1).last() == e_digits@[i as int]);
            lemma_ipval_nonneg(e_digits@.take(i as int));
        }
        if e < 18 {
            let nx = e * 10 + d;
            if nx >= 18 {
                e = 18;
            } else {
                e = nx;
            }
        } else {
            proof {
                let v = ipval(e_digits@.take(i as int));
                assert(v * 10 + digit_val(e_digits@[i as int]) >= 18) by (nonlinear_arith)
                    requires
                        v >= 18,
                        digit_val(e_digits@[i as int]) >= 0,
                ;
            }
        }
        i += 1;
    }
    proof {
        assert(e_digits@.take(n as int) =~= e_digits@);
        lemma_ipval_nonneg(e_digits@);
    }
    if neg {
        if e >= 18 {
            proof {
                lemma_pow10_big(etrue);
                vstd::arithmetic::div_mod::lemma_basic_div(m.m as int, pow10(etrue));
            }
            Fx { m: 0 }
        } else {
            let p = pow10_u64(e);
            Fx { m: ((m.m as u64) / p) as i64 }
        }
    } else {
        if e >= 18 {
            proof {
                lemma_pow10_big(etrue);
            }
            if m.m == 0 {
                Fx { m: 0 }
            } else {
                proof {
                    let p = pow10(etrue);
                    assert(m.m as int * p >= p) by (nonlinear_arith)
                        requires
                            m.m >= 1,
                            p >= 0,
                    ;
                }
                Fx { m: FX_MAX }
            }
        } else {
            let p = pow10_u64(e);
            proof {
                lemma_pow10_vals();
                assert((m.m as u64 as u128) * (p as u128) <= (FX_MAX as u128) * (
                100_000_000_000_000_000u128)) by (nonlinear_arith)
                    requires
                        m.m as u64 as u128 <= FX_MAX as u128,
                        p as u128 <= 100_000_000_000_000_000u128,
                ;
            }
            let q: u128 = (m.m as u64 as u128) * (p as u128);
            if q > FX_MAX as u128 {
                Fx { m: FX_MAX }
            } else {
                Fx { m: q as i64 }
            }
        }
    }
}

/// A rate cell's text: an optional minus sign, then digits with at most
/// one decimal point and at least one digit, then an optional exponent —
/// a marker, an optional sign and at least one digit. This is the decimal
/// shape serde_json renders numbers in, exponent form included.
pub open spec fn valid_rate_text(s: Seq<char>) -> bool {
    let b = if s.len() > 0 && s[0] == '-' {
        s.skip(1)
    } else {
        s
    };
    let mp = marker_pos(b);
    if mp == b.len() {
        valid_token(b) && has_digit(b)
    } else {
        valid_token(b.take(mp)) && has_digit(b.take(mp)) && valid_exp(b.skip(mp + 1))
    }
}

/// Value of a valid rate text in micro-units: the mantissa shifted by the
/// exponent, saturated into range, truncated below the resolution.
pub open spec fn rate_text_val(s: Seq<char>) -> int {
    let neg = s.len() > 0 && s[0] == '-';
    let b = if neg {
        s.skip(1)
    } else {
        s
    };
    let mp = marker_pos(b);
    let m = if mp == b.len() {
        token_val(b)
    } else {
        shifted(token_val(b.take(mp)), exp_is_neg(b.skip(mp + 1)), ipval(exp_digits(b.skip(mp + 1))))
    };
    if neg {
        -m
    } else {
        m
    }
}

/// Parse a rate cell's text: `Some` exactly on a decimal number with an
/// optional exponent, as serde_json renders numbers.
pub fn parse_rate_text(s: &str) -> (r: Option<Fx>)
    ensures
        r is Some <==> valid_rate_text(s@),
        r matches Some(v) ==> v.m as int == rate_text_val(s@) && v.wf(),
{
    let n = s.unicode_len();
    let neg = n > 0 && s.get_char(0) == '-';
    let body: &str = if neg {
        s.substring_char(1, n)
    } else {
        s.substring_char(0, n)
    };
    proof {
        if neg {
            assert(body@ =~= s@.skip(1));
        } else {
            assert(body@ =~= s@);
        }
    }
    let bn = body.unicode_len();
    let mk = find_marker(body);
    let value: Fx;
    if mk == bn {
        if !check_token(body) {
            return None;
        }
        if !check_has_digit(body) {
            return None;
        }
        value = token_value(body);
    } else {
        let mant = body.substring_char(0, mk);
        proof {
            assert(mant@ =~= body@.take(mk as int));
        }
        if !check_token(mant) {
            return None;
        }
        if !check_has_digit(mant) {
            return None;
        }
        let ep = body.substring_char(mk + 1, bn);
        proof {
            assert(ep@ =~= body@.skip(mk + 1));
        }
        let en = ep.unicode_len();
        let has_sign = en > 0 && (ep.get_char(0) == '-' || ep.get_char(0) == '+');
        let eneg = en > 0 && ep.get_char(0) == '-';
        let ed: &str = if has_sign {
            ep.substring_char(1, en)
        } else {
            ep.substring_char(0, en)
        };
        proof {
            assert(ed@ =~= exp_digits(ep@));
            assert(eneg == exp_is_neg(ep@));
        }
        if ed.unicode_len() == 0 {
            return None;
        }
        if !check_all_digits(ed) {
            return None;
        }
        value = apply_exp(token_value(mant), eneg, ed);
    }
    if neg {
        Some(Fx { m: -value.m })
    } else {
        Some(value)
    }
}

/// Whether two strings hold the same characters.
pub fn str_eq(a: &str, b: &str) -> (r: bool)
    ensures
        r == (a@ == b@),
{
    let al = a.unicode_len();
    let bl = b.unicode_len();
    if al != bl {
        return false;
    }
    let mut i: usize = 0;
    while i < al
        invariant
            0 <= i <= al,
            al == a@.len(),
            bl == b@.len(),
            al == bl,
            forall|j: int| 0 <= j < i ==> a@[j] == b@[j],
        decreases al - i,
    {
        if a.get_char(i) != b.get_char(i) {
            return false;
        }
        i += 1;
    }
    proof {
        assert(a@ =~= b@);
    }
    true
}

/// `s` holds a decimal point somewhere.
pub open spec fn has_dot(s: Seq<char>) -> bool {
    exists|i: int| 0 <= i < s.len() && s[i] == '.'
}

/// A sequence holds a point exactly when its first point is inside it.
pub proof fn lemma_has_dot_iff(s: Seq<char>)
    ensures
        has_dot(s) <==> dot_pos(s) < s.len(),
{
    if has_dot(s) {
        let j = choose|j: int| 0 <= j < s.len() && s[j] == '.';
        lemma_first_dot_exists(s, j);
    }
    if dot_pos(s) < s.len() {
        let i = choose|i: int| dot_at(s, i);
        assert(0 <= i < s.len() && s[i] == '.');
    }
}

/// Whether `s` holds a decimal point.
pub fn contains_dot(s: &str) -> (r: bool)
    ensures
        r == has_dot(s@),
{
    let n = s.unicode_len();
    let dp = find_dot(s);
    proof {
        lemma_has_dot_iff(s@);
    }
    dp < n
}

/// Appending a digit, or a first point, to a token keeps it a token.
pub proof fn lemma_push_token(s: Seq<char>, c: char)
    requires
        valid_token(s),
        token_char(c),
        c == '.' ==> !has_dot(s),
    ensures
        valid_token(s.push(c)),
{
    let t = s.push(c);
    assert(forall|i: int| 0 <= i < s.len() ==> t[i] == s[i]);
    if c == '.' {
        assert forall|j: int| 0 <= j < s.len() implies s[j] != '.' by {
            if s[j] == '.' {
                assert(has_dot(s));
            }
        }
        assert(dot_at(t, s.len() as int));
        let i = choose|i: int| dot_at(t, i);
        lemma_dot_at_unique(t, i, s.len() as int);
        assert(dot_pos(t) == s.len() as int);
    } else {
        if has_dot(s) {
            lemma_has_dot_iff(s);
            let i = dot_pos(s);
            assert(dot_at(s, i));
            assert forall|j: int| 0 <= j < i implies t[j] != '.' by {}
            assert(dot_at(t, i));
            lemma_dot_at_unique(t, choose|k: int| dot_at(t, k), i);
            assert(dot_pos(t) == i);
            assert forall|j: int| dot_pos(t) < j < t.len() implies t[j] != '.' by {
                if j < s.len() {
                    assert(s[j] != '.');
                }
            }
        } else {
            lemma_has_dot_iff(s);
            if exists|i: int| dot_at(t, i) {
                let i = choose|i: int| dot_at(t, i);
                if i < s.len() {
                    assert(s[i] == '.');
                    assert(has_dot(s));
                }
                assert(false);
            }
            assert(dot_pos(t) == t.len() as int);
        }
    }
}

/// A prefix of a token is a token.
pub proof fn lemma_take_token(s: Seq<char>, k: int)
    requires
        valid_token(s),
        0 <= k <= s.len(),
    ensures
        valid_token(s.take(k)),
{
    let p = s.take(k);
    if exists|i: int| dot_at(p, i) {
        let i = choose|i: int| dot_at(p, i);
        assert(s[i] == '.');
        assert forall|j: int| 0 <= j < i implies s[j] != '.' by {
            assert(p[j] != '.');
        }
        assert(dot_at(s, i));
        lemma_dot_at_unique(s, i, dot_pos(s));
        lemma_dot_at_unique(p, i, dot_pos(p));
        assert forall|j: int| dot_pos(p) < j < p.len() implies p[j] != '.' by {
            assert(s[j] != '.');
        }
    } else {
        assert(dot_pos(p) == p.len() as int);
    }
}

/// The digit character of a small value.
pub open spec fn digit_char(d: int) -> char {
    if d == 0 {
        '0'
    } else if d == 1 {
        '1'
    } else if d == 2 {
        '2'
    } else if d == 3 {
        '3'
    } else if d == 4 {
        '4'
    } else if d == 5 {
        '5'
    } else if d == 6 {
        '6'
    } else if d == 7 {
        '7'
    } else if d == 8 {
        '8'
    } else {
        '9'
    }
}

/// Decimal digits of a whole number, most significant first.
pub open spec fn dec_digits(n: int) -> Seq<char>
    decreases n,
{
    if n < 10 {
        seq![digit_char(n)]
    } else {
        dec_digits(n / 10).push(digit_char(n % 10))
    }
}

/// The six fraction digits of `fp` micro-units, most significant first.
pub open spec fn pad6(fp: int) -> Seq<char> {
    seq![
        digit_char(fp / 100000 % 10),
        digit_char(fp / 10000 % 10),
        digit_char(fp / 1000 % 10),
        digit_char(fp / 100 % 10),
        digit_char(fp / 10 % 10),
        digit_char(fp % 10),
    ]
}

/// How many fraction digits to print: up to the last nonzero one.
pub open spec fn frac_len(fp: int) -> int {
    if fp % 10 != 0 {
        6
    } else if fp % 100 != 0 {
        5
    } else if fp % 1000 != 0 {
        4
    } else if fp % 10000 != 0 {
        3
    } else if fp % 100000 != 0 {
        2
    } else {
        1
    }
}

/// Decimal rendering of a fixed-point value: optional minus sign, the whole
/// part, and — when the fraction is not zero — a point and the fraction
/// digits up to the last nonzero one.
pub open spec fn fmt_fx(v: int) -> Seq<char> {
    let mag = abs(v) as int;
    let ip = mag / (FX_SCALE as int);
    let fp = mag % (FX_SCALE as int);
    let body = if fp == 0 {
        dec_digits(ip)
    } else {
        dec_digits(ip) + seq!['.'] + pad6(fp).take(frac_len(fp))
    };
    if v < 0 {
        seq!['-'] + body
    } else {
        body
    }
}

/// The four leading fraction digits of `fp4` ten-thousandths.
pub open spec fn pad4(fp4: int) -> Seq<char> {
    seq![
        digit_char(fp4 / 1000 % 10),
        digit_char(fp4 / 100 % 10),
        digit_char(fp4 / 10 % 10),
        digit_char(fp4 % 10),
    ]
}

/// Decimal rendering of a fixed-point value with exactly four fraction
/// digits, truncating the resolution below them: optional minus sign, the
/// whole part, a point, four digits.
pub open spec fn fmt_fx4(v: int) -> Seq<char> {
    let mag = abs(v) as int;
    let ip = mag / (FX_SCALE as int);
    let fp4 = (mag % (FX_SCALE as int)) / 100;
    let body = dec_digits(ip) + seq!['.'] + pad4(fp4);
    if v < 0 {
        seq!['-'] + body
    } else {
        body
    }
}

/// Render a fixed-point value with exactly four fraction digits.
pub fn format_fx4(v: Fx) -> (r: String)
    requires
        v.wf(),
    ensures
        r@ == fmt_fx4(v.m as int),
{
    let mut out = String::new();
    if v.m < 0 {
        proof {
            reveal_strlit("-");
        }
        out.append("-");
    }
    let mag: u64 = if v.m < 0 {
        (-v.m) as u64
    } else {
        v.m as u64
    };
    let ip: u64 = mag / 1_000_000;
    let fp4: u64 = (mag % 1_000_000) / 100;
    append_dec(&mut out, ip);
    proof {
        reveal_strlit(".");
    }
    out.append(".");
    out.append(digit_str(fp4 / 1000 % 10));
    out.append(digit_str(fp4 / 100 % 10));
    out.append(digit_str(fp4 / 10 % 10));
    out.append(digit_str(fp4 % 10));
    proof {
        assert(out@ =~= fmt_fx4(v.m as int));
    }
    out
}

/// The one-character string of a digit.
fn digit_str(d: u64) -> (r: &'static str)
    requires
        d < 10,
    ensures
        r@ =~= seq![digit_char(d as int)],
{
    proof {
        reveal_strlit("0");
        reveal_strlit("1");
        reveal_strlit("2");
        reveal_strlit("3");
        reveal_strlit("4");
        reveal_strlit("5");
        reveal_strlit("6");
        reveal_strlit("7");
        reveal_strlit("8");
        reveal_strlit("9");
    }
    if d == 0 {
        "0"
    } else if d == 1 {
        "1"
    } else if d == 2 {
        "2"
    } else if d == 3 {
        "3"
    } else if d == 4 {
        "4"
    } else if d == 5 {
        "5"
    } else if d == 6 {
        "6"
    } else if d == 7 {
        "7"
    } else if d == 8 {
        "8"
    } else {
        "9"
    }
}

/// Append the decimal digits of `n` to `s`.
fn append_dec(s: &mut String, n: u64)
    ensures
        final(s)@ == old(s)@ + dec_digits(n as int),
    decreases n,
{
    if n >= 10 {
        append_dec(s, n / 10);
    }
    let t = digit_str(n % 10);
    s.append(t);
}

/// Render a fixed-point value as a decimal string.
#[verifier::rlimit(60)]
pub fn format_fx(v: Fx) -> (r: String)
    requires
        v.wf(),
    ensures
        r@ == fmt_fx(v.m as int),
{
    let mut out = String::new();
    if v.m < 0 {
        proof {
            reveal_strlit("-");
        }
        out.append("-");
    }
    let mag: u64 = if v.m < 0 {
        (-v.m) as u64
    } else {
        v.m as u64
    };
    let ip: u64 = mag / 1_000_000;
    let fp: u64 = mag % 1_000_000;
    append_dec(&mut out, ip);
    if fp > 0 {
        proof {
            reveal_strlit(".");
        }
        out.append(".");
        let k: u64 = if fp % 10 != 0 {
            6
        } else if fp % 100 != 0 {
            5
        } else if fp % 1000 != 0 {
            4
        } else if fp % 10000 != 0 {
            3
        } else if fp % 100000 != 0 {
            2
        } else {
            1
        };
        out.append(digit_str(fp / 100000 % 10));
        if k >= 2 {
            out.append(digit_str(fp / 10000 % 10));
        }
        if k >= 3 {
            out.append(digit_str(fp / 1000 % 10));
        }
        if k >= 4 {
            out.append(digit_str(fp / 100 % 10));
        }
        if k >= 5 {
            out.append(digit_str(fp / 10 % 10));
        }
        if k >= 6 {
            out.append(digit_str(fp % 10));
        }
        proof {
            assert(pad6(fp as int).take(frac_len(fp as int)) =~= pad6(fp as int).take(
                k as int,
            ));
            assert(out@ =~= fmt_fx(v.m as int));
        }
    } else {
        proof {
            assert(out@ =~= fmt_fx(v.m as int));
        }
    }
    out
}

} // verus!
