//! Reading decimal numerals: thousands separators, an optional sign,
//! whole digits, fractional digits and an exponent, into an exact amount.
use vstd::prelude::*;

use crate::data::currency::{in_range, DECIMAL_PLACES, MAX_UNITS, UNITS_PER_WHOLE};
use crate::text::{decimal, digit_char, zero_pad};

verus! {

/// Ten to the power `n`.
pub open spec fn pow10(n: nat) -> nat
    decreases n,
{
    if n == 0 {
        1
    } else {
        10 * pow10((n - 1) as nat)
    }
}

/// A thousands separator.
pub open spec fn is_separator(c: char) -> bool {
    c == ',' || c == '_'
}

/// `s` without its thousands separators, `,` and `_`.
pub open spec fn strip_separators(s: Seq<char>) -> Seq<char>
    decreases s.len(),
{
    if s.len() == 0 {
        s
    } else if is_separator(s.last()) {
        strip_separators(s.drop_last())
    } else {
        strip_separators(s.drop_last()).push(s.last())
    }
}

pub open spec fn is_digit(c: char) -> bool {
    '0' <= c && c <= '9'
}

pub open spec fn all_digits(s: Seq<char>) -> bool {
    forall|i: int| 0 <= i < s.len() ==> is_digit(#[trigger] s[i])
}

/// The number that a string of decimal digits denotes.
pub open spec fn digits_value(s: Seq<char>) -> nat
    decreases s.len(),
{
    if s.len() == 0 {
        0
    } else {
        digits_value(s.drop_last()) * 10 + ((s.last() as u32) - ('0' as u32)) as nat
    }
}

/// The position of the first `.` in `s`, or its length where there is none.
pub open spec fn first_dot(s: Seq<char>) -> nat
    decreases s.len(),
{
    if s.len() == 0 {
        0
    } else if s[0] == '.' {
        0
    } else {
        1 + first_dot(s.drop_first())
    }
}

/// The fractional digits `f` in units, where digits past the eighteenth
/// place are dropped.
pub open spec fn fraction_units(f: Seq<char>) -> nat {
    let k = if f.len() < DECIMAL_PLACES {
        f.len()
    } else {
        DECIMAL_PLACES as nat
    };
    digits_value(f.take(k as int)) * pow10((DECIMAL_PLACES - k) as nat)
}

/// The sign that a numeral starts with, if any, takes this many characters.
pub open spec fn sign_len(t: Seq<char>) -> int {
    if t.len() > 0 && (t[0] == '+' || t[0] == '-') {
        1
    } else {
        0
    }
}

/// `v`, negated where `t` starts with `-`.
pub open spec fn with_sign(t: Seq<char>, v: int) -> int {
    if t.len() > 0 && t[0] == '-' {
        -v
    } else {
        v
    }
}

/// An exponent mark, `e` or `E`.
pub open spec fn is_exponent_mark(c: char) -> bool {
    c == 'e' || c == 'E'
}

/// The position of the first exponent mark in `s`, or its length where
/// there is none.
pub open spec fn first_exponent_mark(s: Seq<char>) -> nat
    decreases s.len(),
{
    if s.len() == 0 {
        0
    } else if is_exponent_mark(s[0]) {
        0
    } else {
        1 + first_exponent_mark(s.drop_first())
    }
}

/// The whole and the fractional digits of a mantissa, split at its first
/// point.
pub open spec fn split_at_point(m: Seq<char>) -> (Seq<char>, Seq<char>) {
    let p = first_dot(m) as int;
    (
        m.take(p),
        if p < m.len() {
            m.skip(p + 1)
        } else {
            Seq::empty()
        },
    )
}

/// Whether an exponent is an optional sign followed by at least one digit.
pub open spec fn exponent_ok(x: Seq<char>) -> bool {
    let d = x.skip(sign_len(x));
    d.len() > 0 && all_digits(d)
}

/// The value of an exponent.
pub open spec fn exponent_value(x: Seq<char>) -> int {
    with_sign(x, digits_value(x.skip(sign_len(x))) as int)
}

/// `m` times ten to the power `s`, rounded down to a whole number.
pub open spec fn shifted(m: nat, s: int) -> nat {
    if s >= 0 {
        m * pow10(s as nat)
    } else {
        m / pow10((-s) as nat)
    }
}

/// The amount, in units of 10^-18, that a decimal numeral denotes, read as
/// a floating-point numeral is read: an optional sign; digits with at most
/// one decimal point and at least one digit; then, optionally, an exponent
/// mark `e` or `E`, an optional sign and at least one digit. The amount is
/// the digits times ten to the power of the exponent; digits past its
/// eighteenth decimal place are dropped.
pub open spec fn numeral_units(t: Seq<char>) -> Option<int> {
    let body = t.skip(sign_len(t));
    let ep = first_exponent_mark(body) as int;
    let parts = split_at_point(body.take(ep));
    let has_exponent = ep < body.len();
    let exponent = if has_exponent {
        body.skip(ep + 1)
    } else {
        Seq::empty()
    };
    if all_digits(parts.0) && all_digits(parts.1) && parts.0.len() + parts.1.len() > 0 && (
    has_exponent ==> exponent_ok(exponent)) {
        let e = if has_exponent {
            exponent_value(exponent)
        } else {
            0
        };
        let m = digits_value(parts.0 + parts.1);
        Some(with_sign(t, shifted(m, e - parts.1.len() + DECIMAL_PLACES) as int))
    } else {
        None
    }
}

/// Numbers in a numeral are counted up to this cap only: a mantissa or an
/// exponent this large puts the amount out of range, or makes it zero.
pub const VALUE_CAP: u128 = 10_000_000_000_000_000_000_000_000_000_000;

/// `v`, or [`VALUE_CAP`] where `v` is larger.
pub open spec fn capped(v: nat) -> nat {
    if v < VALUE_CAP {
        v
    } else {
        VALUE_CAP as nat
    }
}

pub(crate) proof fn lemma_pow10_18()
    ensures
        pow10(18) == 1_000_000_000_000_000_000,
{
    reveal_with_fuel(pow10, 19);
}

pub(crate) proof fn lemma_pow10_monotonic(a: nat, b: nat)
    requires
        a <= b,
    ensures
        1 <= pow10(a) <= pow10(b),
        a < b ==> pow10(a) < pow10(b),
    decreases b,
{
    if b > 0 {
        if a < b {
            lemma_pow10_monotonic(a, (b - 1) as nat);
        } else {
            lemma_pow10_monotonic((b - 1) as nat, (b - 1) as nat);
        }
    }
}

pub(crate) proof fn lemma_first_dot(s: Seq<char>, q: int)
    requires
        0 <= q <= s.len(),
        forall|j: int| 0 <= j < q ==> s[j] != '.',
    ensures
        q <= first_dot(s) <= s.len(),
        (q == s.len() || s[q] == '.') ==> first_dot(s) == q,
        first_dot(s) < s.len() ==> s[first_dot(s) as int] == '.',
    decreases s.len(),
{
    if s.len() > 0 && s[0] != '.' {
        let t = s.drop_first();
        if q > 0 {
            assert forall|j: int| 0 <= j < q - 1 implies t[j] != '.' by {
                assert(t[j] == s[j + 1]);
            }
            lemma_first_dot(t, q - 1);
        } else {
            lemma_first_dot(t, 0);
        }
    }
}

pub(crate) proof fn lemma_digits_value_push(s: Seq<char>, c: char)
    ensures
        digits_value(s.push(c)) == digits_value(s) * 10 + ((c as u32) - ('0' as u32)) as nat,
{
    assert(s.push(c).drop_last() =~= s);
}

/// `s` without the separators `,` and `_`.
pub(crate) fn without_separators(s: &str) -> (r: Vec<char>)
    ensures
        r@ == strip_separators(s@),
{
    let n = s.unicode_len();
    let mut r: Vec<char> = Vec::new();
    let mut i: usize = 0;
    while i < n
        invariant
            n == s@.len(),
            i <= n,
            r@ == strip_separators(s@.take(i as int)),
        decreases n - i,
    {
        let c = s.get_char(i);
        assert(s@.take(i + 1).drop_last() =~= s@.take(i as int));
        if c != ',' && c != '_' {
            r.push(c);
        }
        i = i + 1;
    }
    assert(s@.take(n as int) =~= s@);
    r
}

pub(crate) proof fn lemma_pow10_32()
    ensures
        pow10(31) == 10_000_000_000_000_000_000_000_000_000_000,
        pow10(32) == 100_000_000_000_000_000_000_000_000_000_000,
{
    reveal_with_fuel(pow10, 33);
}

pub(crate) proof fn lemma_pow10_add(a: nat, b: nat)
    ensures
        pow10(a + b) == pow10(a) * pow10(b),
    decreases a,
{
    if a > 0 {
        lemma_pow10_add((a - 1) as nat, b);
        assert(pow10(a + b) == 10 * pow10((a - 1 + b) as nat));
        assert(pow10(a) == 10 * pow10((a - 1) as nat));
        assert(10 * (pow10((a - 1) as nat) * pow10(b)) == (10 * pow10((a - 1) as nat)) * pow10(b))
            by (nonlinear_arith);
    } else {
        assert(pow10(0) == 1);
        assert(a + b == b);
    }
}

pub(crate) proof fn lemma_first_exponent_mark(s: Seq<char>, q: int)
    requires
        0 <= q <= s.len(),
        forall|j: int| 0 <= j < q ==> !is_exponent_mark(#[trigger] s[j]),
    ensures
        q <= first_exponent_mark(s) <= s.len(),
        (q == s.len() || is_exponent_mark(s[q])) ==> first_exponent_mark(s) == q,
        first_exponent_mark(s) < s.len() ==> is_exponent_mark(s[first_exponent_mark(s) as int]),
    decreases s.len(),
{
    if s.len() > 0 && !is_exponent_mark(s[0]) {
        let t = s.drop_first();
        if q > 0 {
            assert forall|j: int| 0 <= j < q - 1 implies !is_exponent_mark(#[trigger] t[j]) by {
                assert(t[j] == s[j + 1]);
            }
            lemma_first_exponent_mark(t, q - 1);
        } else {
            lemma_first_exponent_mark(t, 0);
        }
    }
}

/// The digits `a` followed by `b` denote `a`'s number shifted by `b`'s
/// length, plus `b`'s number.
pub proof fn lemma_digits_value_split(a: Seq<char>, b: Seq<char>)
    ensures
        digits_value(a + b) == digits_value(a) * pow10(b.len()) + digits_value(b),
    decreases b.len(),
{
    if b.len() == 0 {
        assert(a + b =~= a);
        assert(pow10(0) == 1);
    } else {
        let b2 = b.drop_last();
        lemma_digits_value_split(a, b2);
        assert((a + b).drop_last() =~= a + b2);
        assert((a + b).last() == b.last());
        let d = ((b.last() as u32) - ('0' as u32)) as nat;
        let x = digits_value(a);
        let p = pow10(b2.len());
        assert(pow10(b.len()) == 10 * p);
        assert((x * p + digits_value(b2)) * 10 + d == x * (10 * p) + (digits_value(b2) * 10 + d))
            by (nonlinear_arith);
    }
}

/// A string of `n` digits denotes a number below ten to the `n`.
pub proof fn lemma_digits_value_bound(s: Seq<char>)
    requires
        all_digits(s),
    ensures
        digits_value(s) < pow10(s.len()),
    decreases s.len(),
{
    if s.len() > 0 {
        let s2 = s.drop_last();
        assert forall|i: int| 0 <= i < s2.len() implies is_digit(#[trigger] s2[i]) by {
            assert(s2[i] == s[i]);
        }
        lemma_digits_value_bound(s2);
        assert(is_digit(s[s.len() - 1]));
        let d = ((s.last() as u32) - ('0' as u32)) as nat;
        assert(d <= 9);
        let p = pow10(s2.len());
        assert(digits_value(s2) * 10 + d < 10 * p) by (nonlinear_arith)
            requires
                digits_value(s2) < p,
                d <= 9,
        ;
    } else {
        assert(pow10(0) == 1);
    }
}

/// The digits `ds` shifted by `s`: the first `c` digits, where `c` is
/// `ds.len() + s` kept within `0..=ds.len()`, followed by zeros.
pub proof fn lemma_shifted_prefix(ds: Seq<char>, s: int)
    requires
        all_digits(ds),
    ensures
        ({
            let n = ds.len() as int;
            let p = n + s;
            let c = if p <= 0 {
                0
            } else if p >= n {
                n
            } else {
                p
            };
            shifted(digits_value(ds), s) == digits_value(ds.take(c)) * pow10((p - c) as nat)
        }),
{
    let n = ds.len() as int;
    let p = n + s;
    lemma_digits_value_bound(ds);
    if p >= n {
        assert(ds.take(n) =~= ds);
        assert(s >= 0);
        assert((p - n) as nat == s as nat);
    } else if p <= 0 {
        lemma_pow10_monotonic(n as nat, (-s) as nat);
        let m = digits_value(ds);
        let d = pow10((-s) as nat);
        vstd::arithmetic::div_mod::lemma_fundamental_div_mod_converse_div(
            m as int,
            d as int,
            0,
            m as int,
        );
        assert(m / d == 0);
        assert(shifted(m, s) == 0);
        assert(ds.take(0) =~= Seq::<char>::empty());
        assert(digits_value(Seq::<char>::empty()) == 0);
        let z = pow10(p as nat);
        assert(0 * z == 0) by (nonlinear_arith);
    } else {
        let hi = ds.take(p);
        let lo = ds.skip(p);
        assert(ds =~= hi + lo);
        lemma_digits_value_split(hi, lo);
        assert forall|i: int| 0 <= i < lo.len() implies is_digit(#[trigger] lo[i]) by {
            assert(lo[i] == ds[i + p]);
        }
        lemma_digits_value_bound(lo);
        let d = pow10(lo.len());
        assert(lo.len() == -s);
        assert(digits_value(ds) == digits_value(hi) * d + digits_value(lo));
        vstd::arithmetic::div_mod::lemma_fundamental_div_mod_converse_div(
            digits_value(ds) as int,
            d as int,
            digits_value(hi) as int,
            digits_value(lo) as int,
        );
        assert(shifted(digits_value(ds), s) == digits_value(hi));
        assert(pow10(0) == 1);
        assert(digits_value(hi) * pow10(0) == digits_value(hi));
    }
}

/// A shift of at least 32 places leaves nothing or more than the largest
/// amount; a shift past all the digits leaves nothing.
pub proof fn lemma_shifted_far(ds: Seq<char>, s: int)
    requires
        all_digits(ds),
        s >= 32 || s <= -(ds.len() as int),
    ensures
        shifted(digits_value(ds), s) == 0 || shifted(digits_value(ds), s) >= pow10(32),
{
    lemma_shifted_prefix(ds, s);
    if s >= 32 {
        lemma_pow10_monotonic(32, s as nat);
        let m = digits_value(ds);
        let q = pow10(s as nat);
        assert(m == 0 || m * q >= q) by (nonlinear_arith)
            requires
                m >= 0,
                q >= 1,
        ;
        assert(m == 0 ==> m * q == 0) by (nonlinear_arith);
    } else {
        assert(ds.take(0) =~= Seq::<char>::empty());
        assert(digits_value(Seq::<char>::empty()) == 0);
        let z = pow10((ds.len() + s) as nat);
        assert(0 * z == 0) by (nonlinear_arith);
    }
}

/// Where the digits of `t` from `from` on stop.
pub(crate) fn scan_digits(t: &Vec<char>, from: usize) -> (r: usize)
    requires
        from <= t@.len(),
    ensures
        from <= r <= t@.len(),
        all_digits(t@.subrange(from as int, r as int)),
        r < t@.len() ==> !is_digit(t@[r as int]),
{
    let n = t.len();
    let mut i = from;
    while i < n && '0' <= t[i] && t[i] <= '9'
        invariant
            from <= i <= n,
            n == t@.len(),
            forall|j: int| from <= j < i ==> is_digit(#[trigger] t@[j]),
        decreases n - i,
    {
        i = i + 1;
    }
    assert forall|j: int| 0 <= j < i - from implies is_digit(
        #[trigger] t@.subrange(from as int, i as int)[j],
    ) by {
        assert(t@.subrange(from as int, i as int)[j] == t@[from + j]);
    }
    i
}

/// The number that the digits `t[from..to]` denote, counted up to
/// [`VALUE_CAP`].
pub(crate) fn capped_value(t: &Vec<char>, from: usize, to: usize) -> (r: u128)
    requires
        from <= to <= t@.len(),
        all_digits(t@.subrange(from as int, to as int)),
    ensures
        r == capped(digits_value(t@.subrange(from as int, to as int))),
{
    let mut i = from;
    let mut v: u128 = 0;
    assert(t@.subrange(from as int, from as int) =~= Seq::<char>::empty());
    while i < to
        invariant
            from <= i <= to <= t@.len(),
            all_digits(t@.subrange(from as int, to as int)),
            v == capped(digits_value(t@.subrange(from as int, i as int))),
        decreases to - i,
    {
        assert(is_digit(t@.subrange(from as int, to as int)[i - from]));
        assert(t@.subrange(from as int, to as int)[i - from] == t@[i as int]);
        let d = (t[i] as u32 - '0' as u32) as u128;
        proof {
            lemma_digits_value_push(t@.subrange(from as int, i as int), t@[i as int]);
            assert(t@.subrange(from as int, i + 1) =~= t@.subrange(from as int, i as int).push(
                t@[i as int],
            ));
        }
        if v < VALUE_CAP {
            v = v * 10 + d;
            if v > VALUE_CAP {
                v = VALUE_CAP;
            }
        }
        i = i + 1;
    }
    v
}

/// Appends the characters `t[from..to]`.
fn push_range(ds: &mut Vec<char>, t: &Vec<char>, from: usize, to: usize)
    requires
        from <= to <= t@.len(),
    ensures
        final(ds)@ == old(ds)@ + t@.subrange(from as int, to as int),
{
    let ghost start = ds@;
    let mut i = from;
    while i < to
        invariant
            from <= i <= to <= t@.len(),
            ds@ == start + t@.subrange(from as int, i as int),
        decreases to - i,
    {
        ds.push(t[i]);
        assert(ds@ =~= start + t@.subrange(from as int, i + 1));
        i = i + 1;
    }
}

/// The digits `ds` times ten to the power `s`, rounded down, where that
/// lies in the valid range.
pub(crate) fn shifted_units(ds: &Vec<char>, s: i128) -> (r: Option<u128>)
    requires
        all_digits(ds@),
        -0x1_0000_0000_0000_0000_0000_0000_0000 < s < 0x1_0000_0000_0000_0000_0000_0000_0000,
    ensures
        r is None ==> !in_range(shifted(digits_value(ds@), s as int) as int),
        r matches Some(u) ==> u == shifted(digits_value(ds@), s as int),
{
    let n = ds.len();
    let p: i128 = n as i128 + s;
    let c: usize = if p <= 0 {
        0
    } else if p >= n as i128 {
        n
    } else {
        p as usize
    };
    let power: i128 = p - c as i128;
    let ghost value = shifted(digits_value(ds@), s as int);
    let ghost prefix = ds@.take(c as int);
    proof {
        lemma_shifted_prefix(ds@, s as int);
        assert(ds@.subrange(0, c as int) =~= prefix);
        assert forall|i: int| 0 <= i < prefix.len() implies is_digit(#[trigger] prefix[i]) by {
            assert(prefix[i] == ds@[i]);
        }
        lemma_pow10_32();
    }
    let v = capped_value(ds, 0, c);
    if v == 0 {
        assert(digits_value(prefix) == 0);
        assert(value == 0) by (nonlinear_arith)
            requires
                value == digits_value(prefix) * pow10(power as nat),
                digits_value(prefix) == 0,
        ;
        return None;
    }
    assert(power >= 0);
    proof {
        lemma_pow10_monotonic(0, power as nat);
    }
    if v >= VALUE_CAP {
        assert(value >= digits_value(prefix)) by (nonlinear_arith)
            requires
                value == digits_value(prefix) * pow10(power as nat),
                pow10(power as nat) >= 1,
        ;
        return None;
    }
    if power > 31 {
        proof {
            lemma_pow10_monotonic(32, power as nat);
        }
        assert(value >= pow10(power as nat)) by (nonlinear_arith)
            requires
                value == digits_value(prefix) * pow10(power as nat),
                digits_value(prefix) >= 1,
        ;
        return None;
    }
    let mut acc: u128 = v;
    let mut j: i128 = 0;
    assert(pow10(0) == 1);
    assert(v == digits_value(prefix));
    assert(acc == digits_value(prefix) * pow10(0)) by (nonlinear_arith)
        requires
            acc == digits_value(prefix),
            pow10(0) == 1,
    ;
    while j < power
        invariant
            0 <= j <= power <= 31,
            value == shifted(digits_value(ds@), s as int),
            acc == digits_value(prefix) * pow10(j as nat),
            value == digits_value(prefix) * pow10(power as nat),
        decreases power - j,
    {
        proof {
            lemma_pow10_add(j as nat, (power - j) as nat);
            lemma_pow10_monotonic(0, (power - j) as nat);
        }
        if acc > MAX_UNITS {
            assert(value >= acc) by (nonlinear_arith)
                requires
                    value == digits_value(prefix) * pow10(power as nat),
                    acc == digits_value(prefix) * pow10(j as nat),
                    pow10(power as nat) == pow10(j as nat) * pow10((power - j) as nat),
                    pow10((power - j) as nat) >= 1,
            ;
            assert(!in_range(value as int));
            return None;
        }
        assert(pow10((j + 1) as nat) == 10 * pow10(j as nat));
        assert(digits_value(prefix) * pow10((j + 1) as nat) == acc * 10) by (nonlinear_arith)
            requires
                acc == digits_value(prefix) * pow10(j as nat),
                pow10((j + 1) as nat) == 10 * pow10(j as nat),
        ;
        acc = acc * 10;
        j = j + 1;
    }
    Some(acc)
}

/// Reads the exponent `t[from..]`: where it is an optional sign and at
/// least one digit, whether it is negative and its magnitude counted up to
/// [`VALUE_CAP`].
pub(crate) fn read_exponent(t: &Vec<char>, from: usize) -> (r: Option<(bool, u128)>)
    requires
        from <= t@.len(),
    ensures
        r is None <==> !exponent_ok(t@.skip(from as int)),
        r matches Some((negative, magnitude)) ==> {
            let x = t@.skip(from as int);
            &&& negative == (x.len() > 0 && x[0] == '-')
            &&& magnitude == capped(digits_value(x.skip(sign_len(x))))
        },
{
    let n = t.len();
    let ghost x = t@.skip(from as int);
    let negative = from < n && t[from] == '-';
    let mut digits_from = from;
    if from < n && (t[from] == '+' || t[from] == '-') {
        digits_from = from + 1;
    }
    assert(x.skip(sign_len(x)) =~= t@.subrange(digits_from as int, n as int));
    let end = scan_digits(t, digits_from);
    if end < n {
        assert(t@.subrange(digits_from as int, n as int)[end - digits_from] == t@[end as int]);
        return None;
    }
    if end == digits_from {
        return None;
    }
    Some((negative, capped_value(t, digits_from, end)))
}

/// How the mantissa of a numeral ends, given where the scan of its whole
/// digits, of its point and of its fractional digits stopped.
pub(crate) proof fn lemma_mantissa_shape(
    t: Seq<char>,
    whole_end: int,
    frac_start: int,
    frac_end: int,
)
    requires
        sign_len(t) <= whole_end <= t.len(),
        all_digits(t.subrange(sign_len(t), whole_end)),
        whole_end < t.len() ==> !is_digit(t[whole_end]),
        if whole_end < t.len() && t[whole_end] == '.' {
            &&& frac_start == whole_end + 1
            &&& frac_start <= frac_end <= t.len()
            &&& all_digits(t.subrange(frac_start, frac_end))
            &&& frac_end < t.len() ==> !is_digit(t[frac_end])
        } else {
            frac_start == whole_end && frac_end == whole_end
        },
    ensures
        frac_end < t.len() && !is_exponent_mark(t[frac_end]) ==> numeral_units(t) is None,
        frac_end == t.len() || is_exponent_mark(t[frac_end]) ==> ({
            let body = t.skip(sign_len(t));
            &&& first_exponent_mark(body) == frac_end - sign_len(t)
            &&& split_at_point(body.take(frac_end - sign_len(t))) == (
                t.subrange(sign_len(t), whole_end),
                t.subrange(frac_start, frac_end),
            )
        }),
{
    let start = sign_len(t);
    let body = t.skip(start);
    let q = frac_end - start;
    let w = whole_end - start;
    let whole = t.subrange(start, whole_end);
    assert forall|j: int| 0 <= j < q implies !is_exponent_mark(#[trigger] body[j]) by {
        assert(body[j] == t[start + j]);
        if j < w {
            assert(whole[j] == t[start + j]);
            assert(is_digit(whole[j]));
        } else if j > w {
            assert(t.subrange(frac_start, frac_end)[start + j - frac_start] == t[start + j]);
            assert(is_digit(t.subrange(frac_start, frac_end)[start + j - frac_start]));
        }
    }
    lemma_first_exponent_mark(body, q);
    let ep = first_exponent_mark(body) as int;
    let mant = body.take(ep);
    assert forall|j: int| 0 <= j < w implies mant[j] != '.' by {
        assert(mant[j] == t[start + j]);
        assert(whole[j] == t[start + j]);
        assert(is_digit(whole[j]));
    }
    lemma_first_dot(mant, w);
    let fd = first_dot(mant) as int;
    if frac_end == t.len() || is_exponent_mark(t[frac_end]) {
        assert(ep == q);
        assert(mant =~= t.subrange(start, frac_end));
        if whole_end < t.len() && t[whole_end] == '.' {
            assert(mant[w] == '.');
            assert(fd == w);
            assert(mant.take(fd) =~= whole);
            assert(mant.skip(fd + 1) =~= t.subrange(frac_start, frac_end));
        } else {
            assert(fd == mant.len());
            assert(mant.take(fd) =~= whole);
            assert(t.subrange(frac_start, frac_end) =~= Seq::<char>::empty());
        }
    } else {
        assert(ep > q);
        assert(mant[q] == t[frac_end]);
        if whole_end < t.len() && t[whole_end] == '.' {
            assert(mant[w] == '.');
            assert(fd == w);
            let f = mant.skip(fd + 1);
            assert(f[q - w - 1] == t[frac_end]);
        } else {
            assert(q == w);
            assert(mant[q] != '.');
            assert(fd > q);
            assert(mant.take(fd)[q] == t[frac_end]);
        }
    }
}

/// A numeral of digits alone denotes that whole number.
pub(crate) proof fn lemma_numeral_without_point(w: Seq<char>)
    requires
        w.len() >= 1,
        all_digits(w),
    ensures
        numeral_units(w) == Some((digits_value(w) * UNITS_PER_WHOLE) as int),
{
    assert(is_digit(w[0]));
    assert(sign_len(w) == 0);
    assert(w.subrange(0, w.len() as int) =~= w);
    lemma_mantissa_shape(w, w.len() as int, w.len() as int, w.len() as int);
    assert(w.skip(0) =~= w);
    assert(w + w.subrange(w.len() as int, w.len() as int) =~= w);
    lemma_pow10_18();
}

/// A numeral of digits, a point and at most eighteen digits denotes the
/// whole part plus the fraction.
pub(crate) proof fn lemma_numeral_with_point(w: Seq<char>, f: Seq<char>)
    requires
        w.len() >= 1,
        all_digits(w),
        all_digits(f),
        f.len() <= DECIMAL_PLACES,
    ensures
        numeral_units(w + seq!['.'] + f) == Some(
            (digits_value(w) * UNITS_PER_WHOLE + fraction_units(f)) as int,
        ),
{
    let t = w + seq!['.'] + f;
    let n = t.len() as int;
    let we = w.len() as int;
    assert(t[0] == w[0]);
    assert(is_digit(w[0]));
    assert(sign_len(t) == 0);
    assert(t.subrange(0, we) =~= w);
    assert(t.subrange(we + 1, n) =~= f);
    assert(t[we] == '.');
    lemma_mantissa_shape(t, we, we + 1, n);
    assert(t.skip(0) =~= t);
    let k = f.len();
    lemma_digits_value_split(w, f);
    lemma_pow10_add(k, (18 - k) as nat);
    lemma_pow10_18();
    assert(f.take(k as int) =~= f);
    let x = digits_value(w);
    let y = digits_value(f);
    assert((x * pow10(k) + y) * pow10((18 - k) as nat) == x * (pow10(k) * pow10((18 - k) as nat))
        + y * pow10((18 - k) as nat)) by (nonlinear_arith);
    assert((k + (18 - k)) as nat == 18);
}

/// The amount in units that the numeral `t` denotes, where it is a numeral
/// with an amount in the valid range.
#[verifier::rlimit(60)]
pub(crate) fn numeral_to_units(t: &Vec<char>) -> (r: Option<u128>)
    ensures
        numeral_units(t@) is None ==> r is None,
        r matches Some(u) ==> numeral_units(t@) == Some(u as int),
        numeral_units(t@) matches Some(v) ==> (in_range(v) ==> r == Some(v as u128)),
{
    let n = t.len();
    if n > 0 && t[0] == '-' {
        return None;
    }
    let start: usize = if n > 0 && t[0] == '+' {
        1
    } else {
        0
    };
    assert(start == sign_len(t@));
    let whole_end = scan_digits(t, start);
    let mut frac_start = whole_end;
    let mut frac_end = whole_end;
    if whole_end < n && t[whole_end] == '.' {
        frac_start = whole_end + 1;
        frac_end = scan_digits(t, frac_start);
    }
    proof {
        lemma_mantissa_shape(t@, whole_end as int, frac_start as int, frac_end as int);
    }
    if frac_end < n && t[frac_end] != 'e' && t[frac_end] != 'E' {
        return None;
    }
    let ghost body = t@.skip(start as int);
    let ghost whole = t@.subrange(start as int, whole_end as int);
    let ghost fraction = t@.subrange(frac_start as int, frac_end as int);
    let ghost k = fraction.len() as int;
    if whole_end == start && frac_end == frac_start {
        return None;
    }
    let mut ds: Vec<char> = Vec::new();
    push_range(&mut ds, t, start, whole_end);
    push_range(&mut ds, t, frac_start, frac_end);
    assert(ds@ =~= whole + fraction);
    assert forall|i: int| 0 <= i < ds@.len() implies is_digit(#[trigger] ds@[i]) by {
        if i < whole.len() {
            assert(ds@[i] == whole[i]);
        } else {
            assert(ds@[i] == fraction[i - whole.len()]);
        }
    }
    let mut e: i128 = 0;
    if frac_end < n {
        let ghost x = t@.skip(frac_end + 1);
        assert(body.skip(frac_end - start + 1) =~= x);
        match read_exponent(t, frac_end + 1) {
            None => {
                return None;
            },
            Some((negative, magnitude)) => {
                if magnitude >= VALUE_CAP {
                    proof {
                        let ev = exponent_value(x);
                        let s = ev - k + 18;
                        if negative {
                            assert(s <= -(ds@.len() as int));
                        } else {
                            assert(s >= 32);
                        }
                        lemma_shifted_far(ds@, s);
                        lemma_pow10_32();
                    }
                    return None;
                }
                e = if negative {
                    -(magnitude as i128)
                } else {
                    magnitude as i128
                };
            },
        }
    }
    shifted_units(&ds, e - (frac_end - frac_start) as i128 + 18)
}

pub(crate) proof fn lemma_digit_char(d: int)
    requires
        0 <= d < 10,
    ensures
        is_digit(digit_char(d)),
        (digit_char(d) as u32) - ('0' as u32) == d,
{
}

/// A decimal numeral is made of digits and denotes its number.
pub proof fn lemma_decimal_value(n: nat)
    ensures
        all_digits(decimal(n)),
        digits_value(decimal(n)) == n,
        decimal(n).len() >= 1,
    decreases n,
{
    if n >= 10 {
        lemma_decimal_value(n / 10);
        lemma_digit_char((n % 10) as int);
        lemma_digits_value_push(decimal(n / 10), digit_char((n % 10) as int));
        let d = decimal(n);
        assert forall|i: int| 0 <= i < d.len() implies is_digit(#[trigger] d[i]) by {
            if i < d.len() - 1 {
                assert(d[i] == decimal(n / 10)[i]);
            }
        }
    } else {
        lemma_digit_char(n as int);
        lemma_digits_value_push(Seq::<char>::empty(), digit_char(n as int));
        assert(Seq::<char>::empty().push(digit_char(n as int)) =~= decimal(n));
        assert(digits_value(Seq::<char>::empty()) == 0);
    }
}

pub(crate) proof fn lemma_zeros_then_digits(z: Seq<char>, s: Seq<char>)
    requires
        forall|i: int| 0 <= i < z.len() ==> #[trigger] z[i] == '0',
        all_digits(s),
    ensures
        all_digits(z + s),
        digits_value(z + s) == digits_value(s),
    decreases z.len() + s.len(),
{
    if s.len() == 0 {
        assert(z + s =~= z);
        if z.len() > 0 {
            lemma_zeros_then_digits(z.drop_last(), s);
            assert(z.drop_last() + s =~= z.drop_last());
        }
    } else {
        lemma_zeros_then_digits(z, s.drop_last());
        assert((z + s).drop_last() =~= z + s.drop_last());
    }
    assert forall|i: int| 0 <= i < (z + s).len() implies is_digit(#[trigger] (z + s)[i]) by {
        if i >= z.len() {
            assert((z + s)[i] == s[i - z.len()]);
        }
    }
}

/// A numeral padded with zeros denotes the same number.
pub proof fn lemma_zero_pad_value(s: Seq<char>, width: nat)
    requires
        all_digits(s),
    ensures
        all_digits(zero_pad(s, width)),
        digits_value(zero_pad(s, width)) == digits_value(s),
        zero_pad(s, width).len() == if s.len() >= width {
            s.len()
        } else {
            width
        },
{
    if s.len() < width {
        let z = Seq::new((width - s.len()) as nat, |i: int| '0');
        lemma_zeros_then_digits(z, s);
    }
}

/// A string without separators is left as it is.
pub proof fn lemma_strip_without_separators(s: Seq<char>)
    requires
        forall|i: int| 0 <= i < s.len() ==> !is_separator(#[trigger] s[i]),
    ensures
        strip_separators(s) == s,
    decreases s.len(),
{
    if s.len() > 0 {
        lemma_strip_without_separators(s.drop_last());
        assert(s.drop_last().push(s.last()) =~= s);
    }
}

} // verus!
