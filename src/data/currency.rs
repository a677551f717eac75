//! Currency codes and bounded currency amounts.
use vstd::prelude::*;

use crate::error::Error;
use crate::numeral::{
    all_digits, digits_value, fraction_units, is_digit, is_separator, lemma_decimal_value,
    lemma_numeral_with_point, lemma_numeral_without_point,
    lemma_pow10_18, lemma_pow10_add, lemma_pow10_monotonic, lemma_strip_without_separators, lemma_zero_pad_value,
    numeral_to_units, numeral_units, pow10, sign_len, strip_separators, without_separators,
};
use crate::text::{decimal, digit_char, push_char, push_decimal, push_padded, zero_pad};

verus! {

/// A currency code (ISO 4217) as used by the exchange-rate service.
///
/// [`Currency::Other`] holds any other code, such as a historical one (for
/// instance `ESP`, the Spanish peseta), for which older rates exist.
/// Two currencies are equal when their codes are.
#[allow(clippy::upper_case_acronyms)]
#[derive(Debug)]
pub enum Currency {
    AUD,
    BGN,
    BRL,
    CAD,
    CHF,
    CNY,
    CZK,
    DKK,
    EUR,
    GBP,
    HKD,
    HUF,
    IDR,
    ILS,
    INR,
    ISK,
    JPY,
    KRW,
    MXN,
    MYR,
    NOK,
    NZD,
    PHP,
    PLN,
    RON,
    SEK,
    SGD,
    THB,
    TRY,
    USD,
    ZAR,
    /// Support for other currency codes than the ones listed above.
    Other(String),
}

/// A string of three characters.
fn code3(a: char, b: char, c: char) -> (r: String)
    ensures
        r@ == seq![a, b, c],
{
    let mut s = String::new();
    push_char(&mut s, a);
    push_char(&mut s, b);
    push_char(&mut s, c);
    assert(s@ =~= seq![a, b, c]);
    s
}

impl Currency {
    /// The code of the currency.
    pub open spec fn code_view(self) -> Seq<char> {
        match self {
            Currency::AUD => seq!['A', 'U', 'D'],
            Currency::BGN => seq!['B', 'G', 'N'],
            Currency::BRL => seq!['B', 'R', 'L'],
            Currency::CAD => seq!['C', 'A', 'D'],
            Currency::CHF => seq!['C', 'H', 'F'],
            Currency::CNY => seq!['C', 'N', 'Y'],
            Currency::CZK => seq!['C', 'Z', 'K'],
            Currency::DKK => seq!['D', 'K', 'K'],
            Currency::EUR => seq!['E', 'U', 'R'],
            Currency::GBP => seq!['G', 'B', 'P'],
            Currency::HKD => seq!['H', 'K', 'D'],
            Currency::HUF => seq!['H', 'U', 'F'],
            Currency::IDR => seq!['I', 'D', 'R'],
            Currency::ILS => seq!['I', 'L', 'S'],
            Currency::INR => seq!['I', 'N', 'R'],
            Currency::ISK => seq!['I', 'S', 'K'],
            Currency::JPY => seq!['J', 'P', 'Y'],
            Currency::KRW => seq!['K', 'R', 'W'],
            Currency::MXN => seq!['M', 'X', 'N'],
            Currency::MYR => seq!['M', 'Y', 'R'],
            Currency::NOK => seq!['N', 'O', 'K'],
            Currency::NZD => seq!['N', 'Z', 'D'],
            Currency::PHP => seq!['P', 'H', 'P'],
            Currency::PLN => seq!['P', 'L', 'N'],
            Currency::RON => seq!['R', 'O', 'N'],
            Currency::SEK => seq!['S', 'E', 'K'],
            Currency::SGD => seq!['S', 'G', 'D'],
            Currency::THB => seq!['T', 'H', 'B'],
            Currency::TRY => seq!['T', 'R', 'Y'],
            Currency::USD => seq!['U', 'S', 'D'],
            Currency::ZAR => seq!['Z', 'A', 'R'],
            Currency::Other(code) => code@,
        }
    }

    /// Whether the code is as the service writes codes: not empty, and
    /// without lower-case ASCII letters.
    pub open spec fn is_canonical(self) -> bool {
        self.code_view().len() > 0 && ascii_upper(self.code_view()) == self.code_view()
    }

    /// The currency that the API assumes where a request names none.
    pub open spec fn spec_default() -> Currency {
        Currency::EUR
    }

    /// The canonical code of the currency, e.g. `"AUD"`.
    pub fn code(&self) -> (r: String)
        ensures
            r@ == self.code_view(),
    {
        match self {
            Currency::AUD => code3('A', 'U', 'D'),
            Currency::BGN => code3('B', 'G', 'N'),
            Currency::BRL => code3('B', 'R', 'L'),
            Currency::CAD => code3('C', 'A', 'D'),
            Currency::CHF => code3('C', 'H', 'F'),
            Currency::CNY => code3('C', 'N', 'Y'),
            Currency::CZK => code3('C', 'Z', 'K'),
            Currency::DKK => code3('D', 'K', 'K'),
            Currency::EUR => code3('E', 'U', 'R'),
            Currency::GBP => code3('G', 'B', 'P'),
            Currency::HKD => code3('H', 'K', 'D'),
            Currency::HUF => code3('H', 'U', 'F'),
            Currency::IDR => code3('I', 'D', 'R'),
            Currency::ILS => code3('I', 'L', 'S'),
            Currency::INR => code3('I', 'N', 'R'),
            Currency::ISK => code3('I', 'S', 'K'),
            Currency::JPY => code3('J', 'P', 'Y'),
            Currency::KRW => code3('K', 'R', 'W'),
            Currency::MXN => code3('M', 'X', 'N'),
            Currency::MYR => code3('M', 'Y', 'R'),
            Currency::NOK => code3('N', 'O', 'K'),
            Currency::NZD => code3('N', 'Z', 'D'),
            Currency::PHP => code3('P', 'H', 'P'),
            Currency::PLN => code3('P', 'L', 'N'),
            Currency::RON => code3('R', 'O', 'N'),
            Currency::SEK => code3('S', 'E', 'K'),
            Currency::SGD => code3('S', 'G', 'D'),
            Currency::THB => code3('T', 'H', 'B'),
            Currency::TRY => code3('T', 'R', 'Y'),
            Currency::USD => code3('U', 'S', 'D'),
            Currency::ZAR => code3('Z', 'A', 'R'),
            Currency::Other(code) => code.clone(),
        }
    }

    /// Whether two currencies have the same code.
    pub fn same_code(&self, other: &Currency) -> (r: bool)
        ensures
            r == (self.code_view() == other.code_view()),
    {
        let a = self.code();
        let b = other.code();
        a == b
    }
}

/// The ASCII upper case of a character; other characters are kept.
pub open spec fn ascii_upper_char(c: char) -> char {
    if 'a' <= c && c <= 'z' {
        ((c as u32) - 32) as char
    } else {
        c
    }
}

/// The ASCII upper case of a string.
pub open spec fn ascii_upper(s: Seq<char>) -> Seq<char> {
    s.map_values(|c: char| ascii_upper_char(c))
}

/// Whether `code` is the code of one of the listed currencies.
pub open spec fn is_known_code(code: Seq<char>) -> bool {
    exists|k: Currency| k !is Other && #[trigger] k.code_view() == code
}

fn upper_char(c: char) -> (r: char)
    ensures
        r == ascii_upper_char(c),
{
    if 'a' <= c && c <= 'z' {
        ((c as u32 - 32) as u8) as char
    } else {
        c
    }
}

/// The ASCII upper case of `s`.
fn to_ascii_upper(s: &str) -> (r: String)
    ensures
        r@ == ascii_upper(s@),
{
    let n = s.unicode_len();
    let mut r = String::new();
    let mut i: usize = 0;
    while i < n
        invariant
            n == s@.len(),
            i <= n,
            r@ == ascii_upper(s@.take(i as int)),
        decreases n - i,
    {
        let c = s.get_char(i);
        push_char(&mut r, upper_char(c));
        assert(s@.take(i + 1) =~= s@.take(i as int).push(c));
        i = i + 1;
    }
    assert(s@.take(n as int) =~= s@);
    r
}

/// The listed currency whose code is `a b c`, if any.
fn known_currency(a: char, b: char, c: char) -> (r: Option<Currency>)
    ensures
        r matches Some(k) ==> k !is Other && k.code_view() == seq![a, b, c],
        r is None ==> !is_known_code(seq![a, b, c]),
{
    match (a, b, c) {
        ('A', 'U', 'D') => Some(Currency::AUD),
        ('B', 'G', 'N') => Some(Currency::BGN),
        ('B', 'R', 'L') => Some(Currency::BRL),
        ('C', 'A', 'D') => Some(Currency::CAD),
        ('C', 'H', 'F') => Some(Currency::CHF),
        ('C', 'N', 'Y') => Some(Currency::CNY),
        ('C', 'Z', 'K') => Some(Currency::CZK),
        ('D', 'K', 'K') => Some(Currency::DKK),
        ('E', 'U', 'R') => Some(Currency::EUR),
        ('G', 'B', 'P') => Some(Currency::GBP),
        ('H', 'K', 'D') => Some(Currency::HKD),
        ('H', 'U', 'F') => Some(Currency::HUF),
        ('I', 'D', 'R') => Some(Currency::IDR),
        ('I', 'L', 'S') => Some(Currency::ILS),
        ('I', 'N', 'R') => Some(Currency::INR),
        ('I', 'S', 'K') => Some(Currency::ISK),
        ('J', 'P', 'Y') => Some(Currency::JPY),
        ('K', 'R', 'W') => Some(Currency::KRW),
        ('M', 'X', 'N') => Some(Currency::MXN),
        ('M', 'Y', 'R') => Some(Currency::MYR),
        ('N', 'O', 'K') => Some(Currency::NOK),
        ('N', 'Z', 'D') => Some(Currency::NZD),
        ('P', 'H', 'P') => Some(Currency::PHP),
        ('P', 'L', 'N') => Some(Currency::PLN),
        ('R', 'O', 'N') => Some(Currency::RON),
        ('S', 'E', 'K') => Some(Currency::SEK),
        ('S', 'G', 'D') => Some(Currency::SGD),
        ('T', 'H', 'B') => Some(Currency::THB),
        ('T', 'R', 'Y') => Some(Currency::TRY),
        ('U', 'S', 'D') => Some(Currency::USD),
        ('Z', 'A', 'R') => Some(Currency::ZAR),
        _ => None,
    }
}

impl Currency {
    /// Reads a currency code, ignoring ASCII case.
    ///
    /// A code of a listed currency gives that currency; any other non-empty
    /// code gives [`Currency::Other`] holding it in upper case. Only the empty
    /// string is refused.
    pub fn parse(code: &str) -> (r: Option<Currency>)
        ensures
            r is None <==> code@.len() == 0,
            r matches Some(c) ==> {
                &&& c.code_view() == ascii_upper(code@)
                &&& (c is Other <==> !is_known_code(ascii_upper(code@)))
            },
    {
        let upper = to_ascii_upper(code);
        let n = upper.as_str().unicode_len();
        if n == 0 {
            return None;
        }
        if n == 3 {
            let a = upper.as_str().get_char(0);
            let b = upper.as_str().get_char(1);
            let c = upper.as_str().get_char(2);
            assert(upper@ =~= seq![a, b, c]);
            if let Some(k) = known_currency(a, b, c) {
                return Some(k);
            }
        } else {
            assert forall|k: Currency| k !is Other implies #[trigger] k.code_view() != upper@ by {
                assert(k.code_view().len() == 3);
            }
        }
        Some(Currency::Other(upper))
    }
}


impl Clone for Currency {
    fn clone(&self) -> (r: Self)
        ensures
            r == *self,
    {
        match self {
            Currency::AUD => Currency::AUD,
            Currency::BGN => Currency::BGN,
            Currency::BRL => Currency::BRL,
            Currency::CAD => Currency::CAD,
            Currency::CHF => Currency::CHF,
            Currency::CNY => Currency::CNY,
            Currency::CZK => Currency::CZK,
            Currency::DKK => Currency::DKK,
            Currency::EUR => Currency::EUR,
            Currency::GBP => Currency::GBP,
            Currency::HKD => Currency::HKD,
            Currency::HUF => Currency::HUF,
            Currency::IDR => Currency::IDR,
            Currency::ILS => Currency::ILS,
            Currency::INR => Currency::INR,
            Currency::ISK => Currency::ISK,
            Currency::JPY => Currency::JPY,
            Currency::KRW => Currency::KRW,
            Currency::MXN => Currency::MXN,
            Currency::MYR => Currency::MYR,
            Currency::NOK => Currency::NOK,
            Currency::NZD => Currency::NZD,
            Currency::PHP => Currency::PHP,
            Currency::PLN => Currency::PLN,
            Currency::RON => Currency::RON,
            Currency::SEK => Currency::SEK,
            Currency::SGD => Currency::SGD,
            Currency::THB => Currency::THB,
            Currency::TRY => Currency::TRY,
            Currency::USD => Currency::USD,
            Currency::ZAR => Currency::ZAR,
            Currency::Other(code) => Currency::Other(code.clone()),
        }
    }
}

impl PartialEq for Currency {
    fn eq(&self, other: &Currency) -> (r: bool) {
        self.same_code(other)
    }
}

impl vstd::std_specs::cmp::PartialEqSpecImpl for Currency {
    open spec fn obeys_eq_spec() -> bool {
        true
    }

    open spec fn eq_spec(&self, other: &Currency) -> bool {
        self.code_view() == other.code_view()
    }
}

impl Eq for Currency {}

impl Default for Currency {
    fn default() -> (r: Self)
        ensures
            r == Currency::spec_default(),
    {
        Currency::EUR
    }
}

/// Amounts are held exactly, as whole numbers of this fraction of a unit:
/// eighteen decimal places.
pub const UNITS_PER_WHOLE: u128 = 1_000_000_000_000_000_000;

/// The number of decimal places that an amount keeps.
pub const DECIMAL_PLACES: u64 = 18;

/// The smallest valid amount, 0.01, in units.
pub const MIN_UNITS: u128 = 10_000_000_000_000_000;

/// The largest valid amount, 1_000_000_000_000.0, in units.
pub const MAX_UNITS: u128 = 1_000_000_000_000_000_000_000_000_000_000;

/// Units in one hundredth, the precision of the displayed amount.
pub const UNITS_PER_HUNDREDTH: u128 = 10_000_000_000_000_000;

/// Whether an amount in units lies in the valid range.
pub open spec fn in_range(units: int) -> bool {
    MIN_UNITS <= units <= MAX_UNITS
}

/// An amount in units, rounded to hundredths, ties to the even hundredth.
pub open spec fn round_to_hundredths(units: nat) -> nat {
    let q = units / (UNITS_PER_HUNDREDTH as nat);
    let r = units % (UNITS_PER_HUNDREDTH as nat);
    if r * 2 > UNITS_PER_HUNDREDTH || (r * 2 == UNITS_PER_HUNDREDTH && q % 2 == 1) {
        q + 1
    } else {
        q
    }
}

/// The text of an amount with exactly two decimal places.
pub open spec fn two_places_text(units: nat) -> Seq<char> {
    let h = round_to_hundredths(units);
    decimal(h / 100) + seq!['.'] + zero_pad(decimal(h % 100), 2)
}

/// The number of zeros that end the decimal numeral of a positive `n`.
pub open spec fn trailing_zeros(n: nat) -> nat
    decreases n,
{
    if n > 0 && n % 10 == 0 {
        1 + trailing_zeros(n / 10)
    } else {
        0
    }
}

/// The exact text of an amount: its whole part, then, where the amount is
/// not whole, a point and the fractional digits without trailing zeros.
pub open spec fn exact_text(units: nat) -> Seq<char> {
    let whole = units / (UNITS_PER_WHOLE as nat);
    let f = units % (UNITS_PER_WHOLE as nat);
    if f == 0 {
        decimal(whole)
    } else {
        let z = trailing_zeros(f);
        decimal(whole) + seq!['.'] + zero_pad(
            decimal(f / pow10(z)),
            (DECIMAL_PLACES - z) as nat,
        )
    }
}

/// The number of zeros that end `f`, with `f` divided by ten that often.
fn strip_trailing_zeros(f: u128) -> (r: (u128, usize))
    requires
        0 < f < UNITS_PER_WHOLE,
    ensures
        r.1 == trailing_zeros(f as nat),
        r.1 < DECIMAL_PLACES,
        r.0 == f as nat / pow10(r.1 as nat),
{
    let mut g = f;
    let mut z: usize = 0;
    assert(pow10(0) == 1);
    proof {
        lemma_pow10_18();
    }
    while g % 10 == 0
        invariant
            0 < g <= f,
            g * pow10(z as nat) == f,
            trailing_zeros(f as nat) == z + trailing_zeros(g as nat),
            f < pow10(18),
            z < 18,
        decreases g,
    {
        proof {
            assert(g / 10 * 10 == g);
            assert((g / 10) * pow10((z + 1) as nat) == f) by (nonlinear_arith)
                requires
                    g * pow10(z as nat) == f,
                    g / 10 * 10 == g,
                    pow10((z + 1) as nat) == 10 * pow10(z as nat),
            ;
            assert(pow10((z + 1) as nat) <= f) by (nonlinear_arith)
                requires
                    (g / 10) * pow10((z + 1) as nat) == f,
                    g / 10 >= 1,
            ;
            if z + 1 >= 18 {
                lemma_pow10_monotonic(18, (z + 1) as nat);
            }
        }
        g = g / 10;
        z = z + 1;
    }
    proof {
        assert(f as nat / pow10(z as nat) == g) by (nonlinear_arith)
            requires
                g * pow10(z as nat) == f,
                pow10(z as nat) >= 1,
        ;
        lemma_pow10_monotonic(0, z as nat);
    }
    (g, z)
}

/// The exact text of an amount in units.
fn exact_text_of(units: u128) -> (r: String)
    ensures
        r@ == exact_text(units as nat),
{
    let whole = units / UNITS_PER_WHOLE;
    let f = units % UNITS_PER_WHOLE;
    let mut s = String::new();
    push_decimal(&mut s, whole);
    if f != 0 {
        let (g, z) = strip_trailing_zeros(f);
        push_char(&mut s, '.');
        push_padded(&mut s, g, 18 - z);
    }
    assert(s@ =~= exact_text(units as nat));
    s
}

/// The text of an amount with two decimal places reads back as the amount
/// rounded to the hundredth.
pub proof fn lemma_two_places_read_back(units: nat)
    ensures
        numeral_units(strip_separators(two_places_text(units))) == Some(
            (round_to_hundredths(units) * UNITS_PER_HUNDREDTH) as int,
        ),
{
    let h = round_to_hundredths(units);
    let w = decimal(h / 100);
    let f = zero_pad(decimal(h % 100), 2);
    let t = two_places_text(units);
    lemma_decimal_value(h / 100);
    lemma_decimal_value(h % 100);
    lemma_zero_pad_value(decimal(h % 100), 2);
    assert(decimal(h % 100).len() <= 2) by {
        if h % 100 >= 10 {
            assert(decimal((h % 100) / 10) == seq![digit_char(((h % 100) / 10) as int)]);
        }
    }
    assert(t == w + seq!['.'] + f);
    assert forall|i: int| 0 <= i < t.len() implies !is_separator(#[trigger] t[i]) by {
        if i < w.len() {
            assert(t[i] == w[i]);
        } else if i > w.len() {
            assert(t[i] == f[i - w.len() - 1]);
        }
    }
    lemma_strip_without_separators(t);
    assert(sign_len(t) == 0) by {
        assert(t[0] == w[0]);
    }
    assert(t.subrange(0, w.len() as int) =~= w);
    assert(t.subrange(w.len() + 1int, t.len() as int) =~= f);
    lemma_numeral_with_point(w, f);
    assert(f.take(2) =~= f);
    reveal_with_fuel(pow10, 17);
    assert(fraction_units(f) == (h % 100) * 10_000_000_000_000_000);
    assert(h / 100 * 1_000_000_000_000_000_000 + (h % 100) * 10_000_000_000_000_000 == h
        * 10_000_000_000_000_000) by (nonlinear_arith);
}

proof fn lemma_decimal_len_bound(n: nat, k: nat)
    requires
        k >= 1,
        n < pow10(k),
    ensures
        decimal(n).len() <= k,
    decreases n,
{
    if n >= 10 {
        if k == 1 {
            assert(pow10(1) == 10 * pow10(0));
        } else {
            assert(pow10(k) == 10 * pow10((k - 1) as nat));
            lemma_decimal_len_bound(n / 10, (k - 1) as nat);
        }
    }
}

proof fn lemma_trailing_zeros_divide(f: nat)
    requires
        f > 0,
    ensures
        (f / pow10(trailing_zeros(f))) * pow10(trailing_zeros(f)) == f,
        pow10(trailing_zeros(f)) <= f,
    decreases f,
{
    if f % 10 == 0 {
        let h = f / 10;
        lemma_trailing_zeros_divide(h);
        let p = pow10(trailing_zeros(h));
        let q = h / p;
        assert(pow10(trailing_zeros(f)) == 10 * p);
        lemma_pow10_monotonic(0, trailing_zeros(h));
        assert(f == q * (10 * p)) by (nonlinear_arith)
            requires
                q * p == h,
                f == h * 10,
        ;
        assert(f / (10 * p) == q) by (nonlinear_arith)
            requires
                f == q * (10 * p),
                p > 0,
        ;
        assert(10 * p <= f) by (nonlinear_arith)
            requires
                p <= h,
                f == h * 10,
        ;
        assert(trailing_zeros(f) == 1 + trailing_zeros(h));
        assert((f / (10 * p)) * (10 * p) == f);
    } else {
        assert(trailing_zeros(f) == 0);
        assert(pow10(0) == 1);
        assert(f / 1 == f);
    }
}

/// The exact text of an amount reads back as that amount.
pub proof fn lemma_exact_text_read_back(units: nat)
    ensures
        numeral_units(strip_separators(exact_text(units))) == Some(units as int),
{
    let whole = units / (UNITS_PER_WHOLE as nat);
    let f = units % (UNITS_PER_WHOLE as nat);
    let w = decimal(whole);
    let t = exact_text(units);
    lemma_decimal_value(whole);
    lemma_pow10_18();
    if f == 0 {
        assert forall|i: int| 0 <= i < t.len() implies !is_separator(#[trigger] t[i]) by {
            assert(is_digit(w[i]));
        }
        lemma_strip_without_separators(t);
        assert(sign_len(t) == 0) by {
            assert(is_digit(t[0]));
        }
        assert(t.subrange(0, t.len() as int) =~= t);
        lemma_numeral_without_point(w);
    } else {
        let z = trailing_zeros(f);
        let p = pow10(z);
        let g = f / p;
        lemma_trailing_zeros_divide(f);
        if z >= 18 {
            lemma_pow10_monotonic(18, z);
        }
        let width = (DECIMAL_PLACES - z) as nat;
        lemma_pow10_add(width, z);
        assert(g < pow10(width)) by (nonlinear_arith)
            requires
                g * p == f,
                f < pow10(18),
                pow10(18) == pow10(width) * p,
                p > 0,
        ;
        lemma_decimal_value(g);
        lemma_decimal_len_bound(g, width);
        lemma_zero_pad_value(decimal(g), width);
        let fr = zero_pad(decimal(g), width);
        assert(t == w + seq!['.'] + fr);
        assert forall|i: int| 0 <= i < t.len() implies !is_separator(#[trigger] t[i]) by {
            if i < w.len() {
                assert(t[i] == w[i]);
                assert(is_digit(w[i]));
            } else if i > w.len() {
                assert(t[i] == fr[i - w.len() - 1]);
                assert(is_digit(fr[i - w.len() - 1]));
            }
        }
        lemma_strip_without_separators(t);
        assert(sign_len(t) == 0) by {
            assert(t[0] == w[0]);
            assert(is_digit(w[0]));
        }
        assert(t.subrange(0, w.len() as int) =~= w);
        assert(t.subrange(w.len() + 1int, t.len() as int) =~= fr);
        lemma_numeral_with_point(w, fr);
        assert(fr.take(width as int) =~= fr);
        assert(fraction_units(fr) == g * p);
        assert(units == whole * UNITS_PER_WHOLE + f);
    }
}

/// The displayed text of a valid amount is digits, a point and two digits,
/// and the amount it shows lies within half a hundredth of the amount.
pub proof fn lemma_display_within_half_hundredth(units: nat)
    requires
        in_range(units as int),
    ensures
        ({
            let text = two_places_text(units);
            let whole = decimal(round_to_hundredths(units) / 100);
            let shown = round_to_hundredths(units) * UNITS_PER_HUNDREDTH;
            &&& text.len() == whole.len() + 3
            &&& all_digits(whole) && whole.len() >= 1
            &&& text[whole.len() as int] == '.'
            &&& is_digit(text[whole.len() + 1int]) && is_digit(text[whole.len() + 2int])
            &&& shown <= units + UNITS_PER_HUNDREDTH / 2
            &&& units <= shown + UNITS_PER_HUNDREDTH / 2
        }),
{
    let h = round_to_hundredths(units);
    let w = decimal(h / 100);
    let f = zero_pad(decimal(h % 100), 2);
    lemma_decimal_value(h / 100);
    lemma_decimal_value(h % 100);
    lemma_zero_pad_value(decimal(h % 100), 2);
    assert(decimal(h % 100).len() <= 2) by {
        if h % 100 >= 10 {
            assert(decimal((h % 100) / 10) == seq![digit_char(((h % 100) / 10) as int)]);
        }
    }
    let text = two_places_text(units);
    assert(text == w + seq!['.'] + f);
    assert(text[w.len() + 1int] == f[0]);
    assert(text[w.len() + 2int] == f[1]);
    let q = units / (UNITS_PER_HUNDREDTH as nat);
    let r = units % (UNITS_PER_HUNDREDTH as nat);
    assert(units == q * UNITS_PER_HUNDREDTH + r);
}

/// Rounding a valid amount to the hundredth keeps it valid.
pub proof fn lemma_rounded_in_range(units: nat)
    requires
        in_range(units as int),
    ensures
        in_range((round_to_hundredths(units) * UNITS_PER_HUNDREDTH) as int),
{
    let q = units / (UNITS_PER_HUNDREDTH as nat);
    let r = units % (UNITS_PER_HUNDREDTH as nat);
    assert(units == q * UNITS_PER_HUNDREDTH + r);
    assert(q >= 1) by (nonlinear_arith)
        requires
            units == q * 10_000_000_000_000_000 + r,
            r < 10_000_000_000_000_000,
            units >= 10_000_000_000_000_000,
    ;
    assert(q <= 100_000_000_000_000) by (nonlinear_arith)
        requires
            units == q * 10_000_000_000_000_000 + r,
            r >= 0,
            units <= 1_000_000_000_000_000_000_000_000_000_000,
    ;
    if q == 100_000_000_000_000 {
        assert(r == 0);
    }
}

/// A valid amount of a currency, between 0.01 and 1_000_000_000_000 inclusive.
///
/// The amount is held exactly, to eighteen decimal places, so that the
/// bounds themselves are valid and anything below or above them is not.
/// It is displayed with exactly two decimal places.
#[derive(Clone, Copy, Debug, PartialEq, Eq, PartialOrd, Ord, Hash)]
pub struct CurrencyValue {
    units: u128,
}

impl CurrencyValue {
    #[verifier::type_invariant]
    spec fn is_bounded(self) -> bool {
        in_range(self.units as int)
    }

    /// The amount in units of 10^-18.
    pub closed spec fn view(self) -> nat {
        self.units as nat
    }

    /// The amount in units of 10^-18.
    pub fn units(&self) -> (r: u128)
        ensures
            r == self.view(),
            in_range(r as int),
    {
        proof {
            use_type_invariant(self);
        }
        self.units
    }

    /// The smallest valid amount, 0.01.
    pub fn min() -> (r: CurrencyValue)
        ensures
            r.view() == MIN_UNITS,
    {
        CurrencyValue { units: MIN_UNITS }
    }

    /// The largest valid amount, 1_000_000_000_000.
    pub fn max() -> (r: CurrencyValue)
        ensures
            r.view() == MAX_UNITS,
    {
        CurrencyValue { units: MAX_UNITS }
    }

    /// The amount of `units` (of 10^-18), where it lies in the valid range;
    /// else [`Error::InvalidCurrencyValue`] with the amount's exact text.
    pub fn from_units(units: u128) -> (r: Result<CurrencyValue, Error>)
        ensures
            in_range(units as int) ==> (r matches Ok(v) && v.view() == units),
            !in_range(units as int) ==> (r matches Err(Error::InvalidCurrencyValue(m)) && m@
                == exact_text(units as nat)),
    {
        if MIN_UNITS <= units && units <= MAX_UNITS {
            Ok(CurrencyValue { units })
        } else {
            Err(Error::InvalidCurrencyValue(exact_text_of(units)))
        }
    }

    /// Reads an amount from a decimal numeral, ignoring the thousands
    /// separators `,` and `_` wherever they stand.
    ///
    /// What remains is read as a floating-point numeral is read: an optional
    /// sign, digits with at most one decimal point, and an optional exponent
    /// (`"1,000.5"`, `"1_000"`, `".5"`, `"1e3"`, `"2.5E-1"`). The amount is
    /// exact; digits past its eighteenth decimal place are dropped. A string that is no such numeral,
    /// or whose amount lies outside the valid range, gives
    /// [`Error::InvalidCurrencyValue`] with the string.
    pub fn parse(s: &str) -> (r: Result<CurrencyValue, Error>)
        ensures
            (match numeral_units(strip_separators(s@)) {
                Some(v) => in_range(v),
                None => false,
            }) ==> (r matches Ok(c) && numeral_units(strip_separators(s@)) == Some(
                c.view() as int,
            )),
            !(match numeral_units(strip_separators(s@)) {
                Some(v) => in_range(v),
                None => false,
            }) ==> (r matches Err(Error::InvalidCurrencyValue(m)) && m@ == s@),
    {
        let stripped = without_separators(s);
        match numeral_to_units(&stripped) {
            Some(units) => {
                if MIN_UNITS <= units && units <= MAX_UNITS {
                    Ok(CurrencyValue { units })
                } else {
                    Err(Error::InvalidCurrencyValue(s.to_string()))
                }
            },
            None => Err(Error::InvalidCurrencyValue(s.to_string())),
        }
    }

    /// The amount with exactly two decimal places, rounded to the nearest
    /// hundredth and, on a tie, to the even one: `1.005` gives `"1.00"`,
    /// `1.015` gives `"1.02"`.
    pub fn to_display_string(&self) -> (r: String)
        ensures
            r@ == two_places_text(self.view()),
    {
        proof {
            use_type_invariant(self);
        }
        let q = self.units / UNITS_PER_HUNDREDTH;
        let rem = self.units % UNITS_PER_HUNDREDTH;
        let h = if rem * 2 > UNITS_PER_HUNDREDTH || (rem * 2 == UNITS_PER_HUNDREDTH && q % 2 == 1) {
            q + 1
        } else {
            q
        };
        assert(h <= 100_000_000_000_000u128);
        let mut s = String::new();
        push_decimal(&mut s, h / 100);
        push_char(&mut s, '.');
        push_padded(&mut s, h % 100, 2);
        assert(s@ =~= two_places_text(self.view()));
        s
    }

    /// The exact amount as a decimal numeral, e.g. `"1000"` or `"0.012345"`.
    pub fn to_exact_string(&self) -> (r: String)
        ensures
            r@ == exact_text(self.view()),
    {
        exact_text_of(self.units)
    }
}

} // verus!
