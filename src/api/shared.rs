//! Validation and query parameters shared by the convert and period requests.
use vstd::prelude::*;

use crate::data::currency::{
    ascii_upper, in_range, lemma_rounded_in_range, lemma_two_places_read_back,
    round_to_hundredths, two_places_text, Currency, CurrencyValue, UNITS_PER_HUNDREDTH,
};
use crate::numeral::{numeral_units, strip_separators};
use crate::error::Error;
use crate::text::push_char;

verus! {

/// The base currency that the service assumes: the one given, else EUR.
pub open spec fn effective_base(base: Option<Currency>) -> Currency {
    match base {
        Some(b) => b,
        None => Currency::EUR,
    }
}

/// Whether one of `targets` has the code of `c`.
pub open spec fn includes_code(targets: Seq<Currency>, c: Currency) -> bool {
    exists|i: int| 0 <= i < targets.len() && #[trigger] targets[i].code_view() == c.code_view()
}

/// Whether `r` is the error for targets `targets` that include the base `base`.
pub open spec fn is_targets_include_base<T>(
    r: Result<T, Error>,
    base: Currency,
    targets: Seq<Currency>,
) -> bool {
    r matches Err(Error::RequestTargetsIncludeBase { base: b, targets: t }) && b == base && t@
        == targets
}

/// Whether base and targets may be sent together: where targets are given,
/// none of them is the effective base (EUR when no base is given, since the
/// service then converts from EUR and refuses EUR as a target).
pub open spec fn targets_exclude_base(base: Option<Currency>, targets: Option<Vec<Currency>>) -> bool {
    match targets {
        Some(t) => !includes_code(t@, effective_base(base)),
        None => true,
    }
}

/// The key of the amount parameter.
pub open spec fn amount_key() -> Seq<char> {
    seq!['a', 'm', 'o', 'u', 'n', 't']
}

/// The key of the base parameter.
pub open spec fn base_key() -> Seq<char> {
    seq!['b', 'a', 's', 'e']
}

/// The key of the targets parameter.
pub open spec fn symbols_key() -> Seq<char> {
    seq!['s', 'y', 'm', 'b', 'o', 'l', 's']
}

/// The codes of `targets`, joined by `,`.
pub open spec fn joined_codes(targets: Seq<Currency>) -> Seq<char>
    decreases targets.len(),
{
    if targets.len() == 0 {
        Seq::empty()
    } else if targets.len() == 1 {
        targets[0].code_view()
    } else {
        joined_codes(targets.drop_last()) + seq![','] + targets.last().code_view()
    }
}

/// The query parameters, as pairs of key and value, of a request with the
/// given amount, base and targets: the amount with two decimal places, the
/// base's code, and the targets' codes joined by `,` where there is at least
/// one target.
pub open spec fn query_pairs(
    amount: Option<CurrencyValue>,
    base: Option<Currency>,
    targets: Option<Vec<Currency>>,
) -> Seq<(Seq<char>, Seq<char>)> {
    let a = match amount {
        Some(v) => seq![(amount_key(), two_places_text(v.view()))],
        None => Seq::empty(),
    };
    let b = match base {
        Some(c) => seq![(base_key(), c.code_view())],
        None => Seq::empty(),
    };
    let t = match targets {
        Some(ts) => if ts@.len() > 0 {
            seq![(symbols_key(), joined_codes(ts@))]
        } else {
            Seq::empty()
        },
        None => Seq::empty(),
    };
    a + b + t
}

/// Query parameters in the form that an HTTP client takes them.
pub type QueryParams = Vec<(&'static str, String)>;

/// The query parameters as pairs of character sequences.
pub open spec fn params_view(params: Seq<(&'static str, String)>) -> Seq<(Seq<char>, Seq<char>)> {
    params.map_values(|p: (&'static str, String)| (p.0@, p.1@))
}

/// The query of a request reads back as what was sent: the `amount`
/// parameter, read as [`CurrencyValue::parse`] reads it, is the amount
/// rounded to the hundredth, itself a valid amount; the `base` parameter,
/// read as [`Currency::parse`] reads it, has the base's code.
pub proof fn lemma_query_round_trip(
    amount: CurrencyValue,
    base: Currency,
    targets: Option<Vec<Currency>>,
)
    requires
        in_range(amount.view() as int),
        base.is_canonical(),
    ensures
        ({
            let q = query_pairs(Some(amount), Some(base), targets);
            let sent = (round_to_hundredths(amount.view()) * UNITS_PER_HUNDREDTH) as int;
            &&& q[0].0 == amount_key()
            &&& numeral_units(strip_separators(q[0].1)) == Some(sent)
            &&& in_range(sent)
            &&& q[1].0 == base_key()
            &&& q[1].1.len() > 0
            &&& ascii_upper(q[1].1) == base.code_view()
        }),
{
    lemma_two_places_read_back(amount.view());
    lemma_rounded_in_range(amount.view());
}

/// Checks that the targets, where given, do not include the effective base
/// (the base given, else EUR).
pub fn base_ensure_valid(base: &Option<Currency>, targets: &Option<Vec<Currency>>) -> (r: Result<
    (),
    Error,
>)
    ensures
        targets_exclude_base(*base, *targets) ==> r is Ok,
        !targets_exclude_base(*base, *targets) ==> is_targets_include_base(
            r,
            effective_base(*base),
            targets->0@,
        ),
{
    if let Some(t) = targets {
        let b = match base {
            Some(b) => b.clone(),
            None => Currency::EUR,
        };
        let mut i: usize = 0;
        while i < t.len()
            invariant
                i <= t@.len(),
                *targets == Some(*t),
                b == effective_base(*base),
                forall|j: int| 0 <= j < i ==> #[trigger] t@[j].code_view() != b.code_view(),
            decreases t@.len() - i,
        {
            if t[i].same_code(&b) {
                let copy = t.clone();
                proof {
                    assert(t@[i as int].code_view() == b.code_view());
                    assert(includes_code(t@, b));
                    assert forall|j: int| 0 <= j < t@.len() implies copy@[j] == t@[j] by {
                        assert(cloned(t[j], copy[j]));
                    }
                    assert(copy@ =~= t@);
                }
                return Err(Error::RequestTargetsIncludeBase { base: b, targets: copy });
            }
            i = i + 1;
        }
    }
    Ok(())
}

/// The codes of `targets`, joined by `,`.
fn join_codes(targets: &Vec<Currency>) -> (r: String)
    ensures
        r@ == joined_codes(targets@),
{
    let mut s = String::new();
    let mut i: usize = 0;
    while i < targets.len()
        invariant
            i <= targets@.len(),
            s@ == joined_codes(targets@.take(i as int)),
        decreases targets@.len() - i,
    {
        if i > 0 {
            push_char(&mut s, ',');
        }
        let code = targets[i].code();
        s.append(code.as_str());
        assert(targets@.take(i + 1).drop_last() =~= targets@.take(i as int));
        i = i + 1;
    }
    assert(targets@.take(targets@.len() as int) =~= targets@);
    s
}

/// The query parameters of a request with the given amount, base and
/// targets: `amount` with two decimal places, `base` with the base's code,
/// and `symbols` with the targets' codes joined by `,`, each where given.
/// An empty list of targets adds no `symbols`, which the service would
/// refuse.
pub fn base_build_query_params(
    amount: &Option<CurrencyValue>,
    base: &Option<Currency>,
    targets: &Option<Vec<Currency>>,
) -> (r: QueryParams)
    ensures
        params_view(r@) == query_pairs(*amount, *base, *targets),
{
    let ghost q = query_pairs(*amount, *base, *targets);
    let ghost a_part = match amount {
        Some(v) => seq![(amount_key(), two_places_text(v.view()))],
        None => Seq::empty(),
    };
    let ghost b_part = match base {
        Some(c) => seq![(base_key(), c.code_view())],
        None => Seq::empty(),
    };
    let mut params: QueryParams = Vec::new();
    if let Some(a) = amount {
        let key = "amount";
        proof {
            reveal_strlit("amount");
            assert(key@ =~= amount_key());
        }
        params.push((key, a.to_display_string()));
    }
    assert(params_view(params@) =~= a_part);
    if let Some(b) = base {
        let key = "base";
        proof {
            reveal_strlit("base");
            assert(key@ =~= base_key());
        }
        params.push((key, b.code()));
    }
    assert(params_view(params@) =~= a_part + b_part);
    if let Some(t) = targets {
        if t.len() > 0 {
            let key = "symbols";
            proof {
                reveal_strlit("symbols");
                assert(key@ =~= symbols_key());
            }
            params.push((key, join_codes(t)));
        }
    }
    assert(params_view(params@) =~= q);
    params
}

} // verus!
