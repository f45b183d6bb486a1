use vstd::prelude::*;
use crate::models::{Asset, quoted_in_cents};
use crate::series::{PriceData, DataQualityError, MICROS, dates_increasing, datum_on, series_wf, find_date, lemma_datum_on_index, lemma_datum_on_absent};

verus! {

/// USD/CAD rate, in micros, assumed for a day without a quoted rate.
pub const DEFAULT_USD_CAD_RATE: u64 = 1_350_000;

/// USD/CAD rate, in micros, used by sources that quote no exchange rate.
pub const FIXED_USD_CAD_RATE: u64 = 1_320_000;

/// Unit-scale factor, in micros, for quotes in cents.
pub const CENTS_TO_UNITS: u64 = 10_000;

/// The unit-scale factor, in micros, of an asset's market quotes.
pub open spec fn unit_scale(a: Asset) -> u64 {
    if quoted_in_cents(a) { CENTS_TO_UNITS } else { MICROS }
}

/// The unit-scale factor of an asset's market quotes (see `unit_scale`).
pub fn unit_scale_for(asset: Asset) -> (r: u64)
    ensures
        r == unit_scale(asset),
{
    match asset {
        Asset::Wheat | Asset::Corn | Asset::Soybeans | Asset::Coffee | Asset::Sugar | Asset::Cotton
        | Asset::Beef | Asset::Rice | Asset::Copper => CENTS_TO_UNITS,
        _ => MICROS,
    }
}

/// `price` (micros) times `factor` (micros), in micros, rounded down.
pub open spec fn scaled(price: u64, factor: u64) -> int {
    (price as int * factor as int) / (MICROS as int)
}

/// Why `x` cannot be rescaled by `factor`, if it cannot.
pub open spec fn rescale_fault(x: PriceData, factor: u64) -> Option<DataQualityError> {
    if scaled(x.price_usd, factor) == 0 {
        Some(DataQualityError::NonPositivePrice { date: x.date })
    } else if scaled(x.price_usd, factor) > u64::MAX {
        Some(DataQualityError::OutOfRange { date: x.date })
    } else {
        None
    }
}

/// `x` with its base price rescaled and no secondary price.
pub open spec fn rescaled(x: PriceData, factor: u64) -> PriceData {
    PriceData { date: x.date, price_usd: scaled(x.price_usd, factor) as u64, price_cad: None }
}

/// `r` is the first fault of `s` under `fault`: the fault of some datum, all
/// data before it being free of faults.
pub open spec fn first_fault(
    s: Seq<PriceData>,
    fault: spec_fn(PriceData) -> Option<DataQualityError>,
    e: DataQualityError,
) -> bool {
    exists|i: int|
        0 <= i < s.len() && fault(s[i]) == Some(e) && forall|j: int| 0 <= j < i ==> fault(s[j]) is None
}

proof fn lemma_scaled_bounds(price: u64, factor: u64)
    ensures
        0 <= price as int * factor as int <= u64::MAX as int * u64::MAX as int,
        0 <= scaled(price, factor),
{
    assert(0 <= price as int * factor as int <= u64::MAX as int * u64::MAX as int) by (nonlinear_arith);
}

/// Rescales the base prices of a series from vendor units by `factor`
/// (micros; `CENTS_TO_UNITS` turns cents into whole units). The secondary
/// price is left unset. A result that rounds to zero or leaves the
/// fixed-point range is rejected, naming the first such datum.
pub fn rescale(series: &Vec<PriceData>, factor: u64) -> (r: Result<Vec<PriceData>, DataQualityError>)
    ensures
        match r {
            Ok(v) => {
                &&& v@.len() == series@.len()
                &&& forall|i: int| 0 <= i < series@.len() ==> rescale_fault(series@[i], factor) is None
                &&& forall|i: int| 0 <= i < series@.len() ==> v@[i] == rescaled(series@[i], factor)
            },
            Err(e) => first_fault(series@, |x: PriceData| rescale_fault(x, factor), e),
        },
{
    let mut out: Vec<PriceData> = Vec::new();
    let mut i: usize = 0;
    while i < series.len()
        invariant
            i <= series@.len(),
            out@.len() == i,
            forall|j: int| 0 <= j < i ==> rescale_fault(series@[j], factor) is None,
            forall|j: int| 0 <= j < i ==> out@[j] == rescaled(series@[j], factor),
        decreases series@.len() - i,
    {
        let x = series[i];
        proof {
            lemma_scaled_bounds(x.price_usd, factor);
        }
        let v: u128 = (x.price_usd as u128) * (factor as u128) / (MICROS as u128);
        if v == 0 {
            let e = DataQualityError::NonPositivePrice { date: x.date };
            assert(rescale_fault(series@[i as int], factor) == Some(e));
            return Err(e);
        }
        if v > u64::MAX as u128 {
            let e = DataQualityError::OutOfRange { date: x.date };
            assert(rescale_fault(series@[i as int], factor) == Some(e));
            return Err(e);
        }
        out.push(PriceData { date: x.date, price_usd: v as u64, price_cad: None });
        i = i + 1;
    }
    Ok(out)
}

/// The rate in `rates` for day `d`, else `fallback`.
pub open spec fn rate_for(rates: Seq<PriceData>, d: int, fallback: u64) -> u64 {
    match datum_on(rates, d) {
        Some(x) => x.price_usd,
        None => fallback,
    }
}

/// Why no secondary price can be derived for `x`, if none can.
pub open spec fn secondary_fault(x: PriceData, rates: Seq<PriceData>, fallback: u64) -> Option<DataQualityError> {
    if scaled(x.price_usd, rate_for(rates, x.date as int, fallback)) > u64::MAX {
        Some(DataQualityError::OutOfRange { date: x.date })
    } else {
        None
    }
}

/// `x` with its secondary price derived from the day's rate.
pub open spec fn with_rate(x: PriceData, rates: Seq<PriceData>, fallback: u64) -> PriceData {
    PriceData {
        date: x.date,
        price_usd: x.price_usd,
        price_cad: Some(scaled(x.price_usd, rate_for(rates, x.date as int, fallback)) as u64),
    }
}

/// Derives each datum's secondary price as its base price times the
/// exchange rate quoted in `rates` for its day (rates are read from
/// `price_usd`, in micros), or times `fallback_rate` on a day without a
/// quote. A result outside the fixed-point range is rejected, naming the
/// first such datum.
pub fn with_secondary(series: &Vec<PriceData>, rates: &Vec<PriceData>, fallback_rate: u64) -> (r: Result<Vec<PriceData>, DataQualityError>)
    requires
        dates_increasing(rates@),
    ensures
        match r {
            Ok(v) => {
                &&& v@.len() == series@.len()
                &&& forall|i: int| 0 <= i < series@.len() ==> secondary_fault(series@[i], rates@, fallback_rate) is None
                &&& forall|i: int| 0 <= i < series@.len() ==> v@[i] == with_rate(series@[i], rates@, fallback_rate)
            },
            Err(e) => first_fault(series@, |x: PriceData| secondary_fault(x, rates@, fallback_rate), e),
        },
{
    let mut out: Vec<PriceData> = Vec::new();
    let mut i: usize = 0;
    while i < series.len()
        invariant
            i <= series@.len(),
            dates_increasing(rates@),
            out@.len() == i,
            forall|j: int| 0 <= j < i ==> secondary_fault(series@[j], rates@, fallback_rate) is None,
            forall|j: int| 0 <= j < i ==> out@[j] == with_rate(series@[j], rates@, fallback_rate),
        decreases series@.len() - i,
    {
        let x = series[i];
        let rate = match find_date(rates, x.date) {
            Some(k) => {
                proof {
                    lemma_datum_on_index(rates@, k as int);
                }
                rates[k].price_usd
            },
            None => {
                proof {
                    lemma_datum_on_absent(rates@, x.date as int);
                }
                fallback_rate
            },
        };
        assert(rate == rate_for(rates@, x.date as int, fallback_rate));
        proof {
            lemma_scaled_bounds(x.price_usd, rate);
        }
        let v: u128 = (x.price_usd as u128) * (rate as u128) / (MICROS as u128);
        if v > u64::MAX as u128 {
            let e = DataQualityError::OutOfRange { date: x.date };
            assert(secondary_fault(series@[i as int], rates@, fallback_rate) == Some(e));
            return Err(e);
        }
        out.push(PriceData { date: x.date, price_usd: x.price_usd, price_cad: Some(v as u64) });
        i = i + 1;
    }
    Ok(out)
}

/// Rescaling by one whole unit changes nothing in a well-formed series
/// whose data carry no secondary price.
pub proof fn lemma_rescale_identity(s: Seq<PriceData>)
    requires
        series_wf(s),
        forall|i: int| 0 <= i < s.len() ==> s[i].price_cad is None,
    ensures
        forall|i: int| 0 <= i < s.len() ==> rescale_fault(s[i], MICROS) is None,
        forall|i: int| 0 <= i < s.len() ==> rescaled(s[i], MICROS) == s[i],
{
    assert forall|i: int| 0 <= i < s.len() implies scaled(s[i].price_usd, MICROS) == s[i].price_usd by {
        let p = s[i].price_usd as int;
        assert((p * 1_000_000) / 1_000_000 == p) by (nonlinear_arith);
    }
}

/// Brings a fetched series of `asset` onto the common scale: base prices
/// rescaled from the asset's quote unit (`unit_scale`), then secondary
/// prices derived from `usd_cad_rates`, with `DEFAULT_USD_CAD_RATE` on days
/// without a quote. Fails as the first of the two steps that fails.
pub fn normalize_fetched(asset: Asset, raw: &Vec<PriceData>, usd_cad_rates: &Vec<PriceData>) -> (r: Result<Vec<PriceData>, DataQualityError>)
    requires
        dates_increasing(usd_cad_rates@),
    ensures
        match r {
            Ok(v) => {
                &&& v@.len() == raw@.len()
                &&& forall|i: int| 0 <= i < raw@.len() ==> rescale_fault(raw@[i], unit_scale(asset)) is None
                &&& forall|i: int| 0 <= i < raw@.len() ==> secondary_fault(rescaled(raw@[i], unit_scale(asset)), usd_cad_rates@, DEFAULT_USD_CAD_RATE) is None
                &&& forall|i: int| 0 <= i < raw@.len() ==> v@[i] == with_rate(rescaled(raw@[i], unit_scale(asset)), usd_cad_rates@, DEFAULT_USD_CAD_RATE)
                &&& dates_increasing(raw@) ==> series_wf(v@)
            },
            Err(e) => {
                ||| first_fault(raw@, |x: PriceData| rescale_fault(x, unit_scale(asset)), e)
                ||| {
                    &&& forall|i: int| 0 <= i < raw@.len() ==> rescale_fault(raw@[i], unit_scale(asset)) is None
                    &&& first_fault(raw@.map_values(|x: PriceData| rescaled(x, unit_scale(asset))),
                        |x: PriceData| secondary_fault(x, usd_cad_rates@, DEFAULT_USD_CAD_RATE), e)
                }
            },
        },
{
    let f = unit_scale_for(asset);
    let base = match rescale(raw, f) {
        Ok(v) => v,
        Err(e) => {
            return Err(e);
        },
    };
    assert(base@ =~= raw@.map_values(|x: PriceData| rescaled(x, f)));
    let r = with_secondary(&base, usd_cad_rates, DEFAULT_USD_CAD_RATE);
    proof {
        if r is Ok {
            let v = r->Ok_0;
            assert forall|i: int| 0 <= i < raw@.len() implies secondary_fault(rescaled(raw@[i], unit_scale(asset)), usd_cad_rates@, DEFAULT_USD_CAD_RATE) is None by {
                assert(base@[i] == rescaled(raw@[i], f));
            }
            assert forall|i: int| 0 <= i < raw@.len() implies v@[i] == with_rate(rescaled(raw@[i], unit_scale(asset)), usd_cad_rates@, DEFAULT_USD_CAD_RATE) by {
                assert(base@[i] == rescaled(raw@[i], f));
            }
            assert forall|i: int| 0 <= i < v@.len() implies v@[i].price_usd > 0 by {
                assert(rescale_fault(raw@[i], f) is None);
            }
            assert(dates_increasing(raw@) ==> dates_increasing(v@)) by {
                if dates_increasing(raw@) {
                    assert forall|i: int, j: int| 0 <= i < j < v@.len() implies v@[i].date < v@[j].date by {
                        assert(raw@[i].date < raw@[j].date);
                    }
                }
            }
        }
    }
    r
}

} // verus!
