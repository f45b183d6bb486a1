use vstd::prelude::*;
use crate::series::{PriceData, DataQualityError, series_wf};

verus! {

/// A raw price observation: a day and a price in micros, which may be
/// anything a source reported.
#[derive(Debug, Clone, Copy, PartialEq, Eq, Structural)]
pub struct Observation {
    pub date: i32,
    pub price: i64,
}

/// Why observation `i` of `o` cannot enter a series, if it cannot: its
/// price is not positive, or its day comes before the previous one.
pub open spec fn observation_fault(o: Seq<Observation>, i: int) -> Option<DataQualityError> {
    if o[i].price <= 0 {
        Some(DataQualityError::NonPositivePrice { date: o[i].date })
    } else if i > 0 && o[i].date < o[i - 1].date {
        Some(DataQualityError::OutOfOrder { date: o[i].date })
    } else {
        None
    }
}

/// The datum an observation becomes.
pub open spec fn observed(x: Observation) -> PriceData {
    PriceData { date: x.date, price_usd: x.price as u64, price_cad: None }
}

/// The series of observations in order, where observations of the same
/// day in a row collapse into the last of them.
pub open spec fn collapsed(o: Seq<Observation>) -> Seq<PriceData>
    decreases o.len(),
{
    if o.len() == 0 {
        seq![]
    } else {
        let prev = collapsed(o.drop_last());
        let x = observed(o.last());
        if prev.len() > 0 && prev.last().date == x.date {
            prev.update(prev.len() - 1, x)
        } else {
            prev.push(x)
        }
    }
}

/// Turns raw observations, ordered by day, into a well-formed series; of
/// several observations of one day the last one wins. The first
/// observation with a non-positive price, or with a day before the
/// previous observation's, is rejected.
pub fn series_from_observations(obs: &Vec<Observation>) -> (r: Result<Vec<PriceData>, DataQualityError>)
    ensures
        match r {
            Ok(v) => {
                &&& forall|i: int| 0 <= i < obs@.len() ==> observation_fault(obs@, i) is None
                &&& v@ == collapsed(obs@)
                &&& series_wf(v@)
            },
            Err(e) => exists|i: int|
                0 <= i < obs@.len() && observation_fault(obs@, i) == Some(e)
                    && forall|j: int| 0 <= j < i ==> observation_fault(obs@, j) is None,
        },
{
    let ghost o = obs@;
    let mut out: Vec<PriceData> = Vec::new();
    let mut i: usize = 0;
    while i < obs.len()
        invariant
            o == obs@,
            i <= o.len(),
            forall|j: int| 0 <= j < i ==> observation_fault(o, j) is None,
            out@ == collapsed(o.subrange(0, i as int)),
            series_wf(out@),
            i > 0 ==> out@.len() > 0 && out@.last().date == o[i - 1].date,
            i == 0 ==> out@.len() == 0,
        decreases o.len() - i,
    {
        let x = obs[i];
        if x.price <= 0 {
            assert(observation_fault(o, i as int) == Some(DataQualityError::NonPositivePrice { date: x.date }));
            return Err(DataQualityError::NonPositivePrice { date: x.date });
        }
        if i > 0 && x.date < obs[i - 1].date {
            assert(observation_fault(o, i as int) == Some(DataQualityError::OutOfOrder { date: x.date }));
            return Err(DataQualityError::OutOfOrder { date: x.date });
        }
        assert(o.subrange(0, i + 1).drop_last() =~= o.subrange(0, i as int));
        assert(o.subrange(0, i + 1).last() == x);
        let d = PriceData { date: x.date, price_usd: x.price as u64, price_cad: None };
        let n = out.len();
        if n > 0 && out[n - 1].date == x.date {
            out.set(n - 1, d);
        } else {
            out.push(d);
        }
        i = i + 1;
    }
    assert(o.subrange(0, o.len() as int) =~= o);
    Ok(out)
}

} // verus!
