use vstd::prelude::*;
use crate::models::RepresentationMode;
use crate::series::{PriceData, MICROS, dates_increasing, series_wf, has_date};

verus! {

/// The widest gap, in days, across which a nearest date is still used.
pub const MAX_GAP_DAYS: i64 = 30;

/// A point of a single-series chart: a day and a value in micros.
#[derive(Debug, Clone, Copy, PartialEq, Eq, Structural)]
pub struct ChartPoint {
    pub day: i32,
    pub value: u128,
}

/// A comparison point of two series: the day of the first series, the day
/// of the second series it was matched with, whether the days are the same,
/// and the ratio of the two prices in micros.
#[derive(Debug, Clone, Copy, PartialEq, Eq, Structural)]
pub struct AlignedPoint {
    pub day: i32,
    pub matched_day: i32,
    pub exact: bool,
    pub value: u128,
}

pub open spec fn day_distance(a: int, b: int) -> int {
    if a >= b { a - b } else { b - a }
}

/// `j` is the position in `b` of the day nearest to `d`, the earlier one
/// on a tie.
pub open spec fn is_nearest(b: Seq<PriceData>, d: int, j: int) -> bool {
    &&& 0 <= j < b.len()
    &&& forall|k: int| 0 <= k < b.len() ==> day_distance(d, b[k].date as int) >= day_distance(d, b[j].date as int)
    &&& forall|k: int| 0 <= k < j ==> day_distance(d, b[k].date as int) > day_distance(d, b[j].date as int)
}

/// `num / den` in micros, rounded down.
pub open spec fn ratio(num: u64, den: u64) -> int {
    (num as int * MICROS as int) / (den as int)
}

/// The compared value of an asset priced `a` against one priced `b`.
pub open spec fn compared_value(a: u64, b: u64, mode: RepresentationMode) -> int {
    match mode {
        RepresentationMode::UnitsPerCurrency => ratio(a, b),
        RepresentationMode::PricePerUnit => ratio(b, a),
    }
}

/// The comparison point of datum `x` against series `b`, if `b` has a day
/// within `MAX_GAP_DAYS` of it.
pub open spec fn aligned_point(x: PriceData, b: Seq<PriceData>, mode: RepresentationMode) -> Option<AlignedPoint> {
    if exists|j: int| is_nearest(b, x.date as int, j) {
        let j = choose|j: int| is_nearest(b, x.date as int, j);
        if day_distance(x.date as int, b[j].date as int) <= MAX_GAP_DAYS {
            Some(AlignedPoint {
                day: x.date,
                matched_day: b[j].date,
                exact: b[j].date == x.date,
                value: compared_value(x.price_usd, b[j].price_usd, mode) as u128,
            })
        } else {
            None
        }
    } else {
        None
    }
}

/// The comparison points of series `a` against series `b`, in the order of `a`.
pub open spec fn aligned(a: Seq<PriceData>, b: Seq<PriceData>, mode: RepresentationMode) -> Seq<AlignedPoint>
    decreases a.len(),
{
    if a.len() == 0 {
        seq![]
    } else {
        let prev = aligned(a.drop_last(), b, mode);
        match aligned_point(a.last(), b, mode) {
            Some(p) => prev.push(p),
            None => prev,
        }
    }
}

proof fn lemma_nearest_unique(b: Seq<PriceData>, d: int, j1: int, j2: int)
    requires
        is_nearest(b, d, j1),
        is_nearest(b, d, j2),
    ensures
        j1 == j2,
{
    if j1 < j2 {
        assert(day_distance(d, b[j1].date as int) > day_distance(d, b[j2].date as int));
    } else if j2 < j1 {
        assert(day_distance(d, b[j2].date as int) > day_distance(d, b[j1].date as int));
    }
}

fn distance(a: i32, b: i32) -> (r: i64)
    ensures
        r == day_distance(a as int, b as int),
{
    if a >= b { a as i64 - b as i64 } else { b as i64 - a as i64 }
}

/// Position of the day of `b` nearest to `d`, the earlier one on a tie;
/// `None` when `b` is empty. Found by binary search.
pub fn nearest_index(b: &Vec<PriceData>, d: i32) -> (r: Option<usize>)
    requires
        dates_increasing(b@),
    ensures
        match r {
            Some(j) => is_nearest(b@, d as int, j as int),
            None => b@.len() == 0,
        },
{
    let n = b.len();
    if n == 0 {
        return None;
    }
    let mut lo: usize = 0;
    let mut hi: usize = n;
    while lo < hi
        invariant
            n == b@.len(),
            lo <= hi <= n,
            dates_increasing(b@),
            forall|k: int| 0 <= k < lo ==> b@[k].date < d,
            forall|k: int| hi <= k < n ==> b@[k].date >= d,
        decreases hi - lo,
    {
        let mid = lo + (hi - lo) / 2;
        if b[mid].date < d {
            assert forall|k: int| 0 <= k < mid + 1 implies b@[k].date < d by {
                if k < mid {
                    assert(b@[k].date < b@[mid as int].date);
                }
            }
            lo = mid + 1;
        } else {
            assert forall|k: int| mid <= k < n implies b@[k].date >= d by {
                if k > mid {
                    assert(b@[mid as int].date < b@[k].date);
                }
            }
            hi = mid;
        }
    }
    // Days before `lo` fall before `d`; days from `lo` on fall on or after it.
    let j: usize = if lo == 0 {
        0
    } else if lo == n {
        n - 1
    } else if distance(d, b[lo - 1].date) <= distance(d, b[lo].date) {
        lo - 1
    } else {
        lo
    };
    proof {
        assert forall|k: int| 0 <= k < n && k < lo - 1 implies day_distance(d as int, #[trigger] b@[k].date as int) > day_distance(d as int, b@[lo - 1].date as int) by {
            assert(b@[k].date < b@[lo - 1].date);
        }
        assert forall|k: int| lo < k < n implies day_distance(d as int, #[trigger] b@[k].date as int) > day_distance(d as int, b@[lo as int].date as int) by {
            assert(b@[lo as int].date < b@[k].date);
        }
    }
    Some(j)
}

/// Pairs each datum of `btc_data` with the datum of `commodity_data` on the
/// same day, or else on the nearest day (the earlier one on a tie) when it
/// is at most `MAX_GAP_DAYS` away; a datum with no such day is dropped.
/// Each point carries the ratio of the two prices oriented by `mode`.
pub fn calculate_btc_values(
    btc_data: &Vec<PriceData>,
    commodity_data: &Vec<PriceData>,
    mode: RepresentationMode,
) -> (r: Vec<AlignedPoint>)
    requires
        series_wf(btc_data@),
        series_wf(commodity_data@),
    ensures
        r@ == aligned(btc_data@, commodity_data@, mode),
{
    let ghost a = btc_data@;
    let ghost b = commodity_data@;
    let mut out: Vec<AlignedPoint> = Vec::new();
    let mut i: usize = 0;
    while i < btc_data.len()
        invariant
            a == btc_data@,
            b == commodity_data@,
            series_wf(a),
            series_wf(b),
            i <= a.len(),
            out@ == aligned(a.subrange(0, i as int), b, mode),
        decreases a.len() - i,
    {
        let x = btc_data[i];
        let ghost pre = a.subrange(0, i as int);
        assert(a.subrange(0, i + 1).drop_last() =~= pre);
        assert(a.subrange(0, i + 1).last() == x);
        match nearest_index(commodity_data, x.date) {
            Some(j) => {
                proof {
                    assert(exists|jj: int| is_nearest(b, x.date as int, jj));
                    let c = choose|jj: int| is_nearest(b, x.date as int, jj);
                    lemma_nearest_unique(b, x.date as int, c, j as int);
                }
                let y = commodity_data[j];
                if distance(x.date, y.date) <= MAX_GAP_DAYS {
                    assert(x.price_usd > 0 && y.price_usd > 0);
                    let (num, den) = match mode {
                        RepresentationMode::UnitsPerCurrency => (x.price_usd, y.price_usd),
                        RepresentationMode::PricePerUnit => (y.price_usd, x.price_usd),
                    };
                    assert(0 <= num as int * MICROS as int <= u64::MAX as int * 1_000_000) by (nonlinear_arith)
                        requires num <= u64::MAX;
                    let value: u128 = (num as u128) * (MICROS as u128) / (den as u128);
                    assert(value as int == compared_value(x.price_usd, y.price_usd, mode));
                    out.push(AlignedPoint { day: x.date, matched_day: y.date, exact: y.date == x.date, value });
                }
            },
            None => {
                assert(!exists|jj: int| is_nearest(b, x.date as int, jj));
            },
        }
        i = i + 1;
    }
    assert(a.subrange(0, a.len() as int) =~= a);
    out
}

/// Every comparison point lies within `MAX_GAP_DAYS` of the day it was
/// matched with, which the second series covers; when the second series
/// covers the point's own day, that day is the match and the point is
/// exact, and an exact point is matched with its own day.
pub proof fn lemma_alignment_window(a: Seq<PriceData>, b: Seq<PriceData>, mode: RepresentationMode)
    requires
        dates_increasing(b),
    ensures
        forall|k: int| #![trigger aligned(a, b, mode)[k]] 0 <= k < aligned(a, b, mode).len() ==> {
            let p = aligned(a, b, mode)[k];
            &&& day_distance(p.day as int, p.matched_day as int) <= MAX_GAP_DAYS
            &&& has_date(b, p.matched_day as int)
            &&& (has_date(b, p.day as int) ==> p.exact && p.matched_day == p.day)
            &&& (p.exact ==> p.matched_day == p.day)
        },
    decreases a.len(),
{
    if a.len() > 0 {
        let prev = aligned(a.drop_last(), b, mode);
        lemma_alignment_window(a.drop_last(), b, mode);
        let x = a.last();
        let r = aligned(a, b, mode);
        match aligned_point(x, b, mode) {
            Some(p) => {
                assert(r == prev.push(p));
                let j = choose|j: int| is_nearest(b, x.date as int, j);
                assert(p.matched_day == b[j].date);
                assert(has_date(b, b[j].date as int));
                if has_date(b, x.date as int) {
                    let e = choose|e: int| 0 <= e < b.len() && e < b.len() && b[e].date == x.date;
                    assert(day_distance(x.date as int, b[e].date as int) == 0);
                    assert(day_distance(x.date as int, b[j].date as int) == 0);
                }
                assert forall|k: int| 0 <= k < prev.len() implies r[k] == prev[k] by {}
            },
            None => {
                assert(r == prev);
            },
        }
    }
}

/// The value of a price shown on its own: the price itself, or the units
/// of the asset one currency unit buys (micros per micro, in micros).
pub open spec fn currency_value(price: u64, mode: RepresentationMode) -> int {
    match mode {
        RepresentationMode::UnitsPerCurrency => (MICROS as int * MICROS as int) / (price as int),
        RepresentationMode::PricePerUnit => price as int,
    }
}

fn currency_value_of(price: u64, mode: RepresentationMode) -> (r: u128)
    requires
        price > 0,
    ensures
        r == currency_value(price, mode),
{
    match mode {
        RepresentationMode::UnitsPerCurrency => 1_000_000_000_000u128 / (price as u128),
        RepresentationMode::PricePerUnit => price as u128,
    }
}

/// The base-currency chart of a series: one point per datum.
pub fn calculate_usd_values(data: &Vec<PriceData>, mode: RepresentationMode) -> (r: Vec<ChartPoint>)
    requires
        series_wf(data@),
    ensures
        r@.len() == data@.len(),
        forall|i: int|
            0 <= i < data@.len() ==> r@[i] == (ChartPoint {
                day: data@[i].date,
                value: currency_value(data@[i].price_usd, mode) as u128,
            }),
{
    let mut out: Vec<ChartPoint> = Vec::new();
    let mut i: usize = 0;
    while i < data.len()
        invariant
            series_wf(data@),
            i <= data@.len(),
            out@.len() == i,
            forall|k: int|
                0 <= k < i ==> out@[k] == (ChartPoint {
                    day: data@[k].date,
                    value: currency_value(data@[k].price_usd, mode) as u128,
                }),
        decreases data@.len() - i,
    {
        let x = data[i];
        let value = currency_value_of(x.price_usd, mode);
        out.push(ChartPoint { day: x.date, value });
        i = i + 1;
    }
    out
}

/// The secondary-currency chart of a series: its data with a positive
/// secondary price, in order.
pub open spec fn secondary_chart(s: Seq<PriceData>, mode: RepresentationMode) -> Seq<ChartPoint>
    decreases s.len(),
{
    if s.len() == 0 {
        seq![]
    } else {
        let prev = secondary_chart(s.drop_last(), mode);
        match s.last().price_cad {
            Some(c) => if c > 0 {
                prev.push(ChartPoint { day: s.last().date, value: currency_value(c, mode) as u128 })
            } else {
                prev
            },
            None => prev,
        }
    }
}

/// The secondary-currency chart of a series (see `secondary_chart`).
pub fn calculate_cad_values(data: &Vec<PriceData>, mode: RepresentationMode) -> (r: Vec<ChartPoint>)
    ensures
        r@ == secondary_chart(data@, mode),
{
    let mut out: Vec<ChartPoint> = Vec::new();
    let mut i: usize = 0;
    while i < data.len()
        invariant
            i <= data@.len(),
            out@ == secondary_chart(data@.subrange(0, i as int), mode),
        decreases data@.len() - i,
    {
        let x = data[i];
        assert(data@.subrange(0, i + 1).drop_last() =~= data@.subrange(0, i as int));
        assert(data@.subrange(0, i + 1).last() == x);
        match x.price_cad {
            Some(c) => {
                if c > 0 {
                    let value = currency_value_of(c, mode);
                    out.push(ChartPoint { day: x.date, value });
                }
            },
            None => {},
        }
        i = i + 1;
    }
    assert(data@.subrange(0, data@.len() as int) =~= data@);
    out
}

} // verus!
