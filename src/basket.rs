use vstd::prelude::*;
use vstd::arithmetic::div_mod::{lemma_div_is_ordered_by_denominator, lemma_div_by_multiple};
use crate::models::{Asset, ASSET_COUNT};
use crate::series::{PriceData, MICROS, series_wf, dates_increasing, has_date, has_date_before, datum_on, find_date, copy_series, lemma_datum_on_index, lemma_datum_on_absent, lemma_same_days_same_positions};
use crate::asset_map::AssetSeriesMap;
use crate::merge::merge_btc_data;
use crate::normalize::scaled;

verus! {

/// A weight of one whole, in basis points.
pub const WEIGHT_ONE: u64 = 10_000;

/// The least observed weight on a day for the index to have a value
/// that day: half of one whole.
pub const COMPLETENESS_GATE: u64 = 5_000;

/// A component priced at its anchor scores this many index points.
pub const INDEX_BASE: u64 = 100;

/// Largest index-point value, in micros, of one component's price.
pub const MAX_POINTS: u128 = 1_844_674_407_370_955_161_500_000_000;

/// One component of a composite index: its weight in basis points of one
/// whole, and the reference prices (micros) in the base and the secondary
/// currency at which it scores `INDEX_BASE` points.
#[derive(Debug, Clone, Copy, PartialEq, Eq, Structural)]
pub struct ComponentWeight {
    pub asset: Asset,
    pub weight: u64,
    pub anchor_usd: u64,
    pub anchor_cad: u64,
}

/// A table of components: each weight in (0, 1] and each anchor positive.
/// A table has at most `ASSET_COUNT` entries, which keeps the weighted
/// sums within 128 bits.
pub open spec fn table_wf(t: Seq<ComponentWeight>) -> bool {
    &&& t.len() <= ASSET_COUNT
    &&& forall|i: int|
        0 <= i < t.len() ==> 0 < #[trigger] t[i].weight <= WEIGHT_ONE && t[i].anchor_usd > 0
            && t[i].anchor_cad > 0
}

pub open spec fn component(asset: Asset, weight: u64, anchor_usd: u64, anchor_cad: u64) -> ComponentWeight {
    ComponentWeight { asset, weight, anchor_usd, anchor_cad }
}

/// The consumer basket: fourteen commodities whose weights sum to 0.8;
/// the remaining fifth stands for services that no commodity tracks.
pub open spec fn consumer_basket_table() -> Seq<ComponentWeight> {
    seq![
        component(Asset::Oil, 1500, 75_000_000, 97_500_000),
        component(Asset::NaturalGas, 500, 3_500_000, 4_550_000),
        component(Asset::Wheat, 800, 6_500_000, 8_450_000),
        component(Asset::Corn, 500, 5_000_000, 6_500_000),
        component(Asset::Beef, 1000, 1_400_000, 1_820_000),
        component(Asset::Coffee, 300, 2_000_000, 2_600_000),
        component(Asset::Sugar, 200, 210_000, 273_000),
        component(Asset::Cotton, 500, 850_000, 1_105_000),
        component(Asset::Lumber, 700, 450_000_000, 585_000_000),
        component(Asset::Gold, 500, 1_800_000_000, 2_340_000_000),
        component(Asset::Silver, 200, 25_000_000, 32_500_000),
        component(Asset::Copper, 300, 4_300_000, 5_590_000),
        component(Asset::Soybeans, 500, 12_500_000, 16_250_000),
        component(Asset::Rice, 500, 17_000_000, 22_100_000),
    ]
}

/// The consumer basket's component table (see `consumer_basket_table`).
pub fn consumer_basket_weights() -> (r: Vec<ComponentWeight>)
    ensures
        r@ == consumer_basket_table(),
        table_wf(r@),
{
    let r = vec![
        ComponentWeight { asset: Asset::Oil, weight: 1500, anchor_usd: 75_000_000, anchor_cad: 97_500_000 },
        ComponentWeight { asset: Asset::NaturalGas, weight: 500, anchor_usd: 3_500_000, anchor_cad: 4_550_000 },
        ComponentWeight { asset: Asset::Wheat, weight: 800, anchor_usd: 6_500_000, anchor_cad: 8_450_000 },
        ComponentWeight { asset: Asset::Corn, weight: 500, anchor_usd: 5_000_000, anchor_cad: 6_500_000 },
        ComponentWeight { asset: Asset::Beef, weight: 1000, anchor_usd: 1_400_000, anchor_cad: 1_820_000 },
        ComponentWeight { asset: Asset::Coffee, weight: 300, anchor_usd: 2_000_000, anchor_cad: 2_600_000 },
        ComponentWeight { asset: Asset::Sugar, weight: 200, anchor_usd: 210_000, anchor_cad: 273_000 },
        ComponentWeight { asset: Asset::Cotton, weight: 500, anchor_usd: 850_000, anchor_cad: 1_105_000 },
        ComponentWeight { asset: Asset::Lumber, weight: 700, anchor_usd: 450_000_000, anchor_cad: 585_000_000 },
        ComponentWeight { asset: Asset::Gold, weight: 500, anchor_usd: 1_800_000_000, anchor_cad: 2_340_000_000 },
        ComponentWeight { asset: Asset::Silver, weight: 200, anchor_usd: 25_000_000, anchor_cad: 32_500_000 },
        ComponentWeight { asset: Asset::Copper, weight: 300, anchor_usd: 4_300_000, anchor_cad: 5_590_000 },
        ComponentWeight { asset: Asset::Soybeans, weight: 500, anchor_usd: 12_500_000, anchor_cad: 16_250_000 },
        ComponentWeight { asset: Asset::Rice, weight: 500, anchor_usd: 17_000_000, anchor_cad: 22_100_000 },
    ];
    assert(r@ =~= consumer_basket_table());
    r
}

/// The series that component `i` of table `t` reads from map view `m`.
pub open spec fn component_series(t: Seq<ComponentWeight>, m: Seq<Seq<PriceData>>, i: int) -> Seq<PriceData> {
    m[t[i].asset.spec_index() as int]
}

/// `price` rescaled onto the index scale: `price / anchor * INDEX_BASE`,
/// in micros, rounded down.
pub open spec fn index_points(price: u64, anchor: u64) -> int {
    (price as int * (INDEX_BASE * MICROS) as int) / (anchor as int)
}

/// Total weight of the first `n` components that have a datum on day `d`.
pub open spec fn weight_present(t: Seq<ComponentWeight>, m: Seq<Seq<PriceData>>, d: int, n: int) -> int
    decreases n,
{
    if n <= 0 {
        0
    } else {
        weight_present(t, m, d, n - 1) + match datum_on(component_series(t, m, n - 1), d) {
            Some(_) => t[n - 1].weight as int,
            None => 0,
        }
    }
}

/// Sum over the first `n` components with a datum on day `d` of the
/// base-currency index points times the weight.
pub open spec fn weighted_points(t: Seq<ComponentWeight>, m: Seq<Seq<PriceData>>, d: int, n: int) -> int
    decreases n,
{
    if n <= 0 {
        0
    } else {
        weighted_points(t, m, d, n - 1) + match datum_on(component_series(t, m, n - 1), d) {
            Some(x) => index_points(x.price_usd, t[n - 1].anchor_usd) * t[n - 1].weight,
            None => 0,
        }
    }
}

/// Total weight of the first `n` components whose datum on day `d` has a
/// secondary price.
pub open spec fn secondary_weight(t: Seq<ComponentWeight>, m: Seq<Seq<PriceData>>, d: int, n: int) -> int
    decreases n,
{
    if n <= 0 {
        0
    } else {
        secondary_weight(t, m, d, n - 1) + match datum_on(component_series(t, m, n - 1), d) {
            Some(x) => match x.price_cad {
                Some(_) => t[n - 1].weight as int,
                None => 0,
            },
            None => 0,
        }
    }
}

/// Sum over the first `n` components whose datum on day `d` has a
/// secondary price of its secondary index points times the weight.
pub open spec fn secondary_points(t: Seq<ComponentWeight>, m: Seq<Seq<PriceData>>, d: int, n: int) -> int
    decreases n,
{
    if n <= 0 {
        0
    } else {
        secondary_points(t, m, d, n - 1) + match datum_on(component_series(t, m, n - 1), d) {
            Some(x) => match x.price_cad {
                Some(c) => index_points(c, t[n - 1].anchor_cad) * t[n - 1].weight,
                None => 0,
            },
            None => 0,
        }
    }
}

/// The index's base-currency value on day `d`: the weighted points divided
/// by the weight present, times `INDEX_BASE`.
pub open spec fn base_value(t: Seq<ComponentWeight>, m: Seq<Seq<PriceData>>, d: int) -> int {
    weighted_points(t, m, d, t.len() as int) / weight_present(t, m, d, t.len() as int) * INDEX_BASE as int
}

/// The index has a datum on day `d`: enough weight is present and the
/// value is a positive price in range.
pub open spec fn emits(t: Seq<ComponentWeight>, m: Seq<Seq<PriceData>>, d: int) -> bool {
    &&& weight_present(t, m, d, t.len() as int) >= COMPLETENESS_GATE
    &&& 0 < base_value(t, m, d) <= u64::MAX
}

/// The index's secondary-currency value on day `d`: from the components'
/// secondary prices when enough of their weight has one, else the base
/// value times the day's exchange rate when `rates` quotes one, else none;
/// none also when the value leaves the fixed-point range.
pub open spec fn secondary_value(t: Seq<ComponentWeight>, m: Seq<Seq<PriceData>>, rates: Seq<PriceData>, d: int) -> Option<u64> {
    let n = t.len() as int;
    if secondary_weight(t, m, d, n) >= COMPLETENESS_GATE {
        let v = secondary_points(t, m, d, n) / secondary_weight(t, m, d, n) * INDEX_BASE as int;
        if v <= u64::MAX { Some(v as u64) } else { None }
    } else {
        match datum_on(rates, d) {
            Some(x) => {
                let v = scaled(base_value(t, m, d) as u64, x.price_usd);
                if v <= u64::MAX { Some(v as u64) } else { None }
            },
            None => None,
        }
    }
}

/// The index's datum on day `d`.
pub open spec fn index_datum(t: Seq<ComponentWeight>, m: Seq<Seq<PriceData>>, rates: Seq<PriceData>, d: int) -> PriceData {
    PriceData { date: d as i32, price_usd: base_value(t, m, d) as u64, price_cad: secondary_value(t, m, rates, d) }
}

/// Some component has a datum on day `d`.
pub open spec fn in_union(t: Seq<ComponentWeight>, m: Seq<Seq<PriceData>>, d: int) -> bool {
    exists|i: int| 0 <= i < t.len() && has_date(component_series(t, m, i), d)
}

/// `v` is the index of table `t` over map view `m` with exchange rates
/// `rates`: one datum, in ascending order, for each day that some component
/// covers and on which the index has a value.
pub open spec fn is_index_of(v: Seq<PriceData>, t: Seq<ComponentWeight>, m: Seq<Seq<PriceData>>, rates: Seq<PriceData>) -> bool {
    &&& dates_increasing(v)
    &&& forall|k: int|
        0 <= k < v.len() ==> in_union(t, m, v[k].date as int) && emits(t, m, v[k].date as int)
            && v[k] == index_datum(t, m, rates, v[k].date as int)
    &&& forall|d: int| in_union(t, m, d) && emits(t, m, d) ==> has_date(v, d)
}

proof fn lemma_points_bound(price: u64, anchor: u64, weight: u64)
    requires
        anchor > 0,
        weight <= WEIGHT_ONE,
    ensures
        0 <= price as int * 100_000_000 <= MAX_POINTS,
        0 <= index_points(price, anchor) <= MAX_POINTS,
        0 <= index_points(price, anchor) * weight <= MAX_POINTS * WEIGHT_ONE,
{
    let x = price as int * 100_000_000;
    assert(0 <= x <= MAX_POINTS) by (nonlinear_arith)
        requires x == price as int * 100_000_000, price <= u64::MAX;
    lemma_div_is_ordered_by_denominator(x, 1, anchor as int);
    let p = index_points(price, anchor);
    assert(0 <= p * weight <= MAX_POINTS * WEIGHT_ONE) by (nonlinear_arith)
        requires 0 <= p <= MAX_POINTS, 0 <= weight <= WEIGHT_ONE;
}

/// The four sums of the index on day `d`, over all components:
/// `(weight_present, weighted_points, secondary_weight, secondary_points)`.
fn component_sums(all_data: &AssetSeriesMap, weights: &Vec<ComponentWeight>, d: i32) -> (r: (u64, u128, u64, u128))
    requires
        all_data.wf(),
        table_wf(weights@),
    ensures
        r.0 == weight_present(weights@, all_data@, d as int, weights@.len() as int),
        r.1 == weighted_points(weights@, all_data@, d as int, weights@.len() as int),
        r.2 == secondary_weight(weights@, all_data@, d as int, weights@.len() as int),
        r.3 == secondary_points(weights@, all_data@, d as int, weights@.len() as int),
        r.0 <= ASSET_COUNT * WEIGHT_ONE,
        r.1 <= ASSET_COUNT * (MAX_POINTS * WEIGHT_ONE),
        r.2 <= ASSET_COUNT * WEIGHT_ONE,
        r.3 <= ASSET_COUNT * (MAX_POINTS * WEIGHT_ONE),
{
    let ghost t = weights@;
    let ghost m = all_data@;
    let mut wt: u64 = 0;
    let mut ws: u128 = 0;
    let mut cw: u64 = 0;
    let mut cs: u128 = 0;
    let mut j: usize = 0;
    while j < weights.len()
        invariant
            all_data.wf(),
            table_wf(t),
            t == weights@,
            m == all_data@,
            j <= t.len(),
            wt == weight_present(t, m, d as int, j as int),
            ws == weighted_points(t, m, d as int, j as int),
            cw == secondary_weight(t, m, d as int, j as int),
            cs == secondary_points(t, m, d as int, j as int),
            wt <= j * WEIGHT_ONE,
            ws <= j * (MAX_POINTS * WEIGHT_ONE),
            cw <= j * WEIGHT_ONE,
            cs <= j * (MAX_POINTS * WEIGHT_ONE),
        decreases t.len() - j,
    {
        let c = weights[j];
        assert(0 < t[j as int].weight <= WEIGHT_ONE);
        let s = all_data.get(c.asset);
        assert(s@ == component_series(t, m, j as int));
        match find_date(s, d) {
            Some(k) => {
                let x = s[k];
                proof {
                    lemma_datum_on_index(s@, k as int);
                    lemma_points_bound(x.price_usd, c.anchor_usd, c.weight);
                }
                let p: u128 = (x.price_usd as u128) * 100_000_000u128 / (c.anchor_usd as u128);
                assert(p as int == index_points(x.price_usd, c.anchor_usd));
                proof {
                    let jj = j as int;
                    assert(ws + p * c.weight <= (jj + 1) * (MAX_POINTS * WEIGHT_ONE)) by (nonlinear_arith)
                        requires ws <= jj * (MAX_POINTS * WEIGHT_ONE), p * c.weight <= MAX_POINTS * WEIGHT_ONE;
                }
                wt = wt + c.weight;
                ws = ws + p * (c.weight as u128);
                match x.price_cad {
                    Some(cad) => {
                        proof {
                            lemma_points_bound(cad, c.anchor_cad, c.weight);
                        }
                        let q: u128 = (cad as u128) * 100_000_000u128 / (c.anchor_cad as u128);
                        assert(q as int == index_points(cad, c.anchor_cad));
                        proof {
                            let jj = j as int;
                            assert(cs + q * c.weight <= (jj + 1) * (MAX_POINTS * WEIGHT_ONE)) by (nonlinear_arith)
                                requires cs <= jj * (MAX_POINTS * WEIGHT_ONE), q * c.weight <= MAX_POINTS * WEIGHT_ONE;
                        }
                        cw = cw + c.weight;
                        cs = cs + q * (c.weight as u128);
                    },
                    None => {},
                }
            },
            None => {
                proof {
                    lemma_datum_on_absent(s@, d as int);
                }
            },
        }
        proof {
            let jj = j as int;
            assert(ws <= (jj + 1) * (MAX_POINTS * WEIGHT_ONE)) by (nonlinear_arith)
                requires ws <= jj * (MAX_POINTS * WEIGHT_ONE) || ws <= (jj + 1) * (MAX_POINTS * WEIGHT_ONE), jj >= 0;
            assert(cs <= (jj + 1) * (MAX_POINTS * WEIGHT_ONE)) by (nonlinear_arith)
                requires cs <= jj * (MAX_POINTS * WEIGHT_ONE) || cs <= (jj + 1) * (MAX_POINTS * WEIGHT_ONE), jj >= 0;
        }
        j = j + 1;
    }
    proof {
        let n = t.len() as int;
        assert(ws <= ASSET_COUNT * (MAX_POINTS * WEIGHT_ONE)) by (nonlinear_arith)
            requires ws <= n * (MAX_POINTS * WEIGHT_ONE), n <= ASSET_COUNT;
        assert(cs <= ASSET_COUNT * (MAX_POINTS * WEIGHT_ONE)) by (nonlinear_arith)
            requires cs <= n * (MAX_POINTS * WEIGHT_ONE), n <= ASSET_COUNT;
    }
    (wt, ws, cw, cs)
}

/// Every day that some component covers, in ascending order.
fn union_of_dates(all_data: &AssetSeriesMap, weights: &Vec<ComponentWeight>) -> (r: Vec<PriceData>)
    requires
        all_data.wf(),
    ensures
        dates_increasing(r@),
        forall|d: int| has_date(r@, d) <==> in_union(weights@, all_data@, d),
{
    let ghost t = weights@;
    let ghost m = all_data@;
    let mut acc: Vec<PriceData> = Vec::new();
    let mut i: usize = 0;
    while i < weights.len()
        invariant
            all_data.wf(),
            t == weights@,
            m == all_data@,
            i <= t.len(),
            dates_increasing(acc@),
            forall|d: int|
                has_date(acc@, d) <==> exists|j: int| 0 <= j < i && has_date(component_series(t, m, j), d),
        decreases t.len() - i,
    {
        let s = all_data.get(weights[i].asset);
        assert(s@ == component_series(t, m, i as int));
        let ghost before = acc@;
        acc = merge_btc_data(acc, copy_series(s));
        assert forall|d: int|
            has_date(acc@, d) <==> exists|j: int| 0 <= j < i + 1 && has_date(component_series(t, m, j), d) by {
            if has_date(acc@, d) {
                if has_date(before, d) {
                    let j = choose|j: int| 0 <= j < i && has_date(component_series(t, m, j), d);
                    assert(0 <= j < i + 1 && has_date(component_series(t, m, j), d));
                } else {
                    assert(has_date(component_series(t, m, i as int), d));
                }
            }
            if exists|j: int| 0 <= j < i + 1 && has_date(component_series(t, m, j), d) {
                let j = choose|j: int| 0 <= j < i + 1 && has_date(component_series(t, m, j), d);
                if j < i {
                    assert(has_date(before, d));
                }
            }
        }
        i = i + 1;
    }
    acc
}

/// Builds the composite index of the components in `weights` over the
/// series of `all_data`, with `usd_cad_rates` (exchange rates, in micros,
/// read from `price_usd`) as the secondary-currency fallback. Each day that
/// some component covers is taken in ascending order; it yields a datum
/// only when the components present carry at least `COMPLETENESS_GATE` of
/// weight (see `is_index_of`). `None` reports that no day did: the index
/// has insufficient data.
pub fn create_consumer_basket(
    all_data: &AssetSeriesMap,
    weights: &Vec<ComponentWeight>,
    usd_cad_rates: &Vec<PriceData>,
) -> (r: Option<Vec<PriceData>>)
    requires
        all_data.wf(),
        table_wf(weights@),
        dates_increasing(usd_cad_rates@),
    ensures
        match r {
            Some(v) => v@.len() > 0 && is_index_of(v@, weights@, all_data@, usd_cad_rates@),
            None => forall|d: int| !(in_union(weights@, all_data@, d) && emits(weights@, all_data@, d)),
        },
{
    let ghost t = weights@;
    let ghost m = all_data@;
    let ghost rates = usd_cad_rates@;
    let dates = union_of_dates(all_data, weights);
    let mut out: Vec<PriceData> = Vec::new();
    let mut k: usize = 0;
    while k < dates.len()
        invariant
            all_data.wf(),
            table_wf(t),
            t == weights@,
            m == all_data@,
            rates == usd_cad_rates@,
            dates_increasing(rates),
            k <= dates@.len(),
            dates_increasing(dates@),
            forall|d: int| has_date(dates@, d) <==> in_union(t, m, d),
            dates_increasing(out@),
            forall|i: int|
                0 <= i < out@.len() ==> has_date_before(dates@, k as int, out@[i].date as int)
                    && in_union(t, m, out@[i].date as int) && emits(t, m, out@[i].date as int)
                    && out@[i] == index_datum(t, m, rates, out@[i].date as int),
            forall|d: int| has_date_before(dates@, k as int, d) && emits(t, m, d) ==> has_date(out@, d),
        decreases dates@.len() - k,
    {
        let d = dates[k].date;
        assert(has_date(dates@, d as int));
        let (wt, ws, cw, cs) = component_sums(all_data, weights, d);
        let ghost before = out@;
        if wt >= COMPLETENESS_GATE {
            let usd: u128 = ws / (wt as u128) * (INDEX_BASE as u128);
            assert(usd as int == base_value(t, m, d as int));
            if usd > 0 && usd <= u64::MAX as u128 {
                let cad: Option<u64> = if cw >= COMPLETENESS_GATE {
                    let v: u128 = cs / (cw as u128) * (INDEX_BASE as u128);
                    if v <= u64::MAX as u128 { Some(v as u64) } else { None }
                } else {
                    match find_date(usd_cad_rates, d) {
                        Some(idx) => {
                            proof {
                                lemma_datum_on_index(rates, idx as int);
                            }
                            let rate = usd_cad_rates[idx].price_usd;
                            let u = usd as u64;
                            assert(0 <= u as int * rate as int <= u64::MAX as int * u64::MAX as int) by (nonlinear_arith)
                                requires u <= u64::MAX, rate <= u64::MAX;
                            let v: u128 = (u as u128) * (rate as u128) / (MICROS as u128);
                            if v <= u64::MAX as u128 { Some(v as u64) } else { None }
                        },
                        None => {
                            proof {
                                lemma_datum_on_absent(rates, d as int);
                            }
                            None
                        },
                    }
                };
                assert(cad == secondary_value(t, m, rates, d as int));
                let x = PriceData { date: d, price_usd: usd as u64, price_cad: cad };
                assert(x == index_datum(t, m, rates, d as int));
                proof {
                    assert forall|i: int| 0 <= i < before.len() implies before[i].date < d by {
                        let a = choose|a: int| 0 <= a < k && a < dates@.len() && dates@[a].date == before[i].date;
                        assert(dates@[a].date < dates@[k as int].date);
                    }
                }
                out.push(x);
            }
        }
        proof {
            assert forall|i: int|
                0 <= i < out@.len() implies has_date_before(dates@, k + 1, out@[i].date as int) by {
                if i < before.len() {
                    assert(out@[i] == before[i]);
                    let a = choose|a: int| 0 <= a < k && a < dates@.len() && dates@[a].date == before[i].date;
                } else {
                    assert(dates@[k as int].date == out@[i].date);
                }
            }
            assert forall|dd: int| has_date_before(dates@, k + 1, dd) && emits(t, m, dd) implies has_date(out@, dd) by {
                let a = choose|a: int| 0 <= a < k + 1 && a < dates@.len() && dates@[a].date == dd;
                if a < k {
                    assert(has_date_before(dates@, k as int, dd));
                    let i = choose|i: int| 0 <= i < before.len() && i < before.len() && before[i].date == dd;
                    assert(out@[i] == before[i]);
                } else {
                    assert(out@[before.len() as int].date == dd);
                }
            }
        }
        k = k + 1;
    }
    if out.len() == 0 {
        assert forall|d: int| !(in_union(t, m, d) && emits(t, m, d)) by {
            if in_union(t, m, d) && emits(t, m, d) {
                assert(has_date(dates@, d));
                assert(has_date(out@, d));
            }
        }
        None
    } else {
        Some(out)
    }
}

/// Every datum of the index stands on a day where the components present
/// carry at least `COMPLETENESS_GATE` of weight.
pub proof fn lemma_index_gate(v: Seq<PriceData>, t: Seq<ComponentWeight>, m: Seq<Seq<PriceData>>, rates: Seq<PriceData>)
    requires
        is_index_of(v, t, m, rates),
    ensures
        forall|k: int| 0 <= k < v.len() ==> weight_present(t, m, v[k].date as int, t.len() as int) >= COMPLETENESS_GATE,
{
}

proof fn lemma_points_at_anchor(t: Seq<ComponentWeight>, m: Seq<Seq<PriceData>>, d: int, n: int)
    requires
        table_wf(t),
        0 <= n <= t.len(),
        forall|i: int| 0 <= i < t.len() ==> match datum_on(#[trigger] component_series(t, m, i), d) {
            Some(x) => x.price_usd == t[i].anchor_usd,
            None => true,
        },
    ensures
        weighted_points(t, m, d, n) == 100_000_000 * weight_present(t, m, d, n),
    decreases n,
{
    if n > 0 {
        lemma_points_at_anchor(t, m, d, n - 1);
        let a = t[n - 1].anchor_usd as int;
        assert(0 < t[n - 1].weight);
        assert(a > 0);
        lemma_div_by_multiple(100_000_000, a);
        assert((a * 100_000_000) == 100_000_000 * a);
        match datum_on(component_series(t, m, n - 1), d) {
            Some(x) => {
                assert(index_points(x.price_usd, t[n - 1].anchor_usd) == 100_000_000);
            },
            None => {},
        }
    }
}

/// On a day where enough weight is present and every component present is
/// priced at its anchor, each scores `INDEX_BASE` points and the index has
/// a datum worth exactly `INDEX_BASE * INDEX_BASE` whole units.
pub proof fn lemma_index_at_anchor(t: Seq<ComponentWeight>, m: Seq<Seq<PriceData>>, d: int)
    requires
        table_wf(t),
        weight_present(t, m, d, t.len() as int) >= COMPLETENESS_GATE,
        forall|i: int| 0 <= i < t.len() ==> match datum_on(#[trigger] component_series(t, m, i), d) {
            Some(x) => x.price_usd == t[i].anchor_usd,
            None => true,
        },
    ensures
        base_value(t, m, d) == INDEX_BASE * INDEX_BASE * MICROS,
        emits(t, m, d),
{
    let n = t.len() as int;
    lemma_points_at_anchor(t, m, d, n);
    lemma_div_by_multiple(100_000_000, weight_present(t, m, d, n));
}

/// The index is determined by its inputs: two results for the same table,
/// map and rates are equal, so building it again yields the same series.
pub proof fn lemma_index_deterministic(
    v1: Seq<PriceData>,
    v2: Seq<PriceData>,
    t: Seq<ComponentWeight>,
    m: Seq<Seq<PriceData>>,
    rates: Seq<PriceData>,
)
    requires
        is_index_of(v1, t, m, rates),
        is_index_of(v2, t, m, rates),
    ensures
        v1 == v2,
{
    assert forall|d: int| has_date(v1, d) <==> has_date(v2, d) by {
        if has_date(v1, d) {
            let k = choose|k: int| 0 <= k < v1.len() && k < v1.len() && v1[k].date == d;
            assert(in_union(t, m, d) && emits(t, m, d));
        }
        if has_date(v2, d) {
            let k = choose|k: int| 0 <= k < v2.len() && k < v2.len() && v2[k].date == d;
            assert(in_union(t, m, d) && emits(t, m, d));
        }
    }
    lemma_same_days_same_positions(v1, v2);
    assert forall|k: int| 0 <= k < v1.len() implies v1[k] == v2[k] by {
        assert(v1[k] == index_datum(t, m, rates, v1[k].date as int));
        assert(v2[k] == index_datum(t, m, rates, v2[k].date as int));
    }
    assert(v1 =~= v2);
}

/// Adds the consumer basket to `all_data`: its index, built from the
/// other assets' series with `usd_cad_rates` as the secondary fallback, is
/// stored under `Asset::ConsumerBasket` when it has data; otherwise the map
/// is left as it was.
pub fn with_consumer_basket(all_data: &mut AssetSeriesMap, usd_cad_rates: &Vec<PriceData>)
    requires
        old(all_data).wf(),
        dates_increasing(usd_cad_rates@),
    ensures
        final(all_data).wf(),
        ({
            let t = consumer_basket_table();
            let m = old(all_data)@;
            ||| exists|v: Seq<PriceData>|
                v.len() > 0 && is_index_of(v, t, m, usd_cad_rates@)
                    && final(all_data)@ == m.update(Asset::ConsumerBasket.spec_index() as int, v)
            ||| (forall|d: int| !(in_union(t, m, d) && emits(t, m, d))) && final(all_data)@ == m
        }),
{
    let weights = consumer_basket_weights();
    match create_consumer_basket(all_data, &weights, usd_cad_rates) {
        Some(v) => {
            proof {
                assert forall|k: int| 0 <= k < v@.len() implies v@[k].price_usd > 0 by {
                    assert(emits(weights@, all_data@, v@[k].date as int));
                }
                assert(series_wf(v@));
            }
            let ghost vv = v@;
            all_data.insert(Asset::ConsumerBasket, v);
            assert(vv.len() > 0 && is_index_of(vv, weights@, old(all_data)@, usd_cad_rates@));
        },
        None => {},
    }
}

} // verus!
