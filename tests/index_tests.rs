use purchasing_power::align::{
    calculate_btc_values, calculate_cad_values, calculate_usd_values, nearest_index, AlignedPoint, ChartPoint,
};
use purchasing_power::asset_map::AssetSeriesMap;
use purchasing_power::basket::{
    consumer_basket_weights, create_consumer_basket, with_consumer_basket, ComponentWeight, COMPLETENESS_GATE,
};
use purchasing_power::models::{Asset, RepresentationMode};
use purchasing_power::series::PriceData;

// 2021-01-01 counted in days from 1970-01-01.
const JAN_1_2021: i32 = 18628;

fn datum(date: i32, price_usd: u64) -> PriceData {
    PriceData { date, price_usd, price_cad: None }
}

fn two_components() -> Vec<ComponentWeight> {
    vec![
        ComponentWeight { asset: Asset::Gold, weight: 6000, anchor_usd: 100_000_000, anchor_cad: 130_000_000 },
        ComponentWeight { asset: Asset::Silver, weight: 4000, anchor_usd: 50_000_000, anchor_cad: 65_000_000 },
    ]
}

#[test]
fn composite_heavy_component_alone_passes_gate() {
    let mut m = AssetSeriesMap::new();
    m.insert(Asset::Gold, vec![datum(10, 100_000_000)]);
    let out = create_consumer_basket(&m, &two_components(), &vec![]).unwrap();
    // 100 index points, renormalized by the weight present and times 100.
    assert_eq!(out, vec![datum(10, 10_000_000_000)]);
}

#[test]
fn composite_light_component_alone_is_skipped() {
    let mut m = AssetSeriesMap::new();
    m.insert(Asset::Silver, vec![datum(10, 50_000_000)]);
    assert_eq!(create_consumer_basket(&m, &two_components(), &vec![]), None);
}

#[test]
fn composite_at_anchor_prices() {
    let mut m = AssetSeriesMap::new();
    m.insert(Asset::Gold, vec![datum(10, 100_000_000), datum(11, 200_000_000)]);
    m.insert(Asset::Silver, vec![datum(10, 50_000_000), datum(12, 50_000_000)]);
    let out = create_consumer_basket(&m, &two_components(), &vec![]).unwrap();
    // Day 10: both at anchor. Day 11: gold alone at twice its anchor.
    // Day 12: silver alone, short of the completeness threshold.
    assert_eq!(out, vec![datum(10, 10_000_000_000), datum(11, 20_000_000_000)]);
    for d in &out {
        let w: u64 = two_components()
            .iter()
            .filter(|c| m.get(c.asset).iter().any(|x| x.date == d.date))
            .map(|c| c.weight)
            .sum();
        assert!(w >= COMPLETENESS_GATE);
    }
}

#[test]
fn composite_mixed_prices_and_secondary() {
    let mut m = AssetSeriesMap::new();
    m.insert(
        Asset::Gold,
        vec![PriceData { date: 10, price_usd: 150_000_000, price_cad: Some(130_000_000) }],
    );
    m.insert(Asset::Silver, vec![datum(10, 25_000_000)]);
    let rates = vec![datum(10, 1_500_000)];
    let out = create_consumer_basket(&m, &two_components(), &rates).unwrap();
    // Gold scores 150 points at weight 0.6, silver 50 at 0.4: 110 points.
    assert_eq!(out[0].price_usd, 11_000_000_000);
    // Gold's secondary weight (0.6) reaches the completeness threshold: 100 points, times 100.
    assert_eq!(out[0].price_cad, Some(10_000_000_000));

    let mut n = AssetSeriesMap::new();
    n.insert(Asset::Silver, vec![datum(10, 25_000_000)]);
    n.insert(Asset::Gold, vec![datum(10, 150_000_000)]);
    let out = create_consumer_basket(&n, &two_components(), &rates).unwrap();
    // No secondary prices: the base value times the day's rate.
    assert_eq!(out[0].price_cad, Some(16_500_000_000));
    let out = create_consumer_basket(&n, &two_components(), &vec![]).unwrap();
    assert_eq!(out[0].price_cad, None);
}

#[test]
fn composite_is_repeatable() {
    let mut m = AssetSeriesMap::new();
    m.insert(Asset::Oil, vec![datum(1, 75_000_000), datum(2, 80_000_000), datum(5, 70_000_000)]);
    m.insert(Asset::Beef, vec![datum(2, 1_400_000), datum(3, 1_500_000)]);
    m.insert(Asset::Wheat, vec![datum(1, 6_500_000), datum(2, 6_000_000), datum(3, 7_000_000)]);
    m.insert(Asset::Gold, vec![datum(2, 1_800_000_000), datum(3, 1_900_000_000)]);
    let weights = consumer_basket_weights();
    let rates = vec![datum(2, 1_300_000)];
    let first = create_consumer_basket(&m, &weights, &rates);
    let second = create_consumer_basket(&m, &weights, &rates);
    assert_eq!(first, second);
}

#[test]
fn consumer_basket_table_and_insertion() {
    let weights = consumer_basket_weights();
    assert_eq!(weights.len(), 14);
    let total: u64 = weights.iter().map(|c| c.weight).sum();
    assert_eq!(total, 8000);
    let mut m = AssetSeriesMap::new();
    let heavy = [Asset::Oil, Asset::Beef, Asset::Wheat, Asset::Lumber, Asset::Gold, Asset::Rice];
    for c in &weights {
        if heavy.contains(&c.asset) {
            m.insert(c.asset, vec![datum(7, c.anchor_usd)]);
        }
    }
    with_consumer_basket(&mut m, &vec![]);
    assert_eq!(m.get(Asset::ConsumerBasket), &vec![datum(7, 10_000_000_000)]);

    let mut sparse = AssetSeriesMap::new();
    sparse.insert(Asset::Gold, vec![datum(7, 1_800_000_000)]);
    with_consumer_basket(&mut sparse, &vec![]);
    assert!(!sparse.contains(Asset::ConsumerBasket));
    assert_eq!(sparse.len(), 1);
}

#[test]
fn align_nearest_within_window() {
    let a = vec![datum(JAN_1_2021, 30_000_000_000), datum(JAN_1_2021 + 4, 40_000_000_000)];
    let b = vec![datum(JAN_1_2021 + 2, 2_000_000_000)];
    let points = calculate_btc_values(&a, &b, RepresentationMode::PricePerUnit);
    assert_eq!(
        points,
        vec![
            AlignedPoint { day: JAN_1_2021, matched_day: JAN_1_2021 + 2, exact: false, value: 66_666 },
            AlignedPoint { day: JAN_1_2021 + 4, matched_day: JAN_1_2021 + 2, exact: false, value: 50_000 },
        ]
    );
}

#[test]
fn align_prefers_exact_and_drops_wide_gaps() {
    let a = vec![datum(100, 4_000_000), datum(200, 4_000_000), datum(300, 4_000_000)];
    let b = vec![datum(99, 1_000_000), datum(100, 2_000_000), datum(101, 8_000_000), datum(331, 1_000_000)];
    let points = calculate_btc_values(&a, &b, RepresentationMode::UnitsPerCurrency);
    assert_eq!(
        points,
        vec![
            AlignedPoint { day: 100, matched_day: 100, exact: true, value: 2_000_000 },
        ]
    );
    let b2 = vec![datum(98, 1_000_000), datum(102, 2_000_000), datum(330, 4_000_000)];
    let points = calculate_btc_values(&a, &b2, RepresentationMode::UnitsPerCurrency);
    // Day 100 ties between 98 and 102: the earlier wins. Day 300 is 30 days
    // from 330, still inside the window; day 200 is not near anything.
    assert_eq!(
        points,
        vec![
            AlignedPoint { day: 100, matched_day: 98, exact: false, value: 4_000_000 },
            AlignedPoint { day: 300, matched_day: 330, exact: false, value: 1_000_000 },
        ]
    );
    assert_eq!(calculate_btc_values(&a, &vec![], RepresentationMode::UnitsPerCurrency), vec![]);
    assert_eq!(nearest_index(&b2, 100), Some(0));
    assert_eq!(nearest_index(&b2, 101), Some(1));
    assert_eq!(nearest_index(&b2, 1000), Some(2));
    assert_eq!(nearest_index(&vec![], 1000), None);
}

#[test]
fn aligned_points_from_map() {
    let mut m = AssetSeriesMap::new();
    m.insert(Asset::Bitcoin, vec![datum(10, 50_000_000_000), datum(20, 60_000_000_000)]);
    m.insert(Asset::Gold, vec![datum(12, 2_000_000_000)]);
    let points = m.get_aligned_points(Asset::Bitcoin, Asset::Gold, RepresentationMode::UnitsPerCurrency);
    assert_eq!(
        points,
        vec![
            AlignedPoint { day: 10, matched_day: 12, exact: false, value: 25_000_000 },
            AlignedPoint { day: 20, matched_day: 12, exact: false, value: 30_000_000 },
        ]
    );
    assert!(m.get_aligned_points(Asset::Bitcoin, Asset::Oil, RepresentationMode::UnitsPerCurrency).is_empty());
}

#[test]
fn single_series_charts() {
    let s = vec![
        PriceData { date: 1, price_usd: 2_000_000, price_cad: Some(4_000_000) },
        PriceData { date: 2, price_usd: 500_000, price_cad: None },
        PriceData { date: 3, price_usd: 1_000_000, price_cad: Some(0) },
    ];
    assert_eq!(
        calculate_usd_values(&s, RepresentationMode::PricePerUnit),
        vec![
            ChartPoint { day: 1, value: 2_000_000 },
            ChartPoint { day: 2, value: 500_000 },
            ChartPoint { day: 3, value: 1_000_000 },
        ]
    );
    assert_eq!(
        calculate_usd_values(&s, RepresentationMode::UnitsPerCurrency),
        vec![
            ChartPoint { day: 1, value: 500_000 },
            ChartPoint { day: 2, value: 2_000_000 },
            ChartPoint { day: 3, value: 1_000_000 },
        ]
    );
    assert_eq!(
        calculate_cad_values(&s, RepresentationMode::UnitsPerCurrency),
        vec![ChartPoint { day: 1, value: 250_000 }]
    );
    assert_eq!(
        calculate_cad_values(&s, RepresentationMode::PricePerUnit),
        vec![ChartPoint { day: 1, value: 4_000_000 }]
    );
}
