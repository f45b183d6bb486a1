use purchasing_power::asset_map::AssetSeriesMap;
use purchasing_power::merge::merge_btc_data;
use purchasing_power::models::{get_ticker_for_asset, tracked_assets, Asset, USD_CAD_TICKER};
use purchasing_power::normalize::{
    normalize_fetched, rescale, unit_scale_for, with_secondary, CENTS_TO_UNITS, DEFAULT_USD_CAD_RATE,
};
use purchasing_power::observations::{series_from_observations, Observation};
use purchasing_power::series::{find_date, is_well_formed, DataQualityError, PriceData, MICROS};

// 2021-01-01 counted in days from 1970-01-01.
const JAN_1_2021: i32 = 18628;

fn datum(date: i32, price_usd: u64) -> PriceData {
    PriceData { date, price_usd, price_cad: None }
}

#[test]
fn asset_labels() {
    assert_eq!(Asset::Gold.name(), "Gold (per oz)");
    assert_eq!(Asset::Gold.base_name(), "Gold");
    assert_eq!(Asset::Gold.unit(), "oz");
    assert_eq!(Asset::NaturalGas.name(), "Natural Gas (per MMBtu)");
    assert_eq!(Asset::Lumber.unit(), "1000 bd ft");
    assert_eq!(Asset::ConsumerBasket.name(), "Consumer Basket (Blended)");
    assert_eq!(Asset::ConsumerBasket.base_name(), "Consumer Basket");
    assert_eq!(Asset::ConsumerBasket.unit(), "basket");
    assert_eq!(Asset::Bitcoin.unit(), "BTC");
    assert_eq!(Asset::Bitcoin.index(), 0);
    assert_eq!(Asset::ConsumerBasket.index(), 15);
}

#[test]
fn tickers() {
    assert_eq!(get_ticker_for_asset(Asset::Bitcoin), Some("BTC-USD"));
    assert_eq!(get_ticker_for_asset(Asset::Lumber), Some("LBS=F"));
    assert_eq!(get_ticker_for_asset(Asset::Beef), Some("LE=F"));
    assert_eq!(get_ticker_for_asset(Asset::ConsumerBasket), None);
    assert_eq!(USD_CAD_TICKER, "CAD=X");
    let assets = tracked_assets();
    assert_eq!(assets.len(), 15);
    assert!(!assets.contains(&Asset::ConsumerBasket));
    for a in assets {
        assert!(get_ticker_for_asset(a).is_some());
    }
}

#[test]
fn well_formedness_and_lookup() {
    let s = vec![datum(1, 5), datum(3, 6), datum(7, 8)];
    assert!(is_well_formed(&s));
    assert!(!is_well_formed(&vec![datum(3, 5), datum(3, 6)]));
    assert!(!is_well_formed(&vec![datum(4, 5), datum(3, 6)]));
    assert!(!is_well_formed(&vec![datum(1, 0)]));
    assert!(is_well_formed(&vec![]));
    assert_eq!(find_date(&s, 3), Some(1));
    assert_eq!(find_date(&s, 7), Some(2));
    assert_eq!(find_date(&s, 1), Some(0));
    assert_eq!(find_date(&s, 4), None);
    assert_eq!(find_date(&vec![], 4), None);
}

#[test]
fn merge_preferred_overrides_fallback() {
    let d1 = JAN_1_2021;
    let d2 = JAN_1_2021 + 1;
    let preferred = vec![datum(d1, 10)];
    let fallback = vec![datum(d1, 99), datum(d2, 20)];
    let merged = merge_btc_data(preferred, fallback);
    assert_eq!(merged, vec![datum(d1, 10), datum(d2, 20)]);
}

#[test]
fn merge_counts_union_of_days() {
    let a = vec![datum(1, 1), datum(4, 4), datum(6, 6)];
    let b = vec![datum(2, 20), datum(4, 40), datum(9, 90)];
    let merged = merge_btc_data(a, b);
    // {1, 4, 6} and {2, 4, 9} cover five days.
    assert_eq!(merged.len(), 5);
    assert_eq!(
        merged,
        vec![datum(1, 1), datum(2, 20), datum(4, 4), datum(6, 6), datum(9, 90)]
    );
    assert_eq!(merge_btc_data(vec![], vec![]), vec![]);
    assert_eq!(merge_btc_data(vec![], vec![datum(2, 3)]), vec![datum(2, 3)]);
}

#[test]
fn rescale_by_one_is_identity() {
    let s = vec![datum(1, 5), datum(2, 7_000_000), datum(9, u64::MAX)];
    assert_eq!(rescale(&s, MICROS), Ok(s.clone()));
    assert_eq!(rescale(&vec![], MICROS), Ok(vec![]));
}

#[test]
fn rescale_cents_and_faults() {
    // 650 cents a bushel is 6.50 dollars.
    let s = vec![datum(1, 650_000_000), datum(2, 1_000_000)];
    assert_eq!(rescale(&s, CENTS_TO_UNITS), Ok(vec![datum(1, 6_500_000), datum(2, 10_000)]));
    let with_cad = vec![PriceData { date: 1, price_usd: 100, price_cad: Some(135) }];
    assert_eq!(rescale(&with_cad, MICROS), Ok(vec![datum(1, 100)]));
    let tiny = vec![datum(1, 650), datum(2, 99), datum(3, 50)];
    assert_eq!(
        rescale(&tiny, CENTS_TO_UNITS),
        Err(DataQualityError::NonPositivePrice { date: 2 })
    );
    let big = vec![datum(4, u64::MAX)];
    assert_eq!(
        rescale(&big, 2 * MICROS),
        Err(DataQualityError::OutOfRange { date: 4 })
    );
}

#[test]
fn secondary_price_from_rates_or_fallback() {
    let s = vec![datum(1, 100_000_000), datum(2, 200_000_000)];
    let rates = vec![datum(1, 1_250_000)];
    let r = with_secondary(&s, &rates, DEFAULT_USD_CAD_RATE).unwrap();
    assert_eq!(r[0].price_cad, Some(125_000_000));
    assert_eq!(r[1].price_cad, Some(270_000_000));
    assert_eq!(r[1].price_usd, 200_000_000);
    let none = with_secondary(&s, &vec![], DEFAULT_USD_CAD_RATE).unwrap();
    assert_eq!(none[0].price_cad, Some(135_000_000));
    let big = vec![datum(3, u64::MAX)];
    assert_eq!(
        with_secondary(&big, &vec![], DEFAULT_USD_CAD_RATE),
        Err(DataQualityError::OutOfRange { date: 3 })
    );
}

#[test]
fn fetched_series_normalized() {
    assert_eq!(unit_scale_for(Asset::Wheat), CENTS_TO_UNITS);
    assert_eq!(unit_scale_for(Asset::Gold), MICROS);
    let raw = vec![datum(1, 650_000_000)];
    let rates = vec![datum(1, 1_400_000)];
    let wheat = normalize_fetched(Asset::Wheat, &raw, &rates).unwrap();
    assert_eq!(wheat, vec![PriceData { date: 1, price_usd: 6_500_000, price_cad: Some(9_100_000) }]);
    let gold = normalize_fetched(Asset::Gold, &raw, &vec![]).unwrap();
    assert_eq!(gold, vec![PriceData { date: 1, price_usd: 650_000_000, price_cad: Some(877_500_000) }]);
    assert_eq!(
        normalize_fetched(Asset::Corn, &vec![datum(5, 10)], &rates),
        Err(DataQualityError::NonPositivePrice { date: 5 })
    );
}

#[test]
fn observations_become_series() {
    let obs = vec![
        Observation { date: 1, price: 10 },
        Observation { date: 2, price: 20 },
        Observation { date: 2, price: 21 },
        Observation { date: 5, price: 50 },
    ];
    assert_eq!(
        series_from_observations(&obs),
        Ok(vec![datum(1, 10), datum(2, 21), datum(5, 50)])
    );
    let negative = vec![Observation { date: 1, price: 10 }, Observation { date: 2, price: -3 }];
    assert_eq!(
        series_from_observations(&negative),
        Err(DataQualityError::NonPositivePrice { date: 2 })
    );
    let unsorted = vec![Observation { date: 4, price: 10 }, Observation { date: 2, price: 3 }];
    assert_eq!(
        series_from_observations(&unsorted),
        Err(DataQualityError::OutOfOrder { date: 2 })
    );
    assert_eq!(series_from_observations(&vec![]), Ok(vec![]));
}

#[test]
fn asset_map_slots() {
    let mut m = AssetSeriesMap::new();
    assert_eq!(m.len(), 0);
    assert!(!m.contains(Asset::Gold));
    assert!(m.get(Asset::Gold).is_empty());
    m.insert(Asset::Gold, vec![datum(1, 5)]);
    m.insert(Asset::Oil, vec![datum(2, 6)]);
    assert_eq!(m.len(), 2);
    assert!(m.contains(Asset::Gold));
    assert_eq!(m.get(Asset::Oil), &vec![datum(2, 6)]);
    m.insert(Asset::Gold, vec![]);
    assert_eq!(m.len(), 1);
}
