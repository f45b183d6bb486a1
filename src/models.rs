use vstd::prelude::*;

verus! {

/// Number of variants of `Asset`.
pub const ASSET_COUNT: usize = 16;

/// A tracked instrument: one cryptocurrency, fourteen physical
/// commodities and the synthetic composite basket.
#[derive(Debug, Clone, Copy, PartialEq, Eq, Hash, Structural)]
pub enum Asset {
    Bitcoin,
    Gold,
    Wheat,
    Corn,
    Beef,
    Coffee,
    Rice,
    Oil,
    NaturalGas,
    Copper,
    Silver,
    Soybeans,
    Sugar,
    Cotton,
    Lumber,
    ConsumerBasket,
}

/// How a comparison ratio is oriented.
#[derive(Debug, Clone, Copy, PartialEq, Eq, Structural)]
pub enum RepresentationMode {
    /// How many units of the asset one unit of currency buys.
    UnitsPerCurrency,
    /// How much currency one unit of the asset costs.
    PricePerUnit,
}

impl Asset {
    /// Position of the asset in declaration order.
    pub open spec fn spec_index(self) -> nat {
        match self {
            Asset::Bitcoin => 0,
            Asset::Gold => 1,
            Asset::Wheat => 2,
            Asset::Corn => 3,
            Asset::Beef => 4,
            Asset::Coffee => 5,
            Asset::Rice => 6,
            Asset::Oil => 7,
            Asset::NaturalGas => 8,
            Asset::Copper => 9,
            Asset::Silver => 10,
            Asset::Soybeans => 11,
            Asset::Sugar => 12,
            Asset::Cotton => 13,
            Asset::Lumber => 14,
            Asset::ConsumerBasket => 15,
        }
    }

    pub open spec fn spec_name(self) -> Seq<char> {
        match self {
            Asset::Bitcoin => "Bitcoin"@,
            Asset::Gold => "Gold (per oz)"@,
            Asset::Wheat => "Wheat (per bushel)"@,
            Asset::Corn => "Corn (per bushel)"@,
            Asset::Beef => "Beef (per lb)"@,
            Asset::Coffee => "Coffee (per lb)"@,
            Asset::Rice => "Rice (per cwt)"@,
            Asset::Oil => "Crude Oil (per barrel)"@,
            Asset::NaturalGas => "Natural Gas (per MMBtu)"@,
            Asset::Copper => "Copper (per lb)"@,
            Asset::Silver => "Silver (per oz)"@,
            Asset::Soybeans => "Soybeans (per bushel)"@,
            Asset::Sugar => "Sugar (per lb)"@,
            Asset::Cotton => "Cotton (per lb)"@,
            Asset::Lumber => "Lumber (per 1000 bd ft)"@,
            Asset::ConsumerBasket => "Consumer Basket (Blended)"@,
        }
    }

    pub open spec fn spec_base_name(self) -> Seq<char> {
        match self {
            Asset::Bitcoin => "Bitcoin"@,
            Asset::Gold => "Gold"@,
            Asset::Wheat => "Wheat"@,
            Asset::Corn => "Corn"@,
            Asset::Beef => "Beef"@,
            Asset::Coffee => "Coffee"@,
            Asset::Rice => "Rice"@,
            Asset::Oil => "Oil"@,
            Asset::NaturalGas => "Natural Gas"@,
            Asset::Copper => "Copper"@,
            Asset::Silver => "Silver"@,
            Asset::Soybeans => "Soybeans"@,
            Asset::Sugar => "Sugar"@,
            Asset::Cotton => "Cotton"@,
            Asset::Lumber => "Lumber"@,
            Asset::ConsumerBasket => "Consumer Basket"@,
        }
    }

    pub open spec fn spec_unit(self) -> Seq<char> {
        match self {
            Asset::Bitcoin => "BTC"@,
            Asset::Gold => "oz"@,
            Asset::Wheat => "bushel"@,
            Asset::Corn => "bushel"@,
            Asset::Beef => "lb"@,
            Asset::Coffee => "lb"@,
            Asset::Rice => "cwt"@,
            Asset::Oil => "barrel"@,
            Asset::NaturalGas => "MMBtu"@,
            Asset::Copper => "lb"@,
            Asset::Silver => "oz"@,
            Asset::Soybeans => "bushel"@,
            Asset::Sugar => "lb"@,
            Asset::Cotton => "lb"@,
            Asset::Lumber => "1000 bd ft"@,
            Asset::ConsumerBasket => "basket"@,
        }
    }

    /// Display name, with the unit the price is quoted in.
    pub fn name(&self) -> (r: &'static str)
        ensures
            r@ == self.spec_name(),
    {
        match self {
            Asset::Bitcoin => "Bitcoin",
            Asset::Gold => "Gold (per oz)",
            Asset::Wheat => "Wheat (per bushel)",
            Asset::Corn => "Corn (per bushel)",
            Asset::Beef => "Beef (per lb)",
            Asset::Coffee => "Coffee (per lb)",
            Asset::Rice => "Rice (per cwt)",
            Asset::Oil => "Crude Oil (per barrel)",
            Asset::NaturalGas => "Natural Gas (per MMBtu)",
            Asset::Copper => "Copper (per lb)",
            Asset::Silver => "Silver (per oz)",
            Asset::Soybeans => "Soybeans (per bushel)",
            Asset::Sugar => "Sugar (per lb)",
            Asset::Cotton => "Cotton (per lb)",
            Asset::Lumber => "Lumber (per 1000 bd ft)",
            Asset::ConsumerBasket => "Consumer Basket (Blended)",
        }
    }

    /// Short name without the unit.
    pub fn base_name(&self) -> (r: &'static str)
        ensures
            r@ == self.spec_base_name(),
    {
        match self {
            Asset::Bitcoin => "Bitcoin",
            Asset::Gold => "Gold",
            Asset::Wheat => "Wheat",
            Asset::Corn => "Corn",
            Asset::Beef => "Beef",
            Asset::Coffee => "Coffee",
            Asset::Rice => "Rice",
            Asset::Oil => "Oil",
            Asset::NaturalGas => "Natural Gas",
            Asset::Copper => "Copper",
            Asset::Silver => "Silver",
            Asset::Soybeans => "Soybeans",
            Asset::Sugar => "Sugar",
            Asset::Cotton => "Cotton",
            Asset::Lumber => "Lumber",
            Asset::ConsumerBasket => "Consumer Basket",
        }
    }

    /// Unit label used when formatting quantities of the asset.
    pub fn unit(&self) -> (r: &'static str)
        ensures
            r@ == self.spec_unit(),
    {
        match self {
            Asset::Bitcoin => "BTC",
            Asset::Gold => "oz",
            Asset::Wheat => "bushel",
            Asset::Corn => "bushel",
            Asset::Beef => "lb",
            Asset::Coffee => "lb",
            Asset::Rice => "cwt",
            Asset::Oil => "barrel",
            Asset::NaturalGas => "MMBtu",
            Asset::Copper => "lb",
            Asset::Silver => "oz",
            Asset::Soybeans => "bushel",
            Asset::Sugar => "lb",
            Asset::Cotton => "lb",
            Asset::Lumber => "1000 bd ft",
            Asset::ConsumerBasket => "basket",
        }
    }

    /// Position of the asset in declaration order; a slot in an
    /// `AssetSeriesMap`.
    pub fn index(&self) -> (r: usize)
        ensures
            r == self.spec_index(),
            r < ASSET_COUNT,
    {
        match self {
            Asset::Bitcoin => 0,
            Asset::Gold => 1,
            Asset::Wheat => 2,
            Asset::Corn => 3,
            Asset::Beef => 4,
            Asset::Coffee => 5,
            Asset::Rice => 6,
            Asset::Oil => 7,
            Asset::NaturalGas => 8,
            Asset::Copper => 9,
            Asset::Silver => 10,
            Asset::Soybeans => 11,
            Asset::Sugar => 12,
            Asset::Cotton => 13,
            Asset::Lumber => 14,
            Asset::ConsumerBasket => 15,
        }
    }
}

/// One asset's quoted price at an instant: `price_usd` in micros,
/// `timestamp` in seconds since 1970-01-01 00:00 UTC.
#[derive(Debug, Clone, Copy, PartialEq, Eq, Structural)]
pub struct AssetPrice {
    pub asset: Asset,
    pub price_usd: u64,
    pub timestamp: i64,
}

/// The price of one asset in units of another at an instant: `ratio` in
/// micros, `timestamp` in seconds since 1970-01-01 00:00 UTC.
#[derive(Debug, Clone, Copy, PartialEq, Eq, Structural)]
pub struct PriceComparison {
    pub base_asset: Asset,
    pub target_asset: Asset,
    pub ratio: u128,
    pub timestamp: i64,
}

pub open spec fn spec_ticker(a: Asset) -> Option<Seq<char>> {
    match a {
        Asset::Bitcoin => Some("BTC-USD"@),
        Asset::Gold => Some("GC=F"@),
        Asset::Silver => Some("SI=F"@),
        Asset::Oil => Some("CL=F"@),
        Asset::NaturalGas => Some("NG=F"@),
        Asset::Copper => Some("HG=F"@),
        Asset::Wheat => Some("ZW=F"@),
        Asset::Corn => Some("ZC=F"@),
        Asset::Soybeans => Some("ZS=F"@),
        Asset::Coffee => Some("KC=F"@),
        Asset::Sugar => Some("SB=F"@),
        Asset::Cotton => Some("CT=F"@),
        Asset::Beef => Some("LE=F"@),
        Asset::Rice => Some("ZR=F"@),
        Asset::Lumber => Some("LBS=F"@),
        Asset::ConsumerBasket => None,
    }
}

/// The market ticker quoting `asset` (a futures contract for a commodity);
/// none for the composite basket, which is computed.
pub fn get_ticker_for_asset(asset: Asset) -> (r: Option<&'static str>)
    ensures
        match r {
            Some(t) => spec_ticker(asset) == Some(t@),
            None => spec_ticker(asset) is None,
        },
{
    match asset {
        Asset::Bitcoin => Some("BTC-USD"),
        Asset::Gold => Some("GC=F"),
        Asset::Silver => Some("SI=F"),
        Asset::Oil => Some("CL=F"),
        Asset::NaturalGas => Some("NG=F"),
        Asset::Copper => Some("HG=F"),
        Asset::Wheat => Some("ZW=F"),
        Asset::Corn => Some("ZC=F"),
        Asset::Soybeans => Some("ZS=F"),
        Asset::Coffee => Some("KC=F"),
        Asset::Sugar => Some("SB=F"),
        Asset::Cotton => Some("CT=F"),
        Asset::Beef => Some("LE=F"),
        Asset::Rice => Some("ZR=F"),
        Asset::Lumber => Some("LBS=F"),
        Asset::ConsumerBasket => None,
    }
}

/// The ticker of the USD/CAD exchange rate.
pub const USD_CAD_TICKER: &'static str = "CAD=X";

/// Assets whose futures are quoted in cents rather than dollars.
pub open spec fn quoted_in_cents(a: Asset) -> bool {
    match a {
        Asset::Wheat | Asset::Corn | Asset::Soybeans | Asset::Coffee | Asset::Sugar | Asset::Cotton
        | Asset::Beef | Asset::Rice | Asset::Copper => true,
        _ => false,
    }
}

/// The assets fetched from a market source, in fetch order: all but the
/// composite basket.
pub open spec fn spec_tracked_assets() -> Seq<Asset> {
    seq![
        Asset::Bitcoin,
        Asset::Gold,
        Asset::Silver,
        Asset::Oil,
        Asset::NaturalGas,
        Asset::Copper,
        Asset::Wheat,
        Asset::Corn,
        Asset::Soybeans,
        Asset::Coffee,
        Asset::Sugar,
        Asset::Cotton,
        Asset::Beef,
        Asset::Rice,
        Asset::Lumber,
    ]
}

/// The assets fetched from a market source (see `spec_tracked_assets`).
pub fn tracked_assets() -> (r: Vec<Asset>)
    ensures
        r@ == spec_tracked_assets(),
{
    let r = vec![
        Asset::Bitcoin,
        Asset::Gold,
        Asset::Silver,
        Asset::Oil,
        Asset::NaturalGas,
        Asset::Copper,
        Asset::Wheat,
        Asset::Corn,
        Asset::Soybeans,
        Asset::Coffee,
        Asset::Sugar,
        Asset::Cotton,
        Asset::Beef,
        Asset::Rice,
        Asset::Lumber,
    ];
    assert(r@ =~= spec_tracked_assets());
    r
}

} // verus!
