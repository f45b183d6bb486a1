//! Cross-asset purchasing-power data pipeline.
//!
//! Prices are fixed-point integers in millionths of a currency unit
//! ("micros"), and calendar dates are day numbers counted from
//! 1970-01-01. The modules build on each other:
//! - `models`: the asset enumeration and its static lookup tables;
//! - `series`: the price datum, series well-formedness and date lookup;
//! - `observations`: turning raw dated observations into a series;
//! - `normalize`: unit rescaling and secondary-currency derivation;
//! - `merge`: the preferred/fallback override merge;
//! - `asset_map`: one series per asset, the unit of exchange between stages;
//! - `basket`: the completeness-gated weighted composite index;
//! - `align`: exact or nearest-date pairing of two series.

pub mod models;
pub mod series;
pub mod observations;
pub mod merge;
pub mod normalize;
pub mod asset_map;
pub mod basket;
pub mod align;
