use vstd::prelude::*;
use crate::models::{Asset, RepresentationMode, ASSET_COUNT};
use crate::align::{AlignedPoint, aligned, calculate_btc_values};
use crate::series::{PriceData, series_wf};

verus! {

/// One well-formed series per asset; an asset without data has an empty
/// series.
pub struct AssetSeriesMap {
    slots: Vec<Vec<PriceData>>,
}

impl AssetSeriesMap {
    /// One slot per asset, each holding a well-formed series.
    pub open spec fn wf(&self) -> bool {
        &&& self@.len() == ASSET_COUNT
        &&& forall|i: int| 0 <= i < ASSET_COUNT ==> series_wf(#[trigger] self@[i])
    }

    /// The series of each asset, by `Asset::spec_index`.
    pub closed spec fn view(&self) -> Seq<Seq<PriceData>> {
        self.slots@.map_values(|v: Vec<PriceData>| v@)
    }

    /// A map in which no asset has data.
    pub fn new() -> (r: Self)
        ensures
            r.wf(),
            forall|i: int| 0 <= i < ASSET_COUNT ==> r@[i].len() == 0,
    {
        let mut slots: Vec<Vec<PriceData>> = Vec::new();
        let mut i: usize = 0;
        while i < ASSET_COUNT
            invariant
                i <= ASSET_COUNT,
                slots@.len() == i,
                forall|j: int| 0 <= j < i ==> slots@[j]@.len() == 0,
            decreases ASSET_COUNT - i,
        {
            slots.push(Vec::new());
            i = i + 1;
        }
        let r = AssetSeriesMap { slots };
        assert forall|i: int| 0 <= i < ASSET_COUNT implies series_wf(#[trigger] r@[i]) by {
            assert(r@[i] == slots@[i]@);
        }
        r
    }

    /// The series stored for `asset`; empty when it has no data.
    pub fn get(&self, asset: Asset) -> (r: &Vec<PriceData>)
        requires
            self.wf(),
        ensures
            r@ == self@[asset.spec_index() as int],
            series_wf(r@),
    {
        let i = asset.index();
        assert(series_wf(self@[i as int]));
        &self.slots[i]
    }

    /// Whether `asset` has at least one datum.
    pub fn contains(&self, asset: Asset) -> (r: bool)
        requires
            self.wf(),
        ensures
            r == (self@[asset.spec_index() as int].len() > 0),
    {
        self.get(asset).len() > 0
    }

    /// Stores `series` for `asset`, replacing what was there.
    pub fn insert(&mut self, asset: Asset, series: Vec<PriceData>)
        requires
            old(self).wf(),
            series_wf(series@),
        ensures
            final(self).wf(),
            final(self)@ == old(self)@.update(asset.spec_index() as int, series@),
    {
        let i = asset.index();
        let ghost before = self@;
        self.slots.set(i, series);
        assert(self@ =~= before.update(i as int, series@));
    }

    /// Number of assets with at least one datum.
    pub fn len(&self) -> (r: usize)
        requires
            self.wf(),
        ensures
            r == Set::new(|i: int| 0 <= i < ASSET_COUNT && self@[i].len() > 0).len(),
    {
        let mut n: usize = 0;
        let mut i: usize = 0;
        assert(Set::new(|k: int| 0 <= k < 0 && self@[k].len() > 0) =~= Set::<int>::empty());
        while i < ASSET_COUNT
            invariant
                i <= ASSET_COUNT,
                self.slots@.len() == ASSET_COUNT,
                n == Set::new(|k: int| 0 <= k < i && self@[k].len() > 0).len(),
                Set::new(|k: int| 0 <= k < i && self@[k].len() > 0).finite(),
                n <= i,
            decreases ASSET_COUNT - i,
        {
            let ghost before = Set::new(|k: int| 0 <= k < i && self@[k].len() > 0);
            if self.slots[i].len() > 0 {
                proof {
                    assert(Set::new(|k: int| 0 <= k < i + 1 && self@[k].len() > 0) =~= before.insert(i as int));
                }
                n = n + 1;
            } else {
                proof {
                    assert(Set::new(|k: int| 0 <= k < i + 1 && self@[k].len() > 0) =~= before);
                }
            }
            i = i + 1;
        }
        n
    }

    /// Comparison points of asset `a` against asset `b` (see
    /// `calculate_btc_values`); empty when either has no data.
    pub fn get_aligned_points(&self, a: Asset, b: Asset, mode: RepresentationMode) -> (r: Vec<AlignedPoint>)
        requires
            self.wf(),
        ensures
            r@ == aligned(self@[a.spec_index() as int], self@[b.spec_index() as int], mode),
    {
        calculate_btc_values(self.get(a), self.get(b), mode)
    }
}

} // verus!
