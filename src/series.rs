use vstd::prelude::*;

verus! {

/// Prices are fixed-point integers: this many units make one currency unit.
pub const MICROS: u64 = 1_000_000;

/// One asset's price on one calendar day.
///
/// `date` counts days from 1970-01-01; prices are in micros. The base
/// price is in US dollars; the secondary price, when derived, is in
/// Canadian dollars.
#[derive(Debug, Clone, Copy, PartialEq, Eq, Structural)]
pub struct PriceData {
    pub date: i32,
    pub price_usd: u64,
    pub price_cad: Option<u64>,
}

/// A datum that cannot be accepted into a series, with the day it falls on.
#[derive(Debug, Clone, Copy, PartialEq, Eq, Structural)]
pub enum DataQualityError {
    /// The price is zero or negative.
    NonPositivePrice { date: i32 },
    /// The price does not fit the fixed-point range.
    OutOfRange { date: i32 },
    /// The day comes before the day of the datum preceding it.
    OutOfOrder { date: i32 },
}

/// A series is well formed when its dates strictly increase and every
/// base price is positive.
pub open spec fn series_wf(s: Seq<PriceData>) -> bool {
    &&& dates_increasing(s)
    &&& forall|i: int| 0 <= i < s.len() ==> s[i].price_usd > 0
}

/// Dates strictly increase.
pub open spec fn dates_increasing(s: Seq<PriceData>) -> bool {
    forall|i: int, j: int| 0 <= i < j < s.len() ==> s[i].date < s[j].date
}

/// Some datum of `s` falls on day `d`.
pub open spec fn has_date(s: Seq<PriceData>, d: int) -> bool {
    has_date_before(s, s.len() as int, d)
}

/// Some datum among the first `n` of `s` falls on day `d`.
pub open spec fn has_date_before(s: Seq<PriceData>, n: int, d: int) -> bool {
    exists|i: int| 0 <= i < n && i < s.len() && s[i].date == d
}

/// The set of days that `s` covers.
pub open spec fn date_set(s: Seq<PriceData>) -> Set<int> {
    Set::new(|d: int| has_date(s, d))
}

/// The datum of `s` on day `d`, if any (the first one when dates repeat).
pub open spec fn datum_on(s: Seq<PriceData>, d: int) -> Option<PriceData>
    decreases s.len(),
{
    if s.len() == 0 {
        None
    } else if s[0].date == d {
        Some(s[0])
    } else {
        datum_on(s.drop_first(), d)
    }
}

/// In a series with increasing dates, the datum found for a covered day
/// is the one at that day's position.
pub proof fn lemma_datum_on_index(s: Seq<PriceData>, i: int)
    requires
        dates_increasing(s),
        0 <= i < s.len(),
    ensures
        datum_on(s, s[i].date as int) == Some(s[i]),
    decreases s.len(),
{
    if i > 0 {
        assert(s[0].date < s[i].date);
        let t = s.drop_first();
        assert(t[i - 1] == s[i]);
        lemma_datum_on_index(t, i - 1);
    }
}

/// A day that `s` does not cover has no datum.
pub proof fn lemma_datum_on_absent(s: Seq<PriceData>, d: int)
    requires
        !has_date(s, d),
    ensures
        datum_on(s, d) is None,
    decreases s.len(),
{
    if s.len() > 0 {
        let t = s.drop_first();
        assert forall|i: int| 0 <= i < t.len() implies t[i].date != d by {
            assert(t[i] == s[i + 1]);
        }
        lemma_datum_on_absent(t, d);
    }
}

/// The days of a series, in order.
pub open spec fn date_seq(s: Seq<PriceData>) -> Seq<int> {
    s.map_values(|x: PriceData| x.date as int)
}

/// A series with increasing dates covers as many days as it has data.
pub proof fn lemma_date_set_len(s: Seq<PriceData>)
    requires
        dates_increasing(s),
    ensures
        date_set(s).finite(),
        date_set(s).len() == s.len(),
{
    let ds = date_seq(s);
    assert(ds.no_duplicates()) by {
        assert forall|i: int, j: int| 0 <= i < ds.len() && 0 <= j < ds.len() && i != j implies ds[i] != ds[j] by {
            if i < j {
                assert(s[i].date < s[j].date);
            } else {
                assert(s[j].date < s[i].date);
            }
        }
    }
    assert(ds.to_set() =~= date_set(s)) by {
        assert forall|d: int| ds.to_set().contains(d) implies date_set(s).contains(d) by {
            let i = choose|i: int| 0 <= i < ds.len() && ds[i] == d;
            assert(s[i].date == d);
        }
        assert forall|d: int| date_set(s).contains(d) implies ds.to_set().contains(d) by {
            let i = choose|i: int| 0 <= i < s.len() && i < s.len() && s[i].date == d;
            assert(ds[i] == d);
        }
    }
    ds.unique_seq_to_set();
}

/// Two series with increasing dates that cover the same days have the
/// same length and the same day at each position.
pub proof fn lemma_same_days_same_positions(a: Seq<PriceData>, b: Seq<PriceData>)
    requires
        dates_increasing(a),
        dates_increasing(b),
        forall|d: int| has_date(a, d) <==> has_date(b, d),
    ensures
        a.len() == b.len(),
        forall|i: int| 0 <= i < a.len() ==> a[i].date == b[i].date,
    decreases a.len(),
{
    if a.len() == 0 {
        if b.len() > 0 {
            assert(has_date(b, b[0].date as int));
        }
    } else {
        assert(has_date(a, a[0].date as int));
        let j = choose|j: int| 0 <= j < b.len() && j < b.len() && b[j].date == a[0].date;
        assert(has_date(b, b[0].date as int));
        let i = choose|i: int| 0 <= i < a.len() && i < a.len() && a[i].date == b[0].date;
        if j > 0 {
            assert(b[0].date < b[j].date);
        }
        if i > 0 {
            assert(a[0].date < a[i].date);
        }
        assert(a[0].date == b[0].date);
        let a2 = a.drop_first();
        let b2 = b.drop_first();
        assert forall|d: int| has_date(a2, d) <==> has_date(b2, d) by {
            if has_date(a2, d) {
                let x = choose|x: int| 0 <= x < a2.len() && x < a2.len() && a2[x].date == d;
                assert(a[x + 1].date == d);
                assert(a[0].date < a[x + 1].date);
                assert(has_date(b, d));
                let y = choose|y: int| 0 <= y < b.len() && y < b.len() && b[y].date == d;
                assert(y != 0);
                assert(b2[y - 1].date == d);
            }
            if has_date(b2, d) {
                let x = choose|x: int| 0 <= x < b2.len() && x < b2.len() && b2[x].date == d;
                assert(b[x + 1].date == d);
                assert(b[0].date < b[x + 1].date);
                assert(has_date(a, d));
                let y = choose|y: int| 0 <= y < a.len() && y < a.len() && a[y].date == d;
                assert(y != 0);
                assert(a2[y - 1].date == d);
            }
        }
        lemma_same_days_same_positions(a2, b2);
        assert forall|i: int| 0 <= i < a.len() implies a[i].date == b[i].date by {
            if i > 0 {
                assert(a[i] == a2[i - 1]);
                assert(b[i] == b2[i - 1]);
            }
        }
    }
}

/// Whether a series is well formed (see `series_wf`).
pub fn is_well_formed(s: &Vec<PriceData>) -> (r: bool)
    ensures
        r == series_wf(s@),
{
    let n = s.len();
    let mut i: usize = 0;
    while i < n
        invariant
            n == s@.len(),
            i <= n,
            forall|a: int, b: int| 0 <= a < b < i ==> s@[a].date < s@[b].date,
            forall|a: int| 0 <= a < i ==> s@[a].price_usd > 0,
        decreases n - i,
    {
        if s[i].price_usd == 0 {
            return false;
        }
        if i > 0 && s[i - 1].date >= s[i].date {
            return false;
        }
        assert forall|a: int, b: int| 0 <= a < b < i + 1 implies s@[a].date < s@[b].date by {
            if b == i && a < i - 1 {
                assert(s@[a].date < s@[i - 1].date);
            }
        }
        i = i + 1;
    }
    true
}

/// Position of the datum on day `d` in a series with increasing dates,
/// found by binary search.
pub fn find_date(s: &Vec<PriceData>, d: i32) -> (r: Option<usize>)
    requires
        dates_increasing(s@),
    ensures
        match r {
            Some(i) => i < s@.len() && s@[i as int].date == d,
            None => !has_date(s@, d as int),
        },
{
    let mut lo: usize = 0;
    let mut hi: usize = s.len();
    while lo < hi
        invariant
            hi <= s@.len(),
            lo <= hi,
            dates_increasing(s@),
            forall|i: int| 0 <= i < lo ==> s@[i].date < d,
            forall|i: int| hi <= i < s@.len() ==> s@[i].date > d,
        decreases hi - lo,
    {
        let mid = lo + (hi - lo) / 2;
        let m = s[mid].date;
        if m == d {
            return Some(mid);
        } else if m < d {
            assert forall|i: int| 0 <= i < mid + 1 implies s@[i].date < d by {
                if i < mid {
                    assert(s@[i].date < s@[mid as int].date);
                }
            }
            lo = mid + 1;
        } else {
            assert forall|i: int| mid <= i < s@.len() implies s@[i].date > d by {
                if i > mid {
                    assert(s@[mid as int].date < s@[i].date);
                }
            }
            hi = mid;
        }
    }
    None
}

/// A copy of a series.
pub fn copy_series(s: &Vec<PriceData>) -> (r: Vec<PriceData>)
    ensures
        r@ == s@,
{
    let mut r: Vec<PriceData> = Vec::new();
    let mut i: usize = 0;
    while i < s.len()
        invariant
            i <= s@.len(),
            r@ == s@.subrange(0, i as int),
        decreases s@.len() - i,
    {
        r.push(s[i]);
        i = i + 1;
        assert(r@ =~= s@.subrange(0, i as int));
    }
    assert(r@ =~= s@);
    r
}

} // verus!
