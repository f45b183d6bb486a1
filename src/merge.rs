use vstd::prelude::*;
use crate::series::{PriceData, dates_increasing, has_date, has_date_before, datum_on, date_set, lemma_datum_on_index, lemma_datum_on_absent, lemma_date_set_len};

verus! {

/// The datum that an override merge keeps for day `d`: the preferred
/// source's when it has one, else the fallback's.
pub open spec fn merged_datum(preferred: Seq<PriceData>, fallback: Seq<PriceData>, d: int) -> Option<PriceData> {
    match datum_on(preferred, d) {
        Some(x) => Some(x),
        None => datum_on(fallback, d),
    }
}

/// What `merge_btc_data` returns for inputs `p` and `f`.
pub open spec fn is_merge_of(r: Seq<PriceData>, p: Seq<PriceData>, f: Seq<PriceData>) -> bool {
    &&& dates_increasing(r)
    &&& forall|d: int| has_date(r, d) <==> (has_date(p, d) || has_date(f, d))
    &&& forall|k: int| 0 <= k < r.len() ==> merged_datum(p, f, r[k].date as int) == Some(r[k])
}

/// Merges two series of one asset: every day of either input appears once,
/// taken from `yahoo_data` (the preferred source) when it covers the day and
/// from `coindesk_data` (the fallback) otherwise. Dates come out ascending.
pub fn merge_btc_data(yahoo_data: Vec<PriceData>, coindesk_data: Vec<PriceData>) -> (r: Vec<PriceData>)
    requires
        dates_increasing(yahoo_data@),
        dates_increasing(coindesk_data@),
    ensures
        is_merge_of(r@, yahoo_data@, coindesk_data@),
{
    let p = &yahoo_data;
    let f = &coindesk_data;
    let n = p.len();
    let m = f.len();
    let mut r: Vec<PriceData> = Vec::new();
    let mut i: usize = 0;
    let mut j: usize = 0;
    while i < n || j < m
        invariant
            n == p@.len(),
            m == f@.len(),
            i <= n,
            j <= m,
            dates_increasing(p@),
            dates_increasing(f@),
            dates_increasing(r@),
            forall|d: int| has_date(r@, d) <==> (has_date_before(p@, i as int, d) || has_date_before(f@, j as int, d)),
            forall|k: int| 0 <= k < r@.len() ==> merged_datum(p@, f@, r@[k].date as int) == Some(r@[k]),
            i < n ==> forall|k: int| 0 <= k < r@.len() ==> r@[k].date < p@[i as int].date,
            j < m ==> forall|k: int| 0 <= k < r@.len() ==> r@[k].date < f@[j as int].date,
        decreases n + m - i - j,
    {
        let take_p: bool;
        let skip_f: bool;
        if i < n && j < m {
            take_p = p[i].date <= f[j].date;
            skip_f = p[i].date == f[j].date;
        } else {
            take_p = i < n;
            skip_f = false;
        }
        let ghost old_r = r@;
        if take_p {
            let x = p[i];
            proof {
                lemma_datum_on_index(p@, i as int);
            }
            r.push(x);
            proof {
                assert forall|d: int| has_date(r@, d) <==> (has_date_before(p@, i + 1, d) || has_date_before(f@, (if skip_f { j + 1 } else { j as int }), d)) by {
                    if has_date(r@, d) {
                        let k = choose|k: int| 0 <= k < r@.len() && k < r@.len() && r@[k].date == d;
                        if k < old_r.len() {
                            assert(r@[k] == old_r[k]);
                            assert(has_date(old_r, d));
                        }
                    }
                    if has_date_before(p@, i + 1, d) {
                        let a = choose|a: int| 0 <= a < i + 1 && a < p@.len() && p@[a].date == d;
                        if a < i {
                            assert(has_date_before(p@, i as int, d));
                            assert(has_date(old_r, d));
                            let k = choose|k: int| 0 <= k < old_r.len() && k < old_r.len() && old_r[k].date == d;
                            assert(r@[k] == old_r[k]);
                        } else {
                            assert(r@[old_r.len() as int] == x);
                        }
                    }
                    if has_date_before(f@, (if skip_f { j + 1 } else { j as int }), d) {
                        let b = choose|b: int| 0 <= b < (if skip_f { j + 1 } else { j as int }) && b < f@.len() && f@[b].date == d;
                        if b < j {
                            assert(has_date_before(f@, j as int, d));
                            assert(has_date(old_r, d));
                            let k = choose|k: int| 0 <= k < old_r.len() && k < old_r.len() && old_r[k].date == d;
                            assert(r@[k] == old_r[k]);
                        } else {
                            assert(r@[old_r.len() as int] == x);
                        }
                    }
                }
            }
            i = i + 1;
            if skip_f {
                j = j + 1;
            }
        } else {
            let x = f[j];
            proof {
                lemma_datum_on_index(f@, j as int);
                assert forall|a: int| 0 <= a < p@.len() implies p@[a].date != x.date by {
                    if a < i {
                        assert(has_date_before(p@, i as int, p@[a].date as int));
                        assert(has_date(old_r, p@[a].date as int));
                    } else {
                        assert(p@[a].date >= p@[i as int].date) by {
                            if a > i {
                                assert(p@[i as int].date < p@[a].date);
                            }
                        }
                    }
                }
                lemma_datum_on_absent(p@, x.date as int);
            }
            r.push(x);
            proof {
                assert forall|d: int| has_date(r@, d) <==> (has_date_before(p@, i as int, d) || has_date_before(f@, j + 1, d)) by {
                    if has_date(r@, d) {
                        let k = choose|k: int| 0 <= k < r@.len() && k < r@.len() && r@[k].date == d;
                        if k < old_r.len() {
                            assert(r@[k] == old_r[k]);
                            assert(has_date(old_r, d));
                        }
                    }
                    if has_date_before(p@, i as int, d) {
                        assert(has_date(old_r, d));
                        let k = choose|k: int| 0 <= k < old_r.len() && k < old_r.len() && old_r[k].date == d;
                        assert(r@[k] == old_r[k]);
                    }
                    if has_date_before(f@, j + 1, d) {
                        let b = choose|b: int| 0 <= b < j + 1 && b < f@.len() && f@[b].date == d;
                        if b < j {
                            assert(has_date_before(f@, j as int, d));
                            assert(has_date(old_r, d));
                            let k = choose|k: int| 0 <= k < old_r.len() && k < old_r.len() && old_r[k].date == d;
                            assert(r@[k] == old_r[k]);
                        } else {
                            assert(r@[old_r.len() as int] == x);
                        }
                    }
                }
            }
            j = j + 1;
        }
        proof {
            if i < n {
                assert forall|k: int| 0 <= k < r@.len() implies r@[k].date < p@[i as int].date by {
                    if k < old_r.len() {
                        assert(r@[k] == old_r[k]);
                        assert(p@[i - 1].date < p@[i as int].date || old_r[k].date < p@[i as int].date);
                    }
                }
            }
            if j < m {
                assert forall|k: int| 0 <= k < r@.len() implies r@[k].date < f@[j as int].date by {
                    if k < old_r.len() {
                        assert(r@[k] == old_r[k]);
                        assert(j > 0 ==> f@[j - 1].date < f@[j as int].date);
                    }
                }
            }
        }
    }
    r
}

/// A merge holds one datum per day covered by either input, and every
/// datum of the preferred input appears in it unchanged; a datum of the
/// fallback input appears only on a day the preferred input does not cover.
pub proof fn lemma_merge_union_and_priority(p: Seq<PriceData>, f: Seq<PriceData>, r: Seq<PriceData>)
    requires
        dates_increasing(p),
        dates_increasing(f),
        is_merge_of(r, p, f),
    ensures
        date_set(p).union(date_set(f)).finite(),
        r.len() == date_set(p).union(date_set(f)).len(),
        forall|i: int| 0 <= i < p.len() ==> r.contains(p[i]),
        forall|k: int| 0 <= k < r.len() && !has_date(p, r[k].date as int) ==> f.contains(r[k]),
{
    lemma_date_set_len(r);
    assert(date_set(r) =~= date_set(p).union(date_set(f)));
    assert forall|i: int| 0 <= i < p.len() implies r.contains(p[i]) by {
        let d = p[i].date as int;
        assert(has_date(p, d));
        let k = choose|k: int| 0 <= k < r.len() && k < r.len() && r[k].date == d;
        lemma_datum_on_index(p, i);
    }
    assert forall|k: int| 0 <= k < r.len() && !has_date(p, r[k].date as int) implies f.contains(r[k]) by {
        let d = r[k].date as int;
        lemma_datum_on_absent(p, d);
        assert(has_date(f, d));
        let j = choose|j: int| 0 <= j < f.len() && j < f.len() && f[j].date == d;
        lemma_datum_on_index(f, j);
    }
}

} // verus!
