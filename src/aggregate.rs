//! The lines that the two read paths hand out, and the ordering of the
//! summary.

use vstd::prelude::*;
use crate::model::{insert_by_hours, sort_by_hours, EntryView, TotalView};

verus! {

/// A country's aggregates: cumulative hours (in millionths of an hour)
/// and the number of pledges.
#[derive(Debug)]
pub struct CountryTotal {
    pub country: String,
    pub hours: u64,
    pub count: u64,
}

/// One line of the recent feed: a pledge's country and hours.
#[derive(Debug)]
pub struct RecentEntry {
    pub country: String,
    pub hours: u64,
}

pub open spec fn total_view(t: CountryTotal) -> TotalView {
    (t.country@, t.hours as int, t.count as int)
}

pub open spec fn totals_view(s: Seq<CountryTotal>) -> Seq<TotalView> {
    s.map_values(|t: CountryTotal| total_view(t))
}

pub open spec fn entry_view(e: RecentEntry) -> EntryView {
    (e.country@, e.hours as int)
}

pub open spec fn entries_view(s: Seq<RecentEntry>) -> Seq<EntryView> {
    s.map_values(|e: RecentEntry| entry_view(e))
}

/// Inserting before the first line whose hours are not below the new
/// line's is inserting at that position.
proof fn lemma_insert_by_hours_at(s: Seq<TotalView>, x: TotalView, j: int)
    requires
        0 <= j <= s.len(),
        forall|k: int| 0 <= k < j ==> #[trigger] s[k].1 < x.1,
        j < s.len() ==> x.1 <= s[j].1,
    ensures
        insert_by_hours(s, x) == s.insert(j, x),
    decreases s.len(),
{
    if s.len() == 0 {
        assert(s.insert(j, x) =~= seq![x]);
    } else if j == 0 {
        assert(s.insert(j, x) =~= seq![x] + s);
    } else {
        let t = s.drop_first();
        assert forall|k: int| 0 <= k < j - 1 implies #[trigger] t[k].1 < x.1 by {
            assert(t[k] == s[k + 1]);
        }
        lemma_insert_by_hours_at(t, x, j - 1);
        assert(s.insert(j, x) =~= seq![s[0]] + t.insert(j - 1, x));
    }
}

/// Sorts the lines ascending by hours, keeping the order of lines with
/// equal hours.
pub fn sort_totals(v: Vec<CountryTotal>) -> (r: Vec<CountryTotal>)
    ensures
        totals_view(r@) == sort_by_hours(totals_view(v@)),
{
    let ghost orig = totals_view(v@);
    let mut v = v;
    let mut r: Vec<CountryTotal> = Vec::new();
    assert(orig.skip(orig.len() as int) =~= seq![]);
    assert(orig.take(orig.len() as int) =~= orig);
    while v.len() > 0
        invariant
            v@.len() <= orig.len(),
            totals_view(v@) == orig.take(v@.len() as int),
            totals_view(r@) == sort_by_hours(orig.skip(v@.len() as int)),
        decreases v@.len(),
    {
        let ghost k = v@.len() - 1;
        let ghost rest = totals_view(v@);
        let x = match v.pop() {
            Some(x) => x,
            None => {
                return r;
            },
        };
        assert(total_view(x) == rest[k]);
        assert(totals_view(v@) =~= orig.take(k));
        assert(orig.skip(k).drop_first() =~= orig.skip(k + 1));
        assert(orig.skip(k)[0] == orig[k]);
        let mut j: usize = 0;
        while j < r.len() && r[j].hours < x.hours
            invariant
                j <= r@.len(),
                forall|m: int| 0 <= m < j ==> #[trigger] r@[m].hours < x.hours,
            decreases r@.len() - j,
        {
            j = j + 1;
        }
        let ghost before = totals_view(r@);
        proof {
            assert forall|m: int| 0 <= m < j implies #[trigger] before[m].1 < total_view(x).1 by {
                assert(before[m] == total_view(r@[m]));
            }
            if j < r@.len() {
                assert(before[j as int] == total_view(r@[j as int]));
            }
            lemma_insert_by_hours_at(before, total_view(x), j as int);
        }
        r.insert(j, x);
        assert(totals_view(r@) =~= before.insert(j as int, total_view(x)));
    }
    assert(orig.skip(0) =~= orig);
    r
}

} // verus!
