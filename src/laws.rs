//! What holds of the ledger across calls: how a pledge shows in the
//! aggregates and the summary, what a rejected pledge leaves, and what the
//! feed holds after a run of pledges.

use vstd::prelude::*;
use crate::model::{
    apply_pledge, count_of, empty_store, feed_push, hours_of, insert_by_hours, join_feed,
    pledge_check, present_totals, recent_of, sort_by_hours, state_after, store_wf, summary_of,
    EntryView, LedgerError, RecordView, StoreView, TotalView, FEED_CAPACITY, MAX_PLEDGE_UNITS,
};

verus! {

/// The inputs of one pledge: token, country, hours, timestamp.
pub type PledgeInput = (Seq<char>, Seq<char>, int, Seq<char>);

/// The store after the pledges of `ps`, in order.
pub open spec fn apply_all(s: StoreView, ps: Seq<PledgeInput>) -> StoreView
    decreases ps.len(),
{
    if ps.len() == 0 {
        s
    } else {
        let p = ps.last();
        apply_pledge(apply_all(s, ps.drop_last()), p.0, p.1, p.2, p.3)
    }
}

/// The tokens of the last `n` pledges of `ps`, newest first.
pub open spec fn latest_tokens(ps: Seq<PledgeInput>, n: nat) -> Seq<Seq<char>>
    decreases ps.len(),
{
    if ps.len() == 0 || n == 0 {
        seq![]
    } else {
        seq![ps.last().0] + latest_tokens(ps.drop_last(), (n - 1) as nat)
    }
}

/// Country and hours of the last `n` pledges of `ps`, newest first.
pub open spec fn latest_entries(ps: Seq<PledgeInput>, n: nat) -> Seq<EntryView>
    decreases ps.len(),
{
    if ps.len() == 0 || n == 0 {
        seq![]
    } else {
        seq![(ps.last().1, ps.last().2)] + latest_entries(ps.drop_last(), (n - 1) as nat)
    }
}

pub open spec fn distinct_tokens(ps: Seq<PledgeInput>) -> bool {
    forall|i: int, j: int| 0 <= i < j < ps.len() ==> ps[i].0 != ps[j].0
}

proof fn lemma_insert_by_hours_contains(s: Seq<TotalView>, x: TotalView, e: TotalView)
    ensures
        insert_by_hours(s, x).contains(e) <==> (s.contains(e) || e == x),
    decreases s.len(),
{
    if s.len() == 0 {
        assert(insert_by_hours(s, x)[0] == x);
    } else if x.1 <= s[0].1 {
        let r = seq![x] + s;
        if s.contains(e) {
            let i = choose|i: int| 0 <= i < s.len() && s[i] == e;
            assert(r[i + 1] == e);
        }
        if e == x {
            assert(r[0] == e);
        }
        if r.contains(e) {
            let i = choose|i: int| 0 <= i < r.len() && r[i] == e;
            if i > 0 {
                assert(s[i - 1] == e);
            }
        }
    } else {
        let t = s.drop_first();
        lemma_insert_by_hours_contains(t, x, e);
        let r = seq![s[0]] + insert_by_hours(t, x);
        let q = insert_by_hours(t, x);
        if s.contains(e) {
            let i = choose|i: int| 0 <= i < s.len() && s[i] == e;
            if i == 0 {
                assert(r[0] == e);
            } else {
                assert(t[i - 1] == e);
                let k = choose|k: int| 0 <= k < q.len() && q[k] == e;
                assert(r[k + 1] == e);
            }
        }
        if e == x {
            let k = choose|k: int| 0 <= k < q.len() && q[k] == e;
            assert(r[k + 1] == e);
        }
        if r.contains(e) {
            let i = choose|i: int| 0 <= i < r.len() && r[i] == e;
            if i == 0 {
                assert(s[0] == e);
            } else {
                assert(q[i - 1] == e);
                if t.contains(e) {
                    let k = choose|k: int| 0 <= k < t.len() && t[k] == e;
                    assert(s[k + 1] == e);
                }
            }
        }
    }
}

proof fn lemma_sort_contains(s: Seq<TotalView>, e: TotalView)
    ensures
        sort_by_hours(s).contains(e) <==> s.contains(e),
    decreases s.len(),
{
    if s.len() > 0 {
        let t = s.drop_first();
        lemma_sort_contains(t, e);
        lemma_insert_by_hours_contains(sort_by_hours(t), s[0], e);
        if s.contains(e) {
            let i = choose|i: int| 0 <= i < s.len() && s[i] == e;
            if i > 0 {
                assert(t[i - 1] == e);
            }
        }
        if t.contains(e) {
            let k = choose|k: int| 0 <= k < t.len() && t[k] == e;
            assert(s[k + 1] == e);
        }
    }
}

proof fn lemma_present_totals_contains(ids: Seq<Seq<char>>, s: StoreView, e: TotalView)
    ensures
        present_totals(ids, s).contains(e) <==> (ids.contains(e.0) && s.hours.contains_key(e.0)
            && e == (e.0, s.hours[e.0], count_of(s, e.0))),
    decreases ids.len(),
{
    if ids.len() > 0 {
        let d = ids.drop_last();
        lemma_present_totals_contains(d, s, e);
        let rest = present_totals(d, s);
        let c = ids.last();
        if d.contains(e.0) {
            let i = choose|i: int| 0 <= i < d.len() && d[i] == e.0;
            assert(ids[i] == e.0);
        }
        if ids.contains(e.0) && e.0 != c {
            let i = choose|i: int| 0 <= i < ids.len() && ids[i] == e.0;
            assert(d[i] == e.0);
        }
        if s.hours.contains_key(c) {
            let r = rest.push((c, s.hours[c], count_of(s, c)));
            assert(r[rest.len() as int] == (c, s.hours[c], count_of(s, c)));
            if rest.contains(e) {
                let i = choose|i: int| 0 <= i < rest.len() && rest[i] == e;
                assert(r[i] == e);
            }
            if r.contains(e) {
                let i = choose|i: int| 0 <= i < r.len() && r[i] == e;
                if i < rest.len() {
                    assert(rest[i] == e);
                }
            }
        }
    }
}

/// The summary holds a line for a country exactly when the country is in
/// the catalog and has aggregates, and the line gives those aggregates.
pub proof fn lemma_summary_lines(ids: Seq<Seq<char>>, s: StoreView, e: TotalView)
    ensures
        summary_of(ids, s).contains(e) <==> (ids.contains(e.0) && s.hours.contains_key(e.0) && e
            == (e.0, s.hours[e.0], count_of(s, e.0))),
{
    lemma_sort_contains(present_totals(ids, s), e);
    lemma_present_totals_contains(ids, s, e);
}

/// No two lines name the same country.
pub open spec fn one_line_per_country(s: Seq<TotalView>) -> bool {
    forall|i: int, j: int| 0 <= i < s.len() && 0 <= j < s.len() && i != j ==> s[i].0 != s[j].0
}

proof fn lemma_insert_keeps_one_line(s: Seq<TotalView>, x: TotalView)
    requires
        one_line_per_country(s),
        forall|k: int| 0 <= k < s.len() ==> #[trigger] s[k].0 != x.0,
    ensures
        one_line_per_country(insert_by_hours(s, x)),
    decreases s.len(),
{
    if s.len() > 0 {
        if x.1 <= s[0].1 {
            let r = seq![x] + s;
            assert forall|i: int, j: int|
                0 <= i < r.len() && 0 <= j < r.len() && i != j implies r[i].0 != r[j].0 by {
                if i > 0 && j > 0 {
                    assert(r[i] == s[i - 1] && r[j] == s[j - 1]);
                } else if i == 0 {
                    assert(r[j] == s[j - 1]);
                } else {
                    assert(r[i] == s[i - 1]);
                }
            }
        } else {
            let t = s.drop_first();
            assert forall|k: int| 0 <= k < t.len() implies #[trigger] t[k].0 != x.0 by {
                assert(t[k] == s[k + 1]);
            }
            assert(one_line_per_country(t)) by {
                assert forall|i: int, j: int|
                    0 <= i < t.len() && 0 <= j < t.len() && i != j implies t[i].0 != t[j].0 by {
                    assert(t[i] == s[i + 1] && t[j] == s[j + 1]);
                }
            }
            lemma_insert_keeps_one_line(t, x);
            let q = insert_by_hours(t, x);
            let r = seq![s[0]] + q;
            assert forall|k: int| 0 <= k < q.len() implies #[trigger] q[k].0 != s[0].0 by {
                let e = q[k];
                assert(q.contains(e));
                lemma_insert_by_hours_contains(t, x, e);
                if t.contains(e) {
                    let m = choose|m: int| 0 <= m < t.len() && t[m] == e;
                    assert(s[m + 1] == e);
                }
            }
            assert forall|i: int, j: int|
                0 <= i < r.len() && 0 <= j < r.len() && i != j implies r[i].0 != r[j].0 by {
                if i > 0 && j > 0 {
                    assert(r[i] == q[i - 1] && r[j] == q[j - 1]);
                } else if i == 0 {
                    assert(r[j] == q[j - 1]);
                } else {
                    assert(r[i] == q[i - 1]);
                }
            }
        }
    }
}

proof fn lemma_sort_keeps_one_line(s: Seq<TotalView>)
    requires
        one_line_per_country(s),
    ensures
        one_line_per_country(sort_by_hours(s)),
    decreases s.len(),
{
    if s.len() > 0 {
        let t = s.drop_first();
        assert(one_line_per_country(t)) by {
            assert forall|i: int, j: int|
                0 <= i < t.len() && 0 <= j < t.len() && i != j implies t[i].0 != t[j].0 by {
                assert(t[i] == s[i + 1] && t[j] == s[j + 1]);
            }
        }
        lemma_sort_keeps_one_line(t);
        let q = sort_by_hours(t);
        assert forall|k: int| 0 <= k < q.len() implies #[trigger] q[k].0 != s[0].0 by {
            let e = q[k];
            assert(q.contains(e));
            lemma_sort_contains(t, e);
            let m = choose|m: int| 0 <= m < t.len() && t[m] == e;
            assert(s[m + 1] == e);
        }
        lemma_insert_keeps_one_line(q, s[0]);
    }
}

proof fn lemma_present_totals_one_line(ids: Seq<Seq<char>>, s: StoreView)
    requires
        ids.no_duplicates(),
    ensures
        one_line_per_country(present_totals(ids, s)),
    decreases ids.len(),
{
    if ids.len() > 0 {
        let d = ids.drop_last();
        assert(d.no_duplicates()) by {
            assert forall|i: int, j: int| 0 <= i < d.len() && 0 <= j < d.len() && i != j implies d[i]
                != d[j] by {
                assert(d[i] == ids[i] && d[j] == ids[j]);
            }
        }
        lemma_present_totals_one_line(d, s);
        let rest = present_totals(d, s);
        let c = ids.last();
        if s.hours.contains_key(c) {
            let r = rest.push((c, s.hours[c], count_of(s, c)));
            assert forall|k: int| 0 <= k < rest.len() implies #[trigger] rest[k].0 != c by {
                assert(rest.contains(rest[k]));
                lemma_present_totals_contains(d, s, rest[k]);
                let m = choose|m: int| 0 <= m < d.len() && d[m] == rest[k].0;
                assert(ids[m] == d[m]);
            }
            assert forall|i: int, j: int|
                0 <= i < r.len() && 0 <= j < r.len() && i != j implies r[i].0 != r[j].0 by {
                if i < rest.len() && j < rest.len() {
                    assert(r[i] == rest[i] && r[j] == rest[j]);
                } else if i < rest.len() {
                    assert(r[i] == rest[i]);
                } else {
                    assert(r[j] == rest[j]);
                }
            }
        }
    }
}

/// With unique catalog identifiers, the summary has at most one line per
/// country.
pub proof fn lemma_summary_one_line_per_country(ids: Seq<Seq<char>>, s: StoreView)
    requires
        ids.no_duplicates(),
    ensures
        one_line_per_country(summary_of(ids, s)),
{
    lemma_present_totals_one_line(ids, s);
    lemma_sort_keeps_one_line(present_totals(ids, s));
}

/// A pledge keeps a well-formed store well-formed.
pub proof fn lemma_pledge_keeps_wf(
    s: StoreView,
    token: Seq<char>,
    country: Seq<char>,
    hours: int,
    timestamp: Seq<char>,
)
    requires
        store_wf(s),
        0 <= hours,
    ensures
        store_wf(apply_pledge(s, token, country, hours, timestamp)),
{
    let t = apply_pledge(s, token, country, hours, timestamp);
    assert(t.hours.dom() =~= t.counts.dom());
}

/// A pledge of a catalog country with hours from zero to ten passes the
/// checks; afterwards its country's hours grow by exactly the pledged hours
/// and its count by exactly one, no other country's aggregates change, and
/// the summary has one line for the country, with the new aggregates.
pub proof fn lemma_pledge_reflected_in_summary(
    ids: Seq<Seq<char>>,
    s: StoreView,
    token: Seq<char>,
    country: Seq<char>,
    hours: int,
    timestamp: Seq<char>,
)
    requires
        ids.no_duplicates(),
        ids.contains(country),
        0 <= hours <= MAX_PLEDGE_UNITS,
    ensures
        pledge_check(ids, country, hours) is Ok,
        ({
            let t = apply_pledge(s, token, country, hours, timestamp);
            &&& hours_of(t, country) == hours_of(s, country) + hours
            &&& count_of(t, country) == count_of(s, country) + 1
            &&& forall|c: Seq<char>|
                c != country ==> hours_of(t, c) == hours_of(s, c) && count_of(t, c) == count_of(
                    s,
                    c,
                )
            &&& summary_of(ids, t).contains(
                (country, hours_of(s, country) + hours, count_of(s, country) + 1),
            )
            &&& forall|i: int|
                0 <= i < summary_of(ids, t).len() && #[trigger] summary_of(ids, t)[i].0 == country
                    ==> summary_of(ids, t)[i] == (
                    country,
                    hours_of(s, country) + hours,
                    count_of(s, country) + 1,
                )
        }),
{
    let t = apply_pledge(s, token, country, hours, timestamp);
    let e = (country, hours_of(s, country) + hours, count_of(s, country) + 1);
    lemma_summary_lines(ids, t, e);
    lemma_summary_one_line_per_country(ids, t);
    assert forall|i: int|
        0 <= i < summary_of(ids, t).len() && #[trigger] summary_of(ids, t)[i].0 == country implies summary_of(
        ids,
        t,
    )[i] == e by {
        lemma_summary_lines(ids, t, summary_of(ids, t)[i]);
    }
}

/// A pledge of a catalog country with hours below zero or above ten is
/// refused as out of range and leaves the store as it was, however often it
/// is made.
pub proof fn lemma_out_of_range_rejected(
    ids: Seq<Seq<char>>,
    s: StoreView,
    token: Seq<char>,
    country: Seq<char>,
    hours: int,
    timestamp: Seq<char>,
)
    requires
        ids.contains(country),
        hours < 0 || hours > MAX_PLEDGE_UNITS,
    ensures
        pledge_check(ids, country, hours) == Err::<(), LedgerError>(LedgerError::OutOfRange),
        state_after(ids, s, token, country, hours, timestamp) == s,
        state_after(
            ids,
            state_after(ids, s, token, country, hours, timestamp),
            token,
            country,
            hours,
            timestamp,
        ) == s,
{
}

/// A pledge of a country outside the catalog is refused as an invalid
/// country and leaves the store as it was.
pub proof fn lemma_unknown_country_rejected(
    ids: Seq<Seq<char>>,
    s: StoreView,
    token: Seq<char>,
    country: Seq<char>,
    hours: int,
    timestamp: Seq<char>,
)
    requires
        !ids.contains(country),
    ensures
        pledge_check(ids, country, hours) == Err::<(), LedgerError>(LedgerError::InvalidCountry),
        state_after(ids, s, token, country, hours, timestamp) == s,
{
}

/// A second pledge under the same token replaces the record's fields, and
/// still counts in the aggregates of both countries.
pub proof fn lemma_same_token_counts_twice(
    s: StoreView,
    token: Seq<char>,
    c1: Seq<char>,
    h1: int,
    ts1: Seq<char>,
    c2: Seq<char>,
    h2: int,
    ts2: Seq<char>,
)
    requires
        c1 != c2,
    ensures
        ({
            let t = apply_pledge(apply_pledge(s, token, c1, h1, ts1), token, c2, h2, ts2);
            &&& t.records[token] == RecordView { country: c2, hours: h2, timestamp: ts2 }
            &&& hours_of(t, c1) == hours_of(s, c1) + h1
            &&& count_of(t, c1) == count_of(s, c1) + 1
            &&& hours_of(t, c2) == hours_of(s, c2) + h2
            &&& count_of(t, c2) == count_of(s, c2) + 1
        }),
{
}

/// In a well-formed store, every line of the summary belongs to a country
/// with at least one pledge, and gives its aggregates.
pub proof fn lemma_summary_omits_absent(ids: Seq<Seq<char>>, s: StoreView, e: TotalView)
    requires
        store_wf(s),
        summary_of(ids, s).contains(e),
    ensures
        count_of(s, e.0) >= 1,
        s.hours.contains_key(e.0),
        e == (e.0, s.hours[e.0], s.counts[e.0]),
{
    lemma_summary_lines(ids, s, e);
    assert(s.counts.contains_key(e.0));
}

/// A country's first pledge of `hours` shows in the summary as that
/// country with those hours and a count of one.
pub proof fn lemma_first_pledge_line(
    ids: Seq<Seq<char>>,
    s: StoreView,
    token: Seq<char>,
    country: Seq<char>,
    hours: int,
    timestamp: Seq<char>,
)
    requires
        store_wf(s),
        ids.no_duplicates(),
        ids.contains(country),
        !s.counts.contains_key(country),
        0 <= hours <= MAX_PLEDGE_UNITS,
    ensures
        summary_of(ids, apply_pledge(s, token, country, hours, timestamp)).contains(
            (country, hours, 1),
        ),
{
    assert(!s.hours.contains_key(country));
    lemma_pledge_reflected_in_summary(ids, s, token, country, hours, timestamp);
}

proof fn lemma_latest_tokens_len(ps: Seq<PledgeInput>, n: nat)
    ensures
        latest_tokens(ps, n).len() == if ps.len() < n {
            ps.len()
        } else {
            n
        },
    decreases ps.len(),
{
    if ps.len() > 0 && n > 0 {
        lemma_latest_tokens_len(ps.drop_last(), (n - 1) as nat);
    }
}

proof fn lemma_latest_entries_len(ps: Seq<PledgeInput>, n: nat)
    ensures
        latest_entries(ps, n).len() == if ps.len() < n {
            ps.len()
        } else {
            n
        },
    decreases ps.len(),
{
    if ps.len() > 0 && n > 0 {
        lemma_latest_entries_len(ps.drop_last(), (n - 1) as nat);
    }
}

proof fn lemma_latest_tokens_take(ps: Seq<PledgeInput>, n: nat, m: nat)
    requires
        m <= n,
        m <= ps.len(),
    ensures
        latest_tokens(ps, n).take(m as int) == latest_tokens(ps, m),
    decreases ps.len(),
{
    lemma_latest_tokens_len(ps, n);
    lemma_latest_tokens_len(ps, m);
    if m == 0 {
        assert(latest_tokens(ps, n).take(m as int) =~= latest_tokens(ps, m));
    } else {
        let d = ps.drop_last();
        lemma_latest_tokens_take(d, (n - 1) as nat, (m - 1) as nat);
        assert(latest_tokens(ps, n).take(m as int) =~= seq![ps.last().0] + latest_tokens(
            d,
            (n - 1) as nat,
        ).take(m - 1));
    }
}

proof fn lemma_latest_tokens_all(ps: Seq<PledgeInput>, n: nat, m: nat)
    requires
        ps.len() <= n,
        ps.len() <= m,
    ensures
        latest_tokens(ps, n) == latest_tokens(ps, m),
    decreases ps.len(),
{
    if ps.len() > 0 {
        lemma_latest_tokens_all(ps.drop_last(), (n - 1) as nat, (m - 1) as nat);
    }
}

/// A feed trimmed to capacity.
pub open spec fn trimmed(f: Seq<Seq<char>>) -> Seq<Seq<char>> {
    if f.len() <= FEED_CAPACITY {
        f
    } else {
        f.take(FEED_CAPACITY as int)
    }
}

proof fn lemma_trim_after_push(t: Seq<char>, x: Seq<Seq<char>>, y: Seq<Seq<char>>)
    requires
        x == y || (x.len() >= FEED_CAPACITY - 1 && y.len() >= FEED_CAPACITY - 1 && x.take(
            FEED_CAPACITY - 1,
        ) == y.take(FEED_CAPACITY - 1)),
    ensures
        trimmed(seq![t] + x) == trimmed(seq![t] + y),
{
    if x != y {
        let c = FEED_CAPACITY as int;
        if x.len() == c - 1 {
            assert(x.take(c - 1) =~= x);
        } else {
            assert((seq![t] + x).take(c) =~= seq![t] + x.take(c - 1));
        }
        if y.len() == c - 1 {
            assert(y.take(c - 1) =~= y);
        } else {
            assert((seq![t] + y).take(c) =~= seq![t] + y.take(c - 1));
        }
    }
}

proof fn lemma_feed_after_all(s: StoreView, ps: Seq<PledgeInput>)
    requires
        s.recent.len() <= FEED_CAPACITY,
    ensures
        apply_all(s, ps).recent == trimmed(latest_tokens(ps, FEED_CAPACITY as nat) + s.recent),
    decreases ps.len(),
{
    let cap = FEED_CAPACITY as nat;
    let old_feed = s.recent;
    if ps.len() == 0 {
        assert(latest_tokens(ps, cap) + old_feed =~= old_feed);
    } else {
        let d = ps.drop_last();
        let t = ps.last().0;
        lemma_feed_after_all(s, d);
        let ld = latest_tokens(d, cap);
        let ld1 = latest_tokens(d, (cap - 1) as nat);
        lemma_latest_tokens_len(d, cap);
        lemma_latest_tokens_len(d, (cap - 1) as nat);
        // first step: trimming before the push makes no difference
        let y1 = ld + old_feed;
        if y1.len() > cap {
            assert(y1.take(cap as int).take(cap - 1) =~= y1.take(cap - 1));
        }
        lemma_trim_after_push(t, trimmed(y1), y1);
        // second step: only the first tokens of the pledges count
        if d.len() < cap {
            lemma_latest_tokens_all(d, cap, (cap - 1) as nat);
        } else {
            lemma_latest_tokens_take(d, cap, (cap - 1) as nat);
            assert((ld + old_feed).take(cap - 1) =~= ld.take(cap - 1));
            assert((ld1 + old_feed).take(cap - 1) =~= ld1);
        }
        lemma_trim_after_push(t, y1, ld1 + old_feed);
        assert(seq![t] + (ld1 + old_feed) =~= latest_tokens(ps, cap) + old_feed);
    }
}

proof fn lemma_records_after_all(s: StoreView, ps: Seq<PledgeInput>, i: int)
    requires
        distinct_tokens(ps),
        0 <= i < ps.len(),
    ensures
        apply_all(s, ps).records.contains_key(ps[i].0),
        apply_all(s, ps).records[ps[i].0] == (RecordView {
            country: ps[i].1,
            hours: ps[i].2,
            timestamp: ps[i].3,
        }),
    decreases ps.len(),
{
    if i < ps.len() - 1 {
        let d = ps.drop_last();
        assert(distinct_tokens(d)) by {
            assert forall|a: int, b: int| 0 <= a < b < d.len() implies d[a].0 != d[b].0 by {
                assert(d[a] == ps[a] && d[b] == ps[b]);
            }
        }
        assert(d[i] == ps[i]);
        lemma_records_after_all(s, d, i);
        assert(ps[i].0 != ps.last().0);
    }
}

proof fn lemma_join_latest(ps: Seq<PledgeInput>, n: nat, r: Map<Seq<char>, RecordView>)
    requires
        forall|i: int|
            0 <= i < ps.len() ==> r.contains_key(#[trigger] ps[i].0) && r[ps[i].0] == (RecordView {
                country: ps[i].1,
                hours: ps[i].2,
                timestamp: ps[i].3,
            }),
    ensures
        join_feed(latest_tokens(ps, n), r) == latest_entries(ps, n),
    decreases ps.len(),
{
    if ps.len() > 0 && n > 0 {
        let d = ps.drop_last();
        assert forall|i: int| 0 <= i < d.len() implies r.contains_key(#[trigger] d[i].0) && r[d[i].0]
            == (RecordView { country: d[i].1, hours: d[i].2, timestamp: d[i].3 }) by {
            assert(d[i] == ps[i]);
        }
        lemma_join_latest(d, (n - 1) as nat, r);
        let f = latest_tokens(ps, n);
        assert(f[0] == ps[ps.len() - 1].0);
        assert(f.drop_first() =~= latest_tokens(d, (n - 1) as nat));
    }
}

/// After pledges with distinct tokens, the recent feed gives the country
/// and hours of the last pledges, newest first: on a store with an empty
/// feed as many as were made, up to the feed's capacity; on any store, all
/// of capacity once at least that many were made.
pub proof fn lemma_recent_after_pledges(s: StoreView, ps: Seq<PledgeInput>)
    requires
        store_wf(s),
        distinct_tokens(ps),
        s.recent.len() == 0 || ps.len() >= FEED_CAPACITY,
    ensures
        recent_of(apply_all(s, ps)) == latest_entries(ps, FEED_CAPACITY as nat),
        recent_of(apply_all(s, ps)).len() == if ps.len() < FEED_CAPACITY {
            ps.len()
        } else {
            FEED_CAPACITY as nat
        },
{
    let cap = FEED_CAPACITY as nat;
    let t = apply_all(s, ps);
    lemma_feed_after_all(s, ps);
    lemma_latest_tokens_len(ps, cap);
    let l = latest_tokens(ps, cap);
    if s.recent.len() == 0 {
        assert(l + s.recent =~= l);
    } else {
        assert((l + s.recent).take(cap as int) =~= l);
    }
    assert(t.recent == l);
    assert forall|i: int| 0 <= i < ps.len() implies t.records.contains_key(#[trigger] ps[i].0)
        && t.records[ps[i].0] == (RecordView {
        country: ps[i].1,
        hours: ps[i].2,
        timestamp: ps[i].3,
    }) by {
        lemma_records_after_all(s, ps, i);
    }
    lemma_join_latest(ps, cap, t.records);
    lemma_latest_entries_len(ps, cap);
}

/// The lines are in ascending order of hours.
pub open spec fn ascending(s: Seq<TotalView>) -> bool {
    forall|i: int, j: int| 0 <= i < j < s.len() ==> s[i].1 <= s[j].1
}

proof fn lemma_insert_keeps_ascending(s: Seq<TotalView>, x: TotalView)
    requires
        ascending(s),
    ensures
        ascending(insert_by_hours(s, x)),
    decreases s.len(),
{
    if s.len() > 0 && x.1 > s[0].1 {
        let t = s.drop_first();
        assert(ascending(t)) by {
            assert forall|i: int, j: int| 0 <= i < j < t.len() implies t[i].1 <= t[j].1 by {
                assert(t[i] == s[i + 1] && t[j] == s[j + 1]);
            }
        }
        lemma_insert_keeps_ascending(t, x);
        let q = insert_by_hours(t, x);
        let r = seq![s[0]] + q;
        assert forall|i: int, j: int| 0 <= i < j < r.len() implies r[i].1 <= r[j].1 by {
            if i == 0 {
                let e = q[j - 1];
                assert(q.contains(e));
                lemma_insert_by_hours_contains(t, x, e);
                if t.contains(e) {
                    let k = choose|k: int| 0 <= k < t.len() && t[k] == e;
                    assert(s[k + 1] == e);
                }
            } else {
                assert(r[i] == q[i - 1] && r[j] == q[j - 1]);
            }
        }
    }
}

proof fn lemma_sort_ascending(s: Seq<TotalView>)
    ensures
        ascending(sort_by_hours(s)),
    decreases s.len(),
{
    if s.len() > 0 {
        lemma_sort_ascending(s.drop_first());
        lemma_insert_keeps_ascending(sort_by_hours(s.drop_first()), s[0]);
    }
}

/// The summary is in ascending order of hours.
pub proof fn lemma_summary_ascending(ids: Seq<Seq<char>>, s: StoreView)
    ensures
        ascending(summary_of(ids, s)),
{
    lemma_sort_ascending(present_totals(ids, s));
}

} // verus!
