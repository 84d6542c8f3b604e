//! A store held in memory, which applies each pledge's batch as one step.

use vstd::prelude::*;
use crate::aggregate::{entries_view, sort_totals, totals_view, CountryTotal, RecentEntry};
use crate::catalog::{string_views, Catalog};
use crate::model::{
    apply_pledge, count_of, join_feed, present_totals, empty_store, fits, hours_of, pledge_check, recent_of, store_wf, summary_of,
    LedgerError, RecordView, StoreView, FEED_CAPACITY,
};
use crate::pledge::{check_pledge, Pledge};

verus! {

/// What the store holds for one token.
pub struct PledgeRecord {
    pub country: String,
    pub hours: u64,
    pub timestamp: String,
}

pub open spec fn record_view(r: PledgeRecord) -> RecordView {
    RecordView { country: r.country@, hours: r.hours as int, timestamp: r.timestamp@ }
}

/// Records by token, aggregates by country (hours and count), and the
/// feed of recent tokens, newest first.
pub struct MemoryStore {
    records: Vec<(String, PledgeRecord)>,
    totals: Vec<(String, u64, u64)>,
    recent: Vec<String>,
    model: Ghost<StoreView>,
}

impl View for MemoryStore {
    type V = StoreView;

    closed spec fn view(&self) -> StoreView {
        self.model@
    }
}

impl MemoryStore {
    /// The lists hold exactly what the model says, each key once.
    pub closed spec fn wf(&self) -> bool {
        let m = self.model@;
        &&& forall|i: int, j: int|
            0 <= i < j < self.records@.len() ==> self.records@[i].0@ != self.records@[j].0@
        &&& forall|i: int|
            0 <= i < self.records@.len() ==> m.records.contains_key(#[trigger] self.records@[i].0@)
                && m.records[self.records@[i].0@] == record_view(self.records@[i].1)
        &&& forall|k: Seq<char>|
            #[trigger] m.records.contains_key(k) ==> exists|i: int|
                0 <= i < self.records@.len() && #[trigger] self.records@[i].0@ == k
        &&& forall|i: int, j: int|
            0 <= i < j < self.totals@.len() ==> self.totals@[i].0@ != self.totals@[j].0@
        &&& forall|i: int|
            0 <= i < self.totals@.len() ==> m.hours.contains_key(#[trigger] self.totals@[i].0@)
                && m.hours[self.totals@[i].0@] == self.totals@[i].1 && m.counts[self.totals@[i].0@]
                == self.totals@[i].2
        &&& forall|k: Seq<char>|
            #[trigger] m.hours.contains_key(k) ==> exists|i: int|
                0 <= i < self.totals@.len() && #[trigger] self.totals@[i].0@ == k
        &&& m.recent == string_views(self.recent@)
        &&& store_wf(m)
    }

    /// A well-formed store follows a well-formed model: aggregates come in
    /// pairs, counts are at least one, and the feed is within capacity.
    pub proof fn lemma_model_wf(&self)
        requires
            self.wf(),
        ensures
            store_wf(self@),
    {
    }

    /// An empty store.
    pub fn new() -> (r: MemoryStore)
        ensures
            r.wf(),
            r@ == empty_store(),
    {
        let r = MemoryStore {
            records: Vec::new(),
            totals: Vec::new(),
            recent: Vec::new(),
            model: Ghost(empty_store()),
        };
        assert(string_views(r.recent@) =~= seq![]);
        r
    }

    fn find_record(&self, token: &String) -> (r: Option<usize>)
        requires
            self.wf(),
        ensures
            r matches Some(i) ==> i < self.records@.len() && self.records@[i as int].0@ == token@,
            r is None ==> !self@.records.contains_key(token@),
    {
        let mut i: usize = 0;
        while i < self.records.len()
            invariant
                i <= self.records@.len(),
                forall|k: int| 0 <= k < i ==> self.records@[k].0@ != token@,
            decreases self.records@.len() - i,
        {
            if self.records[i].0 == *token {
                return Some(i);
            }
            i = i + 1;
        }
        None
    }

    fn find_total(&self, country: &String) -> (r: Option<usize>)
        requires
            self.wf(),
        ensures
            r matches Some(i) ==> i < self.totals@.len() && self.totals@[i as int].0@ == country@,
            r is None ==> !self@.hours.contains_key(country@),
    {
        let mut i: usize = 0;
        while i < self.totals.len()
            invariant
                i <= self.totals@.len(),
                forall|k: int| 0 <= k < i ==> self.totals@[k].0@ != country@,
            decreases self.totals@.len() - i,
        {
            if self.totals[i].0 == *country {
                return Some(i);
            }
            i = i + 1;
        }
        None
    }

    /// Writes a checked pledge as one batch: its record under its token, both
    /// aggregates of its country, and its token at the front of the feed,
    /// trimmed to capacity. Where an aggregate would leave `u64`, nothing is
    /// written.
    pub fn apply(&mut self, p: Pledge) -> (r: Result<(), LedgerError>)
        requires
            old(self).wf(),
        ensures
            final(self).wf(),
            fits(old(self)@, p.country@, p.hours as int) ==> r is Ok && final(self)@ == apply_pledge(
                old(self)@,
                p.token@,
                p.country@,
                p.hours as int,
                p.timestamp@,
            ),
            !fits(old(self)@, p.country@, p.hours as int) ==> r == Err::<(), LedgerError>(
                LedgerError::StoreUnavailable,
            ) && final(self)@ == old(self)@,
    {
        let ghost m0 = self.model@;
        let ghost t0 = self.totals@;
        let ghost r0 = self.records@;
        let Pledge { token, country, hours, timestamp } = p;
        let ghost target = apply_pledge(m0, token@, country@, hours as int, timestamp@);
        // the aggregates come first: they are the only step that can fail
        let ti = self.find_total(&country);
        let ri = self.find_record(&token);
        match ti {
            Some(i) => {
                let h = self.totals[i].1;
                let c = self.totals[i].2;
                assert(hours_of(m0, country@) == h && count_of(m0, country@) == c);
                if h > u64::MAX - hours || c == u64::MAX {
                    return Err(LedgerError::StoreUnavailable);
                }
                self.totals.set(i, (country.clone(), h + hours, c + 1));
            },
            None => {
                assert(!m0.counts.contains_key(country@));
                self.totals.push((country.clone(), hours, 1));
            },
        }
        proof {
            let n = self.totals@.len();
            assert forall|a: int, b: int| 0 <= a < b < n implies self.totals@[a].0@
                != self.totals@[b].0@ by {
                if ti is None && b == n - 1 {
                    assert(m0.hours.contains_key(t0[a].0@));
                }
            }
            assert forall|a: int| 0 <= a < n implies target.hours.contains_key(
                #[trigger] self.totals@[a].0@,
            ) && target.hours[self.totals@[a].0@] == self.totals@[a].1
                && target.counts[self.totals@[a].0@] == self.totals@[a].2 by {
                if self.totals@[a].0@ != country@ {
                    assert(self.totals@[a] == t0[a]);
                    assert(m0.hours.contains_key(t0[a].0@));
                }
            }
            assert forall|k: Seq<char>| #[trigger] target.hours.contains_key(k) implies exists|a: int|
                0 <= a < n && #[trigger] self.totals@[a].0@ == k by {
                if k == country@ {
                    match ti {
                        Some(i) => {
                            assert(self.totals@[i as int].0@ == k);
                        },
                        None => {
                            assert(self.totals@[n - 1].0@ == k);
                        },
                    }
                } else {
                    assert(m0.hours.contains_key(k));
                    let a = choose|a: int| 0 <= a < t0.len() && #[trigger] t0[a].0@ == k;
                    assert(self.totals@[a] == t0[a]);
                }
            }
        }
        let ghost t1 = self.totals@;
        let rec = PledgeRecord { country, hours, timestamp };
        match ri {
            Some(i) => {
                self.records.set(i, (token.clone(), rec));
            },
            None => {
                self.records.push((token.clone(), rec));
            },
        }
        proof {
            let n = self.records@.len();
            assert forall|a: int, b: int| 0 <= a < b < n implies self.records@[a].0@
                != self.records@[b].0@ by {
                if ri is None && b == n - 1 {
                    assert(m0.records.contains_key(r0[a].0@));
                }
            }
            assert forall|a: int| 0 <= a < n implies target.records.contains_key(
                #[trigger] self.records@[a].0@,
            ) && target.records[self.records@[a].0@] == record_view(self.records@[a].1) by {
                if self.records@[a].0@ != token@ {
                    assert(self.records@[a] == r0[a]);
                    assert(m0.records.contains_key(r0[a].0@));
                }
            }
            assert forall|k: Seq<char>| #[trigger] target.records.contains_key(k) implies exists|a: int|
                0 <= a < n && #[trigger] self.records@[a].0@ == k by {
                if k == token@ {
                    match ri {
                        Some(i) => {
                            assert(self.records@[i as int].0@ == k);
                        },
                        None => {
                            assert(self.records@[n - 1].0@ == k);
                        },
                    }
                } else {
                    assert(m0.records.contains_key(k));
                    let a = choose|a: int| 0 <= a < r0.len() && #[trigger] r0[a].0@ == k;
                    assert(self.records@[a] == r0[a]);
                }
            }
        }
        let ghost r1 = self.records@;
        let ghost feed0 = self.recent@;
        self.recent.insert(0, token);
        let ghost feed1 = self.recent@;
        assert(string_views(feed1) =~= seq![token@] + m0.recent) by {
            assert forall|k: int| 0 <= k < feed1.len() implies #[trigger] string_views(feed1)[k] == (
            seq![token@] + m0.recent)[k] by {
                if k > 0 {
                    assert(feed1[k] == feed0[k - 1]);
                }
            }
        }
        self.recent.truncate(FEED_CAPACITY);
        assert(string_views(self.recent@) =~= target.recent);
        self.model = Ghost(target);
        assert(target.hours.dom() =~= target.counts.dom());
        assert(self.totals@ == t1);
        assert(self.records@ == r1);
        Ok(())
    }

    /// Records a pledge: checks the country against the catalog and the
    /// hours (in millionths of an hour) against zero to ten, in that order,
    /// then writes the batch. On any error the store is left as it was.
    pub fn record_pledge(
        &mut self,
        catalog: &Catalog,
        token: String,
        country: String,
        hours: i64,
        timestamp: String,
    ) -> (r: Result<(), LedgerError>)
        requires
            old(self).wf(),
        ensures
            final(self).wf(),
            pledge_check(catalog.ids(), country@, hours as int) is Err ==> r == pledge_check(
                catalog.ids(),
                country@,
                hours as int,
            ) && final(self)@ == old(self)@,
            pledge_check(catalog.ids(), country@, hours as int) is Ok && fits(
                old(self)@,
                country@,
                hours as int,
            ) ==> r is Ok && final(self)@ == apply_pledge(
                old(self)@,
                token@,
                country@,
                hours as int,
                timestamp@,
            ),
            pledge_check(catalog.ids(), country@, hours as int) is Ok && !fits(
                old(self)@,
                country@,
                hours as int,
            ) ==> r == Err::<(), LedgerError>(LedgerError::StoreUnavailable) && final(self)@ == old(
                self,
            )@,
    {
        match check_pledge(catalog, token, country, hours, timestamp) {
            Ok(p) => self.apply(p),
            Err(e) => Err(e),
        }
    }

    /// Each country of the catalog that has aggregates, with its cumulative
    /// hours and pledge count, ascending by hours; countries with equal
    /// hours keep the catalog's order.
    pub fn summary(&self, catalog: &Catalog) -> (r: Vec<CountryTotal>)
        requires
            self.wf(),
        ensures
            totals_view(r@) == summary_of(catalog.ids(), self@),
    {
        let mut lines: Vec<CountryTotal> = Vec::new();
        let mut i: usize = 0;
        while i < catalog.len()
            invariant
                self.wf(),
                i <= catalog.ids().len(),
                totals_view(lines@) == present_totals(catalog.ids().take(i as int), self@),
            decreases catalog.ids().len() - i,
        {
            let id = &catalog.get(i).id;
            assert(id@ == catalog.ids()[i as int]);
            assert(catalog.ids().take(i + 1).drop_last() =~= catalog.ids().take(i as int));
            match self.find_total(id) {
                Some(j) => {
                    let ghost before = lines@;
                    let line = CountryTotal {
                        country: id.clone(),
                        hours: self.totals[j].1,
                        count: self.totals[j].2,
                    };
                    lines.push(line);
                    assert(self@.hours.contains_key(id@));
                    assert(totals_view(lines@) =~= totals_view(before).push(
                        (id@, self@.hours[id@], count_of(self@, id@)),
                    ));
                },
                None => {},
            }
            i = i + 1;
        }
        assert(catalog.ids().take(i as int) =~= catalog.ids());
        sort_totals(lines)
    }

    /// The feed, newest first, each token joined to its record's country and
    /// hours; a token without a record is skipped.
    pub fn recent(&self) -> (r: Vec<RecentEntry>)
        requires
            self.wf(),
        ensures
            entries_view(r@) == recent_of(self@),
    {
        let mut out: Vec<RecentEntry> = Vec::new();
        let ghost feed = self@.recent;
        let mut i: usize = 0;
        assert(feed.skip(0) =~= feed);
        assert(entries_view(out@) + join_feed(feed.skip(0), self@.records) =~= recent_of(self@));
        while i < self.recent.len()
            invariant
                self.wf(),
                feed == self@.recent,
                feed.len() == self.recent@.len(),
                i <= feed.len(),
                entries_view(out@) + join_feed(feed.skip(i as int), self@.records) == recent_of(
                    self@,
                ),
            decreases feed.len() - i,
        {
            let token = &self.recent[i];
            assert(token@ == feed[i as int]);
            assert(feed.skip(i as int).drop_first() =~= feed.skip(i + 1));
            let ghost before = out@;
            match self.find_record(token) {
                Some(j) => {
                    let e = RecentEntry {
                        country: self.records[j].1.country.clone(),
                        hours: self.records[j].1.hours,
                    };
                    out.push(e);
                    assert(self@.records.contains_key(token@));
                    assert(entries_view(out@) =~= entries_view(before).push(
                        (self@.records[token@].country, self@.records[token@].hours),
                    ));
                    assert(entries_view(out@) + join_feed(feed.skip(i + 1), self@.records)
                        =~= entries_view(before) + join_feed(feed.skip(i as int), self@.records));
                },
                None => {},
            }
            i = i + 1;
        }
        assert(join_feed(feed.skip(i as int), self@.records) =~= seq![]);
        assert(entries_view(out@) =~= entries_view(out@) + seq![]);
        out
    }
}

} // verus!
