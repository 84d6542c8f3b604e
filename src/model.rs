//! The mathematical model of the ledger's store: pledge records, the two
//! aggregates of each country, and the feed of recent tokens; with what one
//! pledge does to it and what the two read paths make of it.

use vstd::prelude::*;

verus! {

/// Pledged hours are held in millionths of an hour.
pub const UNITS_PER_HOUR: u64 = 1000000;

/// The largest pledge: ten hours.
pub const MAX_PLEDGE_UNITS: u64 = 10 * UNITS_PER_HOUR;

/// How many tokens the recent-updates feed keeps.
pub const FEED_CAPACITY: usize = 5;

/// Everything that can go wrong in the ledger and around it.
#[derive(Clone, Copy, Debug, PartialEq, Eq, Structural)]
pub enum LedgerError {
    /// The country is not in the catalog.
    InvalidCountry,
    /// The hours lie outside zero to ten.
    OutOfRange,
    /// The bot check said the token is not valid.
    VerificationRejected,
    /// The bot check could not be reached or gave no usable answer.
    VerificationUnreachable,
    /// The store failed, or holds what the ledger never writes.
    StoreUnavailable,
}

/// What the store holds for one pledge token.
pub struct RecordView {
    pub country: Seq<char>,
    pub hours: int,
    pub timestamp: Seq<char>,
}

/// The store: records by token, cumulative hours and pledge counts by
/// country, and the feed of recent tokens, newest first.
pub struct StoreView {
    pub records: Map<Seq<char>, RecordView>,
    pub hours: Map<Seq<char>, int>,
    pub counts: Map<Seq<char>, int>,
    pub recent: Seq<Seq<char>>,
}

/// A country's line of the summary: identifier, cumulative hours, count.
pub type TotalView = (Seq<char>, int, int);

/// A line of the recent feed: country and hours.
pub type EntryView = (Seq<char>, int);

/// The store before any pledge.
pub open spec fn empty_store() -> StoreView {
    StoreView { records: Map::empty(), hours: Map::empty(), counts: Map::empty(), recent: seq![] }
}

/// What every store that the ledger writes satisfies: both aggregates exist
/// together, a count is at least one, hours are not negative, and the feed
/// is within its capacity.
pub open spec fn store_wf(s: StoreView) -> bool {
    &&& s.hours.dom() == s.counts.dom()
    &&& forall|c: Seq<char>| #[trigger] s.counts.contains_key(c) ==> s.counts[c] >= 1
    &&& forall|c: Seq<char>| #[trigger] s.hours.contains_key(c) ==> s.hours[c] >= 0
    &&& s.recent.len() <= FEED_CAPACITY
}

/// The outcome of the checks made before a pledge is written: the country
/// first, then the range of the hours.
pub open spec fn pledge_check(ids: Seq<Seq<char>>, country: Seq<char>, hours: int) -> Result<
    (),
    LedgerError,
> {
    if !ids.contains(country) {
        Err(LedgerError::InvalidCountry)
    } else if hours < 0 || hours > MAX_PLEDGE_UNITS {
        Err(LedgerError::OutOfRange)
    } else {
        Ok(())
    }
}

/// Cumulative hours of a country; absent counts as zero.
pub open spec fn hours_of(s: StoreView, country: Seq<char>) -> int {
    if s.hours.contains_key(country) {
        s.hours[country]
    } else {
        0
    }
}

/// Pledge count of a country; absent counts as zero.
pub open spec fn count_of(s: StoreView, country: Seq<char>) -> int {
    if s.counts.contains_key(country) {
        s.counts[country]
    } else {
        0
    }
}

/// Whether a pledge of `hours` to `country` keeps both of its aggregates
/// within `u64`.
pub open spec fn fits(s: StoreView, country: Seq<char>, hours: int) -> bool {
    hours_of(s, country) + hours <= u64::MAX && count_of(s, country) + 1 <= u64::MAX
}

/// The feed after `token` is pushed to its front and it is trimmed.
pub open spec fn feed_push(feed: Seq<Seq<char>>, token: Seq<char>) -> Seq<Seq<char>> {
    let pushed = seq![token] + feed;
    if pushed.len() <= FEED_CAPACITY {
        pushed
    } else {
        pushed.take(FEED_CAPACITY as int)
    }
}

/// The one batch that a pledge writes: the record under its token (the
/// last write wins), both aggregates of its country, and the feed.
pub open spec fn apply_pledge(
    s: StoreView,
    token: Seq<char>,
    country: Seq<char>,
    hours: int,
    timestamp: Seq<char>,
) -> StoreView {
    StoreView {
        records: s.records.insert(token, RecordView { country, hours, timestamp }),
        hours: s.hours.insert(country, hours_of(s, country) + hours),
        counts: s.counts.insert(country, count_of(s, country) + 1),
        recent: feed_push(s.recent, token),
    }
}

/// The store after a request to record a pledge: changed only where the
/// checks pass.
pub open spec fn state_after(
    ids: Seq<Seq<char>>,
    s: StoreView,
    token: Seq<char>,
    country: Seq<char>,
    hours: int,
    timestamp: Seq<char>,
) -> StoreView {
    if pledge_check(ids, country, hours) is Ok {
        apply_pledge(s, token, country, hours, timestamp)
    } else {
        s
    }
}

/// The aggregates of the countries that have any, in catalog order.
pub open spec fn present_totals(ids: Seq<Seq<char>>, s: StoreView) -> Seq<TotalView>
    decreases ids.len(),
{
    if ids.len() == 0 {
        seq![]
    } else {
        let rest = present_totals(ids.drop_last(), s);
        let c = ids.last();
        if s.hours.contains_key(c) {
            rest.push((c, s.hours[c], count_of(s, c)))
        } else {
            rest
        }
    }
}

/// `x` placed before the first line whose hours are not below its own.
pub open spec fn insert_by_hours(sorted: Seq<TotalView>, x: TotalView) -> Seq<TotalView>
    decreases sorted.len(),
{
    if sorted.len() == 0 {
        seq![x]
    } else if x.1 <= sorted[0].1 {
        seq![x] + sorted
    } else {
        seq![sorted[0]] + insert_by_hours(sorted.drop_first(), x)
    }
}

/// The lines in ascending order of hours; lines with equal hours keep
/// their order.
pub open spec fn sort_by_hours(s: Seq<TotalView>) -> Seq<TotalView>
    decreases s.len(),
{
    if s.len() == 0 {
        seq![]
    } else {
        insert_by_hours(sort_by_hours(s.drop_first()), s[0])
    }
}

/// The summary: each country with aggregates, ascending by hours.
pub open spec fn summary_of(ids: Seq<Seq<char>>, s: StoreView) -> Seq<TotalView> {
    sort_by_hours(present_totals(ids, s))
}

/// The feed joined to the records, newest first; a token without a record
/// is skipped.
pub open spec fn join_feed(feed: Seq<Seq<char>>, records: Map<Seq<char>, RecordView>) -> Seq<
    EntryView,
>
    decreases feed.len(),
{
    if feed.len() == 0 {
        seq![]
    } else {
        let rest = join_feed(feed.drop_first(), records);
        let t = feed[0];
        if records.contains_key(t) {
            seq![(records[t].country, records[t].hours)] + rest
        } else {
            rest
        }
    }
}

/// The recent feed of a store.
pub open spec fn recent_of(s: StoreView) -> Seq<EntryView> {
    join_feed(s.recent, s.records)
}

} // verus!
