//! The layout of the ledger in a key-value store: the keys, the commands of
//! one pledge's batch and of the two reads, and the reading of the replies.

use vstd::prelude::*;
use crate::aggregate::{entries_view, sort_totals, totals_view, CountryTotal, RecentEntry};
use crate::catalog::{string_views, Catalog};
use crate::decimal::{
    decimal_text, decimal_value, format_decimal, lemma_decimal_round_trip, parse_decimal,
};
use crate::model::{
    join_feed, present_totals, recent_of, sort_by_hours, store_wf, summary_of, EntryView,
    LedgerError, RecordView, StoreView, TotalView, FEED_CAPACITY,
};
use crate::pledge::Pledge;

verus! {

/// The store key of a pledge's record.
pub open spec fn record_key_of(token: Seq<char>) -> Seq<char> {
    "token:"@ + token
}

/// The store key of a country's cumulative hours.
pub open spec fn hours_key_of(country: Seq<char>) -> Seq<char> {
    "country:hours:"@ + country
}

/// The store key of a country's pledge count.
pub open spec fn count_key_of(country: Seq<char>) -> Seq<char> {
    "country:count:"@ + country
}

/// The commands of one pledge's batch, to be run as one transaction: the
/// record, both aggregates, the push to the feed and its trim.
pub open spec fn pledge_batch_of(
    token: Seq<char>,
    country: Seq<char>,
    hours: nat,
    timestamp: Seq<char>,
) -> Seq<Seq<Seq<char>>> {
    seq![
        seq![
            "HSET"@,
            record_key_of(token),
            "country"@,
            country,
            "hours"@,
            decimal_text(hours),
            "timestamp"@,
            timestamp,
        ],
        seq!["INCRBY"@, hours_key_of(country), decimal_text(hours)],
        seq!["INCR"@, count_key_of(country)],
        seq!["LPUSH"@, "recent_updates"@, token],
        seq!["LTRIM"@, "recent_updates"@, "0"@, decimal_text((FEED_CAPACITY - 1) as nat)],
    ]
}

pub open spec fn command_views(cmds: Seq<Vec<String>>) -> Seq<Seq<Seq<char>>> {
    cmds.map_values(|c: Vec<String>| string_views(c@))
}

/// The key of a pledge's record.
pub fn record_key(token: &str) -> (r: String)
    ensures
        r@ == record_key_of(token@),
{
    String::from_str("token:").concat(token)
}

/// The key of a country's cumulative hours.
pub fn hours_key(country: &str) -> (r: String)
    ensures
        r@ == hours_key_of(country@),
{
    String::from_str("country:hours:").concat(country)
}

/// The key of a country's pledge count.
pub fn count_key(country: &str) -> (r: String)
    ensures
        r@ == count_key_of(country@),
{
    String::from_str("country:count:").concat(country)
}

/// The commands that write a checked pledge, in order; the store must run
/// them as one transaction.
pub fn pledge_batch(p: &Pledge) -> (r: Vec<Vec<String>>)
    ensures
        command_views(r@) == pledge_batch_of(p.token@, p.country@, p.hours as nat, p.timestamp@),
{
    let hours = format_decimal(p.hours);
    let record = vec![
        String::from_str("HSET"),
        record_key(p.token.as_str()),
        String::from_str("country"),
        p.country.clone(),
        String::from_str("hours"),
        hours.clone(),
        String::from_str("timestamp"),
        p.timestamp.clone(),
    ];
    let add_hours = vec![String::from_str("INCRBY"), hours_key(p.country.as_str()), hours];
    let add_count = vec![String::from_str("INCR"), count_key(p.country.as_str())];
    let push = vec![
        String::from_str("LPUSH"),
        String::from_str("recent_updates"),
        p.token.clone(),
    ];
    let trim = vec![
        String::from_str("LTRIM"),
        String::from_str("recent_updates"),
        String::from_str("0"),
        format_decimal((FEED_CAPACITY - 1) as u64),
    ];
    let ghost b = pledge_batch_of(p.token@, p.country@, p.hours as nat, p.timestamp@);
    assert(string_views(record@) =~= b[0]);
    assert(string_views(add_hours@) =~= b[1]);
    assert(string_views(add_count@) =~= b[2]);
    assert(string_views(push@) =~= b[3]);
    assert(string_views(trim@) =~= b[4]);
    let r = vec![record, add_hours, add_count, push, trim];
    assert(command_views(r@) =~= pledge_batch_of(
        p.token@,
        p.country@,
        p.hours as nat,
        p.timestamp@,
    ));
    r
}

/// The command that fetches every country's count, then every country's
/// hours, in catalog order.
pub open spec fn summary_command_of(ids: Seq<Seq<char>>) -> Seq<Seq<char>> {
    seq!["MGET"@] + ids.map_values(|c: Seq<char>| count_key_of(c)) + ids.map_values(
        |c: Seq<char>| hours_key_of(c),
    )
}

/// The command that fetches the feed, newest first.
pub open spec fn recent_command_of() -> Seq<Seq<char>> {
    seq!["LRANGE"@, "recent_updates"@, "0"@, decimal_text((FEED_CAPACITY - 1) as nat)]
}

/// The command that fetches a record's country and hours.
pub open spec fn record_fields_command_of(token: Seq<char>) -> Seq<Seq<char>> {
    seq!["HMGET"@, record_key_of(token), "country"@, "hours"@]
}

pub open spec fn opt_view(o: Option<String>) -> Option<Seq<char>> {
    match o {
        Some(s) => Some(s@),
        None => None,
    }
}

pub open spec fn replies_view(s: Seq<Option<String>>) -> Seq<Option<Seq<char>>> {
    s.map_values(|o: Option<String>| opt_view(o))
}

pub open spec fn pairs_view(s: Seq<(Option<String>, Option<String>)>) -> Seq<
    (Option<Seq<char>>, Option<Seq<char>>),
> {
    s.map_values(|p: (Option<String>, Option<String>)| (opt_view(p.0), opt_view(p.1)))
}

/// The summary lines that the replies give, in catalog order: a country
/// without hours is left out; `None` where a country with hours has no
/// count, or either reply is not a decimal number.
pub open spec fn reply_lines(
    ids: Seq<Seq<char>>,
    counts: Seq<Option<Seq<char>>>,
    hours: Seq<Option<Seq<char>>>,
) -> Option<Seq<TotalView>>
    decreases ids.len(),
{
    if ids.len() == 0 || counts.len() != ids.len() || hours.len() != ids.len() {
        Some(seq![])
    } else {
        match reply_lines(ids.drop_last(), counts.drop_last(), hours.drop_last()) {
            None => None,
            Some(rest) => match hours.last() {
                None => Some(rest),
                Some(h) => match (decimal_value(h), counts.last()) {
                    (Some(hv), Some(c)) => match decimal_value(c) {
                        Some(cv) => Some(rest.push((ids.last(), hv as int, cv as int))),
                        None => None,
                    },
                    _ => None,
                },
            },
        }
    }
}

/// The summary that the reply to the summary command gives.
pub open spec fn summary_from(ids: Seq<Seq<char>>, replies: Seq<Option<Seq<char>>>) -> Result<
    Seq<TotalView>,
    LedgerError,
> {
    let n = ids.len() as int;
    if replies.len() != 2 * n {
        Err(LedgerError::StoreUnavailable)
    } else {
        match reply_lines(ids, replies.take(n), replies.skip(n)) {
            Some(lines) => Ok(sort_by_hours(lines)),
            None => Err(LedgerError::StoreUnavailable),
        }
    }
}

/// The feed lines that the records' replies give, in feed order: a record
/// without a country is skipped; hours that are missing or not a decimal
/// number count as zero.
pub open spec fn reply_entries(replies: Seq<(Option<Seq<char>>, Option<Seq<char>>)>) -> Seq<
    EntryView,
>
    decreases replies.len(),
{
    if replies.len() == 0 {
        seq![]
    } else {
        let rest = reply_entries(replies.drop_last());
        let (country, hours) = replies.last();
        match country {
            None => rest,
            Some(c) => rest.push(
                (
                    c,
                    match hours {
                        Some(h) => match decimal_value(h) {
                            Some(v) => v as int,
                            None => 0,
                        },
                        None => 0,
                    },
                ),
            ),
        }
    }
}

proof fn lemma_reply_lines_prefix_none(
    ids: Seq<Seq<char>>,
    counts: Seq<Option<Seq<char>>>,
    hours: Seq<Option<Seq<char>>>,
    i: int,
)
    requires
        0 <= i <= ids.len(),
        counts.len() == ids.len(),
        hours.len() == ids.len(),
        reply_lines(ids.take(i), counts.take(i), hours.take(i)) is None,
    ensures
        reply_lines(ids, counts, hours) is None,
    decreases ids.len(),
{
    if i == ids.len() {
        assert(ids.take(i) =~= ids);
        assert(counts.take(i) =~= counts);
        assert(hours.take(i) =~= hours);
    } else {
        assert(ids.drop_last().take(i) =~= ids.take(i));
        assert(counts.drop_last().take(i) =~= counts.take(i));
        assert(hours.drop_last().take(i) =~= hours.take(i));
        lemma_reply_lines_prefix_none(ids.drop_last(), counts.drop_last(), hours.drop_last(), i);
    }
}

/// The command that fetches every country's aggregates.
pub fn summary_command(catalog: &Catalog) -> (r: Vec<String>)
    ensures
        string_views(r@) == summary_command_of(catalog.ids()),
{
    let ghost ids = catalog.ids();
    let mut r: Vec<String> = vec![String::from_str("MGET")];
    let n = catalog.len();
    let mut i: usize = 0;
    while i < n
        invariant
            n == ids.len(),
            ids == catalog.ids(),
            i <= n,
            string_views(r@) == seq!["MGET"@] + ids.take(i as int).map_values(
                |c: Seq<char>| count_key_of(c),
            ),
        decreases n - i,
    {
        let ghost before = r@;
        let id = &catalog.get(i).id;
        assert(id@ == ids[i as int]);
        let key = count_key(id.as_str());
        r.push(key);
        i = i + 1;
        assert(string_views(r@) =~= seq!["MGET"@] + ids.take(i as int).map_values(
            |c: Seq<char>| count_key_of(c),
        )) by {
            assert(string_views(r@) =~= string_views(before).push(count_key_of(ids[i - 1])));
        }
    }
    assert(ids.take(n as int) =~= ids);
    let ghost head = string_views(r@);
    let mut j: usize = 0;
    while j < n
        invariant
            n == ids.len(),
            ids == catalog.ids(),
            j <= n,
            head.len() == n + 1,
            string_views(r@) == head + ids.take(j as int).map_values(|c: Seq<char>| hours_key_of(c)),
        decreases n - j,
    {
        let ghost before = r@;
        let id = &catalog.get(j).id;
        assert(id@ == ids[j as int]);
        let key = hours_key(id.as_str());
        r.push(key);
        j = j + 1;
        assert(string_views(r@) =~= head + ids.take(j as int).map_values(
            |c: Seq<char>| hours_key_of(c),
        )) by {
            assert(string_views(r@) =~= string_views(before).push(hours_key_of(ids[j - 1])));
        }
    }
    assert(ids.take(n as int) =~= ids);
    r
}

/// The command that fetches the feed.
pub fn recent_command() -> (r: Vec<String>)
    ensures
        string_views(r@) == recent_command_of(),
{
    let r = vec![
        String::from_str("LRANGE"),
        String::from_str("recent_updates"),
        String::from_str("0"),
        format_decimal((FEED_CAPACITY - 1) as u64),
    ];
    assert(string_views(r@) =~= recent_command_of());
    r
}

/// The command that fetches a record's country and hours.
pub fn record_fields_command(token: &str) -> (r: Vec<String>)
    ensures
        string_views(r@) == record_fields_command_of(token@),
{
    let r = vec![
        String::from_str("HMGET"),
        record_key(token),
        String::from_str("country"),
        String::from_str("hours"),
    ];
    assert(string_views(r@) =~= record_fields_command_of(token@));
    r
}

/// The summary from the reply to the summary command: each country with
/// hours, ascending by hours, catalog order among equals. A reply of the
/// wrong length, or a malformed value, is a store failure.
pub fn summary_from_replies(catalog: &Catalog, replies: Vec<Option<String>>) -> (r: Result<
    Vec<CountryTotal>,
    LedgerError,
>)
    ensures
        match r {
            Ok(v) => summary_from(catalog.ids(), replies_view(replies@)) == Ok::<
                Seq<TotalView>,
                LedgerError,
            >(totals_view(v@)),
            Err(e) => summary_from(catalog.ids(), replies_view(replies@)) == Err::<
                Seq<TotalView>,
                LedgerError,
            >(e),
        },
{
    let ghost ids = catalog.ids();
    let ghost rv = replies_view(replies@);
    let n = catalog.len();
    let rl = replies.len();
    if n > usize::MAX / 2 || rl != 2 * n {
        return Err(LedgerError::StoreUnavailable);
    }
    let ghost counts = rv.take(n as int);
    let ghost hours = rv.skip(n as int);
    let mut lines: Vec<CountryTotal> = Vec::new();
    let mut i: usize = 0;
    while i < n
        invariant
            n == ids.len(),
            ids == catalog.ids(),
            replies@.len() == 2 * n,
            rv == replies_view(replies@),
            counts == rv.take(n as int),
            hours == rv.skip(n as int),
            i <= n,
            reply_lines(ids.take(i as int), counts.take(i as int), hours.take(i as int)) == Some(
                totals_view(lines@),
            ),
        decreases n - i,
    {
        let ghost prev = totals_view(lines@);
        assert(ids.take(i + 1).drop_last() =~= ids.take(i as int));
        assert(counts.take(i + 1).drop_last() =~= counts.take(i as int));
        assert(hours.take(i + 1).drop_last() =~= hours.take(i as int));
        assert(hours.take(i + 1).last() == opt_view(replies@[n + i]));
        assert(counts.take(i + 1).last() == opt_view(replies@[i as int]));
        let id = &catalog.get(i).id;
        assert(id@ == ids[i as int]);
        match &replies[n + i] {
            None => {},
            Some(h) => {
                let hv = parse_decimal(h.as_str());
                let cv = match &replies[i] {
                    Some(c) => parse_decimal(c.as_str()),
                    None => None,
                };
                match (hv, cv) {
                    (Some(hv), Some(cv)) => {
                        lines.push(CountryTotal { country: id.clone(), hours: hv, count: cv });
                        assert(totals_view(lines@) =~= prev.push((id@, hv as int, cv as int)));
                    },
                    _ => {
                        proof {
                            lemma_reply_lines_prefix_none(ids, counts, hours, i + 1);
                            assert(ids.take(n as int) =~= ids);
                        }
                        return Err(LedgerError::StoreUnavailable);
                    },
                }
            },
        }
        i = i + 1;
    }
    assert(ids.take(n as int) =~= ids);
    assert(counts.take(n as int) =~= counts);
    assert(hours.take(n as int) =~= hours);
    Ok(sort_totals(lines))
}

/// The feed from the replies to the record fields commands, one reply of
/// country and hours per token, newest first.
pub fn recent_from_replies(replies: Vec<(Option<String>, Option<String>)>) -> (r: Vec<RecentEntry>)
    ensures
        entries_view(r@) == reply_entries(pairs_view(replies@)),
{
    let ghost pv = pairs_view(replies@);
    let mut out: Vec<RecentEntry> = Vec::new();
    let mut i: usize = 0;
    while i < replies.len()
        invariant
            pv == pairs_view(replies@),
            i <= replies@.len(),
            entries_view(out@) == reply_entries(pv.take(i as int)),
        decreases replies@.len() - i,
    {
        let ghost prev = entries_view(out@);
        assert(pv.take(i + 1).drop_last() =~= pv.take(i as int));
        assert(pv.take(i + 1).last() == pv[i as int]);
        match &replies[i].0 {
            None => {},
            Some(c) => {
                let hours: u64 = match &replies[i].1 {
                    Some(h) => match parse_decimal(h.as_str()) {
                        Some(v) => v,
                        None => 0,
                    },
                    None => 0,
                };
                out.push(RecentEntry { country: c.clone(), hours });
                assert(entries_view(out@) =~= prev.push((c@, hours as int)));
            },
        }
        i = i + 1;
    }
    assert(pv.take(i as int) =~= pv);
    out
}

/// The text of an aggregate as the store holds it, if present.
pub open spec fn stored_value(m: Map<Seq<char>, int>, key: Seq<char>) -> Option<Seq<char>> {
    if m.contains_key(key) {
        Some(decimal_text(m[key] as nat))
    } else {
        None
    }
}

/// The reply to the summary command from a store in the state `s`.
pub open spec fn summary_replies_of(ids: Seq<Seq<char>>, s: StoreView) -> Seq<Option<Seq<char>>> {
    ids.map_values(|c: Seq<char>| stored_value(s.counts, c)) + ids.map_values(
        |c: Seq<char>| stored_value(s.hours, c),
    )
}

/// The replies to the record fields commands, one per token of the feed,
/// from a store in the state `s`.
pub open spec fn record_replies_of(s: StoreView) -> Seq<(Option<Seq<char>>, Option<Seq<char>>)> {
    s.recent.map_values(
        |t: Seq<char>|
            if s.records.contains_key(t) {
                (Some(s.records[t].country), Some(decimal_text(s.records[t].hours as nat)))
            } else {
                (None, None)
            },
    )
}

/// Every aggregate and every record's hours is a `u64`.
pub open spec fn values_in_range(s: StoreView) -> bool {
    &&& forall|c: Seq<char>|
        #[trigger] s.hours.contains_key(c) ==> 0 <= s.hours[c] <= u64::MAX
    &&& forall|c: Seq<char>|
        #[trigger] s.counts.contains_key(c) ==> 0 <= s.counts[c] <= u64::MAX
    &&& forall|t: Seq<char>|
        #[trigger] s.records.contains_key(t) ==> 0 <= s.records[t].hours <= u64::MAX
}

proof fn lemma_reply_lines_of_store(ids: Seq<Seq<char>>, s: StoreView)
    requires
        store_wf(s),
        values_in_range(s),
    ensures
        reply_lines(
            ids,
            ids.map_values(|c: Seq<char>| stored_value(s.counts, c)),
            ids.map_values(|c: Seq<char>| stored_value(s.hours, c)),
        ) == Some(present_totals(ids, s)),
    decreases ids.len(),
{
    if ids.len() > 0 {
        let d = ids.drop_last();
        let cs = ids.map_values(|c: Seq<char>| stored_value(s.counts, c));
        let hs = ids.map_values(|c: Seq<char>| stored_value(s.hours, c));
        assert(cs.drop_last() =~= d.map_values(|c: Seq<char>| stored_value(s.counts, c)));
        assert(hs.drop_last() =~= d.map_values(|c: Seq<char>| stored_value(s.hours, c)));
        lemma_reply_lines_of_store(d, s);
        let c = ids.last();
        if s.hours.contains_key(c) {
            assert(s.counts.contains_key(c));
            lemma_decimal_round_trip(s.hours[c] as nat);
            lemma_decimal_round_trip(s.counts[c] as nat);
        }
    }
}

/// Read through the store's replies, the summary of a store that holds what
/// the ledger writes is the summary of the model.
pub proof fn lemma_summary_through_store(ids: Seq<Seq<char>>, s: StoreView)
    requires
        store_wf(s),
        values_in_range(s),
    ensures
        summary_from(ids, summary_replies_of(ids, s)) == Ok::<Seq<TotalView>, LedgerError>(
            summary_of(ids, s),
        ),
{
    let n = ids.len() as int;
    let r = summary_replies_of(ids, s);
    assert(r.take(n) =~= ids.map_values(|c: Seq<char>| stored_value(s.counts, c)));
    assert(r.skip(n) =~= ids.map_values(|c: Seq<char>| stored_value(s.hours, c)));
    lemma_reply_lines_of_store(ids, s);
}

proof fn lemma_join_feed_push(
    feed: Seq<Seq<char>>,
    records: Map<Seq<char>, RecordView>,
    t: Seq<char>,
)
    ensures
        join_feed(feed.push(t), records) == join_feed(feed, records) + if records.contains_key(t) {
            seq![(records[t].country, records[t].hours)]
        } else {
            seq![]
        },
    decreases feed.len(),
{
    if feed.len() == 0 {
        assert(feed.push(t).drop_first() =~= seq![]);
        assert(join_feed(seq![], records) == Seq::<EntryView>::empty());
        assert(join_feed(feed.push(t), records) =~= join_feed(feed, records) + if records.contains_key(t) {
            seq![(records[t].country, records[t].hours)]
        } else {
            seq![]
        });
    } else {
        assert(feed.push(t).drop_first() =~= feed.drop_first().push(t));
        lemma_join_feed_push(feed.drop_first(), records, t);
        assert(join_feed(feed.push(t), records) =~= join_feed(feed, records) + if records.contains_key(t) {
            seq![(records[t].country, records[t].hours)]
        } else {
            seq![]
        });
    }
}

proof fn lemma_reply_entries_of_feed(feed: Seq<Seq<char>>, s: StoreView)
    requires
        values_in_range(s),
    ensures
        reply_entries(
            feed.map_values(
                |t: Seq<char>|
                    if s.records.contains_key(t) {
                        (Some(s.records[t].country), Some(decimal_text(s.records[t].hours as nat)))
                    } else {
                        (None, None)
                    },
            ),
        ) == join_feed(feed, s.records),
    decreases feed.len(),
{
    let f = |t: Seq<char>|
        if s.records.contains_key(t) {
            (Some(s.records[t].country), Some(decimal_text(s.records[t].hours as nat)))
        } else {
            (None, None)
        };
    if feed.len() > 0 {
        let d = feed.drop_last();
        let t = feed.last();
        assert(feed.map_values(f).drop_last() =~= d.map_values(f));
        lemma_reply_entries_of_feed(d, s);
        assert(d.push(t) =~= feed);
        lemma_join_feed_push(d, s.records, t);
        if s.records.contains_key(t) {
            lemma_decimal_round_trip(s.records[t].hours as nat);
        }
        assert(reply_entries(feed.map_values(f)) =~= join_feed(feed, s.records));
    }
}

/// Read through the store's replies, the recent feed of a store that holds
/// what the ledger writes is the recent feed of the model.
pub proof fn lemma_recent_through_store(s: StoreView)
    requires
        values_in_range(s),
    ensures
        reply_entries(record_replies_of(s)) == recent_of(s),
{
    lemma_reply_entries_of_feed(s.recent, s);
}

} // verus!
