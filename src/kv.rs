//! The key-value store as the ledger's commands act on it and answer them:
//! one pledge's batch moves a store that holds a ledger state to the store
//! that holds the state after the pledge, and the read commands on such a
//! store give that state's summary and recent feed.

use vstd::prelude::*;
use crate::decimal::{decimal_text, digits_value, lemma_decimal_text_digits};
use crate::model::{
    apply_pledge, count_of, empty_store, hours_of, recent_of, store_wf, summary_of, LedgerError,
    RecordView, StoreView, TotalView, FEED_CAPACITY,
};
use crate::store::{
    count_key_of, hours_key_of, lemma_recent_through_store, lemma_summary_through_store,
    pledge_batch_of, record_key_of, record_replies_of, reply_entries, summary_command_of, summary_from,
    summary_replies_of, values_in_range,
};

verus! {

/// A value of the store: a text, a hash of fields, or a list.
pub enum KvValue {
    Text(Seq<char>),
    Hash(Map<Seq<char>, Seq<char>>),
    List(Seq<Seq<char>>),
}

pub type Kv = Map<Seq<char>, KvValue>;

/// The number that a key's text holds; a missing key counts as zero.
pub open spec fn number_at(kv: Kv, key: Seq<char>) -> int {
    if kv.contains_key(key) {
        match kv[key] {
            KvValue::Text(t) => digits_value(t),
            _ => 0,
        }
    } else {
        0
    }
}

/// The fields of a key's hash; a missing key is an empty hash.
pub open spec fn hash_at(kv: Kv, key: Seq<char>) -> Map<Seq<char>, Seq<char>> {
    if kv.contains_key(key) {
        match kv[key] {
            KvValue::Hash(h) => h,
            _ => Map::empty(),
        }
    } else {
        Map::empty()
    }
}

/// The items of a key's list; a missing key is an empty list.
pub open spec fn list_at(kv: Kv, key: Seq<char>) -> Seq<Seq<char>> {
    if kv.contains_key(key) {
        match kv[key] {
            KvValue::List(l) => l,
            _ => seq![],
        }
    } else {
        seq![]
    }
}

/// A hash after field-value pairs are set in order.
pub open spec fn set_fields(h: Map<Seq<char>, Seq<char>>, args: Seq<Seq<char>>) -> Map<
    Seq<char>,
    Seq<char>,
>
    decreases args.len(),
{
    if args.len() < 2 {
        h
    } else {
        set_fields(h.insert(args[0], args[1]), args.skip(2))
    }
}

/// What one command does to the store, for the forms the ledger sends:
/// `HSET key field value ...`, `INCRBY key n`, `INCR key`,
/// `LPUSH key item`, `LTRIM key 0 stop`. Any other command is taken to
/// change nothing.
pub open spec fn run_command(kv: Kv, cmd: Seq<Seq<char>>) -> Kv {
    if cmd.len() < 2 {
        kv
    } else if cmd[0] == "HSET"@ {
        kv.insert(cmd[1], KvValue::Hash(set_fields(hash_at(kv, cmd[1]), cmd.skip(2))))
    } else if cmd[0] == "INCRBY"@ && cmd.len() == 3 {
        kv.insert(
            cmd[1],
            KvValue::Text(decimal_text((number_at(kv, cmd[1]) + digits_value(cmd[2])) as nat)),
        )
    } else if cmd[0] == "INCR"@ {
        kv.insert(cmd[1], KvValue::Text(decimal_text((number_at(kv, cmd[1]) + 1) as nat)))
    } else if cmd[0] == "LPUSH"@ && cmd.len() == 3 {
        kv.insert(cmd[1], KvValue::List(seq![cmd[2]] + list_at(kv, cmd[1])))
    } else if cmd[0] == "LTRIM"@ && cmd.len() == 4 && cmd[2] == "0"@ {
        let l = list_at(kv, cmd[1]);
        let n = digits_value(cmd[3]) + 1;
        kv.insert(
            cmd[1],
            KvValue::List(
                if l.len() <= n {
                    l
                } else {
                    l.take(n)
                },
            ),
        )
    } else {
        kv
    }
}

/// The store after the commands, in order.
pub open spec fn run_batch(kv: Kv, cmds: Seq<Seq<Seq<char>>>) -> Kv
    decreases cmds.len(),
{
    if cmds.len() == 0 {
        kv
    } else {
        run_batch(run_command(kv, cmds[0]), cmds.drop_first())
    }
}

/// The fields of a record's hash.
pub open spec fn record_fields(r: RecordView) -> Map<Seq<char>, Seq<char>> {
    map![
        "country"@ => r.country,
        "hours"@ => decimal_text(r.hours as nat),
        "timestamp"@ => r.timestamp,
    ]
}

/// The store `kv` holds the ledger state `s`: each record as a hash under
/// its token's key, each aggregate as a decimal text under its country's
/// key, no such key where the state has nothing, and the feed as a list.
pub open spec fn holds(kv: Kv, s: StoreView) -> bool {
    &&& forall|t: Seq<char>|
        #[trigger] kv.contains_key(record_key_of(t)) <==> s.records.contains_key(t)
    &&& forall|t: Seq<char>|
        s.records.contains_key(t) ==> kv[#[trigger] record_key_of(t)] == KvValue::Hash(
            record_fields(s.records[t]),
        )
    &&& forall|c: Seq<char>| #[trigger] kv.contains_key(hours_key_of(c)) <==> s.hours.contains_key(c)
    &&& forall|c: Seq<char>|
        s.hours.contains_key(c) ==> kv[#[trigger] hours_key_of(c)] == KvValue::Text(
            decimal_text(s.hours[c] as nat),
        )
    &&& forall|c: Seq<char>| #[trigger] kv.contains_key(count_key_of(c)) <==> s.counts.contains_key(c)
    &&& forall|c: Seq<char>|
        s.counts.contains_key(c) ==> kv[#[trigger] count_key_of(c)] == KvValue::Text(
            decimal_text(s.counts[c] as nat),
        )
    &&& list_at(kv, "recent_updates"@) == s.recent
}

proof fn lemma_key_prefixes()
    ensures
        "token:"@.len() == 6 && "token:"@[0] == 't',
        "country:hours:"@.len() == 14 && "country:hours:"@[0] == 'c' && "country:hours:"@[8]
            == 'h',
        "country:count:"@.len() == 14 && "country:count:"@[0] == 'c' && "country:count:"@[8]
            == 'c',
        "recent_updates"@.len() == 14 && "recent_updates"@[0] == 'r',
{
    reveal_strlit("token:");
    reveal_strlit("country:hours:");
    reveal_strlit("country:count:");
    reveal_strlit("recent_updates");
}

/// Keys of different kinds never meet, and each kind of key determines its
/// token or country.
proof fn lemma_keys_distinct(t: Seq<char>, u: Seq<char>, c: Seq<char>, d: Seq<char>)
    ensures
        record_key_of(t) != hours_key_of(c),
        record_key_of(t) != count_key_of(c),
        hours_key_of(c) != count_key_of(d),
        record_key_of(t) != "recent_updates"@,
        hours_key_of(c) != "recent_updates"@,
        count_key_of(c) != "recent_updates"@,
        record_key_of(t) == record_key_of(u) ==> t == u,
        hours_key_of(c) == hours_key_of(d) ==> c == d,
        count_key_of(c) == count_key_of(d) ==> c == d,
{
    lemma_key_prefixes();
    assert(record_key_of(t)[0] == 't');
    assert(hours_key_of(c)[0] == 'c');
    assert(count_key_of(c)[0] == 'c');
    assert(hours_key_of(c)[8] == 'h');
    assert(count_key_of(d)[8] == 'c');
    if record_key_of(t) == record_key_of(u) {
        assert(t =~= record_key_of(t).skip(6));
        assert(u =~= record_key_of(u).skip(6));
    }
    if hours_key_of(c) == hours_key_of(d) {
        assert(c =~= hours_key_of(c).skip(14));
        assert(d =~= hours_key_of(d).skip(14));
    }
    if count_key_of(c) == count_key_of(d) {
        assert(c =~= count_key_of(c).skip(14));
        assert(d =~= count_key_of(d).skip(14));
    }
}

proof fn lemma_command_names()
    ensures
        "INCRBY"@ != "HSET"@,
        "INCR"@ != "HSET"@,
        "INCR"@ != "INCRBY"@,
        "LPUSH"@ != "HSET"@,
        "LPUSH"@ != "INCRBY"@,
        "LPUSH"@ != "INCR"@,
        "LTRIM"@ != "HSET"@,
        "LTRIM"@ != "INCRBY"@,
        "LTRIM"@ != "INCR"@,
        "LTRIM"@ != "LPUSH"@,
{
    reveal_strlit("HSET");
    reveal_strlit("INCRBY");
    reveal_strlit("INCR");
    reveal_strlit("LPUSH");
    reveal_strlit("LTRIM");
    assert("INCR"@[0] != "HSET"@[0]);
    assert("INCR"@.len() != "INCRBY"@.len());
    assert("LTRIM"@[1] != "LPUSH"@[1]);
}

/// Run on a store that holds a ledger state, the batch of a pledge leaves
/// the store holding the state after the pledge.
pub proof fn lemma_batch_applies_pledge(
    kv: Kv,
    s: StoreView,
    token: Seq<char>,
    country: Seq<char>,
    hours: nat,
    timestamp: Seq<char>,
)
    requires
        holds(kv, s),
        forall|c: Seq<char>| #[trigger] s.hours.contains_key(c) ==> s.hours[c] >= 0,
        forall|c: Seq<char>| #[trigger] s.counts.contains_key(c) ==> s.counts[c] >= 0,
    ensures
        holds(
            run_batch(kv, pledge_batch_of(token, country, hours, timestamp)),
            apply_pledge(s, token, country, hours as int, timestamp),
        ),
{
    let b = pledge_batch_of(token, country, hours, timestamp);
    let t2 = apply_pledge(s, token, country, hours as int, timestamp);
    let rk = record_key_of(token);
    let hk = hours_key_of(country);
    let ck = count_key_of(country);
    let ru = "recent_updates"@;
    lemma_command_names();
    lemma_keys_distinct(token, token, country, country);
    lemma_decimal_text_digits(hours);
    lemma_decimal_text_digits((FEED_CAPACITY - 1) as nat);
    // the record
    let kv1 = run_command(kv, b[0]);
    let old_hash = hash_at(kv, rk);
    let f0 = b[0].skip(2);
    let f1 = f0.skip(2);
    let f2 = f1.skip(2);
    let f3 = f2.skip(2);
    assert(f0[0] == "country"@ && f0[1] == country);
    assert(f1[0] == "hours"@ && f1[1] == decimal_text(hours));
    assert(f2[0] == "timestamp"@ && f2[1] == timestamp);
    assert(f3.len() == 0);
    let h1 = old_hash.insert("country"@, country);
    let h2 = h1.insert("hours"@, decimal_text(hours));
    let h3 = h2.insert("timestamp"@, timestamp);
    assert(set_fields(h3, f3) == h3);
    assert(set_fields(h2, f2) == h3);
    assert(set_fields(h1, f1) == h3);
    let new_hash = set_fields(old_hash, f0);
    assert(new_hash == h3);
    assert(new_hash =~= record_fields(t2.records[token])) by {
        if s.records.contains_key(token) {
            assert(old_hash == record_fields(s.records[token]));
        }
    }
    assert(kv1 == kv.insert(rk, KvValue::Hash(new_hash)));
    // the hours
    let kv2 = run_command(kv1, b[1]);
    assert(number_at(kv1, hk) == hours_of(s, country)) by {
        if s.hours.contains_key(country) {
            lemma_decimal_text_digits(s.hours[country] as nat);
        }
    }
    assert(kv2 == kv1.insert(hk, KvValue::Text(decimal_text((hours_of(s, country) + hours) as nat))));
    // the count
    let kv3 = run_command(kv2, b[2]);
    assert(number_at(kv2, ck) == count_of(s, country)) by {
        if s.counts.contains_key(country) {
            lemma_decimal_text_digits(s.counts[country] as nat);
        }
    }
    assert(kv3 == kv2.insert(ck, KvValue::Text(decimal_text((count_of(s, country) + 1) as nat))));
    // the feed
    let kv4 = run_command(kv3, b[3]);
    assert(list_at(kv3, ru) == s.recent);
    assert(kv4 == kv3.insert(ru, KvValue::List(seq![token] + s.recent)));
    let kv5 = run_command(kv4, b[4]);
    assert(kv5 == kv4.insert(ru, KvValue::List(t2.recent)));
    assert(run_batch(kv, b) == kv5) by {
        let b1 = b.drop_first();
        let b2 = b1.drop_first();
        let b3 = b2.drop_first();
        let b4 = b3.drop_first();
        let b5 = b4.drop_first();
        assert(b1[0] == b[1] && b2[0] == b[2] && b3[0] == b[3] && b4[0] == b[4]);
        assert(b5.len() == 0);
        assert(run_batch(kv5, b5) == kv5);
        assert(run_batch(kv4, b4) == kv5);
        assert(run_batch(kv3, b3) == kv5);
        assert(run_batch(kv2, b2) == kv5);
        assert(run_batch(kv1, b1) == kv5);
    }
    assert forall|t: Seq<char>| #[trigger]
        kv5.contains_key(record_key_of(t)) <==> t2.records.contains_key(t) by {
        lemma_keys_distinct(t, token, country, country);
    }
    assert forall|t: Seq<char>| t2.records.contains_key(t) implies kv5[#[trigger] record_key_of(t)]
        == KvValue::Hash(record_fields(t2.records[t])) by {
        lemma_keys_distinct(t, token, country, country);
    }
    assert forall|c: Seq<char>| #[trigger]
        kv5.contains_key(hours_key_of(c)) <==> t2.hours.contains_key(c) by {
        lemma_keys_distinct(token, token, c, country);
        lemma_keys_distinct(token, token, country, c);
    }
    assert forall|c: Seq<char>| t2.hours.contains_key(c) implies kv5[#[trigger] hours_key_of(c)]
        == KvValue::Text(decimal_text(t2.hours[c] as nat)) by {
        lemma_keys_distinct(token, token, c, country);
        lemma_keys_distinct(token, token, country, c);
    }
    assert forall|c: Seq<char>| #[trigger]
        kv5.contains_key(count_key_of(c)) <==> t2.counts.contains_key(c) by {
        lemma_keys_distinct(token, token, c, country);
        lemma_keys_distinct(token, token, country, c);
    }
    assert forall|c: Seq<char>| t2.counts.contains_key(c) implies kv5[#[trigger] count_key_of(c)]
        == KvValue::Text(decimal_text(t2.counts[c] as nat)) by {
        lemma_keys_distinct(token, token, c, country);
        lemma_keys_distinct(token, token, country, c);
    }
}

/// An empty key-value store holds the ledger before any pledge.
pub proof fn lemma_empty_holds_empty_store()
    ensures
        holds(Map::empty(), empty_store()),
{
}

/// The text under a key, if it holds one.
pub open spec fn text_at(kv: Kv, key: Seq<char>) -> Option<Seq<char>> {
    if kv.contains_key(key) {
        match kv[key] {
            KvValue::Text(t) => Some(t),
            _ => None,
        }
    } else {
        None
    }
}

/// The reply to `MGET` with these keys.
pub open spec fn mget(kv: Kv, keys: Seq<Seq<char>>) -> Seq<Option<Seq<char>>> {
    keys.map_values(|k: Seq<char>| text_at(kv, k))
}

/// The reply to `LRANGE key 0 stop`.
pub open spec fn lrange(kv: Kv, key: Seq<char>, stop: nat) -> Seq<Seq<char>> {
    let l = list_at(kv, key);
    if l.len() <= stop + 1 {
        l
    } else {
        l.take(stop + 1 as int)
    }
}

/// The reply to `HMGET key country hours`.
pub open spec fn record_reply(kv: Kv, token: Seq<char>) -> (Option<Seq<char>>, Option<Seq<char>>) {
    let h = hash_at(kv, record_key_of(token));
    (
        if h.contains_key("country"@) {
            Some(h["country"@])
        } else {
            None
        },
        if h.contains_key("hours"@) {
            Some(h["hours"@])
        } else {
            None
        },
    )
}

/// The replies to `HMGET key country hours` for each token.
pub open spec fn record_replies(kv: Kv, tokens: Seq<Seq<char>>) -> Seq<
    (Option<Seq<char>>, Option<Seq<char>>),
> {
    tokens.map_values(|t: Seq<char>| record_reply(kv, t))
}

/// Read from a store that holds a well-formed ledger state, the reply to
/// the summary command gives the summary of that state.
pub proof fn lemma_summary_read_from_store(kv: Kv, ids: Seq<Seq<char>>, s: StoreView)
    requires
        holds(kv, s),
        store_wf(s),
        values_in_range(s),
    ensures
        summary_from(ids, mget(kv, summary_command_of(ids).drop_first())) == Ok::<
            Seq<TotalView>,
            LedgerError,
        >(summary_of(ids, s)),
{
    let keys = summary_command_of(ids).drop_first();
    let n = ids.len() as int;
    assert(keys =~= ids.map_values(|c: Seq<char>| count_key_of(c)) + ids.map_values(
        |c: Seq<char>| hours_key_of(c),
    ));
    assert forall|i: int| 0 <= i < 2 * n implies #[trigger] mget(kv, keys)[i] == summary_replies_of(
        ids,
        s,
    )[i] by {
        if i < n {
            assert(keys[i] == count_key_of(ids[i]));
        } else {
            assert(keys[i] == hours_key_of(ids[i - n]));
        }
    }
    assert(mget(kv, keys) =~= summary_replies_of(ids, s));
    lemma_summary_through_store(ids, s);
}

/// Read from a store that holds a well-formed ledger state, the feed and
/// the replies for its records give the recent feed of that state.
pub proof fn lemma_recent_read_from_store(kv: Kv, s: StoreView)
    requires
        holds(kv, s),
        store_wf(s),
        values_in_range(s),
    ensures
        reply_entries(
            record_replies(kv, lrange(kv, "recent_updates"@, (FEED_CAPACITY - 1) as nat)),
        ) == recent_of(s),
{
    reveal_strlit("country");
    reveal_strlit("hours");
    reveal_strlit("timestamp");
    let feed = lrange(kv, "recent_updates"@, (FEED_CAPACITY - 1) as nat);
    assert(feed == s.recent);
    assert forall|i: int| 0 <= i < feed.len() implies #[trigger] record_replies(kv, feed)[i]
        == record_replies_of(s)[i] by {
        let t = feed[i];
        if s.records.contains_key(t) {
            let r = s.records[t];
            let h = record_fields(r);
            assert(hash_at(kv, record_key_of(t)) == h);
            assert("country"@.len() == 7 && "hours"@.len() == 5 && "timestamp"@.len() == 9);
            assert(h.contains_key("country"@) && h["country"@] == r.country);
            assert(h.contains_key("hours"@) && h["hours"@] == decimal_text(r.hours as nat));
        } else {
            assert(hash_at(kv, record_key_of(t)) == Map::<Seq<char>, Seq<char>>::empty());
        }
    }
    assert(record_replies(kv, feed) =~= record_replies_of(s));
    lemma_recent_through_store(s);
}

} // verus!
