//! Properties of the cache that hold of every state and every sequence of
//! calls, stated over the spec functions that the operations' contracts use.
use vstd::prelude::*;

use crate::status::{
    all_digits, decimal, digit_char, digit_value, digits_value, failure_message, is_digit, is_status_code,
    is_white_space, nth_word, nth_word_from, parse_u16, skip_white, skip_word, status_in_message,
    unsigned_digits,
};
use crate::cache::{
    age, after_lookup, evicted_oldest, eviction_target, is_fresh, is_snapshot, lookup, restored,
    CachedItem,
};

verus! {

/// An entry just stored under `k` at `t` is served at every time from `t`
/// until its time-to-live has passed, and not from then on.
pub proof fn lemma_put_then_get<K, T>(
    before: Map<K, CachedItem<T>>,
    after: Map<K, CachedItem<T>>,
    capacity: nat,
    ttl: nat,
    k: K,
    v: T,
    t: u64,
    later: u64,
)
    requires
        capacity >= 1,
        evicted_oldest(before.insert(k, CachedItem { data: v, timestamp: t }), after, capacity, Some(k)),
        t <= later,
    ensures
        later < t + ttl ==> lookup(after, k, ttl, later) == Some(CachedItem { data: v, timestamp: t }),
        later >= t + ttl ==> lookup(after, k, ttl, later) is None,
{
    let inserted = before.insert(k, CachedItem { data: v, timestamp: t });
    assert(inserted.contains_key(k));
    if inserted.len() > capacity {
        assert(after.contains_key(k));
    }
}

/// Reading never changes what is stored: after a lookup every remaining entry
/// has its value and its creation time, and looking up again (at the same
/// time) finds the same and changes nothing more.
pub proof fn lemma_get_idempotent<K, T>(m: Map<K, CachedItem<T>>, k: K, ttl: nat, now: u64)
    ensures
        forall|j: K| #[trigger]
            after_lookup(m, k, ttl, now).contains_key(j) ==> m.contains_key(j) && after_lookup(
                m,
                k,
                ttl,
                now,
            )[j] == m[j],
        after_lookup(after_lookup(m, k, ttl, now), k, ttl, now) == after_lookup(m, k, ttl, now),
        lookup(after_lookup(m, k, ttl, now), k, ttl, now) == lookup(m, k, ttl, now),
{
}

/// A capacity check leaves at most `capacity` entries, however many
/// insertions came before it.
pub proof fn lemma_cleanup_bounds_size<K, T>(
    before: Map<K, CachedItem<T>>,
    after: Map<K, CachedItem<T>>,
    capacity: nat,
    keep: Option<K>,
)
    requires
        capacity >= 1,
        evicted_oldest(before, after, capacity, keep),
    ensures
        after.len() <= capacity,
{
    assert(capacity * 3 / 4 <= capacity) by (nonlinear_arith);
    assert(eviction_target(capacity) <= capacity);
}

proof fn lemma_restored_distinct<K: View, T>(s: Seq<(K, T, u64)>, ttl: nat, now: u64)
    requires
        forall|i: int, j: int| 0 <= i < j < s.len() ==> s[i].0@ != s[j].0@,
        forall|i: int| 0 <= i < s.len() ==> (#[trigger] s[i]).2 < ttl && s[i].2 <= now,
    ensures
        forall|k: K::V|
            restored(s, ttl, now).contains_key(k) <==> exists|i: int|
                0 <= i < s.len() && (#[trigger] s[i]).0@ == k,
        forall|i: int|
            0 <= i < s.len() ==> restored(s, ttl, now)[(#[trigger] s[i]).0@] == (CachedItem {
                data: s[i].1,
                timestamp: (now - s[i].2) as u64,
            }),
    decreases s.len(),
{
    if s.len() > 0 {
        let p = s.drop_last();
        lemma_restored_distinct(p, ttl, now);
        let e = s.last();
        assert(s[s.len() - 1] == e);
        assert forall|k: K::V| restored(s, ttl, now).contains_key(k) implies exists|i: int|
            0 <= i < s.len() && (#[trigger] s[i]).0@ == k by {
            if k != e.0@ {
                assert(restored(p, ttl, now).contains_key(k));
                let i = choose|i: int| 0 <= i < p.len() && (#[trigger] p[i]).0@ == k;
                assert(s[i] == p[i]);
            }
        }
        assert forall|i: int|
            0 <= i < s.len() implies restored(s, ttl, now)[(#[trigger] s[i]).0@] == (CachedItem {
            data: s[i].1,
            timestamp: (now - s[i].2) as u64,
        }) by {
            if i < s.len() - 1 {
                assert(s[i] == p[i]);
            }
        }
        assert forall|k: K::V|
            (exists|i: int| 0 <= i < s.len() && (#[trigger] s[i]).0@ == k) implies restored(
            s,
            ttl,
            now,
        ).contains_key(k) by {
            let i = choose|i: int| 0 <= i < s.len() && (#[trigger] s[i]).0@ == k;
            if i < s.len() - 1 {
                assert(p[i] == s[i]);
            }
        }
    }
}

/// Restoring, at any time `t2` from `t1` on, a snapshot taken at `t1` gives
/// back exactly the entries that were fresh at `t1`, with their values, each
/// at the age it had at `t1`: the remaining time-to-live goes on from where
/// it was and is not reset. Restored at `t1` itself, an entry keeps its very
/// creation time.
pub proof fn lemma_snapshot_round_trip<K: View, T>(
    m: Map<K::V, CachedItem<T>>,
    s: Seq<(K, T, u64)>,
    ttl: nat,
    t1: u64,
    t2: u64,
)
    requires
        is_snapshot(s, m, ttl, t1),
        t1 <= t2,
    ensures
        forall|k: K::V| #[trigger]
            restored(s, ttl, t2).contains_key(k) <==> m.contains_key(k) && is_fresh(m[k], ttl, t1),
        forall|k: K::V| #[trigger]
            restored(s, ttl, t2).contains_key(k) ==> restored(s, ttl, t2)[k].data == m[k].data && age(
                restored(s, ttl, t2)[k].timestamp,
                t2,
            ) == age(m[k].timestamp, t1),
        forall|k: K::V| #[trigger]
            restored(s, ttl, t2).contains_key(k) && t2 == t1 && m[k].timestamp <= t1 ==> restored(
                s,
                ttl,
                t2,
            )[k].timestamp == m[k].timestamp,
{
    assert forall|i: int| 0 <= i < s.len() implies (#[trigger] s[i]).2 < ttl && s[i].2 <= t2 by {
        let k = s[i].0@;
        assert(m.contains_key(k));
    }
    lemma_restored_distinct(s, ttl, t2);
    let r = restored(s, ttl, t2);
    assert forall|k: K::V| #[trigger] r.contains_key(k) implies m.contains_key(k) && is_fresh(
        m[k],
        ttl,
        t1,
    ) && r[k].data == m[k].data && age(r[k].timestamp, t2) == age(m[k].timestamp, t1) by {
        let i = choose|i: int| 0 <= i < s.len() && (#[trigger] s[i]).0@ == k;
        assert(r[s[i].0@] == CachedItem { data: s[i].1, timestamp: (t2 - s[i].2) as u64 });
    }
    assert forall|k: K::V| m.contains_key(k) && is_fresh(m[k], ttl, t1) implies #[trigger] r.contains_key(
        k,
    ) by {
        assert(m.contains_key(k) && is_fresh(m[k], ttl, t1));
        let i = choose|i: int| 0 <= i < s.len() && (#[trigger] s[i]).0@ == k;
    }
}

proof fn lemma_skip_word_to(s: Seq<char>, i: int, j: int)
    requires
        0 <= i <= j <= s.len(),
        forall|x: int| i <= x < j ==> !is_white_space(#[trigger] s[x]),
        j == s.len() || is_white_space(s[j]),
    ensures
        skip_word(s, i) == j,
    decreases j - i,
{
    if i < j {
        lemma_skip_word_to(s, i + 1, j);
    }
}

proof fn lemma_skip_white_to(s: Seq<char>, i: int, j: int)
    requires
        0 <= i <= j <= s.len(),
        forall|x: int| i <= x < j ==> is_white_space(#[trigger] s[x]),
        j == s.len() || !is_white_space(s[j]),
    ensures
        skip_white(s, i) == j,
    decreases j - i,
{
    if i < j {
        lemma_skip_white_to(s, i + 1, j);
    }
}

proof fn lemma_decimal(n: nat)
    ensures
        decimal(n).len() >= 1,
        all_digits(decimal(n)),
        digits_value(decimal(n)) == n,
    decreases n,
{
    if n >= 10 {
        lemma_decimal(n / 10);
        let d = decimal(n);
        assert(d.drop_last() == decimal(n / 10));
        assert(d.last() == digit_char(n % 10));
        assert(digit_value(digit_char(n % 10)) == n % 10);
        assert(n == (n / 10) * 10 + n % 10);
        assert(digits_value(d) == digits_value(decimal(n / 10)) * 10 + digit_value(
            digit_char(n % 10),
        ));
    } else {
        assert(decimal(n).drop_last() =~= Seq::<char>::empty());
        assert(digit_value(digit_char(n)) == n);
        assert(digits_value(Seq::<char>::empty()) == 0);
        assert(digits_value(decimal(n)) == digits_value(decimal(n).drop_last()) * 10 + digit_value(
            decimal(n).last(),
        ));
    }
}

/// The retry policy reads back the status of every failed response: the
/// status that `response_outcome` writes into an `Api` error is the one that
/// `get_status_code` finds in it, whatever the body.
pub proof fn lemma_failure_status_read_back(code: u16, body: Seq<char>)
    requires
        is_status_code(code),
    ensures
        status_in_message(failure_message(code, body)) == Some(code),
{
    let msg = failure_message(code, body);
    let d = decimal(code as nat);
    let e: int = 16 + d.len() as int;
    lemma_decimal(code as nat);
    reveal_strlit("Request failed: ");
    let head = "Request failed: "@;
    assert(head.len() == 16);
    assert(msg[7] == ' ' && msg[15] == ' ');
    assert(msg[e] == ' ');
    assert forall|x: int| 16 <= x < e implies !is_white_space(#[trigger] msg[x]) by {
        assert(msg[x] == d[x - 16]);
        assert(is_digit(d[x - 16]));
    }
    lemma_skip_word_to(msg, 0, 7);
    lemma_skip_white_to(msg, 7, 8);
    lemma_skip_word_to(msg, 8, 15);
    lemma_skip_white_to(msg, 15, 16);
    lemma_skip_word_to(msg, 16, e);
    assert(skip_white(msg, 0) == 0);
    assert(msg.subrange(16, e) =~= d);
    assert(nth_word_from(msg, 15, 0) == Some(d));
    assert(nth_word_from(msg, 7, 1) == Some(d));
    assert(nth_word(msg, 2) == Some(d));
    assert(is_digit(d[0]));
    assert(unsigned_digits(d) == d);
    assert(parse_u16(d) == Some(code));
}

} // verus!
