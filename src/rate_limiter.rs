use vstd::prelude::*;

verus! {

/// A token is kept as this many thousandths, so that refills measured in
/// milliseconds stay exact.
pub const MILLI_PER_TOKEN: u64 = 1000;

/// The budget of one client: `tokens` thousandths of a token, last refilled
/// at `last_update` (milliseconds on the caller's monotonic clock).
#[derive(Clone, Copy, Debug, PartialEq, Eq, Structural)]
pub struct TokenBucket {
    pub tokens: u64,
    pub last_update: u64,
}

pub open spec fn elapsed_ms(last: u64, now: u64) -> nat {
    if now >= last {
        (now - last) as nat
    } else {
        0
    }
}

/// Tokens after a refill: `rate` thousandths per millisecond (that is, `rate`
/// tokens per second) since the last update, capped at `cap` thousandths.
pub open spec fn refilled(b: TokenBucket, rate: nat, cap: nat, now: u64) -> nat {
    let t = b.tokens + elapsed_ms(b.last_update, now) * rate;
    if t <= cap {
        t as nat
    } else {
        cap
    }
}

/// The bucket that a request meets: the client's own, or a full new one.
pub open spec fn bucket_or_full(b: Option<TokenBucket>, cap: u64, now: u64) -> TokenBucket {
    match b {
        Some(b) => b,
        None => TokenBucket { tokens: cap, last_update: now },
    }
}

/// Whether a request is admitted: after the refill a whole token is left.
pub open spec fn admits(b: TokenBucket, rate: nat, cap: nat, now: u64) -> bool {
    refilled(b, rate, cap, now) >= MILLI_PER_TOKEN
}

/// The bucket after a request: refilled, stamped `now`, and one token
/// lighter when the request was admitted.
pub open spec fn bucket_after(b: TokenBucket, rate: nat, cap: nat, now: u64) -> TokenBucket {
    let t = refilled(b, rate, cap, now);
    TokenBucket {
        tokens: (if t >= MILLI_PER_TOKEN {
            t - MILLI_PER_TOKEN
        } else {
            t as int
        }) as u64,
        last_update: now,
    }
}

/// Per-client token-bucket rate limiter: each client may burst up to
/// `capacity` requests, and regains `rate` requests per second.
pub struct RateLimiter {
    buckets: Vec<(String, TokenBucket)>,
    rate: u64,
    capacity: u64,
    model: Ghost<Map<Seq<char>, TokenBucket>>,
}

impl RateLimiter {
    /// The buckets by client key.
    pub closed spec fn view(&self) -> Map<Seq<char>, TokenBucket> {
        self.model@
    }

    /// Tokens regained per second.
    pub closed spec fn rate(&self) -> nat {
        self.rate as nat
    }

    /// The burst size, in thousandths of a token.
    pub closed spec fn capacity(&self) -> nat {
        self.capacity as nat
    }

    pub closed spec fn wf(&self) -> bool {
        &&& self.rate <= u32::MAX
        &&& self.capacity == MILLI_PER_TOKEN * (self.capacity / MILLI_PER_TOKEN)
        &&& self.capacity <= MILLI_PER_TOKEN * u32::MAX
        &&& self.model@.dom().finite()
        &&& forall|i: int, j: int|
            0 <= i < j < self.buckets.len() ==> (#[trigger] self.buckets[i]).0@
                != (#[trigger] self.buckets[j]).0@
        &&& forall|i: int|
            0 <= i < self.buckets.len() ==> self.model@.contains_key((#[trigger] self.buckets[i]).0@)
                && self.model@[self.buckets[i].0@] == self.buckets[i].1
        &&& forall|k: Seq<char>|
            #[trigger] self.model@.contains_key(k) ==> exists|i: int|
                0 <= i < self.buckets.len() && (#[trigger] self.buckets[i]).0@ == k
        &&& forall|k: Seq<char>|
            #[trigger] self.model@.contains_key(k) ==> self.model@[k].tokens <= self.capacity
    }

    /// A limiter that admits `requests_per_second` requests per second per
    /// client, with bursts of up to `burst_size`.
    pub fn new(requests_per_second: u32, burst_size: u32) -> (r: Self)
        ensures
            r.wf(),
            r@ == Map::<Seq<char>, TokenBucket>::empty(),
            r.rate() == requests_per_second,
            r.capacity() == MILLI_PER_TOKEN * burst_size,
    {
        RateLimiter {
            buckets: Vec::new(),
            rate: requests_per_second as u64,
            capacity: MILLI_PER_TOKEN * (burst_size as u64),
            model: Ghost(Map::empty()),
        }
    }

    fn find(&self, key: &String) -> (r: Option<usize>)
        requires
            self.wf(),
        ensures
            match r {
                Some(i) => i < self.buckets.len() && self.buckets[i as int].0@ == key@,
                None => !self@.contains_key(key@),
            },
    {
        let mut i: usize = 0;
        while i < self.buckets.len()
            invariant
                self.wf(),
                i <= self.buckets.len(),
                forall|j: int| 0 <= j < i ==> (#[trigger] self.buckets[j]).0@ != key@,
            decreases self.buckets.len() - i,
        {
            if self.buckets[i].0 == *key {
                return Some(i);
            }
            i = i + 1;
        }
        None
    }

    /// Admits or denies one request of client `key` at `now` (milliseconds):
    /// the client's bucket (a full one for a new client) is refilled for the
    /// time elapsed, and the request is admitted if a whole token is left,
    /// which it then uses.
    pub fn is_allowed(&mut self, key: String, now: u64) -> (r: bool)
        requires
            old(self).wf(),
        ensures
            final(self).wf(),
            forall|k: Seq<char>| #[trigger]
                final(self)@.contains_key(k) ==> final(self)@[k].tokens <= final(self).capacity(),
            final(self).rate() == old(self).rate(),
            final(self).capacity() == old(self).capacity(),
            ({
                let b = bucket_or_full(
                    if old(self)@.contains_key(key@) {
                        Some(old(self)@[key@])
                    } else {
                        None
                    },
                    old(self).capacity() as u64,
                    now,
                );
                &&& r == admits(b, old(self).rate(), old(self).capacity(), now)
                &&& final(self)@ == old(self)@.insert(
                    key@,
                    bucket_after(b, old(self).rate(), old(self).capacity(), now),
                )
            }),
    {
        let found = self.find(&key);
        let b = match found {
            Some(i) => self.buckets[i].1,
            None => TokenBucket { tokens: self.capacity, last_update: now },
        };
        let elapsed: u64 = if now >= b.last_update {
            now - b.last_update
        } else {
            0
        };
        assert((elapsed as u128) * (self.rate as u128) <= 0xffff_ffff_ffff_ffff * 0xffff_ffffu128)
            by (nonlinear_arith)
            requires
                elapsed <= 0xffff_ffff_ffff_ffffu64,
                self.rate <= 0xffff_ffffu64,
        ;
        let sum: u128 = b.tokens as u128 + (elapsed as u128) * (self.rate as u128);
        assert(sum == b.tokens + elapsed_ms(b.last_update, now) * self.rate);
        let tokens: u64 = if sum <= self.capacity as u128 {
            sum as u64
        } else {
            self.capacity
        };
        let allowed = tokens >= MILLI_PER_TOKEN;
        let nb = TokenBucket {
            tokens: if allowed {
                tokens - MILLI_PER_TOKEN
            } else {
                tokens
            },
            last_update: now,
        };
        let ghost new_model = self.model@.insert(key@, nb);
        match found {
            Some(i) => {
                let entry = (key, nb);
                self.buckets.set(i, entry);
                self.model = Ghost(new_model);
                assert forall|k: Seq<char>| #[trigger] self.model@.contains_key(k) implies exists|
                    j: int,
                |
                    0 <= j < self.buckets.len() && (#[trigger] self.buckets[j]).0@ == k by {
                    if k != self.buckets[i as int].0@ {
                        let j = choose|j: int|
                            0 <= j < old(self).buckets.len() && (#[trigger] old(
                                self,
                            ).buckets[j]).0@ == k;
                        assert(self.buckets[j].0@ == k);
                    }
                }
            },
            None => {
                let entry = (key, nb);
                self.buckets.push(entry);
                self.model = Ghost(new_model);
                assert forall|k: Seq<char>| #[trigger] self.model@.contains_key(k) implies exists|
                    j: int,
                |
                    0 <= j < self.buckets.len() && (#[trigger] self.buckets[j]).0@ == k by {
                    if k != self.buckets[self.buckets.len() - 1].0@ {
                        let j = choose|j: int|
                            0 <= j < old(self).buckets.len() && (#[trigger] old(
                                self,
                            ).buckets[j]).0@ == k;
                        assert(self.buckets[j].0@ == k);
                    }
                }
            },
        }
        allowed
    }
}

} // verus!
