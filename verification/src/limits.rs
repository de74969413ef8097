//! Request rate limiting (a token bucket per client) and connection
//! limiting (per client and in total).

use vstd::prelude::*;
use core::time::Duration;
use std::time::Instant;
use crate::clock::{instant_now, elapsed_since, duration_nanos, duration_as_nanos};
use vstd::arithmetic::div_mod::{lemma_div_is_ordered, lemma_fundamental_div_mod, lemma_hoist_over_denominator,
    lemma_mod_multiples_vanish};

verus! {

/// A client of the server: its IP address (IPv4 in the low 32 bits) and port.
#[derive(Clone, Copy, Debug, PartialEq, Eq, Structural)]
pub struct ClientAddr {
    pub v6: bool,
    pub ip: u128,
    pub port: u16,
}

impl ClientAddr {
    /// An IPv4 client.
    pub fn v4(a: u8, b: u8, c: u8, d: u8, port: u16) -> (r: ClientAddr)
        ensures
            !r.v6,
            r.ip == a as int * 16777216 + b as int * 65536 + c as int * 256 + d as int,
            r.port == port,
    {
        let ip: u128 = a as u128 * 16777216 + b as u128 * 65536 + c as u128 * 256 + d as u128;
        ClientAddr { v6: false, ip, port }
    }
}

/// Limits of the rate limiter.
#[derive(Clone, Copy, Debug, PartialEq, Eq, Structural)]
pub struct RateLimitConfig {
    pub requests_per_second: u32,
    pub burst_size: u32,
}

impl Default for RateLimitConfig {
    fn default() -> (r: Self)
        ensures
            r.requests_per_second == 100,
            r.burst_size == 50,
    {
        RateLimitConfig { requests_per_second: 100, burst_size: 50 }
    }
}

pub const NANOS_PER_SEC: u128 = 1_000_000_000;

/// A bucket holding `tokens` whole tokens and `fraction` billionths of a
/// token, refilled at `rate` tokens per second for `elapsed_ns` nanoseconds:
/// the tokens and the fraction it then holds.  What is earned is added; a
/// bucket that reaches `max` is full and keeps no fraction.
pub open spec fn refilled(tokens: nat, fraction: nat, max: nat, rate: nat, elapsed_ns: nat) -> (nat, nat) {
    let total = fraction + elapsed_ns * rate;
    let t = tokens + total / 1_000_000_000;
    if t >= max {
        (max, 0)
    } else {
        (t, total % 1_000_000_000)
    }
}

/// Taking a token from a bucket holding `tokens` and `fraction` of `max`
/// (refilled at `rate`) after `e` nanoseconds answers `r` and leaves `left`
/// tokens and `left_fraction`.
pub open spec fn consume_outcome(tokens: nat, fraction: nat, max: nat, rate: nat, e: nat, r: bool, left: u32,
    left_fraction: u32) -> bool {
    let (t, f) = refilled(tokens, fraction, max, rate, e);
    &&& r == (t > 0)
    &&& left == if t > 0 { t - 1 } else { 0 }
    &&& left_fraction == f
}

/// A token bucket: up to `max_tokens` requests at once, refilled at
/// `refill_rate` tokens per second.  `fraction` holds the billionths of a
/// token earned since the last whole one.  Times are nanoseconds of the
/// monotonic clock after `created`, the instant the bucket was made;
/// `last_refill_ns` is the time of the last refill.
pub struct TokenBucket {
    pub max_tokens: u32,
    pub tokens: u32,
    pub fraction: u32,
    pub refill_rate: u32,
    pub created: Instant,
    pub last_refill_ns: u128,
}

/// The nanoseconds from `last` to `now`; none when `now` is not later.
pub open spec fn since(last: nat, now: nat) -> nat {
    if now >= last {
        (now - last) as nat
    } else {
        0
    }
}

impl TokenBucket {
    /// A full bucket.
    pub fn new(max_tokens: u32, refill_rate: u32) -> (r: TokenBucket)
        ensures
            r.max_tokens == max_tokens,
            r.tokens == max_tokens,
            r.fraction == 0,
            r.refill_rate == refill_rate,
            r.last_refill_ns == 0,
    {
        TokenBucket {
            max_tokens,
            tokens: max_tokens,
            fraction: 0,
            refill_rate,
            created: instant_now(),
            last_refill_ns: 0,
        }
    }

    /// A full bucket counting time from `origin`, last refilled now.
    fn with_origin(max_tokens: u32, refill_rate: u32, origin: Instant) -> (r: TokenBucket)
        ensures
            r.max_tokens == max_tokens,
            r.tokens == max_tokens,
            r.fraction == 0,
            r.refill_rate == refill_rate,
            r.created == origin,
    {
        let d = elapsed_since(&origin);
        let now = duration_nanos(&d);
        TokenBucket { max_tokens, tokens: max_tokens, fraction: 0, refill_rate, created: origin, last_refill_ns: now }
    }

    /// The monotonic clock read now, in nanoseconds after `created`.
    fn clock_ns(&self) -> (r: u128) {
        let d = elapsed_since(&self.created);
        duration_nanos(&d)
    }

    /// Adds what is earned in `elapsed_ns` nanoseconds.
    pub fn refill_by(&mut self, elapsed_ns: u128)
        ensures
            (final(self).tokens as nat, final(self).fraction as nat) == refilled(old(self).tokens as nat,
                old(self).fraction as nat, old(self).max_tokens as nat, old(self).refill_rate as nat, elapsed_ns as nat),
            final(self).max_tokens == old(self).max_tokens,
            final(self).refill_rate == old(self).refill_rate,
            final(self).created == old(self).created,
            final(self).last_refill_ns == old(self).last_refill_ns,
    {
        let max = self.max_tokens as u128;
        let rate = self.refill_rate as u128;
        let tokens = self.tokens as u128;
        let frac = self.fraction as u128;
        if rate > 0 && elapsed_ns / NANOS_PER_SEC >= max {
            proof {
                let total = frac as nat + elapsed_ns as nat * rate as nat;
                assert(elapsed_ns as nat * rate as nat >= elapsed_ns as nat) by (nonlinear_arith)
                    requires rate >= 1;
                assert(total / 1_000_000_000 >= elapsed_ns as nat / 1_000_000_000) by {
                    lemma_div_is_ordered(elapsed_ns as int, total as int, 1_000_000_000);
                }
            }
            self.tokens = self.max_tokens;
            self.fraction = 0;
            return;
        }
        proof {
            if rate > 0 {
                assert(elapsed_ns < (max + 1) * 1_000_000_000) by (nonlinear_arith)
                    requires elapsed_ns / 1_000_000_000 < max;
                assert(elapsed_ns * rate <= (max + 1) * 1_000_000_000 * rate) by (nonlinear_arith)
                    requires elapsed_ns < (max + 1) * 1_000_000_000;
                assert((max + 1) * 1_000_000_000 * rate <= 0x1_0000_0000 * 1_000_000_000 * 0x1_0000_0000) by (nonlinear_arith)
                    requires max < 0x1_0000_0000, rate < 0x1_0000_0000;
            } else {
                assert(elapsed_ns * rate == 0) by (nonlinear_arith)
                    requires rate == 0;
            }
        }
        let total = frac + elapsed_ns * rate;
        let t = tokens + total / NANOS_PER_SEC;
        if t >= max {
            self.tokens = self.max_tokens;
            self.fraction = 0;
        } else {
            self.tokens = t as u32;
            self.fraction = (total % NANOS_PER_SEC) as u32;
        }
    }

    /// Refills for `elapsed_ns` nanoseconds, then takes a token if there is one.
    pub fn try_consume_after(&mut self, elapsed_ns: u128) -> (r: bool)
        ensures
            consume_outcome(old(self).tokens as nat, old(self).fraction as nat, old(self).max_tokens as nat,
                old(self).refill_rate as nat, elapsed_ns as nat, r, final(self).tokens, final(self).fraction),
            final(self).max_tokens == old(self).max_tokens,
            final(self).refill_rate == old(self).refill_rate,
            final(self).created == old(self).created,
            final(self).last_refill_ns == old(self).last_refill_ns,
    {
        self.refill_by(elapsed_ns);
        if self.tokens > 0 {
            self.tokens = self.tokens - 1;
            true
        } else {
            false
        }
    }

    /// Reads the clock, refills for the time since the last refill, which
    /// moves to the time read, then takes a token if there is one.
    pub fn try_consume(&mut self) -> (r: bool)
        ensures
            exists|now: nat| #![trigger since(old(self).last_refill_ns as nat, now)] final(self).last_refill_ns == now
                && consume_outcome(old(self).tokens as nat, old(self).fraction as nat, old(self).max_tokens as nat,
                old(self).refill_rate as nat, since(old(self).last_refill_ns as nat, now), r, final(self).tokens,
                final(self).fraction),
            final(self).max_tokens == old(self).max_tokens,
            final(self).refill_rate == old(self).refill_rate,
            final(self).created == old(self).created,
    {
        let now = self.clock_ns();
        let e: u128 = if now >= self.last_refill_ns { now - self.last_refill_ns } else { 0 };
        let r = self.try_consume_after(e);
        self.last_refill_ns = now;
        assert(consume_outcome(old(self).tokens as nat, old(self).fraction as nat, old(self).max_tokens as nat,
            old(self).refill_rate as nat, since(old(self).last_refill_ns as nat, now as nat), r, self.tokens,
            self.fraction));
        r
    }

    /// Nanoseconds since the last refill, by the clock read now.
    pub fn nanos_since_refill(&self) -> (r: u128)
        ensures
            exists|now: nat| r == #[trigger] since(self.last_refill_ns as nat, now),
    {
        let now = self.clock_ns();
        let r: u128 = if now >= self.last_refill_ns { now - self.last_refill_ns } else { 0 };
        assert(r == since(self.last_refill_ns as nat, now as nat));
        r
    }
}

// ---------------------------------------------------------------------------
// Rate limiter: one bucket per client
// ---------------------------------------------------------------------------

pub open spec fn distinct_clients<V>(s: Seq<(ClientAddr, V)>) -> bool {
    forall|i: int, j: int| 0 <= i < j < s.len() ==> (#[trigger] s[i]).0 != (#[trigger] s[j]).0
}

/// The position of `ip`'s entry.
pub open spec fn position_of<V>(s: Seq<(ClientAddr, V)>, ip: ClientAddr) -> Option<int> {
    if exists|k: int| 0 <= k < s.len() && (#[trigger] s[k]).0 == ip {
        Some(choose|k: int| 0 <= k < s.len() && (#[trigger] s[k]).0 == ip)
    } else {
        None
    }
}

fn find_client<V>(s: &Vec<(ClientAddr, V)>, ip: ClientAddr) -> (r: Option<usize>)
    requires
        distinct_clients(s@),
    ensures
        match r {
            Some(k) => k < s@.len() && s@[k as int].0 == ip && position_of(s@, ip) == Some(k as int),
            None => position_of(s@, ip) is None,
        },
{
    let n = s.len();
    let mut k: usize = 0;
    while k < n
        invariant
            n == s@.len(),
            k <= n,
            distinct_clients(s@),
            forall|j: int| 0 <= j < k ==> (#[trigger] s@[j]).0 != ip,
        decreases n - k,
    {
        if s[k].0 == ip {
            proof {
                let c = choose|c: int| 0 <= c < s@.len() && (#[trigger] s@[c]).0 == ip;
                if c != k {
                    if c < k {
                        assert(s@[c].0 != s@[k as int].0);
                    } else {
                        assert(s@[k as int].0 != s@[c].0);
                    }
                }
            }
            return Some(k);
        }
        k += 1;
    }
    None
}

/// Per-client rate limiting.
/// All buckets count time from the limiter's `origin`, so that one reading
/// of the clock tells the age of every bucket.
pub struct RateLimiter {
    pub limiters: Vec<(ClientAddr, TokenBucket)>,
    pub config: RateLimitConfig,
    pub origin: Instant,
}

impl RateLimiter {
    pub open spec fn wf(&self) -> bool {
        &&& distinct_clients(self.limiters@)
        &&& forall|k: int| 0 <= k < self.limiters@.len() ==> (#[trigger] self.limiters@[k]).1.created == self.origin
    }

    /// A limiter that knows no client yet.
    pub fn new(config: RateLimitConfig) -> (r: RateLimiter)
        ensures
            r.wf(),
            r.limiters@.len() == 0,
            r.config == config,
    {
        RateLimiter { limiters: Vec::new(), config, origin: instant_now() }
    }

    /// Whether a request of `ip` may pass: a new client gets a full bucket
    /// of `burst_size` tokens refilled at `requests_per_second`; the request
    /// passes when a token can be taken from the client's bucket.
    pub fn is_allowed(&mut self, ip: ClientAddr) -> (r: bool)
        requires
            old(self).wf(),
        ensures
            final(self).wf(),
            final(self).config == old(self).config,
            final(self).origin == old(self).origin,
            match position_of(old(self).limiters@, ip) {
                Some(k) => {
                    let b = old(self).limiters@[k].1;
                    &&& final(self).limiters@.len() == old(self).limiters@.len()
                    &&& final(self).limiters@[k].0 == ip
                    &&& exists|now: nat| #![trigger since(b.last_refill_ns as nat, now)]
                        final(self).limiters@[k].1.last_refill_ns == now && consume_outcome(b.tokens as nat,
                        b.fraction as nat, b.max_tokens as nat, b.refill_rate as nat, since(b.last_refill_ns as nat,
                        now), r, final(self).limiters@[k].1.tokens, final(self).limiters@[k].1.fraction)
                    &&& final(self).limiters@[k].1.created == b.created
                    &&& final(self).limiters@[k].1.max_tokens == b.max_tokens
                    &&& final(self).limiters@[k].1.refill_rate == b.refill_rate
                    &&& forall|j: int| 0 <= j < old(self).limiters@.len() && j != k
                        ==> final(self).limiters@[j] == old(self).limiters@[j]
                },
                None => {
                    let k = old(self).limiters@.len() as int;
                    let c = old(self).config;
                    &&& final(self).limiters@.len() == k + 1
                    &&& final(self).limiters@[k].0 == ip
                    &&& exists|now: nat| #![trigger since(0, now)] final(self).limiters@[k].1.last_refill_ns == now
                        && consume_outcome(c.burst_size as nat, 0, c.burst_size as nat, c.requests_per_second as nat,
                        since(0, now), r, final(self).limiters@[k].1.tokens, final(self).limiters@[k].1.fraction)
                    &&& final(self).limiters@[k].1.max_tokens == c.burst_size
                    &&& final(self).limiters@[k].1.refill_rate == c.requests_per_second
                    &&& forall|j: int| 0 <= j < k ==> final(self).limiters@[j] == old(self).limiters@[j]
                },
            },
    {
        let k = match find_client(&self.limiters, ip) {
            Some(k) => k,
            None => {
                let b = TokenBucket::with_origin(self.config.burst_size, self.config.requests_per_second,
                    self.origin);
                let ghost before = self.limiters@;
                self.limiters.push((ip, b));
                proof {
                    assert forall|i: int, j: int| 0 <= i < j < self.limiters@.len() implies
                        (#[trigger] self.limiters@[i]).0 != (#[trigger] self.limiters@[j]).0 by {
                        if j == before.len() {
                            assert(before[i] == self.limiters@[i]);
                            if before[i].0 == ip {
                                assert(exists|c: int| 0 <= c < before.len() && (#[trigger] before[c]).0 == ip);
                            }
                        } else {
                            assert(before[i] == self.limiters@[i]);
                            assert(before[j] == self.limiters@[j]);
                        }
                    }
                }
                self.limiters.len() - 1
            },
        };
        let ghost mid = self.limiters@;
        let (addr, mut bucket) = self.limiters.remove(k);
        let ghost b0 = bucket;
        let r = bucket.try_consume();
        proof {
            if position_of(old(self).limiters@, ip) is None {
                let w = choose|now: nat| #![trigger since(b0.last_refill_ns as nat, now)] bucket.last_refill_ns == now
                    && consume_outcome(b0.tokens as nat, b0.fraction as nat, b0.max_tokens as nat,
                    b0.refill_rate as nat, since(b0.last_refill_ns as nat, now), r, bucket.tokens, bucket.fraction);
                lemma_full_bucket_any_wait(b0.max_tokens as nat, b0.refill_rate as nat,
                    since(b0.last_refill_ns as nat, w), since(0, w));
                assert(since(0, w) == w);
            }
        }
        self.limiters.insert(k, (addr, bucket));
        proof {
            assert forall|i: int, j: int| 0 <= i < j < self.limiters@.len() implies
                (#[trigger] self.limiters@[i]).0 != (#[trigger] self.limiters@[j]).0 by {
                assert(self.limiters@[i].0 == mid[i].0);
                assert(self.limiters@[j].0 == mid[j].0);
            }
            assert forall|j: int| 0 <= j < mid.len() && j != k implies self.limiters@[j] == mid[j] by {}
        }
        r
    }

    /// Forgets the clients whose bucket was last refilled `max_age` or more
    /// ago, by one reading of the clock; the others stay, in their order,
    /// with their buckets as they were.  A zero `max_age` forgets every client.
    pub fn cleanup(&mut self, max_age: Duration)
        requires
            old(self).wf(),
        ensures
            final(self).wf(),
            final(self).config == old(self).config,
            final(self).origin == old(self).origin,
            exists|now: nat| #[trigger] recent_entries(old(self).limiters@, now, duration_as_nanos(max_age) as nat)
                == final(self).limiters@,
            forall|k: int| 0 <= k < final(self).limiters@.len() ==> old(self).limiters@.contains(
                #[trigger] final(self).limiters@[k]),
            duration_as_nanos(max_age) == 0 ==> final(self).limiters@.len() == 0,
    {
        let limit = duration_nanos(&max_age);
        let d = elapsed_since(&self.origin);
        let now = duration_nanos(&d);
        let ghost all = self.limiters@;
        let ghost n = all.len();
        let mut tmp: Vec<(ClientAddr, TokenBucket)> = Vec::new();
        while self.limiters.len() > 0
            invariant
                self.config == old(self).config,
                self.origin == old(self).origin,
                all == old(self).limiters@,
                n == all.len(),
                self.limiters@.len() <= n,
                self.limiters@ == all.subrange(0, self.limiters@.len() as int),
                tmp@.len() == n - self.limiters@.len(),
                forall|t: int| 0 <= t < tmp@.len() ==> #[trigger] tmp@[t] == all[n - 1 - t],
            decreases self.limiters@.len(),
        {
            let ghost before = tmp@;
            let entry = self.limiters.pop().unwrap();
            tmp.push(entry);
            proof {
                assert forall|t: int| 0 <= t < tmp@.len() implies #[trigger] tmp@[t] == all[n - 1 - t] by {
                    if t < before.len() {
                        assert(tmp@[t] == before[t]);
                    }
                }
            }
        }
        let mut kept: Vec<(ClientAddr, TokenBucket)> = Vec::new();
        assert(all.subrange(0, 0) =~= Seq::<(ClientAddr, TokenBucket)>::empty());
        while tmp.len() > 0
            invariant
                self.config == old(self).config,
                self.origin == old(self).origin,
                all == old(self).limiters@,
                n == all.len(),
                tmp@.len() <= n,
                forall|t: int| 0 <= t < tmp@.len() ==> #[trigger] tmp@[t] == all[n - 1 - t],
                kept@ == recent_entries(all.subrange(0, n - tmp@.len()), now as nat, limit as nat),
            decreases tmp@.len(),
        {
            let ghost i = n - tmp@.len();
            let ghost before = tmp@;
            let entry = tmp.pop().unwrap();
            assert(entry == before[before.len() - 1]);
            assert(entry == all[i]);
            assert(all.subrange(0, i + 1).drop_last() =~= all.subrange(0, i));
            let last = entry.1.last_refill_ns;
            let age: u128 = if now >= last { now - last } else { 0 };
            if age < limit {
                kept.push(entry);
            }
            proof {
                assert forall|t: int| 0 <= t < tmp@.len() implies #[trigger] tmp@[t] == all[n - 1 - t] by {
                    assert(tmp@[t] == before[t]);
                }
            }
        }
        assert(all.subrange(0, n as int) =~= all);
        self.limiters = kept;
        proof {
            lemma_recent_entries(all, now as nat, limit as nat);
            assert forall|k: int| 0 <= k < self.limiters@.len() implies (#[trigger] self.limiters@[k]).1.created
                == self.origin by {
                let x = self.limiters@[k];
                assert(recent_entries(all, now as nat, limit as nat).contains(x));
                let j = choose|j: int| 0 <= j < all.len() && all[j] == x;
                assert(all[j].1.created == old(self).origin);
            }
            assert forall|k: int| 0 <= k < self.limiters@.len() implies old(self).limiters@.contains(
                #[trigger] self.limiters@[k]) by {
                assert(recent_entries(all, now as nat, limit as nat).contains(self.limiters@[k]));
            }
        }
    }
}

/// The entries of `s` whose bucket was refilled less than `limit`
/// nanoseconds before `now`, in their order.
pub open spec fn recent_entries(s: Seq<(ClientAddr, TokenBucket)>, now: nat, limit: nat) -> Seq<(ClientAddr, TokenBucket)>
    decreases s.len(),
{
    if s.len() == 0 {
        Seq::empty()
    } else {
        let r = recent_entries(s.drop_last(), now, limit);
        if since(s.last().1.last_refill_ns as nat, now) < limit {
            r.push(s.last())
        } else {
            r
        }
    }
}

proof fn lemma_recent_entries(s: Seq<(ClientAddr, TokenBucket)>, now: nat, limit: nat)
    ensures
        forall|x: (ClientAddr, TokenBucket)| #[trigger] recent_entries(s, now, limit).contains(x) ==> s.contains(x)
            && since(x.1.last_refill_ns as nat, now) < limit,
        forall|j: int| 0 <= j < s.len() && since(s[j].1.last_refill_ns as nat, now) < limit ==> recent_entries(
            s,
            now,
            limit,
        ).contains(#[trigger] s[j]),
        distinct_clients(s) ==> distinct_clients(recent_entries(s, now, limit)),
        limit == 0 ==> recent_entries(s, now, limit).len() == 0,
    decreases s.len(),
{
    if s.len() > 0 {
        let t = s.drop_last();
        let r = recent_entries(t, now, limit);
        lemma_recent_entries(t, now, limit);
        let rr = recent_entries(s, now, limit);
        let keep = since(s.last().1.last_refill_ns as nat, now) < limit;
        assert forall|x: (ClientAddr, TokenBucket)| #[trigger] rr.contains(x) implies s.contains(x)
            && since(x.1.last_refill_ns as nat, now) < limit by {
            let k = choose|k: int| 0 <= k < rr.len() && rr[k] == x;
            if k < r.len() {
                assert(rr[k] == r[k]);
                assert(r.contains(x));
                let j = choose|j: int| 0 <= j < t.len() && t[j] == x;
                assert(s[j] == x);
            } else {
                assert(s[s.len() - 1] == x);
            }
        }
        assert forall|j: int| 0 <= j < s.len() && since(s[j].1.last_refill_ns as nat, now) < limit implies
            rr.contains(#[trigger] s[j]) by {
            if j < t.len() {
                assert(s[j] == t[j]);
                assert(r.contains(t[j]));
                let k = choose|k: int| 0 <= k < r.len() && r[k] == t[j];
                assert(rr[k] == r[k]);
            } else {
                assert(rr[r.len() as int] == s[j]);
            }
        }
        if distinct_clients(s) {
            assert(distinct_clients(t)) by {
                assert forall|i: int, j: int| 0 <= i < j < t.len() implies (#[trigger] t[i]).0 != (#[trigger] t[j]).0 by {
                    assert(t[i] == s[i]);
                    assert(t[j] == s[j]);
                }
            }
            if keep {
                assert forall|i: int, j: int| 0 <= i < j < rr.len() implies (#[trigger] rr[i]).0 != (#[trigger] rr[j]).0 by {
                    if j == r.len() {
                        assert(rr[i] == r[i]);
                        assert(r.contains(r[i]));
                        let w = choose|w: int| 0 <= w < t.len() && t[w] == r[i];
                        assert(s[w] == t[w]);
                        assert(s[w].0 != s[s.len() - 1].0);
                    } else {
                        assert(rr[i] == r[i]);
                        assert(rr[j] == r[j]);
                    }
                }
            }
        }
    }
}

/// Cleaning up keeps exactly the clients whose bucket was refilled less
/// than `max_age` before the clock reading: every such client stays, with
/// its bucket unchanged, and every other one goes.
pub proof fn law_cleanup_keeps_recent(s: Seq<(ClientAddr, TokenBucket)>, now: nat, limit: nat)
    ensures
        forall|j: int| 0 <= j < s.len() ==> (recent_entries(s, now, limit).contains(#[trigger] s[j]) <==> since(
            s[j].1.last_refill_ns as nat,
            now,
        ) < limit),
        forall|x: (ClientAddr, TokenBucket)| #[trigger] recent_entries(s, now, limit).contains(x) ==> s.contains(x),
{
    lemma_recent_entries(s, now, limit);
    assert forall|j: int| 0 <= j < s.len() implies (recent_entries(s, now, limit).contains(#[trigger] s[j]) <==> since(
        s[j].1.last_refill_ns as nat,
        now,
    ) < limit) by {
        if recent_entries(s, now, limit).contains(s[j]) {
        }
    }
}

/// A bucket that is full stays full whatever the wait.
proof fn lemma_full_bucket_any_wait(max: nat, rate: nat, e1: nat, e2: nat)
    ensures
        refilled(max, 0, max, rate, e1) == refilled(max, 0, max, rate, e2),
{
    assert(e1 * rate >= 0 && e2 * rate >= 0) by (nonlinear_arith);
}

// ---------------------------------------------------------------------------
// Connection limiter
// ---------------------------------------------------------------------------

/// The sum of the connection counts.
pub open spec fn total_connections(s: Seq<(ClientAddr, u32)>) -> nat
    decreases s.len(),
{
    if s.len() == 0 {
        0
    } else {
        total_connections(s.drop_last()) + s.last().1 as nat
    }
}

/// The connection table after `ip` asks for a connection, and the answer:
/// refused when the total is at its limit; else `ip` gets an entry (count
/// zero) if it had none, and is refused when its count is at the per-client
/// limit, or else counted once more.
pub open spec fn acquire_outcome(s: Seq<(ClientAddr, u32)>, ip: ClientAddr, max_per_ip: u32, max_total: u32) -> (Seq<(ClientAddr, u32)>, bool) {
    if total_connections(s) >= max_total {
        (s, false)
    } else {
        let s1 = match position_of(s, ip) {
            Some(_) => s,
            None => s.push((ip, 0u32)),
        };
        let k = position_of(s1, ip)->0;
        if s1[k].1 >= max_per_ip {
            (s1, false)
        } else {
            (s1.update(k, (ip, (s1[k].1 + 1) as u32)), true)
        }
    }
}

/// The connection table after `ip` closes a connection: its count goes down
/// by one (not below zero) and an entry whose count is zero goes away.
pub open spec fn release_outcome(s: Seq<(ClientAddr, u32)>, ip: ClientAddr) -> Seq<(ClientAddr, u32)> {
    match position_of(s, ip) {
        None => s,
        Some(k) => {
            let c = s[k].1;
            let c2: u32 = if c > 0 { (c - 1) as u32 } else { 0 };
            if c2 == 0 {
                s.remove(k)
            } else {
                s.update(k, (ip, c2))
            }
        },
    }
}

proof fn lemma_total_prefix(s: Seq<(ClientAddr, u32)>, k: int)
    requires
        0 <= k <= s.len(),
    ensures
        total_connections(s.subrange(0, k)) <= total_connections(s),
    decreases s.len() - k,
{
    if k < s.len() {
        lemma_total_prefix(s, k + 1);
        assert(s.subrange(0, k + 1).drop_last() == s.subrange(0, k));
    } else {
        assert(s.subrange(0, k) == s);
    }
}

proof fn lemma_total_update(s: Seq<(ClientAddr, u32)>, k: int, x: (ClientAddr, u32))
    requires
        0 <= k < s.len(),
    ensures
        total_connections(s.update(k, x)) == total_connections(s) - s[k].1 + x.1,
    decreases s.len(),
{
    if k < s.len() - 1 {
        lemma_total_update(s.drop_last(), k, x);
        assert(s.update(k, x).drop_last() == s.drop_last().update(k, x));
    } else {
        assert(s.update(k, x).drop_last() == s.drop_last());
    }
}

proof fn lemma_total_remove(s: Seq<(ClientAddr, u32)>, k: int)
    requires
        0 <= k < s.len(),
    ensures
        total_connections(s.remove(k)) == total_connections(s) - s[k].1,
    decreases s.len(),
{
    if k < s.len() - 1 {
        lemma_total_remove(s.drop_last(), k);
        assert(s.remove(k).drop_last() == s.drop_last().remove(k));
    } else {
        assert(s.remove(k) == s.drop_last());
    }
}

/// Counts of connections per client, with limits per client and in total.
pub struct ConnectionLimiter {
    pub connections: Vec<(ClientAddr, u32)>,
    pub max_connections_per_ip: u32,
    pub max_total_connections: u32,
}

impl ConnectionLimiter {
    /// Each client appears once, no client is over its limit, and the
    /// total is within the total limit.
    pub open spec fn wf(&self) -> bool {
        &&& distinct_clients(self.connections@)
        &&& forall|k: int| 0 <= k < self.connections@.len() ==> (#[trigger] self.connections@[k]).1
            <= self.max_connections_per_ip
        &&& total_connections(self.connections@) <= self.max_total_connections
    }

    pub fn new(max_per_ip: u32, max_total: u32) -> (r: ConnectionLimiter)
        ensures
            r.wf(),
            r.connections@.len() == 0,
            r.max_connections_per_ip == max_per_ip,
            r.max_total_connections == max_total,
    {
        ConnectionLimiter {
            connections: Vec::new(),
            max_connections_per_ip: max_per_ip,
            max_total_connections: max_total,
        }
    }

    /// The number of open connections.
    pub fn connection_count(&self) -> (r: u32)
        requires
            self.wf(),
        ensures
            r == total_connections(self.connections@),
    {
        let n = self.connections.len();
        let mut acc: u32 = 0;
        let mut k: usize = 0;
        while k < n
            invariant
                n == self.connections@.len(),
                k <= n,
                acc == total_connections(self.connections@.subrange(0, k as int)),
                total_connections(self.connections@) <= self.max_total_connections,
            decreases n - k,
        {
            proof {
                lemma_total_prefix(self.connections@, k + 1);
                assert(self.connections@.subrange(0, k + 1).drop_last() == self.connections@.subrange(0, k as int));
            }
            acc = acc + self.connections[k].1;
            k += 1;
        }
        assert(self.connections@.subrange(0, n as int) == self.connections@);
        acc
    }

    /// Asks for a connection slot for `ip`.
    pub fn try_acquire(&mut self, ip: ClientAddr) -> (r: bool)
        requires
            old(self).wf(),
        ensures
            final(self).wf(),
            final(self).max_connections_per_ip == old(self).max_connections_per_ip,
            final(self).max_total_connections == old(self).max_total_connections,
            (final(self).connections@, r) == acquire_outcome(old(self).connections@, ip,
                old(self).max_connections_per_ip, old(self).max_total_connections),
    {
        let total = self.connection_count();
        if total >= self.max_total_connections {
            return false;
        }
        let k = match find_client(&self.connections, ip) {
            Some(k) => k,
            None => {
                let ghost before = self.connections@;
                self.connections.push((ip, 0u32));
                proof {
                    assert forall|i: int, j: int| 0 <= i < j < self.connections@.len() implies
                        (#[trigger] self.connections@[i]).0 != (#[trigger] self.connections@[j]).0 by {
                        if j == before.len() {
                            assert(before[i] == self.connections@[i]);
                            if before[i].0 == ip {
                                assert(exists|c: int| 0 <= c < before.len() && (#[trigger] before[c]).0 == ip);
                            }
                        } else {
                            assert(before[i] == self.connections@[i]);
                            assert(before[j] == self.connections@[j]);
                        }
                    }
                    assert(self.connections@.drop_last() == before);
                    let n = self.connections@.len() - 1;
                    assert(self.connections@[n].0 == ip);
                    let c = choose|c: int| 0 <= c < self.connections@.len() && (#[trigger] self.connections@[c]).0 == ip;
                    if c != n {
                        assert(self.connections@[c].0 != self.connections@[n].0);
                    }
                }
                self.connections.len() - 1
            },
        };
        let count = self.connections[k].1;
        if count >= self.max_connections_per_ip {
            return false;
        }
        let ghost before = self.connections@;
        self.connections.set(k, (ip, count + 1));
        proof {
            lemma_total_update(before, k as int, (ip, (count + 1) as u32));
            assert forall|i: int, j: int| 0 <= i < j < self.connections@.len() implies
                (#[trigger] self.connections@[i]).0 != (#[trigger] self.connections@[j]).0 by {
                assert(self.connections@[i].0 == before[i].0);
                assert(self.connections@[j].0 == before[j].0);
            }
        }
        true
    }

    /// Gives back a connection slot of `ip`.
    pub fn release(&mut self, ip: ClientAddr)
        requires
            old(self).wf(),
        ensures
            final(self).wf(),
            final(self).max_connections_per_ip == old(self).max_connections_per_ip,
            final(self).max_total_connections == old(self).max_total_connections,
            final(self).connections@ == release_outcome(old(self).connections@, ip),
    {
        match find_client(&self.connections, ip) {
            None => {},
            Some(k) => {
                let c = self.connections[k].1;
                let c2: u32 = if c > 0 { c - 1 } else { 0 };
                let ghost before = self.connections@;
                if c2 == 0 {
                    self.connections.remove(k);
                    proof {
                        lemma_total_remove(before, k as int);
                        assert forall|i: int, j: int| 0 <= i < j < self.connections@.len() implies
                            (#[trigger] self.connections@[i]).0 != (#[trigger] self.connections@[j]).0 by {
                            let i2 = if i < k { i } else { i + 1 };
                            let j2 = if j < k { j } else { j + 1 };
                            assert(self.connections@[i] == before[i2]);
                            assert(self.connections@[j] == before[j2]);
                        }
                        assert forall|i: int| 0 <= i < self.connections@.len() implies (#[trigger] self.connections@[i]).1
                            <= self.max_connections_per_ip by {
                            let i2 = if i < k { i } else { i + 1 };
                            assert(self.connections@[i] == before[i2]);
                        }
                    }
                } else {
                    self.connections.set(k, (ip, c2));
                    proof {
                        lemma_total_update(before, k as int, (ip, c2));
                        assert forall|i: int, j: int| 0 <= i < j < self.connections@.len() implies
                            (#[trigger] self.connections@[i]).0 != (#[trigger] self.connections@[j]).0 by {
                            assert(self.connections@[i].0 == before[i].0);
                            assert(self.connections@[j].0 == before[j].0);
                        }
                        assert forall|i: int| 0 <= i < self.connections@.len() implies (#[trigger] self.connections@[i]).1
                            <= self.max_connections_per_ip by {
                            if i != k {
                                assert(self.connections@[i] == before[i]);
                            }
                        }
                    }
                }
            },
        }
    }
}

proof fn lemma_position_of<V>(s: Seq<(ClientAddr, V)>, k: int, ip: ClientAddr)
    requires
        distinct_clients(s),
        0 <= k < s.len(),
        s[k].0 == ip,
    ensures
        position_of(s, ip) == Some(k),
{
    assert(exists|c: int| 0 <= c < s.len() && (#[trigger] s[c]).0 == ip);
    let c = choose|c: int| 0 <= c < s.len() && (#[trigger] s[c]).0 == ip;
    if c < k {
        assert(s[c].0 != s[k].0);
    } else if c > k {
        assert(s[k].0 != s[c].0);
    }
}

/// Closing a connection that was just granted gives back the table as it
/// was, when no client had a zero count.
pub proof fn law_release_undoes_acquire(s: Seq<(ClientAddr, u32)>, ip: ClientAddr, max_per_ip: u32, max_total: u32)
    requires
        distinct_clients(s),
        forall|k: int| 0 <= k < s.len() ==> (#[trigger] s[k]).1 > 0,
        acquire_outcome(s, ip, max_per_ip, max_total).1,
    ensures
        release_outcome(acquire_outcome(s, ip, max_per_ip, max_total).0, ip) == s,
{
    match position_of(s, ip) {
        Some(k) => {
            let c = choose|c: int| 0 <= c < s.len() && (#[trigger] s[c]).0 == ip;
            lemma_position_of(s, c, ip);
            let s2 = s.update(c, (ip, (s[c].1 + 1) as u32));
            assert forall|i: int, j: int| 0 <= i < j < s2.len() implies (#[trigger] s2[i]).0 != (#[trigger] s2[j]).0 by {
                assert(s2[i].0 == s[i].0);
                assert(s2[j].0 == s[j].0);
            }
            lemma_position_of(s2, c, ip);
            assert(s2.update(c, (ip, s[c].1)) =~= s);
        },
        None => {
            let s1 = s.push((ip, 0u32));
            let n = s.len() as int;
            assert forall|i: int, j: int| 0 <= i < j < s1.len() implies (#[trigger] s1[i]).0 != (#[trigger] s1[j]).0 by {
                if j == n {
                    assert(s1[i] == s[i]);
                    if s[i].0 == ip {
                        assert(exists|c: int| 0 <= c < s.len() && (#[trigger] s[c]).0 == ip);
                    }
                } else {
                    assert(s1[i] == s[i]);
                    assert(s1[j] == s[j]);
                }
            }
            lemma_position_of(s1, n, ip);
            let s2 = s1.update(n, (ip, 1u32));
            assert forall|i: int, j: int| 0 <= i < j < s2.len() implies (#[trigger] s2[i]).0 != (#[trigger] s2[j]).0 by {
                assert(s2[i].0 == s1[i].0);
                assert(s2[j].0 == s1[j].0);
            }
            lemma_position_of(s2, n, ip);
            assert(s2.remove(n) =~= s);
        },
    }
}

/// The number of open connections of `x` (zero without an entry).
pub open spec fn count_for(s: Seq<(ClientAddr, u32)>, x: ClientAddr) -> nat {
    match position_of(s, x) {
        Some(k) => s[k].1 as nat,
        None => 0,
    }
}

proof fn lemma_count_at(s: Seq<(ClientAddr, u32)>, j: int, x: ClientAddr)
    requires
        distinct_clients(s),
        0 <= j < s.len(),
        s[j].0 == x,
    ensures
        count_for(s, x) == s[j].1,
{
    lemma_position_of(s, j, x);
}

proof fn lemma_count_absent(s: Seq<(ClientAddr, u32)>, x: ClientAddr)
    requires
        forall|j: int| 0 <= j < s.len() ==> (#[trigger] s[j]).0 != x,
    ensures
        count_for(s, x) == 0,
{
}

/// Two tables with the same clients at the same places whose counts differ
/// at most at `k` agree on every other client's count.
proof fn lemma_count_update(s: Seq<(ClientAddr, u32)>, k: int, c: u32, x: ClientAddr)
    requires
        distinct_clients(s),
        0 <= k < s.len(),
        s[k].0 != x,
    ensures
        distinct_clients(s.update(k, (s[k].0, c))),
        count_for(s.update(k, (s[k].0, c)), x) == count_for(s, x),
{
    let t = s.update(k, (s[k].0, c));
    assert forall|i: int, j: int| 0 <= i < j < t.len() implies (#[trigger] t[i]).0 != (#[trigger] t[j]).0 by {
        assert(t[i].0 == s[i].0);
        assert(t[j].0 == s[j].0);
    }
    if exists|j: int| 0 <= j < s.len() && (#[trigger] s[j]).0 == x {
        let j = choose|j: int| 0 <= j < s.len() && (#[trigger] s[j]).0 == x;
        lemma_count_at(s, j, x);
        assert(t[j] == s[j]);
        lemma_count_at(t, j, x);
    } else {
        assert forall|j: int| 0 <= j < t.len() implies (#[trigger] t[j]).0 != x by {
            assert(t[j].0 == s[j].0);
        }
    }
}

/// Asking for a connection: `ip` gets one exactly when the total is under
/// its limit and `ip`'s own count is under the per-client limit; then its
/// count grows by one, and no other client's count changes either way.
pub proof fn law_acquire_counts(s: Seq<(ClientAddr, u32)>, ip: ClientAddr, max_per_ip: u32, max_total: u32)
    requires
        distinct_clients(s),
    ensures
        acquire_outcome(s, ip, max_per_ip, max_total).1 == (total_connections(s) < max_total && count_for(s, ip)
            < max_per_ip),
        forall|x: ClientAddr| #[trigger] count_for(acquire_outcome(s, ip, max_per_ip, max_total).0, x) == count_for(
            s,
            x,
        ) + if x == ip && acquire_outcome(s, ip, max_per_ip, max_total).1 {
            1nat
        } else {
            0nat
        },
{
    let (s2, r) = acquire_outcome(s, ip, max_per_ip, max_total);
    if total_connections(s) >= max_total {
        return;
    }
    let s1 = match position_of(s, ip) {
        Some(_) => s,
        None => s.push((ip, 0u32)),
    };
    assert(distinct_clients(s1) && forall|x: ClientAddr| #[trigger] count_for(s1, x) == count_for(s, x)) by {
        if position_of(s, ip) is None {
            let n = s.len() as int;
            assert forall|i: int, j: int| 0 <= i < j < s1.len() implies (#[trigger] s1[i]).0 != (#[trigger] s1[j]).0 by {
                if j == n {
                    assert(s1[i] == s[i]);
                    if s[i].0 == ip {
                        assert(exists|c: int| 0 <= c < s.len() && (#[trigger] s[c]).0 == ip);
                    }
                } else {
                    assert(s1[i] == s[i]);
                    assert(s1[j] == s[j]);
                }
            }
            assert forall|x: ClientAddr| #[trigger] count_for(s1, x) == count_for(s, x) by {
                if x == ip {
                    lemma_count_at(s1, n, x);
                } else if exists|j: int| 0 <= j < s.len() && (#[trigger] s[j]).0 == x {
                    let j = choose|j: int| 0 <= j < s.len() && (#[trigger] s[j]).0 == x;
                    lemma_count_at(s, j, x);
                    assert(s1[j] == s[j]);
                    lemma_count_at(s1, j, x);
                } else {
                    assert forall|j: int| 0 <= j < s1.len() implies (#[trigger] s1[j]).0 != x by {
                        if j < n {
                            assert(s1[j] == s[j]);
                        }
                    }
                }
            }
        }
    }
    assert(exists|c: int| 0 <= c < s1.len() && (#[trigger] s1[c]).0 == ip) by {
        if position_of(s, ip) is None {
            assert(s1[s.len() as int].0 == ip);
        } else {
            let c = choose|c: int| 0 <= c < s.len() && (#[trigger] s[c]).0 == ip;
        }
    }
    let c = choose|c: int| 0 <= c < s1.len() && (#[trigger] s1[c]).0 == ip;
    lemma_position_of(s1, c, ip);
    let k = position_of(s1, ip)->0;
    assert(k == c);
    lemma_count_at(s1, k, ip);
    if s1[k].1 < max_per_ip {
        let t = s1.update(k, (ip, (s1[k].1 + 1) as u32));
        assert forall|x: ClientAddr| #[trigger] count_for(t, x) == count_for(s, x) + if x == ip { 1nat } else { 0nat } by {
            if x == ip {
                assert forall|i: int, j: int| 0 <= i < j < t.len() implies (#[trigger] t[i]).0 != (#[trigger] t[j]).0 by {
                    assert(t[i].0 == s1[i].0);
                    assert(t[j].0 == s1[j].0);
                }
                lemma_count_at(t, k, ip);
            } else {
                lemma_count_update(s1, k, (s1[k].1 + 1) as u32, x);
            }
        }
    }
}

/// Closing a connection: `ip`'s count goes down by one when it has any,
/// and no other client's count changes.
pub proof fn law_release_counts(s: Seq<(ClientAddr, u32)>, ip: ClientAddr)
    requires
        distinct_clients(s),
    ensures
        forall|x: ClientAddr| #[trigger] count_for(release_outcome(s, ip), x) == if x == ip && count_for(s, x) > 0 {
            (count_for(s, x) - 1) as nat
        } else {
            count_for(s, x)
        },
{
    match position_of(s, ip) {
        None => {},
        Some(k) => {
            let c = choose|c: int| 0 <= c < s.len() && (#[trigger] s[c]).0 == ip;
            lemma_position_of(s, c, ip);
            let cnt = s[k].1;
            let c2: u32 = if cnt > 0 { (cnt - 1) as u32 } else { 0 };
            if c2 == 0 {
                let t = s.remove(k);
                assert forall|i: int, j: int| 0 <= i < j < t.len() implies (#[trigger] t[i]).0 != (#[trigger] t[j]).0 by {
                    let i2 = if i < k { i } else { i + 1 };
                    let j2 = if j < k { j } else { j + 1 };
                    assert(t[i] == s[i2]);
                    assert(t[j] == s[j2]);
                }
                assert forall|x: ClientAddr| #[trigger] count_for(t, x) == if x == ip && count_for(s, x) > 0 {
                    (count_for(s, x) - 1) as nat
                } else {
                    count_for(s, x)
                } by {
                    lemma_count_at(s, k, ip);
                    if x == ip {
                        assert forall|j: int| 0 <= j < t.len() implies (#[trigger] t[j]).0 != x by {
                            let j2 = if j < k { j } else { j + 1 };
                            assert(t[j] == s[j2]);
                        }
                    } else if exists|j: int| 0 <= j < s.len() && (#[trigger] s[j]).0 == x {
                        let j = choose|j: int| 0 <= j < s.len() && (#[trigger] s[j]).0 == x;
                        lemma_count_at(s, j, x);
                        let j3 = if j < k { j } else { j - 1 };
                        assert(t[j3] == s[j]);
                        lemma_count_at(t, j3, x);
                    } else {
                        assert forall|j: int| 0 <= j < t.len() implies (#[trigger] t[j]).0 != x by {
                            let j2 = if j < k { j } else { j + 1 };
                            assert(t[j] == s[j2]);
                        }
                    }
                }
            } else {
                let t = s.update(k, (ip, c2));
                assert forall|x: ClientAddr| #[trigger] count_for(t, x) == if x == ip && count_for(s, x) > 0 {
                    (count_for(s, x) - 1) as nat
                } else {
                    count_for(s, x)
                } by {
                    lemma_count_at(s, k, ip);
                    if x == ip {
                        assert forall|i: int, j: int| 0 <= i < j < t.len() implies (#[trigger] t[i]).0 != (#[trigger] t[j]).0 by {
                            assert(t[i].0 == s[i].0);
                            assert(t[j].0 == s[j].0);
                        }
                        lemma_count_at(t, k, ip);
                    } else {
                        lemma_count_update(s, k, c2, x);
                    }
                }
            }
        },
    }
}

/// In every state that the limiter's operations keep, no client holds more
/// than the per-client limit and the total is within the total limit.
pub proof fn law_counts_within_limits(l: ConnectionLimiter)
    requires
        l.wf(),
    ensures
        forall|x: ClientAddr| #[trigger] count_for(l.connections@, x) <= l.max_connections_per_ip,
        total_connections(l.connections@) <= l.max_total_connections,
{
    assert forall|x: ClientAddr| #[trigger] count_for(l.connections@, x) <= l.max_connections_per_ip by {
        if exists|j: int| 0 <= j < l.connections@.len() && (#[trigger] l.connections@[j]).0 == x {
            let j = choose|j: int| 0 <= j < l.connections@.len() && (#[trigger] l.connections@[j]).0 == x;
            lemma_count_at(l.connections@, j, x);
        }
    }
}

/// With no time elapsed a bucket gains nothing: it keeps its tokens and
/// fraction, unless it is at or over its size, when it is full.
pub proof fn law_no_refill_without_time(tokens: nat, fraction: nat, max: nat, rate: nat)
    requires
        fraction < 1_000_000_000,
    ensures
        refilled(tokens, fraction, max, rate, 0) == if tokens >= max { (max, 0nat) } else { (tokens, fraction) },
{
    assert(0 * rate == 0);
    lemma_small_div_mod(fraction);
}

proof fn lemma_small_div_mod(f: nat)
    requires
        f < 1_000_000_000,
    ensures
        f / 1_000_000_000 == 0,
        f % 1_000_000_000 == f,
{
}

/// Refilling never goes past the bucket's size and never loses tokens below it.
pub proof fn law_refill_bounds(tokens: nat, fraction: nat, max: nat, rate: nat, e: nat)
    requires
        tokens <= max,
    ensures
        tokens <= refilled(tokens, fraction, max, rate, e).0 <= max,
        refilled(tokens, fraction, max, rate, e).1 < 1_000_000_000,
{
    assert(e * rate >= 0) by (nonlinear_arith);
}

/// Tokens are earned at the bucket's rate however the time is split: a
/// refill for `e1` and then for `e2` nanoseconds leaves the bucket as one
/// refill for `e1 + e2` does.
pub proof fn law_refill_adds_up(tokens: nat, fraction: nat, max: nat, rate: nat, e1: nat, e2: nat)
    ensures
        ({
            let (t1, f1) = refilled(tokens, fraction, max, rate, e1);
            refilled(t1, f1, max, rate, e2)
        }) == refilled(tokens, fraction, max, rate, e1 + e2),
{
    let d: int = 1_000_000_000;
    let a: int = (fraction + e1 * rate) as int;
    let b: int = (e2 * rate) as int;
    assert((e1 + e2) * rate == e1 * rate + e2 * rate) by (nonlinear_arith);
    assert(a >= 0 && b >= 0) by (nonlinear_arith)
        requires a == fraction + e1 * rate, b == e2 * rate;
    let q = a / d;
    let m = a % d;
    lemma_fundamental_div_mod(a, d);
    assert(a + b == d * q + (m + b));
    lemma_hoist_over_denominator(m + b, q, d as nat);
    assert((a + b) / d == q + (m + b) / d) by {
        assert(q * d == d * q) by (nonlinear_arith);
    }
    lemma_mod_multiples_vanish(q, m + b, d);
    assert((a + b) / d >= q) by {
        assert((m + b) / d >= 0) by {
            lemma_div_is_ordered(0, m + b, d);
        }
    }
    assert((0 + b) / d >= 0) by {
        lemma_div_is_ordered(0, b, d);
    }
}


proof fn lemma_div_split(a: int, b: int)
    requires
        a >= 0,
        b >= 0,
    ensures
        a / 1_000_000_000 + (a % 1_000_000_000 + b) / 1_000_000_000 == (a + b) / 1_000_000_000,
        (a % 1_000_000_000 + b) % 1_000_000_000 == (a + b) % 1_000_000_000,
{
    let d: int = 1_000_000_000;
    let q = a / d;
    let m = a % d;
    lemma_fundamental_div_mod(a, d);
    lemma_hoist_over_denominator(m + b, q, d as nat);
    assert(q * d == d * q) by (nonlinear_arith);
    assert(a + b == d * q + (m + b));
    lemma_mod_multiples_vanish(q, m + b, d);
}

/// The sum of the waits.
pub open spec fn total_wait(es: Seq<nat>) -> nat
    decreases es.len(),
{
    if es.len() == 0 {
        0
    } else {
        total_wait(es.drop_last()) + es.last()
    }
}

/// A request after each of the waits `es` in turn (in nanoseconds), from a
/// bucket holding `tokens` and `fraction`: how many requests passed, and
/// the tokens and fraction left.
pub open spec fn consume_run(tokens: nat, fraction: nat, max: nat, rate: nat, es: Seq<nat>) -> (nat, nat, nat)
    decreases es.len(),
{
    if es.len() == 0 {
        (0, tokens, fraction)
    } else {
        let (p, t, f) = consume_run(tokens, fraction, max, rate, es.drop_last());
        let (t2, f2) = refilled(t, f, max, rate, es.last());
        if t2 > 0 {
            (p + 1, (t2 - 1) as nat, f2)
        } else {
            (p, 0, f2)
        }
    }
}

/// Requests pass at the bucket's rate: over any run of requests in which
/// the bucket never fills up, the requests that passed and the tokens left
/// add up to the tokens held at the start and those earned over the whole
/// time, and the fraction left is what was earned beyond whole tokens.
pub proof fn law_tokens_conserved(tokens: nat, fraction: nat, max: nat, rate: nat, es: Seq<nat>)
    requires
        fraction < 1_000_000_000,
        tokens + (fraction + total_wait(es) * rate) / 1_000_000_000 < max,
    ensures
        ({
            let (p, t, f) = consume_run(tokens, fraction, max, rate, es);
            &&& p + t == tokens + (fraction + total_wait(es) * rate) / 1_000_000_000
            &&& f == (fraction + total_wait(es) * rate) % 1_000_000_000
        }),
    decreases es.len(),
{
    if es.len() > 0 {
        let d: int = 1_000_000_000;
        let prev = es.drop_last();
        let e = es.last();
        let before = (fraction + total_wait(prev) * rate) as int;
        let after = (fraction + total_wait(es) * rate) as int;
        assert(after == before + e * rate) by (nonlinear_arith)
            requires after == fraction + total_wait(es) * rate, before == fraction + total_wait(prev) * rate,
                total_wait(es) == total_wait(prev) + e;
        assert(e * rate >= 0) by (nonlinear_arith);
        lemma_div_is_ordered(before, after, d);
        law_tokens_conserved(tokens, fraction, max, rate, prev);
        let (p, t, f) = consume_run(tokens, fraction, max, rate, prev);
        let tot = (f + e * rate) as int;
        if prev.len() == 0 {
            assert(total_wait(prev) == 0);
            assert(before == fraction as int) by (nonlinear_arith)
                requires before == fraction + total_wait(prev) * rate, total_wait(prev) == 0;
            assert(f == fraction && t == tokens && p == 0);
            assert(tot == after);
        } else {
            lemma_div_split(before, (e * rate) as int);
        }
        assert(t + tot / d < max);
        assert(refilled(t, f, max, rate, e) == ((t + tot / d) as nat, (tot % d) as nat));
    } else {
        assert(total_wait(es) == 0);
        assert(fraction + total_wait(es) * rate == fraction) by (nonlinear_arith)
            requires total_wait(es) == 0;
    }
}

/// Requests that come no faster than tokens are earned pass at the
/// bucket's rate: from an empty bucket of size two or more, when no wait
/// earns more than one token, the requests that pass are exactly the whole
/// tokens earned over the total time, and the bucket stays empty.
pub proof fn law_steady_rate(max: nat, rate: nat, es: Seq<nat>)
    requires
        max >= 2,
        forall|i: int| 0 <= i < es.len() ==> #[trigger] es[i] * rate <= 1_000_000_000,
    ensures
        consume_run(0, 0, max, rate, es) == ((total_wait(es) * rate) / 1_000_000_000, 0nat, (total_wait(es) * rate)
            % 1_000_000_000),
    decreases es.len(),
{
    let d: int = 1_000_000_000;
    if es.len() == 0 {
        assert(total_wait(es) * rate == 0) by (nonlinear_arith)
            requires total_wait(es) == 0;
    } else {
        let prev = es.drop_last();
        let e = es.last();
        assert forall|i: int| 0 <= i < prev.len() implies #[trigger] prev[i] * rate <= 1_000_000_000 by {
            assert(prev[i] == es[i]);
        }
        law_steady_rate(max, rate, prev);
        assert(es[es.len() - 1] * rate <= 1_000_000_000);
        let before = (total_wait(prev) * rate) as int;
        let er = (e * rate) as int;
        assert(total_wait(es) * rate == before + er) by (nonlinear_arith)
            requires total_wait(es) == total_wait(prev) + e, before == total_wait(prev) * rate, er == e * rate;
        assert(before >= 0 && er >= 0) by (nonlinear_arith)
            requires before == total_wait(prev) * rate, er == e * rate;
        lemma_div_split(before, er);
        let f = before % d;
        assert(f + er < 2 * d);
        assert((f + er) / d <= 1);
    }
}

/// A run of requests grows one take at a time: a take that answers `r` and
/// leaves `left` and `left_fraction` (as `try_consume_after`, `try_consume`
/// and `is_allowed` state it) after the run `es` is the run `es` followed
/// by its wait.
pub proof fn law_run_extends(tokens: nat, fraction: nat, max: nat, rate: nat, es: Seq<nat>, e: nat, r: bool,
    left: u32, left_fraction: u32)
    requires
        consume_outcome(consume_run(tokens, fraction, max, rate, es).1, consume_run(tokens, fraction, max, rate,
            es).2, max, rate, e, r, left, left_fraction),
    ensures
        consume_run(tokens, fraction, max, rate, es.push(e)) == (consume_run(tokens, fraction, max, rate, es).0 + if r {
            1nat
        } else {
            0nat
        }, left as nat, left_fraction as nat),
{
    assert(es.push(e).drop_last() =~= es);
}
} // verus!
