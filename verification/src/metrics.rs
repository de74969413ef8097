//! Server metrics and their Prometheus text exposition.

use vstd::prelude::*;
use std::time::Instant;
use crate::clock::{instant_now, elapsed_since, duration_secs, unix_now_secs};
use vstd::arithmetic::div_mod::lemma_fundamental_div_mod;
use crate::text::{dec, digit_char, push_str, push_u64, str_eq, string_push, contains, lit_at, ends_with};

verus! {

/// Counts by name, in the order the names were first counted.
pub open spec fn names_distinct(m: Seq<(String, u64)>) -> bool {
    forall|i: int, j: int| 0 <= i < j < m.len() ==> (#[trigger] m[i]).0@ != (#[trigger] m[j]).0@
}

/// The count recorded for `name`.
pub open spec fn count_of(m: Seq<(String, u64)>, name: Seq<char>) -> nat
    decreases m.len(),
{
    if m.len() == 0 {
        0
    } else {
        count_of(m.drop_last(), name) + if m.last().0@ == name {
            m.last().1 as nat
        } else {
            0
        }
    }
}

/// The sum of all counts.
pub open spec fn count_sum(m: Seq<(String, u64)>) -> nat
    decreases m.len(),
{
    if m.len() == 0 {
        0
    } else {
        count_sum(m.drop_last()) + m.last().1 as nat
    }
}

proof fn lemma_count_update(m: Seq<(String, u64)>, k: int, x: (String, u64), name: Seq<char>)
    requires
        0 <= k < m.len(),
        x.0@ == m[k].0@,
    ensures
        count_of(m.update(k, x), name) == count_of(m, name) - (if m[k].0@ == name { m[k].1 as int } else { 0 })
            + (if x.0@ == name { x.1 as int } else { 0 }),
        count_sum(m.update(k, x)) == count_sum(m) - m[k].1 + x.1,
    decreases m.len(),
{
    if k < m.len() - 1 {
        lemma_count_update(m.drop_last(), k, x, name);
        assert(m.update(k, x).drop_last() == m.drop_last().update(k, x));
    } else {
        assert(m.update(k, x).drop_last() == m.drop_last());
    }
}

proof fn lemma_count_absent(m: Seq<(String, u64)>, name: Seq<char>)
    requires
        forall|j: int| 0 <= j < m.len() ==> (#[trigger] m[j]).0@ != name,
    ensures
        count_of(m, name) == 0,
    decreases m.len(),
{
    if m.len() > 0 {
        lemma_count_absent(m.drop_last(), name);
    }
}

proof fn lemma_count_at(m: Seq<(String, u64)>, k: int)
    requires
        names_distinct(m),
        0 <= k < m.len(),
    ensures
        count_of(m, m[k].0@) == m[k].1,
    decreases m.len(),
{
    if k < m.len() - 1 {
        lemma_count_at(m.drop_last(), k);
        assert(m.last().0@ != m[k].0@);
    } else {
        assert forall|j: int| 0 <= j < m.drop_last().len() implies (#[trigger] m.drop_last()[j]).0@ != m[k].0@ by {
            assert(m.drop_last()[j] == m[j]);
        }
        lemma_count_absent(m.drop_last(), m[k].0@);
    }
}

fn find_name(m: &Vec<(String, u64)>, name: &str) -> (r: Option<usize>)
    ensures
        match r {
            Some(k) => k < m@.len() && m@[k as int].0@ == name@,
            None => forall|j: int| 0 <= j < m@.len() ==> (#[trigger] m@[j]).0@ != name@,
        },
{
    let n = m.len();
    let mut k: usize = 0;
    while k < n
        invariant
            n == m@.len(),
            k <= n,
            forall|j: int| 0 <= j < k ==> (#[trigger] m@[j]).0@ != name@,
        decreases n - k,
    {
        if str_eq(m[k].0.as_str(), name) {
            return Some(k);
        }
        k += 1;
    }
    None
}

/// Counts `name` once more.
fn count_once(m: &mut Vec<(String, u64)>, name: &str)
    requires
        names_distinct(old(m)@),
        count_of(old(m)@, name@) < u64::MAX,
    ensures
        names_distinct(final(m)@),
        forall|x: Seq<char>| #[trigger] count_of(final(m)@, x) == count_of(old(m)@, x) + if x == name@ { 1int } else { 0 },
        count_sum(final(m)@) == count_sum(old(m)@) + 1,
{
    match find_name(m, name) {
        Some(k) => {
            let c = m[k].1;
            proof {
                lemma_count_at(m@, k as int);
            }
            let key = m[k].0.clone();
            let ghost before = m@;
            m.set(k, (key, c + 1));
            proof {
                assert forall|x: Seq<char>| #[trigger] count_of(m@, x) == count_of(before, x) + if x == name@ { 1int } else { 0 } by {
                    lemma_count_update(before, k as int, (key, (c + 1) as u64), x);
                }
                lemma_count_update(before, k as int, (key, (c + 1) as u64), name@);
                assert forall|i: int, j: int| 0 <= i < j < m@.len() implies (#[trigger] m@[i]).0@ != (#[trigger] m@[j]).0@ by {
                    assert(m@[i].0@ == before[i].0@);
                    assert(m@[j].0@ == before[j].0@);
                }
            }
        },
        None => {
            let ghost before = m@;
            m.push((String::from_str(name), 1));
            proof {
                assert(m@.drop_last() == before);
                assert forall|i: int, j: int| 0 <= i < j < m@.len() implies (#[trigger] m@[i]).0@ != (#[trigger] m@[j]).0@ by {
                    if j == before.len() {
                        assert(m@[i] == before[i]);
                    } else {
                        assert(m@[i] == before[i]);
                        assert(m@[j] == before[j]);
                    }
                }
            }
        },
    }
}

/// Counters of the server's activity.
pub struct Metrics {
    pub start_time: Instant,
    pub request_count: u64,
    /// Requests per endpoint, in first-seen order.
    pub requests_by_endpoint: Vec<(String, u64)>,
    pub bytes_served: u64,
    pub cache_hits: u64,
    pub cache_misses: u64,
    pub active_streams: u64,
    pub transcode_operations: u64,
    /// Errors per type, in first-seen order.
    pub errors_by_type: Vec<(String, u64)>,
}

impl Metrics {
    /// Each endpoint and error type is listed once, and the requests per
    /// endpoint add up to the request count.
    pub open spec fn wf(&self) -> bool {
        &&& names_distinct(self.requests_by_endpoint@)
        &&& names_distinct(self.errors_by_type@)
        &&& count_sum(self.requests_by_endpoint@) == self.request_count
    }

    pub fn new() -> (r: Metrics)
        ensures
            r.wf(),
            r.request_count == 0,
            r.requests_by_endpoint@.len() == 0,
            r.bytes_served == 0,
            r.cache_hits == 0,
            r.cache_misses == 0,
            r.active_streams == 0,
            r.transcode_operations == 0,
            r.errors_by_type@.len() == 0,
    {
        Metrics {
            start_time: instant_now(),
            request_count: 0,
            requests_by_endpoint: Vec::new(),
            bytes_served: 0,
            cache_hits: 0,
            cache_misses: 0,
            active_streams: 0,
            transcode_operations: 0,
            errors_by_type: Vec::new(),
        }
    }

    /// Counts a request to `endpoint`.
    pub fn record_request(&mut self, endpoint: &str)
        requires
            old(self).wf(),
            old(self).request_count < u64::MAX,
        ensures
            final(self).wf(),
            final(self).request_count == old(self).request_count + 1,
            forall|x: Seq<char>| #[trigger] count_of(final(self).requests_by_endpoint@, x)
                == count_of(old(self).requests_by_endpoint@, x) + if x == endpoint@ { 1int } else { 0 },
            final(self).errors_by_type@ == old(self).errors_by_type@,
            final(self).bytes_served == old(self).bytes_served,
            final(self).cache_hits == old(self).cache_hits,
            final(self).cache_misses == old(self).cache_misses,
            final(self).active_streams == old(self).active_streams,
            final(self).transcode_operations == old(self).transcode_operations,
    {
        proof {
            lemma_count_le_sum(self.requests_by_endpoint@, endpoint@);
        }
        self.request_count = self.request_count + 1;
        count_once(&mut self.requests_by_endpoint, endpoint);
    }

    /// The requests counted for `endpoint`, if any.
    pub fn endpoint_requests(&self, endpoint: &str) -> (r: Option<u64>)
        requires
            self.wf(),
        ensures
            match r {
                Some(c) => c == count_of(self.requests_by_endpoint@, endpoint@),
                None => count_of(self.requests_by_endpoint@, endpoint@) == 0,
            },
    {
        match find_name(&self.requests_by_endpoint, endpoint) {
            Some(k) => {
                proof {
                    lemma_count_at(self.requests_by_endpoint@, k as int);
                }
                Some(self.requests_by_endpoint[k].1)
            },
            None => {
                proof {
                    lemma_count_absent(self.requests_by_endpoint@, endpoint@);
                }
                None
            },
        }
    }

    /// The errors counted of `error_type`, if any.
    pub fn error_count(&self, error_type: &str) -> (r: Option<u64>)
        requires
            self.wf(),
        ensures
            match r {
                Some(c) => c == count_of(self.errors_by_type@, error_type@),
                None => count_of(self.errors_by_type@, error_type@) == 0,
            },
    {
        match find_name(&self.errors_by_type, error_type) {
            Some(k) => {
                proof {
                    lemma_count_at(self.errors_by_type@, k as int);
                }
                Some(self.errors_by_type[k].1)
            },
            None => {
                proof {
                    lemma_count_absent(self.errors_by_type@, error_type@);
                }
                None
            },
        }
    }

    /// Counts bytes sent.
    pub fn record_bytes(&mut self, bytes: u64)
        requires
            old(self).bytes_served + bytes <= u64::MAX,
        ensures
            final(self).bytes_served == old(self).bytes_served + bytes,
            final(self).request_count == old(self).request_count,
            final(self).requests_by_endpoint@ == old(self).requests_by_endpoint@,
            final(self).errors_by_type@ == old(self).errors_by_type@,
            final(self).cache_hits == old(self).cache_hits,
            final(self).cache_misses == old(self).cache_misses,
            final(self).active_streams == old(self).active_streams,
            final(self).transcode_operations == old(self).transcode_operations,
    {
        self.bytes_served = self.bytes_served + bytes;
    }

    /// Counts a cache hit.
    pub fn record_cache_hit(&mut self)
        requires
            old(self).cache_hits < u64::MAX,
        ensures
            final(self).cache_hits == old(self).cache_hits + 1,
            final(self).request_count == old(self).request_count,
            final(self).requests_by_endpoint@ == old(self).requests_by_endpoint@,
            final(self).errors_by_type@ == old(self).errors_by_type@,
            final(self).bytes_served == old(self).bytes_served,
            final(self).cache_misses == old(self).cache_misses,
            final(self).active_streams == old(self).active_streams,
            final(self).transcode_operations == old(self).transcode_operations,
    {
        self.cache_hits = self.cache_hits + 1;
    }

    /// Counts a cache miss.
    pub fn record_cache_miss(&mut self)
        requires
            old(self).cache_misses < u64::MAX,
        ensures
            final(self).cache_misses == old(self).cache_misses + 1,
            final(self).request_count == old(self).request_count,
            final(self).requests_by_endpoint@ == old(self).requests_by_endpoint@,
            final(self).errors_by_type@ == old(self).errors_by_type@,
            final(self).bytes_served == old(self).bytes_served,
            final(self).cache_hits == old(self).cache_hits,
            final(self).active_streams == old(self).active_streams,
            final(self).transcode_operations == old(self).transcode_operations,
    {
        self.cache_misses = self.cache_misses + 1;
    }

    /// Sets the number of active streams.
    pub fn set_active_streams(&mut self, count: u64)
        ensures
            final(self).active_streams == count,
            final(self).request_count == old(self).request_count,
            final(self).requests_by_endpoint@ == old(self).requests_by_endpoint@,
            final(self).errors_by_type@ == old(self).errors_by_type@,
            final(self).bytes_served == old(self).bytes_served,
            final(self).cache_hits == old(self).cache_hits,
            final(self).cache_misses == old(self).cache_misses,
            final(self).transcode_operations == old(self).transcode_operations,
    {
        self.active_streams = count;
    }

    /// Counts a transcoding run.
    pub fn record_transcode(&mut self)
        requires
            old(self).transcode_operations < u64::MAX,
        ensures
            final(self).transcode_operations == old(self).transcode_operations + 1,
            final(self).request_count == old(self).request_count,
            final(self).requests_by_endpoint@ == old(self).requests_by_endpoint@,
            final(self).errors_by_type@ == old(self).errors_by_type@,
            final(self).bytes_served == old(self).bytes_served,
            final(self).cache_hits == old(self).cache_hits,
            final(self).cache_misses == old(self).cache_misses,
            final(self).active_streams == old(self).active_streams,
    {
        self.transcode_operations = self.transcode_operations + 1;
    }

    /// Counts an error of `error_type`.
    pub fn record_error(&mut self, error_type: &str)
        requires
            old(self).wf(),
            count_of(old(self).errors_by_type@, error_type@) < u64::MAX,
        ensures
            final(self).wf(),
            forall|x: Seq<char>| #[trigger] count_of(final(self).errors_by_type@, x)
                == count_of(old(self).errors_by_type@, x) + if x == error_type@ { 1int } else { 0 },
            final(self).request_count == old(self).request_count,
            final(self).requests_by_endpoint@ == old(self).requests_by_endpoint@,
            final(self).bytes_served == old(self).bytes_served,
            final(self).cache_hits == old(self).cache_hits,
            final(self).cache_misses == old(self).cache_misses,
            final(self).active_streams == old(self).active_streams,
            final(self).transcode_operations == old(self).transcode_operations,
    {
        count_once(&mut self.errors_by_type, error_type);
    }

    /// Whole seconds since the metrics were created.
    pub fn uptime_secs(&self) -> (r: u64) {
        let d = elapsed_since(&self.start_time);
        duration_secs(&d)
    }
}

proof fn lemma_count_le_sum(m: Seq<(String, u64)>, name: Seq<char>)
    ensures
        count_of(m, name) <= count_sum(m),
    decreases m.len(),
{
    if m.len() > 0 {
        lemma_count_le_sum(m.drop_last(), name);
    }
}

/// `prefix` + name + `"} ` + count, one line per name.
pub open spec fn labeled_lines(prefix: Seq<char>, m: Seq<(String, u64)>, n: nat) -> Seq<char>
    decreases n,
{
    if n == 0 {
        Seq::empty()
    } else {
        labeled_lines(prefix, m, (n - 1) as nat) + prefix + m[n - 1].0@ + "\"} "@ + dec(m[n - 1].1 as nat)
            + "\n"@
    }
}

/// Four decimal digits of `x`, with leading zeros.
pub open spec fn four_digits(x: nat) -> Seq<char> {
    seq![digit_char((x / 1000) % 10), digit_char((x / 100) % 10), digit_char((x / 10) % 10), digit_char(x % 10)]
}

/// `2` to the power `e`.
pub open spec fn two_pow(e: nat) -> nat
    decreases e,
{
    if e == 0 {
        1
    } else {
        2 * two_pow((e - 1) as nat)
    }
}

/// `num / den` rounded to the nearest whole number, ties to the even one.
pub open spec fn round_even(num: nat, den: nat) -> nat {
    let q = num / den;
    let r = num % den;
    if 2 * r > den || (2 * r == den && q % 2 == 1) {
        q + 1
    } else {
        q
    }
}

/// The least `s`, from `s` on, for which `n / 2^s` has fewer than 53 bits.
pub open spec fn int_shift(n: nat, s: nat) -> nat
    decreases n - s,
{
    if s >= n || n / two_pow(s) < 9007199254740992 {
        s
    } else {
        int_shift(n, s + 1)
    }
}

/// The double-precision number nearest to the whole number `n` (ties to
/// even), as `n as f64` gives it: `n` itself below `2^53`.
pub open spec fn int_to_double(n: nat) -> nat {
    let s = int_shift(n, 0);
    round_even(n, two_pow(s)) * two_pow(s)
}

/// The least `e`, from `e` on, for which `a * 2^e` is at least `2^52 * b`.
pub open spec fn scale_exp(a: nat, b: nat, e: nat) -> nat
    decreases 4503599627370496 * b - e,
{
    if e >= 4503599627370496 * b || a * two_pow(e) >= 4503599627370496 * b {
        e
    } else {
        scale_exp(a, b, e + 1)
    }
}

/// The hit ratio in ten-thousandths, as printing `hits as f64 / (hits +
/// misses) as f64` with four decimals gives it: the quotient of the two
/// doubles is rounded to the nearest double (`m / 2^e`, `m` of 53 bits),
/// whose exact value is rounded to four decimals, ties to even.
pub open spec fn ratio_ten_thousandths(hits: nat, misses: nat) -> nat {
    let a = int_to_double(hits);
    let b = int_to_double(hits + misses);
    if hits == 0 {
        0
    } else if a >= b {
        10000
    } else {
        let e = scale_exp(a, b, 0);
        round_even(round_even(a * two_pow(e), b) * 10000, two_pow(e))
    }
}

/// The hit ratio `hits / (hits + misses)` with four decimals; `0.0000`
/// without lookups.
pub open spec fn ratio_text(hits: nat, misses: nat) -> Seq<char> {
    let k = ratio_ten_thousandths(hits, misses);
    dec(k / 10000) + "."@ + four_digits(k % 10000)
}

pub open spec fn start_time(unix_now: u64, uptime: u64) -> nat {
    if unix_now >= uptime {
        (unix_now - uptime) as nat
    } else {
        0
    }
}

pub open spec fn prometheus_text(m: Metrics, uptime: u64, unix_now: u64) -> Seq<char> {
    "# HELP hls_server_uptime_seconds Server uptime in seconds\n# TYPE hls_server_uptime_seconds counter\nhls_server_uptime_seconds "@
        + dec(uptime as nat) + "\n"@
    + "\n# HELP hls_server_start_time_seconds Server start time as Unix timestamp\n# TYPE hls_server_start_time_seconds gauge\nhls_server_start_time_seconds "@
        + dec(start_time(unix_now, uptime)) + "\n"@
    + "\n# HELP hls_requests_total Total number of HTTP requests\n# TYPE hls_requests_total counter\nhls_requests_total "@
        + dec(m.request_count as nat) + "\n"@
    + "\n# HELP hls_requests_by_endpoint Requests by endpoint\n# TYPE hls_requests_by_endpoint counter\n"@
        + labeled_lines("hls_requests_by_endpoint{endpoint=\""@, m.requests_by_endpoint@, m.requests_by_endpoint@.len())
    + "\n# HELP hls_bytes_served_total Total bytes served\n# TYPE hls_bytes_served_total counter\nhls_bytes_served_total "@
        + dec(m.bytes_served as nat) + "\n"@
    + "\n# HELP hls_cache_hits_total Total cache hits\n# TYPE hls_cache_hits_total counter\nhls_cache_hits_total "@
        + dec(m.cache_hits as nat) + "\n"@
    + "\n# HELP hls_cache_misses_total Total cache misses\n# TYPE hls_cache_misses_total counter\nhls_cache_misses_total "@
        + dec(m.cache_misses as nat) + "\n"@
    + "\n# HELP hls_cache_hit_ratio Cache hit ratio\n# TYPE hls_cache_hit_ratio gauge\nhls_cache_hit_ratio "@
        + ratio_text(m.cache_hits as nat, m.cache_misses as nat) + "\n"@
    + "\n# HELP hls_active_streams Number of active streams\n# TYPE hls_active_streams gauge\nhls_active_streams "@
        + dec(m.active_streams as nat) + "\n"@
    + "\n# HELP hls_transcode_operations_total Total transcoding operations\n# TYPE hls_transcode_operations_total counter\nhls_transcode_operations_total "@
        + dec(m.transcode_operations as nat) + "\n"@
    + "\n# HELP hls_errors_total Total errors by type\n# TYPE hls_errors_total counter\n"@
        + labeled_lines("hls_errors_total{type=\""@, m.errors_by_type@, m.errors_by_type@.len())
}

fn push_labeled_lines(out: &mut String, prefix: &str, m: &Vec<(String, u64)>)
    ensures
        final(out)@ == old(out)@ + labeled_lines(prefix@, m@, m@.len()),
{
    let n = m.len();
    let mut k: usize = 0;
    while k < n
        invariant
            n == m@.len(),
            k <= n,
            out@ == old(out)@ + labeled_lines(prefix@, m@, k as nat),
        decreases n - k,
    {
        let ghost before = out@;
        push_str(out, prefix);
        push_str(out, m[k].0.as_str());
        push_str(out, "\"} ");
        push_u64(out, m[k].1);
        push_str(out, "\n");
        assert(out@ =~= old(out)@ + labeled_lines(prefix@, m@, (k + 1) as nat));
        k += 1;
    }
}

fn digit(d: u128) -> (c: char)
    requires
        d < 10,
    ensures
        c == digit_char(d as nat),
{
    let b: u8 = d as u8 + 48;
    b as char
}

proof fn lemma_two_pow_grows(e: nat)
    ensures
        two_pow(e) > e,
        two_pow(e) >= 1,
    decreases e,
{
    if e > 0 {
        lemma_two_pow_grows((e - 1) as nat);
    }
}

proof fn lemma_round_even_bounds(num: nat, den: nat)
    requires
        den > 0,
    ensures
        num / den <= round_even(num, den) <= num / den + 1,
{
}

proof fn lemma_round_even_at_most(num: nat, den: nat, c: nat)
    requires
        den > 0,
        num <= c * den,
    ensures
        round_even(num, den) <= c,
{
    let q = num / den;
    let r = num % den;
    assert(num == den * q + r) by {
        lemma_fundamental_div_mod(num as int, den as int);
    }
    assert(q <= c) by (nonlinear_arith)
        requires num == den * q + r, num <= c * den, den > 0, r >= 0;
    if q == c {
        assert(r == 0) by (nonlinear_arith)
            requires num == den * q + r, num <= c * den, q == c, r >= 0;
    }
}

fn round_even_exec(num: u128, den: u128) -> (r: u128)
    requires
        den > 0,
        num / den < 0xffff_ffff_ffff_ffff_ffff_ffff_ffff_ffff,
    ensures
        r == round_even(num as nat, den as nat),
{
    let q = num / den;
    let r = num % den;
    if r > den - r || (r == den - r && q % 2 == 1) {
        q + 1
    } else {
        q
    }
}

/// `n as f64`, as a whole number.
fn double_of(n: u128) -> (r: u128)
    requires
        n < 0x4_0000_0000_0000_0000,
    ensures
        r == int_to_double(n as nat),
        r <= 0x8_0000_0000_0000_0000,
        n >= 1 ==> r >= 1,
{
    let mut s: u32 = 0;
    let mut p: u128 = 1;
    while n / p >= 9007199254740992
        invariant
            n < 0x4_0000_0000_0000_0000,
            p == two_pow(s as nat),
            1 <= p <= 0x4000,
            int_shift(n as nat, 0) == int_shift(n as nat, s as nat),
            s == 0 || n >= p * 4503599627370496,
        decreases 0x4000 - p,
    {
        proof {
            lemma_two_pow_grows(s as nat);
            assert(n >= p * 9007199254740992) by {
                lemma_fundamental_div_mod(n as int, p as int);
                assert((n / p) * p >= 9007199254740992 * p) by (nonlinear_arith)
                    requires n / p >= 9007199254740992, p >= 1;
            }
            assert(p < 0x2000) by (nonlinear_arith)
                requires n >= p * 9007199254740992, n < 0x4_0000_0000_0000_0000;
            assert(s < n);
        }
        p = p * 2;
        s = s + 1;
    }
    proof {
        lemma_two_pow_grows(s as nat);
        if s as nat >= n {
        } else {
        }
        assert(int_shift(n as nat, s as nat) == s);
        lemma_round_even_bounds(n as nat, p as nat);
        assert((n / p) * p <= n) by {
            lemma_fundamental_div_mod(n as int, p as int);
        }
        assert(round_even(n as nat, p as nat) * p <= 0x8_0000_0000_0000_0000) by (nonlinear_arith)
            requires round_even(n as nat, p as nat) <= n / p + 1, n / p < 9007199254740992, p <= 0x4000;
        if n >= 1 {
            if s == 0 {
                assert(two_pow(0) == 1);
                assert(p == 1);
                assert(n / 1 == n);
            } else {
                assert(n / p >= 1) by (nonlinear_arith)
                    requires n >= p * 4503599627370496, p >= 1;
            }
            assert(round_even(n as nat, p as nat) * p >= 1) by (nonlinear_arith)
                requires round_even(n as nat, p as nat) >= 1, p >= 1;
        }
    }
    let m = round_even_exec(n, p);
    m * p
}

/// The hit ratio in ten-thousandths.
fn ratio_digits(hits: u64, misses: u64) -> (k: u128)
    ensures
        k == ratio_ten_thousandths(hits as nat, misses as nat),
        k <= 10000,
{
    if hits == 0 {
        return 0;
    }
    let n: u128 = hits as u128 + misses as u128;
    let a = double_of(hits as u128);
    let b = double_of(n);
    if a >= b {
        return 10000;
    }
    let target: u128 = b * 4503599627370496;
    let mut a2: u128 = a;
    let mut p: u128 = 1;
    let mut e: u128 = 0;
    while a2 < target
        invariant
            1 <= a < b <= 0x8_0000_0000_0000_0000,
            target == b * 4503599627370496,
            a2 == a * two_pow(e as nat),
            p == two_pow(e as nat),
            a2 < 2 * target,
            (e as nat) < a2 || e == 0,
            scale_exp(a as nat, b as nat, 0) == scale_exp(a as nat, b as nat, e as nat),
        decreases 2 * target - a2,
    {
        proof {
            lemma_two_pow_grows(e as nat);
            assert(a2 >= two_pow(e as nat)) by (nonlinear_arith)
                requires a2 == a * two_pow(e as nat), a >= 1;
            assert(p <= a2);
        }
        a2 = a2 * 2;
        p = p * 2;
        e = e + 1;
        proof {
            assert(a2 == a * two_pow(e as nat)) by (nonlinear_arith)
                requires a2 == 2 * (a * two_pow((e - 1) as nat)), two_pow(e as nat) == 2 * two_pow((e - 1) as nat);
        }
    }
    proof {
        lemma_two_pow_grows(e as nat);
        assert(scale_exp(a as nat, b as nat, e as nat) == e);
        assert(a2 / b < 9007199254740992) by (nonlinear_arith)
            requires a2 < 2 * (b * 4503599627370496), b >= 1;
        lemma_round_even_bounds(a2 as nat, b as nat);
        assert(a2 < b * p) by (nonlinear_arith)
            requires a2 == a * p, a < b, p >= 1;
        assert(a2 / b < p) by (nonlinear_arith)
            requires a2 < b * p, b >= 1;
    }
    let m = round_even_exec(a2, b);
    proof {
        assert(m * 10000 <= 10000 * p) by (nonlinear_arith)
            requires m <= p;
        lemma_round_even_at_most((m * 10000) as nat, p as nat, 10000);
    }
    round_even_exec(m * 10000, p)
}

fn push_ratio(out: &mut String, hits: u64, misses: u64)
    ensures
        final(out)@ == old(out)@ + ratio_text(hits as nat, misses as nat),
{
    let k = ratio_digits(hits, misses);
    push_u64(out, (k / 10000) as u64);
    push_str(out, ".");
    let r = k % 10000;
    string_push(out, digit((r / 1000) % 10));
    string_push(out, digit((r / 100) % 10));
    string_push(out, digit((r / 10) % 10));
    string_push(out, digit(r % 10));
    assert(out@ =~= old(out)@ + ratio_text(hits as nat, misses as nat));
}

fn push_counter(out: &mut String, head: &str, v: u64)
    ensures
        final(out)@ == old(out)@ + head@ + dec(v as nat) + "\n"@,
{
    push_str(out, head);
    push_u64(out, v);
    push_str(out, "\n");
}

impl Metrics {
    /// The metrics in the Prometheus text format, for the given uptime and
    /// wall-clock time (both in seconds).  Endpoints and error types come in
    /// the order they were first counted.
    pub fn render_prometheus(&self, uptime: u64, unix_now: u64) -> (r: String)
        ensures
            r@ == prometheus_text(*self, uptime, unix_now),
    {
        let mut out = String::new();
        push_counter(&mut out, "# HELP hls_server_uptime_seconds Server uptime in seconds\n# TYPE hls_server_uptime_seconds counter\nhls_server_uptime_seconds ", uptime);
        let start: u64 = if unix_now >= uptime { unix_now - uptime } else { 0 };
        push_counter(&mut out, "\n# HELP hls_server_start_time_seconds Server start time as Unix timestamp\n# TYPE hls_server_start_time_seconds gauge\nhls_server_start_time_seconds ", start);
        push_counter(&mut out, "\n# HELP hls_requests_total Total number of HTTP requests\n# TYPE hls_requests_total counter\nhls_requests_total ", self.request_count);
        push_str(&mut out, "\n# HELP hls_requests_by_endpoint Requests by endpoint\n# TYPE hls_requests_by_endpoint counter\n");
        push_labeled_lines(&mut out, "hls_requests_by_endpoint{endpoint=\"", &self.requests_by_endpoint);
        let ghost part1 = out@;
        push_counter(&mut out, "\n# HELP hls_bytes_served_total Total bytes served\n# TYPE hls_bytes_served_total counter\nhls_bytes_served_total ", self.bytes_served);
        push_counter(&mut out, "\n# HELP hls_cache_hits_total Total cache hits\n# TYPE hls_cache_hits_total counter\nhls_cache_hits_total ", self.cache_hits);
        push_counter(&mut out, "\n# HELP hls_cache_misses_total Total cache misses\n# TYPE hls_cache_misses_total counter\nhls_cache_misses_total ", self.cache_misses);
        push_str(&mut out, "\n# HELP hls_cache_hit_ratio Cache hit ratio\n# TYPE hls_cache_hit_ratio gauge\nhls_cache_hit_ratio ");
        push_ratio(&mut out, self.cache_hits, self.cache_misses);
        push_str(&mut out, "\n");
        let ghost part2 = out@;
        push_counter(&mut out, "\n# HELP hls_active_streams Number of active streams\n# TYPE hls_active_streams gauge\nhls_active_streams ", self.active_streams);
        push_counter(&mut out, "\n# HELP hls_transcode_operations_total Total transcoding operations\n# TYPE hls_transcode_operations_total counter\nhls_transcode_operations_total ", self.transcode_operations);
        push_str(&mut out, "\n# HELP hls_errors_total Total errors by type\n# TYPE hls_errors_total counter\n");
        push_labeled_lines(&mut out, "hls_errors_total{type=\"", &self.errors_by_type);
        assert(out@ =~= prometheus_text(*self, uptime, unix_now));
        out
    }

    /// The metrics in the Prometheus text format, now.
    pub fn export_prometheus(&self) -> (r: String)
        ensures
            exists|uptime: u64, unix_now: u64| r@ == #[trigger] prometheus_text(*self, uptime, unix_now),
    {
        let uptime = self.uptime_secs();
        let now = unix_now_secs();
        self.render_prometheus(uptime, now)
    }
}


proof fn lemma_lit_contained(big: Seq<char>, pat: Seq<char>, i: int)
    requires
        0 <= i,
        i + pat.len() <= big.len(),
        big.subrange(i, i + pat.len()) =~= pat,
    ensures
        contains(big, pat),
{
    assert(lit_at(big, i, pat));
}

broadcast proof fn lemma_contained_in_concat(a: Seq<char>, b: Seq<char>, pat: Seq<char>)
    ensures
        (contains(a, pat) || contains(b, pat)) ==> #[trigger] contains(a + b, pat),
{
    if contains(a, pat) {
        let i = choose|i: int| 0 <= i <= a.len() - pat.len() && #[trigger] lit_at(a, i, pat);
        assert((a + b).subrange(i, i + pat.len()) =~= a.subrange(i, i + pat.len()));
        assert(lit_at(a + b, i, pat));
    } else if contains(b, pat) {
        let i = choose|i: int| 0 <= i <= b.len() - pat.len() && #[trigger] lit_at(b, i, pat);
        assert((a + b).subrange(a.len() + i, a.len() + i + pat.len()) =~= b.subrange(i, i + pat.len()));
        assert(lit_at(a + b, a.len() + i, pat));
    }
}

/// Every metric of the exported text has its `# TYPE` line: uptime,
/// requests, bytes served, cache hits and misses, hit ratio, active
/// streams, transcode operations and errors, whatever the counters hold.
pub proof fn law_every_metric_typed(m: Metrics, uptime: u64, unix_now: u64)
    ensures
        contains(prometheus_text(m, uptime, unix_now), "\n# TYPE hls_server_uptime_seconds "@),
        contains(prometheus_text(m, uptime, unix_now), "\n# TYPE hls_requests_total "@),
        contains(prometheus_text(m, uptime, unix_now), "\n# TYPE hls_bytes_served_total "@),
        contains(prometheus_text(m, uptime, unix_now), "\n# TYPE hls_cache_hits_total "@),
        contains(prometheus_text(m, uptime, unix_now), "\n# TYPE hls_cache_misses_total "@),
        contains(prometheus_text(m, uptime, unix_now), "\n# TYPE hls_cache_hit_ratio "@),
        contains(prometheus_text(m, uptime, unix_now), "\n# TYPE hls_active_streams "@),
        contains(prometheus_text(m, uptime, unix_now), "\n# TYPE hls_transcode_operations_total "@),
        contains(prometheus_text(m, uptime, unix_now), "\n# TYPE hls_errors_total "@),
{
    broadcast use lemma_contained_in_concat;
    reveal_strlit("# HELP hls_server_uptime_seconds Server uptime in seconds\n# TYPE hls_server_uptime_seconds counter\nhls_server_uptime_seconds ");
    reveal_strlit("\n# TYPE hls_server_uptime_seconds ");
    lemma_lit_contained("# HELP hls_server_uptime_seconds Server uptime in seconds\n# TYPE hls_server_uptime_seconds counter\nhls_server_uptime_seconds "@, "\n# TYPE hls_server_uptime_seconds "@, 57);
    reveal_strlit("\n# HELP hls_requests_total Total number of HTTP requests\n# TYPE hls_requests_total counter\nhls_requests_total ");
    reveal_strlit("\n# TYPE hls_requests_total ");
    lemma_lit_contained("\n# HELP hls_requests_total Total number of HTTP requests\n# TYPE hls_requests_total counter\nhls_requests_total "@, "\n# TYPE hls_requests_total "@, 56);
    reveal_strlit("\n# HELP hls_bytes_served_total Total bytes served\n# TYPE hls_bytes_served_total counter\nhls_bytes_served_total ");
    reveal_strlit("\n# TYPE hls_bytes_served_total ");
    lemma_lit_contained("\n# HELP hls_bytes_served_total Total bytes served\n# TYPE hls_bytes_served_total counter\nhls_bytes_served_total "@, "\n# TYPE hls_bytes_served_total "@, 49);
    reveal_strlit("\n# HELP hls_cache_hits_total Total cache hits\n# TYPE hls_cache_hits_total counter\nhls_cache_hits_total ");
    reveal_strlit("\n# TYPE hls_cache_hits_total ");
    lemma_lit_contained("\n# HELP hls_cache_hits_total Total cache hits\n# TYPE hls_cache_hits_total counter\nhls_cache_hits_total "@, "\n# TYPE hls_cache_hits_total "@, 45);
    reveal_strlit("\n# HELP hls_cache_misses_total Total cache misses\n# TYPE hls_cache_misses_total counter\nhls_cache_misses_total ");
    reveal_strlit("\n# TYPE hls_cache_misses_total ");
    lemma_lit_contained("\n# HELP hls_cache_misses_total Total cache misses\n# TYPE hls_cache_misses_total counter\nhls_cache_misses_total "@, "\n# TYPE hls_cache_misses_total "@, 49);
    reveal_strlit("\n# HELP hls_cache_hit_ratio Cache hit ratio\n# TYPE hls_cache_hit_ratio gauge\nhls_cache_hit_ratio ");
    reveal_strlit("\n# TYPE hls_cache_hit_ratio ");
    lemma_lit_contained("\n# HELP hls_cache_hit_ratio Cache hit ratio\n# TYPE hls_cache_hit_ratio gauge\nhls_cache_hit_ratio "@, "\n# TYPE hls_cache_hit_ratio "@, 43);
    reveal_strlit("\n# HELP hls_active_streams Number of active streams\n# TYPE hls_active_streams gauge\nhls_active_streams ");
    reveal_strlit("\n# TYPE hls_active_streams ");
    lemma_lit_contained("\n# HELP hls_active_streams Number of active streams\n# TYPE hls_active_streams gauge\nhls_active_streams "@, "\n# TYPE hls_active_streams "@, 51);
    reveal_strlit("\n# HELP hls_transcode_operations_total Total transcoding operations\n# TYPE hls_transcode_operations_total counter\nhls_transcode_operations_total ");
    reveal_strlit("\n# TYPE hls_transcode_operations_total ");
    lemma_lit_contained("\n# HELP hls_transcode_operations_total Total transcoding operations\n# TYPE hls_transcode_operations_total counter\nhls_transcode_operations_total "@, "\n# TYPE hls_transcode_operations_total "@, 67);
    reveal_strlit("\n# HELP hls_errors_total Total errors by type\n# TYPE hls_errors_total counter\n");
    reveal_strlit("\n# TYPE hls_errors_total ");
    lemma_lit_contained("\n# HELP hls_errors_total Total errors by type\n# TYPE hls_errors_total counter\n"@, "\n# TYPE hls_errors_total "@, 45);
}


proof fn lemma_ends_then_contains(q: Seq<char>, lit: Seq<char>, r: Seq<char>, nl: Seq<char>)
    requires
        ends_with(q, lit),
    ensures
        contains(q + r + nl, lit + r + nl),
{
    let w = q + r + nl;
    let i = q.len() - lit.len();
    assert(w.subrange(i, i + (lit + r + nl).len()) =~= lit + r + nl);
    assert(lit_at(w, i, lit + r + nl));
}

broadcast proof fn lemma_ends_in_concat(a: Seq<char>, b: Seq<char>, lit: Seq<char>)
    ensures
        ends_with(b, lit) ==> #[trigger] ends_with(a + b, lit),
{
    if ends_with(b, lit) {
        assert((a + b).subrange((a + b).len() - lit.len(), (a + b).len() as int) =~= b.subrange(
            b.len() - lit.len(),
            b.len() as int,
        ));
    }
}

/// The hit ratio is printed on its own line, with four decimals and at most
/// `1.0000`: `0.0000` without lookups or without hits, `1.0000` when every
/// lookup hit.
pub proof fn law_hit_ratio_line(m: Metrics, uptime: u64, unix_now: u64)
    ensures
        contains(prometheus_text(m, uptime, unix_now), "\nhls_cache_hit_ratio "@ + ratio_text(m.cache_hits as nat,
            m.cache_misses as nat) + "\n"@),
        ratio_ten_thousandths(m.cache_hits as nat, m.cache_misses as nat) <= 10000,
        ratio_text(m.cache_hits as nat, m.cache_misses as nat) == dec(ratio_ten_thousandths(m.cache_hits as nat,
            m.cache_misses as nat) / 10000) + "."@ + four_digits(ratio_ten_thousandths(m.cache_hits as nat,
            m.cache_misses as nat) % 10000),
        m.cache_hits == 0 ==> ratio_text(m.cache_hits as nat, m.cache_misses as nat) == "0.0000"@,
        m.cache_hits > 0 && m.cache_misses == 0 ==> ratio_text(m.cache_hits as nat, m.cache_misses as nat)
            == "1.0000"@,
{
    broadcast use lemma_contained_in_concat, lemma_ends_in_concat;
    let h = m.cache_hits as nat;
    let x = m.cache_misses as nat;
    let q = "# HELP hls_server_uptime_seconds Server uptime in seconds\n# TYPE hls_server_uptime_seconds counter\nhls_server_uptime_seconds "@
        + dec(uptime as nat) + "\n"@
    + "\n# HELP hls_server_start_time_seconds Server start time as Unix timestamp\n# TYPE hls_server_start_time_seconds gauge\nhls_server_start_time_seconds "@
        + dec(start_time(unix_now, uptime)) + "\n"@
    + "\n# HELP hls_requests_total Total number of HTTP requests\n# TYPE hls_requests_total counter\nhls_requests_total "@
        + dec(m.request_count as nat) + "\n"@
    + "\n# HELP hls_requests_by_endpoint Requests by endpoint\n# TYPE hls_requests_by_endpoint counter\n"@
        + labeled_lines("hls_requests_by_endpoint{endpoint=\""@, m.requests_by_endpoint@, m.requests_by_endpoint@.len())
    + "\n# HELP hls_bytes_served_total Total bytes served\n# TYPE hls_bytes_served_total counter\nhls_bytes_served_total "@
        + dec(m.bytes_served as nat) + "\n"@
    + "\n# HELP hls_cache_hits_total Total cache hits\n# TYPE hls_cache_hits_total counter\nhls_cache_hits_total "@
        + dec(m.cache_hits as nat) + "\n"@
    + "\n# HELP hls_cache_misses_total Total cache misses\n# TYPE hls_cache_misses_total counter\nhls_cache_misses_total "@
        + dec(m.cache_misses as nat) + "\n"@
    + "\n# HELP hls_cache_hit_ratio Cache hit ratio\n# TYPE hls_cache_hit_ratio gauge\nhls_cache_hit_ratio "@;
    let lit = "\nhls_cache_hit_ratio "@;
    reveal_strlit("\n# HELP hls_cache_hit_ratio Cache hit ratio\n# TYPE hls_cache_hit_ratio gauge\nhls_cache_hit_ratio ");
    reveal_strlit("\nhls_cache_hit_ratio ");
    let big = "\n# HELP hls_cache_hit_ratio Cache hit ratio\n# TYPE hls_cache_hit_ratio gauge\nhls_cache_hit_ratio "@;
    assert(big.subrange(big.len() - lit.len(), big.len() as int) =~= lit);
    assert(ends_with(big, lit));
    assert(ends_with(q, lit));
    lemma_ends_then_contains(q, lit, ratio_text(h, x), "\n"@);
    lemma_ratio_at_most_one(h, x);
    reveal_strlit("0.0000");
    reveal_strlit("1.0000");
    reveal_strlit(".");
    assert(four_digits(0) =~= seq!['0', '0', '0', '0']);
    if h == 0 {
        assert(ratio_text(h, x) =~= "0.0000"@);
    } else if x == 0 {
        assert(ratio_text(h, x) =~= "1.0000"@);
    }
}

proof fn lemma_ratio_at_most_one(h: nat, x: nat)
    ensures
        ratio_ten_thousandths(h, x) <= 10000,
{
    let a = int_to_double(h);
    let b = int_to_double(h + x);
    if h > 0 && a < b {
        let e = scale_exp(a, b, 0);
        let p = two_pow(e);
        lemma_two_pow_grows(e);
        assert(a * p < b * p) by (nonlinear_arith)
            requires a < b, p >= 1;
        assert((a * p) / b < p) by (nonlinear_arith)
            requires a * p < b * p, b >= 1;
        lemma_round_even_bounds(a * p, b);
        let mm = round_even(a * p, b);
        assert(mm * 10000 <= 10000 * p) by (nonlinear_arith)
            requires mm <= p;
        lemma_round_even_at_most((mm * 10000) as nat, p, 10000);
    }
}

proof fn lemma_int_shift_facts(n: nat, s0: nat)
    ensures
        int_shift(n, s0) >= s0,
        n / two_pow(int_shift(n, s0)) < 9007199254740992,
        int_shift(n, s0) == s0 || n / two_pow((int_shift(n, s0) - 1) as nat) >= 9007199254740992,
    decreases n - s0,
{
    lemma_two_pow_grows(s0);
    if s0 >= n || n / two_pow(s0) < 9007199254740992 {
        if s0 >= n {
            assert(n / two_pow(s0) == 0) by (nonlinear_arith)
                requires two_pow(s0) > s0, s0 >= n;
        }
    } else {
        lemma_int_shift_facts(n, s0 + 1);
    }
}

proof fn lemma_round_even_close(num: nat, den: nat)
    requires
        den > 0,
    ensures
        -(den as int) <= 2 * (round_even(num, den) * den - num) <= den,
{
    let q = num / den;
    let r = num % den;
    assert(num == den * q + r) by {
        lemma_fundamental_div_mod(num as int, den as int);
    }
    let k = round_even(num, den);
    if k == q {
        assert(2 * r <= den);
        assert(k * den - num == -r) by (nonlinear_arith)
            requires num == den * q + r, k == q;
    } else {
        assert(2 * r >= den);
        assert(k * den - num == den - r) by (nonlinear_arith)
            requires num == den * q + r, k == q + 1;
    }
}

/// The double nearest to a whole number is within `n / 2^53` of it.
proof fn lemma_int_to_double_close(n: nat)
    ensures
        -(n as int) <= 9007199254740992 * (int_to_double(n) - n) <= n,
{
    let s = int_shift(n, 0);
    let p = two_pow(s);
    lemma_int_shift_facts(n, 0);
    lemma_two_pow_grows(s);
    lemma_round_even_close(n, p);
    let d = int_to_double(n);
    if s == 0 {
        assert(p == 1);
        assert(d - n == 0) by (nonlinear_arith)
            requires d == round_even(n, p) * p, -1 <= 2 * (round_even(n, p) * p - n) <= 1, p == 1;
    } else {
        let p1 = two_pow((s - 1) as nat);
        assert(p == 2 * p1);
        assert(n >= 4503599627370496 * p) by {
            lemma_fundamental_div_mod(n as int, p1 as int);
            assert(n % p1 >= 0);
            assert((n / p1) * p1 >= 9007199254740992 * p1) by (nonlinear_arith)
                requires n / p1 >= 9007199254740992, p1 >= 1;
        }
        assert(-(n as int) <= 9007199254740992 * (d - n) <= n) by (nonlinear_arith)
            requires d == round_even(n, p) * p, -(p as int) <= 2 * (round_even(n, p) * p - n) <= p,
                n >= 4503599627370496 * p;
    }
}

proof fn lemma_scale_exp_reaches(a: nat, b: nat, e0: nat)
    requires
        a >= 1,
    ensures
        a * two_pow(scale_exp(a, b, e0)) >= 4503599627370496 * b,
    decreases 4503599627370496 * b - e0,
{
    let e = scale_exp(a, b, e0);
    if e0 >= 4503599627370496 * b || a * two_pow(e0) >= 4503599627370496 * b {
        lemma_two_pow_grows(e0);
        assert(a * two_pow(e0) >= two_pow(e0)) by (nonlinear_arith)
            requires a >= 1;
    } else {
        lemma_scale_exp_reaches(a, b, e0 + 1);
    }
}

/// The printed hit ratio is within one ten-thousandth of `hits / (hits +
/// misses)`: it is that fraction rounded to four decimals, but for the
/// rounding of the double quotient, which moves it only where the fraction
/// lies a hair from a rounding midpoint.
pub proof fn law_hit_ratio_close(h: nat, x: nat)
    requires
        h + x > 0,
    ensures
        -((h + x) as int) < ratio_ten_thousandths(h, x) * (h + x) - 10000 * h < h + x,
{
    let n = h + x;
    let k = ratio_ten_thousandths(h, x);
    if h == 0 {
        return;
    }
    let a = int_to_double(h);
    let b = int_to_double(n);
    lemma_int_to_double_close(h);
    lemma_int_to_double_close(n);
    let e1 = a - h;
    let e2 = b - n;
    if a >= b {
        assert(k == 10000);
        assert(-(n as int) < 10000 * n - 10000 * h < n) by (nonlinear_arith)
            requires -(h as int) <= 9007199254740992 * e1 <= h, -(n as int) <= 9007199254740992 * e2 <= n,
                e1 == a - h, e2 == b - n, a >= b, h >= 1, n >= h;
        return;
    }
    assert(a >= 1 && b >= 1 && h <= 2 * b) by (nonlinear_arith)
        requires -(h as int) <= 9007199254740992 * e1 <= h, -(n as int) <= 9007199254740992 * e2 <= n,
            e1 == a - h, e2 == b - n, h >= 1, n >= h;
    let e = scale_exp(a, b, 0);
    let p = two_pow(e);
    lemma_scale_exp_reaches(a, b, 0);
    assert(p > 4503599627370496) by (nonlinear_arith)
        requires a * p >= 4503599627370496 * b, a < b, a >= 1;
    let m = round_even(a * p, b);
    lemma_round_even_close(a * p, b);
    lemma_round_even_close(m * 10000, p);
    assert(k == round_even(m * 10000, p));
    let e3 = m * b - a * p;
    let e4 = k * p - m * 10000;
    let xx = k * n - 10000 * h;
    let t1 = 10000 * n * p * e1;
    let t2 = 10000 * n * e3;
    let t3 = e4 * b * n;
    let t4 = 10000 * p * h * e2;
    let pb = p * b;
    assert(xx * pb == k * p * b * n - 10000 * h * p * b) by (nonlinear_arith)
        requires xx == k * n - 10000 * h, pb == p * b;
    assert(k * p * b * n == 10000 * m * b * n + t3) by (nonlinear_arith)
        requires e4 == k * p - m * 10000, t3 == e4 * b * n;
    assert(10000 * m * b * n == 10000 * n * a * p + t2) by (nonlinear_arith)
        requires e3 == m * b - a * p, t2 == 10000 * n * e3;
    assert(10000 * n * a * p == 10000 * n * h * p + t1) by (nonlinear_arith)
        requires e1 == a - h, t1 == 10000 * n * p * e1;
    assert(10000 * h * p * b == 10000 * h * p * n + t4) by (nonlinear_arith)
        requires e2 == b - n, t4 == 10000 * p * h * e2;
    assert(10000 * n * h * p == 10000 * h * p * n) by (nonlinear_arith);
    assert(xx * pb == t1 + t2 + t3 - t4);
    let big = p * b * n;
    assert(-20000 * big <= 9007199254740992 * t1 <= 20000 * big) by (nonlinear_arith)
        requires t1 == 10000 * n * p * e1, -(h as int) <= 9007199254740992 * e1 <= h, h <= 2 * b, big == p * b * n,
            n >= 1, p >= 1;
    assert(-20000 * big <= 9007199254740992 * t4 <= 20000 * big) by (nonlinear_arith)
        requires t4 == 10000 * p * h * e2, -(n as int) <= 9007199254740992 * e2 <= n, h <= 2 * b, big == p * b * n,
            h >= 1, p >= 1;
    assert(-10000 * big <= 9007199254740992 * t2 <= 10000 * big) by (nonlinear_arith)
        requires t2 == 10000 * n * e3, -(b as int) <= 2 * e3 <= b, p > 4503599627370496, big == p * b * n, n >= 1,
            b >= 1;
    assert(-big <= 2 * t3 <= big) by (nonlinear_arith)
        requires t3 == e4 * b * n, -(p as int) <= 2 * e4 <= p, big == p * b * n, b >= 1, n >= 1;
    assert(big == pb * n) by (nonlinear_arith)
        requires big == p * b * n, pb == p * b;
    assert(pb >= 1) by (nonlinear_arith)
        requires pb == p * b, p >= 1, b >= 1;
    assert(big >= 1) by (nonlinear_arith)
        requires big == pb * n, pb >= 1, n >= 1;
    assert(9007199254740992 * (t1 + t2 + t3 - t4) < 9007199254740992 * big);
    assert(9007199254740992 * (t1 + t2 + t3 - t4) > -9007199254740992 * big);
    assert(-(n as int) * pb < xx * pb < n * pb) by (nonlinear_arith)
        requires xx * pb == t1 + t2 + t3 - t4, big == pb * n, -big < t1 + t2 + t3 - t4 < big;
    assert(-(n as int) < xx < n) by (nonlinear_arith)
        requires -(n as int) * pb < xx * pb < n * pb, pb >= 1;
}
} // verus!
