//! Decisions of the reverse proxies in front of Jellyfin: upstream URLs,
//! which headers pass, how redirects are rewritten, WebSocket URLs and how
//! WebSocket messages are relayed.

use vstd::prelude::*;
use crate::text::{push_str, str_eq, string_push, starts_with, to_lower, lowercase};

verus! {

// ---------------------------------------------------------------------------
// Text helpers
// ---------------------------------------------------------------------------

/// `s` with every leftmost non-overlapping occurrence of `pat` replaced by
/// `rep`, scanning from the front (`s` itself for an empty pattern).
pub open spec fn replace_all(s: Seq<char>, pat: Seq<char>, rep: Seq<char>) -> Seq<char>
    decreases s.len(),
{
    if pat.len() == 0 || s.len() < pat.len() {
        s
    } else if s.subrange(0, pat.len() as int) == pat {
        rep + replace_all(s.subrange(pat.len() as int, s.len() as int), pat, rep)
    } else {
        seq![s[0]] + replace_all(s.drop_first(), pat, rep)
    }
}

fn matches_at(s: &Vec<char>, i: usize, pat: &Vec<char>) -> (r: bool)
    requires
        i <= s@.len(),
    ensures
        r == (i + pat@.len() <= s@.len() && s@.subrange(i as int, i + pat@.len()) == pat@),
{
    let n = s.len();
    let m = pat.len();
    if m > n - i {
        return false;
    }
    let mut k: usize = 0;
    while k < m
        invariant
            n == s@.len(),
            m == pat@.len(),
            i + m <= n,
            k <= m,
            forall|j: int| 0 <= j < k ==> s@[i + j] == pat@[j],
        decreases m - k,
    {
        if s[i + k] != pat[k] {
            return false;
        }
        k += 1;
    }
    assert(s@.subrange(i as int, i + m) =~= pat@);
    true
}

/// `s` with every occurrence of `pat` (scanned leftmost first) replaced by `rep`.
pub fn replace_str(s: &str, pat: &str, rep: &str) -> (r: String)
    ensures
        r@ == replace_all(s@, pat@, rep@),
{
    let v = crate::text::chars_of(s);
    let p = crate::text::chars_of(pat);
    let n = v.len();
    let m = p.len();
    let mut out = String::new();
    if m == 0 {
        push_str(&mut out, s);
        assert(out@ =~= replace_all(s@, pat@, rep@));
        return out;
    }
    let mut i: usize = 0;
    assert(s@.subrange(0, n as int) =~= s@);
    while i < n
        invariant
            n == v@.len(),
            v@ == s@,
            p@ == pat@,
            m == p@.len(),
            m > 0,
            i <= n,
            out@ + replace_all(s@.subrange(i as int, n as int), pat@, rep@) == replace_all(s@, pat@, rep@),
        decreases n - i,
    {
        let ghost rest = s@.subrange(i as int, n as int);
        if matches_at(&v, i, &p) {
            assert(rest.subrange(0, m as int) =~= s@.subrange(i as int, i + m));
            assert(rest.subrange(m as int, rest.len() as int) =~= s@.subrange(i + m, n as int));
            let ghost before = out@;
            push_str(&mut out, rep);
            assert(before + (rep@ + replace_all(s@.subrange(i + m, n as int), pat@, rep@))
                =~= out@ + replace_all(s@.subrange(i + m, n as int), pat@, rep@));
            i += m;
        } else {
            proof {
                if rest.len() >= pat@.len() {
                    assert(rest.subrange(0, m as int) =~= s@.subrange(i as int, i + m));
                }
            }
            assert(rest.drop_first() =~= s@.subrange(i + 1, n as int));
            let ghost before = out@;
            string_push(&mut out, v[i]);
            assert(before + (seq![v@[i as int]] + replace_all(s@.subrange(i + 1, n as int), pat@, rep@))
                =~= out@ + replace_all(s@.subrange(i + 1, n as int), pat@, rep@));
            i += 1;
        }
    }
    assert(s@.subrange(n as int, n as int) =~= Seq::<char>::empty());
    assert(out@ + Seq::<char>::empty() =~= out@);
    out
}

/// `s` without its trailing `/` characters.
pub open spec fn trim_trailing_slashes(s: Seq<char>) -> Seq<char>
    decreases s.len(),
{
    if s.len() > 0 && s.last() == '/' {
        trim_trailing_slashes(s.drop_last())
    } else {
        s
    }
}

/// The Jellyfin base URL as the proxies use it: without trailing slashes.
pub fn normalize_base_url(url: &str) -> (r: String)
    ensures
        r@ == trim_trailing_slashes(url@),
{
    let v = crate::text::chars_of(url);
    let mut k = v.len();
    assert(url@.subrange(0, k as int) =~= url@);
    while k > 0 && v[k - 1] == '/'
        invariant
            v@ == url@,
            k <= v@.len(),
            trim_trailing_slashes(url@) == trim_trailing_slashes(url@.subrange(0, k as int)),
        decreases k,
    {
        assert(url@.subrange(0, k as int).drop_last() =~= url@.subrange(0, k - 1));
        k -= 1;
    }
    crate::text::string_from_chars(&v, 0, k)
}

/// The upstream URL of a request: the base URL followed by the request's
/// path and query.
pub fn upstream_url(base: &str, path_query: &str) -> (r: String)
    ensures
        r@ == base@ + path_query@,
{
    let mut out = String::from_str(base);
    push_str(&mut out, path_query);
    out
}

/// The path of the PlaybackInfo endpoint of an item.
pub fn playback_info_path(item_id: &str) -> (r: String)
    ensures
        r@ == "/Items/"@ + item_id@ + "/PlaybackInfo"@,
{
    let mut out = String::from_str("/Items/");
    push_str(&mut out, item_id);
    push_str(&mut out, "/PlaybackInfo");
    out
}

// ---------------------------------------------------------------------------
// Headers (names in the lower-case form HTTP libraries give them)
// ---------------------------------------------------------------------------

/// Request headers passed upstream: all but `host`.
pub fn forward_request_header(name: &str) -> (r: bool)
    ensures
        r == (name@ != "host"@),
{
    !str_eq(name, "host")
}

/// Request headers passed upstream with a rewritten PlaybackInfo body: all
/// but `host`, `content-length` and `accept-encoding`.
pub fn forward_playback_request_header(name: &str) -> (r: bool)
    ensures
        r == (name@ != "host"@ && name@ != "content-length"@ && name@ != "accept-encoding"@),
{
    !str_eq(name, "host") && !str_eq(name, "content-length") && !str_eq(name, "accept-encoding")
}

/// Response headers passed back: all but the hop-by-hop `transfer-encoding`
/// and `connection`.
pub fn forward_response_header(name: &str) -> (r: bool)
    ensures
        r == (name@ != "transfer-encoding"@ && name@ != "connection"@),
{
    !str_eq(name, "transfer-encoding") && !str_eq(name, "connection")
}

/// Response headers passed back with a PlaybackInfo answer: all but
/// `content-length`, `content-encoding`, `transfer-encoding` and `connection`.
pub fn forward_playback_response_header(name: &str) -> (r: bool)
    ensures
        r == (name@ != "content-length"@ && name@ != "content-encoding"@ && name@ != "transfer-encoding"@
            && name@ != "connection"@),
{
    !str_eq(name, "content-length") && !str_eq(name, "content-encoding") && !str_eq(name, "transfer-encoding")
        && !str_eq(name, "connection")
}

/// Request headers passed to the upstream WebSocket: all but `host`, the
/// `sec-websocket-*` handshake headers, `connection` and `upgrade`.
pub fn forward_websocket_header(name: &str) -> (r: bool)
    ensures
        r == (name@ != "host"@ && name@ != "sec-websocket-key"@ && name@ != "sec-websocket-accept"@
            && name@ != "sec-websocket-version"@ && name@ != "connection"@ && name@ != "upgrade"@),
{
    !str_eq(name, "host") && !str_eq(name, "sec-websocket-key") && !str_eq(name, "sec-websocket-accept")
        && !str_eq(name, "sec-websocket-version") && !str_eq(name, "connection") && !str_eq(name, "upgrade")
}

/// Headers of the PlaybackInfo request copied by the handler that injects a
/// device profile: the two authorization headers.
pub fn forward_auth_header(name: &str) -> (r: bool)
    ensures
        r == (name@ == "authorization"@ || name@ == "x-emby-authorization"@),
{
    str_eq(name, "authorization") || str_eq(name, "x-emby-authorization")
}

/// A redirect to the upstream server is made relative: the base URL is
/// removed wherever it occurs (an empty result becomes `/`).  `None` when
/// the location does not start with the base URL.
pub open spec fn rewritten_location(loc: Seq<char>, base: Seq<char>) -> Option<Seq<char>> {
    if starts_with(loc, base) {
        let r = replace_all(loc, base, Seq::empty());
        Some(if r.len() == 0 { "/"@ } else { r })
    } else {
        None
    }
}

fn starts_with_str(s: &str, prefix: &str) -> (r: bool)
    ensures
        r == starts_with(s@, prefix@),
{
    let n = s.unicode_len();
    let m = prefix.unicode_len();
    if m > n {
        return false;
    }
    let mut k: usize = 0;
    while k < m
        invariant
            n == s@.len(),
            m == prefix@.len(),
            m <= n,
            k <= m,
            forall|j: int| 0 <= j < k ==> s@[j] == prefix@[j],
        decreases m - k,
    {
        if s.get_char(k) != prefix.get_char(k) {
            return false;
        }
        k += 1;
    }
    assert(s@.subrange(0, m as int) =~= prefix@);
    true
}

/// The `Location` header to send for an upstream one.
pub fn rewrite_location(loc: &str, base: &str) -> (r: Option<String>)
    ensures
        match r {
            Some(x) => rewritten_location(loc@, base@) == Some(x@),
            None => rewritten_location(loc@, base@) is None,
        },
{
    if !starts_with_str(loc, base) {
        return None;
    }
    let r = replace_str(loc, base, "");
    proof {
        reveal_strlit("");
        assert(""@ =~= Seq::<char>::empty());
    }
    if r.unicode_len() == 0 {
        Some(String::from_str("/"))
    } else {
        Some(r)
    }
}

/// Whether a response's content type announces JSON.
pub fn is_json_content_type(ct: Option<&str>) -> (r: bool)
    ensures
        r == match ct {
            Some(t) => crate::text::contains(t@, "application/json"@),
            None => false,
        },
{
    match ct {
        Some(t) => {
            let v = crate::text::chars_of(t);
            let p = crate::text::chars_of("application/json");
            let n = v.len();
            let m = p.len();
            proof {
                reveal_strlit("application/json");
            }
            if m > n {
                proof {
                    if crate::text::contains(t@, "application/json"@) {
                        let w = choose|w: int| 0 <= w <= t@.len() - 16 && #[trigger] crate::text::lit_at(t@, w, "application/json"@);
                    }
                }
                return false;
            }
            let mut i: usize = 0;
            while i <= n - m
                invariant
                    ct == Some(t),
                    v@ == t@,
                    p@ == "application/json"@,
                    n == v@.len(),
                    m == p@.len(),
                    m == 16,
                    m <= n,
                    i <= n - m + 1,
                    forall|j: int| 0 <= j < i ==> !#[trigger] crate::text::lit_at(t@, j, "application/json"@),
                decreases n - m + 1 - i,
            {
                if matches_at(&v, i, &p) {
                    proof {
                        assert(crate::text::lit_at(t@, i as int, "application/json"@));
                        assert(0 <= i <= t@.len() - "application/json"@.len());
                    }
                    return true;
                }
                i += 1;
            }
            proof {
                if crate::text::contains(t@, "application/json"@) {
                    let w = choose|w: int| 0 <= w <= t@.len() - p@.len() && #[trigger] crate::text::lit_at(t@, w, "application/json"@);
                    assert(w < i);
                }
            }
            false
        },
        None => false,
    }
}

// ---------------------------------------------------------------------------
// WebSockets
// ---------------------------------------------------------------------------

/// The WebSocket URL of a path on the upstream server: `http://` becomes
/// `ws://` and `https://` becomes `wss://` in the base URL.
pub open spec fn ws_url(base: Seq<char>, path: Seq<char>) -> Seq<char> {
    replace_all(replace_all(base, "http://"@, "ws://"@), "https://"@, "wss://"@) + path
}

pub fn build_ws_url(base_url: &str, path: &str) -> (r: String)
    ensures
        r@ == ws_url(base_url@, path@),
{
    let a = replace_str(base_url, "http://", "ws://");
    let mut b = replace_str(a.as_str(), "https://", "wss://");
    push_str(&mut b, path);
    b
}

pub open spec fn ascii_lower(c: char) -> char {
    if 'A' <= c && c <= 'Z' {
        ((c as u32) + 32) as char
    } else {
        c
    }
}

/// Two strings are equal when ASCII letters are compared without case.
pub open spec fn eq_ignore_ascii_case(a: Seq<char>, b: Seq<char>) -> bool {
    a.len() == b.len() && forall|i: int| 0 <= i < a.len() ==> ascii_lower(#[trigger] a[i]) == ascii_lower(b[i])
}

fn lower_char(c: char) -> (r: char)
    ensures
        r == ascii_lower(c),
{
    if 'A' <= c && c <= 'Z' {
        let u: u32 = c as u32 + 32;
        proof {
            assert(0x61 <= u <= 0x7a);
        }
        let b: u8 = u as u8;
        b as char
    } else {
        c
    }
}

/// Whether a request asks for a WebSocket upgrade: its `upgrade` header
/// (when it is readable text) is `websocket`, in any ASCII case.
pub fn is_websocket_upgrade(upgrade: Option<&str>) -> (r: bool)
    ensures
        r == match upgrade {
            Some(v) => eq_ignore_ascii_case(v@, "websocket"@),
            None => false,
        },
{
    match upgrade {
        Some(v) => {
            let a = crate::text::chars_of(v);
            let b = crate::text::chars_of("websocket");
            if a.len() != b.len() {
                return false;
            }
            let n = a.len();
            let mut i: usize = 0;
            while i < n
                invariant
                    upgrade == Some(v),
                    a@ == v@,
                    b@ == "websocket"@,
                    n == a@.len(),
                    n == b@.len(),
                    i <= n,
                    forall|j: int| 0 <= j < i ==> ascii_lower(#[trigger] a@[j]) == ascii_lower(b@[j]),
                decreases n - i,
            {
                if lower_char(a[i]) != lower_char(b[i]) {
                    assert(ascii_lower(v@[i as int]) != ascii_lower("websocket"@[i as int]));
                    return false;
                }
                i += 1;
            }
            true
        },
        None => false,
    }
}

/// A WebSocket close frame.
#[derive(Debug)]
pub struct CloseInfo {
    pub code: u16,
    pub reason: String,
}

/// A WebSocket message.
#[derive(Debug)]
pub enum WsFrame {
    Text(String),
    Binary(Vec<u8>),
    Ping(Vec<u8>),
    Pong(Vec<u8>),
    Close(Option<CloseInfo>),
    /// A raw frame (only the upstream side reports these).
    Raw,
}

/// What one side of a WebSocket relay reports.
#[derive(Debug)]
pub enum WsEvent {
    Message(WsFrame),
    Error,
}

/// What the relay does with one report: send a message to the other side
/// (and stop when sending fails, if `stop_on_send_error`), then stop or go on.
#[derive(Debug)]
pub struct RelayStep {
    pub send: Option<WsFrame>,
    pub stop_on_send_error: bool,
    pub stop: bool,
}

pub const CLOSE_NORMAL: u16 = 1000;

/// The HLS proxy's relay: text and binary are passed on (a failed send
/// stops); pings and pongs are passed on; a close is passed on and ends the
/// relay (from the client it is sent with the normal close code); raw frames
/// are skipped; an error ends the relay.
pub open spec fn hls_relay(from_client: bool, ev: WsEvent, step: RelayStep) -> bool {
    match ev {
        WsEvent::Error => step.send is None && step.stop,
        WsEvent::Message(f) => match f {
            WsFrame::Text(t) => step.send == Some(WsFrame::Text(t)) && step.stop_on_send_error && !step.stop,
            WsFrame::Binary(b) => step.send == Some(WsFrame::Binary(b)) && step.stop_on_send_error && !step.stop,
            WsFrame::Ping(b) => step.send == Some(WsFrame::Ping(b)) && !step.stop_on_send_error && !step.stop,
            WsFrame::Pong(b) => step.send == Some(WsFrame::Pong(b)) && !step.stop_on_send_error && !step.stop,
            WsFrame::Close(c) => {
                &&& step.stop
                &&& !step.stop_on_send_error
                &&& step.send matches Some(WsFrame::Close(c2)) && match c {
                    None => c2 is None,
                    Some(ci) => c2 matches Some(ci2) && ci2.reason == ci.reason
                        && ci2.code == if from_client { CLOSE_NORMAL } else { ci.code },
                }
            },
            WsFrame::Raw => step.send is None && !step.stop,
        },
    }
}

pub fn hls_relay_step(from_client: bool, ev: WsEvent) -> (r: RelayStep)
    ensures
        hls_relay(from_client, ev, r),
{
    match ev {
        WsEvent::Error => RelayStep { send: None, stop_on_send_error: false, stop: true },
        WsEvent::Message(f) => match f {
            WsFrame::Text(t) => RelayStep { send: Some(WsFrame::Text(t)), stop_on_send_error: true, stop: false },
            WsFrame::Binary(b) => RelayStep { send: Some(WsFrame::Binary(b)), stop_on_send_error: true, stop: false },
            WsFrame::Ping(b) => RelayStep { send: Some(WsFrame::Ping(b)), stop_on_send_error: false, stop: false },
            WsFrame::Pong(b) => RelayStep { send: Some(WsFrame::Pong(b)), stop_on_send_error: false, stop: false },
            WsFrame::Close(c) => {
                let c2 = match c {
                    None => None,
                    Some(ci) => Some(CloseInfo {
                        code: if from_client { CLOSE_NORMAL } else { ci.code },
                        reason: ci.reason,
                    }),
                };
                RelayStep { send: Some(WsFrame::Close(c2)), stop_on_send_error: false, stop: true }
            },
            WsFrame::Raw => RelayStep { send: None, stop_on_send_error: false, stop: false },
        },
    }
}

/// The transmuxing proxy's relay: every message is passed on as it is and
/// a failed send stops; raw frames are skipped; an error ends the relay.
pub open spec fn transmux_relay(ev: WsEvent, step: RelayStep) -> bool {
    match ev {
        WsEvent::Error => step.send is None && step.stop,
        WsEvent::Message(f) => match f {
            WsFrame::Raw => step.send is None && !step.stop,
            _ => step.send == Some(f) && step.stop_on_send_error && !step.stop,
        },
    }
}

pub fn transmux_relay_step(ev: WsEvent) -> (r: RelayStep)
    ensures
        transmux_relay(ev, r),
{
    match ev {
        WsEvent::Error => RelayStep { send: None, stop_on_send_error: false, stop: true },
        WsEvent::Message(f) => match f {
            WsFrame::Raw => RelayStep { send: None, stop_on_send_error: false, stop: false },
            other => RelayStep { send: Some(other), stop_on_send_error: true, stop: false },
        },
    }
}

// ---------------------------------------------------------------------------
// Ending an encoding session
// ---------------------------------------------------------------------------

/// What `serde_urlencoded::from_str` reads from a query string as a list of
/// decoded key-value pairs, in their order; `None` when it returns an error.
pub uninterp spec fn form_pairs(query: Seq<char>) -> Option<Seq<(Seq<char>, Seq<char>)>>;

pub open spec fn pair_views(v: Seq<(String, String)>) -> Seq<(Seq<char>, Seq<char>)> {
    v.map_values(|p: (String, String)| (p.0@, p.1@))
}

/// The value of the last pair with key `key`: the one a map filled from
/// the pairs in order keeps.
pub open spec fn last_value(pairs: Seq<(Seq<char>, Seq<char>)>, key: Seq<char>) -> Option<Seq<char>>
    decreases pairs.len(),
{
    if pairs.len() == 0 {
        None
    } else if pairs.last().0 == key {
        Some(pairs.last().1)
    } else {
        last_value(pairs.drop_last(), key)
    }
}

/// The value of `key` in a query string decoded into a map of strings, or
/// `None` when the query does not parse or has no such key.
pub open spec fn form_value(query: Seq<char>, key: Seq<char>) -> Option<Seq<char>> {
    match form_pairs(query) {
        Some(p) => last_value(p, key),
        None => None,
    }
}

/// `serde_urlencoded::from_str` into a list of string pairs.
#[verifier::external_body]
fn form_decode(query: &str) -> (r: Option<Vec<(String, String)>>)
    ensures
        match r {
            Some(v) => form_pairs(query@) == Some(pair_views(v@)),
            None => form_pairs(query@) is None,
        },
{
    match serde_urlencoded::from_str::<Vec<(String, String)>>(query) {
        Ok(v) => Some(v),
        Err(_) => None,
    }
}

fn query_param(query: &str, key: &str) -> (r: Option<String>)
    ensures
        crate::url::opt_view(r) == form_value(query@, key@),
{
    let pairs = match form_decode(query) {
        Some(v) => v,
        None => return None,
    };
    let ghost all = pair_views(pairs@);
    let mut k: usize = pairs.len();
    assert(all.subrange(0, k as int) =~= all);
    assert(form_value(query@, key@) == last_value(all, key@));
    while k > 0
        invariant
            k <= pairs@.len(),
            all == pair_views(pairs@),
            form_value(query@, key@) == last_value(all, key@),
            last_value(all, key@) == last_value(all.subrange(0, k as int), key@),
        decreases k,
    {
        let ghost pre = all.subrange(0, k as int);
        assert(pre.last() == (pairs@[k - 1].0@, pairs@[k - 1].1@));
        if str_eq(pairs[k - 1].0.as_str(), key) {
            let v = pairs[k - 1].1.clone();
            assert(v@ == pre.last().1);
            assert(last_value(pre, key@) == Some(v@));
            return Some(v);
        }
        assert(pre.drop_last() =~= all.subrange(0, k - 1));
        k -= 1;
    }
    assert(all.subrange(0, 0) =~= Seq::<(Seq<char>, Seq<char>)>::empty());
    None
}

/// The play session a request ends: a `DELETE` of `/Videos/ActiveEncodings`
/// names it in its `playSessionId` query parameter.
pub fn active_encoding_session(is_delete: bool, path: &str, query: Option<&str>) -> (r: Option<String>)
    ensures
        crate::url::opt_view(r) == if is_delete && path@ == "/Videos/ActiveEncodings"@ {
            match query {
                Some(q) => form_value(q@, "playSessionId"@),
                None => None,
            }
        } else {
            None
        },
{
    if !(is_delete && str_eq(path, "/Videos/ActiveEncodings")) {
        return None;
    }
    match query {
        Some(q) => query_param(q, "playSessionId"),
        None => None,
    }
}

} // verus!
