//! Track and segment ids of the library API (`a/1-aac/3.m4s`, `s/2.m3u8`,
//! ...): which playlist or segment an id asks for.
//!
//! Each id shape is searched for anywhere in the id, leftmost match first,
//! as an unanchored pattern would be; a number too large for `usize` is an
//! error of its own.

use vstd::prelude::*;
use crate::text::{chars_of, contains, digit_run, lit_at, push_str, str_eq};
use crate::url_scan::{digit_run_x, lit_at_x};
use crate::query::{parse_usize, parse_usize_text};
use crate::validation::str_contains;
use crate::errors::HlsError;

verus! {

// ---------------------------------------------------------------------------
// The shapes of ids
// ---------------------------------------------------------------------------

/// The shapes of track and segment ids (`N` stands for one or more digits,
/// `[-aac]` for an optional `-aac`).
#[derive(Clone, Copy, Debug, PartialEq, Eq, Structural)]
pub enum IdPattern {
    /// `a/N[-aac]/init.mp4`
    AudioInit,
    /// `v/N.m4s`
    VideoSegment,
    /// `a/N[-aac]/N.m4s`
    AudioSegment,
    /// `s/N/N-N.vtt`
    SubtitleSegment,
    /// `a/N[-aac].m3u8`
    AudioPlaylist,
    /// `s/N.m3u8`
    SubtitlePlaylist,
}

pub open spec fn s_audio_dir() -> Seq<char> { seq!['a', '/'] }
pub open spec fn s_video_dir() -> Seq<char> { seq!['v', '/'] }
pub open spec fn s_sub_dir() -> Seq<char> { seq!['s', '/'] }
pub open spec fn s_aac() -> Seq<char> { seq!['-', 'a', 'a', 'c'] }
pub open spec fn s_init_tail() -> Seq<char> { seq!['/', 'i', 'n', 'i', 't', '.', 'm', 'p', '4'] }
pub open spec fn s_m4s_tail() -> Seq<char> { seq!['.', 'm', '4', 's'] }
pub open spec fn s_vtt_tail() -> Seq<char> { seq!['.', 'v', 't', 't'] }
pub open spec fn s_m3u8_tail() -> Seq<char> { seq!['.', 'm', '3', 'u', '8'] }
pub open spec fn s_slash() -> Seq<char> { seq!['/'] }
pub open spec fn s_dash() -> Seq<char> { seq!['-'] }

/// The end of the run of one or more ASCII digits at `p`.
pub open spec fn digits_end(s: Seq<char>, p: int) -> Option<int> {
    if digit_run(s, p) > 0 {
        Some(p + digit_run(s, p))
    } else {
        None
    }
}

/// Where the text after an optional `-aac` and then `sep` starts, at `q`.
pub open spec fn after_aac(s: Seq<char>, q: int, sep: Seq<char>) -> Option<int> {
    if lit_at(s, q, s_aac()) && lit_at(s, q + 4, sep) {
        Some(q + 4 + sep.len())
    } else if lit_at(s, q, sep) {
        Some(q + sep.len())
    } else {
        None
    }
}

/// The number of digit groups of pattern `k`.
pub open spec fn arity(k: IdPattern) -> nat {
    match k {
        IdPattern::AudioSegment => 2,
        IdPattern::SubtitleSegment => 3,
        _ => 1,
    }
}

/// The digit groups of pattern `k` when it occurs at `p` (as index ranges).
pub open spec fn pattern_at(k: IdPattern, s: Seq<char>, p: int) -> Option<Seq<(int, int)>> {
    match k {
        IdPattern::AudioInit => if !lit_at(s, p, s_audio_dir()) {
            None
        } else {
            match digits_end(s, p + 2) {
                Some(q) => if after_aac(s, q, s_init_tail()) is Some {
                    Some(seq![(p + 2, q)])
                } else {
                    None
                },
                None => None,
            }
        },
        IdPattern::VideoSegment => if !lit_at(s, p, s_video_dir()) {
            None
        } else {
            match digits_end(s, p + 2) {
                Some(q) => if lit_at(s, q, s_m4s_tail()) {
                    Some(seq![(p + 2, q)])
                } else {
                    None
                },
                None => None,
            }
        },
        IdPattern::AudioSegment => if !lit_at(s, p, s_audio_dir()) {
            None
        } else {
            match digits_end(s, p + 2) {
                Some(q) => match after_aac(s, q, s_slash()) {
                    Some(r) => match digits_end(s, r) {
                        Some(e) => if lit_at(s, e, s_m4s_tail()) {
                            Some(seq![(p + 2, q), (r, e)])
                        } else {
                            None
                        },
                        None => None,
                    },
                    None => None,
                },
                None => None,
            }
        },
        IdPattern::SubtitleSegment => if !lit_at(s, p, s_sub_dir()) {
            None
        } else {
            match digits_end(s, p + 2) {
                Some(q) => if !lit_at(s, q, s_slash()) {
                    None
                } else {
                    match digits_end(s, q + 1) {
                        Some(r) => if !lit_at(s, r, s_dash()) {
                            None
                        } else {
                            match digits_end(s, r + 1) {
                                Some(e) => if lit_at(s, e, s_vtt_tail()) {
                                    Some(seq![(p + 2, q), (q + 1, r), (r + 1, e)])
                                } else {
                                    None
                                },
                                None => None,
                            }
                        },
                        None => None,
                    }
                },
                None => None,
            }
        },
        IdPattern::AudioPlaylist => if !lit_at(s, p, s_audio_dir()) {
            None
        } else {
            match digits_end(s, p + 2) {
                Some(q) => if after_aac(s, q, s_m3u8_tail()) is Some {
                    Some(seq![(p + 2, q)])
                } else {
                    None
                },
                None => None,
            }
        },
        IdPattern::SubtitlePlaylist => if !lit_at(s, p, s_sub_dir()) {
            None
        } else {
            match digits_end(s, p + 2) {
                Some(q) => if lit_at(s, q, s_m3u8_tail()) {
                    Some(seq![(p + 2, q)])
                } else {
                    None
                },
                None => None,
            }
        },
    }
}

/// The digit groups of the leftmost occurrence of pattern `k` at or after `p`.
pub open spec fn leftmost(k: IdPattern, s: Seq<char>, p: int) -> Option<Seq<(int, int)>>
    decreases s.len() + 1 - p,
{
    if p < 0 || p > s.len() {
        None
    } else {
        match pattern_at(k, s, p) {
            Some(c) => Some(c),
            None => leftmost(k, s, p + 1),
        }
    }
}

/// The number written by the digits of `s` in range `r`.
pub open spec fn number_in(s: Seq<char>, r: (int, int)) -> Option<usize> {
    parse_usize(s.subrange(r.0, r.1))
}

// ---------------------------------------------------------------------------
// Reading the shapes
// ---------------------------------------------------------------------------

pub open spec fn spans_view(v: Seq<(usize, usize)>) -> Seq<(int, int)> {
    v.map_values(|x: (usize, usize)| (x.0 as int, x.1 as int))
}

fn digits_end_x(v: &Vec<char>, p: usize) -> (r: Option<usize>)
    requires
        p <= v@.len(),
    ensures
        match r {
            Some(q) => digits_end(v@, p as int) == Some(q as int) && q <= v@.len(),
            None => digits_end(v@, p as int) is None,
        },
{
    let n = digit_run_x(v, p);
    let len = v.len();
    assert(p + n <= len);
    if n > 0 {
        Some(p + n)
    } else {
        None
    }
}

fn after_aac_x(v: &Vec<char>, q: usize, sep: &Vec<char>) -> (r: Option<usize>)
    requires
        q <= v@.len(),
    ensures
        match r {
            Some(e) => after_aac(v@, q as int, sep@) == Some(e as int) && e <= v@.len(),
            None => after_aac(v@, q as int, sep@) is None,
        },
{
    let aac: Vec<char> = vec!['-', 'a', 'a', 'c'];
    assert(aac@ =~= s_aac());
    let len = v.len();
    if lit_at_x(v, q, &aac) && lit_at_x(v, q + 4, sep) {
        Some(q + 4 + sep.len())
    } else if lit_at_x(v, q, sep) {
        Some(q + sep.len())
    } else {
        None
    }
}

fn pattern_at_x(k: IdPattern, v: &Vec<char>, p: usize) -> (r: Option<Vec<(usize, usize)>>)
    requires
        p <= v@.len(),
    ensures
        match r {
            Some(c) => pattern_at(k, v@, p as int) == Some(spans_view(c@)) && c@.len() == arity(k)
                && forall|i: int| 0 <= i < c@.len() ==> (#[trigger] c@[i]).0 <= c@[i].1 <= v@.len(),
            None => pattern_at(k, v@, p as int) is None,
        },
{
    let a_dir: Vec<char> = vec!['a', '/'];
    let v_dir: Vec<char> = vec!['v', '/'];
    let s_dir: Vec<char> = vec!['s', '/'];
    let init_tail: Vec<char> = vec!['/', 'i', 'n', 'i', 't', '.', 'm', 'p', '4'];
    let m4s_tail: Vec<char> = vec!['.', 'm', '4', 's'];
    let vtt_tail: Vec<char> = vec!['.', 'v', 't', 't'];
    let m3u8_tail: Vec<char> = vec!['.', 'm', '3', 'u', '8'];
    let slash: Vec<char> = vec!['/'];
    let dash: Vec<char> = vec!['-'];
    assert(a_dir@ =~= s_audio_dir());
    assert(v_dir@ =~= s_video_dir());
    assert(s_dir@ =~= s_sub_dir());
    assert(init_tail@ =~= s_init_tail());
    assert(m4s_tail@ =~= s_m4s_tail());
    assert(vtt_tail@ =~= s_vtt_tail());
    assert(m3u8_tail@ =~= s_m3u8_tail());
    assert(slash@ =~= s_slash());
    assert(dash@ =~= s_dash());
    let dir = match k {
        IdPattern::VideoSegment => &v_dir,
        IdPattern::SubtitleSegment | IdPattern::SubtitlePlaylist => &s_dir,
        _ => &a_dir,
    };
    let len = v.len();
    if !lit_at_x(v, p, dir) {
        return None;
    }
    assert(p + 2 <= len);
    let q = match digits_end_x(v, p + 2) {
        Some(q) => q,
        None => {
            return None;
        },
    };
    let mut out: Vec<(usize, usize)> = Vec::new();
    out.push((p + 2, q));
    match k {
        IdPattern::AudioInit => {
            if after_aac_x(v, q, &init_tail).is_some() {
                assert(spans_view(out@) =~= seq![(p + 2, q as int)]);
                Some(out)
            } else {
                None
            }
        },
        IdPattern::VideoSegment => {
            if lit_at_x(v, q, &m4s_tail) {
                assert(spans_view(out@) =~= seq![(p + 2, q as int)]);
                Some(out)
            } else {
                None
            }
        },
        IdPattern::AudioPlaylist => {
            if after_aac_x(v, q, &m3u8_tail).is_some() {
                assert(spans_view(out@) =~= seq![(p + 2, q as int)]);
                Some(out)
            } else {
                None
            }
        },
        IdPattern::SubtitlePlaylist => {
            if lit_at_x(v, q, &m3u8_tail) {
                assert(spans_view(out@) =~= seq![(p + 2, q as int)]);
                Some(out)
            } else {
                None
            }
        },
        IdPattern::AudioSegment => {
            match after_aac_x(v, q, &slash) {
                Some(r) => match digits_end_x(v, r) {
                    Some(e) => if lit_at_x(v, e, &m4s_tail) {
                        out.push((r, e));
                        assert(spans_view(out@) =~= seq![(p + 2, q as int), (r as int, e as int)]);
                        Some(out)
                    } else {
                        None
                    },
                    None => None,
                },
                None => None,
            }
        },
        IdPattern::SubtitleSegment => {
            if !lit_at_x(v, q, &slash) {
                return None;
            }
            assert(q + 1 <= len);
            let r = match digits_end_x(v, q + 1) {
                Some(r) => r,
                None => {
                    return None;
                },
            };
            if !lit_at_x(v, r, &dash) {
                return None;
            }
            assert(r + 1 <= len);
            match digits_end_x(v, r + 1) {
                Some(e) => if lit_at_x(v, e, &vtt_tail) {
                    out.push((q + 1, r));
                    out.push((r + 1, e));
                    assert(spans_view(out@) =~= seq![(p + 2, q as int), (q + 1, r as int), (r + 1, e as int)]);
                    Some(out)
                } else {
                    None
                },
                None => None,
            }
        },
    }
}

/// The digit groups of the leftmost occurrence of pattern `k` in `v`.
fn leftmost_x(k: IdPattern, v: &Vec<char>) -> (r: Option<Vec<(usize, usize)>>)
    ensures
        match r {
            Some(c) => leftmost(k, v@, 0) == Some(spans_view(c@)) && c@.len() == arity(k)
                && forall|i: int| 0 <= i < c@.len() ==> (#[trigger] c@[i]).0 <= c@[i].1 <= v@.len(),
            None => leftmost(k, v@, 0) is None,
        },
{
    let n = v.len();
    let mut p: usize = 0;
    while p <= n
        invariant
            n == v@.len(),
            p <= n + 1,
            leftmost(k, v@, 0) == leftmost(k, v@, p as int),
        decreases n + 1 - p,
    {
        match pattern_at_x(k, v, p) {
            Some(c) => {
                return Some(c);
            },
            None => {},
        }
        if p == n {
            assert(leftmost(k, v@, p + 1) is None);
            return None;
        }
        p += 1;
    }
    None
}

/// The characters `v[lo..hi]`.
fn chars_between(v: &Vec<char>, lo: usize, hi: usize) -> (r: Vec<char>)
    requires
        lo <= hi <= v@.len(),
    ensures
        r@ == v@.subrange(lo as int, hi as int),
{
    let mut out: Vec<char> = Vec::new();
    let mut i = lo;
    while i < hi
        invariant
            lo <= i <= hi <= v@.len(),
            out@ == v@.subrange(lo as int, i as int),
        decreases hi - i,
    {
        out.push(v[i]);
        i += 1;
    }
    out
}

fn number_x(v: &Vec<char>, span: (usize, usize)) -> (r: Option<usize>)
    requires
        span.0 <= span.1 <= v@.len(),
    ensures
        r == number_in(v@, (span.0 as int, span.1 as int)),
{
    let d = chars_between(v, span.0, span.1);
    parse_usize_text(&d)
}

fn muxing_error(msg: &str) -> (e: HlsError)
    ensures
        e matches HlsError::Muxing(m) && m@ == msg@,
{
    let mut m = String::new();
    push_str(&mut m, msg);
    assert(m@ =~= msg@);
    HlsError::Muxing(m)
}

fn muxing_error_with(msg: &str, id: &str) -> (e: HlsError)
    ensures
        e matches HlsError::Muxing(m) && m@ == msg@ + id@,
{
    let mut m = String::new();
    push_str(&mut m, msg);
    push_str(&mut m, id);
    assert(m@ =~= msg@ + id@);
    HlsError::Muxing(m)
}

/// The error is a muxing error with message `m`.
pub open spec fn muxing_with(e: HlsError, m: Seq<char>) -> bool {
    e matches HlsError::Muxing(x) && x@ == m
}

// ---------------------------------------------------------------------------
// Segment ids
// ---------------------------------------------------------------------------

/// The segment an id asks for.
#[derive(Clone, Copy, Debug, PartialEq, Eq, Structural)]
pub enum SegmentRequest {
    /// `v/init.mp4`
    VideoInit,
    /// `a/<index>[-aac]/init.mp4`
    AudioInit { index: usize, force_aac: bool },
    /// `v/<sequence>.m4s` (of the first video stream)
    VideoSegment { sequence: usize },
    /// `a/<index>[-aac]/<sequence>.m4s`
    AudioSegment { index: usize, sequence: usize, force_aac: bool },
    /// `s/<index>/<start>-<end>.vtt`
    SubtitleSegment { index: usize, start_sequence: usize, end_sequence: usize },
}

/// What a segment id asks for, or the message of the error it gets.  The
/// shapes are tried in the order init, audio init, video, audio, subtitle;
/// an `-aac` anywhere in the id asks for the AAC rendition.
pub open spec fn segment_request_of(s: Seq<char>) -> Result<SegmentRequest, Seq<char>> {
    let force_aac = contains(s, s_aac());
    if s == seq!['v', '/', 'i', 'n', 'i', 't', '.', 'm', 'p', '4'] {
        Ok(SegmentRequest::VideoInit)
    } else if leftmost(IdPattern::AudioInit, s, 0) is Some {
        let c = leftmost(IdPattern::AudioInit, s, 0)->0;
        match number_in(s, c[0]) {
            Some(i) => Ok(SegmentRequest::AudioInit { index: i, force_aac }),
            None => Err("Invalid audio ID"@),
        }
    } else if leftmost(IdPattern::VideoSegment, s, 0) is Some {
        let c = leftmost(IdPattern::VideoSegment, s, 0)->0;
        match number_in(s, c[0]) {
            Some(q) => Ok(SegmentRequest::VideoSegment { sequence: q }),
            None => Err("Invalid sequence"@),
        }
    } else if leftmost(IdPattern::AudioSegment, s, 0) is Some {
        let c = leftmost(IdPattern::AudioSegment, s, 0)->0;
        match number_in(s, c[0]) {
            Some(i) => match number_in(s, c[1]) {
                Some(q) => Ok(SegmentRequest::AudioSegment { index: i, sequence: q, force_aac }),
                None => Err("Invalid sequence"@),
            },
            None => Err("Invalid audio ID"@),
        }
    } else if leftmost(IdPattern::SubtitleSegment, s, 0) is Some {
        let c = leftmost(IdPattern::SubtitleSegment, s, 0)->0;
        match number_in(s, c[0]) {
            Some(i) => match number_in(s, c[1]) {
                Some(a) => match number_in(s, c[2]) {
                    Some(b) => Ok(SegmentRequest::SubtitleSegment { index: i, start_sequence: a, end_sequence: b }),
                    None => Err("Invalid end seq"@),
                },
                None => Err("Invalid start seq"@),
            },
            None => Err("Invalid subtitle ID"@),
        }
    } else {
        Err("Invalid segment ID: "@ + s)
    }
}

/// The segment that `segment_id` asks for; a malformed id is a muxing error.
pub fn segment_request(segment_id: &str) -> (r: Result<SegmentRequest, HlsError>)
    ensures
        match r {
            Ok(q) => segment_request_of(segment_id@) == Ok::<SegmentRequest, Seq<char>>(q),
            Err(e) => segment_request_of(segment_id@) is Err && muxing_with(e, segment_request_of(segment_id@)->Err_0),
        },
{
    let v = chars_of(segment_id);
    let init: Vec<char> = vec!['v', '/', 'i', 'n', 'i', 't', '.', 'm', 'p', '4'];
    let ghost s = segment_id@;
    let force_aac = str_contains(segment_id, "-aac");
    proof {
        reveal_strlit("-aac");
        assert("-aac"@ =~= s_aac());
    }
    if v.len() == init.len() && lit_at_x(&v, 0, &init) {
        assert(v@ =~= v@.subrange(0, 10));
        assert(s =~= seq!['v', '/', 'i', 'n', 'i', 't', '.', 'm', 'p', '4']);
        return Ok(SegmentRequest::VideoInit);
    }
    assert(s != seq!['v', '/', 'i', 'n', 'i', 't', '.', 'm', 'p', '4']) by {
        if s == seq!['v', '/', 'i', 'n', 'i', 't', '.', 'm', 'p', '4'] {
            assert(v@.subrange(0, 10) =~= init@);
        }
    }
    match leftmost_x(IdPattern::AudioInit, &v) {
        Some(c) => {
            assert(spans_view(c@)[0] == (c@[0].0 as int, c@[0].1 as int));
            return match number_x(&v, c[0]) {
                Some(i) => Ok(SegmentRequest::AudioInit { index: i, force_aac }),
                None => Err(muxing_error("Invalid audio ID")),
            };
        },
        None => {},
    }
    match leftmost_x(IdPattern::VideoSegment, &v) {
        Some(c) => {
            assert(spans_view(c@)[0] == (c@[0].0 as int, c@[0].1 as int));
            return match number_x(&v, c[0]) {
                Some(q) => Ok(SegmentRequest::VideoSegment { sequence: q }),
                None => Err(muxing_error("Invalid sequence")),
            };
        },
        None => {},
    }
    match leftmost_x(IdPattern::AudioSegment, &v) {
        Some(c) => {
            assert(spans_view(c@)[0] == (c@[0].0 as int, c@[0].1 as int));
            assert(spans_view(c@)[1] == (c@[1].0 as int, c@[1].1 as int));
            let i = match number_x(&v, c[0]) {
                Some(i) => i,
                None => {
                    return Err(muxing_error("Invalid audio ID"));
                },
            };
            return match number_x(&v, c[1]) {
                Some(q) => Ok(SegmentRequest::AudioSegment { index: i, sequence: q, force_aac }),
                None => Err(muxing_error("Invalid sequence")),
            };
        },
        None => {},
    }
    match leftmost_x(IdPattern::SubtitleSegment, &v) {
        Some(c) => {
            assert(spans_view(c@)[0] == (c@[0].0 as int, c@[0].1 as int));
            assert(spans_view(c@)[1] == (c@[1].0 as int, c@[1].1 as int));
            assert(spans_view(c@)[2] == (c@[2].0 as int, c@[2].1 as int));
            let i = match number_x(&v, c[0]) {
                Some(i) => i,
                None => {
                    return Err(muxing_error("Invalid subtitle ID"));
                },
            };
            let a = match number_x(&v, c[1]) {
                Some(a) => a,
                None => {
                    return Err(muxing_error("Invalid start seq"));
                },
            };
            return match number_x(&v, c[2]) {
                Some(b) => Ok(SegmentRequest::SubtitleSegment { index: i, start_sequence: a, end_sequence: b }),
                None => Err(muxing_error("Invalid end seq")),
            };
        },
        None => {},
    }
    Err(muxing_error_with("Invalid segment ID: ", segment_id))
}

// ---------------------------------------------------------------------------
// Playlist ids
// ---------------------------------------------------------------------------

/// The track playlist an id asks for.
#[derive(Clone, Copy, Debug, PartialEq, Eq, Structural)]
pub enum PlaylistRequest {
    /// `v/media.m3u8`
    Video,
    /// `a/<index>[-aac].m3u8`
    Audio { index: usize, force_aac: bool },
    /// `s/<index>.m3u8`
    Subtitle { index: usize },
}

/// What a playlist id asks for, or the message of the error it gets.
pub open spec fn playlist_request_of(s: Seq<char>) -> Result<PlaylistRequest, Seq<char>> {
    if s == seq!['v', '/', 'm', 'e', 'd', 'i', 'a', '.', 'm', '3', 'u', '8'] {
        Ok(PlaylistRequest::Video)
    } else if leftmost(IdPattern::AudioPlaylist, s, 0) is Some {
        let c = leftmost(IdPattern::AudioPlaylist, s, 0)->0;
        match number_in(s, c[0]) {
            Some(i) => Ok(PlaylistRequest::Audio { index: i, force_aac: contains(s, s_aac()) }),
            None => Err("Invalid audio ID"@),
        }
    } else if leftmost(IdPattern::SubtitlePlaylist, s, 0) is Some {
        let c = leftmost(IdPattern::SubtitlePlaylist, s, 0)->0;
        match number_in(s, c[0]) {
            Some(i) => Ok(PlaylistRequest::Subtitle { index: i }),
            None => Err("Invalid subtitle ID"@),
        }
    } else {
        Err("Invalid playlist ID: "@ + s)
    }
}

/// The track playlist that `playlist_id` asks for; a malformed id is a
/// muxing error.
pub fn playlist_request(playlist_id: &str) -> (r: Result<PlaylistRequest, HlsError>)
    ensures
        match r {
            Ok(q) => playlist_request_of(playlist_id@) == Ok::<PlaylistRequest, Seq<char>>(q),
            Err(e) => playlist_request_of(playlist_id@) is Err && muxing_with(e, playlist_request_of(playlist_id@)->Err_0),
        },
{
    let v = chars_of(playlist_id);
    let media: Vec<char> = vec!['v', '/', 'm', 'e', 'd', 'i', 'a', '.', 'm', '3', 'u', '8'];
    let ghost s = playlist_id@;
    if v.len() == media.len() && lit_at_x(&v, 0, &media) {
        assert(v@ =~= v@.subrange(0, 12));
        assert(s =~= seq!['v', '/', 'm', 'e', 'd', 'i', 'a', '.', 'm', '3', 'u', '8']);
        return Ok(PlaylistRequest::Video);
    }
    assert(s != seq!['v', '/', 'm', 'e', 'd', 'i', 'a', '.', 'm', '3', 'u', '8']) by {
        if s == seq!['v', '/', 'm', 'e', 'd', 'i', 'a', '.', 'm', '3', 'u', '8'] {
            assert(v@.subrange(0, 12) =~= media@);
        }
    }
    match leftmost_x(IdPattern::AudioPlaylist, &v) {
        Some(c) => {
            assert(spans_view(c@)[0] == (c@[0].0 as int, c@[0].1 as int));
            let force_aac = str_contains(playlist_id, "-aac");
            proof {
                reveal_strlit("-aac");
                assert("-aac"@ =~= s_aac());
            }
            return match number_x(&v, c[0]) {
                Some(i) => Ok(PlaylistRequest::Audio { index: i, force_aac }),
                None => Err(muxing_error("Invalid audio ID")),
            };
        },
        None => {},
    }
    match leftmost_x(IdPattern::SubtitlePlaylist, &v) {
        Some(c) => {
            assert(spans_view(c@)[0] == (c@[0].0 as int, c@[0].1 as int));
            return match number_x(&v, c[0]) {
                Some(i) => Ok(PlaylistRequest::Subtitle { index: i }),
                None => Err(muxing_error("Invalid subtitle ID")),
            };
        },
        None => {},
    }
    Err(muxing_error_with("Invalid playlist ID: ", playlist_id))
}

} // verus!
