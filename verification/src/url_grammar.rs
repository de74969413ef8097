//! The grammar of HLS request paths, stated over character sequences.
//!
//! Each pattern is read the way a backtracking matcher reads it: greedy
//! repetitions try their longest length first, optional parts are tried
//! before they are skipped, and the first reading that succeeds is taken.

use vstd::prelude::*;
use crate::text::{digit_run, ends_with, lit_at, lower_run, no_char};

verus! {

pub open spec fn s_as_m3u8() -> Seq<char> { seq!['.', 'a', 's', '.', 'm', '3', 'u', '8'] }
pub open spec fn s_mp4() -> Seq<char> { seq!['.', 'm', 'p', '4'] }
pub open spec fn s_mkv() -> Seq<char> { seq!['.', 'm', 'k', 'v'] }
pub open spec fn s_webm() -> Seq<char> { seq!['.', 'w', 'e', 'b', 'm'] }
pub open spec fn s_m3u8() -> Seq<char> { seq!['m', '3', 'u', '8'] }
pub open spec fn s_m4s() -> Seq<char> { seq!['m', '4', 's'] }
pub open spec fn s_init() -> Seq<char> { seq!['i', 'n', 'i', 't'] }
pub open spec fn s_mp4_bare() -> Seq<char> { seq!['m', 'p', '4'] }
pub open spec fn s_vtt() -> Seq<char> { seq!['.', 'v', 't', 't'] }

/// `p` is a video file name: at least one character, then `.mp4`, `.mkv` or `.webm`.
pub open spec fn has_video_ext(p: Seq<char>) -> bool {
    ||| (p.len() >= 5 && (ends_with(p, s_mp4()) || ends_with(p, s_mkv())))
    ||| (p.len() >= 6 && ends_with(p, s_webm()))
}

/// `<video>.as.m3u8`, the main playlist of a video; yields the video part.
pub open spec fn main_playlist_video(s: Seq<char>) -> Option<Seq<char>> {
    if no_char(s, '\n') && ends_with(s, s_as_m3u8()) && has_video_ext(s.subrange(0, s.len() - 8)) {
        Some(s.subrange(0, s.len() - 8))
    } else {
        None
    }
}

/// Index of the first `/` at or after `k` (the length when there is none).
pub open spec fn first_slash_from(s: Seq<char>, k: int) -> int
    decreases s.len() - k,
{
    if k >= s.len() {
        s.len() as int
    } else if k >= 0 && s[k] == '/' {
        k
    } else {
        first_slash_from(s, k + 1)
    }
}

/// `s` reads as `<video>/<session>/<rest>` with the video part ending at `i`.
pub open spec fn valid_split(s: Seq<char>, i: int) -> bool {
    &&& 0 < i < s.len()
    &&& s[i] == '/'
    &&& has_video_ext(s.subrange(0, i))
    &&& no_char(s.subrange(0, i), '\n')
    &&& i + 1 < first_slash_from(s, i + 1)
    &&& first_slash_from(s, i + 1) + 1 < s.len()
    &&& no_char(s.subrange(first_slash_from(s, i + 1) + 1, s.len() as int), '\n')
}

/// The greatest `i' <= i` at which `s` splits validly (the video part is read greedily).
pub open spec fn best_split(s: Seq<char>, i: int) -> Option<int>
    decreases i + 1,
{
    if i < 0 {
        None
    } else if valid_split(s, i) {
        Some(i)
    } else {
        best_split(s, i - 1)
    }
}

/// Capture groups of the four request patterns, as index ranges into the rest.
pub enum RestCaps {
    /// `t.<track>[+<audio>][-<codec>].m3u8`
    Playlist { track: (int, int), audio: Option<(int, int)>, codec: Option<(int, int)> },
    /// `a/<track>[-<codec>][.<seq>].(m4s|init.mp4)`
    Audio { track: (int, int), codec: Option<(int, int)>, seq: Option<(int, int)>, ext: (int, int) },
    /// `v/<track>[+<audio>[-<codec>]][.<seq>].(m4s|init.mp4)`
    Video {
        track: (int, int),
        audio: Option<(int, int)>,
        codec: Option<(int, int)>,
        seq: Option<(int, int)>,
        ext: (int, int),
    },
    /// `s/<track>.<start>-<end>.vtt`
    Vtt { track: (int, int), start: (int, int), end: (int, int) },
}

// ---------------------------------------------------------------- playlists

/// `<any char>m3u8` at `q`.
pub open spec fn tail_m3u8(r: Seq<char>, q: int) -> bool {
    0 <= q && lit_at(r, q + 1, s_m3u8())
}

/// The last start `e` in `[lo, e0]` of `m3u8` in `r`.
pub open spec fn last_m3u8(r: Seq<char>, lo: int, e: int) -> Option<int>
    decreases e - lo + 1,
{
    if e < lo {
        None
    } else if lit_at(r, e, s_m3u8()) {
        Some(e)
    } else {
        last_m3u8(r, lo, e - 1)
    }
}

/// The optional `-<codec>` part at `q` and the trailing `<any>m3u8`; yields the codec range.
pub open spec fn minus_opt(r: Seq<char>, q: int) -> Option<Option<(int, int)>> {
    if 0 <= q < r.len() && r[q] == '-' && last_m3u8(r, q + 3, r.len() - 4) is Some {
        Some(Some((q + 1, last_m3u8(r, q + 3, r.len() - 4)->0 - 1)))
    } else if tail_m3u8(r, q) {
        Some(None)
    } else {
        None
    }
}

/// Greedy search for the length of the `+<audio>` digits.
pub open spec fn plus_search(r: Seq<char>, q: int, k: int) -> Option<(int, Option<(int, int)>)>
    decreases k,
{
    if k < 1 {
        None
    } else {
        match minus_opt(r, q + 1 + k) {
            Some(m) => Some((k, m)),
            None => plus_search(r, q, k - 1),
        }
    }
}

/// The optional `+<audio>` part at `q`; yields the length of the audio digits.
pub open spec fn plus_opt(r: Seq<char>, q: int) -> Option<(Option<int>, Option<(int, int)>)> {
    if 0 <= q < r.len() && r[q] == '+' && plus_search(r, q, digit_run(r, q + 1) as int) is Some {
        let (k, m) = plus_search(r, q, digit_run(r, q + 1) as int)->0;
        Some((Some(k), m))
    } else {
        match minus_opt(r, q) {
            Some(m) => Some((None, m)),
            None => None,
        }
    }
}

/// Greedy search for the length of the track digits.
pub open spec fn track_search(r: Seq<char>, k: int) -> Option<(int, Option<int>, Option<(int, int)>)>
    decreases k,
{
    if k < 1 {
        None
    } else {
        match plus_opt(r, 2 + k) {
            Some((k2, m)) => Some((k, k2, m)),
            None => track_search(r, k - 1),
        }
    }
}

pub open spec fn playlist_caps(r: Seq<char>) -> Option<RestCaps> {
    if r.len() >= 2 && r[0] == 't' {
        match track_search(r, digit_run(r, 2) as int) {
            Some((k1, k2, m)) => Some(RestCaps::Playlist {
                track: (2, 2 + k1),
                audio: match k2 {
                    Some(k) => Some((3 + k1, 3 + k1 + k)),
                    None => None,
                },
                codec: m,
            }),
            None => None,
        }
    } else {
        None
    }
}

// ---------------------------------------------------------------- audio

/// `.(m4s|init<any>mp4)` at `q`, up to the end; yields the extension range.
pub open spec fn audio_tail(r: Seq<char>, q: int) -> bool {
    &&& 0 <= q < r.len()
    &&& r[q] == '.'
    &&& ((r.len() == q + 4 && lit_at(r, q + 1, s_m4s())) || (r.len() == q + 9 && lit_at(r, q + 1, s_init())
        && lit_at(r, q + 6, s_mp4_bare())))
}

/// The optional `.<seq>` part at `p` and the tail; yields the sequence range and the tail position.
pub open spec fn audio_rest(r: Seq<char>, p: int) -> Option<(Option<(int, int)>, int)> {
    if 0 <= p < r.len() && r[p] == '.' && digit_run(r, p + 1) >= 1 && audio_tail(r, p + 1 + digit_run(r, p + 1)) {
        Some((Some((p + 1, p + 1 + digit_run(r, p + 1))), p + 1 + digit_run(r, p + 1)))
    } else if audio_tail(r, p) {
        Some((None, p))
    } else {
        None
    }
}

pub open spec fn audio_caps(r: Seq<char>) -> Option<RestCaps> {
    if r.len() >= 2 && r[0] == 'a' && r[1] == '/' && digit_run(r, 2) >= 1 {
        let p = 2 + digit_run(r, 2) as int;
        let l = lower_run(r, p + 1) as int;
        if p < r.len() && r[p] == '-' && l >= 1 && audio_rest(r, p + 1 + l) is Some {
            let (sq, q) = audio_rest(r, p + 1 + l)->0;
            Some(RestCaps::Audio { track: (2, p), codec: Some((p + 1, p + 1 + l)), seq: sq, ext: (q + 1, r.len() as int) })
        } else if audio_rest(r, p) is Some {
            let (sq, q) = audio_rest(r, p)->0;
            Some(RestCaps::Audio { track: (2, p), codec: None, seq: sq, ext: (q + 1, r.len() as int) })
        } else {
            None
        }
    } else {
        None
    }
}

// ---------------------------------------------------------------- video

/// `.(m4s|init<any>mp4)` at `q`, with anything after it; yields the end of the extension.
pub open spec fn video_tail(r: Seq<char>, q: int) -> Option<int> {
    if 0 <= q < r.len() && r[q] == '.' && lit_at(r, q + 1, s_m4s()) {
        Some(q + 4)
    } else if 0 <= q < r.len() && r[q] == '.' && lit_at(r, q + 1, s_init()) && lit_at(r, q + 6, s_mp4_bare()) {
        Some(q + 9)
    } else {
        None
    }
}

/// The optional `.<seq>` part at `p` and the tail; yields the sequence range and the extension range.
pub open spec fn video_rest(r: Seq<char>, p: int) -> Option<(Option<(int, int)>, (int, int))> {
    if 0 <= p < r.len() && r[p] == '.' && digit_run(r, p + 1) >= 1 && video_tail(r, p + 1 + digit_run(r, p + 1)) is Some {
        let q = p + 1 + digit_run(r, p + 1);
        Some((Some((p + 1, q)), (q + 1, video_tail(r, q)->0)))
    } else if video_tail(r, p) is Some {
        Some((None, (p + 1, video_tail(r, p)->0)))
    } else {
        None
    }
}

pub open spec fn video_caps(r: Seq<char>) -> Option<RestCaps> {
    if r.len() >= 2 && r[0] == 'v' && r[1] == '/' && digit_run(r, 2) >= 1 {
        let p = 2 + digit_run(r, 2) as int;
        let m2 = digit_run(r, p + 1) as int;
        let q = p + 1 + m2;
        let l = lower_run(r, q + 1) as int;
        if p < r.len() && r[p] == '+' && m2 >= 1 && q < r.len() && r[q] == '-' && l >= 1 && video_rest(r, q + 1 + l) is Some {
            let (sq, ext) = video_rest(r, q + 1 + l)->0;
            Some(RestCaps::Video { track: (2, p), audio: Some((p + 1, q)), codec: Some((q + 1, q + 1 + l)), seq: sq, ext })
        } else if p < r.len() && r[p] == '+' && m2 >= 1 && video_rest(r, q) is Some {
            let (sq, ext) = video_rest(r, q)->0;
            Some(RestCaps::Video { track: (2, p), audio: Some((p + 1, q)), codec: None, seq: sq, ext })
        } else if video_rest(r, p) is Some {
            let (sq, ext) = video_rest(r, p)->0;
            Some(RestCaps::Video { track: (2, p), audio: None, codec: None, seq: sq, ext })
        } else {
            None
        }
    } else {
        None
    }
}

// ---------------------------------------------------------------- subtitles

pub open spec fn vtt_caps(r: Seq<char>) -> Option<RestCaps> {
    let m1 = digit_run(r, 2) as int;
    let p = 2 + m1;
    let m2 = digit_run(r, p + 1) as int;
    let q = p + 1 + m2;
    let m3 = digit_run(r, q + 1) as int;
    let t = q + 1 + m3;
    if r.len() >= 2 && r[0] == 's' && r[1] == '/' && m1 >= 1 && p < r.len() && r[p] == '.' && m2 >= 1
        && q < r.len() && r[q] == '-' && m3 >= 1 && lit_at(r, t, s_vtt()) && t + 4 == r.len() {
        Some(RestCaps::Vtt { track: (2, p), start: (p + 1, q), end: (q + 1, t) })
    } else {
        None
    }
}

} // verus!
