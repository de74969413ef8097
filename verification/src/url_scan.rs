//! Executable readers for the request-path grammar, each proved to compute
//! exactly the corresponding reading in `url_grammar`.

use vstd::prelude::*;
use crate::text::{digit_run, is_digit, is_lower, lit_at, lower_run, no_char, lemma_digit_run_bounds,
    lemma_lower_run_bounds};
use crate::url_grammar::{
    first_slash_from, last_m3u8, minus_opt, plus_opt, plus_search, track_search, playlist_caps,
    RestCaps, s_m3u8, tail_m3u8, s_m4s, s_init, s_mp4_bare, s_vtt, audio_tail, audio_rest, audio_caps,
    video_tail, video_rest, video_caps, vtt_caps, s_as_m3u8, s_mp4, s_mkv, s_webm, has_video_ext,
    main_playlist_video, valid_split, best_split,
};
use crate::text::ends_with;

verus! {

pub fn digit_run_x(v: &Vec<char>, p: usize) -> (n: usize)
    requires
        p <= v@.len(),
    ensures
        n == digit_run(v@, p as int),
        p + n <= v@.len(),
{
    let mut i = p;
    while i < v.len() && v[i] >= '0' && v[i] <= '9'
        invariant
            p <= i <= v@.len(),
            digit_run(v@, p as int) == (i - p) + digit_run(v@, i as int),
        decreases v@.len() - i,
    {
        i += 1;
    }
    proof { lemma_digit_run_bounds(v@, p as int); }
    i - p
}

pub fn lower_run_x(v: &Vec<char>, p: usize) -> (n: usize)
    requires
        p <= v@.len(),
    ensures
        n == lower_run(v@, p as int),
        p + n <= v@.len(),
{
    let mut i = p;
    while i < v.len() && v[i] >= 'a' && v[i] <= 'z'
        invariant
            p <= i <= v@.len(),
            lower_run(v@, p as int) == (i - p) + lower_run(v@, i as int),
        decreases v@.len() - i,
    {
        i += 1;
    }
    proof { lemma_lower_run_bounds(v@, p as int); }
    i - p
}

/// Does `lit` occur in `v` at `p`?
pub fn lit_at_x(v: &Vec<char>, p: usize, lit: &Vec<char>) -> (b: bool)
    ensures
        b == lit_at(v@, p as int, lit@),
{
    if p > v.len() || lit.len() > v.len() - p {
        return false;
    }
    let mut k: usize = 0;
    while k < lit.len()
        invariant
            p + lit@.len() <= v@.len(),
            v@.len() <= usize::MAX,
            k <= lit@.len(),
            forall|m: int| 0 <= m < k ==> v@[p + m] == lit@[m],
        decreases lit@.len() - k,
    {
        if v[p + k] != lit[k] {
            assert(v@.subrange(p as int, p + lit@.len())[k as int] != lit@[k as int]);
            return false;
        }
        k += 1;
    }
    assert(v@.subrange(p as int, p + lit@.len()) =~= lit@);
    true
}

/// Is `c` absent from `v[lo..hi]`?
pub fn no_char_x(v: &Vec<char>, lo: usize, hi: usize, c: char) -> (b: bool)
    requires
        lo <= hi <= v@.len(),
    ensures
        b == no_char(v@.subrange(lo as int, hi as int), c),
{
    let mut i = lo;
    while i < hi
        invariant
            lo <= i <= hi <= v@.len(),
            forall|m: int| lo <= m < i ==> v@[m] != c,
        decreases hi - i,
    {
        if v[i] == c {
            assert(v@.subrange(lo as int, hi as int)[i - lo] == c);
            return false;
        }
        i += 1;
    }
    true
}

pub fn first_slash_from_x(v: &Vec<char>, k: usize) -> (j: usize)
    requires
        k <= v@.len(),
    ensures
        j as int == first_slash_from(v@, k as int),
        k <= j <= v@.len(),
{
    let mut i = k;
    while i < v.len() && v[i] != '/'
        invariant
            k <= i <= v@.len(),
            first_slash_from(v@, k as int) == first_slash_from(v@, i as int),
        decreases v@.len() - i,
    {
        i += 1;
    }
    i
}

/// The last start in `[lo, len - 4]` of `m3u8`.
fn last_m3u8_x(r: &Vec<char>, lo: usize) -> (res: Option<usize>)
    requires
        r@.len() >= 4,
    ensures
        match res {
            Some(e) => last_m3u8(r@, lo as int, r@.len() - 4) == Some(e as int) && e >= lo && e + 4 <= r@.len(),
            None => last_m3u8(r@, lo as int, r@.len() - 4) is None,
        },
{
    let lit: Vec<char> = vec!['m', '3', 'u', '8'];
    assert(lit@ =~= s_m3u8());
    let mut e: usize = r.len() - 4;
    loop
        invariant
            e <= r@.len() - 4,
            lit@ == s_m3u8(),
            last_m3u8(r@, lo as int, r@.len() - 4) == last_m3u8(r@, lo as int, e as int),
        decreases e,
    {
        if e < lo {
            return None;
        }
        if lit_at_x(r, e, &lit) {
            return Some(e);
        }
        if e == 0 {
            assert(last_m3u8(r@, lo as int, -1) is None);
            return None;
        }
        e -= 1;
    }
}

fn tail_m3u8_x(r: &Vec<char>, q: usize) -> (b: bool)
    ensures
        b == tail_m3u8(r@, q as int),
{
    let lit: Vec<char> = vec!['m', '3', 'u', '8'];
    assert(lit@ =~= s_m3u8());
    if q >= r.len() {
        return false;
    }
    lit_at_x(r, q + 1, &lit)
}

fn minus_opt_x(r: &Vec<char>, q: usize) -> (res: Option<Option<(usize, usize)>>)
    ensures
        match res {
            Some(Some((a, b))) => minus_opt(r@, q as int) == Some(Some((a as int, b as int))) && a <= b <= r@.len(),
            Some(None) => minus_opt(r@, q as int) == Some(None::<(int, int)>),
            None => minus_opt(r@, q as int) is None,
        },
{
    if q < r.len() && r[q] == '-' && r.len() >= 4 && q <= usize::MAX - 3 {
        match last_m3u8_x(r, q + 3) {
            Some(e) => {
                return Some(Some((q + 1, e - 1)));
            },
            None => {},
        }
    }
    if r.len() < 4 && q < r.len() && r[q] == '-' {
        assert(last_m3u8(r@, q + 3, r@.len() - 4) is None);
    }
    if tail_m3u8_x(r, q) {
        Some(None)
    } else {
        None
    }
}

fn plus_opt_x(r: &Vec<char>, q: usize) -> (res: Option<(Option<usize>, Option<(usize, usize)>)>)
    requires
        q <= r@.len(),
    ensures
        match res {
            Some((k2, m)) => plus_opt(r@, q as int) == Some((
                match k2 { Some(k) => Some(k as int), None => None::<int> },
                match m { Some((a, b)) => Some((a as int, b as int)), None => None::<(int, int)> },
            )) && (match k2 { Some(k) => 1 <= k <= digit_run(r@, q + 1) && q + 1 + k <= r@.len(), None => true })
            && (match m { Some((a, b)) => a <= b <= r@.len(), None => true }),
            None => plus_opt(r@, q as int) is None,
        },
{
    if q < r.len() && r[q] == '+' {
        let m2 = digit_run_x(r, q + 1);
        let mut k = m2;
        while k >= 1
            invariant
                q < r@.len(),
                r@.len() <= usize::MAX,
                r@[q as int] == '+',
                q + 1 + m2 <= r@.len(),
                k <= m2,
                m2 == digit_run(r@, q + 1),
                plus_search(r@, q as int, m2 as int) == plus_search(r@, q as int, k as int),
            decreases k,
        {
            match minus_opt_x(r, q + 1 + k) {
                Some(m) => {
                    return Some((Some(k), m));
                },
                None => {},
            }
            k -= 1;
        }
    }
    match minus_opt_x(r, q) {
        Some(m) => Some((None, m)),
        None => None,
    }
}

pub fn playlist_caps_x(r: &Vec<char>) -> (res: Option<(usize, Option<usize>, Option<(usize, usize)>)>)
    ensures
        match res {
            Some((k1, k2, m)) => playlist_caps(r@) == Some(RestCaps::Playlist {
                track: (2, 2 + k1),
                audio: match k2 { Some(k) => Some((3 + k1, 3 + k1 + k)), None => None::<(int, int)> },
                codec: match m { Some((a, b)) => Some((a as int, b as int)), None => None::<(int, int)> },
            }) && 1 <= k1 <= digit_run(r@, 2) && 2 + k1 <= r@.len()
            && (match k2 { Some(k) => 1 <= k <= digit_run(r@, 3 + k1) && 3 + k1 + k <= r@.len(), None => true })
            && (match m { Some((a, b)) => a <= b <= r@.len(), None => true }),
            None => playlist_caps(r@) is None,
        },
{
    if r.len() < 2 || r[0] != 't' {
        return None;
    }
    let m1 = digit_run_x(r, 2);
    let mut k = m1;
    while k >= 1
        invariant
            r@.len() >= 2,
            r@.len() <= usize::MAX,
            r@[0] == 't',
            k <= m1,
            2 + m1 <= r@.len(),
            m1 == digit_run(r@, 2),
            track_search(r@, m1 as int) == track_search(r@, k as int),
        decreases k,
    {
        match plus_opt_x(r, 2 + k) {
            Some((k2, m)) => {
                return Some((k, k2, m));
            },
            None => {},
        }
        k -= 1;
    }
    None
}


fn audio_tail_x(r: &Vec<char>, q: usize) -> (b: bool)
    ensures
        b == audio_tail(r@, q as int),
{
    let m4s: Vec<char> = vec!['m', '4', 's'];
    let init: Vec<char> = vec!['i', 'n', 'i', 't'];
    let mp4: Vec<char> = vec!['m', 'p', '4'];
    assert(m4s@ =~= s_m4s());
    assert(init@ =~= s_init());
    assert(mp4@ =~= s_mp4_bare());
    if q >= r.len() || r[q] != '.' {
        return false;
    }
    (r.len() - q == 4 && lit_at_x(r, q + 1, &m4s)) || (r.len() - q == 9 && lit_at_x(r, q + 1, &init)
        && lit_at_x(r, q + 6, &mp4))
}

fn audio_rest_x(r: &Vec<char>, p: usize) -> (res: Option<(Option<(usize, usize)>, usize)>)
    requires
        p <= r@.len(),
    ensures
        match res {
            Some((sq, q)) => audio_rest(r@, p as int) == Some((
                match sq { Some((a, b)) => Some((a as int, b as int)), None => None::<(int, int)> },
                q as int,
            )) && q < r@.len()
            && (match sq { Some((a, b)) => b == a + digit_run(r@, a as int) && a <= b <= r@.len(), None => true }),
            None => audio_rest(r@, p as int) is None,
        },
{
    if p < r.len() && r[p] == '.' {
        let m = digit_run_x(r, p + 1);
        if m >= 1 && audio_tail_x(r, p + 1 + m) {
            return Some((Some((p + 1, p + 1 + m)), p + 1 + m));
        }
    }
    if audio_tail_x(r, p) {
        Some((None, p))
    } else {
        None
    }
}

pub fn audio_caps_x(r: &Vec<char>) -> (res: Option<(usize, Option<(usize, usize)>, Option<(usize, usize)>, usize)>)
    ensures
        match res {
            Some((p, codec, sq, e)) => audio_caps(r@) == Some(RestCaps::Audio {
                track: (2, p as int),
                codec: match codec { Some((a, b)) => Some((a as int, b as int)), None => None::<(int, int)> },
                seq: match sq { Some((a, b)) => Some((a as int, b as int)), None => None::<(int, int)> },
                ext: (e as int, r@.len() as int),
            }) && 2 <= p && e <= r@.len() && p == 2 + digit_run(r@, 2) && p <= r@.len()
            && (match codec { Some((a, b)) => a <= b <= r@.len(), None => true })
            && (match sq { Some((a, b)) => b == a + digit_run(r@, a as int) && a <= b <= r@.len(), None => true }),
            None => audio_caps(r@) is None,
        },
{
    if r.len() < 2 || r[0] != 'a' || r[1] != '/' {
        return None;
    }
    let m1 = digit_run_x(r, 2);
    if m1 < 1 {
        return None;
    }
    let p = 2 + m1;
    if p < r.len() && r[p] == '-' {
        let l = lower_run_x(r, p + 1);
        if l >= 1 {
            match audio_rest_x(r, p + 1 + l) {
                Some((sq, q)) => {
                    return Some((p, Some((p + 1, p + 1 + l)), sq, q + 1));
                },
                None => {},
            }
        }
    }
    match audio_rest_x(r, p) {
        Some((sq, q)) => Some((p, None, sq, q + 1)),
        None => None,
    }
}

fn video_tail_x(r: &Vec<char>, q: usize) -> (res: Option<usize>)
    ensures
        match res {
            Some(e) => video_tail(r@, q as int) == Some(e as int) && e <= r@.len(),
            None => video_tail(r@, q as int) is None,
        },
{
    let m4s: Vec<char> = vec!['m', '4', 's'];
    let init: Vec<char> = vec!['i', 'n', 'i', 't'];
    let mp4: Vec<char> = vec!['m', 'p', '4'];
    assert(m4s@ =~= s_m4s());
    assert(init@ =~= s_init());
    assert(mp4@ =~= s_mp4_bare());
    if q >= r.len() || r[q] != '.' {
        return None;
    }
    let n = r.len();
    if lit_at_x(r, q + 1, &m4s) {
        return Some(q + 4);
    }
    if r.len() - q >= 6 && lit_at_x(r, q + 1, &init) && lit_at_x(r, q + 6, &mp4) {
        return Some(q + 9);
    }
    if !(r.len() - q >= 6) {
        assert(!lit_at(r@, q + 6, s_mp4_bare()));
    }
    None
}

fn video_rest_x(r: &Vec<char>, p: usize) -> (res: Option<(Option<(usize, usize)>, (usize, usize))>)
    requires
        p <= r@.len(),
    ensures
        match res {
            Some((sq, (a, b))) => video_rest(r@, p as int) == Some((
                match sq { Some((x, y)) => Some((x as int, y as int)), None => None::<(int, int)> },
                (a as int, b as int),
            )) && a <= b <= r@.len()
            && (match sq { Some((x, y)) => y == x + digit_run(r@, x as int) && x <= y <= r@.len(), None => true }),
            None => video_rest(r@, p as int) is None,
        },
{
    if p < r.len() && r[p] == '.' {
        let m = digit_run_x(r, p + 1);
        if m >= 1 {
            let q = p + 1 + m;
            match video_tail_x(r, q) {
                Some(e) => {
                    return Some((Some((p + 1, q)), (q + 1, e)));
                },
                None => {},
            }
        }
    }
    match video_tail_x(r, p) {
        Some(e) => Some((None, (p + 1, e))),
        None => None,
    }
}

pub fn video_caps_x(r: &Vec<char>) -> (res: Option<(usize, Option<(usize, usize)>, Option<(usize, usize)>, Option<(usize, usize)>, (usize, usize))>)
    ensures
        match res {
            Some((p, audio, codec, sq, (ea, eb))) => video_caps(r@) == Some(RestCaps::Video {
                track: (2, p as int),
                audio: match audio { Some((a, b)) => Some((a as int, b as int)), None => None::<(int, int)> },
                codec: match codec { Some((a, b)) => Some((a as int, b as int)), None => None::<(int, int)> },
                seq: match sq { Some((a, b)) => Some((a as int, b as int)), None => None::<(int, int)> },
                ext: (ea as int, eb as int),
            }) && 2 <= p <= r@.len() && ea <= eb <= r@.len() && p == 2 + digit_run(r@, 2)
            && (codec is Some ==> audio is Some)
            && (match audio { Some((a, b)) => b == a + digit_run(r@, a as int) && a <= b <= r@.len(), None => true })
            && (match codec { Some((a, b)) => a <= b <= r@.len(), None => true })
            && (match sq { Some((a, b)) => b == a + digit_run(r@, a as int) && a <= b <= r@.len(), None => true }),
            None => video_caps(r@) is None,
        },
{
    if r.len() < 2 || r[0] != 'v' || r[1] != '/' {
        return None;
    }
    let m1 = digit_run_x(r, 2);
    if m1 < 1 {
        return None;
    }
    let p = 2 + m1;
    if p < r.len() && r[p] == '+' {
        let m2 = digit_run_x(r, p + 1);
        if m2 >= 1 {
            let q = p + 1 + m2;
            if q < r.len() && r[q] == '-' {
                let l = lower_run_x(r, q + 1);
                if l >= 1 {
                    match video_rest_x(r, q + 1 + l) {
                        Some((sq, ext)) => {
                            return Some((p, Some((p + 1, q)), Some((q + 1, q + 1 + l)), sq, ext));
                        },
                        None => {},
                    }
                }
            }
            match video_rest_x(r, q) {
                Some((sq, ext)) => {
                    return Some((p, Some((p + 1, q)), None, sq, ext));
                },
                None => {},
            }
        }
    }
    match video_rest_x(r, p) {
        Some((sq, ext)) => Some((p, None, None, sq, ext)),
        None => None,
    }
}

pub fn vtt_caps_x(r: &Vec<char>) -> (res: Option<(usize, usize, usize)>)
    ensures
        match res {
            Some((p, q, t)) => vtt_caps(r@) == Some(RestCaps::Vtt {
                track: (2, p as int),
                start: (p + 1, q as int),
                end: (q + 1, t as int),
            }) && 2 <= p < q < t <= r@.len() && p == 2 + digit_run(r@, 2) && q == p + 1 + digit_run(r@, p + 1)
            && t == q + 1 + digit_run(r@, q + 1),
            None => vtt_caps(r@) is None,
        },
{
    let vtt: Vec<char> = vec!['.', 'v', 't', 't'];
    assert(vtt@ =~= s_vtt());
    if r.len() < 2 || r[0] != 's' || r[1] != '/' {
        return None;
    }
    let m1 = digit_run_x(r, 2);
    let p = 2 + m1;
    if m1 < 1 || p >= r.len() || r[p] != '.' {
        return None;
    }
    let m2 = digit_run_x(r, p + 1);
    let q = p + 1 + m2;
    if m2 < 1 || q >= r.len() || r[q] != '-' {
        return None;
    }
    let m3 = digit_run_x(r, q + 1);
    let t = q + 1 + m3;
    if m3 >= 1 && lit_at_x(r, t, &vtt) && r.len() - t == 4 {
        Some((p, q, t))
    } else {
        None
    }
}

fn ends_with_x(v: &Vec<char>, hi: usize, suffix: &Vec<char>) -> (b: bool)
    requires
        hi <= v@.len(),
    ensures
        b == ends_with(v@.subrange(0, hi as int), suffix@),
{
    if suffix.len() > hi {
        return false;
    }
    let r = lit_at_x(v, hi - suffix.len(), suffix);
    assert(v@.subrange(0, hi as int).subrange(hi - suffix@.len(), hi as int)
        =~= v@.subrange(hi - suffix@.len(), hi as int));
    r
}

fn has_video_ext_x(v: &Vec<char>, hi: usize) -> (b: bool)
    requires
        hi <= v@.len(),
    ensures
        b == has_video_ext(v@.subrange(0, hi as int)),
{
    let mp4: Vec<char> = vec!['.', 'm', 'p', '4'];
    let mkv: Vec<char> = vec!['.', 'm', 'k', 'v'];
    let webm: Vec<char> = vec!['.', 'w', 'e', 'b', 'm'];
    assert(mp4@ =~= s_mp4());
    assert(mkv@ =~= s_mkv());
    assert(webm@ =~= s_webm());
    (hi >= 5 && (ends_with_x(v, hi, &mp4) || ends_with_x(v, hi, &mkv))) || (hi >= 6 && ends_with_x(v, hi, &webm))
}

/// The video part of a main-playlist path, if `v` is one.
pub fn main_playlist_x(v: &Vec<char>) -> (res: Option<usize>)
    ensures
        match res {
            Some(n) => main_playlist_video(v@) == Some(v@.subrange(0, n as int)) && n <= v@.len(),
            None => main_playlist_video(v@) is None,
        },
{
    let suffix: Vec<char> = vec!['.', 'a', 's', '.', 'm', '3', 'u', '8'];
    assert(suffix@ =~= s_as_m3u8());
    let n = v.len();
    assert(v@.subrange(0, n as int) =~= v@);
    if no_char_x(v, 0, n, '\n') && ends_with_x(v, n, &suffix) && has_video_ext_x(v, n - 8) {
        Some(n - 8)
    } else {
        None
    }
}

fn valid_split_x(v: &Vec<char>, i: usize) -> (res: Option<usize>)
    requires
        i < v@.len(),
    ensures
        match res {
            Some(j) => valid_split(v@, i as int) && j as int == first_slash_from(v@, i + 1),
            None => !valid_split(v@, i as int),
        },
{
    let n = v.len();
    if i == 0 || v[i] != '/' || !has_video_ext_x(v, i) || !no_char_x(v, 0, i, '\n') {
        return None;
    }
    let j = first_slash_from_x(v, i + 1);
    if !(i + 1 < j) || !(j < v.len() - 1) {
        return None;
    }
    if no_char_x(v, j + 1, v.len(), '\n') {
        Some(j)
    } else {
        None
    }
}

/// The split of `v` into video, session and rest, taking the longest video part.
pub fn best_split_x(v: &Vec<char>) -> (res: Option<(usize, usize)>)
    ensures
        match res {
            Some((i, j)) => best_split(v@, v@.len() - 1) == Some(i as int) && j as int == first_slash_from(v@, i + 1)
                && i < j < v@.len(),
            None => best_split(v@, v@.len() - 1) is None,
        },
{
    if v.len() == 0 {
        return None;
    }
    let mut i: usize = v.len() - 1;
    loop
        invariant
            i < v@.len(),
            best_split(v@, v@.len() - 1) == best_split(v@, i as int),
        decreases i,
    {
        match valid_split_x(v, i) {
            Some(j) => {
                return Some((i, j));
            },
            None => {},
        }
        if i == 0 {
            assert(best_split(v@, -1) is None);
            return None;
        }
        i -= 1;
    }
}

} // verus!
