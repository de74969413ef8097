//! What reading gives back of writing: a request written out and read again is the same request.

use vstd::prelude::*;
use crate::text::{dec, dec_value, is_digit, is_lower, digit_run, lower_run, lit_at, ends_with, no_char,
    lemma_dec_digits, lemma_digit_run_exact, lemma_lower_run_exact};
use crate::url_grammar::{has_video_ext, main_playlist_video, best_split, valid_split, first_slash_from,
    playlist_caps, audio_caps, video_caps, vtt_caps, video_rest, video_tail, audio_rest, audio_tail,
    s_mp4, s_mkv, s_webm, s_as_m3u8, s_m4s, s_init, s_mp4_bare, s_vtt, s_m3u8, RestCaps, track_search,
    plus_opt, plus_search, minus_opt, last_m3u8, tail_m3u8};
use crate::url::{spec_parse, rest_parse, UrlParse, HlsUrlView, UrlTypeView, VideoSegmentView,
    AudioSegmentView, PlaylistView, VttSegment, video_segment_text, audio_segment_text, vtt_segment_text,
    playlist_text, hls_url_text, last_component, after_last_slash, codec_suffix, segment_suffix, audio_part, num,
    fits, group, opt_num, opt_group, ext_conflict, s_init_mp4, s_m4s_ext};

verus! {

/// A usable video path: it names a `.mp4`, `.mkv` or `.webm` file and holds no line break.
pub open spec fn video_url_ok(v: Seq<char>) -> bool {
    has_video_ext(v) && no_char(v, '\n')
}

/// A usable session id: not empty, no `/`, and not itself ending like a video file.
pub open spec fn session_ok(s: Seq<char>) -> bool {
    &&& s.len() >= 1
    &&& no_char(s, '/')
    &&& !ends_with(s, s_mp4())
    &&& !ends_with(s, s_mkv())
    &&& !ends_with(s, s_webm())
}

/// A usable codec name: one or more ASCII lower-case letters.
pub open spec fn codec_ok(t: Seq<char>) -> bool {
    t.len() >= 1 && forall|i: int| 0 <= i < t.len() ==> is_lower(#[trigger] t[i])
}

pub open spec fn opt_codec_ok(o: Option<Seq<char>>) -> bool {
    match o {
        Some(t) => codec_ok(t),
        None => true,
    }
}

/// The full path of a request inside a session.
pub open spec fn request_path(v: Seq<char>, s: Seq<char>, rest: Seq<char>) -> Seq<char> {
    v + seq!['/'] + s + seq!['/'] + rest
}

/// Characters that the writers put after the first two characters of a request.
pub open spec fn plain(c: char) -> bool {
    is_digit(c) || is_lower(c) || c == '.' || c == '+' || c == '-'
}

pub open spec fn all_plain(t: Seq<char>) -> bool {
    forall|i: int| 0 <= i < t.len() ==> plain(#[trigger] t[i])
}

proof fn lemma_dec_plain(n: nat)
    ensures
        all_plain(dec(n)),
        dec(n).len() >= 1,
        forall|i: int| 0 <= i < dec(n).len() ==> is_digit(#[trigger] dec(n)[i]),
        dec_value(dec(n)) == n,
{
    lemma_dec_digits(n);
}

proof fn lemma_concat_plain(a: Seq<char>, b: Seq<char>)
    requires
        all_plain(a),
        all_plain(b),
    ensures
        all_plain(a + b),
{
    assert forall|i: int| 0 <= i < (a + b).len() implies plain(#[trigger] (a + b)[i]) by {
        if i < a.len() {
            assert((a + b)[i] == a[i]);
        } else {
            assert((a + b)[i] == b[i - a.len()]);
        }
    }
}

proof fn lemma_codec_suffix_plain(tc: Option<Seq<char>>)
    requires
        opt_codec_ok(tc),
    ensures
        all_plain(codec_suffix(tc)),
{
    match tc {
        Some(t) => {
            assert(all_plain(seq!['-']));
            assert(all_plain(t));
            lemma_concat_plain(seq!['-'], t);
        },
        None => {},
    }
}

proof fn lemma_segment_suffix_plain(seg: Option<usize>)
    ensures
        all_plain(segment_suffix(seg)),
{
    match seg {
        Some(n) => {
            lemma_dec_plain(n as nat);
            assert(all_plain(seq!['.']));
            assert(all_plain(seq!['.', 'm', '4', 's']));
            lemma_concat_plain(seq!['.'], dec(n as nat));
            lemma_concat_plain(seq!['.'] + dec(n as nat), seq!['.', 'm', '4', 's']);
        },
        None => {
            assert(all_plain(seq!['.', 'i', 'n', 'i', 't', '.', 'm', 'p', '4']));
        },
    }
}

proof fn lemma_audio_part_plain(audio: Option<usize>, tc: Option<Seq<char>>)
    requires
        opt_codec_ok(tc),
    ensures
        all_plain(audio_part(audio, tc)),
{
    match audio {
        Some(a) => {
            lemma_dec_plain(a as nat);
            lemma_codec_suffix_plain(tc);
            assert(all_plain(seq!['+']));
            lemma_concat_plain(seq!['+'], dec(a as nat));
            lemma_concat_plain(seq!['+'] + dec(a as nat), codec_suffix(tc));
        },
        None => {
            assert(all_plain(Seq::<char>::empty()));
        },
    }
}

/// A number written at `p`, followed by a non-digit or the end, reads back as itself.
proof fn lemma_number_at(r: Seq<char>, p: int, n: nat)
    requires
        0 <= p,
        p + dec(n).len() <= r.len(),
        r.subrange(p, p + dec(n).len()) == dec(n),
        p + dec(n).len() == r.len() || !is_digit(r[p + dec(n).len()]),
    ensures
        digit_run(r, p) == dec(n).len(),
        num(r, (p, p + dec(n).len())) == n,
        dec(n).len() >= 1,
{
    lemma_dec_plain(n);
    assert forall|i: int| p <= i < p + dec(n).len() implies is_digit(#[trigger] r[i]) by {
        assert(r[i] == r.subrange(p, p + dec(n).len())[i - p]);
    }
    lemma_digit_run_exact(r, p, dec(n).len() as int);
}

/// A codec name written at `p`, followed by a non-letter or the end, reads back as itself.
proof fn lemma_codec_at(r: Seq<char>, p: int, t: Seq<char>)
    requires
        0 <= p,
        p + t.len() <= r.len(),
        r.subrange(p, p + t.len()) == t,
        codec_ok(t),
        p + t.len() == r.len() || !is_lower(r[p + t.len()]),
    ensures
        lower_run(r, p) == t.len(),
{
    assert forall|i: int| p <= i < p + t.len() implies is_lower(#[trigger] r[i]) by {
        assert(r[i] == r.subrange(p, p + t.len())[i - p]);
    }
    lemma_lower_run_exact(r, p, t.len() as int);
}

/// The last characters of a video file name hold no `/`.
proof fn lemma_ext_no_slash(p: Seq<char>)
    requires
        has_video_ext(p),
    ensures
        p.len() >= 5,
        p[p.len() - 1] != '/',
        p[p.len() - 2] != '/',
        p[p.len() - 3] != '/',
        p[p.len() - 4] != '/',
{
    if p.len() >= 5 && ends_with(p, s_mp4()) {
        assert(p[p.len() - 1] == p.subrange(p.len() - 4, p.len() as int)[3]);
        assert(p[p.len() - 2] == p.subrange(p.len() - 4, p.len() as int)[2]);
        assert(p[p.len() - 3] == p.subrange(p.len() - 4, p.len() as int)[1]);
        assert(p[p.len() - 4] == p.subrange(p.len() - 4, p.len() as int)[0]);
    } else if p.len() >= 5 && ends_with(p, s_mkv()) {
        assert(p[p.len() - 1] == p.subrange(p.len() - 4, p.len() as int)[3]);
        assert(p[p.len() - 2] == p.subrange(p.len() - 4, p.len() as int)[2]);
        assert(p[p.len() - 3] == p.subrange(p.len() - 4, p.len() as int)[1]);
        assert(p[p.len() - 4] == p.subrange(p.len() - 4, p.len() as int)[0]);
    } else {
        assert(p[p.len() - 1] == p.subrange(p.len() - 5, p.len() as int)[4]);
        assert(p[p.len() - 2] == p.subrange(p.len() - 5, p.len() as int)[3]);
        assert(p[p.len() - 3] == p.subrange(p.len() - 5, p.len() as int)[2]);
        assert(p[p.len() - 4] == p.subrange(p.len() - 5, p.len() as int)[1]);
    }
}

/// `ends_with` only looks at the tail.
proof fn lemma_ends_with_tail(a: Seq<char>, b: Seq<char>, e: Seq<char>)
    requires
        e.len() <= b.len(),
    ensures
        ends_with(a + b, e) == ends_with(b, e),
{
    let ab = a + b;
    assert(ab.subrange(ab.len() - e.len(), ab.len() as int) =~= b.subrange(b.len() - e.len(), b.len() as int));
}

/// A video path followed by `/` and a well-formed session id is no video file name.
proof fn lemma_session_end_not_video(v: Seq<char>, s: Seq<char>)
    requires
        session_ok(s),
    ensures
        !has_video_ext(v + seq!['/'] + s),
{
    let p = v + seq!['/'] + s;
    assert(p[v.len() as int] == '/');
    if has_video_ext(p) {
        lemma_ext_no_slash(p);
        // the slash at |v| is not among the last four characters, so |s| >= 4
        assert(s.len() >= 4);
        let ext = if ends_with(p, s_mp4()) { s_mp4() } else if ends_with(p, s_mkv()) { s_mkv() } else { s_webm() };
        if ends_with(p, s_webm()) && !ends_with(p, s_mp4()) && !ends_with(p, s_mkv()) {
            assert(p.len() >= 6);
            if s.len() == 4 {
                assert(p[p.len() - 5] == p.subrange(p.len() - 5, p.len() as int)[0]);
                assert(p[p.len() - 5] == '/');
                assert(false);
            }
            lemma_ends_with_tail(v + seq!['/'], s, s_webm());
        } else if ends_with(p, s_mp4()) {
            lemma_ends_with_tail(v + seq!['/'], s, s_mp4());
        } else {
            lemma_ends_with_tail(v + seq!['/'], s, s_mkv());
        }
    }
}

proof fn lemma_first_slash(s: Seq<char>, k: int, j: int)
    requires
        0 <= k <= j < s.len(),
        s[j] == '/',
        forall|i: int| k <= i < j ==> s[i] != '/',
    ensures
        first_slash_from(s, k) == j,
    decreases j - k,
{
    if k < j {
        lemma_first_slash(s, k + 1, j);
    }
}

proof fn lemma_best_split_is(s: Seq<char>, n: int, i: int)
    requires
        0 <= i <= n,
        valid_split(s, i),
        forall|k: int| i < k <= n ==> !valid_split(s, k),
    ensures
        best_split(s, n) == Some(i),
    decreases n - i,
{
    if n > i {
        lemma_best_split_is(s, n - 1, i);
    }
}

/// For a request inside a session whose rest has its only `/` at index 1 (or none), reading splits
/// the path right after the video part.
proof fn lemma_split_at_video(v: Seq<char>, s: Seq<char>, t: Seq<char>)
    requires
        video_url_ok(v),
        session_ok(s),
        t.len() >= 2,
        t[1] == '/' ==> t[0] != '/' && t[0] != '\n',
        forall|i: int| 2 <= i < t.len() ==> plain(#[trigger] t[i]),
        t[0] != '/' && t[0] != '\n',
        t[1] != '\n',
    ensures
        best_split(request_path(v, s, t), request_path(v, s, t).len() - 1) == Some(v.len() as int),
        first_slash_from(request_path(v, s, t), v.len() as int + 1) == v.len() as int + 1 + s.len() as int,
        request_path(v, s, t).subrange(0, v.len() as int) == v,
        request_path(v, s, t).subrange(v.len() as int + 1, v.len() as int + 1 + s.len() as int) == s,
        request_path(v, s, t).subrange(v.len() as int + 2 + s.len() as int, request_path(v, s, t).len() as int) == t,
{
    let full = request_path(v, s, t);
    let b = v.len() as int + 2 + s.len() as int;
    assert(full.len() == b + t.len());
    assert forall|i: int| 0 <= i < v.len() implies full[i] == v[i] by {}
    assert(full[v.len() as int] == '/');
    assert forall|i: int| 0 <= i < s.len() implies full[v.len() + 1 + i] == s[i] by {}
    assert(full[v.len() as int + 1 + s.len() as int] == '/');
    assert forall|i: int| 0 <= i < t.len() implies full[b + i] == t[i] by {}
    assert(full.subrange(0, v.len() as int) =~= v);
    assert(full.subrange(v.len() as int + 1, v.len() as int + 1 + s.len() as int) =~= s);
    assert(full.subrange(b, full.len() as int) =~= t);
    // the session holds no slash
    assert forall|i: int| v.len() + 1 <= i < v.len() as int + 1 + s.len() as int implies full[i] != '/' by {
        assert(full[i] == s[i - v.len() - 1]);
    }
    lemma_first_slash(full, v.len() as int + 1, v.len() as int + 1 + s.len() as int);
    // the rest holds no line break
    assert forall|i: int| 0 <= i < t.len() implies t[i] != '\n' by {
        if i >= 2 {
            assert(plain(t[i]));
        }
    }
    assert(no_char(full.subrange(b, full.len() as int), '\n'));
    assert(valid_split(full, v.len() as int));
    assert forall|k: int| v.len() < k <= full.len() - 1 implies !valid_split(full, k) by {
        if valid_split(full, k) {
            assert(full[k] == '/');
            if k < v.len() as int + 1 + s.len() as int {
                assert(full[k] == s[k - v.len() - 1]);
            } else if k == v.len() as int + 1 + s.len() as int {
                assert(full.subrange(0, k) =~= v + seq!['/'] + s);
                lemma_session_end_not_video(v, s);
            } else {
                let ti = k - b;
                assert(full[k] == t[ti]);
                if ti >= 2 {
                    assert(plain(t[ti]));
                } else {
                    // ti == 1: the character two before is the slash after the session
                    assert(ti == 1);
                    let p = full.subrange(0, k);
                    lemma_ext_no_slash(p);
                    assert(p[p.len() - 2] == full[k - 2]);
                    assert(full[k - 2] == '/');
                }
            }
        }
    }
    lemma_best_split_is(full, full.len() - 1, v.len() as int);
}

/// No request inside a session reads as a main playlist: its last characters differ from `.as.m3u8`.
proof fn lemma_not_main(full: Seq<char>, t: Seq<char>, k: int)
    requires
        t.len() >= 1,
        ends_with(full, t),
        0 <= k < t.len(),
        k >= t.len() - 8,
        t[k] != s_as_m3u8()[k - t.len() + 8],
    ensures
        main_playlist_video(full) is None,
{
    if ends_with(full, s_as_m3u8()) {
        let i = full.len() - t.len() + k;
        assert(full[i] == full.subrange(full.len() - t.len(), full.len() as int)[k]);
        assert(full[i] == full.subrange(full.len() - 8, full.len() as int)[i - (full.len() - 8)]);
    }
}

/// Where the sequence number and extension of a segment suffix written at `pos` lie.
pub open spec fn suffix_caps(pos: int, seg: Option<usize>) -> (Option<(int, int)>, (int, int)) {
    match seg {
        Some(n) => (Some((pos + 1, pos + 1 + dec(n as nat).len())), (pos + 2 + dec(n as nat).len(), pos + 5 + dec(n as nat).len())),
        None => (None, (pos + 1, pos + 9)),
    }
}

proof fn lemma_suffix_chars(t: Seq<char>, pos: int, seg: Option<usize>)
    requires
        0 <= pos <= t.len(),
        t.subrange(pos, t.len() as int) == segment_suffix(seg),
    ensures
        forall|i: int| 0 <= i < segment_suffix(seg).len() ==> t[pos + i] == #[trigger] segment_suffix(seg)[i],
        t.len() == pos + segment_suffix(seg).len(),
{
    assert forall|i: int| 0 <= i < segment_suffix(seg).len() implies t[pos + i] == #[trigger] segment_suffix(seg)[i] by {
        assert(t[pos + i] == t.subrange(pos, t.len() as int)[i]);
    }
}

proof fn lemma_video_rest(t: Seq<char>, pos: int, seg: Option<usize>)
    requires
        0 <= pos <= t.len(),
        t.subrange(pos, t.len() as int) == segment_suffix(seg),
    ensures
        video_rest(t, pos) == Some(suffix_caps(pos, seg)),
        opt_num(t, suffix_caps(pos, seg).0) == seg,
        match seg { Some(n) => crate::url::fits(t, suffix_caps(pos, seg).0->0), None => true },
        group(t, suffix_caps(pos, seg).1) == (match seg { Some(_) => s_m4s_ext(), None => s_init_mp4() }),
{
    lemma_suffix_chars(t, pos, seg);
    let ss = segment_suffix(seg);
    match seg {
        Some(n) => {
            let dn = dec(n as nat);
            let dl = dn.len() as int;
            assert(ss =~= seq!['.'] + dn + seq!['.', 'm', '4', 's']);
            assert(ss[0] == '.');
            assert(t[pos] == ss[0]);
            assert forall|i: int| 0 <= i < dl implies t[pos + 1 + i] == dn[i] by {
                assert(t[pos + 1 + i] == ss[1 + i]);
            }
            assert(t.subrange(pos + 1, pos + 1 + dl) =~= dn);
            assert(t[pos + 1 + dl] == ss[1 + dl]);
            lemma_number_at(t, pos + 1, n as nat);
            let q = pos + 1 + dl;
            assert(t[q] == '.');
            assert(t.subrange(q + 1, q + 4) =~= s_m4s()) by {
                assert(t[q + 1] == ss[2 + dl]);
                assert(t[q + 2] == ss[3 + dl]);
                assert(t[q + 3] == ss[4 + dl]);
            }
            assert(video_tail(t, q) == Some(q + 4));
            assert(group(t, (q + 1, q + 4)) =~= s_m4s_ext());
        },
        None => {
            assert(t[pos] == '.');
            assert(t[pos + 1] == 'i');
            assert(digit_run(t, pos + 1) == 0);
            assert(!lit_at(t, pos + 1, s_m4s())) by {
                assert(t.subrange(pos + 1, pos + 4)[0] == 'i');
            }
            assert(t.subrange(pos + 1, pos + 5) =~= s_init());
            assert(t.subrange(pos + 6, pos + 9) =~= s_mp4_bare());
            assert(video_tail(t, pos) == Some(pos + 9));
            assert(group(t, (pos + 1, pos + 9)) =~= s_init_mp4());
        },
    }
}

proof fn lemma_audio_rest(t: Seq<char>, pos: int, seg: Option<usize>)
    requires
        0 <= pos <= t.len(),
        t.subrange(pos, t.len() as int) == segment_suffix(seg),
    ensures
        audio_rest(t, pos) == Some((suffix_caps(pos, seg).0, suffix_caps(pos, seg).1.0 - 1)),
        suffix_caps(pos, seg).1.1 == t.len(),
        opt_num(t, suffix_caps(pos, seg).0) == seg,
        match seg { Some(n) => crate::url::fits(t, suffix_caps(pos, seg).0->0), None => true },
        group(t, suffix_caps(pos, seg).1) == (match seg { Some(_) => s_m4s_ext(), None => s_init_mp4() }),
{
    lemma_suffix_chars(t, pos, seg);
    lemma_video_rest(t, pos, seg);
    let ss = segment_suffix(seg);
    match seg {
        Some(n) => {
            let dn = dec(n as nat);
            let dl = dn.len() as int;
            assert(ss =~= seq!['.'] + dn + seq!['.', 'm', '4', 's']);
            let q = pos + 1 + dl;
            assert(t[q] == ss[1 + dl]);
            assert(t.subrange(q + 1, q + 4) =~= s_m4s()) by {
                assert(t[q + 1] == ss[2 + dl]);
                assert(t[q + 2] == ss[3 + dl]);
                assert(t[q + 3] == ss[4 + dl]);
            }
            assert(audio_tail(t, q));
        },
        None => {
            assert(t.subrange(pos + 1, pos + 5) =~= s_init());
            assert(t.subrange(pos + 6, pos + 9) =~= s_mp4_bare());
            assert(audio_tail(t, pos));
        },
    }
}

pub open spec fn video_segment_ok(m: VideoSegmentView) -> bool {
    opt_codec_ok(m.audio_transcode_to) && (m.audio_transcode_to is Some ==> m.audio_track_id is Some)
}

/// Where the parts of a written video segment request lie.
pub open spec fn video_text_caps(m: VideoSegmentView) -> RestCaps {
    let p = 2 + dec(m.track_id as nat).len() as int;
    let (audio, codec, pos) = match m.audio_track_id {
        Some(a) => {
            let q = p + 1 + dec(a as nat).len() as int;
            match m.audio_transcode_to {
                Some(c) => (Some((p + 1, q)), Some((q + 1, q + 1 + c.len() as int)), q + 1 + c.len() as int),
                None => (Some((p + 1, q)), None, q),
            }
        },
        None => (None, None, p),
    };
    let (sq, ext) = suffix_caps(pos, m.segment_id);
    RestCaps::Video { track: (2, p), audio, codec, seq: sq, ext }
}

#[verifier::rlimit(100)]
proof fn lemma_video_caps(m: VideoSegmentView)
    requires
        video_segment_ok(m),
    ensures
        video_caps(video_segment_text(m)) == Some(video_text_caps(m)),
        ({
            let t = video_segment_text(m);
            match video_text_caps(m) {
                RestCaps::Video { track, audio, codec, seq, ext } => {
                    &&& num(t, track) == m.track_id
                    &&& crate::url::fits(t, track)
                    &&& crate::url::opt_fits(t, audio)
                    &&& crate::url::opt_fits(t, seq)
                    &&& opt_num(t, audio) == m.audio_track_id
                    &&& opt_group(t, codec) == m.audio_transcode_to
                    &&& opt_num(t, seq) == m.segment_id
                    &&& group(t, ext) == (match m.segment_id { Some(_) => s_m4s_ext(), None => s_init_mp4() })
                },
                _ => false,
            }
        }),
{
    let t = video_segment_text(m);
    let d1 = dec(m.track_id as nat);
    let ap = audio_part(m.audio_track_id, m.audio_transcode_to);
    let ss = segment_suffix(m.segment_id);
    assert(t =~= seq!['v', '/'] + d1 + ap + ss);
    let p = 2 + d1.len() as int;
    let pos = p + ap.len() as int;
    assert forall|i: int| 0 <= i < d1.len() implies t[2 + i] == d1[i] by {}
    assert forall|i: int| 0 <= i < ap.len() implies t[p + i] == ap[i] by {}
    assert forall|i: int| 0 <= i < ss.len() implies t[pos + i] == ss[i] by {}
    assert(t.subrange(2, p) =~= d1);
    assert(t.subrange(pos, t.len() as int) =~= ss);
    assert(ss[0] == '.');
    assert(t[pos] == '.');
    lemma_video_rest(t, pos, m.segment_id);
    match m.audio_track_id {
        Some(a) => {
            let da = dec(a as nat);
            let dl = da.len() as int;
            let q = p + 1 + dl;
            assert(ap[0] == '+');
            assert(t[p] == '+');
            assert forall|i: int| 0 <= i < dl implies t[p + 1 + i] == da[i] by {
                assert(t[p + 1 + i] == ap[1 + i]);
            }
            assert(t.subrange(p + 1, q) =~= da);
            lemma_number_at(t, 2, m.track_id as nat);
            match m.audio_transcode_to {
                Some(c) => {
                    let cl = c.len() as int;
                    assert(ap =~= seq!['+'] + da + seq!['-'] + c);
                    assert(t[q] == ap[1 + dl]);
                    assert(t[q] == '-');
                    lemma_number_at(t, p + 1, a as nat);
                    assert forall|i: int| 0 <= i < cl implies t[q + 1 + i] == c[i] by {
                        assert(t[q + 1 + i] == ap[2 + dl + i]);
                    }
                    assert(t.subrange(q + 1, q + 1 + cl) =~= c);
                    assert(pos == q + 1 + cl);
                    lemma_codec_at(t, q + 1, c);
                    assert(opt_group(t, Some((q + 1, q + 1 + cl))) == Some(c));
                    assert(video_caps(t) == Some(video_text_caps(m)));
                },
                None => {
                    assert(ap =~= seq!['+'] + da);
                    assert(pos == q);
                    lemma_number_at(t, p + 1, a as nat);
                    assert(video_caps(t) == Some(video_text_caps(m)));
                },
            }
        },
        None => {
            assert(ap.len() == 0);
            lemma_number_at(t, 2, m.track_id as nat);
            assert(video_caps(t) == Some(video_text_caps(m)));
        },
    }
}

/// Law: a video segment request written out inside a session reads back as itself.
#[verifier::rlimit(100)]
pub proof fn law_video_segment_roundtrip(v: Seq<char>, s: Seq<char>, m: VideoSegmentView)
    requires
        video_url_ok(v),
        session_ok(s),
        video_segment_ok(m),
    ensures
        spec_parse(request_path(v, s, video_segment_text(m))) == UrlParse::Parsed(HlsUrlView {
            url_type: UrlTypeView::VideoSegment(m),
            session_id: Some(s),
            video_url: v,
        }),
{
    let t = video_segment_text(m);
    let d1 = dec(m.track_id as nat);
    let ap = audio_part(m.audio_track_id, m.audio_transcode_to);
    let ss = segment_suffix(m.segment_id);
    lemma_dec_plain(m.track_id as nat);
    lemma_audio_part_plain(m.audio_track_id, m.audio_transcode_to);
    lemma_segment_suffix_plain(m.segment_id);
    lemma_concat_plain(d1, ap);
    lemma_concat_plain(d1 + ap, ss);
    let body = d1 + ap + ss;
    assert(t =~= seq!['v', '/'] + body);
    assert forall|i: int| 2 <= i < t.len() implies plain(#[trigger] t[i]) by {
        assert(t[i] == body[i - 2]);
    }
    lemma_split_at_video(v, s, t);
    let full = request_path(v, s, t);
    assert(ends_with(full, t)) by {
        assert(full.subrange(full.len() - t.len(), full.len() as int) =~= t);
    }
    assert(t.len() >= 9);
    match m.segment_id {
        Some(n) => { assert(t[t.len() - 1] == 's'); },
        None => { assert(t[t.len() - 1] == '4'); },
    }
    lemma_not_main(full, t, t.len() - 1);
    assert(spec_parse(full) == rest_parse(v, s, t));
    lemma_video_caps(m);
    assert(t[0] == 'v');
    assert(playlist_caps(t) is None);
    assert(audio_caps(t) is None);
}

/// Where the parts of a written audio segment request lie.
pub open spec fn audio_text_caps(m: AudioSegmentView) -> RestCaps {
    let p = 2 + dec(m.track_id as nat).len() as int;
    let (codec, pos) = match m.transcode_to {
        Some(c) => (Some((p + 1, p + 1 + c.len() as int)), p + 1 + c.len() as int),
        None => (None, p),
    };
    let (sq, ext) = suffix_caps(pos, m.segment_id);
    RestCaps::Audio { track: (2, p), codec, seq: sq, ext }
}

#[verifier::rlimit(100)]
proof fn lemma_audio_caps(m: AudioSegmentView)
    requires
        opt_codec_ok(m.transcode_to),
    ensures
        audio_caps(audio_segment_text(m)) == Some(audio_text_caps(m)),
        ({
            let t = audio_segment_text(m);
            match audio_text_caps(m) {
                RestCaps::Audio { track, codec, seq, ext } => {
                    &&& num(t, track) == m.track_id
                    &&& crate::url::fits(t, track)
                    &&& crate::url::opt_fits(t, seq)
                    &&& opt_group(t, codec) == m.transcode_to
                    &&& opt_num(t, seq) == m.segment_id
                    &&& group(t, ext) == (match m.segment_id { Some(_) => s_m4s_ext(), None => s_init_mp4() })
                },
                _ => false,
            }
        }),
{
    let t = audio_segment_text(m);
    let d1 = dec(m.track_id as nat);
    let cs = codec_suffix(m.transcode_to);
    let ss = segment_suffix(m.segment_id);
    assert(t =~= seq!['a', '/'] + d1 + cs + ss);
    let p = 2 + d1.len() as int;
    let pos = p + cs.len() as int;
    assert forall|i: int| 0 <= i < d1.len() implies t[2 + i] == d1[i] by {}
    assert forall|i: int| 0 <= i < cs.len() implies t[p + i] == cs[i] by {}
    assert forall|i: int| 0 <= i < ss.len() implies t[pos + i] == ss[i] by {}
    assert(t.subrange(2, p) =~= d1);
    assert(t.subrange(pos, t.len() as int) =~= ss);
    assert(ss[0] == '.');
    assert(t[pos] == '.');
    lemma_audio_rest(t, pos, m.segment_id);
    lemma_number_at(t, 2, m.track_id as nat);
    match m.transcode_to {
        Some(c) => {
            let cl = c.len() as int;
            assert(cs =~= seq!['-'] + c);
            assert(t[p] == cs[0]);
            assert forall|i: int| 0 <= i < cl implies t[p + 1 + i] == c[i] by {
                assert(t[p + 1 + i] == cs[1 + i]);
            }
            assert(t.subrange(p + 1, p + 1 + cl) =~= c);
            lemma_codec_at(t, p + 1, c);
            assert(audio_caps(t) == Some(audio_text_caps(m)));
        },
        None => {
            assert(cs.len() == 0);
            assert(audio_caps(t) == Some(audio_text_caps(m)));
        },
    }
}

/// Law: an audio segment request written out inside a session reads back as itself.
#[verifier::rlimit(100)]
pub proof fn law_audio_segment_roundtrip(v: Seq<char>, s: Seq<char>, m: AudioSegmentView)
    requires
        video_url_ok(v),
        session_ok(s),
        opt_codec_ok(m.transcode_to),
    ensures
        spec_parse(request_path(v, s, audio_segment_text(m))) == UrlParse::Parsed(HlsUrlView {
            url_type: UrlTypeView::AudioSegment(m),
            session_id: Some(s),
            video_url: v,
        }),
{
    let t = audio_segment_text(m);
    let d1 = dec(m.track_id as nat);
    let cs = codec_suffix(m.transcode_to);
    let ss = segment_suffix(m.segment_id);
    lemma_dec_plain(m.track_id as nat);
    lemma_codec_suffix_plain(m.transcode_to);
    lemma_segment_suffix_plain(m.segment_id);
    lemma_concat_plain(d1, cs);
    lemma_concat_plain(d1 + cs, ss);
    let body = d1 + cs + ss;
    assert(t =~= seq!['a', '/'] + body);
    assert forall|i: int| 2 <= i < t.len() implies plain(#[trigger] t[i]) by {
        assert(t[i] == body[i - 2]);
    }
    lemma_split_at_video(v, s, t);
    let full = request_path(v, s, t);
    assert(ends_with(full, t)) by {
        assert(full.subrange(full.len() - t.len(), full.len() as int) =~= t);
    }
    assert(t.len() >= 9);
    match m.segment_id {
        Some(n) => { assert(t[t.len() - 1] == 's'); },
        None => { assert(t[t.len() - 1] == '4'); },
    }
    lemma_not_main(full, t, t.len() - 1);
    assert(spec_parse(full) == rest_parse(v, s, t));
    lemma_audio_caps(m);
    assert(t[0] == 'a');
    assert(playlist_caps(t) is None);
}

/// Law: a subtitle segment request written out inside a session reads back as itself.
#[verifier::rlimit(100)]
pub proof fn law_vtt_segment_roundtrip(v: Seq<char>, s: Seq<char>, m: VttSegment)
    requires
        video_url_ok(v),
        session_ok(s),
    ensures
        spec_parse(request_path(v, s, vtt_segment_text(m))) == UrlParse::Parsed(HlsUrlView {
            url_type: UrlTypeView::VttSegment(m),
            session_id: Some(s),
            video_url: v,
        }),
{
    let t = vtt_segment_text(m);
    let d1 = dec(m.track_id as nat);
    let d2 = dec(m.start_cue as nat);
    let d3 = dec(m.end_cue as nat);
    lemma_dec_plain(m.track_id as nat);
    lemma_dec_plain(m.start_cue as nat);
    lemma_dec_plain(m.end_cue as nat);
    let body = d1 + seq!['.'] + d2 + seq!['-'] + d3 + seq!['.', 'v', 't', 't'];
    assert(all_plain(seq!['.']));
    assert(all_plain(seq!['-']));
    assert(all_plain(seq!['.', 'v', 't', 't']));
    lemma_concat_plain(d1, seq!['.']);
    lemma_concat_plain(d1 + seq!['.'], d2);
    lemma_concat_plain(d1 + seq!['.'] + d2, seq!['-']);
    lemma_concat_plain(d1 + seq!['.'] + d2 + seq!['-'], d3);
    lemma_concat_plain(d1 + seq!['.'] + d2 + seq!['-'] + d3, seq!['.', 'v', 't', 't']);
    assert(t =~= seq!['s', '/'] + body);
    assert forall|i: int| 2 <= i < t.len() implies plain(#[trigger] t[i]) by {
        assert(t[i] == body[i - 2]);
    }
    lemma_split_at_video(v, s, t);
    let full = request_path(v, s, t);
    assert(ends_with(full, t)) by {
        assert(full.subrange(full.len() - t.len(), full.len() as int) =~= t);
    }
    assert(t[t.len() - 1] == 't');
    lemma_not_main(full, t, t.len() - 1);
    assert(spec_parse(full) == rest_parse(v, s, t));
    let l1 = d1.len() as int;
    let l2 = d2.len() as int;
    let l3 = d3.len() as int;
    let p = 2 + l1;
    let q = p + 1 + l2;
    let e = q + 1 + l3;
    assert forall|i: int| 0 <= i < l1 implies t[2 + i] == d1[i] by {}
    assert forall|i: int| 0 <= i < l2 implies t[p + 1 + i] == d2[i] by {}
    assert forall|i: int| 0 <= i < l3 implies t[q + 1 + i] == d3[i] by {}
    assert(t[p] == '.');
    assert(t[q] == '-');
    assert(t[e] == '.');
    assert(t.subrange(2, p) =~= d1);
    assert(t.subrange(p + 1, q) =~= d2);
    assert(t.subrange(q + 1, e) =~= d3);
    assert(t.subrange(e, e + 4) =~= s_vtt());
    lemma_number_at(t, 2, m.track_id as nat);
    lemma_number_at(t, p + 1, m.start_cue as nat);
    lemma_number_at(t, q + 1, m.end_cue as nat);
    assert(t[0] == 's');
    assert(playlist_caps(t) is None);
    assert(audio_caps(t) is None);
    assert(video_caps(t) is None);
    assert(vtt_caps(t) == Some(RestCaps::Vtt { track: (2, p), start: (p + 1, q), end: (q + 1, e) }));
}

/// Law: the main playlist of a video named without directories is written as `<video>.as.m3u8`
/// and reads back as itself.
pub proof fn law_main_playlist_roundtrip(v: Seq<char>)
    requires
        video_url_ok(v),
        no_char(v, '/'),
    ensures
        spec_parse(hls_url_text(HlsUrlView { url_type: UrlTypeView::MainPlaylist, session_id: None, video_url: v }))
            == UrlParse::Parsed(HlsUrlView { url_type: UrlTypeView::MainPlaylist, session_id: None, video_url: v }),
{
    lemma_after_last_slash_none(v, v.len() as int);
    assert(last_component(v) =~= v);
    let full = v + s_as_m3u8();
    assert(hls_url_text(HlsUrlView { url_type: UrlTypeView::MainPlaylist, session_id: None, video_url: v }) == full);
    assert(full.subrange(0, full.len() - 8) =~= v);
    assert(full.subrange(full.len() - 8, full.len() as int) =~= s_as_m3u8());
    assert forall|i: int| 0 <= i < full.len() implies full[i] != '\n' by {
        if i < v.len() {
            assert(full[i] == v[i]);
        } else {
            assert(full[i] == s_as_m3u8()[i - v.len()]);
        }
    }
}

pub open spec fn playlist_ok(m: PlaylistView) -> bool {
    opt_codec_ok(m.audio_transcode_to) && (m.audio_transcode_to is Some ==> m.audio_track_id is Some)
}

/// Where the parts of a written playlist request lie.
pub open spec fn playlist_text_caps(m: PlaylistView) -> RestCaps {
    let p = 2 + dec(m.track_id as nat).len() as int;
    let (audio, codec) = match m.audio_track_id {
        Some(a) => {
            let q = p + 1 + dec(a as nat).len() as int;
            match m.audio_transcode_to {
                Some(c) => (Some((p + 1, q)), Some((q + 1, q + 1 + c.len() as int))),
                None => (Some((p + 1, q)), None),
            }
        },
        None => (None, None),
    };
    RestCaps::Playlist { track: (2, p), audio, codec }
}

#[verifier::rlimit(100)]
proof fn lemma_playlist_caps(m: PlaylistView)
    requires
        playlist_ok(m),
    ensures
        playlist_caps(playlist_text(m)) == Some(playlist_text_caps(m)),
        ({
            let t = playlist_text(m);
            match playlist_text_caps(m) {
                RestCaps::Playlist { track, audio, codec } => {
                    &&& num(t, track) == m.track_id
                    &&& crate::url::fits(t, track)
                    &&& crate::url::opt_fits(t, audio)
                    &&& opt_num(t, audio) == m.audio_track_id
                    &&& opt_group(t, codec) == m.audio_transcode_to
                },
                _ => false,
            }
        }),
{
    let t = playlist_text(m);
    let d1 = dec(m.track_id as nat);
    let ap = audio_part(m.audio_track_id, m.audio_transcode_to);
    let tail = seq!['.', 'm', '3', 'u', '8'];
    assert(t =~= seq!['t', '.'] + d1 + ap + tail);
    let p = 2 + d1.len() as int;
    let pos = p + ap.len() as int;
    assert forall|i: int| 0 <= i < d1.len() implies t[2 + i] == d1[i] by {}
    assert forall|i: int| 0 <= i < ap.len() implies t[p + i] == ap[i] by {}
    assert forall|i: int| 0 <= i < 5 implies t[pos + i] == tail[i] by {}
    assert(t.subrange(2, p) =~= d1);
    assert(t.len() == pos + 5);
    assert(t[pos] == '.');
    assert(t.subrange(pos + 1, pos + 5) =~= s_m3u8());
    assert(tail_m3u8(t, pos));
    lemma_number_at(t, 2, m.track_id as nat);
    match m.audio_track_id {
        Some(a) => {
            let da = dec(a as nat);
            let dl = da.len() as int;
            let q = p + 1 + dl;
            assert(ap[0] == '+');
            assert(t[p] == '+');
            assert forall|i: int| 0 <= i < dl implies t[p + 1 + i] == da[i] by {
                assert(t[p + 1 + i] == ap[1 + i]);
            }
            assert(t.subrange(p + 1, q) =~= da);
            match m.audio_transcode_to {
                Some(c) => {
                    let cl = c.len() as int;
                    assert(ap =~= seq!['+'] + da + seq!['-'] + c);
                    assert(t[q] == ap[1 + dl]);
                    assert(t[q] == '-');
                    lemma_number_at(t, p + 1, a as nat);
                    assert forall|i: int| 0 <= i < cl implies t[q + 1 + i] == c[i] by {
                        assert(t[q + 1 + i] == ap[2 + dl + i]);
                    }
                    assert(t.subrange(q + 1, q + 1 + cl) =~= c);
                    assert(pos == q + 1 + cl);
                    assert(lit_at(t, pos + 1, s_m3u8()));
                    assert(last_m3u8(t, q + 3, t.len() - 4) == Some(pos + 1));
                    assert(minus_opt(t, q) == Some(Some((q + 1, pos))));
                    assert(plus_search(t, p, dl) == Some((dl, Some((q + 1, pos)))));
                    assert(plus_opt(t, p) == Some((Some(dl), Some((q + 1, pos)))));
                    assert(opt_group(t, Some((q + 1, q + 1 + cl))) == Some(c));
                },
                None => {
                    assert(ap =~= seq!['+'] + da);
                    assert(pos == q);
                    lemma_number_at(t, p + 1, a as nat);
                    assert(minus_opt(t, q) == Some(None::<(int, int)>));
                    assert(plus_search(t, p, dl) == Some((dl, None::<(int, int)>)));
                    assert(plus_opt(t, p) == Some((Some(dl), None::<(int, int)>)));
                },
            }
        },
        None => {
            assert(ap.len() == 0);
            assert(pos == p);
            assert(minus_opt(t, p) == Some(None::<(int, int)>));
            assert(plus_opt(t, p) == Some((None::<int>, None::<(int, int)>)));
        },
    }
    assert(track_search(t, d1.len() as int) == Some((d1.len() as int, match playlist_text_caps(m) {
        RestCaps::Playlist { audio, .. } => match audio { Some((x, y)) => Some(y - x), None => None::<int> },
        _ => None::<int>,
    }, match playlist_text_caps(m) {
        RestCaps::Playlist { codec, .. } => codec,
        _ => None::<(int, int)>,
    })));
}

/// Law: a playlist request written out inside a session reads back as itself.
#[verifier::rlimit(100)]
pub proof fn law_playlist_roundtrip(v: Seq<char>, s: Seq<char>, m: PlaylistView)
    requires
        video_url_ok(v),
        session_ok(s),
        playlist_ok(m),
    ensures
        spec_parse(request_path(v, s, playlist_text(m))) == UrlParse::Parsed(HlsUrlView {
            url_type: UrlTypeView::Playlist(m),
            session_id: Some(s),
            video_url: v,
        }),
{
    let t = playlist_text(m);
    let d1 = dec(m.track_id as nat);
    let ap = audio_part(m.audio_track_id, m.audio_transcode_to);
    let tail = seq!['.', 'm', '3', 'u', '8'];
    lemma_dec_plain(m.track_id as nat);
    lemma_audio_part_plain(m.audio_track_id, m.audio_transcode_to);
    assert(all_plain(tail));
    lemma_concat_plain(d1, ap);
    lemma_concat_plain(d1 + ap, tail);
    let body = d1 + ap + tail;
    assert(t =~= seq!['t', '.'] + body);
    assert forall|i: int| 2 <= i < t.len() implies plain(#[trigger] t[i]) by {
        assert(t[i] == body[i - 2]);
    }
    lemma_split_at_video(v, s, t);
    let full = request_path(v, s, t);
    assert(ends_with(full, t)) by {
        assert(full.subrange(full.len() - t.len(), full.len() as int) =~= t);
    }
    let n = t.len() as int;
    let pos = 2 + d1.len() + ap.len();
    assert(n == pos + 5);
    assert(n >= 8);
    // the text does not end in `.as.m3u8`
    match m.audio_track_id {
        Some(a) => {
            let da = dec(a as nat);
            match m.audio_transcode_to {
                Some(c) => {
                    assert(ap =~= seq!['+'] + da + seq!['-'] + c);
                    if c.len() == 1 {
                        assert(t[n - 7] == ap[ap.len() - 2]);
                        assert(t[n - 7] == '-');
                        lemma_not_main(full, t, n - 7);
                    } else {
                        assert(t[n - 8] == ap[ap.len() - 3]);
                        if c.len() == 2 {
                            assert(t[n - 8] == '-');
                        } else {
                            assert(t[n - 8] == c[c.len() - 3]);
                            assert(is_lower(c[c.len() - 3]));
                        }
                        lemma_not_main(full, t, n - 8);
                    }
                },
                None => {
                    assert(ap =~= seq!['+'] + da);
                    lemma_dec_plain(a as nat);
                    assert(t[n - 6] == da[da.len() - 1]);
                    assert(is_digit(da[da.len() - 1]));
                    lemma_not_main(full, t, n - 6);
                },
            }
        },
        None => {
            assert(ap.len() == 0);
            assert(t[n - 6] == d1[d1.len() - 1]);
            assert(is_digit(d1[d1.len() - 1]));
            lemma_not_main(full, t, n - 6);
        },
    }
    assert(spec_parse(full) == rest_parse(v, s, t));
    lemma_playlist_caps(m);
}

proof fn lemma_after_last_slash_none(s: Seq<char>, k: int)
    requires
        0 <= k <= s.len(),
        no_char(s, '/'),
    ensures
        after_last_slash(s, k) == 0,
    decreases k,
{
    if k > 0 {
        lemma_after_last_slash_none(s, k - 1);
    }
}

} // verus!
