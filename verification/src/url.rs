//! HLS request paths: their parts, how a path is read, and how the parts are written back.
//!
//! A path looks like `<video>.as.m3u8` (the main playlist) or
//! `<video>/<session>/<rest>` where `<rest>` names a playlist or a segment:
//!
//! - `t.<track>[+<audio>][-<codec>].m3u8`
//! - `a/<track>[-<codec>].init.mp4`, `a/<track>[-<codec>].<n>.m4s`
//! - `v/<track>[+<audio>[-<codec>]].init.mp4`, `v/<track>[+<audio>[-<codec>]].<n>.m4s`
//! - `s/<track>.<start>-<end>.vtt`

use vstd::prelude::*;
use crate::text::{dec, dec_value, push_u64, push_str, string_push, push_chars, string_from_chars, chars_of,
    parse_digits, is_digit, digit_run, lemma_digit_run_bounds};
use crate::url_grammar::{main_playlist_video, best_split, first_slash_from, playlist_caps, audio_caps,
    video_caps, vtt_caps, RestCaps};
use crate::url_scan::{main_playlist_x, best_split_x, playlist_caps_x, audio_caps_x, video_caps_x, vtt_caps_x};

verus! {

/// A parsed HLS request path.
pub struct HlsUrl {
    /// What is requested.
    pub url_type: UrlType,
    /// The session id; absent only for the main playlist.
    pub session_id: Option<String>,
    /// Path of the video file the request belongs to.
    pub video_url: String,
}

/// The kinds of request.
pub enum UrlType {
    MainPlaylist,
    Playlist(Playlist),
    VideoSegment(VideoSegment),
    AudioSegment(AudioSegment),
    VttSegment(VttSegment),
}

/// A video segment or its init segment.
pub struct VideoSegment {
    /// Track id.
    pub track_id: usize,
    /// Audio track interleaved with the video, if any.
    pub audio_track_id: Option<usize>,
    /// Codec the interleaved audio is transcoded to.
    pub audio_transcode_to: Option<String>,
    /// Segment number; `None` for the init segment.
    pub segment_id: Option<usize>,
}

/// An audio segment or its init segment.
pub struct AudioSegment {
    /// Track id.
    pub track_id: usize,
    /// Codec the audio is transcoded to.
    pub transcode_to: Option<String>,
    /// Segment number; `None` for the init segment.
    pub segment_id: Option<usize>,
}

/// A WebVTT segment covering a range of cues.
pub struct VttSegment {
    /// Track id.
    pub track_id: usize,
    /// First cue.
    pub start_cue: usize,
    /// Last cue.
    pub end_cue: usize,
}

/// A media playlist.
pub struct Playlist {
    /// Track id.
    pub track_id: usize,
    /// Audio track interleaved with the main track.
    pub audio_track_id: Option<usize>,
    /// Codec the audio is transcoded to.
    pub audio_transcode_to: Option<String>,
}

// ------------------------------------------------------------------ models

pub struct VideoSegmentView {
    pub track_id: usize,
    pub audio_track_id: Option<usize>,
    pub audio_transcode_to: Option<Seq<char>>,
    pub segment_id: Option<usize>,
}

pub struct AudioSegmentView {
    pub track_id: usize,
    pub transcode_to: Option<Seq<char>>,
    pub segment_id: Option<usize>,
}

pub struct PlaylistView {
    pub track_id: usize,
    pub audio_track_id: Option<usize>,
    pub audio_transcode_to: Option<Seq<char>>,
}

pub enum UrlTypeView {
    MainPlaylist,
    Playlist(PlaylistView),
    VideoSegment(VideoSegmentView),
    AudioSegment(AudioSegmentView),
    VttSegment(VttSegment),
}

pub struct HlsUrlView {
    pub url_type: UrlTypeView,
    pub session_id: Option<Seq<char>>,
    pub video_url: Seq<char>,
}

pub open spec fn opt_view(o: Option<String>) -> Option<Seq<char>> {
    match o {
        Some(s) => Some(s@),
        None => None,
    }
}

impl View for VideoSegment {
    type V = VideoSegmentView;

    open spec fn view(&self) -> VideoSegmentView {
        VideoSegmentView {
            track_id: self.track_id,
            audio_track_id: self.audio_track_id,
            audio_transcode_to: opt_view(self.audio_transcode_to),
            segment_id: self.segment_id,
        }
    }
}

impl View for AudioSegment {
    type V = AudioSegmentView;

    open spec fn view(&self) -> AudioSegmentView {
        AudioSegmentView {
            track_id: self.track_id,
            transcode_to: opt_view(self.transcode_to),
            segment_id: self.segment_id,
        }
    }
}

impl View for Playlist {
    type V = PlaylistView;

    open spec fn view(&self) -> PlaylistView {
        PlaylistView {
            track_id: self.track_id,
            audio_track_id: self.audio_track_id,
            audio_transcode_to: opt_view(self.audio_transcode_to),
        }
    }
}

impl View for UrlType {
    type V = UrlTypeView;

    open spec fn view(&self) -> UrlTypeView {
        match self {
            UrlType::MainPlaylist => UrlTypeView::MainPlaylist,
            UrlType::Playlist(p) => UrlTypeView::Playlist(p@),
            UrlType::VideoSegment(v) => UrlTypeView::VideoSegment(v@),
            UrlType::AudioSegment(a) => UrlTypeView::AudioSegment(a@),
            UrlType::VttSegment(s) => UrlTypeView::VttSegment(VttSegment {
                track_id: s.track_id,
                start_cue: s.start_cue,
                end_cue: s.end_cue,
            }),
        }
    }
}

impl View for HlsUrl {
    type V = HlsUrlView;

    open spec fn view(&self) -> HlsUrlView {
        HlsUrlView { url_type: self.url_type@, session_id: opt_view(self.session_id), video_url: self.video_url@ }
    }
}

// ------------------------------------------------------------------ reading

/// How a path reads: not at all, as a request whose numbers overflow `usize`, or as a request.
pub enum UrlParse {
    NoMatch,
    NumberTooLarge,
    Parsed(HlsUrlView),
}

pub open spec fn group(r: Seq<char>, g: (int, int)) -> Seq<char> {
    r.subrange(g.0, g.1)
}

pub open spec fn num(r: Seq<char>, g: (int, int)) -> nat {
    dec_value(group(r, g))
}

pub open spec fn fits(r: Seq<char>, g: (int, int)) -> bool {
    num(r, g) <= usize::MAX
}

pub open spec fn opt_fits(r: Seq<char>, g: Option<(int, int)>) -> bool {
    match g {
        Some(x) => fits(r, x),
        None => true,
    }
}

pub open spec fn opt_num(r: Seq<char>, g: Option<(int, int)>) -> Option<usize> {
    match g {
        Some(x) => Some(num(r, x) as usize),
        None => None,
    }
}

pub open spec fn opt_group(r: Seq<char>, g: Option<(int, int)>) -> Option<Seq<char>> {
    match g {
        Some(x) => Some(group(r, x)),
        None => None,
    }
}

pub open spec fn s_init_mp4() -> Seq<char> { seq!['i', 'n', 'i', 't', '.', 'm', 'p', '4'] }
pub open spec fn s_m4s_ext() -> Seq<char> { seq!['m', '4', 's'] }

/// A segment whose extension contradicts its sequence number is no request.
pub open spec fn ext_conflict(ext: Seq<char>, has_seq: bool) -> bool {
    (ext == s_init_mp4() && has_seq) || (ext == s_m4s_ext() && !has_seq)
}

/// How the part after `<video>/<session>/` reads.
pub open spec fn rest_parse(video: Seq<char>, session: Seq<char>, r: Seq<char>) -> UrlParse {
    match playlist_caps(r) {
        Some(RestCaps::Playlist { track, audio, codec }) => if !fits(r, track) || !opt_fits(r, audio) {
            UrlParse::NumberTooLarge
        } else {
            UrlParse::Parsed(HlsUrlView {
                url_type: UrlTypeView::Playlist(PlaylistView {
                    track_id: num(r, track) as usize,
                    audio_track_id: opt_num(r, audio),
                    audio_transcode_to: opt_group(r, codec),
                }),
                session_id: Some(session),
                video_url: video,
            })
        },
        _ => match audio_caps(r) {
            Some(RestCaps::Audio { track, codec, seq, ext }) => if ext_conflict(group(r, ext), seq is Some) {
                UrlParse::NoMatch
            } else if !fits(r, track) || !opt_fits(r, seq) {
                UrlParse::NumberTooLarge
            } else {
                UrlParse::Parsed(HlsUrlView {
                    url_type: UrlTypeView::AudioSegment(AudioSegmentView {
                        track_id: num(r, track) as usize,
                        transcode_to: opt_group(r, codec),
                        segment_id: opt_num(r, seq),
                    }),
                    session_id: Some(session),
                    video_url: video,
                })
            },
            _ => match video_caps(r) {
                Some(RestCaps::Video { track, audio, codec, seq, ext }) => if ext_conflict(group(r, ext), seq is Some) {
                    UrlParse::NoMatch
                } else if !fits(r, track) || !opt_fits(r, audio) || !opt_fits(r, seq) {
                    UrlParse::NumberTooLarge
                } else {
                    UrlParse::Parsed(HlsUrlView {
                        url_type: UrlTypeView::VideoSegment(VideoSegmentView {
                            track_id: num(r, track) as usize,
                            audio_track_id: opt_num(r, audio),
                            audio_transcode_to: opt_group(r, codec),
                            segment_id: opt_num(r, seq),
                        }),
                        session_id: Some(session),
                        video_url: video,
                    })
                },
                _ => match vtt_caps(r) {
                    Some(RestCaps::Vtt { track, start, end }) => if !fits(r, track) || !fits(r, start) || !fits(r, end) {
                        UrlParse::NumberTooLarge
                    } else {
                        UrlParse::Parsed(HlsUrlView {
                            url_type: UrlTypeView::VttSegment(VttSegment {
                                track_id: num(r, track) as usize,
                                start_cue: num(r, start) as usize,
                                end_cue: num(r, end) as usize,
                            }),
                            session_id: Some(session),
                            video_url: video,
                        })
                    },
                    _ => UrlParse::NoMatch,
                },
            },
        },
    }
}

/// How a whole request path reads.
pub open spec fn spec_parse(s: Seq<char>) -> UrlParse {
    match main_playlist_video(s) {
        Some(v) => UrlParse::Parsed(HlsUrlView { url_type: UrlTypeView::MainPlaylist, session_id: None, video_url: v }),
        None => match best_split(s, s.len() - 1) {
            None => UrlParse::NoMatch,
            Some(i) => {
                let j = first_slash_from(s, i + 1);
                rest_parse(s.subrange(0, i), s.subrange(i + 1, j), s.subrange(j + 1, s.len() as int))
            },
        },
    }
}

/// The result of reading a path, with the overflow case kept apart.
pub enum ParseOutcome {
    NoMatch,
    NumberTooLarge,
    Parsed(HlsUrl),
}

fn read_num(r: &Vec<char>, a: usize, b: usize) -> (res: Option<usize>)
    requires
        a <= b <= r@.len(),
        forall|i: int| a <= i < b ==> is_digit(#[trigger] r@[i]),
    ensures
        match res {
            Some(x) => fits(r@, (a as int, b as int)) && x == num(r@, (a as int, b as int)),
            None => !fits(r@, (a as int, b as int)),
        },
{
    parse_digits(r, a, b)
}

fn copy_group(r: &Vec<char>, g: Option<(usize, usize)>) -> (res: Option<String>)
    requires
        match g { Some((a, b)) => a <= b <= r@.len(), None => true },
    ensures
        opt_view(res) == opt_group(r@, match g { Some((a, b)) => Some((a as int, b as int)), None => None::<(int, int)> }),
{
    match g {
        Some((a, b)) => Some(string_from_chars(r, a, b)),
        None => None,
    }
}

proof fn lemma_group_digits(r: Seq<char>, a: int)
    requires
        0 <= a <= r.len(),
    ensures
        forall|i: int| a <= i < a + digit_run(r, a) ==> is_digit(#[trigger] r[i]),
        a + digit_run(r, a) <= r.len(),
{
    lemma_digit_run_bounds(r, a);
}

impl HlsUrl {
    /// Reads a request path, telling apart a path whose numbers do not fit in `usize`.
    pub fn try_parse(url: &str) -> (res: ParseOutcome)
        ensures
            match res {
                ParseOutcome::NoMatch => spec_parse(url@) is NoMatch,
                ParseOutcome::NumberTooLarge => spec_parse(url@) is NumberTooLarge,
                ParseOutcome::Parsed(h) => spec_parse(url@) == UrlParse::Parsed(h@),
            },
    {
        let v = chars_of(url);
        match main_playlist_x(&v) {
            Some(n) => {
                let video = string_from_chars(&v, 0, n);
                return ParseOutcome::Parsed(HlsUrl { url_type: UrlType::MainPlaylist, session_id: None, video_url: video });
            },
            None => {},
        }
        let (i, j) = match best_split_x(&v) {
            Some(x) => x,
            None => {
                return ParseOutcome::NoMatch;
            },
        };
        let n = v.len();
        let video = string_from_chars(&v, 0, i);
        let session = string_from_chars(&v, i + 1, j);
        let r = Self::rest_of(&v, j + 1);
        let ghost rs = v@.subrange(j + 1, v@.len() as int);
        assert(r@ == rs);
        Self::parse_rest(video, session, &r)
    }

    fn rest_of(v: &Vec<char>, lo: usize) -> (r: Vec<char>)
        requires
            lo <= v@.len(),
        ensures
            r@ == v@.subrange(lo as int, v@.len() as int),
    {
        let mut r: Vec<char> = Vec::new();
        let mut i = lo;
        while i < v.len()
            invariant
                lo <= i <= v@.len(),
                r@ == v@.subrange(lo as int, i as int),
            decreases v@.len() - i,
        {
            r.push(v[i]);
            i += 1;
        }
        r
    }

    fn parse_rest(video: String, session: String, r: &Vec<char>) -> (res: ParseOutcome)
        ensures
            match res {
                ParseOutcome::NoMatch => rest_parse(video@, session@, r@) is NoMatch,
                ParseOutcome::NumberTooLarge => rest_parse(video@, session@, r@) is NumberTooLarge,
                ParseOutcome::Parsed(h) => rest_parse(video@, session@, r@) == UrlParse::Parsed(h@),
            },
    {
        match playlist_caps_x(r) {
            Some((k1, k2, m)) => {
                proof { lemma_group_digits(r@, 2); }
                let track = match read_num(r, 2, 2 + k1) {
                    Some(x) => x,
                    None => { return ParseOutcome::NumberTooLarge; },
                };
                let audio = match k2 {
                    Some(k) => {
                        proof { lemma_group_digits(r@, 3 + k1); }
                        match read_num(r, 3 + k1, 3 + k1 + k) {
                            Some(x) => Some(x),
                            None => { return ParseOutcome::NumberTooLarge; },
                        }
                    },
                    None => None,
                };
                let codec = copy_group(r, m);
                return ParseOutcome::Parsed(HlsUrl {
                    url_type: UrlType::Playlist(Playlist { track_id: track, audio_track_id: audio, audio_transcode_to: codec }),
                    session_id: Some(session),
                    video_url: video,
                });
            },
            None => {},
        }
        match audio_caps_x(r) {
            Some((p, codec, sq, e)) => {
                if Self::ext_conflict_x(r, e, r.len(), sq.is_some()) {
                    return ParseOutcome::NoMatch;
                }
                proof { lemma_group_digits(r@, 2); }
                let track = match read_num(r, 2, p) {
                    Some(x) => x,
                    None => { return ParseOutcome::NumberTooLarge; },
                };
                let seg = match sq {
                    Some((a, b)) => {
                        proof { lemma_group_digits(r@, a as int); }
                        match read_num(r, a, b) {
                            Some(x) => Some(x),
                            None => { return ParseOutcome::NumberTooLarge; },
                        }
                    },
                    None => None,
                };
                let tc = copy_group(r, codec);
                return ParseOutcome::Parsed(HlsUrl {
                    url_type: UrlType::AudioSegment(AudioSegment { track_id: track, transcode_to: tc, segment_id: seg }),
                    session_id: Some(session),
                    video_url: video,
                });
            },
            None => {},
        }
        match video_caps_x(r) {
            Some((p, audio, codec, sq, (ea, eb))) => {
                if Self::ext_conflict_x(r, ea, eb, sq.is_some()) {
                    return ParseOutcome::NoMatch;
                }
                proof { lemma_group_digits(r@, 2); }
                let track = match read_num(r, 2, p) {
                    Some(x) => x,
                    None => { return ParseOutcome::NumberTooLarge; },
                };
                let aud = match audio {
                    Some((a, b)) => {
                        proof { lemma_group_digits(r@, a as int); }
                        match read_num(r, a, b) {
                            Some(x) => Some(x),
                            None => { return ParseOutcome::NumberTooLarge; },
                        }
                    },
                    None => None,
                };
                let seg = match sq {
                    Some((a, b)) => {
                        proof { lemma_group_digits(r@, a as int); }
                        match read_num(r, a, b) {
                            Some(x) => Some(x),
                            None => { return ParseOutcome::NumberTooLarge; },
                        }
                    },
                    None => None,
                };
                let tc = copy_group(r, codec);
                return ParseOutcome::Parsed(HlsUrl {
                    url_type: UrlType::VideoSegment(VideoSegment {
                        track_id: track,
                        audio_track_id: aud,
                        audio_transcode_to: tc,
                        segment_id: seg,
                    }),
                    session_id: Some(session),
                    video_url: video,
                });
            },
            None => {},
        }
        match vtt_caps_x(r) {
            Some((p, q, t)) => {
                proof {
                    lemma_group_digits(r@, 2);
                    lemma_group_digits(r@, p + 1);
                    lemma_group_digits(r@, q + 1);
                }
                let track = match read_num(r, 2, p) {
                    Some(x) => x,
                    None => { return ParseOutcome::NumberTooLarge; },
                };
                let start = match read_num(r, p + 1, q) {
                    Some(x) => x,
                    None => { return ParseOutcome::NumberTooLarge; },
                };
                let end = match read_num(r, q + 1, t) {
                    Some(x) => x,
                    None => { return ParseOutcome::NumberTooLarge; },
                };
                ParseOutcome::Parsed(HlsUrl {
                    url_type: UrlType::VttSegment(VttSegment { track_id: track, start_cue: start, end_cue: end }),
                    session_id: Some(session),
                    video_url: video,
                })
            },
            None => ParseOutcome::NoMatch,
        }
    }

    fn ext_conflict_x(r: &Vec<char>, a: usize, b: usize, has_seq: bool) -> (c: bool)
        requires
            a <= b <= r@.len(),
        ensures
            c == ext_conflict(group(r@, (a as int, b as int)), has_seq),
    {
        let init: Vec<char> = vec!['i', 'n', 'i', 't', '.', 'm', 'p', '4'];
        let m4s: Vec<char> = vec!['m', '4', 's'];
        assert(init@ =~= s_init_mp4());
        assert(m4s@ =~= s_m4s_ext());
        let is_init = b - a == 8 && crate::url_scan::lit_at_x(r, a, &init);
        let is_m4s = b - a == 3 && crate::url_scan::lit_at_x(r, a, &m4s);
        proof {
            let g = group(r@, (a as int, b as int));
            if g == s_init_mp4() {
                assert(b - a == 8);
                assert(r@.subrange(a as int, a + 8) == g);
            }
            if g == s_m4s_ext() {
                assert(b - a == 3);
                assert(r@.subrange(a as int, a + 3) == g);
            }
        }
        (is_init && has_seq) || (is_m4s && !has_seq)
    }

    /// Reads a request path.
    pub fn parse(url: &str) -> (res: Option<HlsUrl>)
        requires
            !(spec_parse(url@) is NumberTooLarge),
        ensures
            match res {
                None => spec_parse(url@) is NoMatch,
                Some(h) => spec_parse(url@) == UrlParse::Parsed(h@),
            },
    {
        match Self::try_parse(url) {
            ParseOutcome::Parsed(h) => Some(h),
            _ => None,
        }
    }
}

// ------------------------------------------------------------------ writing

pub open spec fn codec_suffix(tc: Option<Seq<char>>) -> Seq<char> {
    match tc {
        Some(t) => seq!['-'] + t,
        None => Seq::<char>::empty(),
    }
}

pub open spec fn segment_suffix(seg: Option<usize>) -> Seq<char> {
    match seg {
        Some(n) => seq!['.'] + dec(n as nat) + seq!['.', 'm', '4', 's'],
        None => seq!['.', 'i', 'n', 'i', 't', '.', 'm', 'p', '4'],
    }
}

pub open spec fn audio_part(audio: Option<usize>, tc: Option<Seq<char>>) -> Seq<char> {
    match audio {
        Some(a) => seq!['+'] + dec(a as nat) + codec_suffix(tc),
        None => Seq::<char>::empty(),
    }
}

/// `v/<track>[+<audio>[-<codec>]](.<n>.m4s|.init.mp4)`
pub open spec fn video_segment_text(m: VideoSegmentView) -> Seq<char> {
    seq!['v', '/'] + dec(m.track_id as nat) + audio_part(m.audio_track_id, m.audio_transcode_to)
        + segment_suffix(m.segment_id)
}

/// `a/<track>[-<codec>](.<n>.m4s|.init.mp4)`
pub open spec fn audio_segment_text(m: AudioSegmentView) -> Seq<char> {
    seq!['a', '/'] + dec(m.track_id as nat) + codec_suffix(m.transcode_to) + segment_suffix(m.segment_id)
}

/// `s/<track>.<start>-<end>.vtt`
pub open spec fn vtt_segment_text(m: VttSegment) -> Seq<char> {
    seq!['s', '/'] + dec(m.track_id as nat) + seq!['.'] + dec(m.start_cue as nat) + seq!['-'] + dec(
        m.end_cue as nat,
    ) + seq!['.', 'v', 't', 't']
}

/// `t.<track>[+<audio>[-<codec>]].m3u8`
pub open spec fn playlist_text(m: PlaylistView) -> Seq<char> {
    seq!['t', '.'] + dec(m.track_id as nat) + audio_part(m.audio_track_id, m.audio_transcode_to)
        + seq!['.', 'm', '3', 'u', '8']
}

/// Index just past the last `/` in `s[..k]` (0 when there is none).
pub open spec fn after_last_slash(s: Seq<char>, k: int) -> int
    decreases k,
{
    if k <= 0 {
        0
    } else if s[k - 1] == '/' {
        k
    } else {
        after_last_slash(s, k - 1)
    }
}

/// The part of a path after its last `/`.
pub open spec fn last_component(s: Seq<char>) -> Seq<char> {
    s.subrange(after_last_slash(s, s.len() as int), s.len() as int)
}

/// The text of a request, relative to the playlist that names it.
pub open spec fn hls_url_text(h: HlsUrlView) -> Seq<char> {
    match h.url_type {
        UrlTypeView::MainPlaylist => last_component(h.video_url) + seq!['.', 'a', 's', '.', 'm', '3', 'u', '8'],
        UrlTypeView::Playlist(p) => last_component(h.video_url) + seq!['/'] + (match h.session_id {
            Some(s) => s + seq!['/'],
            None => Seq::<char>::empty(),
        }) + playlist_text(p),
        UrlTypeView::VideoSegment(v) => video_segment_text(v),
        UrlTypeView::AudioSegment(a) => audio_segment_text(a),
        UrlTypeView::VttSegment(t) => vtt_segment_text(t),
    }
}

fn push_lit(out: &mut String, lit: &Vec<char>)
    ensures
        final(out)@ == old(out)@ + lit@,
{
    push_chars(out, lit, 0, lit.len());
    assert(lit@.subrange(0, lit@.len() as int) =~= lit@);
}

fn push_codec_suffix(out: &mut String, o: &Option<String>)
    ensures
        final(out)@ == old(out)@ + codec_suffix(opt_view(*o)),
{
    match o {
        Some(t) => {
            string_push(out, '-');
            push_str(out, t.as_str());
            assert(out@ == old(out)@ + (seq!['-'] + t@));
        },
        None => {
            assert(out@ =~= old(out)@ + Seq::<char>::empty());
        },
    }
}

fn push_segment_suffix(out: &mut String, seg: Option<usize>)
    ensures
        final(out)@ == old(out)@ + segment_suffix(seg),
{
    match seg {
        Some(n) => {
            string_push(out, '.');
            push_u64(out, n as u64);
            let lit: Vec<char> = vec!['.', 'm', '4', 's'];
            push_lit(out, &lit);
            assert(out@ =~= old(out)@ + (seq!['.'] + dec(n as nat) + seq!['.', 'm', '4', 's']));
        },
        None => {
            let lit: Vec<char> = vec!['.', 'i', 'n', 'i', 't', '.', 'm', 'p', '4'];
            push_lit(out, &lit);
            assert(out@ =~= old(out)@ + seq!['.', 'i', 'n', 'i', 't', '.', 'm', 'p', '4']);
        },
    }
}

fn push_audio_part(out: &mut String, audio: Option<usize>, tc: &Option<String>)
    ensures
        final(out)@ == old(out)@ + audio_part(audio, opt_view(*tc)),
{
    match audio {
        Some(a) => {
            string_push(out, '+');
            push_u64(out, a as u64);
            let ghost mid = out@;
            push_codec_suffix(out, tc);
            assert(out@ =~= old(out)@ + (seq!['+'] + dec(a as nat) + codec_suffix(opt_view(*tc))));
        },
        None => {
            assert(out@ =~= old(out)@ + Seq::<char>::empty());
        },
    }
}

impl VideoSegment {
    /// The text of this segment request.
    pub fn to_url_string(&self) -> (r: String)
        ensures
            r@ == video_segment_text(self@),
    {
        let mut out = String::new();
        let head: Vec<char> = vec!['v', '/'];
        push_lit(&mut out, &head);
        push_u64(&mut out, self.track_id as u64);
        push_audio_part(&mut out, self.audio_track_id, &self.audio_transcode_to);
        push_segment_suffix(&mut out, self.segment_id);
        assert(out@ =~= video_segment_text(self@));
        out
    }
}

impl AudioSegment {
    /// The text of this segment request.
    pub fn to_url_string(&self) -> (r: String)
        ensures
            r@ == audio_segment_text(self@),
    {
        let mut out = String::new();
        let head: Vec<char> = vec!['a', '/'];
        push_lit(&mut out, &head);
        push_u64(&mut out, self.track_id as u64);
        push_codec_suffix(&mut out, &self.transcode_to);
        push_segment_suffix(&mut out, self.segment_id);
        assert(out@ =~= audio_segment_text(self@));
        out
    }
}

impl VttSegment {
    /// The text of this segment request.
    pub fn to_url_string(&self) -> (r: String)
        ensures
            r@ == vtt_segment_text(*self),
    {
        let mut out = String::new();
        let head: Vec<char> = vec!['s', '/'];
        push_lit(&mut out, &head);
        push_u64(&mut out, self.track_id as u64);
        string_push(&mut out, '.');
        push_u64(&mut out, self.start_cue as u64);
        string_push(&mut out, '-');
        push_u64(&mut out, self.end_cue as u64);
        let tail: Vec<char> = vec!['.', 'v', 't', 't'];
        push_lit(&mut out, &tail);
        assert(out@ =~= vtt_segment_text(*self));
        out
    }
}

impl Playlist {
    /// The text of this playlist request.
    pub fn to_url_string(&self) -> (r: String)
        ensures
            r@ == playlist_text(self@),
    {
        let mut out = String::new();
        let head: Vec<char> = vec!['t', '.'];
        push_lit(&mut out, &head);
        push_u64(&mut out, self.track_id as u64);
        push_audio_part(&mut out, self.audio_track_id, &self.audio_transcode_to);
        let tail: Vec<char> = vec!['.', 'm', '3', 'u', '8'];
        push_lit(&mut out, &tail);
        assert(out@ =~= playlist_text(self@));
        out
    }
}

/// The part of `path` after its last `/`.
pub fn basename(path: &str) -> (r: String)
    ensures
        r@ == last_component(path@),
{
    let v = chars_of(path);
    let mut k = v.len();
    while k > 0 && v[k - 1] != '/'
        invariant
            k <= v@.len(),
            after_last_slash(v@, v@.len() as int) == after_last_slash(v@, k as int),
        decreases k,
    {
        k -= 1;
    }
    string_from_chars(&v, k, v.len())
}

impl HlsUrl {
    /// The text of this request, relative to the playlist that names it.
    pub fn encode_url(&self) -> (r: String)
        ensures
            r@ == hls_url_text(self@),
    {
        match &self.url_type {
            UrlType::MainPlaylist => {
                let mut out = basename(self.video_url.as_str());
                let tail: Vec<char> = vec!['.', 'a', 's', '.', 'm', '3', 'u', '8'];
                push_lit(&mut out, &tail);
                out
            },
            UrlType::Playlist(p) => {
                let mut out = basename(self.video_url.as_str());
                string_push(&mut out, '/');
                let ghost mid = out@;
                match &self.session_id {
                    Some(sid) => {
                        push_str(&mut out, sid.as_str());
                        string_push(&mut out, '/');
                        assert(out@ =~= mid + (sid@ + seq!['/']));
                    },
                    None => {
                        assert(out@ =~= mid + Seq::<char>::empty());
                    },
                }
                let t = p.to_url_string();
                push_str(&mut out, t.as_str());
                assert(out@ =~= hls_url_text(self@));
                out
            },
            UrlType::VideoSegment(v) => v.to_url_string(),
            UrlType::AudioSegment(a) => a.to_url_string(),
            UrlType::VttSegment(t) => t.to_url_string(),
        }
    }
}

/// A decimal number of a request path (an optional `+`, then digits).
pub fn usize_from_str(s: &str) -> (r: usize)
    requires
        crate::query::parse_usize(s@) is Some,
    ensures
        Some(r) == crate::query::parse_usize(s@),
{
    let v = chars_of(s);
    match crate::query::parse_usize_text(&v) {
        Some(x) => x,
        None => 0,
    }
}

} // verus!
