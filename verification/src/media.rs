//! Codecs, stream descriptions and the stream index that the playlists are
//! built from.

use vstd::prelude::*;
use crate::text::{str_eq, lowercase, to_lower, views_of};
use crate::clock::unix_now_secs;

verus! {

/// Codec identifiers the server tells apart.
#[allow(non_camel_case_types)]
#[derive(Clone, Copy, Debug, PartialEq, Eq, Structural)]
pub enum CodecId {
    H264,
    HEVC,
    VP9,
    AV1,
    MPEG4,
    MPEG2VIDEO,
    VP8,
    AAC,
    AC3,
    EAC3,
    OPUS,
    VORBIS,
    MP3,
    FLAC,
    PCM_S16LE,
    PCM_S24LE,
    TRUEHD,
    SUBRIP,
    ASS,
    SSA,
    MOV_TEXT,
    TEXT,
    WEBVTT,
    HDMV_PGS_SUBTITLE,
    DVB_SUBTITLE,
    DVB_TELETEXT,
    XSUB,
    /// Any codec not listed above.
    Other,
}

/// Kinds of media a container stream can carry.
#[derive(Clone, Copy, Debug, PartialEq, Eq, Structural)]
pub enum MediaKind {
    Video,
    Audio,
    Subtitle,
    Data,
    Attachment,
    Unknown,
}

pub open spec fn spec_is_video_codec(c: CodecId) -> bool {
    matches!(c, CodecId::H264 | CodecId::HEVC | CodecId::VP9 | CodecId::AV1
        | CodecId::MPEG4 | CodecId::MPEG2VIDEO | CodecId::VP8)
}

pub open spec fn spec_is_audio_codec(c: CodecId) -> bool {
    matches!(c, CodecId::AAC | CodecId::AC3 | CodecId::EAC3 | CodecId::OPUS
        | CodecId::VORBIS | CodecId::MP3 | CodecId::FLAC | CodecId::PCM_S16LE
        | CodecId::PCM_S24LE | CodecId::TRUEHD)
}

pub open spec fn spec_is_hls_supported(c: CodecId) -> bool {
    matches!(c, CodecId::AAC | CodecId::AC3 | CodecId::EAC3 | CodecId::MP3 | CodecId::OPUS)
}

pub open spec fn spec_is_text_subtitle(c: CodecId) -> bool {
    matches!(c, CodecId::SUBRIP | CodecId::ASS | CodecId::SSA | CodecId::MOV_TEXT
        | CodecId::TEXT | CodecId::WEBVTT)
}

pub open spec fn spec_is_bitmap_subtitle(c: CodecId) -> bool {
    matches!(c, CodecId::HDMV_PGS_SUBTITLE | CodecId::DVB_SUBTITLE | CodecId::DVB_TELETEXT
        | CodecId::XSUB)
}

/// Whether the codec carries video.
pub fn is_video_codec(c: CodecId) -> (r: bool)
    ensures
        r == spec_is_video_codec(c),
{
    match c {
        CodecId::H264 | CodecId::HEVC | CodecId::VP9 | CodecId::AV1 | CodecId::MPEG4
        | CodecId::MPEG2VIDEO | CodecId::VP8 => true,
        _ => false,
    }
}

/// Whether the codec carries audio.
pub fn is_audio_codec(c: CodecId) -> (r: bool)
    ensures
        r == spec_is_audio_codec(c),
{
    match c {
        CodecId::AAC | CodecId::AC3 | CodecId::EAC3 | CodecId::OPUS | CodecId::VORBIS
        | CodecId::MP3 | CodecId::FLAC | CodecId::PCM_S16LE | CodecId::PCM_S24LE
        | CodecId::TRUEHD => true,
        _ => false,
    }
}

/// Whether the codec is AAC.
pub fn is_aac_codec(c: CodecId) -> (r: bool)
    ensures
        r == (c == CodecId::AAC),
{
    match c {
        CodecId::AAC => true,
        _ => false,
    }
}

/// Whether an HLS client can play the codec without transcoding.
pub fn is_hls_supported_codec(c: CodecId) -> (r: bool)
    ensures
        r == spec_is_hls_supported(c),
{
    match c {
        CodecId::AAC | CodecId::AC3 | CodecId::EAC3 | CodecId::MP3 | CodecId::OPUS => true,
        _ => false,
    }
}

/// Whether the subtitle codec is text based.
pub fn is_text_subtitle(c: CodecId) -> (r: bool)
    ensures
        r == spec_is_text_subtitle(c),
{
    match c {
        CodecId::SUBRIP | CodecId::ASS | CodecId::SSA | CodecId::MOV_TEXT | CodecId::TEXT
        | CodecId::WEBVTT => true,
        _ => false,
    }
}

/// Whether the subtitle codec is bitmap based (cannot become WebVTT).
pub fn is_bitmap_subtitle(c: CodecId) -> (r: bool)
    ensures
        r == spec_is_bitmap_subtitle(c),
{
    match c {
        CodecId::HDMV_PGS_SUBTITLE | CodecId::DVB_SUBTITLE | CodecId::DVB_TELETEXT
        | CodecId::XSUB => true,
        _ => false,
    }
}

/// Normalized subtitle formats.
#[derive(Clone, Copy, Debug, PartialEq, Eq, Structural)]
pub enum SubtitleFormat {
    SubRip,
    Ass,
    MovText,
    WebVtt,
    Text,
    Unknown,
}

pub open spec fn spec_subtitle_format(c: CodecId) -> SubtitleFormat {
    match c {
        CodecId::SUBRIP => SubtitleFormat::SubRip,
        CodecId::ASS | CodecId::SSA => SubtitleFormat::Ass,
        CodecId::MOV_TEXT => SubtitleFormat::MovText,
        CodecId::WEBVTT => SubtitleFormat::WebVtt,
        CodecId::TEXT => SubtitleFormat::Text,
        _ => SubtitleFormat::Unknown,
    }
}

/// The subtitle format a codec decodes to.
pub fn get_subtitle_format(c: CodecId) -> (r: SubtitleFormat)
    ensures
        r == spec_subtitle_format(c),
{
    match c {
        CodecId::SUBRIP => SubtitleFormat::SubRip,
        CodecId::ASS | CodecId::SSA => SubtitleFormat::Ass,
        CodecId::MOV_TEXT => SubtitleFormat::MovText,
        CodecId::WEBVTT => SubtitleFormat::WebVtt,
        CodecId::TEXT => SubtitleFormat::Text,
        _ => SubtitleFormat::Unknown,
    }
}

pub open spec fn spec_subtitle_codec_name(c: CodecId) -> Seq<char> {
    match c {
        CodecId::SUBRIP => "SubRip (SRT)"@,
        CodecId::ASS | CodecId::SSA => "ASS/SSA"@,
        CodecId::MOV_TEXT => "QuickTime TTXT"@,
        CodecId::WEBVTT => "WebVTT"@,
        CodecId::TEXT => "Plain Text"@,
        CodecId::HDMV_PGS_SUBTITLE => "PGS (Bitmap)"@,
        CodecId::DVB_SUBTITLE => "DVB (Bitmap)"@,
        _ => "Unknown"@,
    }
}

/// A readable name of a subtitle codec.
pub fn get_subtitle_codec_name(c: CodecId) -> (r: &'static str)
    ensures
        r@ == spec_subtitle_codec_name(c),
{
    match c {
        CodecId::SUBRIP => "SubRip (SRT)",
        CodecId::ASS | CodecId::SSA => "ASS/SSA",
        CodecId::MOV_TEXT => "QuickTime TTXT",
        CodecId::WEBVTT => "WebVTT",
        CodecId::TEXT => "Plain Text",
        CodecId::HDMV_PGS_SUBTITLE => "PGS (Bitmap)",
        CodecId::DVB_SUBTITLE => "DVB (Bitmap)",
        _ => "Unknown",
    }
}

pub open spec fn spec_media_type_name(k: MediaKind) -> Seq<char> {
    match k {
        MediaKind::Video => "video"@,
        MediaKind::Audio => "audio"@,
        MediaKind::Subtitle => "subtitle"@,
        MediaKind::Data => "data"@,
        MediaKind::Attachment => "attachment"@,
        MediaKind::Unknown => "unknown"@,
    }
}

/// The lower-case name of a media kind.
pub fn media_type_name(k: MediaKind) -> (r: &'static str)
    ensures
        r@ == spec_media_type_name(k),
{
    match k {
        MediaKind::Video => "video",
        MediaKind::Audio => "audio",
        MediaKind::Subtitle => "subtitle",
        MediaKind::Data => "data",
        MediaKind::Attachment => "attachment",
        MediaKind::Unknown => "unknown",
    }
}

/// A rational number, as containers give timebases and frame rates.
#[derive(Clone, Copy, Debug, PartialEq, Eq, Structural)]
pub struct Rational {
    pub num: i32,
    pub den: i32,
}

impl Rational {
    pub fn new(num: i32, den: i32) -> (r: Rational)
        ensures
            r.num == num,
            r.den == den,
    {
        Rational { num, den }
    }

    pub fn numerator(&self) -> (r: i32)
        ensures
            r == self.num,
    {
        self.num
    }

    pub fn denominator(&self) -> (r: i32)
        ensures
            r == self.den,
    {
        self.den
    }
}

/// A video stream of the source file.
#[derive(Clone, Debug)]
pub struct VideoStreamInfo {
    /// Zero-based index of the stream in the source file.
    pub stream_index: usize,
    pub codec_id: CodecId,
    pub width: u32,
    pub height: u32,
    /// Bits per second.
    pub bitrate: u64,
    pub framerate: Rational,
    pub language: Option<String>,
    pub profile: Option<i32>,
    pub level: Option<i32>,
}

/// An audio stream of the source file, or an AAC rendition made from one.
#[derive(Clone, Debug)]
pub struct AudioStreamInfo {
    pub stream_index: usize,
    pub codec_id: CodecId,
    pub sample_rate: u32,
    pub channels: u16,
    pub bitrate: u64,
    pub language: Option<String>,
    /// Whether this rendition is transcoded to AAC.
    pub is_transcoded: bool,
    pub source_stream_index: Option<usize>,
    /// Encoder delay in samples of the stream's own timebase.
    pub encoder_delay: i64,
}

/// Where one subtitle sample lies in the source file.
#[derive(Clone, Copy, Debug, PartialEq, Eq, Structural)]
pub struct SubtitleSampleRef {
    pub byte_offset: u64,
    pub pts: i64,
    pub duration: i64,
    pub size: i32,
}

/// A text subtitle stream of the source file.
#[derive(Clone, Debug)]
pub struct SubtitleStreamInfo {
    pub stream_index: usize,
    pub codec_id: CodecId,
    pub language: Option<String>,
    pub format: SubtitleFormat,
    /// Sequence numbers of the segments that hold at least one cue, ascending.
    pub non_empty_sequences: Vec<usize>,
    pub sample_index: Vec<SubtitleSampleRef>,
    pub timebase: Rational,
    pub start_time: i64,
}

/// One time slice of the source, served as one HLS segment.
#[derive(Clone, Copy, Debug, PartialEq, Eq, Structural)]
pub struct SegmentInfo {
    pub sequence: usize,
    /// First presentation timestamp, in the video timebase.
    pub start_pts: i64,
    /// End presentation timestamp (exclusive), in the video timebase.
    pub end_pts: i64,
    pub is_keyframe: bool,
    pub video_byte_offset: u64,
}

/// What the server knows of one source file: its streams and segments.
#[derive(Clone)]
pub struct StreamIndex {
    pub stream_id: String,
    pub source_path: String,
    pub video_timebase: Rational,
    pub video_streams: Vec<VideoStreamInfo>,
    pub audio_streams: Vec<AudioStreamInfo>,
    pub subtitle_streams: Vec<SubtitleStreamInfo>,
    pub segments: Vec<SegmentInfo>,
    /// First presentation timestamp seen in each segment; `i64::MIN` while unknown.
    pub segment_first_pts: Vec<i64>,
    /// Unix time (seconds) of the last access.
    pub last_accessed: u64,
    pub cache_enabled: bool,
}

/// The name a codec identifier prints as.
pub open spec fn codec_debug_name(c: CodecId) -> Seq<char> {
    match c {
        CodecId::H264 => "H264"@,
        CodecId::HEVC => "HEVC"@,
        CodecId::VP9 => "VP9"@,
        CodecId::AV1 => "AV1"@,
        CodecId::MPEG4 => "MPEG4"@,
        CodecId::MPEG2VIDEO => "MPEG2VIDEO"@,
        CodecId::VP8 => "VP8"@,
        CodecId::AAC => "AAC"@,
        CodecId::AC3 => "AC3"@,
        CodecId::EAC3 => "EAC3"@,
        CodecId::OPUS => "OPUS"@,
        CodecId::VORBIS => "VORBIS"@,
        CodecId::MP3 => "MP3"@,
        CodecId::FLAC => "FLAC"@,
        CodecId::PCM_S16LE => "PCM_S16LE"@,
        CodecId::PCM_S24LE => "PCM_S24LE"@,
        CodecId::TRUEHD => "TRUEHD"@,
        CodecId::SUBRIP => "SUBRIP"@,
        CodecId::ASS => "ASS"@,
        CodecId::SSA => "SSA"@,
        CodecId::MOV_TEXT => "MOV_TEXT"@,
        CodecId::TEXT => "TEXT"@,
        CodecId::WEBVTT => "WEBVTT"@,
        CodecId::HDMV_PGS_SUBTITLE => "HDMV_PGS_SUBTITLE"@,
        CodecId::DVB_SUBTITLE => "DVB_SUBTITLE"@,
        CodecId::DVB_TELETEXT => "DVB_TELETEXT"@,
        CodecId::XSUB => "XSUB"@,
        CodecId::Other => "Other"@,
    }
}

/// The name a codec identifier prints as.
pub fn codec_name(c: CodecId) -> (r: &'static str)
    ensures
        r@ == codec_debug_name(c),
{
    match c {
        CodecId::H264 => "H264",
        CodecId::HEVC => "HEVC",
        CodecId::VP9 => "VP9",
        CodecId::AV1 => "AV1",
        CodecId::MPEG4 => "MPEG4",
        CodecId::MPEG2VIDEO => "MPEG2VIDEO",
        CodecId::VP8 => "VP8",
        CodecId::AAC => "AAC",
        CodecId::AC3 => "AC3",
        CodecId::EAC3 => "EAC3",
        CodecId::OPUS => "OPUS",
        CodecId::VORBIS => "VORBIS",
        CodecId::MP3 => "MP3",
        CodecId::FLAC => "FLAC",
        CodecId::PCM_S16LE => "PCM_S16LE",
        CodecId::PCM_S24LE => "PCM_S24LE",
        CodecId::TRUEHD => "TRUEHD",
        CodecId::SUBRIP => "SUBRIP",
        CodecId::ASS => "ASS",
        CodecId::SSA => "SSA",
        CodecId::MOV_TEXT => "MOV_TEXT",
        CodecId::TEXT => "TEXT",
        CodecId::WEBVTT => "WEBVTT",
        CodecId::HDMV_PGS_SUBTITLE => "HDMV_PGS_SUBTITLE",
        CodecId::DVB_SUBTITLE => "DVB_SUBTITLE",
        CodecId::DVB_TELETEXT => "DVB_TELETEXT",
        CodecId::XSUB => "XSUB",
        CodecId::Other => "Other",
    }
}

/// `uuid::Uuid::new_v4` in its hyphenated text form: a fresh random id of 36 characters.
#[verifier::external_body]
fn new_stream_id() -> (r: String)
    ensures
        r@.len() == 36,
{
    uuid::Uuid::new_v4().to_string()
}

/// A copy of an audio stream description.
pub fn copy_audio(a: &AudioStreamInfo) -> (r: AudioStreamInfo)
    ensures
        r == *a,
{
    AudioStreamInfo {
        stream_index: a.stream_index,
        codec_id: a.codec_id,
        sample_rate: a.sample_rate,
        channels: a.channels,
        bitrate: a.bitrate,
        language: crate::text::clone_opt(&a.language),
        is_transcoded: a.is_transcoded,
        source_stream_index: a.source_stream_index,
        encoder_delay: a.encoder_delay,
    }
}

// ---------------------------------------------------------------------------
// Stream index queries
// ---------------------------------------------------------------------------

/// `o` holds a language equal to `lang` without regard to case.
pub open spec fn language_is(o: Option<String>, lang: Seq<char>) -> bool {
    match o {
        Some(l) => lowercase(l@) == lowercase(lang),
        None => false,
    }
}

pub open spec fn audio_in_language(s: Seq<AudioStreamInfo>, lang: Seq<char>, n: nat) -> Seq<AudioStreamInfo>
    decreases n,
{
    if n == 0 {
        Seq::empty()
    } else {
        audio_in_language(s, lang, (n - 1) as nat) + if language_is(s[n - 1].language, lang) {
            seq![s[n - 1]]
        } else {
            Seq::empty()
        }
    }
}

pub open spec fn subtitles_in_language(s: Seq<SubtitleStreamInfo>, lang: Seq<char>, n: nat) -> Seq<SubtitleStreamInfo>
    decreases n,
{
    if n == 0 {
        Seq::empty()
    } else {
        subtitles_in_language(s, lang, (n - 1) as nat) + if language_is(s[n - 1].language, lang) {
            seq![s[n - 1]]
        } else {
            Seq::empty()
        }
    }
}

fn language_matches(o: &Option<String>, lang_lower: &String, Ghost(lang): Ghost<Seq<char>>) -> (r: bool)
    requires
        lang_lower@ == lowercase(lang),
    ensures
        r == language_is(*o, lang),
{
    match o {
        Some(l) => {
            let x = to_lower(l.as_str());
            x == *lang_lower
        },
        None => false,
    }
}

/// The stored first timestamp of a segment, when it is known.
pub open spec fn first_pts_of(v: Seq<i64>, seq: int) -> Option<i64> {
    if 0 <= seq < v.len() && v[seq] != i64::MIN {
        Some(v[seq])
    } else {
        None
    }
}

/// Seconds from `since` to `now`, zero when `now` is earlier.
pub open spec fn saturating_elapsed(now: u64, since: u64) -> u64 {
    if now >= since {
        (now - since) as u64
    } else {
        0
    }
}

impl StreamIndex {
    /// A fresh index of a file, with a new random id and nothing found yet.
    pub fn new(source_path: String) -> (r: StreamIndex)
        ensures
            r.source_path == source_path,
            r.stream_id@.len() == 36,
            r.video_streams@.len() == 0,
            r.audio_streams@.len() == 0,
            r.subtitle_streams@.len() == 0,
            r.segments@.len() == 0,
            r.segment_first_pts@.len() == 0,
            r.last_accessed == 0,
            r.cache_enabled,
            r.video_timebase == (Rational { num: 1, den: 1 }),
    {
        StreamIndex {
            stream_id: new_stream_id(),
            source_path,
            video_timebase: Rational { num: 1, den: 1 },
            video_streams: Vec::new(),
            audio_streams: Vec::new(),
            subtitle_streams: Vec::new(),
            segments: Vec::new(),
            segment_first_pts: Vec::new(),
            last_accessed: 0,
            cache_enabled: true,
        }
    }

    /// The first video stream.
    pub fn primary_video(&self) -> (r: Option<&VideoStreamInfo>)
        ensures
            match r {
                Some(v) => self.video_streams@.len() > 0 && *v == self.video_streams@[0],
                None => self.video_streams@.len() == 0,
            },
    {
        if self.video_streams.len() > 0 {
            Some(&self.video_streams[0])
        } else {
            None
        }
    }

    /// The audio streams in `language`, compared without regard to case.
    pub fn audio_by_language(&self, language: &str) -> (r: Vec<&AudioStreamInfo>)
        ensures
            r@.len() == audio_in_language(self.audio_streams@, language@, self.audio_streams@.len()).len(),
            forall|k: int| 0 <= k < r@.len() ==> *(#[trigger] r@[k]) == audio_in_language(self.audio_streams@,
                language@, self.audio_streams@.len())[k],
    {
        let lang = to_lower(language);
        let n = self.audio_streams.len();
        let mut out: Vec<&AudioStreamInfo> = Vec::new();
        let mut i: usize = 0;
        while i < n
            invariant
                n == self.audio_streams@.len(),
                lang@ == lowercase(language@),
                i <= n,
                out@.len() == audio_in_language(self.audio_streams@, language@, i as nat).len(),
                forall|k: int| 0 <= k < out@.len() ==> *(#[trigger] out@[k]) == audio_in_language(self.audio_streams@,
                    language@, i as nat)[k],
            decreases n - i,
        {
            let a = &self.audio_streams[i];
            if language_matches(&a.language, &lang, Ghost(language@)) {
                out.push(a);
            }
            proof {
                let prev = audio_in_language(self.audio_streams@, language@, i as nat);
                let next = audio_in_language(self.audio_streams@, language@, (i + 1) as nat);
                assert forall|k: int| 0 <= k < out@.len() implies *(#[trigger] out@[k]) == next[k] by {
                    if k < prev.len() {
                        assert(next[k] == prev[k]);
                    }
                }
            }
            i += 1;
        }
        out
    }

    /// The subtitle streams in `language`, compared without regard to case.
    pub fn subtitle_by_language(&self, language: &str) -> (r: Vec<&SubtitleStreamInfo>)
        ensures
            r@.len() == subtitles_in_language(self.subtitle_streams@, language@, self.subtitle_streams@.len()).len(),
            forall|k: int| 0 <= k < r@.len() ==> *(#[trigger] r@[k]) == subtitles_in_language(self.subtitle_streams@,
                language@, self.subtitle_streams@.len())[k],
    {
        let lang = to_lower(language);
        let n = self.subtitle_streams.len();
        let mut out: Vec<&SubtitleStreamInfo> = Vec::new();
        let mut i: usize = 0;
        while i < n
            invariant
                n == self.subtitle_streams@.len(),
                lang@ == lowercase(language@),
                i <= n,
                out@.len() == subtitles_in_language(self.subtitle_streams@, language@, i as nat).len(),
                forall|k: int| 0 <= k < out@.len() ==> *(#[trigger] out@[k]) == subtitles_in_language(
                    self.subtitle_streams@, language@, i as nat)[k],
            decreases n - i,
        {
            let t = &self.subtitle_streams[i];
            if language_matches(&t.language, &lang, Ghost(language@)) {
                out.push(t);
            }
            proof {
                let prev = subtitles_in_language(self.subtitle_streams@, language@, i as nat);
                let next = subtitles_in_language(self.subtitle_streams@, language@, (i + 1) as nat);
                assert forall|k: int| 0 <= k < out@.len() implies *(#[trigger] out@[k]) == next[k] by {
                    if k < prev.len() {
                        assert(next[k] == prev[k]);
                    }
                }
            }
            i += 1;
        }
        out
    }

    /// Every indexed file is video on demand.
    pub fn is_vod(&self) -> (r: bool)
        ensures
            r,
    {
        true
    }

    pub fn segment_count(&self) -> (r: usize)
        ensures
            r == self.segments@.len(),
    {
        self.segments.len()
    }

    /// Forgets the first timestamps of the segments: one unknown slot per segment.
    pub fn init_segment_first_pts(&mut self)
        ensures
            final(self).segment_first_pts@.len() == old(self).segments@.len(),
            forall|k: int| 0 <= k < final(self).segment_first_pts@.len() ==> #[trigger] final(self).segment_first_pts@[k]
                == i64::MIN,
            final(self).segments@ == old(self).segments@,
    {
        let n = self.segments.len();
        let mut v: Vec<i64> = Vec::new();
        let mut k: usize = 0;
        while k < n
            invariant
                k <= n,
                v@.len() == k,
                forall|j: int| 0 <= j < k ==> #[trigger] v@[j] == i64::MIN,
            decreases n - k,
        {
            v.push(i64::MIN);
            k += 1;
        }
        self.segment_first_pts = v;
    }

    /// Records the first timestamp of segment `seq` (ignored for a segment
    /// without a slot).
    pub fn set_segment_first_pts(&mut self, seq: usize, pts: i64)
        ensures
            final(self).segment_first_pts@ == if seq < old(self).segment_first_pts@.len() {
                old(self).segment_first_pts@.update(seq as int, pts)
            } else {
                old(self).segment_first_pts@
            },
    {
        if seq < self.segment_first_pts.len() {
            self.segment_first_pts.set(seq, pts);
        }
    }

    /// The first timestamp of segment `seq`, when recorded.
    pub fn get_segment_first_pts(&self, seq: usize) -> (r: Option<i64>)
        ensures
            r == first_pts_of(self.segment_first_pts@, seq as int),
    {
        if seq < self.segment_first_pts.len() {
            let v = self.segment_first_pts[seq];
            if v == i64::MIN {
                None
            } else {
                Some(v)
            }
        } else {
            None
        }
    }

    /// Marks the index as used now: only the time of last use changes.
    pub fn touch(&mut self)
        ensures
            *final(self) == (StreamIndex { last_accessed: final(self).last_accessed, ..*old(self) }),
    {
        self.last_accessed = unix_now_secs();
    }

    /// Seconds since the index was last used (zero when the clock reads
    /// earlier than that).
    pub fn time_since_last_access(&self) -> (r: u64)
        ensures
            exists|now: u64| r == #[trigger] saturating_elapsed(now, self.last_accessed),
    {
        let now = unix_now_secs();
        let r = if now >= self.last_accessed {
            now - self.last_accessed
        } else {
            0
        };
        assert(r == saturating_elapsed(now, self.last_accessed));
        r
    }
}

// ---------------------------------------------------------------------------
// Keeping the streams a client can play
// ---------------------------------------------------------------------------

/// The codec names a browser uses for an audio codec.
pub open spec fn browser_codec_names(c: CodecId) -> Seq<Seq<char>> {
    match c {
        CodecId::AAC => seq!["mp4a.40.2"@, "aac"@],
        CodecId::AC3 => seq!["ac-3"@, "ac3"@],
        CodecId::EAC3 => seq!["ec-3"@, "eac3"@],
        CodecId::MP3 => seq!["mp4a.40.34"@, "mp3"@],
        CodecId::OPUS => seq!["opus"@],
        _ => Seq::empty(),
    }
}

/// An audio stream is kept when the client lists one of its browser codec
/// names, or its codec's own name in lower case.
pub open spec fn keep_audio(a: AudioStreamInfo, wanted: Seq<Seq<char>>) -> bool {
    (exists|k: int| 0 <= k < browser_codec_names(a.codec_id).len() && wanted.contains(
        #[trigger] browser_codec_names(a.codec_id)[k],
    )) || wanted.contains(lowercase(codec_debug_name(a.codec_id)))
}

/// A subtitle stream is kept when the client lists `webvtt`, or `wvtt` for
/// a WebVTT stream (or the empty name for any other).
pub open spec fn keep_subtitle(t: SubtitleStreamInfo, wanted: Seq<Seq<char>>) -> bool {
    wanted.contains(if t.codec_id == CodecId::WEBVTT { "wvtt"@ } else { ""@ }) || wanted.contains("webvtt"@)
}

pub open spec fn kept_audio(s: Seq<AudioStreamInfo>, wanted: Seq<Seq<char>>, n: nat) -> Seq<AudioStreamInfo>
    decreases n,
{
    if n == 0 {
        Seq::empty()
    } else {
        kept_audio(s, wanted, (n - 1) as nat) + if keep_audio(s[n - 1], wanted) {
            seq![s[n - 1]]
        } else {
            Seq::empty()
        }
    }
}

pub open spec fn kept_subtitles(s: Seq<SubtitleStreamInfo>, wanted: Seq<Seq<char>>, n: nat) -> Seq<SubtitleStreamInfo>
    decreases n,
{
    if n == 0 {
        Seq::empty()
    } else {
        kept_subtitles(s, wanted, (n - 1) as nat) + if keep_subtitle(s[n - 1], wanted) {
            seq![s[n - 1]]
        } else {
            Seq::empty()
        }
    }
}

/// AAC transcodes of the first `n` streams with codec `c`.
pub open spec fn transcoded_of_codec(s: Seq<AudioStreamInfo>, c: CodecId, n: nat) -> Seq<AudioStreamInfo>
    decreases n,
{
    if n == 0 {
        Seq::empty()
    } else {
        transcoded_of_codec(s, c, (n - 1) as nat) + if s[n - 1].codec_id == c {
            seq![AudioStreamInfo { is_transcoded: true, ..s[n - 1] }]
        } else {
            Seq::empty()
        }
    }
}

/// The audio streams left for a client that plays `wanted` (lower-cased):
/// those it can play; if none is left but the file has audio and the client
/// plays AAC, AAC transcodes of every stream with the first stream's codec.
pub open spec fn filtered_audio(s: Seq<AudioStreamInfo>, wanted: Seq<Seq<char>>) -> Seq<AudioStreamInfo> {
    let k = kept_audio(s, wanted, s.len());
    if k.len() == 0 && s.len() > 0 && (wanted.contains("aac"@) || wanted.contains("mp4a.40.2"@)) {
        transcoded_of_codec(s, s[0].codec_id, s.len())
    } else {
        k
    }
}

pub open spec fn lowered_names(codecs: Seq<String>) -> Seq<Seq<char>> {
    codecs.map_values(|c: String| lowercase(c@))
}

fn contains_name(v: &Vec<String>, name: &str) -> (r: bool)
    ensures
        r == views_of(v@).contains(name@),
{
    let n = v.len();
    let mut k: usize = 0;
    while k < n
        invariant
            n == v@.len(),
            k <= n,
            forall|j: int| 0 <= j < k ==> (#[trigger] v@[j])@ != name@,
        decreases n - k,
    {
        if str_eq(v[k].as_str(), name) {
            assert(views_of(v@)[k as int] == name@);
            return true;
        }
        k += 1;
    }
    proof {
        if views_of(v@).contains(name@) {
            let w = choose|w: int| 0 <= w < v@.len() && #[trigger] views_of(v@)[w] == name@;
            assert(v@[w]@ == name@);
        }
    }
    false
}

fn browser_names_x(c: CodecId) -> (r: Vec<&'static str>)
    ensures
        r@.len() == browser_codec_names(c).len(),
        forall|k: int| 0 <= k < r@.len() ==> (#[trigger] r@[k])@ == browser_codec_names(c)[k],
{
    match c {
        CodecId::AAC => vec!["mp4a.40.2", "aac"],
        CodecId::AC3 => vec!["ac-3", "ac3"],
        CodecId::EAC3 => vec!["ec-3", "eac3"],
        CodecId::MP3 => vec!["mp4a.40.34", "mp3"],
        CodecId::OPUS => vec!["opus"],
        _ => Vec::new(),
    }
}

fn keep_audio_x(a: &AudioStreamInfo, wanted: &Vec<String>, Ghost(w): Ghost<Seq<Seq<char>>>) -> (r: bool)
    requires
        w == views_of(wanted@),
    ensures
        r == keep_audio(*a, w),
{
    let names = browser_names_x(a.codec_id);
    let m = names.len();
    let mut k: usize = 0;
    while k < m
        invariant
            m == names@.len(),
            m == browser_codec_names(a.codec_id).len(),
            forall|j: int| 0 <= j < m ==> (#[trigger] names@[j])@ == browser_codec_names(a.codec_id)[j],
            w == views_of(wanted@),
            k <= m,
            forall|j: int| 0 <= j < k ==> !w.contains(#[trigger] browser_codec_names(a.codec_id)[j]),
        decreases m - k,
    {
        if contains_name(wanted, names[k]) {
            return true;
        }
        k += 1;
    }
    let own = to_lower(codec_name(a.codec_id));
    contains_name(wanted, own.as_str())
}

fn keep_subtitle_x(t: &SubtitleStreamInfo, wanted: &Vec<String>, Ghost(w): Ghost<Seq<Seq<char>>>) -> (r: bool)
    requires
        w == views_of(wanted@),
    ensures
        r == keep_subtitle(*t, w),
{
    let name = if t.codec_id == CodecId::WEBVTT { "wvtt" } else { "" };
    contains_name(wanted, name) || contains_name(wanted, "webvtt")
}

fn copy_subtitle(t: &SubtitleStreamInfo) -> (r: SubtitleStreamInfo)
    ensures
        r.stream_index == t.stream_index,
        r.codec_id == t.codec_id,
        r.language == t.language,
        r.format == t.format,
        r.non_empty_sequences@ == t.non_empty_sequences@,
        r.sample_index@ == t.sample_index@,
        r.timebase == t.timebase,
        r.start_time == t.start_time,
{
    let mut seqs: Vec<usize> = Vec::new();
    let mut k: usize = 0;
    while k < t.non_empty_sequences.len()
        invariant
            k <= t.non_empty_sequences@.len(),
            seqs@ == t.non_empty_sequences@.subrange(0, k as int),
        decreases t.non_empty_sequences@.len() - k,
    {
        seqs.push(t.non_empty_sequences[k]);
        k += 1;
    }
    let mut samples: Vec<SubtitleSampleRef> = Vec::new();
    let mut k: usize = 0;
    while k < t.sample_index.len()
        invariant
            k <= t.sample_index@.len(),
            samples@ == t.sample_index@.subrange(0, k as int),
        decreases t.sample_index@.len() - k,
    {
        samples.push(t.sample_index[k]);
        k += 1;
    }
    assert(seqs@ =~= t.non_empty_sequences@);
    assert(samples@ =~= t.sample_index@);
    SubtitleStreamInfo {
        stream_index: t.stream_index,
        codec_id: t.codec_id,
        language: crate::text::clone_opt(&t.language),
        format: t.format,
        non_empty_sequences: seqs,
        sample_index: samples,
        timebase: t.timebase,
        start_time: t.start_time,
    }
}

pub open spec fn same_subtitle(a: SubtitleStreamInfo, b: SubtitleStreamInfo) -> bool {
    &&& a.stream_index == b.stream_index
    &&& a.codec_id == b.codec_id
    &&& a.language == b.language
    &&& a.format == b.format
    &&& a.non_empty_sequences@ == b.non_empty_sequences@
    &&& a.sample_index@ == b.sample_index@
    &&& a.timebase == b.timebase
    &&& a.start_time == b.start_time
}

impl StreamIndex {
    /// Keeps the streams a client that plays `codecs` can use (see
    /// `filtered_audio` and `keep_subtitle`); nothing changes when the list
    /// is empty.
    pub fn filter_codecs(&mut self, codecs: &Vec<String>)
        ensures
            codecs@.len() == 0 ==> final(self).audio_streams@ == old(self).audio_streams@
                && final(self).subtitle_streams@ == old(self).subtitle_streams@,
            codecs@.len() > 0 ==> {
                let w = lowered_names(codecs@);
                let kept = kept_subtitles(old(self).subtitle_streams@, w, old(self).subtitle_streams@.len());
                &&& final(self).audio_streams@ == filtered_audio(old(self).audio_streams@, w)
                &&& final(self).subtitle_streams@.len() == kept.len()
                &&& forall|k: int| 0 <= k < kept.len() ==> same_subtitle(#[trigger] final(self).subtitle_streams@[k], kept[k])
            },
            final(self).video_streams@ == old(self).video_streams@,
            final(self).segments@ == old(self).segments@,
            final(self).stream_id == old(self).stream_id,
            final(self).source_path == old(self).source_path,
    {
        if codecs.len() == 0 {
            return;
        }
        let mut lower: Vec<String> = Vec::new();
        let mut k: usize = 0;
        while k < codecs.len()
            invariant
                k <= codecs@.len(),
                lower@.len() == k,
                forall|j: int| 0 <= j < k ==> (#[trigger] lower@[j])@ == lowercase(codecs@[j]@),
            decreases codecs@.len() - k,
        {
            lower.push(to_lower(codecs[k].as_str()));
            k += 1;
        }
        let ghost w = views_of(lower@);
        assert(w =~= lowered_names(codecs@));
        let n = self.audio_streams.len();
        let mut audio: Vec<AudioStreamInfo> = Vec::new();
        let mut i: usize = 0;
        while i < n
            invariant
                n == self.audio_streams@.len(),
                i <= n,
                w == views_of(lower@),
                audio@ == kept_audio(self.audio_streams@, w, i as nat),
            decreases n - i,
        {
            if keep_audio_x(&self.audio_streams[i], &lower, Ghost(w)) {
                audio.push(copy_audio(&self.audio_streams[i]));
            }
            assert(audio@ =~= kept_audio(self.audio_streams@, w, (i + 1) as nat));
            i += 1;
        }
        if audio.len() == 0 && n > 0 && (contains_name(&lower, "aac") || contains_name(&lower, "mp4a.40.2")) {
            let first = self.audio_streams[0].codec_id;
            let mut j: usize = 0;
            while j < n
                invariant
                    n == self.audio_streams@.len(),
                    n > 0,
                    first == self.audio_streams@[0].codec_id,
                    j <= n,
                    audio@ == transcoded_of_codec(self.audio_streams@, first, j as nat),
                decreases n - j,
            {
                if self.audio_streams[j].codec_id == first {
                    let mut a = copy_audio(&self.audio_streams[j]);
                    a.is_transcoded = true;
                    audio.push(a);
                }
                assert(audio@ =~= transcoded_of_codec(self.audio_streams@, first, (j + 1) as nat));
                j += 1;
            }
        }
        let m = self.subtitle_streams.len();
        let mut subs: Vec<SubtitleStreamInfo> = Vec::new();
        let mut i: usize = 0;
        while i < m
            invariant
                m == self.subtitle_streams@.len(),
                i <= m,
                w == views_of(lower@),
                subs@.len() == kept_subtitles(self.subtitle_streams@, w, i as nat).len(),
                forall|k: int| 0 <= k < subs@.len() ==> same_subtitle(#[trigger] subs@[k],
                    kept_subtitles(self.subtitle_streams@, w, i as nat)[k]),
            decreases m - i,
        {
            if keep_subtitle_x(&self.subtitle_streams[i], &lower, Ghost(w)) {
                subs.push(copy_subtitle(&self.subtitle_streams[i]));
            }
            proof {
                let prev = kept_subtitles(self.subtitle_streams@, w, i as nat);
                let next = kept_subtitles(self.subtitle_streams@, w, (i + 1) as nat);
                assert forall|k: int| 0 <= k < subs@.len() implies same_subtitle(#[trigger] subs@[k], next[k]) by {
                    if k < prev.len() {
                        assert(next[k] == prev[k]);
                    }
                }
            }
            i += 1;
        }
        self.audio_streams = audio;
        self.subtitle_streams = subs;
    }
}

} // verus!
