//! The track listing of a media file.

use vstd::prelude::*;
use crate::text::{dec, push_str, push_u64, clone_opt};
use crate::media::{StreamIndex, SubtitleFormat, VideoStreamInfo, AudioStreamInfo, SubtitleStreamInfo,
    codec_debug_name, codec_name};

verus! {

/// What kind of track, with what describes it.
#[derive(Debug, Clone, PartialEq)]
pub enum TrackType {
    Video { width: u32, height: u32 },
    Audio { channels: u16, sample_rate: u32 },
    Subtitle { format: String },
}

/// One track of a media file.
#[derive(Debug)]
pub struct TrackInfo {
    /// `v/<index>`, `a/<index>` or `s/<index>`.
    pub id: String,
    pub track_type: TrackType,
    /// The codec's name.
    pub codec_id: String,
    pub language: Option<String>,
    pub bitrate: Option<u64>,
    pub transcode_to: Option<String>,
}

pub open spec fn subtitle_format_name(f: SubtitleFormat) -> Seq<char> {
    match f {
        SubtitleFormat::SubRip => "SubRip"@,
        SubtitleFormat::Ass => "Ass"@,
        SubtitleFormat::MovText => "MovText"@,
        SubtitleFormat::WebVtt => "WebVtt"@,
        SubtitleFormat::Text => "Text"@,
        SubtitleFormat::Unknown => "Unknown"@,
    }
}

fn subtitle_format_str(f: SubtitleFormat) -> (r: &'static str)
    ensures
        r@ == subtitle_format_name(f),
{
    match f {
        SubtitleFormat::SubRip => "SubRip",
        SubtitleFormat::Ass => "Ass",
        SubtitleFormat::MovText => "MovText",
        SubtitleFormat::WebVtt => "WebVtt",
        SubtitleFormat::Text => "Text",
        SubtitleFormat::Unknown => "Unknown",
    }
}

pub open spec fn video_track_ok(v: VideoStreamInfo, t: TrackInfo) -> bool {
    &&& t.id@ == "v/"@ + dec(v.stream_index as nat)
    &&& t.track_type == TrackType::Video { width: v.width, height: v.height }
    &&& t.codec_id@ == codec_debug_name(v.codec_id)
    &&& t.language == v.language
    &&& t.bitrate == Some(v.bitrate)
    &&& t.transcode_to is None
}

pub open spec fn audio_track_ok(a: AudioStreamInfo, t: TrackInfo) -> bool {
    &&& t.id@ == "a/"@ + dec(a.stream_index as nat)
    &&& t.track_type == TrackType::Audio { channels: a.channels, sample_rate: a.sample_rate }
    &&& t.codec_id@ == codec_debug_name(a.codec_id)
    &&& t.language == a.language
    &&& t.bitrate == Some(a.bitrate)
    &&& t.transcode_to is None
}

pub open spec fn subtitle_track_ok(s: SubtitleStreamInfo, t: TrackInfo) -> bool {
    &&& t.id@ == "s/"@ + dec(s.stream_index as nat)
    &&& t.track_type matches TrackType::Subtitle { format } && format@ == subtitle_format_name(s.format)
    &&& t.codec_id@ == codec_debug_name(s.codec_id)
    &&& t.language == s.language
    &&& t.bitrate is None
    &&& t.transcode_to is None
}

fn track_id(prefix: &str, index: usize) -> (r: String)
    ensures
        r@ == prefix@ + dec(index as nat),
{
    let mut out = String::from_str(prefix);
    push_u64(&mut out, index as u64);
    out
}

/// The tracks of a file: its video streams, then its audio streams, then
/// its subtitle streams, each in file order.
pub fn media_tracks(index: &StreamIndex) -> (r: Vec<TrackInfo>)
    ensures
        ({
            let nv = index.video_streams@.len();
            let na = index.audio_streams@.len();
            let ns = index.subtitle_streams@.len();
            &&& r@.len() == nv + na + ns
            &&& forall|k: int| 0 <= k < nv ==> video_track_ok(index.video_streams@[k], #[trigger] r@[k])
            &&& forall|k: int| nv <= k < nv + na ==> audio_track_ok(index.audio_streams@[k - nv], #[trigger] r@[k])
            &&& forall|k: int| nv + na <= k < nv + na + ns ==> subtitle_track_ok(index.subtitle_streams@[k - nv - na],
                #[trigger] r@[k])
        }),
{
    let nv = index.video_streams.len();
    let na = index.audio_streams.len();
    let ns = index.subtitle_streams.len();
    let mut out: Vec<TrackInfo> = Vec::new();
    let mut i: usize = 0;
    while i < nv
        invariant
            nv == index.video_streams@.len(),
            i <= nv,
            out@.len() == i,
            forall|k: int| 0 <= k < i ==> video_track_ok(index.video_streams@[k], #[trigger] out@[k]),
        decreases nv - i,
    {
        let v = &index.video_streams[i];
        out.push(TrackInfo {
            id: track_id("v/", v.stream_index),
            track_type: TrackType::Video { width: v.width, height: v.height },
            codec_id: String::from_str(codec_name(v.codec_id)),
            language: clone_opt(&v.language),
            bitrate: Some(v.bitrate),
            transcode_to: None,
        });
        i += 1;
    }
    let mut i: usize = 0;
    while i < na
        invariant
            nv == index.video_streams@.len(),
            na == index.audio_streams@.len(),
            i <= na,
            out@.len() == nv + i,
            forall|k: int| 0 <= k < nv ==> video_track_ok(index.video_streams@[k], #[trigger] out@[k]),
            forall|k: int| nv <= k < nv + i ==> audio_track_ok(index.audio_streams@[k - nv], #[trigger] out@[k]),
        decreases na - i,
    {
        let a = &index.audio_streams[i];
        out.push(TrackInfo {
            id: track_id("a/", a.stream_index),
            track_type: TrackType::Audio { channels: a.channels, sample_rate: a.sample_rate },
            codec_id: String::from_str(codec_name(a.codec_id)),
            language: clone_opt(&a.language),
            bitrate: Some(a.bitrate),
            transcode_to: None,
        });
        i += 1;
    }
    let mut i: usize = 0;
    while i < ns
        invariant
            nv == index.video_streams@.len(),
            na == index.audio_streams@.len(),
            ns == index.subtitle_streams@.len(),
            i <= ns,
            out@.len() == nv + na + i,
            forall|k: int| 0 <= k < nv ==> video_track_ok(index.video_streams@[k], #[trigger] out@[k]),
            forall|k: int| nv <= k < nv + na ==> audio_track_ok(index.audio_streams@[k - nv], #[trigger] out@[k]),
            forall|k: int| nv + na <= k < nv + na + i ==> subtitle_track_ok(
                index.subtitle_streams@[k - nv - na],
                #[trigger] out@[k],
            ),
        decreases ns - i,
    {
        let s = &index.subtitle_streams[i];
        out.push(TrackInfo {
            id: track_id("s/", s.stream_index),
            track_type: TrackType::Subtitle { format: String::from_str(subtitle_format_str(s.format)) },
            codec_id: String::from_str(codec_name(s.codec_id)),
            language: clone_opt(&s.language),
            bitrate: None,
            transcode_to: None,
        });
        i += 1;
    }
    out
}

} // verus!
