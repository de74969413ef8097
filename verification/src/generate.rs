//! What answers a request: which playlist or segment is generated for a
//! parsed request path, and whether the result is kept in the segment cache.

use vstd::prelude::*;
use crate::text::str_eq;
use crate::url::{HlsUrl, HlsUrlView, UrlType, UrlTypeView};
use crate::media::StreamIndex;

verus! {

/// The piece of output a request asks for.
#[derive(Clone, Copy, Debug, PartialEq, Eq, Structural)]
pub enum GenerateAction {
    /// The master playlist of the file.
    MasterPlaylist,
    /// A playlist of video segments interleaved with an audio track.
    InterleavedPlaylist { track_id: usize, audio_track_id: usize, force_aac: bool },
    /// A playlist of one audio track.
    AudioPlaylist { track_id: usize, force_aac: bool },
    /// A playlist of one subtitle track.
    SubtitlePlaylist { track_id: usize },
    /// The playlist of the video track.
    VideoPlaylist,
    /// One media segment of video interleaved with audio.
    InterleavedSegment { track_id: usize, audio_track_id: usize, sequence: usize, force_aac: bool },
    /// The init segment of video interleaved with audio.
    InterleavedInit { track_id: usize, audio_track_id: usize, force_aac: bool },
    /// One video segment.
    VideoSegment { track_id: usize, sequence: usize },
    /// The video init segment.
    VideoInit,
    /// One audio segment.
    AudioSegment { track_id: usize, sequence: usize, force_aac: bool },
    /// An audio init segment.
    AudioInit { track_id: usize, force_aac: bool },
    /// A WebVTT segment holding a range of cues.
    SubtitleSegment { track_id: usize, start_cue: usize, end_cue: usize },
}

/// The codec named in a request is AAC.
pub open spec fn wants_aac(o: Option<Seq<char>>) -> bool {
    o == Some("aac"@)
}

pub open spec fn has_audio_track(idx: StreamIndex, id: usize) -> bool {
    exists|k: int| 0 <= k < idx.audio_streams@.len() && (#[trigger] idx.audio_streams@[k]).stream_index == id
}

pub open spec fn has_subtitle_track(idx: StreamIndex, id: usize) -> bool {
    exists|k: int| 0 <= k < idx.subtitle_streams@.len() && (#[trigger] idx.subtitle_streams@[k]).stream_index == id
}

/// The output a request asks for: a playlist with an audio track is an
/// interleaved playlist; else a track id of an audio track gives an audio
/// playlist, one of a subtitle track a subtitle playlist, and any other the
/// video playlist.  Segments without a number are init segments.
pub open spec fn action_for(h: HlsUrlView, idx: StreamIndex) -> GenerateAction {
    match h.url_type {
        UrlTypeView::MainPlaylist => GenerateAction::MasterPlaylist,
        UrlTypeView::Playlist(p) => match p.audio_track_id {
            Some(a) => GenerateAction::InterleavedPlaylist {
                track_id: p.track_id,
                audio_track_id: a,
                force_aac: wants_aac(p.audio_transcode_to),
            },
            None => if has_audio_track(idx, p.track_id) {
                GenerateAction::AudioPlaylist {
                    track_id: p.track_id,
                    force_aac: wants_aac(p.audio_transcode_to),
                }
            } else if has_subtitle_track(idx, p.track_id) {
                GenerateAction::SubtitlePlaylist { track_id: p.track_id }
            } else {
                GenerateAction::VideoPlaylist
            },
        },
        UrlTypeView::VideoSegment(v) => match v.audio_track_id {
            Some(a) => match v.segment_id {
                Some(n) => GenerateAction::InterleavedSegment {
                    track_id: v.track_id,
                    audio_track_id: a,
                    sequence: n,
                    force_aac: wants_aac(v.audio_transcode_to),
                },
                None => GenerateAction::InterleavedInit {
                    track_id: v.track_id,
                    audio_track_id: a,
                    force_aac: wants_aac(v.audio_transcode_to),
                },
            },
            None => match v.segment_id {
                Some(n) => GenerateAction::VideoSegment { track_id: v.track_id, sequence: n },
                None => GenerateAction::VideoInit,
            },
        },
        UrlTypeView::AudioSegment(a) => match a.segment_id {
            Some(n) => GenerateAction::AudioSegment {
                track_id: a.track_id,
                sequence: n,
                force_aac: wants_aac(a.transcode_to),
            },
            None => GenerateAction::AudioInit {
                track_id: a.track_id,
                force_aac: wants_aac(a.transcode_to),
            },
        },
        UrlTypeView::VttSegment(t) => GenerateAction::SubtitleSegment {
            track_id: t.track_id,
            start_cue: t.start_cue,
            end_cue: t.end_cue,
        },
    }
}

/// Media segments are cached once generated; playlists and init segments are not.
pub open spec fn spec_is_cached(a: GenerateAction) -> bool {
    match a {
        GenerateAction::InterleavedSegment { .. } => true,
        GenerateAction::VideoSegment { .. } => true,
        GenerateAction::AudioSegment { .. } => true,
        GenerateAction::SubtitleSegment { .. } => true,
        _ => false,
    }
}

fn is_aac_name(o: &Option<String>) -> (r: bool)
    ensures
        r == wants_aac(crate::url::opt_view(*o)),
{
    match o {
        Some(s) => str_eq(s.as_str(), "aac"),
        None => false,
    }
}

fn find_audio_track(idx: &StreamIndex, id: usize) -> (r: bool)
    ensures
        r == has_audio_track(*idx, id),
{
    let n = idx.audio_streams.len();
    let mut k: usize = 0;
    while k < n
        invariant
            n == idx.audio_streams@.len(),
            k <= n,
            forall|j: int| 0 <= j < k ==> (#[trigger] idx.audio_streams@[j]).stream_index != id,
        decreases n - k,
    {
        if idx.audio_streams[k].stream_index == id {
            return true;
        }
        k += 1;
    }
    false
}

fn find_subtitle_track(idx: &StreamIndex, id: usize) -> (r: bool)
    ensures
        r == has_subtitle_track(*idx, id),
{
    let n = idx.subtitle_streams.len();
    let mut k: usize = 0;
    while k < n
        invariant
            n == idx.subtitle_streams@.len(),
            k <= n,
            forall|j: int| 0 <= j < k ==> (#[trigger] idx.subtitle_streams@[j]).stream_index != id,
        decreases n - k,
    {
        if idx.subtitle_streams[k].stream_index == id {
            return true;
        }
        k += 1;
    }
    false
}

impl GenerateAction {
    /// Whether the generated bytes go into the segment cache.
    pub fn is_cached(&self) -> (r: bool)
        ensures
            r == spec_is_cached(*self),
    {
        match self {
            GenerateAction::InterleavedSegment { .. } => true,
            GenerateAction::VideoSegment { .. } => true,
            GenerateAction::AudioSegment { .. } => true,
            GenerateAction::SubtitleSegment { .. } => true,
            _ => false,
        }
    }
}

impl HlsUrl {
    /// What is generated to answer this request for the given file.
    pub fn generate_action(&self, index: &StreamIndex) -> (r: GenerateAction)
        ensures
            r == action_for(self@, *index),
    {
        match &self.url_type {
            UrlType::MainPlaylist => GenerateAction::MasterPlaylist,
            UrlType::Playlist(p) => {
                let force_aac = is_aac_name(&p.audio_transcode_to);
                match p.audio_track_id {
                    Some(a) => GenerateAction::InterleavedPlaylist {
                        track_id: p.track_id,
                        audio_track_id: a,
                        force_aac,
                    },
                    None => if find_audio_track(index, p.track_id) {
                        GenerateAction::AudioPlaylist { track_id: p.track_id, force_aac }
                    } else if find_subtitle_track(index, p.track_id) {
                        GenerateAction::SubtitlePlaylist { track_id: p.track_id }
                    } else {
                        GenerateAction::VideoPlaylist
                    },
                }
            },
            UrlType::VideoSegment(v) => {
                let force_aac = is_aac_name(&v.audio_transcode_to);
                match v.audio_track_id {
                    Some(a) => match v.segment_id {
                        Some(n) => GenerateAction::InterleavedSegment {
                            track_id: v.track_id,
                            audio_track_id: a,
                            sequence: n,
                            force_aac,
                        },
                        None => GenerateAction::InterleavedInit {
                            track_id: v.track_id,
                            audio_track_id: a,
                            force_aac,
                        },
                    },
                    None => match v.segment_id {
                        Some(n) => GenerateAction::VideoSegment { track_id: v.track_id, sequence: n },
                        None => GenerateAction::VideoInit,
                    },
                }
            },
            UrlType::AudioSegment(a) => {
                let force_aac = is_aac_name(&a.transcode_to);
                match a.segment_id {
                    Some(n) => GenerateAction::AudioSegment {
                        track_id: a.track_id,
                        sequence: n,
                        force_aac,
                    },
                    None => GenerateAction::AudioInit { track_id: a.track_id, force_aac },
                }
            },
            UrlType::VttSegment(t) => GenerateAction::SubtitleSegment {
                track_id: t.track_id,
                start_cue: t.start_cue,
                end_cue: t.end_cue,
            },
        }
    }
}


/// A playlist request names a track: with an audio track it is the video
/// interleaved with that audio; else a track id that is the index of an
/// audio stream gives that audio playlist, one that is the index of a
/// subtitle stream (and of no audio stream) that subtitle playlist, and any
/// other the video playlist.
pub proof fn law_playlist_action(h: HlsUrlView, idx: StreamIndex)
    requires
        h.url_type is Playlist,
    ensures
        ({
            let p = h.url_type->Playlist_0;
            let id = p.track_id;
            let aac = p.audio_transcode_to == Some("aac"@);
            let audio = exists|k: int| 0 <= k < idx.audio_streams@.len() && idx.audio_streams@[k].stream_index == id;
            let subs = exists|k: int| 0 <= k < idx.subtitle_streams@.len() && idx.subtitle_streams@[k].stream_index
                == id;
            let r = action_for(h, idx);
            &&& p.audio_track_id matches Some(a) ==> r == GenerateAction::InterleavedPlaylist {
                track_id: id,
                audio_track_id: a,
                force_aac: aac,
            }
            &&& p.audio_track_id is None && audio ==> r == GenerateAction::AudioPlaylist { track_id: id, force_aac: aac }
            &&& p.audio_track_id is None && !audio && subs ==> r == GenerateAction::SubtitlePlaylist { track_id: id }
            &&& p.audio_track_id is None && !audio && !subs ==> r == GenerateAction::VideoPlaylist
        }),
{
    let p = h.url_type->Playlist_0;
    let id = p.track_id;
    if exists|k: int| 0 <= k < idx.audio_streams@.len() && idx.audio_streams@[k].stream_index == id {
        let k = choose|k: int| 0 <= k < idx.audio_streams@.len() && idx.audio_streams@[k].stream_index == id;
        assert(has_audio_track(idx, id));
    }
    if exists|k: int| 0 <= k < idx.subtitle_streams@.len() && idx.subtitle_streams@[k].stream_index == id {
        let k = choose|k: int| 0 <= k < idx.subtitle_streams@.len() && idx.subtitle_streams@[k].stream_index == id;
        assert(has_subtitle_track(idx, id));
    }
}

/// What a request asks for is kept in the segment cache exactly when it is
/// a numbered media segment (video, audio or subtitle cues), never a
/// playlist or an init segment; and a numbered segment is generated with
/// the number asked for.
pub proof fn law_cached_iff_numbered_segment(h: HlsUrlView, idx: StreamIndex)
    ensures
        spec_is_cached(action_for(h, idx)) <==> match h.url_type {
            UrlTypeView::VideoSegment(v) => v.segment_id is Some,
            UrlTypeView::AudioSegment(a) => a.segment_id is Some,
            UrlTypeView::VttSegment(_) => true,
            _ => false,
        },
        match h.url_type {
            UrlTypeView::VideoSegment(v) => match v.segment_id {
                Some(n) => match action_for(h, idx) {
                    GenerateAction::VideoSegment { track_id, sequence } => track_id == v.track_id && sequence == n,
                    GenerateAction::InterleavedSegment { track_id, sequence, .. } => track_id == v.track_id
                        && sequence == n,
                    _ => false,
                },
                None => true,
            },
            UrlTypeView::AudioSegment(a) => match a.segment_id {
                Some(n) => match action_for(h, idx) {
                    GenerateAction::AudioSegment { track_id, sequence, .. } => track_id == a.track_id && sequence == n,
                    _ => false,
                },
                None => true,
            },
            _ => true,
        },
{
}

/// The other requests: the main playlist gives the master playlist, a cue
/// range the subtitle segment of those cues, and a segment without a number
/// the init segment of its track (interleaved when it names an audio track).
pub proof fn law_other_actions(h: HlsUrlView, idx: StreamIndex)
    ensures
        h.url_type is MainPlaylist ==> action_for(h, idx) == GenerateAction::MasterPlaylist,
        match h.url_type {
            UrlTypeView::VttSegment(t) => action_for(h, idx) == GenerateAction::SubtitleSegment {
                track_id: t.track_id,
                start_cue: t.start_cue,
                end_cue: t.end_cue,
            },
            UrlTypeView::VideoSegment(v) => v.segment_id is None ==> match v.audio_track_id {
                Some(a) => action_for(h, idx) == GenerateAction::InterleavedInit {
                    track_id: v.track_id,
                    audio_track_id: a,
                    force_aac: v.audio_transcode_to == Some("aac"@),
                },
                None => action_for(h, idx) == GenerateAction::VideoInit,
            },
            UrlTypeView::AudioSegment(a) => a.segment_id is None ==> action_for(h, idx) == GenerateAction::AudioInit {
                track_id: a.track_id,
                force_aac: a.transcode_to == Some("aac"@),
            },
            _ => true,
        },
{
}
} // verus!
