//! Jellyfin's PlaybackInfo types as the HLS proxy's handlers use them, and
//! the device profile the proxy answers with.

use vstd::prelude::*;

verus! {

/// Media type of a profile.
#[derive(Clone, Copy, Debug, PartialEq, Eq, Structural)]
pub enum MediaType {
    Video,
    Audio,
    Photo,
}

#[derive(Debug)]
pub struct DirectPlayProfile {
    pub container: Option<String>,
    pub media_type: Option<MediaType>,
    pub video_codec: Option<String>,
    pub audio_codec: Option<String>,
}

#[derive(Debug)]
pub struct TranscodingProfile {
    pub container: Option<String>,
    pub media_type: Option<MediaType>,
    pub video_codec: Option<String>,
    pub audio_codec: Option<String>,
    pub protocol: Option<String>,
}

#[derive(Debug)]
pub struct SubtitleProfile {
    pub format: Option<String>,
    pub method: Option<String>,
}

/// What a device can play.
#[derive(Debug)]
pub struct DeviceProfile {
    pub direct_play_profiles: Vec<DirectPlayProfile>,
    pub transcoding_profiles: Vec<TranscodingProfile>,
    pub subtitle_profiles: Vec<SubtitleProfile>,
}

/// The profile the proxy sends for every client: direct play of MP4, M4V,
/// MKV and WebM video with the codecs the proxy can serve, nothing else.
pub open spec fn is_default_profile(p: DeviceProfile) -> bool {
    &&& p.direct_play_profiles@.len() == 1
    &&& p.direct_play_profiles@[0].container matches Some(c) && c@ == "mp4,m4v,mkv,webm"@
    &&& p.direct_play_profiles@[0].media_type == Some(MediaType::Video)
    &&& p.direct_play_profiles@[0].video_codec matches Some(c) && c@ == "h264,h265,hevc,vp9"@
    &&& p.direct_play_profiles@[0].audio_codec matches Some(c) && c@ == "aac,mp3,ac3,eac3,opus"@
    &&& p.transcoding_profiles@.len() == 0
    &&& p.subtitle_profiles@.len() == 0
}

impl Default for DeviceProfile {
    fn default() -> (r: Self)
        ensures
            is_default_profile(r),
    {
        DeviceProfile {
            direct_play_profiles: vec![DirectPlayProfile {
                container: Some(String::from_str("mp4,m4v,mkv,webm")),
                media_type: Some(MediaType::Video),
                video_codec: Some(String::from_str("h264,h265,hevc,vp9")),
                audio_codec: Some(String::from_str("aac,mp3,ac3,eac3,opus")),
            }],
            transcoding_profiles: Vec::new(),
            subtitle_profiles: Vec::new(),
        }
    }
}

/// A PlaybackInfo request, as far as the proxy reads it.
#[derive(Debug)]
pub struct PlaybackInfoRequest {
    pub user_id: Option<String>,
    pub device_profile: Option<DeviceProfile>,
}

/// Replaces whatever device profile the request has by the proxy's.
pub fn inject_device_profile(req: &mut PlaybackInfoRequest)
    ensures
        final(req).device_profile matches Some(p) && is_default_profile(p),
        final(req).user_id == old(req).user_id,
{
    req.device_profile = Some(DeviceProfile::default());
}

#[derive(Clone, Copy, Debug, PartialEq, Eq, Structural)]
pub enum MediaStreamType {
    Audio,
    Video,
    Subtitle,
    EmbeddedImage,
}

#[derive(Debug)]
pub struct MediaStream {
    pub index: Option<i32>,
    pub stream_type: Option<MediaStreamType>,
    pub codec: Option<String>,
    pub language: Option<String>,
    pub display_title: Option<String>,
    pub is_default: Option<bool>,
    pub is_external: Option<bool>,
    pub bit_rate: Option<i64>,
    pub width: Option<i32>,
    pub height: Option<i32>,
}

#[derive(Debug)]
pub struct MediaSourceInfo {
    pub path: Option<String>,
    pub container: Option<String>,
    pub media_streams: Vec<MediaStream>,
    pub direct_stream_url: Option<String>,
    pub direct_play_url: Option<String>,
    pub transcoding_url: Option<String>,
    pub supports_direct_play: Option<bool>,
    pub supports_direct_stream: Option<bool>,
}

#[derive(Debug)]
pub struct TranscodingInfo {
    pub is_audio_direct: Option<bool>,
    pub is_video_direct: Option<bool>,
    pub container: Option<String>,
}

#[derive(Debug)]
pub struct PlaybackInfoResponse {
    pub media_sources: Vec<MediaSourceInfo>,
    pub play_session_id: Option<String>,
    pub transcoding_info: Option<TranscodingInfo>,
}

/// The item of a PlaybackInfo route.
#[derive(Debug)]
pub struct ItemIdParams {
    pub item_id: String,
}

/// Query parameters of the proxy's media endpoint.
#[derive(Clone, Copy, Debug, PartialEq, Eq, Structural)]
pub struct ProxyMediaParams {
    pub audio: Option<i32>,
    pub video: Option<i32>,
    pub subtitle: Option<i32>,
    pub transcode_audio: Option<bool>,
}

} // verus!
