//! PlaybackInfo rewriting: requests are made to ask for direct play of the
//! formats the proxy can serve, and responses point every media source at
//! the proxy's HLS endpoint.

use vstd::prelude::*;
use vstd::utf8::encode_utf8;
use crate::text::{push_str, string_push};

verus! {

/// What the client asks Jellyfin for.
#[derive(Debug, Default)]
pub struct PlaybackInfoRequest {
    pub id: Option<String>,
    pub user_id: Option<String>,
    pub audio_stream_index: Option<i32>,
    pub subtitle_stream_index: Option<i32>,
    pub media_source_id: Option<String>,
    pub max_streaming_bitrate: Option<i64>,
    pub start_time_ticks: Option<i64>,
    pub device_profile: Option<DeviceProfile>,
    pub enable_direct_play: Option<bool>,
    pub enable_transcoding: Option<bool>,
}

/// What the client says it can play.
#[derive(Debug, Default)]
pub struct DeviceProfile {
    pub name: Option<String>,
    pub direct_play_profiles: Vec<DirectPlayProfile>,
    pub transcoding_profiles: Vec<TranscodingProfile>,
    pub subtitle_profiles: Vec<SubtitleProfile>,
}

#[derive(Debug)]
pub struct DirectPlayProfile {
    pub container: Option<String>,
    pub audio_codec: Option<String>,
    pub video_codec: Option<String>,
    pub profile_type: String,
}

#[derive(Debug)]
pub struct TranscodingProfile {
    pub container: Option<String>,
    pub profile_type: String,
    pub video_codec: Option<String>,
    pub audio_codec: Option<String>,
    pub protocol: String,
    pub context: String,
}

#[derive(Debug)]
pub struct SubtitleProfile {
    pub format: String,
    pub method: String,
}

/// The one direct play profile the proxy puts in every request.
pub open spec fn is_proxy_profile(p: DirectPlayProfile) -> bool {
    &&& p.container matches Some(c) && c@ == "mp4,m4v,mkv,webm"@
    &&& p.video_codec matches Some(c) && c@ == "h264,h265,vp9"@
    &&& p.audio_codec matches Some(c) && c@ == "aac,mp3,ac3,eac3,opus"@
    &&& p.profile_type@ == "Video"@
}

fn proxy_profile() -> (r: DirectPlayProfile)
    ensures
        is_proxy_profile(r),
{
    DirectPlayProfile {
        container: Some(String::from_str("mp4,m4v,mkv,webm")),
        video_codec: Some(String::from_str("h264,h265,vp9")),
        audio_codec: Some(String::from_str("aac,mp3,ac3,eac3,opus")),
        profile_type: String::from_str("Video"),
    }
}

/// Makes the request ask for direct play of what the proxy serves: the
/// device profile gets the proxy's direct play profile as its only one and
/// no transcoding profiles (a request without a device profile gets one with
/// just that); nothing else changes.
pub fn mutate_playback_info_request(req: &mut PlaybackInfoRequest)
    ensures
        final(req).device_profile matches Some(dp) && {
            &&& dp.direct_play_profiles@.len() == 1
            &&& is_proxy_profile(dp.direct_play_profiles@[0])
            &&& dp.transcoding_profiles@.len() == 0
            &&& match old(req).device_profile {
                Some(op) => dp.name == op.name && dp.subtitle_profiles@ == op.subtitle_profiles@,
                None => dp.name is None && dp.subtitle_profiles@.len() == 0,
            }
        },
        final(req).id == old(req).id,
        final(req).user_id == old(req).user_id,
        final(req).audio_stream_index == old(req).audio_stream_index,
        final(req).subtitle_stream_index == old(req).subtitle_stream_index,
        final(req).media_source_id == old(req).media_source_id,
        final(req).max_streaming_bitrate == old(req).max_streaming_bitrate,
        final(req).start_time_ticks == old(req).start_time_ticks,
        final(req).enable_direct_play == old(req).enable_direct_play,
        final(req).enable_transcoding == old(req).enable_transcoding,
{
    let profile = match req.device_profile.take() {
        Some(dp) => DeviceProfile {
            name: dp.name,
            direct_play_profiles: vec![proxy_profile()],
            transcoding_profiles: Vec::new(),
            subtitle_profiles: dp.subtitle_profiles,
        },
        None => DeviceProfile {
            name: None,
            direct_play_profiles: vec![proxy_profile()],
            transcoding_profiles: Vec::new(),
            subtitle_profiles: Vec::new(),
        },
    };
    req.device_profile = Some(profile);
}

// ---------------------------------------------------------------------------
// Percent-encoding (the `urlencoding` crate)
// ---------------------------------------------------------------------------

/// Bytes left as they are: ASCII letters, digits and `-`, `.`, `_`, `~`.
pub open spec fn url_safe(b: u8) -> bool {
    (48 <= b <= 57) || (65 <= b <= 90) || (97 <= b <= 122) || b == 45 || b == 46 || b == 95 || b == 126
}

pub open spec fn hex_upper(d: nat) -> char {
    if d < 10 {
        ((d + 48) as u8) as char
    } else {
        ((d + 55) as u8) as char
    }
}

/// Every byte percent-encoded (upper-case hex) but the safe ones.
pub open spec fn percent_encode(bs: Seq<u8>) -> Seq<char>
    decreases bs.len(),
{
    if bs.len() == 0 {
        Seq::empty()
    } else {
        let b = bs[0];
        (if url_safe(b) {
            seq![b as char]
        } else {
            seq!['%', hex_upper(b as nat / 16), hex_upper(b as nat % 16)]
        }) + percent_encode(bs.drop_first())
    }
}

/// `urlencoding::encode`: the UTF-8 bytes of `s`, each percent-encoded
/// (upper-case hex) except ASCII letters, digits and `-`, `.`, `_`, `~`.
#[verifier::external_body]
fn url_encode(s: &str) -> (r: String)
    ensures
        r@ == percent_encode(encode_utf8(s@)),
{
    urlencoding::encode(s).into_owned()
}

// ---------------------------------------------------------------------------
// Responses
// ---------------------------------------------------------------------------

/// The parts of a media source that say how the client reaches it.
#[derive(Debug)]
pub struct MediaSourceLinks {
    pub path: String,
    pub transcoding_url: Option<String>,
    pub transcoding_sub_protocol: Option<String>,
    pub transcoding_container: Option<String>,
    pub supports_direct_play: bool,
    pub supports_direct_stream: bool,
    pub supports_transcoding: bool,
}

/// `s` without its leading `/` characters.
pub open spec fn trim_leading_slashes(s: Seq<char>) -> Seq<char>
    decreases s.len(),
{
    if s.len() > 0 && s[0] == '/' {
        trim_leading_slashes(s.drop_first())
    } else {
        s
    }
}

/// The proxy's HLS URL for a media file: `/proxymedia/<path>.as.m3u8` with
/// the path's leading slashes removed and the rest percent-encoded.
pub open spec fn proxy_url(path: Seq<char>) -> Seq<char> {
    "/proxymedia/"@ + percent_encode(encode_utf8(trim_leading_slashes(path))) + ".as.m3u8"@
}

/// The links of a source after rewriting: transcoding through the proxy's
/// HLS URL, no direct play or direct stream.
pub open spec fn rewritten(old_s: MediaSourceLinks, new_s: MediaSourceLinks) -> bool {
    &&& new_s.path == old_s.path
    &&& new_s.transcoding_url matches Some(u) && u@ == proxy_url(old_s.path@)
    &&& new_s.transcoding_sub_protocol matches Some(p) && p@ == "hls"@
    &&& new_s.transcoding_container matches Some(c) && c@ == "ts"@
    &&& !new_s.supports_direct_play
    &&& !new_s.supports_direct_stream
    &&& new_s.supports_transcoding
}

fn trim_start_slashes(s: &str) -> (r: String)
    ensures
        r@ == trim_leading_slashes(s@),
{
    let n = s.unicode_len();
    let mut i: usize = 0;
    assert(s@.subrange(0, n as int) =~= s@);
    while i < n && s.get_char(i) == '/'
        invariant
            n == s@.len(),
            i <= n,
            trim_leading_slashes(s@) == trim_leading_slashes(s@.subrange(i as int, n as int)),
        decreases n - i,
    {
        assert(s@.subrange(i as int, n as int).drop_first() =~= s@.subrange(i + 1, n as int));
        i += 1;
    }
    let mut out = String::new();
    let mut k = i;
    while k < n
        invariant
            n == s@.len(),
            i <= k <= n,
            out@ == s@.subrange(i as int, k as int),
        decreases n - k,
    {
        string_push(&mut out, s.get_char(k));
        assert(s@.subrange(i as int, k + 1) =~= s@.subrange(i as int, k as int).push(s@[k as int]));
        k += 1;
    }
    out
}

/// The proxy's HLS URL for a media file path.
pub fn proxy_media_url(path: &str) -> (r: String)
    ensures
        r@ == proxy_url(path@),
{
    let clean = trim_start_slashes(path);
    let enc = url_encode(clean.as_str());
    let mut out = String::from_str("/proxymedia/");
    push_str(&mut out, enc.as_str());
    push_str(&mut out, ".as.m3u8");
    out
}

/// Points every media source at the proxy's HLS URL and turns off direct
/// play and direct stream.
pub fn mutate_playback_info_response(sources: &mut Vec<MediaSourceLinks>)
    ensures
        final(sources)@.len() == old(sources)@.len(),
        forall|k: int| 0 <= k < old(sources)@.len() ==> rewritten(old(sources)@[k], #[trigger] final(sources)@[k]),
{
    let n = sources.len();
    let mut k: usize = 0;
    while k < n
        invariant
            n == sources@.len(),
            n == old(sources)@.len(),
            k <= n,
            forall|j: int| 0 <= j < k ==> rewritten(old(sources)@[j], #[trigger] sources@[j]),
            forall|j: int| k <= j < n ==> #[trigger] sources@[j] == old(sources)@[j],
        decreases n - k,
    {
        let mut s = sources.remove(k);
        let url = proxy_media_url(s.path.as_str());
        s.transcoding_url = Some(url);
        s.transcoding_sub_protocol = Some(String::from_str("hls"));
        s.transcoding_container = Some(String::from_str("ts"));
        s.supports_direct_play = false;
        s.supports_direct_stream = false;
        s.supports_transcoding = true;
        sources.insert(k, s);
        k += 1;
    }
}

} // verus!
