use hls_vod::playback::{
    mutate_playback_info_request, mutate_playback_info_response, proxy_media_url, DeviceProfile, MediaSourceLinks,
    PlaybackInfoRequest, TranscodingProfile,
};
use hls_vod::proxy::{
    active_encoding_session, build_ws_url, forward_playback_request_header, forward_response_header,
    forward_websocket_header, hls_relay_step, is_json_content_type, is_websocket_upgrade, normalize_base_url,
    replace_str, rewrite_location, transmux_relay_step, upstream_url, CloseInfo, WsEvent, WsFrame,
};
use hls_vod::query::{interleave_requested, parse_codecs_param, parse_tracks_param, rooted_path};
use hls_vod::jellyfin::{inject_device_profile, DeviceProfile as JfProfile, PlaybackInfoRequest as JfRequest};

#[test]
fn playbackinfo_test_mutate_playback_info_request() {
    let mut req = PlaybackInfoRequest {
        device_profile: Some(DeviceProfile {
            transcoding_profiles: vec![TranscodingProfile {
                container: Some("mp3".to_string()),
                profile_type: "Audio".to_string(),
                video_codec: None,
                audio_codec: Some("mp3".to_string()),
                protocol: "http".to_string(),
                context: "Streaming".to_string(),
            }],
            direct_play_profiles: vec![],
            ..Default::default()
        }),
        ..Default::default()
    };
    mutate_playback_info_request(&mut req);
    let device_profile = req.device_profile.as_ref().unwrap();
    assert_eq!(device_profile.transcoding_profiles.len(), 0);
    assert_eq!(device_profile.direct_play_profiles.len(), 1);
    let dp = &device_profile.direct_play_profiles[0];
    assert_eq!(dp.video_codec.as_deref(), Some("h264,h265,vp9"));
}

#[test]
fn playbackinfo_test_mutate_playback_info_response() {
    let mut sources = vec![MediaSourceLinks {
        path: "/some/media/file.mp4".to_string(),
        transcoding_url: None,
        transcoding_sub_protocol: None,
        transcoding_container: None,
        supports_direct_play: true,
        supports_direct_stream: true,
        supports_transcoding: false,
    }];
    mutate_playback_info_response(&mut sources);
    let media_source = &sources[0];
    assert_eq!(media_source.supports_direct_play, false);
    assert_eq!(media_source.supports_transcoding, true);
    assert_eq!(media_source.transcoding_url.as_deref(), Some("/proxymedia/some%2Fmedia%2Ffile.mp4.as.m3u8"));
    assert_eq!(media_source.transcoding_sub_protocol.as_deref(), Some("hls"));
    assert_eq!(media_source.transcoding_container.as_deref(), Some("ts"));
}

#[test]
fn request_without_profile_gets_one() {
    let mut req = PlaybackInfoRequest { user_id: Some("u".to_string()), ..Default::default() };
    mutate_playback_info_request(&mut req);
    assert_eq!(req.user_id.as_deref(), Some("u"));
    let dp = req.device_profile.unwrap();
    assert_eq!(dp.direct_play_profiles[0].container.as_deref(), Some("mp4,m4v,mkv,webm"));
    assert_eq!(dp.direct_play_profiles[0].profile_type, "Video");
}

#[test]
fn proxy_url_encodes_bytes() {
    assert_eq!(proxy_media_url("//a b/ä~.mkv"), "/proxymedia/a%20b%2F%C3%A4~.mkv.as.m3u8");
}

#[test]
fn urls_and_headers() {
    assert_eq!(normalize_base_url("http://jf:8096///"), "http://jf:8096");
    assert_eq!(upstream_url("http://jf", "/Items?x=1"), "http://jf/Items?x=1");
    assert!(!forward_playback_request_header("accept-encoding"));
    assert!(forward_playback_request_header("authorization"));
    assert!(!forward_response_header("connection"));
    assert!(forward_response_header("content-type"));
    assert!(!forward_websocket_header("sec-websocket-key"));
    assert!(forward_websocket_header("cookie"));
    assert_eq!(replace_str("abcabc", "bc", "X"), "aXaX");
    assert_eq!(replace_str("aaa", "aa", ""), "a");
}

#[test]
fn location_rewrite() {
    assert_eq!(rewrite_location("http://jf/web/index.html", "http://jf").as_deref(), Some("/web/index.html"));
    assert_eq!(rewrite_location("http://jf", "http://jf").as_deref(), Some("/"));
    assert_eq!(rewrite_location("https://other/", "http://jf"), None);
    assert_eq!(
        rewrite_location("http://jf/login?next=http://jf/home", "http://jf").as_deref(),
        Some("/login?next=/home")
    );
}

#[test]
fn websocket_decisions() {
    assert_eq!(build_ws_url("https://jf:8920", "/socket?x"), "wss://jf:8920/socket?x");
    assert_eq!(build_ws_url("http://jf", "/socket"), "ws://jf/socket");
    assert!(is_websocket_upgrade(Some("WebSocket")));
    assert!(!is_websocket_upgrade(Some("h2c")));
    assert!(!is_websocket_upgrade(None));
    assert!(is_json_content_type(Some("application/json; charset=utf-8")));
    assert!(!is_json_content_type(Some("text/html")));
    assert!(!is_json_content_type(None));
}

#[test]
fn relay_steps() {
    let step = hls_relay_step(true, WsEvent::Message(WsFrame::Close(Some(CloseInfo { code: 4000, reason: "bye".to_string() }))));
    assert!(step.stop);
    match step.send {
        Some(WsFrame::Close(Some(c))) => {
            assert_eq!(c.code, 1000);
            assert_eq!(c.reason, "bye");
        }
        _ => panic!("expected close"),
    }
    let step = hls_relay_step(false, WsEvent::Message(WsFrame::Close(Some(CloseInfo { code: 4000, reason: String::new() }))));
    match step.send {
        Some(WsFrame::Close(Some(c))) => assert_eq!(c.code, 4000),
        _ => panic!("expected close"),
    }
    let step = hls_relay_step(true, WsEvent::Message(WsFrame::Ping(vec![1])));
    assert!(!step.stop && !step.stop_on_send_error);
    let step = transmux_relay_step(WsEvent::Message(WsFrame::Ping(vec![1])));
    assert!(!step.stop && step.stop_on_send_error);
    let step = transmux_relay_step(WsEvent::Message(WsFrame::Raw));
    assert!(step.send.is_none() && !step.stop);
    assert!(transmux_relay_step(WsEvent::Error).stop);
}

#[test]
fn active_encodings() {
    assert_eq!(
        active_encoding_session(true, "/Videos/ActiveEncodings", Some("deviceId=x&playSessionId=abc%20d")).as_deref(),
        Some("abc d")
    );
    assert_eq!(active_encoding_session(false, "/Videos/ActiveEncodings", Some("playSessionId=abc")), None);
    assert_eq!(active_encoding_session(true, "/Videos/Other", Some("playSessionId=abc")), None);
    assert_eq!(
        active_encoding_session(true, "/Videos/ActiveEncodings", Some("playSessionId=a&playSessionId=b+c")).as_deref(),
        Some("b c")
    );
    assert_eq!(active_encoding_session(true, "/Videos/ActiveEncodings", Some("deviceId=x")), None);
    assert_eq!(active_encoding_session(true, "/Videos/ActiveEncodings", None), None);
}

#[test]
fn query_parameters() {
    assert_eq!(parse_codecs_param("aac, mp4a.40.2 ,,opus"), vec!["aac", "mp4a.40.2", "", "opus"]);
    assert_eq!(parse_tracks_param("1,+2,x,-3, 4,99999999999999999999999"), vec![1, 2]);
    assert!(interleave_requested(Some("1")));
    assert!(interleave_requested(Some("true")));
    assert!(!interleave_requested(Some("yes")));
    assert!(!interleave_requested(None));
    assert_eq!(rooted_path("a/b"), "/a/b");
    assert_eq!(rooted_path("/a"), "/a");
}

#[test]
fn default_device_profile_injected() {
    let mut req = JfRequest { user_id: None, device_profile: None };
    inject_device_profile(&mut req);
    let p: JfProfile = req.device_profile.unwrap();
    assert_eq!(p.direct_play_profiles.len(), 1);
    assert_eq!(p.direct_play_profiles[0].video_codec.as_deref(), Some("h264,h265,hevc,vp9"));
}

#[test]
fn codec_names_lose_unicode_white_space() {
    assert_eq!(parse_codecs_param("\u{3000}aac\u{2003},\tac3\u{85}"), vec!["aac", "ac3"]);
    assert_eq!(parse_codecs_param(" \u{a0} "), vec![""]);
}
