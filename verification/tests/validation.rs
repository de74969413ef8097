use hls_vod::validation::{
    find_box, validate_fmp4_segment, validate_master_playlist, validate_variant_playlist, validate_webvtt,
    PlaylistType, ValidationResult,
};

#[test]
fn test_validate_valid_master_playlist() {
    let content = r#"#EXTM3U
#EXT-X-VERSION:7
#EXT-X-MEDIA:TYPE=AUDIO,GROUP-ID="audio-en",LANGUAGE="en",NAME="English",URI="audio_en.m3u8"
#EXT-X-STREAM-INF:BANDWIDTH=5500000,RESOLUTION=1920x1080,CODECS="avc1.42001e,mp4a.40.2"
video.m3u8
"#;
    let result = validate_master_playlist(content);
    assert!(result.is_valid);
    assert!(result.errors.is_empty());
}

#[test]
fn test_validate_invalid_master_playlist() {
    let content = "invalid content";
    let result = validate_master_playlist(content);
    assert!(!result.is_valid);
    assert!(!result.errors.is_empty());
}

#[test]
fn test_validate_variant_playlist() {
    let content = r#"#EXTM3U
#EXT-X-VERSION:7
#EXT-X-TARGETDURATION:6
#EXT-X-MEDIA-SEQUENCE:0
#EXT-X-PLAYLIST-TYPE:VOD
#EXTINF:4.000,
segment_0.m4s
#EXT-X-ENDLIST
"#;
    let result = validate_variant_playlist(content, PlaylistType::Video);
    assert!(result.is_valid);
}

#[test]
fn test_validate_webvtt() {
    let content = r#"WEBVTT

X-TIMESTAMP-MAP=LOCAL:00:00:00.000,MPEGTS:9000000000

00:00:01.000 --> 00:00:03.000
Hello World
"#;
    let result = validate_webvtt(content);
    assert!(result.is_valid);
}

#[test]
fn test_validate_webvtt_missing_header() {
    let content = "00:00:01.000 --> 00:00:03.000\nHello";
    let result = validate_webvtt(content);
    assert!(!result.is_valid);
}

#[test]
fn test_find_box() {
    let mut data = vec![0; 24];
    data[0..4].copy_from_slice(&24u32.to_be_bytes());
    data[4..8].copy_from_slice(b"ftyp");

    assert!(find_box(&data, b"ftyp").is_some());
    assert!(find_box(&data, b"moov").is_none());
}

#[test]
fn test_validation_result() {
    let success = ValidationResult::success();
    assert!(success.is_valid);
    assert!(success.errors.is_empty());

    let fail = ValidationResult::fail("test error".to_string());
    assert!(!fail.is_valid);
    assert_eq!(fail.errors.len(), 1);
}

#[test]
fn master_errors_in_order() {
    let result = validate_master_playlist("#EXT-X-MEDIA:TYPE=AUDIO,URI=\"a\"\n#EXT-X-STREAM-INF:BANDWIDTH=1\n");
    assert_eq!(
        result.errors,
        vec![
            "Missing #EXTM3U header",
            "Missing #EXT-X-VERSION tag",
            "AUDIO entry missing GROUP-ID",
            "AUDIO entry missing LANGUAGE",
            "AUDIO entry missing NAME",
            "STREAM-INF missing RESOLUTION",
        ]
    );
}

#[test]
fn old_version_warns() {
    let result = validate_master_playlist("#EXTM3U\n#EXT-X-VERSION: 3\n#EXT-X-STREAM-INF:BANDWIDTH=1,RESOLUTION=1x1\nv.m3u8\n");
    assert!(result.is_valid);
    assert_eq!(result.warnings, vec!["HLS version 3 may not support fMP4"]);
}

#[test]
fn variant_without_segments_or_end() {
    let result = validate_variant_playlist("#EXTM3U\n#EXT-X-VERSION:7\n#EXT-X-CODECS:\n", PlaylistType::Audio);
    assert!(!result.is_valid);
    assert_eq!(
        result.errors,
        vec![
            "Missing #EXT-X-TARGETDURATION tag",
            "Missing #EXT-X-MEDIA-SEQUENCE tag",
            "Missing #EXT-X-ENDLIST tag",
            "No segment entries found",
            "Empty CODECS attribute",
        ]
    );
    assert_eq!(result.warnings, vec!["Missing #EXT-X-PLAYLIST-TYPE:VOD (may be live stream)"]);
}

#[test]
fn webvtt_bad_cue_timestamp() {
    let result = validate_webvtt("WEBVTT\nX-TIMESTAMP-MAP=LOCAL:00:00:00.000\n1:2 --> 3:4\n");
    assert_eq!(
        result.errors,
        vec!["X-TIMESTAMP-MAP missing MPEGTS timestamp", "Invalid cue timestamp format: 1:2 --> 3:4"]
    );
}

#[test]
fn fmp4_checks() {
    let short = validate_fmp4_segment(&[0, 0, 0]);
    assert_eq!(short.errors, vec!["Segment too small"]);
    let mut data = vec![0u8; 16];
    data[0..4].copy_from_slice(&8u32.to_be_bytes());
    data[4..8].copy_from_slice(b"ftyp");
    data[8..12].copy_from_slice(&8u32.to_be_bytes());
    data[12..16].copy_from_slice(b"moov");
    let ok = validate_fmp4_segment(&data);
    assert!(ok.is_valid);
    assert!(ok.warnings.is_empty());
    assert_eq!(find_box(&data, b"moov"), Some(8));
}
