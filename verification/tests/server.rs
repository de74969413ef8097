use hls_vod::errors::{FfmpegError, HlsError};
use hls_vod::server::{idle_seconds, master_playlist_path, page_bounds, stream_expired, video_playlist_path, HttpError,
    ServerError, StreamListQuery};

#[test]
fn error_messages() {
    assert_eq!(HlsError::NoVideoStream.message(), "No video stream found in source file");
    assert_eq!(HlsError::Ffmpeg(FfmpegError::InvalidTimebase).message(), "FFmpeg error: Invalid timebase");
    let e = HlsError::SegmentNotFound { stream_id: "s".to_string(), segment_type: "video".to_string(), sequence: 3 };
    assert_eq!(e.message(), "Segment not found: stream=s, type=video, seq=3");
}

#[test]
fn http_errors_from_library_errors() {
    let e = HttpError::from_hls_error(HlsError::StreamNotFound("abc".to_string()));
    assert_eq!(e.status_and_message(), (404, "abc".to_string()));
    let e = HttpError::from_hls_error(HlsError::SegmentNotFound { stream_id: "s".to_string(), segment_type: "a".to_string(), sequence: 1 });
    assert_eq!(e.status_and_message(), (404, "Segment not found: stream=s, type=a, seq=1".to_string()));
    let e = HttpError::from_hls_error(HlsError::Muxing("m".to_string()));
    assert_eq!(e.status_and_message(), (500, "m".to_string()));
    let e = HttpError::from_hls_error(HlsError::NoIndex("f".to_string()));
    assert_eq!(e.status_and_message(), (500, "No demuxer index: f".to_string()));
    assert_eq!(HttpError::InvalidFormat("x".to_string()).status_and_message().0, 400);
}

#[test]
fn server_error_answers() {
    let e = ServerError::Library(HlsError::StreamNotFound("id1".to_string()));
    assert_eq!(e.status_and_body(), (404, "Stream not found: id1".to_string()));
    let e = ServerError::Config("bad".to_string());
    assert_eq!(e.status_and_body(), (500, "Configuration error: bad".to_string()));
    assert_eq!(ServerError::Library(HlsError::MemoryLimit).message(), "Library error: Memory limit exceeded");
}

#[test]
fn paging_and_paths() {
    assert_eq!(page_bounds(10, StreamListQuery { limit: None, offset: None }), (0, 10));
    assert_eq!(page_bounds(10, StreamListQuery { limit: Some(3), offset: Some(8) }), (8, 10));
    assert_eq!(page_bounds(10, StreamListQuery { limit: Some(3), offset: Some(20) }), (10, 10));
    assert_eq!(page_bounds(10, StreamListQuery { limit: Some(usize::MAX), offset: Some(2) }), (2, 10));
    assert_eq!(master_playlist_path("x"), "/streams/x/master.m3u8");
    assert_eq!(video_playlist_path("x"), "/streams/x/video.m3u8");
    assert_eq!(idle_seconds(100, 40), 60);
    assert_eq!(idle_seconds(10, 40), 0);
    assert!(stream_expired(601));
    assert!(!stream_expired(600));
}
