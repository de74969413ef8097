use hls_vod::errors::HlsError;
use hls_vod::track_ids::{playlist_request, segment_request, PlaylistRequest, SegmentRequest};

fn muxing_message(r: Result<SegmentRequest, HlsError>) -> String {
    match r {
        Err(HlsError::Muxing(m)) => m,
        other => panic!("expected a muxing error, got {:?}", other),
    }
}

#[test]
fn segment_ids_of_each_shape() {
    assert_eq!(segment_request("v/init.mp4").unwrap(), SegmentRequest::VideoInit);
    assert_eq!(
        segment_request("a/2/init.mp4").unwrap(),
        SegmentRequest::AudioInit { index: 2, force_aac: false }
    );
    assert_eq!(
        segment_request("a/12-aac/init.mp4").unwrap(),
        SegmentRequest::AudioInit { index: 12, force_aac: true }
    );
    assert_eq!(segment_request("v/37.m4s").unwrap(), SegmentRequest::VideoSegment { sequence: 37 });
    assert_eq!(
        segment_request("a/1/0.m4s").unwrap(),
        SegmentRequest::AudioSegment { index: 1, sequence: 0, force_aac: false }
    );
    assert_eq!(
        segment_request("a/1-aac/9.m4s").unwrap(),
        SegmentRequest::AudioSegment { index: 1, sequence: 9, force_aac: true }
    );
    assert_eq!(
        segment_request("s/3/4-7.vtt").unwrap(),
        SegmentRequest::SubtitleSegment { index: 3, start_sequence: 4, end_sequence: 7 }
    );
}

#[test]
fn segment_ids_match_anywhere() {
    assert_eq!(segment_request("x/v/5.m4s/y").unwrap(), SegmentRequest::VideoSegment { sequence: 5 });
    assert_eq!(
        segment_request("a/x/a/4/init.mp4").unwrap(),
        SegmentRequest::AudioInit { index: 4, force_aac: false }
    );
}

#[test]
fn segment_id_errors() {
    assert_eq!(muxing_message(segment_request("v/init.mp5")), "Invalid segment ID: v/init.mp5");
    assert_eq!(muxing_message(segment_request("")), "Invalid segment ID: ");
    assert_eq!(muxing_message(segment_request("v/99999999999999999999999.m4s")), "Invalid sequence");
    assert_eq!(muxing_message(segment_request("a/99999999999999999999999/init.mp4")), "Invalid audio ID");
    assert_eq!(muxing_message(segment_request("a/1/99999999999999999999999.m4s")), "Invalid sequence");
    assert_eq!(muxing_message(segment_request("s/99999999999999999999999/1-2.vtt")), "Invalid subtitle ID");
    assert_eq!(muxing_message(segment_request("s/1/99999999999999999999999-2.vtt")), "Invalid start seq");
    assert_eq!(muxing_message(segment_request("s/1/2-99999999999999999999999.vtt")), "Invalid end seq");
}

#[test]
fn playlist_ids() {
    assert_eq!(playlist_request("v/media.m3u8").unwrap(), PlaylistRequest::Video);
    assert_eq!(playlist_request("a/3.m3u8").unwrap(), PlaylistRequest::Audio { index: 3, force_aac: false });
    assert_eq!(playlist_request("a/3-aac.m3u8").unwrap(), PlaylistRequest::Audio { index: 3, force_aac: true });
    assert_eq!(playlist_request("s/8.m3u8").unwrap(), PlaylistRequest::Subtitle { index: 8 });
    match playlist_request("v/other.m3u8") {
        Err(HlsError::Muxing(m)) => assert_eq!(m, "Invalid playlist ID: v/other.m3u8"),
        other => panic!("unexpected {:?}", other),
    }
    match playlist_request("a/99999999999999999999999.m3u8") {
        Err(HlsError::Muxing(m)) => assert_eq!(m, "Invalid audio ID"),
        other => panic!("unexpected {:?}", other),
    }
}
