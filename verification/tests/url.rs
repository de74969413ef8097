use hls_vod::generate::GenerateAction;
use hls_vod::media::{AudioStreamInfo, CodecId, StreamIndex};
use hls_vod::url::{basename, usize_from_str, HlsUrl, ParseOutcome, UrlType};

fn parse(s: &str) -> Option<HlsUrl> {
    match HlsUrl::try_parse(s) {
        ParseOutcome::Parsed(h) => Some(h),
        _ => None,
    }
}

#[test]
fn main_playlist_round_trip() {
    let h = parse("dir/movie.mkv.as.m3u8").unwrap();
    assert!(matches!(h.url_type, UrlType::MainPlaylist));
    assert_eq!(h.video_url, "dir/movie.mkv");
    assert!(h.session_id.is_none());
    assert_eq!(h.encode_url(), "movie.mkv.as.m3u8");
}

#[test]
fn playlist_path() {
    let h = parse("media/a.mp4/sess/t.1+2-aac.m3u8").unwrap();
    assert_eq!(h.video_url, "media/a.mp4");
    assert_eq!(h.session_id.as_deref(), Some("sess"));
    match &h.url_type {
        UrlType::Playlist(p) => {
            assert_eq!(p.track_id, 1);
            assert_eq!(p.audio_track_id, Some(2));
            assert_eq!(p.audio_transcode_to.as_deref(), Some("aac"));
        }
        _ => panic!("not a playlist"),
    }
    assert_eq!(h.encode_url(), "a.mp4/sess/t.1+2-aac.m3u8");
}

#[test]
fn segment_paths() {
    let v = parse("a.mp4/s/v/0+1-aac.7.m4s").unwrap();
    match &v.url_type {
        UrlType::VideoSegment(s) => {
            assert_eq!((s.track_id, s.audio_track_id, s.segment_id), (0, Some(1), Some(7)));
            assert_eq!(s.audio_transcode_to.as_deref(), Some("aac"));
        }
        _ => panic!("not a video segment"),
    }
    assert_eq!(v.encode_url(), "v/0+1-aac.7.m4s");
    let a = parse("a.webm/s/a/3.init.mp4").unwrap();
    match &a.url_type {
        UrlType::AudioSegment(s) => assert_eq!((s.track_id, s.segment_id), (3, None)),
        _ => panic!("not an audio segment"),
    }
    assert_eq!(a.encode_url(), "a/3.init.mp4");
    let t = parse("a.mp4/s/s/2.10-20.vtt").unwrap();
    match &t.url_type {
        UrlType::VttSegment(s) => assert_eq!((s.track_id, s.start_cue, s.end_cue), (2, 10, 20)),
        _ => panic!("not a vtt segment"),
    }
    assert_eq!(t.encode_url(), "s/2.10-20.vtt");
}

#[test]
fn rejected_paths() {
    assert!(parse("a.avi.as.m3u8").is_none());
    assert!(parse("a.mp4/s/a/3.m4s").is_none());
    assert!(parse("a.mp4/s/a/3.4.init.mp4").is_none());
    assert!(parse("a.mp4/s/x/1").is_none());
    assert!(matches!(HlsUrl::try_parse("a.mp4/s/t.99999999999999999999999.m3u8"), ParseOutcome::NumberTooLarge));
}

#[test]
fn helpers() {
    assert_eq!(basename("a/b/c.mp4"), "c.mp4");
    assert_eq!(basename("c.mp4"), "c.mp4");
    assert_eq!(usize_from_str("+42"), 42);
}

#[test]
fn generate_actions() {
    let mut index = StreamIndex::new("/a.mp4".to_string());
    index.audio_streams.push(AudioStreamInfo {
        stream_index: 1,
        codec_id: CodecId::AAC,
        sample_rate: 48000,
        channels: 2,
        bitrate: 0,
        language: None,
        is_transcoded: false,
        source_stream_index: None,
        encoder_delay: 0,
    });
    let main = parse("a.mp4.as.m3u8").unwrap();
    assert_eq!(main.generate_action(&index), GenerateAction::MasterPlaylist);
    assert!(!main.generate_action(&index).is_cached());
    let audio = parse("a.mp4/s/t.1-aac.m3u8").unwrap();
    assert_eq!(audio.generate_action(&index), GenerateAction::AudioPlaylist { track_id: 1, force_aac: true });
    let video = parse("a.mp4/s/t.0.m3u8").unwrap();
    assert_eq!(video.generate_action(&index), GenerateAction::VideoPlaylist);
    let seg = parse("a.mp4/s/v/0+1.3.m4s").unwrap();
    let act = seg.generate_action(&index);
    assert_eq!(act, GenerateAction::InterleavedSegment { track_id: 0, audio_track_id: 1, sequence: 3, force_aac: false });
    assert!(act.is_cached());
    let init = parse("a.mp4/s/a/1-opus.init.mp4").unwrap();
    assert_eq!(init.generate_action(&index), GenerateAction::AudioInit { track_id: 1, force_aac: false });
}
