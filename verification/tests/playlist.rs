use hls_vod::validation::validate_master_playlist;
use hls_vod::master::{generate_master_playlist, to_rfc5646, video_codec_str};
use hls_vod::media::{AudioStreamInfo, CodecId, Rational, StreamIndex, SubtitleFormat, SubtitleStreamInfo, VideoStreamInfo};
use hls_vod::planner::{get_codec_string, plan_audio_tracks, AudioTrackPlan};

fn video() -> VideoStreamInfo {
    VideoStreamInfo {
        stream_index: 0,
        codec_id: CodecId::H264,
        width: 1920,
        height: 1080,
        bitrate: 5000000,
        framerate: Rational::new(30, 1),
        language: None,
        profile: None,
        level: None,
    }
}

fn audio(index: usize, codec_id: CodecId, language: Option<&str>) -> AudioStreamInfo {
    AudioStreamInfo {
        stream_index: index,
        codec_id,
        sample_rate: 48000,
        channels: 2,
        bitrate: 128000,
        language: language.map(|s| s.to_string()),
        is_transcoded: false,
        source_stream_index: None,
        encoder_delay: 0,
    }
}

fn subtitle(index: usize, language: &str) -> SubtitleStreamInfo {
    SubtitleStreamInfo {
        stream_index: index,
        codec_id: CodecId::SUBRIP,
        language: Some(language.to_string()),
        format: SubtitleFormat::SubRip,
        non_empty_sequences: Vec::new(),
        sample_index: Vec::new(),
        timebase: Rational::new(1, 1000),
        start_time: 0,
    }
}

fn create_test_index() -> StreamIndex {
    let mut index = StreamIndex::new("/test/video.mp4".to_string());
    index.video_streams.push(video());
    index.audio_streams.push(audio(1, CodecId::AAC, Some("en")));
    index
}

#[test]
fn test_generate_master_playlist() {
    let index = create_test_index();
    let playlist = generate_master_playlist(&index, "video.mp4");
    assert!(playlist.contains("#EXTM3U"));
    assert!(playlist.contains("#EXT-X-VERSION:7"));
    assert!(playlist.contains("#EXT-X-STREAM-INF"));
    assert!(playlist.contains("BANDWIDTH="));
    assert!(playlist.contains("RESOLUTION=1920x1080"));
    assert!(playlist.contains("video.mp4/v/media.m3u8"));
}

#[test]
fn test_generate_master_playlist_with_audio() {
    let index = create_test_index();
    let playlist = generate_master_playlist(&index, "video.mp4");
    assert!(playlist.contains("TYPE=AUDIO"));
    assert!(playlist.contains("LANGUAGE=\"en\""));
    assert!(playlist.contains("video.mp4/a/1.m3u8"));
}

#[test]
fn test_generate_master_playlist_with_subtitles() {
    let mut index = create_test_index();
    index.subtitle_streams.push(subtitle(2, "en"));
    let playlist = generate_master_playlist(&index, "video.mp4");
    assert!(playlist.contains("TYPE=SUBTITLES"));
    assert!(playlist.contains("video.mp4/s/2.m3u8"));
    assert!(playlist.contains("CODECS=\"avc1.640028,mp4a.40.2,wvtt\""));
}

#[test]
fn master_playlist_exact() {
    let mut index = create_test_index();
    index.audio_streams.push(audio(3, CodecId::AC3, Some("eng")));
    index.audio_streams.push(audio(2, CodecId::AAC, None));
    index.subtitle_streams.push(subtitle(4, "fre"));
    let playlist = generate_master_playlist(&index, "p");
    let expected = "#EXTM3U\n#EXT-X-VERSION:7\n\n# Audio Tracks\n\
#EXT-X-MEDIA:TYPE=AUDIO,GROUP-ID=\"audio-aac\",LANGUAGE=\"en\",NAME=\"EN AAC\",DEFAULT=YES,AUTOSELECT=YES,URI=\"p/a/1.m3u8\"\n\
#EXT-X-MEDIA:TYPE=AUDIO,GROUP-ID=\"audio-aac\",LANGUAGE=\"und\",NAME=\"AAC\",DEFAULT=NO,AUTOSELECT=YES,URI=\"p/a/2.m3u8\"\n\
#EXT-X-MEDIA:TYPE=AUDIO,GROUP-ID=\"audio-ac3\",LANGUAGE=\"en\",NAME=\"ENG Dolby Digital\",DEFAULT=YES,AUTOSELECT=YES,URI=\"p/a/3.m3u8\"\n\
\n# Subtitle Tracks\n\
#EXT-X-MEDIA:TYPE=SUBTITLES,GROUP-ID=\"subs\",LANGUAGE=\"fr\",NAME=\"FRE Subtitles\",DEFAULT=YES,AUTOSELECT=YES,FORCED=NO,URI=\"p/s/4.m3u8\"\n\
\n# Video Variants\n\
#EXT-X-STREAM-INF:BANDWIDTH=5256000,RESOLUTION=1920x1080,AUDIO=\"audio-aac\",CODECS=\"avc1.640028,mp4a.40.2,wvtt\",SUBTITLES=\"subs\"\n\
p/v/media.m3u8\n\
#EXT-X-STREAM-INF:BANDWIDTH=5128000,RESOLUTION=1920x1080,AUDIO=\"audio-ac3\",CODECS=\"avc1.640028,ac-3,wvtt\",SUBTITLES=\"subs\"\n\
p/v/media.m3u8\n";
    assert_eq!(playlist, expected);
}

#[test]
fn master_playlist_without_audio() {
    let mut index = StreamIndex::new("/x.mkv".to_string());
    let mut v = video();
    v.bitrate = 10;
    v.codec_id = CodecId::MPEG4;
    index.video_streams.push(v);
    let playlist = generate_master_playlist(&index, "x");
    assert_eq!(
        playlist,
        "#EXTM3U\n#EXT-X-VERSION:7\n\n# Video Variants\n#EXT-X-STREAM-INF:BANDWIDTH=100000,RESOLUTION=1920x1080\nx/v/media.m3u8\n"
    );
}

#[test]
fn transcoded_audio_uses_aac_uri() {
    let mut index = StreamIndex::new("/x.mkv".to_string());
    let mut a = audio(5, CodecId::FLAC, Some("ger"));
    a.is_transcoded = true;
    index.audio_streams.push(a);
    let playlist = generate_master_playlist(&index, "x");
    assert!(playlist.contains("LANGUAGE=\"de\",NAME=\"GER AAC (Transcoded)\",DEFAULT=YES"));
    assert!(playlist.contains("URI=\"x/a/5-aac.m3u8\""));
    assert!(playlist.ends_with("# Video Variants\n"));
}

#[test]
fn codec_strings() {
    let mut v = video();
    v.profile = Some(77);
    v.level = Some(31);
    assert_eq!(video_codec_str(&v).as_deref(), Some("avc1.4d001f"));
    v.codec_id = CodecId::HEVC;
    assert_eq!(video_codec_str(&v).as_deref(), Some("hvc1.1.6.L31.B0"));
    v.codec_id = CodecId::VP8;
    assert_eq!(video_codec_str(&v), None);
    assert_eq!(to_rfc5646("jpn"), "ja");
    assert_eq!(to_rfc5646("xyz"), "xyz");
}

#[test]
fn test_plan_audio_tracks_aac_only() {
    let streams = vec![audio(0, CodecId::AAC, Some("en"))];
    let plan = plan_audio_tracks(&streams);
    assert_eq!(plan.variants.len(), 1);
    assert!(!plan.requires_transcoding);
    assert!(!plan.variants[0].requires_transcode);
}

#[test]
fn test_plan_audio_tracks_ac3_only() {
    let streams = vec![audio(0, CodecId::AC3, Some("en"))];
    let plan = plan_audio_tracks(&streams);
    assert_eq!(plan.variants.len(), 2);
    assert!(plan.requires_transcoding);
    let ac3 = plan.variants.iter().find(|v| v.codec_id == CodecId::AC3).unwrap();
    let aac = plan.variants.iter().find(|v| v.codec_id == CodecId::AAC).unwrap();
    assert!(!ac3.requires_transcode);
    assert!(aac.requires_transcode);
}

#[test]
fn test_plan_audio_tracks_aac_and_ac3() {
    let streams = vec![audio(0, CodecId::AAC, Some("en")), audio(1, CodecId::AC3, Some("en"))];
    let plan = plan_audio_tracks(&streams);
    assert_eq!(plan.variants.len(), 2);
    assert!(!plan.requires_transcoding);
    assert!(!plan.variants[0].requires_transcode);
    assert!(!plan.variants[1].requires_transcode);
}

#[test]
fn test_plan_audio_tracks_multi_language() {
    let streams = vec![audio(0, CodecId::AAC, Some("en")), audio(1, CodecId::AAC, Some("es"))];
    let plan = plan_audio_tracks(&streams);
    assert_eq!(plan.variants.len(), 2);
    assert!(!plan.requires_transcoding);
}

#[test]
fn plan_names_and_default() {
    let streams = vec![audio(0, CodecId::AC3, Some("en")), audio(1, CodecId::FLAC, None), audio(2, CodecId::VORBIS, Some("en"))];
    let plan = plan_audio_tracks(&streams);
    let names: Vec<_> = plan.variants.iter().map(|v| v.name.clone().unwrap()).collect();
    assert_eq!(
        names,
        vec!["EN AAC (Transcoded)", "EN Dolby Digital", "EN Vorbis (Transcoded)", "FLAC (Transcoded)"]
    );
    assert!(plan.variants[0].is_default);
    assert!(plan.variants.iter().skip(1).all(|v| !v.is_default));
    assert_eq!(plan.variants[3].language, None);
    assert_eq!(plan.variants[3].stream_index, 1);
    assert!(plan.has_audio());
    assert_eq!(plan.default_variant().unwrap().stream_index, 0);
}

#[test]
fn flac_only_language_gets_one_aac_rendition() {
    let streams = vec![audio(0, CodecId::FLAC, Some("en"))];
    let plan = plan_audio_tracks(&streams);
    assert_eq!(plan.variants.len(), 1);
    assert_eq!(plan.variants[0].codec_id, CodecId::AAC);
    assert!(plan.variants[0].requires_transcode);
    assert_eq!(plan.variants[0].stream_index, 0);
    assert_eq!(plan.variants[0].name.as_deref(), Some("EN FLAC (Transcoded)"));
    assert!(plan.variants[0].is_default);
    assert!(plan.requires_transcoding);
}

#[test]
fn opus_and_mp3_are_served_natively_and_as_aac() {
    for codec in [CodecId::OPUS, CodecId::MP3] {
        let plan = plan_audio_tracks(&vec![audio(0, codec, Some("en"))]);
        assert_eq!(plan.variants.len(), 2);
        assert_eq!(plan.variants[0].codec_id, CodecId::AAC);
        assert!(plan.variants[0].requires_transcode);
        assert_eq!(plan.variants[1].codec_id, codec);
        assert!(!plan.variants[1].requires_transcode);
    }
}

#[test]
fn empty_plan() {
    let plan = plan_audio_tracks(&Vec::new());
    assert!(!plan.has_audio());
    assert!(plan.default_variant().is_none());
    let fresh = AudioTrackPlan::new();
    assert!(fresh.variants.is_empty() && !fresh.requires_transcoding);
    assert_eq!(get_codec_string(CodecId::AAC), None);
}

fn audio_lines(playlist: &str) -> Vec<String> {
    playlist.lines().filter(|l| l.starts_with("#EXT-X-MEDIA:TYPE=AUDIO")).map(|l| l.to_string()).collect()
}

#[test]
fn audio_listing_sorted_by_group_then_index() {
    let mut index = StreamIndex::new("/m.mkv".to_string());
    index.video_streams.push(video());
    index.audio_streams.push(audio(7, CodecId::OPUS, Some("en")));
    index.audio_streams.push(audio(5, CodecId::AC3, Some("en")));
    index.audio_streams.push(audio(3, CodecId::AAC, Some("en")));
    index.audio_streams.push(audio(2, CodecId::AC3, Some("de")));
    index.audio_streams.push(audio(4, CodecId::AAC, Some("fr")));
    let lines = audio_lines(&generate_master_playlist(&index, "m"));
    let uris: Vec<&str> = lines.iter().map(|l| l.rsplit("URI=").next().unwrap()).collect();
    assert_eq!(uris, vec!["\"m/a/3.m3u8\"", "\"m/a/4.m3u8\"", "\"m/a/2.m3u8\"", "\"m/a/5.m3u8\"", "\"m/a/7.m3u8\""]);
}

#[test]
fn one_default_rendition_per_group() {
    let mut index = StreamIndex::new("/m.mkv".to_string());
    index.video_streams.push(video());
    index.audio_streams.push(audio(1, CodecId::AAC, Some("en")));
    index.audio_streams.push(audio(2, CodecId::AAC, Some("fr")));
    index.audio_streams.push(audio(3, CodecId::EAC3, Some("en")));
    index.audio_streams.push(audio(4, CodecId::EAC3, Some("fr")));
    let playlist = generate_master_playlist(&index, "m");
    let lines = audio_lines(&playlist);
    let defaults: Vec<bool> = lines.iter().map(|l| l.contains("DEFAULT=YES")).collect();
    assert_eq!(defaults, vec![true, false, true, false]);
    assert_eq!(playlist.matches("#EXT-X-STREAM-INF").count(), 2);
    assert!(playlist.contains("AUDIO=\"audio-aac\""));
    assert!(playlist.contains("AUDIO=\"audio-eac3\""));
}

#[test]
fn every_language_gets_aac() {
    let streams = vec![
        audio(0, CodecId::AC3, Some("en")),
        audio(1, CodecId::OPUS, Some("fr")),
        audio(2, CodecId::AAC, Some("de")),
        audio(3, CodecId::FLAC, None),
    ];
    let plan = plan_audio_tracks(&streams);
    for lang in [Some("en".to_string()), Some("fr".to_string()), Some("de".to_string()), None] {
        assert!(plan.variants.iter().any(|v| v.language == lang && v.codec_id == CodecId::AAC));
    }
    assert_eq!(plan.variants.iter().filter(|v| v.is_default).count(), 1);
    assert!(plan.variants[0].is_default);
}

#[test]
fn generated_master_playlists_pass_the_check() {
    let mut index = create_test_index();
    index.audio_streams.push(audio(3, CodecId::AC3, Some("fre")));
    index.subtitle_streams.push(subtitle(4, "eng"));
    for prefix in ["movie.mkv", "", "dir/with space"] {
        let result = validate_master_playlist(&generate_master_playlist(&index, prefix));
        assert!(result.is_valid, "{:?}", result.errors);
        assert!(result.errors.is_empty());
    }
    let mut no_audio = StreamIndex::new("/x.mp4".to_string());
    no_audio.video_streams.push(video());
    assert!(validate_master_playlist(&generate_master_playlist(&no_audio, "x")).is_valid);
    // Without video there is no variant, and the check says so.
    let empty = StreamIndex::new("/y.mp4".to_string());
    let result = validate_master_playlist(&generate_master_playlist(&empty, "y"));
    assert!(!result.is_valid);
    assert_eq!(result.errors, vec!["No video stream variants found".to_string()]);
}
