use hls_vod::api::{media_tracks, TrackType};
use hls_vod::media::{AudioStreamInfo, CodecId, Rational, SegmentInfo, StreamIndex, SubtitleFormat, SubtitleStreamInfo,
    VideoStreamInfo};
use hls_vod::memio::{MemoryWriter, SeekFrom};
use hls_vod::segments::{apply_encoder_delays, build_segments_from_entries, encoder_delay_from_dts, map_pts_to_segments,
    subtitle_sample_refs, check_video_index, segmenting_video_stream, IndexEntry};
use hls_vod::errors::HlsError;

fn key(ts: i64, pos: u64) -> IndexEntry {
    IndexEntry { pos, timestamp: ts, size: 10, flags: 1 }
}

#[test]
fn test_memory_writer() {
    let mut writer = MemoryWriter::new();
    writer.write_all(b"test");
    assert_eq!(writer.data(), b"test".to_vec());
}

#[test]
fn memory_writer_seek_and_overwrite() {
    let mut w = MemoryWriter::new();
    w.write_all(b"hello");
    assert_eq!(w.seek(SeekFrom::Start(1)), 1);
    w.write_all(b"EY");
    assert_eq!(w.data(), b"hEYlo".to_vec());
    assert_eq!(w.seek(SeekFrom::End(2)), 7);
    w.write_all(b"!");
    assert_eq!(w.data(), b"hEYlo\0\0!".to_vec());
    assert_eq!(w.seek(SeekFrom::Current(-8)), 0);
    assert!(!w.is_empty());
    w.clear();
    assert!(w.is_empty());
    assert_eq!(w.position, 0);
}

#[test]
fn keyframe_flag() {
    assert!(key(0, 0).is_keyframe());
    assert!(!IndexEntry { pos: 0, timestamp: 0, size: 0, flags: 2 }.is_keyframe());
}

#[test]
fn segments_from_keyframes() {
    // 1/1000 timebase, 4 s target: close at the first keyframe 3.2 s or more after the start.
    let entries = vec![
        key(-20, 100),
        IndexEntry { pos: 150, timestamp: 1000, size: 10, flags: 0 },
        key(3000, 200),
        key(3200, 300),
        key(5000, 400),
        key(7000, 500),
    ];
    let segs = build_segments_from_entries(&entries, Rational::new(1, 1000), 9000, 4000);
    assert_eq!(
        segs,
        vec![
            SegmentInfo { sequence: 0, start_pts: 0, end_pts: 3200, is_keyframe: true, video_byte_offset: 100 },
            SegmentInfo { sequence: 1, start_pts: 3200, end_pts: 7000, is_keyframe: true, video_byte_offset: 300 },
            SegmentInfo { sequence: 2, start_pts: 7000, end_pts: 9000, is_keyframe: true, video_byte_offset: 500 },
        ]
    );
    assert!(build_segments_from_entries(&vec![], Rational::new(1, 1000), 9000, 4000).is_empty());
    let one = build_segments_from_entries(&vec![key(500, 7)], Rational::new(1, 1000), 100, 4000);
    assert_eq!(one, vec![SegmentInfo { sequence: 0, start_pts: 500, end_pts: 500, is_keyframe: true, video_byte_offset: 7 }]);
}

#[test]
fn subtitle_segments() {
    let segs = vec![
        SegmentInfo { sequence: 0, start_pts: 100, end_pts: 200, is_keyframe: true, video_byte_offset: 0 },
        SegmentInfo { sequence: 1, start_pts: 200, end_pts: 300, is_keyframe: true, video_byte_offset: 0 },
        SegmentInfo { sequence: 2, start_pts: 300, end_pts: 400, is_keyframe: true, video_byte_offset: 0 },
    ];
    assert_eq!(map_pts_to_segments(&vec![250, 150, 260, 1000, -5], 100, &segs), vec![0, 1, 2]);
    assert_eq!(map_pts_to_segments(&vec![150], 0, &segs), vec![0]);
    assert!(map_pts_to_segments(&vec![], 0, &segs).is_empty());
    assert!(map_pts_to_segments(&vec![5], 0, &vec![]).is_empty());
}

fn audio(index: usize) -> AudioStreamInfo {
    AudioStreamInfo {
        stream_index: index,
        codec_id: CodecId::AAC,
        sample_rate: 48000,
        channels: 2,
        bitrate: 128000,
        language: Some("en".to_string()),
        is_transcoded: false,
        source_stream_index: None,
        encoder_delay: 0,
    }
}

#[test]
fn encoder_delays() {
    assert_eq!(encoder_delay_from_dts(Some(-1024)), 1024);
    assert_eq!(encoder_delay_from_dts(Some(5)), 0);
    assert_eq!(encoder_delay_from_dts(None), 0);
    let mut streams = vec![audio(1), audio(2), audio(3)];
    apply_encoder_delays(&mut streams, &vec![(2, 312), (1, 1024), (2, 7)]);
    assert_eq!(streams.iter().map(|a| a.encoder_delay).collect::<Vec<_>>(), vec![1024, 312, 0]);
    let refs = subtitle_sample_refs(&vec![IndexEntry { pos: 9, timestamp: 44, size: 3, flags: 0 }]);
    assert_eq!((refs[0].byte_offset, refs[0].pts, refs[0].duration, refs[0].size), (9, 44, 0, 3));
}

#[test]
fn track_listing() {
    let mut index = StreamIndex::new("/x.mp4".to_string());
    assert_eq!(index.stream_id.len(), 36);
    index.video_streams.push(VideoStreamInfo {
        stream_index: 0,
        codec_id: CodecId::H264,
        width: 640,
        height: 480,
        bitrate: 1000,
        framerate: Rational::new(25, 1),
        language: None,
        profile: None,
        level: None,
    });
    index.audio_streams.push(audio(1));
    index.subtitle_streams.push(SubtitleStreamInfo {
        stream_index: 2,
        codec_id: CodecId::MOV_TEXT,
        language: None,
        format: SubtitleFormat::MovText,
        non_empty_sequences: vec![],
        sample_index: vec![],
        timebase: Rational::new(1, 1000),
        start_time: 0,
    });
    let tracks = media_tracks(&index);
    assert_eq!(tracks.len(), 3);
    assert_eq!(tracks[0].id, "v/0");
    assert_eq!(tracks[0].track_type, TrackType::Video { width: 640, height: 480 });
    assert_eq!(tracks[0].codec_id, "H264");
    assert_eq!(tracks[1].id, "a/1");
    assert_eq!(tracks[1].track_type, TrackType::Audio { channels: 2, sample_rate: 48000 });
    assert_eq!(tracks[2].id, "s/2");
    assert_eq!(tracks[2].track_type, TrackType::Subtitle { format: "MovText".to_string() });
    assert_eq!(tracks[2].codec_id, "MOV_TEXT");
    assert_eq!(tracks[2].bitrate, None);
}

#[test]
fn index_queries() {
    let mut index = StreamIndex::new("/x.mp4".to_string());
    index.audio_streams.push(audio(1));
    let mut b = audio(2);
    b.language = Some("EN".to_string());
    index.audio_streams.push(b);
    let mut c = audio(3);
    c.language = None;
    index.audio_streams.push(c);
    let found = index.audio_by_language("En");
    assert_eq!(found.iter().map(|a| a.stream_index).collect::<Vec<_>>(), vec![1, 2]);
    assert!(index.subtitle_by_language("en").is_empty());
    assert!(index.primary_video().is_none());
    assert!(index.is_vod());
    index.segments.push(SegmentInfo { sequence: 0, start_pts: 0, end_pts: 1, is_keyframe: true, video_byte_offset: 0 });
    index.init_segment_first_pts();
    assert_eq!(index.get_segment_first_pts(0), None);
    index.set_segment_first_pts(0, 77);
    index.set_segment_first_pts(5, 1);
    assert_eq!(index.get_segment_first_pts(0), Some(77));
    assert_eq!(index.get_segment_first_pts(5), None);
    assert_eq!(index.segment_count(), 1);
    index.touch();
    assert!(index.time_since_last_access() < 5);
}

#[test]
fn codec_filter() {
    let mut index = StreamIndex::new("/x.mp4".to_string());
    let mut ac3 = audio(1);
    ac3.codec_id = CodecId::AC3;
    let mut dts = audio(2);
    dts.codec_id = CodecId::AC3;
    let mut flac = audio(3);
    flac.codec_id = CodecId::FLAC;
    index.audio_streams = vec![ac3, dts, flac];
    index.filter_codecs(&vec!["AAC".to_string()]);
    assert_eq!(index.audio_streams.iter().map(|a| (a.stream_index, a.is_transcoded)).collect::<Vec<_>>(), vec![(1, true), (2, true)]);
    let mut index2 = StreamIndex::new("/y.mp4".to_string());
    let mut e = audio(4);
    e.codec_id = CodecId::EAC3;
    index2.audio_streams = vec![audio(1), e];
    index2.filter_codecs(&vec!["ec-3".to_string(), "webvtt".to_string()]);
    assert_eq!(index2.audio_streams.iter().map(|a| a.stream_index).collect::<Vec<_>>(), vec![4]);
    index2.filter_codecs(&vec![]);
    assert_eq!(index2.audio_streams.len(), 1);
}

#[test]
fn segments_numbered_and_contiguous() {
    let mut entries = Vec::new();
    for k in 0..40i64 {
        entries.push(IndexEntry { pos: k as u64 * 10, timestamp: k * 900, size: 1, flags: if k % 3 == 0 { 1 } else { 0 } });
    }
    let segs = build_segments_from_entries(&entries, Rational::new(1, 1000), 40_000, 4000);
    assert!(segs.len() > 3);
    for (k, s) in segs.iter().enumerate() {
        assert_eq!(s.sequence, k);
        assert!(s.is_keyframe);
    }
    for w in segs.windows(2) {
        assert_eq!(w[0].end_pts, w[1].start_pts);
    }
    assert_eq!(segs.last().unwrap().end_pts, 40_000);
}

#[test]
fn segmenting_needs_video_and_index() {
    let mut index = StreamIndex::new("/m.mkv".to_string());
    assert!(matches!(segmenting_video_stream(&index), Err(HlsError::NoVideoStream)));
    index.video_streams.push(VideoStreamInfo {
        stream_index: 3,
        codec_id: CodecId::H264,
        width: 640,
        height: 480,
        bitrate: 1000,
        framerate: Rational::new(25, 1),
        language: None,
        profile: None,
        level: None,
    });
    assert!(matches!(segmenting_video_stream(&index), Ok(3)));
    assert!(check_video_index(&vec![key(0, 0)], "\"/m.mkv\"").is_ok());
    match check_video_index(&Vec::new(), "\"/m.mkv\"") {
        Err(HlsError::NoIndex(m)) => assert_eq!(
            m,
            "File \"/m.mkv\" has no demuxer index for the video stream. Only files with a complete container index (MP4 moov, MKV Cues) are supported."
        ),
        _ => panic!("expected NoIndex"),
    }
}

#[test]
fn seek_from_a_position_past_i64_wraps() {
    let mut w = MemoryWriter::new();
    w.position = u64::MAX;
    assert_eq!(w.seek(SeekFrom::Current(1)), 0);
    w.position = 1u64 << 63;
    assert_eq!(w.seek(SeekFrom::Current(5)), (1u64 << 63) + 5);
    assert_eq!(w.seek(SeekFrom::End(-1)), u64::MAX);
}
