use hls_vod::media::{CodecId, Rational};
use hls_vod::subtitle::{ass_style_to_webvtt_class, extract_subtitle_text, SubtitleCue, SubtitleExtractor};

#[test]
fn test_subtitle_cue() {
    let cue = SubtitleCue::new(1000, 3000, "Hello World".to_string());
    assert_eq!(cue.start_ms, 1000);
    assert_eq!(cue.end_ms, 3000);
    assert_eq!(cue.text, "Hello World");
    assert_eq!(cue.duration_ms(), 2000);
}

#[test]
fn test_extractor_creation() {
    let extractor = SubtitleExtractor::new(CodecId::SUBRIP, Rational::new(1, 90000));
    assert_eq!(extractor.timebase.numerator(), 1);
    assert_eq!(extractor.timebase.denominator(), 90000);
}

#[test]
fn test_pts_to_ms() {
    let extractor = SubtitleExtractor::new(CodecId::SUBRIP, Rational::new(1, 90000));
    assert_eq!(extractor.pts_to_ms(90000), 1000);
    assert_eq!(extractor.pts_to_ms(45000), 500);
}

#[test]
fn test_clean_ass_text() {
    let extractor = SubtitleExtractor::new(CodecId::ASS, Rational::new(1, 90000));
    let ass_text = "{\\pos(100,200)}Hello{\\c&H00FFFF&} World";
    let cleaned = extractor.clean_ass_text(ass_text);
    assert_eq!(cleaned, "Hello World");
}

#[test]
fn test_ass_style_to_webvtt_class() {
    assert_eq!(ass_style_to_webvtt_class("Default"), "Default");
    assert_eq!(ass_style_to_webvtt_class("My Style"), "My_Style");
    assert_eq!(ass_style_to_webvtt_class("Style-1"), "Style_1");
}

#[test]
fn pts_to_ms_rounds_toward_zero() {
    let extractor = SubtitleExtractor::new(CodecId::SUBRIP, Rational::new(1, 3));
    assert_eq!(extractor.pts_to_ms(1), 333);
    assert_eq!(extractor.pts_to_ms(-1), -333);
}

#[test]
fn srt_packet_gives_one_cue_with_default_duration() {
    let extractor = SubtitleExtractor::new(CodecId::SUBRIP, Rational::new(1, 1000));
    let cues = extractor.extract_cues(b"Hello", Some(5000), 0).unwrap();
    assert_eq!(cues.len(), 1);
    assert_eq!(cues[0].start_ms, 5000);
    assert_eq!(cues[0].end_ms, 7000);
    assert_eq!(cues[0].text, "Hello");
}

#[test]
fn packet_duration_sets_cue_end() {
    let extractor = SubtitleExtractor::new(CodecId::WEBVTT, Rational::new(1, 1000));
    let cues = extractor.extract_cues(b"Hi", None, 1500).unwrap();
    assert_eq!(cues[0].start_ms, 0);
    assert_eq!(cues[0].end_ms, 1500);
}

#[test]
fn ass_packet_loses_its_tags() {
    let extractor = SubtitleExtractor::new(CodecId::SSA, Rational::new(1, 1000));
    let cues = extractor.extract_cues(b"{\\b1}Bold{\\b0} text ", Some(0), 100).unwrap();
    assert_eq!(cues[0].text, "Bold text");
}

#[test]
fn mov_text_reads_length_prefix() {
    let extractor = SubtitleExtractor::new(CodecId::MOV_TEXT, Rational::new(1, 1000));
    let mut data = vec![0u8, 5];
    data.extend_from_slice(b"Hello");
    data.extend_from_slice(b"styl....");
    let cues = extractor.extract_cues(&data, Some(10), 0).unwrap();
    assert_eq!(cues.len(), 1);
    assert_eq!(cues[0].text, "Hello");
    assert_eq!(cues[0].end_ms, 2010);
}

#[test]
fn mov_text_short_or_blank_gives_no_cue() {
    let extractor = SubtitleExtractor::new(CodecId::MOV_TEXT, Rational::new(1, 1000));
    assert!(extractor.extract_cues(&[0u8], Some(0), 0).unwrap().is_empty());
    assert!(extractor.extract_cues(&[0u8, 2, b' ', b' '], Some(0), 0).unwrap().is_empty());
}

#[test]
fn mov_text_length_is_clamped() {
    let extractor = SubtitleExtractor::new(CodecId::MOV_TEXT, Rational::new(1, 1000));
    let cues = extractor.extract_cues(&[0u8, 50, b'a', b'b'], Some(0), 0).unwrap();
    assert_eq!(cues[0].text, "ab");
}

#[test]
fn invalid_utf8_is_replaced() {
    assert_eq!(extract_subtitle_text(&[b'a', 0xff, b'b']), "a\u{fffd}b");
}

#[test]
fn class_names_are_stable() {
    let once = ass_style_to_webvtt_class("Sign: Top (Alt) é");
    assert_eq!(once, "Sign__Top__Alt__é");
    assert_eq!(ass_style_to_webvtt_class(&once), once);
}

#[test]
fn trimming_removes_unicode_white_space() {
    assert_eq!(hls_vod::subtitle::trim_string("\u{3000} \tline\u{a0}\n"), "line");
    assert_eq!(hls_vod::subtitle::trim_string("  "), "");
    assert_eq!(hls_vod::subtitle::trim_string("a b"), "a b");
}
