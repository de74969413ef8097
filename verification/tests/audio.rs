use hls_vod::audio_out::{
    get_recommended_bitrate, needs_resampling, source_layout, SampleFormat, HLS_SAMPLE_FORMAT, HLS_SAMPLE_RATE,
    LAYOUT_MONO, LAYOUT_STEREO,
};
use hls_vod::media::{
    get_subtitle_codec_name, get_subtitle_format, is_audio_codec, is_bitmap_subtitle, is_hls_supported_codec,
    is_text_subtitle, is_video_codec, media_type_name, CodecId, MediaKind, SubtitleFormat,
};

#[test]
fn test_to_hls_sample_rate() {
    assert_eq!(HLS_SAMPLE_RATE, 48000);
}

#[test]
fn test_get_channel_count_mono() {
    assert_eq!(get_recommended_bitrate(1), 64_000);
}

#[test]
fn test_get_channel_count_stereo() {
    assert_eq!(get_recommended_bitrate(2), 128_000);
}

#[test]
fn test_get_channel_count_5_1() {
    assert_eq!(get_recommended_bitrate(6), 384_000);
}

#[test]
fn test_get_channel_count_default() {
    assert_eq!(get_recommended_bitrate(0), 128_000);
    assert_eq!(get_recommended_bitrate(4), 128_000);
}

#[test]
fn test_resampler_config_default() {
    assert_eq!(HLS_SAMPLE_RATE, 48000);
}

#[test]
fn test_needs_resampling() {
    assert_eq!(LAYOUT_STEREO, 0x3);
    assert!(!needs_resampling(48000, HLS_SAMPLE_FORMAT, LAYOUT_STEREO));
    assert!(needs_resampling(44100, SampleFormat::F32Planar, LAYOUT_STEREO));
    assert!(needs_resampling(48000, SampleFormat::I16, LAYOUT_STEREO));
    assert!(needs_resampling(48000, SampleFormat::F32Planar, LAYOUT_MONO));
}

#[test]
fn eight_channels_get_512k() {
    assert_eq!(get_recommended_bitrate(8), 512_000);
}

#[test]
fn layout_falls_back_on_channel_count() {
    assert_eq!(source_layout(0, 1), LAYOUT_MONO);
    assert_eq!(source_layout(0, 6), LAYOUT_STEREO);
    assert_eq!(source_layout(0x3f, 6), 0x3f);
}

#[test]
fn test_is_hls_supported_codec() {
    assert!(is_hls_supported_codec(CodecId::AAC));
    assert!(is_hls_supported_codec(CodecId::AC3));
    assert!(is_hls_supported_codec(CodecId::OPUS));
    assert!(!is_hls_supported_codec(CodecId::FLAC));
}

#[test]
fn test_is_video_codec() {
    assert!(is_video_codec(CodecId::H264));
    assert!(is_video_codec(CodecId::HEVC));
    assert!(!is_video_codec(CodecId::AAC));
}

#[test]
fn test_is_audio_codec() {
    assert!(is_audio_codec(CodecId::AAC));
    assert!(is_audio_codec(CodecId::AC3));
    assert!(!is_audio_codec(CodecId::H264));
}

#[test]
fn test_is_text_subtitle() {
    assert!(is_text_subtitle(CodecId::SUBRIP));
    assert!(is_text_subtitle(CodecId::ASS));
    assert!(is_text_subtitle(CodecId::MOV_TEXT));
    assert!(!is_text_subtitle(CodecId::HDMV_PGS_SUBTITLE));
}

#[test]
fn test_is_bitmap_subtitle() {
    assert!(is_bitmap_subtitle(CodecId::HDMV_PGS_SUBTITLE));
    assert!(is_bitmap_subtitle(CodecId::DVB_SUBTITLE));
    assert!(!is_bitmap_subtitle(CodecId::SUBRIP));
}

#[test]
fn test_get_subtitle_format() {
    assert_eq!(get_subtitle_format(CodecId::SUBRIP), SubtitleFormat::SubRip);
    assert_eq!(get_subtitle_format(CodecId::ASS), SubtitleFormat::Ass);
    assert_eq!(get_subtitle_format(CodecId::MOV_TEXT), SubtitleFormat::MovText);
}

#[test]
fn subtitle_codec_names() {
    assert_eq!(get_subtitle_codec_name(CodecId::SSA), "ASS/SSA");
    assert_eq!(get_subtitle_codec_name(CodecId::XSUB), "Unknown");
    assert_eq!(media_type_name(MediaKind::Attachment), "attachment");
}
