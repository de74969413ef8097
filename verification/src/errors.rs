//! Error types of the library.

use vstd::prelude::*;
use crate::text::{dec, push_str, push_u64};

verus! {

/// Errors of the media library.
#[derive(Debug)]
pub enum HlsError {
    /// An error of the media framework.
    Ffmpeg(FfmpegError),
    /// An I/O error, by its message.
    Io(String),
    StreamNotFound(String),
    SegmentNotFound { stream_id: String, segment_type: String, sequence: usize },
    IndexTimeout(String),
    NoVideoStream,
    NoIndex(String),
    NoSupportedAudio,
    NoTextSubtitle,
    Transcode(String),
    Muxing(String),
    Playlist(String),
    Cache(String),
    Config(String),
    Http(String),
    InvalidCodec(String),
    InvalidTimestamp(String),
    MemoryLimit,
}

/// Errors of the media framework.
#[derive(Debug)]
pub enum FfmpegError {
    InitFailed(String),
    OpenInput(String),
    FindStreamInfo(String),
    DecoderNotFound(String),
    DecoderCreate(String),
    EncoderNotFound(String),
    EncoderCreate(String),
    EncoderConfigure(String),
    ResamplerCreate(String),
    MuxerCreate(String),
    WriteHeader(String),
    WritePacket(String),
    WriteTrailer(String),
    DecodePacket(String),
    EncodeFrame(String),
    ReadFrame(String),
    InvalidTimebase,
    CodecNotFound(String),
    StreamConfig(String),
    WriteError(String),
}

/// The text of a media framework error.
pub open spec fn ffmpeg_error_text(e: FfmpegError) -> Seq<char> {
    match e {
        FfmpegError::InitFailed(m) => "FFmpeg initialization failed: "@ + m@,
        FfmpegError::OpenInput(m) => "Failed to open input file: "@ + m@,
        FfmpegError::FindStreamInfo(m) => "Failed to find stream info: "@ + m@,
        FfmpegError::DecoderNotFound(m) => "Failed to find decoder: codec_id="@ + m@,
        FfmpegError::DecoderCreate(m) => "Failed to create decoder: "@ + m@,
        FfmpegError::EncoderNotFound(m) => "Failed to find encoder: codec_id="@ + m@,
        FfmpegError::EncoderCreate(m) => "Failed to create encoder: "@ + m@,
        FfmpegError::EncoderConfigure(m) => "Failed to configure encoder: "@ + m@,
        FfmpegError::ResamplerCreate(m) => "Failed to create resampler: "@ + m@,
        FfmpegError::MuxerCreate(m) => "Failed to create muxer: "@ + m@,
        FfmpegError::WriteHeader(m) => "Failed to write header: "@ + m@,
        FfmpegError::WritePacket(m) => "Failed to write packet: "@ + m@,
        FfmpegError::WriteTrailer(m) => "Failed to write trailer: "@ + m@,
        FfmpegError::DecodePacket(m) => "Failed to decode packet: "@ + m@,
        FfmpegError::EncodeFrame(m) => "Failed to encode frame: "@ + m@,
        FfmpegError::ReadFrame(m) => "Failed to read frame: "@ + m@,
        FfmpegError::InvalidTimebase => "Invalid timebase"@,
        FfmpegError::CodecNotFound(m) => "Codec not found: "@ + m@,
        FfmpegError::StreamConfig(m) => "Stream configuration failed: "@ + m@,
        FfmpegError::WriteError(m) => "Write error: "@ + m@,
    }
}

/// The text of a library error.
pub open spec fn hls_error_text(e: HlsError) -> Seq<char> {
    match e {
        HlsError::Ffmpeg(f) => "FFmpeg error: "@ + ffmpeg_error_text(f),
        HlsError::SegmentNotFound { stream_id, segment_type, sequence } => "Segment not found: stream="@
            + stream_id@ + ", type="@ + segment_type@ + ", seq="@ + dec(sequence as nat),
        HlsError::Io(m) => "IO error: "@ + m@,
        HlsError::StreamNotFound(m) => "Stream not found: "@ + m@,
        HlsError::IndexTimeout(m) => "Indexing timeout for file: "@ + m@,
        HlsError::NoVideoStream => "No video stream found in source file"@,
        HlsError::NoIndex(m) => "No demuxer index: "@ + m@,
        HlsError::NoSupportedAudio => "No supported audio codec found"@,
        HlsError::NoTextSubtitle => "No text subtitle stream found"@,
        HlsError::Transcode(m) => "Transcoding error: "@ + m@,
        HlsError::Muxing(m) => "Muxing error: "@ + m@,
        HlsError::Playlist(m) => "Playlist generation error: "@ + m@,
        HlsError::Cache(m) => "Cache error: "@ + m@,
        HlsError::Config(m) => "Configuration error: "@ + m@,
        HlsError::Http(m) => "HTTP error: "@ + m@,
        HlsError::InvalidCodec(m) => "Invalid codec: "@ + m@,
        HlsError::InvalidTimestamp(m) => "Invalid timestamp: "@ + m@,
        HlsError::MemoryLimit => "Memory limit exceeded"@,
    }
}

impl FfmpegError {
    /// The error's text.
    pub fn message(&self) -> (r: String)
        ensures
            r@ == ffmpeg_error_text(*self),
    {
        match self {
            FfmpegError::InitFailed(m) => {
                let mut out = String::from_str("FFmpeg initialization failed: ");
                push_str(&mut out, m.as_str());
                out
            },
            FfmpegError::OpenInput(m) => {
                let mut out = String::from_str("Failed to open input file: ");
                push_str(&mut out, m.as_str());
                out
            },
            FfmpegError::FindStreamInfo(m) => {
                let mut out = String::from_str("Failed to find stream info: ");
                push_str(&mut out, m.as_str());
                out
            },
            FfmpegError::DecoderNotFound(m) => {
                let mut out = String::from_str("Failed to find decoder: codec_id=");
                push_str(&mut out, m.as_str());
                out
            },
            FfmpegError::DecoderCreate(m) => {
                let mut out = String::from_str("Failed to create decoder: ");
                push_str(&mut out, m.as_str());
                out
            },
            FfmpegError::EncoderNotFound(m) => {
                let mut out = String::from_str("Failed to find encoder: codec_id=");
                push_str(&mut out, m.as_str());
                out
            },
            FfmpegError::EncoderCreate(m) => {
                let mut out = String::from_str("Failed to create encoder: ");
                push_str(&mut out, m.as_str());
                out
            },
            FfmpegError::EncoderConfigure(m) => {
                let mut out = String::from_str("Failed to configure encoder: ");
                push_str(&mut out, m.as_str());
                out
            },
            FfmpegError::ResamplerCreate(m) => {
                let mut out = String::from_str("Failed to create resampler: ");
                push_str(&mut out, m.as_str());
                out
            },
            FfmpegError::MuxerCreate(m) => {
                let mut out = String::from_str("Failed to create muxer: ");
                push_str(&mut out, m.as_str());
                out
            },
            FfmpegError::WriteHeader(m) => {
                let mut out = String::from_str("Failed to write header: ");
                push_str(&mut out, m.as_str());
                out
            },
            FfmpegError::WritePacket(m) => {
                let mut out = String::from_str("Failed to write packet: ");
                push_str(&mut out, m.as_str());
                out
            },
            FfmpegError::WriteTrailer(m) => {
                let mut out = String::from_str("Failed to write trailer: ");
                push_str(&mut out, m.as_str());
                out
            },
            FfmpegError::DecodePacket(m) => {
                let mut out = String::from_str("Failed to decode packet: ");
                push_str(&mut out, m.as_str());
                out
            },
            FfmpegError::EncodeFrame(m) => {
                let mut out = String::from_str("Failed to encode frame: ");
                push_str(&mut out, m.as_str());
                out
            },
            FfmpegError::ReadFrame(m) => {
                let mut out = String::from_str("Failed to read frame: ");
                push_str(&mut out, m.as_str());
                out
            },
            FfmpegError::InvalidTimebase => String::from_str("Invalid timebase"),
            FfmpegError::CodecNotFound(m) => {
                let mut out = String::from_str("Codec not found: ");
                push_str(&mut out, m.as_str());
                out
            },
            FfmpegError::StreamConfig(m) => {
                let mut out = String::from_str("Stream configuration failed: ");
                push_str(&mut out, m.as_str());
                out
            },
            FfmpegError::WriteError(m) => {
                let mut out = String::from_str("Write error: ");
                push_str(&mut out, m.as_str());
                out
            },
        }
    }
}

impl HlsError {
    /// The error's text.
    pub fn message(&self) -> (r: String)
        ensures
            r@ == hls_error_text(*self),
    {
        match self {
            HlsError::Ffmpeg(f) => {
                let mut out = String::from_str("FFmpeg error: ");
                let t = f.message();
                push_str(&mut out, t.as_str());
                out
            },
            HlsError::SegmentNotFound { stream_id, segment_type, sequence } => {
                let mut out = String::from_str("Segment not found: stream=");
                push_str(&mut out, stream_id.as_str());
                push_str(&mut out, ", type=");
                push_str(&mut out, segment_type.as_str());
                push_str(&mut out, ", seq=");
                push_u64(&mut out, *sequence as u64);
                out
            },
            HlsError::Io(m) => {
                let mut out = String::from_str("IO error: ");
                push_str(&mut out, m.as_str());
                out
            },
            HlsError::StreamNotFound(m) => {
                let mut out = String::from_str("Stream not found: ");
                push_str(&mut out, m.as_str());
                out
            },
            HlsError::IndexTimeout(m) => {
                let mut out = String::from_str("Indexing timeout for file: ");
                push_str(&mut out, m.as_str());
                out
            },
            HlsError::NoVideoStream => String::from_str("No video stream found in source file"),
            HlsError::NoIndex(m) => {
                let mut out = String::from_str("No demuxer index: ");
                push_str(&mut out, m.as_str());
                out
            },
            HlsError::NoSupportedAudio => String::from_str("No supported audio codec found"),
            HlsError::NoTextSubtitle => String::from_str("No text subtitle stream found"),
            HlsError::Transcode(m) => {
                let mut out = String::from_str("Transcoding error: ");
                push_str(&mut out, m.as_str());
                out
            },
            HlsError::Muxing(m) => {
                let mut out = String::from_str("Muxing error: ");
                push_str(&mut out, m.as_str());
                out
            },
            HlsError::Playlist(m) => {
                let mut out = String::from_str("Playlist generation error: ");
                push_str(&mut out, m.as_str());
                out
            },
            HlsError::Cache(m) => {
                let mut out = String::from_str("Cache error: ");
                push_str(&mut out, m.as_str());
                out
            },
            HlsError::Config(m) => {
                let mut out = String::from_str("Configuration error: ");
                push_str(&mut out, m.as_str());
                out
            },
            HlsError::Http(m) => {
                let mut out = String::from_str("HTTP error: ");
                push_str(&mut out, m.as_str());
                out
            },
            HlsError::InvalidCodec(m) => {
                let mut out = String::from_str("Invalid codec: ");
                push_str(&mut out, m.as_str());
                out
            },
            HlsError::InvalidTimestamp(m) => {
                let mut out = String::from_str("Invalid timestamp: ");
                push_str(&mut out, m.as_str());
                out
            },
            HlsError::MemoryLimit => String::from_str("Memory limit exceeded"),
        }
    }
}

} // verus!
