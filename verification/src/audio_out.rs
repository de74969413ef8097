//! The audio format HLS renditions are encoded in, and what it takes to get there.

use vstd::prelude::*;

verus! {

/// Sample rate of the AAC renditions.
pub const HLS_SAMPLE_RATE: u32 = 48000;

/// Channel layout bits of mono (front centre).
pub const LAYOUT_MONO: u64 = 0x4;

/// Channel layout bits of stereo (front left and right).
pub const LAYOUT_STEREO: u64 = 0x3;

/// Sample formats of decoded audio.
#[derive(Clone, Copy, Debug, PartialEq, Eq, Structural)]
pub enum SampleFormat {
    U8,
    I16,
    I32,
    I64,
    F32,
    F64,
    U8Planar,
    I16Planar,
    I32Planar,
    I64Planar,
    F32Planar,
    F64Planar,
    Unknown,
}

/// The format the AAC encoder takes: planar 32-bit float.
pub const HLS_SAMPLE_FORMAT: SampleFormat = SampleFormat::F32Planar;

pub open spec fn spec_recommended_bitrate(channels: u16) -> u64 {
    if channels == 1 {
        64_000
    } else if channels == 2 {
        128_000
    } else if channels == 6 {
        384_000
    } else if channels == 8 {
        512_000
    } else {
        128_000
    }
}

/// The AAC bitrate for a number of channels.
pub fn get_recommended_bitrate(channels: u16) -> (r: u64)
    ensures
        r == spec_recommended_bitrate(channels),
{
    match channels {
        1 => 64_000,
        2 => 128_000,
        6 => 384_000,
        8 => 512_000,
        _ => 128_000,
    }
}

/// Whether decoded audio must be resampled: its rate, format or channel
/// layout differ from the HLS output.
pub fn needs_resampling(rate: u32, format: SampleFormat, layout_bits: u64) -> (r: bool)
    ensures
        r == (rate != HLS_SAMPLE_RATE || format != HLS_SAMPLE_FORMAT || layout_bits != LAYOUT_STEREO),
{
    rate != HLS_SAMPLE_RATE || format != HLS_SAMPLE_FORMAT || layout_bits != LAYOUT_STEREO
}

/// The channel layout of decoded audio: its own, or, when it has none, mono
/// for one channel and stereo otherwise.
pub fn source_layout(layout_bits: u64, channels: u16) -> (r: u64)
    ensures
        r == if layout_bits != 0 { layout_bits } else if channels == 1 { LAYOUT_MONO } else { LAYOUT_STEREO },
{
    if layout_bits != 0 {
        layout_bits
    } else if channels == 1 {
        LAYOUT_MONO
    } else {
        LAYOUT_STEREO
    }
}

} // verus!
