//! Verified core of an HLS video-on-demand server: URL grammar, playlist text,
//! audio track planning, subtitle cue extraction, limits and metrics.

pub mod text;
pub mod clock;
pub mod url_grammar;
pub mod url_scan;
pub mod url;
pub mod url_laws;
pub mod errors;
pub mod media;
pub mod master;
pub mod generate;
pub mod planner;
pub mod subtitle;
pub mod limits;
pub mod metrics;
pub mod segments;
pub mod memio;
pub mod playback;
pub mod proxy;
pub mod query;
pub mod config;
pub mod server;
pub mod audio_out;
pub mod api;
pub mod track_ids;
pub mod validation;
pub mod master_valid;
pub mod jellyfin;
