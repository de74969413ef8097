//! The HTTP server's errors, request types and small decisions.

use vstd::prelude::*;
use crate::text::{push_str, str_eq};
use crate::errors::{HlsError, FfmpegError, hls_error_text, ffmpeg_error_text};

verus! {

/// An error answered to an HTTP client.
#[derive(Debug)]
pub enum HttpError {
    StreamNotFound(String),
    SegmentNotFound(String),
    InvalidFormat(String),
    InternalError(String),
}

/// The HTTP status of an error: not found, bad request or internal error.
pub open spec fn http_error_status(e: HttpError) -> u16 {
    match e {
        HttpError::StreamNotFound(_) => 404,
        HttpError::SegmentNotFound(_) => 404,
        HttpError::InvalidFormat(_) => 400,
        HttpError::InternalError(_) => 500,
    }
}

pub open spec fn http_error_message(e: HttpError) -> Seq<char> {
    match e {
        HttpError::StreamNotFound(m) => m@,
        HttpError::SegmentNotFound(m) => m@,
        HttpError::InvalidFormat(m) => m@,
        HttpError::InternalError(m) => m@,
    }
}

/// The HTTP error a library error becomes: a missing stream or segment is
/// "not found", everything else an internal error carrying its text.
pub open spec fn http_error_for(e: HlsError, r: HttpError) -> bool {
    match e {
        HlsError::StreamNotFound(m) => r matches HttpError::StreamNotFound(x) && x@ == m@,
        HlsError::SegmentNotFound { .. } => r matches HttpError::SegmentNotFound(x) && x@ == hls_error_text(e),
        HlsError::Muxing(m) => r matches HttpError::InternalError(x) && x@ == m@,
        HlsError::Transcode(m) => r matches HttpError::InternalError(x) && x@ == m@,
        HlsError::Ffmpeg(f) => r matches HttpError::InternalError(x) && x@ == ffmpeg_error_text(f),
        HlsError::Io(m) => r matches HttpError::InternalError(x) && x@ == m@,
        _ => r matches HttpError::InternalError(x) && x@ == hls_error_text(e),
    }
}

impl HttpError {
    /// The HTTP error for a library error.
    pub fn from_hls_error(err: HlsError) -> (r: HttpError)
        ensures
            http_error_for(err, r),
    {
        let text = err.message();
        match err {
            HlsError::StreamNotFound(m) => HttpError::StreamNotFound(m),
            HlsError::SegmentNotFound { .. } => HttpError::SegmentNotFound(text),
            HlsError::Muxing(m) => HttpError::InternalError(m),
            HlsError::Transcode(m) => HttpError::InternalError(m),
            HlsError::Ffmpeg(f) => HttpError::InternalError(f.message()),
            HlsError::Io(m) => HttpError::InternalError(m),
            _ => HttpError::InternalError(text),
        }
    }

    /// The status code and body of the answer.
    pub fn status_and_message(&self) -> (r: (u16, String))
        ensures
            r.0 == http_error_status(*self),
            r.1@ == http_error_message(*self),
    {
        match self {
            HttpError::StreamNotFound(m) => (404, m.clone()),
            HttpError::SegmentNotFound(m) => (404, m.clone()),
            HttpError::InvalidFormat(m) => (400, m.clone()),
            HttpError::InternalError(m) => (500, m.clone()),
        }
    }
}

/// Errors of the server.
#[derive(Debug)]
pub enum ServerError {
    Library(HlsError),
    Config(String),
    Internal(String),
    /// An I/O error, by its message.
    Io(String),
}

pub open spec fn server_error_text(e: ServerError) -> Seq<char> {
    match e {
        ServerError::Library(l) => "Library error: "@ + hls_error_text(l),
        ServerError::Config(m) => "Configuration error: "@ + m@,
        ServerError::Internal(m) => "Internal server error: "@ + m@,
        ServerError::Io(m) => "IO error: "@ + m@,
    }
}

/// The answer to a server error: a missing stream is "not found" with its
/// id; a missing segment is "not found" with the error's text; anything else
/// is an internal error with the error's text.
pub open spec fn server_error_answer(e: ServerError) -> (u16, Seq<char>) {
    match e {
        ServerError::Library(HlsError::StreamNotFound(id)) => (404, "Stream not found: "@ + id@),
        ServerError::Library(HlsError::SegmentNotFound { .. }) => (404, server_error_text(e)),
        _ => (500, server_error_text(e)),
    }
}

impl ServerError {
    /// The error's text.
    pub fn message(&self) -> (r: String)
        ensures
            r@ == server_error_text(*self),
    {
        match self {
            ServerError::Library(l) => {
                let mut out = String::from_str("Library error: ");
                let t = l.message();
                push_str(&mut out, t.as_str());
                out
            },
            ServerError::Config(m) => {
                let mut out = String::from_str("Configuration error: ");
                push_str(&mut out, m.as_str());
                out
            },
            ServerError::Internal(m) => {
                let mut out = String::from_str("Internal server error: ");
                push_str(&mut out, m.as_str());
                out
            },
            ServerError::Io(m) => {
                let mut out = String::from_str("IO error: ");
                push_str(&mut out, m.as_str());
                out
            },
        }
    }

    /// The status code and body of the answer.
    pub fn status_and_body(&self) -> (r: (u16, String))
        ensures
            r.0 == server_error_answer(*self).0,
            r.1@ == server_error_answer(*self).1,
    {
        match self {
            ServerError::Library(HlsError::StreamNotFound(id)) => {
                let mut out = String::from_str("Stream not found: ");
                push_str(&mut out, id.as_str());
                (404, out)
            },
            ServerError::Library(HlsError::SegmentNotFound { .. }) => (404, self.message()),
            _ => (500, self.message()),
        }
    }
}

/// Statistics of the segment cache.
#[derive(Clone, Copy, Debug, PartialEq, Eq, Structural)]
pub struct CacheStats {
    pub entry_count: usize,
    pub total_size_bytes: usize,
    pub memory_limit_bytes: usize,
}

/// A request to index a file.
#[derive(Debug)]
pub struct CreateStreamRequest {
    pub path: String,
    pub stream_id: Option<String>,
}

/// Paging of the stream list.
#[derive(Clone, Copy, Debug, PartialEq, Eq, Structural)]
pub struct StreamListQuery {
    pub limit: Option<usize>,
    pub offset: Option<usize>,
}

/// The part `[start, end)` of a list of `total` entries that a page shows:
/// skip `offset` entries (none by default), then take `limit` (all by default).
pub fn page_bounds(total: usize, query: StreamListQuery) -> (r: (usize, usize))
    ensures
        ({
            let off: int = match query.offset { Some(o) => o as int, None => 0 };
            let lim: int = match query.limit { Some(l) => l as int, None => total as int };
            let start: int = if off < total { off } else { total as int };
            &&& r.0 == start
            &&& r.1 == if start + lim < total { start + lim } else { total as int }
        }),
{
    let off = match query.offset {
        Some(o) => o,
        None => 0,
    };
    let lim = match query.limit {
        Some(l) => l,
        None => total,
    };
    let start = if off < total { off } else { total };
    let end = if lim < total - start { start + lim } else { total };
    (start, end)
}

/// The path of a stream's master playlist.
pub fn master_playlist_path(stream_id: &str) -> (r: String)
    ensures
        r@ == "/streams/"@ + stream_id@ + "/master.m3u8"@,
{
    let mut out = String::from_str("/streams/");
    push_str(&mut out, stream_id);
    push_str(&mut out, "/master.m3u8");
    out
}

/// The path of a stream's video playlist.
pub fn video_playlist_path(stream_id: &str) -> (r: String)
    ensures
        r@ == "/streams/"@ + stream_id@ + "/video.m3u8"@,
{
    let mut out = String::from_str("/streams/");
    push_str(&mut out, stream_id);
    push_str(&mut out, "/video.m3u8");
    out
}

/// Streams idle for longer than this many seconds are dropped.
pub const STREAM_TIMEOUT_SECS: u64 = 600;

/// Seconds since the last access (zero when the clock went back).
pub fn idle_seconds(now: u64, last_accessed: u64) -> (r: u64)
    ensures
        r == if now >= last_accessed { now - last_accessed } else { 0 },
{
    if now >= last_accessed {
        now - last_accessed
    } else {
        0
    }
}

/// Whether a stream idle for `idle` seconds is dropped.
pub fn stream_expired(idle: u64) -> (r: bool)
    ensures
        r == (idle > STREAM_TIMEOUT_SECS),
{
    idle > STREAM_TIMEOUT_SECS
}

} // verus!
