//! Configuration: cache and audio settings of the server, the limits it
//! derives from its settings, and the settings of the two proxies.

use vstd::prelude::*;
use crate::text::{dec, push_str, push_u64, starts_with};
use crate::limits::RateLimitConfig;
use crate::proxy::{normalize_base_url, trim_trailing_slashes};

verus! {

/// Segment cache settings.
#[derive(Clone, Copy, Debug, PartialEq, Eq, Structural)]
pub struct CacheConfig {
    /// Memory budget in megabytes.
    pub max_memory_mb: usize,
    pub max_segments: usize,
    pub ttl_secs: u64,
}

impl Default for CacheConfig {
    fn default() -> (r: Self)
        ensures
            r.max_memory_mb == 512,
            r.max_segments == 100,
            r.ttl_secs == 300,
    {
        CacheConfig { max_memory_mb: 512, max_segments: 100, ttl_secs: 300 }
    }
}

impl CacheConfig {
    /// The memory budget in bytes.
    pub fn max_memory_bytes(&self) -> (r: usize)
        requires
            self.max_memory_mb * 1024 * 1024 <= usize::MAX,
        ensures
            r == self.max_memory_mb * 1024 * 1024,
    {
        self.max_memory_mb * 1024 * 1024
    }
}

/// Audio transcoding settings.
#[derive(Clone, Copy, Debug, PartialEq, Eq, Structural)]
pub struct AudioConfig {
    pub target_sample_rate: u32,
    pub aac_bitrate: u64,
    pub enable_transcoding: bool,
}

impl Default for AudioConfig {
    fn default() -> (r: Self)
        ensures
            r.target_sample_rate == 48000,
            r.aac_bitrate == 128000,
            r.enable_transcoding,
    {
        AudioConfig { target_sample_rate: 48000, aac_bitrate: 128000, enable_transcoding: true }
    }
}

/// The address the server binds: host, `:`, port.
pub fn socket_addr_text(host: &str, port: u16) -> (r: String)
    ensures
        r@ == host@ + ":"@ + dec(port as nat),
{
    let mut out = String::from_str(host);
    push_str(&mut out, ":");
    push_u64(&mut out, port as u64);
    out
}

/// The rate limits of a server: the configured requests per second (100 by
/// default), with bursts of half that.
pub fn rate_limit_config_for(rate_limit_rps: Option<u32>) -> (r: RateLimitConfig)
    ensures
        r.requests_per_second == match rate_limit_rps {
            Some(x) => x,
            None => 100,
        },
        r.burst_size == r.requests_per_second / 2,
{
    let rate = match rate_limit_rps {
        Some(x) => x,
        None => 100,
    };
    RateLimitConfig { requests_per_second: rate, burst_size: rate / 2 }
}

/// The connection limits of a server, per client and in total: the total
/// is the configured maximum of streams (100 by default, taken as 32 bits),
/// a client may hold a tenth of it.
pub fn connection_limits_for(max_concurrent_streams: Option<usize>) -> (r: (u32, u32))
    ensures
        r.1 == match max_concurrent_streams {
            Some(x) => x as u32,
            None => 100u32,
        },
        r.0 == r.1 / 10,
{
    let max: u32 = match max_concurrent_streams {
        Some(x) => x as u32,
        None => 100,
    };
    (max / 10, max)
}

// ---------------------------------------------------------------------------
// The HLS proxy's settings
// ---------------------------------------------------------------------------

/// Whether TLS is on: both a certificate and a key are given.
pub fn tls_enabled(has_cert: bool, has_key: bool) -> (r: bool)
    ensures
        r == (has_cert && has_key),
{
    has_cert && has_key
}

/// The first failing check of the proxy's settings: the Jellyfin URL is an
/// HTTP(S) URL, a certificate comes with a key, and each given file exists.
pub open spec fn proxy_config_error(jellyfin_url: Seq<char>, tls_cert: Option<Seq<char>>,
    tls_key: Option<Seq<char>>, cert_exists: bool, key_exists: bool) -> Option<Seq<char>> {
    if !starts_with(jellyfin_url, "http://"@) && !starts_with(jellyfin_url, "https://"@) {
        Some("Jellyfin URL must start with http:// or https://"@)
    } else if tls_cert is Some != tls_key is Some {
        Some("Both --tls-cert and --tls-key must be provided together"@)
    } else if tls_cert is Some && !cert_exists {
        Some("TLS certificate file not found: "@ + tls_cert->Some_0)
    } else if tls_key is Some && !key_exists {
        Some("TLS key file not found: "@ + tls_key->Some_0)
    } else {
        None
    }
}

fn starts_with_lit(s: &str, prefix: &str) -> (r: bool)
    ensures
        r == starts_with(s@, prefix@),
{
    let n = s.unicode_len();
    let m = prefix.unicode_len();
    if m > n {
        return false;
    }
    let mut k: usize = 0;
    while k < m
        invariant
            n == s@.len(),
            m == prefix@.len(),
            m <= n,
            k <= m,
            forall|j: int| 0 <= j < k ==> s@[j] == prefix@[j],
        decreases m - k,
    {
        if s.get_char(k) != prefix.get_char(k) {
            return false;
        }
        k += 1;
    }
    assert(s@.subrange(0, m as int) =~= prefix@);
    true
}

/// Checks the proxy's settings; `cert_exists` and `key_exists` tell whether
/// the certificate and key files, where given, exist.
pub fn validate_proxy_config(jellyfin_url: &str, tls_cert: Option<&str>, tls_key: Option<&str>, cert_exists: bool,
    key_exists: bool) -> (r: Result<(), String>)
    ensures
        match r {
            Ok(()) => proxy_config_error(jellyfin_url@, opt_str_view(tls_cert), opt_str_view(tls_key), cert_exists,
                key_exists) is None,
            Err(e) => proxy_config_error(jellyfin_url@, opt_str_view(tls_cert), opt_str_view(tls_key), cert_exists,
                key_exists) == Some(e@),
        },
{
    if !starts_with_lit(jellyfin_url, "http://") && !starts_with_lit(jellyfin_url, "https://") {
        return Err(String::from_str("Jellyfin URL must start with http:// or https://"));
    }
    if tls_cert.is_some() != tls_key.is_some() {
        return Err(String::from_str("Both --tls-cert and --tls-key must be provided together"));
    }
    match tls_cert {
        Some(c) => if !cert_exists {
            let mut e = String::from_str("TLS certificate file not found: ");
            push_str(&mut e, c);
            return Err(e);
        },
        None => {},
    }
    match tls_key {
        Some(k) => if !key_exists {
            let mut e = String::from_str("TLS key file not found: ");
            push_str(&mut e, k);
            return Err(e);
        },
        None => {},
    }
    Ok(())
}

/// The text of an optional string slice.
pub open spec fn opt_str_view(o: Option<&str>) -> Option<Seq<char>> {
    match o {
        Some(s) => Some(s@),
        None => None,
    }
}

// ---------------------------------------------------------------------------
// The transmuxing proxy's settings
// ---------------------------------------------------------------------------

/// Listener settings of the configuration file.
#[derive(Debug, Default)]
pub struct ServerConfig {
    pub http_listen_port: Option<u16>,
    pub https_listen_port: Option<u16>,
    pub tls_cert: Option<String>,
    pub tls_key: Option<String>,
}

#[derive(Debug, Default)]
pub struct SafariConfig {
    pub force_transcoding: bool,
}

#[derive(Debug, Default)]
pub struct JellyfinConfig {
    pub jellyfin: String,
    pub mediaroot: Option<String>,
}

/// The configuration file of the transmuxing proxy.
#[derive(Debug, Default)]
pub struct Config {
    pub server: ServerConfig,
    pub safari: SafariConfig,
    pub jellyfin: JellyfinConfig,
}

/// An HTTPS listener: port, certificate and key files.
#[derive(Debug)]
pub struct HttpsListener {
    pub port: u16,
    pub cert: String,
    pub key: String,
}

/// The settings the transmuxing proxy runs with.
#[derive(Debug)]
pub struct Settings {
    pub jellyfin_url: String,
    pub media_root: String,
    pub safari_force_transcoding: bool,
    /// Address of the HTTP listener, if any.
    pub http_listen: Option<String>,
    pub https: Option<HttpsListener>,
}

pub open spec fn default_jellyfin_url() -> Seq<char> {
    "http://jf.high5.nl:8096"@
}

/// The Jellyfin URL: from the command line, else the file, else the
/// default; without trailing slashes.
pub open spec fn chosen_url(arg: Option<String>, config: Option<Config>) -> Seq<char> {
    trim_trailing_slashes(match arg {
        Some(u) => u@,
        None => match config {
            Some(c) => c.jellyfin.jellyfin@,
            None => default_jellyfin_url(),
        },
    })
}

pub open spec fn chosen_media_root(arg: Option<String>, config: Option<Config>) -> Seq<char> {
    match arg {
        Some(m) => m@,
        None => match config {
            Some(c) => match c.jellyfin.mediaroot {
                Some(m) => m@,
                None => Seq::empty(),
            },
            None => Seq::empty(),
        },
    }
}

/// The HTTP listener: the command line's address, else the file's port on
/// all interfaces, else `127.0.0.1:8097` when there is no file; none when
/// the file gives no port.
pub open spec fn chosen_http(listen: Option<String>, config: Option<Config>) -> Option<Seq<char>> {
    match listen {
        Some(l) => Some(l@),
        None => match config {
            Some(c) => match c.server.http_listen_port {
                Some(p) => Some("0.0.0.0:"@ + dec(p as nat)),
                None => None,
            },
            None => Some("127.0.0.1:8097"@),
        },
    }
}

fn clone_str(s: &String) -> (r: String)
    ensures
        r@ == s@,
{
    s.clone()
}

/// The settings from the command line and the configuration file (if one
/// was read): an HTTPS port without both a certificate and a key is an
/// error, and so is having no listener at all.
pub fn resolve_settings(jellyfin_url: Option<String>, listen: Option<String>, mediaroot: Option<String>, config: Option<Config>) -> (r: Result<Settings, String>)
    ensures
        match r {
            Ok(s) => {
                &&& s.jellyfin_url@ == chosen_url(jellyfin_url, config)
                &&& s.media_root@ == chosen_media_root(mediaroot, config)
                &&& s.safari_force_transcoding == (config matches Some(c) && c.safari.force_transcoding)
                &&& crate::url::opt_view(s.http_listen) == chosen_http(listen, config)
                &&& match config {
                    Some(c) => match c.server.https_listen_port {
                        Some(p) => s.https matches Some(h) && h.port == p
                            && crate::url::opt_view(c.server.tls_cert) == Some(h.cert@)
                            && crate::url::opt_view(c.server.tls_key) == Some(h.key@),
                        None => s.https is None,
                    },
                    None => s.https is None,
                }
                &&& (s.http_listen is Some || s.https is Some)
            },
            Err(e) => {
                ||| (config matches Some(c) && c.server.https_listen_port is Some
                    && (c.server.tls_cert is None || c.server.tls_key is None)
                    && e@ == "HTTPS configuration incomplete: missng cert or key"@)
                ||| (chosen_http(listen, config) is None
                    && !(config matches Some(c) && c.server.https_listen_port is Some)
                    && e@ == "No listeners configured"@)
            },
        },
{
    let raw_url = match &jellyfin_url {
        Some(u) => clone_str(u),
        None => match &config {
            Some(c) => clone_str(&c.jellyfin.jellyfin),
            None => String::from_str("http://jf.high5.nl:8096"),
        },
    };
    let url = normalize_base_url(raw_url.as_str());
    let media_root = match &mediaroot {
        Some(m) => clone_str(m),
        None => match &config {
            Some(c) => match &c.jellyfin.mediaroot {
                Some(m) => clone_str(m),
                None => String::new(),
            },
            None => String::new(),
        },
    };
    let safari = match &config {
        Some(c) => c.safari.force_transcoding,
        None => false,
    };
    let http: Option<String> = match &listen {
        Some(l) => Some(clone_str(l)),
        None => match &config {
            Some(c) => match c.server.http_listen_port {
                Some(p) => {
                    let mut a = String::from_str("0.0.0.0:");
                    push_u64(&mut a, p as u64);
                    Some(a)
                },
                None => None,
            },
            None => Some(String::from_str("127.0.0.1:8097")),
        },
    };
    let https: Option<HttpsListener> = match &config {
        Some(c) => match c.server.https_listen_port {
            Some(p) => match (&c.server.tls_cert, &c.server.tls_key) {
                (Some(cert), Some(key)) => Some(HttpsListener { port: p, cert: clone_str(cert), key: clone_str(key) }),
                _ => {
                    return Err(String::from_str("HTTPS configuration incomplete: missng cert or key"));
                },
            },
            None => None,
        },
        None => None,
    };
    if http.is_none() && https.is_none() {
        return Err(String::from_str("No listeners configured"));
    }
    Ok(Settings {
        jellyfin_url: url,
        media_root,
        safari_force_transcoding: safari,
        http_listen: http,
        https,
    })
}

} // verus!
