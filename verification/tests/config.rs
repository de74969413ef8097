use hls_vod::config::{
    connection_limits_for, rate_limit_config_for, resolve_settings, socket_addr_text, tls_enabled,
    validate_proxy_config, AudioConfig, CacheConfig, Config, JellyfinConfig, SafariConfig, ServerConfig,
};

#[test]
fn test_cache_config_max_bytes() {
    let cache = CacheConfig { max_memory_mb: 256, ..Default::default() };
    assert_eq!(cache.max_memory_bytes(), 256 * 1024 * 1024);
}

#[test]
fn test_socket_addr() {
    assert_eq!(socket_addr_text("127.0.0.1", 8080), "127.0.0.1:8080");
}

#[test]
fn defaults() {
    let cache = CacheConfig::default();
    assert_eq!((cache.max_memory_mb, cache.max_segments, cache.ttl_secs), (512, 100, 300));
    let audio = AudioConfig::default();
    assert_eq!(audio.target_sample_rate, 48000);
    assert_eq!(audio.aac_bitrate, 128000);
    assert!(audio.enable_transcoding);
}

#[test]
fn limits_from_settings() {
    let r = rate_limit_config_for(None);
    assert_eq!((r.requests_per_second, r.burst_size), (100, 50));
    let r = rate_limit_config_for(Some(7));
    assert_eq!((r.requests_per_second, r.burst_size), (7, 3));
    assert_eq!(connection_limits_for(None), (10, 100));
    assert_eq!(connection_limits_for(Some(25)), (2, 25));
}

#[test]
fn proxy_config_checks() {
    assert!(tls_enabled(true, true));
    assert!(!tls_enabled(true, false));
    assert_eq!(validate_proxy_config("http://x", None, None, false, false), Ok(()));
    assert_eq!(
        validate_proxy_config("ftp://x", None, None, false, false),
        Err("Jellyfin URL must start with http:// or https://".to_string())
    );
    assert_eq!(
        validate_proxy_config("https://x", Some("c.pem"), None, true, false),
        Err("Both --tls-cert and --tls-key must be provided together".to_string())
    );
    assert_eq!(
        validate_proxy_config("https://x", Some("c.pem"), Some("k.pem"), false, true),
        Err("TLS certificate file not found: c.pem".to_string())
    );
    assert_eq!(
        validate_proxy_config("https://x", Some("c.pem"), Some("k.pem"), true, false),
        Err("TLS key file not found: k.pem".to_string())
    );
    assert_eq!(validate_proxy_config("https://x", Some("c.pem"), Some("k.pem"), true, true), Ok(()));
}

#[test]
fn settings_without_file() {
    let s = resolve_settings(None, None, None, None).unwrap();
    assert_eq!(s.jellyfin_url, "http://jf.high5.nl:8096");
    assert_eq!(s.media_root, "");
    assert_eq!(s.http_listen.as_deref(), Some("127.0.0.1:8097"));
    assert!(s.https.is_none());
    assert!(!s.safari_force_transcoding);
}

#[test]
fn settings_from_file() {
    let config = Config {
        server: ServerConfig { http_listen_port: Some(8080), https_listen_port: Some(8443), tls_cert: Some("c.pem".into()), tls_key: Some("k.pem".into()) },
        safari: SafariConfig { force_transcoding: true },
        jellyfin: JellyfinConfig { jellyfin: "http://jf:8096//".into(), mediaroot: Some("/media".into()) },
    };
    let s = resolve_settings(None, None, None, Some(config)).unwrap();
    assert_eq!(s.jellyfin_url, "http://jf:8096");
    assert_eq!(s.media_root, "/media");
    assert_eq!(s.http_listen.as_deref(), Some("0.0.0.0:8080"));
    let https = s.https.unwrap();
    assert_eq!((https.port, https.cert.as_str(), https.key.as_str()), (8443, "c.pem", "k.pem"));
    assert!(s.safari_force_transcoding);
}

#[test]
fn settings_errors() {
    let config = Config {
        server: ServerConfig { http_listen_port: None, https_listen_port: Some(8443), tls_cert: None, tls_key: None },
        ..Default::default()
    };
    assert_eq!(
        resolve_settings(None, None, None, Some(config)).err(),
        Some("HTTPS configuration incomplete: missng cert or key".to_string())
    );
    assert_eq!(
        resolve_settings(None, None, None, Some(Config::default())).err(),
        Some("No listeners configured".to_string())
    );
}
