# hls_vod

The verified core of an HLS video-on-demand server and of two Jellyfin
proxies: request paths, master playlists, audio rendition plans, segment
boundaries, subtitle cues, playlist and segment checks, rate limits and the
proxies' decisions.

`src/` is the library, written in Verus; every function in it carries a
contract that Verus proves:

- `url_grammar`, `url_scan`, `url`, `url_laws`: the request-path grammar
  (`<video>.as.m3u8`, `<video>/<session>/t.<n>.m3u8`, segments), reading and
  writing paths, and the laws that a written request reads back as itself.
- `track_ids`: the track and segment ids of the library API.
- `master`, `planner`, `master_valid`: the master playlist text and the
  audio rendition plan, with the laws of their ordering, defaults and AAC
  coverage, and the law that the playlist check accepts what is written.
- `media`, `segments`, `generate`, `api`: stream descriptions, segment
  boundaries from the demuxer index, subtitle segment maps, encoder delays,
  and what each request generates.
- `subtitle`, `validation`: cue extraction into WebVTT text and the checks of
  playlists, WebVTT and fMP4 boxes.
- `limits`, `metrics`, `memio`, `clock`: rate and connection limits, the
  Prometheus metrics text, an in-memory writer, time.
- `proxy`, `playback`, `jellyfin`, `query`, `config`, `server`, `errors`:
  the proxies' decisions (headers, redirects, WebSocket relay steps,
  PlaybackInfo rewriting), request parameters, settings and errors.

`app/` is the program around it: the HLS server (`serve`) and the two
Jellyfin proxies (`hls-proxy`, `transmux-proxy`) with axum, reqwest and
tokio-tungstenite, the TOML configuration files, and the FFmpeg indexing of
media files.  The server answers master playlists; it has no fMP4 muxer, so
it answers requests for variant playlists and segments with
`501 Not Implemented`.

`tests/` runs the library on concrete inputs.
