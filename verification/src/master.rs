//! The master playlist: one `#EXT-X-MEDIA` entry per audio rendition and per
//! text subtitle track, and one `#EXT-X-STREAM-INF` variant per audio codec
//! group, all pointing at the same video playlist.

use vstd::prelude::*;
use crate::text::{dec, push_str, push_u64, string_push, str_eq, to_upper, upper_text};
use crate::media::{AudioStreamInfo, CodecId, StreamIndex, SubtitleStreamInfo, VideoStreamInfo};

verus! {

// ---------------------------------------------------------------------------
// Audio codec groups
// ---------------------------------------------------------------------------

/// The codec group of an audio rendition: 0 `audio-aac`, 1 `audio-ac3`,
/// 2 `audio-eac3`, 3 `audio-mp3`, 4 `audio-opus`.  Transcoded renditions and
/// codecs without a group of their own fall in the AAC group.
pub open spec fn group_rank(a: AudioStreamInfo) -> nat {
    if a.is_transcoded {
        0
    } else {
        match a.codec_id {
            CodecId::AC3 => 1,
            CodecId::EAC3 => 2,
            CodecId::MP3 => 3,
            CodecId::OPUS => 4,
            _ => 0,
        }
    }
}

pub open spec fn group_name(g: nat) -> Seq<char> {
    if g == 1 {
        "audio-ac3"@
    } else if g == 2 {
        "audio-eac3"@
    } else if g == 3 {
        "audio-mp3"@
    } else if g == 4 {
        "audio-opus"@
    } else {
        "audio-aac"@
    }
}

/// The codec string advertised for a group.
pub open spec fn group_codec(g: nat) -> Seq<char> {
    if g == 1 {
        "ac-3"@
    } else if g == 2 {
        "ec-3"@
    } else if g == 3 {
        "mp4a.40.34"@
    } else if g == 4 {
        "Opus"@
    } else {
        "mp4a.40.2"@
    }
}

fn group_of(a: &AudioStreamInfo) -> (r: usize)
    ensures
        r == group_rank(*a),
        r < 5,
{
    if a.is_transcoded {
        return 0;
    }
    match a.codec_id {
        CodecId::AC3 => 1,
        CodecId::EAC3 => 2,
        CodecId::MP3 => 3,
        CodecId::OPUS => 4,
        _ => 0,
    }
}

fn group_name_str(g: usize) -> (r: &'static str)
    ensures
        r@ == group_name(g as nat),
{
    if g == 1 {
        "audio-ac3"
    } else if g == 2 {
        "audio-eac3"
    } else if g == 3 {
        "audio-mp3"
    } else if g == 4 {
        "audio-opus"
    } else {
        "audio-aac"
    }
}

fn group_codec_str(g: usize) -> (r: &'static str)
    ensures
        r@ == group_codec(g as nat),
{
    if g == 1 {
        "ac-3"
    } else if g == 2 {
        "ec-3"
    } else if g == 3 {
        "mp4a.40.34"
    } else if g == 4 {
        "Opus"
    } else {
        "mp4a.40.2"
    }
}

// ---------------------------------------------------------------------------
// Order of the audio entries: by group, then by stream index, stable
// ---------------------------------------------------------------------------

/// `a` comes after `b` in the listing.
pub open spec fn listed_after(a: AudioStreamInfo, b: AudioStreamInfo) -> bool {
    group_rank(a) > group_rank(b) || (group_rank(a) == group_rank(b) && a.stream_index
        > b.stream_index)
}

/// The first position `k >= from` of `order` whose stream is listed after `x`,
/// or the length of `order`.
pub open spec fn insert_pos(s: Seq<AudioStreamInfo>, order: Seq<usize>, x: AudioStreamInfo, from: int) -> int
    decreases order.len() - from,
{
    if from >= order.len() {
        order.len() as int
    } else if listed_after(s[order[from] as int], x) {
        from
    } else {
        insert_pos(s, order, x, from + 1)
    }
}

/// The positions of the first `n` streams of `s`, stably sorted by group and
/// stream index: each stream goes after every earlier one that is not
/// listed after it.
pub open spec fn audio_order(s: Seq<AudioStreamInfo>, n: nat) -> Seq<usize>
    decreases n,
{
    if n == 0 {
        Seq::empty()
    } else {
        let prev = audio_order(s, (n - 1) as nat);
        prev.insert(insert_pos(s, prev, s[n - 1], 0), (n - 1) as usize)
    }
}

proof fn lemma_insert_pos_bounds(s: Seq<AudioStreamInfo>, order: Seq<usize>, x: AudioStreamInfo, from: int)
    requires
        0 <= from <= order.len(),
    ensures
        from <= insert_pos(s, order, x, from) <= order.len(),
    decreases order.len() - from,
{
    if from < order.len() && !listed_after(s[order[from] as int], x) {
        lemma_insert_pos_bounds(s, order, x, from + 1);
    }
}

proof fn lemma_audio_order_shape(s: Seq<AudioStreamInfo>, n: nat)
    requires
        n <= s.len(),
    ensures
        audio_order(s, n).len() == n,
        forall|k: int| 0 <= k < n ==> (#[trigger] audio_order(s, n)[k]) < n,
    decreases n,
{
    if n > 0 {
        let prev = audio_order(s, (n - 1) as nat);
        lemma_audio_order_shape(s, (n - 1) as nat);
        lemma_insert_pos_bounds(s, prev, s[n - 1], 0);
        let p = insert_pos(s, prev, s[n - 1], 0);
        let cur = prev.insert(p, (n - 1) as usize);
        assert forall|k: int| 0 <= k < n implies (#[trigger] audio_order(s, n)[k]) < n by {
            if k < p {
                assert(cur[k] == prev[k]);
            } else if k > p {
                assert(cur[k] == prev[k - 1]);
            }
        }
    }
}

fn after(a: &AudioStreamInfo, gx: usize, ix: usize) -> (r: bool)
    ensures
        r == (group_rank(*a) > gx || (group_rank(*a) == gx && a.stream_index > ix)),
{
    let g = group_of(a);
    g > gx || (g == gx && a.stream_index > ix)
}

/// The listing order of the audio streams.
fn sorted_audio_order(s: &Vec<AudioStreamInfo>) -> (r: Vec<usize>)
    ensures
        r@ == audio_order(s@, s@.len()),
        r@.len() == s@.len(),
        forall|k: int| 0 <= k < r@.len() ==> (#[trigger] r@[k]) < s@.len(),
{
    let n = s.len();
    let mut order: Vec<usize> = Vec::new();
    let mut i: usize = 0;
    while i < n
        invariant
            n == s@.len(),
            i <= n,
            order@ == audio_order(s@, i as nat),
        decreases n - i,
    {
        proof {
            lemma_audio_order_shape(s@, i as nat);
        }
        let gx = group_of(&s[i]);
        let ix = s[i].stream_index;
        let mut k: usize = 0;
        while k < order.len() && !after(&s[order[k]], gx, ix)
            invariant
                n == s@.len(),
                i < n,
                order@ == audio_order(s@, i as nat),
                order@.len() == i,
                forall|j: int| 0 <= j < i ==> (#[trigger] order@[j]) < i,
                k <= order@.len(),
                gx == group_rank(s@[i as int]),
                ix == s@[i as int].stream_index,
                insert_pos(s@, order@, s@[i as int], 0) == insert_pos(s@, order@, s@[i as int], k as int),
            decreases order@.len() - k,
        {
            k += 1;
        }
        order.insert(k, i);
        i += 1;
    }
    proof {
        lemma_audio_order_shape(s@, n as nat);
    }
    order
}

// ---------------------------------------------------------------------------
// Line texts
// ---------------------------------------------------------------------------

pub open spec fn lang_of(o: Option<String>) -> Seq<char> {
    match o {
        Some(l) => l@,
        None => "und"@,
    }
}

/// Three-letter language codes with a two-letter RFC 5646 form.
pub open spec fn rfc5646(l: Seq<char>) -> Seq<char> {
    if l == "eng"@ {
        "en"@
    } else if l == "fre"@ {
        "fr"@
    } else if l == "ger"@ {
        "de"@
    } else if l == "spa"@ {
        "es"@
    } else if l == "ita"@ {
        "it"@
    } else if l == "jpn"@ {
        "ja"@
    } else if l == "kor"@ {
        "ko"@
    } else if l == "chi"@ {
        "zh"@
    } else if l == "rus"@ {
        "ru"@
    } else if l == "por"@ {
        "pt"@
    } else {
        l
    }
}

pub open spec fn audio_label(a: AudioStreamInfo) -> Seq<char> {
    if a.is_transcoded {
        "AAC (Transcoded)"@
    } else {
        match a.codec_id {
            CodecId::AAC => "AAC"@,
            CodecId::AC3 => "Dolby Digital"@,
            CodecId::EAC3 => "Dolby Digital Plus"@,
            CodecId::MP3 => "MP3"@,
            CodecId::OPUS => "Opus"@,
            _ => "Audio"@,
        }
    }
}

/// A track's display name: the label alone for an undetermined language,
/// else the upper-cased language, a space and the label.
pub open spec fn track_name(lang: Seq<char>, label: Seq<char>) -> Seq<char> {
    if lang == "und"@ {
        label
    } else {
        upper_text(lang) + " "@ + label
    }
}

pub open spec fn yes_no(b: bool) -> Seq<char> {
    if b {
        "YES"@
    } else {
        "NO"@
    }
}

pub open spec fn audio_uri(prefix: Seq<char>, a: AudioStreamInfo) -> Seq<char> {
    prefix + "/a/"@ + dec(a.stream_index as nat) + if a.is_transcoded {
        "-aac.m3u8"@
    } else {
        ".m3u8"@
    }
}

pub open spec fn audio_media_line(prefix: Seq<char>, a: AudioStreamInfo, default: bool) -> Seq<char> {
    let lang = lang_of(a.language);
    "#EXT-X-MEDIA:TYPE=AUDIO,GROUP-ID=\""@ + group_name(group_rank(a)) + "\",LANGUAGE=\""@
        + rfc5646(lang) + "\",NAME=\""@ + track_name(lang, audio_label(a)) + "\",DEFAULT="@
        + yes_no(default) + ",AUTOSELECT=YES,URI=\""@ + audio_uri(prefix, a) + "\"\n"@
}

/// Some entry among the first `k` of the listing is in group `g`.
pub open spec fn group_seen(s: Seq<AudioStreamInfo>, order: Seq<usize>, k: nat, g: nat) -> bool
    decreases k,
{
    if k == 0 {
        false
    } else {
        group_seen(s, order, (k - 1) as nat, g) || group_rank(s[order[k - 1] as int]) == g
    }
}

/// The audio `#EXT-X-MEDIA` lines of the first `n` entries of the listing;
/// the first entry of each group is the default one.
pub open spec fn audio_media_lines(prefix: Seq<char>, s: Seq<AudioStreamInfo>, order: Seq<usize>, n: nat) -> Seq<char>
    decreases n,
{
    if n == 0 {
        Seq::empty()
    } else {
        let a = s[order[n - 1] as int];
        audio_media_lines(prefix, s, order, (n - 1) as nat) + audio_media_line(
            prefix,
            a,
            !group_seen(s, order, (n - 1) as nat, group_rank(a)),
        )
    }
}

pub open spec fn subtitle_media_line(prefix: Seq<char>, t: SubtitleStreamInfo, default: bool) -> Seq<char> {
    let lang = lang_of(t.language);
    "#EXT-X-MEDIA:TYPE=SUBTITLES,GROUP-ID=\"subs\",LANGUAGE=\""@ + rfc5646(lang)
        + "\",NAME=\""@ + upper_text(lang) + " Subtitles\",DEFAULT="@ + yes_no(default)
        + ",AUTOSELECT="@ + yes_no(default) + ",FORCED=NO,URI=\""@ + prefix + "/s/"@ + dec(
        t.stream_index as nat,
    ) + ".m3u8\"\n"@
}

/// The subtitle `#EXT-X-MEDIA` lines of the first `n` subtitle tracks; the
/// first track is the default one.
pub open spec fn subtitle_media_lines(prefix: Seq<char>, t: Seq<SubtitleStreamInfo>, n: nat) -> Seq<char>
    decreases n,
{
    if n == 0 {
        Seq::empty()
    } else {
        subtitle_media_lines(prefix, t, (n - 1) as nat) + subtitle_media_line(
            prefix,
            t[n - 1],
            n == 1,
        )
    }
}

// ---------------------------------------------------------------------------
// Video variants
// ---------------------------------------------------------------------------

pub open spec fn hex_digit(d: nat) -> char {
    if d < 10 {
        ((d + 48) as u8) as char
    } else {
        ((d + 87) as u8) as char
    }
}

/// Two lower-case hexadecimal digits of a byte.
pub open spec fn hex2(b: nat) -> Seq<char> {
    seq![hex_digit(b / 16), hex_digit(b % 16)]
}

pub open spec fn byte_or(o: Option<i32>, dflt: nat) -> nat {
    match o {
        Some(v) => if 0 <= v <= 255 {
            v as nat
        } else {
            dflt
        },
        None => dflt,
    }
}

pub open spec fn level_or(o: Option<i32>, dflt: nat) -> nat {
    match o {
        Some(v) => if 0 <= v {
            v as nat
        } else {
            dflt
        },
        None => dflt,
    }
}

/// The RFC 6381 codec string advertised for a video stream: H.264 as
/// `avc1.PPCCLL` (profile, constraint flags 0, level; High profile 4.0 when
/// unknown), HEVC as `hvc1.1.6.L<level>.B0`, VP9 and AV1 with fixed
/// 8-bit strings; other codecs get none.
pub open spec fn video_codec_string(v: VideoStreamInfo) -> Option<Seq<char>> {
    match v.codec_id {
        CodecId::H264 => Some(
            "avc1."@ + hex2(byte_or(v.profile, 100)) + "00"@ + hex2(byte_or(v.level, 40)),
        ),
        CodecId::HEVC => Some("hvc1.1.6.L"@ + dec(level_or(v.level, 120)) + ".B0"@),
        CodecId::VP9 => Some("vp09.00.10.08"@),
        CodecId::AV1 => Some("av01.0.08M.08"@),
        _ => None,
    }
}

/// The groups of the audio streams, each once, in first-seen order.
pub open spec fn distinct_groups(s: Seq<AudioStreamInfo>, n: nat) -> Seq<usize>
    decreases n,
{
    if n == 0 {
        Seq::empty()
    } else {
        let p = distinct_groups(s, (n - 1) as nat);
        let g = group_rank(s[n - 1]) as usize;
        if p.contains(g) {
            p
        } else {
            p.push(g)
        }
    }
}

/// The sum of the audio bitrates (each taken as 32 bits) of the first `n`
/// streams in group `g`.
pub open spec fn group_bitrate_sum(s: Seq<AudioStreamInfo>, g: nat, n: nat) -> nat
    decreases n,
{
    if n == 0 {
        0
    } else {
        group_bitrate_sum(s, g, (n - 1) as nat) + if group_rank(s[n - 1]) == g {
            (s[n - 1].bitrate as u32) as nat
        } else {
            0
        }
    }
}

/// Video bitrate (at least 100 kbit/s) plus audio bitrates, capped at `u64::MAX`.
pub open spec fn bandwidth(video_bitrate: u64, audio: nat) -> nat {
    let v: nat = if video_bitrate < 100000 {
        100000
    } else {
        video_bitrate as nat
    };
    if v + audio > u64::MAX {
        u64::MAX as nat
    } else {
        v + audio
    }
}

pub open spec fn resolution(v: VideoStreamInfo) -> Seq<char> {
    dec(v.width as nat) + "x"@ + dec(v.height as nat)
}

pub open spec fn subtitle_attr(has_subs: bool) -> Seq<char> {
    if has_subs {
        ",SUBTITLES=\"subs\""@
    } else {
        Seq::empty()
    }
}

pub open spec fn opt_comma(o: Option<Seq<char>>) -> Seq<char> {
    match o {
        Some(c) => c + ","@,
        None => Seq::empty(),
    }
}

/// The codec list of the variant of group `g`: video, the group's audio
/// codec, and `wvtt` when there are subtitles.
pub open spec fn group_codecs(v: VideoStreamInfo, g: nat, has_subs: bool) -> Seq<char> {
    opt_comma(video_codec_string(v)) + group_codec(g) + if has_subs {
        ",wvtt"@
    } else {
        Seq::empty()
    }
}

pub open spec fn media_uri_line(prefix: Seq<char>) -> Seq<char> {
    prefix + "/v/media.m3u8\n"@
}

pub open spec fn group_variant(prefix: Seq<char>, v: VideoStreamInfo, s: Seq<AudioStreamInfo>, g: nat, has_subs: bool) -> Seq<char> {
    "#EXT-X-STREAM-INF:BANDWIDTH="@ + dec(bandwidth(v.bitrate, group_bitrate_sum(s, g, s.len())))
        + ",RESOLUTION="@ + resolution(v) + ",AUDIO=\""@ + group_name(g) + "\",CODECS=\""@
        + group_codecs(v, g, has_subs) + "\""@ + subtitle_attr(has_subs) + "\n"@
        + media_uri_line(prefix)
}

pub open spec fn group_variants(prefix: Seq<char>, v: VideoStreamInfo, s: Seq<AudioStreamInfo>, groups: Seq<usize>, has_subs: bool, n: nat) -> Seq<char>
    decreases n,
{
    if n == 0 {
        Seq::empty()
    } else {
        group_variants(prefix, v, s, groups, has_subs, (n - 1) as nat) + group_variant(
            prefix,
            v,
            s,
            groups[n - 1] as nat,
            has_subs,
        )
    }
}

/// The codec attribute of the single variant of a file without audio.
pub open spec fn video_only_codecs(v: VideoStreamInfo, has_subs: bool) -> Seq<char> {
    match video_codec_string(v) {
        Some(c) => ",CODECS=\""@ + c + if has_subs {
            ",wvtt"@
        } else {
            Seq::empty()
        } + "\""@,
        None => if has_subs {
            ",CODECS=\"wvtt\""@
        } else {
            Seq::empty()
        },
    }
}

pub open spec fn video_only_variant(prefix: Seq<char>, v: VideoStreamInfo, has_subs: bool) -> Seq<char> {
    "#EXT-X-STREAM-INF:BANDWIDTH="@ + dec(bandwidth(v.bitrate, 0)) + ",RESOLUTION="@
        + resolution(v) + subtitle_attr(has_subs) + video_only_codecs(v, has_subs) + "\n"@
        + media_uri_line(prefix)
}

pub open spec fn video_section(idx: StreamIndex, prefix: Seq<char>) -> Seq<char> {
    let has_subs = idx.subtitle_streams@.len() > 0;
    let s = idx.audio_streams@;
    "# Video Variants\n"@ + if idx.video_streams@.len() == 0 {
        Seq::empty()
    } else {
        let v = idx.video_streams@[0];
        let groups = distinct_groups(s, s.len());
        if groups.len() == 0 {
            video_only_variant(prefix, v, has_subs)
        } else {
            group_variants(prefix, v, s, groups, has_subs, groups.len())
        }
    }
}

pub open spec fn audio_section(idx: StreamIndex, prefix: Seq<char>) -> Seq<char> {
    let s = idx.audio_streams@;
    if s.len() == 0 {
        Seq::empty()
    } else {
        "# Audio Tracks\n"@ + audio_media_lines(prefix, s, audio_order(s, s.len()), s.len())
            + "\n"@
    }
}

pub open spec fn subtitle_section(idx: StreamIndex, prefix: Seq<char>) -> Seq<char> {
    let t = idx.subtitle_streams@;
    if t.len() == 0 {
        Seq::empty()
    } else {
        "# Subtitle Tracks\n"@ + subtitle_media_lines(prefix, t, t.len()) + "\n"@
    }
}

/// The whole master playlist.
pub open spec fn master_playlist(idx: StreamIndex, prefix: Seq<char>) -> Seq<char> {
    "#EXTM3U\n#EXT-X-VERSION:7\n\n"@ + audio_section(idx, prefix) + subtitle_section(idx, prefix)
        + video_section(idx, prefix)
}

// ---------------------------------------------------------------------------
// Building the text
// ---------------------------------------------------------------------------

fn lang_str(o: &Option<String>) -> (r: &str)
    ensures
        r@ == lang_of(*o),
{
    match o {
        Some(l) => l.as_str(),
        None => "und",
    }
}

/// The two-letter RFC 5646 code of a three-letter language code, where the
/// server knows one; other codes are kept.
pub fn to_rfc5646(lang: &str) -> (r: String)
    ensures
        r@ == rfc5646(lang@),
{
    if str_eq(lang, "eng") {
        String::from_str("en")
    } else if str_eq(lang, "fre") {
        String::from_str("fr")
    } else if str_eq(lang, "ger") {
        String::from_str("de")
    } else if str_eq(lang, "spa") {
        String::from_str("es")
    } else if str_eq(lang, "ita") {
        String::from_str("it")
    } else if str_eq(lang, "jpn") {
        String::from_str("ja")
    } else if str_eq(lang, "kor") {
        String::from_str("ko")
    } else if str_eq(lang, "chi") {
        String::from_str("zh")
    } else if str_eq(lang, "rus") {
        String::from_str("ru")
    } else if str_eq(lang, "por") {
        String::from_str("pt")
    } else {
        String::from_str(lang)
    }
}

fn audio_label_str(a: &AudioStreamInfo) -> (r: &'static str)
    ensures
        r@ == audio_label(*a),
{
    if a.is_transcoded {
        return "AAC (Transcoded)";
    }
    match a.codec_id {
        CodecId::AAC => "AAC",
        CodecId::AC3 => "Dolby Digital",
        CodecId::EAC3 => "Dolby Digital Plus",
        CodecId::MP3 => "MP3",
        CodecId::OPUS => "Opus",
        _ => "Audio",
    }
}

/// A track's display name from its language and codec label.
pub fn make_track_name(lang: &str, label: &str) -> (r: String)
    ensures
        r@ == track_name(lang@, label@),
{
    if str_eq(lang, "und") {
        String::from_str(label)
    } else {
        let mut out = to_upper(lang);
        push_str(&mut out, " ");
        push_str(&mut out, label);
        out
    }
}

fn push_yes_no(out: &mut String, b: bool)
    ensures
        final(out)@ == old(out)@ + yes_no(b),
{
    if b {
        push_str(out, "YES");
    } else {
        push_str(out, "NO");
    }
}

fn push_audio_line(out: &mut String, prefix: &str, a: &AudioStreamInfo, default: bool)
    ensures
        final(out)@ == old(out)@ + audio_media_line(prefix@, *a, default),
{
    let lang = lang_str(&a.language);
    let g = group_of(a);
    let ghost start = out@;
    push_str(out, "#EXT-X-MEDIA:TYPE=AUDIO,GROUP-ID=\"");
    push_str(out, group_name_str(g));
    push_str(out, "\",LANGUAGE=\"");
    let rfc = to_rfc5646(lang);
    push_str(out, rfc.as_str());
    push_str(out, "\",NAME=\"");
    let name = make_track_name(lang, audio_label_str(a));
    push_str(out, name.as_str());
    push_str(out, "\",DEFAULT=");
    push_yes_no(out, default);
    push_str(out, ",AUTOSELECT=YES,URI=\"");
    push_str(out, prefix);
    push_str(out, "/a/");
    push_u64(out, a.stream_index as u64);
    if a.is_transcoded {
        push_str(out, "-aac.m3u8");
    } else {
        push_str(out, ".m3u8");
    }
    push_str(out, "\"\n");
    assert(out@ =~= start + audio_media_line(prefix@, *a, default));
}

fn push_subtitle_line(out: &mut String, prefix: &str, t: &SubtitleStreamInfo, default: bool)
    ensures
        final(out)@ == old(out)@ + subtitle_media_line(prefix@, *t, default),
{
    let lang = lang_str(&t.language);
    let ghost start = out@;
    push_str(out, "#EXT-X-MEDIA:TYPE=SUBTITLES,GROUP-ID=\"subs\",LANGUAGE=\"");
    let rfc = to_rfc5646(lang);
    push_str(out, rfc.as_str());
    push_str(out, "\",NAME=\"");
    let up = to_upper(lang);
    push_str(out, up.as_str());
    push_str(out, " Subtitles\",DEFAULT=");
    push_yes_no(out, default);
    push_str(out, ",AUTOSELECT=");
    push_yes_no(out, default);
    push_str(out, ",FORCED=NO,URI=\"");
    push_str(out, prefix);
    push_str(out, "/s/");
    push_u64(out, t.stream_index as u64);
    push_str(out, ".m3u8\"\n");
    assert(out@ =~= start + subtitle_media_line(prefix@, *t, default));
}

fn push_audio_section(out: &mut String, prefix: &str, idx: &StreamIndex)
    ensures
        final(out)@ == old(out)@ + audio_section(*idx, prefix@),
{
    let s = &idx.audio_streams;
    let n = s.len();
    if n == 0 {
        assert(out@ =~= old(out)@ + audio_section(*idx, prefix@));
        return;
    }
    push_str(out, "# Audio Tracks\n");
    let ghost start = out@;
    let order = sorted_audio_order(s);
    let mut seen: Vec<bool> = vec![false, false, false, false, false];
    let mut k: usize = 0;
    while k < n
        invariant
            n == s@.len(),
            order@ == audio_order(s@, n as nat),
            order@.len() == n,
            forall|j: int| 0 <= j < n ==> (#[trigger] order@[j]) < n,
            k <= n,
            seen@.len() == 5,
            forall|g: int| 0 <= g < 5 ==> (#[trigger] seen@[g]) == group_seen(s@, order@, k as nat, g as nat),
            out@ == start + audio_media_lines(prefix@, s@, order@, k as nat),
        decreases n - k,
    {
        let a = &s[order[k]];
        let g = group_of(a);
        let d = !seen[g];
        push_audio_line(out, prefix, a, d);
        seen.set(g, true);
        assert forall|h: int| 0 <= h < 5 implies (#[trigger] seen@[h]) == group_seen(s@, order@, (k + 1) as nat, h as nat) by {
        }
        k += 1;
    }
    push_str(out, "\n");
}

fn push_subtitle_section(out: &mut String, prefix: &str, idx: &StreamIndex)
    ensures
        final(out)@ == old(out)@ + subtitle_section(*idx, prefix@),
{
    let t = &idx.subtitle_streams;
    let n = t.len();
    if n == 0 {
        assert(out@ =~= old(out)@ + subtitle_section(*idx, prefix@));
        return;
    }
    push_str(out, "# Subtitle Tracks\n");
    let ghost start = out@;
    let mut k: usize = 0;
    while k < n
        invariant
            n == t@.len(),
            k <= n,
            out@ == start + subtitle_media_lines(prefix@, t@, k as nat),
        decreases n - k,
    {
        push_subtitle_line(out, prefix, &t[k], k == 0);
        k += 1;
    }
    push_str(out, "\n");
}

fn push_hex_digit(out: &mut String, d: u8)
    requires
        d < 16,
    ensures
        final(out)@ == old(out)@.push(hex_digit(d as nat)),
{
    let c: u8 = if d < 10 { d + 48 } else { d + 87 };
    string_push(out, c as char);
}

fn push_hex2(out: &mut String, b: u8)
    ensures
        final(out)@ == old(out)@ + hex2(b as nat),
{
    push_hex_digit(out, b / 16);
    push_hex_digit(out, b % 16);
    assert(out@ =~= old(out)@ + hex2(b as nat));
}

fn byte_or_default(o: Option<i32>, dflt: u8) -> (r: u8)
    ensures
        r as nat == byte_or(o, dflt as nat),
{
    match o {
        Some(v) => if 0 <= v && v <= 255 {
            v as u8
        } else {
            dflt
        },
        None => dflt,
    }
}

fn level_or_default(o: Option<i32>, dflt: u64) -> (r: u64)
    ensures
        r as nat == level_or(o, dflt as nat),
{
    match o {
        Some(v) => if 0 <= v {
            v as u64
        } else {
            dflt
        },
        None => dflt,
    }
}

/// The codec string advertised for a video stream, if the server knows one.
pub fn video_codec_str(v: &VideoStreamInfo) -> (r: Option<String>)
    ensures
        match r {
            Some(c) => video_codec_string(*v) == Some(c@),
            None => video_codec_string(*v) is None,
        },
{
    match v.codec_id {
        CodecId::H264 => {
            let mut out = String::from_str("avc1.");
            push_hex2(&mut out, byte_or_default(v.profile, 100));
            push_str(&mut out, "00");
            push_hex2(&mut out, byte_or_default(v.level, 40));
            Some(out)
        },
        CodecId::HEVC => {
            let mut out = String::from_str("hvc1.1.6.L");
            push_u64(&mut out, level_or_default(v.level, 120));
            push_str(&mut out, ".B0");
            Some(out)
        },
        CodecId::VP9 => Some(String::from_str("vp09.00.10.08")),
        CodecId::AV1 => Some(String::from_str("av01.0.08M.08")),
        _ => None,
    }
}

fn distinct_audio_groups(s: &Vec<AudioStreamInfo>) -> (r: Vec<usize>)
    ensures
        r@ == distinct_groups(s@, s@.len()),
        forall|j: int| 0 <= j < r@.len() ==> (#[trigger] r@[j]) < 5,
{
    let n = s.len();
    let mut groups: Vec<usize> = Vec::new();
    let mut seen: Vec<bool> = vec![false, false, false, false, false];
    let mut i: usize = 0;
    while i < n
        invariant
            n == s@.len(),
            i <= n,
            groups@ == distinct_groups(s@, i as nat),
            forall|j: int| 0 <= j < groups@.len() ==> (#[trigger] groups@[j]) < 5,
            seen@.len() == 5,
            forall|g: int| 0 <= g < 5 ==> (#[trigger] seen@[g]) == groups@.contains(g as usize),
        decreases n - i,
    {
        let g = group_of(&s[i]);
        if !seen[g] {
            let ghost old_groups = groups@;
            groups.push(g);
            seen.set(g, true);
            assert forall|h: int| 0 <= h < 5 implies (#[trigger] seen@[h]) == groups@.contains(h as usize) by {
                if h == g {
                    assert(groups@[groups@.len() - 1] == g);
                } else {
                    if groups@.contains(h as usize) {
                        let w = choose|w: int| 0 <= w < groups@.len() && groups@[w] == h as usize;
                        assert(w < old_groups.len());
                        assert(old_groups[w] == h as usize);
                    }
                    if old_groups.contains(h as usize) {
                        let w = choose|w: int| 0 <= w < old_groups.len() && old_groups[w] == h as usize;
                        assert(groups@[w] == h as usize);
                    }
                }
            }
        }
        i += 1;
    }
    groups
}

fn group_bitrate(s: &Vec<AudioStreamInfo>, g: usize) -> (r: u128)
    ensures
        r as nat == group_bitrate_sum(s@, g as nat, s@.len()),
        r as nat <= s@.len() * 4294967296,
{
    let n = s.len();
    let mut acc: u128 = 0;
    let mut i: usize = 0;
    while i < n
        invariant
            n == s@.len(),
            i <= n,
            acc as nat == group_bitrate_sum(s@, g as nat, i as nat),
            acc as nat <= i * 4294967296,
        decreases n - i,
    {
        if group_of(&s[i]) == g {
            let b: u32 = s[i].bitrate as u32;
            acc = acc + b as u128;
        }
        i += 1;
    }
    acc
}

fn bandwidth_of(video_bitrate: u64, audio: u128) -> (r: u64)
    requires
        audio <= 0x1_0000_0000_0000_0000_0000_0000,
    ensures
        r as nat == bandwidth(video_bitrate, audio as nat),
{
    let v: u128 = if video_bitrate < 100000 { 100000 } else { video_bitrate as u128 };
    let t = v + audio;
    if t > u64::MAX as u128 {
        u64::MAX
    } else {
        t as u64
    }
}

fn push_resolution(out: &mut String, v: &VideoStreamInfo)
    ensures
        final(out)@ == old(out)@ + resolution(*v),
{
    push_u64(out, v.width as u64);
    push_str(out, "x");
    push_u64(out, v.height as u64);
    assert(out@ =~= old(out)@ + resolution(*v));
}

fn push_subtitle_attr(out: &mut String, has_subs: bool)
    ensures
        final(out)@ == old(out)@ + subtitle_attr(has_subs),
{
    if has_subs {
        push_str(out, ",SUBTITLES=\"subs\"");
    } else {
        assert(out@ =~= old(out)@ + subtitle_attr(has_subs));
    }
}

fn push_group_codecs(out: &mut String, v: &VideoStreamInfo, g: usize, has_subs: bool)
    ensures
        final(out)@ == old(out)@ + group_codecs(*v, g as nat, has_subs),
{
    match video_codec_str(v) {
        Some(c) => {
            push_str(out, c.as_str());
            push_str(out, ",");
        },
        None => {},
    }
    push_str(out, group_codec_str(g));
    if has_subs {
        push_str(out, ",wvtt");
    }
    assert(out@ =~= old(out)@ + group_codecs(*v, g as nat, has_subs));
}

fn push_group_variant(out: &mut String, prefix: &str, v: &VideoStreamInfo, s: &Vec<AudioStreamInfo>, g: usize, has_subs: bool)
    requires
        g < 5,
    ensures
        final(out)@ == old(out)@ + group_variant(prefix@, *v, s@, g as nat, has_subs),
{
    let ghost start = out@;
    let audio = group_bitrate(s, g);
    let n = s.len();
    assert(n <= 0xFFFF_FFFF_FFFF_FFFF);
    assert(n * 4294967296 <= 0x1_0000_0000_0000_0000_0000_0000);
    let bw = bandwidth_of(v.bitrate, audio);
    push_str(out, "#EXT-X-STREAM-INF:BANDWIDTH=");
    push_u64(out, bw);
    push_str(out, ",RESOLUTION=");
    push_resolution(out, v);
    push_str(out, ",AUDIO=\"");
    push_str(out, group_name_str(g));
    push_str(out, "\",CODECS=\"");
    push_group_codecs(out, v, g, has_subs);
    push_str(out, "\"");
    push_subtitle_attr(out, has_subs);
    push_str(out, "\n");
    push_str(out, prefix);
    push_str(out, "/v/media.m3u8\n");
    assert(out@ =~= start + group_variant(prefix@, *v, s@, g as nat, has_subs));
}

fn push_video_only_codecs(out: &mut String, v: &VideoStreamInfo, has_subs: bool)
    ensures
        final(out)@ == old(out)@ + video_only_codecs(*v, has_subs),
{
    let ghost start = out@;
    match video_codec_str(v) {
        Some(c) => {
            push_str(out, ",CODECS=\"");
            push_str(out, c.as_str());
            if has_subs {
                push_str(out, ",wvtt");
            }
            push_str(out, "\"");
        },
        None => {
            if has_subs {
                push_str(out, ",CODECS=\"wvtt\"");
            }
        },
    }
    assert(out@ =~= start + video_only_codecs(*v, has_subs));
}

fn push_video_only_variant(out: &mut String, prefix: &str, v: &VideoStreamInfo, has_subs: bool)
    ensures
        final(out)@ == old(out)@ + video_only_variant(prefix@, *v, has_subs),
{
    let ghost start = out@;
    let bw = bandwidth_of(v.bitrate, 0);
    push_str(out, "#EXT-X-STREAM-INF:BANDWIDTH=");
    push_u64(out, bw);
    push_str(out, ",RESOLUTION=");
    push_resolution(out, v);
    push_subtitle_attr(out, has_subs);
    push_video_only_codecs(out, v, has_subs);
    push_str(out, "\n");
    push_str(out, prefix);
    push_str(out, "/v/media.m3u8\n");
    assert(out@ =~= start + video_only_variant(prefix@, *v, has_subs));
}

fn push_video_section(out: &mut String, prefix: &str, idx: &StreamIndex)
    ensures
        final(out)@ == old(out)@ + video_section(*idx, prefix@),
{
    let ghost start = out@;
    push_str(out, "# Video Variants\n");
    let ghost head = out@;
    let has_subs = idx.subtitle_streams.len() > 0;
    if idx.video_streams.len() == 0 {
        assert(out@ =~= start + video_section(*idx, prefix@));
        return;
    }
    let v = &idx.video_streams[0];
    let groups = distinct_audio_groups(&idx.audio_streams);
    let m = groups.len();
    if m == 0 {
        push_video_only_variant(out, prefix, v, has_subs);
    } else {
        let mut k: usize = 0;
        while k < m
            invariant
                m == groups@.len(),
                k <= m,
                forall|j: int| 0 <= j < m ==> (#[trigger] groups@[j]) < 5,
                out@ == head + group_variants(prefix@, *v, idx.audio_streams@, groups@, has_subs, k as nat),
            decreases m - k,
        {
            push_group_variant(out, prefix, v, &idx.audio_streams, groups[k], has_subs);
            k += 1;
        }
    }
    assert(out@ =~= start + video_section(*idx, prefix@));
}

/// The master playlist of a file, with `prefix` in front of every URI:
/// the audio renditions sorted by codec group and stream index (the first
/// of each group is the default), every subtitle track of the index (the first is the
/// default), and one video variant per audio codec group in first-seen order
/// (or a single variant without audio).
pub fn generate_master_playlist(index: &StreamIndex, prefix: &str) -> (r: String)
    ensures
        r@ == master_playlist(*index, prefix@),
{
    let mut out = String::new();
    push_str(&mut out, "#EXTM3U\n#EXT-X-VERSION:7\n\n");
    push_audio_section(&mut out, prefix, index);
    push_subtitle_section(&mut out, prefix, index);
    push_video_section(&mut out, prefix, index);
    assert(out@ =~= master_playlist(*index, prefix@));
    out
}

} // verus!

verus! {

// ---------------------------------------------------------------------------
// Laws of the audio listing
// ---------------------------------------------------------------------------

proof fn lemma_insert_pos_split(s: Seq<AudioStreamInfo>, order: Seq<usize>, x: AudioStreamInfo, from: int)
    requires
        0 <= from <= order.len(),
    ensures
        forall|k: int| from <= k < insert_pos(s, order, x, from) ==> !listed_after(#[trigger] s[order[k] as int], x),
        insert_pos(s, order, x, from) < order.len() ==> listed_after(s[order[insert_pos(s, order, x, from)] as int], x),
    decreases order.len() - from,
{
    if from < order.len() && !listed_after(s[order[from] as int], x) {
        lemma_insert_pos_split(s, order, x, from + 1);
    }
}

/// The listing holds the positions of `s[0..n]`, each once, and no entry is
/// listed after one that follows it.
pub open spec fn sorted_listing(s: Seq<AudioStreamInfo>, o: Seq<usize>, n: nat) -> bool {
    &&& o.len() == n
    &&& forall|k: int| 0 <= k < n ==> (#[trigger] o[k]) < n
    &&& forall|i: int, j: int| 0 <= i < j < n ==> o[i] != o[j]
    &&& forall|i: int, j: int| 0 <= i < j < n ==> !listed_after(#[trigger] s[o[i] as int], #[trigger] s[o[j] as int])
}

proof fn lemma_audio_order_sorted(s: Seq<AudioStreamInfo>, n: nat)
    requires
        n <= s.len(),
        n <= usize::MAX,
    ensures
        sorted_listing(s, audio_order(s, n), n),
    decreases n,
{
    if n > 0 {
        let m = (n - 1) as nat;
        let prev = audio_order(s, m);
        let x = s[m as int];
        lemma_audio_order_sorted(s, m);
        lemma_insert_pos_bounds(s, prev, x, 0);
        lemma_insert_pos_split(s, prev, x, 0);
        let p = insert_pos(s, prev, x, 0);
        let cur = prev.insert(p, m as usize);
        assert(cur == audio_order(s, n));
        assert(cur[p] == m);
        assert forall|k: int| 0 <= k < n implies (#[trigger] cur[k]) < n by {
            if k < p {
                assert(cur[k] == prev[k]);
            } else if k > p {
                assert(cur[k] == prev[k - 1]);
            }
        }
        assert forall|i: int, j: int| 0 <= i < j < n implies cur[i] != cur[j] by {
            if j < p {
                assert(cur[i] == prev[i] && cur[j] == prev[j]);
            } else if j == p {
                assert(cur[i] == prev[i]);
                assert(prev[i] < m);
            } else if i < p {
                assert(cur[i] == prev[i] && cur[j] == prev[j - 1]);
            } else if i == p {
                assert(cur[j] == prev[j - 1]);
                assert(prev[j - 1] < m);
            } else {
                assert(cur[i] == prev[i - 1] && cur[j] == prev[j - 1]);
            }
        }
        assert forall|i: int, j: int| 0 <= i < j < n implies !listed_after(
            #[trigger] s[cur[i] as int],
            #[trigger] s[cur[j] as int],
        ) by {
            if j < p {
                assert(cur[i] == prev[i] && cur[j] == prev[j]);
                assert(!listed_after(s[prev[i] as int], s[prev[j] as int]));
            } else if j == p {
                assert(cur[i] == prev[i]);
                assert(!listed_after(s[prev[i] as int], x));
            } else if i < p {
                assert(cur[i] == prev[i] && cur[j] == prev[j - 1]);
                if i < j - 1 {
                    assert(!listed_after(s[prev[i] as int], s[prev[j - 1] as int]));
                }
            } else if i == p {
                assert(cur[j] == prev[j - 1]);
                assert(listed_after(s[prev[p] as int], x));
                if p < j - 1 {
                    assert(!listed_after(s[prev[p] as int], s[prev[j - 1] as int]));
                }
            } else {
                assert(cur[i] == prev[i - 1] && cur[j] == prev[j - 1]);
                assert(!listed_after(s[prev[i - 1] as int], s[prev[j - 1] as int]));
            }
        }
    }
}

/// The audio renditions of the master playlist are listed each exactly once,
/// ordered by codec group and, within a group, by stream index.
pub proof fn law_audio_listing_sorted(s: Seq<AudioStreamInfo>)
    requires
        s.len() <= usize::MAX,
    ensures
        sorted_listing(s, audio_order(s, s.len()), s.len()),
{
    lemma_audio_order_sorted(s, s.len());
}


/// The entry at position `k` of the listing is marked as its group's default.
pub open spec fn listed_default(s: Seq<AudioStreamInfo>, o: Seq<usize>, k: int) -> bool {
    !group_seen(s, o, k as nat, group_rank(s[o[k] as int]))
}

proof fn lemma_group_seen(s: Seq<AudioStreamInfo>, o: Seq<usize>, k: nat, g: nat)
    ensures
        group_seen(s, o, k, g) <==> exists|j: int| 0 <= j < k && group_rank(#[trigger] s[o[j] as int]) == g,
    decreases k,
{
    if k > 0 {
        lemma_group_seen(s, o, (k - 1) as nat, g);
        if group_rank(s[o[k - 1] as int]) == g {
            assert(group_rank(s[o[k - 1] as int]) == g);
        }
    }
}

/// Some entry at or before position `k` of the listing is the default of the
/// group of entry `k`.
pub open spec fn default_at_or_before(s: Seq<AudioStreamInfo>, o: Seq<usize>, k: int) -> bool {
    exists|j: int|
        0 <= j <= k && listed_default(s, o, j) && group_rank(#[trigger] s[o[j] as int]) == group_rank(
            s[o[k] as int],
        )
}

proof fn lemma_default_reaches(s: Seq<AudioStreamInfo>, o: Seq<usize>, k: int)
    requires
        0 <= k,
    ensures
        default_at_or_before(s, o, k),
    decreases k,
{
    let g = group_rank(s[o[k] as int]);
    if listed_default(s, o, k) {
        assert(group_rank(s[o[k] as int]) == g);
    } else {
        lemma_group_seen(s, o, k as nat, g);
        let j = choose|j: int| 0 <= j < k && group_rank(#[trigger] s[o[j] as int]) == g;
        lemma_default_reaches(s, o, j);
        let j2 = choose|j2: int|
            0 <= j2 <= j && listed_default(s, o, j2) && group_rank(#[trigger] s[o[j2] as int])
                == group_rank(s[o[j] as int]);
        assert(group_rank(s[o[j2] as int]) == g);
    }
}

/// Each codec group of the listing `o` has exactly one default entry: an
/// entry is the default only if no earlier entry is in its group, and every
/// entry has such a default at or before it.
pub open spec fn one_default_per_group(s: Seq<AudioStreamInfo>, o: Seq<usize>, n: nat) -> bool {
    &&& forall|i: int, j: int|
        0 <= i < j < n && group_rank(#[trigger] s[o[i] as int]) == group_rank(#[trigger] s[o[j] as int])
            ==> !listed_default(s, o, j)
    &&& forall|k: int| 0 <= k < n ==> #[trigger] default_at_or_before(s, o, k)
}

/// In the audio listing of the master playlist each codec group has exactly
/// one default rendition, the first entry of the group.
pub proof fn law_one_default_per_group(s: Seq<AudioStreamInfo>)
    ensures
        one_default_per_group(s, audio_order(s, s.len()), s.len()),
{
    let o = audio_order(s, s.len());
    assert forall|i: int, j: int|
        0 <= i < j < s.len() && group_rank(#[trigger] s[o[i] as int]) == group_rank(#[trigger] s[o[j] as int])
            implies !listed_default(s, o, j) by {
        lemma_group_seen(s, o, j as nat, group_rank(s[o[j] as int]));
        assert(group_rank(s[o[i] as int]) == group_rank(s[o[j] as int]));
    }
    assert forall|k: int| 0 <= k < s.len() implies #[trigger] default_at_or_before(s, o, k) by {
        lemma_default_reaches(s, o, k);
    }
}

/// The groups `d` hold each group of `s[0..n]` exactly once and no other.
pub open spec fn groups_of(s: Seq<AudioStreamInfo>, d: Seq<usize>, n: nat) -> bool {
    &&& forall|i: int, j: int| 0 <= i < j < d.len() ==> d[i] != d[j]
    &&& forall|k: int| 0 <= k < n ==> d.contains(#[trigger] group_rank(s[k]) as usize)
    &&& forall|i: int| #![trigger d[i]] 0 <= i < d.len() ==> exists|k: int| 0 <= k < n && #[trigger] group_rank(s[k]) == d[i]
}

proof fn lemma_distinct_groups(s: Seq<AudioStreamInfo>, n: nat)
    requires
        n <= s.len(),
    ensures
        groups_of(s, distinct_groups(s, n), n),
    decreases n,
{
    if n > 0 {
        let m = (n - 1) as nat;
        let p = distinct_groups(s, m);
        lemma_distinct_groups(s, m);
        let g = group_rank(s[m as int]) as usize;
        let d = distinct_groups(s, n);
        assert forall|k: int| 0 <= k < n implies d.contains(#[trigger] group_rank(s[k]) as usize) by {
            if k < m {
                assert(p.contains(group_rank(s[k]) as usize));
                let w = choose|w: int| 0 <= w < p.len() && p[w] == group_rank(s[k]) as usize;
                if !p.contains(g) {
                    assert(d[w] == p[w]);
                }
            } else if !p.contains(g) {
                assert(d[p.len() as int] == g);
            }
        }
        assert forall|i: int| #![trigger d[i]] 0 <= i < d.len() implies exists|k: int|
            0 <= k < n && #[trigger] group_rank(s[k]) == d[i] by {
            if i < p.len() {
                let k = choose|k: int| 0 <= k < m && #[trigger] group_rank(s[k]) == p[i];
                assert(group_rank(s[k]) == d[i]);
            } else {
                assert(group_rank(s[m as int]) == d[i]);
            }
        }
    }
}

/// The master playlist has one video variant per audio codec group: the
/// groups it lists are distinct, and they are exactly the groups of the
/// audio streams.
pub proof fn law_one_variant_per_group(s: Seq<AudioStreamInfo>)
    ensures
        groups_of(s, distinct_groups(s, s.len()), s.len()),
{
    lemma_distinct_groups(s, s.len());
}

} // verus!
