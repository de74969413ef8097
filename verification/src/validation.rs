//! Checks of generated playlists, subtitle files and fMP4 segments.

use vstd::prelude::*;
use crate::text::{contains, starts_with, ends_with, lit_at, push_str, push_u64, dec, dec_value, is_digit, chars_of,
    string_from_chars, views_of, parse_digits};
use crate::subtitle::{trimmed, trim_string};

verus! {

/// What a check found.
#[derive(Debug)]
pub struct ValidationResult {
    pub is_valid: bool,
    pub errors: Vec<String>,
    pub warnings: Vec<String>,
}

/// Kinds of playlist.
#[derive(Clone, Copy, Debug, PartialEq, Eq, Structural)]
pub enum PlaylistType {
    Master,
    Video,
    Audio,
    Subtitle,
}

impl ValidationResult {
    /// Nothing found.
    pub fn success() -> (r: ValidationResult)
        ensures
            r.is_valid,
            r.errors@.len() == 0,
            r.warnings@.len() == 0,
    {
        ValidationResult { is_valid: true, errors: Vec::new(), warnings: Vec::new() }
    }

    /// One error.
    pub fn fail(error: String) -> (r: ValidationResult)
        ensures
            !r.is_valid,
            r.errors@ == seq![error],
            r.warnings@.len() == 0,
    {
        ValidationResult { is_valid: false, errors: vec![error], warnings: Vec::new() }
    }
}

// ---------------------------------------------------------------------------
// Text helpers
// ---------------------------------------------------------------------------

/// Whether `pat` occurs in `s`.
pub fn str_contains(s: &str, pat: &str) -> (r: bool)
    ensures
        r == contains(s@, pat@),
{
    let v = chars_of(s);
    let p = chars_of(pat);
    let n = v.len();
    let m = p.len();
    if m > n {
        proof {
            if contains(s@, pat@) {
                let w = choose|w: int| 0 <= w <= s@.len() - pat@.len() && #[trigger] lit_at(s@, w, pat@);
            }
        }
        return false;
    }
    let mut i: usize = 0;
    while i <= n - m
        invariant
            v@ == s@,
            p@ == pat@,
            n == v@.len(),
            m == p@.len(),
            m <= n,
            i <= n - m + 1,
            forall|j: int| 0 <= j < i ==> !#[trigger] lit_at(s@, j, pat@),
        decreases n - m + 1 - i,
    {
        let mut k: usize = 0;
        let mut ok = true;
        while k < m
            invariant
                v@ == s@,
                p@ == pat@,
                n == v@.len(),
                m == p@.len(),
                i + m <= n,
                k <= m,
                ok == forall|j: int| 0 <= j < k ==> v@[i + j] == p@[j],
            decreases m - k,
        {
            if v[i + k] != p[k] {
                ok = false;
            }
            k += 1;
        }
        if ok {
            assert(s@.subrange(i as int, i + m) =~= pat@);
            assert(lit_at(s@, i as int, pat@));
            return true;
        }
        assert(!lit_at(s@, i as int, pat@)) by {
            if lit_at(s@, i as int, pat@) {
                assert forall|j: int| 0 <= j < m implies v@[i + j] == p@[j] by {
                    assert(s@.subrange(i as int, i + m)[j] == pat@[j]);
                }
            }
        }
        if i == n - m {
            proof {
                if contains(s@, pat@) {
                    let w = choose|w: int| 0 <= w <= s@.len() - pat@.len() && #[trigger] lit_at(s@, w, pat@);
                    assert(w <= i);
                }
            }
            return false;
        }
        i += 1;
    }
    proof {
        if contains(s@, pat@) {
            let w = choose|w: int| 0 <= w <= s@.len() - pat@.len() && #[trigger] lit_at(s@, w, pat@);
        }
    }
    false
}

/// Whether `s` starts with `prefix`.
pub fn str_starts_with(s: &str, prefix: &str) -> (r: bool)
    ensures
        r == starts_with(s@, prefix@),
{
    let n = s.unicode_len();
    let m = prefix.unicode_len();
    if m > n {
        return false;
    }
    let mut k: usize = 0;
    while k < m
        invariant
            n == s@.len(),
            m == prefix@.len(),
            m <= n,
            k <= m,
            forall|j: int| 0 <= j < k ==> s@[j] == prefix@[j],
        decreases m - k,
    {
        if s.get_char(k) != prefix.get_char(k) {
            return false;
        }
        k += 1;
    }
    assert(s@.subrange(0, m as int) =~= prefix@);
    true
}

/// The pieces of `s` between occurrences of `c`.
pub open spec fn split_char(s: Seq<char>, c: char) -> Seq<Seq<char>>
    decreases s.len(),
{
    if s.len() == 0 {
        seq![Seq::empty()]
    } else {
        let r = split_char(s.drop_last(), c);
        if s.last() == c {
            r.push(Seq::empty())
        } else {
            r.update(r.len() - 1, r.last().push(s.last()))
        }
    }
}

pub proof fn lemma_split_char_nonempty(s: Seq<char>, c: char)
    ensures
        split_char(s, c).len() >= 1,
    decreases s.len(),
{
    if s.len() > 0 {
        lemma_split_char_nonempty(s.drop_last(), c);
    }
}

/// The pieces of `s` between occurrences of `c`.
pub fn split_pieces(s: &str, c: char) -> (r: Vec<Vec<char>>)
    ensures
        r@.len() == split_char(s@, c).len(),
        forall|k: int| 0 <= k < r@.len() ==> (#[trigger] r@[k])@ == split_char(s@, c)[k],
{
    let v = chars_of(s);
    let n = v.len();
    let mut pieces: Vec<Vec<char>> = Vec::new();
    let mut cur: Vec<char> = Vec::new();
    let mut i: usize = 0;
    assert(s@.subrange(0, 0) =~= Seq::<char>::empty());
    while i < n
        invariant
            v@ == s@,
            n == v@.len(),
            i <= n,
            pieces@.len() + 1 == split_char(s@.subrange(0, i as int), c).len(),
            forall|k: int| 0 <= k < pieces@.len() ==> (#[trigger] pieces@[k])@ == split_char(s@.subrange(0, i as int), c)[k],
            cur@ == split_char(s@.subrange(0, i as int), c).last(),
        decreases n - i,
    {
        proof {
            lemma_split_char_nonempty(s@.subrange(0, i as int), c);
            assert(s@.subrange(0, i + 1).drop_last() =~= s@.subrange(0, i as int));
        }
        let x = v[i];
        if x == c {
            pieces.push(cur);
            cur = Vec::new();
        } else {
            cur.push(x);
        }
        i += 1;
    }
    proof {
        assert(s@.subrange(0, n as int) =~= s@);
        lemma_split_char_nonempty(s@, c);
    }
    pieces.push(cur);
    pieces
}

pub open spec fn strip_cr(l: Seq<char>) -> Seq<char> {
    if l.len() > 0 && l.last() == '\r' {
        l.drop_last()
    } else {
        l
    }
}

/// The lines of a text, as `str::lines` gives them: split at `\n`, a `\r`
/// before the `\n` dropped, and no empty line after a final `\n`.
pub open spec fn lines_of(s: Seq<char>) -> Seq<Seq<char>> {
    let p = split_char(s, '\n');
    let body = Seq::new((p.len() - 1) as nat, |k: int| strip_cr(p[k]));
    if p.last().len() > 0 {
        body.push(p.last())
    } else {
        body
    }
}

/// The lines of a text.
pub fn text_lines(s: &str) -> (r: Vec<String>)
    ensures
        views_of(r@) == lines_of(s@),
{
    let mut pieces = split_pieces(s, '\n');
    proof {
        lemma_split_char_nonempty(s@, '\n');
    }
    let ghost all = pieces@;
    let cur = pieces.pop().unwrap();
    assert(pieces@ == all.drop_last());
    assert(cur@ == split_char(s@, '\n').last());
    let ghost p = split_char(s@, '\n');
    let m = pieces.len();
    let mut out: Vec<String> = Vec::new();
    let mut k: usize = 0;
    while k < m
        invariant
            m == pieces@.len(),
            m + 1 == p.len(),
            p == split_char(s@, '\n'),
            forall|j: int| 0 <= j < m ==> (#[trigger] pieces@[j])@ == p[j],
            k <= m,
            out@.len() == k,
            forall|j: int| 0 <= j < k ==> (#[trigger] out@[j])@ == strip_cr(p[j]),
        decreases m - k,
    {
        let len = pieces[k].len();
        let end = if len > 0 && pieces[k][len - 1] == '\r' { len - 1 } else { len };
        let line = string_from_chars(&pieces[k], 0, end);
        proof {
            if len > 0 && pieces@[k as int]@[len - 1] == '\r' {
                assert(pieces@[k as int]@.subrange(0, end as int) =~= pieces@[k as int]@.drop_last());
            } else {
                assert(pieces@[k as int]@.subrange(0, end as int) =~= pieces@[k as int]@);
            }
        }
        out.push(line);
        k += 1;
    }
    if cur.len() > 0 {
        let last = string_from_chars(&cur, 0, cur.len());
        assert(cur@.subrange(0, cur@.len() as int) =~= cur@);
        out.push(last);
    }
    assert(views_of(out@) =~= lines_of(s@));
    out
}

// ---------------------------------------------------------------------------
// Master playlists
// ---------------------------------------------------------------------------

/// The text after `pat` is removed from the front of `s` as often as it occurs there.
pub open spec fn strip_prefix_all(s: Seq<char>, pat: Seq<char>) -> Seq<char>
    decreases s.len(),
{
    if pat.len() > 0 && starts_with(s, pat) {
        strip_prefix_all(s.subrange(pat.len() as int, s.len() as int), pat)
    } else {
        s
    }
}

pub open spec fn audio_entry_errors(l: Seq<char>) -> Seq<Seq<char>> {
    if starts_with(l, "#EXT-X-MEDIA:TYPE=AUDIO"@) {
        (if !contains(l, "GROUP-ID="@) { seq!["AUDIO entry missing GROUP-ID"@] } else { Seq::empty() })
        + (if !contains(l, "LANGUAGE="@) { seq!["AUDIO entry missing LANGUAGE"@] } else { Seq::empty() })
        + (if !contains(l, "NAME="@) { seq!["AUDIO entry missing NAME"@] } else { Seq::empty() })
        + (if !contains(l, "URI="@) { seq!["AUDIO entry missing URI"@] } else { Seq::empty() })
    } else {
        Seq::empty()
    }
}

pub open spec fn subtitle_entry_errors(l: Seq<char>) -> Seq<Seq<char>> {
    if starts_with(l, "#EXT-X-MEDIA:TYPE=SUBTITLES"@) {
        (if !contains(l, "GROUP-ID="@) { seq!["SUBTITLES entry missing GROUP-ID"@] } else { Seq::empty() })
        + (if !contains(l, "URI="@) { seq!["SUBTITLES entry missing URI"@] } else { Seq::empty() })
    } else {
        Seq::empty()
    }
}

pub open spec fn stream_inf_errors(l: Seq<char>) -> Seq<Seq<char>> {
    if starts_with(l, "#EXT-X-STREAM-INF"@) {
        (if !contains(l, "BANDWIDTH="@) { seq!["STREAM-INF missing BANDWIDTH"@] } else { Seq::empty() })
        + (if !contains(l, "RESOLUTION="@) { seq!["STREAM-INF missing RESOLUTION"@] } else { Seq::empty() })
    } else {
        Seq::empty()
    }
}

pub open spec fn media_errors(ls: Seq<Seq<char>>, n: nat) -> Seq<Seq<char>>
    decreases n,
{
    if n == 0 {
        Seq::empty()
    } else {
        media_errors(ls, (n - 1) as nat) + audio_entry_errors(ls[n - 1]) + subtitle_entry_errors(ls[n - 1])
    }
}

pub open spec fn variant_errors(ls: Seq<Seq<char>>, n: nat) -> Seq<Seq<char>>
    decreases n,
{
    if n == 0 {
        Seq::empty()
    } else {
        variant_errors(ls, (n - 1) as nat) + stream_inf_errors(ls[n - 1])
    }
}

pub open spec fn master_errors(s: Seq<char>) -> Seq<Seq<char>> {
    let ls = lines_of(s);
    (if !contains(s, "#EXTM3U"@) { seq!["Missing #EXTM3U header"@] } else { Seq::empty() })
    + (if !contains(s, "#EXT-X-VERSION"@) { seq!["Missing #EXT-X-VERSION tag"@] } else { Seq::empty() })
    + (if !contains(s, "#EXT-X-STREAM-INF"@) { seq!["No video stream variants found"@] } else { Seq::empty() })
    + media_errors(ls, ls.len()) + variant_errors(ls, ls.len())
}

/// What `u32::from_str` gives: an optional `+`, then ASCII digits whose value fits.
pub open spec fn parse_u32(s: Seq<char>) -> Option<u32> {
    let d = crate::query::unsigned_digits(s);
    if d.len() == 0 || !crate::query::all_digits(d) {
        None
    } else if dec_value(d) > u32::MAX {
        None
    } else {
        Some(dec_value(d) as u32)
    }
}

/// The first line that mentions `#EXT-X-VERSION`, from position `from` on.
pub open spec fn first_version_line(ls: Seq<Seq<char>>, from: int) -> Option<int>
    decreases ls.len() - from,
{
    if from < 0 || from >= ls.len() {
        None
    } else if contains(ls[from], "#EXT-X-VERSION"@) {
        Some(from)
    } else {
        first_version_line(ls, from + 1)
    }
}

/// The warning about an HLS version below 7 (which may not support fMP4),
/// read from the first version line: the text between its first and
/// second `:`, trimmed.
pub open spec fn master_warnings(s: Seq<char>) -> Seq<Seq<char>> {
    let ls = lines_of(s);
    if !contains(s, "#EXT-X-VERSION"@) {
        Seq::empty()
    } else {
        match first_version_line(ls, 0) {
            None => Seq::empty(),
            Some(k) => {
                let parts = split_char(ls[k], ':');
                if parts.len() < 2 {
                    Seq::empty()
                } else {
                    match parse_u32(trimmed(parts[1])) {
                        Some(v) => if v < 7 {
                            seq!["HLS version "@ + dec(v as nat) + " may not support fMP4"@]
                        } else {
                            Seq::empty()
                        },
                        None => Seq::empty(),
                    }
                }
            },
        }
    }
}

fn push_if(out: &mut Vec<String>, cond: bool, msg: &str)
    ensures
        views_of(final(out)@) == views_of(old(out)@) + if cond { seq![msg@] } else { Seq::<Seq<char>>::empty() },
{
    if cond {
        out.push(String::from_str(msg));
        assert(views_of(out@) =~= views_of(old(out)@) + seq![msg@]);
    } else {
        assert(views_of(out@) =~= views_of(old(out)@) + Seq::<Seq<char>>::empty());
    }
}

fn parse_u32_str(s: &str) -> (r: Option<u32>)
    ensures
        r == parse_u32(s@),
{
    let v = chars_of(s);
    let n = v.len();
    let start: usize = if n > 0 && v[0] == '+' { 1 } else { 0 };
    let ghost d = crate::query::unsigned_digits(s@);
    assert(d =~= s@.subrange(start as int, n as int));
    if start == n {
        return None;
    }
    let mut k = start;
    while k < n
        invariant
            v@ == s@,
            n == v@.len(),
            start <= k <= n,
            d == s@.subrange(start as int, n as int),
            d == crate::query::unsigned_digits(s@),
            d.len() > 0,
            forall|j: int| start <= j < k ==> is_digit(#[trigger] v@[j]),
        decreases n - k,
    {
        if !(v[k] >= '0' && v[k] <= '9') {
            assert(!is_digit(d[k - start]));
            assert(!crate::query::all_digits(d));
            return None;
        }
        k += 1;
    }
    assert forall|i: int| 0 <= i < d.len() implies is_digit(#[trigger] d[i]) by {
        assert(d[i] == v@[start + i]);
    }
    match parse_digits(&v, start, n) {
        Some(x) => if x <= 0xFFFF_FFFF {
            Some(x as u32)
        } else {
            None
        },
        None => None,
    }
}

fn version_warnings(content: &str, lines: &Vec<String>) -> (r: Vec<String>)
    requires
        views_of(lines@) == lines_of(content@),
    ensures
        views_of(r@) == master_warnings(content@),
{
    let mut out: Vec<String> = Vec::new();
    if !str_contains(content, "#EXT-X-VERSION") {
        assert(views_of(out@) =~= master_warnings(content@));
        return out;
    }
    let n = lines.len();
    let mut k: usize = 0;
    while k < n && !str_contains(lines[k].as_str(), "#EXT-X-VERSION")
        invariant
            n == lines@.len(),
            views_of(lines@) == lines_of(content@),
            k <= n,
            first_version_line(lines_of(content@), 0) == first_version_line(lines_of(content@), k as int),
        decreases n - k,
    {
        assert(views_of(lines@)[k as int] == lines@[k as int]@);
        k += 1;
    }
    if k == n {
        assert(views_of(out@) =~= master_warnings(content@));
        return out;
    }
    assert(views_of(lines@)[k as int] == lines@[k as int]@);
    let parts = split_pieces(lines[k].as_str(), ':');
    if parts.len() < 2 {
        assert(views_of(out@) =~= master_warnings(content@));
        return out;
    }
    let piece = string_from_chars(&parts[1], 0, parts[1].len());
    assert(parts@[1]@.subrange(0, parts@[1]@.len() as int) =~= parts@[1]@);
    let t = trim_string(piece.as_str());
    match parse_u32_str(t.as_str()) {
        Some(v) => {
            if v < 7 {
                let mut msg = String::from_str("HLS version ");
                push_u64(&mut msg, v as u64);
                push_str(&mut msg, " may not support fMP4");
                out.push(msg);
            }
        },
        None => {},
    }
    assert(views_of(out@) =~= master_warnings(content@));
    out
}

fn push_media_line_errors(out: &mut Vec<String>, l: &str)
    ensures
        views_of(final(out)@) == views_of(old(out)@) + audio_entry_errors(l@) + subtitle_entry_errors(l@),
{
    let ghost before = views_of(out@);
    let a = str_starts_with(l, "#EXT-X-MEDIA:TYPE=AUDIO");
    push_if(out, a && !str_contains(l, "GROUP-ID="), "AUDIO entry missing GROUP-ID");
    push_if(out, a && !str_contains(l, "LANGUAGE="), "AUDIO entry missing LANGUAGE");
    push_if(out, a && !str_contains(l, "NAME="), "AUDIO entry missing NAME");
    push_if(out, a && !str_contains(l, "URI="), "AUDIO entry missing URI");
    let ghost mid = views_of(out@);
    assert(mid =~= before + audio_entry_errors(l@));
    let t = str_starts_with(l, "#EXT-X-MEDIA:TYPE=SUBTITLES");
    push_if(out, t && !str_contains(l, "GROUP-ID="), "SUBTITLES entry missing GROUP-ID");
    push_if(out, t && !str_contains(l, "URI="), "SUBTITLES entry missing URI");
    assert(views_of(out@) =~= mid + subtitle_entry_errors(l@));
}

fn push_variant_line_errors(out: &mut Vec<String>, l: &str)
    ensures
        views_of(final(out)@) == views_of(old(out)@) + stream_inf_errors(l@),
{
    let ghost before = views_of(out@);
    let v = str_starts_with(l, "#EXT-X-STREAM-INF");
    push_if(out, v && !str_contains(l, "BANDWIDTH="), "STREAM-INF missing BANDWIDTH");
    push_if(out, v && !str_contains(l, "RESOLUTION="), "STREAM-INF missing RESOLUTION");
    assert(views_of(out@) =~= before + stream_inf_errors(l@));
}

fn push_media_errors(lines: &Vec<String>, out: &mut Vec<String>)
    ensures
        views_of(final(out)@) == views_of(old(out)@) + media_errors(views_of(lines@), lines@.len()),
{
    let n = lines.len();
    let mut k: usize = 0;
    while k < n
        invariant
            n == lines@.len(),
            k <= n,
            views_of(out@) == views_of(old(out)@) + media_errors(views_of(lines@), k as nat),
        decreases n - k,
    {
        assert(views_of(lines@)[k as int] == lines@[k as int]@);
        push_media_line_errors(out, lines[k].as_str());
        assert(views_of(out@) =~= views_of(old(out)@) + media_errors(views_of(lines@), (k + 1) as nat));
        k += 1;
    }
}

fn push_variant_errors(lines: &Vec<String>, out: &mut Vec<String>)
    ensures
        views_of(final(out)@) == views_of(old(out)@) + variant_errors(views_of(lines@), lines@.len()),
{
    let n = lines.len();
    let mut k: usize = 0;
    while k < n
        invariant
            n == lines@.len(),
            k <= n,
            views_of(out@) == views_of(old(out)@) + variant_errors(views_of(lines@), k as nat),
        decreases n - k,
    {
        assert(views_of(lines@)[k as int] == lines@[k as int]@);
        push_variant_line_errors(out, lines[k].as_str());
        assert(views_of(out@) =~= views_of(old(out)@) + variant_errors(views_of(lines@), (k + 1) as nat));
        k += 1;
    }
}

/// Checks a master playlist: the header and version tags, at least one
/// variant, the attributes each audio, subtitle and variant entry needs,
/// and (as a warning) a version below 7.
pub fn validate_master_playlist(content: &str) -> (r: ValidationResult)
    ensures
        views_of(r.errors@) == master_errors(content@),
        views_of(r.warnings@) == master_warnings(content@),
        r.is_valid == (master_errors(content@).len() == 0),
{
    let mut errors: Vec<String> = Vec::new();
    push_if(&mut errors, !str_contains(content, "#EXTM3U"), "Missing #EXTM3U header");
    push_if(&mut errors, !str_contains(content, "#EXT-X-VERSION"), "Missing #EXT-X-VERSION tag");
    push_if(&mut errors, !str_contains(content, "#EXT-X-STREAM-INF"), "No video stream variants found");
    let lines = text_lines(content);
    push_media_errors(&lines, &mut errors);
    push_variant_errors(&lines, &mut errors);
    let warnings = version_warnings(content, &lines);
    assert(views_of(errors@) =~= master_errors(content@));
    let valid = errors.len() == 0;
    ValidationResult { is_valid: valid, errors, warnings }
}

// ---------------------------------------------------------------------------
// Media playlists
// ---------------------------------------------------------------------------

/// `CODECS` lines whose value (after the tag, removed as often as it
/// repeats) is empty.
pub open spec fn codecs_errors(ls: Seq<Seq<char>>, n: nat) -> Seq<Seq<char>>
    decreases n,
{
    if n == 0 {
        Seq::empty()
    } else {
        codecs_errors(ls, (n - 1) as nat) + if starts_with(ls[n - 1], "#EXT-X-CODECS:"@) && strip_prefix_all(
            ls[n - 1],
            "#EXT-X-CODECS:"@,
        ).len() == 0 {
            seq!["Empty CODECS attribute"@]
        } else {
            Seq::empty()
        }
    }
}

pub open spec fn variant_playlist_errors(s: Seq<char>) -> Seq<Seq<char>> {
    let ls = lines_of(s);
    (if !contains(s, "#EXTM3U"@) { seq!["Missing #EXTM3U header"@] } else { Seq::empty() })
    + (if !contains(s, "#EXT-X-VERSION"@) { seq!["Missing #EXT-X-VERSION tag"@] } else { Seq::empty() })
    + (if !contains(s, "#EXT-X-TARGETDURATION"@) { seq!["Missing #EXT-X-TARGETDURATION tag"@] } else { Seq::empty() })
    + (if !contains(s, "#EXT-X-MEDIA-SEQUENCE"@) { seq!["Missing #EXT-X-MEDIA-SEQUENCE tag"@] } else { Seq::empty() })
    + (if !contains(s, "#EXT-X-ENDLIST"@) { seq!["Missing #EXT-X-ENDLIST tag"@] } else { Seq::empty() })
    + (if !contains(s, "#EXTINF:"@) { seq!["No segment entries found"@] } else { Seq::empty() })
    + (if contains(s, "#EXT-X-CODECS"@) { codecs_errors(ls, ls.len()) } else { Seq::empty() })
}

pub open spec fn variant_playlist_warnings(s: Seq<char>) -> Seq<Seq<char>> {
    if !contains(s, "#EXT-X-PLAYLIST-TYPE:VOD"@) {
        seq!["Missing #EXT-X-PLAYLIST-TYPE:VOD (may be live stream)"@]
    } else {
        Seq::empty()
    }
}

fn strip_prefix_all_len(l: &str, pat: &str) -> (r: usize)
    requires
        pat@.len() > 0,
    ensures
        r == strip_prefix_all(l@, pat@).len(),
{
    let v = chars_of(l);
    let p = chars_of(pat);
    let n = v.len();
    let m = p.len();
    let mut i: usize = 0;
    assert(l@.subrange(0, n as int) =~= l@);
    loop
        invariant
            v@ == l@,
            p@ == pat@,
            n == v@.len(),
            m == p@.len(),
            m > 0,
            i <= n,
            strip_prefix_all(l@, pat@) == strip_prefix_all(l@.subrange(i as int, n as int), pat@),
        decreases n - i,
    {
        let rest_len = n - i;
        if m > rest_len {
            return rest_len;
        }
        let mut k: usize = 0;
        let mut ok = true;
        while k < m
            invariant
                v@ == l@,
                p@ == pat@,
                n == v@.len(),
                m == p@.len(),
                i + m <= n,
                k <= m,
                ok == forall|j: int| 0 <= j < k ==> v@[i + j] == p@[j],
            decreases m - k,
        {
            if v[i + k] != p[k] {
                ok = false;
            }
            k += 1;
        }
        let ghost rest = l@.subrange(i as int, n as int);
        if !ok {
            assert(!starts_with(rest, pat@)) by {
                if starts_with(rest, pat@) {
                    assert forall|j: int| 0 <= j < m implies v@[i + j] == p@[j] by {
                        assert(rest.subrange(0, m as int)[j] == pat@[j]);
                    }
                }
            }
            return rest_len;
        }
        assert(rest.subrange(0, m as int) =~= pat@);
        assert(rest.subrange(m as int, rest.len() as int) =~= l@.subrange(i + m, n as int));
        i += m;
    }
}

fn push_codecs_errors(lines: &Vec<String>, out: &mut Vec<String>)
    ensures
        views_of(final(out)@) == views_of(old(out)@) + codecs_errors(views_of(lines@), lines@.len()),
{
    let n = lines.len();
    let mut k: usize = 0;
    while k < n
        invariant
            n == lines@.len(),
            k <= n,
            views_of(out@) == views_of(old(out)@) + codecs_errors(views_of(lines@), k as nat),
        decreases n - k,
    {
        let l = lines[k].as_str();
        assert(views_of(lines@)[k as int] == l@);
        proof {
            reveal_strlit("#EXT-X-CODECS:");
        }
        let c = str_starts_with(l, "#EXT-X-CODECS:");
        let bad = c && strip_prefix_all_len(l, "#EXT-X-CODECS:") == 0;
        push_if(out, bad, "Empty CODECS attribute");
        assert(views_of(out@) =~= views_of(old(out)@) + codecs_errors(views_of(lines@), (k + 1) as nat));
        k += 1;
    }
}

/// Checks a media playlist: its required tags, at least one segment, no
/// empty codec declaration, and (as a warning) the VOD playlist type.
pub fn validate_variant_playlist(content: &str, playlist_type: PlaylistType) -> (r: ValidationResult)
    ensures
        views_of(r.errors@) == variant_playlist_errors(content@),
        views_of(r.warnings@) == variant_playlist_warnings(content@),
        r.is_valid == (variant_playlist_errors(content@).len() == 0),
{
    let mut errors: Vec<String> = Vec::new();
    let mut warnings: Vec<String> = Vec::new();
    push_if(&mut errors, !str_contains(content, "#EXTM3U"), "Missing #EXTM3U header");
    push_if(&mut errors, !str_contains(content, "#EXT-X-VERSION"), "Missing #EXT-X-VERSION tag");
    push_if(&mut errors, !str_contains(content, "#EXT-X-TARGETDURATION"), "Missing #EXT-X-TARGETDURATION tag");
    push_if(&mut errors, !str_contains(content, "#EXT-X-MEDIA-SEQUENCE"), "Missing #EXT-X-MEDIA-SEQUENCE tag");
    push_if(&mut warnings, !str_contains(content, "#EXT-X-PLAYLIST-TYPE:VOD"),
        "Missing #EXT-X-PLAYLIST-TYPE:VOD (may be live stream)");
    push_if(&mut errors, !str_contains(content, "#EXT-X-ENDLIST"), "Missing #EXT-X-ENDLIST tag");
    push_if(&mut errors, !str_contains(content, "#EXTINF:"), "No segment entries found");
    let ghost before = views_of(errors@);
    if str_contains(content, "#EXT-X-CODECS") {
        let lines = text_lines(content);
        push_codecs_errors(&lines, &mut errors);
    }
    assert(views_of(errors@) =~= variant_playlist_errors(content@));
    assert(views_of(warnings@) =~= variant_playlist_warnings(content@));
    let valid = errors.len() == 0;
    ValidationResult { is_valid: valid, errors, warnings }
}

// ---------------------------------------------------------------------------
// WebVTT
// ---------------------------------------------------------------------------

/// What `regex::Regex::new(pattern)` and then `is_match(text)` give:
/// `None` when the pattern is refused, else whether the pattern matches
/// somewhere in the text.
pub uninterp spec fn regex_match(pattern: Seq<char>, text: Seq<char>) -> Option<bool>;

/// `regex::Regex::new` on `pattern`, then `Regex::is_match` on `text`;
/// `None` when `Regex::new` returns an error.
#[verifier::external_body]
fn regex_is_match(pattern: &str, text: &str) -> (r: Option<bool>)
    ensures
        r == regex_match(pattern@, text@),
{
    match regex::Regex::new(pattern) {
        Ok(re) => Some(re.is_match(text)),
        Err(_) => None,
    }
}

/// The regular expression of a cue timestamp, `hh:mm:ss.mmm` (`\d` being
/// any Unicode decimal digit).
pub open spec fn cue_timestamp_pattern() -> Seq<char> {
    "\\d{2}:\\d{2}:\\d{2}\\.\\d{3}"@
}

fn cue_timestamp_regex() -> (r: &'static str)
    ensures
        r@ == cue_timestamp_pattern(),
{
    "\\d{2}:\\d{2}:\\d{2}\\.\\d{3}"
}

/// Whether a cue line holds a timestamp: the cue timestamp pattern matches
/// in it.
pub open spec fn cue_timestamp_in(l: Seq<char>) -> bool {
    regex_match(cue_timestamp_pattern(), l) == Some(true)
}

fn cue_timestamp_found(line: &str) -> (r: bool)
    ensures
        r == cue_timestamp_in(line@),
{
    match regex_is_match(cue_timestamp_regex(), line) {
        Some(found) => found,
        None => false,
    }
}

pub open spec fn webvtt_line_errors(ls: Seq<Seq<char>>, n: nat, map_checks: bool) -> Seq<Seq<char>>
    decreases n,
{
    if n == 0 {
        Seq::empty()
    } else {
        let l = ls[n - 1];
        webvtt_line_errors(ls, (n - 1) as nat, map_checks) + if map_checks && starts_with(l, "X-TIMESTAMP-MAP"@) {
            (if !contains(l, "LOCAL:"@) { seq!["X-TIMESTAMP-MAP missing LOCAL timestamp"@] } else { Seq::empty() })
            + (if !contains(l, "MPEGTS:"@) { seq!["X-TIMESTAMP-MAP missing MPEGTS timestamp"@] } else { Seq::empty() })
        } else {
            Seq::empty()
        }
    }
}

pub open spec fn cue_errors(ls: Seq<Seq<char>>, n: nat) -> Seq<Seq<char>>
    decreases n,
{
    if n == 0 {
        Seq::empty()
    } else {
        let l = ls[n - 1];
        cue_errors(ls, (n - 1) as nat) + if contains(l, "-->"@) && !cue_timestamp_in(l) {
            seq!["Invalid cue timestamp format: "@ + l]
        } else {
            Seq::empty()
        }
    }
}

pub open spec fn webvtt_errors(s: Seq<char>) -> Seq<Seq<char>> {
    let ls = lines_of(s);
    (if !starts_with(s, "WEBVTT"@) { seq!["Missing WEBVTT header"@] } else { Seq::empty() })
    + webvtt_line_errors(ls, ls.len(), contains(s, "X-TIMESTAMP-MAP"@))
    + cue_errors(ls, ls.len())
}

pub open spec fn webvtt_warnings(s: Seq<char>) -> Seq<Seq<char>> {
    (if !contains(s, "X-TIMESTAMP-MAP"@) { seq!["Missing X-TIMESTAMP-MAP (HLS sync may be affected)"@] } else { Seq::empty() })
    + (if contains(s, "<"@) && !contains(s, "&lt;"@) { seq!["Unescaped '<' character found (should be &lt;)"@] } else { Seq::empty() })
    + (if contains(s, ">"@) && !contains(s, "&gt;"@) && !contains(s, "-->"@) {
        seq!["Unescaped '>' character found (should be &gt;)"@]
    } else {
        Seq::empty()
    })
}

fn push_webvtt_line_errors(lines: &Vec<String>, out: &mut Vec<String>, map_checks: bool)
    ensures
        views_of(final(out)@) == views_of(old(out)@) + webvtt_line_errors(views_of(lines@), lines@.len(), map_checks),
{
    let n = lines.len();
    let mut k: usize = 0;
    while k < n
        invariant
            n == lines@.len(),
            k <= n,
            views_of(out@) == views_of(old(out)@) + webvtt_line_errors(views_of(lines@), k as nat, map_checks),
        decreases n - k,
    {
        let l = lines[k].as_str();
        assert(views_of(lines@)[k as int] == l@);
        let ghost before = views_of(out@);
        let m = map_checks && str_starts_with(l, "X-TIMESTAMP-MAP");
        push_if(out, m && !str_contains(l, "LOCAL:"), "X-TIMESTAMP-MAP missing LOCAL timestamp");
        push_if(out, m && !str_contains(l, "MPEGTS:"), "X-TIMESTAMP-MAP missing MPEGTS timestamp");
        assert(views_of(out@) =~= views_of(old(out)@) + webvtt_line_errors(views_of(lines@), (k + 1) as nat, map_checks));
        k += 1;
    }
}

fn push_cue_errors(lines: &Vec<String>, out: &mut Vec<String>)
    ensures
        views_of(final(out)@) == views_of(old(out)@) + cue_errors(views_of(lines@), lines@.len()),
{
    let n = lines.len();
    let mut k: usize = 0;
    while k < n
        invariant
            n == lines@.len(),
            k <= n,
            views_of(out@) == views_of(old(out)@) + cue_errors(views_of(lines@), k as nat),
        decreases n - k,
    {
        let l = lines[k].as_str();
        assert(views_of(lines@)[k as int] == l@);
        if str_contains(l, "-->") && !cue_timestamp_found(l) {
            let mut msg = String::from_str("Invalid cue timestamp format: ");
            push_str(&mut msg, l);
            let ghost before = views_of(out@);
            out.push(msg);
            assert(views_of(out@) =~= before.push("Invalid cue timestamp format: "@ + l@));
        }
        assert(views_of(out@) =~= views_of(old(out)@) + cue_errors(views_of(lines@), (k + 1) as nat));
        k += 1;
    }
}

/// Checks a WebVTT file: its header, its `X-TIMESTAMP-MAP` line, the
/// timestamps of its cue lines, and (as warnings) a missing timestamp map
/// and unescaped `<` or `>`.
pub fn validate_webvtt(content: &str) -> (r: ValidationResult)
    ensures
        views_of(r.errors@) == webvtt_errors(content@),
        views_of(r.warnings@) == webvtt_warnings(content@),
        r.is_valid == (webvtt_errors(content@).len() == 0),
{
    let mut errors: Vec<String> = Vec::new();
    let mut warnings: Vec<String> = Vec::new();
    push_if(&mut errors, !str_starts_with(content, "WEBVTT"), "Missing WEBVTT header");
    let has_map = str_contains(content, "X-TIMESTAMP-MAP");
    push_if(&mut warnings, !has_map, "Missing X-TIMESTAMP-MAP (HLS sync may be affected)");
    let lines = text_lines(content);
    push_webvtt_line_errors(&lines, &mut errors, has_map);
    push_cue_errors(&lines, &mut errors);
    push_if(&mut warnings, str_contains(content, "<") && !str_contains(content, "&lt;"),
        "Unescaped '<' character found (should be &lt;)");
    push_if(&mut warnings, str_contains(content, ">") && !str_contains(content, "&gt;") && !str_contains(content, "-->"),
        "Unescaped '>' character found (should be &gt;)");
    assert(views_of(errors@) =~= webvtt_errors(content@));
    assert(views_of(warnings@) =~= webvtt_warnings(content@));
    let valid = errors.len() == 0;
    ValidationResult { is_valid: valid, errors, warnings }
}

// ---------------------------------------------------------------------------
// fMP4 segments
// ---------------------------------------------------------------------------

/// The 32-bit big-endian number at `p`.
pub open spec fn be32(d: Seq<u8>, p: int) -> nat {
    d[p] as nat * 16777216 + d[p + 1] as nat * 65536 + d[p + 2] as nat * 256 + d[p + 3] as nat
}

/// Walking the top-level boxes from `pos`: the position of the first box
/// of type `ty`; `None` at the end or at a box whose size is below 8.
pub open spec fn box_at(d: Seq<u8>, ty: Seq<u8>, pos: nat) -> Option<nat>
    decreases d.len() - pos,
{
    if pos + 8 > d.len() {
        None
    } else if be32(d, pos as int) < 8 {
        None
    } else if d.subrange(pos + 4 as int, pos + 8 as int) == ty {
        Some(pos)
    } else if pos + be32(d, pos as int) > d.len() {
        None
    } else {
        box_at(d, ty, pos + be32(d, pos as int))
    }
}

/// The position of the first top-level box of type `box_type`.
pub fn find_box(data: &[u8], box_type: &[u8]) -> (r: Option<usize>)
    ensures
        match r {
            Some(p) => box_at(data@, box_type@, 0) == Some(p as nat),
            None => box_at(data@, box_type@, 0) is None,
        },
{
    let n = data.len();
    let mut pos: usize = 0;
    while pos <= n && n - pos >= 8
        invariant
            n == data@.len(),
            box_at(data@, box_type@, 0) == box_at(data@, box_type@, pos as nat),
        decreases n - pos,
    {
        let size: u64 = data[pos] as u64 * 16777216 + data[pos + 1] as u64 * 65536 + data[pos + 2] as u64 * 256
            + data[pos + 3] as u64;
        if size < 8 {
            return None;
        }
        let m = box_type.len();
        let mut same = m == 4;
        if same {
            let mut k: usize = 0;
            while k < 4
                invariant
                    n == data@.len(),
                    pos + 8 <= n,
                    m == box_type@.len(),
                    m == 4,
                    k <= 4,
                    same == forall|j: int| 0 <= j < k ==> data@[pos + 4 + j] == box_type@[j],
                decreases 4 - k,
            {
                if data[pos + 4 + k] != box_type[k] {
                    same = false;
                }
                k += 1;
            }
        }
        proof {
            if same {
                assert(data@.subrange(pos + 4, pos + 8) =~= box_type@);
            } else if data@.subrange(pos + 4, pos + 8) == box_type@ {
                assert(box_type@.len() == 4);
                assert forall|j: int| 0 <= j < 4 implies data@[pos + 4 + j] == box_type@[j] by {
                    assert(data@.subrange(pos + 4, pos + 8)[j] == box_type@[j]);
                }
            }
        }
        if same {
            return Some(pos);
        }
        if size > (n - pos) as u64 {
            return None;
        }
        pos = pos + size as usize;
    }
    None
}

/// `format!("{:?}", std::str::from_utf8(bytes))`: how the start box type
/// prints in an error, as a function of the bytes.
pub uninterp spec fn box_type_text(b: Seq<u8>) -> Seq<char>;

#[verifier::external_body]
fn box_type_debug(b: &[u8]) -> (r: String)
    ensures
        r@ == box_type_text(b@),
{
    format!("{:?}", std::str::from_utf8(b))
}

pub open spec fn fmp4_known_start(t: Seq<u8>) -> bool {
    t == seq![102u8, 116u8, 121u8, 112u8] || t == seq![109u8, 111u8, 111u8, 118u8] || t == seq![109u8, 111u8,
        111u8, 102u8]
}

pub open spec fn fmp4_errors(d: Seq<u8>) -> Seq<Seq<char>> {
    if d.len() < 8 {
        seq!["Segment too small"@]
    } else {
        (if !fmp4_known_start(d.subrange(4, 8)) {
            seq!["Invalid box type at start: "@ + box_type_text(d.subrange(4, 8))]
        } else {
            Seq::empty()
        }) + (if box_at(d, seq![109u8, 111u8, 111u8, 118u8], 0) is None && box_at(d, seq![109u8, 111u8, 111u8,
            102u8], 0) is None {
            seq!["Missing moov or moof box"@]
        } else {
            Seq::empty()
        })
    }
}

pub open spec fn fmp4_warnings(d: Seq<u8>) -> Seq<Seq<char>> {
    if d.len() >= 8 && box_at(d, seq![102u8, 116u8, 121u8, 112u8], 0) is None {
        seq!["Missing ftyp box"@]
    } else {
        Seq::empty()
    }
}

/// Checks an fMP4 segment: at least 8 bytes, a known first box, an
/// `moov` or `moof` box, and (as a warning) an `ftyp` box.
pub fn validate_fmp4_segment(data: &[u8]) -> (r: ValidationResult)
    ensures
        views_of(r.errors@) == fmp4_errors(data@),
        views_of(r.warnings@) == fmp4_warnings(data@),
        r.is_valid == (fmp4_errors(data@).len() == 0),
{
    let mut errors: Vec<String> = Vec::new();
    let mut warnings: Vec<String> = Vec::new();
    if data.len() < 8 {
        errors.push(String::from_str("Segment too small"));
        assert(views_of(errors@) =~= fmp4_errors(data@));
        assert(views_of(warnings@) =~= fmp4_warnings(data@));
        return ValidationResult { is_valid: false, errors, warnings };
    }
    let ftyp: Vec<u8> = vec![102u8, 116u8, 121u8, 112u8];
    let moov: Vec<u8> = vec![109u8, 111u8, 111u8, 118u8];
    let moof: Vec<u8> = vec![109u8, 111u8, 111u8, 102u8];
    let mut head: Vec<u8> = Vec::new();
    head.push(data[4]);
    head.push(data[5]);
    head.push(data[6]);
    head.push(data[7]);
    assert(head@ =~= data@.subrange(4, 8));
    let known = (head[0] == 102 && head[1] == 116 && head[2] == 121 && head[3] == 112)
        || (head[0] == 109 && head[1] == 111 && head[2] == 111 && (head[3] == 118 || head[3] == 102));
    assert(known == fmp4_known_start(head@)) by {
        if fmp4_known_start(head@) {
            if head@ == seq![102u8, 116u8, 121u8, 112u8] {
                assert(head@[0] == 102u8 && head@[1] == 116u8 && head@[2] == 121u8 && head@[3] == 112u8);
            } else if head@ == seq![109u8, 111u8, 111u8, 118u8] {
                assert(head@[3] == 118u8);
            } else {
                assert(head@[3] == 102u8);
            }
        }
        if known {
            if head[0] == 102 {
                assert(head@ =~= seq![102u8, 116u8, 121u8, 112u8]);
            } else if head[3] == 118 {
                assert(head@ =~= seq![109u8, 111u8, 111u8, 118u8]);
            } else {
                assert(head@ =~= seq![109u8, 111u8, 111u8, 102u8]);
            }
        }
    }
    if !known {
        let mut msg = String::from_str("Invalid box type at start: ");
        let t = box_type_debug(head.as_slice());
        push_str(&mut msg, t.as_str());
        errors.push(msg);
    }
    let has_ftyp = find_box(data, ftyp.as_slice()).is_some();
    let has_moov_or_moof = find_box(data, moov.as_slice()).is_some() || find_box(data, moof.as_slice()).is_some();
    assert(ftyp@ =~= seq![102u8, 116u8, 121u8, 112u8]);
    assert(moov@ =~= seq![109u8, 111u8, 111u8, 118u8]);
    assert(moof@ =~= seq![109u8, 111u8, 111u8, 102u8]);
    if !has_ftyp {
        warnings.push(String::from_str("Missing ftyp box"));
    }
    if !has_moov_or_moof {
        errors.push(String::from_str("Missing moov or moof box"));
    }
    assert(views_of(errors@) =~= fmp4_errors(data@));
    assert(views_of(warnings@) =~= fmp4_warnings(data@));
    let valid = errors.len() == 0;
    ValidationResult { is_valid: valid, errors, warnings }
}


// ---------------------------------------------------------------------------
// Laws of the checks
// ---------------------------------------------------------------------------

proof fn lemma_in_concat(a: Seq<Seq<char>>, b: Seq<Seq<char>>, x: Seq<char>)
    ensures
        a.contains(x) ==> (a + b).contains(x),
        b.contains(x) ==> (a + b).contains(x),
{
    if a.contains(x) {
        let k = choose|k: int| 0 <= k < a.len() && a[k] == x;
        assert((a + b)[k] == x);
    }
    if b.contains(x) {
        let k = choose|k: int| 0 <= k < b.len() && b[k] == x;
        assert((a + b)[a.len() + k] == x);
    }
}

proof fn lemma_media_has(ls: Seq<Seq<char>>, n: nat, i: int, x: Seq<char>)
    requires
        0 <= i < n <= ls.len(),
        (audio_entry_errors(ls[i]) + subtitle_entry_errors(ls[i])).contains(x),
    ensures
        media_errors(ls, n).contains(x),
    decreases n,
{
    let m = (n - 1) as nat;
    if i < m {
        lemma_media_has(ls, m, i, x);
        lemma_in_concat(media_errors(ls, m), audio_entry_errors(ls[m as int]), x);
        lemma_in_concat(media_errors(ls, m) + audio_entry_errors(ls[m as int]), subtitle_entry_errors(ls[m as int]), x);
    } else {
        lemma_in_concat(audio_entry_errors(ls[i]), subtitle_entry_errors(ls[i]), x);
        if audio_entry_errors(ls[i]).contains(x) {
            lemma_in_concat(media_errors(ls, m), audio_entry_errors(ls[i]), x);
            lemma_in_concat(media_errors(ls, m) + audio_entry_errors(ls[i]), subtitle_entry_errors(ls[i]), x);
        } else {
            assert(subtitle_entry_errors(ls[i]).contains(x)) by {
                let k = choose|k: int| 0 <= k < (audio_entry_errors(ls[i]) + subtitle_entry_errors(ls[i])).len()
                    && (audio_entry_errors(ls[i]) + subtitle_entry_errors(ls[i]))[k] == x;
                if k < audio_entry_errors(ls[i]).len() {
                    assert(audio_entry_errors(ls[i])[k] == x);
                } else {
                    assert(subtitle_entry_errors(ls[i])[k - audio_entry_errors(ls[i]).len()] == x);
                }
            }
            lemma_in_concat(media_errors(ls, m) + audio_entry_errors(ls[i]), subtitle_entry_errors(ls[i]), x);
        }
    }
}

proof fn lemma_variant_has(ls: Seq<Seq<char>>, n: nat, i: int, x: Seq<char>)
    requires
        0 <= i < n <= ls.len(),
        stream_inf_errors(ls[i]).contains(x),
    ensures
        variant_errors(ls, n).contains(x),
    decreases n,
{
    let m = (n - 1) as nat;
    if i < m {
        lemma_variant_has(ls, m, i, x);
    }
    lemma_in_concat(variant_errors(ls, m), stream_inf_errors(ls[m as int]), x);
}

proof fn lemma_master_has(s: Seq<char>, x: Seq<char>)
    requires
        media_errors(lines_of(s), lines_of(s).len()).contains(x) || variant_errors(lines_of(s), lines_of(s).len())
            .contains(x),
    ensures
        master_errors(s).contains(x),
{
    let ls = lines_of(s);
    let h = (if !contains(s, "#EXTM3U"@) { seq!["Missing #EXTM3U header"@] } else { Seq::empty() })
        + (if !contains(s, "#EXT-X-VERSION"@) { seq!["Missing #EXT-X-VERSION tag"@] } else { Seq::empty() })
        + (if !contains(s, "#EXT-X-STREAM-INF"@) { seq!["No video stream variants found"@] } else { Seq::empty() });
    lemma_in_concat(h, media_errors(ls, ls.len()), x);
    lemma_in_concat(h + media_errors(ls, ls.len()), variant_errors(ls, ls.len()), x);
}

proof fn lemma_seq_has_one(x: Seq<char>)
    ensures
        seq![x].contains(x),
{
    assert(seq![x][0] == x);
}

/// A master playlist is checked for its header, version tag and variants:
/// where one is missing, its error is among the errors (so the playlist
/// is not valid).
pub proof fn law_master_required_tags(s: Seq<char>)
    ensures
        !contains(s, "#EXTM3U"@) ==> master_errors(s).contains("Missing #EXTM3U header"@),
        !contains(s, "#EXT-X-VERSION"@) ==> master_errors(s).contains("Missing #EXT-X-VERSION tag"@),
        !contains(s, "#EXT-X-STREAM-INF"@) ==> master_errors(s).contains("No video stream variants found"@),
{
    let ls = lines_of(s);
    let a = if !contains(s, "#EXTM3U"@) { seq!["Missing #EXTM3U header"@] } else { Seq::empty() };
    let b = if !contains(s, "#EXT-X-VERSION"@) { seq!["Missing #EXT-X-VERSION tag"@] } else { Seq::empty() };
    let c = if !contains(s, "#EXT-X-STREAM-INF"@) { seq!["No video stream variants found"@] } else { Seq::empty() };
    let rest = media_errors(ls, ls.len()) + variant_errors(ls, ls.len());
    assert(master_errors(s) =~= a + b + c + rest);
    lemma_seq_has_one("Missing #EXTM3U header"@);
    lemma_seq_has_one("Missing #EXT-X-VERSION tag"@);
    lemma_seq_has_one("No video stream variants found"@);
    lemma_in_concat(a, b, "Missing #EXTM3U header"@);
    lemma_in_concat(a, b, "Missing #EXT-X-VERSION tag"@);
    lemma_in_concat(a + b, c, "Missing #EXTM3U header"@);
    lemma_in_concat(a + b, c, "Missing #EXT-X-VERSION tag"@);
    lemma_in_concat(a + b, c, "No video stream variants found"@);
    lemma_in_concat(a + b + c, rest, "Missing #EXTM3U header"@);
    lemma_in_concat(a + b + c, rest, "Missing #EXT-X-VERSION tag"@);
    lemma_in_concat(a + b + c, rest, "No video stream variants found"@);
}

/// `x` is among the errors of the concatenation of four parts, each holding
/// its message exactly when its condition holds.
proof fn lemma_one_of_four(c0: bool, m0: Seq<char>, c1: bool, m1: Seq<char>, c2: bool, m2: Seq<char>, c3: bool,
    m3: Seq<char>)
    ensures
        ({
            let p0 = if c0 { seq![m0] } else { Seq::<Seq<char>>::empty() };
            let p1 = if c1 { seq![m1] } else { Seq::<Seq<char>>::empty() };
            let p2 = if c2 { seq![m2] } else { Seq::<Seq<char>>::empty() };
            let p3 = if c3 { seq![m3] } else { Seq::<Seq<char>>::empty() };
            &&& c0 ==> (p0 + p1 + p2 + p3).contains(m0)
            &&& c1 ==> (p0 + p1 + p2 + p3).contains(m1)
            &&& c2 ==> (p0 + p1 + p2 + p3).contains(m2)
            &&& c3 ==> (p0 + p1 + p2 + p3).contains(m3)
            &&& c0 ==> (p0 + p1).contains(m0)
            &&& c1 ==> (p0 + p1).contains(m1)
        }),
{
    let p0 = if c0 { seq![m0] } else { Seq::<Seq<char>>::empty() };
    let p1 = if c1 { seq![m1] } else { Seq::<Seq<char>>::empty() };
    let p2 = if c2 { seq![m2] } else { Seq::<Seq<char>>::empty() };
    let p3 = if c3 { seq![m3] } else { Seq::<Seq<char>>::empty() };
    lemma_seq_has_one(m0);
    lemma_seq_has_one(m1);
    lemma_seq_has_one(m2);
    lemma_seq_has_one(m3);
    lemma_in_concat(p0, p1, m0);
    lemma_in_concat(p0, p1, m1);
    lemma_in_concat(p0 + p1, p2, m0);
    lemma_in_concat(p0 + p1, p2, m1);
    lemma_in_concat(p0 + p1, p2, m2);
    lemma_in_concat(p0 + p1 + p2, p3, m0);
    lemma_in_concat(p0 + p1 + p2, p3, m1);
    lemma_in_concat(p0 + p1 + p2, p3, m2);
    lemma_in_concat(p0 + p1 + p2, p3, m3);
}

/// Every line of a master playlist is checked: an audio entry needs
/// `GROUP-ID`, `LANGUAGE`, `NAME` and `URI`, a subtitle entry `GROUP-ID` and
/// `URI`, and a variant `BANDWIDTH` and `RESOLUTION`; where one lacks an
/// attribute, its error is among the errors (so the playlist is not valid).
pub proof fn law_master_entries_checked(s: Seq<char>, i: int)
    requires
        0 <= i < lines_of(s).len(),
    ensures
        ({
            let l = lines_of(s)[i];
            let e = master_errors(s);
            let audio = starts_with(l, "#EXT-X-MEDIA:TYPE=AUDIO"@);
            let subs = starts_with(l, "#EXT-X-MEDIA:TYPE=SUBTITLES"@);
            let inf = starts_with(l, "#EXT-X-STREAM-INF"@);
            &&& audio && !contains(l, "GROUP-ID="@) ==> e.contains("AUDIO entry missing GROUP-ID"@)
            &&& audio && !contains(l, "LANGUAGE="@) ==> e.contains("AUDIO entry missing LANGUAGE"@)
            &&& audio && !contains(l, "NAME="@) ==> e.contains("AUDIO entry missing NAME"@)
            &&& audio && !contains(l, "URI="@) ==> e.contains("AUDIO entry missing URI"@)
            &&& subs && !contains(l, "GROUP-ID="@) ==> e.contains("SUBTITLES entry missing GROUP-ID"@)
            &&& subs && !contains(l, "URI="@) ==> e.contains("SUBTITLES entry missing URI"@)
            &&& inf && !contains(l, "BANDWIDTH="@) ==> e.contains("STREAM-INF missing BANDWIDTH"@)
            &&& inf && !contains(l, "RESOLUTION="@) ==> e.contains("STREAM-INF missing RESOLUTION"@)
        }),
{
    let ls = lines_of(s);
    let l = ls[i];
    let n = ls.len();
    lemma_one_of_four(!contains(l, "GROUP-ID="@), "AUDIO entry missing GROUP-ID"@, !contains(l, "LANGUAGE="@),
        "AUDIO entry missing LANGUAGE"@, !contains(l, "NAME="@), "AUDIO entry missing NAME"@, !contains(l, "URI="@),
        "AUDIO entry missing URI"@);
    lemma_one_of_four(!contains(l, "GROUP-ID="@), "SUBTITLES entry missing GROUP-ID"@, !contains(l, "URI="@),
        "SUBTITLES entry missing URI"@, false, "SUBTITLES entry missing URI"@, false, "SUBTITLES entry missing URI"@);
    lemma_one_of_four(!contains(l, "BANDWIDTH="@), "STREAM-INF missing BANDWIDTH"@, !contains(l, "RESOLUTION="@),
        "STREAM-INF missing RESOLUTION"@, false, "STREAM-INF missing RESOLUTION"@, false,
        "STREAM-INF missing RESOLUTION"@);
    let both = audio_entry_errors(l) + subtitle_entry_errors(l);
    assert forall|x: Seq<char>| audio_entry_errors(l).contains(x) || subtitle_entry_errors(l).contains(x) implies
        #[trigger] master_errors(s).contains(x) by {
        lemma_in_concat(audio_entry_errors(l), subtitle_entry_errors(l), x);
        lemma_media_has(ls, n, i, x);
        lemma_master_has(s, x);
    }
    assert forall|x: Seq<char>| stream_inf_errors(l).contains(x) implies #[trigger] master_errors(s).contains(x) by {
        lemma_variant_has(ls, n, i, x);
        lemma_master_has(s, x);
    }
}

/// A media playlist is checked for every tag it needs: where the header,
/// the version, target duration, media sequence or end-list tag, or every
/// segment entry is missing, its error is among the errors (so the
/// playlist is not valid).
pub proof fn law_variant_required_tags(s: Seq<char>)
    ensures
        !contains(s, "#EXTM3U"@) ==> variant_playlist_errors(s).contains("Missing #EXTM3U header"@),
        !contains(s, "#EXT-X-VERSION"@) ==> variant_playlist_errors(s).contains("Missing #EXT-X-VERSION tag"@),
        !contains(s, "#EXT-X-TARGETDURATION"@) ==> variant_playlist_errors(s).contains(
            "Missing #EXT-X-TARGETDURATION tag"@,
        ),
        !contains(s, "#EXT-X-MEDIA-SEQUENCE"@) ==> variant_playlist_errors(s).contains(
            "Missing #EXT-X-MEDIA-SEQUENCE tag"@,
        ),
        !contains(s, "#EXT-X-ENDLIST"@) ==> variant_playlist_errors(s).contains("Missing #EXT-X-ENDLIST tag"@),
        !contains(s, "#EXTINF:"@) ==> variant_playlist_errors(s).contains("No segment entries found"@),
{
    let ls = lines_of(s);
    let c0 = !contains(s, "#EXTM3U"@);
    let c1 = !contains(s, "#EXT-X-VERSION"@);
    let c2 = !contains(s, "#EXT-X-TARGETDURATION"@);
    let c3 = !contains(s, "#EXT-X-MEDIA-SEQUENCE"@);
    let c4 = !contains(s, "#EXT-X-ENDLIST"@);
    let c5 = !contains(s, "#EXTINF:"@);
    let p0 = if c0 { seq!["Missing #EXTM3U header"@] } else { Seq::<Seq<char>>::empty() };
    let p1 = if c1 { seq!["Missing #EXT-X-VERSION tag"@] } else { Seq::<Seq<char>>::empty() };
    let p2 = if c2 { seq!["Missing #EXT-X-TARGETDURATION tag"@] } else { Seq::<Seq<char>>::empty() };
    let p3 = if c3 { seq!["Missing #EXT-X-MEDIA-SEQUENCE tag"@] } else { Seq::<Seq<char>>::empty() };
    let p4 = if c4 { seq!["Missing #EXT-X-ENDLIST tag"@] } else { Seq::<Seq<char>>::empty() };
    let p5 = if c5 { seq!["No segment entries found"@] } else { Seq::<Seq<char>>::empty() };
    let p6 = if contains(s, "#EXT-X-CODECS"@) { codecs_errors(ls, ls.len()) } else { Seq::empty() };
    assert(variant_playlist_errors(s) =~= p0 + p1 + p2 + p3 + p4 + p5 + p6);
    lemma_one_of_four(c0, "Missing #EXTM3U header"@, c1, "Missing #EXT-X-VERSION tag"@, c2,
        "Missing #EXT-X-TARGETDURATION tag"@, c3, "Missing #EXT-X-MEDIA-SEQUENCE tag"@);
    let q = p0 + p1 + p2 + p3;
    lemma_seq_has_one("Missing #EXT-X-ENDLIST tag"@);
    lemma_seq_has_one("No segment entries found"@);
    assert forall|x: Seq<char>| q.contains(x) || p4.contains(x) || p5.contains(x) implies
        #[trigger] (q + p4 + p5 + p6).contains(x) by {
        lemma_in_concat(q, p4, x);
        lemma_in_concat(q + p4, p5, x);
        lemma_in_concat(q + p4 + p5, p6, x);
    }
    assert(q + p4 + p5 + p6 =~= p0 + p1 + p2 + p3 + p4 + p5 + p6);
}

proof fn lemma_split_pieces_in(s: Seq<char>, c: char)
    ensures
        forall|k: int| 0 <= k < split_char(s, c).len() ==> #[trigger] contains(s, split_char(s, c)[k]),
        split_char(s, c).len() >= 1,
        ends_with(s, split_char(s, c).last()),
    decreases s.len(),
{
    lemma_split_char_nonempty(s, c);
    if s.len() == 0 {
        assert(s.subrange(0, 0) =~= split_char(s, c)[0]);
        assert(lit_at(s, 0, split_char(s, c)[0]));
        assert(s.subrange(0, 0) =~= split_char(s, c).last());
    } else {
        let t = s.drop_last();
        lemma_split_pieces_in(t, c);
        let r = split_char(t, c);
        let p = split_char(s, c);
        assert forall|k: int| 0 <= k < r.len() implies #[trigger] contains(s, r[k]) by {
            assert(contains(t, r[k]));
            let w = choose|w: int| 0 <= w <= t.len() - r[k].len() && #[trigger] lit_at(t, w, r[k]);
            assert(s.subrange(w, w + r[k].len()) =~= t.subrange(w, w + r[k].len()));
            assert(lit_at(s, w, r[k]));
        }
        let last = r.last();
        assert(t.subrange(t.len() - last.len(), t.len() as int) == last);
        if s.last() == c {
            assert(s.subrange(t.len() - last.len(), t.len() as int) =~= last);
            assert(lit_at(s, t.len() - last.len(), last));
            assert(s.subrange(s.len() as int, s.len() as int) =~= Seq::<char>::empty());
            assert(lit_at(s, s.len() as int, Seq::<char>::empty()));
            assert(s.subrange(s.len() as int, s.len() as int) =~= p.last());
            assert forall|k: int| 0 <= k < p.len() implies #[trigger] contains(s, p[k]) by {
                if k < r.len() {
                    assert(p[k] == r[k]);
                }
            }
        } else {
            let nl = last.push(s.last());
            assert(s.subrange(s.len() - nl.len(), s.len() as int) =~= nl);
            assert(lit_at(s, s.len() - nl.len(), nl));
            assert forall|k: int| 0 <= k < p.len() implies #[trigger] contains(s, p[k]) by {
                if k < r.len() - 1 {
                    assert(p[k] == r[k]);
                }
            }
        }
    }
}

/// Each line of a text occurs in it.
proof fn lemma_line_in(s: Seq<char>, i: int)
    requires
        0 <= i < lines_of(s).len(),
    ensures
        contains(s, lines_of(s)[i]),
{
    let p = split_char(s, '\n');
    lemma_split_pieces_in(s, '\n');
    let l = lines_of(s)[i];
    if i < p.len() - 1 {
        assert(l == strip_cr(p[i]));
        assert(contains(s, p[i]));
        let w = choose|w: int| 0 <= w <= s.len() - p[i].len() && #[trigger] lit_at(s, w, p[i]);
        assert(s.subrange(w, w + l.len()) =~= p[i].subrange(0, l.len() as int));
        assert(lit_at(s, w, l));
    } else {
        assert(l == p.last());
        assert(contains(s, p[p.len() - 1]));
    }
}

/// What a line starts with occurs in the text.
proof fn lemma_start_in(s: Seq<char>, i: int, pat: Seq<char>)
    requires
        0 <= i < lines_of(s).len(),
        starts_with(lines_of(s)[i], pat),
    ensures
        contains(s, pat),
{
    lemma_line_in(s, i);
    let l = lines_of(s)[i];
    let w = choose|w: int| 0 <= w <= s.len() - l.len() && #[trigger] lit_at(s, w, l);
    assert(s.subrange(w, w + pat.len()) =~= l.subrange(0, pat.len() as int));
    assert(lit_at(s, w, pat));
}

proof fn lemma_webvtt_line_has(ls: Seq<Seq<char>>, n: nat, i: int, map_checks: bool, x: Seq<char>)
    requires
        0 <= i < n <= ls.len(),
        map_checks,
        starts_with(ls[i], "X-TIMESTAMP-MAP"@),
        (!contains(ls[i], "LOCAL:"@) && x == "X-TIMESTAMP-MAP missing LOCAL timestamp"@) || (!contains(
            ls[i],
            "MPEGTS:"@,
        ) && x == "X-TIMESTAMP-MAP missing MPEGTS timestamp"@),
    ensures
        webvtt_line_errors(ls, n, map_checks).contains(x),
    decreases n,
{
    let m = (n - 1) as nat;
    let l = ls[m as int];
    let here = (if !contains(l, "LOCAL:"@) { seq!["X-TIMESTAMP-MAP missing LOCAL timestamp"@] } else { Seq::empty() })
        + (if !contains(l, "MPEGTS:"@) { seq!["X-TIMESTAMP-MAP missing MPEGTS timestamp"@] } else { Seq::empty() });
    if i < m {
        lemma_webvtt_line_has(ls, m, i, map_checks, x);
        if starts_with(l, "X-TIMESTAMP-MAP"@) {
            lemma_in_concat(webvtt_line_errors(ls, m, map_checks), here, x);
        } else {
            lemma_in_concat(webvtt_line_errors(ls, m, map_checks), Seq::empty(), x);
        }
    } else {
        lemma_one_of_four(!contains(l, "LOCAL:"@), "X-TIMESTAMP-MAP missing LOCAL timestamp"@, !contains(
            l,
            "MPEGTS:"@,
        ), "X-TIMESTAMP-MAP missing MPEGTS timestamp"@, false, x, false, x);
        lemma_in_concat(webvtt_line_errors(ls, m, map_checks), here, x);
    }
}

proof fn lemma_cue_has(ls: Seq<Seq<char>>, n: nat, i: int)
    requires
        0 <= i < n <= ls.len(),
        contains(ls[i], "-->"@),
        !cue_timestamp_in(ls[i]),
    ensures
        cue_errors(ls, n).contains("Invalid cue timestamp format: "@ + ls[i]),
    decreases n,
{
    let m = (n - 1) as nat;
    let x = "Invalid cue timestamp format: "@ + ls[i];
    let l = ls[m as int];
    let here = if contains(l, "-->"@) && !cue_timestamp_in(l) {
        seq!["Invalid cue timestamp format: "@ + l]
    } else {
        Seq::empty()
    };
    if i < m {
        lemma_cue_has(ls, m, i);
    } else {
        lemma_seq_has_one(x);
    }
    lemma_in_concat(cue_errors(ls, m), here, x);
}

/// A WebVTT file is checked for its header, the `LOCAL` and `MPEGTS` parts
/// of its timestamp-map line and the timestamps of its cue lines: where one
/// is wrong, its error is among the errors (so the file is not valid).
pub proof fn law_webvtt_checked(s: Seq<char>, i: int)
    requires
        0 <= i < lines_of(s).len(),
    ensures
        ({
            let l = lines_of(s)[i];
            let e = webvtt_errors(s);
            &&& !starts_with(s, "WEBVTT"@) ==> e.contains("Missing WEBVTT header"@)
            &&& starts_with(l, "X-TIMESTAMP-MAP"@) && !contains(l, "LOCAL:"@) ==> e.contains(
                "X-TIMESTAMP-MAP missing LOCAL timestamp"@,
            )
            &&& starts_with(l, "X-TIMESTAMP-MAP"@) && !contains(l, "MPEGTS:"@) ==> e.contains(
                "X-TIMESTAMP-MAP missing MPEGTS timestamp"@,
            )
            &&& contains(l, "-->"@) && !cue_timestamp_in(l) ==> e.contains("Invalid cue timestamp format: "@ + l)
        }),
{
    let ls = lines_of(s);
    let l = ls[i];
    let mc = contains(s, "X-TIMESTAMP-MAP"@);
    let h = if !starts_with(s, "WEBVTT"@) { seq!["Missing WEBVTT header"@] } else { Seq::<Seq<char>>::empty() };
    let w = webvtt_line_errors(ls, ls.len(), mc);
    let c = cue_errors(ls, ls.len());
    assert(webvtt_errors(s) =~= h + w + c);
    lemma_seq_has_one("Missing WEBVTT header"@);
    lemma_in_concat(h, w, "Missing WEBVTT header"@);
    lemma_in_concat(h + w, c, "Missing WEBVTT header"@);
    if starts_with(l, "X-TIMESTAMP-MAP"@) {
        lemma_start_in(s, i, "X-TIMESTAMP-MAP"@);
        if !contains(l, "LOCAL:"@) {
            lemma_webvtt_line_has(ls, ls.len(), i, mc, "X-TIMESTAMP-MAP missing LOCAL timestamp"@);
            lemma_in_concat(h, w, "X-TIMESTAMP-MAP missing LOCAL timestamp"@);
            lemma_in_concat(h + w, c, "X-TIMESTAMP-MAP missing LOCAL timestamp"@);
        }
        if !contains(l, "MPEGTS:"@) {
            lemma_webvtt_line_has(ls, ls.len(), i, mc, "X-TIMESTAMP-MAP missing MPEGTS timestamp"@);
            lemma_in_concat(h, w, "X-TIMESTAMP-MAP missing MPEGTS timestamp"@);
            lemma_in_concat(h + w, c, "X-TIMESTAMP-MAP missing MPEGTS timestamp"@);
        }
    }
    if contains(l, "-->"@) && !cue_timestamp_in(l) {
        lemma_cue_has(ls, ls.len(), i);
        lemma_in_concat(h + w, c, "Invalid cue timestamp format: "@ + l);
    }
}

/// A line of a master playlist that has every attribute its kind needs.
pub open spec fn master_line_complete(l: Seq<char>) -> bool {
    &&& starts_with(l, "#EXT-X-MEDIA:TYPE=AUDIO"@) ==> contains(l, "GROUP-ID="@) && contains(l, "LANGUAGE="@)
        && contains(l, "NAME="@) && contains(l, "URI="@)
    &&& starts_with(l, "#EXT-X-MEDIA:TYPE=SUBTITLES"@) ==> contains(l, "GROUP-ID="@) && contains(l, "URI="@)
    &&& starts_with(l, "#EXT-X-STREAM-INF"@) ==> contains(l, "BANDWIDTH="@) && contains(l, "RESOLUTION="@)
}

proof fn lemma_master_lines_clean(ls: Seq<Seq<char>>, n: nat)
    requires
        n <= ls.len(),
        forall|k: int| 0 <= k < n ==> master_line_complete(#[trigger] ls[k]),
    ensures
        media_errors(ls, n).len() == 0,
        variant_errors(ls, n).len() == 0,
    decreases n,
{
    if n > 0 {
        let m = (n - 1) as nat;
        lemma_master_lines_clean(ls, m);
        assert(master_line_complete(ls[m as int]));
    }
}

/// A master playlist with its header, version tag and a variant, whose
/// every entry has the attributes it needs, has no error: it is valid.
pub proof fn law_master_complete_is_valid(s: Seq<char>)
    requires
        contains(s, "#EXTM3U"@),
        contains(s, "#EXT-X-VERSION"@),
        contains(s, "#EXT-X-STREAM-INF"@),
        forall|k: int| 0 <= k < lines_of(s).len() ==> master_line_complete(#[trigger] lines_of(s)[k]),
    ensures
        master_errors(s).len() == 0,
{
    lemma_master_lines_clean(lines_of(s), lines_of(s).len());
}

proof fn lemma_codecs_clean(ls: Seq<Seq<char>>, n: nat)
    requires
        n <= ls.len(),
        forall|k: int| 0 <= k < n ==> !starts_with(#[trigger] ls[k], "#EXT-X-CODECS:"@) || strip_prefix_all(
            ls[k],
            "#EXT-X-CODECS:"@,
        ).len() > 0,
    ensures
        codecs_errors(ls, n).len() == 0,
    decreases n,
{
    if n > 0 {
        lemma_codecs_clean(ls, (n - 1) as nat);
        assert(!starts_with(ls[n - 1], "#EXT-X-CODECS:"@) || strip_prefix_all(ls[n - 1], "#EXT-X-CODECS:"@).len() > 0);
    }
}

/// A media playlist with every tag it needs and no empty codec declaration
/// has no error: it is valid.
pub proof fn law_variant_complete_is_valid(s: Seq<char>)
    requires
        contains(s, "#EXTM3U"@),
        contains(s, "#EXT-X-VERSION"@),
        contains(s, "#EXT-X-TARGETDURATION"@),
        contains(s, "#EXT-X-MEDIA-SEQUENCE"@),
        contains(s, "#EXT-X-ENDLIST"@),
        contains(s, "#EXTINF:"@),
        forall|k: int| 0 <= k < lines_of(s).len() ==> !starts_with(#[trigger] lines_of(s)[k], "#EXT-X-CODECS:"@)
            || strip_prefix_all(lines_of(s)[k], "#EXT-X-CODECS:"@).len() > 0,
    ensures
        variant_playlist_errors(s).len() == 0,
{
    lemma_codecs_clean(lines_of(s), lines_of(s).len());
}

proof fn lemma_webvtt_lines_clean(ls: Seq<Seq<char>>, n: nat, map_checks: bool)
    requires
        n <= ls.len(),
        forall|k: int| 0 <= k < n ==> (starts_with(#[trigger] ls[k], "X-TIMESTAMP-MAP"@) ==> contains(ls[k], "LOCAL:"@)
            && contains(ls[k], "MPEGTS:"@)) && (contains(ls[k], "-->"@) ==> cue_timestamp_in(ls[k])),
    ensures
        webvtt_line_errors(ls, n, map_checks).len() == 0,
        cue_errors(ls, n).len() == 0,
    decreases n,
{
    if n > 0 {
        lemma_webvtt_lines_clean(ls, (n - 1) as nat, map_checks);
        let l = ls[n - 1];
        assert((starts_with(l, "X-TIMESTAMP-MAP"@) ==> contains(l, "LOCAL:"@) && contains(l, "MPEGTS:"@)) && (contains(
            l,
            "-->"@,
        ) ==> cue_timestamp_in(l)));
    }
}

/// A WebVTT file with its header, whose timestamp-map lines have both parts
/// and whose cue lines all hold a timestamp, has no error: it is valid.
pub proof fn law_webvtt_complete_is_valid(s: Seq<char>)
    requires
        starts_with(s, "WEBVTT"@),
        forall|k: int| 0 <= k < lines_of(s).len() ==> (starts_with(#[trigger] lines_of(s)[k], "X-TIMESTAMP-MAP"@)
            ==> contains(lines_of(s)[k], "LOCAL:"@) && contains(lines_of(s)[k], "MPEGTS:"@)) && (contains(
            lines_of(s)[k],
            "-->"@,
        ) ==> cue_timestamp_in(lines_of(s)[k])),
    ensures
        webvtt_errors(s).len() == 0,
{
    lemma_webvtt_lines_clean(lines_of(s), lines_of(s).len(), contains(s, "X-TIMESTAMP-MAP"@));
}
} // verus!
