//! Subtitle cues: timing and text taken from subtitle packets.

use vstd::prelude::*;
use vstd::utf8::{valid_utf8, decode_utf8};
use crate::media::{CodecId, Rational};
use crate::errors::HlsError;
use crate::text::string_push;

verus! {

/// What `String::from_utf8_lossy` gives for a byte string.
pub uninterp spec fn lossy_utf8(b: Seq<u8>) -> Seq<char>;

/// A character with the Unicode `White_Space` property, which
/// `char::is_whitespace` tests.
pub open spec fn white_space(c: char) -> bool {
    let u = c as u32;
    ||| 0x9 <= u <= 0xD
    ||| u == 0x20
    ||| u == 0x85
    ||| u == 0xA0
    ||| u == 0x1680
    ||| 0x2000 <= u <= 0x200A
    ||| u == 0x2028
    ||| u == 0x2029
    ||| u == 0x202F
    ||| u == 0x205F
    ||| u == 0x3000
}

/// `s` without its leading white space.
pub open spec fn trim_start_ws(s: Seq<char>) -> Seq<char>
    decreases s.len(),
{
    if s.len() > 0 && white_space(s[0]) {
        trim_start_ws(s.drop_first())
    } else {
        s
    }
}

/// `s` without its trailing white space.
pub open spec fn trim_end_ws(s: Seq<char>) -> Seq<char>
    decreases s.len(),
{
    if s.len() > 0 && white_space(s.last()) {
        trim_end_ws(s.drop_last())
    } else {
        s
    }
}

/// What `str::trim` gives for a string: the string without leading and
/// trailing white space.
pub open spec fn trimmed(s: Seq<char>) -> Seq<char> {
    trim_end_ws(trim_start_ws(s))
}

/// What `char::is_alphanumeric` gives for a character.
pub uninterp spec fn alphanumeric(c: char) -> bool;

pub open spec fn is_ascii_alnum(c: char) -> bool {
    ('a' <= c && c <= 'z') || ('A' <= c && c <= 'Z') || ('0' <= c && c <= '9')
}

/// `String::from_utf8_lossy`: the text of the bytes, invalid sequences
/// replaced by U+FFFD; valid UTF-8 is decoded as it is.
#[verifier::external_body]
pub(crate) fn utf8_lossy(b: &[u8]) -> (r: String)
    ensures
        r@ == lossy_utf8(b@),
        valid_utf8(b@) ==> r@ == decode_utf8(b@),
{
    String::from_utf8_lossy(b).to_string()
}

/// The text of a byte string: valid UTF-8 decoded as it is, else as
/// `String::from_utf8_lossy` reads it.
pub open spec fn utf8_text(b: Seq<u8>) -> Seq<char> {
    if valid_utf8(b) {
        decode_utf8(b)
    } else {
        lossy_utf8(b)
    }
}

fn is_white_space(c: char) -> (r: bool)
    ensures
        r == white_space(c),
{
    let u = c as u32;
    (0x9 <= u && u <= 0xD) || u == 0x20 || u == 0x85 || u == 0xA0 || u == 0x1680 || (0x2000 <= u && u <= 0x200A)
        || u == 0x2028 || u == 0x2029 || u == 0x202F || u == 0x205F || u == 0x3000
}

proof fn lemma_trim_start_at(s: Seq<char>, lo: int)
    requires
        0 <= lo <= s.len(),
        forall|j: int| 0 <= j < lo ==> white_space(#[trigger] s[j]),
        lo == s.len() || !white_space(s[lo]),
    ensures
        trim_start_ws(s) == s.subrange(lo, s.len() as int),
    decreases lo,
{
    if lo == 0 {
        assert(s.subrange(0, s.len() as int) =~= s);
    } else {
        let t = s.drop_first();
        assert forall|j: int| 0 <= j < lo - 1 implies white_space(#[trigger] t[j]) by {
            assert(t[j] == s[j + 1]);
        }
        lemma_trim_start_at(t, lo - 1);
        assert(t.subrange(lo - 1, t.len() as int) =~= s.subrange(lo, s.len() as int));
    }
}

proof fn lemma_trim_end_at(s: Seq<char>, hi: int)
    requires
        0 <= hi <= s.len(),
        forall|j: int| hi <= j < s.len() ==> white_space(#[trigger] s[j]),
        hi == 0 || !white_space(s[hi - 1]),
    ensures
        trim_end_ws(s) == s.subrange(0, hi),
    decreases s.len() - hi,
{
    if hi == s.len() {
        assert(s.subrange(0, hi) =~= s);
    } else {
        let t = s.drop_last();
        assert forall|j: int| hi <= j < t.len() implies white_space(#[trigger] t[j]) by {
            assert(t[j] == s[j]);
        }
        lemma_trim_end_at(t, hi);
        assert(t.subrange(0, hi) =~= s.subrange(0, hi));
    }
}

/// The string without leading and trailing white space, as `str::trim`
/// gives it.
pub fn trim_string(s: &str) -> (r: String)
    ensures
        r@ == trimmed(s@),
{
    let chars = crate::text::chars_of(s);
    let n = chars.len();
    let mut lo: usize = 0;
    while lo < n && is_white_space(chars[lo])
        invariant
            n == s@.len(),
            chars@ == s@,
            lo <= n,
            forall|j: int| 0 <= j < lo ==> white_space(#[trigger] s@[j]),
        decreases n - lo,
    {
        lo += 1;
    }
    proof {
        lemma_trim_start_at(s@, lo as int);
    }
    let ghost t = s@.subrange(lo as int, n as int);
    let mut hi: usize = n;
    while hi > lo && is_white_space(chars[hi - 1])
        invariant
            n == s@.len(),
            chars@ == s@,
            lo <= hi <= n,
            t == s@.subrange(lo as int, n as int),
            forall|j: int| hi - lo <= j < t.len() ==> white_space(#[trigger] t[j]),
        decreases hi - lo,
    {
        assert(t[hi - 1 - lo] == s@[hi - 1]);
        hi -= 1;
    }
    proof {
        if hi > lo {
            assert(t[hi - 1 - lo] == s@[hi - 1]);
        }
        lemma_trim_end_at(t, hi - lo);
        assert(t.subrange(0, hi - lo) =~= s@.subrange(lo as int, hi as int));
    }
    crate::text::string_from_chars(&chars, lo, hi)
}

/// `char::is_alphanumeric`: alphabetic or numeric in Unicode; among ASCII
/// characters exactly the letters and digits.
#[verifier::external_body]
fn is_alphanumeric(c: char) -> (r: bool)
    ensures
        r == alphanumeric(c),
        (c as u32) < 128 ==> (r == is_ascii_alnum(c)),
{
    c.is_alphanumeric()
}

pub open spec fn abs(a: int) -> int {
    if a >= 0 {
        a
    } else {
        -a
    }
}

/// Division rounding toward zero, as Rust's integer `/`.
pub open spec fn trunc_div(a: int, b: int) -> int {
    if (a >= 0) == (b > 0) {
        abs(a) / abs(b)
    } else {
        -(abs(a) / abs(b))
    }
}

/// `pts` ticks of `tb` in milliseconds, rounded toward zero.
pub open spec fn ticks_to_ms(tb: Rational, pts: int) -> int {
    trunc_div(pts * tb.num * 1000, tb.den as int)
}

/// The conversion of `pts` does not overflow.
pub open spec fn ms_fits(tb: Rational, pts: int) -> bool {
    tb.den != 0 && abs(pts * tb.num * 1000) <= i64::MAX
}

/// One subtitle cue: its timing in milliseconds and its text.
#[derive(Clone, Debug)]
pub struct SubtitleCue {
    pub start_ms: i64,
    pub end_ms: i64,
    pub text: String,
}

impl SubtitleCue {
    pub fn new(start_ms: i64, end_ms: i64, text: String) -> (r: SubtitleCue)
        ensures
            r.start_ms == start_ms,
            r.end_ms == end_ms,
            r.text == text,
    {
        SubtitleCue { start_ms, end_ms, text }
    }

    /// How long the cue shows, in milliseconds.
    pub fn duration_ms(&self) -> (r: i64)
        requires
            i64::MIN <= self.end_ms - self.start_ms <= i64::MAX,
        ensures
            r == self.end_ms - self.start_ms,
    {
        self.end_ms - self.start_ms
    }
}

/// Turns the packets of one subtitle stream into cues.
pub struct SubtitleExtractor {
    pub codec_id: CodecId,
    /// Timebase of the packet timestamps.
    pub timebase: Rational,
}

proof fn lemma_trunc_div_bound(a: int, b: int)
    requires
        b != 0,
    ensures
        abs(trunc_div(a, b)) <= abs(a),
{
    assert(abs(a) / abs(b) <= abs(a)) by (nonlinear_arith)
        requires abs(b) >= 1, abs(a) >= 0;
}

impl SubtitleExtractor {
    pub fn new(codec_id: CodecId, timebase: Rational) -> (r: SubtitleExtractor)
        ensures
            r.codec_id == codec_id,
            r.timebase == timebase,
    {
        SubtitleExtractor { codec_id, timebase }
    }

    /// A timestamp in milliseconds.
    pub fn pts_to_ms(&self, pts: i64) -> (r: i64)
        requires
            ms_fits(self.timebase, pts as int),
        ensures
            r == ticks_to_ms(self.timebase, pts as int),
    {
        let num = self.timebase.num as i64;
        let den = self.timebase.den as i64;
        assert(abs(pts * num) <= abs(pts * num * 1000)) by (nonlinear_arith);
        let p = pts * num * 1000;
        proof {
            lemma_trunc_div_bound(p as int, den as int);
        }
        match p.checked_div(den) {
            Some(q) => q,
            None => 0,
        }
    }
}

/// End of a cue: start plus the packet duration, or two seconds when the
/// packet has none.
pub open spec fn cue_end(tb: Rational, pts: int, duration: int) -> int {
    if duration > 0 {
        ticks_to_ms(tb, pts) + ticks_to_ms(tb, duration)
    } else {
        ticks_to_ms(tb, pts) + 2000
    }
}

/// The cue timing of a packet can be computed without overflow.
pub open spec fn times_fit(tb: Rational, pts: int, duration: int) -> bool {
    &&& ms_fits(tb, pts)
    &&& duration > 0 ==> ms_fits(tb, duration)
    &&& i64::MIN <= cue_end(tb, pts, duration) <= i64::MAX
}

/// The text outside `{...}` override tags, reading from the front;
/// `in_tag` tells whether a tag is open.
pub open spec fn strip_tags(s: Seq<char>, in_tag: bool) -> Seq<char>
    decreases s.len(),
{
    if s.len() == 0 {
        Seq::empty()
    } else if s[0] == '{' {
        strip_tags(s.drop_first(), true)
    } else if s[0] == '}' {
        strip_tags(s.drop_first(), false)
    } else if in_tag {
        strip_tags(s.drop_first(), true)
    } else {
        seq![s[0]] + strip_tags(s.drop_first(), false)
    }
}

pub open spec fn clean_ass(s: Seq<char>) -> Seq<char> {
    trimmed(strip_tags(s, false))
}

/// The text bytes of a 3GPP timed-text sample: a 16-bit big-endian length,
/// then that many bytes (fewer when the sample is shorter).
pub open spec fn mov_text_bytes(d: Seq<u8>) -> Seq<u8> {
    let n = d[0] as int * 256 + d[1] as int;
    if 2 + n <= d.len() {
        d.subrange(2, 2 + n)
    } else {
        d.subrange(2, d.len() as int)
    }
}

/// The text of the cue a packet of codec `c` gives, or `None` when it gives none.
pub open spec fn cue_text(c: CodecId, data: Seq<u8>) -> Option<Seq<char>> {
    match c {
        CodecId::ASS | CodecId::SSA => Some(clean_ass(utf8_text(data))),
        CodecId::MOV_TEXT => if data.len() < 2 {
            None
        } else {
            let t = trimmed(utf8_text(mov_text_bytes(data)));
            if t.len() == 0 {
                None
            } else {
                Some(t)
            }
        },
        _ => Some(utf8_text(data)),
    }
}

/// The cues of one packet: none or one.
pub open spec fn packet_cues_ok(ex: SubtitleExtractor, data: Seq<u8>, pts: int, duration: int, cues: Seq<SubtitleCue>) -> bool {
    match cue_text(ex.codec_id, data) {
        None => cues.len() == 0,
        Some(t) => {
            &&& cues.len() == 1
            &&& cues[0].start_ms == ticks_to_ms(ex.timebase, pts)
            &&& cues[0].end_ms == cue_end(ex.timebase, pts, duration)
            &&& cues[0].text@ == t
        },
    }
}

pub open spec fn pts_or_zero(pts: Option<i64>) -> int {
    match pts {
        Some(p) => p as int,
        None => 0,
    }
}

fn copy_range(d: &[u8], lo: usize, hi: usize) -> (r: Vec<u8>)
    requires
        lo <= hi <= d@.len(),
    ensures
        r@ == d@.subrange(lo as int, hi as int),
{
    let mut v: Vec<u8> = Vec::new();
    let mut i = lo;
    while i < hi
        invariant
            lo <= i <= hi <= d@.len(),
            v@ == d@.subrange(lo as int, i as int),
        decreases hi - i,
    {
        v.push(d[i]);
        i += 1;
    }
    v
}

impl SubtitleExtractor {
    fn cue_of(&self, text: String, pts: i64, duration: i64) -> (r: Vec<SubtitleCue>)
        requires
            times_fit(self.timebase, pts as int, duration as int),
        ensures
            r@.len() == 1,
            r@[0].start_ms == ticks_to_ms(self.timebase, pts as int),
            r@[0].end_ms == cue_end(self.timebase, pts as int, duration as int),
            r@[0].text == text,
    {
        let start_ms = self.pts_to_ms(pts);
        let end_ms = if duration > 0 {
            start_ms + self.pts_to_ms(duration)
        } else {
            start_ms + 2000
        };
        vec![SubtitleCue::new(start_ms, end_ms, text)]
    }

    /// Cues of a SubRip packet: its text as it is.
    pub fn extract_srt_cues(&self, data: &[u8], pts: i64, duration: i64) -> (r: Result<Vec<SubtitleCue>, HlsError>)
        requires
            times_fit(self.timebase, pts as int, duration as int),
        ensures
            r matches Ok(v) && v@.len() == 1 && v@[0].text@ == utf8_text(data@)
                && v@[0].start_ms == ticks_to_ms(self.timebase, pts as int)
                && v@[0].end_ms == cue_end(self.timebase, pts as int, duration as int),
    {
        let text = utf8_lossy(data);
        Ok(self.cue_of(text, pts, duration))
    }

    /// Cues of an ASS/SSA packet: its text without override tags, trimmed.
    pub fn extract_ass_cues(&self, data: &[u8], pts: i64, duration: i64) -> (r: Result<Vec<SubtitleCue>, HlsError>)
        requires
            times_fit(self.timebase, pts as int, duration as int),
        ensures
            r matches Ok(v) && v@.len() == 1 && v@[0].text@ == clean_ass(utf8_text(data@))
                && v@[0].start_ms == ticks_to_ms(self.timebase, pts as int)
                && v@[0].end_ms == cue_end(self.timebase, pts as int, duration as int),
    {
        let text = utf8_lossy(data);
        let clean = self.clean_ass_text(text.as_str());
        Ok(self.cue_of(clean, pts, duration))
    }

    /// Cues of a plain text packet.
    pub fn extract_text_cues(&self, data: &[u8], pts: i64, duration: i64) -> (r: Result<Vec<SubtitleCue>, HlsError>)
        requires
            times_fit(self.timebase, pts as int, duration as int),
        ensures
            r matches Ok(v) && v@.len() == 1 && v@[0].text@ == utf8_text(data@)
                && v@[0].start_ms == ticks_to_ms(self.timebase, pts as int)
                && v@[0].end_ms == cue_end(self.timebase, pts as int, duration as int),
    {
        let text = utf8_lossy(data);
        Ok(self.cue_of(text, pts, duration))
    }

    /// Cues of a WebVTT packet.
    pub fn extract_webvtt_cues(&self, data: &[u8], pts: i64, duration: i64) -> (r: Result<Vec<SubtitleCue>, HlsError>)
        requires
            times_fit(self.timebase, pts as int, duration as int),
        ensures
            r matches Ok(v) && v@.len() == 1 && v@[0].text@ == utf8_text(data@)
                && v@[0].start_ms == ticks_to_ms(self.timebase, pts as int)
                && v@[0].end_ms == cue_end(self.timebase, pts as int, duration as int),
    {
        let text = utf8_lossy(data);
        Ok(self.cue_of(text, pts, duration))
    }

    /// Cues of a 3GPP timed-text packet: the trimmed text after the length
    /// prefix; no cue for a packet shorter than the prefix or a blank text.
    pub fn extract_mov_text_cues(&self, data: &[u8], pts: i64, duration: i64) -> (r: Result<Vec<SubtitleCue>, HlsError>)
        requires
            cue_text(CodecId::MOV_TEXT, data@) is Some ==> times_fit(self.timebase, pts as int, duration as int),
        ensures
            r matches Ok(v) && match cue_text(CodecId::MOV_TEXT, data@) {
                None => v@.len() == 0,
                Some(t) => v@.len() == 1 && v@[0].text@ == t
                    && v@[0].start_ms == ticks_to_ms(self.timebase, pts as int)
                    && v@[0].end_ms == cue_end(self.timebase, pts as int, duration as int),
            },
    {
        let n = data.len();
        if n < 2 {
            return Ok(Vec::new());
        }
        let text_len: usize = data[0] as usize * 256 + data[1] as usize;
        let bytes = if text_len <= n - 2 {
            copy_range(data, 2, 2 + text_len)
        } else {
            copy_range(data, 2, n)
        };
        let raw = utf8_lossy(bytes.as_slice());
        let text = trim_string(raw.as_str());
        if text.unicode_len() == 0 {
            return Ok(Vec::new());
        }
        Ok(self.cue_of(text, pts, duration))
    }

    /// The cues of one packet, read as the extractor's codec dictates
    /// (codecs it does not know are read as plain text).
    pub fn extract_cues(&self, data: &[u8], pts: Option<i64>, duration: i64) -> (r: Result<Vec<SubtitleCue>, HlsError>)
        requires
            cue_text(self.codec_id, data@) is Some ==> times_fit(self.timebase, pts_or_zero(pts), duration as int),
        ensures
            r matches Ok(v) && packet_cues_ok(*self, data@, pts_or_zero(pts), duration as int, v@),
    {
        let p: i64 = match pts {
            Some(x) => x,
            None => 0,
        };
        match self.codec_id {
            CodecId::SUBRIP => self.extract_srt_cues(data, p, duration),
            CodecId::ASS | CodecId::SSA => self.extract_ass_cues(data, p, duration),
            CodecId::MOV_TEXT => self.extract_mov_text_cues(data, p, duration),
            CodecId::TEXT => self.extract_text_cues(data, p, duration),
            CodecId::WEBVTT => self.extract_webvtt_cues(data, p, duration),
            _ => self.extract_text_cues(data, p, duration),
        }
    }

    /// ASS/SSA text without its `{...}` override tags, trimmed.
    pub fn clean_ass_text(&self, text: &str) -> (r: String)
        ensures
            r@ == clean_ass(text@),
    {
        let n = text.unicode_len();
        let mut out = String::new();
        let mut in_tag = false;
        let mut i: usize = 0;
        assert(text@.subrange(0, n as int) =~= text@);
        assert(out@ + strip_tags(text@, false) =~= strip_tags(text@, false));
        while i < n
            invariant
                n == text@.len(),
                i <= n,
                out@ + strip_tags(text@.subrange(i as int, n as int), in_tag) == strip_tags(text@, false),
            decreases n - i,
        {
            let ch = text.get_char(i);
            assert(text@.subrange(i as int, n as int).drop_first() =~= text@.subrange(i + 1, n as int));
            if ch == '{' {
                in_tag = true;
            } else if ch == '}' {
                in_tag = false;
            } else if !in_tag {
                let ghost before = out@;
                string_push(&mut out, ch);
                assert(before + (seq![ch] + strip_tags(text@.subrange(i + 1, n as int), false))
                    =~= out@ + strip_tags(text@.subrange(i + 1, n as int), false));
            }
            i += 1;
        }
        assert(text@.subrange(n as int, n as int) =~= Seq::<char>::empty());
        assert(out@ + Seq::<char>::empty() =~= out@);
        trim_string(out.as_str())
    }
}

/// The text of a subtitle packet, invalid UTF-8 replaced.
pub fn extract_subtitle_text(data: &[u8]) -> (r: String)
    ensures
        r@ == utf8_text(data@),
{
    utf8_lossy(data)
}

/// The WebVTT class name for a style name: every character that is not
/// alphanumeric becomes `_`.
pub open spec fn webvtt_class(s: Seq<char>) -> Seq<char> {
    s.map_values(|c: char| if alphanumeric(c) { c } else { '_' })
}

/// A WebVTT class name for an ASS/SSA style: every character that is not
/// alphanumeric becomes `_`; among ASCII characters, letters and digits stay.
pub fn ass_style_to_webvtt_class(style: &str) -> (r: String)
    ensures
        r@ == webvtt_class(style@),
        forall|i: int| 0 <= i < style@.len() && (style@[i] as u32) < 128 ==> #[trigger] r@[i] == if is_ascii_alnum(
            style@[i],
        ) {
            style@[i]
        } else {
            '_'
        },
{
    let n = style.unicode_len();
    let mut out = String::new();
    let mut i: usize = 0;
    while i < n
        invariant
            n == style@.len(),
            i <= n,
            out@ == webvtt_class(style@.subrange(0, i as int)),
            forall|j: int| 0 <= j < i && (style@[j] as u32) < 128 ==> #[trigger] out@[j] == if is_ascii_alnum(
                style@[j],
            ) {
                style@[j]
            } else {
                '_'
            },
        decreases n - i,
    {
        let c = style.get_char(i);
        let d = if is_alphanumeric(c) { c } else { '_' };
        let ghost before = out@;
        string_push(&mut out, d);
        assert(webvtt_class(style@.subrange(0, i + 1)) =~= webvtt_class(style@.subrange(0, i as int)).push(d));
        assert forall|j: int| 0 <= j < i + 1 && (style@[j] as u32) < 128 implies #[trigger] out@[j] == if is_ascii_alnum(
            style@[j],
        ) {
            style@[j]
        } else {
            '_'
        } by {
            if j < i {
                assert(out@[j] == before[j]);
            }
        }
        i += 1;
    }
    assert(style@.subrange(0, n as int) =~= style@);
    out
}

/// A class name is its own class name: converting twice changes nothing.
pub proof fn law_webvtt_class_idempotent(s: Seq<char>)
    ensures
        webvtt_class(webvtt_class(s)) == webvtt_class(s),
{
    assert(webvtt_class(webvtt_class(s)) =~= webvtt_class(s));
}

} // verus!
