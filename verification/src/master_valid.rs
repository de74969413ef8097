//! What the master playlist writer produces, the master playlist check
//! accepts.

use vstd::prelude::*;
use crate::text::{contains, starts_with, lit_at, no_char, dec, is_digit, lemma_dec_digits};
use crate::validation::{split_char, strip_cr, lines_of, audio_entry_errors, subtitle_entry_errors,
    stream_inf_errors, media_errors, variant_errors, master_errors, lemma_split_char_nonempty};

verus! {

// ---------------------------------------------------------------------------
// Texts made of lines
// ---------------------------------------------------------------------------

/// A line on which no entry check reports anything.
pub open spec fn errors_free(l: Seq<char>) -> bool {
    &&& audio_entry_errors(l).len() == 0
    &&& subtitle_entry_errors(l).len() == 0
    &&& stream_inf_errors(l).len() == 0
}

/// A line without line break on which the checks report nothing.
pub open spec fn ok_line(l: Seq<char>) -> bool {
    no_char(l, '\n') && errors_free(strip_cr(l))
}

/// Empty, or lines each ended by `\n` on which the checks report nothing.
pub open spec fn good_text(s: Seq<char>) -> bool {
    s.len() == 0 || (s.last() == '\n' && forall|k: int|
        0 <= k < split_char(s, '\n').len() - 1 ==> errors_free(strip_cr(#[trigger] split_char(s, '\n')[k])))
}

proof fn lemma_split_no_sep(l: Seq<char>, c: char)
    requires
        no_char(l, c),
    ensures
        split_char(l, c) == seq![l],
    decreases l.len(),
{
    if l.len() > 0 {
        lemma_split_no_sep(l.drop_last(), c);
        assert(l.drop_last().push(l.last()) =~= l);
        assert(seq![l.drop_last()].update(0, l.drop_last().push(l.last())) =~= seq![l]);
    } else {
        assert(l =~= Seq::<char>::empty());
    }
}

proof fn lemma_split_concat(a: Seq<char>, b: Seq<char>, c: char)
    requires
        a.len() > 0,
        a.last() == c,
    ensures
        split_char(a + b, c) == split_char(a, c).drop_last() + split_char(b, c),
    decreases b.len(),
{
    let x = split_char(a, c).drop_last();
    if b.len() == 0 {
        assert(a + b =~= a);
        assert(a.drop_last() + seq![c] =~= a);
        assert(split_char(a, c) == split_char(a.drop_last(), c).push(Seq::empty()));
        assert(x + seq![Seq::<char>::empty()] =~= split_char(a, c));
    } else {
        let b2 = b.drop_last();
        assert((a + b).drop_last() =~= a + b2);
        assert((a + b).last() == b.last());
        lemma_split_concat(a, b2, c);
        let y = split_char(b2, c);
        lemma_split_char_nonempty(b2, c);
        if b.last() == c {
            assert(split_char(a + b, c) == split_char(a + b2, c).push(Seq::empty()));
            assert((x + y).push(Seq::empty()) =~= x + y.push(Seq::empty()));
        } else {
            let r = x + y;
            assert(split_char(a + b, c) == r.update(r.len() - 1, r.last().push(b.last())));
            assert(r.update(r.len() - 1, r.last().push(b.last())) =~= x + y.update(y.len() - 1, y.last().push(b.last())));
        }
    }
}

/// One checked line and its line break.
pub proof fn lemma_good_line(l: Seq<char>)
    requires
        ok_line(l),
    ensures
        good_text(l + seq!['\n']),
{
    let s = l + seq!['\n'];
    lemma_split_no_sep(l, '\n');
    assert(s.drop_last() =~= l);
    assert(split_char(s, '\n') == split_char(l, '\n').push(Seq::empty()));
    assert(split_char(s, '\n')[0] == l);
}

/// Checked texts put one after the other make a checked text.
pub proof fn lemma_good_concat(a: Seq<char>, b: Seq<char>)
    requires
        good_text(a),
        good_text(b),
    ensures
        good_text(a + b),
{
    if a.len() == 0 {
        assert(a + b =~= b);
    } else if b.len() == 0 {
        assert(a + b =~= a);
    } else {
        lemma_split_concat(a, b, '\n');
        lemma_split_char_nonempty(a, '\n');
        lemma_split_char_nonempty(b, '\n');
        let pa = split_char(a, '\n');
        let pb = split_char(b, '\n');
        let p = split_char(a + b, '\n');
        assert((a + b).last() == b.last());
        assert forall|k: int| 0 <= k < p.len() - 1 implies errors_free(strip_cr(#[trigger] p[k])) by {
            if k < pa.len() - 1 {
                assert(p[k] == pa[k]);
            } else {
                assert(p[k] == pb[k - (pa.len() - 1)]);
            }
        }
    }
}

proof fn lemma_errors_empty(ls: Seq<Seq<char>>, n: nat)
    requires
        n <= ls.len(),
        forall|k: int| 0 <= k < n ==> errors_free(#[trigger] ls[k]),
    ensures
        media_errors(ls, n).len() == 0,
        variant_errors(ls, n).len() == 0,
    decreases n,
{
    if n > 0 {
        lemma_errors_empty(ls, (n - 1) as nat);
        assert(errors_free(ls[n - 1]));
    }
}

/// On a checked text, no entry check reports anything.
pub proof fn lemma_good_no_line_errors(s: Seq<char>)
    requires
        good_text(s),
    ensures
        media_errors(lines_of(s), lines_of(s).len()).len() == 0,
        variant_errors(lines_of(s), lines_of(s).len()).len() == 0,
{
    let p = split_char(s, '\n');
    lemma_split_char_nonempty(s, '\n');
    if s.len() == 0 {
        assert(lines_of(s).len() == 0);
    } else {
        assert(p == split_char(s.drop_last(), '\n').push(Seq::empty()));
        let ls = lines_of(s);
        assert(ls == Seq::new((p.len() - 1) as nat, |k: int| strip_cr(p[k])));
        assert forall|k: int| 0 <= k < ls.len() implies errors_free(#[trigger] ls[k]) by {
            assert(ls[k] == strip_cr(p[k]));
        }
    }
    lemma_errors_empty(lines_of(s), lines_of(s).len());
}


// ---------------------------------------------------------------------------
// Pieces of lines
// ---------------------------------------------------------------------------

proof fn lemma_no_nl(a: Seq<char>, b: Seq<char>)
    requires
        no_char(a, '\n'),
        no_char(b, '\n'),
    ensures
        no_char(a + b, '\n'),
{
    assert forall|i: int| 0 <= i < (a + b).len() implies (a + b)[i] != '\n' by {
        if i < a.len() {
            assert((a + b)[i] == a[i]);
        } else {
            assert((a + b)[i] == b[i - a.len()]);
        }
    }
}

proof fn lemma_has_left(x: Seq<char>, y: Seq<char>, pat: Seq<char>)
    requires
        contains(x, pat),
    ensures
        contains(x + y, pat),
{
    let i = choose|i: int| 0 <= i <= x.len() - pat.len() && #[trigger] lit_at(x, i, pat);
    assert((x + y).subrange(i, i + pat.len()) =~= x.subrange(i, i + pat.len()));
    assert(lit_at(x + y, i, pat));
}

proof fn lemma_has_right(x: Seq<char>, y: Seq<char>, pat: Seq<char>)
    requires
        contains(y, pat),
    ensures
        contains(x + y, pat),
{
    let i = choose|i: int| 0 <= i <= y.len() - pat.len() && #[trigger] lit_at(y, i, pat);
    assert((x + y).subrange(x.len() + i, x.len() + i + pat.len()) =~= y.subrange(i, i + pat.len()));
    assert(lit_at(x + y, x.len() + i, pat));
}

proof fn lemma_has_at(s: Seq<char>, i: int, pat: Seq<char>)
    requires
        0 <= i,
        i + pat.len() <= s.len(),
        s.subrange(i, i + pat.len()) == pat,
    ensures
        contains(s, pat),
{
    assert(lit_at(s, i, pat));
}

proof fn lemma_starts_left(x: Seq<char>, y: Seq<char>, p: Seq<char>)
    requires
        starts_with(x, p),
    ensures
        starts_with(x + y, p),
{
    assert((x + y).subrange(0, p.len() as int) =~= x.subrange(0, p.len() as int));
}

proof fn lemma_dec_no_nl(n: nat)
    ensures
        no_char(dec(n), '\n'),
        dec(n).len() >= 1,
        is_digit(dec(n).last()),
{
    lemma_dec_digits(n);
    assert forall|i: int| 0 <= i < dec(n).len() implies dec(n)[i] != '\n' by {
        assert(is_digit(dec(n)[i]));
    }
}


/// A line that does not begin like an entry (`#EXT-X-M...` or `#EXT-X-S...`).
pub open spec fn not_entry(l: Seq<char>) -> bool {
    !(l.len() >= 8 && l[0] == '#' && l[1] == 'E' && l[2] == 'X' && l[3] == 'T' && l[4] == '-' && l[5] == 'X'
        && l[6] == '-' && (l[7] == 'M' || l[7] == 'S'))
}

proof fn lemma_not_entry_free(l: Seq<char>)
    requires
        not_entry(l),
    ensures
        errors_free(l),
{
    reveal_strlit("#EXT-X-MEDIA:TYPE=AUDIO");
    reveal_strlit("#EXT-X-MEDIA:TYPE=SUBTITLES");
    reveal_strlit("#EXT-X-STREAM-INF");
    let pats = seq!["#EXT-X-MEDIA:TYPE=AUDIO"@, "#EXT-X-MEDIA:TYPE=SUBTITLES"@, "#EXT-X-STREAM-INF"@];
    assert forall|j: int| 0 <= j < 3 implies !starts_with(l, #[trigger] pats[j]) by {
        let p = pats[j];
        if starts_with(l, p) {
            let h = l.subrange(0, p.len() as int);
            assert(l[0] == h[0] && l[1] == h[1] && l[2] == h[2] && l[3] == h[3]);
            assert(l[4] == h[4] && l[5] == h[5] && l[6] == h[6] && l[7] == h[7]);
        }
    }
    assert(!starts_with(l, pats[0]));
    assert(!starts_with(l, pats[1]));
    assert(!starts_with(l, pats[2]));
}

/// A line that does not begin like an entry and has no line break.
proof fn lemma_plain_line(l: Seq<char>)
    requires
        not_entry(l),
        no_char(l, '\n'),
        l.len() == 0 || l.last() != '\r',
    ensures
        good_text(l + seq!['\n']),
{
    lemma_not_entry_free(l);
    assert(strip_cr(l) == l);
    lemma_good_line(l);
}


proof fn lemma_not_starts(l: Seq<char>, p: Seq<char>, i: int)
    requires
        0 <= i < p.len(),
        i < l.len(),
        l[i] != p[i],
    ensures
        !starts_with(l, p),
{
    if starts_with(l, p) {
        assert(l.subrange(0, p.len() as int)[i] == l[i]);
    }
}

proof fn lemma_group_name_ok(g: nat)
    ensures
        no_char(crate::master::group_name(g), '\n'),
{
    reveal_strlit("audio-ac3");
    reveal_strlit("audio-eac3");
    reveal_strlit("audio-mp3");
    reveal_strlit("audio-opus");
    reveal_strlit("audio-aac");
}

proof fn lemma_rfc_ok(l: Seq<char>)
    requires
        no_char(l, '\n'),
    ensures
        no_char(crate::master::rfc5646(l), '\n'),
{
    reveal_strlit("en");
    reveal_strlit("fr");
    reveal_strlit("de");
    reveal_strlit("es");
    reveal_strlit("it");
    reveal_strlit("ja");
    reveal_strlit("ko");
    reveal_strlit("zh");
    reveal_strlit("ru");
    reveal_strlit("pt");
}

proof fn lemma_yes_no_ok(b: bool)
    ensures
        no_char(crate::master::yes_no(b), '\n'),
{
    reveal_strlit("YES");
    reveal_strlit("NO");
}

proof fn lemma_track_name_ok(lang: Seq<char>, label: Seq<char>)
    requires
        no_char(lang, '\n'),
        no_char(crate::text::upper_text(lang), '\n'),
        no_char(label, '\n'),
    ensures
        no_char(crate::master::track_name(lang, label), '\n'),
{
    reveal_strlit(" ");
    lemma_no_nl(crate::text::upper_text(lang), " "@);
    lemma_no_nl(crate::text::upper_text(lang) + " "@, label);
}

proof fn lemma_audio_label_ok(a: crate::media::AudioStreamInfo)
    ensures
        no_char(crate::master::audio_label(a), '\n'),
{
    reveal_strlit("AAC (Transcoded)");
    reveal_strlit("AAC");
    reveal_strlit("Dolby Digital");
    reveal_strlit("Dolby Digital Plus");
    reveal_strlit("MP3");
    reveal_strlit("Opus");
    reveal_strlit("Audio");
}

proof fn lemma_audio_uri_ok(prefix: Seq<char>, a: crate::media::AudioStreamInfo)
    requires
        no_char(prefix, '\n'),
    ensures
        no_char(crate::master::audio_uri(prefix, a), '\n'),
{
    reveal_strlit("/a/");
    reveal_strlit("-aac.m3u8");
    reveal_strlit(".m3u8");
    let d = dec(a.stream_index as nat);
    lemma_dec_no_nl(a.stream_index as nat);
    lemma_no_nl(prefix, "/a/"@);
    lemma_no_nl(prefix + "/a/"@, d);
    let t = if a.is_transcoded { "-aac.m3u8"@ } else { ".m3u8"@ };
    lemma_no_nl(prefix + "/a/"@ + d, t);
}

/// An audio entry line, for single-line names and prefix.
proof fn lemma_audio_line(prefix: Seq<char>, a: crate::media::AudioStreamInfo, d: bool)
    requires
        no_char(prefix, '\n'),
        no_char(crate::master::lang_of(a.language), '\n'),
        no_char(crate::text::upper_text(crate::master::lang_of(a.language)), '\n'),
    ensures
        good_text(crate::master::audio_media_line(prefix, a, d)),
{
    let lang = crate::master::lang_of(a.language);
    let g = crate::master::group_name(crate::master::group_rank(a));
    let r = crate::master::rfc5646(lang);
    let nm = crate::master::track_name(lang, crate::master::audio_label(a));
    let yn = crate::master::yes_no(d);
    let u = crate::master::audio_uri(prefix, a);
    let a1 = "#EXT-X-MEDIA:TYPE=AUDIO,GROUP-ID=\""@;
    let a2 = "\",LANGUAGE=\""@;
    let a3 = "\",NAME=\""@;
    let a4 = "\",DEFAULT="@;
    let a5 = ",AUTOSELECT=YES,URI=\""@;
    let a6 = "\""@;
    reveal_strlit("#EXT-X-MEDIA:TYPE=AUDIO,GROUP-ID=\"");
    reveal_strlit("\",LANGUAGE=\"");
    reveal_strlit("\",NAME=\"");
    reveal_strlit("\",DEFAULT=");
    reveal_strlit(",AUTOSELECT=YES,URI=\"");
    reveal_strlit("\"");
    reveal_strlit("\"\n");
    reveal_strlit("#EXT-X-MEDIA:TYPE=AUDIO");
    reveal_strlit("#EXT-X-MEDIA:TYPE=SUBTITLES");
    reveal_strlit("#EXT-X-STREAM-INF");
    reveal_strlit("GROUP-ID=");
    reveal_strlit("LANGUAGE=");
    reveal_strlit("NAME=");
    reveal_strlit("URI=");
    let p1 = a1 + g;
    let p2 = p1 + a2;
    let p3 = p2 + r;
    let p4 = p3 + a3;
    let p5 = p4 + nm;
    let p6 = p5 + a4;
    let p7 = p6 + yn;
    let p8 = p7 + a5;
    let p9 = p8 + u;
    let l = p9 + a6;
    assert(crate::master::audio_media_line(prefix, a, d) =~= l + seq!['\n']);
    // no line break
    lemma_group_name_ok(crate::master::group_rank(a));
    lemma_rfc_ok(lang);
    lemma_audio_label_ok(a);
    lemma_track_name_ok(lang, crate::master::audio_label(a));
    lemma_yes_no_ok(d);
    lemma_audio_uri_ok(prefix, a);
    lemma_no_nl(a1, g);
    lemma_no_nl(p1, a2);
    lemma_no_nl(p2, r);
    lemma_no_nl(p3, a3);
    lemma_no_nl(p4, nm);
    lemma_no_nl(p5, a4);
    lemma_no_nl(p6, yn);
    lemma_no_nl(p7, a5);
    lemma_no_nl(p8, u);
    lemma_no_nl(p9, a6);
    // the last character is a quote
    assert(l.last() == '"');
    assert(strip_cr(l) == l);
    // an audio entry, not a subtitle or variant entry
    assert(a1.subrange(0, 23) =~= "#EXT-X-MEDIA:TYPE=AUDIO"@);
    lemma_starts_left(a1, g, "#EXT-X-MEDIA:TYPE=AUDIO"@);
    lemma_starts_left(p1, a2, "#EXT-X-MEDIA:TYPE=AUDIO"@);
    lemma_starts_left(p2, r, "#EXT-X-MEDIA:TYPE=AUDIO"@);
    lemma_starts_left(p3, a3, "#EXT-X-MEDIA:TYPE=AUDIO"@);
    lemma_starts_left(p4, nm, "#EXT-X-MEDIA:TYPE=AUDIO"@);
    lemma_starts_left(p5, a4, "#EXT-X-MEDIA:TYPE=AUDIO"@);
    lemma_starts_left(p6, yn, "#EXT-X-MEDIA:TYPE=AUDIO"@);
    lemma_starts_left(p7, a5, "#EXT-X-MEDIA:TYPE=AUDIO"@);
    lemma_starts_left(p8, u, "#EXT-X-MEDIA:TYPE=AUDIO"@);
    lemma_starts_left(p9, a6, "#EXT-X-MEDIA:TYPE=AUDIO"@);
    assert(l[18] == 'A');
    lemma_not_starts(l, "#EXT-X-MEDIA:TYPE=SUBTITLES"@, 18);
    assert(l[7] == 'M');
    lemma_not_starts(l, "#EXT-X-STREAM-INF"@, 7);
    // its attributes
    assert(a1.subrange(24, 33) =~= "GROUP-ID="@);
    assert(a2.subrange(2, 11) =~= "LANGUAGE="@);
    assert(a3.subrange(2, 7) =~= "NAME="@);
    assert(a5.subrange(16, 20) =~= "URI="@);
    lemma_has_at(a1, 24, "GROUP-ID="@);
    lemma_has_at(a2, 2, "LANGUAGE="@);
    lemma_has_at(a3, 2, "NAME="@);
    lemma_has_at(a5, 16, "URI="@);
    lemma_has_left(a1, g, "GROUP-ID="@);
    lemma_has_left(p1, a2, "GROUP-ID="@);
    lemma_has_right(p1, a2, "LANGUAGE="@);
    lemma_has_left(p2, r, "GROUP-ID="@);
    lemma_has_left(p2, r, "LANGUAGE="@);
    lemma_has_left(p3, a3, "GROUP-ID="@);
    lemma_has_left(p3, a3, "LANGUAGE="@);
    lemma_has_right(p3, a3, "NAME="@);
    lemma_has_left(p4, nm, "GROUP-ID="@);
    lemma_has_left(p4, nm, "LANGUAGE="@);
    lemma_has_left(p4, nm, "NAME="@);
    lemma_has_left(p5, a4, "GROUP-ID="@);
    lemma_has_left(p5, a4, "LANGUAGE="@);
    lemma_has_left(p5, a4, "NAME="@);
    lemma_has_left(p6, yn, "GROUP-ID="@);
    lemma_has_left(p6, yn, "LANGUAGE="@);
    lemma_has_left(p6, yn, "NAME="@);
    lemma_has_left(p7, a5, "GROUP-ID="@);
    lemma_has_left(p7, a5, "LANGUAGE="@);
    lemma_has_left(p7, a5, "NAME="@);
    lemma_has_right(p7, a5, "URI="@);
    lemma_has_left(p8, u, "GROUP-ID="@);
    lemma_has_left(p8, u, "LANGUAGE="@);
    lemma_has_left(p8, u, "NAME="@);
    lemma_has_left(p8, u, "URI="@);
    lemma_has_left(p9, a6, "GROUP-ID="@);
    lemma_has_left(p9, a6, "LANGUAGE="@);
    lemma_has_left(p9, a6, "NAME="@);
    lemma_has_left(p9, a6, "URI="@);
    assert(errors_free(l));
    lemma_good_line(l);
}


/// A subtitle entry line, for a single-line name and prefix.
proof fn lemma_subtitle_line(prefix: Seq<char>, t: crate::media::SubtitleStreamInfo, d: bool)
    requires
        no_char(prefix, '\n'),
        no_char(crate::master::lang_of(t.language), '\n'),
        no_char(crate::text::upper_text(crate::master::lang_of(t.language)), '\n'),
    ensures
        good_text(crate::master::subtitle_media_line(prefix, t, d)),
{
    let lang = crate::master::lang_of(t.language);
    let r = crate::master::rfc5646(lang);
    let up = crate::text::upper_text(lang);
    let yn = crate::master::yes_no(d);
    let dd = dec(t.stream_index as nat);
    let s1 = "#EXT-X-MEDIA:TYPE=SUBTITLES,GROUP-ID=\"subs\",LANGUAGE=\""@;
    let s2 = "\",NAME=\""@;
    let s3 = " Subtitles\",DEFAULT="@;
    let s4 = ",AUTOSELECT="@;
    let s5 = ",FORCED=NO,URI=\""@;
    let s6 = "/s/"@;
    let s7 = ".m3u8\""@;
    reveal_strlit("#EXT-X-MEDIA:TYPE=SUBTITLES,GROUP-ID=\"subs\",LANGUAGE=\"");
    reveal_strlit("\",NAME=\"");
    reveal_strlit(" Subtitles\",DEFAULT=");
    reveal_strlit(",AUTOSELECT=");
    reveal_strlit(",FORCED=NO,URI=\"");
    reveal_strlit("/s/");
    reveal_strlit(".m3u8\"");
    reveal_strlit(".m3u8\"\n");
    reveal_strlit("#EXT-X-MEDIA:TYPE=AUDIO");
    reveal_strlit("#EXT-X-MEDIA:TYPE=SUBTITLES");
    reveal_strlit("#EXT-X-STREAM-INF");
    reveal_strlit("GROUP-ID=");
    reveal_strlit("URI=");
    let p1 = s1 + r;
    let p2 = p1 + s2;
    let p3 = p2 + up;
    let p4 = p3 + s3;
    let p5 = p4 + yn;
    let p6 = p5 + s4;
    let p7 = p6 + yn;
    let p8 = p7 + s5;
    let p9 = p8 + prefix;
    let p10 = p9 + s6;
    let p11 = p10 + dd;
    let l = p11 + s7;
    assert(crate::master::subtitle_media_line(prefix, t, d) =~= l + seq!['\n']);
    lemma_rfc_ok(lang);
    lemma_yes_no_ok(d);
    lemma_dec_no_nl(t.stream_index as nat);
    lemma_no_nl(s1, r);
    lemma_no_nl(p1, s2);
    lemma_no_nl(p2, up);
    lemma_no_nl(p3, s3);
    lemma_no_nl(p4, yn);
    lemma_no_nl(p5, s4);
    lemma_no_nl(p6, yn);
    lemma_no_nl(p7, s5);
    lemma_no_nl(p8, prefix);
    lemma_no_nl(p9, s6);
    lemma_no_nl(p10, dd);
    lemma_no_nl(p11, s7);
    assert(l.last() == '"');
    assert(strip_cr(l) == l);
    let sub = "#EXT-X-MEDIA:TYPE=SUBTITLES"@;
    assert(s1.subrange(0, 27) =~= sub);
    lemma_starts_left(s1, r, sub);
    lemma_starts_left(p1, s2, sub);
    lemma_starts_left(p2, up, sub);
    lemma_starts_left(p3, s3, sub);
    lemma_starts_left(p4, yn, sub);
    lemma_starts_left(p5, s4, sub);
    lemma_starts_left(p6, yn, sub);
    lemma_starts_left(p7, s5, sub);
    lemma_starts_left(p8, prefix, sub);
    lemma_starts_left(p9, s6, sub);
    lemma_starts_left(p10, dd, sub);
    lemma_starts_left(p11, s7, sub);
    assert(l[18] == 'S');
    lemma_not_starts(l, "#EXT-X-MEDIA:TYPE=AUDIO"@, 18);
    assert(l[7] == 'M');
    lemma_not_starts(l, "#EXT-X-STREAM-INF"@, 7);
    assert(s1.subrange(28, 37) =~= "GROUP-ID="@);
    assert(s5.subrange(11, 15) =~= "URI="@);
    lemma_has_at(s1, 28, "GROUP-ID="@);
    lemma_has_at(s5, 11, "URI="@);
    lemma_has_left(s1, r, "GROUP-ID="@);
    lemma_has_left(p1, s2, "GROUP-ID="@);
    lemma_has_left(p2, up, "GROUP-ID="@);
    lemma_has_left(p3, s3, "GROUP-ID="@);
    lemma_has_left(p4, yn, "GROUP-ID="@);
    lemma_has_left(p5, s4, "GROUP-ID="@);
    lemma_has_left(p6, yn, "GROUP-ID="@);
    lemma_has_left(p7, s5, "GROUP-ID="@);
    lemma_has_right(p7, s5, "URI="@);
    lemma_has_left(p8, prefix, "GROUP-ID="@);
    lemma_has_left(p8, prefix, "URI="@);
    lemma_has_left(p9, s6, "GROUP-ID="@);
    lemma_has_left(p9, s6, "URI="@);
    lemma_has_left(p10, dd, "GROUP-ID="@);
    lemma_has_left(p10, dd, "URI="@);
    lemma_has_left(p11, s7, "GROUP-ID="@);
    lemma_has_left(p11, s7, "URI="@);
    assert(errors_free(l));
    lemma_good_line(l);
}

/// The line naming the video playlist.
proof fn lemma_uri_line(prefix: Seq<char>)
    requires
        prefix_ok(prefix),
    ensures
        good_text(crate::master::media_uri_line(prefix)),
{
    reveal_strlit("/v/media.m3u8");
    reveal_strlit("/v/media.m3u8\n");
    let l = prefix + "/v/media.m3u8"@;
    assert(crate::master::media_uri_line(prefix) =~= l + seq!['\n']);
    lemma_no_nl(prefix, "/v/media.m3u8"@);
    assert(l.last() == '8');
    assert(strip_cr(l) == l);
    lemma_good_line(l);
}

proof fn lemma_hex2_ok(b: nat)
    requires
        b <= 255,
    ensures
        no_char(crate::master::hex2(b), '\n'),
{
    assert(b / 16 < 16);
    assert(b % 16 < 16);
}

proof fn lemma_video_codec_ok(v: crate::media::VideoStreamInfo)
    ensures
        match crate::master::video_codec_string(v) {
            Some(c) => no_char(c, '\n'),
            None => true,
        },
{
    reveal_strlit("avc1.");
    reveal_strlit("00");
    reveal_strlit("hvc1.1.6.L");
    reveal_strlit(".B0");
    reveal_strlit("vp09.00.10.08");
    reveal_strlit("av01.0.08M.08");
    match v.codec_id {
        crate::media::CodecId::H264 => {
            let x = crate::master::hex2(crate::master::byte_or(v.profile, 100));
            let y = crate::master::hex2(crate::master::byte_or(v.level, 40));
            lemma_hex2_ok(crate::master::byte_or(v.profile, 100));
            lemma_hex2_ok(crate::master::byte_or(v.level, 40));
            lemma_no_nl("avc1."@, x);
            lemma_no_nl("avc1."@ + x, "00"@);
            lemma_no_nl("avc1."@ + x + "00"@, y);
        },
        crate::media::CodecId::HEVC => {
            let d = dec(crate::master::level_or(v.level, 120));
            lemma_dec_no_nl(crate::master::level_or(v.level, 120));
            lemma_no_nl("hvc1.1.6.L"@, d);
            lemma_no_nl("hvc1.1.6.L"@ + d, ".B0"@);
        },
        _ => {},
    }
}

proof fn lemma_resolution_ok(v: crate::media::VideoStreamInfo)
    ensures
        no_char(crate::master::resolution(v), '\n'),
        crate::master::resolution(v).len() > 0,
        is_digit(crate::master::resolution(v).last()),
{
    reveal_strlit("x");
    lemma_dec_no_nl(v.width as nat);
    lemma_dec_no_nl(v.height as nat);
    lemma_no_nl(dec(v.width as nat), "x"@);
    lemma_no_nl(dec(v.width as nat) + "x"@, dec(v.height as nat));
}

proof fn lemma_group_codecs_ok(v: crate::media::VideoStreamInfo, g: nat, has_subs: bool)
    ensures
        no_char(crate::master::group_codecs(v, g, has_subs), '\n'),
{
    reveal_strlit(",");
    reveal_strlit(",wvtt");
    reveal_strlit("ac-3");
    reveal_strlit("ec-3");
    reveal_strlit("mp4a.40.34");
    reveal_strlit("Opus");
    reveal_strlit("mp4a.40.2");
    lemma_video_codec_ok(v);
    let oc = crate::master::opt_comma(crate::master::video_codec_string(v));
    match crate::master::video_codec_string(v) {
        Some(c) => {
            lemma_no_nl(c, ","@);
        },
        None => {},
    }
    let gc = crate::master::group_codec(g);
    lemma_no_nl(oc, gc);
    let w = if has_subs { ",wvtt"@ } else { Seq::<char>::empty() };
    lemma_no_nl(oc + gc, w);
}


/// What every variant line is: `#EXT-X-STREAM-INF:BANDWIDTH=<n>,RESOLUTION=`
/// followed by a single-line rest that ends neither in `\r` nor empty.
proof fn lemma_stream_inf_line(db: Seq<char>, rest: Seq<char>)
    requires
        no_char(db, '\n'),
        no_char(rest, '\n'),
        rest.len() > 0,
        rest.last() != '\r',
    ensures
        good_text("#EXT-X-STREAM-INF:BANDWIDTH="@ + db + ",RESOLUTION="@ + rest + seq!['\n']),
        starts_with("#EXT-X-STREAM-INF:BANDWIDTH="@ + db + ",RESOLUTION="@ + rest + seq!['\n'], "#EXT-X-STREAM-INF"@),
{
    let t1 = "#EXT-X-STREAM-INF:BANDWIDTH="@;
    let t2 = ",RESOLUTION="@;
    reveal_strlit("#EXT-X-STREAM-INF:BANDWIDTH=");
    reveal_strlit(",RESOLUTION=");
    reveal_strlit("#EXT-X-MEDIA:TYPE=AUDIO");
    reveal_strlit("#EXT-X-MEDIA:TYPE=SUBTITLES");
    reveal_strlit("#EXT-X-STREAM-INF");
    reveal_strlit("BANDWIDTH=");
    reveal_strlit("RESOLUTION=");
    let p1 = t1 + db;
    let p2 = p1 + t2;
    let l = p2 + rest;
    lemma_no_nl(t1, db);
    lemma_no_nl(p1, t2);
    lemma_no_nl(p2, rest);
    assert(l.last() == rest.last());
    assert(strip_cr(l) == l);
    let si = "#EXT-X-STREAM-INF"@;
    assert(t1.subrange(0, 17) =~= si);
    lemma_starts_left(t1, db, si);
    lemma_starts_left(p1, t2, si);
    lemma_starts_left(p2, rest, si);
    assert(l[7] == 'S');
    lemma_not_starts(l, "#EXT-X-MEDIA:TYPE=AUDIO"@, 7);
    lemma_not_starts(l, "#EXT-X-MEDIA:TYPE=SUBTITLES"@, 7);
    assert(t1.subrange(18, 28) =~= "BANDWIDTH="@);
    assert(t2.subrange(1, 12) =~= "RESOLUTION="@);
    lemma_has_at(t1, 18, "BANDWIDTH="@);
    lemma_has_at(t2, 1, "RESOLUTION="@);
    lemma_has_left(t1, db, "BANDWIDTH="@);
    lemma_has_left(p1, t2, "BANDWIDTH="@);
    lemma_has_right(p1, t2, "RESOLUTION="@);
    lemma_has_left(p2, rest, "BANDWIDTH="@);
    lemma_has_left(p2, rest, "RESOLUTION="@);
    assert(errors_free(l));
    lemma_good_line(l);
    lemma_starts_left(l, seq!['\n'], si);
}

proof fn lemma_subtitle_attr_ok(has_subs: bool)
    ensures
        no_char(crate::master::subtitle_attr(has_subs), '\n'),
        has_subs ==> crate::master::subtitle_attr(has_subs).len() > 0 && crate::master::subtitle_attr(has_subs).last() == '"',
        !has_subs ==> crate::master::subtitle_attr(has_subs).len() == 0,
{
    reveal_strlit(",SUBTITLES=\"subs\"");
}

/// The variant of one audio codec group, with the line naming the video playlist.
proof fn lemma_group_variant(prefix: Seq<char>, v: crate::media::VideoStreamInfo, s: Seq<crate::media::AudioStreamInfo>, g: nat, has_subs: bool)
    requires
        prefix_ok(prefix),
    ensures
        good_text(crate::master::group_variant(prefix, v, s, g, has_subs)),
        contains(crate::master::group_variant(prefix, v, s, g, has_subs), "#EXT-X-STREAM-INF"@),
{
    reveal_strlit("#EXT-X-STREAM-INF:BANDWIDTH=");
    reveal_strlit(",RESOLUTION=");
    reveal_strlit(",AUDIO=\"");
    reveal_strlit("\",CODECS=\"");
    reveal_strlit("\"");
    reveal_strlit("\n");
    let db = dec(crate::master::bandwidth(v.bitrate, crate::master::group_bitrate_sum(s, g, s.len())));
    let res = crate::master::resolution(v);
    let gn = crate::master::group_name(g);
    let gc = crate::master::group_codecs(v, g, has_subs);
    let sa = crate::master::subtitle_attr(has_subs);
    let rest = res + ",AUDIO=\""@ + gn + "\",CODECS=\""@ + gc + "\""@ + sa;
    lemma_dec_no_nl(crate::master::bandwidth(v.bitrate, crate::master::group_bitrate_sum(s, g, s.len())));
    lemma_resolution_ok(v);
    lemma_group_name_ok(g);
    lemma_group_codecs_ok(v, g, has_subs);
    lemma_subtitle_attr_ok(has_subs);
    lemma_no_nl(res, ",AUDIO=\""@);
    lemma_no_nl(res + ",AUDIO=\""@, gn);
    lemma_no_nl(res + ",AUDIO=\""@ + gn, "\",CODECS=\""@);
    lemma_no_nl(res + ",AUDIO=\""@ + gn + "\",CODECS=\""@, gc);
    lemma_no_nl(res + ",AUDIO=\""@ + gn + "\",CODECS=\""@ + gc, "\""@);
    lemma_no_nl(res + ",AUDIO=\""@ + gn + "\",CODECS=\""@ + gc + "\""@, sa);
    assert(rest.last() == '"');
    lemma_stream_inf_line(db, rest);
    let line = "#EXT-X-STREAM-INF:BANDWIDTH="@ + db + ",RESOLUTION="@ + rest + seq!['\n'];
    assert(crate::master::group_variant(prefix, v, s, g, has_subs) =~= line + crate::master::media_uri_line(prefix));
    lemma_uri_line(prefix);
    lemma_good_concat(line, crate::master::media_uri_line(prefix));
    lemma_starts_left(line, crate::master::media_uri_line(prefix), "#EXT-X-STREAM-INF"@);
    reveal_strlit("#EXT-X-STREAM-INF");
    lemma_has_at(line + crate::master::media_uri_line(prefix), 0, "#EXT-X-STREAM-INF"@);
}

/// The single variant of a file without audio, with the line naming the video playlist.
proof fn lemma_video_only_variant(prefix: Seq<char>, v: crate::media::VideoStreamInfo, has_subs: bool)
    requires
        prefix_ok(prefix),
    ensures
        good_text(crate::master::video_only_variant(prefix, v, has_subs)),
        contains(crate::master::video_only_variant(prefix, v, has_subs), "#EXT-X-STREAM-INF"@),
{
    reveal_strlit("#EXT-X-STREAM-INF:BANDWIDTH=");
    reveal_strlit(",RESOLUTION=");
    reveal_strlit(",CODECS=\"");
    reveal_strlit(",wvtt");
    reveal_strlit("\"");
    reveal_strlit(",CODECS=\"wvtt\"");
    reveal_strlit("\n");
    let db = dec(crate::master::bandwidth(v.bitrate, 0));
    let res = crate::master::resolution(v);
    let sa = crate::master::subtitle_attr(has_subs);
    let voc = crate::master::video_only_codecs(v, has_subs);
    let rest = res + sa + voc;
    lemma_dec_no_nl(crate::master::bandwidth(v.bitrate, 0));
    lemma_resolution_ok(v);
    lemma_subtitle_attr_ok(has_subs);
    lemma_video_codec_ok(v);
    match crate::master::video_codec_string(v) {
        Some(c) => {
            let w = if has_subs { ",wvtt"@ } else { Seq::<char>::empty() };
            lemma_no_nl(",CODECS=\""@, c);
            lemma_no_nl(",CODECS=\""@ + c, w);
            lemma_no_nl(",CODECS=\""@ + c + w, "\""@);
            assert(voc.len() > 0 && voc.last() == '"');
        },
        None => {},
    }
    lemma_no_nl(res, sa);
    lemma_no_nl(res + sa, voc);
    assert(rest.last() != '\r') by {
        if voc.len() > 0 {
            assert(rest.last() == voc.last());
        } else if sa.len() > 0 {
            assert(rest.last() == sa.last());
        } else {
            assert(rest.last() == res.last());
        }
    }
    lemma_stream_inf_line(db, rest);
    let line = "#EXT-X-STREAM-INF:BANDWIDTH="@ + db + ",RESOLUTION="@ + rest + seq!['\n'];
    assert(crate::master::video_only_variant(prefix, v, has_subs) =~= line + crate::master::media_uri_line(prefix));
    lemma_uri_line(prefix);
    lemma_good_concat(line, crate::master::media_uri_line(prefix));
    lemma_starts_left(line, crate::master::media_uri_line(prefix), "#EXT-X-STREAM-INF"@);
    reveal_strlit("#EXT-X-STREAM-INF");
    lemma_has_at(line + crate::master::media_uri_line(prefix), 0, "#EXT-X-STREAM-INF"@);
}


// ---------------------------------------------------------------------------
// Sections and the whole playlist
// ---------------------------------------------------------------------------

/// Language tags (and their upper-case forms) hold no line break.
pub open spec fn audio_names_single_line(s: Seq<crate::media::AudioStreamInfo>) -> bool {
    forall|k: int| 0 <= k < s.len() ==> {
        let l = crate::master::lang_of(#[trigger] s[k].language);
        no_char(l, '\n') && no_char(crate::text::upper_text(l), '\n')
    }
}

pub open spec fn subtitle_names_single_line(t: Seq<crate::media::SubtitleStreamInfo>) -> bool {
    forall|k: int| 0 <= k < t.len() ==> {
        let l = crate::master::lang_of(#[trigger] t[k].language);
        no_char(l, '\n') && no_char(crate::text::upper_text(l), '\n')
    }
}

/// A single-line prefix whose line naming the video playlist passes the
/// entry checks.
pub open spec fn prefix_ok(prefix: Seq<char>) -> bool {
    no_char(prefix, '\n') && errors_free(prefix + "/v/media.m3u8"@)
}

proof fn lemma_audio_lines(prefix: Seq<char>, s: Seq<crate::media::AudioStreamInfo>, o: Seq<usize>, n: nat)
    requires
        prefix_ok(prefix),
        audio_names_single_line(s),
        n <= o.len(),
        forall|k: int| 0 <= k < n ==> (#[trigger] o[k]) < s.len(),
    ensures
        good_text(crate::master::audio_media_lines(prefix, s, o, n)),
    decreases n,
{
    if n > 0 {
        lemma_audio_lines(prefix, s, o, (n - 1) as nat);
        let i = o[n - 1] as int;
        assert(o[n - 1] < s.len());
        let a = s[i];
        let d = !crate::master::group_seen(s, o, (n - 1) as nat, crate::master::group_rank(a));
        lemma_audio_line(prefix, a, d);
        lemma_good_concat(crate::master::audio_media_lines(prefix, s, o, (n - 1) as nat), crate::master::audio_media_line(prefix, a, d));
    }
}

proof fn lemma_subtitle_lines(prefix: Seq<char>, t: Seq<crate::media::SubtitleStreamInfo>, n: nat)
    requires
        prefix_ok(prefix),
        subtitle_names_single_line(t),
        n <= t.len(),
    ensures
        good_text(crate::master::subtitle_media_lines(prefix, t, n)),
    decreases n,
{
    if n > 0 {
        lemma_subtitle_lines(prefix, t, (n - 1) as nat);
        lemma_subtitle_line(prefix, t[n - 1], n == 1);
        lemma_good_concat(crate::master::subtitle_media_lines(prefix, t, (n - 1) as nat), crate::master::subtitle_media_line(prefix, t[n - 1], n == 1));
    }
}

proof fn lemma_group_variants(prefix: Seq<char>, v: crate::media::VideoStreamInfo, s: Seq<crate::media::AudioStreamInfo>, groups: Seq<usize>, has_subs: bool, n: nat)
    requires
        prefix_ok(prefix),
        n <= groups.len(),
    ensures
        good_text(crate::master::group_variants(prefix, v, s, groups, has_subs, n)),
        n > 0 ==> contains(crate::master::group_variants(prefix, v, s, groups, has_subs, n), "#EXT-X-STREAM-INF"@),
    decreases n,
{
    if n > 0 {
        let prev = crate::master::group_variants(prefix, v, s, groups, has_subs, (n - 1) as nat);
        let last = crate::master::group_variant(prefix, v, s, groups[n - 1] as nat, has_subs);
        lemma_group_variants(prefix, v, s, groups, has_subs, (n - 1) as nat);
        lemma_group_variant(prefix, v, s, groups[n - 1] as nat, has_subs);
        lemma_good_concat(prev, last);
        lemma_has_right(prev, last, "#EXT-X-STREAM-INF"@);
    }
}

/// A comment or header line of its own.
proof fn lemma_header(l: Seq<char>, with_nl: Seq<char>)
    requires
        with_nl == l + seq!['\n'],
        not_entry(l),
        no_char(l, '\n'),
        l.len() == 0 || l.last() != '\r',
    ensures
        good_text(with_nl),
{
    lemma_plain_line(l);
}

proof fn lemma_sections(idx: crate::media::StreamIndex, prefix: Seq<char>)
    requires
        prefix_ok(prefix),
        audio_names_single_line(idx.audio_streams@),
        subtitle_names_single_line(idx.subtitle_streams@),
        idx.audio_streams@.len() <= usize::MAX,
    ensures
        good_text(crate::master::audio_section(idx, prefix)),
        good_text(crate::master::subtitle_section(idx, prefix)),
        good_text(crate::master::video_section(idx, prefix)),
        idx.video_streams@.len() > 0 ==> contains(crate::master::video_section(idx, prefix), "#EXT-X-STREAM-INF"@),
{
    reveal_strlit("# Audio Tracks");
    reveal_strlit("# Audio Tracks\n");
    reveal_strlit("# Subtitle Tracks");
    reveal_strlit("# Subtitle Tracks\n");
    reveal_strlit("# Video Variants");
    reveal_strlit("# Video Variants\n");
    reveal_strlit("\n");
    assert("\n"@ =~= Seq::<char>::empty() + seq!['\n']);
    lemma_header(Seq::empty(), "\n"@);
    let s = idx.audio_streams@;
    if s.len() > 0 {
        let o = crate::master::audio_order(s, s.len());
        crate::master::law_audio_listing_sorted(s);
        assert("# Audio Tracks\n"@ =~= "# Audio Tracks"@ + seq!['\n']);
        assert("# Audio Tracks\n"@ =~= "# Audio Tracks"@ + seq!['\n']);
    lemma_header("# Audio Tracks"@, "# Audio Tracks\n"@);
        lemma_audio_lines(prefix, s, o, s.len());
        let body = crate::master::audio_media_lines(prefix, s, o, s.len());
        lemma_good_concat("# Audio Tracks\n"@, body);
        lemma_good_concat("# Audio Tracks\n"@ + body, "\n"@);
    }
    let t = idx.subtitle_streams@;
    if t.len() > 0 {
        assert("# Subtitle Tracks\n"@ =~= "# Subtitle Tracks"@ + seq!['\n']);
        assert("# Subtitle Tracks\n"@ =~= "# Subtitle Tracks"@ + seq!['\n']);
    lemma_header("# Subtitle Tracks"@, "# Subtitle Tracks\n"@);
        lemma_subtitle_lines(prefix, t, t.len());
        let body = crate::master::subtitle_media_lines(prefix, t, t.len());
        lemma_good_concat("# Subtitle Tracks\n"@, body);
        lemma_good_concat("# Subtitle Tracks\n"@ + body, "\n"@);
    }
    assert("# Video Variants\n"@ =~= "# Video Variants"@ + seq!['\n']);
    lemma_header("# Video Variants"@, "# Video Variants\n"@);
    let has_subs = t.len() > 0;
    if idx.video_streams@.len() == 0 {
        assert(crate::master::video_section(idx, prefix) =~= "# Video Variants\n"@);
    } else {
        let v = idx.video_streams@[0];
        let groups = crate::master::distinct_groups(s, s.len());
        let x = if groups.len() == 0 {
            crate::master::video_only_variant(prefix, v, has_subs)
        } else {
            crate::master::group_variants(prefix, v, s, groups, has_subs, groups.len())
        };
        if groups.len() == 0 {
            lemma_video_only_variant(prefix, v, has_subs);
        } else {
            lemma_group_variants(prefix, v, s, groups, has_subs, groups.len());
        }
        lemma_good_concat("# Video Variants\n"@, x);
        lemma_has_right("# Video Variants\n"@, x, "#EXT-X-STREAM-INF"@);
    }
}

/// The master playlist check accepts every master playlist the writer
/// produces for a file with video, when the URI prefix and the language
/// tags (also upper-cased) are single lines and the line naming the video
/// playlist is not itself taken for an entry.
pub proof fn law_generated_master_playlist_valid(idx: crate::media::StreamIndex, prefix: Seq<char>)
    requires
        idx.video_streams@.len() > 0,
        prefix_ok(prefix),
        audio_names_single_line(idx.audio_streams@),
        subtitle_names_single_line(idx.subtitle_streams@),
        idx.audio_streams@.len() <= usize::MAX,
    ensures
        master_errors(crate::master::master_playlist(idx, prefix)).len() == 0,
{
    reveal_strlit("#EXTM3U\n#EXT-X-VERSION:7\n\n");
    reveal_strlit("#EXTM3U");
    reveal_strlit("#EXT-X-VERSION:7");
    reveal_strlit("#EXT-X-VERSION");
    reveal_strlit("#EXT-X-STREAM-INF");
    let h = "#EXTM3U\n#EXT-X-VERSION:7\n\n"@;
    let h1 = "#EXTM3U"@ + seq!['\n'];
    let h2 = "#EXT-X-VERSION:7"@ + seq!['\n'];
    let h3 = Seq::<char>::empty() + seq!['\n'];
    assert(h =~= h1 + h2 + h3);
    lemma_header("#EXTM3U"@, h1);
    lemma_header("#EXT-X-VERSION:7"@, h2);
    lemma_header(Seq::empty(), h3);
    lemma_good_concat(h1, h2);
    lemma_good_concat(h1 + h2, h3);
    lemma_sections(idx, prefix);
    let a = crate::master::audio_section(idx, prefix);
    let st = crate::master::subtitle_section(idx, prefix);
    let vs = crate::master::video_section(idx, prefix);
    let m = crate::master::master_playlist(idx, prefix);
    assert(m == h + a + st + vs);
    lemma_good_concat(h, a);
    lemma_good_concat(h + a, st);
    lemma_good_concat(h + a + st, vs);
    lemma_good_no_line_errors(m);
    assert(h.subrange(0, 7) =~= "#EXTM3U"@);
    assert(h.subrange(8, 22) =~= "#EXT-X-VERSION"@);
    lemma_has_at(h, 0, "#EXTM3U"@);
    lemma_has_at(h, 8, "#EXT-X-VERSION"@);
    lemma_has_left(h, a, "#EXTM3U"@);
    lemma_has_left(h, a, "#EXT-X-VERSION"@);
    lemma_has_left(h + a, st, "#EXTM3U"@);
    lemma_has_left(h + a, st, "#EXT-X-VERSION"@);
    lemma_has_left(h + a + st, vs, "#EXTM3U"@);
    lemma_has_left(h + a + st, vs, "#EXT-X-VERSION"@);
    lemma_has_right(h + a + st, vs, "#EXT-X-STREAM-INF"@);
}

} // verus!
