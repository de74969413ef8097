//! Audio track planning: which audio renditions a stream offers, per language.
//!
//! Every language gets its natively playable renditions, and an AAC
//! rendition: the native one when there is one, else a transcode of its
//! first playable (or, failing that, first) stream.  Streams that HLS cannot
//! play are offered as AAC transcodes, each once.  AAC, AC-3, E-AC-3, MP3
//! and Opus count as playable, so an Opus or MP3 stream is offered as it is
//! and, where its language has no AAC, as an AAC transcode too.  Languages come in the order in which
//! they first occur among the streams.

use vstd::prelude::*;
use crate::text::{str_eq, push_str, clone_opt};
use crate::media::{AudioStreamInfo, CodecId, is_hls_supported_codec, is_audio_codec,
    spec_is_hls_supported, spec_is_audio_codec};
use crate::master::{lang_of, track_name, make_track_name};

verus! {

/// One audio rendition of the master playlist.
pub struct AudioVariant {
    /// Stream index in the source file.
    pub stream_index: usize,
    /// Codec served (AAC for transcoded renditions).
    pub codec_id: CodecId,
    pub language: Option<String>,
    pub requires_transcode: bool,
    /// Display name.
    pub name: Option<String>,
    pub is_default: bool,
}

pub struct AudioVariantView {
    pub stream_index: usize,
    pub codec_id: CodecId,
    pub language: Option<Seq<char>>,
    pub requires_transcode: bool,
    pub name: Option<Seq<char>>,
    pub is_default: bool,
}

impl View for AudioVariant {
    type V = AudioVariantView;

    open spec fn view(&self) -> AudioVariantView {
        AudioVariantView {
            stream_index: self.stream_index,
            codec_id: self.codec_id,
            language: crate::url::opt_view(self.language),
            requires_transcode: self.requires_transcode,
            name: crate::url::opt_view(self.name),
            is_default: self.is_default,
        }
    }
}

/// The audio renditions of a stream.
pub struct AudioTrackPlan {
    pub variants: Vec<AudioVariant>,
    /// Some rendition must be transcoded.
    pub requires_transcoding: bool,
}

pub open spec fn variant_views(v: Seq<AudioVariant>) -> Seq<AudioVariantView> {
    v.map_values(|a: AudioVariant| a@)
}

// ---------------------------------------------------------------------------
// The plan as a function of the streams
// ---------------------------------------------------------------------------

/// The languages of the first `n` streams, each once, in first-seen order.
pub open spec fn plan_languages(s: Seq<AudioStreamInfo>, n: nat) -> Seq<Seq<char>>
    decreases n,
{
    if n == 0 {
        Seq::empty()
    } else {
        let p = plan_languages(s, (n - 1) as nat);
        let l = lang_of(s[n - 1].language);
        if p.contains(l) {
            p
        } else {
            p.push(l)
        }
    }
}

pub open spec fn lang_opt(l: Seq<char>) -> Option<Seq<char>> {
    if l == "und"@ {
        None
    } else {
        Some(l)
    }
}

pub open spec fn native_label(c: CodecId) -> Seq<char> {
    match c {
        CodecId::AAC => "AAC"@,
        CodecId::AC3 => "Dolby Digital"@,
        CodecId::EAC3 => "Dolby Digital Plus"@,
        CodecId::MP3 => "MP3"@,
        CodecId::OPUS => "Opus"@,
        _ => "Audio"@,
    }
}

pub open spec fn other_label(c: CodecId) -> Seq<char> {
    match c {
        CodecId::VORBIS => "Vorbis"@,
        CodecId::FLAC => "FLAC"@,
        _ => "Audio"@,
    }
}

pub open spec fn native_view(a: AudioStreamInfo, l: Seq<char>) -> AudioVariantView {
    AudioVariantView {
        stream_index: a.stream_index,
        codec_id: a.codec_id,
        language: lang_opt(l),
        requires_transcode: false,
        name: Some(track_name(l, native_label(a.codec_id))),
        is_default: false,
    }
}

pub open spec fn aac_view(a: AudioStreamInfo, l: Seq<char>) -> AudioVariantView {
    AudioVariantView {
        stream_index: a.stream_index,
        codec_id: CodecId::AAC,
        language: lang_opt(l),
        requires_transcode: true,
        name: Some(track_name(l, "AAC (Transcoded)"@)),
        is_default: false,
    }
}

pub open spec fn other_view(a: AudioStreamInfo, l: Seq<char>) -> AudioVariantView {
    AudioVariantView {
        stream_index: a.stream_index,
        codec_id: CodecId::AAC,
        language: lang_opt(l),
        requires_transcode: true,
        name: Some(track_name(l, other_label(a.codec_id) + " (Transcoded)"@)),
        is_default: false,
    }
}

pub open spec fn in_lang(a: AudioStreamInfo, l: Seq<char>) -> bool {
    lang_of(a.language) == l
}

/// Native renditions of language `l` among the first `n` streams.
pub open spec fn natives_of(s: Seq<AudioStreamInfo>, l: Seq<char>, n: nat) -> Seq<AudioVariantView>
    decreases n,
{
    if n == 0 {
        Seq::empty()
    } else {
        natives_of(s, l, (n - 1) as nat) + if in_lang(s[n - 1], l) && spec_is_hls_supported(
            s[n - 1].codec_id,
        ) {
            seq![native_view(s[n - 1], l)]
        } else {
            Seq::empty()
        }
    }
}

/// AAC transcodes of the streams of language `l`, among the first `n`, that HLS cannot play.
pub open spec fn others_of(s: Seq<AudioStreamInfo>, l: Seq<char>, n: nat) -> Seq<AudioVariantView>
    decreases n,
{
    if n == 0 {
        Seq::empty()
    } else {
        others_of(s, l, (n - 1) as nat) + if in_lang(s[n - 1], l) && !spec_is_hls_supported(
            s[n - 1].codec_id,
        ) && spec_is_audio_codec(s[n - 1].codec_id) {
            seq![other_view(s[n - 1], l)]
        } else {
            Seq::empty()
        }
    }
}

pub open spec fn has_native_aac(s: Seq<AudioStreamInfo>, l: Seq<char>) -> bool {
    exists|k: int| 0 <= k < s.len() && in_lang(#[trigger] s[k], l) && s[k].codec_id == CodecId::AAC
}

/// The first stream from position `from` on in language `l` (and playable,
/// when `playable` is set).
pub open spec fn first_in_lang(s: Seq<AudioStreamInfo>, l: Seq<char>, playable: bool, from: int) -> Option<int>
    decreases s.len() - from,
{
    if from >= s.len() || from < 0 {
        None
    } else if in_lang(s[from], l) && (!playable || spec_is_hls_supported(s[from].codec_id)) {
        Some(from)
    } else {
        first_in_lang(s, l, playable, from + 1)
    }
}

/// The AAC transcode a language gets when it has no native AAC rendition:
/// of its first playable stream, else of its first stream, unless that
/// stream is an audio stream that HLS cannot play, which has a transcode of
/// its own among the others.
pub open spec fn transcode_of(s: Seq<AudioStreamInfo>, l: Seq<char>) -> Seq<AudioVariantView> {
    if has_native_aac(s, l) {
        Seq::empty()
    } else {
        match first_in_lang(s, l, true, 0) {
            Some(k) => seq![aac_view(s[k], l)],
            None => match first_in_lang(s, l, false, 0) {
                Some(k) => if spec_is_audio_codec(s[k].codec_id) {
                    Seq::empty()
                } else {
                    seq![aac_view(s[k], l)]
                },
                None => Seq::empty(),
            },
        }
    }
}

pub open spec fn lang_variants(s: Seq<AudioStreamInfo>, l: Seq<char>) -> Seq<AudioVariantView> {
    transcode_of(s, l) + natives_of(s, l, s.len()) + others_of(s, l, s.len())
}

/// The renditions of the first `m` languages.
pub open spec fn plan_flat(s: Seq<AudioStreamInfo>, langs: Seq<Seq<char>>, m: nat) -> Seq<AudioVariantView>
    decreases m,
{
    if m == 0 {
        Seq::empty()
    } else {
        plan_flat(s, langs, (m - 1) as nat) + lang_variants(s, langs[m - 1])
    }
}

pub open spec fn mark_default(v: AudioVariantView, d: bool) -> AudioVariantView {
    AudioVariantView { is_default: d, ..v }
}

/// The renditions of all languages; the first one is the default.
pub open spec fn planned_variants(s: Seq<AudioStreamInfo>) -> Seq<AudioVariantView> {
    let langs = plan_languages(s, s.len());
    let f = plan_flat(s, langs, langs.len());
    Seq::new(f.len(), |k: int| mark_default(f[k], k == 0))
}

pub open spec fn any_transcode(v: Seq<AudioVariantView>) -> bool {
    exists|k: int| 0 <= k < v.len() && (#[trigger] v[k]).requires_transcode
}

pub open spec fn marked(f: Seq<AudioVariantView>) -> Seq<AudioVariantView> {
    Seq::new(f.len(), |k: int| mark_default(f[k], k == 0))
}

pub open spec fn string_views(v: Seq<String>) -> Seq<Seq<char>> {
    v.map_values(|x: String| x@)
}

// ---------------------------------------------------------------------------
// Building the plan
// ---------------------------------------------------------------------------

impl AudioTrackPlan {
    /// A plan without renditions.
    pub fn new() -> (r: Self)
        ensures
            r.variants@.len() == 0,
            !r.requires_transcoding,
    {
        AudioTrackPlan { variants: Vec::new(), requires_transcoding: false }
    }

    /// Whether the plan offers any audio.
    pub fn has_audio(&self) -> (r: bool)
        ensures
            r == (self.variants@.len() > 0),
    {
        self.variants.len() > 0
    }

    /// The default rendition: the first one marked default, else the first one.
    pub fn default_variant(&self) -> (r: Option<&AudioVariant>)
        ensures
            match r {
                Some(v) => exists|k: int| 0 <= k < self.variants@.len() && self.variants@[k] == *v
                    && (self.variants@[k].is_default || k == 0)
                    && forall|j: int| 0 <= j < k ==> !(#[trigger] self.variants@[j]).is_default,
                None => self.variants@.len() == 0,
            },
    {
        let n = self.variants.len();
        let mut k: usize = 0;
        while k < n
            invariant
                n == self.variants@.len(),
                k <= n,
                forall|j: int| 0 <= j < k ==> !(#[trigger] self.variants@[j]).is_default,
            decreases n - k,
        {
            if self.variants[k].is_default {
                return Some(&self.variants[k]);
            }
            k += 1;
        }
        if n > 0 {
            Some(&self.variants[0])
        } else {
            None
        }
    }

    fn push_view(&mut self, v: AudioVariant, Ghost(flat): Ghost<Seq<AudioVariantView>>, Ghost(x): Ghost<AudioVariantView>)
        requires
            variant_views(old(self).variants@) == marked(flat),
            old(self).requires_transcoding == any_transcode(flat),
            v@ == x,
            !x.is_default,
        ensures
            variant_views(final(self).variants@) == marked(flat.push(x)),
            final(self).requires_transcoding == any_transcode(flat.push(x)),
    {
        let mut v = v;
        let first = self.variants.len() == 0;
        v.is_default = first;
        if v.requires_transcode {
            self.requires_transcoding = true;
        }
        let ghost before = self.variants@;
        self.variants.push(v);
        proof {
            assert(variant_views(before).len() == before.len());
            assert(marked(flat).len() == flat.len());
            assert(before.len() == flat.len());
            assert(variant_views(self.variants@) =~= marked(flat.push(x))) by {
                assert forall|k: int| 0 <= k < flat.len() + 1 implies #[trigger] variant_views(self.variants@)[k]
                    == marked(flat.push(x))[k] by {
                    if k < flat.len() {
                        assert(self.variants@[k] == before[k]);
                        assert(variant_views(before)[k] == marked(flat)[k]);
                    }
                }
            }
            if x.requires_transcode {
                assert(flat.push(x)[flat.len() as int] == x);
            }
            if any_transcode(flat) {
                let w = choose|w: int| 0 <= w < flat.len() && (#[trigger] flat[w]).requires_transcode;
                assert(flat.push(x)[w] == flat[w]);
            }
            if any_transcode(flat.push(x)) {
                let w = choose|w: int| 0 <= w < flat.len() + 1 && (#[trigger] flat.push(x)[w]).requires_transcode;
                if w < flat.len() {
                    assert(flat[w] == flat.push(x)[w]);
                }
            }
        }
    }
}

fn lang_string(o: &Option<String>) -> (r: String)
    ensures
        r@ == lang_of(*o),
{
    match o {
        Some(l) => l.clone(),
        None => String::from_str("und"),
    }
}

fn lang_option(l: &str) -> (r: Option<String>)
    ensures
        crate::url::opt_view(r) == lang_opt(l@),
{
    if str_eq(l, "und") {
        None
    } else {
        Some(String::from_str(l))
    }
}

fn in_language(a: &AudioStreamInfo, l: &str) -> (r: bool)
    ensures
        r == in_lang(*a, l@),
{
    match &a.language {
        Some(x) => str_eq(x.as_str(), l),
        None => str_eq("und", l),
    }
}

fn native_label_str(c: CodecId) -> (r: &'static str)
    ensures
        r@ == native_label(c),
{
    match c {
        CodecId::AAC => "AAC",
        CodecId::AC3 => "Dolby Digital",
        CodecId::EAC3 => "Dolby Digital Plus",
        CodecId::MP3 => "MP3",
        CodecId::OPUS => "Opus",
        _ => "Audio",
    }
}

fn other_label_str(c: CodecId) -> (r: &'static str)
    ensures
        r@ == other_label(c),
{
    match c {
        CodecId::VORBIS => "Vorbis",
        CodecId::FLAC => "FLAC",
        _ => "Audio",
    }
}

fn native_variant(a: &AudioStreamInfo, l: &str) -> (r: AudioVariant)
    ensures
        r@ == native_view(*a, l@),
{
    AudioVariant {
        stream_index: a.stream_index,
        codec_id: a.codec_id,
        language: lang_option(l),
        requires_transcode: false,
        name: Some(make_track_name(l, native_label_str(a.codec_id))),
        is_default: false,
    }
}

fn aac_variant(a: &AudioStreamInfo, l: &str) -> (r: AudioVariant)
    ensures
        r@ == aac_view(*a, l@),
{
    AudioVariant {
        stream_index: a.stream_index,
        codec_id: CodecId::AAC,
        language: lang_option(l),
        requires_transcode: true,
        name: Some(make_track_name(l, "AAC (Transcoded)")),
        is_default: false,
    }
}

fn other_variant(a: &AudioStreamInfo, l: &str) -> (r: AudioVariant)
    ensures
        r@ == other_view(*a, l@),
{
    let mut label = String::from_str(other_label_str(a.codec_id));
    push_str(&mut label, " (Transcoded)");
    AudioVariant {
        stream_index: a.stream_index,
        codec_id: CodecId::AAC,
        language: lang_option(l),
        requires_transcode: true,
        name: Some(make_track_name(l, label.as_str())),
        is_default: false,
    }
}

fn find_native_aac(s: &Vec<AudioStreamInfo>, l: &str) -> (r: bool)
    ensures
        r == has_native_aac(s@, l@),
{
    let n = s.len();
    let mut k: usize = 0;
    while k < n
        invariant
            n == s@.len(),
            k <= n,
            forall|j: int| 0 <= j < k ==> !(in_lang(#[trigger] s@[j], l@) && s@[j].codec_id == CodecId::AAC),
        decreases n - k,
    {
        if in_language(&s[k], l) && s[k].codec_id == CodecId::AAC {
            return true;
        }
        k += 1;
    }
    false
}

fn find_first(s: &Vec<AudioStreamInfo>, l: &str, playable: bool) -> (r: Option<usize>)
    ensures
        match r {
            Some(k) => first_in_lang(s@, l@, playable, 0) == Some(k as int) && k < s@.len(),
            None => first_in_lang(s@, l@, playable, 0) is None,
        },
{
    let n = s.len();
    let mut k: usize = 0;
    while k < n
        invariant
            n == s@.len(),
            k <= n,
            first_in_lang(s@, l@, playable, 0) == first_in_lang(s@, l@, playable, k as int),
        decreases n - k,
    {
        if in_language(&s[k], l) && (!playable || is_hls_supported_codec(s[k].codec_id)) {
            return Some(k);
        }
        k += 1;
    }
    None
}

fn plan_language(plan: &mut AudioTrackPlan, s: &Vec<AudioStreamInfo>, l: &str, Ghost(flat): Ghost<Seq<AudioVariantView>>)
    requires
        variant_views(old(plan).variants@) == marked(flat),
        old(plan).requires_transcoding == any_transcode(flat),
    ensures
        variant_views(final(plan).variants@) == marked(flat + lang_variants(s@, l@)),
        final(plan).requires_transcoding == any_transcode(flat + lang_variants(s@, l@)),
{
    let n = s.len();
    let ghost mut acc = flat;
    if !find_native_aac(s, l) {
        let cand = match find_first(s, l, true) {
            Some(k) => Some(k),
            None => match find_first(s, l, false) {
                Some(k) => if is_audio_codec(s[k].codec_id) {
                    None
                } else {
                    Some(k)
                },
                None => None,
            },
        };
        match cand {
            Some(k) => {
                let v = aac_variant(&s[k], l);
                plan.push_view(v, Ghost(acc), Ghost(aac_view(s@[k as int], l@)));
                proof { acc = acc.push(aac_view(s@[k as int], l@)); }
            },
            None => {},
        }
    }
    assert(acc =~= flat + transcode_of(s@, l@));
    let ghost base = acc;
    let mut k: usize = 0;
    while k < n
        invariant
            n == s@.len(),
            k <= n,
            acc == base + natives_of(s@, l@, k as nat),
            variant_views(plan.variants@) == marked(acc),
            plan.requires_transcoding == any_transcode(acc),
        decreases n - k,
    {
        if in_language(&s[k], l) && is_hls_supported_codec(s[k].codec_id) {
            let v = native_variant(&s[k], l);
            plan.push_view(v, Ghost(acc), Ghost(native_view(s@[k as int], l@)));
            proof { acc = acc.push(native_view(s@[k as int], l@)); }
        }
        assert(acc =~= base + natives_of(s@, l@, (k + 1) as nat));
        k += 1;
    }
    let ghost base2 = acc;
    let mut k: usize = 0;
    while k < n
        invariant
            n == s@.len(),
            k <= n,
            acc == base2 + others_of(s@, l@, k as nat),
            variant_views(plan.variants@) == marked(acc),
            plan.requires_transcoding == any_transcode(acc),
        decreases n - k,
    {
        if in_language(&s[k], l) && !is_hls_supported_codec(s[k].codec_id) && is_audio_codec(s[k].codec_id) {
            let v = other_variant(&s[k], l);
            plan.push_view(v, Ghost(acc), Ghost(other_view(s@[k as int], l@)));
            proof { acc = acc.push(other_view(s@[k as int], l@)); }
        }
        assert(acc =~= base2 + others_of(s@, l@, (k + 1) as nat));
        k += 1;
    }
    assert(acc =~= flat + lang_variants(s@, l@));
}

fn contains_str(v: &Vec<String>, l: &str) -> (r: bool)
    ensures
        r == string_views(v@).contains(l@),
{
    let n = v.len();
    let mut k: usize = 0;
    while k < n
        invariant
            n == v@.len(),
            k <= n,
            forall|j: int| 0 <= j < k ==> (#[trigger] v@[j])@ != l@,
        decreases n - k,
    {
        if str_eq(v[k].as_str(), l) {
            assert(string_views(v@)[k as int] == l@);
            return true;
        }
        k += 1;
    }
    proof {
        if string_views(v@).contains(l@) {
            let w = choose|w: int| 0 <= w < string_views(v@).len() && string_views(v@)[w] == l@;
            assert(v@[w]@ == l@);
        }
    }
    false
}

fn languages(s: &Vec<AudioStreamInfo>) -> (r: Vec<String>)
    ensures
        string_views(r@) == plan_languages(s@, s@.len()),
{
    let n = s.len();
    let mut langs: Vec<String> = Vec::new();
    let mut i: usize = 0;
    while i < n
        invariant
            n == s@.len(),
            i <= n,
            string_views(langs@) == plan_languages(s@, i as nat),
        decreases n - i,
    {
        let l = lang_string(&s[i].language);
        if !contains_str(&langs, l.as_str()) {
            let ghost before = langs@;
            langs.push(l);
            assert(string_views(langs@) =~= string_views(before).push(lang_of(s@[i as int].language)));
        }
        i += 1;
    }
    langs
}

/// The audio renditions for a set of streams, language by language in
/// first-seen order; the first rendition is the default.
pub fn plan_audio_tracks(audio_streams: &Vec<AudioStreamInfo>) -> (r: AudioTrackPlan)
    ensures
        variant_views(r.variants@) == planned_variants(audio_streams@),
        r.requires_transcoding == any_transcode(planned_variants(audio_streams@)),
{
    let mut plan = AudioTrackPlan::new();
    let langs = languages(audio_streams);
    let m = langs.len();
    let ghost all = string_views(langs@);
    let ghost mut flat: Seq<AudioVariantView> = Seq::empty();
    assert(variant_views(plan.variants@) =~= marked(flat));
    let mut j: usize = 0;
    while j < m
        invariant
            m == langs@.len(),
            all == string_views(langs@),
            j <= m,
            flat == plan_flat(audio_streams@, all, j as nat),
            variant_views(plan.variants@) == marked(flat),
            plan.requires_transcoding == any_transcode(flat),
        decreases m - j,
    {
        plan_language(&mut plan, audio_streams, langs[j].as_str(), Ghost(flat));
        proof {
            assert(all[j as int] == langs@[j as int]@);
            flat = flat + lang_variants(audio_streams@, all[j as int]);
        }
        j += 1;
    }
    proof {
        let f = plan_flat(audio_streams@, all, m as nat);
        if any_transcode(f) {
            let w = choose|w: int| 0 <= w < f.len() && (#[trigger] f[w]).requires_transcode;
            assert(planned_variants(audio_streams@)[w].requires_transcode);
        }
        if any_transcode(planned_variants(audio_streams@)) {
            let w = choose|w: int| 0 <= w < f.len() && (#[trigger] planned_variants(audio_streams@)[w]).requires_transcode;
            assert(f[w].requires_transcode);
        }
    }
    plan
}

/// The HLS codec string of a codec: none is known.
pub fn get_codec_string(codec_id: CodecId) -> (r: Option<String>)
    ensures
        r is None,
{
    None
}

} // verus!

verus! {

// ---------------------------------------------------------------------------
// Laws of the plan
// ---------------------------------------------------------------------------

/// Some rendition of `v` is in language `l` and served as AAC.
pub open spec fn has_aac_for(v: Seq<AudioVariantView>, l: Seq<char>) -> bool {
    exists|j: int| 0 <= j < v.len() && (#[trigger] v[j]).language == lang_opt(l) && v[j].codec_id == CodecId::AAC
}

proof fn lemma_lang_listed(s: Seq<AudioStreamInfo>, n: nat, k: int)
    requires
        0 <= k < n <= s.len(),
    ensures
        plan_languages(s, n).contains(lang_of(s[k].language)),
    decreases n,
{
    let m = (n - 1) as nat;
    let p = plan_languages(s, m);
    if k < m {
        lemma_lang_listed(s, m, k);
        if !p.contains(lang_of(s[m as int].language)) {
            let w = choose|w: int| 0 <= w < p.len() && p[w] == lang_of(s[k].language);
            assert(p.push(lang_of(s[m as int].language))[w] == lang_of(s[k].language));
        }
    } else if !p.contains(lang_of(s[m as int].language)) {
        assert(p.push(lang_of(s[m as int].language))[p.len() as int] == lang_of(s[k].language));
    }
}

proof fn lemma_natives_has(s: Seq<AudioStreamInfo>, l: Seq<char>, n: nat, w: int)
    requires
        0 <= w < n <= s.len(),
        in_lang(s[w], l),
        spec_is_hls_supported(s[w].codec_id),
    ensures
        exists|j: int| 0 <= j < natives_of(s, l, n).len() && #[trigger] natives_of(s, l, n)[j] == native_view(s[w], l),
    decreases n,
{
    let m = (n - 1) as nat;
    let p = natives_of(s, l, m);
    if w < m {
        lemma_natives_has(s, l, m, w);
        let j = choose|j: int| 0 <= j < p.len() && #[trigger] p[j] == native_view(s[w], l);
        assert(natives_of(s, l, n)[j] == p[j]);
    } else {
        assert(natives_of(s, l, n)[p.len() as int] == native_view(s[w], l));
    }
}

proof fn lemma_first_found(s: Seq<AudioStreamInfo>, l: Seq<char>, from: int, k: int)
    requires
        0 <= from <= k < s.len(),
        in_lang(s[k], l),
    ensures
        first_in_lang(s, l, false, from) is Some,
    decreases k - from,
{
    if from < k && !in_lang(s[from], l) {
        lemma_first_found(s, l, from + 1, k);
    }
}

proof fn lemma_lang_variants_aac(s: Seq<AudioStreamInfo>, l: Seq<char>, k: int)
    requires
        0 <= k < s.len(),
        in_lang(s[k], l),
    ensures
        has_aac_for(lang_variants(s, l), l),
{
    let t = transcode_of(s, l);
    let nat_s = natives_of(s, l, s.len());
    let v = lang_variants(s, l);
    if has_native_aac(s, l) {
        let w = choose|w: int| 0 <= w < s.len() && in_lang(#[trigger] s[w], l) && s[w].codec_id == CodecId::AAC;
        lemma_natives_has(s, l, s.len(), w);
        let j = choose|j: int| 0 <= j < nat_s.len() && #[trigger] nat_s[j] == native_view(s[w], l);
        assert(v[t.len() + j] == nat_s[j]);
    } else {
        lemma_first_found(s, l, 0, k);
        if t.len() == 1 {
            assert(v[0] == t[0]);
        } else {
            let w = first_in_lang(s, l, false, 0)->Some_0;
            lemma_first_in_lang_props(s, l, false, 0);
            lemma_first_none_unplayable(s, l, 0, w);
            lemma_others_has(s, l, s.len(), w);
            let o = others_of(s, l, s.len());
            let j = choose|j: int| 0 <= j < o.len() && #[trigger] o[j] == other_view(s[w], l);
            assert(v[t.len() + nat_s.len() + j] == o[j]);
        }
    }
}

proof fn lemma_first_in_lang_props(s: Seq<AudioStreamInfo>, l: Seq<char>, playable: bool, from: int)
    ensures
        match first_in_lang(s, l, playable, from) {
            Some(k) => from <= k < s.len() && 0 <= k && in_lang(s[k], l),
            None => true,
        },
    decreases s.len() - from,
{
    if from >= s.len() || from < 0 {
    } else if in_lang(s[from], l) && (!playable || spec_is_hls_supported(s[from].codec_id)) {
    } else {
        lemma_first_in_lang_props(s, l, playable, from + 1);
    }
}

proof fn lemma_first_none_unplayable(s: Seq<AudioStreamInfo>, l: Seq<char>, from: int, w: int)
    requires
        0 <= from <= w < s.len(),
        first_in_lang(s, l, true, from) is None,
        in_lang(s[w], l),
    ensures
        !spec_is_hls_supported(s[w].codec_id),
    decreases w - from,
{
    if from < w {
        lemma_first_none_unplayable(s, l, from + 1, w);
    }
}

proof fn lemma_others_has(s: Seq<AudioStreamInfo>, l: Seq<char>, n: nat, w: int)
    requires
        0 <= w < n <= s.len(),
        in_lang(s[w], l),
        !spec_is_hls_supported(s[w].codec_id),
        spec_is_audio_codec(s[w].codec_id),
    ensures
        exists|j: int| 0 <= j < others_of(s, l, n).len() && #[trigger] others_of(s, l, n)[j] == other_view(s[w], l),
    decreases n,
{
    let m = (n - 1) as nat;
    let p = others_of(s, l, m);
    if w < m {
        lemma_others_has(s, l, m, w);
        let j = choose|j: int| 0 <= j < p.len() && #[trigger] p[j] == other_view(s[w], l);
        assert(others_of(s, l, n)[j] == p[j]);
    } else {
        assert(others_of(s, l, n)[p.len() as int] == other_view(s[w], l));
    }
}

proof fn lemma_flat_has(s: Seq<AudioStreamInfo>, langs: Seq<Seq<char>>, m: nat, i: int, j: int)
    requires
        0 <= i < m <= langs.len(),
        0 <= j < lang_variants(s, langs[i]).len(),
    ensures
        exists|p: int| 0 <= p < plan_flat(s, langs, m).len() && #[trigger] plan_flat(s, langs, m)[p]
            == lang_variants(s, langs[i])[j],
    decreases m,
{
    let q = (m - 1) as nat;
    let prev = plan_flat(s, langs, q);
    if i < q {
        lemma_flat_has(s, langs, q, i, j);
        let p = choose|p: int| 0 <= p < prev.len() && #[trigger] prev[p] == lang_variants(s, langs[i])[j];
        assert(plan_flat(s, langs, m)[p] == prev[p]);
    } else {
        assert(plan_flat(s, langs, m)[prev.len() + j] == lang_variants(s, langs[i])[j]);
    }
}

/// Every language among the audio streams gets a rendition served as AAC:
/// its native AAC stream when it has one, else a transcode.
pub proof fn law_aac_for_every_language(s: Seq<AudioStreamInfo>)
    ensures
        forall|k: int| 0 <= k < s.len() ==> has_aac_for(planned_variants(s), lang_of(#[trigger] s[k].language)),
{
    let langs = plan_languages(s, s.len());
    let f = plan_flat(s, langs, langs.len());
    let pv = planned_variants(s);
    assert forall|k: int| 0 <= k < s.len() implies has_aac_for(pv, lang_of(#[trigger] s[k].language)) by {
        let l = lang_of(s[k].language);
        lemma_lang_listed(s, s.len(), k);
        let i = choose|i: int| 0 <= i < langs.len() && langs[i] == l;
        lemma_lang_variants_aac(s, l, k);
        let v = lang_variants(s, l);
        let j = choose|j: int| 0 <= j < v.len() && (#[trigger] v[j]).language == lang_opt(l) && v[j].codec_id
            == CodecId::AAC;
        lemma_flat_has(s, langs, langs.len(), i, j);
        let p = choose|p: int| 0 <= p < f.len() && #[trigger] f[p] == v[j];
        assert(pv[p].language == lang_opt(l) && pv[p].codec_id == CodecId::AAC);
    }
}

/// The plan has exactly one default rendition, its first.
pub proof fn law_single_default(s: Seq<AudioStreamInfo>)
    ensures
        forall|k: int| 0 <= k < planned_variants(s).len() ==> ((#[trigger] planned_variants(s)[k]).is_default <==> k == 0),
{
}


proof fn lemma_others_from(s: Seq<AudioStreamInfo>, l: Seq<char>, n: nat, j: int)
    requires
        n <= s.len(),
        0 <= j < others_of(s, l, n).len(),
    ensures
        exists|w: int| 0 <= w < n && others_of(s, l, n)[j] == other_view(#[trigger] s[w], l)
            && !spec_is_hls_supported(s[w].codec_id) && spec_is_audio_codec(s[w].codec_id),
    decreases n,
{
    let m = (n - 1) as nat;
    let p = others_of(s, l, m);
    if j < p.len() {
        lemma_others_from(s, l, m, j);
        assert(others_of(s, l, n)[j] == p[j]);
    } else {
        assert(others_of(s, l, n)[j] == other_view(s[m as int], l));
    }
}

proof fn lemma_natives_kept(s: Seq<AudioStreamInfo>, l: Seq<char>, n: nat, j: int)
    requires
        n <= s.len(),
        0 <= j < natives_of(s, l, n).len(),
    ensures
        !natives_of(s, l, n)[j].requires_transcode,
    decreases n,
{
    let m = (n - 1) as nat;
    let p = natives_of(s, l, m);
    if j < p.len() {
        lemma_natives_kept(s, l, m, j);
        assert(natives_of(s, l, n)[j] == p[j]);
    } else {
        assert(natives_of(s, l, n)[j] == native_view(s[m as int], l));
    }
}

proof fn lemma_others_distinct(s: Seq<AudioStreamInfo>, l: Seq<char>, n: nat, i: int, j: int)
    requires
        n <= s.len(),
        forall|a: int, b: int| 0 <= a < b < s.len() ==> (#[trigger] s[a]).stream_index != (#[trigger] s[b]).stream_index,
        0 <= i < j < others_of(s, l, n).len(),
    ensures
        others_of(s, l, n)[i].stream_index != others_of(s, l, n)[j].stream_index,
    decreases n,
{
    let m = (n - 1) as nat;
    let p = others_of(s, l, m);
    if j < p.len() {
        lemma_others_distinct(s, l, m, i, j);
        assert(others_of(s, l, n)[j] == p[j]);
        assert(others_of(s, l, n)[i] == p[i]);
    } else {
        assert(others_of(s, l, n)[j] == other_view(s[m as int], l));
        lemma_others_from(s, l, m, i);
        let w = choose|w: int| 0 <= w < m && p[i] == other_view(#[trigger] s[w], l)
            && !spec_is_hls_supported(s[w].codec_id) && spec_is_audio_codec(s[w].codec_id);
        assert(others_of(s, l, n)[i] == p[i]);
        assert(s[w].stream_index != s[m as int].stream_index);
    }
}

/// Within a language no source stream is transcoded twice: the renditions
/// served as AAC transcodes come from different streams (streams being
/// told apart by their index in the file).
pub proof fn law_each_stream_transcoded_once(s: Seq<AudioStreamInfo>, l: Seq<char>)
    requires
        forall|a: int, b: int| 0 <= a < b < s.len() ==> (#[trigger] s[a]).stream_index != (#[trigger] s[b]).stream_index,
    ensures
        forall|i: int, j: int| 0 <= i < j < lang_variants(s, l).len() && (#[trigger] lang_variants(s, l)[i]).requires_transcode
            && (#[trigger] lang_variants(s, l)[j]).requires_transcode ==> lang_variants(s, l)[i].stream_index
            != lang_variants(s, l)[j].stream_index,
{
    let t = transcode_of(s, l);
    let na = natives_of(s, l, s.len());
    let o = others_of(s, l, s.len());
    let v = lang_variants(s, l);
    assert forall|i: int, j: int| 0 <= i < j < v.len() && (#[trigger] v[i]).requires_transcode
        && (#[trigger] v[j]).requires_transcode implies v[i].stream_index != v[j].stream_index by {
        if i >= t.len() && i < t.len() + na.len() {
            lemma_natives_kept(s, l, s.len(), i - t.len());
            assert(v[i] == na[i - t.len()]);
        }
        if j >= t.len() && j < t.len() + na.len() {
            lemma_natives_kept(s, l, s.len(), j - t.len());
            assert(v[j] == na[j - t.len()]);
        }
        if i >= t.len() + na.len() {
            assert(v[i] == o[i - t.len() - na.len()]);
            assert(v[j] == o[j - t.len() - na.len()]);
            lemma_others_distinct(s, l, s.len(), i - t.len() - na.len(), j - t.len() - na.len());
        } else if i < t.len() && j >= t.len() + na.len() {
            assert(i == 0 && t.len() == 1);
            assert(v[0] == t[0]);
            assert(v[j] == o[j - t.len() - na.len()]);
            lemma_others_from(s, l, s.len(), j - t.len() - na.len());
            let w = choose|w: int| 0 <= w < s.len() && o[j - t.len() - na.len()] == other_view(#[trigger] s[w], l)
                && !spec_is_hls_supported(s[w].codec_id) && spec_is_audio_codec(s[w].codec_id);
            let k = if first_in_lang(s, l, true, 0) is Some {
                first_in_lang(s, l, true, 0)->Some_0
            } else {
                first_in_lang(s, l, false, 0)->Some_0
            };
            lemma_first_in_lang_props(s, l, true, 0);
            lemma_first_in_lang_props(s, l, false, 0);
            lemma_first_playable(s, l, 0);
            assert(t[0] == aac_view(s[k], l));
            assert(k != w);
            if k < w {
                assert(s[k].stream_index != s[w].stream_index);
            } else {
                assert(s[w].stream_index != s[k].stream_index);
            }
        }
    }
}

proof fn lemma_first_playable(s: Seq<AudioStreamInfo>, l: Seq<char>, from: int)
    ensures
        match first_in_lang(s, l, true, from) {
            Some(k) => spec_is_hls_supported(s[k].codec_id),
            None => true,
        },
    decreases s.len() - from,
{
    if from >= s.len() || from < 0 {
    } else if in_lang(s[from], l) && spec_is_hls_supported(s[from].codec_id) {
    } else {
        lemma_first_playable(s, l, from + 1);
    }
}
} // verus!
