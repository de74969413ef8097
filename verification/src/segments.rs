//! Segment boundaries from the demuxer's index of the video stream, the
//! segments that hold subtitle cues, and audio encoder delays.

use vstd::prelude::*;
use crate::media::{AudioStreamInfo, Rational, SegmentInfo, StreamIndex, SubtitleSampleRef};
use crate::errors::HlsError;
use crate::text::push_str;

verus! {

/// One entry of a stream's index: where a sample lies and when it plays.
#[derive(Clone, Copy, Debug, PartialEq, Eq, Structural)]
pub struct IndexEntry {
    /// Byte offset of the sample in the file.
    pub pos: u64,
    /// Presentation timestamp in the stream's timebase.
    pub timestamp: i64,
    /// Sample size in bytes (0 when unknown).
    pub size: i32,
    /// Index flags; bit 0 marks a keyframe.
    pub flags: i32,
}

pub open spec fn spec_is_keyframe(e: IndexEntry) -> bool {
    e.flags & 1 != 0
}

impl IndexEntry {
    /// Whether the sample is a keyframe.
    pub fn is_keyframe(&self) -> (r: bool)
        ensures
            r == spec_is_keyframe(*self),
    {
        self.flags & 1 != 0
    }
}

/// A stretch of `d` ticks of `tb` lasts at least 80% of `target_ms`.
pub open spec fn long_enough(d: int, tb: Rational, target_ms: nat) -> bool {
    d * tb.num * 5000 >= target_ms * 4 * tb.den
}

/// Segments closed so far, and the start (timestamp, byte offset) of the
/// open one.
pub struct ScanState {
    pub segments: Seq<SegmentInfo>,
    pub open: Option<(i64, u64)>,
}

pub open spec fn max0(x: i64) -> i64 {
    if x < 0 {
        0
    } else {
        x
    }
}

/// Walks the first `n` entries: the first keyframe opens a segment (at a
/// timestamp of at least 0); each later keyframe at least 80% of the target
/// after the open segment's start closes it and opens the next.
pub open spec fn scan_entries(es: Seq<IndexEntry>, tb: Rational, target_ms: nat, n: nat) -> ScanState
    decreases n,
{
    if n == 0 {
        ScanState { segments: Seq::empty(), open: None }
    } else {
        let st = scan_entries(es, tb, target_ms, (n - 1) as nat);
        let e = es[n - 1];
        if !spec_is_keyframe(e) {
            st
        } else {
            match st.open {
                None => ScanState { segments: st.segments, open: Some((max0(e.timestamp), e.pos)) },
                Some((start, byte)) => if long_enough(e.timestamp - start, tb, target_ms) {
                    ScanState {
                        segments: st.segments.push(
                            SegmentInfo {
                                sequence: st.segments.len() as usize,
                                start_pts: start,
                                end_pts: e.timestamp,
                                is_keyframe: true,
                                video_byte_offset: byte,
                            },
                        ),
                        open: Some((e.timestamp, e.pos)),
                    }
                } else {
                    st
                },
            }
        }
    }
}

/// The segments of a video: the closed ones and the last open one, which
/// ends at the end of the file (or where it starts, if that is later).
pub open spec fn built_segments(es: Seq<IndexEntry>, tb: Rational, total_pts: i64, target_ms: nat) -> Seq<SegmentInfo> {
    let st = scan_entries(es, tb, target_ms, es.len());
    match st.open {
        None => st.segments,
        Some((start, byte)) => st.segments.push(
            SegmentInfo {
                sequence: st.segments.len() as usize,
                start_pts: start,
                end_pts: if total_pts > start { total_pts } else { start },
                is_keyframe: true,
                video_byte_offset: byte,
            },
        ),
    }
}

fn long_enough_x(d: i128, tb: Rational, target_ms: u64) -> (r: bool)
    requires
        -0x1_0000_0000_0000_0000 <= d <= 0x1_0000_0000_0000_0000,
    ensures
        r == long_enough(d as int, tb, target_ms as nat),
{
    proof {
        assert(-0x1_0000_0000_0000_0000 * 0x8000_0000 <= d * tb.num <= 0x1_0000_0000_0000_0000 * 0x8000_0000)
            by (nonlinear_arith)
            requires -0x1_0000_0000_0000_0000 <= d <= 0x1_0000_0000_0000_0000,
                -0x8000_0000 <= tb.num <= 0x8000_0000;
        assert(-0x1_0000_0000_0000_0000 * 4 * 0x8000_0000 <= target_ms * 4 * tb.den <= 0x1_0000_0000_0000_0000 * 4 * 0x8000_0000)
            by (nonlinear_arith)
            requires 0 <= target_ms < 0x1_0000_0000_0000_0000,
                -0x8000_0000 <= tb.den <= 0x8000_0000;
    }
    d * (tb.num as i128) * 5000 >= (target_ms as i128) * 4 * (tb.den as i128)
}

/// Segment boundaries from the keyframes of the video index: a segment is
/// closed at the first keyframe at least 80% of `target_ms` after its
/// start; the last one ends at `total_pts`.
pub fn build_segments_from_entries(entries: &Vec<IndexEntry>, timebase: Rational, total_pts: i64, target_ms: u64) -> (r: Vec<SegmentInfo>)
    ensures
        r@ == built_segments(entries@, timebase, total_pts, target_ms as nat),
{
    let n = entries.len();
    let mut segments: Vec<SegmentInfo> = Vec::new();
    let mut open: Option<(i64, u64)> = None;
    let mut i: usize = 0;
    while i < n
        invariant
            n == entries@.len(),
            i <= n,
            segments@.len() <= i,
            ({
                let st = scan_entries(entries@, timebase, target_ms as nat, i as nat);
                st.segments == segments@ && st.open == open
            }),
        decreases n - i,
    {
        let e = entries[i];
        if e.is_keyframe() {
            match open {
                None => {
                    let start = if e.timestamp < 0 { 0 } else { e.timestamp };
                    open = Some((start, e.pos));
                },
                Some((start, byte)) => {
                    let d: i128 = e.timestamp as i128 - start as i128;
                    if long_enough_x(d, timebase, target_ms) {
                        let k = segments.len();
                        segments.push(SegmentInfo {
                            sequence: k,
                            start_pts: start,
                            end_pts: e.timestamp,
                            is_keyframe: true,
                            video_byte_offset: byte,
                        });
                        open = Some((e.timestamp, e.pos));
                    }
                },
            }
        }
        i += 1;
    }
    match open {
        None => {},
        Some((start, byte)) => {
            let k = segments.len();
            let end = if total_pts > start { total_pts } else { start };
            segments.push(SegmentInfo {
                sequence: k,
                start_pts: start,
                end_pts: end,
                is_keyframe: true,
                video_byte_offset: byte,
            });
        },
    }
    segments
}

// ---------------------------------------------------------------------------
// Which segments hold subtitle cues
// ---------------------------------------------------------------------------

/// `a - b`, clamped to the range of `i64`.
pub open spec fn sat_sub(a: i64, b: i64) -> i64 {
    let d = a - b;
    if d > i64::MAX {
        i64::MAX
    } else if d < i64::MIN {
        i64::MIN
    } else {
        d as i64
    }
}

fn sat_sub_x(a: i64, b: i64) -> (r: i64)
    ensures
        r == sat_sub(a, b),
{
    let d: i128 = a as i128 - b as i128;
    if d > i64::MAX as i128 {
        i64::MAX
    } else if d < i64::MIN as i128 {
        i64::MIN
    } else {
        d as i64
    }
}

pub open spec fn covers(seg: SegmentInfo, v: i64, vst: i64) -> bool {
    sat_sub(seg.start_pts, vst) <= v && v < sat_sub(seg.end_pts, vst)
}

/// The first segment from position `from` on whose span holds `v`.
pub open spec fn first_covering(segs: Seq<SegmentInfo>, v: i64, vst: i64, from: int) -> Option<int>
    decreases segs.len() - from,
{
    if from < 0 || from >= segs.len() {
        None
    } else if covers(segs[from], v, vst) {
        Some(from)
    } else {
        first_covering(segs, v, vst, from + 1)
    }
}

/// The segment a subtitle at `v` (rescaled to the video timebase) belongs
/// to: the first one that covers it; else the last one when it is past the
/// end, or the first one when it is before the start.
pub open spec fn segment_for(segs: Seq<SegmentInfo>, v: i64, vst: i64) -> Option<usize> {
    match first_covering(segs, v, vst, 0) {
        Some(k) => Some(segs[k].sequence),
        None => if segs.len() == 0 {
            None
        } else if v >= sat_sub(segs.last().end_pts, vst) {
            Some(segs.last().sequence)
        } else if v < sat_sub(segs[0].start_pts, vst) {
            Some(segs[0].sequence)
        } else {
            None
        },
    }
}

pub open spec fn strictly_increasing(s: Seq<usize>) -> bool {
    forall|i: int, j: int| 0 <= i < j < s.len() ==> s[i] < s[j]
}

/// The segments that some of the first `n` values belong to.
pub open spec fn hit_segments(vals: Seq<i64>, segs: Seq<SegmentInfo>, vst: i64, n: nat) -> Set<usize> {
    Set::new(|x: usize| exists|i: int| 0 <= i < n && segment_for(segs, #[trigger] vals[i], vst) == Some(x))
}

fn segment_for_x(segs: &Vec<SegmentInfo>, v: i64, vst: i64) -> (r: Option<usize>)
    ensures
        r == segment_for(segs@, v, vst),
{
    let n = segs.len();
    let mut k: usize = 0;
    while k < n
        invariant
            n == segs@.len(),
            k <= n,
            first_covering(segs@, v, vst, 0) == first_covering(segs@, v, vst, k as int),
        decreases n - k,
    {
        let a = sat_sub_x(segs[k].start_pts, vst);
        let b = sat_sub_x(segs[k].end_pts, vst);
        if a <= v && v < b {
            return Some(segs[k].sequence);
        }
        k += 1;
    }
    if n == 0 {
        return None;
    }
    let last_end = sat_sub_x(segs[n - 1].end_pts, vst);
    if v >= last_end {
        return Some(segs[n - 1].sequence);
    }
    let first_start = sat_sub_x(segs[0].start_pts, vst);
    if v < first_start {
        return Some(segs[0].sequence);
    }
    None
}

/// Adds `x` to a strictly increasing list, keeping it so.
fn insert_sorted(v: &mut Vec<usize>, x: usize)
    requires
        strictly_increasing(old(v)@),
    ensures
        strictly_increasing(final(v)@),
        final(v)@.to_set() == old(v)@.to_set().insert(x),
{
    let n = v.len();
    let mut p: usize = 0;
    while p < n && v[p] < x
        invariant
            n == v@.len(),
            p <= n,
            forall|j: int| 0 <= j < p ==> v@[j] < x,
        decreases n - p,
    {
        p += 1;
    }
    if p < n && v[p] == x {
        assert(v@.to_set().insert(x) =~= v@.to_set()) by {
            assert(v@.contains(x));
        }
        return;
    }
    let ghost before = v@;
    v.insert(p, x);
    proof {
        assert forall|i: int, j: int| 0 <= i < j < v@.len() implies v@[i] < v@[j] by {
            if j < p {
                assert(v@[i] == before[i] && v@[j] == before[j]);
            } else if j == p {
                assert(v@[i] == before[i]);
            } else if i == p {
                assert(v@[j] == before[j - 1]);
                assert(before[p as int] >= x);
                if j - 1 > p {
                    assert(before[p as int] < before[j - 1]);
                }
            } else if i < p {
                assert(v@[i] == before[i] && v@[j] == before[j - 1]);
            } else {
                assert(v@[i] == before[i - 1] && v@[j] == before[j - 1]);
            }
        }
        assert forall|y: usize| v@.to_set().contains(y) == before.to_set().insert(x).contains(y) by {
            if v@.contains(y) {
                let w = choose|w: int| 0 <= w < v@.len() && v@[w] == y;
                if w < p {
                    assert(before[w] == y);
                } else if w > p {
                    assert(before[w - 1] == y);
                }
            }
            if before.contains(y) {
                let w = choose|w: int| 0 <= w < before.len() && before[w] == y;
                if w < p {
                    assert(v@[w] == y);
                } else {
                    assert(v@[w + 1] == y);
                }
            }
            if y == x {
                assert(v@[p as int] == x);
            }
        }
        assert(v@.to_set() =~= before.to_set().insert(x));
    }
}

/// The sequence numbers of the segments that hold at least one subtitle
/// timestamp, ascending and each once.  `rescaled` holds the subtitle
/// timestamps relative to the subtitle stream's start, converted to the
/// video timebase; `video_start_time` is the video stream's start.
pub fn map_pts_to_segments(rescaled: &Vec<i64>, video_start_time: i64, segments: &Vec<SegmentInfo>) -> (r: Vec<usize>)
    ensures
        strictly_increasing(r@),
        r@.to_set() == hit_segments(rescaled@, segments@, video_start_time, rescaled@.len()),
{
    let n = rescaled.len();
    let mut out: Vec<usize> = Vec::new();
    let mut i: usize = 0;
    assert(out@.to_set() =~= hit_segments(rescaled@, segments@, video_start_time, 0));
    while i < n
        invariant
            n == rescaled@.len(),
            i <= n,
            strictly_increasing(out@),
            out@.to_set() == hit_segments(rescaled@, segments@, video_start_time, i as nat),
        decreases n - i,
    {
        let ghost before = out@.to_set();
        match segment_for_x(segments, rescaled[i], video_start_time) {
            Some(x) => {
                insert_sorted(&mut out, x);
                assert(out@.to_set() =~= hit_segments(rescaled@, segments@, video_start_time, (i + 1) as nat)) by {
                    assert forall|y: usize| #[trigger] hit_segments(rescaled@, segments@, video_start_time, (i + 1) as nat).contains(y)
                        implies out@.to_set().contains(y) by {
                        let w = choose|w: int| 0 <= w < i + 1 && segment_for(segments@, #[trigger] rescaled@[w], video_start_time) == Some(y);
                        if w < i {
                            assert(hit_segments(rescaled@, segments@, video_start_time, i as nat).contains(y));
                        }
                    }
                    assert forall|y: usize| out@.to_set().contains(y)
                        implies #[trigger] hit_segments(rescaled@, segments@, video_start_time, (i + 1) as nat).contains(y) by {
                        if y != x {
                            assert(before.contains(y));
                            let w = choose|w: int| 0 <= w < i && segment_for(segments@, #[trigger] rescaled@[w], video_start_time) == Some(y);
                        } else {
                            assert(segment_for(segments@, rescaled@[i as int], video_start_time) == Some(y));
                        }
                    }
                }
            },
            None => {
                assert(out@.to_set() =~= hit_segments(rescaled@, segments@, video_start_time, (i + 1) as nat)) by {
                    assert forall|y: usize| #[trigger] hit_segments(rescaled@, segments@, video_start_time, (i + 1) as nat).contains(y)
                        implies out@.to_set().contains(y) by {
                        let w = choose|w: int| 0 <= w < i + 1 && segment_for(segments@, #[trigger] rescaled@[w], video_start_time) == Some(y);
                        assert(hit_segments(rescaled@, segments@, video_start_time, i as nat).contains(y));
                    }
                    assert forall|y: usize| out@.to_set().contains(y)
                        implies #[trigger] hit_segments(rescaled@, segments@, video_start_time, (i + 1) as nat).contains(y) by {
                        assert(before.contains(y));
                        let w = choose|w: int| 0 <= w < i && segment_for(segments@, #[trigger] rescaled@[w], video_start_time) == Some(y);
                    }
                }
            },
        }
        i += 1;
    }
    out
}

// ---------------------------------------------------------------------------
// Audio encoder delay, subtitle sample references
// ---------------------------------------------------------------------------

/// The encoder delay a first packet signals: minus its decoding timestamp
/// when that is negative, else none.
pub open spec fn delay_from_dts(dts: Option<i64>) -> i64 {
    match dts {
        Some(d) => if d < 0 {
            -d as i64
        } else {
            0
        },
        None => 0,
    }
}

pub fn encoder_delay_from_dts(dts: Option<i64>) -> (r: i64)
    requires
        dts != Some(i64::MIN),
    ensures
        r == delay_from_dts(dts),
{
    match dts {
        Some(d) => if d < 0 {
            -d
        } else {
            0
        },
        None => 0,
    }
}

/// The delay recorded for stream `idx`: that of its first entry, or 0.
pub open spec fn delay_for(first: Seq<(usize, i64)>, idx: usize, from: int) -> i64
    decreases first.len() - from,
{
    if from < 0 || from >= first.len() {
        0
    } else if first[from].0 == idx {
        first[from].1
    } else {
        delay_for(first, idx, from + 1)
    }
}

fn delay_for_x(first: &Vec<(usize, i64)>, idx: usize) -> (r: i64)
    ensures
        r == delay_for(first@, idx, 0),
{
    let n = first.len();
    let mut k: usize = 0;
    while k < n
        invariant
            n == first@.len(),
            k <= n,
            delay_for(first@, idx, 0) == delay_for(first@, idx, k as int),
        decreases n - k,
    {
        if first[k].0 == idx {
            return first[k].1;
        }
        k += 1;
    }
    0
}

/// Sets each audio stream's encoder delay from `first`, which holds for
/// each audio stream seen the delay of its first packet (earlier entries
/// win); streams without an entry get 0.
pub fn apply_encoder_delays(audio: &mut Vec<AudioStreamInfo>, first: &Vec<(usize, i64)>)
    ensures
        final(audio)@.len() == old(audio)@.len(),
        forall|k: int| 0 <= k < final(audio)@.len() ==> (#[trigger] final(audio)@[k]) == (AudioStreamInfo {
            encoder_delay: delay_for(first@, old(audio)@[k].stream_index, 0),
            ..old(audio)@[k]
        }),
{
    let n = audio.len();
    let mut k: usize = 0;
    while k < n
        invariant
            n == audio@.len(),
            n == old(audio)@.len(),
            k <= n,
            forall|j: int| 0 <= j < k ==> (#[trigger] audio@[j]) == (AudioStreamInfo {
                encoder_delay: delay_for(first@, old(audio)@[j].stream_index, 0),
                ..old(audio)@[j]
            }),
            forall|j: int| k <= j < n ==> (#[trigger] audio@[j]) == old(audio)@[j],
        decreases n - k,
    {
        let d = delay_for_x(first, audio[k].stream_index);
        let mut a = audio.remove(k);
        a.encoder_delay = d;
        audio.insert(k, a);
        k += 1;
    }
}

/// References to every sample of a subtitle stream, from its index
/// (durations are read from the packets later).
pub fn subtitle_sample_refs(entries: &Vec<IndexEntry>) -> (r: Vec<SubtitleSampleRef>)
    ensures
        r@.len() == entries@.len(),
        forall|k: int| 0 <= k < r@.len() ==> (#[trigger] r@[k]) == (SubtitleSampleRef {
            byte_offset: entries@[k].pos,
            pts: entries@[k].timestamp,
            duration: 0,
            size: entries@[k].size,
        }),
{
    let n = entries.len();
    let mut out: Vec<SubtitleSampleRef> = Vec::new();
    let mut k: usize = 0;
    while k < n
        invariant
            n == entries@.len(),
            k <= n,
            out@.len() == k,
            forall|j: int| 0 <= j < k ==> (#[trigger] out@[j]) == (SubtitleSampleRef {
                byte_offset: entries@[j].pos,
                pts: entries@[j].timestamp,
                duration: 0,
                size: entries@[j].size,
            }),
        decreases n - k,
    {
        let e = entries[k];
        out.push(SubtitleSampleRef { byte_offset: e.pos, pts: e.timestamp, duration: 0, size: e.size });
        k += 1;
    }
    out
}

} // verus!

verus! {

// ---------------------------------------------------------------------------
// Laws of the segment list
// ---------------------------------------------------------------------------

/// Segments numbered from 0 in order, each starting on a keyframe, each
/// ending where the next one starts.
pub open spec fn numbered_contiguous(segs: Seq<SegmentInfo>) -> bool {
    &&& forall|k: int| 0 <= k < segs.len() ==> (#[trigger] segs[k]).sequence == k && segs[k].is_keyframe
    &&& forall|k: int| 0 <= k < segs.len() - 1 ==> (#[trigger] segs[k]).end_pts == segs[k + 1].start_pts
}

proof fn lemma_scan_shape(es: Seq<IndexEntry>, tb: Rational, target_ms: nat, n: nat)
    requires
        n <= es.len(),
        es.len() <= usize::MAX,
    ensures
        ({
            let st = scan_entries(es, tb, target_ms, n);
            &&& st.segments.len() <= n
            &&& numbered_contiguous(st.segments)
            &&& st.segments.len() > 0 ==> st.open is Some && st.segments.last().end_pts == st.open.unwrap().0
        }),
    decreases n,
{
    if n > 0 {
        let m = (n - 1) as nat;
        lemma_scan_shape(es, tb, target_ms, m);
        let st = scan_entries(es, tb, target_ms, m);
        let cur = scan_entries(es, tb, target_ms, n);
        if cur.segments.len() > st.segments.len() {
            let k = st.segments.len() as int;
            assert(cur.segments[k].sequence == k);
            assert forall|j: int| 0 <= j < cur.segments.len() - 1 implies (#[trigger] cur.segments[j]).end_pts
                == cur.segments[j + 1].start_pts by {
                if j < k - 1 {
                    assert(cur.segments[j] == st.segments[j]);
                    assert(cur.segments[j + 1] == st.segments[j + 1]);
                } else {
                    assert(cur.segments[j] == st.segments.last());
                }
            }
            assert forall|j: int| 0 <= j < cur.segments.len() implies (#[trigger] cur.segments[j]).sequence == j
                && cur.segments[j].is_keyframe by {
                if j < k {
                    assert(cur.segments[j] == st.segments[j]);
                }
            }
        }
    }
}

/// The segments of a video are numbered 0, 1, 2, ... in order, each starts
/// on a keyframe, and each ends exactly where the next begins, so together
/// they cover the video from its first keyframe without gap or overlap.
pub proof fn law_segments_contiguous(es: Seq<IndexEntry>, tb: Rational, total_pts: i64, target_ms: nat)
    requires
        es.len() < usize::MAX,
    ensures
        numbered_contiguous(built_segments(es, tb, total_pts, target_ms)),
{
    lemma_scan_shape(es, tb, target_ms, es.len());
    let st = scan_entries(es, tb, target_ms, es.len());
    let b = built_segments(es, tb, total_pts, target_ms);
    if st.open is Some {
        let k = st.segments.len() as int;
        assert forall|j: int| 0 <= j < b.len() - 1 implies (#[trigger] b[j]).end_pts == b[j + 1].start_pts by {
            assert(b[j] == st.segments[j]);
            if j < k - 1 {
                assert(b[j + 1] == st.segments[j + 1]);
            }
        }
        assert forall|j: int| 0 <= j < b.len() implies (#[trigger] b[j]).sequence == j && b[j].is_keyframe by {
            if j < k {
                assert(b[j] == st.segments[j]);
            }
        }
    }
}


proof fn lemma_scan_ordered(es: Seq<IndexEntry>, tb: Rational, target_ms: nat, n: nat)
    requires
        n <= es.len(),
        tb.num > 0,
        tb.den > 0,
    ensures
        forall|k: int| 0 <= k < scan_entries(es, tb, target_ms, n).segments.len() ==> (#[trigger] scan_entries(
            es,
            tb,
            target_ms,
            n,
        ).segments[k]).start_pts <= scan_entries(es, tb, target_ms, n).segments[k].end_pts,
    decreases n,
{
    if n > 0 {
        let m = (n - 1) as nat;
        lemma_scan_ordered(es, tb, target_ms, m);
        let st = scan_entries(es, tb, target_ms, m);
        let cur = scan_entries(es, tb, target_ms, n);
        let e = es[m as int];
        if spec_is_keyframe(e) && st.open is Some {
            let (start, byte) = st.open->Some_0;
            if long_enough(e.timestamp - start, tb, target_ms) {
                let d = e.timestamp - start;
                assert(d >= 0) by (nonlinear_arith)
                    requires d * tb.num * 5000 >= target_ms * 4 * tb.den, tb.num > 0, tb.den > 0, target_ms >= 0;
                assert forall|k: int| 0 <= k < cur.segments.len() implies (#[trigger] cur.segments[k]).start_pts
                    <= cur.segments[k].end_pts by {
                    if k < st.segments.len() {
                        assert(cur.segments[k] == st.segments[k]);
                    }
                }
            }
        }
    }
}

/// With a positive timebase no segment ends before it starts: a keyframe
/// closes a segment only when it lies at least 80% of the target after the
/// segment's start, and the last segment ends at the end of the video or
/// where it starts.
pub proof fn law_segments_ordered(es: Seq<IndexEntry>, tb: Rational, total_pts: i64, target_ms: nat)
    requires
        tb.num > 0,
        tb.den > 0,
    ensures
        forall|k: int| 0 <= k < built_segments(es, tb, total_pts, target_ms).len() ==> (#[trigger] built_segments(
            es,
            tb,
            total_pts,
            target_ms,
        )[k]).start_pts <= built_segments(es, tb, total_pts, target_ms)[k].end_pts,
{
    lemma_scan_ordered(es, tb, target_ms, es.len());
    let st = scan_entries(es, tb, target_ms, es.len());
    let b = built_segments(es, tb, total_pts, target_ms);
    assert forall|k: int| 0 <= k < b.len() implies (#[trigger] b[k]).start_pts <= b[k].end_pts by {
        if k < st.segments.len() {
            assert(b[k] == st.segments[k]);
        }
    }
}

/// The source stream that segments are cut on: the first video stream;
/// a file without video cannot be segmented.
pub fn segmenting_video_stream(index: &StreamIndex) -> (r: Result<usize, HlsError>)
    ensures
        match r {
            Ok(i) => index.video_streams@.len() > 0 && i == index.video_streams@[0].stream_index,
            Err(e) => index.video_streams@.len() == 0 && e is NoVideoStream,
        },
{
    if index.video_streams.len() == 0 {
        Err(HlsError::NoVideoStream)
    } else {
        Ok(index.video_streams[0].stream_index)
    }
}

/// The message of a file whose video stream has no demuxer index, the file
/// being named by `path_text`.
pub open spec fn no_index_message(path_text: Seq<char>) -> Seq<char> {
    "File "@ + path_text
        + " has no demuxer index for the video stream. Only files with a complete container index (MP4 moov, MKV Cues) are supported."@
}

/// Segment boundaries come from the video stream's demuxer index: a file
/// whose index holds no entry cannot be segmented.
pub fn check_video_index(entries: &Vec<IndexEntry>, path_text: &str) -> (r: Result<(), HlsError>)
    ensures
        match r {
            Ok(()) => entries@.len() > 0,
            Err(e) => entries@.len() == 0 && (match e {
                HlsError::NoIndex(m) => m@ == no_index_message(path_text@),
                _ => false,
            }),
        },
{
    if entries.len() > 0 {
        return Ok(());
    }
    let mut m = String::from_str("File ");
    push_str(&mut m, path_text);
    push_str(&mut m,
        " has no demuxer index for the video stream. Only files with a complete container index (MP4 moov, MKV Cues) are supported.");
    Err(HlsError::NoIndex(m))
}
} // verus!
