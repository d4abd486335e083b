use vstd::prelude::*;
use crate::text::owned;

verus! {

/// A detected stretch of speech. Its ends are positions in the audio counted
/// in thousandths of a sample (sample `k` starts at `1000 * k`), so that the
/// pieces of long speech may end between samples; at `sr` samples per second,
/// position `u` lies `u / sr` milliseconds into the audio.
pub struct SpeechSegment {
    pub start: u128,
    pub end: u128,
}

/// Energy-based voice activity settings.
///
/// `threshold_permille`: a frame counts as speech when its energy exceeds this
/// many thousandths of the loudest frame's energy. The durations are in
/// milliseconds.
pub struct VadConfig {
    pub threshold_permille: u32,
    pub min_speech_ms: u32,
    pub min_silence_ms: u32,
    pub max_segment_ms: u32,
}

impl Default for VadConfig {
    fn default() -> (r: Self)
        ensures
            r.threshold_permille == 500,
            r.min_speech_ms == 300,
            r.min_silence_ms == 500,
            r.max_segment_ms == 60000,
    {
        VadConfig { threshold_permille: 500, min_speech_ms: 300, min_silence_ms: 500, max_segment_ms: 60000 }
    }
}

impl Clone for VadConfig {
    fn clone(&self) -> (r: Self)
        ensures
            r == *self,
    {
        VadConfig {
            threshold_permille: self.threshold_permille,
            min_speech_ms: self.min_speech_ms,
            min_silence_ms: self.min_silence_ms,
            max_segment_ms: self.max_segment_ms,
        }
    }
}

/// Voice activity detector: splits audio into speech segments by short-time energy.
pub struct VadDetector {
    config: VadConfig,
    model_loaded: bool,
}

/// Samples per 25 ms analysis frame.
pub open spec fn frame_size(sr: nat) -> nat {
    sr / 40
}

/// Sum of squared samples in `s[lo..hi]`.
pub open spec fn sum_sq(s: Seq<i16>, lo: int, hi: int) -> nat
    decreases hi - lo,
{
    if lo >= hi {
        0
    } else {
        sum_sq(s, lo, hi - 1) + (s[hi - 1] * s[hi - 1]) as nat
    }
}

/// Energy of frame `i`.
pub open spec fn frame_energy(s: Seq<i16>, fs: nat, i: nat) -> nat {
    sum_sq(s, (i * fs) as int, ((i + 1) * fs) as int)
}

/// Largest energy among the first `n` frames (0 when there is none).
pub open spec fn max_energy(s: Seq<i16>, fs: nat, n: nat) -> nat
    decreases n,
{
    if n == 0 {
        0
    } else {
        let m = max_energy(s, fs, (n - 1) as nat);
        let e = frame_energy(s, fs, (n - 1) as nat);
        if e > m {
            e
        } else {
            m
        }
    }
}

/// The quantities that the detector derives from its settings and the sample rate.
pub struct VadParams {
    pub fs: nat,
    pub min_samples: nat,
    pub min_silence: nat,
    pub max_ms: nat,
    pub sr: nat,
    pub chunk: nat,
    pub threshold: nat,
}

pub open spec fn vad_params(cfg: VadConfig, sr: nat) -> VadParams {
    VadParams {
        fs: frame_size(sr),
        min_samples: (cfg.min_speech_ms as nat) * sr / 1000,
        min_silence: (cfg.min_silence_ms as nat) * sr / 1000,
        max_ms: cfg.max_segment_ms as nat,
        sr: sr,
        chunk: (cfg.max_segment_ms as nat) * sr,
        threshold: cfg.threshold_permille as nat,
    }
}

pub open spec fn seg(a: nat, b: nat) -> SpeechSegment {
    SpeechSegment { start: a as u128, end: b as u128 }
}

/// Positions `a..b` cut into consecutive pieces of length `len` (the last
/// may be shorter).
pub open spec fn split(a: int, b: int, len: nat) -> Seq<SpeechSegment>
    decreases b - a,
{
    if len == 0 || a >= b {
        seq![]
    } else {
        let e = if a + len < b { a + len } else { b };
        seq![seg(a as nat, e as nat)] + split(e, b, len)
    }
}

/// The segments recorded for speech spanning samples `a..b`: cut into pieces
/// of the maximum duration (`max_ms * sr` thousandths of a sample) when it
/// lasts longer than that.
pub open spec fn emit(a: nat, b: nat, p: VadParams) -> Seq<SpeechSegment> {
    if (b - a) * 1000 > p.max_ms * p.sr {
        split((a * 1000) as int, (b * 1000) as int, p.chunk)
    } else {
        seq![seg(a * 1000, b * 1000)]
    }
}

/// The detector's running state after some frames.
pub struct VadState {
    pub in_speech: bool,
    pub start_frame: nat,
    pub silence: nat,
    pub segments: Seq<SpeechSegment>,
}

/// One frame of the detector: `speech` tells whether frame `i` is loud enough.
pub open spec fn step(st: VadState, i: nat, speech: bool, p: VadParams) -> VadState {
    if speech && !st.in_speech {
        VadState { in_speech: true, start_frame: i, silence: 0, segments: st.segments }
    } else if !speech && st.in_speech {
        let sil = st.silence + 1;
        if sil * p.fs >= p.min_silence {
            let seg_frames = (i - st.start_frame - sil) as nat;
            let segs = if seg_frames * p.fs >= p.min_samples {
                st.segments + emit(st.start_frame * p.fs, ((i - sil) as nat) * p.fs, p)
            } else {
                st.segments
            };
            VadState { in_speech: false, start_frame: st.start_frame, silence: sil, segments: segs }
        } else {
            VadState { in_speech: true, start_frame: st.start_frame, silence: sil, segments: st.segments }
        }
    } else if speech && st.in_speech {
        VadState { in_speech: true, start_frame: st.start_frame, silence: 0, segments: st.segments }
    } else {
        st
    }
}

/// Frame `i` counts as speech.
pub open spec fn is_speech_frame(s: Seq<i16>, p: VadParams, mx: nat, i: nat) -> bool {
    frame_energy(s, p.fs, i) * 1000 > p.threshold * mx
}

pub open spec fn initial_state() -> VadState {
    VadState { in_speech: false, start_frame: 0, silence: 0, segments: seq![] }
}

/// The state after the first `n` frames.
pub open spec fn run_frames(s: Seq<i16>, p: VadParams, mx: nat, n: nat) -> VadState
    decreases n,
{
    if n == 0 {
        initial_state()
    } else {
        let prev = run_frames(s, p, mx, (n - 1) as nat);
        step(prev, (n - 1) as nat, is_speech_frame(s, p, mx, (n - 1) as nat), p)
    }
}

/// The speech segments that the detector finds in `s`: nothing when there is
/// no full frame or the audio is silent; otherwise the segments closed by the
/// frame scan, plus a last one running to the end of the audio when speech is
/// still on after the last frame and long enough.
pub open spec fn detect_segments(s: Seq<i16>, cfg: VadConfig, sr: nat) -> Seq<SpeechSegment> {
    let p = vad_params(cfg, sr);
    let total = s.len() / p.fs;
    let mx = max_energy(s, p.fs, total);
    if total == 0 || mx == 0 {
        seq![]
    } else {
        let st = run_frames(s, p, mx, total);
        if st.in_speech && (total - st.start_frame) * p.fs >= p.min_samples {
            st.segments.push(seg(st.start_frame * p.fs * 1000, s.len() * 1000))
        } else {
            st.segments
        }
    }
}

/// At frame `i` the scan closes speech of at least one frame with silence,
/// speech that is cut into pieces when it lasts longer than the maximum.
pub open spec fn closes_speech_at(s: Seq<i16>, p: VadParams, mx: nat, i: nat) -> bool {
    let st = run_frames(s, p, mx, i);
    let sil = st.silence + 1;
    &&& !is_speech_frame(s, p, mx, i)
    &&& st.in_speech
    &&& sil * p.fs >= p.min_silence
    &&& i - st.start_frame - sil > 0
    &&& ((i - st.start_frame - sil) as nat) * p.fs >= p.min_samples
}

/// The scan of `s` closes some speech of at least one frame.
pub open spec fn cuts_speech(s: Seq<i16>, cfg: VadConfig, sr: nat) -> bool {
    let p = vad_params(cfg, sr);
    let mx = max_energy(s, p.fs, s.len() / p.fs);
    exists|i: nat| i < s.len() / p.fs && #[trigger] closes_speech_at(s, p, mx, i)
}

/// What detection needs: frames of at least one sample (25 ms at `sr`), and a
/// maximum segment duration above zero unless the scan closes no speech (a
/// zero maximum would cut such speech into pieces of no length, without end).
pub open spec fn can_detect(s: Seq<i16>, cfg: VadConfig, sr: nat) -> bool {
    sr >= 40 && (cfg.max_segment_ms > 0 || !cuts_speech(s, cfg, sr))
}

/// Segments in order, each within `lo..hi`, none overlapping the next.
pub open spec fn segments_ordered(segs: Seq<SpeechSegment>, lo: nat, hi: nat) -> bool {
    &&& forall|k: int| 0 <= k < segs.len() ==> lo <= (#[trigger] segs[k]).start <= segs[k].end <= hi
    &&& forall|k: int| 0 <= k < segs.len() - 1 ==> (#[trigger] segs[k]).end <= segs[k + 1].start
}


proof fn lemma_ordered_concat(a: Seq<SpeechSegment>, b: Seq<SpeechSegment>, lo: nat, mid: nat, hi: nat)
    requires
        segments_ordered(a, lo, mid),
        segments_ordered(b, mid, hi),
        lo <= mid <= hi,
    ensures
        segments_ordered(a + b, lo, hi),
{
    let c = a + b;
    assert forall|k: int| 0 <= k < c.len() implies lo <= (#[trigger] c[k]).start <= c[k].end <= hi by {
        if k < a.len() {
            assert(c[k] == a[k]);
        } else {
            assert(c[k] == b[k - a.len()]);
        }
    }
    assert forall|k: int| 0 <= k < c.len() - 1 implies (#[trigger] c[k]).end <= c[k + 1].start by {
        if k + 1 < a.len() {
            assert(c[k] == a[k]);
            assert(c[k + 1] == a[k + 1]);
        } else if k + 1 == a.len() {
            assert(c[k] == a[k]);
            assert(c[k + 1] == b[0]);
        } else {
            assert(c[k] == b[k - a.len()]);
            assert(c[k + 1] == b[k + 1 - a.len()]);
        }
    }
}

proof fn lemma_one_ordered(a: nat, b: nat)
    requires
        a <= b <= u128::MAX,
    ensures
        segments_ordered(seq![seg(a, b)], a, b),
{
    let s = seq![seg(a, b)];
    assert(s[0] == seg(a, b));
}

proof fn lemma_split_ordered(a: int, b: int, len: nat)
    requires
        0 <= a <= b <= u128::MAX,
    ensures
        segments_ordered(split(a, b, len), a as nat, b as nat),
    decreases b - a,
{
    if len == 0 || a >= b {
        assert(split(a, b, len) == Seq::<SpeechSegment>::empty());
    } else {
        let e = if a + len < b { a + len } else { b };
        lemma_split_ordered(e, b, len);
        lemma_one_ordered(a as nat, e as nat);
        lemma_ordered_concat(seq![seg(a as nat, e as nat)], split(e, b, len), a as nat, e as nat, b as nat);
    }
}

proof fn lemma_emit_ordered(a: nat, b: nat, p: VadParams)
    requires
        a <= b <= usize::MAX,
    ensures
        segments_ordered(emit(a, b, p), a * 1000, b * 1000),
{
    if (b - a) * 1000 > p.max_ms * p.sr {
        lemma_split_ordered((a * 1000) as int, (b * 1000) as int, p.chunk);
    } else {
        lemma_one_ordered(a * 1000, b * 1000);
    }
}

/// What the frame scan keeps true: the segments found so far are in order and
/// end before the speech in progress (or before the frames scanned so far).
pub open spec fn scan_ok(st: VadState, n: nat, fs: nat) -> bool {
    &&& st.in_speech ==> st.start_frame + st.silence < n
    &&& segments_ordered(st.segments, 0, (if st.in_speech { st.start_frame * fs } else { n * fs }) * 1000)
}

proof fn lemma_run_ok(s: Seq<i16>, p: VadParams, mx: nat, n: nat)
    requires
        n * p.fs <= usize::MAX,
    ensures
        scan_ok(run_frames(s, p, mx, n), n, p.fs),
    decreases n,
{
    if n > 0 {
        let i = (n - 1) as nat;
        assert(i * p.fs <= n * p.fs) by (nonlinear_arith)
            requires i <= n;
        lemma_run_ok(s, p, mx, i);
        let st = run_frames(s, p, mx, i);
        let sp = is_speech_frame(s, p, mx, i);
        let st2 = step(st, i, sp, p);
        assert(run_frames(s, p, mx, n) == st2);
        if sp && !st.in_speech {
        } else if !sp && st.in_speech {
            let sil = st.silence + 1;
            assert(st.start_frame * p.fs <= i * p.fs) by (nonlinear_arith)
                requires st.start_frame <= i;
            if sil * p.fs >= p.min_silence {
                let a = st.start_frame * p.fs;
                let j = (i - sil) as nat;
                let b = j * p.fs;
                assert(a <= b) by (nonlinear_arith)
                    requires st.start_frame <= j, a == st.start_frame * p.fs, b == j * p.fs;
                assert(b <= i * p.fs) by (nonlinear_arith)
                    requires j <= i, b == j * p.fs;
                let seg_frames = (i - st.start_frame - sil) as nat;
                if seg_frames * p.fs >= p.min_samples {
                    lemma_emit_ordered(a, b, p);
                    lemma_ordered_concat(st.segments, emit(a, b, p), 0, a * 1000, b * 1000);
                }
            }
        } else if sp && st.in_speech {
        } else {
        }
    }
}

proof fn lemma_scan_bounds(s: Seq<i16>, p: VadParams, mx: nat, n: nat)
    ensures
        run_frames(s, p, mx, n).in_speech ==> run_frames(s, p, mx, n).start_frame + run_frames(s, p, mx, n).silence < n,
    decreases n,
{
    if n > 0 {
        lemma_scan_bounds(s, p, mx, (n - 1) as nat);
    }
}

/// Every result of the scan lies within the audio, in order, without overlaps.
pub proof fn lemma_detect_segments_ordered(s: Seq<i16>, cfg: VadConfig, sr: nat)
    requires
        sr >= 40,
        s.len() <= usize::MAX,
    ensures
        segments_ordered(detect_segments(s, cfg, sr), 0, s.len() * 1000),
{
    let p = vad_params(cfg, sr);
    let total = s.len() / p.fs;
    let mx = max_energy(s, p.fs, total);
    assert(total * p.fs <= s.len()) by (nonlinear_arith)
        requires p.fs > 0, total == s.len() / p.fs;
    if total > 0 && mx > 0 {
        lemma_run_ok(s, p, mx, total);
        let st = run_frames(s, p, mx, total);
        assert(st.in_speech ==> st.start_frame * p.fs <= total * p.fs) by (nonlinear_arith)
            requires st.in_speech ==> st.start_frame <= total;
        if st.in_speech && (total - st.start_frame) * p.fs >= p.min_samples {
            let a = st.start_frame * p.fs * 1000;
            lemma_one_ordered(a, s.len() * 1000);
            assert(st.segments.push(seg(a, s.len() * 1000)) == st.segments + seq![seg(a, s.len() * 1000)]);
            lemma_ordered_concat(st.segments, seq![seg(a, s.len() * 1000)], 0, a, s.len() * 1000);
        }
    }
}

#[verifier::spinoff_prover]
proof fn lemma_sum_sq_scale(s: Seq<i16>, t: Seq<i16>, c: int, lo: int, hi: int)
    requires
        t.len() == s.len(),
        forall|i: int| 0 <= i < s.len() ==> #[trigger] t[i] == s[i] * c,
        0 <= lo,
        hi <= s.len(),
    ensures
        sum_sq(t, lo, hi) == c * c * sum_sq(s, lo, hi),
    decreases hi - lo,
{
    if lo < hi {
        lemma_sum_sq_scale(s, t, c, lo, hi - 1);
        let x = s[hi - 1] as int;
        let y = t[hi - 1] as int;
        assert(y == x * c);
        assert(x * x >= 0 && y * y >= 0) by (nonlinear_arith);
        assert(sum_sq(s, lo, hi) == sum_sq(s, lo, hi - 1) + x * x);
        assert(sum_sq(t, lo, hi) == sum_sq(t, lo, hi - 1) + y * y);
        assert(y * y == c * c * (x * x)) by (nonlinear_arith)
            requires y == x * c;
        assert(c * c * sum_sq(s, lo, hi - 1) + c * c * (x * x) == c * c * (sum_sq(s, lo, hi - 1) + x * x))
            by (nonlinear_arith);
    } else {
        assert(c * c * 0 == 0) by (nonlinear_arith);
    }
}

proof fn lemma_max_energy_scale(s: Seq<i16>, t: Seq<i16>, c: int, fs: nat, n: nat)
    requires
        c != 0,
        t.len() == s.len(),
        forall|i: int| 0 <= i < s.len() ==> #[trigger] t[i] == s[i] * c,
        n * fs <= s.len(),
    ensures
        max_energy(t, fs, n) == c * c * max_energy(s, fs, n),
        forall|i: nat| i < n ==> #[trigger] frame_energy(t, fs, i) == c * c * frame_energy(s, fs, i),
    decreases n,
{
    if n > 0 {
        let i = (n - 1) as nat;
        assert(i * fs <= n * fs) by (nonlinear_arith)
            requires i <= n;
        lemma_max_energy_scale(s, t, c, fs, i);
        assert(n * fs == i * fs + fs) by (nonlinear_arith)
            requires n == i + 1;
        lemma_sum_sq_scale(s, t, c, (i * fs) as int, ((i + 1) * fs) as int);
        let e = frame_energy(s, fs, i);
        let m = max_energy(s, fs, i);
        assert(c * c > 0) by (nonlinear_arith)
            requires c != 0;
        assert((c * c * e > c * c * m) == (e > m)) by (nonlinear_arith)
            requires c * c > 0;
        assert(frame_energy(t, fs, i) == c * c * e);
        assert(max_energy(t, fs, i) == c * c * m);
        assert(max_energy(s, fs, n) == if e > m { e } else { m });
        assert(max_energy(t, fs, n) == if c * c * e > c * c * m { c * c * e } else { c * c * m });
        if e > m {
            assert(max_energy(t, fs, n) == c * c * e);
        } else {
            assert(max_energy(t, fs, n) == c * c * m);
        }
    } else {
        assert(c * c * 0 == 0) by (nonlinear_arith);
    }
}

proof fn lemma_run_frames_scale(s: Seq<i16>, t: Seq<i16>, c: int, p: VadParams, ms: nat, mt: nat, n: nat)
    requires
        c != 0,
        mt == c * c * ms,
        forall|i: nat| i < n ==> #[trigger] frame_energy(t, p.fs, i) == c * c * frame_energy(s, p.fs, i),
    ensures
        run_frames(t, p, mt, n) == run_frames(s, p, ms, n),
    decreases n,
{
    if n > 0 {
        let i = (n - 1) as nat;
        lemma_run_frames_scale(s, t, c, p, ms, mt, i);
        let e = frame_energy(s, p.fs, i);
        assert(frame_energy(t, p.fs, i) == c * c * e);
        assert(c * c > 0) by (nonlinear_arith)
            requires c != 0;
        assert((c * c * e * 1000 > p.threshold * (c * c * ms)) == (e * 1000 > p.threshold * ms)) by (nonlinear_arith)
            requires c * c > 0;
        assert(is_speech_frame(t, p, mt, i) == is_speech_frame(s, p, ms, i));
    }
}

/// Frames `e + 1` to `e + m` are all quiet.
pub open spec fn quiet_after(s: Seq<i16>, p: VadParams, mx: nat, e: nat, m: nat) -> bool {
    forall|j: nat| e < j <= e + m ==> !#[trigger] is_speech_frame(s, p, mx, j)
}

/// Segment `g` ends at the start of frame `e` and is followed by `m >= 1`
/// quiet frames that last at least the minimum silence, all before frame `n`.
pub open spec fn silence_closed(s: Seq<i16>, p: VadParams, mx: nat, g: SpeechSegment, n: nat) -> bool {
    exists|e: nat, m: nat|
        #![trigger quiet_after(s, p, mx, e, m)]
        g.end == e * p.fs * 1000 && m >= 1 && m * p.fs >= p.min_silence && e + m < n && quiet_after(s, p, mx, e, m)
}

/// Segment `k` is followed directly by the next piece of the same speech.
pub open spec fn continued(segs: Seq<SpeechSegment>, k: int) -> bool {
    k + 1 < segs.len() && segs[k + 1].start == segs[k].end
}

/// What the scan keeps true about silence: while speech is on, the frames
/// counted as silence are the last ones and all quiet; every segment ends
/// before the current bound; and every segment not continued by the next ends
/// after the minimum silence.
pub open spec fn silence_ok(s: Seq<i16>, p: VadParams, mx: nat, st: VadState, n: nat) -> bool {
    &&& st.in_speech ==> st.start_frame + st.silence < n
    &&& st.in_speech ==> forall|j: nat| n - st.silence <= j < n ==> !#[trigger] is_speech_frame(s, p, mx, j)
    &&& forall|k: int| 0 <= k < st.segments.len() ==> (#[trigger] st.segments[k]).end
        < (if st.in_speech { st.start_frame } else { n }) * p.fs * 1000
    &&& forall|k: int| 0 <= k < st.segments.len() && !continued(st.segments, k)
        ==> silence_closed(s, p, mx, #[trigger] st.segments[k], n)
}

proof fn lemma_split_shape(a: int, b: int, len: nat)
    requires
        0 <= a <= b <= u128::MAX,
    ensures
        forall|j: int| 0 <= j < split(a, b, len).len() ==> a <= (#[trigger] split(a, b, len)[j]).start
            && split(a, b, len)[j].end <= b,
        forall|j: int| 0 <= j < split(a, b, len).len() - 1 ==> (#[trigger] split(a, b, len)[j]).end
            == split(a, b, len)[j + 1].start,
        split(a, b, len).len() > 0 ==> split(a, b, len).last().end == b,
    decreases b - a,
{
    let sp = split(a, b, len);
    if len == 0 || a >= b {
        assert(sp == Seq::<SpeechSegment>::empty());
    } else {
        let e = if a + len < b { a + len } else { b };
        lemma_split_shape(e, b, len);
        let rest = split(e, b, len);
        assert(sp == seq![seg(a as nat, e as nat)] + rest);
        assert forall|j: int| 0 <= j < sp.len() implies a <= (#[trigger] sp[j]).start && sp[j].end <= b by {
            if j > 0 {
                assert(sp[j] == rest[j - 1]);
            }
        }
        assert forall|j: int| 0 <= j < sp.len() - 1 implies (#[trigger] sp[j]).end == sp[j + 1].start by {
            if j > 0 {
                assert(sp[j] == rest[j - 1]);
                assert(sp[j + 1] == rest[j]);
            } else {
                assert(sp[1] == rest[0]);
                assert(e < b);
            }
        }
        if e < b {
            assert(rest.len() > 0);
        }
        if rest.len() > 0 {
            assert(sp.last() == rest.last());
        } else {
            assert(sp.last() == seg(a as nat, e as nat));
        }
    }
}

proof fn lemma_emit_shape(a: nat, b: nat, p: VadParams)
    requires
        a <= b <= usize::MAX,
    ensures
        forall|j: int| 0 <= j < emit(a, b, p).len() ==> a * 1000 <= (#[trigger] emit(a, b, p)[j]).start
            && emit(a, b, p)[j].end <= b * 1000,
        forall|j: int| 0 <= j < emit(a, b, p).len() - 1 ==> (#[trigger] emit(a, b, p)[j]).end
            == emit(a, b, p)[j + 1].start,
        emit(a, b, p).len() > 0 ==> emit(a, b, p).last().end == b * 1000,
{
    if (b - a) * 1000 > p.max_ms * p.sr {
        lemma_split_shape((a * 1000) as int, (b * 1000) as int, p.chunk);
    } else {
        let one = seq![seg(a * 1000, b * 1000)];
        assert(one[0].end == b * 1000);
    }
}

proof fn lemma_silence_closed_later(s: Seq<i16>, p: VadParams, mx: nat, g: SpeechSegment, n: nat, n2: nat)
    requires
        silence_closed(s, p, mx, g, n),
        n <= n2,
    ensures
        silence_closed(s, p, mx, g, n2),
{
    let (e, m) = choose|e: nat, m: nat|
        #![trigger quiet_after(s, p, mx, e, m)]
        g.end == e * p.fs * 1000 && m >= 1 && m * p.fs >= p.min_silence && e + m < n && quiet_after(s, p, mx, e, m);
    assert(quiet_after(s, p, mx, e, m));
}

proof fn lemma_run_silence(s: Seq<i16>, p: VadParams, mx: nat, n: nat)
    requires
        n * p.fs <= usize::MAX,
        p.fs >= 1,
    ensures
        silence_ok(s, p, mx, run_frames(s, p, mx, n), n),
    decreases n,
{
    if n > 0 {
        let i = (n - 1) as nat;
        assert(i * p.fs <= n * p.fs) by (nonlinear_arith)
            requires i <= n;
        lemma_run_silence(s, p, mx, i);
        let st = run_frames(s, p, mx, i);
        let sp = is_speech_frame(s, p, mx, i);
        let st2 = step(st, i, sp, p);
        assert(run_frames(s, p, mx, n) == st2);
        let bound = (if st.in_speech { st.start_frame } else { i }) * p.fs * 1000;
        assert forall|k: int| 0 <= k < st.segments.len() && !continued(st.segments, k)
            implies silence_closed(s, p, mx, #[trigger] st.segments[k], n) by {
            lemma_silence_closed_later(s, p, mx, st.segments[k], i, n);
        }
        if sp && !st.in_speech {
            assert(i * p.fs * 1000 <= i * p.fs * 1000);
        } else if !sp && st.in_speech {
            let sil = st.silence + 1;
            assert forall|j: nat| n - sil <= j < n implies !#[trigger] is_speech_frame(s, p, mx, j) by {
                if j < i {
                    assert(i - st.silence <= j);
                }
            }
            if sil * p.fs >= p.min_silence {
                let jj = (i - sil) as nat;
                let a = st.start_frame * p.fs;
                let b = jj * p.fs;
                assert(a <= b) by (nonlinear_arith)
                    requires st.start_frame <= jj, a == st.start_frame * p.fs, b == jj * p.fs;
                assert(b <= i * p.fs) by (nonlinear_arith)
                    requires jj <= i, b == jj * p.fs;
                assert(b * 1000 < n * p.fs * 1000) by (nonlinear_arith)
                    requires b == jj * p.fs, jj < n, p.fs >= 1;
                assert(st.start_frame * p.fs * 1000 <= n * p.fs * 1000) by (nonlinear_arith)
                    requires st.start_frame <= n;
                let seg_frames = (i - st.start_frame - sil) as nat;
                if seg_frames * p.fs >= p.min_samples {
                    let old = st.segments;
                    let em = emit(a, b, p);
                    let all = old + em;
                    assert(st2.segments == all);
                    lemma_emit_shape(a, b, p);
                    assert(quiet_after(s, p, mx, jj, sil)) by {
                        assert forall|j: nat| jj < j <= jj + sil implies !#[trigger] is_speech_frame(s, p, mx, j) by {
                            assert(n - sil <= j < n);
                        }
                    }
                    assert(b * 1000 == jj * p.fs * 1000);
                    assert forall|k: int| 0 <= k < all.len() implies (#[trigger] all[k]).end < n * p.fs * 1000 by {
                        if k < old.len() {
                            assert(all[k] == old[k]);
                        } else {
                            assert(all[k] == em[k - old.len()]);
                        }
                    }
                    assert forall|k: int| 0 <= k < all.len() && !continued(all, k)
                        implies silence_closed(s, p, mx, #[trigger] all[k], n) by {
                        if k < old.len() {
                            assert(all[k] == old[k]);
                            if k + 1 < old.len() {
                                assert(all[k + 1] == old[k + 1]);
                                assert(!continued(old, k));
                            } else {
                                assert(!continued(old, k));
                            }
                        } else {
                            let j = k - old.len();
                            assert(all[k] == em[j]);
                            if j < em.len() - 1 {
                                assert(all[k + 1] == em[j + 1]);
                                assert(false);
                            }
                            assert(em[j] == em.last());
                            assert(em[j].end == jj * p.fs * 1000);
                            assert(quiet_after(s, p, mx, jj, sil));
                        }
                    }
                } else {
                    assert forall|k: int| 0 <= k < st.segments.len() implies (#[trigger] st.segments[k]).end
                        < n * p.fs * 1000 by {}
                }
            }
        } else if sp && st.in_speech {
        } else {
            assert(i * p.fs * 1000 <= n * p.fs * 1000) by (nonlinear_arith)
                requires i <= n;
        }
    }
}

/// Speech ends only after the minimum silence, so a shorter pause never splits
/// it: every detected segment that is neither continued directly by the next
/// piece of the same speech nor running to the end of the audio ends at the
/// start of a frame `e`, and the frames after it, `e + 1` to `e + m`, are quiet
/// and last at least the minimum silence (`m * fs >= min_silence`, `m >= 1`),
/// all among the audio's full frames.
pub proof fn lemma_segments_end_after_minimum_silence(s: Seq<i16>, cfg: VadConfig, sr: nat)
    requires
        sr >= 40,
        s.len() <= usize::MAX,
    ensures
        forall|k: int|
            0 <= k < detect_segments(s, cfg, sr).len() && !continued(detect_segments(s, cfg, sr), k)
                && (#[trigger] detect_segments(s, cfg, sr)[k]).end != s.len() * 1000 ==> silence_closed(
                s,
                vad_params(cfg, sr),
                max_energy(s, vad_params(cfg, sr).fs, s.len() / vad_params(cfg, sr).fs),
                detect_segments(s, cfg, sr)[k],
                s.len() / vad_params(cfg, sr).fs,
            ),
{
    let p = vad_params(cfg, sr);
    let total = s.len() / p.fs;
    let mx = max_energy(s, p.fs, total);
    let segs = detect_segments(s, cfg, sr);
    assert(total * p.fs <= s.len()) by (nonlinear_arith)
        requires p.fs > 0, total == s.len() / p.fs;
    if total > 0 && mx > 0 {
        lemma_run_silence(s, p, mx, total);
        let st = run_frames(s, p, mx, total);
        if st.in_speech && (total - st.start_frame) * p.fs >= p.min_samples {
            let a = st.start_frame * p.fs * 1000;
            let last = seg(a, s.len() * 1000);
            assert(segs == st.segments.push(last));
            assert forall|k: int|
                0 <= k < segs.len() && !continued(segs, k) && (#[trigger] segs[k]).end != s.len() * 1000
                implies silence_closed(s, p, mx, segs[k], total) by {
                if k < st.segments.len() {
                    assert(segs[k] == st.segments[k]);
                    if k + 1 < st.segments.len() {
                        assert(segs[k + 1] == st.segments[k + 1]);
                        assert(!continued(st.segments, k));
                    } else {
                        assert(!continued(st.segments, k));
                    }
                } else {
                    assert(segs[k] == last);
                }
            }
        } else {
            assert(segs == st.segments);
        }
    }
}

/// Frames `c` to `c + m - 1` are all quiet.
pub open spec fn quiet_from(s: Seq<i16>, p: VadParams, mx: nat, c: nat, m: nat) -> bool {
    forall|j: nat| c <= j < c + m ==> !#[trigger] is_speech_frame(s, p, mx, j)
}

/// Quiet frames `c` to `c + m - 1` last the minimum silence.
pub open spec fn long_quiet(s: Seq<i16>, p: VadParams, mx: nat, c: nat, m: nat) -> bool {
    m >= 1 && m * p.fs >= p.min_silence && quiet_from(s, p, mx, c, m)
}

/// Segment `g` spans frames `c` to `c + m - 1`.
pub open spec fn spans_frames(g: SpeechSegment, fs: nat, c: nat, m: nat) -> bool {
    g.start <= c * fs * 1000 && (c + m) * fs * 1000 <= g.end
}

/// What the scan keeps true about pauses: while speech is on, the frame before
/// the counted silence is loud and no quiet stretch lasting the minimum silence
/// lies between the start of the speech and the current frame; and no segment
/// spans such a stretch.
pub open spec fn pauses_ok(s: Seq<i16>, p: VadParams, mx: nat, st: VadState, n: nat) -> bool {
    &&& st.in_speech ==> st.start_frame + st.silence < n && is_speech_frame(s, p, mx, (n - 1 - st.silence) as nat)
    &&& st.in_speech ==> forall|c: nat, m: nat|
        #![trigger quiet_from(s, p, mx, c, m)]
        st.start_frame <= c && c + m <= n ==> !long_quiet(s, p, mx, c, m)
    &&& forall|k: int, c: nat, m: nat|
        #![trigger st.segments[k], quiet_from(s, p, mx, c, m)]
        0 <= k < st.segments.len() && long_quiet(s, p, mx, c, m) ==> !spans_frames(st.segments[k], p.fs, c, m)
}

proof fn lemma_spans_frames_bounds(g: SpeechSegment, fs: nat, c: nat, m: nat, lo: nat, hi: nat)
    requires
        fs >= 1,
        lo * fs * 1000 <= g.start,
        g.end <= hi * fs * 1000,
        spans_frames(g, fs, c, m),
    ensures
        lo <= c,
        c + m <= hi,
{
    assert(lo <= c) by (nonlinear_arith)
        requires fs >= 1, lo * fs * 1000 <= c * fs * 1000;
    assert(c + m <= hi) by (nonlinear_arith)
        requires fs >= 1, (c + m) * fs * 1000 <= hi * fs * 1000;
}

proof fn lemma_run_pauses(s: Seq<i16>, p: VadParams, mx: nat, n: nat)
    requires
        n * p.fs <= usize::MAX,
        p.fs >= 1,
    ensures
        pauses_ok(s, p, mx, run_frames(s, p, mx, n), n),
    decreases n,
{
    if n > 0 {
        let i = (n - 1) as nat;
        assert(i * p.fs <= n * p.fs) by (nonlinear_arith)
            requires i <= n;
        lemma_run_pauses(s, p, mx, i);
        lemma_scan_bounds(s, p, mx, i);
        let st = run_frames(s, p, mx, i);
        let sp = is_speech_frame(s, p, mx, i);
        let st2 = step(st, i, sp, p);
        assert(run_frames(s, p, mx, n) == st2);
        if sp && !st.in_speech {
            assert forall|c: nat, m: nat| i <= c && c + m <= n implies !#[trigger] long_quiet(s, p, mx, c, m) by {
                if long_quiet(s, p, mx, c, m) {
                    assert(!is_speech_frame(s, p, mx, c));
                }
            }
            assert forall|c: nat, m: nat| st2.start_frame <= c && c + m <= n
                implies !#[trigger] long_quiet(s, p, mx, c, m) by {
                assert(!long_quiet(s, p, mx, c, m));
            }
        } else if !sp && st.in_speech {
            let sil = st.silence + 1;
            if sil * p.fs >= p.min_silence {
                let jj = (i - sil) as nat;
                let a = st.start_frame * p.fs;
                let b = jj * p.fs;
                assert(a <= b) by (nonlinear_arith)
                    requires st.start_frame <= jj, a == st.start_frame * p.fs, b == jj * p.fs;
                assert(b <= i * p.fs) by (nonlinear_arith)
                    requires jj <= i, b == jj * p.fs;
                let seg_frames = (i - st.start_frame - sil) as nat;
                if seg_frames * p.fs >= p.min_samples {
                    let old = st.segments;
                    let em = emit(a, b, p);
                    let all = old + em;
                    assert(st2.segments == all);
                    lemma_emit_shape(a, b, p);
                    assert forall|k: int, c: nat, m: nat|
                        #![trigger all[k], quiet_from(s, p, mx, c, m)]
                        0 <= k < all.len() && long_quiet(s, p, mx, c, m)
                        implies !spans_frames(all[k], p.fs, c, m) by {
                        if k < old.len() {
                            assert(all[k] == old[k]);
                            assert(quiet_from(s, p, mx, c, m));
                        } else {
                            let g = em[k - old.len()];
                            assert(all[k] == g);
                            if spans_frames(g, p.fs, c, m) {
                                assert(a * 1000 == st.start_frame * p.fs * 1000);
                                lemma_spans_frames_bounds(g, p.fs, c, m, st.start_frame, jj);
                                assert(quiet_from(s, p, mx, c, m));
                                assert(!long_quiet(s, p, mx, c, m));
                            }
                        }
                    }
                }
            } else {
                assert(n - 1 - sil == i - 1 - st.silence);
                assert forall|c: nat, m: nat| st.start_frame <= c && c + m <= n
                    implies !#[trigger] long_quiet(s, p, mx, c, m) by {
                    if c + m <= i {
                        if long_quiet(s, p, mx, c, m) {
                            assert(quiet_from(s, p, mx, c, m));
                        }
                    } else if long_quiet(s, p, mx, c, m) {
                        let loud = (i - 1 - st.silence) as nat;
                        if c <= loud {
                            assert(!is_speech_frame(s, p, mx, loud));
                        }
                        assert(m <= sil);
                        assert(m * p.fs <= sil * p.fs) by (nonlinear_arith)
                            requires m <= sil;
                    }
                }
            }
        } else if sp && st.in_speech {
            assert forall|c: nat, m: nat| st.start_frame <= c && c + m <= n
                implies !#[trigger] long_quiet(s, p, mx, c, m) by {
                if c + m <= i {
                    if long_quiet(s, p, mx, c, m) {
                        assert(quiet_from(s, p, mx, c, m));
                    }
                } else if long_quiet(s, p, mx, c, m) {
                    assert(!is_speech_frame(s, p, mx, i));
                }
            }
        } else {
        }
    }
}

/// A stretch of speech is never split by a shorter pause, and no segment
/// contains a pause that lasts the minimum silence: whenever frames `c` to
/// `c + m - 1` (`m >= 1`, among the audio's full frames) are all quiet and last
/// at least the minimum silence (`m * fs >= min_silence`), no detected segment
/// spans them.
pub proof fn lemma_no_segment_spans_minimum_silence(s: Seq<i16>, cfg: VadConfig, sr: nat)
    requires
        sr >= 40,
        s.len() <= usize::MAX,
    ensures
        forall|k: int, c: nat, m: nat|
            #![trigger detect_segments(s, cfg, sr)[k], quiet_from(s, vad_params(cfg, sr), max_energy(s, vad_params(cfg, sr).fs, s.len() / vad_params(cfg, sr).fs), c, m)]
            0 <= k < detect_segments(s, cfg, sr).len() && c + m <= s.len() / vad_params(cfg, sr).fs
                && long_quiet(s, vad_params(cfg, sr), max_energy(s, vad_params(cfg, sr).fs, s.len() / vad_params(cfg, sr).fs), c, m)
                ==> !spans_frames(detect_segments(s, cfg, sr)[k], vad_params(cfg, sr).fs, c, m),
{
    let p = vad_params(cfg, sr);
    let total = s.len() / p.fs;
    let mx = max_energy(s, p.fs, total);
    let segs = detect_segments(s, cfg, sr);
    assert(total * p.fs <= s.len()) by (nonlinear_arith)
        requires p.fs > 0, total == s.len() / p.fs;
    if total > 0 && mx > 0 {
        lemma_run_pauses(s, p, mx, total);
        let st = run_frames(s, p, mx, total);
        if st.in_speech && (total - st.start_frame) * p.fs >= p.min_samples {
            let a = st.start_frame * p.fs * 1000;
            let last = seg(a, s.len() * 1000);
            assert(segs == st.segments.push(last));
            lemma_scan_bounds(s, p, mx, total);
            assert(a <= s.len() * 1000) by (nonlinear_arith)
                requires a == st.start_frame * p.fs * 1000, st.start_frame <= total, total * p.fs <= s.len();
            assert(last.start == a);
            assert forall|k: int, c: nat, m: nat|
                #![trigger segs[k], quiet_from(s, p, mx, c, m)]
                0 <= k < segs.len() && c + m <= total && long_quiet(s, p, mx, c, m)
                implies !spans_frames(segs[k], p.fs, c, m) by {
                if k < st.segments.len() {
                    assert(segs[k] == st.segments[k]);
                    assert(quiet_from(s, p, mx, c, m));
                } else {
                    assert(segs[k] == last);
                    if spans_frames(last, p.fs, c, m) {
                        assert(st.start_frame <= c) by (nonlinear_arith)
                            requires p.fs >= 1, st.start_frame * p.fs * 1000 <= c * p.fs * 1000;
                        assert(quiet_from(s, p, mx, c, m));
                    }
                }
            }
        } else {
            assert(segs == st.segments);
            assert forall|k: int, c: nat, m: nat|
                #![trigger segs[k], quiet_from(s, p, mx, c, m)]
                0 <= k < segs.len() && c + m <= total && long_quiet(s, p, mx, c, m)
                implies !spans_frames(segs[k], p.fs, c, m) by {
                assert(quiet_from(s, p, mx, c, m));
            }
        }
    }
}

/// Loudness does not matter: multiplying every sample by the same non-zero
/// factor (a negation included), with the products still 16-bit samples,
/// leaves the segments unchanged, since each frame's energy is measured
/// against the loudest frame's.
pub proof fn lemma_detect_segments_scale_free(s: Seq<i16>, t: Seq<i16>, c: int, cfg: VadConfig, sr: nat)
    requires
        sr >= 40,
        c != 0,
        t.len() == s.len(),
        forall|i: int| 0 <= i < s.len() ==> #[trigger] t[i] == s[i] * c,
    ensures
        detect_segments(t, cfg, sr) == detect_segments(s, cfg, sr),
{
    let p = vad_params(cfg, sr);
    let total = s.len() / p.fs;
    assert(total * p.fs <= s.len()) by (nonlinear_arith)
        requires p.fs > 0, total == s.len() / p.fs;
    lemma_max_energy_scale(s, t, c, p.fs, total);
    let ms = max_energy(s, p.fs, total);
    let mt = max_energy(t, p.fs, total);
    assert(c * c > 0) by (nonlinear_arith)
        requires c != 0;
    assert((mt == 0) == (ms == 0)) by (nonlinear_arith)
        requires mt == c * c * ms, c * c > 0;
    lemma_run_frames_scale(s, t, c, p, ms, mt, total);
}

/// Segment `g` lasts at most `max_ms` milliseconds at `sr` samples per second.
pub open spec fn within_max(g: SpeechSegment, max_ms: nat, sr: nat) -> bool {
    g.end - g.start <= max_ms * sr
}

pub open spec fn all_within_max(segs: Seq<SpeechSegment>, max_ms: nat, sr: nat) -> bool {
    forall|k: int| 0 <= k < segs.len() ==> within_max(#[trigger] segs[k], max_ms, sr)
}

proof fn lemma_within_concat(a: Seq<SpeechSegment>, b: Seq<SpeechSegment>, max_ms: nat, sr: nat)
    requires
        all_within_max(a, max_ms, sr),
        all_within_max(b, max_ms, sr),
    ensures
        all_within_max(a + b, max_ms, sr),
{
    let c = a + b;
    assert forall|k: int| 0 <= k < c.len() implies within_max(#[trigger] c[k], max_ms, sr) by {
        if k < a.len() {
            assert(c[k] == a[k]);
        } else {
            assert(c[k] == b[k - a.len()]);
        }
    }
}

proof fn lemma_split_within(a: int, b: int, len: nat, max_ms: nat, sr: nat)
    requires
        0 <= a <= b <= u128::MAX,
        len <= max_ms * sr,
    ensures
        all_within_max(split(a, b, len), max_ms, sr),
    decreases b - a,
{
    if len == 0 || a >= b {
        assert(split(a, b, len) == Seq::<SpeechSegment>::empty());
    } else {
        let e = if a + len < b { a + len } else { b };
        lemma_split_within(e, b, len, max_ms, sr);
        let one = seq![seg(a as nat, e as nat)];
        assert(one[0].end - one[0].start == e - a);
        assert(all_within_max(one, max_ms, sr));
        lemma_within_concat(one, split(e, b, len), max_ms, sr);
    }
}

proof fn lemma_emit_within(a: nat, b: nat, p: VadParams)
    requires
        a <= b <= usize::MAX,
        p.chunk == p.max_ms * p.sr,
    ensures
        all_within_max(emit(a, b, p), p.max_ms, p.sr),
{
    if (b - a) * 1000 > p.max_ms * p.sr {
        lemma_split_within((a * 1000) as int, (b * 1000) as int, p.chunk, p.max_ms, p.sr);
    } else {
        let one = seq![seg(a * 1000, b * 1000)];
        assert(one[0].end - one[0].start == (b - a) * 1000);
    }
}

proof fn lemma_run_within(s: Seq<i16>, p: VadParams, mx: nat, n: nat)
    requires
        n * p.fs <= usize::MAX,
        p.chunk == p.max_ms * p.sr,
    ensures
        all_within_max(run_frames(s, p, mx, n).segments, p.max_ms, p.sr),
    decreases n,
{
    if n > 0 {
        let i = (n - 1) as nat;
        assert(i * p.fs <= n * p.fs) by (nonlinear_arith)
            requires i <= n;
        lemma_run_within(s, p, mx, i);
        lemma_run_ok(s, p, mx, i);
        let st = run_frames(s, p, mx, i);
        let sp = is_speech_frame(s, p, mx, i);
        assert(run_frames(s, p, mx, n) == step(st, i, sp, p));
        if !sp && st.in_speech {
            let sil = st.silence + 1;
            if sil * p.fs >= p.min_silence {
                let a = st.start_frame * p.fs;
                let j = (i - sil) as nat;
                let b = j * p.fs;
                assert(a <= b) by (nonlinear_arith)
                    requires st.start_frame <= j, a == st.start_frame * p.fs, b == j * p.fs;
                assert(b <= i * p.fs) by (nonlinear_arith)
                    requires j <= i, b == j * p.fs;
                let seg_frames = (i - st.start_frame - sil) as nat;
                if seg_frames * p.fs >= p.min_samples {
                    lemma_emit_within(a, b, p);
                    lemma_within_concat(st.segments, emit(a, b, p), p.max_ms, p.sr);
                }
            }
        }
    }
}

/// No detected segment lasts longer than the maximum segment duration (at
/// most `max_segment_ms * sr` thousandths of a sample), except
/// a last one that runs on to the end of the audio: long speech is cut into
/// pieces when its end is found, not when the audio stops during it.
pub proof fn lemma_detect_segments_within_max(s: Seq<i16>, cfg: VadConfig, sr: nat)
    requires
        sr >= 40,
        s.len() <= usize::MAX,
    ensures
        forall|k: int| 0 <= k < detect_segments(s, cfg, sr).len() ==> {
            ||| within_max(#[trigger] detect_segments(s, cfg, sr)[k], cfg.max_segment_ms as nat, sr)
            ||| (k == detect_segments(s, cfg, sr).len() - 1 && detect_segments(s, cfg, sr)[k].end == s.len() * 1000)
        },
{
    let p = vad_params(cfg, sr);
    let total = s.len() / p.fs;
    let mx = max_energy(s, p.fs, total);
    let segs = detect_segments(s, cfg, sr);
    assert(total * p.fs <= s.len()) by (nonlinear_arith)
        requires p.fs > 0, total == s.len() / p.fs;
    if total > 0 && mx > 0 {
        lemma_run_within(s, p, mx, total);
        let st = run_frames(s, p, mx, total);
        if st.in_speech && (total - st.start_frame) * p.fs >= p.min_samples {
            let a = st.start_frame * p.fs * 1000;
            assert(segs == st.segments.push(seg(a, s.len() * 1000)));
            assert forall|k: int| 0 <= k < segs.len() implies {
                ||| within_max(#[trigger] segs[k], cfg.max_segment_ms as nat, sr)
                ||| (k == segs.len() - 1 && segs[k].end == s.len() * 1000)
            } by {
                if k < st.segments.len() {
                    assert(segs[k] == st.segments[k]);
                }
            }
        } else {
            assert(segs == st.segments);
        }
    }
}


impl View for VadDetector {
    type V = (VadConfig, bool);

    /// The settings, and whether the detector has been loaded.
    closed spec fn view(&self) -> (VadConfig, bool) {
        (self.config, self.model_loaded)
    }
}

/// Energy of the frame `s[lo..lo + fs]`.
fn frame_energy_of(s: &[i16], lo: usize, fs: usize) -> (e: u64)
    requires
        lo + fs <= s.len(),
        fs <= 0x1_0000_0000,
    ensures
        e == sum_sq(s@, lo as int, (lo + fs) as int),
{
    let mut acc: u64 = 0;
    let mut j: usize = lo;
    while j < lo + fs
        invariant
            lo <= j <= lo + fs,
            lo + fs <= s.len(),
            fs <= 0x1_0000_0000,
            acc == sum_sq(s@, lo as int, j as int),
            acc <= (j - lo) * 0x4000_0000,
        decreases lo + fs - j,
    {
        let x = s[j] as i64;
        assert(0 <= x * x <= 0x4000_0000) by (nonlinear_arith)
            requires -32768 <= x <= 32767;
        let sq = x * x;
        assert(acc + sq <= (j + 1 - lo) * 0x4000_0000) by (nonlinear_arith)
            requires acc <= (j - lo) * 0x4000_0000, sq <= 0x4000_0000, j >= lo;
        assert((j + 1 - lo) * 0x4000_0000 <= 0x1_0000_0000 * 0x4000_0000) by (nonlinear_arith)
            requires j + 1 - lo <= fs, fs <= 0x1_0000_0000;
        acc = acc + sq as u64;
        j = j + 1;
    }
    acc
}

/// The energy of every full frame of `fs` samples, and the largest.
fn frame_energies(samples: &[i16], fs: usize, total: usize) -> (r: (Vec<u64>, u64))
    requires
        fs >= 1,
        fs <= 0x1_0000_0000,
        total * fs <= samples.len(),
    ensures
        r.0@.len() == total,
        forall|k: int| 0 <= k < total ==> r.0@[k] as nat == #[trigger] frame_energy(samples@, fs as nat, k as nat),
        r.1 as nat == max_energy(samples@, fs as nat, total as nat),
{
    let mut energies: Vec<u64> = Vec::new();
    let mut mx: u64 = 0;
    let mut i: usize = 0;
    while i < total
        invariant
            i <= total,
            total * fs <= samples.len(),
            fs >= 1,
            fs <= 0x1_0000_0000,
            energies@.len() == i,
            forall|k: int| 0 <= k < i ==> energies@[k] as nat == #[trigger] frame_energy(samples@, fs as nat, k as nat),
            mx as nat == max_energy(samples@, fs as nat, i as nat),
        decreases total - i,
    {
        assert((i + 1) * fs <= total * fs) by (nonlinear_arith)
            requires i + 1 <= total;
        assert(i * fs + fs == (i + 1) * fs) by (nonlinear_arith);
        let e = frame_energy_of(samples, i * fs, fs);
        assert(e as nat == frame_energy(samples@, fs as nat, i as nat));
        energies.push(e);
        if e > mx {
            mx = e;
        }
        i = i + 1;
    }
    (energies, mx)
}

/// Whether a loaded detector can run on this audio at this rate with these
/// settings (`can_detect`): frames of at least one sample, and a maximum
/// duration above zero unless the scan closes no speech.
pub fn can_detect_exec(samples: &[i16], sample_rate: u32, config: &VadConfig) -> (b: bool)
    ensures
        b == can_detect(samples@, *config, sample_rate as nat),
{
    if sample_rate < 40 {
        return false;
    }
    if config.max_segment_ms > 0 {
        return true;
    }
    let ghost p = vad_params(*config, sample_rate as nat);
    let sr = sample_rate as u64;
    let fs: usize = (sample_rate / 40) as usize;
    proof {
        let m1 = config.min_speech_ms as u64;
        let m2 = config.min_silence_ms as u64;
        assert(m1 * sr <= 0xffff_ffff * 0xffff_ffff) by (nonlinear_arith)
            requires m1 <= 0xffff_ffff, sr <= 0xffff_ffff;
        assert(m2 * sr <= 0xffff_ffff * 0xffff_ffff) by (nonlinear_arith)
            requires m2 <= 0xffff_ffff, sr <= 0xffff_ffff;
    }
    let min_samples: u64 = (config.min_speech_ms as u64) * sr / 1000;
    let min_silence: u64 = (config.min_silence_ms as u64) * sr / 1000;
    let threshold = config.threshold_permille as u128;
    assert(fs as nat == p.fs && min_samples as nat == p.min_samples && min_silence as nat == p.min_silence);
    let n = samples.len();
    let total = n / fs;
    assert(total * fs <= n) by (nonlinear_arith)
        requires fs > 0, total == n / fs;
    let (energies, mx) = frame_energies(samples, fs, total);
    let mut in_speech = false;
    let mut start_frame: usize = 0;
    let mut silence: usize = 0;
    let mut i: usize = 0;
    while i < total
        invariant
            i <= total,
            total == n / fs,
            n == samples@.len(),
            fs as nat == p.fs,
            fs >= 1,
            p == vad_params(*config, sample_rate as nat),
            config.max_segment_ms == 0,
            sample_rate >= 40,
            threshold == config.threshold_permille,
            min_samples as nat == p.min_samples,
            min_silence as nat == p.min_silence,
            energies@.len() == total,
            forall|k: int| 0 <= k < total ==> energies@[k] as nat == #[trigger] frame_energy(samples@, p.fs, k as nat),
            mx as nat == max_energy(samples@, p.fs, total as nat),
            in_speech == run_frames(samples@, p, mx as nat, i as nat).in_speech,
            start_frame == run_frames(samples@, p, mx as nat, i as nat).start_frame,
            silence == run_frames(samples@, p, mx as nat, i as nat).silence,
            forall|j: nat| j < i ==> !#[trigger] closes_speech_at(samples@, p, mx as nat, j),
        decreases total - i,
    {
        let ghost st = run_frames(samples@, p, mx as nat, i as nat);
        assert(threshold * (mx as u128) <= 0xffff_ffff * 0xffff_ffff_ffff_ffff) by (nonlinear_arith)
            requires threshold <= 0xffff_ffff, mx <= 0xffff_ffff_ffff_ffff;
        let speech = (energies[i] as u128) * 1000 > threshold * (mx as u128);
        assert(speech == is_speech_frame(samples@, p, mx as nat, i as nat));
        if !speech && in_speech {
            assert(st.start_frame + st.silence <= i) by {
                crate::vad::lemma_scan_bounds(samples@, p, mx as nat, i as nat);
            }
            let sil = silence + 1;
            assert((sil as u128) * (fs as u128) <= 0xffff_ffff_ffff_ffff * 0xffff_ffff_ffff_ffff) by (nonlinear_arith)
                requires sil <= 0xffff_ffff_ffff_ffff, fs <= 0xffff_ffff_ffff_ffff;
            if (sil as u128) * (fs as u128) >= min_silence as u128 && start_frame + sil < i {
                let seg_frames = i - start_frame - sil;
                assert((seg_frames as u128) * (fs as u128) <= 0xffff_ffff_ffff_ffff * 0xffff_ffff_ffff_ffff) by (nonlinear_arith)
                    requires seg_frames <= 0xffff_ffff_ffff_ffff, fs <= 0xffff_ffff_ffff_ffff;
                if (seg_frames as u128) * (fs as u128) >= min_samples as u128 {
                    assert(closes_speech_at(samples@, p, mx as nat, i as nat));
                    assert(cuts_speech(samples@, *config, sample_rate as nat));
                    return false;
                }
            }
        }
        assert(!closes_speech_at(samples@, p, mx as nat, i as nat));
        let ghost st2 = step(st, i as nat, speech, p);
        assert(run_frames(samples@, p, mx as nat, (i + 1) as nat) == st2);
        if speech && !in_speech {
            in_speech = true;
            start_frame = i;
            silence = 0;
        } else if !speech && in_speech {
            silence = silence + 1;
            if (silence as u128) * (fs as u128) >= min_silence as u128 {
                in_speech = false;
            }
        } else if speech && in_speech {
            silence = 0;
        }
        i = i + 1;
    }
    assert(!cuts_speech(samples@, *config, sample_rate as nat));
    true
}

impl VadDetector {
    pub fn new(config: VadConfig) -> (r: Self)
        ensures
            r@ == (config, false),
    {
        VadDetector { config, model_loaded: false }
    }

    /// Marks the detector as loaded; the energy detector needs no model file,
    /// so this always succeeds.
    pub fn load(&mut self, model_path: &str) -> (r: Result<(), String>)
        ensures
            r is Ok,
            final(self)@ == (old(self)@.0, true),
    {
        self.model_loaded = true;
        Ok(())
    }

    /// Detects speech segments in 16-bit mono PCM samples taken at `sample_rate`.
    /// Fails with "VAD model not loaded" when the detector was never loaded;
    /// otherwise returns `detect_segments`, whose segments (in thousandths of a
    /// sample) always lie within the audio, in order and without overlap. A
    /// loaded detector needs `can_detect`: frames of at least one sample, and
    /// a maximum duration above zero whenever speech is to be cut.
    pub fn detect(&self, samples: &[i16], sample_rate: u32) -> (r: Result<Vec<SpeechSegment>, String>)
        requires
            self@.1 ==> can_detect(samples@, self@.0, sample_rate as nat),
        ensures
            !self@.1 ==> (r matches Err(e) && e@ == "VAD model not loaded"@),
            self@.1 ==> (r matches Ok(v) && v@ == detect_segments(samples@, self@.0, sample_rate as nat)),
            r matches Ok(v) ==> segments_ordered(v@, 0, samples@.len() * 1000),
    {
        if !self.model_loaded {
            return Err(owned("VAD model not loaded"));
        }
        let ghost p = vad_params(self.config, sample_rate as nat);
        let sr = sample_rate as u64;
        let fs: usize = (sample_rate / 40) as usize;
        proof {
            let m1 = self.config.min_speech_ms as u64;
            let m2 = self.config.min_silence_ms as u64;
            assert(m1 * sr <= 0xffff_ffff * 0xffff_ffff) by (nonlinear_arith)
                requires m1 <= 0xffff_ffff, sr <= 0xffff_ffff;
            assert(m2 * sr <= 0xffff_ffff * 0xffff_ffff) by (nonlinear_arith)
                requires m2 <= 0xffff_ffff, sr <= 0xffff_ffff;
        }
        let min_samples: u64 = (self.config.min_speech_ms as u64) * sr / 1000;
        let min_silence: u64 = (self.config.min_silence_ms as u64) * sr / 1000;
        let max_ms = self.config.max_segment_ms as u64;
        assert((max_ms as u128) * (sr as u128) <= 0xffff_ffff * 0xffff_ffff) by (nonlinear_arith)
            requires max_ms <= 0xffff_ffff, sr <= 0xffff_ffff;
        let chunk: u128 = (max_ms as u128) * (sr as u128);
        let threshold = self.config.threshold_permille as u128;
        assert(fs as nat == p.fs && min_samples as nat == p.min_samples && min_silence as nat == p.min_silence
            && chunk as nat == p.chunk);
        let n = samples.len();
        let total = n / fs;
        proof {
            assert(total * fs <= n) by (nonlinear_arith)
                requires fs > 0, total == n / fs;
            lemma_detect_segments_ordered(samples@, self.config, sample_rate as nat);
        }
        if total == 0 {
            return Ok(Vec::new());
        }
        // First pass: the energy of every frame, and the largest.
        let (energies, mx) = frame_energies(samples, fs, total);
        if mx == 0 {
            return Ok(Vec::new());
        }
        // Second pass: the frame scan.
        let mut segments: Vec<SpeechSegment> = Vec::new();
        let mut in_speech = false;
        let mut start_frame: usize = 0;
        let mut silence: usize = 0;
        let mut i: usize = 0;
        while i < total
            invariant
                i <= total,
                total == n / fs,
                total * fs <= n,
                n == samples@.len(),
                fs as nat == p.fs,
                fs >= 1,
                p == vad_params(self.config, sample_rate as nat),
                sr == sample_rate,
                sample_rate >= 40,
                max_ms == self.config.max_segment_ms,
                max_ms > 0 || !cuts_speech(samples@, self.config, sample_rate as nat),
                threshold == self.config.threshold_permille,
                chunk as nat == p.chunk,
                chunk == max_ms * sr,
                min_samples as nat == p.min_samples,
                min_silence as nat == p.min_silence,
                energies@.len() == total,
                forall|k: int| 0 <= k < total ==> energies@[k] as nat == #[trigger] frame_energy(samples@, p.fs, k as nat),
                mx as nat == max_energy(samples@, p.fs, total as nat),
                (VadState { in_speech, start_frame: start_frame as nat, silence: silence as nat, segments: segments@ })
                    == run_frames(samples@, p, mx as nat, i as nat),
                in_speech ==> start_frame + silence < i,
            decreases total - i,
        {
            let ghost st = run_frames(samples@, p, mx as nat, i as nat);
            assert(threshold * (mx as u128) <= 0xffff_ffff * 0xffff_ffff_ffff_ffff) by (nonlinear_arith)
                requires threshold <= 0xffff_ffff, mx <= 0xffff_ffff_ffff_ffff;
            let speech = (energies[i] as u128) * 1000 > threshold * (mx as u128);
            assert(speech == is_speech_frame(samples@, p, mx as nat, i as nat));
            if speech && !in_speech {
                in_speech = true;
                start_frame = i;
                silence = 0;
            } else if !speech && in_speech {
                silence = silence + 1;
                assert((silence as u128) * (fs as u128) <= 0xffff_ffff_ffff_ffff * 0xffff_ffff_ffff_ffff) by (nonlinear_arith)
                    requires silence <= 0xffff_ffff_ffff_ffff, fs <= 0xffff_ffff_ffff_ffff;
                if (silence as u128) * (fs as u128) >= min_silence as u128 {
                    let seg_frames = i - start_frame - silence;
                    assert((seg_frames as u128) * (fs as u128) <= 0xffff_ffff_ffff_ffff * 0xffff_ffff_ffff_ffff) by (nonlinear_arith)
                        requires seg_frames <= 0xffff_ffff_ffff_ffff, fs <= 0xffff_ffff_ffff_ffff;
                    if (seg_frames as u128) * (fs as u128) >= min_samples as u128 {
                        assert((i - silence) * fs <= i * fs) by (nonlinear_arith)
                            requires silence <= i;
                        assert(i * fs <= total * fs) by (nonlinear_arith)
                            requires i <= total;
                        assert(start_frame * fs <= (i - silence) * fs) by (nonlinear_arith)
                            requires start_frame <= i - silence;
                        let a: usize = start_frame * fs;
                        let b: usize = (i - silence) * fs;
                        let au: u128 = (a as u128) * 1000;
                        let bu: u128 = (b as u128) * 1000;
                        let ghost base = segments@;
                        if ((b - a) as u128) * 1000 > (max_ms as u128) * (sr as u128) {
                            if chunk == 0 {
                                proof {
                                    assert(b - a == seg_frames * fs) by (nonlinear_arith)
                                        requires a == start_frame * fs, b == (i - silence) * fs,
                                            seg_frames == i - start_frame - silence, start_frame <= i - silence;
                                    assert(seg_frames > 0) by (nonlinear_arith)
                                        requires b - a == seg_frames * fs, b - a > 0;
                                    assert(closes_speech_at(samples@, p, mx as nat, i as nat));
                                    assert(cuts_speech(samples@, self.config, sample_rate as nat));
                                    assert(max_ms == 0) by (nonlinear_arith)
                                        requires max_ms * sr == 0, sr >= 40;
                                    assert(false);
                                }
                            }
                            let mut c: u128 = au;
                            assert(split(au as int, bu as int, p.chunk) == split(c as int, bu as int, p.chunk));
                            while c < bu
                                invariant
                                    au <= c <= bu,
                                    chunk >= 1,
                                    chunk as nat == p.chunk,
                                    segments@ + split(c as int, bu as int, p.chunk) == base + split(au as int, bu as int, p.chunk),
                                decreases bu - c,
                            {
                                let e: u128 = if chunk < bu - c { c + chunk } else { bu };
                                let ghost rest = split(e as int, bu as int, p.chunk);
                                assert(split(c as int, bu as int, p.chunk) == seq![seg(c as nat, e as nat)] + rest);
                                segments.push(SpeechSegment { start: c, end: e });
                                assert(segments@ + rest == base + split(au as int, bu as int, p.chunk));
                                c = e;
                            }
                            assert(split(c as int, bu as int, p.chunk) == Seq::<SpeechSegment>::empty());
                            assert(segments@ == base + emit(a as nat, b as nat, p));
                        } else {
                            segments.push(SpeechSegment { start: au, end: bu });
                            assert(segments@ == base + emit(a as nat, b as nat, p));
                        }
                    }
                    in_speech = false;
                }
            } else if speech && in_speech {
                silence = 0;
            }
            assert((VadState { in_speech, start_frame: start_frame as nat, silence: silence as nat, segments: segments@ })
                == step(st, i as nat, speech, p));
            i = i + 1;
        }
        if in_speech {
            let seg_frames = total - start_frame;
            assert((seg_frames as u128) * (fs as u128) <= 0xffff_ffff_ffff_ffff * 0xffff_ffff_ffff_ffff) by (nonlinear_arith)
                requires seg_frames <= 0xffff_ffff_ffff_ffff, fs <= 0xffff_ffff_ffff_ffff;
            if (seg_frames as u128) * (fs as u128) >= min_samples as u128 {
                assert(start_frame * fs <= total * fs) by (nonlinear_arith)
                    requires start_frame <= total;
                segments.push(SpeechSegment { start: ((start_frame * fs) as u128) * 1000, end: (n as u128) * 1000 });
            }
        }
        Ok(segments)
    }
}

} // verus!
