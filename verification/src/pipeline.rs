use vstd::prelude::*;
use crate::asr::{engine_named, EngineType};
use crate::text::{chars_of, join, owned, push_decimal, push_str, string_of, trim, trim_chars};
use crate::vad::{can_detect, detect_segments, segments_ordered, SpeechSegment, VadConfig, VadDetector};
use crate::{segment_view, TranscriptionResult, TranscriptionSegment};

verus! {

/// A piece of audio handed to the recogniser, with the time span it stands for.
pub struct AudioChunk {
    pub samples: Vec<i16>,
    pub start_ms: u64,
    pub end_ms: u64,
}

pub open spec fn chunk_view(c: AudioChunk) -> (Seq<i16>, u64, u64) {
    (c.samples@, c.start_ms, c.end_ms)
}

/// Milliseconds into the audio of position `u` (in thousandths of a sample)
/// at `sr` samples per second, rounded down; `u64::MAX` when that does not
/// fit or the rate is zero (no finite time).
pub open spec fn ms_of(u: nat, sr: nat) -> u64 {
    if sr == 0 || u / sr > u64::MAX {
        u64::MAX
    } else {
        (u / sr) as u64
    }
}

/// The samples of a speech segment (from the sample its start falls in to the
/// one its end falls in) widened by two seconds on each side, within the
/// audio, timed by the segment itself.
pub open spec fn chunk_for(s: Seq<i16>, sr: nat, g: SpeechSegment) -> (Seq<i16>, u64, u64) {
    let ov = 2 * sr;
    let first = g.start / 1000;
    let last = g.end / 1000;
    let lo = if first >= ov { first - ov } else { 0 };
    let hi = if last + ov < s.len() { last + ov } else { s.len() as int };
    (s.subrange(lo as int, hi), ms_of(g.start as nat, sr), ms_of(g.end as nat, sr))
}

/// All of the audio as one chunk.
pub open spec fn whole_chunk(s: Seq<i16>, sr: nat) -> (Seq<i16>, u64, u64) {
    (s, 0, ms_of(s.len() * 1000, sr))
}

/// The chunks to recognise: one per detected speech segment when voice
/// activity detection is on and finds speech, else the whole audio.
pub open spec fn planned_chunks(s: Seq<i16>, sr: nat, cfg: VadConfig, use_vad: bool) -> Seq<(Seq<i16>, u64, u64)> {
    if use_vad && detect_segments(s, cfg, sr).len() > 0 {
        detect_segments(s, cfg, sr).map_values(|g: SpeechSegment| chunk_for(s, sr, g))
    } else {
        seq![whole_chunk(s, sr)]
    }
}

proof fn lemma_ms_of_monotone(a: nat, b: nat, sr: nat)
    requires
        a <= b,
    ensures
        ms_of(a, sr) <= ms_of(b, sr),
{
    if sr > 0 {
        vstd::arithmetic::div_mod::lemma_div_is_ordered(a as int, b as int, sr as int);
    }
}

/// The chunks come in time order: each starts no later than it ends, ends no
/// later than the next one starts, and none ends after the audio does.
pub proof fn lemma_planned_chunks_in_time_order(s: Seq<i16>, sr: nat, cfg: VadConfig, use_vad: bool)
    requires
        use_vad ==> sr >= 40,
        s.len() <= usize::MAX,
    ensures
        forall|k: int| 0 <= k < planned_chunks(s, sr, cfg, use_vad).len() ==>
            (#[trigger] planned_chunks(s, sr, cfg, use_vad)[k]).1 <= planned_chunks(s, sr, cfg, use_vad)[k].2
            <= ms_of(s.len() * 1000, sr),
        forall|k: int| 0 <= k < planned_chunks(s, sr, cfg, use_vad).len() - 1 ==>
            (#[trigger] planned_chunks(s, sr, cfg, use_vad)[k]).2 <= planned_chunks(s, sr, cfg, use_vad)[k + 1].1,
{
    let cs = planned_chunks(s, sr, cfg, use_vad);
    if use_vad && detect_segments(s, cfg, sr).len() > 0 {
        let segs = detect_segments(s, cfg, sr);
        crate::vad::lemma_detect_segments_ordered(s, cfg, sr);
        assert forall|k: int| 0 <= k < cs.len() implies (#[trigger] cs[k]).1 <= cs[k].2 <= ms_of(s.len() * 1000, sr) by {
            assert(cs[k] == chunk_for(s, sr, segs[k]));
            lemma_ms_of_monotone(segs[k].start as nat, segs[k].end as nat, sr);
            lemma_ms_of_monotone(segs[k].end as nat, s.len() * 1000, sr);
        }
        assert forall|k: int| 0 <= k < cs.len() - 1 implies (#[trigger] cs[k]).2 <= cs[k + 1].1 by {
            assert(cs[k] == chunk_for(s, sr, segs[k]));
            assert(cs[k + 1] == chunk_for(s, sr, segs[k + 1]));
            assert(segs[k].end <= segs[k + 1].start);
            lemma_ms_of_monotone(segs[k].end as nat, segs[k + 1].start as nat, sr);
        }
    } else {
        assert(cs == seq![whole_chunk(s, sr)]);
    }
}

/// Each chunk planned around a detected segment holds the audio from two
/// seconds (`2 * sr` samples) before the sample the segment starts in, or from
/// the beginning, to two seconds after the sample it ends in, or to the end,
/// and is timed by the segment; without voice activity detection, or when it
/// finds no speech, the one chunk is the whole audio.
pub proof fn lemma_chunks_have_two_second_margins(s: Seq<i16>, sr: nat, cfg: VadConfig, use_vad: bool)
    ensures
        (!use_vad || detect_segments(s, cfg, sr).len() == 0) ==> planned_chunks(s, sr, cfg, use_vad)
            == seq![(s, 0u64, ms_of(s.len() * 1000, sr))],
        use_vad ==> forall|k: int| 0 <= k < detect_segments(s, cfg, sr).len() ==> {
            let g = #[trigger] detect_segments(s, cfg, sr)[k];
            let first = g.start / 1000;
            let last = g.end / 1000;
            &&& planned_chunks(s, sr, cfg, use_vad).len() == detect_segments(s, cfg, sr).len()
            &&& planned_chunks(s, sr, cfg, use_vad)[k].0 == s.subrange(
                if first >= 2 * sr { first - 2 * sr } else { 0 },
                if last + 2 * sr < s.len() { last + 2 * sr } else { s.len() as int },
            )
            &&& planned_chunks(s, sr, cfg, use_vad)[k].1 == ms_of(g.start as nat, sr)
            &&& planned_chunks(s, sr, cfg, use_vad)[k].2 == ms_of(g.end as nat, sr)
        },
{
}

fn ms_of_exec(u: u128, sr: u32) -> (r: u64)
    ensures
        r == ms_of(u as nat, sr as nat),
{
    if sr == 0 {
        return u64::MAX;
    }
    let v = u / (sr as u128);
    if v > u64::MAX as u128 {
        u64::MAX
    } else {
        v as u64
    }
}

fn copy_range(s: &[i16], lo: usize, hi: usize) -> (r: Vec<i16>)
    requires
        lo <= hi <= s.len(),
    ensures
        r@ == s@.subrange(lo as int, hi as int),
{
    let mut r: Vec<i16> = Vec::new();
    let mut i: usize = lo;
    while i < hi
        invariant
            lo <= i <= hi <= s.len(),
            r@ == s@.subrange(lo as int, i as int),
        decreases hi - i,
    {
        r.push(s[i]);
        assert(s@.subrange(lo as int, i + 1) == s@.subrange(lo as int, i as int).push(s@[i as int]));
        i = i + 1;
    }
    r
}

fn whole_chunk_exec(samples: &[i16], sample_rate: u32) -> (c: AudioChunk)
    ensures
        chunk_view(c) == whole_chunk(samples@, sample_rate as nat),
{
    let all = copy_range(samples, 0, samples.len());
    assert(samples@.subrange(0, samples@.len() as int) == samples@);
    AudioChunk { samples: all, start_ms: 0, end_ms: ms_of_exec((samples.len() as u128) * 1000, sample_rate) }
}

/// Splits 16-bit PCM audio into the chunks to recognise (`planned_chunks`).
pub fn plan_chunks(samples: &[i16], sample_rate: u32, vad_config: &VadConfig, use_vad: bool) -> (r: Vec<AudioChunk>)
    requires
        use_vad ==> can_detect(samples@, *vad_config, sample_rate as nat),
    ensures
        r@.map_values(|c: AudioChunk| chunk_view(c)) == planned_chunks(samples@, sample_rate as nat, *vad_config, use_vad),
{
    let mut out: Vec<AudioChunk> = Vec::new();
    if !use_vad {
        out.push(whole_chunk_exec(samples, sample_rate));
        assert(out@.map_values(|c: AudioChunk| chunk_view(c)) =~= seq![whole_chunk(samples@, sample_rate as nat)]);
        return out;
    }
    let mut vad = VadDetector::new(vad_config.clone());
    let _ = vad.load("./models/silero-vad/silero_vad.onnx");
    let segments = match vad.detect(samples, sample_rate) {
        Ok(v) => v,
        Err(_) => {
            assert(false);
            Vec::new()
        },
    };
    let ghost segs = detect_segments(samples@, *vad_config, sample_rate as nat);
    assert(segments@ == segs);
    assert(segments_ordered(segments@, 0, samples@.len() * 1000));
    if segments.len() == 0 {
        out.push(whole_chunk_exec(samples, sample_rate));
        assert(out@.map_values(|c: AudioChunk| chunk_view(c)) =~= seq![whole_chunk(samples@, sample_rate as nat)]);
        return out;
    }
    let ov: u64 = 2 * (sample_rate as u64);
    let mut k: usize = 0;
    while k < segments.len()
        invariant
            k <= segments.len(),
            segments@ == segs,
            segments_ordered(segments@, 0, samples@.len() * 1000),
            ov == 2 * sample_rate,
            out@.map_values(|c: AudioChunk| chunk_view(c))
                == segs.take(k as int).map_values(|g: SpeechSegment| chunk_for(samples@, sample_rate as nat, g)),
        decreases segments.len() - k,
    {
        let g = &segments[k];
        assert(segs[k as int] == *g);
        assert(0 <= g.start <= g.end <= samples.len() * 1000);
        let first: u128 = g.start / 1000;
        let last: u128 = g.end / 1000;
        assert(first <= last <= samples.len());
        let lo: usize = if first >= ov as u128 { (first - ov as u128) as usize } else { 0 };
        let hi: usize = if last + (ov as u128) < samples.len() as u128 { (last + ov as u128) as usize } else { samples.len() };
        let part = copy_range(samples, lo, hi);
        let ghost before = out@.map_values(|c: AudioChunk| chunk_view(c));
        out.push(AudioChunk { samples: part, start_ms: ms_of_exec(g.start, sample_rate), end_ms: ms_of_exec(g.end, sample_rate) });
        assert(out@.map_values(|c: AudioChunk| chunk_view(c)) =~= before.push(chunk_for(samples@, sample_rate as nat, segs[k as int])));
        assert(segs.take(k + 1) == segs.take(k as int).push(segs[k as int]));
        assert(segs.take(k + 1).map_values(|g: SpeechSegment| chunk_for(samples@, sample_rate as nat, g))
            =~= segs.take(k as int).map_values(|g: SpeechSegment| chunk_for(samples@, sample_rate as nat, g)).push(
                chunk_for(samples@, sample_rate as nat, segs[k as int])));
        k = k + 1;
    }
    assert(segs.take(segs.len() as int) == segs);
    out
}

/// Records what the recogniser returned for a chunk: the trimmed text with the
/// chunk's time span, unless it is blank.
pub fn add_recognized(segments: &mut Vec<TranscriptionSegment>, chunk: &AudioChunk, text: &str)
    ensures
        final(segments)@.map_values(|s: TranscriptionSegment| segment_view(s)) == (if trim(text@).len() == 0 {
            old(segments)@.map_values(|s: TranscriptionSegment| segment_view(s))
        } else {
            old(segments)@.map_values(|s: TranscriptionSegment| segment_view(s)).push((chunk.start_ms, chunk.end_ms, trim(text@)))
        }),
{
    let t = trim_chars(&chars_of(text));
    if t.len() > 0 {
        let ghost before = segments@.map_values(|s: TranscriptionSegment| segment_view(s));
        segments.push(TranscriptionSegment { start_ms: chunk.start_ms, end_ms: chunk.end_ms, text: string_of(&t) });
        assert(segments@.map_values(|s: TranscriptionSegment| segment_view(s)) =~= before.push((chunk.start_ms, chunk.end_ms, trim(text@))));
    }
}

/// The name recorded for an engine.
pub open spec fn engine_label(t: EngineType) -> Seq<char> {
    match t {
        EngineType::Fast => "fast"@,
        EngineType::Precise => "precise"@,
    }
}

/// The engine name recorded in a transcription result selects the same
/// engine again.
pub proof fn lemma_engine_label_selects_engine(t: EngineType)
    ensures
        engine_named(engine_label(t)) == t,
{
    reveal_strlit("fast");
    reveal_strlit("precise");
    if t == EngineType::Fast {
        assert("fast"@.len() != "precise"@.len());
    }
}

pub fn engine_label_str(t: EngineType) -> (r: &'static str)
    ensures
        r@ == engine_label(t),
{
    match t {
        EngineType::Fast => "fast",
        EngineType::Precise => "precise",
    }
}

pub open spec fn segment_texts(segs: Seq<TranscriptionSegment>) -> Seq<Seq<char>> {
    segs.map_values(|s: TranscriptionSegment| s.text@)
}

/// Builds the result of a transcription: the segments' texts joined by line
/// feeds, the segments, the engine's name and the elapsed time.
pub fn finish_transcription(segments: Vec<TranscriptionSegment>, engine: EngineType, duration_ms: u64) -> (r: TranscriptionResult)
    ensures
        r.text@ == join(segment_texts(segments@), seq!['\n']),
        r.segments@ == segments@,
        r.engine@ == engine_label(engine),
        r.duration_ms == duration_ms,
{
    let mut text: Vec<char> = Vec::new();
    let mut i: usize = 0;
    let ghost texts = segment_texts(segments@);
    while i < segments.len()
        invariant
            i <= segments.len(),
            texts == segment_texts(segments@),
            text@ == join(texts.take(i as int), seq!['\n']),
        decreases segments.len() - i,
    {
        let ghost prev = texts.take(i as int);
        assert(texts.take(i + 1).drop_last() == prev);
        assert(texts.take(i + 1).last() == segments@[i as int].text@);
        if i > 0 {
            text.push('\n');
        } else {
            assert(texts.take(1) == seq![texts[0]]);
        }
        let piece = chars_of(segments[i].text.as_str());
        let ghost mid = text@;
        crate::text::push_all(&mut text, &piece);
        i = i + 1;
    }
    assert(texts.take(segments.len() as int) == texts);
    TranscriptionResult {
        text: string_of(&text),
        segments,
        engine: owned(engine_label_str(engine)),
        duration_ms,
    }
}

/// The progress note shown before recognising chunk `i` of `total`.
pub fn transcribing_message(i: usize, total: usize) -> (r: String)
    requires
        i < total,
    ensures
        r@ == "Transcribing... ("@ + crate::text::decimal((i + 1) as nat) + "/"@
            + crate::text::decimal(total as nat) + ")"@,
{
    let mut out: Vec<char> = Vec::new();
    push_str(&mut out, "Transcribing... (");
    push_decimal(&mut out, (i + 1) as u64);
    push_str(&mut out, "/");
    push_decimal(&mut out, total as u64);
    push_str(&mut out, ")");
    string_of(&out)
}

} // verus!
