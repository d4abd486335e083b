use vstd::prelude::*;
use crate::text::{
    contains_seq, occurs_at, chars_of, decimal, join, lines, lines_of, owned, push_all, push_decimal, push_padded, push_str, str_eq,
    string_of, trim, trim_chars, zero_pad,
};
use crate::{segment_view, segment_views, TranscriptionResult, TranscriptionSegment};

verus! {

/// Hours, minutes and the milliseconds within the minute of a time; the hour
/// count stops at `u32::MAX`.
pub open spec fn clock_hours(ms: u64) -> nat {
    if ms / 3_600_000 > u32::MAX { u32::MAX as nat } else { (ms / 3_600_000) as nat }
}

/// `HH:MM:SS` then `sep` then the three millisecond digits.
pub open spec fn clock(ms: u64, sep: char) -> Seq<char> {
    let rem = ms % 60_000;
    zero_pad(decimal(clock_hours(ms)), 2) + seq![':'] + zero_pad(decimal(((ms % 3_600_000) / 60_000) as nat), 2)
        + seq![':'] + zero_pad(decimal((rem / 1000) as nat), 2) + seq![sep] + zero_pad(decimal((rem % 1000) as nat), 3)
}

/// The time in hundredths of a second, to the nearest; an exact half goes to
/// the even neighbour, as Rust's decimal formatting rounds.
pub open spec fn centiseconds(ms: u64) -> nat {
    (ms / 10 + (if ms % 10 > 5 || (ms % 10 == 5 && (ms / 10) % 2 == 1) { 1int } else { 0int })) as nat
}

/// `[MM:SS.cc]`: the time rounded to the nearest hundredth of a second, then
/// written as minutes (stopping at `u32::MAX`), seconds within the minute
/// (00 to 59) and hundredths.
pub open spec fn lrc_clock(ms: u64) -> Seq<char> {
    let cs = centiseconds(ms);
    let m = if cs / 6000 > u32::MAX { u32::MAX as nat } else { cs / 6000 };
    seq!['['] + zero_pad(decimal(m), 2) + seq![':'] + zero_pad(decimal((cs % 6000) / 100), 2) + seq!['.']
        + zero_pad(decimal(cs % 100), 2) + seq![']']
}

/// The fields of an LRC time read back: seconds stay within 00 to 59, and
/// minutes, seconds and hundredths give the time to within 5 ms (below
/// `u32::MAX` minutes).
pub proof fn lemma_lrc_clock_fields(ms: u64)
    ensures
        (centiseconds(ms) % 6000) / 100 <= 59,
        centiseconds(ms) / 6000 <= u32::MAX ==> centiseconds(ms) == (centiseconds(ms) / 6000) * 6000
            + ((centiseconds(ms) % 6000) / 100) * 100 + centiseconds(ms) % 100,
        ms <= centiseconds(ms) * 10 + 5,
        centiseconds(ms) * 10 <= ms + 5,
{
    let cs = centiseconds(ms);
    assert(cs == (cs / 6000) * 6000 + cs % 6000);
    assert(cs % 6000 == ((cs % 6000) / 100) * 100 + (cs % 6000) % 100);
    assert((cs % 6000) % 100 == cs % 100) by (nonlinear_arith)
        requires cs >= 0;
}

fn push_clock(out: &mut Vec<char>, ms: u64, sep: char)
    ensures
        final(out)@ == old(out)@ + clock(ms, sep),
{
    let h: u64 = if ms / 3_600_000 > u32::MAX as u64 { u32::MAX as u64 } else { ms / 3_600_000 };
    let rem = ms % 60_000;
    push_padded(out, h, 2);
    out.push(':');
    push_padded(out, (ms % 3_600_000) / 60_000, 2);
    out.push(':');
    push_padded(out, rem / 1000, 2);
    out.push(sep);
    push_padded(out, rem % 1000, 3);
    assert(final(out)@ =~= old(out)@ + clock(ms, sep));
}

fn push_lrc_clock(out: &mut Vec<char>, ms: u64)
    ensures
        final(out)@ == old(out)@ + lrc_clock(ms),
{
    let cs: u64 = ms / 10 + (if ms % 10 > 5 || (ms % 10 == 5 && (ms / 10) % 2 == 1) { 1u64 } else { 0u64 });
    assert(cs as nat == centiseconds(ms));
    let m: u64 = if cs / 6000 > u32::MAX as u64 { u32::MAX as u64 } else { cs / 6000 };
    let sec: u64 = (cs % 6000) / 100;
    let hund: u64 = cs % 100;
    let ghost m_spec: nat = if centiseconds(ms) / 6000 > u32::MAX { u32::MAX as nat } else { centiseconds(ms) / 6000 };
    assert(m as nat == m_spec);
    assert(sec as nat == (centiseconds(ms) % 6000) / 100);
    assert(hund as nat == centiseconds(ms) % 100);
    let ghost start = out@;
    out.push('[');
    push_padded(out, m, 2);
    out.push(':');
    push_padded(out, sec, 2);
    out.push('.');
    push_padded(out, hund, 2);
    out.push(']');
    assert(out@ =~= start + (seq!['['] + zero_pad(decimal(m as nat), 2) + seq![':'] + zero_pad(decimal(sec as nat), 2)
        + seq!['.'] + zero_pad(decimal(hund as nat), 2) + seq![']']));
}

/// Every `a` replaced by `b`.
pub open spec fn replace_char(s: Seq<char>, a: char, b: char) -> Seq<char> {
    s.map_values(|c: char| if c == a { b } else { c })
}

proof fn lemma_decimal_digits(n: nat)
    ensures
        forall|i: int| 0 <= i < decimal(n).len() ==> crate::text::is_digit(#[trigger] decimal(n)[i]),
    decreases n,
{
    if n >= 10 {
        lemma_decimal_digits(n / 10);
        let d = decimal(n / 10);
        assert forall|i: int| 0 <= i < decimal(n).len() implies crate::text::is_digit(#[trigger] decimal(n)[i]) by {
            if i < d.len() {
                assert(decimal(n)[i] == d[i]);
            }
        }
    }
}

proof fn lemma_padded_no_dot(n: nat, w: nat)
    ensures
        replace_char(zero_pad(decimal(n), w), '.', ',') == zero_pad(decimal(n), w),
{
    lemma_decimal_digits(n);
    let z = zero_pad(decimal(n), w);
    assert forall|i: int| 0 <= i < z.len() implies #[trigger] z[i] != '.' by {
        if decimal(n).len() < w {
            let pad = (w - decimal(n).len()) as int;
            if i >= pad {
                assert(z[i] == decimal(n)[i - pad]);
            }
        }
    }
    assert(replace_char(z, '.', ',') =~= z);
}

/// An SRT time is the SRT/VTT time with its decimal point written as a comma.
pub proof fn lemma_srt_clock_is_comma_clock(ms: u64)
    ensures
        clock(ms, ',') == replace_char(clock(ms, '.'), '.', ','),
{
    let rem = ms % 60_000;
    let a = zero_pad(decimal(clock_hours(ms)), 2);
    let b = zero_pad(decimal(((ms % 3_600_000) / 60_000) as nat), 2);
    let c = zero_pad(decimal((rem / 1000) as nat), 2);
    let d = zero_pad(decimal((rem % 1000) as nat), 3);
    lemma_padded_no_dot(clock_hours(ms), 2);
    lemma_padded_no_dot(((ms % 3_600_000) / 60_000) as nat, 2);
    lemma_padded_no_dot((rem / 1000) as nat, 2);
    lemma_padded_no_dot((rem % 1000) as nat, 3);
    let dotted = a + seq![':'] + b + seq![':'] + c + seq!['.'] + d;
    assert(replace_char(dotted, '.', ',') =~= replace_char(a, '.', ',') + seq![':'] + replace_char(b, '.', ',')
        + seq![':'] + replace_char(c, '.', ',') + seq![','] + replace_char(d, '.', ','));
}

/// A time in SRT/VTT style: `HH:MM:SS.mmm`.
pub fn format_timestamp(ms: u64) -> (r: String)
    ensures
        r@ == clock(ms, '.'),
{
    let mut out: Vec<char> = Vec::new();
    push_clock(&mut out, ms, '.');
    string_of(&out)
}

/// A time in LRC style: `[MM:SS.cc]`.
pub fn format_lrc_timestamp(ms: u64) -> (r: String)
    ensures
        r@ == lrc_clock(ms),
{
    let mut out: Vec<char> = Vec::new();
    push_lrc_clock(&mut out, ms);
    string_of(&out)
}

/// The segments to write as subtitles: the result's own, or, when it has none,
/// one segment holding the whole text from 0 to the duration.
pub open spec fn cue_segments(r: TranscriptionResult) -> Seq<(u64, u64, Seq<char>)> {
    if r.segments@.len() == 0 {
        seq![(0u64, r.duration_ms, r.text@)]
    } else {
        segment_views(r.segments@)
    }
}

/// Plain text: the segments' texts separated by blank lines, or the full text
/// when there are no segments.
pub open spec fn txt_of(r: TranscriptionResult) -> Seq<char> {
    if r.segments@.len() == 0 {
        r.text@
    } else {
        join(segment_views(r.segments@).map_values(|s: (u64, u64, Seq<char>)| s.2), "\n\n"@)
    }
}

pub open spec fn srt_cue(i: int, s: (u64, u64, Seq<char>)) -> Seq<char> {
    decimal((i + 1) as nat) + seq!['\n'] + clock(s.0, ',') + " --> "@ + clock(s.1, ',') + seq!['\n'] + s.2 + seq!['\n']
}

/// SRT: numbered cues `N\nstart --> end\ntext\n`, separated by blank lines.
pub open spec fn srt_of(r: TranscriptionResult) -> Seq<char> {
    let cues = cue_segments(r);
    join(Seq::new(cues.len(), |i: int| srt_cue(i, cues[i])), seq!['\n'])
}

pub open spec fn vtt_cue(i: int, s: (u64, u64, Seq<char>)) -> Seq<char> {
    decimal((i + 1) as nat) + seq!['\n'] + clock(s.0, '.') + " --> "@ + clock(s.1, '.') + seq!['\n'] + s.2 + "\n\n"@
}

/// WebVTT: the `WEBVTT` header and a blank line, then each cue followed by a blank line.
pub open spec fn vtt_of(r: TranscriptionResult) -> Seq<char> {
    let cues = cue_segments(r);
    "WEBVTT\n\n"@ + join(Seq::new(cues.len(), |i: int| vtt_cue(i, cues[i])), seq![])
}

/// The LRC lines of one segment: each non-blank line of its text, prefixed
/// with the segment's start.
pub open spec fn lrc_lines(start: u64, ls: Seq<Seq<char>>) -> Seq<char>
    decreases ls.len(),
{
    if ls.len() == 0 {
        seq![]
    } else {
        lrc_lines(start, ls.drop_last()) + (if trim(ls.last()).len() > 0 {
            lrc_clock(start) + ls.last() + seq!['\n']
        } else {
            seq![]
        })
    }
}

pub open spec fn lrc_body(segs: Seq<(u64, u64, Seq<char>)>) -> Seq<char>
    decreases segs.len(),
{
    if segs.len() == 0 {
        seq![]
    } else {
        lrc_body(segs.drop_last()) + lrc_lines(segs.last().0, lines(segs.last().2))
    }
}

/// Without segments, the lines of the text are spread evenly over the
/// duration: line `i` of `n` starts at `i * duration / n` (rounded down).
pub open spec fn spread_lines(text: Seq<char>, duration: u64) -> Seq<(u64, u64, Seq<char>)> {
    let ls = lines(text);
    let n: int = if ls.len() == 0 { 1 } else { ls.len() as int };
    Seq::new(ls.len(), |i: int| (((i * duration) / n) as u64, (((i + 1) * duration) / n) as u64, ls[i]))
}

pub open spec fn lrc_header() -> Seq<char> {
    "[ti:Transcription]\n[ar:local-media-asr]\n\n"@
}

/// LRC: the title/artist header and a blank line, then the timed lines.
pub open spec fn lrc_of(r: TranscriptionResult) -> Seq<char> {
    let segs = if r.segments@.len() == 0 {
        spread_lines(r.text@, r.duration_ms)
    } else {
        segment_views(r.segments@)
    };
    lrc_header() + lrc_body(segs)
}

/// Appends `join(parts, sep)` given the already written `join(parts.take(i))`.
proof fn lemma_join_push(parts: Seq<Seq<char>>, sep: Seq<char>, i: int)
    requires
        0 <= i < parts.len(),
    ensures
        join(parts.take(i + 1), sep) == if i == 0 { parts[0] } else { join(parts.take(i), sep) + sep + parts[i] },
{
    let t = parts.take(i + 1);
    assert(t.drop_last() == parts.take(i));
    assert(t.last() == parts[i]);
    if i == 0 {
        assert(t.len() == 1);
    }
}

fn push_srt_cue(out: &mut Vec<char>, i: usize, s: &TranscriptionSegment)
    requires
        i < usize::MAX,
    ensures
        final(out)@ == old(out)@ + srt_cue(i as int, segment_view(*s)),
{
    push_decimal(out, (i + 1) as u64);
    out.push('\n');
    push_clock(out, s.start_ms, ',');
    push_str(out, " --> ");
    push_clock(out, s.end_ms, ',');
    out.push('\n');
    push_str(out, s.text.as_str());
    out.push('\n');
    assert(final(out)@ =~= old(out)@ + srt_cue(i as int, segment_view(*s)));
}

fn push_vtt_cue(out: &mut Vec<char>, i: usize, s: &TranscriptionSegment)
    requires
        i < usize::MAX,
    ensures
        final(out)@ == old(out)@ + vtt_cue(i as int, segment_view(*s)),
{
    push_decimal(out, (i + 1) as u64);
    out.push('\n');
    push_clock(out, s.start_ms, '.');
    push_str(out, " --> ");
    push_clock(out, s.end_ms, '.');
    out.push('\n');
    push_str(out, s.text.as_str());
    push_str(out, "\n\n");
    assert(final(out)@ =~= old(out)@ + vtt_cue(i as int, segment_view(*s)));
}

/// The subtitle segments as an owned list (`cue_segments`).
proof fn lemma_occurs_in_larger(b: Seq<char>, a: Seq<char>, x: Seq<char>, j: int, i: int)
    requires
        occurs_at(b, a, j),
        occurs_at(a, x, i),
    ensures
        occurs_at(b, x, j + i),
{
    assert(b.subrange(j + i, j + i + x.len()) =~= a.subrange(i, i + x.len()));
}

/// Each piece occurs in the pieces joined.
proof fn lemma_join_holds_piece(ps: Seq<Seq<char>>, sep: Seq<char>, k: int) -> (at: int)
    requires
        0 <= k < ps.len(),
    ensures
        occurs_at(join(ps, sep), ps[k], at),
    decreases ps.len(),
{
    if ps.len() == 1 {
        assert(join(ps, sep).subrange(0, ps[0].len() as int) =~= ps[0]);
        0
    } else {
        let front = ps.drop_last();
        let jf = join(front, sep);
        let j = join(ps, sep);
        assert(j == jf + sep + ps.last());
        if k == ps.len() - 1 {
            let at = (jf.len() + sep.len()) as int;
            assert(j.subrange(at, at + ps[k].len()) =~= ps[k]);
            at
        } else {
            let at = lemma_join_holds_piece(front, sep, k);
            assert(front[k] == ps[k]);
            assert(j.subrange(at, at + ps[k].len()) =~= jf.subrange(at, at + ps[k].len()));
            at
        }
    }
}

/// Subtitles keep the transcription: without segments, SRT and WebVTT hold one
/// cue numbered 1 over the whole text from 0 to the duration; with segments,
/// every segment's text is in both.
pub proof fn lemma_subtitles_keep_every_text(r: TranscriptionResult)
    ensures
        r.segments@.len() == 0 ==> vtt_of(r) == "WEBVTT\n\n"@ + seq!['1', '\n'] + clock(0, '.') + " --> "@
            + clock(r.duration_ms, '.') + seq!['\n'] + r.text@ + "\n\n"@,
        r.segments@.len() == 0 ==> srt_of(r) == seq!['1', '\n'] + clock(0, ',') + " --> "@ + clock(r.duration_ms, ',')
            + seq!['\n'] + r.text@ + seq!['\n'],
        forall|k: int| 0 <= k < r.segments@.len() ==> contains_seq(vtt_of(r), #[trigger] r.segments@[k].text@)
            && contains_seq(srt_of(r), r.segments@[k].text@),
{
    let cues = cue_segments(r);
    let vparts = Seq::new(cues.len(), |i: int| vtt_cue(i, cues[i]));
    let sparts = Seq::new(cues.len(), |i: int| srt_cue(i, cues[i]));
    assert(decimal(1) == seq!['1']);
    if r.segments@.len() == 0 {
        assert(cues == seq![(0u64, r.duration_ms, r.text@)]);
        assert(join(vparts, seq![]) == vparts[0]);
        assert(join(sparts, seq!['\n']) == sparts[0]);
        assert(vtt_of(r) =~= "WEBVTT\n\n"@ + seq!['1', '\n'] + clock(0, '.') + " --> "@
            + clock(r.duration_ms, '.') + seq!['\n'] + r.text@ + "\n\n"@);
        assert(srt_of(r) =~= seq!['1', '\n'] + clock(0, ',') + " --> "@ + clock(r.duration_ms, ',')
            + seq!['\n'] + r.text@ + seq!['\n']);
    }
    assert forall|k: int| 0 <= k < r.segments@.len() implies contains_seq(vtt_of(r), #[trigger] r.segments@[k].text@)
        && contains_seq(srt_of(r), r.segments@[k].text@) by {
        let t = r.segments@[k].text@;
        assert(cues == segment_views(r.segments@));
        assert(cues[k].2 == t);
        let c = cues[k];
        let vp = decimal((k + 1) as nat) + seq!['\n'] + clock(c.0, '.') + " --> "@ + clock(c.1, '.') + seq!['\n'];
        assert(vparts[k] == vp + t + "\n\n"@);
        assert(occurs_at(vparts[k], t, vp.len() as int)) by {
            assert(vparts[k].subrange(vp.len() as int, (vp.len() + t.len()) as int) =~= t);
        }
        let jv = lemma_join_holds_piece(vparts, seq![], k);
        let whole = "WEBVTT\n\n"@ + join(vparts, seq![]);
        assert(occurs_at(whole, join(vparts, seq![]), "WEBVTT\n\n"@.len() as int)) by {
            assert(whole.subrange("WEBVTT\n\n"@.len() as int, whole.len() as int) =~= join(vparts, seq![]));
        }
        lemma_occurs_in_larger(join(vparts, seq![]), vparts[k], t, jv, vp.len() as int);
        lemma_occurs_in_larger(whole, join(vparts, seq![]), t, "WEBVTT\n\n"@.len() as int, jv + vp.len());
        assert(vtt_of(r) == whole);
        let sp = decimal((k + 1) as nat) + seq!['\n'] + clock(c.0, ',') + " --> "@ + clock(c.1, ',') + seq!['\n'];
        assert(sparts[k] == sp + t + seq!['\n']);
        assert(occurs_at(sparts[k], t, sp.len() as int)) by {
            assert(sparts[k].subrange(sp.len() as int, (sp.len() + t.len()) as int) =~= t);
        }
        let js = lemma_join_holds_piece(sparts, seq!['\n'], k);
        lemma_occurs_in_larger(srt_of(r), sparts[k], t, js, sp.len() as int);
    }
}

fn cue_list(result: &TranscriptionResult) -> (v: Vec<TranscriptionSegment>)
    ensures
        segment_views(v@) == cue_segments(*result),
{
    let mut v: Vec<TranscriptionSegment> = Vec::new();
    if result.segments.len() == 0 {
        v.push(TranscriptionSegment { start_ms: 0, end_ms: result.duration_ms, text: owned(result.text.as_str()) });
        assert(segment_views(v@) =~= seq![(0u64, result.duration_ms, result.text@)]);
        return v;
    }
    let mut i: usize = 0;
    while i < result.segments.len()
        invariant
            i <= result.segments.len(),
            segment_views(v@) == segment_views(result.segments@).take(i as int),
        decreases result.segments.len() - i,
    {
        let s = &result.segments[i];
        let ghost before = segment_views(v@);
        v.push(TranscriptionSegment { start_ms: s.start_ms, end_ms: s.end_ms, text: owned(s.text.as_str()) });
        assert(segment_views(v@) =~= before.push(segment_view(result.segments@[i as int])));
        assert(segment_views(result.segments@).take(i + 1) =~= segment_views(result.segments@).take(i as int).push(
            segment_view(result.segments@[i as int])));
        i = i + 1;
    }
    assert(segment_views(result.segments@).take(i as int) == segment_views(result.segments@));
    v
}

/// Exports as plain text (`txt_of`).
pub fn export_txt(result: &TranscriptionResult) -> (r: String)
    ensures
        r@ == txt_of(*result),
{
    if result.segments.len() == 0 {
        return owned(result.text.as_str());
    }
    let ghost parts = segment_views(result.segments@).map_values(|s: (u64, u64, Seq<char>)| s.2);
    let mut out: Vec<char> = Vec::new();
    let mut i: usize = 0;
    while i < result.segments.len()
        invariant
            i <= result.segments.len(),
            parts == segment_views(result.segments@).map_values(|s: (u64, u64, Seq<char>)| s.2),
            parts.len() == result.segments.len(),
            out@ == join(parts.take(i as int), "\n\n"@),
        decreases result.segments.len() - i,
    {
        proof { lemma_join_push(parts, "\n\n"@, i as int); }
        assert(parts[i as int] == result.segments@[i as int].text@);
        if i > 0 {
            push_str(&mut out, "\n\n");
        }
        push_str(&mut out, result.segments[i].text.as_str());
        i = i + 1;
    }
    assert(parts.take(i as int) == parts);
    string_of(&out)
}

/// Exports as SRT subtitles (`srt_of`).
pub fn export_srt(result: &TranscriptionResult) -> (r: String)
    ensures
        r@ == srt_of(*result),
{
    let cues = cue_list(result);
    let ghost cs = cue_segments(*result);
    let ghost parts = Seq::new(cs.len(), |i: int| srt_cue(i, cs[i]));
    let mut out: Vec<char> = Vec::new();
    let mut i: usize = 0;
    while i < cues.len()
        invariant
            i <= cues.len(),
            segment_views(cues@) == cs,
            parts == Seq::new(cs.len(), |i: int| srt_cue(i, cs[i])),
            out@ == join(parts.take(i as int), seq!['\n']),
        decreases cues.len() - i,
    {
        proof { lemma_join_push(parts, seq!['\n'], i as int); }
        assert(cs[i as int] == segment_view(cues@[i as int]));
        if i > 0 {
            out.push('\n');
        }
        push_srt_cue(&mut out, i, &cues[i]);
        i = i + 1;
    }
    assert(parts.take(i as int) == parts);
    string_of(&out)
}

/// Exports as WebVTT subtitles (`vtt_of`).
pub fn export_vtt(result: &TranscriptionResult) -> (r: String)
    ensures
        r@ == vtt_of(*result),
{
    let cues = cue_list(result);
    let ghost cs = cue_segments(*result);
    let ghost parts = Seq::new(cs.len(), |i: int| vtt_cue(i, cs[i]));
    let mut out: Vec<char> = Vec::new();
    push_str(&mut out, "WEBVTT\n\n");
    let ghost head = out@;
    let mut i: usize = 0;
    while i < cues.len()
        invariant
            i <= cues.len(),
            segment_views(cues@) == cs,
            parts == Seq::new(cs.len(), |i: int| vtt_cue(i, cs[i])),
            head == "WEBVTT\n\n"@,
            out@ == head + join(parts.take(i as int), seq![]),
        decreases cues.len() - i,
    {
        proof { lemma_join_push(parts, seq![], i as int); }
        assert(cs[i as int] == segment_view(cues@[i as int]));
        let ghost before = out@;
        push_vtt_cue(&mut out, i, &cues[i]);
        if i > 0 {
            assert(join(parts.take(i as int), seq![]) + seq![] == join(parts.take(i as int), seq![]));
        }
        assert(out@ =~= head + join(parts.take(i + 1), seq![]));
        i = i + 1;
    }
    assert(parts.take(i as int) == parts);
    string_of(&out)
}


fn lines_to_segments(text: &str, duration: u64) -> (v: Vec<TranscriptionSegment>)
    ensures
        segment_views(v@) == spread_lines(text@, duration),
{
    let ls = lines_of(&chars_of(text));
    let ghost lv = crate::text::views(ls@);
    let n: u128 = if ls.len() == 0 { 1 } else { ls.len() as u128 };
    let mut v: Vec<TranscriptionSegment> = Vec::new();
    let mut i: usize = 0;
    while i < ls.len()
        invariant
            i <= ls.len(),
            lv == crate::text::views(ls@),
            lv == lines(text@),
            n == (if lv.len() == 0 { 1 } else { lv.len() as int }),
            segment_views(v@) == spread_lines(text@, duration).take(i as int),
        decreases ls.len() - i,
    {
        assert((i as u128) * (duration as u128) <= (i as u128 + 1) * (duration as u128)) by (nonlinear_arith);
        assert((i as u128 + 1) * (duration as u128) <= n * (duration as u128)) by (nonlinear_arith)
            requires i + 1 <= n;
        assert(n * (duration as u128) <= 0xffff_ffff_ffff_ffff * 0xffff_ffff_ffff_ffff) by (nonlinear_arith)
            requires n <= 0xffff_ffff_ffff_ffff, duration <= 0xffff_ffff_ffff_ffff;
        let prod_a = (i as u128) * (duration as u128);
        let prod_b = ((i as u128) + 1) * (duration as u128);
        let a = prod_a / n;
        let b = prod_b / n;
        assert(a <= duration && b <= duration) by (nonlinear_arith)
            requires prod_a <= prod_b, prod_b <= n * (duration as u128), a == prod_a / n, b == prod_b / n, n >= 1;
        let ghost before = segment_views(v@);
        v.push(TranscriptionSegment { start_ms: a as u64, end_ms: b as u64, text: string_of(&ls[i]) });
        assert(lv[i as int] == ls@[i as int]@);
        assert(segment_views(v@) =~= before.push(spread_lines(text@, duration)[i as int]));
        assert(spread_lines(text@, duration).take(i + 1) =~= spread_lines(text@, duration).take(i as int).push(
            spread_lines(text@, duration)[i as int]));
        i = i + 1;
    }
    assert(spread_lines(text@, duration).take(i as int) == spread_lines(text@, duration));
    v
}

/// Exports as LRC lyrics (`lrc_of`).
pub fn export_lrc(result: &TranscriptionResult) -> (r: String)
    ensures
        r@ == lrc_of(*result),
{
    let segs = if result.segments.len() == 0 {
        lines_to_segments(result.text.as_str(), result.duration_ms)
    } else {
        cue_list(result)
    };
    let ghost sv = segment_views(segs@);
    let mut out: Vec<char> = Vec::new();
    push_str(&mut out, "[ti:Transcription]\n[ar:local-media-asr]\n\n");
    let ghost head = out@;
    let mut k: usize = 0;
    assert(sv.take(0).len() == 0);
    while k < segs.len()
        invariant
            k <= segs.len(),
            sv == segment_views(segs@),
            head == lrc_header(),
            out@ == head + lrc_body(sv.take(k as int)),
        decreases segs.len() - k,
    {
        let start = segs[k].start_ms;
        let ls = lines_of(&chars_of(segs[k].text.as_str()));
        let ghost lv = crate::text::views(ls@);
        let ghost prefix = out@;
        assert(sv.take(k + 1).drop_last() == sv.take(k as int));
        assert(sv.take(k + 1).last() == segment_view(segs@[k as int]));
        let mut j: usize = 0;
        assert(lv.take(0).len() == 0);
        while j < ls.len()
            invariant
                j <= ls.len(),
                lv == crate::text::views(ls@),
                out@ == prefix + lrc_lines(start, lv.take(j as int)),
            decreases ls.len() - j,
        {
            assert(lv.take(j + 1).drop_last() == lv.take(j as int));
            assert(lv.take(j + 1).last() == ls@[j as int]@);
            let t = trim_chars(&ls[j]);
            if t.len() > 0 {
                push_lrc_clock(&mut out, start);
                push_all(&mut out, &ls[j]);
                out.push('\n');
            }
            assert(out@ =~= prefix + lrc_lines(start, lv.take(j + 1)));
            j = j + 1;
        }
        assert(lv.take(j as int) == lv);
        assert(out@ =~= head + lrc_body(sv.take(k + 1)));
        k = k + 1;
    }
    assert(sv.take(k as int) == sv);
    string_of(&out)
}

/// A lowercase hexadecimal digit.
pub open spec fn hex_digit(d: nat) -> char {
    if d < 10 {
        crate::text::digit_char(d)
    } else if d == 10 {
        'a'
    } else if d == 11 {
        'b'
    } else if d == 12 {
        'c'
    } else if d == 13 {
        'd'
    } else if d == 14 {
        'e'
    } else {
        'f'
    }
}

/// How serde_json writes one character inside a JSON string: quote and
/// backslash escaped, `\b \f \n \r \t` by name, other control characters
/// below U+0020 as `\u00XX`, everything else as is.
pub open spec fn json_escape_char(c: char) -> Seq<char> {
    if c == '"' {
        seq!['\\', '"']
    } else if c == '\\' {
        seq!['\\', '\\']
    } else if c == '\u{8}' {
        seq!['\\', 'b']
    } else if c == '\u{c}' {
        seq!['\\', 'f']
    } else if c == '\n' {
        seq!['\\', 'n']
    } else if c == '\r' {
        seq!['\\', 'r']
    } else if c == '\t' {
        seq!['\\', 't']
    } else if (c as int) < 0x20 {
        seq!['\\', 'u', '0', '0', hex_digit((c as nat) / 16), hex_digit((c as nat) % 16)]
    } else {
        seq![c]
    }
}

pub open spec fn json_escape(s: Seq<char>) -> Seq<char>
    decreases s.len(),
{
    if s.len() == 0 {
        seq![]
    } else {
        json_escape(s.drop_last()) + json_escape_char(s.last())
    }
}

/// A text as a JSON string literal.
pub open spec fn json_quoted(s: Seq<char>) -> Seq<char> {
    seq!['"'] + json_escape(s) + seq!['"']
}

/// `serde_json::to_string` on a string slice. Serialising a `str` into
/// serde_json's in-memory buffer cannot fail, and the text written is the
/// string literal `json_quoted` describes (its escape table).
#[verifier::external_body]
fn json_string(s: &str) -> (r: Option<String>)
    ensures
        r is Some,
        r.unwrap()@ == json_quoted(s@),
{
    serde_json::to_string(s).ok()
}

/// Trailing zeros dropped, keeping at least one character.
pub open spec fn strip_zeros(s: Seq<char>) -> Seq<char>
    decreases s.len(),
{
    if s.len() > 1 && s.last() == '0' {
        strip_zeros(s.drop_last())
    } else {
        s
    }
}

/// A time in seconds as a JSON number: whole seconds, a point, and the
/// milliseconds without trailing zeros (at least one digit).
pub open spec fn seconds_json(ms: u64) -> Seq<char> {
    let r = (ms % 1000) as nat;
    decimal((ms / 1000) as nat) + seq!['.'] + (if r == 0 { seq!['0'] } else { strip_zeros(zero_pad(decimal(r), 3)) })
}

fn push_seconds(out: &mut Vec<char>, ms: u64)
    ensures
        final(out)@ == old(out)@ + seconds_json(ms),
{
    push_decimal(out, ms / 1000);
    out.push('.');
    let r = ms % 1000;
    if r == 0 {
        out.push('0');
    } else {
        let mut frac: Vec<char> = Vec::new();
        push_padded(&mut frac, r, 3);
        let mut n: usize = frac.len();
        assert(frac@.take(n as int) == frac@);
        while n > 1 && frac[n - 1] == '0'
            invariant
                1 <= n <= frac.len(),
                strip_zeros(frac@) == strip_zeros(frac@.take(n as int)),
            decreases n,
        {
            assert(frac@.take(n as int).drop_last() == frac@.take(n - 1));
            n = n - 1;
        }
        let ghost kept = frac@.take(n as int);
        assert(strip_zeros(kept) == kept);
        let mut i: usize = 0;
        let ghost mid = out@;
        while i < n
            invariant
                i <= n <= frac.len(),
                out@ == mid + frac@.take(i as int),
            decreases n - i,
        {
            out.push(frac[i]);
            assert(frac@.take(i + 1) == frac@.take(i as int).push(frac@[i as int]));
            i = i + 1;
        }
    }
    assert(final(out)@ =~= old(out)@ + seconds_json(ms));
}

pub open spec fn json_segment(s: (u64, u64, Seq<char>)) -> Seq<char> {
    "    {\n      \"end\": "@ + seconds_json(s.1) + ",\n      \"start\": "@ + seconds_json(s.0) + ",\n      \"text\": "@
        + json_quoted(s.2) + "\n    }"@
}

/// JSON with metadata, as serde_json pretty-prints it (two-space indent, keys
/// in alphabetical order): duration in seconds, engine, full text, and the
/// segments with their end, start and text.
pub open spec fn json_of(r: TranscriptionResult) -> Seq<char> {
    let segs = segment_views(r.segments@);
    "{\n  \"duration_seconds\": "@ + seconds_json(r.duration_ms) + ",\n  \"engine\": "@ + json_quoted(r.engine@)
        + ",\n  \"full_text\": "@ + json_quoted(r.text@) + ",\n  \"segments\": "@ + (if segs.len() == 0 {
        "[]"@
    } else {
        "[\n"@ + join(segs.map_values(|s: (u64, u64, Seq<char>)| json_segment(s)), ",\n"@) + "\n  ]"@
    }) + "\n}"@
}

/// Exports as JSON (`json_of`).
pub fn export_json(result: &TranscriptionResult) -> (r: String)
    ensures
        r@ == json_of(*result),
{
    let mut out: Vec<char> = Vec::new();
    push_str(&mut out, "{\n  \"duration_seconds\": ");
    push_seconds(&mut out, result.duration_ms);
    push_str(&mut out, ",\n  \"engine\": ");
    match json_string(result.engine.as_str()) {
        Some(q) => push_str(&mut out, q.as_str()),
        None => return owned("{}"),
    }
    push_str(&mut out, ",\n  \"full_text\": ");
    match json_string(result.text.as_str()) {
        Some(q) => push_str(&mut out, q.as_str()),
        None => return owned("{}"),
    }
    push_str(&mut out, ",\n  \"segments\": ");
    let ghost head = out@;
    let ghost segs = segment_views(result.segments@);
    let ghost parts = segs.map_values(|s: (u64, u64, Seq<char>)| json_segment(s));
    if result.segments.len() == 0 {
        push_str(&mut out, "[]");
    } else {
        push_str(&mut out, "[\n");
        let ghost open = out@;
        let mut i: usize = 0;
        while i < result.segments.len()
            invariant
                i <= result.segments.len(),
                segs == segment_views(result.segments@),
                parts == segs.map_values(|s: (u64, u64, Seq<char>)| json_segment(s)),
                out@ == open + join(parts.take(i as int), ",\n"@),
            decreases result.segments.len() - i,
        {
            proof { lemma_join_push(parts, ",\n"@, i as int); }
            let s = &result.segments[i];
            assert(parts[i as int] == json_segment(segment_view(*s)));
            if i > 0 {
                push_str(&mut out, ",\n");
            }
            let ghost before = out@;
            push_str(&mut out, "    {\n      \"end\": ");
            push_seconds(&mut out, s.end_ms);
            push_str(&mut out, ",\n      \"start\": ");
            push_seconds(&mut out, s.start_ms);
            push_str(&mut out, ",\n      \"text\": ");
            match json_string(s.text.as_str()) {
                Some(q) => push_str(&mut out, q.as_str()),
                None => return owned("{}"),
            }
            push_str(&mut out, "\n    }");
            assert(out@ =~= before + json_segment(segment_view(*s)));
            i = i + 1;
        }
        assert(parts.take(i as int) == parts);
        push_str(&mut out, "\n  ]");
    }
    push_str(&mut out, "\n}");
    assert(out@ =~= json_of(*result));
    string_of(&out)
}

/// Which formats can be exported.
pub open spec fn export_format(r: TranscriptionResult, format: Seq<char>) -> Option<Seq<char>> {
    if format == "txt"@ {
        Some(txt_of(r))
    } else if format == "srt"@ {
        Some(srt_of(r))
    } else if format == "vtt"@ {
        Some(vtt_of(r))
    } else if format == "lrc"@ {
        Some(lrc_of(r))
    } else if format == "json"@ {
        Some(json_of(r))
    } else {
        None
    }
}

/// Exports a transcription to a string in the named format (`txt`, `srt`,
/// `vtt`, `lrc` or `json`); any other name fails with "Unsupported format: ".
pub fn export_to_string(result: &TranscriptionResult, format: &str) -> (r: Result<String, String>)
    ensures
        export_format(*result, format@) matches Some(c) ==> (r matches Ok(s) && s@ == c),
        export_format(*result, format@) is None ==> (r matches Err(e) && e@ == "Unsupported format: "@ + format@),
{
    if str_eq(format, "txt") {
        Ok(export_txt(result))
    } else if str_eq(format, "srt") {
        Ok(export_srt(result))
    } else if str_eq(format, "vtt") {
        Ok(export_vtt(result))
    } else if str_eq(format, "lrc") {
        Ok(export_lrc(result))
    } else if str_eq(format, "json") {
        Ok(export_json(result))
    } else {
        let mut e: Vec<char> = Vec::new();
        push_str(&mut e, "Unsupported format: ");
        push_str(&mut e, format);
        Err(string_of(&e))
    }
}

} // verus!
