use vstd::prelude::*;
use crate::paths::{extension, extension_of, file_name, file_name_of};
use crate::text::{
    chars_of, find, find_seq, first_word, first_word_of, lemma_split_from_len, lines, lines_of, lowercase,
    owned, parse_i32, parse_i32_spec, push_str, push_string, split_char, split_chars, string_of,
    string_views, tail_from, to_lowercase, views,
};
use crate::AudioExtractArgs;

verus! {

/// The time text after `Duration: ` in an FFmpeg log line, up to the next comma.
pub open spec fn duration_field(line: Seq<char>) -> Option<Seq<char>> {
    match find_seq(line, "Duration: "@) {
        Some(i) => Some(split_char(line.skip(i + "Duration: "@.len()), ',')[0]),
        None => None,
    }
}

/// The first word after `time=` in an FFmpeg progress line.
pub open spec fn time_field(line: Seq<char>) -> Option<Seq<char>> {
    match find_seq(line, "time="@) {
        Some(i) => first_word(line.skip(i + "time="@.len())),
        None => None,
    }
}

/// Hours, minutes and seconds texts of `H:M:S`: the three pieces when the text
/// holds exactly two colons.
pub open spec fn hms_fields(s: Seq<char>) -> Option<(Seq<char>, Seq<char>, Seq<char>)> {
    let ps = split_char(s, ':');
    if ps.len() == 3 {
        Some((ps[0], ps[1], ps[2]))
    } else {
        None
    }
}

pub open spec fn triple_view(t: (String, String, String)) -> (Seq<char>, Seq<char>, Seq<char>) {
    (t.0@, t.1@, t.2@)
}

/// Splits `H:M:S` into its three texts.
pub fn hms_parts(s: &str) -> (r: Option<(String, String, String)>)
    ensures
        r matches Some(t) ==> hms_fields(s@) == Some(triple_view(t)),
        r is None ==> hms_fields(s@) is None,
{
    let ps = split_chars(&chars_of(s), ':');
    if ps.len() == 3 {
        assert(views(ps@)[0] == ps@[0]@ && views(ps@)[1] == ps@[1]@ && views(ps@)[2] == ps@[2]@);
        Some((string_of(&ps[0]), string_of(&ps[1]), string_of(&ps[2])))
    } else {
        None
    }
}

/// The `Duration: H:M:S` fields of an FFmpeg log line.
pub fn duration_parts(line: &str) -> (r: Option<(String, String, String)>)
    ensures
        r matches Some(t) ==> (duration_field(line@) matches Some(d) && hms_fields(d) == Some(triple_view(t))),
        r is None ==> (duration_field(line@) matches Some(d) ==> hms_fields(d) is None),
{
    let l = chars_of(line);
    let key = chars_of("Duration: ");
    match find(&l, &key) {
        None => None,
        Some(i) => {
            proof {
                lemma_split_from_len(l@.skip(i + key@.len()), seq![], ',');
            }
            let rest = tail_from(&l, i + key.len());
            let ps = split_chars(&rest, ',');
            assert(views(ps@)[0] == ps@[0]@);
            let field = string_of(&ps[0]);
            hms_parts(field.as_str())
        },
    }
}

/// The `time=H:M:S` fields of an FFmpeg progress line.
pub fn time_parts(line: &str) -> (r: Option<(String, String, String)>)
    ensures
        r matches Some(t) ==> (time_field(line@) matches Some(d) && hms_fields(d) == Some(triple_view(t))),
        r is None ==> (time_field(line@) matches Some(d) ==> hms_fields(d) is None),
{
    let l = chars_of(line);
    let key = chars_of("time=");
    match find(&l, &key) {
        None => None,
        Some(i) => {
            let k = key.len();
            assert(i + k <= l.len());
            let rest = tail_from(&l, i + k);
            match first_word_of(&rest) {
                None => None,
                Some(w) => {
                    let field = string_of(&w);
                    hms_parts(field.as_str())
                },
            }
        },
    }
}

/// The FFmpeg command line that extracts 16 kHz mono 16-bit PCM audio,
/// reporting progress on stdout, with the FFT denoiser when asked.
pub open spec fn extract_argv(input: Seq<char>, output: Seq<char>, denoise: bool) -> Seq<Seq<char>> {
    seq!["-i"@, input, "-progress"@, "pipe:1"@, "-nostats"@]
        + (if denoise { seq!["-af"@, "afftdn=nr=15:nf=-25:tn=1"@] } else { seq![] })
        + seq!["-ac"@, "1"@, "-ar"@, "16000"@, "-acodec"@, "pcm_s16le"@, "-y"@, output]
}

/// Arguments for `ffmpeg` (`extract_argv`).
pub fn extract_audio_args(args: &AudioExtractArgs) -> (r: Vec<String>)
    ensures
        string_views(r@) == extract_argv(args.input_path@, args.output_path@, args.denoise),
{
    let mut v: Vec<String> = Vec::new();
    push_string(&mut v, "-i");
    push_string(&mut v, args.input_path.as_str());
    push_string(&mut v, "-progress");
    push_string(&mut v, "pipe:1");
    push_string(&mut v, "-nostats");
    if args.denoise {
        push_string(&mut v, "-af");
        push_string(&mut v, "afftdn=nr=15:nf=-25:tn=1");
    }
    push_string(&mut v, "-ac");
    push_string(&mut v, "1");
    push_string(&mut v, "-ar");
    push_string(&mut v, "16000");
    push_string(&mut v, "-acodec");
    push_string(&mut v, "pcm_s16le");
    push_string(&mut v, "-y");
    push_string(&mut v, args.output_path.as_str());
    assert(string_views(v@) =~= extract_argv(args.input_path@, args.output_path@, args.denoise));
    v
}

/// The `ffprobe` command line: quiet JSON output of the format section, and of
/// the streams when asked.
pub open spec fn probe_argv(path: Seq<char>, streams: bool) -> Seq<Seq<char>> {
    seq!["-v"@, "quiet"@, "-print_format"@, "json"@, "-show_format"@]
        + (if streams { seq!["-show_streams"@] } else { seq![] })
        + seq![path]
}

/// Arguments for `ffprobe` (`probe_argv`).
pub fn ffprobe_args(path: &str, streams: bool) -> (r: Vec<String>)
    ensures
        string_views(r@) == probe_argv(path@, streams),
{
    let mut v: Vec<String> = Vec::new();
    push_string(&mut v, "-v");
    push_string(&mut v, "quiet");
    push_string(&mut v, "-print_format");
    push_string(&mut v, "json");
    push_string(&mut v, "-show_format");
    if streams {
        push_string(&mut v, "-show_streams");
    }
    push_string(&mut v, path);
    assert(string_views(v@) =~= probe_argv(path@, streams));
    v
}

/// The first line of `ffmpeg -version`, or "FFmpeg found" when it printed nothing.
pub open spec fn version_line(stdout: Seq<char>) -> Seq<char> {
    if lines(stdout).len() > 0 {
        lines(stdout)[0]
    } else {
        "FFmpeg found"@
    }
}

pub fn ffmpeg_version_line(stdout: &str) -> (r: String)
    ensures
        r@ == version_line(stdout@),
{
    let ls = lines_of(&chars_of(stdout));
    if ls.len() > 0 {
        assert(views(ls@)[0] == ls@[0]@);
        string_of(&ls[0])
    } else {
        owned("FFmpeg found")
    }
}

/// The error reported when `ffmpeg -version` fails.
pub fn ffmpeg_error_message(stderr: &str) -> (r: String)
    ensures
        r@ == "FFmpeg returned error: "@ + stderr@,
{
    let mut v: Vec<char> = Vec::new();
    push_str(&mut v, "FFmpeg returned error: ");
    push_str(&mut v, stderr);
    string_of(&v)
}

/// The file name shown for a media path: its last component, or empty.
pub open spec fn media_name(p: Seq<char>) -> Seq<char> {
    match file_name(p) {
        Some(n) => n,
        None => seq![],
    }
}

/// The format shown for a media path: its extension (or nothing), lowercased.
pub open spec fn media_format(p: Seq<char>) -> Seq<char> {
    match extension(p) {
        Some(e) => lowercase(e),
        None => lowercase(seq![]),
    }
}

pub fn media_file_name(path: &str) -> (r: String)
    ensures
        r@ == media_name(path@),
{
    match file_name_of(&chars_of(path)) {
        Some(n) => string_of(&n),
        None => String::new(),
    }
}

pub fn media_file_format(path: &str) -> (r: String)
    ensures
        r@ == media_format(path@),
{
    let e = match extension_of(&chars_of(path)) {
        Some(e) => string_of(&e),
        None => String::new(),
    };
    to_lowercase(e.as_str())
}

/// One stream of an `ffprobe` report, as far as it is read: its `codec_type`
/// and `sample_rate` when they are strings, its `channels` when it is an integer.
pub struct ProbeStream {
    pub codec_type: Option<String>,
    pub channels: Option<i64>,
    pub sample_rate: Option<String>,
}

/// What is read of an `ffprobe` JSON report: `format.duration` when it is a
/// string, and the `streams` array when there is one.
pub struct ProbeReport {
    pub duration: Option<String>,
    pub streams: Option<Vec<ProbeStream>>,
}

pub open spec fn opt_view(o: Option<String>) -> Option<Seq<char>> {
    match o {
        Some(s) => Some(s@),
        None => None,
    }
}

/// A stream as plain values: codec type, channels, sample rate.
pub open spec fn stream_view(s: ProbeStream) -> (Option<Seq<char>>, Option<i64>, Option<Seq<char>>) {
    (opt_view(s.codec_type), s.channels, opt_view(s.sample_rate))
}

pub open spec fn stream_views(v: Seq<ProbeStream>) -> Seq<(Option<Seq<char>>, Option<i64>, Option<Seq<char>>)> {
    v.map_values(|s: ProbeStream| stream_view(s))
}

/// A report as plain values: duration text and streams.
pub open spec fn report_view(r: ProbeReport) -> (
    Option<Seq<char>>,
    Option<Seq<(Option<Seq<char>>, Option<i64>, Option<Seq<char>>)>>,
) {
    (opt_view(r.duration), match r.streams {
        Some(v) => Some(stream_views(v@)),
        None => None,
    })
}

/// What serde_json reads from the bytes of an `ffprobe` JSON report
/// (`serde_json::from_slice` into a `Value`): `None` when they are not JSON;
/// else `format.duration` when it is a string, and, when `streams` is an array,
/// each stream's `codec_type` and `sample_rate` (when strings) and `channels`
/// (when an integer that fits `i64`).
pub uninterp spec fn ffprobe_json(bytes: Seq<u8>) -> Option<
    (Option<Seq<char>>, Option<Seq<(Option<Seq<char>>, Option<i64>, Option<Seq<char>>)>>),
>;

/// `serde_json::from_slice` on ffprobe's output, and the fields read from the
/// `Value` (`Value::as_str`, `as_i64`, `as_array`). The result depends on the
/// bytes alone; it is named by `ffprobe_json`, and JSON parsing is not restated.
#[verifier::external_body]
fn parse_ffprobe(bytes: &[u8]) -> (r: Option<ProbeReport>)
    ensures
        (match r {
            Some(p) => Some(report_view(p)),
            None => None,
        }) == ffprobe_json(bytes@),
{
    let v: serde_json::Value = serde_json::from_slice(bytes).ok()?;
    let stream = |s: &serde_json::Value| ProbeStream {
        codec_type: s["codec_type"].as_str().map(|t| t.to_string()),
        channels: s["channels"].as_i64(),
        sample_rate: s["sample_rate"].as_str().map(|t| t.to_string()),
    };
    Some(ProbeReport {
        duration: v["format"]["duration"].as_str().map(|t| t.to_string()),
        streams: v["streams"].as_array().map(|a| a.iter().map(stream).collect()),
    })
}

/// Channel count and sample rate of the first audio stream: the channel count
/// cut to 32 bits, the sample rate parsed as an `i32` when it is one; both
/// absent when there is no audio stream.
pub open spec fn audio_stream_info(streams: Seq<(Option<Seq<char>>, Option<i64>, Option<Seq<char>>)>) -> (
    Option<i32>,
    Option<i32>,
)
    decreases streams.len(),
{
    if streams.len() == 0 {
        (None, None)
    } else if streams[0].0 == Some("audio"@) {
        (match streams[0].1 {
            Some(c) => Some(c as i32),
            None => None,
        }, match streams[0].2 {
            Some(r) => parse_i32_spec(r),
            None => None,
        })
    } else {
        audio_stream_info(streams.drop_first())
    }
}

pub fn first_audio_stream(streams: &Vec<ProbeStream>) -> (r: (Option<i32>, Option<i32>))
    ensures
        r == audio_stream_info(stream_views(streams@)),
{
    let ghost vs = stream_views(streams@);
    let mut i: usize = 0;
    assert(vs.skip(0) == vs);
    while i < streams.len()
        invariant
            i <= streams.len(),
            vs == stream_views(streams@),
            audio_stream_info(vs) == audio_stream_info(vs.skip(i as int)),
        decreases streams.len() - i,
    {
        let s = &streams[i];
        assert(vs.skip(i as int)[0] == stream_view(*s));
        assert(vs.skip(i as int).drop_first() == vs.skip(i + 1));
        let audio = match &s.codec_type {
            Some(t) => crate::text::str_eq(t.as_str(), "audio"),
            None => false,
        };
        if audio {
            let ch = match s.channels {
                Some(c) => Some(c as i32),
                None => None,
            };
            let rate = match &s.sample_rate {
                Some(r) => parse_i32(&chars_of(r.as_str())),
                None => None,
            };
            return (ch, rate);
        }
        i = i + 1;
    }
    (None, None)
}

/// Duration text, channel count and sample rate of a read report; all absent
/// when there is no report.
pub open spec fn probe_info(
    report: Option<(Option<Seq<char>>, Option<Seq<(Option<Seq<char>>, Option<i64>, Option<Seq<char>>)>>)>,
) -> (Option<Seq<char>>, Option<i32>, Option<i32>) {
    match report {
        None => (None, None, None),
        Some((d, streams)) => match streams {
            Some(v) => (d, audio_stream_info(v).0, audio_stream_info(v).1),
            None => (d, None, None),
        },
    }
}

/// The duration text and first audio stream of a read report.
pub fn report_info(report: &ProbeReport) -> (r: (Option<String>, Option<i32>, Option<i32>))
    ensures
        (opt_view(r.0), r.1, r.2) == probe_info(Some(report_view(*report))),
{
    let d = match &report.duration {
        Some(t) => Some(owned(t.as_str())),
        None => None,
    };
    match &report.streams {
        Some(v) => {
            let (c, rate) = first_audio_stream(v);
            (d, c, rate)
        },
        None => (d, None, None),
    }
}

/// Reads ffprobe's JSON output: the `format.duration` text and the channel
/// count and sample rate of the first audio stream.
pub fn ffprobe_info(stdout: &[u8]) -> (r: (Option<String>, Option<i32>, Option<i32>))
    ensures
        (opt_view(r.0), r.1, r.2) == probe_info(ffprobe_json(stdout@)),
{
    match parse_ffprobe(stdout) {
        Some(p) => report_info(&p),
        None => (None, None, None),
    }
}

} // verus!
