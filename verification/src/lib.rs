//! Local audio/video transcription assistant: the verified core.
//!
//! Punctuation restoration, energy-based voice activity detection, audio
//! chunking for recognition, subtitle and text export (TXT, SRT, VTT, LRC,
//! JSON), FFmpeg output reading, model and environment reports, and the
//! decisions of the download and recognition-worker steps.
//!
//! Times are whole milliseconds and audio is 16-bit PCM.

pub mod text;
pub mod paths;
pub mod punct;
pub mod vad;
pub mod asr;
pub mod pipeline;
pub mod export;
pub mod models;
pub mod ffmpeg;
pub mod commands;
pub mod download;


use vstd::prelude::*;
use crate::text::{chars_of, lowercase, str_eq, to_lowercase};
use crate::paths::{extension, extension_of};

verus! {

/// Arguments of an audio extraction: source media, WAV output, and whether to denoise.
pub struct AudioExtractArgs {
    pub input_path: String,
    pub output_path: String,
    pub denoise: bool,
}

/// One recognised stretch of speech: `start_ms..end_ms` and its text.
pub struct TranscriptionSegment {
    pub start_ms: u64,
    pub end_ms: u64,
    pub text: String,
}

/// A segment as plain values: start, end, text.
pub open spec fn segment_view(s: TranscriptionSegment) -> (u64, u64, Seq<char>) {
    (s.start_ms, s.end_ms, s.text@)
}

/// The segments of a list as plain values.
pub open spec fn segment_views(v: Seq<TranscriptionSegment>) -> Seq<(u64, u64, Seq<char>)> {
    v.map_values(|s: TranscriptionSegment| segment_view(s))
}

/// A finished transcription.
pub struct TranscriptionResult {
    pub text: String,
    pub segments: Vec<TranscriptionSegment>,
    pub engine: String,
    pub duration_ms: u64,
}

/// Where and in which format to export a task's transcription.
pub struct ExportArgs {
    pub task_id: String,
    pub format: String,
    pub output_path: String,
}

/// Application paths and download settings.
pub struct AppConfig {
    pub models_dir: String,
    pub output_dir: String,
    pub ffmpeg_path: String,
    pub download_mirror: String,
}

/// The accepted audio file extensions.
pub open spec fn audio_format(k: int) -> Seq<char> {
    if k == 0 { "mp3"@ }
    else if k == 1 { "wav"@ }
    else if k == 2 { "flac"@ }
    else if k == 3 { "aac"@ }
    else if k == 4 { "ogg"@ }
    else if k == 5 { "wma"@ }
    else if k == 6 { "m4a"@ }
    else { "opus"@ }
}

/// The accepted video file extensions.
pub open spec fn video_format(k: int) -> Seq<char> {
    if k == 0 { "mp4"@ }
    else if k == 1 { "mkv"@ }
    else if k == 2 { "avi"@ }
    else if k == 3 { "mov"@ }
    else if k == 4 { "wmv"@ }
    else if k == 5 { "flv"@ }
    else if k == 6 { "webm"@ }
    else { "m4v"@ }
}

pub open spec fn is_media_extension(e: Seq<char>) -> bool {
    (exists|k: int| 0 <= k < 8 && e == audio_format(k)) || (exists|k: int| 0 <= k < 8 && e == video_format(k))
}

/// A path names a media file when its extension, lowercased, is one of the
/// audio or video formats.
pub open spec fn is_media_path(p: Seq<char>) -> bool {
    match extension(p) {
        Some(e) => is_media_extension(lowercase(e)),
        None => false,
    }
}

fn audio_format_str(k: usize) -> (r: &'static str)
    requires
        k < 8,
    ensures
        r@ == audio_format(k as int),
{
    if k == 0 { "mp3" }
    else if k == 1 { "wav" }
    else if k == 2 { "flac" }
    else if k == 3 { "aac" }
    else if k == 4 { "ogg" }
    else if k == 5 { "wma" }
    else if k == 6 { "m4a" }
    else { "opus" }
}

fn video_format_str(k: usize) -> (r: &'static str)
    requires
        k < 8,
    ensures
        r@ == video_format(k as int),
{
    if k == 0 { "mp4" }
    else if k == 1 { "mkv" }
    else if k == 2 { "avi" }
    else if k == 3 { "mov" }
    else if k == 4 { "wmv" }
    else if k == 5 { "flv" }
    else if k == 6 { "webm" }
    else { "m4v" }
}

/// Whether the path names an audio or video file, by its extension.
pub fn is_media_file(path: &str) -> (b: bool)
    ensures
        b == is_media_path(path@),
{
    let p = chars_of(path);
    match extension_of(&p) {
        None => false,
        Some(e) => {
            let es = crate::text::string_of(&e);
            let lower = to_lowercase(es.as_str());
            let mut k: usize = 0;
            while k < 8
                invariant
                    lower@ == lowercase(e@),
                    extension(path@) == Some(e@),
                    p@ == path@,
                    forall|j: int| 0 <= j < k ==> lower@ != audio_format(j) && lower@ != video_format(j),
                decreases 8 - k,
            {
                if str_eq(lower.as_str(), audio_format_str(k)) || str_eq(lower.as_str(), video_format_str(k)) {
                    assert(lower@ == audio_format(k as int) || lower@ == video_format(k as int));
                    assert(is_media_extension(lower@));
                    return true;
                }
                k = k + 1;
            }
            false
        },
    }
}

} // verus!
