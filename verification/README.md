# media_transcriber

A local audio/video transcription assistant: FFmpeg extracts 16 kHz mono
audio, an energy-based voice activity detector cuts it into speech chunks, a
recogniser transcribes each chunk, and the result is exported as TXT, SRT,
VTT, LRC or JSON.

## Layout

- `src/` — the library, verified with Verus. Every public function states
  its result in its contract:
  - `text`, `paths`: string, line, number and path helpers with the semantics
    of their std counterparts (`str::trim`, `str::lines`, `u64::from_str`, and
    `Path::file_name`, `Path::extension`, `Path::join` on Windows paths: `\`
    and `/` separate, drive prefixes such as `C:`, joins with `\`).
  - `punct`: rule-based punctuation: sentences at line breaks and pauses,
    closed and capitalised (proved idempotent, and closing every non-blank
    text).
  - `vad`: the voice activity detector (segments proved ordered, inside the
    audio, cut to the maximum duration, and independent of loudness).
  - `pipeline`: chunk planning around detected speech, collection of
    recognised text, the final result (chunks proved to be in time order).
  - `export`: the five export formats.
  - `ffmpeg`, `download`, `commands`, `models`, `asr`: command lines, reading
    of FFmpeg/ffprobe output, download decisions, the recognition worker's
    checks and outcome, the environment report, the model catalogue.
- `app/` — the command-line program around it: processes, files, HTTP,
  the SQLite task history, progress events, and the floating-point
  conversions (seconds, progress fractions, 32-bit float WAV samples).
- `tests/` — tests of the library on concrete values.

Times inside the library are whole milliseconds and audio is 16-bit PCM.
