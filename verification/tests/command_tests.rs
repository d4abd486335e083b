use media_transcriber::commands::{
    asr_models_dir, asr_outcome, asr_preflight, asr_worker_args, e2e_wanted, environment_report, get_app_config,
    model_check_report, model_check_target, test_wav_header, E2eRun, EnvProbe, ToolRun,
};
use media_transcriber::download::{
    already_downloaded_message, check_content_type, content_length, download_complete_message, download_file_name,
    effective_total, plan_download, DownloadStart, ProbeRead,
};
use media_transcriber::ffmpeg::{
    duration_parts, extract_audio_args, ffmpeg_error_message, ffmpeg_version_line, ffprobe_args, ffprobe_info,
    first_audio_stream, hms_parts, media_file_format, media_file_name, report_info, time_parts, ProbeReport,
    ProbeStream,
};
use media_transcriber::models::{model_file_path, ModelRegistry};
use media_transcriber::AudioExtractArgs;

fn triple(a: &str, b: &str, c: &str) -> Option<(String, String, String)> {
    Some((a.to_string(), b.to_string(), c.to_string()))
}

#[test]
fn hms_needs_exactly_three_fields() {
    assert_eq!(hms_parts("01:02:03.5"), triple("01", "02", "03.5"));
    assert_eq!(hms_parts("1:2"), None);
    assert_eq!(hms_parts("1:2:3:4"), None);
    assert_eq!(hms_parts("::"), triple("", "", ""));
}

#[test]
fn duration_field_of_a_log_line() {
    let line = "  Duration: 00:01:02.50, start: 0.000000, bitrate: 256 kb/s";
    assert_eq!(duration_parts(line), triple("00", "01", "02.50"));
    assert_eq!(duration_parts("Stream #0:0: Audio: aac"), None);
    assert_eq!(duration_parts("Duration: N/A, bitrate: N/A"), None);
}

#[test]
fn time_field_of_a_progress_line() {
    assert_eq!(time_parts("frame=1 time=00:00:05.12 bitrate=1.0kbits/s"), triple("00", "00", "05.12"));
    assert_eq!(time_parts("out_time=00:00:01.000000"), triple("00", "00", "01.000000"));
    assert_eq!(time_parts("progress=continue"), None);
    assert_eq!(time_parts("time=   "), None);
}

#[test]
fn ffmpeg_command_lines() {
    let plain = AudioExtractArgs { input_path: "in.mp4".into(), output_path: "out.wav".into(), denoise: false };
    assert_eq!(
        extract_audio_args(&plain),
        vec!["-i", "in.mp4", "-progress", "pipe:1", "-nostats", "-ac", "1", "-ar", "16000", "-acodec", "pcm_s16le", "-y", "out.wav"]
    );
    let denoised = AudioExtractArgs { input_path: "a".into(), output_path: "b".into(), denoise: true };
    assert_eq!(
        extract_audio_args(&denoised),
        vec![
            "-i", "a", "-progress", "pipe:1", "-nostats", "-af", "afftdn=nr=15:nf=-25:tn=1", "-ac", "1", "-ar",
            "16000", "-acodec", "pcm_s16le", "-y", "b"
        ]
    );
    assert_eq!(ffprobe_args("f.mkv", false), vec!["-v", "quiet", "-print_format", "json", "-show_format", "f.mkv"]);
    assert_eq!(
        ffprobe_args("f.mkv", true),
        vec!["-v", "quiet", "-print_format", "json", "-show_format", "-show_streams", "f.mkv"]
    );
}

#[test]
fn ffmpeg_version_and_error_texts() {
    assert_eq!(ffmpeg_version_line("ffmpeg version 6.1 Copyright\nbuilt with gcc\n"), "ffmpeg version 6.1 Copyright");
    assert_eq!(ffmpeg_version_line("ffmpeg version 7\r\nx"), "ffmpeg version 7");
    assert_eq!(ffmpeg_version_line(""), "FFmpeg found");
    assert_eq!(ffmpeg_error_message("bad"), "FFmpeg returned error: bad");
}

#[test]
fn media_name_and_format() {
    assert_eq!(media_file_name("/x/y/Movie.MP4"), "Movie.MP4");
    assert_eq!(media_file_format("/x/y/Movie.MP4"), "mp4");
    assert_eq!(media_file_format("/x/y/README"), "");
    assert_eq!(media_file_format("/x/.hidden"), "");
    assert_eq!(media_file_name("/"), "");
    assert_eq!(media_file_name("a\\b.mp4"), "b.mp4");
    assert_eq!(media_file_format("C:\\v\\b.MKV"), "mkv");
    assert_eq!(media_file_name("clip.tar.GZ"), "clip.tar.GZ");
    assert_eq!(media_file_format("clip.tar.GZ"), "gz");
}

fn stream(kind: Option<&str>, ch: Option<i64>, rate: Option<&str>) -> ProbeStream {
    ProbeStream { codec_type: kind.map(|s| s.to_string()), channels: ch, sample_rate: rate.map(|s| s.to_string()) }
}

#[test]
fn first_audio_stream_is_read() {
    let v = vec![
        stream(Some("video"), Some(9), Some("1")),
        stream(Some("audio"), Some(2), Some("44100")),
        stream(Some("audio"), Some(6), Some("48000")),
    ];
    assert_eq!(first_audio_stream(&v), (Some(2), Some(44100)));
    let odd = vec![stream(Some("audio"), Some(4_294_967_298), Some("fast"))];
    assert_eq!(first_audio_stream(&odd), (Some(2), None));
    let none = vec![stream(None, Some(1), Some("8000")), stream(Some("subtitle"), None, None)];
    assert_eq!(first_audio_stream(&none), (None, None));
    assert_eq!(first_audio_stream(&Vec::new()), (None, None));
}

#[test]
fn content_length_header() {
    assert_eq!(content_length(Some("123")), 123);
    assert_eq!(content_length(Some("18446744073709551615")), u64::MAX);
    assert_eq!(content_length(Some("18446744073709551616")), 0);
    assert_eq!(content_length(Some("abc")), 0);
    assert_eq!(content_length(None), 0);
}

fn plan(existing: u64, total: u64, probe: ProbeRead) -> Result<Option<Option<String>>, String> {
    plan_download(existing, total, &probe).map(|s| match s {
        DownloadStart::AlreadyComplete => None,
        DownloadStart::Resume(r) => Some(Some(r)),
        DownloadStart::Fresh => Some(None),
    })
}

#[test]
fn download_plans() {
    assert_eq!(plan(0, 100, ProbeRead::NotNeeded), Ok(Some(None)));
    assert_eq!(plan(100, 100, ProbeRead::NotNeeded), Ok(None));
    assert_eq!(plan(150, 100, ProbeRead::NotNeeded), Ok(None));
    assert_eq!(plan(50, 100, ProbeRead::NotNeeded), Ok(Some(Some("bytes=50-".to_string()))));
    assert_eq!(plan(50, 0, ProbeRead::Bytes { n: 4, first: b'P' }), Ok(Some(Some("bytes=50-".to_string()))));
    assert_eq!(plan(0, 0, ProbeRead::Bytes { n: 0, first: 0 }), Ok(Some(None)));
    assert_eq!(
        plan(0, 0, ProbeRead::Bytes { n: 4, first: b'<' }),
        Err("Download URL returned HTML instead of binary data. The file may require authentication or the URL may be incorrect.".to_string())
    );
    assert_eq!(
        plan(0, 0, ProbeRead::Bytes { n: 0, first: b'<' }),
        Err("Download source returned unexpected content".to_string())
    );
    assert_eq!(
        plan(9, 9, ProbeRead::Failed("timed out".to_string())),
        Err("Failed to connect to download server: timed out".to_string())
    );
}

#[test]
fn html_responses_are_refused() {
    let e = check_content_type(Some("text/html; charset=utf-8"), "http://h/m.onnx").unwrap_err();
    assert_eq!(
        e,
        "Server returned HTML instead of file data \u{2014} the download source may require authentication. Please visit http://h/m.onnx in your browser to download the file manually."
    );
    assert!(check_content_type(Some("application/octet-stream"), "u").is_ok());
    assert!(check_content_type(None, "u").is_ok());
}

#[test]
fn download_totals_and_messages() {
    assert_eq!(effective_total(0, 10, 20), 30);
    assert_eq!(effective_total(100, 10, 20), 100);
    assert_eq!(download_file_name("/a/b/model.onnx"), "model.onnx");
    assert_eq!(download_file_name("/"), "");
    assert_eq!(download_file_name("C:\\models\\x.onnx"), "x.onnx");
    assert_eq!(already_downloaded_message("m.onnx"), "m.onnx already downloaded");
    assert_eq!(download_complete_message("m.onnx"), "m.onnx download complete");
}

#[test]
fn model_catalogue() {
    let c = ModelRegistry::catalog(&[true, false, false, true]);
    let ids: Vec<&str> = c.iter().map(|m| m.model_id.as_str()).collect();
    assert_eq!(ids, vec!["sense-voice-small", "paraformer-large", "silero-vad", "punct-ct-transformer"]);
    assert_eq!(c.iter().map(|m| m.installed).collect::<Vec<_>>(), vec![true, false, false, true]);
    assert_eq!(c.iter().map(|m| m.required).collect::<Vec<_>>(), vec![true, false, true, false]);
    assert_eq!(c[2].size_bytes, Some(2_200_000));
    assert_eq!(c[3].name, "CT-Transformer (\u{6807}\u{70b9})");
    assert_eq!(
        c[0].download_url.as_deref(),
        Some("https://modelscope.cn/models/k2-fsa/sense-voice-small-onnx/raw/master/model.int8.onnx")
    );
    assert_eq!(model_file_path("C:\\m", 2), "C:\\m\\silero-vad\\silero_vad.onnx");
    assert_eq!(model_file_path("./models/", 0), "./models/sense-voice-small\\model.int8.onnx");
    assert_eq!(ModelRegistry::default_models_dir(), "./models");
}

#[test]
fn listing_a_missing_directory_finds_nothing_installed() {
    let l = ModelRegistry::list_models("/definitely/not/a/models/dir");
    assert_eq!(l.len(), 4);
    assert!(l.iter().all(|m| !m.installed));
    assert_eq!(l[1].name, "Paraformer-Large (int8)");
}

#[test]
fn model_check_lists_four_models() {
    let r = model_check_report(&[false, true, true, false]);
    let names: Vec<&str> = r.iter().map(|m| m.name.as_str()).collect();
    assert_eq!(
        names,
        vec![
            "SenseVoice-Small (\u{5feb}\u{901f}\u{5f15}\u{64ce})",
            "Paraformer-Large (\u{7cbe}\u{51c6}\u{5f15}\u{64ce})",
            "Silero-VAD (\u{8bed}\u{97f3}\u{5206}\u{6bb5})",
            "CT-Transformer (\u{6807}\u{70b9})"
        ]
    );
    assert_eq!(r.iter().map(|m| m.installed).collect::<Vec<_>>(), vec![false, true, true, false]);
    assert_eq!(r.iter().map(|m| m.size_bytes).collect::<Vec<_>>(), vec![
        Some(233_000_000),
        Some(231_000_000),
        Some(1_000_000),
        Some(100_000_000)
    ]);
    assert_eq!(model_check_target(2), ("silero-vad", "silero_vad.onnx"));
    assert_eq!(model_check_target(3), ("punct-ct-transformer", "model.onnx"));
}

#[test]
fn app_config_values() {
    let c = get_app_config().unwrap();
    assert_eq!(c.models_dir, "./models");
    assert_eq!(c.output_dir, "./output");
    assert_eq!(c.ffmpeg_path, "ffmpeg");
    assert_eq!(c.download_mirror, "https://www.modelscope.cn");
}

#[test]
fn worker_invocation() {
    assert_eq!(asr_models_dir("C:\\res"), "C:\\res\\models");
    assert_eq!(asr_models_dir("C:\\res\\"), "C:\\res\\models");
    assert_eq!(asr_models_dir(""), "models");
    assert_eq!(
        asr_worker_args("a.wav", "/res/models"),
        vec!["--wav", "a.wav", "--model", "paraformer", "--models-dir", "/res/models"]
    );
}

#[test]
fn worker_preflight_order() {
    assert_eq!(asr_preflight(true, "w", true, "a.wav", true, "m"), Ok(()));
    assert_eq!(
        asr_preflight(false, "/bin/w", false, "a.wav", false, "m"),
        Err("ASR worker not found at: /bin/w".to_string())
    );
    assert_eq!(asr_preflight(true, "w", false, "a.wav", false, "m"), Err("WAV file not found: a.wav".to_string()));
    assert_eq!(asr_preflight(true, "w", true, "a.wav", false, "/r/models"), Err("Models dir not found: /r/models".to_string()));
}

#[test]
fn worker_outcomes() {
    assert_eq!(
        asr_outcome(false, Some(-1), "o", "e", Ok("o".to_string())),
        Err("ASR worker exited with code: Some(-1)\nstdout: o\nstderr: e".to_string())
    );
    assert_eq!(
        asr_outcome(false, None, "", "killed", Ok(String::new())),
        Err("ASR worker exited with code: None\nstdout: \nstderr: killed".to_string())
    );
    assert_eq!(
        asr_outcome(false, Some(i32::MIN), "", "", Ok(String::new())),
        Err(format!("ASR worker exited with code: {:?}\nstdout: \nstderr: ", Some(i32::MIN)))
    );
    assert_eq!(
        asr_outcome(true, Some(0), "", "", Err("bad byte".to_string())),
        Err("Invalid UTF-8 in ASR output: bad byte".to_string())
    );
    assert_eq!(
        asr_outcome(true, Some(0), " \n", "", Ok(" \n".to_string())),
        Err("ASR worker completed but produced no output. The model may have failed silently.".to_string())
    );
    let out = "{\"type\":\"result\"}\n".to_string();
    assert_eq!(asr_outcome(true, Some(0), &out, "", Ok(out.clone())), Ok(out));
}

fn probe(e2e: E2eRun, models: bool) -> EnvProbe {
    EnvProbe {
        worker_path: "/app/asr_worker.exe".into(),
        worker_exists: true,
        resource_dir: "/app/res".into(),
        resource_exists: true,
        models_dir: "/app/res/models".into(),
        models_exist: models,
        paraformer_exists: true,
        sensevoice_exists: false,
        ffmpeg: Some(ToolRun { success: true, stdout: "ffmpeg version 6.0\nbuilt with gcc".into() }),
        python: Some(ToolRun { success: true, stdout: "Python 3.12.1\n".into() }),
        e2e,
    }
}

fn rows(p: &EnvProbe) -> (bool, Vec<(String, bool, String)>) {
    let r = environment_report(p);
    (r.ok, r.items.into_iter().map(|i| (i.name, i.passed, i.detail)).collect())
}

#[test]
fn environment_all_passing() {
    let e2e = E2eRun::Finished {
        success: true,
        code: Some(0),
        stdout: "{\"type\": \"result\", \"text\": \"x\"}".into(),
        stderr: String::new(),
    };
    let (ok, items) = rows(&probe(e2e, true));
    assert!(ok);
    let want = vec![
        ("asr_worker.exe".to_string(), true, "/app/asr_worker.exe".to_string()),
        ("Resource directory".to_string(), true, "/app/res".to_string()),
        ("ASR models".to_string(), true, "paraformer: true, sensevoice: false".to_string()),
        ("FFmpeg".to_string(), true, "ffmpeg version 6.0".to_string()),
        ("Python (dev)".to_string(), true, "Python 3.12.1".to_string()),
        ("E2E transcription test".to_string(), true, "E2E transcription: PASS".to_string()),
    ];
    assert_eq!(items, want);
}

#[test]
fn environment_with_missing_parts() {
    let mut p = probe(E2eRun::Skipped, false);
    p.ffmpeg = None;
    p.python = Some(ToolRun { success: false, stdout: String::new() });
    let (ok, items) = rows(&p);
    assert!(!ok);
    assert_eq!(items[2], ("ASR models".to_string(), false, "/app/res/models".to_string()));
    assert_eq!(items[3], ("FFmpeg".to_string(), false, "not found".to_string()));
    assert_eq!(items[4], ("Python (dev)".to_string(), false, String::new()));
    assert_eq!(items[5], ("E2E transcription test".to_string(), false, "SKIP (missing dependencies)".to_string()));
}

#[test]
fn environment_end_to_end_failures() {
    let long = "x".repeat(250);
    let failed = E2eRun::Finished { success: false, code: Some(2), stdout: String::new(), stderr: long.clone() };
    let (ok, items) = rows(&probe(failed, true));
    assert!(!ok);
    assert_eq!(items[5].2, format!("E2E: exit code Some(2), stderr: {}", "x".repeat(200)));
    let no_json = E2eRun::Finished { success: true, code: Some(0), stdout: "\"type\" only".into(), stderr: String::new() };
    assert_eq!(rows(&probe(no_json, true)).1[5].2, "E2E: no result JSON. stdout: \"type\" only");
    let spawn = E2eRun::SpawnFailed("no such file".into());
    assert_eq!(rows(&probe(spawn, true)).1[5].2, "E2E: spawn failed: no such file");
    assert!(e2e_wanted(true, true));
    assert!(!e2e_wanted(true, false));
    assert!(!e2e_wanted(false, true));
}

#[test]
fn wav_header_bytes() {
    let n: usize = 32000;
    let sr: u32 = 16000;
    let mut want = Vec::new();
    want.extend_from_slice(b"RIFF");
    want.extend_from_slice(&((36 + n * 2) as u32).to_le_bytes());
    want.extend_from_slice(b"WAVE");
    want.extend_from_slice(b"fmt ");
    want.extend_from_slice(&16u32.to_le_bytes());
    want.extend_from_slice(&1u16.to_le_bytes());
    want.extend_from_slice(&1u16.to_le_bytes());
    want.extend_from_slice(&sr.to_le_bytes());
    want.extend_from_slice(&(sr * 2).to_le_bytes());
    want.extend_from_slice(&2u16.to_le_bytes());
    want.extend_from_slice(&16u16.to_le_bytes());
    want.extend_from_slice(b"data");
    want.extend_from_slice(&((n * 2) as u32).to_le_bytes());
    assert_eq!(test_wav_header(n, sr), want);
    assert_eq!(test_wav_header(n, sr).len(), 44);
}

#[test]
fn ffprobe_reports_are_read() {
    let json = br#"{
        "streams": [
            {"index": 0, "codec_type": "video", "width": 1920},
            {"index": 1, "codec_type": "audio", "channels": 2, "sample_rate": "48000"}
        ],
        "format": {"filename": "a.mp4", "duration": "12.500000"}
    }"#;
    assert_eq!(ffprobe_info(json), (Some("12.500000".to_string()), Some(2), Some(48000)));
    let only_format = br#"{"format": {"duration": "3.0"}}"#;
    assert_eq!(ffprobe_info(only_format), (Some("3.0".to_string()), None, None));
    let numeric = br#"{"format": {"duration": 3.0}, "streams": [{"codec_type": "audio", "channels": 1.5}]}"#;
    assert_eq!(ffprobe_info(numeric), (None, None, None));
    assert_eq!(ffprobe_info(b"not json"), (None, None, None));
    assert_eq!(ffprobe_info(b""), (None, None, None));
    let report = ProbeReport {
        duration: Some("7".to_string()),
        streams: Some(vec![stream(Some("audio"), Some(6), Some("44100"))]),
    };
    assert_eq!(report_info(&report), (Some("7".to_string()), Some(6), Some(44100)));
    let bare = ProbeReport { duration: None, streams: None };
    assert_eq!(report_info(&bare), (None, None, None));
}
