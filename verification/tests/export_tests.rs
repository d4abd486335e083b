use media_transcriber::export::{
    export_json, export_lrc, export_srt, export_to_string, export_txt, export_vtt, format_lrc_timestamp,
    format_timestamp,
};
use media_transcriber::commands::export_result_string;
use media_transcriber::{TranscriptionResult, TranscriptionSegment};

fn seg(a: u64, b: u64, t: &str) -> TranscriptionSegment {
    TranscriptionSegment { start_ms: a, end_ms: b, text: t.to_string() }
}

fn sample() -> TranscriptionResult {
    TranscriptionResult {
        text: "first\nsecond".to_string(),
        segments: vec![seg(0, 1500, "first"), seg(61_250, 3_725_007, "sec \"ond\"\n\tx")],
        engine: "fast".to_string(),
        duration_ms: 3_725_500,
    }
}

#[test]
fn timestamps_have_fixed_layout() {
    assert_eq!(format_timestamp(0), "00:00:00.000");
    assert_eq!(format_timestamp(3_725_007), "01:02:05.007");
    assert_eq!(format_timestamp(359_999_999), "99:59:59.999");
    assert_eq!(format_timestamp(360_000_000), "100:00:00.000");
    assert_eq!(format_lrc_timestamp(61_250), "[01:01.25]");
    assert_eq!(format_lrc_timestamp(59_996), "[01:00.00]");
    assert_eq!(format_lrc_timestamp(119_999), "[02:00.00]");
    assert_eq!(format_lrc_timestamp(59_994), "[00:59.99]");
    assert_eq!(format_lrc_timestamp(7_004), "[00:07.00]");
    assert_eq!(format_lrc_timestamp(7_005), "[00:07.00]");
    assert_eq!(format_lrc_timestamp(7_015), "[00:07.02]");
    assert_eq!(format_lrc_timestamp(7_006), "[00:07.01]");
    assert_eq!(format_lrc_timestamp(125), "[00:00.12]");
    assert_eq!(format_lrc_timestamp(135), "[00:00.14]");
}

#[test]
fn timestamps_agree_with_float_formatting() {
    for ms in [0u64, 1, 999, 1000, 59_999, 61_250, 3_599_999, 3_600_000, 86_399_123] {
        let secs = ms as f64 / 1000.0;
        let h = (secs / 3600.0) as u32;
        let m = ((secs % 3600.0) / 60.0) as u32;
        let sec = secs % 60.0;
        assert_eq!(format_timestamp(ms), format!("{:02}:{:02}:{:06.3}", h, m, sec));
    }
}

#[test]
fn txt_export() {
    assert_eq!(export_txt(&sample()), "first\n\nsec \"ond\"\n\tx");
    let mut r = sample();
    r.segments.clear();
    assert_eq!(export_txt(&r), "first\nsecond");
}

#[test]
fn srt_export() {
    assert_eq!(
        export_srt(&sample()),
        "1\n00:00:00,000 --> 00:00:01,500\nfirst\n\n2\n00:01:01,250 --> 01:02:05,007\nsec \"ond\"\n\tx\n"
    );
    let mut r = sample();
    r.segments.clear();
    assert_eq!(export_srt(&r), "1\n00:00:00,000 --> 01:02:05,500\nfirst\nsecond\n");
}

#[test]
fn vtt_export() {
    assert_eq!(
        export_vtt(&sample()),
        "WEBVTT\n\n1\n00:00:00.000 --> 00:00:01.500\nfirst\n\n2\n00:01:01.250 --> 01:02:05.007\nsec \"ond\"\n\tx\n\n"
    );
}

#[test]
fn lrc_export() {
    assert_eq!(
        export_lrc(&sample()),
        "[ti:Transcription]\n[ar:local-media-asr]\n\n[00:00.00]first\n[01:01.25]sec \"ond\"\n[01:01.25]\tx\n"
    );
    let r = TranscriptionResult {
        text: "one\n  \ntwo\nthree".to_string(),
        segments: vec![],
        engine: "fast".to_string(),
        duration_ms: 8_000,
    };
    assert_eq!(
        export_lrc(&r),
        "[ti:Transcription]\n[ar:local-media-asr]\n\n[00:00.00]one\n[00:04.00]two\n[00:06.00]three\n"
    );
}

fn json_value(r: &TranscriptionResult) -> serde_json::Value {
    let mut top = serde_json::Map::new();
    top.insert("engine".to_string(), serde_json::Value::from(r.engine.clone()));
    top.insert("duration_seconds".to_string(), serde_json::Value::from(r.duration_ms as f64 / 1000.0));
    top.insert("full_text".to_string(), serde_json::Value::from(r.text.clone()));
    let mut segs = Vec::new();
    for s in &r.segments {
        let mut m = serde_json::Map::new();
        m.insert("start".to_string(), serde_json::Value::from(s.start_ms as f64 / 1000.0));
        m.insert("end".to_string(), serde_json::Value::from(s.end_ms as f64 / 1000.0));
        m.insert("text".to_string(), serde_json::Value::from(s.text.clone()));
        segs.push(serde_json::Value::Object(m));
    }
    top.insert("segments".to_string(), serde_json::Value::Array(segs));
    serde_json::Value::Object(top)
}

#[test]
fn json_export_matches_serde_json() {
    let mut r = sample();
    r.segments.push(seg(10, 20, "ctl \u{1}\u{7f}\\ \u{4f60}"));
    assert_eq!(export_json(&r), serde_json::to_string_pretty(&json_value(&r)).unwrap());
    r.segments.clear();
    r.duration_ms = 0;
    assert_eq!(export_json(&r), serde_json::to_string_pretty(&json_value(&r)).unwrap());
    let out = export_json(&r);
    assert!(out.contains("\"segments\": []"));
}

#[test]
fn unknown_export_format_is_refused() {
    assert_eq!(export_to_string(&sample(), "docx"), Err("Unsupported format: docx".to_string()));
    assert_eq!(export_result_string("SRT", &sample()), Err("Export: Unsupported format: SRT".to_string()));
    assert_eq!(export_to_string(&sample(), "txt").unwrap(), export_txt(&sample()));
    assert_eq!(export_result_string("vtt", &sample()).unwrap(), export_vtt(&sample()));
}

#[test]
fn srt_times_are_vtt_times_with_commas() {
    let r = sample();
    let vtt = export_vtt(&r);
    let body = &vtt["WEBVTT\n\n".len()..];
    assert_eq!(format!("{}\n", export_srt(&r)), body.replace('.', ","));
    for ms in [0u64, 1_500, 61_250, 3_725_007] {
        assert!(export_srt(&r).contains(&format_timestamp(ms).replace('.', ",")));
    }
}

#[test]
fn lrc_times_agree_with_float_formatting_on_exact_values() {
    // Multiples of 1/8 s are exact in binary, so the float formatting rounds
    // their ties to even as the integer rule does.
    for ms in (0u64..7_200_000).step_by(125) {
        let secs = ms as f64 / 1000.0;
        let m = (secs / 60.0) as u32;
        let sec = secs % 60.0;
        assert_eq!(format_lrc_timestamp(ms), format!("[{:02}:{:05.2}]", m, sec), "{} ms", ms);
    }
}
