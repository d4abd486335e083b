use media_transcriber::asr::{AsrEngine, EngineType};
use media_transcriber::pipeline::{
    add_recognized, engine_label_str, finish_transcription, plan_chunks, transcribing_message, AudioChunk,
};
use media_transcriber::punct::{rule_based_punctuation, PunctConfig, PunctRestorer};
use media_transcriber::vad::{can_detect_exec, SpeechSegment, VadConfig, VadDetector};
use media_transcriber::TranscriptionSegment;

fn audio(parts: &[(usize, i16)]) -> Vec<i16> {
    let mut v = Vec::new();
    for &(n, x) in parts {
        v.extend(std::iter::repeat(x).take(n));
    }
    v
}

// Segment ends are in thousandths of a sample.
fn spans(v: &[SpeechSegment]) -> Vec<(u128, u128)> {
    v.iter().map(|s| (s.start, s.end)).collect()
}

fn in_samples(v: Vec<(u128, u128)>) -> Vec<(u128, u128)> {
    v.into_iter().map(|(a, b)| (a * 1000, b * 1000)).collect()
}

fn loaded(config: VadConfig) -> VadDetector {
    let mut d = VadDetector::new(config);
    assert!(d.load("./models/silero-vad/silero_vad.onnx").is_ok());
    d
}

#[test]
fn vad_refuses_before_load() {
    let d = VadDetector::new(VadConfig::default());
    let r = d.detect(&audio(&[(3000, 1000)]), 1000);
    assert_eq!(r.err().unwrap(), "VAD model not loaded");
}

#[test]
fn vad_default_config_values() {
    let c = VadConfig::default();
    assert_eq!(
        (c.threshold_permille, c.min_speech_ms, c.min_silence_ms, c.max_segment_ms),
        (500, 300, 500, 60000)
    );
}

#[test]
fn vad_finds_speech_between_silences() {
    // 25-sample frames at 1 kHz; the segment ends where the closing silence run
    // is counted back from the frame that ends it.
    let d = loaded(VadConfig::default());
    let s = audio(&[(1000, 0), (1000, 1000), (1000, 0)]);
    assert_eq!(spans(&d.detect(&s, 1000).unwrap()), in_samples(vec![(1000, 1975)]));
}

#[test]
fn vad_speech_running_to_the_end() {
    let d = loaded(VadConfig::default());
    let s = audio(&[(1000, 0), (2000, -1000)]);
    assert_eq!(spans(&d.detect(&s, 1000).unwrap()), in_samples(vec![(1000, 3000)]));
}

#[test]
fn vad_splits_long_segments() {
    let cfg = VadConfig { threshold_permille: 500, min_speech_ms: 300, min_silence_ms: 500, max_segment_ms: 500 };
    let d = loaded(cfg);
    let s = audio(&[(1000, 0), (2000, 1000), (1000, 0)]);
    assert_eq!(
        spans(&d.detect(&s, 1000).unwrap()),
        in_samples(vec![(1000, 1500), (1500, 2000), (2000, 2500), (2500, 2975)])
    );
}

#[test]
fn vad_silence_and_short_audio_give_nothing() {
    let d = loaded(VadConfig::default());
    assert!(d.detect(&audio(&[(5000, 0)]), 1000).unwrap().is_empty());
    assert!(d.detect(&audio(&[(24, 3000)]), 1000).unwrap().is_empty());
    assert!(d.detect(&[], 16000).unwrap().is_empty());
}

#[test]
fn vad_drops_short_bursts() {
    // 100 ms of sound is under the 300 ms minimum.
    let d = loaded(VadConfig::default());
    let s = audio(&[(1000, 0), (100, 1000), (1000, 0)]);
    assert!(d.detect(&s, 1000).unwrap().is_empty());
}

#[test]
fn vad_segments_are_ordered_and_inside_the_audio() {
    let d = loaded(VadConfig { threshold_permille: 100, min_speech_ms: 50, min_silence_ms: 100, max_segment_ms: 300 });
    let s = audio(&[(300, 0), (900, 800), (200, 0), (400, 500), (150, 0), (700, 900)]);
    let segs = d.detect(&s, 1000).unwrap();
    assert!(!segs.is_empty());
    for (k, g) in segs.iter().enumerate() {
        assert!(g.start <= g.end && g.end <= s.len() as u128 * 1000);
        if k + 1 < segs.len() {
            assert!(g.end <= segs[k + 1].start);
        }
    }
}

fn chunk_spans(v: &[AudioChunk]) -> Vec<(usize, u64, u64)> {
    v.iter().map(|c| (c.samples.len(), c.start_ms, c.end_ms)).collect()
}

#[test]
fn chunks_without_vad_cover_everything() {
    let s = audio(&[(8000, 7)]);
    let c = plan_chunks(&s, 16000, &VadConfig::default(), false);
    assert_eq!(chunk_spans(&c), vec![(8000, 0, 500)]);
    assert_eq!(c[0].samples, s);
}

#[test]
fn chunks_with_vad_get_two_seconds_of_margin() {
    let s = audio(&[(5000, 0), (1000, 1000), (5000, 0)]);
    let c = plan_chunks(&s, 1000, &VadConfig::default(), true);
    assert_eq!(chunk_spans(&c), vec![(4975, 5000, 5975)]);
    assert_eq!(c[0].samples, s[3000..7975].to_vec());
}

#[test]
fn chunks_margin_is_clipped_at_the_edges() {
    let s = audio(&[(1000, 0), (1000, 1000), (1000, 0)]);
    let c = plan_chunks(&s, 1000, &VadConfig::default(), true);
    assert_eq!(chunk_spans(&c), vec![(3000, 1000, 1975)]);
}

#[test]
fn chunks_fall_back_to_whole_audio_without_speech() {
    let s = audio(&[(3000, 0)]);
    let c = plan_chunks(&s, 1000, &VadConfig::default(), true);
    assert_eq!(chunk_spans(&c), vec![(3000, 0, 3000)]);
}

#[test]
fn chunk_time_at_zero_rate_is_unbounded() {
    let c = plan_chunks(&[1, 2, 3], 0, &VadConfig::default(), false);
    assert_eq!(chunk_spans(&c), vec![(3, 0, u64::MAX)]);
}

#[test]
fn recognized_text_is_trimmed_and_blank_text_skipped() {
    let chunk = AudioChunk { samples: vec![], start_ms: 1200, end_ms: 3400 };
    let mut segs: Vec<TranscriptionSegment> = Vec::new();
    add_recognized(&mut segs, &chunk, "  hello there \n");
    add_recognized(&mut segs, &chunk, " \t\n ");
    assert_eq!(segs.len(), 1);
    assert_eq!((segs[0].start_ms, segs[0].end_ms, segs[0].text.as_str()), (1200, 3400, "hello there"));
}

#[test]
fn finished_transcription_joins_lines() {
    let segs = vec![
        TranscriptionSegment { start_ms: 0, end_ms: 10, text: "a".to_string() },
        TranscriptionSegment { start_ms: 10, end_ms: 20, text: "b c".to_string() },
    ];
    let r = finish_transcription(segs, EngineType::Precise, 1234);
    assert_eq!(r.text, "a\nb c");
    assert_eq!(r.engine, "precise");
    assert_eq!(r.duration_ms, 1234);
    assert_eq!(r.segments.len(), 2);
    let empty = finish_transcription(Vec::new(), EngineType::Fast, 0);
    assert_eq!(empty.text, "");
    assert_eq!(empty.engine, "fast");
}

#[test]
fn engine_label_selects_the_engine_again() {
    for t in [EngineType::Fast, EngineType::Precise] {
        assert_eq!(EngineType::from_str(engine_label_str(t)), t);
    }
}

#[test]
fn progress_note_counts_from_one() {
    assert_eq!(transcribing_message(0, 3), "Transcribing... (1/3)");
    assert_eq!(transcribing_message(11, 12), "Transcribing... (12/12)");
}

#[test]
fn asr_engine_lifecycle() {
    let mut e = AsrEngine::new("./models", EngineType::Precise);
    assert!(!e.is_loaded());
    assert!(e.load().is_ok());
    assert!(e.is_loaded());
    assert_eq!(e.engine_type(), EngineType::Precise);
    assert_eq!(
        e.recognize(&[0, 1, 2]).unwrap(),
        "[ASR engine not available - enable 'asr' feature and download models]"
    );
    assert_eq!(EngineType::Fast.model_name(), "sense-voice-small");
    assert_eq!(EngineType::Precise.model_name(), "paraformer-large");
}

#[test]
fn punctuation_examples() {
    assert_eq!(rule_based_punctuation("hello world"), "Hello world.");
    assert_eq!(rule_based_punctuation("what is this"), "What is this?");
    assert_eq!(rule_based_punctuation("this is fine"), "This is fine?");
    assert_eq!(rule_based_punctuation("\u{4f60}\u{597d}\u{5417}"), "\u{4f60}\u{597d}\u{5417}\u{ff1f}");
    assert_eq!(
        rule_based_punctuation("\u{4eca}\u{5929}\u{5929}\u{6c14}\u{4e0d}\u{9519}"),
        "\u{4eca}\u{5929}\u{5929}\u{6c14}\u{4e0d}\u{9519}\u{3002}"
    );
    assert_eq!(
        rule_based_punctuation("  hi there.\n\n what now  \r\n \u{4eca}\u{5929}  "),
        "Hi there. What now? \u{4eca}\u{5929}\u{3002}"
    );
    assert_eq!(rule_based_punctuation("   \n  "), "");
    assert_eq!(rule_based_punctuation(""), "");
    assert_eq!(rule_based_punctuation("Done!"), "Done!");
    assert_eq!(rule_based_punctuation("hello  world"), "Hello. World.");
    assert_eq!(rule_based_punctuation("what now\t\tok then  \u{4f60}\u{597d}"), "What now? Ok then. \u{4f60}\u{597d}\u{3002}");
    assert_eq!(rule_based_punctuation("\u{e9}t\u{e9} one"), "\u{e9}t\u{e9} one.");
}

#[test]
fn punctuation_is_settled_after_one_pass() {
    for t in ["hello world", "what is this\nok", " a \n\n b, \n\u{4f60}\u{597d}\u{5417}", "x.\ny", ""] {
        let once = rule_based_punctuation(t);
        assert_eq!(rule_based_punctuation(&once), once);
    }
}

#[test]
fn restorer_follows_its_switch() {
    let off = PunctRestorer::new(PunctConfig::default());
    assert_eq!(off.add_punctuation("  raw text ").unwrap(), "  raw text ");
    let on = PunctRestorer::new(PunctConfig { model_path: None, enabled: true });
    assert_eq!(on.add_punctuation("  raw text ").unwrap(), "Raw text.");
    let d = PunctConfig::default();
    assert!(!d.enabled);
    assert_eq!(d.model_path.as_deref(), Some("./models/punct-ct-transformer"));
}

#[test]
fn vad_segments_respect_the_maximum_except_a_trailing_one() {
    let cfg = VadConfig { threshold_permille: 500, min_speech_ms: 100, min_silence_ms: 200, max_segment_ms: 400 };
    let d = loaded(cfg.clone());
    // Long speech closed by silence, then long speech running to the end.
    let s = audio(&[(500, 0), (1500, 1000), (500, 0), (1000, 1000)]);
    let segs = d.detect(&s, 1000).unwrap();
    assert_eq!(spans(&segs), in_samples(vec![(500, 900), (900, 1300), (1300, 1700), (1700, 1975), (2500, 3500)]));
    for (k, g) in segs.iter().enumerate() {
        let within = g.end - g.start <= cfg.max_segment_ms as u128 * 1000;
        assert!(within || (k + 1 == segs.len() && g.end == s.len() as u128 * 1000));
    }
}

#[test]
fn chunks_follow_each_other_in_time() {
    let cfg = VadConfig { threshold_permille: 500, min_speech_ms: 100, min_silence_ms: 200, max_segment_ms: 400 };
    let s = audio(&[(500, 0), (1500, 1000), (500, 0), (1000, 1000)]);
    let c = plan_chunks(&s, 1000, &cfg, true);
    assert_eq!(c.len(), 5);
    for (k, ch) in c.iter().enumerate() {
        assert!(ch.start_ms <= ch.end_ms && ch.end_ms <= 3500);
        if k + 1 < c.len() {
            assert!(ch.end_ms <= c[k + 1].start_ms);
        }
    }
    assert_eq!((c[0].start_ms, c[0].end_ms, c[0].samples.len()), (500, 900, 2900));
}

#[test]
fn punctuation_closes_every_non_blank_text() {
    let marks = ['.', '!', '?', ',', ';', ':', '\u{3002}', '\u{ff01}', '\u{ff1f}', '\u{ff0c}', '\u{ff1b}', '\u{ff1a}'];
    for t in ["hello world", "  \n\r\n x", "\u{3000}\u{4f60}\u{597d}\u{3000}", "a\n\n", "what?\nfine", "\r\nz \r\n"] {
        let p = rule_based_punctuation(t);
        assert!(!p.is_empty());
        assert!(marks.contains(&p.chars().last().unwrap()));
        assert!(!p.chars().next().unwrap().is_whitespace());
    }
    for t in ["", " ", "\n\r\n\t", "\u{3000}\u{a0}"] {
        assert_eq!(rule_based_punctuation(t), "");
    }
}

#[test]
fn vad_cuts_pieces_shorter_than_a_sample() {
    // At 40 Hz a frame is one sample; a 10 ms maximum is 0.4 of a sample.
    let cfg = VadConfig { threshold_permille: 500, min_speech_ms: 0, min_silence_ms: 0, max_segment_ms: 10 };
    let d = loaded(cfg);
    let s = vec![0i16, 100, 100, 0, 0];
    assert_eq!(spans(&d.detect(&s, 40).unwrap()), vec![(1000, 1400), (1400, 1800), (1800, 2000)]);
}

#[test]
fn vad_ignores_loudness_and_sign() {
    let d = loaded(VadConfig { threshold_permille: 100, min_speech_ms: 50, min_silence_ms: 100, max_segment_ms: 300 });
    let s = audio(&[(300, 0), (900, 800), (200, 3), (400, 500), (150, -2), (700, -900)]);
    let base = spans(&d.detect(&s, 1000).unwrap());
    let neg: Vec<i16> = s.iter().map(|x| -x).collect();
    let triple: Vec<i16> = s.iter().map(|x| x * 3).collect();
    assert_eq!(spans(&d.detect(&neg, 1000).unwrap()), base);
    assert_eq!(spans(&d.detect(&triple, 1000).unwrap()), base);
    assert!(!base.is_empty());
}

#[test]
fn detection_needs_a_frame_and_a_maximum_when_speech_is_cut() {
    let zero = VadConfig { threshold_permille: 500, min_speech_ms: 0, min_silence_ms: 0, max_segment_ms: 0 };
    assert!(can_detect_exec(&[0, 100, 100], 40, &zero));
    assert!(can_detect_exec(&[0, 100, 0, 0], 40, &zero));
    assert!(!can_detect_exec(&[0, 100, 100, 0, 0], 40, &zero));
    assert!(!can_detect_exec(&[0, 100, 100], 39, &VadConfig::default()));
    assert!(can_detect_exec(&[0, 100, 100, 0, 0], 40, &VadConfig::default()));
    // A zero maximum still works when no speech has to be cut.
    let d = loaded(zero);
    assert_eq!(spans(&d.detect(&[0, 100, 0, 0], 40).unwrap()), vec![(1000, 1000)]);
}
