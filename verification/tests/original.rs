use media_transcriber::asr::EngineType;
use media_transcriber::punct::{contains_chinese, is_question, rule_based_punctuation};

#[test]
fn test_engine_type_from_str() {
    assert_eq!(EngineType::from_str("fast"), EngineType::Fast);
    assert_eq!(EngineType::from_str("precise"), EngineType::Precise);
    assert_eq!(EngineType::from_str("unknown"), EngineType::Fast);
}

#[test]
fn test_rule_based_punctuation_adds_period() {
    let result = rule_based_punctuation("hello world");
    assert!(result.ends_with('.'));
}

#[test]
fn test_is_question_english() {
    assert!(is_question("what is this"));
    assert!(is_question("how do you do"));
    assert!(!is_question("hello world"));
}

#[test]
fn test_is_question_chinese() {
    assert!(is_question("\u{4f60}\u{597d}\u{5417}"));
    assert!(is_question("\u{8fd9}\u{662f}\u{4ec0}\u{4e48}"));
    assert!(!is_question("\u{4eca}\u{5929}\u{5929}\u{6c14}\u{4e0d}\u{9519}"));
}

#[test]
fn test_contains_chinese() {
    assert!(contains_chinese("\u{4f60}\u{597d}\u{4e16}\u{754c}"));
    assert!(!contains_chinese("hello world"));
    assert!(contains_chinese("hello \u{4e16}\u{754c}"));
}
