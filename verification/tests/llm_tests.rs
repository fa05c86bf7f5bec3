use mentisdb::kinds::ThoughtType;
use mentisdb::llm::{parse_thought_type, validate_and_transform_thoughts, LlmExtractionError, RawExtractedThought};
use mentisdb::model::Score;

/// The rank of a single-precision value, as the library carries scores.
fn score_of(value: f32) -> Score {
    if value.is_nan() {
        return Score { rank: None };
    }
    let bits = value.to_bits();
    if bits >> 31 == 0 {
        Score { rank: Some(bits as i32) }
    } else {
        Score { rank: Some(-((bits & 0x7fff_ffff) as i32)) }
    }
}

fn raw(thought_type: &str, content: &str, importance: Option<f32>, confidence: Option<f32>) -> RawExtractedThought {
    RawExtractedThought {
        thought_type: thought_type.to_string(),
        content: content.to_string(),
        importance: importance.map(score_of),
        confidence: confidence.map(score_of),
        tags: None,
        concepts: None,
    }
}

#[test]
fn test_parse_thought_type_valid() {
    assert!(parse_thought_type("Decision").is_ok());
    assert!(parse_thought_type(" PreferenceUpdate ").is_ok());
}

#[test]
fn test_parse_thought_type_invalid() {
    assert!(parse_thought_type("InvalidType").is_err());
    assert!(parse_thought_type("").is_err());
}

#[test]
fn test_validate_and_transform_empty() {
    let result = validate_and_transform_thoughts(vec![]);
    assert!(result.is_ok());
    assert!(result.unwrap().is_empty());
}

#[test]
fn test_validate_and_transform_valid() {
    let raw_thoughts = vec![RawExtractedThought {
        thought_type: "Decision".to_string(),
        content: "User prefers dark mode.".to_string(),
        importance: Some(score_of(0.8)),
        confidence: Some(score_of(0.9)),
        tags: Some(vec!["ui".to_string()]),
        concepts: Some(vec!["dark-mode".to_string()]),
    }];

    let result = validate_and_transform_thoughts(raw_thoughts).unwrap();
    assert_eq!(result.len(), 1);
    assert_eq!(result[0].thought_type, ThoughtType::Decision);
    assert_eq!(result[0].importance, score_of(0.8));
    assert_eq!(result[0].confidence, Some(score_of(0.9)));
}

#[test]
fn test_validate_and_transform_invalid_type() {
    let raw_thoughts = vec![raw("NotARealType", "Something.", None, None)];
    assert!(validate_and_transform_thoughts(raw_thoughts).is_err());
}

#[test]
fn test_validate_and_transform_empty_content() {
    let raw_thoughts = vec![raw("Decision", "   ", None, None)];
    assert!(validate_and_transform_thoughts(raw_thoughts).is_err());
}

#[test]
fn test_importance_clamping() {
    let raw_thoughts = vec![
        raw("Finding", "Test 1.", Some(1.5), None),
        raw("Finding", "Test 2.", Some(-0.5), None),
    ];
    let result = validate_and_transform_thoughts(raw_thoughts).unwrap();
    assert_eq!(result[0].importance, score_of(1.0));
    assert_eq!(result[1].importance, score_of(0.0));
}

#[test]
fn parse_thought_type_is_case_and_punctuation_insensitive() {
    assert_eq!(parse_thought_type("lesson_learned").unwrap(), ThoughtType::LessonLearned);
    assert_eq!(parse_thought_type("FACT-LEARNED").unwrap(), ThoughtType::FactLearned);
}

#[test]
fn validate_reports_the_first_bad_proposal_with_its_index() {
    let raw_thoughts = vec![
        raw("Decision", "fine", None, None),
        raw("Decision", " ", None, None),
        raw("Bogus", "x", None, None),
    ];
    match validate_and_transform_thoughts(raw_thoughts) {
        Err(LlmExtractionError::SchemaMismatch(m)) => assert!(m.contains("index 1"), "{}", m),
        _ => panic!("expected a schema mismatch"),
    }
}

#[test]
fn validate_defaults_missing_importance_to_one_half() {
    let result = validate_and_transform_thoughts(vec![raw("Idea", "try caching", None, None)]).unwrap();
    assert_eq!(result[0].importance, score_of(0.5));
    assert_eq!(result[0].confidence, Some(score_of(0.5)));
}
