use slot_filler::crf_utils::{
    get_scheme_prefix, get_substitution_label, is_end_of_bilou_slot, is_end_of_bio_slot,
    is_start_of_bilou_slot, is_start_of_bio_slot, tag_name_to_slot_name, tags_to_slot_ranges,
    tags_to_slots, u8_to_string, TaggingError, TaggingScheme, OUTSIDE,
};
use slot_filler::slot_utils::{IntentSlotsMapping, InternalSlot};
use slot_filler::token::Token;

fn tokenize(text: &str) -> Vec<Token> {
    let chars: Vec<char> = text.chars().collect();
    let mut tokens: Vec<Token> = Vec::new();
    let mut start: Option<usize> = None;
    for (i, c) in chars.iter().enumerate() {
        if *c == ' ' {
            if let Some(s) = start {
                tokens.push(make_token(&chars, s, i));
                start = None;
            }
        } else if start.is_none() {
            start = Some(i);
        }
    }
    if let Some(s) = start {
        tokens.push(make_token(&chars, s, chars.len()));
    }
    tokens
}

fn make_token(chars: &[char], start: usize, end: usize) -> Token {
    let value: String = chars[start..end].iter().collect();
    Token {
        normalized_value: value.to_lowercase(),
        value,
        range: start..end,
        char_range: start..end,
        entity: None,
    }
}

fn animal_mapping() -> IntentSlotsMapping {
    let mut mapping = IntentSlotsMapping::new();
    mapping.insert("animal".to_string(), "animal".to_string());
    mapping
}

fn animal_slot(value: &str, char_range: std::ops::Range<usize>) -> InternalSlot {
    InternalSlot {
        value: value.to_string(),
        entity: "animal".to_string(),
        char_range,
        slot_name: "animal".to_string(),
    }
}

fn check_case(text: &str, tags: &[&str], scheme: TaggingScheme, expected: Vec<InternalSlot>) {
    let tokens = tokenize(text);
    let tag_strings: Vec<String> = tags.iter().map(|t| t.to_string()).collect();
    let slots = tags_to_slots(text, &tokens, &tag_strings, scheme, &animal_mapping()).unwrap();
    assert_eq!(slots, expected);
}

#[test]
fn test_io_tags_to_slots() {
    check_case("", &[], TaggingScheme::IO, vec![]);
    check_case("nothing here", &[OUTSIDE, OUTSIDE], TaggingScheme::IO, vec![]);
    check_case(
        "i am a blue bird",
        &[OUTSIDE, OUTSIDE, OUTSIDE, "I-animal", "I-animal"],
        TaggingScheme::IO,
        vec![animal_slot("blue bird", 7..16)],
    );
    check_case(
        "i am a bird",
        &[OUTSIDE, OUTSIDE, OUTSIDE, "I-animal"],
        TaggingScheme::IO,
        vec![animal_slot("bird", 7..11)],
    );
    check_case("bird", &["I-animal"], TaggingScheme::IO, vec![animal_slot("bird", 0..4)]);
    check_case(
        "blue bird",
        &["I-animal", "I-animal"],
        TaggingScheme::IO,
        vec![animal_slot("blue bird", 0..9)],
    );
    check_case(
        "light blue bird blue bird",
        &["I-animal", "I-animal", "I-animal", "I-animal", "I-animal"],
        TaggingScheme::IO,
        vec![animal_slot("light blue bird blue bird", 0..25)],
    );
    check_case(
        "bird birdy",
        &["I-animal", "I-animal"],
        TaggingScheme::IO,
        vec![animal_slot("bird birdy", 0..10)],
    );
}

#[test]
fn test_bio_tags_to_slots() {
    check_case("", &[], TaggingScheme::BIO, vec![]);
    check_case("nothing here", &[OUTSIDE, OUTSIDE], TaggingScheme::BIO, vec![]);
    check_case(
        "i am a blue bird",
        &[OUTSIDE, OUTSIDE, OUTSIDE, "B-animal", "I-animal"],
        TaggingScheme::BIO,
        vec![animal_slot("blue bird", 7..16)],
    );
    check_case(
        "i am a bird",
        &[OUTSIDE, OUTSIDE, OUTSIDE, "B-animal"],
        TaggingScheme::BIO,
        vec![animal_slot("bird", 7..11)],
    );
    check_case("bird", &["B-animal"], TaggingScheme::BIO, vec![animal_slot("bird", 0..4)]);
    check_case(
        "blue bird",
        &["B-animal", "I-animal"],
        TaggingScheme::BIO,
        vec![animal_slot("blue bird", 0..9)],
    );
    check_case(
        "light blue bird blue bird",
        &["B-animal", "I-animal", "I-animal", "B-animal", "I-animal"],
        TaggingScheme::BIO,
        vec![animal_slot("light blue bird", 0..15), animal_slot("blue bird", 16..25)],
    );
    check_case(
        "bird birdy",
        &["B-animal", "B-animal"],
        TaggingScheme::BIO,
        vec![animal_slot("bird", 0..4), animal_slot("birdy", 5..10)],
    );
    check_case(
        "blue bird and white bird",
        &["B-animal", "I-animal", OUTSIDE, "I-animal", "I-animal"],
        TaggingScheme::BIO,
        vec![animal_slot("blue bird", 0..9), animal_slot("white bird", 14..24)],
    );
}

#[test]
fn test_bilou_tags_to_slots() {
    check_case("", &[], TaggingScheme::BILOU, vec![]);
    check_case("nothing here", &[OUTSIDE, OUTSIDE], TaggingScheme::BILOU, vec![]);
    check_case(
        "i am a blue bird",
        &[OUTSIDE, OUTSIDE, OUTSIDE, "B-animal", "L-animal"],
        TaggingScheme::BILOU,
        vec![animal_slot("blue bird", 7..16)],
    );
    check_case(
        "i am a bird",
        &[OUTSIDE, OUTSIDE, OUTSIDE, "U-animal"],
        TaggingScheme::BILOU,
        vec![animal_slot("bird", 7..11)],
    );
    check_case("bird", &["U-animal"], TaggingScheme::BILOU, vec![animal_slot("bird", 0..4)]);
    check_case(
        "blue bird",
        &["B-animal", "L-animal"],
        TaggingScheme::BILOU,
        vec![animal_slot("blue bird", 0..9)],
    );
    check_case(
        "light blue bird blue bird",
        &["B-animal", "I-animal", "L-animal", "B-animal", "L-animal"],
        TaggingScheme::BILOU,
        vec![animal_slot("light blue bird", 0..15), animal_slot("blue bird", 16..25)],
    );
    check_case(
        "bird birdy",
        &["U-animal", "U-animal"],
        TaggingScheme::BILOU,
        vec![animal_slot("bird", 0..4), animal_slot("birdy", 5..10)],
    );
    check_case(
        "light bird bird blue bird",
        &["B-animal", "I-animal", "U-animal", "B-animal", "I-animal"],
        TaggingScheme::BILOU,
        vec![
            animal_slot("light bird", 0..10),
            animal_slot("bird", 11..15),
            animal_slot("blue bird", 16..25),
        ],
    );
    check_case(
        "bird bird bird",
        &["L-animal", "B-animal", "U-animal"],
        TaggingScheme::BILOU,
        vec![
            animal_slot("bird", 0..4),
            animal_slot("bird", 5..9),
            animal_slot("bird", 10..14),
        ],
    );
}

#[test]
fn test_is_start_of_bio_slot() {
    let tags: Vec<String> = vec![
        OUTSIDE, "B-", "I-", OUTSIDE, "I-", OUTSIDE, "B-", OUTSIDE, "I-", "B-", OUTSIDE, "B-",
        "B-", "I-", "I-",
    ]
    .iter()
    .map(|t| t.to_string())
    .collect();

    let starts_of_bio: Vec<bool> =
        (0..tags.len()).map(|i| is_start_of_bio_slot(&tags, i)).collect();

    let expected_starts = [
        false, true, false, false, true, false, true, false, true, true, false, true, true, false,
        false,
    ];
    assert_eq!(starts_of_bio, expected_starts);
}

#[test]
fn test_is_end_of_bio_slot() {
    let tags: Vec<String> = vec![
        OUTSIDE, "B-", "I-", OUTSIDE, "I-", OUTSIDE, "B-", OUTSIDE, "I-", "B-", OUTSIDE, "B-",
        "B-", "I-", "I-",
    ]
    .iter()
    .map(|t| t.to_string())
    .collect();

    let ends_of_bio: Vec<bool> = (0..tags.len()).map(|i| is_end_of_bio_slot(&tags, i)).collect();

    let expected_ends = [
        false, false, true, false, true, false, true, false, true, true, false, true, false,
        false, true,
    ];
    assert_eq!(ends_of_bio, expected_ends);
}

#[test]
fn test_start_of_bilou_slot() {
    let tags: Vec<String> = vec![
        OUTSIDE, "L-", "U-", "B-", "U-", "I-", "L-", "L-", "U-", "U-", "L-", OUTSIDE, "L-", "B-",
        "I-", "I-", "L-",
    ]
    .iter()
    .map(|t| t.to_string())
    .collect();

    let starts_of_bilou: Vec<bool> =
        (0..tags.len()).map(|i| is_start_of_bilou_slot(&tags, i)).collect();

    let expected_starts = [
        false, true, true, true, true, true, false, true, true, true, true, false, true, true,
        false, false, false,
    ];
    assert_eq!(starts_of_bilou, expected_starts);
}

#[test]
fn test_is_end_of_bilou_slot() {
    let tags: Vec<String> = vec![
        OUTSIDE, "L-", "U-", "B-", "U-", "I-", "L-", "L-", "U-", "U-", "L-", OUTSIDE, "I-", "B-",
        OUTSIDE, "B-", "I-", "I-", "L-",
    ]
    .iter()
    .map(|t| t.to_string())
    .collect();

    let ends_of_bilou: Vec<bool> =
        (0..tags.len()).map(|i| is_end_of_bilou_slot(&tags, i)).collect();

    let expected_ends = [
        false, true, true, true, true, false, true, true, true, true, true, false, true, true,
        false, false, false, false, true,
    ];
    assert_eq!(ends_of_bilou, expected_ends);
}

#[test]
fn tests_get_scheme_prefix() {
    let indexes: Vec<usize> = vec![3, 4, 5];

    let actual_results: Vec<String> = vec![
        get_scheme_prefix(5, &indexes, TaggingScheme::IO).to_string(),
        get_scheme_prefix(3, &indexes, TaggingScheme::BIO).to_string(),
        get_scheme_prefix(4, &indexes, TaggingScheme::BIO).to_string(),
        get_scheme_prefix(3, &indexes, TaggingScheme::BILOU).to_string(),
        get_scheme_prefix(4, &indexes, TaggingScheme::BILOU).to_string(),
        get_scheme_prefix(5, &indexes, TaggingScheme::BILOU).to_string(),
        get_scheme_prefix(1, &[1], TaggingScheme::BILOU).to_string(),
    ];

    let expected_results: Vec<String> = vec![
        "I-".to_string(),
        "B-".to_string(),
        "I-".to_string(),
        "B-".to_string(),
        "I-".to_string(),
        "L-".to_string(),
        "U-".to_string(),
    ];
    assert_eq!(actual_results, expected_results);
}

#[test]
fn from_u8_accepts_the_three_codes_and_rejects_the_rest() {
    assert_eq!(TaggingScheme::from_u8(0), Ok(TaggingScheme::IO));
    assert_eq!(TaggingScheme::from_u8(1), Ok(TaggingScheme::BIO));
    assert_eq!(TaggingScheme::from_u8(2), Ok(TaggingScheme::BILOU));
    assert_eq!(
        TaggingScheme::from_u8(3),
        Err(TaggingError::InvalidSchemeIdentifier(3))
    );
    assert_eq!(
        TaggingScheme::from_u8(255),
        Err(TaggingError::InvalidSchemeIdentifier(255))
    );
    let err = TaggingScheme::from_u8(255).unwrap_err();
    assert_eq!(err.message(), "Unknown tagging scheme identifier: 255");
}

#[test]
fn substitution_label_prefers_the_outside_marker() {
    assert_eq!(get_substitution_label(&["B-animal", "O", "I-animal"]), "O");
    assert_eq!(get_substitution_label(&["B-animal", "I-animal"]), "B-animal");
    assert_eq!(get_substitution_label(&["O"]), "O");
}

#[test]
fn tag_name_to_slot_name_strips_the_prefix() {
    assert_eq!(tag_name_to_slot_name("B-animal".to_string()), "animal");
    assert_eq!(tag_name_to_slot_name("I-animal".to_string()), "animal");
    assert_eq!(tag_name_to_slot_name("O".to_string()), "");
    assert_eq!(tag_name_to_slot_name("U-".to_string()), "");
}

#[test]
fn decoding_twice_yields_identical_slot_lists() {
    let text = "light blue bird blue bird";
    let tokens = tokenize(text);
    let tags: Vec<String> = vec!["B-animal", "I-animal", "L-animal", "B-animal", "L-animal"]
        .iter()
        .map(|t| t.to_string())
        .collect();
    let mapping = animal_mapping();
    let first = tags_to_slots(text, &tokens, &tags, TaggingScheme::BILOU, &mapping).unwrap();
    let second = tags_to_slots(text, &tokens, &tags, TaggingScheme::BILOU, &mapping).unwrap();
    assert_eq!(first, second);
}

#[test]
fn empty_and_all_outside_tags_decode_to_no_slots() {
    for scheme in [TaggingScheme::IO, TaggingScheme::BIO, TaggingScheme::BILOU] {
        check_case("", &[], scheme, vec![]);
        check_case("nothing here at all", &[OUTSIDE, OUTSIDE, OUTSIDE, OUTSIDE], scheme, vec![]);
    }
}

#[test]
fn encoding_then_decoding_recovers_the_annotated_span() {
    let text = "light blue bird";
    let span_indexes: Vec<usize> = vec![3, 4, 5];
    for scheme in [TaggingScheme::IO, TaggingScheme::BIO, TaggingScheme::BILOU] {
        let tokens = tokenize(text);
        let tags: Vec<String> = span_indexes
            .iter()
            .map(|i| format!("{}{}", get_scheme_prefix(*i, &span_indexes, scheme), "animal"))
            .collect();
        let slots = tags_to_slots(text, &tokens, &tags, scheme, &animal_mapping()).unwrap();
        assert_eq!(slots, vec![animal_slot("light blue bird", 0..15)]);
    }
}

#[test]
fn missing_mapping_reports_the_first_unresolved_slot() {
    let text = "blue bird";
    let tokens = tokenize(text);
    let tags: Vec<String> = vec!["B-color".to_string(), "B-animal".to_string()];
    let err =
        tags_to_slots(text, &tokens, &tags, TaggingScheme::BIO, &animal_mapping()).unwrap_err();
    assert_eq!(err, TaggingError::MissingSlotEntityMapping("color".to_string()));
    assert_eq!(err.message(), "Missing slot to entity mapping for slot name: color");
}

#[test]
fn slot_ranges_carry_byte_and_char_ranges() {
    let text = "i am a blue bird";
    let tokens = tokenize(text);
    let tags: Vec<String> = vec![
        OUTSIDE.to_string(),
        OUTSIDE.to_string(),
        OUTSIDE.to_string(),
        "B-animal".to_string(),
        "I-animal".to_string(),
    ];
    let ranges = tags_to_slot_ranges(&tokens, &tags, TaggingScheme::BIO);
    assert_eq!(ranges.len(), 1);
    assert_eq!(ranges[0].slot_name, "animal");
    assert_eq!(ranges[0].range, 7..16);
    assert_eq!(ranges[0].char_range, 7..16);
}

#[test]
fn mapping_lookup_follows_the_latest_insertion() {
    let mut mapping = IntentSlotsMapping::new();
    assert!(mapping.get("animal").is_none());
    mapping.insert("animal".to_string(), "beast".to_string());
    mapping.insert("color".to_string(), "color".to_string());
    mapping.insert("animal".to_string(), "animal".to_string());
    assert_eq!(mapping.get("animal"), Some(&"animal".to_string()));
    assert_eq!(mapping.get("color"), Some(&"color".to_string()));
    assert!(mapping.get("city").is_none());
}

#[test]
fn bytes_print_in_decimal() {
    assert_eq!(u8_to_string(0), "0");
    assert_eq!(u8_to_string(7), "7");
    assert_eq!(u8_to_string(10), "10");
    assert_eq!(u8_to_string(42), "42");
    assert_eq!(u8_to_string(100), "100");
    assert_eq!(u8_to_string(255), "255");
}
