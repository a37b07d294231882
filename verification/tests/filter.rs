use mule_cli::filter::{Filter, FilterParseError};

const ZERO_KEY_TEXT: &str = "11111111111111111111111111111111";

#[test]
fn all_filter_parses_with_and_without_tail() {
    assert_eq!(Filter::parse("a"), Ok(Filter::All));
    assert_eq!(Filter::parse("a:whatever"), Ok(Filter::All));
}

#[test]
fn group_filter_decodes_its_base58_key() {
    let text = format!("g:{ZERO_KEY_TEXT}");
    assert_eq!(Filter::parse(&text), Ok(Filter::Group { group_id: [0u8; 32] }));
}

#[test]
fn group_filter_reads_only_the_second_segment() {
    let text = format!("g:{ZERO_KEY_TEXT}:trailing");
    assert_eq!(Filter::parse(&text), Ok(Filter::Group { group_id: [0u8; 32] }));
}

#[test]
fn group_filter_without_key_is_rejected() {
    assert_eq!(Filter::parse("g"), Err(FilterParseError::MissingKey));
}

#[test]
fn group_filter_with_bad_key_is_rejected() {
    assert_eq!(Filter::parse("g:"), Err(FilterParseError::InvalidKey));
    assert_eq!(Filter::parse("g:notakey"), Err(FilterParseError::InvalidKey));
    assert_eq!(Filter::parse("g:0OIl"), Err(FilterParseError::InvalidKey));
}

#[test]
fn unknown_filter_kinds_are_rejected() {
    assert_eq!(Filter::parse(""), Err(FilterParseError::UnknownKind));
    assert_eq!(Filter::parse("x:abc"), Err(FilterParseError::UnknownKind));
    assert_eq!(Filter::parse("gg:abc"), Err(FilterParseError::UnknownKind));
    assert_eq!(Filter::parse(":abc"), Err(FilterParseError::UnknownKind));
}

#[test]
fn default_filter_accepts_everything() {
    assert_eq!(Filter::default(), Filter::All);
}

#[test]
fn filter_text_round_trips_through_parse() {
    let all = Filter::All;
    assert_eq!(all.to_text(), "a");
    assert_eq!(Filter::parse(&all.to_text()), Ok(all));

    let group = Filter::Group { group_id: [0u8; 32] };
    assert_eq!(group.to_text(), format!("g:{ZERO_KEY_TEXT}"));
    assert_eq!(Filter::parse(&group.to_text()), Ok(group));
}

#[test]
fn creator_filter_text_uses_its_own_kind() {
    let creator = Filter::Creator { creator_id: [0u8; 32] };
    assert_eq!(creator.to_text(), format!("c:{ZERO_KEY_TEXT}"));
}

#[test]
fn group_text_round_trips_for_a_nonzero_key() {
    let mut key = [0u8; 32];
    for (i, byte) in key.iter_mut().enumerate() {
        *byte = i as u8;
    }
    let group = Filter::Group { group_id: key };
    let text = group.to_text();
    assert_eq!(Filter::parse(&text), Ok(group));
}
