use mule_cli::fees::{get_priority_fee, InvalidPriority, Priority};

#[test]
fn fee_table_is_fixed() {
    assert_eq!(get_priority_fee(&Priority::NoPriority), 1_000);
    assert_eq!(get_priority_fee(&Priority::Low), 50_000);
    assert_eq!(get_priority_fee(&Priority::Medium), 200_000);
    assert_eq!(get_priority_fee(&Priority::High), 1_000_000);
    assert_eq!(get_priority_fee(&Priority::Max), 2_000_000);
}

#[test]
fn default_priority_is_low() {
    assert_eq!(Priority::default(), Priority::Low);
}

#[test]
fn parse_priority_accepts_every_tier() {
    assert_eq!(Priority::parse("none"), Ok(Priority::NoPriority));
    assert_eq!(Priority::parse("low"), Ok(Priority::Low));
    assert_eq!(Priority::parse("medium"), Ok(Priority::Medium));
    assert_eq!(Priority::parse("high"), Ok(Priority::High));
    assert_eq!(Priority::parse("max"), Ok(Priority::Max));
}

#[test]
fn parse_priority_ignores_ascii_case() {
    assert_eq!(Priority::parse("Medium"), Ok(Priority::Medium));
    assert_eq!(Priority::parse("HIGH"), Ok(Priority::High));
    assert_eq!(Priority::parse("mAx"), Ok(Priority::Max));
}

#[test]
fn parse_priority_rejects_unknown_names() {
    assert_eq!(Priority::parse(""), Err(InvalidPriority));
    assert_eq!(Priority::parse("urgent"), Err(InvalidPriority));
    assert_eq!(Priority::parse("lowest"), Err(InvalidPriority));
    assert_eq!(Priority::parse("mediu"), Err(InvalidPriority));
}

#[test]
fn priority_labels() {
    assert_eq!(Priority::NoPriority.label(), "None");
    assert_eq!(Priority::Low.label(), "Low");
    assert_eq!(Priority::Medium.label(), "Medium");
    assert_eq!(Priority::High.label(), "High");
    assert_eq!(Priority::Max.label(), "Max");
}
