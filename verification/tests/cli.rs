use shrinkpub_core::cli::parse_quality;
use shrinkpub_core::Quality;

#[test]
fn parses_all_tiers_case_insensitively() {
    assert_eq!(parse_quality("medium"), Ok(Quality::Medium));
    assert_eq!(parse_quality("VeryHigh"), Ok(Quality::VeryHigh));
    assert_eq!(parse_quality("ATROCIOUS"), Ok(Quality::Atrocious));
    assert!(parse_quality("ultra").is_err());
}

#[test]
fn unknown_tiers_list_the_choices() {
    assert_eq!(
        parse_quality("ultra"),
        Err("unknown quality tier (expected one of: veryhigh, high, medium, low, verylow, terrible, atrocious)".to_string())
    );
}
