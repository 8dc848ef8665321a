use shrinkpub_core::Quality;

#[test]
fn ids_round_trip() {
    for q in Quality::ALL {
        assert_eq!(Quality::from_id(q.id()), Some(q));
    }
    assert_eq!(Quality::from_id("bogus"), None);
}

#[test]
fn tiers_get_monotonically_harsher() {
    for pair in Quality::ALL.windows(2) {
        assert!(pair[0].jpeg_quality() > pair[1].jpeg_quality());
        assert!(pair[0].png_quality().1 > pair[1].png_quality().1);
        let cap = |q: Quality| q.max_width().unwrap_or(u32::MAX);
        assert!(cap(pair[0]) >= cap(pair[1]));
    }
}

#[test]
fn labels_are_human_readable() {
    assert_eq!(Quality::VeryHigh.label(), "Very High");
    assert_eq!(Quality::VeryLow.label(), "Very Low");
    assert_eq!(Quality::Atrocious.label(), "Atrocious");
    assert_eq!(Quality::Medium.id(), "medium");
}

#[test]
fn tier_parameters_are_exact() {
    assert_eq!(Quality::VeryHigh.jpeg_quality(), 90);
    assert_eq!(Quality::Atrocious.jpeg_quality(), 10);
    assert_eq!(Quality::High.png_quality(), (50, 85));
    assert_eq!(Quality::Atrocious.png_quality(), (0, 15));
    assert_eq!(Quality::Medium.max_width(), None);
    assert_eq!(Quality::Low.max_width(), Some(1600));
    assert_eq!(Quality::Terrible.max_width(), Some(900));
}

#[test]
fn from_id_is_case_sensitive() {
    assert_eq!(Quality::from_id("Medium"), None);
    assert_eq!(Quality::from_id(""), None);
    assert_eq!(Quality::from_id("verylow"), Some(Quality::VeryLow));
}
