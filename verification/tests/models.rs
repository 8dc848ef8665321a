use shrinkpub_core::models::{
    describe_path, get_system_colors, quality_tier, rgb_to_hex, should_emit_progress, theme_colors,
};
use shrinkpub_core::Quality;

#[test]
fn colors_render_as_upper_hex() {
    assert_eq!(rgb_to_hex((0, 122, 255)), "#007AFF");
    assert_eq!(rgb_to_hex((255, 255, 255)), "#FFFFFF");
    assert_eq!(rgb_to_hex((0, 0, 0)), "#000000");
}

#[test]
fn platforms_without_accent_colors_report_none() {
    let colors = get_system_colors();
    assert!(colors.accent_color.is_none());
    assert!(colors.accent_text_color.is_none());
    assert!(colors.highlight_color.is_none());
    assert!(colors.highlight_text_color.is_none());
}

#[test]
fn paths_are_described() {
    let info = describe_path("/books/Novel.EPUB".to_string(), Some((false, 1234)));
    assert_eq!(info.name, "Novel.EPUB");
    assert_eq!(info.size_bytes, 1234);
    assert!(!info.is_dir);
    assert!(info.is_epub);

    let dir = describe_path("/books/shelf.epub/".to_string(), Some((true, 4096)));
    assert_eq!(dir.name, "shelf.epub");
    assert!(dir.is_dir);
    assert!(!dir.is_epub);

    let missing = describe_path("/".to_string(), None);
    assert_eq!(missing.name, "/");
    assert_eq!(missing.size_bytes, 0);
    assert!(!missing.is_epub);
}

#[test]
fn progress_events_are_rate_limited() {
    assert!(should_emit_progress(0, 10, Some(0)));
    assert!(should_emit_progress(9, 10, Some(0)));
    assert!(should_emit_progress(4, 10, None));
    assert!(!should_emit_progress(4, 10, Some(59_999_999)));
    assert!(should_emit_progress(4, 10, Some(60_000_000)));
}

#[test]
fn front_end_tiers_are_read_exactly() {
    assert!(matches!(quality_tier("low"), Ok(Quality::Low)));
    assert!(matches!(quality_tier("atrocious"), Ok(Quality::Atrocious)));
    match quality_tier("Low") {
        Err(message) => assert_eq!(message, "Unknown quality tier \"Low\""),
        Ok(_) => panic!("tier ids are case-sensitive"),
    }
}

#[test]
fn theme_colours_fall_back_in_order() {
    let colors = theme_colors(None, None, None, None, |_: (u8, u8, u8)| false);
    assert_eq!(colors.accent_color.as_deref(), Some("#007AFF"));
    assert_eq!(colors.highlight_color.as_deref(), Some("#007AFF"));
    assert_eq!(colors.accent_text_color.as_deref(), Some("#FFFFFF"));
    assert_eq!(colors.highlight_text_color.as_deref(), Some("#FFFFFF"));

    let colors = theme_colors(
        Some((1, 2, 3)),
        None,
        Some((10, 10, 10)),
        None,
        |_: (u8, u8, u8)| true,
    );
    assert_eq!(colors.accent_color.as_deref(), Some("#010203"));
    assert_eq!(colors.highlight_color.as_deref(), Some("#010203"));
    assert_eq!(colors.accent_text_color.as_deref(), Some("#0A0A0A"));
    assert_eq!(colors.highlight_text_color.as_deref(), Some("#0A0A0A"));

    let colors = theme_colors(
        Some((200, 200, 200)),
        Some((250, 250, 250)),
        None,
        Some((1, 1, 1)),
        |(r, _, _): (u8, u8, u8)| r > 128,
    );
    assert_eq!(colors.highlight_color.as_deref(), Some("#FAFAFA"));
    assert_eq!(colors.accent_text_color.as_deref(), Some("#000000"));
    assert_eq!(colors.highlight_text_color.as_deref(), Some("#010101"));
}
