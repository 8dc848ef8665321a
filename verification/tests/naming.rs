use shrinkpub_core::paths::{
    after_attempt, file_name, has_epub_extension, output_file_name, output_stem, ClaimOutcome,
    ClaimStep,
};

#[test]
fn epub_extension_helper() {
    assert!(has_epub_extension("a/b/Book.epub"));
    assert!(has_epub_extension("BOOK.EPUB"));
    assert!(!has_epub_extension("archive.zip"));
    assert!(!has_epub_extension("epub"));
}

#[test]
fn epub_extension_follows_path_rules() {
    assert!(!has_epub_extension(".epub"));
    assert!(has_epub_extension("..epub"));
    assert!(has_epub_extension("dir/Book.ePub/"));
    assert!(has_epub_extension("dir/Book.epub/."));
    assert!(!has_epub_extension("dir/Book.epub/.."));
    assert!(!has_epub_extension("Book.epub.zip"));
    assert!(!has_epub_extension(""));
    assert!(!has_epub_extension("/"));
}

#[test]
fn file_names_follow_path_rules() {
    assert_eq!(file_name("a/b/Book.epub").as_deref(), Some("Book.epub"));
    assert_eq!(file_name("a/b/").as_deref(), Some("b"));
    assert_eq!(file_name("a/./").as_deref(), Some("a"));
    assert_eq!(file_name("a/.."), None);
    assert_eq!(file_name("."), None);
    assert_eq!(file_name("Livre é.epub").as_deref(), Some("Livre é.epub"));
}

/// Claims names the way the output file is claimed, with `taken` standing
/// for the files that already exist.
fn claim(stem: &str, taken: &[String]) -> Option<String> {
    let mut attempt = 1;
    loop {
        let name = output_file_name(stem, attempt);
        let outcome = if taken.contains(&name) {
            ClaimOutcome::AlreadyExists
        } else {
            ClaimOutcome::Created
        };
        match after_attempt(attempt, outcome) {
            ClaimStep::Claimed => return Some(name),
            ClaimStep::Retry(next) => attempt = next,
            ClaimStep::Exhausted | ClaimStep::Failed => return None,
        }
    }
}

#[test]
fn collisions_get_numbered_suffixes() {
    let stem = output_stem(Some("Book.epub"));
    let mut taken = Vec::new();
    let first = claim(&stem, &taken).unwrap();
    taken.push(first.clone());
    let second = claim(&stem, &taken).unwrap();
    taken.push(second.clone());
    let third = claim(&stem, &taken).unwrap();

    assert_eq!(first, "Book (shrunk).epub");
    assert_eq!(second, "Book (shrunk 2).epub");
    assert_eq!(third, "Book (shrunk 3).epub");
}

#[test]
fn output_stems_fall_back_to_book() {
    assert_eq!(output_stem(Some("Fixture.epub")), "Fixture");
    assert_eq!(output_stem(Some("a.b.epub")), "a.b");
    assert_eq!(output_stem(Some(".epub")), ".epub");
    assert_eq!(output_stem(Some("noext")), "noext");
    assert_eq!(output_stem(Some("")), "book");
    assert_eq!(output_stem(None), "book");
}

#[test]
fn claiming_stops_after_the_last_attempt() {
    assert_eq!(after_attempt(1, ClaimOutcome::Created), ClaimStep::Claimed);
    assert_eq!(after_attempt(5, ClaimOutcome::Failed), ClaimStep::Failed);
    assert_eq!(after_attempt(9998, ClaimOutcome::AlreadyExists), ClaimStep::Retry(9999));
    assert_eq!(after_attempt(9999, ClaimOutcome::AlreadyExists), ClaimStep::Exhausted);
    assert_eq!(output_file_name("X", 9999), "X (shrunk 9999).epub");
}
