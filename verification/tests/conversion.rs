use csurename::change_naming_convention;
use csurename::ConversionError;

fn convert(name: &str, convention: &str) -> String {
    change_naming_convention(name, convention).expect("conversion should succeed")
}

#[test]
fn snake_case_leaves_conforming_name_unchanged() {
    assert_eq!(convert("file.txt", "snake_case"), "file.txt");
}

#[test]
fn snake_case_splits_camel_humps() {
    assert_eq!(convert("iLikeToFly.txt", "snake_case"), "i_like_to_fly.txt");
}

#[test]
fn dotfile_shape_is_preserved_by_every_convention() {
    let conventions = [
        "camelCase",
        "kebab-case",
        "lower case",
        "PascalCase",
        "SCREAMING_SNAKE_CASE",
        "Sentence case",
        "snake_case",
        "Title Case",
        "Train-Case",
    ];
    for convention in conventions {
        assert_eq!(convert(".gitignore", convention), ".gitignore");
    }
}

#[test]
fn split_happens_on_last_dot_only() {
    assert_eq!(convert("archive.tar.gz", "snake_case"), "archive_tar.gz");
    assert_eq!(convert("archive.tar.gz", "kebab-case"), "archive-tar.gz");
    assert_eq!(convert("archive.tar.gz", "PascalCase"), "ArchiveTar.gz");
}

#[test]
fn each_convention_converts_a_mixed_name() {
    let name = "some_mixed-case File.txt";
    assert_eq!(convert(name, "camelCase"), "someMixedCaseFile.txt");
    assert_eq!(convert(name, "kebab-case"), "some-mixed-case-file.txt");
    assert_eq!(convert(name, "lower case"), "some_mixed-case file.txt");
    assert_eq!(convert(name, "PascalCase"), "SomeMixedCaseFile.txt");
    assert_eq!(convert(name, "SCREAMING_SNAKE_CASE"), "SOME_MIXED_CASE_FILE.txt");
    assert_eq!(convert(name, "Sentence case"), "Some mixed case file.txt");
    assert_eq!(convert(name, "snake_case"), "some_mixed_case_file.txt");
    assert_eq!(convert(name, "Title Case"), "Some Mixed Case File.txt");
    assert_eq!(convert(name, "Train-Case"), "Some-Mixed-Case-File.txt");
}

#[test]
fn extension_is_never_invented_or_dropped() {
    assert_eq!(convert("README", "lower case"), "readme");
    assert_eq!(convert("MyNotes", "snake_case"), "my_notes");
    assert_eq!(convert("my_notes", "PascalCase"), "MyNotes");
}

#[test]
fn trailing_dot_means_empty_extension() {
    // "file." splits into stem "file" and an empty extension.
    assert_eq!(convert("file.", "snake_case"), "file");
}

#[test]
fn stem_of_only_separators_collapses_to_a_dot() {
    assert_eq!(convert("---", "snake_case"), ".");
    assert_eq!(convert("-_-.txt", "snake_case"), ".txt");
    assert_eq!(convert("", "kebab-case"), ".");
}

#[test]
fn digit_letter_transitions_are_word_boundaries() {
    assert_eq!(convert("file2Txt", "snake_case"), "file_2_txt");
    assert_eq!(convert("mp3Player.app", "kebab-case"), "mp-3-player.app");
}

#[test]
fn lower_case_keeps_structure_and_only_lowers() {
    assert_eq!(convert("My-Weird_Name.TXT", "lower case"), "my-weird_name.TXT");
    assert_eq!(convert("iLikeToFly.txt", "lower case"), "iliketofly.txt");
}

#[test]
fn unknown_convention_is_rejected() {
    let r = change_naming_convention("file.txt", "bogus_case");
    assert_eq!(r, Err(ConversionError::UnknownConvention));
    assert_eq!(
        ConversionError::UnknownConvention.message(),
        "naming convention not found"
    );
}

#[test]
fn invalid_encoding_error_has_its_own_message() {
    assert_eq!(
        ConversionError::InvalidEncoding.message(),
        "couldn't convert file name to valid Unicode"
    );
    assert_ne!(
        ConversionError::InvalidEncoding,
        ConversionError::UnknownConvention
    );
}

#[test]
fn converting_twice_changes_nothing() {
    let conventions = [
        "camelCase",
        "kebab-case",
        "lower case",
        "PascalCase",
        "SCREAMING_SNAKE_CASE",
        "Sentence case",
        "snake_case",
        "Title Case",
        "Train-Case",
    ];
    for convention in conventions {
        let once = convert("some_mixed-case File.txt", convention);
        let twice = convert(&once, convention);
        assert_eq!(twice, once, "not idempotent under {convention}");
    }
}

#[test]
fn screaming_snake_case_is_idempotent() {
    // An uppercase run stays one word, so the all-caps output re-splits
    // into the same words it was joined from.
    let once = convert("iLikeToFly.txt", "SCREAMING_SNAKE_CASE");
    assert_eq!(once, "I_LIKE_TO_FLY.txt");
    assert_eq!(convert(&once, "SCREAMING_SNAKE_CASE"), once);

    let digits = convert("a_b2c.txt", "SCREAMING_SNAKE_CASE");
    assert_eq!(digits, "A_B_2_C.txt");
    assert_eq!(convert(&digits, "SCREAMING_SNAKE_CASE"), digits);
}

#[test]
fn round_trip_recovers_the_first_conversion() {
    let snake = convert("iLikeToFly.txt", "snake_case");
    let kebab = convert(&snake, "kebab-case");
    let back = convert(&kebab, "snake_case");
    assert_eq!(back, snake);

    let title = convert("some_mixed-case File.txt", "Title Case");
    let train = convert(&title, "Train-Case");
    let again = convert(&train, "Title Case");
    assert_eq!(again, title);

    let camel = convert("iLikeToFly.txt", "camelCase");
    let snake2 = convert(&camel, "snake_case");
    let camel2 = convert(&snake2, "camelCase");
    assert_eq!(camel2, camel);

    let plain = convert("ab.txt", "snake_case");
    let screaming = convert(&plain, "SCREAMING_SNAKE_CASE");
    assert_eq!(screaming, "AB.txt");
    assert_eq!(convert(&screaming, "snake_case"), plain);
}

#[test]
fn non_ascii_characters_pass_through_unchanged() {
    assert_eq!(convert("caféMenu.txt", "snake_case"), "café_menu.txt");
}
