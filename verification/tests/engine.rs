use csurename::convert::{apply_convention, parse_convention};
use csurename::plan_rename;
use csurename::translate_line;
use csurename::walk::{entry_is_candidate, max_walk_depth, within_depth};
use csurename::Config;
use csurename::ConversionError;
use csurename::NamingConvention;
use csurename::RenameStats;

#[test]
fn text_mode_reuses_the_filename_conversion() {
    assert_eq!(
        translate_line("Reading a book.txt", "kebab-case"),
        Ok(String::from("reading-a-book.txt"))
    );
    assert_eq!(
        translate_line("no dots here", "snake_case"),
        Ok(String::from("no_dots_here"))
    );
    assert_eq!(
        translate_line("whatever", "not a convention"),
        Err(ConversionError::UnknownConvention)
    );
}

#[test]
fn conventions_parse_by_name_and_apply_directly() {
    assert_eq!(parse_convention("Train-Case"), Ok(NamingConvention::Train));
    assert_eq!(
        parse_convention("screaming"),
        Err(ConversionError::UnknownConvention)
    );
    assert_eq!(
        apply_convention("one twoThree.md", NamingConvention::Title),
        "One Two Three.md"
    );
    assert_eq!(
        apply_convention("one twoThree.md", NamingConvention::Camel),
        "oneTwoThree.md"
    );
}

#[test]
fn plan_rename_orders_no_rename_for_a_conforming_name() {
    assert_eq!(plan_rename("already_fine.txt", "snake_case"), Ok(None));
    assert_eq!(plan_rename(".gitignore", "PascalCase"), Ok(None));
}

#[test]
fn plan_rename_orders_a_rename_exactly_when_the_name_changes() {
    assert_eq!(
        plan_rename("iLikeToFly.txt", "snake_case"),
        Ok(Some(String::from("i_like_to_fly.txt")))
    );
    assert_eq!(
        plan_rename("file.txt", "bogus"),
        Err(ConversionError::UnknownConvention)
    );
}

#[test]
fn rename_stats_count_only_recorded_entries() {
    let mut stats = RenameStats::new();
    assert_eq!(stats.files_renamed, 0);
    stats.record();
    stats.record();
    assert_eq!(stats.files_renamed, 2);
}

#[test]
fn non_recursive_walk_is_capped_at_direct_children() {
    let limit = max_walk_depth(false);
    assert_eq!(limit, Some(1));
    assert!(within_depth(0, limit));
    assert!(within_depth(1, limit));
    assert!(!within_depth(2, limit));
    assert!(!within_depth(7, limit));
}

#[test]
fn recursive_walk_has_no_depth_cap() {
    let limit = max_walk_depth(true);
    assert_eq!(limit, None);
    assert!(within_depth(0, limit));
    assert!(within_depth(100, limit));
}

#[test]
fn the_root_is_never_a_candidate_and_directories_only_on_request() {
    // the root itself, whatever the flags
    assert!(!entry_is_candidate(false, false, true));
    assert!(!entry_is_candidate(true, true, true));
    // a plain file always is
    assert!(entry_is_candidate(false, true, false));
    // a directory only with the include-directories flag
    assert!(!entry_is_candidate(false, false, false));
    assert!(entry_is_candidate(true, false, false));
}

#[test]
fn config_keeps_the_resolved_values() {
    let config = Config::new(
        String::from("/tmp/target"),
        NamingConvention::Kebab,
        true,
        false,
        true,
        false,
    );
    assert_eq!(config.target_dir, "/tmp/target");
    assert!(matches!(config.naming_convention, NamingConvention::Kebab));
    assert!(config.recursive);
    assert!(!config.include_dir);
    assert!(config.quiet);
    assert!(!config.text);
}
