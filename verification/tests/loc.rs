use canary::loc::key::{is_valid_fluent_identifier, LocKey};

fn key(text: &'static str) -> LocKey {
    LocKey::new(text).expect("a valid Fluent identifier")
}

#[test]
fn accepts_a_realistic_key() {
    let k = key("main-menu-start-game");
    assert_eq!(k.as_str(), "main-menu-start-game");
}

#[test]
fn accepts_digits_hyphens_and_underscores_after_the_first_character() {
    let k = key("item-42_special-case");
    assert_eq!(k.as_str(), "item-42_special-case");
}

#[test]
fn two_keys_with_the_same_string_are_equal() {
    assert_eq!(key("same-key"), key("same-key"));
}

#[test]
fn two_keys_with_different_strings_are_not_equal() {
    assert_ne!(key("key-one"), key("key-two"));
}

#[test]
fn display_shows_the_raw_key_not_resolved_text() {
    let k = key("main-menu-start-game");
    assert_eq!(k.to_text(), "main-menu-start-game");
}

#[test]
fn rejects_empty_string_at_compile_time_check_function() {
    assert!(!is_valid_fluent_identifier(""));
}

#[test]
fn rejects_a_leading_digit() {
    assert!(!is_valid_fluent_identifier("1invalid"));
}

#[test]
fn rejects_a_space() {
    assert!(!is_valid_fluent_identifier("has space"));
}

#[test]
fn rejects_a_leading_hyphen() {
    assert!(!is_valid_fluent_identifier("-leading-hyphen"));
}

#[test]
fn invalid_keys_are_refused_at_construction() {
    assert!(LocKey::new("has space").is_none());
    assert!(LocKey::new("").is_none());
    assert!(LocKey::new("é").is_none());
    assert!(LocKey::new("a").is_some());
}

use canary::loc::bundle::{resolve_in_chain, Resolution};
use canary::loc::loader::{
    entry_step, has_ftl_extension, parse_locale_file, EntryStep, LoaderError, DEFAULT_MAX_LOCALE_FILES,
    DEFAULT_MAX_LOCALE_FILE_BYTES,
};

#[test]
fn only_ftl_files_are_loaded_and_counted() {
    assert!(has_ftl_extension("main.ftl"));
    assert!(has_ftl_extension("a.b.ftl"));
    assert!(!has_ftl_extension("notes.txt"));
    assert!(!has_ftl_extension(".ftl"));
    assert!(!has_ftl_extension("ftl"));
    assert_eq!(entry_step(false, 0, 10, DEFAULT_MAX_LOCALE_FILE_BYTES, DEFAULT_MAX_LOCALE_FILES), EntryStep::Skip);
    assert_eq!(entry_step(true, 0, 10, DEFAULT_MAX_LOCALE_FILE_BYTES, DEFAULT_MAX_LOCALE_FILES), EntryStep::Read);
}

#[test]
fn oversized_and_excess_files_fail_with_overbudget_before_reading() {
    assert_eq!(
        entry_step(true, 0, DEFAULT_MAX_LOCALE_FILE_BYTES + 1, DEFAULT_MAX_LOCALE_FILE_BYTES, DEFAULT_MAX_LOCALE_FILES),
        EntryStep::RefuseFileSize { size: DEFAULT_MAX_LOCALE_FILE_BYTES + 1 }
    );
    assert_eq!(
        entry_step(true, DEFAULT_MAX_LOCALE_FILES, 10, DEFAULT_MAX_LOCALE_FILE_BYTES, DEFAULT_MAX_LOCALE_FILES),
        EntryStep::RefuseFileCount { count: DEFAULT_MAX_LOCALE_FILES as u64 + 1 }
    );
    match parse_locale_file("en-US/big.ftl", "k = V".to_string(), 3) {
        Err(LoaderError::OverBudget { path, limit_desc, actual_bytes }) => {
            assert_eq!(path, "en-US/big.ftl");
            assert_eq!(limit_desc, "max bytes per file");
            assert_eq!(actual_bytes, 5);
        }
        other => panic!("expected OverBudget, got: {other:?}"),
    }
}

#[test]
fn reports_a_real_syntax_error_rather_than_silently_dropping_the_file() {
    let result = parse_locale_file("en-US/broken.ftl", "this is = not = valid fluent =".to_string(), 1024);
    let err = result.expect_err("broken Fluent must fail");
    assert!(matches!(err, LoaderError::InvalidSyntax { .. }), "expected InvalidSyntax, got: {err:?}");
    assert_eq!(err.path(), Some("en-US/broken.ftl"));
    assert!(parse_locale_file("en-US/main.ftl", "greeting = Hello!".to_string(), 1024).is_ok());
}

#[test]
fn a_key_resolves_in_the_first_locale_that_has_it() {
    assert_eq!(resolve_in_chain(&[true, true]), Resolution::Locale { index: 0, fallback: false });
    assert_eq!(resolve_in_chain(&[false, true]), Resolution::Locale { index: 1, fallback: true });
    assert_eq!(resolve_in_chain(&[false, false]), Resolution::RawKey);
    assert_eq!(resolve_in_chain(&[]), Resolution::RawKey);
}
