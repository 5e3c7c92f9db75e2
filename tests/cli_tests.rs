use navigate::cli::{
    add_bookmarks, bookmark_target, cd_directive, handle_bookmark, list_bookmarks, pop_path, push_path, stack_listing, BookmarkAction,
    BookmarkError, BookmarkRequest, ListingError,
};
use navigate::config::{parse_color, Config, ConfigError, Settings};
use navigate::operation::OperationError;

#[test]
fn cd_directive_text() {
    assert_eq!(cd_directive(b"/tmp"), b"cd -- /tmp".to_vec());
}

#[test]
fn listing_is_newest_first() {
    let entries = vec![b"/home/user".to_vec(), b"/tmp".to_vec()];
    let text = stack_listing(&entries).unwrap();
    assert_eq!(String::from_utf8(text).unwrap(), "echo '0 - /tmp'\necho '1 - /home/user'\n");
    assert_eq!(stack_listing(&Vec::new()).err(), Some(ListingError::EmptyStack));
}

#[test]
fn push_path_records_current_and_moves_to_target() {
    let nav = push_path(None, Some(b"/tmp".to_vec()), Some(b"/home/user".to_vec()));
    assert_eq!(nav.write, Some(b"/home/user\n".to_vec()));
    assert_eq!(nav.command, Ok(b"cd -- /tmp".to_vec()));
    let nav = push_path(None, None, Some(b"/home/user".to_vec()));
    assert_eq!(nav.write, None);
    assert_eq!(nav.command, Err(OperationError::InvalidPath));
}

#[test]
fn pop_path_moves_back() {
    let nav = pop_path(Some(b"/home/user\n/tmp\n".as_slice()));
    assert_eq!(nav.write, Some(b"/home/user\n".to_vec()));
    assert_eq!(nav.command, Ok(b"cd -- /tmp".to_vec()));
    let nav = pop_path(None);
    assert_eq!(nav.write, None);
    assert_eq!(nav.command, Err(OperationError::EmptyStack));
}

#[test]
fn bookmark_requests() {
    assert!(matches!(handle_bookmark(Some(BookmarkAction::List), None), Ok(BookmarkRequest::List)));
    assert!(matches!(
        handle_bookmark(None, Some("work".to_string())),
        Ok(BookmarkRequest::Go { name }) if name == "work"
    ));
    assert!(matches!(handle_bookmark(None, None), Err(BookmarkError::MissingName)));
    assert!(matches!(
        handle_bookmark(Some(BookmarkAction::Add { name: "w".to_string(), path: None }), None),
        Err(BookmarkError::MissingPath)
    ));
    assert!(matches!(
        add_bookmarks("w".to_string(), Some("/srv".to_string())),
        Ok(BookmarkRequest::Add { name, path }) if name == "w" && path == "/srv"
    ));
    assert!(matches!(
        handle_bookmark(Some(BookmarkAction::Remove { name: "w".to_string() }), Some("x".to_string())),
        Ok(BookmarkRequest::Remove { name }) if name == "w"
    ));
}

#[test]
fn colors_translate() {
    assert_eq!(parse_color("cyan"), Ok("\u{1b}[36m".to_string()));
    assert_eq!(parse_color("default"), Ok("\u{1b}[0m".to_string()));
    assert_eq!(parse_color("purple"), Err(ConfigError::UnknownColor));
}

#[test]
fn default_settings_and_translation() {
    let s = Settings::default();
    assert_eq!(s.format.stack_separator, " - ");
    assert_eq!(s.styles.stack_separator, "cyan");
    assert!(!s.general.show_stack_on_push);
    let mut c = Config::from_parts("/etc/navigate.conf".to_string(), s);
    assert_eq!(c.parse_color_settings(), Ok(()));
    assert_eq!(c.settings.styles.stack_separator, "\u{1b}[36m");
    assert_eq!(c.settings.styles.stack_number, "\u{1b}[0m");
    let mut bad = Config::from_parts("/x".to_string(), Settings::default());
    bad.settings.styles.stack_path = "mauve".to_string();
    assert_eq!(bad.parse_color_settings(), Err(ConfigError::UnknownColor));
    assert_eq!(bad.settings.styles.stack_number, "\u{1b}[0m");
    assert_eq!(bad.settings.styles.stack_separator, "\u{1b}[36m");
    assert_eq!(bad.settings.styles.stack_path, "mauve");
    assert_eq!(bad.settings.styles.bookmarks_name, "default");
    assert_eq!(bad.settings.styles.bookmarks_seperator, "cyan");
}

#[test]
fn failed_translation_keeps_earlier_fields() {
    let mut c = Config::from_parts("/x".to_string(), Settings::default());
    c.settings.styles.stack_separator = "mauve".to_string();
    assert_eq!(c.parse_color_settings(), Err(ConfigError::UnknownColor));
    assert_eq!(c.settings.styles.stack_number, "\u{1b}[0m");
    assert_eq!(c.settings.styles.stack_separator, "mauve");
    assert_eq!(c.settings.styles.stack_path, "default");
}

#[test]
fn bookmark_listing_lines() {
    let marks = vec![
        (b"home".to_vec(), b"/home/user".to_vec()),
        (b"tmp".to_vec(), b"/tmp".to_vec()),
    ];
    assert_eq!(list_bookmarks(&marks), b"home : /home/user\ntmp : /tmp\n".to_vec());
    assert!(list_bookmarks(&Vec::new()).is_empty());
}

#[test]
fn formatted_settings_show_fields() {
    let c = Config::from_parts("/x".to_string(), Settings::default());
    let text = c.to_formatted_string().unwrap();
    assert!(text.starts_with("Settings {"));
    assert!(text.contains("show_stack_on_push: false"));
    assert!(text.contains("stack_separator: \" - \""));
}

#[test]
fn bookmark_target_needs_a_bookmark() {
    assert_eq!(bookmark_target(Some("/srv".to_string())), Ok("/srv".to_string()));
    assert_eq!(bookmark_target(None), Err(BookmarkError::UnknownBookmark));
}

#[test]
fn non_utf8_paths_are_kept_as_bytes() {
    let nav = pop_path(Some(b"/home\n/\xff\n".as_slice()));
    assert_eq!(nav.write, Some(b"/home\n".to_vec()));
    assert_eq!(nav.command, Ok(b"cd -- /\xff".to_vec()));
}
