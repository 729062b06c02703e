use cleanup_bot::storage::{bot_file_path, sanitize_bot_name};

#[test]
fn sanitize_keeps_letters_digits_dash_underscore() {
    assert_eq!(sanitize_bot_name("cleanup-bot_2"), "cleanup-bot_2");
    assert_eq!(sanitize_bot_name("../etc/passwd"), "etcpasswd");
    assert_eq!(sanitize_bot_name("a b!c"), "abc");
    assert_eq!(sanitize_bot_name(""), "");
    assert_eq!(sanitize_bot_name("é7"), "é7");
}

#[test]
fn bot_file_path_joins_sanitized_name() {
    assert_eq!(bot_file_path("data", "my bot"), "data/mybot.jsonl");
    assert_eq!(bot_file_path("data/", "x/../y"), "data/xy.jsonl");
}

#[test]
fn bot_file_path_in_empty_dir() {
    assert_eq!(bot_file_path("", "bot"), "bot.jsonl");
    assert_eq!(bot_file_path("/var/lib/dash", "/bot"), "/var/lib/dash/bot.jsonl");
}
