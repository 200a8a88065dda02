use note_cli::format::render_note;
use note_cli::format::render_project;
use note_cli::format::truncate_checked;
use note_cli::format::truncate_text;
use note_cli::model::Note;
use note_cli::model::Project;
use note_cli::model::ValidationError;
use note_cli::text::render_usize;
use note_cli::text::str_eq;
use note_cli::text::trim;

#[test]
fn test_truncate_short_text_unchanged() {
    assert_eq!(truncate_text("hello", 50), "hello");
    assert_eq!(truncate_text("", 3), "");
}

#[test]
fn test_truncate_exact_width_unchanged() {
    let text = "a".repeat(50);
    assert_eq!(truncate_text(&text, 50), text);
}

#[test]
fn test_truncate_long_text_has_exact_width() {
    let text = "a".repeat(60);
    let cut = truncate_text(&text, 50);
    assert_eq!(cut.chars().count(), 50);
    let expected = format!("{}...", "a".repeat(47));
    assert_eq!(cut, expected);
}

#[test]
fn test_truncate_minimal_width() {
    assert_eq!(truncate_text("abcd", 3), "...");
    assert_eq!(truncate_text("abc", 3), "abc");
}

#[test]
fn test_truncate_checked_guards_small_widths() {
    assert_eq!(truncate_checked("abc", 2), Err(ValidationError::WidthTooSmall));
    assert_eq!(truncate_checked("abc", 0), Err(ValidationError::WidthTooSmall));
    assert_eq!(truncate_checked("abcd", 3), Ok("...".to_string()));
}

#[test]
fn test_render_note_lines() {
    let n = Note {
        id: "a1".to_string(),
        note: "Buy milk".to_string(),
        date: "2025-01-01T00:00:00+00:00".to_string(),
    };
    assert_eq!(
        render_note(&n),
        "Note ID: a1\nNote: Buy milk\nDate: 2025-01-01T00:00:00+00:00\n"
    );
}

#[test]
fn test_render_project_truncates_long_name() {
    let p = Project {
        id: "p1".to_string(),
        name: "n".repeat(60),
        project_type: "Web Development".to_string(),
        description: "short".to_string(),
        deadline: "2025-01-01".to_string(),
        urgency: "High".to_string(),
        date: "2025-01-01T00:00:00+00:00".to_string(),
        status: "In Progress".to_string(),
    };
    let text = render_project(&p);
    let expected_name = format!("Name: {}...\n", "n".repeat(47));
    assert!(text.contains(&expected_name));
    assert!(text.contains("Description: short\n"));
    assert!(text.contains("Status: In Progress\n"));
    assert!(text.contains("Project ID: p1\n"));
}

#[test]
fn test_trim_strips_surrounding_whitespace() {
    assert_eq!(trim(" a b \n"), "a b");
    assert_eq!(trim("\t\r\n "), "");
    assert_eq!(trim("plain"), "plain");
}

#[test]
fn test_str_eq_by_characters() {
    assert!(str_eq("abc", "abc"));
    assert!(!str_eq("abc", "abd"));
    assert!(!str_eq("abc", "ab"));
    assert!(str_eq("", ""));
}

#[test]
fn test_render_usize_decimal() {
    assert_eq!(render_usize(0), "0");
    assert_eq!(render_usize(7), "7");
    assert_eq!(render_usize(10), "10");
    assert_eq!(render_usize(42), "42");
    assert_eq!(render_usize(1000), "1000");
}
