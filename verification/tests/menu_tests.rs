use note_cli::menu::parse_choice;
use note_cli::menu::render_menu;
use note_cli::menu::select_label;
use note_cli::model::ValidationError;

#[test]
fn test_menu_accepts_in_range() {
    assert_eq!(parse_choice("1", 3), Ok(0));
    assert_eq!(parse_choice("2", 3), Ok(1));
    assert_eq!(parse_choice("3", 3), Ok(2));
}

#[test]
fn test_menu_rejects_out_of_range_and_malformed() {
    assert_eq!(parse_choice("0", 3), Err(ValidationError::MalformedInput));
    assert_eq!(parse_choice("4", 3), Err(ValidationError::MalformedInput));
    assert_eq!(parse_choice("abc", 3), Err(ValidationError::MalformedInput));
    assert_eq!(parse_choice("", 3), Err(ValidationError::MalformedInput));
}

#[test]
fn test_menu_trims_input_line() {
    assert_eq!(parse_choice(" 2 \n", 3), Ok(1));
    assert_eq!(parse_choice("\t3\r\n", 3), Ok(2));
}

#[test]
fn test_menu_accepts_leading_plus() {
    assert_eq!(parse_choice("+2", 3), Ok(1));
    assert_eq!(parse_choice("+", 3), Err(ValidationError::MalformedInput));
}

#[test]
fn test_menu_rejects_huge_numbers() {
    assert_eq!(parse_choice("99999999999999999999999999", 3), Err(ValidationError::MalformedInput));
    assert_eq!(parse_choice("18446744073709551616", 3), Err(ValidationError::MalformedInput));
}

#[test]
fn test_menu_rejects_mixed_text() {
    assert_eq!(parse_choice("1a", 3), Err(ValidationError::MalformedInput));
    assert_eq!(parse_choice("-1", 3), Err(ValidationError::MalformedInput));
    assert_eq!(parse_choice("1 2", 3), Err(ValidationError::MalformedInput));
}

#[test]
fn test_select_label_returns_chosen_option() {
    let options: Vec<&str> = vec!["Low", "Medium", "High"];
    assert_eq!(select_label(&options, "3"), Ok("High"));
    assert_eq!(select_label(&options, "1"), Ok("Low"));
    assert_eq!(select_label(&options, "9"), Err(ValidationError::MalformedInput));
}

#[test]
fn test_render_menu_layout() {
    let options: Vec<&'static str> = vec!["Done", "Left", "Gone"];
    let text = render_menu("Project Status", "Please select the status of the project:", &options);
    assert_eq!(
        text,
        "Project Status\nPlease select the status of the project:\nOptions:\n1. Done\n2. Left\n3. Gone\n"
    );
}
