use std::collections::HashSet;

use note_cli::command::parse_command;
use note_cli::command::CommandKind;
use note_cli::menu::select_label;
use note_cli::model::mark_options;
use note_cli::model::new_note;
use note_cli::model::new_project;
use note_cli::model::project_type_options;
use note_cli::model::urgency_options;
use note_cli::store::Store;

#[test]
fn test_generated_ids_are_unique() {
    let mut ids: HashSet<String> = HashSet::new();
    for _ in 0..100 {
        let n = new_note("x");
        ids.insert(n.id);
    }
    assert_eq!(ids.len(), 100);
}

#[test]
fn test_generated_id_shape() {
    let n = new_note("x");
    assert_eq!(n.id.chars().count(), 36);
    assert_eq!(n.id.chars().filter(|c| *c == '-').count(), 4);
}

#[test]
fn test_note_date_is_rfc3339() {
    let n = new_note("x");
    assert!(chrono::DateTime::parse_from_rfc3339(&n.date).is_ok());
}

#[test]
fn test_new_note_trims_body() {
    let n = new_note(" Buy milk \n");
    assert_eq!(n.note, "Buy milk");
}

#[test]
fn test_new_project_defaults_to_in_progress() {
    let p = new_project("site\n", "Web Development", "desc\n", "2025-01-01\n", "High");
    assert_eq!(p.name, "site");
    assert_eq!(p.project_type, "Web Development");
    assert_eq!(p.description, "desc");
    assert_eq!(p.deadline, "2025-01-01");
    assert_eq!(p.urgency, "High");
    assert_eq!(p.status, "In Progress");
}

#[test]
fn test_option_lists() {
    let types = project_type_options();
    assert_eq!(
        types,
        vec![
            "Web Development",
            "Mobile Development",
            "Desktop Development",
            "Machine Learning",
            "Data Science",
            "Other"
        ]
    );
    assert_eq!(urgency_options(), vec!["Low", "Medium", "High"]);
    assert_eq!(mark_options(), vec!["Done", "Left", "Gone"]);
}

#[test]
fn test_parse_command_tree() {
    assert_eq!(parse_command("notes", "add"), Some(CommandKind::NotesAdd));
    assert_eq!(parse_command("notes", "list"), Some(CommandKind::NotesList));
    assert_eq!(parse_command("notes", "delete"), Some(CommandKind::NotesDelete));
    assert_eq!(parse_command("project", "add"), Some(CommandKind::ProjectAdd));
    assert_eq!(parse_command("project", "list"), Some(CommandKind::ProjectList));
    assert_eq!(parse_command("project", "delete"), Some(CommandKind::ProjectDelete));
    assert_eq!(parse_command("project", "mark"), Some(CommandKind::ProjectMark));
    assert_eq!(parse_command("notes", "mark"), None);
    assert_eq!(parse_command("tasks", "add"), None);
}

#[test]
fn test_scenario_project_add_then_list() {
    let mut store = Store::new();

    let types = project_type_options();
    let chosen_type = select_label(&types, "1").unwrap();
    let urgencies = urgency_options();
    let chosen_urgency = select_label(&urgencies, "3").unwrap();

    let p = new_project(
        "Redesign site\n",
        chosen_type,
        "Refresh layout and colors\n",
        "2025-01-01\n",
        chosen_urgency,
    );
    assert!(store.insert_project(p).is_ok());

    let listed = store.list_projects();
    assert_eq!(listed.len(), 1);
    assert_eq!(listed[0].name, "Redesign site");
    assert_eq!(listed[0].project_type, "Web Development");
    assert_eq!(listed[0].urgency, "High");
    assert_eq!(listed[0].status, "In Progress");
    assert_eq!(listed[0].deadline, "2025-01-01");
}
