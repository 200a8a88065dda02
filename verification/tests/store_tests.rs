use note_cli::model::Note;
use note_cli::model::Project;
use note_cli::model::StorageError;
use note_cli::store::Store;

fn note(id: &str, text: &str) -> Note {
    Note { id: id.to_string(), note: text.to_string(), date: "2025-01-01T00:00:00+00:00".to_string() }
}

fn project(id: &str, name: &str) -> Project {
    Project {
        id: id.to_string(),
        name: name.to_string(),
        project_type: "Web Development".to_string(),
        description: "d".to_string(),
        deadline: "2025-01-01".to_string(),
        urgency: "High".to_string(),
        date: "2025-01-01T00:00:00+00:00".to_string(),
        status: "In Progress".to_string(),
    }
}

#[test]
fn test_empty_store_lists_nothing() {
    let s = Store::new();
    assert_eq!(s.list_notes().len(), 0);
    assert_eq!(s.list_projects().len(), 0);
}

#[test]
fn test_add_note_round_trip() {
    let mut s = Store::new();
    let n = note("5f7a3fd2-6b3c-4a6e-9b57-3c2de1a60f11", "Buy milk");
    assert!(s.insert_note(n).is_ok());
    let listed = s.list_notes();
    assert_eq!(listed.len(), 1);
    assert_eq!(listed[0].note, "Buy milk");
    assert_eq!(listed[0].id, "5f7a3fd2-6b3c-4a6e-9b57-3c2de1a60f11");
}

#[test]
fn test_insert_duplicate_id_is_refused() {
    let mut s = Store::new();
    assert!(s.insert_note(note("a", "one")).is_ok());
    let r = s.insert_note(note("a", "two"));
    assert_eq!(r, Err(StorageError::DuplicateId));
    assert_eq!(s.list_notes().len(), 1);
    assert_eq!(s.list_notes()[0].note, "one");
}

#[test]
fn test_delete_note_removes_only_match() {
    let mut s = Store::new();
    assert!(s.insert_note(note("a", "one")).is_ok());
    assert!(s.insert_note(note("b", "two")).is_ok());
    s.delete_note("a");
    assert_eq!(s.list_notes().len(), 1);
    assert_eq!(s.list_notes()[0].id, "b");
}

#[test]
fn test_delete_note_twice_is_idempotent() {
    let mut s = Store::new();
    assert!(s.insert_note(note("a", "one")).is_ok());
    assert!(s.insert_note(note("b", "two")).is_ok());
    s.delete_note("a");
    let after_first: Vec<(String, String)> =
        s.list_notes().iter().map(|n| (n.id.clone(), n.note.clone())).collect();
    s.delete_note("a");
    let after_second: Vec<(String, String)> =
        s.list_notes().iter().map(|n| (n.id.clone(), n.note.clone())).collect();
    assert_eq!(after_first, after_second);
}

#[test]
fn test_delete_absent_id_is_no_op() {
    let mut s = Store::new();
    assert!(s.insert_note(note("a", "one")).is_ok());
    s.delete_note("missing");
    assert_eq!(s.list_notes().len(), 1);
}

#[test]
fn test_delete_project_removes_only_match() {
    let mut s = Store::new();
    assert!(s.insert_project(project("p1", "alpha")).is_ok());
    assert!(s.insert_project(project("p2", "beta")).is_ok());
    s.delete_project("p2");
    assert_eq!(s.list_projects().len(), 1);
    assert_eq!(s.list_projects()[0].id, "p1");
}

#[test]
fn test_mark_fresh_project_done() {
    let mut s = Store::new();
    assert!(s.insert_project(project("p1", "alpha")).is_ok());
    assert_eq!(s.list_projects()[0].status, "In Progress");
    s.update_project_status("p1", "Done");
    let listed = s.list_projects();
    assert_eq!(listed.len(), 1);
    assert_eq!(listed[0].status, "Done");
    assert_eq!(listed[0].name, "alpha");
    assert_eq!(listed[0].urgency, "High");
}

#[test]
fn test_mark_absent_id_changes_no_status() {
    let mut s = Store::new();
    assert!(s.insert_project(project("p1", "alpha")).is_ok());
    assert!(s.insert_project(project("p2", "beta")).is_ok());
    s.update_project_status("missing", "Done");
    let listed = s.list_projects();
    assert_eq!(listed[0].status, "In Progress");
    assert_eq!(listed[1].status, "In Progress");
}

#[test]
fn test_contains_ids() {
    let mut s = Store::new();
    assert!(!s.contains_note_id("a"));
    assert!(s.insert_note(note("a", "one")).is_ok());
    assert!(s.contains_note_id("a"));
    assert!(!s.contains_project_id("p1"));
    assert!(s.insert_project(project("p1", "alpha")).is_ok());
    assert!(s.contains_project_id("p1"));
}
