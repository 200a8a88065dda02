//! The record model: notes and projects, their construction from raw user
//! input, and the fixed menu label sets.

use vstd::prelude::*;
use crate::gen::new_id;
use crate::gen::now_rfc3339;
use crate::text::trim;
use crate::text::trim_spec;

verus! {

/// Rejection of user-supplied input.
#[derive(Clone, Copy, PartialEq, Eq, Structural, Debug)]
pub enum ValidationError {
    /// A menu selection that is not a number in range.
    MalformedInput,
    /// A display width too small to leave room for an ellipsis.
    WidthTooSmall,
}

/// Failure of a store operation.
#[derive(Clone, Copy, PartialEq, Eq, Structural, Debug)]
pub enum StorageError {
    /// An insert whose id is already present.
    DuplicateId,
}

/// A free-text note.
#[derive(Debug)]
pub struct Note {
    /// Unique identifier, generated at creation, immutable.
    pub id: String,
    /// The note body, trimmed of surrounding whitespace.
    pub note: String,
    /// Creation timestamp, generated at creation, immutable.
    pub date: String,
}

/// A structured project entry.
#[derive(Debug)]
pub struct Project {
    /// Unique identifier, generated at creation, immutable.
    pub id: String,
    /// The project name.
    pub name: String,
    /// One of the fixed project-type labels.
    pub project_type: String,
    /// A free-text description.
    pub description: String,
    /// A free-text deadline; not validated as a date.
    pub deadline: String,
    /// One of the fixed urgency labels.
    pub urgency: String,
    /// Creation timestamp, generated at creation, immutable.
    pub date: String,
    /// The only mutable field; starts as "In Progress".
    pub status: String,
}

impl Note {
    /// An equal copy of the note.
    pub fn duplicate(&self) -> (r: Note)
        ensures
            r == *self,
    {
        Note { id: self.id.clone(), note: self.note.clone(), date: self.date.clone() }
    }
}

impl Project {
    /// An equal copy of the project.
    pub fn duplicate(&self) -> (r: Project)
        ensures
            r == *self,
    {
        Project {
            id: self.id.clone(),
            name: self.name.clone(),
            project_type: self.project_type.clone(),
            description: self.description.clone(),
            deadline: self.deadline.clone(),
            urgency: self.urgency.clone(),
            date: self.date.clone(),
            status: self.status.clone(),
        }
    }
}

/// Builds a note from raw input: the body is trimmed, the id and timestamp
/// are generated.
pub fn new_note(raw_text: &str) -> (n: Note)
    ensures
        n.note@ == trim_spec(raw_text@),
        n.id@.len() == 36,
{
    Note { id: new_id(), note: trim(raw_text), date: now_rfc3339() }
}

/// Builds a project from raw input: every field is trimmed, the id and
/// timestamp are generated, and the status starts as "In Progress".
pub fn new_project(
    raw_name: &str,
    type_label: &str,
    raw_description: &str,
    raw_deadline: &str,
    urgency_label: &str,
) -> (p: Project)
    ensures
        p.name@ == trim_spec(raw_name@),
        p.project_type@ == trim_spec(type_label@),
        p.description@ == trim_spec(raw_description@),
        p.deadline@ == trim_spec(raw_deadline@),
        p.urgency@ == trim_spec(urgency_label@),
        p.status@ == "In Progress"@,
        p.id@.len() == 36,
{
    Project {
        id: new_id(),
        name: trim(raw_name),
        project_type: trim(type_label),
        description: trim(raw_description),
        deadline: trim(raw_deadline),
        urgency: trim(urgency_label),
        date: now_rfc3339(),
        status: "In Progress".to_owned(),
    }
}

/// The project types offered at creation, in menu order.
pub fn project_type_options() -> (r: Vec<&'static str>)
    ensures
        r@.len() == 6,
        r@[0]@ == "Web Development"@,
        r@[1]@ == "Mobile Development"@,
        r@[2]@ == "Desktop Development"@,
        r@[3]@ == "Machine Learning"@,
        r@[4]@ == "Data Science"@,
        r@[5]@ == "Other"@,
{
    let mut r: Vec<&'static str> = Vec::new();
    r.push("Web Development");
    r.push("Mobile Development");
    r.push("Desktop Development");
    r.push("Machine Learning");
    r.push("Data Science");
    r.push("Other");
    r
}

/// The urgency levels offered at creation, in menu order.
pub fn urgency_options() -> (r: Vec<&'static str>)
    ensures
        r@.len() == 3,
        r@[0]@ == "Low"@,
        r@[1]@ == "Medium"@,
        r@[2]@ == "High"@,
{
    let mut r: Vec<&'static str> = Vec::new();
    r.push("Low");
    r.push("Medium");
    r.push("High");
    r
}

/// The statuses a project can be marked with, in menu order.
pub fn mark_options() -> (r: Vec<&'static str>)
    ensures
        r@.len() == 3,
        r@[0]@ == "Done"@,
        r@[1]@ == "Left"@,
        r@[2]@ == "Gone"@,
{
    let mut r: Vec<&'static str> = Vec::new();
    r.push("Done");
    r.push("Left");
    r.push("Gone");
    r
}

} // verus!
