//! The command surface: the fixed two-level tree of commands, resolved from
//! the group and action names on the command line.

use vstd::prelude::*;
use crate::text::str_eq;

verus! {

/// One leaf command of the tree; each process invocation runs exactly one.
#[derive(Clone, Copy, PartialEq, Eq, Structural, Debug)]
pub enum CommandKind {
    /// `notes add`
    NotesAdd,
    /// `notes list`
    NotesList,
    /// `notes delete`
    NotesDelete,
    /// `project add`
    ProjectAdd,
    /// `project list`
    ProjectList,
    /// `project delete`
    ProjectDelete,
    /// `project mark`
    ProjectMark,
}

/// The leaf that a group and action name, if any.
pub open spec fn command_spec(group: Seq<char>, action: Seq<char>) -> Option<CommandKind> {
    if group == "notes"@ {
        if action == "add"@ {
            Some(CommandKind::NotesAdd)
        } else if action == "list"@ {
            Some(CommandKind::NotesList)
        } else if action == "delete"@ {
            Some(CommandKind::NotesDelete)
        } else {
            None
        }
    } else if group == "project"@ {
        if action == "add"@ {
            Some(CommandKind::ProjectAdd)
        } else if action == "list"@ {
            Some(CommandKind::ProjectList)
        } else if action == "delete"@ {
            Some(CommandKind::ProjectDelete)
        } else if action == "mark"@ {
            Some(CommandKind::ProjectMark)
        } else {
            None
        }
    } else {
        None
    }
}

/// Resolves one command path, as the argument parser selects the handler.
pub fn parse_command(group: &str, action: &str) -> (r: Option<CommandKind>)
    ensures
        r == command_spec(group@, action@),
{
    if str_eq(group, "notes") {
        if str_eq(action, "add") {
            Some(CommandKind::NotesAdd)
        } else if str_eq(action, "list") {
            Some(CommandKind::NotesList)
        } else if str_eq(action, "delete") {
            Some(CommandKind::NotesDelete)
        } else {
            None
        }
    } else if str_eq(group, "project") {
        if str_eq(action, "add") {
            Some(CommandKind::ProjectAdd)
        } else if str_eq(action, "list") {
            Some(CommandKind::ProjectList)
        } else if str_eq(action, "delete") {
            Some(CommandKind::ProjectDelete)
        } else if str_eq(action, "mark") {
            Some(CommandKind::ProjectMark)
        } else {
            None
        }
    } else {
        None
    }
}

} // verus!
