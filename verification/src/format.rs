//! Display formatting: truncation of long text fields, and the text blocks
//! that the listing commands print.

use vstd::prelude::*;
use vstd::string::*;
use crate::model::Note;
use crate::model::Project;
use crate::model::ValidationError;

verus! {

/// The width to which a project's name and description are cut in listings.
pub const DISPLAY_WIDTH: usize = 50;

/// `t` cut for display: a text longer than `w` characters becomes its first
/// `w - 3` characters followed by an ellipsis; a shorter one stays as it is.
pub open spec fn truncated_spec(t: Seq<char>, w: int) -> Seq<char>
    recommends
        w >= 3,
{
    if t.len() > w {
        t.subrange(0, w - 3) + "..."@
    } else {
        t
    }
}

/// Truncates `text` to at most `width` characters for display.
///
/// A text that fits within `width` characters is returned unchanged.  A longer
/// one is cut to its first `width - 3` characters followed by a literal
/// ellipsis, so that the result is then exactly `width` characters long.
/// Widths below 3 leave no room for the ellipsis and are excluded.
pub fn truncate_text(text: &str, width: usize) -> (r: String)
    requires
        width >= 3,
    ensures
        r@ == truncated_spec(text@, width as int),
        r@.len() <= width,
        text@.len() > width ==> r@.len() == width,
        text@.len() <= width ==> r@ == text@,
{
    proof {
        reveal_strlit("...");
    }
    let n = text.unicode_len();
    if n > width {
        let head = text.substring_char(0, width - 3);
        let mut r = head.to_owned();
        r.append("...");
        proof {
            assert(r@ =~= text@.subrange(0, width - 3) + "..."@);
        }
        r
    } else {
        text.to_owned()
    }
}

/// The guarded form of `truncate_text`: a width below 3 is rejected as
/// invalid rather than left undefined.
pub fn truncate_checked(text: &str, width: usize) -> (r: Result<String, ValidationError>)
    ensures
        width >= 3 ==> (r matches Ok(s) && s@ == truncated_spec(text@, width as int)),
        width < 3 ==> r == Err::<String, ValidationError>(ValidationError::WidthTooSmall),
{
    if width < 3 {
        Err(ValidationError::WidthTooSmall)
    } else {
        Ok(truncate_text(text, width))
    }
}

/// Truncation law: the result never exceeds the width; it has exactly the
/// width exactly when the text is longer than the width; and it is the text
/// unchanged exactly when the text fits.  A text exactly as long as the width
/// is left out of the second equivalence: it is returned unchanged and then
/// happens to have exactly the width.
pub proof fn lemma_truncate_law(t: Seq<char>, w: int)
    requires
        w >= 3,
        t.len() != w,
    ensures
        truncated_spec(t, w).len() <= w,
        truncated_spec(t, w).len() == w <==> t.len() > w,
        truncated_spec(t, w) == t <==> t.len() <= w,
{
    reveal_strlit("...");
    if t.len() > w {
        assert(truncated_spec(t, w).len() == w);
    }
}

/// The lines of one note as `notes list` prints it.
pub open spec fn note_text_spec(n: Note) -> Seq<char> {
    "Note ID: "@ + n.id@ + "\n"@ + "Note: "@ + n.note@ + "\n"@ + "Date: "@ + n.date@ + "\n"@
}

/// Renders one note for the listing.
pub fn render_note(n: &Note) -> (r: String)
    ensures
        r@ == note_text_spec(*n),
{
    let mut r = String::new();
    r.append("Note ID: ");
    r.append(n.id.as_str());
    r.append("\n");
    r.append("Note: ");
    r.append(n.note.as_str());
    r.append("\n");
    r.append("Date: ");
    r.append(n.date.as_str());
    r.append("\n");
    proof {
        assert(r@ =~= note_text_spec(*n));
    }
    r
}

/// The lines of one project as `project list` prints it, the name and the
/// description cut to the display width.
pub open spec fn project_text_spec(p: Project) -> Seq<char> {
    "Project ID: "@ + p.id@ + "\n"@ + "Name: "@ + truncated_spec(p.name@, DISPLAY_WIDTH as int)
        + "\n"@ + "Type: "@ + p.project_type@ + "\n"@ + "Description: "@ + truncated_spec(
        p.description@,
        DISPLAY_WIDTH as int,
    ) + "\n"@ + "Deadline: "@ + p.deadline@ + "\n"@ + "Urgency: "@ + p.urgency@ + "\n"@
        + "Date: "@ + p.date@ + "\n"@ + "Status: "@ + p.status@ + "\n"@
}

/// Renders one project for the listing.
pub fn render_project(p: &Project) -> (r: String)
    ensures
        r@ == project_text_spec(*p),
{
    let name = truncate_text(p.name.as_str(), DISPLAY_WIDTH);
    let description = truncate_text(p.description.as_str(), DISPLAY_WIDTH);
    let mut r = String::new();
    r.append("Project ID: ");
    r.append(p.id.as_str());
    r.append("\n");
    r.append("Name: ");
    r.append(name.as_str());
    r.append("\n");
    r.append("Type: ");
    r.append(p.project_type.as_str());
    r.append("\n");
    r.append("Description: ");
    r.append(description.as_str());
    r.append("\n");
    r.append("Deadline: ");
    r.append(p.deadline.as_str());
    r.append("\n");
    r.append("Urgency: ");
    r.append(p.urgency.as_str());
    r.append("\n");
    r.append("Date: ");
    r.append(p.date.as_str());
    r.append("\n");
    r.append("Status: ");
    r.append(p.status.as_str());
    r.append("\n");
    proof {
        assert(r@ =~= project_text_spec(*p));
    }
    r
}

} // verus!
