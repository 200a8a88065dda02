//! The record store: an in-memory collection of notes and projects with
//! unique ids, and the operations the command surface performs on it.
//!
//! Listing order is insertion order; deletion keeps the order of the
//! remaining records.

use vstd::prelude::*;
use crate::model::Note;
use crate::model::Project;
use crate::model::StorageError;
use crate::text::str_eq;

verus! {

/// Whether some note in `s` carries the id `id`.
pub open spec fn has_note_id(s: Seq<Note>, id: Seq<char>) -> bool {
    exists|i: int| 0 <= i < s.len() && s[i].id@ == id
}

/// Whether some project in `s` carries the id `id`.
pub open spec fn has_project_id(s: Seq<Project>, id: Seq<char>) -> bool {
    exists|i: int| 0 <= i < s.len() && s[i].id@ == id
}

/// Whether the notes of `s` carry pairwise distinct ids.
pub open spec fn notes_unique(s: Seq<Note>) -> bool {
    forall|i: int, j: int| 0 <= i < j < s.len() ==> s[i].id@ != s[j].id@
}

/// Whether the projects of `s` carry pairwise distinct ids.
pub open spec fn projects_unique(s: Seq<Project>) -> bool {
    forall|i: int, j: int| 0 <= i < j < s.len() ==> s[i].id@ != s[j].id@
}

/// `s` without the notes whose id is `id`, order kept.
pub open spec fn remove_note_spec(s: Seq<Note>, id: Seq<char>) -> Seq<Note> {
    s.filter(|n: Note| n.id@ != id)
}

/// `s` without the projects whose id is `id`, order kept.
pub open spec fn remove_project_spec(s: Seq<Project>, id: Seq<char>) -> Seq<Project> {
    s.filter(|p: Project| p.id@ != id)
}

/// The notes of `s` that carry the id `id`, order kept.
pub open spec fn notes_with_id(s: Seq<Note>, id: Seq<char>) -> Seq<Note> {
    s.filter(|n: Note| n.id@ == id)
}

/// How one project relates to its old value after every project whose id is
/// `id` has been marked with `status`: a matching project keeps every field
/// but `status`, any other is untouched.
pub open spec fn project_marked(p: Project, q: Project, id: Seq<char>, status: Seq<char>) -> bool {
    if p.id@ == id {
        q.id == p.id && q.name == p.name && q.project_type == p.project_type
            && q.description == p.description && q.deadline == p.deadline
            && q.urgency == p.urgency && q.date == p.date && q.status@ == status
    } else {
        q == p
    }
}

/// The record store, held in memory while one command runs.
pub struct Store {
    /// All notes, in insertion order.
    pub notes: Vec<Note>,
    /// All projects, in insertion order.
    pub projects: Vec<Project>,
}

impl Store {
    /// Ids are unique across all records of each kind.
    pub open spec fn wf(self) -> bool {
        notes_unique(self.notes@) && projects_unique(self.projects@)
    }

    /// An empty store.
    pub fn new() -> (s: Store)
        ensures
            s.notes@.len() == 0,
            s.projects@.len() == 0,
            s.wf(),
    {
        Store { notes: Vec::new(), projects: Vec::new() }
    }

    /// Whether a note with the given id is present.
    pub fn contains_note_id(&self, id: &str) -> (r: bool)
        ensures
            r == has_note_id(self.notes@, id@),
    {
        let n = self.notes.len();
        let mut i: usize = 0;
        while i < n
            invariant
                i <= n,
                n == self.notes@.len(),
                forall|k: int| 0 <= k < i ==> self.notes@[k].id@ != id@,
            decreases n - i,
        {
            if str_eq(self.notes[i].id.as_str(), id) {
                proof {
                    assert(self.notes@[i as int].id@ == id@);
                }
                return true;
            }
            i = i + 1;
        }
        false
    }

    /// Whether a project with the given id is present.
    pub fn contains_project_id(&self, id: &str) -> (r: bool)
        ensures
            r == has_project_id(self.projects@, id@),
    {
        let n = self.projects.len();
        let mut i: usize = 0;
        while i < n
            invariant
                i <= n,
                n == self.projects@.len(),
                forall|k: int| 0 <= k < i ==> self.projects@[k].id@ != id@,
            decreases n - i,
        {
            if str_eq(self.projects[i].id.as_str(), id) {
                proof {
                    assert(self.projects@[i as int].id@ == id@);
                }
                return true;
            }
            i = i + 1;
        }
        false
    }

    /// Appends one note.  A note whose id is already present is refused and
    /// the store is left unchanged; otherwise the note goes to the end.
    pub fn insert_note(&mut self, n: Note) -> (r: Result<(), StorageError>)
        requires
            old(self).wf(),
        ensures
            final(self).wf(),
            final(self).projects@ == old(self).projects@,
            has_note_id(old(self).notes@, n.id@) ==> r == Err::<(), StorageError>(
                StorageError::DuplicateId,
            ) && final(self).notes@ == old(self).notes@,
            !has_note_id(old(self).notes@, n.id@) ==> r == Ok::<(), StorageError>(())
                && final(self).notes@ == old(self).notes@.push(n),
    {
        if self.contains_note_id(n.id.as_str()) {
            Err(StorageError::DuplicateId)
        } else {
            proof {
                assert forall|i: int, j: int|
                    0 <= i < j < old(self).notes@.push(n).len() implies old(self).notes@.push(
                    n,
                )[i].id@ != old(self).notes@.push(n)[j].id@ by {
                    if j == old(self).notes@.len() {
                        assert(old(self).notes@.push(n)[i] == old(self).notes@[i]);
                        if old(self).notes@[i].id@ == n.id@ {
                            assert(has_note_id(old(self).notes@, n.id@));
                        }
                    }
                }
            }
            self.notes.push(n);
            Ok(())
        }
    }

    /// Appends one project, under the same id rule as notes.
    pub fn insert_project(&mut self, p: Project) -> (r: Result<(), StorageError>)
        requires
            old(self).wf(),
        ensures
            final(self).wf(),
            final(self).notes@ == old(self).notes@,
            has_project_id(old(self).projects@, p.id@) ==> r == Err::<(), StorageError>(
                StorageError::DuplicateId,
            ) && final(self).projects@ == old(self).projects@,
            !has_project_id(old(self).projects@, p.id@) ==> r == Ok::<(), StorageError>(())
                && final(self).projects@ == old(self).projects@.push(p),
    {
        if self.contains_project_id(p.id.as_str()) {
            Err(StorageError::DuplicateId)
        } else {
            proof {
                assert forall|i: int, j: int|
                    0 <= i < j < old(self).projects@.push(p).len() implies old(
                    self,
                ).projects@.push(p)[i].id@ != old(self).projects@.push(p)[j].id@ by {
                    if j == old(self).projects@.len() {
                        assert(old(self).projects@.push(p)[i] == old(self).projects@[i]);
                        if old(self).projects@[i].id@ == p.id@ {
                            assert(has_project_id(old(self).projects@, p.id@));
                        }
                    }
                }
            }
            self.projects.push(p);
            Ok(())
        }
    }

    /// Removes the note with the given id, if any; a missing id changes
    /// nothing and is no error.
    pub fn delete_note(&mut self, id: &str)
        requires
            old(self).wf(),
        ensures
            final(self).wf(),
            final(self).projects@ == old(self).projects@,
            final(self).notes@ == remove_note_spec(old(self).notes@, id@),
            !has_note_id(final(self).notes@, id@),
    {
        let n = self.notes.len();
        let mut kept: Vec<Note> = Vec::new();
        let mut i: usize = 0;
        proof {
            reveal(Seq::filter);
            assert(self.notes@.subrange(0, 0) =~= Seq::<Note>::empty());
        }
        while i < n
            invariant
                i <= n,
                n == self.notes@.len(),
                self.notes@ == old(self).notes@,
                self.projects@ == old(self).projects@,
                kept@ == remove_note_spec(self.notes@.subrange(0, i as int), id@),
            decreases n - i,
        {
            let keep = !str_eq(self.notes[i].id.as_str(), id);
            if keep {
                let m = self.notes[i].duplicate();
                kept.push(m);
            }
            proof {
                reveal(Seq::filter);
                let t = self.notes@.subrange(0, i as int + 1);
                assert(t.drop_last() =~= self.notes@.subrange(0, i as int));
                assert(t.last() == self.notes@[i as int]);
            }
            i = i + 1;
        }
        proof {
            assert(self.notes@.subrange(0, n as int) =~= self.notes@);
            lemma_remove_note_unique(old(self).notes@, id@);
            lemma_remove_note_removes(old(self).notes@, id@);
        }
        self.notes = kept;
    }

    /// Removes the project with the given id, if any; a missing id changes
    /// nothing and is no error.
    pub fn delete_project(&mut self, id: &str)
        requires
            old(self).wf(),
        ensures
            final(self).wf(),
            final(self).notes@ == old(self).notes@,
            final(self).projects@ == remove_project_spec(old(self).projects@, id@),
            !has_project_id(final(self).projects@, id@),
    {
        let n = self.projects.len();
        let mut kept: Vec<Project> = Vec::new();
        let mut i: usize = 0;
        proof {
            reveal(Seq::filter);
            assert(self.projects@.subrange(0, 0) =~= Seq::<Project>::empty());
        }
        while i < n
            invariant
                i <= n,
                n == self.projects@.len(),
                self.notes@ == old(self).notes@,
                self.projects@ == old(self).projects@,
                kept@ == remove_project_spec(self.projects@.subrange(0, i as int), id@),
            decreases n - i,
        {
            let keep = !str_eq(self.projects[i].id.as_str(), id);
            if keep {
                let m = self.projects[i].duplicate();
                kept.push(m);
            }
            proof {
                reveal(Seq::filter);
                let t = self.projects@.subrange(0, i as int + 1);
                assert(t.drop_last() =~= self.projects@.subrange(0, i as int));
                assert(t.last() == self.projects@[i as int]);
            }
            i = i + 1;
        }
        proof {
            assert(self.projects@.subrange(0, n as int) =~= self.projects@);
            lemma_remove_project_unique(old(self).projects@, id@);
            lemma_remove_project_removes(old(self).projects@, id@);
        }
        self.projects = kept;
    }

    /// Sets the status of the project with the given id, if any; every other
    /// field and every other project is untouched, and a missing id changes
    /// nothing.
    pub fn update_project_status(&mut self, id: &str, status: &str)
        requires
            old(self).wf(),
        ensures
            final(self).wf(),
            final(self).notes@ == old(self).notes@,
            final(self).projects@.len() == old(self).projects@.len(),
            forall|i: int|
                0 <= i < old(self).projects@.len() ==> project_marked(
                    old(self).projects@[i],
                    final(self).projects@[i],
                    id@,
                    status@,
                ),
            !has_project_id(old(self).projects@, id@) ==> final(self).projects@ == old(
                self,
            ).projects@,
    {
        let n = self.projects.len();
        let mut updated: Vec<Project> = Vec::new();
        let mut i: usize = 0;
        while i < n
            invariant
                i <= n,
                n == self.projects@.len(),
                self.notes@ == old(self).notes@,
                self.projects@ == old(self).projects@,
                updated@.len() == i,
                forall|k: int|
                    0 <= k < i ==> project_marked(
                        self.projects@[k],
                        updated@[k],
                        id@,
                        status@,
                    ),
            decreases n - i,
        {
            if str_eq(self.projects[i].id.as_str(), id) {
                let p = &self.projects[i];
                let q = Project {
                    id: p.id.clone(),
                    name: p.name.clone(),
                    project_type: p.project_type.clone(),
                    description: p.description.clone(),
                    deadline: p.deadline.clone(),
                    urgency: p.urgency.clone(),
                    date: p.date.clone(),
                    status: status.to_owned(),
                };
                updated.push(q);
            } else {
                let m = self.projects[i].duplicate();
                updated.push(m);
            }
            i = i + 1;
        }
        proof {
            assert forall|a: int, b: int| 0 <= a < b < updated@.len() implies updated@[a].id@
                != updated@[b].id@ by {
                assert(project_marked(self.projects@[a], updated@[a], id@, status@));
                assert(project_marked(self.projects@[b], updated@[b], id@, status@));
                assert(updated@[a].id@ == self.projects@[a].id@);
                assert(updated@[b].id@ == self.projects@[b].id@);
            }
            if !has_project_id(self.projects@, id@) {
                assert forall|k: int| 0 <= k < updated@.len() implies updated@[k]
                    == self.projects@[k] by {
                    assert(project_marked(self.projects@[k], updated@[k], id@, status@));
                    if self.projects@[k].id@ == id@ {
                        assert(has_project_id(self.projects@, id@));
                    }
                }
                assert(updated@ =~= self.projects@);
            }
        }
        self.projects = updated;
    }

    /// All notes, in insertion order.
    pub fn list_notes(&self) -> (r: &Vec<Note>)
        ensures
            r@ == self.notes@,
    {
        &self.notes
    }

    /// All projects, in insertion order.
    pub fn list_projects(&self) -> (r: &Vec<Project>)
        ensures
            r@ == self.projects@,
    {
        &self.projects
    }
}

proof fn lemma_remove_note_removes(s: Seq<Note>, id: Seq<char>)
    ensures
        !has_note_id(remove_note_spec(s, id), id),
    decreases s.len(),
{
    reveal(Seq::filter);
    if s.len() > 0 {
        lemma_remove_note_removes(s.drop_last(), id);
    }
}

proof fn lemma_remove_note_unique(s: Seq<Note>, id: Seq<char>)
    requires
        notes_unique(s),
    ensures
        notes_unique(remove_note_spec(s, id)),
        forall|x: Seq<char>| has_note_id(remove_note_spec(s, id), x) ==> has_note_id(s, x),
    decreases s.len(),
{
    reveal(Seq::filter);
    if s.len() > 0 {
        let t = s.drop_last();
        assert(notes_unique(t)) by {
            assert(forall|i: int, j: int|
                0 <= i < j < t.len() ==> t[i] == s[i] && t[j] == s[j]);
        }
        lemma_remove_note_unique(t, id);
        let ft = remove_note_spec(t, id);
        let fs = remove_note_spec(s, id);
        if s.last().id@ != id {
            assert(fs == ft.push(s.last()));
            assert forall|i: int, j: int| 0 <= i < j < fs.len() implies fs[i].id@
                != fs[j].id@ by {
                if j == fs.len() - 1 {
                    assert(fs[i] == ft[i]);
                    assert(has_note_id(ft, ft[i].id@));
                    assert(has_note_id(t, ft[i].id@));
                    if fs[i].id@ == s.last().id@ {
                        let k = choose|k: int| 0 <= k < t.len() && t[k].id@ == fs[i].id@;
                        assert(s[k].id@ == s[s.len() - 1].id@);
                        assert(false);
                    }
                }
            }
            assert forall|x: Seq<char>| has_note_id(fs, x) implies has_note_id(s, x) by {
                let i = choose|i: int| 0 <= i < fs.len() && fs[i].id@ == x;
                if i == fs.len() - 1 {
                    assert(s[s.len() - 1].id@ == x);
                } else {
                    assert(fs[i] == ft[i]);
                    assert(has_note_id(ft, x));
                    assert(has_note_id(t, x));
                    let k = choose|k: int| 0 <= k < t.len() && t[k].id@ == x;
                    assert(s[k].id@ == x);
                }
            }
        } else {
            assert(fs == ft);
            assert forall|x: Seq<char>| has_note_id(fs, x) implies has_note_id(s, x) by {
                assert(has_note_id(ft, x));
                assert(has_note_id(t, x));
                let k = choose|k: int| 0 <= k < t.len() && t[k].id@ == x;
                assert(s[k].id@ == x);
            }
        }
    }
}

proof fn lemma_remove_project_removes(s: Seq<Project>, id: Seq<char>)
    ensures
        !has_project_id(remove_project_spec(s, id), id),
    decreases s.len(),
{
    reveal(Seq::filter);
    if s.len() > 0 {
        lemma_remove_project_removes(s.drop_last(), id);
    }
}

proof fn lemma_remove_project_unique(s: Seq<Project>, id: Seq<char>)
    requires
        projects_unique(s),
    ensures
        projects_unique(remove_project_spec(s, id)),
        forall|x: Seq<char>| has_project_id(remove_project_spec(s, id), x) ==> has_project_id(s, x),
    decreases s.len(),
{
    reveal(Seq::filter);
    if s.len() > 0 {
        let t = s.drop_last();
        assert(projects_unique(t)) by {
            assert(forall|i: int, j: int|
                0 <= i < j < t.len() ==> t[i] == s[i] && t[j] == s[j]);
        }
        lemma_remove_project_unique(t, id);
        let ft = remove_project_spec(t, id);
        let fs = remove_project_spec(s, id);
        if s.last().id@ != id {
            assert(fs == ft.push(s.last()));
            assert forall|i: int, j: int| 0 <= i < j < fs.len() implies fs[i].id@
                != fs[j].id@ by {
                if j == fs.len() - 1 {
                    assert(fs[i] == ft[i]);
                    assert(has_project_id(ft, ft[i].id@));
                    assert(has_project_id(t, ft[i].id@));
                    if fs[i].id@ == s.last().id@ {
                        let k = choose|k: int| 0 <= k < t.len() && t[k].id@ == fs[i].id@;
                        assert(s[k].id@ == s[s.len() - 1].id@);
                        assert(false);
                    }
                }
            }
            assert forall|x: Seq<char>| has_project_id(fs, x) implies has_project_id(s, x) by {
                let i = choose|i: int| 0 <= i < fs.len() && fs[i].id@ == x;
                if i == fs.len() - 1 {
                    assert(s[s.len() - 1].id@ == x);
                } else {
                    assert(fs[i] == ft[i]);
                    assert(has_project_id(ft, x));
                    assert(has_project_id(t, x));
                    let k = choose|k: int| 0 <= k < t.len() && t[k].id@ == x;
                    assert(s[k].id@ == x);
                }
            }
        } else {
            assert(fs == ft);
            assert forall|x: Seq<char>| has_project_id(fs, x) implies has_project_id(s, x) by {
                assert(has_project_id(ft, x));
                assert(has_project_id(t, x));
                let k = choose|k: int| 0 <= k < t.len() && t[k].id@ == x;
                assert(s[k].id@ == x);
            }
        }
    }
}

proof fn lemma_remove_note_absent(s: Seq<Note>, id: Seq<char>)
    requires
        !has_note_id(s, id),
    ensures
        remove_note_spec(s, id) == s,
    decreases s.len(),
{
    reveal(Seq::filter);
    if s.len() > 0 {
        let t = s.drop_last();
        assert(!has_note_id(t, id)) by {
            if has_note_id(t, id) {
                let k = choose|k: int| 0 <= k < t.len() && t[k].id@ == id;
                assert(s[k].id@ == id);
            }
        }
        lemma_remove_note_absent(t, id);
        assert(s[s.len() - 1].id@ != id);
        assert(remove_note_spec(s, id) =~= s);
    }
}

proof fn lemma_remove_project_absent(s: Seq<Project>, id: Seq<char>)
    requires
        !has_project_id(s, id),
    ensures
        remove_project_spec(s, id) == s,
    decreases s.len(),
{
    reveal(Seq::filter);
    if s.len() > 0 {
        let t = s.drop_last();
        assert(!has_project_id(t, id)) by {
            if has_project_id(t, id) {
                let k = choose|k: int| 0 <= k < t.len() && t[k].id@ == id;
                assert(s[k].id@ == id);
            }
        }
        lemma_remove_project_absent(t, id);
        assert(s[s.len() - 1].id@ != id);
        assert(remove_project_spec(s, id) =~= s);
    }
}

/// Deleting a note id twice in a row leaves the notes as the first deletion
/// left them: the second pass finds nothing more to remove.
pub proof fn lemma_delete_note_idempotent(s: Seq<Note>, id: Seq<char>)
    ensures
        remove_note_spec(remove_note_spec(s, id), id) == remove_note_spec(s, id),
{
    lemma_remove_note_removes(s, id);
    lemma_remove_note_absent(remove_note_spec(s, id), id);
}

/// Deleting a project id twice in a row leaves the projects as the first
/// deletion left them.
pub proof fn lemma_delete_project_idempotent(s: Seq<Project>, id: Seq<char>)
    ensures
        remove_project_spec(remove_project_spec(s, id), id) == remove_project_spec(s, id),
{
    lemma_remove_project_removes(s, id);
    lemma_remove_project_absent(remove_project_spec(s, id), id);
}

proof fn lemma_notes_with_id_absent(s: Seq<Note>, id: Seq<char>)
    requires
        !has_note_id(s, id),
    ensures
        notes_with_id(s, id) == Seq::<Note>::empty(),
    decreases s.len(),
{
    reveal(Seq::filter);
    if s.len() > 0 {
        let t = s.drop_last();
        assert(!has_note_id(t, id)) by {
            if has_note_id(t, id) {
                let k = choose|k: int| 0 <= k < t.len() && t[k].id@ == id;
                assert(s[k].id@ == id);
            }
        }
        lemma_notes_with_id_absent(t, id);
        assert(s[s.len() - 1].id@ != id);
    }
}

/// Adding a note under a fresh id and then listing yields exactly one entry
/// carrying that id, the added note itself, at the end of the listing.
pub proof fn lemma_add_then_list(s: Seq<Note>, n: Note)
    requires
        !has_note_id(s, n.id@),
    ensures
        notes_with_id(s.push(n), n.id@) == seq![n],
        s.push(n).last() == n,
{
    reveal(Seq::filter);
    let t = s.push(n);
    assert(t.drop_last() =~= s);
    lemma_notes_with_id_absent(s, n.id@);
    assert(notes_with_id(t, n.id@) =~= seq![n]);
}

} // verus!
