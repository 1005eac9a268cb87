//! Updating installed dependencies to the snippets Spring Initializr
//! generates now.
use vstd::prelude::*;
use crate::deps::{resolve_key, spec_resolve_key};
use crate::metadata::{dep_keys, Metadata};
use crate::text::{string_views};

verus! {

/// Arguments of the `update` command: dependency keys, possibly none.
pub struct UpdateArgs {
    pub deps: Vec<String>,
}

/// What choosing the dependencies to update tells the user.
pub enum UpdateNote {
    /// A word taken for the key that contains it.
    Resolved(String, String),
    /// A requested dependency that is not installed.
    NotInstalled(String),
}

pub enum UpdateNoteView {
    Resolved(Seq<char>, Seq<char>),
    NotInstalled(Seq<char>),
}

impl View for UpdateNote {
    type V = UpdateNoteView;

    open spec fn view(&self) -> UpdateNoteView {
        match self {
            UpdateNote::Resolved(w, k) => UpdateNoteView::Resolved(w@, k@),
            UpdateNote::NotInstalled(k) => UpdateNoteView::NotInstalled(k@),
        }
    }
}

pub open spec fn update_note_views(v: Seq<UpdateNote>) -> Seq<UpdateNoteView> {
    v.map_values(|n: UpdateNote| n@)
}

/// The key a requested word stands for, or the word itself.
pub open spec fn update_name(d: Seq<char>, keys: Seq<Seq<char>>) -> Seq<char> {
    match spec_resolve_key(d, keys) {
        Some(k) => k,
        None => d,
    }
}

/// What one requested word gives: the dependency to update, if installed,
/// and the notes.
pub open spec fn update_step(d: Seq<char>, existing: Seq<Seq<char>>, keys: Seq<Seq<char>>) -> (Seq<Seq<char>>, Seq<UpdateNoteView>) {
    let r = update_name(d, keys);
    let resolved_note = if r != d { seq![UpdateNoteView::Resolved(d, r)] } else { Seq::empty() };
    if existing.contains(r) {
        (seq![r], resolved_note)
    } else {
        (Seq::empty(), resolved_note.push(UpdateNoteView::NotInstalled(r)))
    }
}

pub open spec fn requested_updates(requested: Seq<Seq<char>>, existing: Seq<Seq<char>>, keys: Seq<Seq<char>>) -> (Seq<Seq<char>>, Seq<UpdateNoteView>)
    decreases requested.len(),
{
    if requested.len() == 0 {
        (Seq::empty(), Seq::empty())
    } else {
        let prev = requested_updates(requested.drop_last(), existing, keys);
        let step = update_step(requested.last(), existing, keys);
        (prev.0 + step.0, prev.1 + step.1)
    }
}

/// The dependencies to update: all installed ones when none is requested,
/// else the requested ones (as resolved to keys) that are installed.
pub open spec fn spec_select_updates(requested: Seq<Seq<char>>, existing: Seq<Seq<char>>, keys: Seq<Seq<char>>) -> (Seq<Seq<char>>, Seq<UpdateNoteView>) {
    if requested.len() == 0 {
        (existing, Seq::empty())
    } else {
        requested_updates(requested, existing, keys)
    }
}

pub fn select_updates(requested: &[String], existing: &[String], meta: &Metadata) -> (r: (Vec<String>, Vec<UpdateNote>))
    ensures
        (string_views(r.0@), update_note_views(r.1@)) == spec_select_updates(string_views(requested@), string_views(existing@), dep_keys(meta)),
{
    let mut out: Vec<String> = Vec::new();
    let mut notes: Vec<UpdateNote> = Vec::new();
    if requested.len() == 0 {
        let mut i: usize = 0;
        while i < existing.len()
            invariant
                i <= existing.len(),
                out@.len() == i,
                forall|k: int| 0 <= k < i ==> #[trigger] out@[k]@ == existing@[k]@,
            decreases existing.len() - i,
        {
            out.push(existing[i].clone());
            i = i + 1;
        }
        assert(string_views(out@) =~= string_views(existing@));
        assert(update_note_views(notes@) =~= Seq::<UpdateNoteView>::empty());
        return (out, notes);
    }
    let ghost rs = string_views(requested@);
    let ghost ex = string_views(existing@);
    let ghost ks = dep_keys(meta);
    let mut i: usize = 0;
    assert(rs.take(0) =~= Seq::<Seq<char>>::empty());
    assert(string_views(out@) =~= Seq::<Seq<char>>::empty());
    assert(update_note_views(notes@) =~= Seq::<UpdateNoteView>::empty());
    while i < requested.len()
        invariant
            i <= requested.len(),
            rs == string_views(requested@),
            ex == string_views(existing@),
            ks == dep_keys(meta),
            (string_views(out@), update_note_views(notes@)) == requested_updates(rs.take(i as int), ex, ks),
        decreases requested.len() - i,
    {
        assert(rs.take(i + 1).drop_last() == rs.take(i as int));
        assert(rs.take(i + 1).last() == requested@[i as int]@);
        let d = &requested[i];
        let ghost step = update_step(d@, ex, ks);
        let ghost before_out = string_views(out@);
        let ghost before_notes = update_note_views(notes@);
        let name = match resolve_key(d.as_str(), meta) {
            Some(k) => k,
            None => d.clone(),
        };
        assert(name@ == update_name(d@, ks));
        if name != *d {
            let n = UpdateNote::Resolved(d.clone(), name.clone());
            assert(update_note_views(notes@.push(n)) =~= update_note_views(notes@).push(n@));
            notes.push(n);
        }
        let mut installed = false;
        let mut j: usize = 0;
        while j < existing.len()
            invariant
                j <= existing.len(),
                ex == string_views(existing@),
                !installed ==> forall|k: int| 0 <= k < j ==> ex[k] != name@,
                installed ==> ex.contains(name@),
            decreases existing.len() - j,
        {
            if existing[j] == name {
                assert(ex[j as int] == name@);
                installed = true;
            }
            j = j + 1;
        }
        if installed {
            assert(string_views(out@.push(name)) =~= string_views(out@).push(name@));
            out.push(name);
            assert(string_views(out@) =~= before_out + step.0);
            assert(update_note_views(notes@) =~= before_notes + step.1);
        } else {
            let n = UpdateNote::NotInstalled(name);
            assert(update_note_views(notes@.push(n)) =~= update_note_views(notes@).push(n@));
            notes.push(n);
            assert(string_views(out@) =~= before_out + step.0);
            assert(update_note_views(notes@) =~= before_notes + step.1);
        }
        i = i + 1;
    }
    assert(rs.take(requested.len() as int) == rs);
    (out, notes)
}

/// Only installed dependencies are ever updated.
pub proof fn lemma_updates_are_installed(requested: Seq<Seq<char>>, existing: Seq<Seq<char>>, keys: Seq<Seq<char>>)
    ensures
        forall|x: Seq<char>| #[trigger] spec_select_updates(requested, existing, keys).0.contains(x) ==> existing.contains(x),
    decreases requested.len(),
{
    if requested.len() > 0 {
        lemma_updates_are_installed(requested.drop_last(), existing, keys);
        let prev = requested_updates(requested.drop_last(), existing, keys);
        let step = update_step(requested.last(), existing, keys);
        assert forall|x: Seq<char>| #[trigger] (prev.0 + step.0).contains(x) implies existing.contains(x) by {
            let i = choose|i: int| 0 <= i < (prev.0 + step.0).len() && (prev.0 + step.0)[i] == x;
            if i < prev.0.len() {
                assert(prev.0[i] == x);
                if requested.drop_last().len() == 0 {
                    assert(prev.0.len() == 0);
                } else {
                    assert(spec_select_updates(requested.drop_last(), existing, keys).0.contains(x));
                }
            } else {
                assert(step.0[i - prev.0.len()] == x);
            }
        }
    }
}

} // verus!
