//! Notes: selecting note files from a directory listing.
//!
//! The caller reads a directory and hands the library the files it found as
//! plain name/content pairs; the library decides which of them are notes.
//! A note file is one whose name ends in `.txt` or `.md`; everything else is
//! skipped.

use vstd::prelude::*;

verus! {

/// A directory entry handed to the library: a file's name and its text
/// content.
pub struct FileEntry {
    pub name: String,
    pub content: String,
}

/// A note: the name and content of a note file.
pub struct Note {
    pub name: String,
    pub content: String,
}

/// The model of an entry or a note: its name and content as character
/// sequences.
#[verifier::ext_equal]
pub struct EntryModel {
    pub name: Seq<char>,
    pub content: Seq<char>,
}

impl View for FileEntry {
    type V = EntryModel;

    open spec fn view(&self) -> EntryModel {
        EntryModel { name: self.name@, content: self.content@ }
    }
}

impl View for Note {
    type V = EntryModel;

    open spec fn view(&self) -> EntryModel {
        EntryModel { name: self.name@, content: self.content@ }
    }
}

/// Whether `s` ends with `suffix`.
pub open spec fn ends_with(s: Seq<char>, suffix: Seq<char>) -> bool {
    s.len() >= suffix.len() && s.subrange(s.len() - suffix.len(), s.len() as int) == suffix
}

/// Whether a file name marks a note file: it ends in `.txt` or `.md`.
pub open spec fn is_note_name(name: Seq<char>) -> bool {
    ends_with(name, ".txt"@) || ends_with(name, ".md"@)
}

/// The views of a sequence of directory entries.
pub open spec fn views_of_files(files: Seq<FileEntry>) -> Seq<EntryModel> {
    files.map_values(|f: FileEntry| f@)
}

/// The views of a sequence of notes.
pub open spec fn views_of_notes(notes: Seq<Note>) -> Seq<EntryModel> {
    notes.map_values(|n: Note| n@)
}

/// The entries that are notes, in their original order.
pub open spec fn selected_notes(entries: Seq<EntryModel>) -> Seq<EntryModel> {
    entries.filter(|e: EntryModel| is_note_name(e.name))
}

fn ends_with_str(s: &str, suffix: &str) -> (r: bool)
    ensures
        r == ends_with(s@, suffix@),
{
    let n = s.unicode_len();
    let m = suffix.unicode_len();
    if m > n {
        return false;
    }
    let mut i: usize = 0;
    while i < m
        invariant
            i <= m,
            m <= n,
            n == s@.len(),
            m == suffix@.len(),
            forall|j: int| 0 <= j < i ==> s@[n - m + j] == suffix@[j],
        decreases m - i,
    {
        let a = s.get_char(n - m + i);
        let b = suffix.get_char(i);
        if a != b {
            proof {
                let tail = s@.subrange(n - m, n as int);
                assert(tail[i as int] == s@[n - m + i]);
                assert(tail != suffix@);
            }
            return false;
        }
        i += 1;
    }
    proof {
        assert(s@.subrange(n - m, n as int) =~= suffix@);
    }
    true
}

/// Whether this file name marks a note file (it ends in `.txt` or `.md`).
pub fn is_note_file_name(name: &str) -> (r: bool)
    ensures
        r == is_note_name(name@),
{
    ends_with_str(name, ".txt") || ends_with_str(name, ".md")
}

/// The provider of notes: remembers which directory the notes live in. The
/// caller lists that directory and hands the files back in; the provider
/// selects the notes among them.
pub struct NoteProvider {
    pub note_folder: String,
}

impl NoteProvider {
    /// The notes among the given files: exactly those whose name ends in
    /// `.txt` or `.md`, in their original order, each with its name and
    /// content unchanged.
    pub fn get_notes(&self, files: &Vec<FileEntry>) -> (notes: Vec<Note>)
        ensures
            views_of_notes(notes@) == selected_notes(views_of_files(files@)),
    {
        let ghost all = views_of_files(files@);
        let mut notes: Vec<Note> = Vec::new();
        let mut i: usize = 0;
        proof {
            assert(views_of_notes(notes@) =~= selected_notes(all.take(0)));
        }
        while i < files.len()
            invariant
                i <= files.len(),
                all == views_of_files(files@),
                all.len() == files@.len(),
                views_of_notes(notes@) == selected_notes(all.take(i as int)),
            decreases files.len() - i,
        {
            let f = &files[i];
            proof {
                reveal(Seq::filter);
                assert(all[i as int] == f@);
                assert(all.take(i + 1).drop_last() =~= all.take(i as int));
                assert(all.take(i + 1).last() == all[i as int]);
            }
            if is_note_file_name(f.name.as_str()) {
                notes.push(Note { name: f.name.clone(), content: f.content.clone() });
                proof {
                    assert(views_of_notes(notes@) =~= selected_notes(all.take(i + 1)));
                }
            } else {
                proof {
                    assert(views_of_notes(notes@) =~= selected_notes(all.take(i + 1)));
                }
            }
            i += 1;
        }
        proof {
            assert(all.take(files@.len() as int) =~= all);
        }
        notes
    }
}

} // verus!
