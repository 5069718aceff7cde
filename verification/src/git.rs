//! Git status letters of the files in a working tree.
use vstd::prelude::*;
use crate::paths::{joined_path, path_join, paths_equal, same_path};

verus! {

/// Status bits of a file as libgit2 reports them (`git2::Status::bits`).
pub const INDEX_NEW: u32 = 1;
pub const INDEX_MODIFIED: u32 = 2;
pub const INDEX_DELETED: u32 = 4;
pub const INDEX_RENAMED: u32 = 8;
pub const INDEX_TYPECHANGE: u32 = 16;
pub const WT_NEW: u32 = 128;
pub const WT_MODIFIED: u32 = 256;
pub const WT_DELETED: u32 = 512;
pub const WT_TYPECHANGE: u32 = 1024;
pub const WT_RENAMED: u32 = 2048;

/// Whether any of the bits of `flags` is set in `status`.
pub open spec fn has_any(status: u32, flags: u32) -> bool {
    status & flags != 0
}

/// The letter for a status: new (`A`) before modified (`M`), deleted (`D`),
/// renamed (`R`) and type change (`T`), in the index or the working tree;
/// a space otherwise.
pub open spec fn status_letter(status: u32) -> Seq<char> {
    if has_any(status, INDEX_NEW) || has_any(status, WT_NEW) {
        "A"@
    } else if has_any(status, INDEX_MODIFIED) || has_any(status, WT_MODIFIED) {
        "M"@
    } else if has_any(status, INDEX_DELETED) || has_any(status, WT_DELETED) {
        "D"@
    } else if has_any(status, INDEX_RENAMED) || has_any(status, WT_RENAMED) {
        "R"@
    } else if has_any(status, INDEX_TYPECHANGE) || has_any(status, WT_TYPECHANGE) {
        "T"@
    } else {
        " "@
    }
}

/// Converts the status bits of a file to its single letter.
pub fn get_status_char(status: u32) -> (r: &'static str)
    ensures
        r@ == status_letter(status),
{
    if status & INDEX_NEW != 0 || status & WT_NEW != 0 {
        "A"
    } else if status & INDEX_MODIFIED != 0 || status & WT_MODIFIED != 0 {
        "M"
    } else if status & INDEX_DELETED != 0 || status & WT_DELETED != 0 {
        "D"
    } else if status & INDEX_RENAMED != 0 || status & WT_RENAMED != 0 {
        "R"
    } else if status & INDEX_TYPECHANGE != 0 || status & WT_TYPECHANGE != 0 {
        "T"
    } else {
        " "
    }
}


proof fn lemma_status_masks(s: u32)
    by (bit_vector)
    ensures
        (s & (INDEX_NEW | WT_NEW) != 0) == (s & INDEX_NEW != 0 || s & WT_NEW != 0),
        (s & (INDEX_MODIFIED | WT_MODIFIED) != 0) == (s & INDEX_MODIFIED != 0 || s & WT_MODIFIED != 0),
        (s & (INDEX_DELETED | WT_DELETED) != 0) == (s & INDEX_DELETED != 0 || s & WT_DELETED != 0),
        (s & (INDEX_RENAMED | WT_RENAMED) != 0) == (s & INDEX_RENAMED != 0 || s & WT_RENAMED != 0),
        (s & (INDEX_TYPECHANGE | WT_TYPECHANGE) != 0) == (s & INDEX_TYPECHANGE != 0 || s & WT_TYPECHANGE != 0),
{
}

/// Law: each letter stands for its own bits, in order of priority. A file
/// new in the index or the working tree is `A`; otherwise one modified there is
/// `M`, even where it was also deleted, renamed or changed in type; otherwise
/// one deleted is `D`; otherwise one renamed is `R`; otherwise one changed in
/// type is `T`; a file with none of these bits is a blank.
pub proof fn law_status_letter_priority(s: u32)
    ensures
        (status_letter(s) == "A"@) <==> s & (INDEX_NEW | WT_NEW) != 0,
        (status_letter(s) == "M"@) <==> (s & (INDEX_MODIFIED | WT_MODIFIED) != 0
            && s & (INDEX_NEW | WT_NEW) == 0),
        (status_letter(s) == "D"@) <==> (s & (INDEX_DELETED | WT_DELETED) != 0
            && s & (INDEX_NEW | WT_NEW) == 0
            && s & (INDEX_MODIFIED | WT_MODIFIED) == 0),
        (status_letter(s) == "R"@) <==> (s & (INDEX_RENAMED | WT_RENAMED) != 0
            && s & (INDEX_NEW | WT_NEW) == 0
            && s & (INDEX_MODIFIED | WT_MODIFIED) == 0
            && s & (INDEX_DELETED | WT_DELETED) == 0),
        (status_letter(s) == "T"@) <==> (s & (INDEX_TYPECHANGE | WT_TYPECHANGE) != 0
            && s & (INDEX_NEW | WT_NEW) == 0
            && s & (INDEX_MODIFIED | WT_MODIFIED) == 0
            && s & (INDEX_DELETED | WT_DELETED) == 0
            && s & (INDEX_RENAMED | WT_RENAMED) == 0),
        (status_letter(s) == " "@) <==> (s & (INDEX_NEW | WT_NEW) == 0
            && s & (INDEX_MODIFIED | WT_MODIFIED) == 0
            && s & (INDEX_DELETED | WT_DELETED) == 0
            && s & (INDEX_RENAMED | WT_RENAMED) == 0
            && s & (INDEX_TYPECHANGE | WT_TYPECHANGE) == 0),
{
    lemma_status_masks(s);
    reveal_strlit("A");
    reveal_strlit("M");
    reveal_strlit("D");
    reveal_strlit("R");
    reveal_strlit("T");
    reveal_strlit(" ");
    assert("A"@[0] == 'A' && "M"@[0] == 'M' && "D"@[0] == 'D');
    assert("R"@[0] == 'R' && "T"@[0] == 'T' && " "@[0] == ' ');
}


/// The Git status letters of the files of a working tree, each under the full
/// path of its file, in the order in which they were recorded.
pub struct GitStatuses {
    entries: Vec<(String, String)>,
}

impl View for GitStatuses {
    type V = Seq<(Seq<char>, Seq<char>)>;

    closed spec fn view(&self) -> Seq<(Seq<char>, Seq<char>)> {
        self.entries@.map_values(|e: (String, String)| (e.0@, e.1@))
    }
}

/// The letter recorded last among the records marked in `matches`, or a
/// space where none is marked.
pub open spec fn last_marked(statuses: Seq<(Seq<char>, Seq<char>)>, matches: Seq<bool>) -> Seq<char>
    decreases statuses.len(),
{
    if statuses.len() == 0 {
        " "@
    } else if matches[statuses.len() - 1] {
        statuses.last().1
    } else {
        last_marked(statuses.drop_last(), matches)
    }
}

/// The letter recorded last for a path equal to `path`, or a space where
/// there is none: what a map keyed by path holds after all the insertions.
pub open spec fn status_lookup(statuses: Seq<(Seq<char>, Seq<char>)>, path: Seq<char>) -> Seq<char> {
    last_marked(statuses, statuses.map_values(|e: (Seq<char>, Seq<char>)| same_path(e.0, path)))
}

/// What a working tree at `workdir` with the files `files` (path relative to
/// the tree, status bits) records: each file under its full path, with its letter.
pub open spec fn recorded_statuses(workdir: Seq<char>, files: Seq<(String, u32)>) -> Seq<(Seq<char>, Seq<char>)> {
    files.map_values(|f: (String, u32)| (joined_path(workdir, f.0@), status_letter(f.1)))
}

impl GitStatuses {
    /// No statuses: outside a Git working tree.
    pub fn new() -> (r: GitStatuses)
        ensures
            r@ == Seq::<(Seq<char>, Seq<char>)>::empty(),
    {
        let r = GitStatuses { entries: Vec::new() };
        assert(r@ =~= Seq::<(Seq<char>, Seq<char>)>::empty());
        r
    }

    /// Records the status of each file of the working tree at `workdir`.
    pub fn from_status_entries(workdir: &str, files: &[(String, u32)]) -> (r: GitStatuses)
        ensures
            r@ == recorded_statuses(workdir@, files@),
    {
        let mut entries: Vec<(String, String)> = Vec::new();
        let mut i: usize = 0;
        while i < files.len()
            invariant
                i <= files.len(),
                entries.len() == i,
                forall|k: int| 0 <= k < i ==> (#[trigger] entries@[k]).0@ == joined_path(workdir@, files@[k].0@)
                    && entries@[k].1@ == status_letter(files@[k].1),
            decreases files.len() - i,
        {
            let full = path_join(workdir, files[i].0.as_str());
            let letter = get_status_char(files[i].1);
            entries.push((full, letter.to_string()));
            i = i + 1;
        }
        let r = GitStatuses { entries };
        assert(r@ =~= recorded_statuses(workdir@, files@));
        r
    }

    /// The letter recorded last among the records marked in `matches`, a space
    /// where none is marked.
    pub fn status_among(&self, matches: &[bool]) -> (r: String)
        requires
            matches.len() == self@.len(),
        ensures
            r@ == last_marked(self@, matches@),
    {
        let mut i: usize = self.entries.len();
        assert(self@.take(i as int) =~= self@);
        while i > 0
            invariant
                i <= self.entries.len(),
                matches.len() == self.entries.len(),
                last_marked(self@, matches@) == last_marked(self@.take(i as int), matches@),
            decreases i,
        {
            let ghost prefix = self@.take(i as int);
            assert(prefix.drop_last() =~= self@.take(i - 1));
            assert(prefix.last() == (self.entries@[i - 1].0@, self.entries@[i - 1].1@));
            if matches[i - 1] {
                return self.entries[i - 1].1.clone();
            }
            i = i - 1;
        }
        " ".to_string()
    }

    /// The status letter of the file at `path`, a space where none is recorded.
    pub fn status_for(&self, path: &str) -> (r: String)
        ensures
            r@ == status_lookup(self@, path@),
    {
        let ghost marks = self@.map_values(|e: (Seq<char>, Seq<char>)| same_path(e.0, path@));
        let mut matches: Vec<bool> = Vec::new();
        let mut i: usize = 0;
        while i < self.entries.len()
            invariant
                i <= self.entries.len(),
                marks == self@.map_values(|e: (Seq<char>, Seq<char>)| same_path(e.0, path@)),
                matches@ == marks.take(i as int),
            decreases self.entries.len() - i,
        {
            matches.push(paths_equal(self.entries[i].0.as_str(), path));
            i = i + 1;
            assert(matches@ =~= marks.take(i as int));
        }
        assert(matches@ =~= marks);
        self.status_among(matches.as_slice())
    }
}


proof fn lemma_last_marked_at(statuses: Seq<(Seq<char>, Seq<char>)>, matches: Seq<bool>, k: int)
    requires
        statuses.len() <= matches.len(),
        0 <= k < statuses.len(),
        matches[k],
        forall|j: int| k < j < statuses.len() ==> !#[trigger] matches[j],
    ensures
        last_marked(statuses, matches) == statuses[k].1,
    decreases statuses.len(),
{
    if k < statuses.len() - 1 {
        assert(!matches[statuses.len() - 1]);
        lemma_last_marked_at(statuses.drop_last(), matches, k);
    }
}

proof fn lemma_last_marked_none(statuses: Seq<(Seq<char>, Seq<char>)>, matches: Seq<bool>)
    requires
        statuses.len() <= matches.len(),
        forall|j: int| 0 <= j < statuses.len() ==> !#[trigger] matches[j],
    ensures
        last_marked(statuses, matches) == " "@,
    decreases statuses.len(),
{
    if statuses.len() > 0 {
        assert(!matches[statuses.len() - 1]);
        lemma_last_marked_none(statuses.drop_last(), matches);
    }
}

/// Law: a file of the working tree is shown with the letter of its own status
/// bits, where no later file of the tree has a path equal to its path.
pub proof fn law_recorded_status_found(workdir: Seq<char>, files: Seq<(String, u32)>, k: int, path: Seq<char>)
    requires
        0 <= k < files.len(),
        same_path(joined_path(workdir, files[k].0@), path),
        forall|j: int| k < j < files.len() ==> !same_path(joined_path(workdir, #[trigger] files[j].0@), path),
    ensures
        status_lookup(recorded_statuses(workdir, files), path) == status_letter(files[k].1),
{
    let rec = recorded_statuses(workdir, files);
    let marks = rec.map_values(|e: (Seq<char>, Seq<char>)| same_path(e.0, path));
    assert forall|j: int| k < j < rec.len() implies !#[trigger] marks[j] by {
        assert(rec[j].0 == joined_path(workdir, files[j].0@));
    }
    lemma_last_marked_at(rec, marks, k);
}

/// Law: a path that no file of the working tree has is shown with a blank status.
pub proof fn law_unrecorded_status_blank(workdir: Seq<char>, files: Seq<(String, u32)>, path: Seq<char>)
    requires
        forall|j: int| 0 <= j < files.len() ==> !same_path(joined_path(workdir, #[trigger] files[j].0@), path),
    ensures
        status_lookup(recorded_statuses(workdir, files), path) == " "@,
{
    let rec = recorded_statuses(workdir, files);
    let marks = rec.map_values(|e: (Seq<char>, Seq<char>)| same_path(e.0, path));
    assert forall|j: int| 0 <= j < rec.len() implies !#[trigger] marks[j] by {
        assert(rec[j].0 == joined_path(workdir, files[j].0@));
    }
    lemma_last_marked_none(rec, marks);
}

} // verus!
