//! File records and the outcome types of rename execution.
//!
//! Each exec type is mirrored by a plain mathematical model (sequences of
//! characters in place of strings), and every contract in the crate speaks
//! of records through these models.

use vstd::prelude::*;

use crate::date::Date;

verus! {

/// One imported file: identity, names, location and the user's annotations.
///
/// `new_name` is never set directly by a caller: every catalog operation
/// recomputes it for the whole batch from the other fields, the record's
/// position, the batch size and the current prefix.
pub struct FileEntry {
    pub id: String,
    pub old_name: String,
    pub new_name: String,
    pub path: String,
    pub asset_url: String,
    pub date: Date,
    pub tags: Vec<String>,
    pub suffix: String,
}

/// The mathematical value of a [`FileEntry`].
pub struct RecordModel {
    pub id: Seq<char>,
    pub old_name: Seq<char>,
    pub new_name: Seq<char>,
    pub path: Seq<char>,
    pub asset_url: Seq<char>,
    pub date: Date,
    pub tags: Seq<Seq<char>>,
    pub suffix: Seq<char>,
}

impl View for FileEntry {
    type V = RecordModel;

    open spec fn view(&self) -> RecordModel {
        RecordModel {
            id: self.id@,
            old_name: self.old_name@,
            new_name: self.new_name@,
            path: self.path@,
            asset_url: self.asset_url@,
            date: self.date,
            tags: str_views(self.tags@),
            suffix: self.suffix@,
        }
    }
}

/// The models of a sequence of records, in order.
pub open spec fn models(s: Seq<FileEntry>) -> Seq<RecordModel> {
    s.map_values(|f: FileEntry| f@)
}

/// The character sequences of a sequence of strings, in order.
pub open spec fn str_views(s: Seq<String>) -> Seq<Seq<char>> {
    s.map_values(|t: String| t@)
}

/// One per-file failure: the label shown to the user and the message.
pub struct RenameError {
    pub file: String,
    pub error: String,
}

/// The mathematical value of a [`RenameError`].
pub struct ErrorModel {
    pub file: Seq<char>,
    pub error: Seq<char>,
}

impl View for RenameError {
    type V = ErrorModel;

    open spec fn view(&self) -> ErrorModel {
        ErrorModel { file: self.file@, error: self.error@ }
    }
}

/// The models of a sequence of errors, in order.
pub open spec fn error_models(s: Seq<RenameError>) -> Seq<ErrorModel> {
    s.map_values(|e: RenameError| e@)
}

/// The report of one execution batch: how many files were renamed, how many
/// failed, and one labelled message per failure. Produced even under partial
/// failure; no failure aborts the batch.
pub struct RenameResult {
    pub success_count: u32,
    pub error_count: u32,
    pub errors: Vec<RenameError>,
}

/// One executed rename, as the host's history tracks it: the path before
/// and the path after. The catalog itself keeps no history.
pub struct RenameHistoryEntry {
    pub old_path: String,
    pub new_path: String,
}

/// Copies a tag list; the copy holds the very same string values.
pub fn clone_tags(v: &Vec<String>) -> (r: Vec<String>)
    ensures
        r@ == v@,
{
    let mut r: Vec<String> = Vec::new();
    let mut i: usize = 0;
    while i < v.len()
        invariant
            i <= v.len(),
            r@ == v@.take(i as int),
        decreases v.len() - i,
    {
        r.push(v[i].clone());
        proof {
            assert(r@ =~= v@.take(i + 1 as int));
        }
        i = i + 1;
    }
    proof {
        assert(r@ =~= v@);
    }
    r
}

impl Clone for FileEntry {
    /// Copies a record field by field; the copy has the original's model.
    fn clone(&self) -> (r: Self)
        ensures
            r@ == self@,
    {
        FileEntry {
            id: self.id.clone(),
            old_name: self.old_name.clone(),
            new_name: self.new_name.clone(),
            path: self.path.clone(),
            asset_url: self.asset_url.clone(),
            date: self.date,
            tags: clone_tags(&self.tags),
            suffix: self.suffix.clone(),
        }
    }
}

/// Copies a record list; the copy holds records with the same models.
pub fn clone_entries(v: &Vec<FileEntry>) -> (r: Vec<FileEntry>)
    ensures
        models(r@) == models(v@),
{
    let mut r: Vec<FileEntry> = Vec::new();
    let mut i: usize = 0;
    while i < v.len()
        invariant
            i <= v.len(),
            r.len() == i,
            models(r@) == models(v@).take(i as int),
        decreases v.len() - i,
    {
        r.push(v[i].clone());
        proof {
            assert forall|j: int| 0 <= j < i + 1 implies models(r@)[j] == models(v@).take(
                i + 1,
            )[j] by {
                assert(models(r@)[j] == r@[j]@);
                assert(models(v@)[j] == v@[j]@);
            }
            assert(models(r@) =~= models(v@).take(i + 1));
        }
        i = i + 1;
    }
    proof {
        assert(models(r@) =~= models(v@));
    }
    r
}

} // verus!
