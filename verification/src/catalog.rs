//! The file catalog: the shared state behind every command.
//!
//! The catalog is an ordered list of records plus the current prefix.
//! Every mutator edits the records and then recomputes every proposed
//! name from the whole batch, so the stored names are always consistent
//! with the formatter; every mutator also returns a snapshot of the new
//! state for the host to display.

use vstd::prelude::*;

use crate::date::Date;
use crate::entry::FileEntry;
use crate::entry::RecordModel;
use crate::entry::clone_entries;
use crate::entry::models;
use crate::entry::str_views;
use crate::naming::effective_prefix;
use crate::naming::lemma_recompute_stable;
use crate::naming::renamed;
use crate::naming::spec_recompute;
use crate::naming::update_all_new_names;
use crate::paths::display_name;
use crate::paths::display_name_of;

verus! {

/// The shared state: the imported records in order, and the prefix used
/// by every recomputation.
pub struct AppState {
    pub files: Vec<FileEntry>,
    pub prefix: String,
}

/// The mathematical value of an [`AppState`].
pub struct CatalogModel {
    pub files: Seq<RecordModel>,
    pub prefix: Seq<char>,
}

impl View for AppState {
    type V = CatalogModel;

    open spec fn view(&self) -> CatalogModel {
        CatalogModel { files: models(self.files@), prefix: self.prefix@ }
    }
}

/// Every stored name agrees with the formatter on the whole current batch.
pub open spec fn names_consistent(c: CatalogModel) -> bool {
    c.files == spec_recompute(c.files, c.prefix)
}

/// `i` is the position of the first record carrying `id`.
pub open spec fn is_first_match(files: Seq<RecordModel>, id: Seq<char>, i: int) -> bool {
    &&& 0 <= i < files.len()
    &&& files[i].id == id
    &&& forall|j: int| 0 <= j < i ==> files[j].id != id
}

/// The record with its tag list replaced.
pub open spec fn with_tags(r: RecordModel, tags: Seq<Seq<char>>) -> RecordModel {
    RecordModel { tags: tags, ..r }
}

/// The record with its date replaced.
pub open spec fn with_date(r: RecordModel, date: Date) -> RecordModel {
    RecordModel { date: date, ..r }
}

/// The record with its suffix replaced.
pub open spec fn with_suffix(r: RecordModel, suffix: Seq<char>) -> RecordModel {
    RecordModel { suffix: suffix, ..r }
}

/// The batch after replacing the first record carrying `id` wholesale;
/// the whole batch is untouched when no record carries `id`, and so is
/// every other record.
pub open spec fn replace_model(
    files: Seq<RecordModel>,
    id: Seq<char>,
    record: RecordModel,
) -> Seq<RecordModel> {
    files.map(
        |i: int, r: RecordModel|
            if is_first_match(files, id, i) {
                record
            } else {
                r
            },
    )
}

/// The batch after replacing the tag list of the first record carrying
/// `id`; a miss leaves the batch untouched.
pub open spec fn set_tags_model(
    files: Seq<RecordModel>,
    id: Seq<char>,
    tags: Seq<Seq<char>>,
) -> Seq<RecordModel> {
    files.map(
        |i: int, r: RecordModel|
            if is_first_match(files, id, i) {
                with_tags(r, tags)
            } else {
                r
            },
    )
}

/// The batch after replacing the date of the first record carrying `id`;
/// a miss leaves the batch untouched.
pub open spec fn set_date_model(files: Seq<RecordModel>, id: Seq<char>, date: Date) -> Seq<
    RecordModel,
> {
    files.map(
        |i: int, r: RecordModel|
            if is_first_match(files, id, i) {
                with_date(r, date)
            } else {
                r
            },
    )
}

/// The batch after replacing the suffix of the first record carrying `id`;
/// a miss leaves the batch untouched.
pub open spec fn set_suffix_model(
    files: Seq<RecordModel>,
    id: Seq<char>,
    suffix: Seq<char>,
) -> Seq<RecordModel> {
    files.map(
        |i: int, r: RecordModel|
            if is_first_match(files, id, i) {
                with_suffix(r, suffix)
            } else {
                r
            },
    )
}

/// Looks for a string among string values.
pub fn contains_string(v: &Vec<String>, s: &String) -> (r: bool)
    ensures
        r == str_views(v@).contains(s@),
{
    let mut i: usize = 0;
    while i < v.len()
        invariant
            i <= v.len(),
            forall|j: int| 0 <= j < i ==> str_views(v@)[j] != s@,
        decreases v.len() - i,
    {
        if *s == v[i] {
            proof {
                assert(str_views(v@)[i as int] == s@);
            }
            return true;
        }
        i = i + 1;
    }
    proof {
        assert forall|j: int| 0 <= j < str_views(v@).len() implies str_views(v@)[j] != s@ by {}
    }
    false
}

/// Finds the position of the first record carrying `id`, if any.
fn find_by_id(files: &Vec<FileEntry>, id: &String) -> (r: Option<usize>)
    ensures
        match r {
            Option::Some(i) => is_first_match(models(files@), id@, i as int),
            Option::None => forall|j: int| 0 <= j < files@.len() ==> models(files@)[j].id != id@,
        },
{
    let mut i: usize = 0;
    while i < files.len()
        invariant
            i <= files.len(),
            forall|j: int| 0 <= j < i ==> models(files@)[j].id != id@,
        decreases files.len() - i,
    {
        if files[i].id == *id {
            proof {
                assert(models(files@)[i as int].id == id@);
            }
            return Some(i);
        }
        proof {
            assert(models(files@)[i as int].id != id@);
        }
        i = i + 1;
    }
    None
}

/// Swaps the record at `i` for `entry`, keeping every other record.
fn replace_at(files: &mut Vec<FileEntry>, i: usize, entry: FileEntry)
    requires
        i < old(files).len(),
    ensures
        models(final(files)@) == models(old(files)@).update(i as int, entry@),
{
    let mut out: Vec<FileEntry> = Vec::new();
    let mut j: usize = 0;
    while j < files.len()
        invariant
            j <= files.len(),
            out.len() == j,
            i < files.len(),
            files@ == old(files)@,
            models(out@) == models(files@).update(i as int, entry@).take(j as int),
        decreases files.len() - j,
    {
        if j == i {
            out.push(entry.clone());
        } else {
            out.push(files[j].clone());
        }
        proof {
            assert(models(out@) =~= models(files@).update(i as int, entry@).take(j + 1));
        }
        j = j + 1;
    }
    *files = out;
    proof {
        assert(models(old(files)@).update(i as int, entry@).take(old(files)@.len() as int)
            =~= models(old(files)@).update(i as int, entry@));
    }
}

/// Whether every record targeted by `ids` already carries `tag`.
pub open spec fn all_targeted_have(
    files: Seq<RecordModel>,
    ids: Seq<Seq<char>>,
    tag: Seq<char>,
) -> bool {
    forall|i: int|
        0 <= i < files.len() && ids.contains(#[trigger] files[i].id) ==> files[i].tags.contains(tag)
}

/// The tag list without every occurrence of `tag`, order kept.
pub open spec fn without_tag(tags: Seq<Seq<char>>, tag: Seq<char>) -> Seq<Seq<char>>
    decreases tags.len(),
{
    if tags.len() == 0 {
        Seq::empty()
    } else if tags.last() == tag {
        without_tag(tags.drop_last(), tag)
    } else {
        without_tag(tags.drop_last(), tag).push(tags.last())
    }
}

/// The tag list with `tag` appended, unless it is already present.
pub open spec fn with_tag_added(tags: Seq<Seq<char>>, tag: Seq<char>) -> Seq<Seq<char>> {
    if tags.contains(tag) {
        tags
    } else {
        tags.push(tag)
    }
}

/// One record after the toggle: untouched when not targeted; stripped of
/// `tag` when the whole targeted set already had it; carrying `tag`
/// otherwise.
pub open spec fn toggled(r: RecordModel, targeted: bool, remove: bool, tag: Seq<char>) -> RecordModel {
    if !targeted {
        r
    } else if remove {
        RecordModel { tags: without_tag(r.tags, tag), ..r }
    } else {
        RecordModel { tags: with_tag_added(r.tags, tag), ..r }
    }
}

/// The batch after toggling `tag` on the records targeted by `ids`:
/// all-or-nothing on the whole targeted set, never per record.
pub open spec fn toggle_model(files: Seq<RecordModel>, ids: Seq<Seq<char>>, tag: Seq<char>) -> Seq<
    RecordModel,
> {
    files.map(
        |i: int, r: RecordModel| toggled(r, ids.contains(r.id), all_targeted_have(files, ids, tag), tag),
    )
}

/// The batch without the records targeted by `ids`, order kept.
pub open spec fn remove_model(files: Seq<RecordModel>, ids: Seq<Seq<char>>) -> Seq<RecordModel> {
    files.filter(|r: RecordModel| !ids.contains(r.id))
}

/// The batch with the suffix of every record targeted by `ids` emptied.
pub open spec fn clear_suffix_model(files: Seq<RecordModel>, ids: Seq<Seq<char>>) -> Seq<
    RecordModel,
> {
    files.map(
        |i: int, r: RecordModel|
            if ids.contains(r.id) {
                with_suffix(r, Seq::empty())
            } else {
                r
            },
    )
}

/// What `str::to_lowercase` returns: a function of the characters alone.
pub uninterp spec fn lower_of(s: Seq<char>) -> Seq<char>;

/// Whether `needle` occurs contiguously inside `hay`.
pub open spec fn contains_chars(hay: Seq<char>, needle: Seq<char>) -> bool {
    exists|k: int|
        0 <= k && k + needle.len() <= hay.len() && #[trigger] hay.subrange(k, k + needle.len())
            == needle
}

/// Whether a record survives the filter: an empty filter keeps every
/// record, any other matches the lowercased original name against the
/// lowercased filter text.
pub open spec fn matches_filter(r: RecordModel, filter: Seq<char>) -> bool {
    filter.len() == 0 || contains_chars(lower_of(r.old_name), lower_of(filter))
}

/// The records that survive the filter, in stored order.
pub open spec fn filter_model(files: Seq<RecordModel>, filter: Seq<char>) -> Seq<RecordModel> {
    files.filter(|r: RecordModel| matches_filter(r, filter))
}

/// An empty filter keeps the whole batch, in order.
pub proof fn lemma_filter_model_empty(files: Seq<RecordModel>, filter: Seq<char>)
    requires
        filter.len() == 0,
    ensures
        filter_model(files, filter) == files,
    decreases files.len(),
{
    reveal(Seq::filter);
    if files.len() > 0 {
        lemma_filter_model_empty(files.drop_last(), filter);
        assert(filter_model(files, filter) =~= files);
    } else {
        assert(filter_model(files, filter) =~= files);
    }
}

/// Relies on `str::to_lowercase`: the lowercase form of a string depends
/// on its characters alone.
#[verifier::external_body]
fn lowercase(s: &str) -> (r: String)
    ensures
        r@ == lower_of(s@),
{
    s.to_lowercase()
}

/// Compares `needle` against `hay` at offset `k`, character by character.
fn matches_at(hay: &str, needle: &str, k: usize) -> (r: bool)
    requires
        k + needle@.len() <= hay@.len(),
    ensures
        r == (hay@.subrange(k as int, k + needle@.len()) == needle@),
{
    let n = needle.unicode_len();
    let h = hay.unicode_len();
    let mut j: usize = 0;
    while j < n
        invariant
            j <= n,
            n == needle@.len(),
            h == hay@.len(),
            k + n <= h,
            forall|t: int| 0 <= t < j ==> hay@[k + t] == needle@[t],
        decreases n - j,
    {
        if hay.get_char(k + j) != needle.get_char(j) {
            proof {
                assert(hay@.subrange(k as int, k + needle@.len())[j as int] != needle@[j as int]);
            }
            return false;
        }
        j = j + 1;
    }
    proof {
        assert(hay@.subrange(k as int, k + needle@.len()) =~= needle@);
    }
    true
}

/// Scans `hay` for `needle`: true exactly when the pattern occurs as a
/// contiguous substring.
fn str_contains(hay: &str, needle: &str) -> (r: bool)
    ensures
        r == contains_chars(hay@, needle@),
{
    let hn = hay.unicode_len();
    let nn = needle.unicode_len();
    if nn > hn {
        return false;
    }
    if nn == 0 {
        proof {
            assert(hay@.subrange(0, 0 + needle@.len() as int) =~= needle@);
            assert(contains_chars(hay@, needle@));
        }
        return true;
    }
    let mut k: usize = 0;
    while k <= hn - nn
        invariant
            1 <= nn <= hn,
            hn == hay@.len(),
            nn == needle@.len(),
            k <= hn - nn + 1,
            forall|t: int| 0 <= t < k ==> #[trigger] hay@.subrange(t, t + needle@.len()) != needle@,
        decreases hn - nn + 1 - k,
    {
        if matches_at(hay, needle, k) {
            proof {
                assert(hay@.subrange(k as int, k + needle@.len()) == needle@);
            }
            return true;
        }
        k = k + 1;
    }
    false
}

/// Relies on `uuid::Uuid::new_v4` and its hyphenated rendering: a fresh
/// random identifier, 36 characters long. Nothing relates two calls.
#[verifier::external_body]
fn fresh_id() -> (id: String)
    ensures
        id@.len() == 36,
{
    uuid::Uuid::new_v4().to_string()
}

/// A file to import, as the host enumerated it: where it lies, how to
/// display it, and when it was last modified.
pub struct ImportItem {
    pub path: String,
    pub asset_url: String,
    pub date: Date,
}

/// The mathematical value of an [`ImportItem`].
pub struct ItemModel {
    pub path: Seq<char>,
    pub asset_url: Seq<char>,
    pub date: Date,
}

impl View for ImportItem {
    type V = ItemModel;

    open spec fn view(&self) -> ItemModel {
        ItemModel { path: self.path@, asset_url: self.asset_url@, date: self.date }
    }
}

/// The models of a sequence of import items, in order.
pub open spec fn item_models(s: Seq<ImportItem>) -> Seq<ItemModel> {
    s.map_values(|it: ImportItem| it@)
}

/// The record a freshly imported file starts from: the display name read
/// out of its path, empty tags and suffix, a name still to be computed,
/// and the identifier it was assigned.
pub open spec fn fresh_record(item: ItemModel, id: Seq<char>) -> RecordModel {
    RecordModel {
        id: id,
        old_name: display_name(item.path),
        new_name: Seq::empty(),
        path: item.path,
        asset_url: item.asset_url,
        date: item.date,
        tags: Seq::empty(),
        suffix: Seq::empty(),
    }
}

/// Copies a tag list with `tag` removed everywhere, order kept.
fn remove_tag(tags: &Vec<String>, tag: &String) -> (r: Vec<String>)
    ensures
        str_views(r@) == without_tag(str_views(tags@), tag@),
{
    let ghost tv = str_views(tags@);
    let mut r: Vec<String> = Vec::new();
    let mut i: usize = 0;
    proof {
        assert(str_views(r@) =~= without_tag(tv.take(0), tag@));
    }
    while i < tags.len()
        invariant
            i <= tags.len(),
            tv == str_views(tags@),
            tv.len() == tags.len(),
            str_views(r@) == without_tag(tv.take(i as int), tag@),
        decreases tags.len() - i,
    {
        proof {
            assert(tv.take(i + 1).drop_last() =~= tv.take(i as int));
            assert(tv.take(i + 1).last() == tv[i as int]);
        }
        if *tag == tags[i] {
            proof {
                assert(str_views(r@) =~= without_tag(tv.take(i + 1), tag@));
            }
        } else {
            r.push(tags[i].clone());
            proof {
                assert(str_views(r@) =~= without_tag(tv.take(i + 1), tag@));
            }
        }
        i = i + 1;
    }
    proof {
        assert(tv.take(tags.len() as int) =~= tv);
    }
    r
}

impl AppState {
    /// An empty catalog under the default prefix.
    pub fn new() -> (s: AppState)
        ensures
            s@.files.len() == 0,
            s@.prefix == seq!['C'],
            names_consistent(s@),
    {
        let prefix = String::from_str("C");
        let files: Vec<FileEntry> = Vec::new();
        proof {
            reveal_strlit("C");
            assert(models(files@) =~= Seq::<RecordModel>::empty());
            assert(spec_recompute(models(files@), prefix@) =~= models(files@));
        }
        AppState { files, prefix }
    }

    /// Empties the catalog; the prefix survives. Nothing is recomputed
    /// because nothing remains.
    pub fn clear_all(&mut self) -> (snapshot: Vec<FileEntry>)
        ensures
            final(self)@.files.len() == 0,
            final(self)@.prefix == old(self)@.prefix,
            names_consistent(final(self)@),
            snapshot@.len() == 0,
    {
        self.files.clear();
        proof {
            assert(models(self.files@) =~= Seq::<RecordModel>::empty());
            assert(spec_recompute(models(self.files@), self.prefix@) =~= models(self.files@));
        }
        clone_entries(&self.files)
    }

    /// Stores a new prefix — an empty one falls back to the default — and
    /// recomputes every name under it.
    pub fn update_prefix(&mut self, prefix: String) -> (snapshot: Vec<FileEntry>)
        ensures
            final(self)@.prefix == effective_prefix(prefix@),
            final(self)@.files == spec_recompute(old(self)@.files, effective_prefix(prefix@)),
            names_consistent(final(self)@),
            models(snapshot@) == final(self)@.files,
    {
        if prefix.as_str().unicode_len() == 0 {
            self.prefix = String::from_str("C");
            proof {
                reveal_strlit("C");
            }
        } else {
            self.prefix = prefix;
        }
        update_all_new_names(&mut self.files, self.prefix.as_str());
        proof {
            lemma_recompute_stable(models(old(self).files@), self.prefix@);
        }
        clone_entries(&self.files)
    }

    /// Replaces the tag list of the record carrying `file_id` — an unknown
    /// id is silently ignored — and recomputes every name.
    pub fn update_tags(&mut self, file_id: String, tags: Vec<String>) -> (snapshot: Vec<FileEntry>)
        ensures
            final(self)@.prefix == old(self)@.prefix,
            final(self)@.files == spec_recompute(
                set_tags_model(old(self)@.files, file_id@, str_views(tags@)),
                old(self)@.prefix,
            ),
            names_consistent(final(self)@),
            models(snapshot@) == final(self)@.files,
    {
        let ghost m = models(self.files@);
        let ghost tv = str_views(tags@);
        match find_by_id(&self.files, &file_id) {
            Some(i) => {
                let mut entry = self.files[i].clone();
                entry.tags = tags;
                proof {
                    assert(entry@ == with_tags(m[i as int], tv));
                }
                replace_at(&mut self.files, i, entry);
                proof {
                    assert forall|j: int| 0 <= j < m.len() implies set_tags_model(
                        m,
                        file_id@,
                        tv,
                    )[j] == models(self.files@)[j] by {
                        if j > i {
                            assert(m[i as int].id == file_id@);
                        }
                    }
                    assert(set_tags_model(m, file_id@, tv) =~= models(self.files@));
                }
            },
            None => {
                proof {
                    assert(set_tags_model(m, file_id@, tv) =~= models(self.files@));
                }
            },
        }
        update_all_new_names(&mut self.files, self.prefix.as_str());
        proof {
            lemma_recompute_stable(set_tags_model(m, file_id@, tv), self.prefix@);
        }
        clone_entries(&self.files)
    }

    /// Replaces the date of the record carrying `file_id` — an unknown id
    /// is silently ignored — and recomputes every name.
    pub fn update_date(&mut self, file_id: String, date: Date) -> (snapshot: Vec<FileEntry>)
        ensures
            final(self)@.prefix == old(self)@.prefix,
            final(self)@.files == spec_recompute(
                set_date_model(old(self)@.files, file_id@, date),
                old(self)@.prefix,
            ),
            names_consistent(final(self)@),
            models(snapshot@) == final(self)@.files,
    {
        let ghost m = models(self.files@);
        match find_by_id(&self.files, &file_id) {
            Some(i) => {
                let mut entry = self.files[i].clone();
                entry.date = date;
                proof {
                    assert(entry@ == with_date(m[i as int], date));
                }
                replace_at(&mut self.files, i, entry);
                proof {
                    assert forall|j: int| 0 <= j < m.len() implies set_date_model(
                        m,
                        file_id@,
                        date,
                    )[j] == models(self.files@)[j] by {
                        if j > i {
                            assert(m[i as int].id == file_id@);
                        }
                    }
                    assert(set_date_model(m, file_id@, date) =~= models(self.files@));
                }
            },
            None => {
                proof {
                    assert(set_date_model(m, file_id@, date) =~= models(self.files@));
                }
            },
        }
        update_all_new_names(&mut self.files, self.prefix.as_str());
        proof {
            lemma_recompute_stable(set_date_model(m, file_id@, date), self.prefix@);
        }
        clone_entries(&self.files)
    }

    /// Replaces the suffix of the record carrying `file_id` — an unknown
    /// id is silently ignored — and recomputes every name.
    pub fn update_suffix(&mut self, file_id: String, suffix: String) -> (snapshot: Vec<FileEntry>)
        ensures
            final(self)@.prefix == old(self)@.prefix,
            final(self)@.files == spec_recompute(
                set_suffix_model(old(self)@.files, file_id@, suffix@),
                old(self)@.prefix,
            ),
            names_consistent(final(self)@),
            models(snapshot@) == final(self)@.files,
    {
        let ghost m = models(self.files@);
        let ghost sv = suffix@;
        match find_by_id(&self.files, &file_id) {
            Some(i) => {
                let mut entry = self.files[i].clone();
                entry.suffix = suffix;
                proof {
                    assert(entry@ == with_suffix(m[i as int], sv));
                }
                replace_at(&mut self.files, i, entry);
                proof {
                    assert forall|j: int| 0 <= j < m.len() implies set_suffix_model(
                        m,
                        file_id@,
                        sv,
                    )[j] == models(self.files@)[j] by {
                        if j > i {
                            assert(m[i as int].id == file_id@);
                        }
                    }
                    assert(set_suffix_model(m, file_id@, sv) =~= models(self.files@));
                }
            },
            None => {
                proof {
                    assert(set_suffix_model(m, file_id@, sv) =~= models(self.files@));
                }
            },
        }
        update_all_new_names(&mut self.files, self.prefix.as_str());
        proof {
            lemma_recompute_stable(set_suffix_model(m, file_id@, sv), self.prefix@);
        }
        clone_entries(&self.files)
    }

    /// Replaces the record carrying `file_id` wholesale — an unknown id is
    /// silently ignored — and recomputes every name. The field-specific
    /// setters are the canonical API; this is their convenience alias for
    /// whole-record edits, with the same recompute-triggering behaviour.
    pub fn update_file(&mut self, file_id: String, new_file: FileEntry) -> (snapshot: Vec<
        FileEntry,
    >)
        ensures
            final(self)@.prefix == old(self)@.prefix,
            final(self)@.files == spec_recompute(
                replace_model(old(self)@.files, file_id@, new_file@),
                old(self)@.prefix,
            ),
            names_consistent(final(self)@),
            models(snapshot@) == final(self)@.files,
    {
        let ghost m = models(self.files@);
        let ghost rv = new_file@;
        match find_by_id(&self.files, &file_id) {
            Some(i) => {
                replace_at(&mut self.files, i, new_file);
                proof {
                    assert forall|j: int| 0 <= j < m.len() implies replace_model(
                        m,
                        file_id@,
                        rv,
                    )[j] == models(self.files@)[j] by {
                        if j > i {
                            assert(m[i as int].id == file_id@);
                        }
                    }
                    assert(replace_model(m, file_id@, rv) =~= models(self.files@));
                }
            },
            None => {
                proof {
                    assert(replace_model(m, file_id@, rv) =~= models(self.files@));
                }
            },
        }
        update_all_new_names(&mut self.files, self.prefix.as_str());
        proof {
            lemma_recompute_stable(replace_model(m, file_id@, rv), self.prefix@);
        }
        clone_entries(&self.files)
    }

    /// Toggles `tag` across the records carrying one of `file_ids`,
    /// all-or-nothing: when every targeted record already has the tag it is
    /// removed from all of them, otherwise it is added to each one lacking
    /// it. Every name is then recomputed.
    pub fn toggle_tag(&mut self, file_ids: Vec<String>, tag: String) -> (snapshot: Vec<FileEntry>)
        ensures
            final(self)@.prefix == old(self)@.prefix,
            final(self)@.files == spec_recompute(
                toggle_model(old(self)@.files, str_views(file_ids@), tag@),
                old(self)@.prefix,
            ),
            names_consistent(final(self)@),
            models(snapshot@) == final(self)@.files,
    {
        let ghost m = models(self.files@);
        let ghost idv = str_views(file_ids@);
        let mut all = true;
        let mut i: usize = 0;
        while i < self.files.len()
            invariant
                i <= self.files.len(),
                m == models(self.files@),
                m.len() == self.files.len(),
                idv == str_views(file_ids@),
                all == (forall|k: int|
                    0 <= k < i && idv.contains(#[trigger] m[k].id) ==> m[k].tags.contains(tag@)),
            decreases self.files.len() - i,
        {
            let mut violation = false;
            if contains_string(&file_ids, &self.files[i].id) {
                if !contains_string(&self.files[i].tags, &tag) {
                    violation = true;
                    all = false;
                }
            }
            proof {
                assert(m[i as int] == self.files@[i as int]@);
                if violation {
                    assert(idv.contains(m[i as int].id) && !m[i as int].tags.contains(tag@));
                    assert(!(forall|k: int|
                        0 <= k < i + 1 && idv.contains(#[trigger] m[k].id)
                            ==> m[k].tags.contains(tag@)));
                } else if all {
                    assert forall|k: int|
                        0 <= k < i + 1 && idv.contains(#[trigger] m[k].id) implies m[k].tags.contains(
                        tag@,
                    ) by {}
                } else {
                    let k0 = choose|k: int|
                        0 <= k < i && idv.contains(#[trigger] m[k].id) && !m[k].tags.contains(tag@);
                    assert(0 <= k0 < i + 1 && idv.contains(m[k0].id) && !m[k0].tags.contains(tag@));
                    assert(!(forall|k: int|
                        0 <= k < i + 1 && idv.contains(#[trigger] m[k].id)
                            ==> m[k].tags.contains(tag@)));
                }
            }
            i = i + 1;
        }
        proof {
            assert(all == all_targeted_have(m, idv, tag@));
        }
        let mut out: Vec<FileEntry> = Vec::new();
        let mut j: usize = 0;
        while j < self.files.len()
            invariant
                j <= self.files.len(),
                out.len() == j,
                m == models(self.files@),
                m.len() == self.files.len(),
                idv == str_views(file_ids@),
                all == all_targeted_have(m, idv, tag@),
                models(out@) == toggle_model(m, idv, tag@).take(j as int),
            decreases self.files.len() - j,
        {
            if contains_string(&file_ids, &self.files[j].id) {
                let mut entry = self.files[j].clone();
                if all {
                    entry.tags = remove_tag(&entry.tags, &tag);
                } else {
                    if !contains_string(&entry.tags, &tag) {
                        entry.tags.push(tag.clone());
                        proof {
                            assert(str_views(entry.tags@) =~= with_tag_added(
                                m[j as int].tags,
                                tag@,
                            ));
                        }
                    }
                }
                out.push(entry);
            } else {
                out.push(self.files[j].clone());
            }
            proof {
                assert(models(out@) =~= toggle_model(m, idv, tag@).take(j + 1));
            }
            j = j + 1;
        }
        self.files = out;
        proof {
            assert(toggle_model(m, idv, tag@).take(m.len() as int) =~= toggle_model(m, idv, tag@));
        }
        update_all_new_names(&mut self.files, self.prefix.as_str());
        proof {
            lemma_recompute_stable(toggle_model(m, idv, tag@), self.prefix@);
        }
        clone_entries(&self.files)
    }

    /// Deletes the records carrying one of `file_ids`, keeping the order of
    /// the rest, and recomputes every name: sequence numbers shift.
    pub fn remove_files(&mut self, file_ids: Vec<String>) -> (snapshot: Vec<FileEntry>)
        ensures
            final(self)@.prefix == old(self)@.prefix,
            final(self)@.files == spec_recompute(
                remove_model(old(self)@.files, str_views(file_ids@)),
                old(self)@.prefix,
            ),
            names_consistent(final(self)@),
            models(snapshot@) == final(self)@.files,
    {
        let ghost m = models(self.files@);
        let ghost idv = str_views(file_ids@);
        let mut out: Vec<FileEntry> = Vec::new();
        let mut j: usize = 0;
        proof {
            reveal(Seq::filter);
            assert(models(out@) =~= remove_model(m.take(0), idv));
        }
        while j < self.files.len()
            invariant
                j <= self.files.len(),
                m == models(self.files@),
                m.len() == self.files.len(),
                idv == str_views(file_ids@),
                models(out@) == remove_model(m.take(j as int), idv),
            decreases self.files.len() - j,
        {
            let keep = !contains_string(&file_ids, &self.files[j].id);
            if keep {
                out.push(self.files[j].clone());
            }
            proof {
                reveal(Seq::filter);
                assert(m.take(j + 1).drop_last() =~= m.take(j as int));
                assert(m.take(j + 1).last() == m[j as int]);
                assert(models(out@) =~= remove_model(m.take(j + 1), idv));
            }
            j = j + 1;
        }
        self.files = out;
        proof {
            assert(m.take(m.len() as int) =~= m);
        }
        update_all_new_names(&mut self.files, self.prefix.as_str());
        proof {
            lemma_recompute_stable(remove_model(m, idv), self.prefix@);
        }
        clone_entries(&self.files)
    }

    /// Empties the suffix of the records carrying one of `file_ids` and
    /// recomputes every name.
    pub fn clear_suffix(&mut self, file_ids: Vec<String>) -> (snapshot: Vec<FileEntry>)
        ensures
            final(self)@.prefix == old(self)@.prefix,
            final(self)@.files == spec_recompute(
                clear_suffix_model(old(self)@.files, str_views(file_ids@)),
                old(self)@.prefix,
            ),
            names_consistent(final(self)@),
            models(snapshot@) == final(self)@.files,
    {
        let ghost m = models(self.files@);
        let ghost idv = str_views(file_ids@);
        let mut out: Vec<FileEntry> = Vec::new();
        let mut j: usize = 0;
        while j < self.files.len()
            invariant
                j <= self.files.len(),
                out.len() == j,
                m == models(self.files@),
                m.len() == self.files.len(),
                idv == str_views(file_ids@),
                models(out@) == clear_suffix_model(m, idv).take(j as int),
            decreases self.files.len() - j,
        {
            if contains_string(&file_ids, &self.files[j].id) {
                let mut entry = self.files[j].clone();
                entry.suffix = String::new();
                out.push(entry);
            } else {
                out.push(self.files[j].clone());
            }
            proof {
                assert(models(out@) =~= clear_suffix_model(m, idv).take(j + 1));
            }
            j = j + 1;
        }
        self.files = out;
        proof {
            assert(clear_suffix_model(m, idv).take(m.len() as int) =~= clear_suffix_model(m, idv));
        }
        update_all_new_names(&mut self.files, self.prefix.as_str());
        proof {
            lemma_recompute_stable(clear_suffix_model(m, idv), self.prefix@);
        }
        clone_entries(&self.files)
    }

    /// Returns the records whose original name contains the filter text,
    /// matched case-insensitively; an empty filter returns the whole
    /// catalog. A copy is returned: the stored catalog keeps its order and
    /// membership untouched.
    pub fn filter_files(&self, filter: String) -> (result: Vec<FileEntry>)
        ensures
            models(result@) == filter_model(self@.files, filter@),
            filter@.len() == 0 ==> models(result@) == self@.files,
    {
        let ghost m = models(self.files@);
        if filter.as_str().unicode_len() == 0 {
            let result = clone_entries(&self.files);
            proof {
                lemma_filter_model_empty(m, filter@);
            }
            return result;
        }
        let needle = lowercase(filter.as_str());
        let mut out: Vec<FileEntry> = Vec::new();
        let mut j: usize = 0;
        proof {
            reveal(Seq::filter);
            assert(models(out@) =~= filter_model(m.take(0), filter@));
        }
        while j < self.files.len()
            invariant
                j <= self.files.len(),
                m == models(self.files@),
                m.len() == self.files.len(),
                filter@.len() > 0,
                needle@ == lower_of(filter@),
                models(out@) == filter_model(m.take(j as int), filter@),
            decreases self.files.len() - j,
        {
            let hay = lowercase(self.files[j].old_name.as_str());
            if str_contains(hay.as_str(), needle.as_str()) {
                out.push(self.files[j].clone());
            }
            proof {
                reveal(Seq::filter);
                assert(m.take(j + 1).drop_last() =~= m.take(j as int));
                assert(m.take(j + 1).last() == m[j as int]);
                assert(models(out@) =~= filter_model(m.take(j + 1), filter@));
            }
            j = j + 1;
        }
        proof {
            assert(m.take(m.len() as int) =~= m);
        }
        out
    }

    /// Replaces the whole catalog with records freshly built from `items`
    /// — previous records are gone, never merged — assigning each a fresh
    /// identifier, and computes every name under the stored prefix.
    pub fn import_files_from_dialog(&mut self, items: Vec<ImportItem>) -> (snapshot: Vec<FileEntry>)
        ensures
            final(self)@.prefix == old(self)@.prefix,
            final(self)@.files.len() == items@.len(),
            forall|i: int|
                0 <= i < items@.len() ==> final(self)@.files[i] == renamed(
                    fresh_record(item_models(items@)[i], final(self)@.files[i].id),
                    i,
                    items@.len() as int,
                    old(self)@.prefix,
                ),
            forall|i: int|
                0 <= i < items@.len() ==> (#[trigger] final(self)@.files[i]).id.len() == 36,
            names_consistent(final(self)@),
            models(snapshot@) == final(self)@.files,
    {
        let ghost im = item_models(items@);
        let mut entries: Vec<FileEntry> = Vec::new();
        let mut i: usize = 0;
        while i < items.len()
            invariant
                i <= items.len(),
                entries.len() == i,
                im == item_models(items@),
                im.len() == items@.len(),
                forall|j: int|
                    0 <= j < i ==> #[trigger] models(entries@)[j] == fresh_record(
                        im[j],
                        models(entries@)[j].id,
                    ) && models(entries@)[j].id.len() == 36,
            decreases items.len() - i,
        {
            let id = fresh_id();
            let name = display_name_of(items[i].path.as_str());
            let entry = FileEntry {
                id,
                old_name: name,
                new_name: String::new(),
                path: items[i].path.clone(),
                asset_url: items[i].asset_url.clone(),
                date: items[i].date,
                tags: Vec::new(),
                suffix: String::new(),
            };
            proof {
                assert(str_views(entry.tags@) =~= Seq::<Seq<char>>::empty());
                assert(entry@ == fresh_record(im[i as int], entry@.id));
            }
            let ghost prev = entries@;
            let ghost ev = entry@;
            entries.push(entry);
            proof {
                assert forall|j: int| 0 <= j < i + 1 implies #[trigger] models(entries@)[j]
                    == fresh_record(im[j], models(entries@)[j].id) && models(
                    entries@,
                )[j].id.len() == 36 by {
                    if j < i {
                        assert(models(entries@)[j] == prev[j]@);
                        assert(models(prev)[j] == prev[j]@);
                    } else {
                        assert(models(entries@)[j] == ev);
                    }
                }
            }
            i = i + 1;
        }
        let ghost pre = models(entries@);
        update_all_new_names(&mut entries, self.prefix.as_str());
        self.files = entries;
        proof {
            lemma_recompute_stable(pre, self.prefix@);
            assert forall|i: int| 0 <= i < items@.len() implies models(self.files@)[i] == renamed(
                fresh_record(im[i], models(self.files@)[i].id),
                i,
                items@.len() as int,
                self.prefix@,
            ) by {
                assert(models(self.files@)[i] == renamed(
                    pre[i],
                    i,
                    pre.len() as int,
                    self.prefix@,
                ));
                assert(pre[i] == fresh_record(im[i], pre[i].id));
                assert(models(self.files@)[i].id == pre[i].id);
            }
            assert forall|i: int| 0 <= i < items@.len() implies (#[trigger] models(
                self.files@,
            )[i]).id.len() == 36 by {
                assert(models(self.files@)[i].id == pre[i].id);
            }
        }
        clone_entries(&self.files)
    }
}

} // verus!
