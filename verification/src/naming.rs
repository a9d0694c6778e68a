//! The naming formatter.
//!
//! A record's proposed base name is a pure function of the record, its
//! zero-based position, the batch total and the prefix:
//! prefix, formatted date, and the 1-based sequence number zero-padded to
//! the digit width of the batch total, joined by underscores; then the
//! tags joined by underscores and the suffix, each with its own leading
//! underscore and omitted entirely when empty.

use vstd::prelude::*;

use crate::date::date_chars;
use crate::date::format_date;
use crate::entry::FileEntry;
use crate::entry::RecordModel;
use crate::entry::models;
use crate::entry::str_views;
use crate::nums::dec_width;
use crate::nums::dec_width_u64;
use crate::nums::padded_digits;
use crate::nums::padded_u64;

verus! {

/// Tags joined by a single underscore, in stored order.
pub open spec fn joined_tags(tags: Seq<Seq<char>>) -> Seq<char>
    decreases tags.len(),
{
    if tags.len() == 0 {
        Seq::empty()
    } else if tags.len() == 1 {
        tags[0]
    } else {
        joined_tags(tags.drop_last()) + seq!['_'] + tags.last()
    }
}

/// The tag section of a name: an underscore and the joined tags, or
/// nothing at all when the record has no tags.
pub open spec fn tags_part(tags: Seq<Seq<char>>) -> Seq<char> {
    if tags.len() == 0 {
        Seq::empty()
    } else {
        seq!['_'] + joined_tags(tags)
    }
}

/// The suffix section of a name: an underscore and the suffix, or nothing
/// at all when the suffix is empty.
pub open spec fn suffix_part(suffix: Seq<char>) -> Seq<char> {
    if suffix.len() == 0 {
        Seq::empty()
    } else {
        seq!['_'] + suffix
    }
}

/// The prefix a name is actually built with: an empty one falls back to
/// the fixed default.
pub open spec fn effective_prefix(p: Seq<char>) -> Seq<char> {
    if p.len() == 0 {
        seq!['C']
    } else {
        p
    }
}

/// The proposed base name of a record at `index` (zero-based) in a batch of
/// `total` records under `prefix`: the 1-based sequence number is padded to
/// the digit width of `total`, and an empty prefix falls back to the fixed
/// default before anything is joined.
pub open spec fn spec_new_name(r: RecordModel, index: int, total: int, prefix: Seq<char>) -> Seq<
    char,
> {
    effective_prefix(prefix) + seq!['_'] + date_chars(r.date) + seq!['_'] + padded_digits(
        (index + 1) as nat,
        dec_width(total as nat),
    ) + tags_part(r.tags) + suffix_part(r.suffix)
}

/// The record with its name recomputed for position `index` in a batch of
/// `total` under `prefix`; every other field is untouched.
pub open spec fn renamed(r: RecordModel, index: int, total: int, prefix: Seq<char>) -> RecordModel {
    RecordModel { new_name: spec_new_name(r, index, total, prefix), ..r }
}

/// The whole batch with every record's name recomputed in place.
pub open spec fn spec_recompute(files: Seq<RecordModel>, prefix: Seq<char>) -> Seq<RecordModel> {
    files.map(|i: int, r: RecordModel| renamed(r, i, files.len() as int, prefix))
}

/// A record's name never feeds its own recomputation: the formatter reads
/// every field but `new_name`, so recomputing an already recomputed batch
/// changes nothing.
pub proof fn lemma_recompute_stable(files: Seq<RecordModel>, prefix: Seq<char>)
    ensures
        spec_recompute(spec_recompute(files, prefix), prefix) == spec_recompute(files, prefix),
{
    let once = spec_recompute(files, prefix);
    assert forall|i: int| 0 <= i < once.len() implies spec_recompute(once, prefix)[i]
        == once[i] by {
        assert(spec_new_name(once[i], i, once.len() as int, prefix) == spec_new_name(
            files[i],
            i,
            files.len() as int,
            prefix,
        ));
    }
    assert(spec_recompute(once, prefix) =~= once);
}

/// Recomputation is total, never incremental: after it, every record's
/// stored name equals the formatter applied to that record at its position
/// in the whole batch.
pub proof fn lemma_names_are_formatter(
    files: Seq<RecordModel>,
    base: Seq<RecordModel>,
    prefix: Seq<char>,
)
    requires
        files == spec_recompute(base, prefix),
    ensures
        forall|i: int|
            0 <= i < files.len() ==> files[i].new_name == spec_new_name(
                files[i],
                i,
                files.len() as int,
                prefix,
            ),
{
    assert forall|i: int| 0 <= i < files.len() implies files[i].new_name == spec_new_name(
        files[i],
        i,
        files.len() as int,
        prefix,
    ) by {
        assert(files[i] == renamed(base[i], i, base.len() as int, prefix));
        assert(spec_new_name(files[i], i, files.len() as int, prefix) == spec_new_name(
            base[i],
            i,
            base.len() as int,
            prefix,
        ));
    }
}

/// Joins the tags with single underscores, in stored order.
pub fn join_tags(tags: &Vec<String>) -> (s: String)
    ensures
        s@ == joined_tags(str_views(tags@)),
{
    let ghost m = str_views(tags@);
    if tags.len() == 0 {
        let s = String::new();
        proof {
            assert(m.len() == 0);
        }
        return s;
    }
    let mut s = tags[0].clone();
    let mut i: usize = 1;
    proof {
        assert(m.take(1) =~= seq![m[0]]);
        assert(joined_tags(m.take(1)) == m[0]);
    }
    while i < tags.len()
        invariant
            1 <= i <= tags.len(),
            m == str_views(tags@),
            m.len() == tags.len(),
            s@ == joined_tags(m.take(i as int)),
        decreases tags.len() - i,
    {
        s.append("_");
        s.append(tags[i].as_str());
        proof {
            reveal_strlit("_");
            assert(m.take(i + 1).drop_last() =~= m.take(i as int));
            assert(m.take(i + 1).last() == m[i as int]);
            assert(s@ =~= joined_tags(m.take(i + 1)));
        }
        i = i + 1;
    }
    proof {
        assert(m.take(tags.len() as int) =~= m);
    }
    s
}

/// Computes the proposed base name of `file` at zero-based position `index`
/// in a batch of `total_files` records under `prefix`; an empty prefix
/// falls back to the fixed default.
pub fn generate_new_name(file: &FileEntry, index: usize, total_files: usize, prefix: &str) -> (name:
    String)
    requires
        index < usize::MAX,
    ensures
        name@ == spec_new_name(file@, index as int, total_files as int, prefix@),
{
    let mut name = if prefix.unicode_len() == 0 {
        let fallback = String::from_str("C");
        proof {
            reveal_strlit("C");
            assert(fallback@ =~= effective_prefix(prefix@));
        }
        fallback
    } else {
        String::from_str(prefix)
    };
    name.append("_");
    let date_part = format_date(&file.date);
    name.append(date_part.as_str());
    name.append("_");
    let width = dec_width_u64(total_files as u64);
    let sequence = padded_u64(index as u64 + 1, width);
    name.append(sequence.as_str());
    if file.tags.len() > 0 {
        name.append("_");
        let tags = join_tags(&file.tags);
        name.append(tags.as_str());
    }
    if file.suffix.as_str().unicode_len() > 0 {
        name.append("_");
        name.append(file.suffix.as_str());
    }
    proof {
        reveal_strlit("_");
        assert(name@ =~= spec_new_name(file@, index as int, total_files as int, prefix@));
    }
    name
}

/// Recomputes every record's proposed name from the whole batch: each name
/// becomes the pure function of the record, its position, the batch size
/// and `prefix`; no other field changes.
pub fn update_all_new_names(files: &mut Vec<FileEntry>, prefix: &str)
    ensures
        models(final(files)@) == spec_recompute(models(old(files)@), prefix@),
{
    let total_files = files.len();
    let mut out: Vec<FileEntry> = Vec::new();
    let mut i: usize = 0;
    while i < files.len()
        invariant
            i <= files.len(),
            out.len() == i,
            total_files == files.len(),
            files@ == old(files)@,
            models(out@) == spec_recompute(models(files@), prefix@).take(i as int),
        decreases files.len() - i,
    {
        let mut entry = files[i].clone();
        let name = generate_new_name(&entry, i, total_files, prefix);
        entry.new_name = name;
        out.push(entry);
        proof {
            let m = models(files@);
            assert(models(out@)[i as int] == renamed(m[i as int], i as int, m.len() as int, prefix@));
            assert(models(out@) =~= spec_recompute(m, prefix@).take(i + 1));
        }
        i = i + 1;
    }
    *files = out;
    proof {
        assert(spec_recompute(models(old(files)@), prefix@).take(
            old(files)@.len() as int,
        ) =~= spec_recompute(models(old(files)@), prefix@));
    }
}

} // verus!
