//! Laws of the library that span several operations, stated and proved
//! over the same models the operations' own contracts use.

use vstd::prelude::*;

use crate::catalog::all_targeted_have;
use crate::catalog::toggle_model;
use crate::catalog::with_tag_added;
use crate::catalog::without_tag;
use crate::entry::RecordModel;
use crate::naming::spec_recompute;
use crate::nums::dec_width;
use crate::nums::lemma_dec_width_is_digit_count;
use crate::nums::lemma_dec_width_monotone;
use crate::nums::padded_digits;

verus! {

/// The sequence field of a computed name is exactly as wide as the batch
/// total's decimal digit count: a 1-based position inside the batch never
/// has more digits than the total, so the zero-padding never overflows.
pub proof fn lemma_sequence_width(index: int, total: int)
    requires
        0 <= index < total,
    ensures
        padded_digits((index + 1) as nat, dec_width(total as nat)).len() == dec_width(
            total as nat,
        ),
{
    lemma_dec_width_monotone((index + 1) as nat, total as nat);
    lemma_dec_width_is_digit_count((index + 1) as nat);
}

/// Removing a tag removes every occurrence of it.
pub proof fn lemma_without_tag_gone(tags: Seq<Seq<char>>, tag: Seq<char>)
    ensures
        !without_tag(tags, tag).contains(tag),
    decreases tags.len(),
{
    if tags.len() > 0 {
        lemma_without_tag_gone(tags.drop_last(), tag);
        let w = without_tag(tags.drop_last(), tag);
        if tags.last() != tag && without_tag(tags, tag).contains(tag) {
            let k = choose|k: int|
                0 <= k < without_tag(tags, tag).len() && without_tag(tags, tag)[k] == tag;
            if k < w.len() {
                assert(w[k] == tag);
            }
            assert(false);
        }
    }
}

/// Adding a tag leaves it present.
pub proof fn lemma_with_tag_added_has(tags: Seq<Seq<char>>, tag: Seq<char>)
    ensures
        with_tag_added(tags, tag).contains(tag),
{
    if !tags.contains(tag) {
        assert(tags.push(tag)[tags.len() as int] == tag);
    }
}

/// Toggling a tag is all-or-nothing over the targeted set, also after the
/// recomputation that follows it: when every targeted record already had
/// the tag, none of them has it afterwards; when at least one lacked it,
/// all of them have it afterwards. Untargeted records keep their tags.
pub proof fn lemma_toggle_all_or_nothing(
    files: Seq<RecordModel>,
    ids: Seq<Seq<char>>,
    tag: Seq<char>,
    prefix: Seq<char>,
)
    ensures
        forall|i: int|
            0 <= i < files.len() && ids.contains(
                #[trigger] spec_recompute(toggle_model(files, ids, tag), prefix)[i].id,
            ) ==> (spec_recompute(toggle_model(files, ids, tag), prefix)[i].tags.contains(tag)
                <==> !all_targeted_have(files, ids, tag)),
        forall|i: int|
            0 <= i < files.len() && !ids.contains(
                #[trigger] spec_recompute(toggle_model(files, ids, tag), prefix)[i].id,
            ) ==> spec_recompute(toggle_model(files, ids, tag), prefix)[i].tags == files[i].tags,
{
    let mid = toggle_model(files, ids, tag);
    let out = spec_recompute(mid, prefix);
    let remove = all_targeted_have(files, ids, tag);
    assert forall|i: int| 0 <= i < files.len() implies out[i].id == files[i].id && out[i].tags
        == mid[i].tags by {}
    assert forall|i: int|
        0 <= i < files.len() && ids.contains(#[trigger] out[i].id) implies (out[i].tags.contains(
        tag,
    ) <==> !remove) by {
        if remove {
            lemma_without_tag_gone(files[i].tags, tag);
        } else {
            lemma_with_tag_added_has(files[i].tags, tag);
        }
    }
}

/// A directory's relevant contents: which file, identified abstractly,
/// sits at which path.
pub open spec fn apply_move(
    fs: Map<Seq<char>, nat>,
    from: Seq<char>,
    to: Seq<char>,
) -> Map<Seq<char>, nat> {
    if fs.dom().contains(from) {
        fs.remove(from).insert(to, fs[from])
    } else {
        fs
    }
}

/// The moves of a batch applied one after the other, in order.
pub open spec fn apply_moves(
    fs: Map<Seq<char>, nat>,
    pairs: Seq<(Seq<char>, Seq<char>)>,
) -> Map<Seq<char>, nat>
    decreases pairs.len(),
{
    if pairs.len() == 0 {
        fs
    } else {
        apply_moves(apply_move(fs, pairs[0].0, pairs[0].1), pairs.drop_first())
    }
}

/// Each pair reversed in place: what an undo batch attempts, in the same
/// order the history records.
pub open spec fn reversed_pairs(pairs: Seq<(Seq<char>, Seq<char>)>) -> Seq<(Seq<char>, Seq<char>)> {
    pairs.map(|i: int, p: (Seq<char>, Seq<char>)| (p.1, p.0))
}

/// The moves of a batch touch pairwise distinct paths: sources are
/// distinct, destinations are distinct, and no destination is also a
/// source.
pub open spec fn independent_pairs(pairs: Seq<(Seq<char>, Seq<char>)>) -> bool {
    &&& forall|i: int, j: int|
        0 <= i < pairs.len() && 0 <= j < pairs.len() && i != j ==> (#[trigger] pairs[i]).0 != (
        #[trigger] pairs[j]).0
    &&& forall|i: int, j: int|
        0 <= i < pairs.len() && 0 <= j < pairs.len() && i != j ==> (#[trigger] pairs[i]).1 != (
        #[trigger] pairs[j]).1
    &&& forall|i: int, j: int|
        0 <= i < pairs.len() && 0 <= j < pairs.len() ==> (#[trigger] pairs[i]).1 != (
        #[trigger] pairs[j]).0
}

/// Two moves over four distinct paths can be applied in either order.
proof fn lemma_move_commutes(
    fs: Map<Seq<char>, nat>,
    f1: Seq<char>,
    t1: Seq<char>,
    f2: Seq<char>,
    t2: Seq<char>,
)
    requires
        f1 != f2,
        f1 != t2,
        t1 != f2,
        t1 != t2,
    ensures
        apply_move(apply_move(fs, f1, t1), f2, t2) == apply_move(apply_move(fs, f2, t2), f1, t1),
{
    assert(apply_move(apply_move(fs, f1, t1), f2, t2) =~= apply_move(
        apply_move(fs, f2, t2),
        f1,
        t1,
    ));
}

/// One move over paths foreign to a whole batch commutes past it.
proof fn lemma_move_commutes_list(
    fs: Map<Seq<char>, nat>,
    pairs: Seq<(Seq<char>, Seq<char>)>,
    f: Seq<char>,
    t: Seq<char>,
)
    requires
        forall|i: int|
            0 <= i < pairs.len() ==> (#[trigger] pairs[i]).0 != f && pairs[i].0 != t && pairs[i].1
                != f && pairs[i].1 != t,
    ensures
        apply_move(apply_moves(fs, pairs), f, t) == apply_moves(apply_move(fs, f, t), pairs),
    decreases pairs.len(),
{
    if pairs.len() > 0 {
        let fs1 = apply_move(fs, pairs[0].0, pairs[0].1);
        lemma_move_commutes_list(fs1, pairs.drop_first(), f, t);
        lemma_move_commutes(fs, pairs[0].0, pairs[0].1, f, t);
    }
}

/// Undo is the exact reversal of a successful batch: applying the moves
/// and then their reversals, both in recorded order, restores the
/// directory exactly, provided the batch's paths are pairwise distinct,
/// every source exists and no destination does.
pub proof fn lemma_rename_then_undo_restores(
    fs: Map<Seq<char>, nat>,
    pairs: Seq<(Seq<char>, Seq<char>)>,
)
    requires
        independent_pairs(pairs),
        forall|i: int| 0 <= i < pairs.len() ==> fs.dom().contains((#[trigger] pairs[i]).0),
        forall|i: int| 0 <= i < pairs.len() ==> !fs.dom().contains((#[trigger] pairs[i]).1),
    ensures
        apply_moves(apply_moves(fs, pairs), reversed_pairs(pairs)) == fs,
    decreases pairs.len(),
{
    if pairs.len() > 0 {
        let f0 = pairs[0].0;
        let t0 = pairs[0].1;
        let rest = pairs.drop_first();
        let fs1 = apply_move(fs, f0, t0);
        let applied = apply_moves(fs1, rest);
        assert(reversed_pairs(pairs)[0] == (t0, f0));
        assert(reversed_pairs(pairs).drop_first() =~= reversed_pairs(rest));
        lemma_move_commutes_list(fs1, rest, t0, f0);
        assert(apply_move(fs1, t0, f0) =~= fs);
        assert(apply_moves(applied, reversed_pairs(pairs)) == apply_moves(
            apply_moves(fs, rest),
            reversed_pairs(rest),
        ));
        lemma_rename_then_undo_restores(fs, rest);
    }
}

} // verus!
