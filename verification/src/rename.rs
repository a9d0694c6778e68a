//! Rename execution, split from the filesystem.
//!
//! The planner turns records into steps: a recorded failure for a source
//! without an extension, or a source/destination pair for the host to
//! attempt. The host reports one result per step, and the outcome
//! assembler counts successes and failures in plan order and clears the
//! catalog exactly when nothing failed. Undo plans the reversal of a
//! recorded history the same way.

use vstd::prelude::*;

use crate::catalog::AppState;
use crate::catalog::names_consistent;
use crate::entry::ErrorModel;
use crate::entry::FileEntry;
use crate::entry::RecordModel;
use crate::entry::RenameError;
use crate::entry::RenameHistoryEntry;
use crate::entry::RenameResult;
use crate::entry::error_models;
use crate::entry::models;
use crate::naming::spec_recompute;
use crate::paths::extension_of;
use crate::paths::path_extension;
use crate::paths::with_file_name;
use crate::paths::with_tail;

verus! {

/// One planned step of an execution batch.
pub enum RenameStep {
    /// A failure recorded without touching the filesystem: the source path
    /// has no extension. The label names the file in the outcome.
    NoExtension { label: String },
    /// An attempt for the host: rename `from` to `to`. The destination
    /// keeps the source's directory.
    Attempt { label: String, from: String, to: String },
}

/// What the planner owes a record: a recorded failure when its path has no
/// extension, else an attempt from the path to the sibling path carrying
/// the computed name, a dot and the extension.
pub open spec fn step_for(r: RecordModel, step: RenameStep) -> bool {
    match extension_of(r.path) {
        Option::None => match step {
            RenameStep::NoExtension { label } => label@ == r.old_name,
            RenameStep::Attempt { .. } => false,
        },
        Option::Some(ext) => match step {
            RenameStep::NoExtension { .. } => false,
            RenameStep::Attempt { label, from, to } => label@ == r.old_name && from@ == r.path
                && to@ == with_tail(r.path, r.new_name + seq!['.'] + ext),
        },
    }
}

/// The failure a step contributes to the outcome, if any: a planned
/// no-extension failure with its fixed message, or the host's error for an
/// attempt; a successful attempt contributes none.
pub open spec fn step_error(step: RenameStep, result: Option<String>) -> Option<ErrorModel> {
    match step {
        RenameStep::NoExtension { label } => Option::Some(
            ErrorModel { file: label@, error: "File has no extension."@ },
        ),
        RenameStep::Attempt { label, from, to } => match result {
            Option::Some(e) => Option::Some(ErrorModel { file: label@, error: e@ }),
            Option::None => Option::None,
        },
    }
}

/// The failures of a whole batch, in plan order.
pub open spec fn spec_errors(plan: Seq<RenameStep>, results: Seq<Option<String>>) -> Seq<ErrorModel>
    decreases plan.len(),
{
    if plan.len() == 0 {
        Seq::empty()
    } else {
        let init = spec_errors(plan.drop_last(), results.drop_last());
        match step_error(plan.last(), results.last()) {
            Option::Some(e) => init.push(e),
            Option::None => init,
        }
    }
}

/// Never more failures than steps.
pub proof fn lemma_errors_bounded(plan: Seq<RenameStep>, results: Seq<Option<String>>)
    ensures
        spec_errors(plan, results).len() <= plan.len(),
    decreases plan.len(),
{
    if plan.len() > 0 {
        lemma_errors_bounded(plan.drop_last(), results.drop_last());
    }
}

/// Plans an execution batch: one step per record, in order.
pub fn plan_rename(files: &Vec<FileEntry>) -> (plan: Vec<RenameStep>)
    ensures
        plan@.len() == files@.len(),
        forall|i: int| 0 <= i < files@.len() ==> step_for(models(files@)[i], #[trigger] plan@[i]),
{
    let mut plan: Vec<RenameStep> = Vec::new();
    let mut i: usize = 0;
    while i < files.len()
        invariant
            i <= files.len(),
            plan.len() == i,
            forall|j: int| 0 <= j < i ==> step_for(models(files@)[j], #[trigger] plan@[j]),
        decreases files.len() - i,
    {
        let step = match path_extension(files[i].path.as_str()) {
            None => RenameStep::NoExtension { label: files[i].old_name.clone() },
            Some(ext) => {
                let mut tail = files[i].new_name.clone();
                tail.append(".");
                tail.append(ext.as_str());
                let to = with_file_name(files[i].path.as_str(), tail.as_str());
                RenameStep::Attempt {
                    label: files[i].old_name.clone(),
                    from: files[i].path.clone(),
                    to,
                }
            },
        };
        proof {
            reveal_strlit(".");
            assert(("."@) =~= seq!['.']);
            assert(models(files@)[i as int] == files@[i as int]@);
            assert(step_for(models(files@)[i as int], step));
        }
        let ghost prev = plan@;
        plan.push(step);
        proof {
            assert forall|j: int| 0 <= j < i + 1 implies step_for(
                models(files@)[j],
                #[trigger] plan@[j],
            ) by {
                if j < i {
                    assert(plan@[j] == prev[j]);
                }
            }
        }
        i = i + 1;
    }
    plan
}

/// Plans an undo batch: the exact reversal of each recorded rename, in
/// history order, renaming the recorded new path back to the old one.
pub fn plan_undo(history: &Vec<RenameHistoryEntry>) -> (plan: Vec<RenameStep>)
    ensures
        plan@.len() == history@.len(),
        forall|i: int|
            0 <= i < history@.len() ==> (#[trigger] plan@[i] matches RenameStep::Attempt {
                label,
                from,
                to,
            } && label@ == history@[i].new_path@ && from@ == history@[i].new_path@ && to@
                == history@[i].old_path@),
{
    let mut plan: Vec<RenameStep> = Vec::new();
    let mut i: usize = 0;
    while i < history.len()
        invariant
            i <= history.len(),
            plan.len() == i,
            forall|j: int|
                0 <= j < i ==> (#[trigger] plan@[j] matches RenameStep::Attempt { label, from, to }
                    && label@ == history@[j].new_path@ && from@ == history@[j].new_path@ && to@
                    == history@[j].old_path@),
        decreases history.len() - i,
    {
        let step = RenameStep::Attempt {
            label: history[i].new_path.clone(),
            from: history[i].new_path.clone(),
            to: history[i].old_path.clone(),
        };
        let ghost prev = plan@;
        plan.push(step);
        proof {
            assert forall|j: int|
                0 <= j < i + 1 implies (#[trigger] plan@[j] matches RenameStep::Attempt {
                label,
                from,
                to,
            } && label@ == history@[j].new_path@ && from@ == history@[j].new_path@ && to@
                == history@[j].old_path@) by {
                if j < i {
                    assert(plan@[j] == prev[j]);
                }
            }
        }
        i = i + 1;
    }
    plan
}

/// Assembles the outcome of a batch from the host's per-step results —
/// `None` for a completed attempt, `Some` message for a failed one; the
/// result of a planned no-extension step is never read. Failures are
/// counted and listed in plan order. When nothing failed the shared
/// catalog is emptied to mark the batch complete; any failure leaves it
/// untouched for the user to mend and retry.
pub fn rename_files(
    state: &mut AppState,
    plan: &Vec<RenameStep>,
    results: &Vec<Option<String>>,
) -> (outcome: RenameResult)
    requires
        results@.len() == plan@.len(),
        plan@.len() <= 0xffff_ffff,
    ensures
        error_models(outcome.errors@) == spec_errors(plan@, results@),
        outcome.error_count == spec_errors(plan@, results@).len(),
        outcome.success_count + outcome.error_count == plan@.len(),
        outcome.error_count == 0 ==> final(state)@.files.len() == 0 && final(state)@.prefix == old(
            state,
        )@.prefix && names_consistent(final(state)@),
        outcome.error_count > 0 ==> final(state)@ == old(state)@,
{
    let mut success_count: u32 = 0;
    let mut error_count: u32 = 0;
    let mut errors: Vec<RenameError> = Vec::new();
    let mut i: usize = 0;
    proof {
        assert(error_models(errors@) =~= spec_errors(plan@.take(0), results@.take(0)));
    }
    while i < plan.len()
        invariant
            i <= plan.len(),
            plan@.len() == results@.len(),
            plan@.len() <= 0xffff_ffff,
            error_models(errors@) == spec_errors(plan@.take(i as int), results@.take(i as int)),
            error_count == spec_errors(plan@.take(i as int), results@.take(i as int)).len(),
            success_count + error_count == i,
        decreases plan.len() - i,
    {
        proof {
            lemma_errors_bounded(plan@.take(i as int), results@.take(i as int));
            assert(plan@.take(i + 1).drop_last() =~= plan@.take(i as int));
            assert(results@.take(i + 1).drop_last() =~= results@.take(i as int));
            assert(plan@.take(i + 1).last() == plan@[i as int]);
            assert(results@.take(i + 1).last() == results@[i as int]);
        }
        match &plan[i] {
            RenameStep::NoExtension { label } => {
                error_count = error_count + 1;
                errors.push(
                    RenameError {
                        file: label.clone(),
                        error: String::from_str("File has no extension."),
                    },
                );
            },
            RenameStep::Attempt { label, from, to } => {
                match &results[i] {
                    Some(e) => {
                        error_count = error_count + 1;
                        errors.push(RenameError { file: label.clone(), error: e.clone() });
                    },
                    None => {
                        success_count = success_count + 1;
                    },
                }
            },
        }
        proof {
            assert(error_models(errors@) =~= spec_errors(
                plan@.take(i + 1),
                results@.take(i + 1),
            ));
        }
        i = i + 1;
    }
    proof {
        assert(plan@.take(plan@.len() as int) =~= plan@);
        assert(results@.take(results@.len() as int) =~= results@);
    }
    if error_count == 0 {
        state.files.clear();
        proof {
            assert(models(state.files@) =~= Seq::<RecordModel>::empty());
            assert(spec_recompute(models(state.files@), state.prefix@) =~= models(state.files@));
        }
    }
    RenameResult { success_count, error_count, errors }
}

/// The failures of an undo batch, in history order: the host's error for
/// each failed reversal, labelled with the entry's new path.
pub open spec fn spec_undo_errors(
    history: Seq<RenameHistoryEntry>,
    results: Seq<Option<String>>,
) -> Seq<ErrorModel>
    decreases history.len(),
{
    if history.len() == 0 {
        Seq::empty()
    } else {
        let init = spec_undo_errors(history.drop_last(), results.drop_last());
        match results.last() {
            Option::Some(e) => init.push(
                ErrorModel { file: history.last().new_path@, error: e@ },
            ),
            Option::None => init,
        }
    }
}

/// Never more failures than history entries.
pub proof fn lemma_undo_errors_bounded(
    history: Seq<RenameHistoryEntry>,
    results: Seq<Option<String>>,
)
    ensures
        spec_undo_errors(history, results).len() <= history.len(),
    decreases history.len(),
{
    if history.len() > 0 {
        lemma_undo_errors_bounded(history.drop_last(), results.drop_last());
    }
}

/// Assembles the outcome of an undo batch from the host's per-entry
/// results — `None` for a completed reversal, `Some` message for a failed
/// one — counting and listing failures in history order. The live catalog
/// is never touched.
pub fn undo_rename(history: &Vec<RenameHistoryEntry>, results: &Vec<Option<String>>) -> (outcome:
    RenameResult)
    requires
        results@.len() == history@.len(),
        history@.len() <= 0xffff_ffff,
    ensures
        error_models(outcome.errors@) == spec_undo_errors(history@, results@),
        outcome.error_count == spec_undo_errors(history@, results@).len(),
        outcome.success_count + outcome.error_count == history@.len(),
{
    let mut success_count: u32 = 0;
    let mut error_count: u32 = 0;
    let mut errors: Vec<RenameError> = Vec::new();
    let mut i: usize = 0;
    proof {
        assert(error_models(errors@) =~= spec_undo_errors(history@.take(0), results@.take(0)));
    }
    while i < history.len()
        invariant
            i <= history.len(),
            history@.len() == results@.len(),
            history@.len() <= 0xffff_ffff,
            error_models(errors@) == spec_undo_errors(
                history@.take(i as int),
                results@.take(i as int),
            ),
            error_count == spec_undo_errors(history@.take(i as int), results@.take(i as int)).len(),
            success_count + error_count == i,
        decreases history.len() - i,
    {
        proof {
            lemma_undo_errors_bounded(history@.take(i as int), results@.take(i as int));
            assert(history@.take(i + 1).drop_last() =~= history@.take(i as int));
            assert(results@.take(i + 1).drop_last() =~= results@.take(i as int));
            assert(history@.take(i + 1).last() == history@[i as int]);
            assert(results@.take(i + 1).last() == results@[i as int]);
        }
        match &results[i] {
            Some(e) => {
                error_count = error_count + 1;
                errors.push(
                    RenameError { file: history[i].new_path.clone(), error: e.clone() },
                );
            },
            None => {
                success_count = success_count + 1;
            },
        }
        proof {
            assert(error_models(errors@) =~= spec_undo_errors(
                history@.take(i + 1),
                results@.take(i + 1),
            ));
        }
        i = i + 1;
    }
    proof {
        assert(history@.take(history@.len() as int) =~= history@);
        assert(results@.take(results@.len() as int) =~= results@);
    }
    RenameResult { success_count, error_count, errors }
}

} // verus!
