use batch_renamer::AppState;
use batch_renamer::Date;
use batch_renamer::FileEntry;
use batch_renamer::RenameHistoryEntry;
use batch_renamer::RenameStep;
use batch_renamer::display_name_of;
use batch_renamer::path_extension;
use batch_renamer::plan_rename;
use batch_renamer::plan_undo;
use batch_renamer::rename_files;
use batch_renamer::undo_rename;
use batch_renamer::with_file_name;

fn entry(id: &str, old_name: &str, path: &str, new_name: &str) -> FileEntry {
    FileEntry {
        id: id.to_string(),
        old_name: old_name.to_string(),
        new_name: new_name.to_string(),
        path: path.to_string(),
        asset_url: String::new(),
        date: Date { year: 2024, month: 3, day: 5 },
        tags: vec![],
        suffix: String::new(),
    }
}

#[test]
fn display_names_come_from_the_path_tail() {
    assert_eq!(display_name_of("/a/b/c.txt"), "c.txt");
    assert_eq!(display_name_of("plain.txt"), "plain.txt");
    assert_eq!(display_name_of("/a/b/"), "invalid_filename");
}

#[test]
fn extensions_follow_the_last_dot_of_the_tail() {
    assert_eq!(path_extension("/a/b.txt"), Some("txt".to_string()));
    assert_eq!(path_extension("/a/x.tar.gz"), Some("gz".to_string()));
    assert_eq!(path_extension("/a/noext"), None);
    assert_eq!(path_extension("/a/.bashrc"), None);
    assert_eq!(path_extension("/dir.d/noext"), None);
}

#[test]
fn destination_keeps_the_directory() {
    assert_eq!(with_file_name("/a/b/old.txt", "new.txt"), "/a/b/new.txt");
    assert_eq!(with_file_name("bare.txt", "new.txt"), "new.txt");
}

#[test]
fn plan_pairs_each_record_with_its_destination() {
    let files = vec![
        entry("A", "a.jpg", "/d/a.jpg", "A_new"),
        entry("B", "noext", "/d/noext", "B_new"),
    ];
    let plan = plan_rename(&files);
    assert_eq!(plan.len(), 2);
    match &plan[0] {
        RenameStep::Attempt { label, from, to } => {
            assert_eq!(label, "a.jpg");
            assert_eq!(from, "/d/a.jpg");
            assert_eq!(to, "/d/A_new.jpg");
        },
        RenameStep::NoExtension { .. } => panic!("expected an attempt"),
    }
    match &plan[1] {
        RenameStep::NoExtension { label } => assert_eq!(label, "noext"),
        RenameStep::Attempt { .. } => panic!("expected a recorded failure"),
    }
}

#[test]
fn missing_extension_fails_without_clearing_the_catalog() {
    let files = vec![
        entry("A", "a.jpg", "/d/a.jpg", "A_new"),
        entry("B", "b.jpg", "/d/b.jpg", "B_new"),
        entry("C", "c.jpg", "/d/c.jpg", "C_new"),
        entry("D", "noext", "/d/noext", "D_new"),
    ];
    let mut st = AppState { files: files.clone(), prefix: "C".to_string() };
    let plan = plan_rename(&st.files);
    // the host attempted the three planned renames and all completed
    let results = vec![None, None, None, None];
    let outcome = rename_files(&mut st, &plan, &results);
    assert_eq!(outcome.success_count, 3);
    assert_eq!(outcome.error_count, 1);
    assert_eq!(outcome.errors.len(), 1);
    assert_eq!(outcome.errors[0].file, "noext");
    assert_eq!(outcome.errors[0].error, "File has no extension.");
    // a failed batch leaves the catalog for the user to mend
    assert_eq!(st.files.len(), 4);
}

#[test]
fn clean_batch_clears_the_catalog() {
    let files = vec![
        entry("A", "a.jpg", "/d/a.jpg", "A_new"),
        entry("B", "b.jpg", "/d/b.jpg", "B_new"),
    ];
    let mut st = AppState { files, prefix: "C".to_string() };
    let plan = plan_rename(&st.files);
    let results = vec![None, None];
    let outcome = rename_files(&mut st, &plan, &results);
    assert_eq!(outcome.success_count, 2);
    assert_eq!(outcome.error_count, 0);
    assert!(outcome.errors.is_empty());
    assert!(st.files.is_empty());
}

#[test]
fn filesystem_failures_are_captured_per_file() {
    let files = vec![
        entry("A", "a.jpg", "/d/a.jpg", "A_new"),
        entry("B", "b.jpg", "/d/b.jpg", "B_new"),
    ];
    let mut st = AppState { files, prefix: "C".to_string() };
    let plan = plan_rename(&st.files);
    let results = vec![Some("permission denied".to_string()), None];
    let outcome = rename_files(&mut st, &plan, &results);
    assert_eq!(outcome.success_count, 1);
    assert_eq!(outcome.error_count, 1);
    assert_eq!(outcome.errors[0].file, "a.jpg");
    assert_eq!(outcome.errors[0].error, "permission denied");
    assert_eq!(st.files.len(), 2);
}

#[test]
fn undo_plans_the_exact_reversal() {
    let history = vec![
        RenameHistoryEntry { old_path: "/d/a.jpg".to_string(), new_path: "/d/A_new.jpg".to_string() },
        RenameHistoryEntry { old_path: "/d/b.jpg".to_string(), new_path: "/d/B_new.jpg".to_string() },
    ];
    let plan = plan_undo(&history);
    assert_eq!(plan.len(), 2);
    match &plan[0] {
        RenameStep::Attempt { label, from, to } => {
            assert_eq!(label, "/d/A_new.jpg");
            assert_eq!(from, "/d/A_new.jpg");
            assert_eq!(to, "/d/a.jpg");
        },
        RenameStep::NoExtension { .. } => panic!("undo only attempts"),
    }
}

#[test]
fn undo_counts_results_in_history_order() {
    let history = vec![
        RenameHistoryEntry { old_path: "/d/a.jpg".to_string(), new_path: "/d/A_new.jpg".to_string() },
        RenameHistoryEntry { old_path: "/d/b.jpg".to_string(), new_path: "/d/B_new.jpg".to_string() },
        RenameHistoryEntry { old_path: "/d/c.jpg".to_string(), new_path: "/d/C_new.jpg".to_string() },
    ];
    let results = vec![None, Some("target exists".to_string()), None];
    let outcome = undo_rename(&history, &results);
    assert_eq!(outcome.success_count, 2);
    assert_eq!(outcome.error_count, 1);
    assert_eq!(outcome.errors[0].file, "/d/B_new.jpg");
    assert_eq!(outcome.errors[0].error, "target exists");
}

#[test]
fn rename_then_undo_restores_names_in_a_directory_model() {
    // a tiny in-memory directory: path -> file contents marker
    let files = vec![
        entry("A", "a.jpg", "/d/a.jpg", "A_new"),
        entry("B", "b.jpg", "/d/b.jpg", "B_new"),
    ];
    let plan = plan_rename(&files);
    let mut dir: Vec<(String, u32)> = vec![("/d/a.jpg".to_string(), 1), ("/d/b.jpg".to_string(), 2)];
    let mut history: Vec<RenameHistoryEntry> = Vec::new();
    for step in &plan {
        match step {
            RenameStep::Attempt { from, to, .. } => {
                for slot in dir.iter_mut() {
                    if slot.0 == *from {
                        slot.0 = to.clone();
                    }
                }
                history.push(RenameHistoryEntry { old_path: from.clone(), new_path: to.clone() });
            },
            RenameStep::NoExtension { .. } => {},
        }
    }
    assert_eq!(dir[0].0, "/d/A_new.jpg");
    assert_eq!(dir[1].0, "/d/B_new.jpg");
    // undo attempts rename(new -> old) for every recorded pair
    let undo_plan = plan_undo(&history);
    for step in &undo_plan {
        match step {
            RenameStep::Attempt { from, to, .. } => {
                for slot in dir.iter_mut() {
                    if slot.0 == *from {
                        slot.0 = to.clone();
                    }
                }
            },
            RenameStep::NoExtension { .. } => {},
        }
    }
    assert_eq!(dir[0], ("/d/a.jpg".to_string(), 1));
    assert_eq!(dir[1], ("/d/b.jpg".to_string(), 2));
}
