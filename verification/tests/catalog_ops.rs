use batch_renamer::AppState;
use batch_renamer::Date;
use batch_renamer::FileEntry;
use batch_renamer::ImportItem;
use batch_renamer::generate_new_name;

fn entry(id: &str, old_name: &str, path: &str, tags: Vec<&str>, suffix: &str) -> FileEntry {
    FileEntry {
        id: id.to_string(),
        old_name: old_name.to_string(),
        new_name: String::new(),
        path: path.to_string(),
        asset_url: String::new(),
        date: Date { year: 2024, month: 3, day: 5 },
        tags: tags.into_iter().map(|t| t.to_string()).collect(),
        suffix: suffix.to_string(),
    }
}

fn item(path: &str) -> ImportItem {
    ImportItem {
        path: path.to_string(),
        asset_url: format!("file://{}", path),
        date: Date { year: 2024, month: 3, day: 5 },
    }
}

fn state_with(files: Vec<FileEntry>) -> AppState {
    AppState { files, prefix: "C".to_string() }
}

#[test]
fn new_catalog_is_empty_with_default_prefix() {
    let st = AppState::new();
    assert_eq!(st.files.len(), 0);
    assert_eq!(st.prefix, "C");
}

#[test]
fn import_builds_records_and_computes_names() {
    let mut st = AppState::new();
    let snap = st.import_files_from_dialog(vec![item("/d/one.jpg"), item("/d/two.png")]);
    assert_eq!(snap.len(), 2);
    assert_eq!(snap[0].old_name, "one.jpg");
    assert_eq!(snap[1].old_name, "two.png");
    assert_eq!(snap[0].path, "/d/one.jpg");
    assert!(snap[0].tags.is_empty());
    assert_eq!(snap[0].suffix, "");
    // batch of 2: width 1, stored prefix C
    assert_eq!(snap[0].new_name, "C_2024-03-05_1");
    assert_eq!(snap[1].new_name, "C_2024-03-05_2");
    // fresh hyphenated identifiers, distinct per record
    assert_eq!(snap[0].id.len(), 36);
    assert_eq!(snap[1].id.len(), 36);
    assert_ne!(snap[0].id, snap[1].id);
}

#[test]
fn import_replaces_never_merges() {
    let mut st = AppState::new();
    st.import_files_from_dialog(vec![item("/d/a1.jpg"), item("/d/a2.jpg")]);
    let snap = st.import_files_from_dialog(vec![item("/d/b1.jpg")]);
    assert_eq!(snap.len(), 1);
    assert_eq!(snap[0].old_name, "b1.jpg");
    assert_eq!(st.files.len(), 1);
    assert_eq!(st.files[0].old_name, "b1.jpg");
}

#[test]
fn update_prefix_recomputes_all_names() {
    let mut st = state_with(vec![entry("A", "a.jpg", "/d/a.jpg", vec![], "")]);
    let snap = st.update_prefix("IMG".to_string());
    assert_eq!(st.prefix, "IMG");
    assert_eq!(snap[0].new_name, "IMG_2024-03-05_1");
}

#[test]
fn empty_prefix_falls_back_to_default() {
    let mut st = state_with(vec![entry("A", "a.jpg", "/d/a.jpg", vec![], "")]);
    let snap = st.update_prefix(String::new());
    assert_eq!(st.prefix, "C");
    assert_eq!(snap[0].new_name, "C_2024-03-05_1");
}

#[test]
fn update_tags_replaces_list_and_recomputes() {
    let mut st = state_with(vec![
        entry("A", "a.jpg", "/d/a.jpg", vec!["old"], ""),
        entry("B", "b.jpg", "/d/b.jpg", vec![], ""),
    ]);
    let snap = st.update_tags("A".to_string(), vec!["x".to_string(), "y".to_string()]);
    assert_eq!(snap[0].tags, vec!["x".to_string(), "y".to_string()]);
    assert_eq!(snap[0].new_name, "C_2024-03-05_1_x_y");
    assert_eq!(snap[1].new_name, "C_2024-03-05_2");
}

#[test]
fn update_by_unknown_id_is_a_silent_no_op() {
    let mut st = state_with(vec![entry("A", "a.jpg", "/d/a.jpg", vec!["keep"], "s")]);
    let snap = st.update_tags("missing".to_string(), vec!["x".to_string()]);
    assert_eq!(snap.len(), 1);
    assert_eq!(snap[0].tags, vec!["keep".to_string()]);
    let snap = st.update_suffix("missing".to_string(), "zz".to_string());
    assert_eq!(snap[0].suffix, "s");
}

#[test]
fn update_date_changes_the_rendered_date() {
    let mut st = state_with(vec![entry("A", "a.jpg", "/d/a.jpg", vec![], "")]);
    let snap = st.update_date("A".to_string(), Date { year: 1999, month: 12, day: 31 });
    assert_eq!(snap[0].new_name, "C_1999-12-31_1");
}

#[test]
fn update_suffix_appends_with_separator() {
    let mut st = state_with(vec![entry("A", "a.jpg", "/d/a.jpg", vec![], "")]);
    let snap = st.update_suffix("A".to_string(), "draft".to_string());
    assert_eq!(snap[0].new_name, "C_2024-03-05_1_draft");
}

#[test]
fn update_file_replaces_the_whole_record() {
    let mut st = state_with(vec![entry("A", "a.jpg", "/d/a.jpg", vec![], "")]);
    let replacement = entry("A", "fresh.jpg", "/d/fresh.jpg", vec!["t"], "");
    let snap = st.update_file("A".to_string(), replacement);
    assert_eq!(snap[0].old_name, "fresh.jpg");
    assert_eq!(snap[0].new_name, "C_2024-03-05_1_t");
}

#[test]
fn toggle_tag_removes_when_all_have_it() {
    let mut st = state_with(vec![
        entry("A", "a.jpg", "/d/a.jpg", vec!["T", "other"], ""),
        entry("B", "b.jpg", "/d/b.jpg", vec!["T"], ""),
    ]);
    let snap = st.toggle_tag(vec!["A".to_string(), "B".to_string()], "T".to_string());
    assert_eq!(snap[0].tags, vec!["other".to_string()]);
    assert!(snap[1].tags.is_empty());
}

#[test]
fn toggle_tag_adds_to_all_when_one_lacks_it() {
    let mut st = state_with(vec![
        entry("A", "a.jpg", "/d/a.jpg", vec!["T"], ""),
        entry("B", "b.jpg", "/d/b.jpg", vec![], ""),
    ]);
    let snap = st.toggle_tag(vec!["A".to_string(), "B".to_string()], "T".to_string());
    assert_eq!(snap[0].tags, vec!["T".to_string()]);
    assert_eq!(snap[1].tags, vec!["T".to_string()]);
}

#[test]
fn toggle_tag_leaves_untargeted_records_alone() {
    let mut st = state_with(vec![
        entry("A", "a.jpg", "/d/a.jpg", vec![], ""),
        entry("C", "c.jpg", "/d/c.jpg", vec!["T"], ""),
    ]);
    let snap = st.toggle_tag(vec!["A".to_string()], "T".to_string());
    assert_eq!(snap[0].tags, vec!["T".to_string()]);
    assert_eq!(snap[1].tags, vec!["T".to_string()]);
}

#[test]
fn remove_files_shifts_sequence_numbers() {
    let mut st = state_with(vec![
        entry("A", "a.jpg", "/d/a.jpg", vec![], ""),
        entry("B", "b.jpg", "/d/b.jpg", vec![], ""),
    ]);
    let snap = st.remove_files(vec!["A".to_string()]);
    assert_eq!(snap.len(), 1);
    assert_eq!(snap[0].old_name, "b.jpg");
    assert_eq!(snap[0].new_name, "C_2024-03-05_1");
}

#[test]
fn clear_suffix_only_touches_targeted_records() {
    let mut st = state_with(vec![
        entry("A", "a.jpg", "/d/a.jpg", vec![], "one"),
        entry("B", "b.jpg", "/d/b.jpg", vec![], "two"),
    ]);
    let snap = st.clear_suffix(vec!["A".to_string()]);
    assert_eq!(snap[0].suffix, "");
    assert_eq!(snap[1].suffix, "two");
    assert_eq!(snap[0].new_name, "C_2024-03-05_1");
    assert_eq!(snap[1].new_name, "C_2024-03-05_2_two");
}

#[test]
fn clear_all_empties_the_catalog() {
    let mut st = state_with(vec![entry("A", "a.jpg", "/d/a.jpg", vec![], "")]);
    let snap = st.clear_all();
    assert!(snap.is_empty());
    assert!(st.files.is_empty());
    assert_eq!(st.prefix, "C");
}

#[test]
fn filter_matches_case_insensitively() {
    let st = state_with(vec![
        entry("A", "Photo.JPG", "/d/Photo.JPG", vec![], ""),
        entry("B", "doc.pdf", "/d/doc.pdf", vec![], ""),
    ]);
    let hits = st.filter_files("PHOTO".to_string());
    assert_eq!(hits.len(), 1);
    assert_eq!(hits[0].old_name, "Photo.JPG");
    let hits = st.filter_files("hot".to_string());
    assert_eq!(hits.len(), 1);
    let hits = st.filter_files("absent".to_string());
    assert_eq!(hits.len(), 0);
}

#[test]
fn filter_is_non_destructive() {
    let st = state_with(vec![
        entry("A", "a.jpg", "/d/a.jpg", vec![], ""),
        entry("B", "b.jpg", "/d/b.jpg", vec![], ""),
    ]);
    let hits = st.filter_files("a".to_string());
    assert_eq!(hits.len(), 1);
    // the stored catalog keeps its membership and order
    assert_eq!(st.files.len(), 2);
    assert_eq!(st.files[0].old_name, "a.jpg");
    assert_eq!(st.files[1].old_name, "b.jpg");
    // an empty filter returns the whole catalog, in order
    let all = st.filter_files(String::new());
    assert_eq!(all.len(), 2);
    assert_eq!(all[0].old_name, "a.jpg");
    assert_eq!(all[1].old_name, "b.jpg");
}

#[test]
fn names_always_equal_the_formatter() {
    let mut st = state_with(vec![
        entry("A", "a.jpg", "/d/a.jpg", vec!["t"], "s"),
        entry("B", "b.jpg", "/d/b.jpg", vec![], ""),
    ]);
    let snap = st.update_suffix("B".to_string(), "q".to_string());
    let total = snap.len();
    for (i, f) in snap.iter().enumerate() {
        assert_eq!(f.new_name, generate_new_name(f, i, total, &st.prefix));
    }
}
