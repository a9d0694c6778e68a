use batch_renamer::Date;
use batch_renamer::FileEntry;
use batch_renamer::format_date;
use batch_renamer::generate_new_name;
use batch_renamer::u64_to_string;

fn entry(id: &str, old_name: &str, path: &str, date: Date, tags: Vec<&str>, suffix: &str) -> FileEntry {
    FileEntry {
        id: id.to_string(),
        old_name: old_name.to_string(),
        new_name: String::new(),
        path: path.to_string(),
        asset_url: String::new(),
        date,
        tags: tags.into_iter().map(|t| t.to_string()).collect(),
        suffix: suffix.to_string(),
    }
}

#[test]
fn decimal_rendering() {
    assert_eq!(u64_to_string(0), "0");
    assert_eq!(u64_to_string(7), "7");
    assert_eq!(u64_to_string(10), "10");
    assert_eq!(u64_to_string(12345), "12345");
    assert_eq!(u64_to_string(u64::MAX), "18446744073709551615");
}

#[test]
fn date_fixed_format() {
    assert_eq!(format_date(&Date { year: 2024, month: 3, day: 5 }), "2024-03-05");
    assert_eq!(format_date(&Date { year: 999, month: 10, day: 31 }), "0999-10-31");
    assert_eq!(format_date(&Date { year: 1, month: 1, day: 1 }), "0001-01-01");
}

#[test]
fn name_with_tags_and_suffix() {
    let f = entry(
        "a",
        "x.jpg",
        "/p/x.jpg",
        Date { year: 2024, month: 3, day: 5 },
        vec!["alpha", "beta"],
        "fin",
    );
    let name = generate_new_name(&f, 2, 15, "IMG");
    assert_eq!(name, "IMG_2024-03-05_03_alpha_beta_fin");
}

#[test]
fn name_without_tags_or_suffix() {
    let f = entry("a", "x.jpg", "/p/x.jpg", Date { year: 2023, month: 1, day: 2 }, vec![], "");
    let name = generate_new_name(&f, 0, 7, "C");
    assert_eq!(name, "C_2023-01-02_1");
}

#[test]
fn padding_width_follows_batch_size() {
    let f = entry("a", "x.jpg", "/p/x.jpg", Date { year: 2024, month: 6, day: 9 }, vec![], "");
    // batch of 1: width 1
    assert_eq!(generate_new_name(&f, 0, 1, "C"), "C_2024-06-09_1");
    // batch of 100: width 3
    assert_eq!(generate_new_name(&f, 0, 100, "C"), "C_2024-06-09_001");
    assert_eq!(generate_new_name(&f, 99, 100, "C"), "C_2024-06-09_100");
    // batch of 15: width 2
    assert_eq!(generate_new_name(&f, 9, 15, "C"), "C_2024-06-09_10");
}

#[test]
fn empty_prefix_falls_back_in_the_formatter() {
    let f = entry("a", "x.jpg", "/p/x.jpg", Date { year: 2024, month: 3, day: 5 }, vec![], "");
    assert_eq!(generate_new_name(&f, 0, 1, ""), "C_2024-03-05_1");
}

#[test]
fn single_tag_has_one_separator() {
    let f = entry(
        "a",
        "x.jpg",
        "/p/x.jpg",
        Date { year: 2024, month: 3, day: 5 },
        vec!["solo"],
        "",
    );
    assert_eq!(generate_new_name(&f, 0, 1, "P"), "P_2024-03-05_1_solo");
}

#[test]
fn empty_tag_list_omits_separator() {
    let f = entry("a", "x", "/p/x", Date { year: 2024, month: 3, day: 5 }, vec![], "end");
    assert_eq!(generate_new_name(&f, 0, 1, "P"), "P_2024-03-05_1_end");
}
