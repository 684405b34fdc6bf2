use mini_ls::entry::{Entry, Meta};
use mini_ls::listing::{header_line, join_path, list_level, Row};
use mini_ls::options::Options;
use mini_ls::order::{order_entries, sort_entries};

fn meta(is_dir: bool, mtime: i64, atime: i64) -> Meta {
    Meta {
        is_dir,
        mode: if is_dir { 0o755 } else { 0o644 },
        nlink: 1,
        uid: 0,
        gid: 0,
        size: 0,
        mtime,
        atime,
    }
}

fn entry(name: &str, is_dir: bool) -> Entry {
    Entry {
        name: name.to_string(),
        meta: Some(meta(is_dir, 0, 0)),
    }
}

fn lines(rows: &[Row]) -> Vec<String> {
    rows.iter().map(|r| r.line.clone()).collect()
}

#[test]
fn names_sort_ascending_by_default() {
    let entries = vec![entry("b.txt", false), entry("a.txt", false), entry("sub", true)];
    let rows = list_level(&".".to_string(), entries, &Options::default());
    assert_eq!(lines(&rows), vec!["a.txt", "b.txt", "sub"]);
}

#[test]
fn reverse_flag_reverses_the_name_order() {
    let entries = vec![entry("b.txt", false), entry("a.txt", false), entry("sub", true)];
    let mut o = Options::default();
    o.reverse_order = true;
    let rows = list_level(&".".to_string(), entries, &o);
    assert_eq!(lines(&rows), vec!["sub", "b.txt", "a.txt"]);
}

#[test]
fn unsorted_keeps_enumeration_order_despite_time_sort() {
    let mut o = Options::default();
    o.unsorted = true;
    o.sort_by_time = true;
    let entries = vec![
        Entry { name: "c".to_string(), meta: Some(meta(false, 3, 0)) },
        Entry { name: "a".to_string(), meta: Some(meta(false, 2, 0)) },
        Entry { name: "b".to_string(), meta: Some(meta(false, 1, 0)) },
    ];
    let rows = list_level(&".".to_string(), entries, &o);
    assert_eq!(lines(&rows), vec!["c", "a", "b"]);
}

#[test]
fn time_sort_orders_by_modified_time() {
    let mut o = Options::default();
    o.sort_by_time = true;
    let entries = vec![
        Entry { name: "late".to_string(), meta: Some(meta(false, 30, 0)) },
        Entry { name: "early".to_string(), meta: Some(meta(false, 10, 0)) },
        Entry { name: "middle".to_string(), meta: Some(meta(false, 20, 0)) },
    ];
    let rows = list_level(&".".to_string(), entries, &o);
    assert_eq!(lines(&rows), vec!["early", "middle", "late"]);
}

#[test]
fn access_time_flag_switches_the_sort_key() {
    let mut o = Options::default();
    o.sort_by_time = true;
    o.access_time = true;
    let entries = vec![
        Entry { name: "x".to_string(), meta: Some(meta(false, 1, 200)) },
        Entry { name: "y".to_string(), meta: Some(meta(false, 2, 100)) },
    ];
    let rows = list_level(&".".to_string(), entries, &o);
    assert_eq!(lines(&rows), vec!["y", "x"]);
}

#[test]
fn pre_epoch_times_sort_after_everything() {
    let mut o = Options::default();
    o.sort_by_time = true;
    let entries = vec![
        Entry { name: "negative".to_string(), meta: Some(meta(false, -5, 0)) },
        Entry { name: "positive".to_string(), meta: Some(meta(false, 5, 0)) },
        Entry { name: "missing".to_string(), meta: None },
    ];
    let ordered = order_entries(entries, &o);
    let names: Vec<String> = ordered.iter().map(|e| e.name.clone()).collect();
    assert_eq!(names, vec!["missing", "positive", "negative"]);
}

#[test]
fn time_sort_is_stable_on_equal_keys() {
    let entries = vec![
        Entry { name: "second".to_string(), meta: Some(meta(false, 7, 0)) },
        Entry { name: "first".to_string(), meta: Some(meta(false, 7, 0)) },
    ];
    let sorted = sort_entries(entries, true, false);
    let names: Vec<String> = sorted.iter().map(|e| e.name.clone()).collect();
    assert_eq!(names, vec!["second", "first"]);
}

#[test]
fn hidden_names_appear_only_with_show_hidden() {
    let entries = || vec![entry(".hidden", false), entry("plain", false)];
    let rows = list_level(&".".to_string(), entries(), &Options::default());
    assert_eq!(lines(&rows), vec!["plain"]);
    let mut o = Options::default();
    o.show_hidden = true;
    let rows = list_level(&".".to_string(), entries(), &o);
    assert_eq!(lines(&rows), vec![".hidden", "plain"]);
}

#[test]
fn directories_only_filters_a_mixed_level() {
    let mut o = Options::default();
    o.directories_only = true;
    let entries = vec![
        entry("file_one", false),
        entry("dir_one", true),
        entry("file_two", false),
        entry("dir_two", true),
    ];
    let rows = list_level(&".".to_string(), entries, &o);
    assert_eq!(lines(&rows), vec!["dir_one", "dir_two"]);
}

#[test]
fn visible_entry_count_matches_row_count() {
    let entries = vec![
        entry("a", false),
        entry(".b", false),
        entry("c", true),
        entry("d", false),
    ];
    let rows = list_level(&".".to_string(), entries, &Options::default());
    assert_eq!(rows.len(), 3);
}

#[test]
fn unreadable_metadata_drops_the_entry_silently() {
    let entries = vec![
        Entry { name: "ghost".to_string(), meta: None },
        entry("real", false),
    ];
    let rows = list_level(&".".to_string(), entries, &Options::default());
    assert_eq!(lines(&rows), vec!["real"]);
}

#[test]
fn recursive_rows_name_the_subdirectory() {
    let mut o = Options::default();
    o.recursive = true;
    let entries = vec![entry("sub", true), entry("file", false)];
    let rows = list_level(&"parent".to_string(), entries, &o);
    assert_eq!(rows[0].line, "file");
    assert!(rows[0].recurse_into.is_none());
    assert_eq!(rows[1].line, "sub");
    assert_eq!(rows[1].recurse_into.as_deref(), Some("parent/sub"));
    assert_eq!(header_line(&"parent/sub".to_string()), "parent/sub:");
}

#[test]
fn without_the_recursive_flag_no_row_recurses() {
    let entries = vec![entry("sub", true)];
    let rows = list_level(&".".to_string(), entries, &Options::default());
    assert!(rows[0].recurse_into.is_none());
}

#[test]
fn join_path_avoids_doubled_separator() {
    assert_eq!(join_path(&"a".to_string(), &"b".to_string()), "a/b");
    assert_eq!(join_path(&"a/".to_string(), &"b".to_string()), "a/b");
}
