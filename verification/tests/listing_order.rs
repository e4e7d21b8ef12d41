use project_fs::listing::{list_outcome, sort_names, sorted_file_names, DirEntryInfo};
use project_fs::order::str_lex_leq;

fn file_entry(name: &str) -> DirEntryInfo {
    DirEntryInfo { kind_known: true, is_file: true, name: Some(name.to_string()) }
}

fn dir_entry(name: &str) -> DirEntryInfo {
    DirEntryInfo { kind_known: true, is_file: false, name: Some(name.to_string()) }
}

#[test]
fn lists_files_sorted_ascending() {
    let entries = vec![file_entry("b.txt"), file_entry("a.md"), file_entry("c")];
    let names = sorted_file_names(&entries);
    assert_eq!(names, vec!["a.md".to_string(), "b.txt".to_string(), "c".to_string()]);
}

#[test]
fn excludes_subdirectories() {
    let entries = vec![
        file_entry("b.txt"),
        dir_entry("chapters"),
        file_entry("a.md"),
        dir_entry("lore"),
        file_entry("c"),
    ];
    let names = sorted_file_names(&entries);
    assert_eq!(names, vec!["a.md".to_string(), "b.txt".to_string(), "c".to_string()]);
}

#[test]
fn skips_entry_with_unreadable_type() {
    let entries = vec![
        DirEntryInfo { kind_known: false, is_file: true, name: Some("ghost".to_string()) },
        file_entry("seen"),
    ];
    let names = sorted_file_names(&entries);
    assert_eq!(names, vec!["seen".to_string()]);
}

#[test]
fn skips_entry_with_unrepresentable_name() {
    let entries = vec![
        DirEntryInfo { kind_known: true, is_file: true, name: None },
        file_entry("seen"),
    ];
    let names = sorted_file_names(&entries);
    assert_eq!(names, vec!["seen".to_string()]);
}

#[test]
fn empty_directory_lists_nothing() {
    let entries: Vec<DirEntryInfo> = Vec::new();
    let names = sorted_file_names(&entries);
    assert_eq!(names, Vec::<String>::new());
}

#[test]
fn directory_of_only_subdirectories_lists_nothing() {
    let entries = vec![dir_entry("chapters"), dir_entry("characters"), dir_entry("lore")];
    let names = sorted_file_names(&entries);
    assert_eq!(names, Vec::<String>::new());
}

#[test]
fn sort_keeps_duplicates() {
    let names = vec!["b".to_string(), "a".to_string(), "b".to_string()];
    let sorted = sort_names(names);
    assert_eq!(sorted, vec!["a".to_string(), "b".to_string(), "b".to_string()]);
}

#[test]
fn sort_of_sorted_input_is_unchanged() {
    let names = vec!["a".to_string(), "b".to_string(), "c".to_string()];
    let sorted = sort_names(names.clone());
    assert_eq!(sorted, names);
}

#[test]
fn sort_of_empty_is_empty() {
    let sorted = sort_names(Vec::new());
    assert_eq!(sorted, Vec::<String>::new());
}

#[test]
fn order_is_by_code_point() {
    assert!(str_lex_leq("a", "b"));
    assert!(!str_lex_leq("b", "a"));
    assert!(str_lex_leq("a", "a"));
    // A proper prefix sorts first.
    assert!(str_lex_leq("a", "ab"));
    assert!(!str_lex_leq("ab", "a"));
    // Upper-case letters come before lower-case ones: no locale collation.
    assert!(str_lex_leq("Z", "a"));
    // Accented letters sort by their code point, after plain ASCII.
    assert!(str_lex_leq("z", "é"));
    assert!(!str_lex_leq("é", "z"));
}

#[test]
fn sort_orders_extensions_and_bare_names() {
    let names = vec![
        "c".to_string(),
        "b.txt".to_string(),
        "a.md".to_string(),
        "B.txt".to_string(),
    ];
    let sorted = sort_names(names);
    assert_eq!(
        sorted,
        vec!["B.txt".to_string(), "a.md".to_string(), "b.txt".to_string(), "c".to_string()]
    );
}

#[test]
fn failed_enumeration_lists_nothing() {
    assert_eq!(list_outcome(None), Vec::<String>::new());
}

#[test]
fn successful_enumeration_is_filtered_and_sorted() {
    let entries = vec![file_entry("b.txt"), dir_entry("chapters"), file_entry("a.md")];
    let names = list_outcome(Some(entries));
    assert_eq!(names, vec!["a.md".to_string(), "b.txt".to_string()]);
}
