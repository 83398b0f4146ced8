use cliutils::findr::{name_filter, run, type_filter, Config, EntryType, Visit};

fn entry(kind: &str, path: &str) -> Visit {
    Visit::Entry {
        is_dir: kind == "d",
        is_file: kind == "f",
        is_symlink: kind == "l",
        file_name: path.rsplit('/').next().unwrap().to_string(),
        path: path.to_string(),
    }
}

fn config(names: &[&str], entry_types: &[EntryType]) -> Config {
    Config {
        paths: vec![".".to_string()],
        names: names.iter().map(|name| name.to_string()).collect(),
        entry_types: entry_types.to_vec(),
    }
}

fn walk() -> Vec<Visit> {
    vec![
        entry("d", "./src"),
        entry("f", "./src/lib.rs"),
        Visit::Failed("IO error for operation on ./locked: Permission denied".to_string()),
        entry("l", "./link.rs"),
        entry("o", "./pipe"),
        entry("f", "./notes.txt"),
    ]
}

#[test]
fn find_kinds_and_their_letters() {
    assert_eq!(
        EntryType::value_variants(),
        vec![EntryType::Dir, EntryType::File, EntryType::Link]
    );
    assert_eq!(EntryType::Dir.to_possible_value(), "d");
    assert_eq!(EntryType::File.to_possible_value(), "f");
    assert_eq!(EntryType::Link.to_possible_value(), "l");
}

#[test]
fn find_filter_by_kind() {
    assert!(type_filter(&vec![], true, false, false));
    assert!(type_filter(&vec![], false, false, true));
    assert!(!type_filter(&vec![], false, false, false));
    assert!(type_filter(&vec![EntryType::File, EntryType::Link], false, false, true));
    assert!(!type_filter(&vec![EntryType::File, EntryType::Link], true, false, false));
    // A directory that is also reported as a link counts as a directory.
    assert!(!type_filter(&vec![EntryType::Link], true, false, true));
}

#[test]
fn find_filter_by_name() {
    let none: Vec<String> = vec![];
    assert!(name_filter(&none, "anything"));
    let names = vec![".*\\.rs$".to_string(), "^notes".to_string()];
    assert!(name_filter(&names, "lib.rs"));
    assert!(name_filter(&names, "notes.txt"));
    assert!(!name_filter(&names, "lib.rs.bak"));
    assert!(!name_filter(&names, "LIB.RS"));
    // A pattern that does not compile matches nothing.
    assert!(!name_filter(&vec!["(".to_string()], "("));
    assert!(name_filter(&vec!["(".to_string(), "a".to_string()], "bar"));
}

#[test]
fn find_run_without_filters() {
    let out = run(&config(&[], &[]), &vec![walk()]);
    assert_eq!(out.stdout, "./src\n./src/lib.rs\n./link.rs\n./notes.txt\n");
    assert_eq!(
        out.stderr,
        vec!["IO error for operation on ./locked: Permission denied".to_string()]
    );
}

#[test]
fn find_run_with_filters_and_several_paths() {
    let settings = config(&["rs$"], &[EntryType::File, EntryType::Link]);
    let out = run(&settings, &vec![walk(), vec![], vec![entry("f", "b/main.rs")]]);
    assert_eq!(out.stdout, "./src/lib.rs\n./link.rs\n\nb/main.rs\n");
    assert_eq!(out.stderr.len(), 1);
    let out = run(&settings, &vec![]);
    assert_eq!(out.stdout, "");
}
