use dossier::paths::{components_of, import_names, normalize_components};

fn strings(v: Vec<Vec<char>>) -> Vec<String> {
    v.into_iter().map(|c| c.into_iter().collect()).collect()
}

#[test]
fn splits_paths_into_components() {
    assert_eq!(strings(components_of("./foo//bar/baz.ts")), vec!["foo", "bar", "baz.ts"]);
    assert_eq!(strings(components_of("")), Vec::<String>::new());
}

#[test]
fn parent_components_step_up() {
    let comps = components_of("a/b/../c");
    assert_eq!(strings(normalize_components(comps)), vec!["a", "c"]);
    let comps = components_of("../x");
    assert_eq!(strings(normalize_components(comps)), vec!["..", "x"]);
}

#[test]
fn imports_name_files_relative_to_the_importer() {
    assert!(import_names("foo/bar.ts", "../fizz.ts", "fizz.ts"));
    assert!(import_names("index.ts", "./foo.ts", "foo.ts"));
    assert!(!import_names("index.ts", "./foo.ts", "bar.ts"));
    assert!(import_names("src/a/index.ts", "./b/c.ts", "src/a/b/c.ts"));
}

#[test]
fn import_names_no_file_anchored_at_the_root_or_current_directory() {
    assert!(!import_names("index.ts", "./foo.ts", "./foo.ts"));
    assert!(!import_names("index.ts", "./foo.ts", "/foo.ts"));
    assert!(!import_names("index.ts", "/foo.ts", "/foo.ts"));
    assert!(import_names("index.ts", "/foo.ts", "foo.ts"));
    assert!(import_names("a/index.ts", "./foo.ts", "a/./foo.ts"));
}
