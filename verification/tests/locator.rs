use dvcs::locator::{find_hidden, loop_find, DirEntry, DirListing};

const HIDDEN: &str = ".dvcs_hidden";

fn entry(dir: &str, name: &str, is_dir: bool) -> DirEntry {
    DirEntry { name: name.to_string(), path: format!("{}/{}", dir, name), is_dir }
}

fn level(path: &str, names: &[(&str, bool)]) -> DirListing {
    DirListing {
        path: path.to_string(),
        is_root: false,
        entries: names.iter().map(|(n, d)| entry(path, n, *d)).collect(),
    }
}

fn root(names: &[(&str, bool)]) -> DirListing {
    DirListing {
        path: "/".to_string(),
        is_root: true,
        entries: names.iter().map(|(n, d)| entry("", n, *d)).collect(),
    }
}

#[test]
fn find_hidden_dvcs_folder_test() {
    let levels = vec![level("/work/here", &[("src", true)]), level("/work", &[]), root(&[])];
    println!("TEST: {:?}", loop_find(&levels, HIDDEN));
}

#[test]
fn no_enclosing_repository_gives_none() {
    let levels = vec![
        level("/a/b/c", &[("x.txt", false), ("sub", true)]),
        level("/a/b", &[("c", true)]),
        level("/a", &[("b", true)]),
        root(&[("a", true)]),
    ];
    assert_eq!(loop_find(&levels, HIDDEN), None);
    assert_eq!(loop_find(&vec![], HIDDEN), None);
}

#[test]
fn three_levels_below_the_root_of_a_repository() {
    let levels = vec![
        level("/home/u/repo/x/y/z", &[("file.txt", false)]),
        level("/home/u/repo/x/y", &[("z", true)]),
        level("/home/u/repo/x", &[("y", true)]),
        level("/home/u/repo", &[("x", true), (HIDDEN, true), ("README", false)]),
        level("/home/u", &[("repo", true)]),
        level("/home", &[("u", true)]),
        root(&[("home", true)]),
    ];
    assert_eq!(
        loop_find(&levels, HIDDEN),
        Some(("/home/u/repo/.dvcs_hidden".to_string(), "/home/u/repo".to_string()))
    );
}

#[test]
fn starting_at_a_file_searches_its_directory() {
    let levels = vec![
        level("/r/file.txt", &[]),
        level("/r", &[("file.txt", false), (HIDDEN, true)]),
        root(&[("r", true)]),
    ];
    assert_eq!(loop_find(&levels, HIDDEN), Some(("/r/.dvcs_hidden".to_string(), "/r".to_string())));
}

#[test]
fn the_nearest_repository_wins() {
    let levels = vec![
        level("/outer/inner/deep", &[]),
        level("/outer/inner", &[(HIDDEN, true)]),
        level("/outer", &[(HIDDEN, true), ("inner", true)]),
        root(&[("outer", true)]),
    ];
    assert_eq!(
        loop_find(&levels, HIDDEN),
        Some(("/outer/inner/.dvcs_hidden".to_string(), "/outer/inner".to_string()))
    );
}

#[test]
fn a_file_of_the_reserved_name_is_no_repository() {
    let levels = vec![level("/r", &[(HIDDEN, false)]), root(&[("r", true)])];
    assert_eq!(loop_find(&levels, HIDDEN), None);
}

#[test]
fn the_root_of_the_file_system_is_not_searched() {
    let levels = vec![level("/r", &[]), root(&[(HIDDEN, true)])];
    assert_eq!(loop_find(&levels, HIDDEN), None);
    let beyond = vec![root(&[]), level("/odd", &[(HIDDEN, true)])];
    assert_eq!(loop_find(&beyond, HIDDEN), None);
}

#[test]
fn the_reserved_name_is_a_parameter() {
    let levels = vec![level("/r", &[(".other", true), (HIDDEN, true)]), root(&[])];
    assert_eq!(loop_find(&levels, ".other"), Some(("/r/.other".to_string(), "/r".to_string())));
    assert_eq!(loop_find(&levels, ".dvcs"), None);
}

#[test]
fn find_hidden_takes_the_first_match() {
    let entries = vec![
        entry("/r", "a", true),
        DirEntry { name: HIDDEN.to_string(), path: "/r/first".to_string(), is_dir: true },
        DirEntry { name: HIDDEN.to_string(), path: "/r/second".to_string(), is_dir: true },
    ];
    assert_eq!(find_hidden(&entries, HIDDEN), Some(1));
    assert_eq!(find_hidden(&entries, "b"), None);
    assert_eq!(find_hidden(&vec![], HIDDEN), None);
}
