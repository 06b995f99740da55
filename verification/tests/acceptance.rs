use dvcs::interaction::{add_in, init_in, remove_in, status_in};
use dvcs::locator::{loop_find, DirEntry, DirListing};
use dvcs::stager::Stager;
use dvcs::staging::FileProbe;

const HIDDEN: &str = ".dvcs_hidden";

// The tree that every case works on: a directory `./repo` that holds the
// repository's own folder and one empty file, `text.txt`.

fn empty_file() -> Option<FileProbe> {
    Some(FileProbe {
        modified: Some(1_000),
        created: Some(1_000),
        accessed: Some(1_000),
        mode: 0o100644,
        read_only: false,
        is_file: true,
        content: Some(Vec::new()),
    })
}

fn folder() -> Option<FileProbe> {
    Some(FileProbe {
        modified: Some(1_000),
        created: Some(1_000),
        accessed: Some(1_000),
        mode: 0o40755,
        read_only: false,
        is_file: false,
        content: None,
    })
}

fn is_there(path: &str) -> bool {
    matches!(path, "./repo" | "./repo/text.txt" | "./repo/.dvcs_hidden")
}

fn probe(path: &str) -> Option<FileProbe> {
    match path {
        "./repo/text.txt" => empty_file(),
        "./repo" | "./repo/.dvcs_hidden" => folder(),
        _ => None,
    }
}

fn repo_level() -> DirListing {
    DirListing {
        path: "/work/repo".to_string(),
        is_root: false,
        entries: vec![
            DirEntry {
                name: HIDDEN.to_string(),
                path: "/work/repo/.dvcs_hidden".to_string(),
                is_dir: true,
            },
            DirEntry {
                name: "text.txt".to_string(),
                path: "/work/repo/text.txt".to_string(),
                is_dir: false,
            },
        ],
    }
}

fn above() -> Vec<DirListing> {
    vec![
        DirListing {
            path: "/work".to_string(),
            is_root: false,
            entries: vec![DirEntry {
                name: "repo".to_string(),
                path: "/work/repo".to_string(),
                is_dir: true,
            }],
        },
        DirListing { path: "/".to_string(), is_root: true, entries: vec![] },
    ]
}

fn located(path: &str) -> Option<(String, String)> {
    let mut levels = Vec::new();
    match path {
        "./repo" => levels.push(repo_level()),
        "./repo/text.txt" => {
            levels.push(DirListing {
                path: "/work/repo/text.txt".to_string(),
                is_root: false,
                entries: vec![],
            });
            levels.push(repo_level());
        }
        _ => return None,
    }
    levels.extend(above());
    loop_find(&levels, HIDDEN)
}

fn init(path: &str) -> bool {
    init_in(path.to_string(), HIDDEN, is_there(path), true, None, &probe(path), &vec![]).is_ok()
}

fn add(path: &str, index: Option<&str>) -> Result<String, bool> {
    add_in(path.to_string(), is_there(path), &located(path), index, &probe(path)).map_err(|_| false)
}

fn status(path: &str, index: Option<&str>) -> bool {
    status_in(path.to_string(), is_there(path), &located(path), index, &vec![]).is_ok()
}

fn remove(path: &str, index: Option<&str>) -> bool {
    remove_in(path.to_string(), is_there(path), &located(path), index).is_ok()
}

#[test]
fn init_test_1a() {
    let file_path = String::from("./repo");
    let init_res = init(&file_path);
    assert_eq!(init_res, true);
}

#[test]
fn init_test_1b() {
    let file_path = String::from("123123123");
    let init_res = init(&file_path);
    assert_eq!(init_res, false);
}

#[test]
fn add_test_2a() {
    let file_path = String::from("./repo/text.txt");
    let add_res = add(&file_path, None).is_ok();
    assert_eq!(add_res, true);
}

#[test]
fn add_test_2b() {
    let file_path = String::from("xyz");
    let add_res = add(&file_path, None).is_ok();
    assert_eq!(add_res, false);
}

#[test]
fn status_test_3a() {
    let file_path = String::from("./repo/text.txt");
    let status_res = status(&file_path, None);
    assert_eq!(status_res, true);
}

#[test]
fn status_test_3b() {
    let file_path = String::from("./1212312repo");
    let status_res = status(&file_path, None);
    assert_eq!(status_res, false);
}

#[test]
fn remove_test_4c() {
    let file_path = String::from("./repo/text.txt");
    let index = add(&file_path, None).unwrap();
    let remove_res = remove(&file_path, Some(&index));
    assert_eq!(remove_res, true);
}

#[test]
fn remove_test_4d() {
    let file_path = String::from(".repo/test.txt232121213223213");
    let remove_res = remove(&file_path, None);
    assert_eq!(remove_res, false);
}

#[test]
fn init_test_succ() {
    let file_path = String::from("./repo");
    let res = init(&file_path);
    assert_eq!(res, true);
}

#[test]
fn init_test_fail() {
    let file_path = String::from("./dewdedewedwdeweddwe");
    let res = init(&file_path);
    assert_eq!(res, false);
}

#[test]
fn status_in_test() {
    let file_path = String::from("./repo");
    let res = status(&file_path, None);
    assert_eq!(res, true);
}

#[test]
fn remove_in_test() {
    let file_path = String::from("./repo");
    let index = add(&file_path, None).unwrap();
    let res = remove(&file_path, Some(&index));
    assert_eq!(res, true);
}

#[test]
fn add_in_test() {
    let file_path = String::from("./repo");
    let res = add(&file_path, None).is_ok();
    assert_eq!(res, true);
}

#[test]
fn all_status() {
    let stager_i = Stager::new("/tmp/dvcs_team", "/tmp/one", true, None).unwrap();

    // the directory was created a moment ago and holds nothing
    let a = stager_i.init(String::from("/tmp/dvcs_test/"), false, &folder(), &vec![]);

    assert_eq!(a.is_ok(), true);
}

#[test]
fn all_init() {
    let stager_i = Stager::new("/tmp/dvcs_team", "/tmp/one", true, None).unwrap();

    let b = stager_i.clone().init(String::from("/tmp/dvcs_test/"), false, &folder(), &vec![]);
    assert_eq!(b.is_ok(), true);

    // by now the directory holds a file
    let b = stager_i.clone().init(String::from("/tmp/dvcs_test/"), true, &folder(), &vec![]);
    assert_eq!(b.is_ok(), true);
}
