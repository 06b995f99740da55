use dvcs::error::DvcsError;
use dvcs::stager::Stager;
use dvcs::staging::FileProbe;

const DVCS_HIDDEN: &str = "/tmp/dvcs_team";

fn directory() -> Option<FileProbe> {
    Some(FileProbe {
        modified: Some(1),
        created: Some(1),
        accessed: Some(1),
        mode: 0o40755,
        read_only: false,
        is_file: false,
        content: None,
    })
}

fn file(content: &str) -> Option<FileProbe> {
    Some(FileProbe {
        modified: Some(100),
        created: Some(50),
        accessed: Some(150),
        mode: 0o100644,
        read_only: false,
        is_file: true,
        content: Some(content.as_bytes().to_vec()),
    })
}

#[test]
fn success_diff() {
    let stager_i = Stager::new(DVCS_HIDDEN, "/tmp/one", true, None).unwrap();
    let a = stager_i.diff(String::from("/tmp/one"), String::from(""));

    assert_eq!(a, Ok(String::from("")));
}

#[test]
fn all_add() {
    let stager_i = Stager::new(DVCS_HIDDEN, "/tmp/one", true, None).unwrap();
    // nothing exists at the path
    let a = stager_i.add(String::from("/tmp/one"), &None);

    assert_eq!(a.is_ok(), false);
}

#[test]
fn all_remove() {
    let stager_i = Stager::new(DVCS_HIDDEN, "/tmp/one", true, None).unwrap();
    let a = stager_i.remove(String::from("/tmp/one"));

    assert_eq!(a.is_ok(), false);
}

#[test]
fn diff_with_a_revision_is_empty_too() {
    let stager_i = Stager::new(DVCS_HIDDEN, "/tmp/one", true, None).unwrap();
    assert_eq!(stager_i.diff(String::from("/tmp/one"), String::from("HEAD")), Ok(String::new()));
}

#[test]
fn stager_new_fails_as_staging_does() {
    assert_eq!(
        Stager::new(DVCS_HIDDEN, "/tmp/one", false, None).err(),
        Some(DvcsError::NoSuchRepository)
    );
    assert_eq!(
        Stager::new(DVCS_HIDDEN, "/tmp/one", true, Some("[")).err(),
        Some(DvcsError::CorruptIndex)
    );
}

#[test]
fn empty_path_is_refused() {
    let stager = Stager::new(DVCS_HIDDEN, "/tmp/one", true, None).unwrap();
    assert_eq!(stager.clone().add(String::new(), &file("x")), Err(DvcsError::EmptyPath));
    assert_eq!(stager.clone().remove(String::new()), Err(DvcsError::EmptyPath));
    assert_eq!(
        stager.clone().init(String::new(), false, &directory(), &vec![]),
        Err(DvcsError::EmptyPath)
    );
    let mut s = stager;
    assert_eq!(s.status(String::new(), &vec![]), Err(DvcsError::EmptyPath));
}

#[test]
fn add_hands_back_the_index_text() {
    let stager = Stager::new(DVCS_HIDDEN, "/tmp/one", true, None).unwrap();
    let text = stager.add(String::from("/tmp/one/a"), &file("abc")).unwrap();
    let reopened = Stager::new(DVCS_HIDDEN, "/tmp/one", true, Some(&text)).unwrap();
    assert_eq!(reopened.index_text(), Ok(text));
    assert_eq!(
        reopened.clone().remove(String::from("/tmp/one/b")),
        Err(DvcsError::NoSuchEntry)
    );
    assert_eq!(
        reopened.remove(String::from("/tmp/one/a")),
        Ok("{\"/tmp/one/a\":{\"repository_version\":null,\"staging\":null,\"working_directory\":null}}"
            .to_string())
    );
}

#[test]
fn status_reports_what_changed_since_staging() {
    let stager = Stager::new(DVCS_HIDDEN, "/tmp/one", true, None).unwrap();
    let text = stager.add(String::from("a"), &file("abc")).unwrap();
    let stager = Stager::new(DVCS_HIDDEN, "/tmp/one", true, Some(&text)).unwrap();
    let text = stager.add(String::from("b"), &file("xyz")).unwrap();
    let mut stager = Stager::new(DVCS_HIDDEN, "/tmp/one", true, Some(&text)).unwrap();

    let unchanged = vec![("a".to_string(), file("abc")), ("b".to_string(), file("xyz"))];
    assert_eq!(stager.status(String::from("/tmp/one"), &unchanged), Ok("changed:\n".to_string()));

    let edited = vec![("a".to_string(), file("abc")), ("b".to_string(), file("xyz!"))];
    assert_eq!(stager.status(String::from("/tmp/one"), &edited), Ok("changed:\nb".to_string()));

    let deleted = vec![("a".to_string(), None), ("b".to_string(), file("xyz!"))];
    assert_eq!(stager.status(String::from("/tmp/one"), &deleted), Ok("changed:\nb".to_string()));
}

#[test]
fn init_snapshots_an_empty_directory_only() {
    let stager = Stager::new(DVCS_HIDDEN, "/tmp/one", true, None).unwrap();
    let entries = vec![("/tmp/one/a".to_string(), file("abc"))];
    assert_eq!(
        stager.clone().init(String::from("/tmp/dvcs_test/"), true, &directory(), &entries),
        Ok(None)
    );
    assert_eq!(
        stager.clone().init(String::from("/tmp/dvcs_test/"), true, &None, &entries),
        Ok(None)
    );
    assert_eq!(
        stager.clone().init(String::from("/tmp/dvcs_test/"), false, &None, &entries),
        Err(DvcsError::NoSuchDirectory)
    );
    let text = stager
        .init(String::from("/tmp/dvcs_test/"), false, &directory(), &entries)
        .unwrap()
        .unwrap();
    let reopened = Stager::new(DVCS_HIDDEN, "/tmp/one", true, Some(&text)).unwrap();
    assert_eq!(reopened.index_text(), Ok(text.clone()));
    assert!(text.contains("\"working_directory\":{"));
    assert!(text.contains("\"staging\":null"));
}

#[test]
fn stager_names_the_staged_paths() {
    let stager = Stager::new(DVCS_HIDDEN, "/tmp/one", true, None).unwrap();
    assert_eq!(stager.staged_paths(), Vec::<String>::new());
    let text = stager.add(String::from("a"), &file("abc")).unwrap();
    let stager = Stager::new(DVCS_HIDDEN, "/tmp/one", true, Some(&text)).unwrap();
    assert_eq!(stager.staged_paths(), vec!["a"]);
}
