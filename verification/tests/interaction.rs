use dvcs::error::DvcsError;
use dvcs::interaction::{add_in, diff_in, init_in, remove_in, status_in};
use dvcs::staging::FileProbe;

fn file(content: &str) -> Option<FileProbe> {
    Some(FileProbe {
        modified: Some(100),
        created: Some(50),
        accessed: Some(150),
        mode: 0o100644,
        read_only: false,
        is_file: true,
        content: Some(content.as_bytes().to_vec()),
    })
}

fn directory() -> Option<FileProbe> {
    Some(FileProbe {
        modified: Some(1),
        created: Some(1),
        accessed: Some(1),
        mode: 0o40755,
        read_only: false,
        is_file: false,
        content: None,
    })
}

fn located() -> Option<(String, String)> {
    Some(("./repo/.dvcs_hidden".to_string(), "./repo".to_string()))
}

#[test]
fn diff_in_test() {
    let res = diff_in("./repo/text.txt".to_string(), "HEAD".to_string(), true, &located(), None);
    assert_eq!(res, Ok(String::new()));
}

#[test]
fn commands_refuse_in_order() {
    let p = "./repo/text.txt".to_string();
    assert_eq!(
        add_in(p.clone(), false, &None, Some("{"), &None),
        Err(vec![DvcsError::NotFound])
    );
    assert_eq!(
        add_in(p.clone(), true, &None, Some("{"), &None),
        Err(vec![DvcsError::NoSuchRepository])
    );
    assert_eq!(
        add_in(p.clone(), true, &located(), Some("{"), &None),
        Err(vec![DvcsError::CorruptIndex])
    );
    assert_eq!(add_in(p.clone(), true, &located(), None, &None), Err(vec![DvcsError::NotFound]));
    assert_eq!(
        add_in(String::new(), true, &located(), None, &file("x")),
        Err(vec![DvcsError::EmptyPath])
    );
    assert_eq!(remove_in(p.clone(), false, &located(), None), Err(vec![DvcsError::NotFound]));
    assert_eq!(remove_in(p.clone(), true, &None, None), Err(vec![DvcsError::NoSuchRepository]));
    assert_eq!(remove_in(p.clone(), true, &located(), None), Err(vec![DvcsError::NoSuchEntry]));
    assert_eq!(
        status_in(p.clone(), false, &located(), None, &vec![]),
        Err(vec![DvcsError::NotFound])
    );
    assert_eq!(
        status_in(String::new(), true, &located(), None, &vec![]),
        Err(vec![DvcsError::EmptyPath])
    );
    assert_eq!(
        diff_in(p.clone(), String::new(), true, &None, None),
        Err(vec![DvcsError::NoSuchRepository])
    );
    assert_eq!(
        init_in(p.clone(), ".dvcs_hidden", false, false, None, &directory(), &vec![]),
        Err(vec![DvcsError::NotFound])
    );
    assert_eq!(
        init_in(p.clone(), ".dvcs_hidden", true, false, Some("]"), &directory(), &vec![]),
        Err(vec![DvcsError::CorruptIndex])
    );
    assert_eq!(
        init_in(String::new(), ".dvcs_hidden", true, false, None, &directory(), &vec![]),
        Err(vec![DvcsError::EmptyPath])
    );
    assert_eq!(
        init_in(p, ".dvcs_hidden", true, false, None, &None, &vec![]),
        Err(vec![DvcsError::NoSuchDirectory])
    );
}

#[test]
fn add_then_status_then_remove() {
    let p = "./repo/text.txt".to_string();
    let text = add_in(p.clone(), true, &located(), None, &file("one")).unwrap();

    let probes = vec![(p.clone(), file("one"))];
    let (report, persisted) = status_in(p.clone(), true, &located(), Some(&text), &probes).unwrap();
    assert_eq!(report, "changed:\n");
    let text = persisted;

    let probes = vec![(p.clone(), file("two"))];
    let (report, persisted) = status_in(p.clone(), true, &located(), Some(&text), &probes).unwrap();
    assert_eq!(report, "changed:\n./repo/text.txt");
    let text = persisted;

    let text = remove_in(p.clone(), true, &located(), Some(&text)).unwrap();
    let (report, _) = status_in(p.clone(), true, &located(), Some(&text), &probes).unwrap();
    assert_eq!(report, "changed:\n");
    assert_eq!(remove_in("x".to_string(), true, &located(), Some(&text)), Err(vec![DvcsError::NoSuchEntry]));
}

#[test]
fn init_in_skips_its_own_folder() {
    let entries = vec![
        ("./repo/text.txt".to_string(), file("t")),
        ("./repo/.dvcs_hidden".to_string(), directory()),
        ("./repo/.dvcs_hidden/index.json".to_string(), file("")),
        ("./repo/.dvcs_hidden2".to_string(), file("sibling")),
    ];
    assert_eq!(
        init_in("./repo".to_string(), ".dvcs_hidden", true, true, None, &directory(), &entries),
        Ok(None)
    );
    for root in ["./repo", "./repo/"] {
        let text =
            init_in(root.to_string(), ".dvcs_hidden", true, false, None, &directory(), &entries)
                .unwrap()
                .unwrap();
        assert!(text.starts_with("{\"./repo/.dvcs_hidden2\":{"), "{}", text);
        assert!(text.contains("\"./repo/text.txt\":{"));
        assert!(!text.contains("index.json"));
        assert!(!text.contains("\"./repo/.dvcs_hidden\""));
    }
}
