use dvcs::staging::{FileProbe, Staging};
use dvcs::walk::TreeWalk;

fn probe(is_file: bool) -> Option<FileProbe> {
    Some(FileProbe {
        modified: Some(1),
        created: Some(1),
        accessed: Some(1),
        mode: 0o644,
        read_only: false,
        is_file,
        content: if is_file { Some(b"x".to_vec()) } else { None },
    })
}

#[test]
fn walk_hands_each_directory_out_once() {
    let mut walk = TreeWalk::start("/w");
    assert_eq!(walk.next_directory(), Some("/w".to_string()));
    walk.schedule("/w/a");
    walk.schedule("/w/b");
    walk.schedule("/w");
    assert_eq!(walk.next_directory(), Some("/w/b".to_string()));
    walk.schedule("/w/a");
    assert_eq!(walk.next_directory(), Some("/w/a".to_string()));
    assert_eq!(walk.next_directory(), None);
    assert_eq!(walk.next_directory(), None);
}

#[test]
fn traversal_records_and_schedules() {
    let mut staging = Staging::new("/w/.dvcs_hidden", "/w", true, None).unwrap();
    let mut walk = TreeWalk::start("/w");
    assert_eq!(walk.next_directory(), Some("/w".to_string()));
    let listing = vec![
        ("/w/f.txt".to_string(), probe(true)),
        ("/w/sub".to_string(), probe(false)),
        ("/w/.dvcs_hidden".to_string(), probe(false)),
        ("/w/.dvcs_hidden/objects".to_string(), probe(false)),
        ("/w/loop".to_string(), probe(false)),
    ];
    staging.recursive_file_traversal(&mut walk, 1, &listing);
    assert_eq!(walk.next_directory(), Some("/w/loop".to_string()));
    // a link that leads back to the start
    staging.recursive_file_traversal(&mut walk, 1, &vec![("/w".to_string(), probe(false))]);
    assert_eq!(walk.next_directory(), Some("/w/sub".to_string()));
    staging.recursive_file_traversal(&mut walk, 1, &vec![("/w/sub/g".to_string(), probe(true))]);
    assert_eq!(walk.next_directory(), None);

    let index = staging.get_index();
    assert_eq!(index.len(), 5);
    assert!(index.get("/w/f.txt").unwrap().working_directory.is_some());
    assert!(index.get("/w/sub").unwrap().working_directory.is_some());
    assert!(index.get("/w/sub/g").unwrap().working_directory.is_some());
    assert!(index.get("/w/.dvcs_hidden").is_none());
    assert!(index.get("/w/.dvcs_hidden/objects").is_none());
}

#[test]
fn traversal_follows_a_sibling_of_the_hidden_folder() {
    let mut staging = Staging::new("/w/.dvcs_hidden", "/w", true, None).unwrap();
    let mut walk = TreeWalk::start("/w");
    assert_eq!(walk.next_directory(), Some("/w".to_string()));
    let listing = vec![
        ("/w/.dvcs_hidden".to_string(), probe(false)),
        ("/w/.dvcs_hidden2".to_string(), probe(false)),
    ];
    staging.recursive_file_traversal(&mut walk, 0, &listing);
    assert_eq!(walk.next_directory(), Some("/w/.dvcs_hidden2".to_string()));
    assert_eq!(walk.next_directory(), None);
    let index = staging.get_index();
    assert_eq!(index.len(), 1);
    assert!(index.get("/w/.dvcs_hidden2").unwrap().staging.is_some());
}
