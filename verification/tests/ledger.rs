use dvcs::error::DvcsError;
use dvcs::ledger::RepositoryController;

fn fresh() -> RepositoryController {
    RepositoryController::empty("./")
}

#[test]
fn temp_test_fn() {
    let mut repo = RepositoryController::new("./", true, None);
    println!("{:?}", &repo);

    repo.as_mut().unwrap().commit(
        "master3",
        "Initial commit3".to_string(),
        vec![("README.md3".to_string(), "Hello, world!3".to_string())],
    );
}

#[test]
fn lib_test_commit() {
    let mut repo = fresh();
    repo.commit("master", "Initial commit".to_string(), vec![]);
    assert_eq!(repo.log(), vec!["Initial commit"]);
}

#[test]
fn lib_test_log() {
    let mut repo = fresh();
    repo.commit("master", "Initial commit".to_string(), vec![]);
    repo.commit("master", "Second commit".to_string(), vec![]);
    assert_eq!(repo.log(), vec!["Initial commit", "Second commit"]);
}

#[test]
fn lib_test_heads() {
    let mut repo = fresh();
    repo.commit("master", "Initial commit".to_string(), vec![]);
    repo.commit("master", "Second commit".to_string(), vec![]);
    assert_eq!(repo.heads(), vec!["Second commit"]);
}

#[test]
fn lib_test_retrieve_all_history() {
    let mut repo = fresh();
    repo.commit("master", "Initial commit".to_string(), vec![]);
    repo.commit("master", "Second commit".to_string(), vec![]);
    assert_eq!(repo.retrieve_all_history(), vec!["Initial commit", "Second commit"]);
}

#[test]
fn lib_test_retrieve_commit_history() {
    let mut repo = fresh();

    repo.commit(
        "master",
        "Initial commit".to_string(),
        vec![("README.md".to_string(), "Hello, world!".to_string())],
    );

    assert_eq!(repo.retrieve_commit_history("README.md"), vec!["Initial commit:Hello, world!"]);
}

#[test]
fn lib_test_concatenate_empty_commit_hashes() {
    let mut repo = fresh();

    repo.commit(
        "master",
        "Initial commit".to_string(),
        vec![("README.md".to_string(), "Hello, world!".to_string())],
    );
    repo.commit(
        "master",
        "Second commit".to_string(),
        vec![("README.md".to_string(), "Another change".to_string())],
    );

    repo.concatenate("master", vec![]);

    assert_eq!(repo.head_of("master"), Some("".to_string()));

    assert_eq!(
        repo.log(),
        vec!["Initial commit".to_string(), "Second commit".to_string(), "".to_string()]
    );
}

#[test]
fn lib_test_checkout() {
    let mut repo = fresh();

    repo.commit(
        "master",
        "Initial commit".to_string(),
        vec![("README.md".to_string(), "Hello, world!".to_string())],
    );

    repo.checkout("master", "Initial commit");

    assert_eq!(repo.head_of("master"), Some("Initial commit".to_string()));

    assert_eq!(repo.log(), vec!["Initial commit".to_string(), "Initial commit".to_string()]);
}

#[test]
fn commit_then_log_history_and_heads() {
    let mut repo = fresh();
    repo.commit("main", "c1".to_string(), vec![("f.txt".to_string(), "hello".to_string())]);
    assert_eq!(repo.log(), vec!["c1"]);
    assert_eq!(repo.retrieve_commit_history("f.txt"), vec!["c1:hello"]);
    assert_eq!(repo.heads(), vec!["c1"]);
}

#[test]
fn untracked_file_has_no_history() {
    let mut repo = fresh();
    repo.commit("main", "c1".to_string(), vec![("f.txt".to_string(), "hello".to_string())]);
    assert_eq!(repo.retrieve_commit_history("g.txt"), Vec::<String>::new());
    assert_eq!(repo.head_of("other"), None);
}

#[test]
fn file_history_grows_by_one_line_per_commit() {
    let mut repo = fresh();
    repo.commit(
        "main",
        "c1".to_string(),
        vec![
            ("f.txt".to_string(), "one".to_string()),
            ("g.txt".to_string(), "uno".to_string()),
            ("f.txt".to_string(), "two".to_string()),
        ],
    );
    repo.commit("dev", "c2".to_string(), vec![("f.txt".to_string(), "three".to_string())]);
    assert_eq!(repo.retrieve_commit_history("f.txt"), vec!["c1:one", "c1:two", "c2:three"]);
    assert_eq!(repo.retrieve_commit_history("g.txt"), vec!["c1:uno"]);
    assert_eq!(repo.heads(), vec!["c1", "c2"]);
    assert_eq!(repo.head_of("dev"), Some("c2".to_string()));
}

#[test]
fn heads_are_last_write_wins_per_branch() {
    let mut repo = fresh();
    repo.commit("main", "c1".to_string(), vec![]);
    repo.commit("dev", "c2".to_string(), vec![]);
    repo.commit("main", "c3".to_string(), vec![]);
    assert_eq!(repo.heads(), vec!["c3", "c2"]);
    assert_eq!(repo.log(), vec!["c1", "c2", "c3"]);
}

#[test]
fn checkout_of_unknown_commit_commits_empty_message() {
    let mut repo = fresh();
    repo.commit("main", "c1".to_string(), vec![]);
    repo.checkout("main", "nope");
    assert_eq!(repo.log(), vec!["c1", ""]);
    assert_eq!(repo.head_of("main"), Some("".to_string()));
}

#[test]
fn concatenate_joins_known_messages_by_line() {
    let mut repo = fresh();
    repo.commit("main", "c1".to_string(), vec![]);
    repo.commit("main", "c2".to_string(), vec![]);
    repo.concatenate("main", vec!["c2".to_string(), "zz".to_string(), "c1".to_string()]);
    assert_eq!(repo.log(), vec!["c1", "c2", "c2\n\nc1\n"]);
    assert_eq!(repo.head_of("main"), Some("c2\n\nc1\n".to_string()));
}

#[test]
fn new_fails_without_repository() {
    let r = RepositoryController::new("./nowhere", false, None);
    assert_eq!(r.err(), Some(DvcsError::NoSuchRepository));
}

#[test]
fn new_from_empty_file_is_empty_ledger() {
    let repo = RepositoryController::new("./", true, Some("")).unwrap();
    assert_eq!(repo.log(), Vec::<String>::new());
    assert_eq!(repo.heads(), Vec::<String>::new());
}

#[test]
fn new_fails_on_corrupt_text() {
    let r = RepositoryController::new("./", true, Some("{not json"));
    assert_eq!(r.err(), Some(DvcsError::CorruptIndex));
    let r = RepositoryController::new("./", true, Some("[1,2,3]"));
    assert_eq!(r.err(), Some(DvcsError::CorruptIndex));
    let r = RepositoryController::new("./", true, Some("{\"commit_history\":[]}"));
    assert_eq!(r.err(), Some(DvcsError::CorruptIndex));
    let r = RepositoryController::new(
        "./",
        true,
        Some("{\"commit_history\":[1],\"branch_heads\":{},\"file_history\":{},\"dvcs_hidden\":\"./\"}"),
    );
    assert_eq!(r.err(), Some(DvcsError::CorruptIndex));
}

#[test]
fn save_locally_of_empty_ledger_exact_text() {
    let repo = fresh();
    assert_eq!(
        repo.save_locally(),
        Ok("{\"branch_heads\":{},\"commit_history\":[],\"dvcs_hidden\":\"./\",\"file_history\":{}}"
            .to_string())
    );
}

#[test]
fn save_locally_exact_text() {
    let mut repo = fresh();
    repo.commit("main", "c1".to_string(), vec![("f.txt".to_string(), "hello".to_string())]);
    assert_eq!(
        repo.save_locally(),
        Ok("{\"branch_heads\":{\"main\":\"c1\"},\"commit_history\":[\"c1\"],\"dvcs_hidden\":\"./\",\"file_history\":{\"f.txt\":[\"c1:hello\"]}}"
            .to_string())
    );
}

#[test]
fn ledger_round_trips_through_text() {
    let mut repo = fresh();
    repo.commit(
        "main",
        "c1".to_string(),
        vec![
            ("f.txt".to_string(), "hello".to_string()),
            ("dir/g \"q\".txt".to_string(), "line\nbreak".to_string()),
        ],
    );
    repo.commit("dev", "c2".to_string(), vec![("f.txt".to_string(), "again".to_string())]);
    let text = repo.save_locally().unwrap();
    let back = RepositoryController::read_from_repo_from_file("./", &text).unwrap();
    assert_eq!(back.log(), repo.log());
    assert_eq!(back.head_of("main"), Some("c1".to_string()));
    assert_eq!(back.head_of("dev"), Some("c2".to_string()));
    assert_eq!(back.heads().len(), 2);
    assert_eq!(back.retrieve_commit_history("f.txt"), vec!["c1:hello", "c2:again"]);
    assert_eq!(back.retrieve_commit_history("dir/g \"q\".txt"), vec!["c1:line\nbreak"]);
    assert_eq!(back.save_locally().unwrap(), text);
}

#[test]
fn ledger_reads_fields_in_any_order() {
    let text = "{\"commit_history\":[\"a\",\"b\"],\"branch_heads\":{\"main\":\"b\"},\"file_history\":{\"f\":[\"a:1\"]},\"dvcs_hidden\":\"/r\"}";
    let repo = RepositoryController::new("/elsewhere", true, Some(text)).unwrap();
    assert_eq!(repo.log(), vec!["a", "b"]);
    assert_eq!(repo.heads(), vec!["b"]);
    assert_eq!(repo.retrieve_commit_history("f"), vec!["a:1"]);
}

#[test]
fn concatenate_keeps_one_head_per_branch() {
    let mut repo = fresh();
    repo.commit("m", "A".to_string(), vec![]);
    repo.commit("m", "B".to_string(), vec![]);
    repo.concatenate("m", vec!["A".to_string(), "B".to_string()]);
    assert_eq!(repo.log(), vec!["A", "B", "A\nB\n"]);
    assert_eq!(repo.heads(), vec!["A\nB\n"]);
    assert_eq!(repo.retrieve_commit_history("A"), Vec::<String>::new());
    assert_eq!(
        repo.save_locally(),
        Ok("{\"branch_heads\":{\"m\":\"A\\nB\\n\"},\"commit_history\":[\"A\",\"B\",\"A\\nB\\n\"],\"dvcs_hidden\":\"./\",\"file_history\":{}}"
            .to_string())
    );
}

#[test]
fn checkout_onto_a_new_branch_adds_a_head() {
    let mut repo = fresh();
    repo.commit("m", "A".to_string(), vec![]);
    repo.checkout("n", "A");
    assert_eq!(repo.heads(), vec!["A", "A"]);
    repo.checkout("m", "A");
    assert_eq!(repo.heads(), vec!["A", "A"]);
    assert_eq!(repo.log(), vec!["A", "A", "A"]);
}
