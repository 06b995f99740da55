use dvcs::error::DvcsError;
use dvcs::merge::{find_added, find_same_diff, merge_repos, merge_states, State};

fn state(address: &str, contents: &[&str]) -> State {
    State {
        address: address.to_string(),
        contents: contents.iter().map(|t| t.to_string()).collect(),
    }
}

fn strings(items: &[&str]) -> Vec<String> {
    items.iter().map(|t| t.to_string()).collect()
}

#[test]
fn lib_it_works() {
    let ancestor: State = State {
        address: "a".to_string(),
        contents: vec!["a".to_string(), "b".to_string(), "c".to_string(), "d".to_string()],
    };
    let ours: State = State {
        address: "b".to_string(),
        contents: vec!["a".to_string(), "b".to_string(), "c".to_string(), "e".to_string()],
    };
    let theirs: State = State {
        address: "c".to_string(),
        contents: vec!["a".to_string(), "b".to_string(), "c".to_string(), "f".to_string()],
    };

    assert_eq!(
        merge_states(ancestor, ours, theirs),
        Ok((vec!["f".to_string()], vec!["a".to_string(), "b".to_string(), "c".to_string()]))
    );
}

#[test]
fn merge_of_equal_states_adds_nothing() {
    let r = merge_states(
        state("a", &["x", "y"]),
        state("b", &["x", "y"]),
        state("c", &["x", "y"]),
    );
    assert_eq!(r, Ok((strings(&[]), strings(&["x", "y"]))));
}

#[test]
fn merge_does_not_add_what_both_sides_added() {
    let r = merge_states(
        state("a", &["x"]),
        state("b", &["x", "n", "o"]),
        state("c", &["x", "n", "t"]),
    );
    assert_eq!(r, Ok((strings(&["t"]), strings(&["x"]))));
}

#[test]
fn merge_of_empty_states_is_empty() {
    let r = merge_states(state("a", &[]), state("b", &[]), state("c", &[]));
    assert_eq!(r, Ok((strings(&[]), strings(&[]))));
}

#[test]
fn merge_candidates_need_both_sides() {
    let r = merge_states(
        state("a", &["k", "l", "m"]),
        state("b", &["l", "k", "n"]),
        state("c", &["l", "o", "l"]),
    );
    assert_eq!(r, Err(DvcsError::DeletionConflict));
    let r = merge_states(
        state("a", &["k", "l", "m"]),
        state("b", &["l", "n"]),
        state("c", &["l", "o", "l"]),
    );
    assert_eq!(r, Ok((strings(&["o"]), strings(&["l"]))));
}

#[test]
fn merge_states_reports_diverging_deletions() {
    let r = merge_states(
        state("a", &["a", "b", "c"]),
        state("b", &["a", "b"]),
        state("c", &["a", "c"]),
    );
    assert_eq!(r, Err(DvcsError::DeletionConflict));
    let r = merge_states(state("a", &["a", "b"]), state("b", &["a"]), state("c", &["a", "b"]));
    assert_eq!(r, Err(DvcsError::DeletionConflict));
}

#[test]
fn find_same_diff_splits_in_order() {
    let (same, diff) = find_same_diff(&strings(&["a", "b", "c", "d"]), &strings(&["d", "b"]));
    assert_eq!(same, strings(&["b", "d"]));
    assert_eq!(diff, strings(&["a", "c"]));
}

#[test]
fn find_added_keeps_order_and_repeats() {
    let added = find_added(&strings(&["a"]), &strings(&["z", "a", "y", "z"]));
    assert_eq!(added, strings(&["z", "y", "z"]));
}

#[test]
fn merge_repos_agreeing_deletions() {
    let r = merge_repos(
        "a".to_string(),
        "b".to_string(),
        "c".to_string(),
        strings(&["a", "b", "c", "d"]),
        strings(&["a", "b", "c", "e"]),
        strings(&["a", "b", "c", "f"]),
    );
    assert_eq!(r, Ok((strings(&["f"]), strings(&["a", "b", "c"]))));
}

#[test]
fn merge_repos_reports_deletion_conflict() {
    let r = merge_repos(
        "a".to_string(),
        "b".to_string(),
        "c".to_string(),
        strings(&["a", "b", "c"]),
        strings(&["a", "b"]),
        strings(&["a", "c"]),
    );
    assert_eq!(r, Err(DvcsError::DeletionConflict));
}

#[test]
fn merge_repos_same_deletions_in_other_order() {
    let r = merge_repos(
        "a".to_string(),
        "b".to_string(),
        "c".to_string(),
        strings(&["p", "q", "r", "p"]),
        strings(&["r"]),
        strings(&["r", "s"]),
    );
    assert_eq!(r, Ok((strings(&["s"]), strings(&["r"]))));
}
