use dvcs::interaction::see_diff_in;
use dvcs::storage::{clone_tree, RepositoryStorage};
use dvcs::textmap::TextMap;

#[test]
fn test_see_diff() {
    let mut repo_storage = RepositoryStorage::new();

    let mut current_structure = TextMap::new();
    current_structure.insert("README.md".to_string(), "Hello, world!".to_string());
    current_structure.insert("src/main.rs".to_string(), "fn main() {}".to_string());
    current_structure.insert("src/lib.rs".to_string(), "pub fn hello() {}".to_string());
    repo_storage.set_repo_snapshot(current_structure);

    let mut prev_snapshot = TextMap::new();
    prev_snapshot.insert("README.md".to_string(), "Hello, world!".to_string());
    prev_snapshot.insert("src/main.rs".to_string(), "fn main() {}".to_string());

    let diff = repo_storage.see_diff(&prev_snapshot);

    assert_eq!(diff.get("src/lib.rs"), Some(&"pub fn hello() {}".to_string()));
}

#[test]
fn test_get_repo_structure() {
    let mut repo_storage = RepositoryStorage::new();

    let mut current_structure = TextMap::new();
    current_structure.insert("README.md".to_string(), "Hello, world!".to_string());
    current_structure.insert("src/main.rs".to_string(), "fn main() {}".to_string());
    repo_storage.set_repo_snapshot(current_structure);

    let structure = repo_storage.get_repo_structure();

    assert_eq!(structure.get("src/main.rs"), Some(&"fn main() {}".to_string()));
}

#[test]
fn test_set_repo_snapshot() {
    let mut repo_storage = RepositoryStorage::new();

    let mut prev_snapshot = TextMap::new();
    prev_snapshot.insert("README.md".to_string(), "Hello, world!".to_string());
    prev_snapshot.insert("src/main.rs".to_string(), "fn main() {}".to_string());

    repo_storage.set_repo_snapshot(prev_snapshot);

    let structure = repo_storage.get_repo_structure();

    assert_eq!(structure.get("src/main.rs"), Some(&"fn main() {}".to_string()));
}

#[test]
fn test_get_repo_structure_empty_repo() {
    let repo_storage = RepositoryStorage::new();

    let structure = repo_storage.get_repo_structure();

    assert!(structure.is_empty());
}

fn tree(entries: &[(&str, &str)]) -> TextMap<String> {
    let mut m = TextMap::new();
    for (k, v) in entries {
        m.insert(k.to_string(), v.to_string());
    }
    m
}

#[test]
fn diff_against_equal_snapshot_is_empty() {
    let mut storage = RepositoryStorage::new();
    storage.set_repo_snapshot(tree(&[("a", "1"), ("b", "2"), ("c/d", "3")]));
    let diff = storage.see_diff(&tree(&[("c/d", "3"), ("a", "1"), ("b", "2")]));
    assert!(diff.is_empty());
    assert_eq!(diff.len(), 0);
}

#[test]
fn diff_holds_changed_and_new_paths_only() {
    let mut storage = RepositoryStorage::new();
    storage.set_repo_snapshot(tree(&[("same", "1"), ("changed", "new"), ("added", "x")]));
    let diff = storage.see_diff(&tree(&[("same", "1"), ("changed", "old"), ("deleted", "y")]));
    assert_eq!(diff.len(), 2);
    assert_eq!(diff.get("changed"), Some(&"new".to_string()));
    assert_eq!(diff.get("added"), Some(&"x".to_string()));
    assert_eq!(diff.get("same"), None);
    assert_eq!(diff.get("deleted"), None);
}

#[test]
fn diff_against_empty_snapshot_is_whole_tree() {
    let mut storage = RepositoryStorage::new();
    storage.set_repo_snapshot(tree(&[("a", "1"), ("b", "2")]));
    let diff = storage.see_diff(&TextMap::new());
    assert_eq!(diff.len(), 2);
    assert_eq!(diff.get("a"), Some(&"1".to_string()));
    assert_eq!(diff.get("b"), Some(&"2".to_string()));
}

#[test]
fn diff_of_empty_tree_is_empty() {
    let storage = RepositoryStorage::new();
    let diff = storage.see_diff(&tree(&[("a", "1")]));
    assert!(diff.is_empty());
}

#[test]
fn clone_tree_keeps_order_and_contents() {
    let t = tree(&[("z", "26"), ("a", "1")]);
    let c = clone_tree(&t);
    assert_eq!(c.len(), 2);
    assert_eq!(c.key_at(0), "z");
    assert_eq!(c.key_at(1), "a");
    assert_eq!(c.get("z"), Some(&"26".to_string()));
}

#[test]
fn see_diff_in_fresh_repository_is_empty() {
    let (diff, ok) = see_diff_in(&tree(&[("a", "1")]));
    assert!(ok);
    assert!(diff.is_empty());
}

#[test]
fn text_map_insert_replaces_in_place() {
    let mut m: TextMap<u32> = TextMap::new();
    m.insert("a".to_string(), 1);
    m.insert("b".to_string(), 2);
    m.insert("a".to_string(), 3);
    assert_eq!(m.len(), 2);
    assert_eq!(m.key_at(0), "a");
    assert_eq!(*m.value_at(0), 3);
    assert_eq!(m.find("b"), Some(1));
    assert_eq!(m.find("c"), None);
    m.set_value(1, 9);
    assert_eq!(m.get("b"), Some(&9));
}
