use dvcs::codec::{find_field, find_last, object_fields};
use dvcs::error::DvcsError;
use dvcs::json::{parse, render, Json};
use dvcs::ledger_codec::{json_texts, texts_json};
use dvcs::text::{chars_of, contains_text, decimal_text, path_lies_in, truth_text};

#[test]
fn parse_gives_the_tree() {
    let doc = parse("{\"b\":[null,true,\"t\"],\"a\":{\"n\":1}}").unwrap();
    match doc {
        Json::Object(fields) => {
            assert_eq!(fields.len(), 2);
            assert_eq!(fields[0].0, "a");
            assert_eq!(fields[1].0, "b");
            match &fields[1].1 {
                Json::List(items) => {
                    assert_eq!(items.len(), 3);
                    assert!(matches!(items[0], Json::Null));
                    assert!(matches!(items[1], Json::Bool(true)));
                    assert!(matches!(&items[2], Json::Text(t) if t == "t"));
                }
                other => panic!("{:?}", other),
            }
            match &fields[0].1 {
                Json::Object(inner) => {
                    assert!(matches!(&inner[0].1, Json::Number(n) if n.as_u64() == Some(1)));
                }
                other => panic!("{:?}", other),
            }
        }
        other => panic!("{:?}", other),
    }
}

#[test]
fn parse_refuses_what_is_no_document() {
    assert_eq!(parse("").err(), Some(DvcsError::CorruptIndex));
    assert_eq!(parse("{\"a\":}").err(), Some(DvcsError::CorruptIndex));
    assert_eq!(parse("{} trailing").err(), Some(DvcsError::CorruptIndex));
}

#[test]
fn render_writes_the_tree() {
    let doc = Json::Object(vec![
        ("z".to_string(), Json::List(vec![Json::Null, Json::Bool(false), Json::Text("q\"".to_string())])),
        ("a".to_string(), Json::Text("first".to_string())),
        ("a".to_string(), Json::Text("last".to_string())),
    ]);
    assert_eq!(render(&doc), Ok("{\"a\":\"last\",\"z\":[null,false,\"q\\\"\"]}".to_string()));
    assert_eq!(render(&Json::Null), Ok("null".to_string()));
}

#[test]
fn find_last_and_find_field() {
    let fields = vec![
        ("a".to_string(), Json::Text("1".to_string())),
        ("b".to_string(), Json::Null),
        ("a".to_string(), Json::Text("2".to_string())),
    ];
    assert_eq!(find_last(&fields, "a"), Some(2));
    assert_eq!(find_last(&fields, "b"), Some(1));
    assert_eq!(find_last(&fields, "c"), None);
    assert!(matches!(find_field(&fields, "a"), Some(Json::Text(t)) if t == "2"));
    assert!(find_field(&fields, "c").is_none());
    let positions = object_fields(&fields);
    assert_eq!(positions.len(), 2);
    assert_eq!(positions.get("a"), Some(&2));
    assert_eq!(positions.get("b"), Some(&1));
}

#[test]
fn lists_of_texts() {
    let items = vec!["x".to_string(), "".to_string(), "y".to_string()];
    let doc = texts_json(&items);
    assert_eq!(render(&doc), Ok("[\"x\",\"\",\"y\"]".to_string()));
    assert_eq!(json_texts(&doc), Some(items));
    assert_eq!(json_texts(&Json::List(vec![Json::Null])), None);
    assert_eq!(json_texts(&Json::Null), None);
}

#[test]
fn text_helpers() {
    assert_eq!(chars_of("héllo"), vec!['h', 'é', 'l', 'l', 'o']);
    assert_eq!(decimal_text(0), "0");
    assert_eq!(decimal_text(1234567890), "1234567890");
    assert_eq!(truth_text(true), "true");
    assert_eq!(truth_text(false), "false");
    assert!(contains_text(&vec!["a".to_string(), "b".to_string()], &"b".to_string()));
    assert!(!contains_text(&vec!["a".to_string()], &"b".to_string()));
}

#[test]
fn path_lies_in_a_folder_or_is_it() {
    assert!(path_lies_in("/r/.dvcs_hidden", "/r/.dvcs_hidden"));
    assert!(path_lies_in("/r/.dvcs_hidden/index.json", "/r/.dvcs_hidden"));
    assert!(path_lies_in("/r/.dvcs_hidden/", "/r/.dvcs_hidden"));
    assert!(path_lies_in("/r/é/x", "/r/é"));
    assert!(path_lies_in("", ""));
    assert!(path_lies_in("/x", ""));
    assert!(!path_lies_in("/r/.dvcs_hidden2", "/r/.dvcs_hidden"));
    assert!(!path_lies_in("/r/.dvcs_hidden2/index.json", "/r/.dvcs_hidden"));
    assert!(!path_lies_in("prefix/r/.dvcs_hidden/x", "/r/.dvcs_hidden"));
    assert!(!path_lies_in("/r/.dvcs_hidde", "/r/.dvcs_hidden"));
    assert!(!path_lies_in("/r", "/r/.dvcs_hidden"));
    assert!(!path_lies_in("/r/.dvcs_hiddex/y", "/r/.dvcs_hidden"));
    assert!(!path_lies_in("x", ""));
}
