use barzel::data::{parse_json, parse_toml, strings, Data};

#[test]
fn json_documents_become_data() {
    let doc = parse_json(r#"{"a":[1,"x",true,null],"b":{"c":2.5},"n":-1}"#).unwrap();
    let list = doc.get_array("a").unwrap();
    assert_eq!(list.len(), 4);
    assert_eq!(list[0].as_u64(), Some(1));
    assert_eq!(list[1].as_str(), Some("x"));
    assert_eq!(list[2].as_bool(), Some(true));
    assert!(matches!(list[3], Data::Null));
    assert_eq!(doc.get("b").unwrap().get("c").unwrap().as_u64(), None);
    assert_eq!(doc.u64_or("n", 9), 9);
    assert_eq!(doc.str_or("missing", "other"), "other");
}

#[test]
fn broken_documents_are_none() {
    assert!(parse_json("{").is_none());
    assert!(parse_json("").is_none());
    assert!(parse_toml("a = ").is_none());
}

#[test]
fn toml_documents_become_data() {
    let doc = parse_toml("[workspace]\nmembers = [\"a\", 1, \"b\"]\n").unwrap();
    let members = doc.get("workspace").unwrap().get_array("members").unwrap();
    assert_eq!(strings(members), ["a", "b"]);
}

#[test]
fn objects_list_their_fields() {
    let doc = parse_json(r#"{"x":1,"y":2}"#).unwrap();
    let names: Vec<&str> = doc.as_object().unwrap().iter().map(|(k, _)| k.as_str()).collect();
    assert_eq!(names, ["x", "y"]);
    assert!(doc.as_array().is_none());
    assert!(doc.get_str("x").is_none());
}
