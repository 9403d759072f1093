use matrix_channel::json::{copy_json, text_member, Json};

fn document() -> Json {
    Json::object(vec![
        text_member("a", "1"),
        ("n".to_string(), Json::Number("3.5".to_string())),
        ("list".to_string(), Json::Array(vec![Json::Null, Json::Bool(true)])),
        text_member("a", "2"),
    ])
}

#[test]
fn members_are_found() {
    let d = document();
    assert_eq!(d.text_at("a"), Some("1"));
    assert_eq!(d.get("n"), Some(&Json::Number("3.5".to_string())));
    assert_eq!(d.text_at("n"), None);
    assert_eq!(d.get("b"), None);
    assert_eq!(Json::Null.get("a"), None);
    assert_eq!(Json::Array(vec![]).get("a"), None);
}

#[test]
fn only_text_is_text() {
    assert_eq!(Json::Text("x".to_string()).as_text(), Some("x"));
    assert_eq!(Json::Number("1".to_string()).as_text(), None);
}

#[test]
fn a_copy_is_the_same() {
    assert_eq!(copy_json(&document()), document());
}
