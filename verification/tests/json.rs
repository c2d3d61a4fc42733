//! JSON values.

use limen::json::{text, Json};

#[test]
fn members_and_items_are_found() {
    let v = Json::Object(vec![
        ("a".to_string(), Json::List(vec![Json::Bool(true), text("x")])),
        ("b".to_string(), Json::Number("1".to_string())),
        ("a".to_string(), Json::Null),
    ]);
    assert!(matches!(v.member("a").item(0), Json::Bool(true)));
    assert_eq!(v.member("a").item(1).as_text().as_deref(), Some("x"));
    assert!(matches!(v.member("a").item(2), Json::Null));
    assert!(matches!(v.member("c"), Json::Null));
    assert!(matches!(v.item(0), Json::Null));
    assert_eq!(v.member("b").as_text(), None);
    assert!(matches!(text("x").member("a"), Json::Null));
}
