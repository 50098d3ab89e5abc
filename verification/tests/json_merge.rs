use hexane::jsonval::{clone_json, merge_json, Json};

fn obj(entries: Vec<(&str, Json)>) -> Json {
    Json::Obj(
        entries
            .into_iter()
            .map(|(k, v)| (k.to_string(), v))
            .collect(),
    )
}

fn s(v: &str) -> Json {
    Json::Str(v.to_string())
}

#[test]
fn merge_overrides_existing_keys_in_place() {
    let a = obj(vec![("title", s("old")), ("keep", s("kept"))]);
    let b = obj(vec![("title", s("new"))]);
    let merged = merge_json(&a, &b);
    match merged {
        Json::Obj(es) => {
            assert_eq!(es.len(), 2);
            assert_eq!(es[0].0, "title");
            assert!(matches!(&es[0].1, Json::Str(v) if v == "new"));
            assert_eq!(es[1].0, "keep");
            assert!(matches!(&es[1].1, Json::Str(v) if v == "kept"));
        }
        _ => panic!("merging two objects yields an object"),
    }
}

#[test]
fn merge_appends_new_keys_in_override_order() {
    let a = obj(vec![("x", s("1"))]);
    let b = obj(vec![("y", s("2")), ("z", s("3"))]);
    let merged = merge_json(&a, &b);
    match merged {
        Json::Obj(es) => {
            let keys: Vec<&str> = es.iter().map(|(k, _)| k.as_str()).collect();
            assert_eq!(keys, vec!["x", "y", "z"]);
        }
        _ => panic!("merging two objects yields an object"),
    }
}

#[test]
fn merge_recurses_into_nested_objects() {
    let a = obj(vec![("header", obj(vec![("links", s("default")), ("title", s("t"))]))]);
    let b = obj(vec![("header", obj(vec![("links", s("logged-in"))]))]);
    let merged = merge_json(&a, &b);
    match merged {
        Json::Obj(es) => match &es[0].1 {
            Json::Obj(inner) => {
                assert_eq!(inner.len(), 2);
                assert!(matches!(&inner[0].1, Json::Str(v) if v == "logged-in"));
                assert!(matches!(&inner[1].1, Json::Str(v) if v == "t"));
            }
            _ => panic!("nested objects merge as objects"),
        },
        _ => panic!("merging two objects yields an object"),
    }
}

#[test]
fn merge_replaces_when_either_side_is_not_an_object() {
    let a = obj(vec![("x", s("1"))]);
    let b = s("replacement");
    assert!(matches!(merge_json(&a, &b), Json::Str(v) if v == "replacement"));
    let merged = merge_json(&s("base"), &a);
    assert!(matches!(merged, Json::Obj(_)));
}

#[test]
fn clone_preserves_structure() {
    let v = obj(vec![
        ("n", Json::Num("7".to_string())),
        ("a", Json::Arr(vec![Json::Bool(true), Json::Null])),
    ]);
    let c = clone_json(&v);
    match c {
        Json::Obj(es) => {
            assert_eq!(es[0].0, "n");
            assert!(matches!(&es[0].1, Json::Num(t) if t == "7"));
            match &es[1].1 {
                Json::Arr(items) => {
                    assert!(matches!(items[0], Json::Bool(true)));
                    assert!(matches!(items[1], Json::Null));
                }
                _ => panic!("array field survives the copy"),
            }
        }
        _ => panic!("object survives the copy"),
    }
}
