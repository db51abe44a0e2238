use gh_discussion_export::json::{parse_json, json_to_string, Json};
use gh_discussion_export::transform::{build_asset_map, AssetMap};
use gh_discussion_export::assets::DownloadResult;
use gh_discussion_export::error::Error;

#[test]
fn test_parse_json_scalars() {
    assert_eq!(parse_json("null").unwrap(), Json::Null);
    assert_eq!(parse_json("true").unwrap(), Json::Bool(true));
    assert_eq!(parse_json("42").unwrap(), Json::Int(42));
    assert_eq!(parse_json("-7").unwrap(), Json::Int(-7));
    assert_eq!(parse_json("\"hi\"").unwrap(), Json::Str("hi".to_string()));
    assert!(parse_json("not json").is_err());
}

#[test]
fn test_parse_json_structure() {
    let v = parse_json(r#"{"a": [1, null], "b": {"c": "x"}}"#).unwrap();
    let a = v.get("a").unwrap();
    match a.as_array() {
        Some(items) => {
            assert_eq!(items.len(), 2);
            assert_eq!(items[0].as_i64(), Some(1));
            assert!(items[1].is_null());
        }
        None => panic!("expected array"),
    }
    let b = v.get("b").unwrap();
    assert_eq!(b.get("c").unwrap().as_str(), Some("x"));
    assert!(v.get("missing").is_none());
}

#[test]
fn test_json_to_string_exact() {
    let v = Json::Obj(vec![
        ("query".to_string(), Json::Str("q".to_string())),
        (
            "variables".to_string(),
            Json::Obj(vec![
                ("id".to_string(), Json::Str("D_1".to_string())),
                ("after".to_string(), Json::Null),
            ]),
        ),
    ]);
    assert_eq!(
        json_to_string(&v),
        r#"{"query":"q","variables":{"id":"D_1","after":null}}"#
    );
}

#[test]
fn test_json_to_string_escapes() {
    let v = Json::Str("a\"b\\c\nd".to_string());
    assert_eq!(json_to_string(&v), "\"a\\\"b\\\\c\\nd\"");
}

#[test]
fn test_json_round_trip_through_parser() {
    let v = Json::Obj(vec![
        ("s".to_string(), Json::Str("line1\nline2\t\"quoted\"".to_string())),
        ("n".to_string(), Json::Int(-12)),
        ("arr".to_string(), Json::Arr(vec![Json::Bool(false), Json::Null])),
    ]);
    let text = json_to_string(&v);
    let back = parse_json(&text).unwrap();
    assert_eq!(
        back.get("s").unwrap().as_str(),
        Some("line1\nline2\t\"quoted\"")
    );
    assert_eq!(back.get("n").unwrap().as_i64(), Some(-12));
    assert_eq!(
        back.get("arr").unwrap(),
        &Json::Arr(vec![Json::Bool(false), Json::Null])
    );
}

#[test]
fn test_build_asset_map_from_results() {
    let results = vec![
        DownloadResult {
            url: "https://github.com/user-attachments/assets/u1".to_string(),
            uuid: "u1".to_string(),
            extension: ".png".to_string(),
            result: Ok(()),
        },
        DownloadResult {
            url: "https://github.com/user-attachments/assets/u2".to_string(),
            uuid: "u2".to_string(),
            extension: ".gif".to_string(),
            result: Err(Error::Authentication),
        },
    ];
    let map = build_asset_map(&results, "7-discussion-assets");
    assert_eq!(
        map.get("u1").cloned(),
        Some("7-discussion-assets/u1.png".to_string())
    );
    assert!(map.get("u2").is_none());
}

#[test]
fn test_build_asset_map_same_results_same_map() {
    let results = vec![DownloadResult {
        url: "https://github.com/user-attachments/assets/u1".to_string(),
        uuid: "u1".to_string(),
        extension: ".png".to_string(),
        result: Ok(()),
    }];
    let first = build_asset_map(&results, "assets");
    let second = build_asset_map(&results, "assets");
    assert_eq!(first.get("u1"), second.get("u1"));
    assert_eq!(first.get("other"), second.get("other"));
}

#[test]
fn test_asset_map_insert_and_lookup() {
    let mut m = AssetMap::new();
    assert!(m.is_empty());
    m.insert("k".to_string(), "v1".to_string());
    assert_eq!(m.get("k").cloned(), Some("v1".to_string()));
    m.insert("k".to_string(), "v2".to_string());
    assert_eq!(m.get("k").cloned(), Some("v2".to_string()));
    assert!(m.get("absent").is_none());
}
