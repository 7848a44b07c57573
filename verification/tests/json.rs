use codex_silent::codec::{compact, decode, encode, parse, pretty};
use codex_silent::json::{Json, Object};

fn json(text: &str) -> Json {
    parse(text).unwrap()
}

#[test]
fn members_are_kept_in_the_order_of_their_keys() {
    let mut object = Object::new();
    for key in ["b", "a", "é", "aa", ""] {
        object.insert(key.to_string(), Json::text(key));
    }
    let keys: Vec<&str> = (0..object.len()).map(|i| object.entry(i).0.as_str()).collect();
    assert_eq!(keys, ["", "a", "aa", "b", "é"]);
    object.insert("a".to_string(), Json::Null);
    assert_eq!(object.len(), 5);
    assert!(object.get("a").unwrap().is_null());
    assert!(object.get("c").is_none());
    assert!(object.contains_key("é"));
}

#[test]
fn the_first_missing_key_is_the_smallest() {
    let all = Object::new().with("x", Json::Null).with("m", Json::Null).with("c", Json::Null);
    let some = Object::new().with("c", Json::Bool(true));
    assert_eq!(all.first_missing_in(&some).unwrap(), "m");
    assert!(some.first_missing_in(&all).is_none());
}

#[test]
fn values_are_read_by_their_kind() {
    let value = json(r#"{"t":"x","n":7,"m":-7,"f":7.0,"l":[1],"z":null}"#);
    assert_eq!(value.at("t").as_str(), Some("x"));
    assert!(value.at("t").is_text("x"));
    assert!(!value.at("n").is_text("7"));
    assert_eq!(value.at("n").as_u64(), Some(7));
    assert_eq!(value.at("m").as_u64(), None);
    assert_eq!(value.at("f").as_u64(), None);
    assert_eq!(value.at("l").as_array().unwrap().len(), 1);
    assert!(value.at("z").is_null());
    assert!(value.at("none").is_null());
    assert!(value.get("none").is_none());
    assert!(value.get("z").is_some());
    assert!(value.at("t").get("x").is_none());
    assert!(value.as_object().is_some());
    assert!(value.at("l").as_object().is_none());
}

#[test]
fn equality_goes_by_value() {
    assert_eq!(json(r#"{"a":1,"b":[true]}"#), json(r#"{"b":[true],"a":1}"#));
    assert_ne!(json("1"), json("1.0"));
    assert_eq!(json("0.0"), json("-0.0"));
    assert_ne!(json("[1,2]"), json("[2,1]"));
    assert_ne!(json("[1]"), json("[1,1]"));
    assert_ne!(json(r#"{"a":1}"#), json(r#"{"a":1,"b":1}"#));
    assert_ne!(json("null"), json("false"));
    assert_ne!(json("\"a\""), json("\"b\""));
    let copy = json(r#"{"deep":[{"x":[1.5,-3]}]}"#);
    assert_eq!(copy.clone(), copy);
}

#[test]
fn whole_numbers_are_made_and_written() {
    assert_eq!(compact(&Json::from_u64(u64::MAX)), "18446744073709551615");
    assert_eq!(compact(&Json::from_i64(-32000)), "-32000");
    assert_eq!(Json::from_i64(5), Json::from_u64(5));
}

#[test]
fn setting_a_member_makes_an_object_of_anything() {
    assert_eq!(Json::Null.with("a", Json::Bool(true)), json(r#"{"a":true}"#));
    assert_eq!(json(r#"{"a":1}"#).with("a", json("2")), json(r#"{"a":2}"#));
}

#[test]
fn what_is_no_json_has_a_reason() {
    assert_eq!(parse("").unwrap_err(), "EOF while parsing a value at line 1 column 0");
    assert_eq!(parse("{} x").unwrap_err(), "trailing characters at line 1 column 4");
    assert!(decode(&vec![0xff]).is_err());
    let deep = format!("{}{}", "[".repeat(200), "]".repeat(200));
    assert!(parse(&deep).unwrap_err().contains("recursion limit"));
}

#[test]
fn deep_values_survive_the_wire() {
    let mut value = Json::text("end\n");
    for _ in 0..127 {
        value = Json::list(vec![value]);
    }
    let bytes = encode(&value);
    assert_eq!(decode(&bytes).unwrap(), value);
    assert!(pretty(&value).contains("\"end\\n\""));
}
