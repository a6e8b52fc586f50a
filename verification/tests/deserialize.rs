use dprint::deserialize::deserialize_config;
use dprint::deserialize::parse_i32;
use dprint::deserialize::JsonTree;
use dprint::deserialize::ParseIntKind;
use dprint::configuration::ConfigKeyValue;
use dprint::configuration::ConfigMapValue;

fn s(v: &str) -> JsonTree {
    JsonTree::String(v.to_string())
}

fn n(v: &str) -> JsonTree {
    JsonTree::Number(v.to_string())
}

fn obj(entries: Vec<(&str, JsonTree)>) -> JsonTree {
    JsonTree::Object(entries.into_iter().map(|(k, v)| (k.to_string(), v)).collect())
}

#[test]
fn should_parse_i32_like_std() {
    assert_eq!(parse_i32("5"), Ok(5));
    assert_eq!(parse_i32("-5"), Ok(-5));
    assert_eq!(parse_i32("+5"), Ok(5));
    assert_eq!(parse_i32("2147483647"), Ok(i32::MAX));
    assert_eq!(parse_i32("-2147483648"), Ok(i32::MIN));
    assert_eq!(parse_i32("2147483648"), Err(ParseIntKind::PosOverflow));
    assert_eq!(parse_i32("-2147483649"), Err(ParseIntKind::NegOverflow));
    assert_eq!(parse_i32(""), Err(ParseIntKind::Empty));
    assert_eq!(parse_i32("-"), Err(ParseIntKind::InvalidDigit));
    assert_eq!(parse_i32("1.5"), Err(ParseIntKind::InvalidDigit));
    for text in ["0", "17", "-300", "+0", "99999999999", "1e5", "-", "+", "", "12a"] {
        let expected = text.parse::<i32>();
        let actual = parse_i32(text);
        assert_eq!(expected.is_ok(), actual.is_ok(), "{}", text);
        if let Ok(v) = expected {
            assert_eq!(actual, Ok(v));
        }
    }
}

#[test]
fn should_deserialize_root_properties() {
    let value = Some(obj(vec![
        ("lineWidth", n("80")),
        ("useTabs", JsonTree::Boolean(true)),
        ("indent", s("tab")),
        ("excludes", JsonTree::Array(vec![s("dist"), s("build")])),
        ("typescript", obj(vec![("locked", JsonTree::Boolean(true)), ("associations", s("**/*.ts")), ("quoteStyle", s("single"))])),
    ]));
    let map = deserialize_config(&value).unwrap();
    assert_eq!(map.len(), 5);
    assert!(matches!(&map[0].1, ConfigMapValue::KeyValue(ConfigKeyValue::Number(80))));
    assert!(matches!(&map[1].1, ConfigMapValue::KeyValue(ConfigKeyValue::Bool(true))));
    assert!(matches!(&map[3].1, ConfigMapValue::Vec(v) if v == &vec!["dist".to_string(), "build".to_string()]));
    match &map[4].1 {
        ConfigMapValue::PluginConfig(c) => {
            assert!(c.locked);
            assert_eq!(c.associations, Some(vec!["**/*.ts".to_string()]));
            assert_eq!(c.properties.len(), 1);
            assert_eq!(c.properties[0].0, "quoteStyle");
        }
        _ => panic!(),
    }
}

#[test]
fn should_keep_last_value_of_repeated_property() {
    let value = Some(obj(vec![("a", n("1")), ("b", n("2")), ("a", n("3"))]));
    let map = deserialize_config(&value).unwrap();
    assert_eq!(map.len(), 2);
    assert!(matches!(&map[0].1, ConfigMapValue::KeyValue(ConfigKeyValue::Number(3))));
}

#[test]
fn should_error_without_root_object() {
    assert_eq!(deserialize_config(&None).err().unwrap().to_string(), "Expected a root object in the json");
    assert_eq!(deserialize_config(&Some(JsonTree::Array(vec![]))).err().unwrap().to_string(), "Expected a root object in the json");
}

#[test]
fn should_error_on_bad_values() {
    let err = deserialize_config(&Some(obj(vec![("a", JsonTree::Null)]))).err().unwrap();
    assert_eq!(err.to_string(), "Expected an object, boolean, string, or number in root object property 'a'");
    let err = deserialize_config(&Some(obj(vec![("a", n("1.5"))]))).err().unwrap();
    assert_eq!(
        err.to_string(),
        "Expected property 'a' with value '1.5' to be convertable to a signed integer. invalid digit found in string"
    );
    let err = deserialize_config(&Some(obj(vec![("a", JsonTree::Array(vec![n("1")]))]))).err().unwrap();
    assert_eq!(err.to_string(), "Expected a string in array 'a'");
    let err = deserialize_config(&Some(obj(vec![("p", obj(vec![("locked", s("yes"))]))]))).err().unwrap();
    assert_eq!(err.to_string(), "The 'locked' property in a plugin configuration must be a boolean.");
    let err = deserialize_config(&Some(obj(vec![("p", obj(vec![("associations", JsonTree::Array(vec![n("1")]))]))]))).err().unwrap();
    assert_eq!(err.to_string(), "The 'associations' array in a plugin configuration must contain only strings.");
    let err = deserialize_config(&Some(obj(vec![("p", obj(vec![("associations", n("1"))]))]))).err().unwrap();
    assert_eq!(err.to_string(), "The 'associations' property in a plugin configuration must be a string or an array of strings.");
    let err = deserialize_config(&Some(obj(vec![("p", obj(vec![("x", JsonTree::Null)]))]))).err().unwrap();
    assert_eq!(err.to_string(), "Expected a boolean, string, or number in object property 'p -> x'");
    let err = deserialize_config(&Some(obj(vec![("p", obj(vec![("x", n("99999999999"))]))]))).err().unwrap();
    assert_eq!(err.to_string(), "number too large to fit in target type in object property 'p -> x'");
}
