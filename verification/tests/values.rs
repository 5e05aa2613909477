use figment::error::join;
use figment::error::Error;
use figment::error::Fault;
use figment::extract::decimal_string;
use figment::extract::same_text;
use figment::magic::payload_of;
use figment::path::split;
use figment::profile::Profile;
use figment::providers::nest;
use figment::tag::Id;
use figment::tag::Tag;
use figment::tree::Order;
use figment::value::Dict;
use figment::value::Kind;
use figment::value::position_of;
use figment::value::Num;
use figment::value::Value;

fn table(pairs: Vec<(&str, Value)>) -> Dict {
    let mut d = Dict::new();
    for (k, v) in pairs {
        d.insert(k.to_string(), v);
    }
    d
}

#[test]
fn dict_keys_ignore_case() {
    let mut dict = Dict::new();
    assert!(dict.is_empty());
    assert!(dict.insert("Name".to_string(), Value::from_str("a")).is_none());
    assert!(dict.insert("NAME".to_string(), Value::from_str("b")).is_some());
    assert_eq!(dict.len(), 1);
    assert_eq!(dict.key(0), "Name");
    assert_eq!(dict.get("name").and_then(|v| v.as_str()), Some("b"));
    assert!(dict.value(0).same(&Value::from_str("b")));
    assert!(dict.contains_key("nAmE"));
    assert!(!dict.contains_key("nam"));
    assert!(!dict.contains_key("n\u{e4}me"));
    assert_eq!(dict.position("name"), Some(0));
    assert_eq!(dict.position("other"), None);
    assert!(!dict.is_empty());
}

#[test]
fn only_ascii_letters_fold() {
    let mut dict = Dict::new();
    dict.insert("\u{c4}".to_string(), Value::null());
    assert!(!dict.contains_key("\u{e4}"));
    dict.insert("[".to_string(), Value::null());
    assert!(!dict.contains_key("{"));
    dict.insert("Z@".to_string(), Value::null());
    assert!(dict.contains_key("z@"));
    assert!(!dict.contains_key("z`"));
}

#[test]
fn a_key_that_comes_twice_is_a_duplicate_field() {
    let pairs = vec![
        ("a".to_string(), Value::null()),
        ("b".to_string(), Value::null()),
        ("A".to_string(), Value::null()),
    ];
    let error = Dict::from_pairs(pairs).expect_err("a comes twice");
    assert!(matches!(&error.fault, Fault::DuplicateField(name) if name == "A"));
    assert_eq!(error.message(), "duplicate field A");
    let pairs = vec![("a".to_string(), Value::null()), ("b".to_string(), Value::null())];
    let dict = Dict::from_pairs(pairs).expect("no key comes twice");
    assert_eq!(dict.len(), 2);
    assert_eq!(dict.key(1), "b");
    let entries = dict.into_entries();
    assert_eq!(entries.len(), 2);
    assert_eq!(position_of(&entries, "B"), Some(1));
    assert_eq!(position_of(&entries, "c"), None);
}

#[test]
fn values_are_equal_whatever_their_tags_and_order() {
    let a = table(vec![
        ("x", Value::from_unsigned(1)),
        ("y", Value::from_array(vec![Value::from_str("s"), Value::null()])),
    ]);
    let b = table(vec![
        ("Y", Value::from_array(vec![Value::from_str("s"), Value::null()])),
        ("X", Value::from_signed(1)),
    ]);
    assert!(a.same(&b));
    let tagged = Value::from_dict(a.duplicate()).retagged(&Tag::stamped("debug", Id(4), 9));
    assert_eq!(tagged.metadata_id(), Some(Id(4)));
    assert_eq!(tagged.find("y").unwrap().as_array().unwrap()[0].metadata_id(), Some(Id(4)));
    assert!(tagged.same(&Value::from_dict(b)));
    assert!(tagged.duplicate().same(&tagged));
    assert_eq!(tagged.duplicate().find("x").unwrap().tag().ordinal(), 9);
    assert!(a.retagged(&Tag::new()).same(&a));

    let c = table(vec![("x", Value::from_unsigned(1))]);
    assert!(!a.same(&c));
    assert!(!c.same(&a));
    let d = table(vec![("x", Value::from_unsigned(2)), ("y", Value::null())]);
    assert!(!a.same(&d));
    assert!(!Value::from_array(vec![Value::null()]).same(&Value::from_array(vec![])));
    assert!(!Value::from_array(vec![Value::null()])
        .same(&Value::from_array(vec![Value::from_bool(false)])));
    assert!(!Value::null().same(&Value::from_bool(false)));
    assert!(Value::from_bool(true).same(&Value::from_bool(true)));
    assert!(!Value::from_bool(true).same(&Value::from_bool(false)));
}

#[test]
fn numbers_compare_by_what_they_are() {
    assert!(Num::Unsigned(5).same(&Num::Signed(5)));
    assert!(Num::Signed(5).same(&Num::Unsigned(5)));
    assert!(!Num::Signed(-5).same(&Num::Unsigned(5)));
    assert!(!Num::Unsigned(u128::MAX).same(&Num::Signed(-1)));
    assert!(!Num::Signed(-1).same(&Num::Unsigned(u128::MAX)));
    assert!(Num::Signed(i128::MIN).same(&Num::Signed(i128::MIN)));
    assert_eq!(Num::Unsigned(u128::MAX).to_i128(), None);
    assert_eq!(Num::Unsigned(i128::MAX as u128).to_i128(), Some(i128::MAX));
    assert_eq!(Num::Signed(-1).to_u128(), None);
    assert_eq!(Num::Signed(0).to_u128(), Some(0));
    assert_eq!(Num::Unsigned(256).to_u8(), None);
    assert_eq!(Num::Unsigned(255).to_u8(), Some(255));
    assert_eq!(Num::Unsigned(65536).to_u16(), None);
    assert_eq!(Num::Signed(65535).to_u16(), Some(65535));
    assert_eq!(Num::Unsigned(1 << 32).to_u32(), None);
    assert_eq!(Num::Unsigned((1 << 32) - 1).to_u32(), Some(u32::MAX));
    assert_eq!(Num::Unsigned(1 << 64).to_u64(), None);
    assert_eq!(Num::Unsigned((1 << 64) - 1).to_u64(), Some(u64::MAX));
    assert_eq!(Num::Unsigned(usize::MAX as u128).to_usize(), Some(usize::MAX));
    assert_eq!(Num::Unsigned(1 << 63).to_i64(), None);
    assert_eq!(Num::Signed(i64::MIN as i128).to_i64(), Some(i64::MIN));
    assert_eq!(Num::Signed(i64::MIN as i128 - 1).to_i64(), None);
    assert_eq!(Num::Unsigned(128).to_i8(), None);
    assert_eq!(Num::Signed(-128).to_i8(), Some(i8::MIN));
    assert_eq!(Num::Signed(-129).to_i8(), None);
    assert_eq!(Num::Unsigned(32767).to_i16(), Some(i16::MAX));
    assert_eq!(Num::Signed(-32769).to_i16(), None);
    assert_eq!(Num::Signed(i32::MIN as i128).to_i32(), Some(i32::MIN));
    assert_eq!(Num::Unsigned(1 << 31).to_i32(), None);
    assert_eq!(Num::Signed(isize::MIN as i128).to_isize(), Some(isize::MIN));
    assert_eq!(Num::Unsigned(isize::MAX as u128 + 1).to_isize(), None);
    assert!(Value::from_unsigned(7).same(&Value::from_signed(7)));
    assert_eq!(Value::from_signed(-7).to_num().unwrap().to_i64(), Some(-7));
}

#[test]
fn a_text_keeps_its_hint() {
    assert!(Value::from_str("a").same(&Value::from_str("a")));
    assert!(!Value::from_str("a").same(&Value::from_str("A")));
    assert!(!Value::from_str("a").same(&Value::uncased("a")));
    assert!(Value::uncased("a").same(&Value::uncased("a")));
    assert_eq!(Value::uncased("Abc").as_str(), Some("Abc"));
    assert_eq!(Value::uncased("Abc").kind(), Kind::String);
}

#[test]
fn kinds_and_accessors() {
    assert_eq!(Value::null().kind(), Kind::Null);
    assert_eq!(Value::from_bool(true).kind(), Kind::Bool);
    assert_eq!(Value::from_unsigned(1).kind(), Kind::Num);
    assert_eq!(Value::from_array(vec![]).kind(), Kind::Array);
    assert_eq!(Value::from_dict(Dict::new()).kind(), Kind::Dict);
    assert_eq!(Kind::Dict.name(), "dict");
    assert_eq!(Kind::Null.name(), "null");
    assert_eq!(Value::from_bool(true).to_bool(), Some(true));
    assert_eq!(Value::null().to_bool(), None);
    assert!(Value::null().as_str().is_none());
    assert!(Value::null().as_dict().is_none());
    assert!(Value::null().as_array().is_none());
    assert!(Value::null().to_num().is_none());
    assert!(Value::null().into_dict().is_none());
    assert_eq!(Value::from_dict(table(vec![("a", Value::null())])).into_dict().unwrap().len(), 1);
    let bytes = Value::from_bytes(&vec![0, 255]);
    let items = bytes.as_array().unwrap();
    assert_eq!(items.len(), 2);
    assert_eq!(items[1].to_num().unwrap().to_u8(), Some(255));
    assert!(Value::null().tag().is_default());
    assert_eq!(Value::null().tag().profile(), "default");
    assert_eq!(Value::null().tag().ordinal(), 0);
    assert_eq!(Value::null().metadata_id(), None);
    let tag = Tag::stamped("Debug", Id(2), 5);
    assert!(!tag.is_default());
    assert_eq!(tag.duplicate().metadata_id(), Some(Id(2)));
    assert_eq!(tag.duplicate().profile(), "Debug");
}

#[test]
fn coalesce_of_two_values() {
    let ours = || Value::from_dict(table(vec![("a", Value::from_unsigned(1))]));
    let theirs = || Value::from_dict(table(vec![("b", Value::from_unsigned(2))]));
    let both = table(vec![("a", Value::from_unsigned(1)), ("b", Value::from_unsigned(2))]);
    assert!(ours().coalesce(theirs(), Order::Merge).same(&Value::from_dict(both.duplicate())));
    assert!(ours().coalesce(theirs(), Order::Join).same(&Value::from_dict(both)));
    assert!(ours().coalesce(Value::null(), Order::Merge).same(&Value::null()));
    assert!(ours().coalesce(Value::null(), Order::Join).same(&ours()));
    assert!(Value::null().coalesce(theirs(), Order::Merge).same(&theirs()));
    assert!(Value::null().coalesce(theirs(), Order::Join).same(&Value::null()));
    let list = |n: u128| Value::from_array(vec![Value::from_unsigned(n)]);
    assert!(list(1).coalesce(list(2), Order::Merge).same(&list(2)));
    assert!(list(1).coalesce(list(2), Order::Join).same(&list(1)));
}

#[test]
fn dotted_paths() {
    assert_eq!(split("a.b.c"), vec!["a", "b", "c"]);
    assert_eq!(split("abc"), vec!["abc"]);
    assert_eq!(split(""), vec![""]);
    assert_eq!(split("."), vec!["", ""]);
    assert_eq!(split("a..b"), vec!["a", "", "b"]);
    assert_eq!(split("\u{e4}.\u{1f600}x."), vec!["\u{e4}", "\u{1f600}x", ""]);
    assert_eq!(join(&split("a.b.c"), "."), "a.b.c");
    assert_eq!(join(&vec![], ", "), "");
    assert_eq!(join(&vec!["x".to_string()], ", "), "x");
    assert_eq!(join(&vec!["x".to_string(), "y".to_string()], ", "), "x, y");

    let value = nest(&split("a.B.c"), Value::from_unsigned(3));
    assert!(value.find("A.b.C").unwrap().same(&Value::from_unsigned(3)));
    assert!(value.find("a.b").unwrap().as_dict().is_some());
    assert!(value.find("a.c").is_none());
    assert!(value.find("a.b.c.d").is_none());
    assert!(value.find_keys(&vec![]).unwrap().same(&value));
    assert!(nest(&vec![], Value::null()).same(&Value::null()));
}

#[test]
fn decimal_digits() {
    assert_eq!(decimal_string(0), "0");
    assert_eq!(decimal_string(7), "7");
    assert_eq!(decimal_string(10), "10");
    assert_eq!(decimal_string(1234567890), "1234567890");
    assert_eq!(decimal_string(usize::MAX), usize::MAX.to_string());
    assert!(same_text("a", "a"));
    assert!(!same_text("a", "A"));
}

#[test]
fn errors_say_where() {
    let error = Error::new(Fault::MissingField("workers".to_string()));
    assert_eq!(error.message(), "missing field workers");
    let error = error.prefixed("server").prefixed("app");
    assert_eq!(error.path, vec!["app".to_string(), "server".to_string()]);
    assert_eq!(error.message(), "missing field workers for key app.server");
    let error = Error::new(Fault::TypeMismatch("string".to_string(), Kind::Array));
    assert_eq!(error.message(), "invalid type: found array, expected string");
    let error = Error::new(Fault::UnknownField("x".to_string(), vec![]));
    assert_eq!(error.message(), "unknown field x, expected one of ");
}

#[test]
fn a_value_leaves_its_envelope() {
    let inner = Value::from_unsigned(1);
    let envelope = Value::from_dict(table(vec![("payload", inner.duplicate())]));
    assert!(payload_of(&envelope, "PAYLOAD").same(&inner));
    assert!(payload_of(&envelope, "other").same(&envelope));
    assert!(payload_of(&inner, "payload").same(&inner));
}

#[test]
fn profiles_are_named_without_regard_to_case() {
    assert!(Profile::new("DEFAULT").is_default());
    assert!(Profile::new("Global").is_global());
    assert!(Profile::new("debug").is_custom());
    assert!(!Profile::default_profile().is_custom());
    assert!(!Profile::global_profile().is_default());
    assert!(Profile::new("Debug").same(&Profile::new("debug")));
    assert!(!Profile::new("debug").same(&Profile::new("release")));
    assert_eq!(Profile::new("Debug").duplicate().as_str(), "Debug");
}
