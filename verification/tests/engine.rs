use figment::error::Fault;
use figment::extract::deny_unknown_fields;
use figment::extract::field;
use figment::extract::optional_field;
use figment::figment::stamp;
use figment::figment::Figment;
use figment::magic::Tagged;
use figment::metadata::Metadata;
use figment::metadata::Source;
use figment::profile::Profile;
use figment::providers::Literal;
use figment::providers::Loaded;
use figment::tag::Id;
use figment::tag::Ids;
use figment::tree::Order;
use figment::value::Dict;
use figment::value::Kind;
use figment::value::Num;
use figment::value::Value;

fn table(pairs: Vec<(&str, Value)>) -> Dict {
    let mut d = Dict::new();
    for (k, v) in pairs {
        d.insert(k.to_string(), v);
    }
    d
}

fn num(n: u128) -> Value {
    Value::from_unsigned(n)
}

fn source(name: &str, contents: Dict) -> Loaded {
    Loaded::from(Metadata::named(name).source(Source::Custom("memory".to_string())), contents)
}

fn first() -> Dict {
    table(vec![
        ("a", num(1)),
        ("b", Value::from_dict(table(vec![("x", num(1)), ("y", num(2))]))),
        ("arr", Value::from_array(vec![num(1), num(2)])),
        ("only_first", Value::from_str("kept")),
    ])
}

fn second() -> Dict {
    table(vec![
        ("a", num(2)),
        ("b", Value::from_dict(table(vec![("y", num(3)), ("z", num(4))]))),
        ("arr", Value::from_array(vec![num(9)])),
        ("only_second", Value::from_bool(true)),
    ])
}

#[test]
fn merge_is_last_write_wins_and_recursive() {
    let mut ids = Ids::new();
    let figment = Figment::from(&mut ids, &source("one", first()))
        .expect("merge")
        .merge(&mut ids, &source("two", second()))
        .expect("merge");
    assert_eq!(figment.extract_inner::<u64>("a").unwrap(), 2);
    assert_eq!(figment.extract_inner::<u64>("b.x").unwrap(), 1);
    assert_eq!(figment.extract_inner::<u64>("b.y").unwrap(), 3);
    assert_eq!(figment.extract_inner::<u64>("b.z").unwrap(), 4);
    assert_eq!(figment.extract_inner::<Vec<u8>>("arr").unwrap(), vec![9]);
    assert_eq!(figment.extract_inner::<String>("only_first").unwrap(), "kept");
    assert!(figment.extract_inner::<bool>("only_second").unwrap());
    let expected = table(vec![
        ("a", num(2)),
        ("b", Value::from_dict(table(vec![("z", num(4)), ("y", num(3)), ("x", num(1))]))),
        ("arr", Value::from_array(vec![num(9)])),
        ("only_first", Value::from_str("kept")),
        ("only_second", Value::from_bool(true)),
    ]);
    assert!(figment.merged().same(&Value::from_dict(expected)));
}

#[test]
fn join_never_overwrites() {
    let mut ids = Ids::new();
    let figment = Figment::from(&mut ids, &source("one", first()))
        .expect("merge")
        .join(&mut ids, &source("two", second()))
        .expect("join");
    assert_eq!(figment.extract_inner::<u64>("a").unwrap(), 1);
    assert_eq!(figment.extract_inner::<u64>("b.x").unwrap(), 1);
    assert_eq!(figment.extract_inner::<u64>("b.y").unwrap(), 2);
    assert_eq!(figment.extract_inner::<u64>("b.z").unwrap(), 4);
    assert_eq!(figment.extract_inner::<Vec<u8>>("arr").unwrap(), vec![1, 2]);
    assert!(figment.extract_inner::<bool>("only_second").unwrap());
}

#[test]
fn coalesce_keeps_the_tag_of_the_dict_that_was_there() {
    let ours = stamp(&table(vec![("default", Value::from_dict(first()))]), Id(3), 3);
    let theirs = stamp(&table(vec![("default", Value::from_dict(second()))]), Id(4), 4);
    let merged = ours.coalesce(theirs, Order::Merge);
    let root = merged.get("default").unwrap();
    assert_eq!(root.metadata_id(), Some(Id(3)));
    assert_eq!(root.find("b").unwrap().metadata_id(), Some(Id(3)));
    assert_eq!(root.find("b.y").unwrap().metadata_id(), Some(Id(4)));
    assert_eq!(root.find("b.x").unwrap().metadata_id(), Some(Id(3)));
    assert_eq!(root.find("a").unwrap().tag().ordinal(), 4);
    assert_eq!(root.find("a").unwrap().tag().profile(), "default");
}

#[test]
fn keys_that_differ_in_case_are_one_key() {
    let mut ids = Ids::new();
    let figment = Figment::from(&mut ids, &Literal::new("Key", num(1)))
        .expect("merge")
        .merge(&mut ids, &Literal::new("KEY", num(2)))
        .expect("merge");
    let all = figment.merged();
    let dict = all.as_dict().unwrap();
    assert_eq!(dict.len(), 1);
    assert_eq!(dict.key(0), "Key");
    assert_eq!(figment.extract_inner::<u64>("key").unwrap(), 2);
}

fn profiles() -> Figment {
    let mut ids = Ids::new();
    Figment::new()
        .merge(&mut ids, &Literal::new("shared", Value::from_str("from default")))
        .expect("merge")
        .merge(&mut ids, &Literal::new("fallback", Value::from_str("from default")))
        .expect("merge")
        .merge(&mut ids, &Literal::new("shared", Value::from_str("from debug")).profile(Profile::new("debug")))
        .expect("merge")
        .merge(&mut ids, &Literal::new("everywhere", num(1)).profile(Profile::global_profile()))
        .expect("merge")
        .merge(&mut ids, &Literal::new("everywhere", num(2)).profile(Profile::new("Debug")))
        .expect("merge")
        .merge(&mut ids, &Literal::new("everywhere", num(3)))
        .expect("merge")
}

#[test]
fn global_is_visible_under_every_profile() {
    let figment = profiles();
    assert_eq!(figment.extract_inner::<u64>("everywhere").unwrap(), 1);
    let figment = figment.select(Profile::new("debug"));
    assert_eq!(figment.extract_inner::<u64>("everywhere").unwrap(), 1);
    let figment = figment.select(Profile::new("release"));
    assert_eq!(figment.extract_inner::<u64>("everywhere").unwrap(), 1);
    let figment = figment.select(Profile::global_profile());
    assert_eq!(figment.extract_inner::<u64>("everywhere").unwrap(), 1);
}

#[test]
fn default_is_visible_where_the_selected_profile_has_nothing() {
    let figment = profiles();
    assert!(figment.profile().is_default());
    assert_eq!(figment.extract_inner::<String>("shared").unwrap(), "from default");
    let figment = figment.select(Profile::new("DEBUG"));
    assert!(figment.profile().is_custom());
    assert_eq!(figment.profile().as_str(), "DEBUG");
    assert_eq!(figment.extract_inner::<String>("shared").unwrap(), "from debug");
    assert_eq!(figment.extract_inner::<String>("fallback").unwrap(), "from default");
    let figment = figment.select(Profile::new("release"));
    assert_eq!(figment.extract_inner::<String>("shared").unwrap(), "from default");
    assert!(figment.contains("fallback"));
    assert!(!figment.contains("missing"));
}

#[test]
fn each_merge_gets_a_new_identifier() {
    let mut ids = Ids::new();
    let figment = Figment::new()
        .merge(&mut ids, &Literal::new("a", num(1)))
        .expect("merge")
        .merge(&mut ids, &Literal::new("b", num(1)))
        .expect("merge")
        .join(&mut ids, &Literal::new("c", num(1)))
        .expect("join");
    let a: Tagged<u8> = figment.extract_inner("a").unwrap();
    let b: Tagged<u8> = figment.extract_inner("b").unwrap();
    let c: Tagged<u8> = figment.extract_inner("c").unwrap();
    assert_eq!(a, b);
    assert_eq!(a.metadata_id(), Some(Id(0)));
    assert_eq!(b.metadata_id(), Some(Id(1)));
    assert_eq!(c.metadata_id(), Some(Id(2)));
    assert!(a.metadata_id() < b.metadata_id() && b.metadata_id() < c.metadata_id());
    assert_eq!(figment.get_metadata(Id(1)).unwrap().name, "literal");
    assert_eq!(figment.get_metadata(Id(1)).unwrap().id, Some(Id(1)));
    assert_eq!(Metadata::named("literal").id, None);
    assert!(figment.get_metadata(Id(3)).is_none());
    assert!(figment.get_metadata(Id(u64::MAX)).is_none());
}

#[test]
fn metadata_says_where_a_value_came_from() {
    let mut ids = Ids::new();
    let contents = table(vec![("number", num(10))]);
    let figment =
        Figment::from(&mut ids, &Loaded::file("TOML file", "/etc/app/Config.toml", contents)).expect("merge");
    let number: Tagged<usize> = figment.extract_inner("number").unwrap();
    assert_eq!(*number, 10);
    let metadata = number.metadata_id().and_then(|id| figment.get_metadata(id)).unwrap();
    assert_eq!(metadata.name, "TOML file");
    assert_eq!(metadata.file_path(), Some("/etc/app/Config.toml"));
    assert!(!metadata.interpolate);
    let plain = Metadata::named("env").source(Source::Environment).interpolate(true);
    assert_eq!(plain.file_path(), None);
    assert!(plain.interpolate);
}

#[test]
fn a_failed_provider_is_an_error_that_names_it() {
    let mut ids = Ids::new();
    let broken = Loaded::failed(Metadata::named("TOML file"), "unexpected end of input");
    let error = Figment::from(&mut ids, &source("one", first()))
        .expect("merge")
        .merge(&mut ids, &broken)
        .expect_err("no data");
    assert!(matches!(&error.fault, Fault::ProviderFailure(name, _) if name == "TOML file"));
    assert!(error.path.is_empty());
    assert_eq!(error.message(), "provider TOML file failed: unexpected end of input");
}

#[test]
fn a_missing_path_is_a_missing_field() {
    let mut ids = Ids::new();
    let figment = Figment::from(&mut ids, &source("one", first())).expect("merge");
    let error = figment.find_value("b.w").expect_err("nothing there");
    assert!(matches!(&error.fault, Fault::MissingField(name) if name == "b.w"));
    assert_eq!(error.message(), "missing field b.w");
    assert!(figment.find_value("B.X").unwrap().same(&num(1)));
    let error = figment.extract_inner::<u64>("a.b").expect_err("a is no dict");
    assert_eq!(error.message(), "missing field a.b");
}

#[test]
fn numbers_narrow_only_when_they_fit() {
    let mut ids = Ids::new();
    let figment = Figment::from(&mut ids, &source(
        "numbers",
        table(vec![
            ("small", num(255)),
            ("large", num(300)),
            ("negative", Value::from_signed(-1)),
            ("huge", num(u128::MAX)),
            ("list", Value::from_array(vec![num(1), num(256), num(3)])),
        ]),
    ))
    .expect("merge");
    assert_eq!(figment.extract_inner::<u8>("small").unwrap(), 255);
    assert_eq!(figment.extract_inner::<i64>("small").unwrap(), 255);
    assert_eq!(figment.extract_inner::<u16>("large").unwrap(), 300);
    assert_eq!(figment.extract_inner::<u32>("large").unwrap(), 300);
    assert_eq!(figment.extract_inner::<i64>("negative").unwrap(), -1);
    let error = figment.extract_inner::<u8>("large").expect_err("too large");
    assert!(matches!(&error.fault, Fault::InvalidValue(_)));
    assert_eq!(error.message(), "invalid value: out of range for u8 for key large");
    assert!(figment.extract_inner::<u64>("negative").is_err());
    assert!(figment.extract_inner::<usize>("negative").is_err());
    assert!(figment.extract_inner::<u64>("huge").is_err());
    assert_eq!(figment.extract_inner::<u128>("huge").unwrap(), u128::MAX);
    assert!(figment.extract_inner::<i128>("huge").is_err());
    assert_eq!(figment.extract_inner::<i128>("negative").unwrap(), -1);
    assert_eq!(figment.extract_inner::<i8>("negative").unwrap(), -1);
    assert_eq!(figment.extract_inner::<i16>("large").unwrap(), 300);
    assert_eq!(figment.extract_inner::<i32>("large").unwrap(), 300);
    assert_eq!(figment.extract_inner::<isize>("large").unwrap(), 300);
    assert!(figment.extract_inner::<i8>("large").is_err());
    assert!(figment.extract_inner::<i64>("huge").is_err());
    let error = figment.extract_inner::<Vec<u8>>("list").expect_err("one item is too large");
    assert_eq!(error.path, vec!["list".to_string(), "1".to_string()]);
    assert_eq!(error.message(), "invalid value: out of range for u8 for key list.1");
    let error = figment.extract_inner::<Vec<u8>>("small").expect_err("no array");
    assert!(matches!(&error.fault, Fault::TypeMismatch(expected, Kind::Num) if expected == "array"));
    let error = figment.extract::<Vec<u8>>().expect_err("a dict is no sequence");
    assert_eq!(error.message(), "invalid type: found dict, expected array");
}

#[test]
fn fields_of_a_structure() {
    let mut ids = Ids::new();
    let figment = Figment::from(&mut ids, &source(
        "struct",
        table(vec![("name", Value::from_str("x")), ("workers", num(80)), ("none", Value::null())]),
    ))
    .expect("merge");
    let all = figment.merged();
    let dict = all.as_dict().unwrap();
    assert_eq!(field::<String>(dict, &figment, "NAME").unwrap(), "x");
    assert_eq!(field::<u16>(dict, &figment, "workers").unwrap(), 80);
    let error = field::<u16>(dict, &figment, "host").expect_err("no such field");
    assert!(matches!(&error.fault, Fault::MissingField(name) if name == "host"));
    let error = field::<bool>(dict, &figment, "workers").expect_err("no bool");
    assert_eq!(error.message(), "invalid type: found number, expected bool for key workers");
    assert_eq!(optional_field::<u16>(dict, &figment, "host").unwrap(), None);
    assert_eq!(optional_field::<u16>(dict, &figment, "none").unwrap(), None);
    assert_eq!(optional_field::<u16>(dict, &figment, "workers").unwrap(), Some(80));
    assert!(optional_field::<u16>(dict, &figment, "name").is_err());

    let known = vec!["name".to_string(), "workers".to_string(), "none".to_string()];
    assert!(deny_unknown_fields(dict, &known).is_ok());
    let closed = vec!["name".to_string(), "none".to_string()];
    let error = deny_unknown_fields(dict, &closed).expect_err("workers is not known");
    assert!(matches!(&error.fault, Fault::UnknownField(name, _) if name == "workers"));
    assert_eq!(error.message(), "unknown field workers, expected one of name, none");
}

#[test]
fn a_nested_merge_keeps_what_the_later_provider_lacks() {
    let mut ids = Ids::new();
    let p1 = table(vec![("a", Value::from_dict(table(vec![("x", num(1)), ("y", num(2))])))]);
    let p2 = table(vec![("a", Value::from_dict(table(vec![("y", num(3))])))]);
    let figment = Figment::from(&mut ids, &source("one", p1))
        .expect("merge")
        .merge(&mut ids, &source("two", p2))
        .expect("merge");
    let x: Tagged<u8> = figment.extract_inner("a.x").unwrap();
    let y: Tagged<u8> = figment.extract_inner("a.y").unwrap();
    assert_eq!(*x, 1);
    assert_eq!(x.metadata_id(), Some(Id(0)));
    assert_eq!(figment.get_metadata(x.metadata_id().unwrap()).unwrap().name, "one");
    assert_eq!(*y, 3);
    assert_eq!(y.metadata_id(), Some(Id(1)));
    assert_eq!(figment.get_metadata(y.metadata_id().unwrap()).unwrap().name, "two");
    assert!(x.metadata_id() < y.metadata_id());
}

fn keys(dict: &Dict) -> Vec<String> {
    (0..dict.len()).map(|i| dict.key(i).to_string()).collect()
}

#[test]
fn a_merge_keeps_order_spelling_and_stored_form() {
    let mut ids = Ids::new();
    let p1 = table(vec![
        ("Beta", Value::from_signed(5)),
        ("alpha", Value::from_dict(table(vec![("X", num(1)), ("y", num(2))]))),
    ]);
    let p2 = table(vec![
        ("Gamma", Value::from_unsigned(7)),
        ("ALPHA", Value::from_dict(table(vec![("Z", num(4)), ("Y", Value::from_signed(3))]))),
    ]);
    let figment = Figment::from(&mut ids, &source("one", p1))
        .expect("merge")
        .merge(&mut ids, &source("two", p2))
        .expect("merge");
    let all = figment.merged();
    let root = all.as_dict().unwrap();
    assert_eq!(keys(root), vec!["Beta", "alpha", "Gamma"]);
    let alpha = root.get("Alpha").unwrap().as_dict().unwrap();
    assert_eq!(keys(alpha), vec!["X", "y", "Z"]);
    assert!(matches!(root.get("beta").unwrap().to_num(), Some(Num::Signed(5))));
    assert!(matches!(root.get("gamma").unwrap().to_num(), Some(Num::Unsigned(7))));
    assert!(matches!(alpha.get("y").unwrap().to_num(), Some(Num::Signed(3))));
    assert!(matches!(alpha.get("x").unwrap().to_num(), Some(Num::Unsigned(1))));
    let copy = all.duplicate().retagged(&figment::tag::Tag::new());
    assert_eq!(keys(copy.find("alpha").unwrap().as_dict().unwrap()), vec!["X", "y", "Z"]);
    assert!(matches!(copy.find("alpha.y").unwrap().to_num(), Some(Num::Signed(3))));
    let stamped = stamp(root, Id(9), 9);
    assert_eq!(keys(&stamped), vec!["Beta", "alpha", "Gamma"]);
    assert_eq!(stamped.get("alpha").unwrap().tag().profile(), "alpha");
}
