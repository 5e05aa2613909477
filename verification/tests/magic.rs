use figment::error::Error;
use figment::extract::field;
use figment::extract::ConfiguredValueDe;
use figment::extract::Extract;
use figment::figment::Figment;
use figment::magic::Either;
use figment::magic::Magic;
use figment::magic::RelativePathBuf;
use figment::magic::Tagged;
use figment::profile::Profile;
use figment::providers::Literal;
use figment::providers::Loaded;
use figment::tag::Id;
use figment::tag::Ids;
use figment::value::Dict;
use figment::value::Value;

fn pair(key: &str, value: Value) -> Literal {
    Literal::new(key, value)
}

fn dict(pairs: Vec<(&str, Value)>) -> Dict {
    let mut d = Dict::new();
    for (k, v) in pairs {
        d.insert(k.to_string(), v);
    }
    d
}

struct TwoVals {
    foo: Tagged<String>,
    bar: Tagged<u16>,
}

impl Extract for TwoVals {
    fn extract(de: ConfiguredValueDe) -> Result<TwoVals, Error> {
        let envelope = de.deserialize_struct("TwoVals", &vec!["foo", "bar"]);
        let fields = envelope.as_dict().expect("a dict");
        Ok(TwoVals {
            foo: field(fields, de.config, "foo")?,
            bar: field(fields, de.config, "bar")?,
        })
    }
}

#[test]
fn test_tagged() {
    let mut ids = Ids::new();
    let val = Figment::from(&mut ids, &pair("foo", Value::from_str("hello")))
        .expect("merge")
        .extract_inner::<Tagged<String>>("foo")
        .expect("extraction");

    let first_tag = val.metadata_id().unwrap();
    assert_eq!(*val, "hello");

    let val = Figment::from(&mut ids, &pair("bar", Value::from_str("hi")))
        .expect("merge")
        .extract_inner::<Tagged<String>>("bar")
        .expect("extraction");

    let second_tag = val.metadata_id().unwrap();
    assert_eq!(*val, "hi");
    assert!(second_tag != first_tag);

    let two = Figment::new()
        .merge(&mut ids, &pair("foo", Value::from_str("hey")))
        .expect("merge")
        .merge(&mut ids, &pair("bar", Value::from_unsigned(10)))
        .expect("merge")
        .extract::<TwoVals>()
        .expect("extraction");

    let tag3 = two.foo.metadata_id().unwrap();
    assert_eq!(*two.foo, "hey");
    assert!(tag3 != second_tag);

    let tag4 = two.bar.metadata_id().unwrap();
    assert_eq!(*two.bar, 10);
    assert!(tag4 != tag3);

    let val = Figment::new()
        .merge(&mut ids, &pair("foo", Value::from_str("hey")))
        .expect("merge")
        .merge(&mut ids, &pair("bar", Value::from_unsigned(10)))
        .expect("merge")
        .extract::<Tagged<TwoVals>>()
        .expect("extraction");

    assert_eq!(val.metadata_id(), None);

    let tag5 = val.foo.metadata_id().unwrap();
    assert_eq!(*val.foo, "hey");
    assert!(tag4 != tag5);

    let tag6 = val.bar.metadata_id().unwrap();
    assert_eq!(*val.bar, 10);
    assert!(tag6 != tag5)
}

#[test]
fn engines_on_one_source_never_share_an_identifier() {
    let mut ids = Ids::starting_at(40);
    let one = Figment::from(&mut ids, &pair("a", Value::from_unsigned(1))).expect("merge");
    let two = Figment::from(&mut ids, &pair("a", Value::from_unsigned(1))).expect("merge");
    let a: Tagged<u8> = one.extract_inner("a").expect("extraction");
    let b: Tagged<u8> = two.extract_inner("a").expect("extraction");
    assert_eq!(a, b);
    assert_eq!(a.metadata_id(), Some(Id(40)));
    assert_eq!(b.metadata_id(), Some(Id(41)));
    assert!(one.get_metadata(Id(41)).is_none());
    assert!(two.get_metadata(Id(40)).is_none());
    assert_eq!(two.get_metadata(Id(41)).unwrap().id, Some(Id(41)));
    assert!(ids.has_next());
    assert!(!Ids::starting_at(u64::MAX).has_next());
    let mut last = Ids::starting_at(u64::MAX - 1);
    assert_eq!(last.issue(), Id(u64::MAX - 1));
    assert!(!last.has_next());
}

const JAIL: &str = "/srv/figment-jail";

fn in_jail(path: &str) -> String {
    std::path::Path::new(JAIL).join(path).to_string_lossy().into_owned()
}

fn config_toml(debug: Dict) -> Loaded {
    let contents = dict(vec![("debug", Value::from_dict(debug))]);
    Loaded::file("TOML file", &in_jail("Config.toml"), contents).nested()
}

struct Inside {
    inside: RelativePathBuf,
}

struct Container {
    container: Inside,
}

struct Testing {
    inner: Container,
}

impl Extract for Inside {
    fn extract(de: ConfiguredValueDe) -> Result<Inside, Error> {
        let envelope = de.deserialize_struct("Inside", &vec!["inside"]);
        let fields = envelope.as_dict().expect("a dict");
        Ok(Inside { inside: field(fields, de.config, "inside")? })
    }
}

impl Extract for Container {
    fn extract(de: ConfiguredValueDe) -> Result<Container, Error> {
        let envelope = de.deserialize_struct("Container", &vec!["container"]);
        let fields = envelope.as_dict().expect("a dict");
        Ok(Container { container: field(fields, de.config, "container")? })
    }
}

impl Extract for Testing {
    fn extract(de: ConfiguredValueDe) -> Result<Testing, Error> {
        let envelope = de.deserialize_struct("Testing", &vec!["inner"]);
        let fields = envelope.as_dict().expect("a dict");
        Ok(Testing { inner: field(fields, de.config, "inner")? })
    }
}

#[test]
fn test_relative_path_buf() {
    let mut ids = Ids::new();
    let debug = || {
        dict(vec![
            ("file_path", Value::from_str("hello.js")),
            ("another", Value::from_str("whoops/hi/there")),
            ("absolute", Value::from_str("/tmp/foo")),
        ])
    };

    let path: RelativePathBuf = Figment::new()
        .merge(&mut ids, &config_toml(debug()))
        .expect("merge")
        .select(Profile::new("debug"))
        .extract_inner("file_path")
        .expect("extraction");

    assert_eq!(path.original(), "hello.js");
    assert_eq!(path.metadata_path().unwrap(), in_jail("Config.toml"));
    assert_eq!(path.relative(), in_jail("hello.js"));

    let path: RelativePathBuf = Figment::new()
        .merge(&mut ids, &config_toml(debug()))
        .expect("merge")
        .select(Profile::new("debug"))
        .extract_inner("another")
        .expect("extraction");

    assert_eq!(path.original(), "whoops/hi/there");
    assert_eq!(path.metadata_path().unwrap(), in_jail("Config.toml"));
    assert_eq!(path.relative(), in_jail("whoops/hi/there"));

    let path: RelativePathBuf = Figment::new()
        .merge(&mut ids, &config_toml(debug()))
        .expect("merge")
        .select(Profile::new("debug"))
        .extract_inner("absolute")
        .expect("extraction");

    assert_eq!(path.original(), "/tmp/foo");
    assert_eq!(path.metadata_path().unwrap(), in_jail("Config.toml"));
    assert_eq!(path.relative(), "/tmp/foo");

    let container = dict(vec![("inside", Value::from_str("inside_path/a.html"))]);
    let inner = dict(vec![("container", Value::from_dict(container))]);
    let debug = dict(vec![("inner", Value::from_dict(inner))]);

    let testing: Testing = Figment::new()
        .merge(&mut ids, &config_toml(debug))
        .expect("merge")
        .select(Profile::new("debug"))
        .extract()
        .expect("extraction");

    let path = testing.inner.container.inside;
    assert_eq!(path.original(), "inside_path/a.html");
    assert_eq!(path.metadata_path().unwrap(), in_jail("Config.toml"));
    assert_eq!(path.relative(), in_jail("inside_path/a.html"));
}

#[test]
fn relative_path_from_a_literal_is_the_original() {
    let mut ids = Ids::new();
    let figment = Figment::from(&mut ids, &config_toml(dict(vec![("path", Value::from_str("a/b.html"))])))
        .expect("merge")
        .select(Profile::new("debug"));
    let path: RelativePathBuf = figment.extract_inner("path").expect("extraction");
    assert_eq!(path.original(), "a/b.html");
    assert_eq!(path.relative(), in_jail("a/b.html"));
    assert_eq!(path.relative_from(false), in_jail("a/b.html"));
    assert_eq!(path.relative_from(true), in_jail("Config.toml/a/b.html"));

    let figment = figment
        .merge(&mut ids, &pair("path", Value::from_str("a/b.html")).profile(Profile::new("debug")))
        .expect("merge");
    let path: RelativePathBuf = figment.extract_inner("path").expect("extraction");
    assert_eq!(path.original(), "a/b.html");
    assert_eq!(path.metadata_path(), None);
    assert_eq!(path.relative(), path.original());
}

#[test]
fn relative_path_without_a_parent_stays() {
    let mut ids = Ids::new();
    let contents = dict(vec![("path", Value::from_str("x.html"))]);
    let figment = Figment::from(&mut ids, &Loaded::file("file", "/", contents)).expect("merge");
    let path: RelativePathBuf = figment.extract_inner("path").expect("extraction");
    assert_eq!(path.metadata_path(), Some("/"));
    assert_eq!(path.relative_from(false), "x.html");
    assert_eq!(path.relative_from(true), "/x.html");
    assert!(RelativePathBuf::from("x.html").same(&RelativePathBuf::from("x.html")));
    assert!(!RelativePathBuf::from("x.html").same(&RelativePathBuf::from("y.html")));
}

fn either_config(a: Value, b: Value) -> Figment {
    let mut ids = Ids::new();
    Figment::from(&mut ids, &pair("int_or_str", a))
        .expect("merge")
        .merge(&mut ids, &pair("path_or_bytes", b))
        .expect("merge")
}

type IntOrStr = Either<Tagged<usize>, String>;
type PathOrBytes = Either<RelativePathBuf, Vec<u8>>;

#[test]
fn either_reads_the_magic_value_first() {
    let config = either_config(Value::from_unsigned(10), Value::from_str("/a/b"));
    let int_or_str: IntOrStr = config.extract_inner("int_or_str").expect("extraction");
    assert_eq!(int_or_str, Either::Left(10.into()));
    match config.extract_inner::<PathOrBytes>("path_or_bytes").expect("extraction") {
        Either::Left(path) => assert_eq!(path.original(), "/a/b"),
        Either::Right(_) => panic!("a path was expected"),
    }
}

#[test]
fn either_falls_back_to_the_other_value() {
    let config = either_config(Value::from_str("hi"), Value::from_bytes(&vec![1, 2, 3]));
    let int_or_str: IntOrStr = config.extract_inner("int_or_str").expect("extraction");
    assert_eq!(int_or_str, Either::Right("hi".to_string()));
    match config.extract_inner::<PathOrBytes>("path_or_bytes").expect("extraction") {
        Either::Right(bytes) => assert_eq!(bytes, vec![1, 2, 3]),
        Either::Left(_) => panic!("bytes were expected"),
    }
}

#[test]
fn either_reports_both_errors() {
    let config = either_config(Value::from_bool(true), Value::from_bool(false));
    let error = config.extract_inner::<IntOrStr>("int_or_str").expect_err("no reading");
    assert_eq!(
        error.message(),
        "invalid value: invalid type: found bool, expected usize; \
         invalid type: found bool, expected string for key int_or_str"
    );
}

#[test]
fn tagged_round_trip_keeps_the_payload() {
    let mut ids = Ids::new();
    let figment = Figment::from(&mut ids, &pair("key", Value::from_unsigned(7))).expect("merge");
    let tagged: Tagged<u64> = figment.extract_inner("key").expect("extraction");
    assert!(tagged.metadata_id().is_some());
    assert!(figment.get_metadata(tagged.metadata_id().unwrap()).is_some());
    let inner = tagged.clone().into_inner();
    let again = figment.merge(&mut ids, &pair("key", Value::from_unsigned(inner as u128))).expect("merge");
    let second: Tagged<u64> = again.extract_inner("key").expect("extraction");
    assert_eq!(second, tagged);
    assert!(second.metadata_id() != tagged.metadata_id());
}

#[test]
fn pseudo_structures_hold_the_payload_last() {
    let mut ids = Ids::new();
    let contents = dict(vec![("path", Value::from_str("a/b.html"))]);
    let figment = Figment::from(&mut ids, &Loaded::file("file", &in_jail("Config.toml"), contents))
        .expect("merge");
    let value = figment.find_value("path").expect("a value");

    let made = Tagged::<String>::deserialize_from(ConfiguredValueDe::from(&figment, &value));
    assert_eq!(made.len(), 2);
    assert_eq!(made.key(0), "___figment_tagged_metadata_id");
    assert_eq!(made.value(0).to_num().unwrap().to_u64(), Some(0));
    assert_eq!(made.key(1), "___figment_tagged_value");
    assert!(made.value(1).same(&value));
    assert_eq!(made.value(1).metadata_id(), Some(Id(0)));
    assert_eq!(Tagged::<String>::fields(), vec![made.key(0), made.key(1)]);
    assert_eq!(Tagged::<String>::name(), "___figment_tagged_item");

    let made = RelativePathBuf::deserialize_from(ConfiguredValueDe::from(&figment, &value));
    assert_eq!(made.len(), 2);
    assert_eq!(made.key(0), "___figment_relative_metadata_path");
    assert_eq!(made.value(0).as_str(), Some(in_jail("Config.toml").as_str()));
    assert_eq!(made.key(1), "___figment_relative_path");
    assert!(made.value(1).same(&value));
    assert_eq!(RelativePathBuf::fields(), vec![made.key(0), made.key(1)]);
    assert_eq!(RelativePathBuf::name(), "___figment_relative_path_buf");

    let plain = Value::from_str("a/b.html");
    let made = Tagged::<String>::deserialize_from(ConfiguredValueDe::from(&figment, &plain));
    assert_eq!(made.len(), 1);
    assert_eq!(made.key(0), "___figment_tagged_value");
    let made = RelativePathBuf::deserialize_from(ConfiguredValueDe::from(&figment, &plain));
    assert_eq!(made.len(), 1);
    assert_eq!(made.key(0), "___figment_relative_path");
}

#[test]
fn relative_paths_are_equal_when_they_resolve_alike() {
    let mut ids = Ids::new();
    let contents = dict(vec![("path", Value::from_str("hello.js"))]);
    let figment = Figment::from(&mut ids, &Loaded::file("file", &in_jail("Config.toml"), contents))
        .expect("merge");
    let declared: RelativePathBuf = figment.extract_inner("path").expect("extraction");
    let written = RelativePathBuf::from(&in_jail("hello.js"));
    assert!(declared.original() != written.original());
    assert!(declared.metadata_path() != written.metadata_path());
    assert!(declared == written);
    assert!(declared.same(&written));
    assert!(declared.same_from(&written, false, false));
    assert!(declared.same_from(&written, false, true));
    assert!(!declared.same_from(&written, true, false));
    assert!(declared != RelativePathBuf::from("hello.js"));
    assert!(RelativePathBuf::from("hello.js") == RelativePathBuf::from("hello.js"));
}
