use figment::figment::Figment;
use figment::metadata::Metadata;
use figment::metadata::Source;
use figment::providers::Loaded;
use figment::tag::Ids;
use figment::value::Dict;
use figment::value::Value;

#[derive(PartialEq, Debug)]
pub enum Foo {
    Mega,
    Supa,
}

#[derive(Debug, Default)]
pub struct Test {
    service: Option<Foo>,
}

fn one(key: &str, value: Value) -> Dict {
    let mut d = Dict::new();
    d.insert(key.to_string(), value);
    d
}

fn service(figment: &Figment) -> Test {
    let name: Option<String> = figment.extract_inner("service").expect("extraction");
    Test {
        service: name.map(|name| match name.as_str() {
            "Mega" => Foo::Mega,
            "Supa" => Foo::Supa,
            other => panic!("unknown variant {}", other),
        }),
    }
}

fn defaults() -> Loaded {
    Loaded::from(Metadata::named("defaults"), one("service", Value::null()))
}

fn figment(ids: &mut Ids) -> Figment {
    let file = Loaded::file("TOML file", "Test.toml", one("service", Value::from_str("Mega")));
    Figment::new().merge(ids, &defaults()).expect("merge").merge(ids, &file).expect("merge")
}

#[test]
fn test_enum_de() {
    let mut ids = Ids::new();

    let test: Test = service(&figment(&mut ids));
    assert_eq!(test.service, Some(Foo::Mega));

    let env = Loaded::from(
        Metadata::named("`TEST_` environment variable(s)").source(Source::Environment),
        one("SERVICE", Value::from_str("Supa")),
    );
    let test: Test = service(&figment(&mut ids).merge(&mut ids, &env).expect("merge"));
    assert_eq!(test.service, Some(Foo::Supa));

    let test: Test = service(&Figment::from(&mut ids, &defaults()).expect("merge"));
    assert_eq!(test.service, Test::default().service);
}
