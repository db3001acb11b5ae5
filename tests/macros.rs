use cohoard::{convert_at_macros, Config, User};

fn load_config(yaml: &str) -> Config {
    let value: serde_yaml::Value = serde_yaml::from_str(yaml).unwrap();
    let mut config = Config::new();
    for person in value["people"].as_sequence().unwrap() {
        let mut key = String::new();
        let mut fields = Vec::new();
        for (k, v) in person.as_mapping().unwrap() {
            let k = k.as_str().unwrap().to_string();
            let v = v.as_str().unwrap().to_string();
            if k == "key" {
                key = v;
            } else {
                fields.push((k, v));
            }
        }
        config.add_entry(key, &fields);
    }
    config
}

fn juice() -> Config {
    let mut config = Config::new();
    config.add_entry("JUICE".to_string(), &vec![("name".to_string(), "Juice".to_string())]);
    config
}

#[test]
fn test_at_macro() {
    let config = r##"people:
    - key: JUICE
      name: Juice
    - key: TEN
      handle: Ten
  "##;
    let config = load_config(config);
    let message = "@JUICE.name started pestering @TEN.handle";
    let expected = "<span class=\"at-macro at-macro-JUICE at-macro-JUICE-name\">Juice</span> started pestering <span class=\"at-macro at-macro-TEN at-macro-TEN-handle\">Ten</span>";
    assert_eq!(convert_at_macros(&config, message), expected);
}

#[test]
fn macro_resolves_to_span() {
    assert_eq!(
        convert_at_macros(&juice(), "@JUICE.name says hi"),
        "<span class=\"at-macro at-macro-JUICE at-macro-JUICE-name\">Juice</span> says hi"
    );
}

#[test]
fn macro_with_unknown_key_is_unchanged() {
    assert_eq!(convert_at_macros(&juice(), "@FOO.bar"), "@FOO.bar");
}

#[test]
fn macro_with_unknown_field_is_unchanged() {
    assert_eq!(convert_at_macros(&juice(), "hi @JUICE.color!"), "hi @JUICE.color!");
}

#[test]
fn macro_field_runs_to_white_space() {
    // The field is everything up to the next white space, punctuation included.
    assert_eq!(convert_at_macros(&juice(), "@JUICE.name, hi"), "@JUICE.name, hi");
    assert_eq!(
        convert_at_macros(&juice(), "(@JUICE.name\tx"),
        "(<span class=\"at-macro at-macro-JUICE at-macro-JUICE-name\">Juice</span>\tx"
    );
}

#[test]
fn macro_needs_upper_case_key_and_field() {
    assert_eq!(convert_at_macros(&juice(), "@juice.name"), "@juice.name");
    assert_eq!(convert_at_macros(&juice(), "@JUICE. name"), "@JUICE. name");
    assert_eq!(convert_at_macros(&juice(), "@.name"), "@.name");
    assert_eq!(convert_at_macros(&juice(), "@@JUICE.name"), "@<span class=\"at-macro at-macro-JUICE at-macro-JUICE-name\">Juice</span>");
}

#[test]
fn macro_key_field_is_the_key() {
    assert_eq!(
        convert_at_macros(&juice(), "@JUICE.key"),
        "<span class=\"at-macro at-macro-JUICE at-macro-JUICE-key\">JUICE</span>"
    );
}

#[test]
fn entry_forces_key_and_defaults_name() {
    let mut config = Config::new();
    config.add_entry(
        "TEN".to_string(),
        &vec![("handle".to_string(), "Ten".to_string()), ("key".to_string(), "other".to_string())],
    );
    let user = config.get("TEN").unwrap();
    assert_eq!(user.field("key"), Some("TEN".to_string()));
    assert_eq!(user.field("name"), Some("TEN".to_string()));
    assert_eq!(user.field("handle"), Some("Ten".to_string()));
    assert_eq!(user.field("color"), None);
}

#[test]
fn insert_replaces_entry() {
    let mut config = Config::new();
    let mut a = User::new();
    a.set("name".to_string(), "A".to_string());
    let mut b = User::new();
    b.set("name".to_string(), "B".to_string());
    config.insert("K".to_string(), a);
    config.insert("K".to_string(), b);
    assert_eq!(config.people().len(), 1);
    assert_eq!(config.get("K").unwrap().field("name"), Some("B".to_string()));
    assert!(config.get("L").is_none());
}

#[test]
fn resolve_falls_back_to_token() {
    let config = juice();
    let u = config.resolve("ZED");
    assert_eq!(u.fields().clone(), vec![("key".to_string(), "ZED".to_string()), ("name".to_string(), "ZED".to_string())]);
    let j = config.resolve("JUICE");
    assert_eq!(j.field("name"), Some("Juice".to_string()));
}
