use lettersmith::config::Config;
use lettersmith::value::Value;

#[test]
fn test_config_defaults() {
    let config = Config::default();
    assert_eq!(config.templates, "templates/*.html");
    assert_eq!(config.site_url, "/");
    assert_eq!(config.site_title, "");
    assert_eq!(config.site_description, "");
    assert_eq!(config.site_author, "");
    assert!(matches!(&config.data, Value::Obj(ps) if ps.is_empty()));
}

#[test]
fn test_config_to_json_shape() {
    let config = Config::default();
    let v = config.to_json();
    let url = v.get("site_url").unwrap();
    assert!(matches!(url.as_str(), Some(s) if s == "/"));
    assert!(v.get("data").is_some());
}
