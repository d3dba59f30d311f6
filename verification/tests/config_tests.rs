use ncblog::config::{read_site_config, write_site_config, ConfigError, SiteConfig};
use ncblog::toml_doc::{extract_bool, extract_string, extract_string_array, get, TomlValue};

const HUGO: &str = r#"baseURL = "https://example.org/"
languageCode = "zh-cn"
title = "My Blog"
description = "Notes"

[params]
author = "NC"
bio = "Writes code"
perPage = 10

[params.social]
github = "nc"
twitter = "@nc"
email = "nc@example.org"
mastodon = "@nc@social"
"#;

fn cfg() -> SiteConfig {
    SiteConfig {
        title: "New Title".to_string(),
        base_url: "https://blog.example/".to_string(),
        description: "Fresh".to_string(),
        author: "Someone".to_string(),
        bio: "Bio \"quoted\"".to_string(),
        github: "gh".to_string(),
        twitter: "tw".to_string(),
        email: "me@example.org".to_string(),
    }
}

#[test]
fn reads_site_config() {
    let c = read_site_config(HUGO).unwrap();
    assert_eq!(c.title, "My Blog");
    assert_eq!(c.base_url, "https://example.org/");
    assert_eq!(c.description, "Notes");
    assert_eq!(c.author, "NC");
    assert_eq!(c.bio, "Writes code");
    assert_eq!(c.github, "nc");
    assert_eq!(c.twitter, "@nc");
    assert_eq!(c.email, "nc@example.org");
}

#[test]
fn missing_settings_read_as_empty() {
    let c = read_site_config("title = \"Only\"\nparams = 3\n").unwrap();
    assert_eq!(c.title, "Only");
    assert_eq!(c.base_url, "");
    assert_eq!(c.author, "");
    assert_eq!(c.github, "");
}

#[test]
fn bad_toml_is_refused() {
    assert_eq!(read_site_config("title = ").unwrap_err(), ConfigError::InvalidToml);
    assert_eq!(write_site_config("[[", &cfg()).unwrap_err(), ConfigError::InvalidToml);
}

#[test]
fn written_settings_read_back() {
    let text = write_site_config(HUGO, &cfg()).unwrap();
    let c = read_site_config(&text).unwrap();
    assert_eq!(c.title, "New Title");
    assert_eq!(c.base_url, "https://blog.example/");
    assert_eq!(c.description, "Fresh");
    assert_eq!(c.author, "Someone");
    assert_eq!(c.bio, "Bio \"quoted\"");
    assert_eq!(c.github, "gh");
    assert_eq!(c.twitter, "tw");
    assert_eq!(c.email, "me@example.org");
}

#[test]
fn writing_keeps_other_settings() {
    let text = write_site_config(HUGO, &cfg()).unwrap();
    let doc: toml::Value = toml::from_str(&text).unwrap();
    assert_eq!(doc.get("languageCode").and_then(|v| v.as_str()), Some("zh-cn"));
    let params = doc.get("params").unwrap();
    assert_eq!(params.get("perPage").and_then(|v| v.as_integer()), Some(10));
    let social = params.get("social").unwrap();
    assert_eq!(social.get("mastodon").and_then(|v| v.as_str()), Some("@nc@social"));
}

#[test]
fn writing_adds_missing_tables() {
    let text = write_site_config("", &cfg()).unwrap();
    let c = read_site_config(&text).unwrap();
    assert_eq!(c.author, "Someone");
    assert_eq!(c.email, "me@example.org");
}

#[test]
fn writing_leaves_a_non_table_params_alone() {
    let text = write_site_config("params = 3\n", &cfg()).unwrap();
    let c = read_site_config(&text).unwrap();
    assert_eq!(c.title, "New Title");
    assert_eq!(c.author, "");
    let doc: toml::Value = toml::from_str(&text).unwrap();
    assert_eq!(doc.get("params").and_then(|v| v.as_integer()), Some(3));
}

#[test]
fn toml_lookups() {
    let text = |s: &str| TomlValue::Text(s.to_string());
    let doc = TomlValue::Table(vec![
        ("a".to_string(), text("x")),
        ("b".to_string(), TomlValue::Array(vec![text("p"), TomlValue::Other(toml::Value::Integer(1)), text("q")])),
        ("c".to_string(), TomlValue::Boolean(false)),
        ("t".to_string(), TomlValue::Table(vec![("d".to_string(), TomlValue::Boolean(true))])),
    ]);
    assert_eq!(extract_string(&doc, "a"), "x");
    assert_eq!(extract_string(&doc, "b"), "");
    assert_eq!(extract_string(&doc, "zz"), "");
    assert_eq!(extract_string_array(&doc, "b"), vec!["p".to_string(), "q".to_string()]);
    assert!(extract_string_array(&doc, "a").is_empty());
    assert!(!extract_bool(&doc, "c", true));
    assert!(extract_bool(&doc, "missing", true));
    assert!(extract_bool(get(&doc, "t").unwrap(), "d", false));
    assert!(get(&doc, "t").is_some());
    assert!(get(get(&doc, "a").unwrap(), "x").is_none());
}

#[test]
fn written_text_is_rendered_anew() {
    let text = write_site_config("z = 1\na = \"s\"\n", &cfg()).unwrap();
    assert!(text.starts_with(
        "a = \"s\"\nbaseURL = \"https://blog.example/\"\ndescription = \"Fresh\"\ntitle = \"New Title\"\nz = 1\n"
    ));
}

#[test]
fn a_document_led_by_the_private_date_time_key_is_no_table() {
    let text = "\"$__toml_private_datetime\" = \"1979-05-27T07:32:00Z\"\n";
    let c = read_site_config(text).unwrap();
    assert_eq!(c.title, "");
    assert_eq!(c.author, "");
    let written = write_site_config(text, &cfg()).unwrap();
    assert_eq!(read_site_config(&written).unwrap().title, "");
}
