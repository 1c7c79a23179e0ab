use live::controller::KeyExtractor;
use live::controller::KeyPattern;

struct SpecialExtractor;

impl KeyExtractor for SpecialExtractor {
    fn extract_key(&self, name: &str) -> Option<String> {
        if name.ends_with(".special") {
            Some(name.strip_suffix(".special").unwrap().to_uppercase())
        } else {
            None
        }
    }
}

#[test]
fn test_key_pattern_identity() {
    let pattern = KeyPattern::Identity;
    assert_eq!(pattern.extract("config.toml"), Some("config".to_string()));
    assert_eq!(pattern.extract("app.json"), Some("app".to_string()));
    assert_eq!(pattern.extract("noext"), Some("noext".to_string()));
    assert_eq!(
        pattern.extract("multi.dot.name.json"),
        Some("multi.dot.name".to_string())
    );
    // Edge case: hidden file
    assert_eq!(pattern.extract(".hidden"), None);
}

#[test]
fn test_key_pattern_extensions() {
    let pattern = KeyPattern::Extensions(vec![
        ".tar.gz".into(),
        ".config.json".into(),
        ".json".into(),
    ]);

    assert_eq!(pattern.extract("data.tar.gz"), Some("data".to_string()));
    assert_eq!(pattern.extract("app.config.json"), Some("app".to_string()));
    assert_eq!(pattern.extract("simple.json"), Some("simple".to_string()));
    // Fallback to Identity
    assert_eq!(pattern.extract("unknown.xyz"), Some("unknown".to_string()));
    // Order matters: .config.json matches before .json
    assert_eq!(pattern.extract("db.config.json"), Some("db".to_string()));
}

#[test]
fn test_key_pattern_bracketed() {
    let pattern = KeyPattern::Bracketed;
    assert_eq!(pattern.extract("[443]"), Some("443".to_string()));
    assert_eq!(pattern.extract("[http]"), Some("http".to_string()));
    assert_eq!(pattern.extract("nobraces"), None);
    assert_eq!(pattern.extract("[incomplete"), None);
    // Empty brackets should return None
    assert_eq!(pattern.extract("[]"), None);
}

#[test]
fn test_key_pattern_strip() {
    let pattern = KeyPattern::Strip {
        prefix: "port_".to_string(),
        suffix: "_config".to_string(),
    };
    assert_eq!(pattern.extract("port_443_config"), Some("443".to_string()));
    assert_eq!(pattern.extract("port_80_config"), Some("80".to_string()));
    assert_eq!(pattern.extract("other"), None);
}

#[test]
fn test_key_pattern_custom() {
    let pattern = KeyPattern::custom(SpecialExtractor);
    assert_eq!(pattern.extract("foo.special"), Some("FOO".to_string()));
    assert_eq!(pattern.extract("bar.special"), Some("BAR".to_string()));
    assert_eq!(pattern.extract("baz.other"), None);
}
