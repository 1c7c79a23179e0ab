use live::loader::format::AnyFormat;
use live::loader::DynLoader;
use live::loader::FileSource;
use live::loader::FmtError;
use live::loader::LoadResult;
use live::loader::MemorySource;

#[derive(Debug, PartialEq)]
struct Config {
    foo: String,
}

impl<'de> serde::de::Deserialize<'de> for Config {
    fn deserialize<D: serde::de::Deserializer<'de>>(d: D) -> Result<Self, D::Error> {
        let v = serde_json::Value::deserialize(d)?;
        match v.get("foo").and_then(serde_json::Value::as_str) {
            Some(foo) => Ok(Config { foo: foo.to_string() }),
            None => Err(serde::de::Error::custom("missing foo")),
        }
    }
}

impl live::loader::PreProcess for Config {}

impl live::loader::ValidateConfig for Config {}

#[test]
fn test_dyn_loader_json() {
    let mut source = MemorySource::new();
    source.insert("test.json", b"{\"foo\": \"bar\"}".to_vec());

    let loader = DynLoader::builder()
        .source(source)
        .format(AnyFormat::Json)
        .build()
        .unwrap();

    let res = loader.load::<Config>("test");
    match res {
        LoadResult::Loaded { value, .. } => assert_eq!(value.foo, "bar"),
        _ => panic!("Load failed"),
    }
}

#[test]
fn test_dyn_loader_not_found() {
    let source = MemorySource::new();
    let loader = DynLoader::builder()
        .source(source)
        .format(AnyFormat::Json)
        .build()
        .unwrap();

    let res = loader.load::<Config>("missing");
    match res {
        LoadResult::NotFound => (),
        _ => panic!("Expected NotFound"),
    }
}

#[test]
fn test_dyn_loader_probe_order() {
    // The first registered format wins a tie between candidate files.
    let mut source = MemorySource::new();
    source.insert("app.json", b"{\"foo\": \"json\"}".to_vec());
    source.insert("app.yaml", b"foo: yaml\n".to_vec());

    let loader = DynLoader::builder()
        .source(source)
        .format(AnyFormat::Json)
        .format(AnyFormat::Yaml)
        .build()
        .unwrap();

    match loader.load::<Config>("app") {
        LoadResult::Loaded { value, info } => {
            assert_eq!(value.foo, "json");
            assert_eq!(info.path, "app.json");
            assert_eq!(info.format, "json");
        }
        _ => panic!("Load failed"),
    }
}

#[test]
fn test_dyn_loader_invalid_json() {
    let mut source = MemorySource::new();
    source.insert("bad.json", b"not json at all".to_vec());

    let loader = DynLoader::builder()
        .source(source)
        .format(AnyFormat::Json)
        .build()
        .unwrap();

    match loader.load::<Config>("bad") {
        LoadResult::Invalid(FmtError::ParseError(_)) => (),
        _ => panic!("Expected a parse error"),
    }
}

#[test]
fn test_load_file_selects_format_by_extension() {
    let mut source = MemorySource::new();
    source.insert("cfg.yaml", b"foo: hello\n".to_vec());

    let loader = DynLoader::builder()
        .source(source)
        .format(AnyFormat::Json)
        .format(AnyFormat::Yaml)
        .build()
        .unwrap();

    match loader.load_file::<Config>("cfg.yaml") {
        LoadResult::Loaded { value, info } => {
            assert_eq!(value.foo, "hello");
            assert_eq!(info.format, "yaml");
        }
        _ => panic!("Load failed"),
    }

    // No registered format claims the extension.
    match loader.load_file::<Config>("cfg.txt") {
        LoadResult::NotFound => (),
        _ => panic!("Expected NotFound"),
    }

    // A path without an extension is invalid.
    match loader.load_file::<Config>("cfg") {
        LoadResult::Invalid(FmtError::ParseError(msg)) => {
            assert_eq!(msg, "missing extension");
        }
        _ => panic!("Expected Invalid"),
    }
}

#[test]
fn test_builder_requires_source_and_format() {
    match DynLoader::<MemorySource>::builder().build() {
        Err(msg) => assert_eq!(msg, "source is required"),
        Ok(_) => panic!("Expected an error"),
    }

    match DynLoader::builder().source(MemorySource::new()).build() {
        Err(msg) => assert_eq!(msg, "at least one format is required"),
        Ok(_) => panic!("Expected an error"),
    }
}

#[test]
fn test_toml_parse() {
    let mut source = MemorySource::new();
    source.insert("conf.toml", b"foo = \"tomled\"\n".to_vec());

    let loader = DynLoader::builder()
        .source(source)
        .format(AnyFormat::Toml)
        .build()
        .unwrap();

    match loader.load::<Config>("conf") {
        LoadResult::Loaded { value, .. } => assert_eq!(value.foo, "tomled"),
        _ => panic!("Load failed"),
    }
}

#[test]
fn test_file_source_sandbox() {
    // A key that climbs to the parent directory is rejected outright.
    match FileSource::check_key("../etc/passwd") {
        Err(FmtError::SandboxViolation) => (),
        _ => panic!("Expected SandboxViolation"),
    }
    match FileSource::check_key("a/../../b") {
        Err(FmtError::SandboxViolation) => (),
        _ => panic!("Expected SandboxViolation"),
    }
    assert!(FileSource::check_key("a/b/c.json").is_ok());

    // A canonical path is accepted only under the canonical root.
    assert_eq!(
        FileSource::accept_canonical("/srv/conf", "/srv/conf/app.json").unwrap(),
        "/srv/conf/app.json"
    );
    assert_eq!(
        FileSource::accept_canonical("/srv/conf", "/srv/conf").unwrap(),
        "/srv/conf"
    );
    match FileSource::accept_canonical("/srv/conf", "/srv/confidential/x") {
        Err(FmtError::SandboxViolation) => (),
        _ => panic!("Expected SandboxViolation"),
    }
    match FileSource::accept_canonical("/srv/conf", "/etc/passwd") {
        Err(FmtError::SandboxViolation) => (),
        _ => panic!("Expected SandboxViolation"),
    }

    let source = FileSource::new("/srv/conf");
    assert_eq!(source.root(), "/srv/conf");
    assert_eq!(source.join_key("app.json"), "/srv/conf/app.json");
}
