//! Format parsers turning raw bytes into typed values.
//!
//! The concrete decoders live in outside crates; each parser here wraps
//! one of them. What a parse returns is decided by the decoder alone, so
//! the wrappers promise only the shape of the error.

use vstd::prelude::*;

use super::error::FmtError;

verus! {

/// JSON format parser.
#[derive(Debug)]
pub struct Json;

/// TOML format parser.
#[derive(Debug)]
pub struct Toml;

/// YAML format parser.
#[derive(Debug)]
pub struct Yaml;

/// Binary format parser.
#[derive(Debug)]
pub struct Postcard;

impl Json {
    /// The filename suffixes this format claims.
    pub fn extensions(&self) -> (r: &'static [&'static str])
        ensures
            r@.len() == 1,
            r@[0]@ == "json"@,
    {
        &["json"]
    }

    /// Relies on `serde_json::from_slice` to parse the input; every
    /// decoder error is reported as a parse error.
    #[verifier::external_body]
    pub fn parse<T: serde::de::DeserializeOwned>(&self, input: &[u8]) -> (r: Result<T, FmtError>)
        ensures
            r matches Err(e) ==> e is ParseError,
    {
        serde_json::from_slice(input).map_err(|e| FmtError::ParseError(e.to_string()))
    }
}

impl Toml {
    /// The filename suffixes this format claims.
    pub fn extensions(&self) -> (r: &'static [&'static str])
        ensures
            r@.len() == 1,
            r@[0]@ == "toml"@,
    {
        &["toml"]
    }

    /// Relies on `toml::from_str` to parse the input; every decoder error,
    /// and input that is not UTF-8, is reported as a parse error.
    #[verifier::external_body]
    pub fn parse<T: serde::de::DeserializeOwned>(&self, input: &[u8]) -> (r: Result<T, FmtError>)
        ensures
            r matches Err(e) ==> e is ParseError,
    {
        let s = match core::str::from_utf8(input) {
            Ok(s) => s,
            Err(e) => return Err(FmtError::ParseError(e.to_string())),
        };
        toml::from_str(s).map_err(|e| FmtError::ParseError(e.to_string()))
    }
}

impl Yaml {
    /// The filename suffixes this format claims.
    pub fn extensions(&self) -> (r: &'static [&'static str])
        ensures
            r@.len() == 2,
            r@[0]@ == "yaml"@,
            r@[1]@ == "yml"@,
    {
        &["yaml", "yml"]
    }

    /// Relies on `serde_yaml::from_slice` to parse the input; every
    /// decoder error is reported as a parse error.
    #[verifier::external_body]
    pub fn parse<T: serde::de::DeserializeOwned>(&self, input: &[u8]) -> (r: Result<T, FmtError>)
        ensures
            r matches Err(e) ==> e is ParseError,
    {
        serde_yaml::from_slice(input).map_err(|e| FmtError::ParseError(e.to_string()))
    }
}

impl Postcard {
    /// The filename suffixes this format claims.
    pub fn extensions(&self) -> (r: &'static [&'static str])
        ensures
            r@.len() == 2,
            r@[0]@ == "bin"@,
            r@[1]@ == "post"@,
    {
        &["bin", "post"]
    }

    /// Relies on `postcard::from_bytes` to parse the input; every decoder
    /// error is reported as a parse error.
    #[verifier::external_body]
    pub fn parse<T: serde::de::DeserializeOwned>(&self, input: &[u8]) -> (r: Result<T, FmtError>)
        ensures
            r matches Err(e) ==> e is ParseError,
    {
        postcard::from_bytes(input).map_err(|e| FmtError::ParseError(e.to_string()))
    }
}

/// An enum over all supported formats, for dynamic format selection.
#[derive(Debug, Clone, Copy, PartialEq, Eq, Structural)]
pub enum AnyFormat {
    Json,
    Toml,
    Yaml,
    Postcard,
}

impl AnyFormat {
    /// The filename suffixes each format claims, as character sequences.
    pub open spec fn spec_extensions(self) -> Seq<Seq<char>> {
        match self {
            AnyFormat::Json => seq!["json"@],
            AnyFormat::Toml => seq!["toml"@],
            AnyFormat::Yaml => seq!["yaml"@, "yml"@],
            AnyFormat::Postcard => seq!["bin"@, "post"@],
        }
    }

    /// The filename suffixes this format claims.
    pub fn extensions(&self) -> (r: &'static [&'static str])
        ensures
            r@.len() == self.spec_extensions().len(),
            forall|i: int| 0 <= i < r@.len() ==> (#[trigger] r@[i])@ == self.spec_extensions()[i],
    {
        match self {
            AnyFormat::Json => Json.extensions(),
            AnyFormat::Toml => Toml.extensions(),
            AnyFormat::Yaml => Yaml.extensions(),
            AnyFormat::Postcard => Postcard.extensions(),
        }
    }

    /// Parses the raw bytes with the selected format's decoder.
    pub fn parse<T: serde::de::DeserializeOwned>(&self, input: &[u8]) -> (r: Result<T, FmtError>)
        ensures
            r matches Err(e) ==> e is ParseError,
    {
        match self {
            AnyFormat::Json => Json.parse(input),
            AnyFormat::Toml => Toml.parse(input),
            AnyFormat::Yaml => Yaml.parse(input),
            AnyFormat::Postcard => Postcard.parse(input),
        }
    }
}

} // verus!
