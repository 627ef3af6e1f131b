//! Resolving the Solidity language version from a project configuration
//! file: the `profile.default.solc_version` string of the configuration's
//! TOML text, with a fixed default when the file or the key is missing.
//!
//! Reading the TOML document is the work of the `toml` crate, behind one
//! trusted wrapper whose result is named [`toml_string_at`]; every decision —
//! which key path to read, when the default applies, what is fatal — is
//! verified code.

use vstd::prelude::*;

use crate::records::seq_views;

verus! {

/// What looking up a key path in a TOML document returns: the string at the
/// path, `None` when the path is missing or not a string, or the parse
/// error's message when the document itself does not parse. A TOML document
/// determines this outcome alone.
pub uninterp spec fn toml_string_at(contents: Seq<char>, path: Seq<Seq<char>>) -> Result<
    Option<String>,
    String,
>;

/// Relies on `toml::from_str::<toml::Value>` and `toml::Value::{get,
/// as_str}`: parses the document and follows the key path table by table.
/// Both are deterministic in the text, so the result is named
/// [`toml_string_at`].
#[verifier::external_body]
fn read_toml_string(contents: &str, path: &Vec<String>) -> (r: Result<Option<String>, String>)
    ensures
        r == toml_string_at(contents@, seq_views(path@)),
{
    let parsed: toml::Value = match toml::from_str(contents) {
        Ok(v) => v,
        Err(e) => return Err(e.to_string()),
    };
    let mut value = &parsed;
    for key in path {
        match value.get(key.as_str()) {
            Some(v) => value = v,
            None => return Ok(None),
        }
    }
    Ok(value.as_str().map(|s| s.to_string()))
}

/// The language version assumed when no configuration names one.
pub open spec fn default_version() -> Seq<char> {
    "0.8.26"@
}

/// The key path of the configured version: the default profile's
/// `solc_version`.
pub open spec fn config_path() -> Seq<Seq<char>> {
    seq!["profile"@, "default"@, "solc_version"@]
}

/// A fatal configuration failure: the configuration file exists but does not
/// parse.
#[derive(Debug)]
pub struct ConfigError {
    pub message: String,
}

/// The exec form of [`default_version`].
fn default_version_string() -> (r: String)
    ensures
        r@ == default_version(),
{
    String::from_str("0.8.26")
}

/// The exec form of [`config_path`].
fn build_config_path() -> (r: Vec<String>)
    ensures
        seq_views(r@) == config_path(),
{
    let mut r: Vec<String> = Vec::new();
    r.push(String::from_str("profile"));
    r.push(String::from_str("default"));
    r.push(String::from_str("solc_version"));
    proof {
        assert(seq_views(r@) =~= config_path());
    }
    r
}

/// The view of the optional configuration text.
pub open spec fn contents_view(contents: Option<&String>) -> Option<Seq<char>> {
    match contents {
        Option::Some(c) => Option::Some(c@),
        Option::None => Option::None,
    }
}

/// What [`resolve_solc_version`] must return: the default version when there
/// is no configuration text or it holds no version string, the configured
/// version when there is one, and the parse error's message when the text
/// does not parse — the one fatal case.
pub open spec fn version_resolution(r: Result<String, ConfigError>, contents: Option<Seq<char>>) -> bool {
    match contents {
        Option::None => match r {
            Result::Ok(v) => v@ == default_version(),
            Result::Err(_) => false,
        },
        Option::Some(c) => match toml_string_at(c, config_path()) {
            Result::Err(msg) => match r {
                Result::Ok(_) => false,
                Result::Err(e) => e.message == msg,
            },
            Result::Ok(Option::None) => match r {
                Result::Ok(v) => v@ == default_version(),
                Result::Err(_) => false,
            },
            Result::Ok(Option::Some(s)) => match r {
                Result::Ok(v) => v == s,
                Result::Err(_) => false,
            },
        },
    }
}

/// Resolves the language version from the configuration file's text, if the
/// file exists, as [`version_resolution`] states.
pub fn resolve_solc_version(contents: Option<&String>) -> (r: Result<String, ConfigError>)
    ensures
        version_resolution(r, contents_view(contents)),
{
    match contents {
        Option::None => Result::Ok(default_version_string()),
        Option::Some(c) => {
            let path = build_config_path();
            match read_toml_string(c.as_str(), &path) {
                Result::Err(message) => Result::Err(ConfigError { message }),
                Result::Ok(Option::None) => Result::Ok(default_version_string()),
                Result::Ok(Option::Some(v)) => Result::Ok(v),
            }
        },
    }
}

} // verus!
