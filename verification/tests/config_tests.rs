//! Tests of language-version resolution from configuration text.

use storage_lint::config::resolve_solc_version;

#[test]
fn no_configuration_file_gives_the_default() {
    let v = resolve_solc_version(None).expect("no file is not an error");
    assert_eq!(v, "0.8.26");
}

#[test]
fn configured_version_is_used() {
    let text = String::from("[profile.default]\nsolc_version = \"0.8.20\"\n");
    let v = resolve_solc_version(Some(&text)).expect("valid configuration");
    assert_eq!(v, "0.8.20");
}

#[test]
fn missing_key_gives_the_default() {
    let text = String::from("[profile.default]\noptimizer = true\n");
    let v = resolve_solc_version(Some(&text)).expect("valid configuration");
    assert_eq!(v, "0.8.26");
}

#[test]
fn missing_profile_gives_the_default() {
    let text = String::from("[dependencies]\nx = \"1\"\n");
    let v = resolve_solc_version(Some(&text)).expect("valid configuration");
    assert_eq!(v, "0.8.26");
}

#[test]
fn version_of_the_wrong_type_gives_the_default() {
    let text = String::from("[profile.default]\nsolc_version = 7\n");
    let v = resolve_solc_version(Some(&text)).expect("valid configuration");
    assert_eq!(v, "0.8.26");
}

#[test]
fn unparsable_configuration_is_fatal() {
    let text = String::from("profile = = broken");
    let e = resolve_solc_version(Some(&text)).expect_err("parse failure is fatal");
    assert!(!e.message.is_empty());
}
