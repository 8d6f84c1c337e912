use rustc_auto_publish::manifest::{transform, Val};
use rustc_auto_publish::toml_text::rewrite_manifest;
use rustc_auto_publish::version::Version;
use rustc_auto_publish::Error;

fn s(x: &str) -> String {
    x.to_string()
}

fn table(entries: Vec<(&str, Val)>) -> Val {
    Val::Table(entries.into_iter().map(|(k, v)| (s(k), v)).collect())
}

fn vers2() -> Version {
    Version { major: 2, minor: 0, patch: 0 }
}

#[test]
fn dependency_table_is_rewritten() {
    let doc = table(vec![(
        "dependencies",
        table(vec![
            ("foo", table(vec![("path", Val::Str(s("../foo"))), ("version", Val::Str(s("0.1")))])),
            ("bar", Val::Str(s("1.2"))),
        ]),
    )]);
    let out = transform(doc, &s("syntax"), &s("deadbeef"), &vers2()).unwrap();
    let expected = table(vec![(
        "dependencies",
        table(vec![
            ("rustc-ap-foo", table(vec![("version", Val::Str(s("2.0.0")))])),
            ("bar", Val::Str(s("1.2"))),
            ("term", Val::Str(s("0.4"))),
        ]),
    )]);
    assert_eq!(out, expected);
}

#[test]
fn empty_lib_table_gains_the_original_name() {
    let doc = table(vec![("lib", table(vec![]))]);
    let out = transform(doc, &s("syntax"), &s("deadbeef"), &vers2()).unwrap();
    let expected = table(vec![("lib", table(vec![("name", Val::Str(s("syntax")))]))]);
    assert_eq!(out, expected);
}

#[test]
fn lib_table_loses_its_explicit_kind() {
    let doc = table(vec![(
        "lib",
        table(vec![("crate-type", Val::Arr(vec![Val::Str(s("dylib"))]))]),
    )]);
    let out = transform(doc, &s("syntax"), &s("deadbeef"), &vers2()).unwrap();
    let expected = table(vec![("lib", table(vec![("name", Val::Str(s("syntax")))]))]);
    assert_eq!(out, expected);
}

#[test]
fn package_table_is_overwritten() {
    let doc = table(vec![(
        "package",
        table(vec![
            ("name", Val::Str(s("syntax"))),
            ("version", Val::Str(s("0.0.0"))),
            ("authors", Val::Arr(vec![Val::Str(s("The Rust Project Developers"))])),
        ]),
    )]);
    let out = transform(doc, &s("syntax"), &s("deadbeef"), &vers2()).unwrap();
    let expected = table(vec![(
        "package",
        table(vec![
            ("name", Val::Str(s("rustc-ap-syntax"))),
            ("version", Val::Str(s("2.0.0"))),
            ("authors", Val::Arr(vec![Val::Str(s("The Rust Project Developers"))])),
            ("license", Val::Str(s("MIT / Apache-2.0"))),
            (
                "description",
                Val::Str(s(
                    "Automatically published version of the package `syntax` \
                     in the rust-lang/rust repository from commit deadbeef ",
                )),
            ),
            ("repository", Val::Str(s("https://github.com/rust-lang/rust"))),
        ]),
    )]);
    assert_eq!(out, expected);
}

#[test]
fn sections_other_than_the_three_pass_through() {
    let doc = table(vec![("features", table(vec![("default", Val::Arr(vec![]))]))]);
    let out = transform(doc, &s("syntax"), &s("deadbeef"), &vers2()).unwrap();
    let expected = table(vec![("features", table(vec![("default", Val::Arr(vec![]))]))]);
    assert_eq!(out, expected);
}

#[test]
fn absent_dependency_table_stays_absent() {
    let doc = table(vec![("lib", table(vec![]))]);
    let out = transform(doc, &s("syntax"), &s("deadbeef"), &vers2()).unwrap();
    // no `dependencies` section appears, and so no `term` entry either
    let expected = table(vec![("lib", table(vec![("name", Val::Str(s("syntax")))]))]);
    assert_eq!(out, expected);
}

#[test]
fn empty_dependency_table_gains_only_term() {
    let doc = table(vec![("dependencies", table(vec![]))]);
    let out = transform(doc, &s("syntax"), &s("deadbeef"), &vers2()).unwrap();
    let expected = table(vec![(
        "dependencies",
        table(vec![("term", Val::Str(s("0.4")))]),
    )]);
    assert_eq!(out, expected);
}

#[test]
fn non_table_document_is_malformed() {
    let doc = Val::Str(s("just a string"));
    assert_eq!(
        transform(doc, &s("syntax"), &s("deadbeef"), &vers2()),
        Err(Error::MalformedManifest)
    );
}

#[test]
fn non_table_package_section_is_malformed() {
    let doc = table(vec![("package", Val::Str(s("oops")))]);
    assert_eq!(
        transform(doc, &s("syntax"), &s("deadbeef"), &vers2()),
        Err(Error::MalformedManifest)
    );
}

#[test]
fn non_table_dependencies_section_is_malformed() {
    let doc = table(vec![("dependencies", Val::Str(s("oops")))]);
    assert_eq!(
        transform(doc, &s("syntax"), &s("deadbeef"), &vers2()),
        Err(Error::MalformedManifest)
    );
}

const MANIFEST: &str = r#"
[package]
name = "syntax"
version = "0.0.0"

[lib]
crate-type = ["dylib"]

[dependencies]
bar = "1.2"

[dependencies.foo]
path = "../foo"
version = "0.1"
"#;

#[test]
fn rewriting_the_same_text_twice_is_byte_identical() {
    let v = vers2();
    let first = rewrite_manifest(MANIFEST, &s("syntax"), &s("deadbeef"), &v).unwrap();
    let second = rewrite_manifest(MANIFEST, &s("syntax"), &s("deadbeef"), &v).unwrap();
    assert_eq!(first, second);
}

#[test]
fn rewritten_text_holds_the_published_form() {
    let v = vers2();
    let out = rewrite_manifest(MANIFEST, &s("syntax"), &s("deadbeef"), &v).unwrap();
    let parsed: toml::Table = out.parse().unwrap();
    let package = parsed["package"].as_table().unwrap();
    assert_eq!(package["name"].as_str(), Some("rustc-ap-syntax"));
    assert_eq!(package["version"].as_str(), Some("2.0.0"));
    assert_eq!(package["license"].as_str(), Some("MIT / Apache-2.0"));
    let lib = parsed["lib"].as_table().unwrap();
    assert_eq!(lib["name"].as_str(), Some("syntax"));
    assert!(!lib.contains_key("crate-type"));
    let deps = parsed["dependencies"].as_table().unwrap();
    let foo = deps["rustc-ap-foo"].as_table().unwrap();
    assert_eq!(foo["version"].as_str(), Some("2.0.0"));
    assert!(!foo.contains_key("path"));
    assert_eq!(deps["bar"].as_str(), Some("1.2"));
    assert_eq!(deps["term"].as_str(), Some("0.4"));
}

#[test]
fn unparseable_text_is_malformed() {
    let v = vers2();
    assert_eq!(
        rewrite_manifest("this is [[[ not toml", &s("syntax"), &s("deadbeef"), &v),
        Err(Error::MalformedManifest)
    );
}
