//! Manifest documents as TOML text: parsing a manifest into the model and
//! rendering the rewritten model back. Both directions go through the `toml`
//! crate; what it computes is named, not restated, and the rewrite between
//! the two directions is verified.

use vstd::prelude::*;
use crate::Error;
use crate::manifest::{Val, ValueView, value_view, entries_view, transform_view, transform};
use crate::version::Version;

verus! {

#[verifier::external_type_specification]
#[verifier::external_body]
pub struct ExTomlValue(toml::Value);

#[verifier::external_type_specification]
#[verifier::external_body]
#[verifier::reject_recursive_types(K)]
#[verifier::reject_recursive_types(V)]
pub struct ExTomlMap<K, V>(toml::map::Map<K, V>);

/// The document tree a TOML text parses to, in the string / array / table
/// shape manifests use; nothing where the text does not parse as a TOML
/// document or holds a value outside that shape.
pub uninterp spec fn toml_doc_of(s: Seq<char>) -> Option<ValueView>;

/// The TOML text a manifest document renders to; nothing where the document
/// cannot be represented as a TOML document.
pub uninterp spec fn toml_text_of(v: ValueView) -> Option<Seq<char>>;

/// The conversion half of `parse_toml`, whose contract covers it: one arm
/// per variant of `toml::Value`, keeping strings, arrays and tables and
/// refusing the rest.
#[verifier::external_body]
fn from_value(v: &toml::Value) -> Option<Val> {
    match v {
        toml::Value::String(s) => Some(Val::Str(s.clone())),
        toml::Value::Array(a) => {
            let out: Option<Vec<Val>> = a.iter().map(from_value).collect();
            out.map(Val::Arr)
        },
        toml::Value::Table(t) => {
            let out: Option<Vec<(String, Val)>> =
                t.iter().map(|(k, x)| Some((k.clone(), from_value(x)?))).collect();
            out.map(Val::Table)
        },
        _ => None,
    }
}

/// Relies on toml's document parser (`str::parse::<toml::Table>`): what a
/// text parses to depends on the text alone, so the result bears a name, and
/// a text yields a document at most one way.
#[verifier::external_body]
fn parse_toml(s: &str) -> (r: Option<Val>)
    ensures
        match r {
            Some(v) => toml_doc_of(s@) == Some(value_view(v)),
            None => toml_doc_of(s@) is None,
        },
{
    match s.parse::<toml::Table>() {
        Ok(t) => from_value(&toml::Value::Table(t)),
        Err(_) => None,
    }
}

/// The conversion half of `render_toml`, whose contract covers it.
#[verifier::external_body]
fn to_value(v: &Val) -> toml::Value {
    match v {
        Val::Str(s) => toml::Value::String(s.clone()),
        Val::Arr(a) => toml::Value::Array(a.iter().map(to_value).collect()),
        Val::Table(t) => toml::Value::Table(
            t.iter().map(|e| (e.0.clone(), to_value(&e.1))).collect(),
        ),
    }
}

/// Relies on toml's document serializer (`toml::to_string`): what a document
/// renders to depends on the document alone, so the result bears a name;
/// serializing fails only on documents TOML cannot represent.
#[verifier::external_body]
fn render_toml(entries: &Vec<(String, Val)>) -> (r: Option<String>)
    ensures
        match r {
            Some(s) => toml_text_of(ValueView::Table(entries_view(entries@))) == Some(s@),
            None => toml_text_of(ValueView::Table(entries_view(entries@))) is None,
        },
{
    let mut m: toml::map::Map<String, toml::Value> = toml::map::Map::new();
    for e in entries.iter() {
        m.insert(e.0.clone(), to_value(&e.1));
    }
    toml::to_string(&m).ok()
}

/// What rewriting one manifest text yields: the parsed document transformed
/// and rendered back; a text that does not parse, a section that is not a
/// table, or a result TOML cannot represent is a malformed manifest. The
/// result is a function of the four inputs alone, so rewriting the same
/// original text again with the same inputs yields the same bytes.
pub open spec fn rewrite_view(
    text: Seq<char>,
    name: Seq<char>,
    commit: Seq<char>,
    vers: Version,
) -> Result<Seq<char>, Error> {
    match toml_doc_of(text) {
        None => Err(Error::MalformedManifest),
        Some(doc) => match transform_view(doc, name, commit, vers) {
            Err(e) => Err(e),
            Ok(out) => match toml_text_of(out) {
                None => Err(Error::MalformedManifest),
                Some(s) => Ok(s),
            },
        },
    }
}

/// Rerunning the rewrite on the original manifest text with identical
/// inputs yields the identical document: the rewrite depends on the text,
/// the crate name, the commit and the target version alone.
pub proof fn lemma_rewrite_rerun_identical(
    t1: Seq<char>,
    t2: Seq<char>,
    name: Seq<char>,
    commit: Seq<char>,
    vers: Version,
)
    requires
        t1 == t2,
    ensures
        rewrite_view(t1, name, commit, vers) == rewrite_view(t2, name, commit, vers),
{
}

/// One manifest text rewritten for publication: parsed, transformed, and
/// rendered back, ready to overwrite the manifest in place.
pub fn rewrite_manifest(
    text: &str,
    pkg_name: &String,
    commit: &String,
    vers: &Version,
) -> (r: Result<String, Error>)
    ensures
        match rewrite_view(text@, pkg_name@, commit@, *vers) {
            Ok(s) => r matches Ok(t) && t@ == s,
            Err(e) => r == Err::<String, Error>(e),
        },
{
    let doc = match parse_toml(text) {
        Some(d) => d,
        None => {
            return Err(Error::MalformedManifest);
        },
    };
    let out = match transform(doc, pkg_name, commit, vers) {
        Ok(o) => o,
        Err(e) => {
            return Err(e);
        },
    };
    match out {
        Val::Table(es) => {
            match render_toml(&es) {
                Some(s) => Ok(s),
                None => Err(Error::MalformedManifest),
            }
        },
        other => {
            proof {
                assert(value_view(other) is Table);
                assert(false);
            }
            Err(Error::MalformedManifest)
        },
    }
}

} // verus!
