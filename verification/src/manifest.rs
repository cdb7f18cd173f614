//! What a `package.json` says about a project.

use vstd::prelude::*;

use crate::text::optional;

verus! {

/// A JSON value, as far as its objects and texts go.
pub enum JsonModel {
    /// An object, with the value of each key.
    Object(Map<Seq<char>, JsonModel>),
    /// A text.
    Text(Seq<char>),
    /// Anything else.
    Other,
}

/// A JSON value of `serde_json`.
#[verifier::external_type_specification]
#[verifier::external_body]
pub struct ExJsonValue(serde_json::Value);

/// An error of `serde_json`.
#[verifier::external_type_specification]
#[verifier::external_body]
pub struct ExJsonError(serde_json::Error);

/// What a JSON value holds.
pub uninterp spec fn json_contents(value: serde_json::Value) -> JsonModel;

/// How an error of `serde_json` words itself.
pub uninterp spec fn error_text(error: serde_json::Error) -> Seq<char>;

/// What `serde_json::from_str` makes of a text: the value that it describes, or the wording of the
/// error.
pub uninterp spec fn json_document(text: Seq<char>) -> Result<JsonModel, Seq<char>>;

/// The value of a key, where `value` is an object that has it.
pub open spec fn member(value: JsonModel, key: Seq<char>) -> Option<JsonModel> {
    match value {
        JsonModel::Object(members) => if members.contains_key(key) {
            Some(members[key])
        } else {
            None
        },
        _ => None,
    }
}

/// The text under a key, where `value` is an object that has one.
pub open spec fn member_text(value: JsonModel, key: Seq<char>) -> Option<Seq<char>> {
    match member(value, key) {
        Some(JsonModel::Text(text)) => Some(text),
        _ => None,
    }
}

/// `serde_json::from_str` reads a value from a text. The text alone decides what comes out.
#[verifier::external_body]
fn parse_json(text: &str) -> (r: Result<serde_json::Value, serde_json::Error>)
    ensures
        match r {
            Ok(value) => json_document(text@) == Ok::<JsonModel, Seq<char>>(json_contents(value)),
            Err(error) => json_document(text@) == Err::<JsonModel, Seq<char>>(error_text(error)),
        },
{
    serde_json::from_str::<serde_json::Value>(text)
}

/// `to_string` on a `serde_json::Error` gives its wording.
#[verifier::external_body]
fn describe_error(error: &serde_json::Error) -> (r: String)
    ensures
        r@ == error_text(*error),
{
    error.to_string()
}

/// `serde_json::Value::get` with a text as its index finds the value of this key in an object. It
/// finds nothing where the object lacks the key, or where the value is no object.
#[verifier::external_body]
fn json_get<'a>(value: &'a serde_json::Value, key: &str) -> (r: Option<&'a serde_json::Value>)
    ensures
        match r {
            Some(found) => member(json_contents(*value), key@) == Some(json_contents(*found)),
            None => member(json_contents(*value), key@) is None,
        },
{
    value.get(key)
}

/// `serde_json::Value::as_str` gives the text of a value that is one, and nothing for others.
#[verifier::external_body]
fn json_text(value: &serde_json::Value) -> (r: Option<String>)
    ensures
        match r {
            Some(text) => json_contents(*value) == JsonModel::Text(text@),
            None => !(json_contents(*value) is Text),
        },
{
    value.as_str().map(str::to_string)
}

/// What a `package.json` says about a project, as far as it matters here.
#[derive(Debug)]
pub struct PackageManifest {
    /// The name of the package.
    pub name: Option<String>,
    /// The script `dev`.
    pub dev: Option<String>,
    /// The script `start`.
    pub start: Option<String>,
    /// The script `serve`.
    pub serve: Option<String>,
}

/// What a `PackageManifest` says.
pub struct ManifestModel {
    pub name: Option<Seq<char>>,
    pub dev: Option<Seq<char>>,
    pub start: Option<Seq<char>>,
    pub serve: Option<Seq<char>>,
}

impl View for PackageManifest {
    type V = ManifestModel;

    open spec fn view(&self) -> ManifestModel {
        ManifestModel {
            name: optional(self.name),
            dev: optional(self.dev),
            start: optional(self.start),
            serve: optional(self.serve),
        }
    }
}

/// The script of a package with a given key.
pub open spec fn script_text(document: JsonModel, key: Seq<char>) -> Option<Seq<char>> {
    match member(document, "scripts"@) {
        Some(scripts) => member_text(scripts, key),
        None => None,
    }
}

/// What a document says about a package.
pub open spec fn package_of(document: JsonModel) -> ManifestModel {
    ManifestModel {
        name: member_text(document, "name"@),
        dev: script_text(document, "dev"@),
        start: script_text(document, "start"@),
        serve: script_text(document, "serve"@),
    }
}

/// What the text of a `package.json` says, or why it says nothing.
pub open spec fn manifest_in(contents: Seq<char>) -> Result<ManifestModel, Seq<char>> {
    match json_document(contents) {
        Ok(document) => Ok(package_of(document)),
        Err(error) => Err(error),
    }
}

/// What a reading of a manifest came to.
pub open spec fn manifest_reading(r: Result<PackageManifest, String>) -> Result<
    ManifestModel,
    Seq<char>,
> {
    match r {
        Ok(manifest) => Ok(manifest@),
        Err(error) => Err(error@),
    }
}

/// The text under a key of a value.
fn text_under(value: &serde_json::Value, key: &str) -> (r: Option<String>)
    ensures
        optional(r) == member_text(json_contents(*value), key@),
{
    match json_get(value, key) {
        Some(found) => json_text(found),
        None => None,
    }
}

/// Reads the text of a `package.json`.
pub fn read_package_manifest(contents: &str) -> (r: Result<PackageManifest, String>)
    ensures
        manifest_reading(r) == manifest_in(contents@),
{
    let document = match parse_json(contents) {
        Ok(document) => document,
        Err(error) => {
            return Err(describe_error(&error));
        },
    };
    let name = text_under(&document, "name");
    let manifest = match json_get(&document, "scripts") {
        Some(scripts) => PackageManifest {
            name,
            dev: text_under(scripts, "dev"),
            start: text_under(scripts, "start"),
            serve: text_under(scripts, "serve"),
        },
        None => PackageManifest { name, dev: None, start: None, serve: None },
    };
    Ok(manifest)
}

} // verus!
