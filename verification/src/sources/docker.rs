//! The docker adapter: a JSON object whose `registry-mirrors` array lists
//! mirror URLs, first element authoritative.
//!
//! Reading takes the first element of the array; a malformed file reads
//! as "none configured".  Writing parses the document — on the write path
//! malformed content is a hard error — sets `registry-mirrors` to the
//! single-element array holding the new URL, and re-serializes, keeping
//! every other top-level field.  An absent or brand-new empty file is the
//! caller's case: the caller hands in the empty object `{}`.
//!
//! The JSON work is done by the `serde_json` crate behind the trusted
//! items below.  The model they share reads a document by its
//! `registry-mirrors` array and by the canonical text of each top-level
//! field, which is how preservation of fields of any type is stated.

use vstd::prelude::*;

use crate::backup;
use crate::error::MirrorError;
use crate::traits::{RestoreAction, SourceManager};
use crate::types::Mirror;

verus! {

#[verifier::external_type_specification]
#[verifier::external_body]
pub struct ExJsonValue(serde_json::Value);

/// Whether `s` parses as a JSON document.
pub uninterp spec fn json_parses(s: Seq<char>) -> bool;

/// Whether `v` is an object at its root.
pub uninterp spec fn json_is_object(v: serde_json::Value) -> bool;

/// [`json_is_object`] of the parse of the document text `s`.
pub uninterp spec fn json_doc_is_object(s: Seq<char>) -> bool;

/// The first string of the `registry-mirrors` array of `v`, or `None` when
/// the field is missing, not an array, or does not start with a string.
pub uninterp spec fn json_first_mirror(v: serde_json::Value) -> Option<Seq<char>>;

/// [`json_first_mirror`] of the parse of the document text `s`.
pub uninterp spec fn json_doc_first_mirror(s: Seq<char>) -> Option<Seq<char>>;

/// The `registry-mirrors` field of `v` as an array of strings, or `None`
/// when the field is missing, not an array, or holds a non-string.
pub uninterp spec fn json_mirrors(v: serde_json::Value) -> Option<Seq<Seq<char>>>;

/// [`json_mirrors`] of the parse of the document text `s`.
pub uninterp spec fn json_doc_mirrors(s: Seq<char>) -> Option<Seq<Seq<char>>>;

/// The canonical text of the top-level field `key` of `v` — present for a
/// field of any type — or `None` when the root is no object or has no such
/// field.
pub uninterp spec fn json_field_text(v: serde_json::Value, key: Seq<char>) -> Option<Seq<char>>;

/// [`json_field_text`] of the parse of the document text `s`.
pub uninterp spec fn json_doc_field_text(s: Seq<char>, key: Seq<char>) -> Option<Seq<char>>;

/// Relies on `serde_json::from_str`: parses the document, failing exactly
/// on malformed JSON.
#[verifier::external_body]
fn json_parse(s: &str) -> (r: Result<serde_json::Value, String>)
    ensures
        r is Ok <==> json_parses(s@),
        r matches Ok(v) ==> {
            &&& json_is_object(v) == json_doc_is_object(s@)
            &&& json_first_mirror(v) == json_doc_first_mirror(s@)
            &&& json_mirrors(v) == json_doc_mirrors(s@)
            &&& forall|k: Seq<char>| #[trigger] json_field_text(v, k) == json_doc_field_text(s@, k)
        },
{
    serde_json::from_str::<serde_json::Value>(s).map_err(|e| e.to_string())
}

/// Relies on `serde_json::Value::get` (a string index reaches object
/// fields only), `Value::as_array` and `Value::as_str`: reads the first
/// string of the `registry-mirrors` array.
#[verifier::external_body]
fn json_get_first_mirror(v: &serde_json::Value) -> (r: Option<String>)
    ensures
        match r {
            Some(u) => json_first_mirror(*v) == Some(u@),
            None => json_first_mirror(*v) is None,
        },
{
    let m = match v.get("registry-mirrors") {
        Some(x) => x,
        None => return None,
    };
    let a = match m.as_array() {
        Some(x) => x,
        None => return None,
    };
    let f = match a.first() {
        Some(x) => x,
        None => return None,
    };
    f.as_str().map(|s| s.to_owned())
}

/// Relies on `serde_json::Value::as_object_mut` and `Map::insert`: sets
/// `registry-mirrors` to the single-element array holding `url`.  This
/// succeeds exactly when the root is an object, and fails without mutating
/// anything; on success every other top-level field keeps its value.
#[verifier::external_body]
fn json_set_mirror(v: &mut serde_json::Value, url: &str) -> (r: Result<(), ()>)
    ensures
        r is Ok <==> json_is_object(*old(v)),
        r is Err ==> *final(v) == *old(v),
        r is Ok ==> {
            &&& json_is_object(*final(v))
            &&& json_mirrors(*final(v)) == Some(seq![url@])
            &&& json_first_mirror(*final(v)) == Some(url@)
            &&& forall|k: Seq<char>|
                k != "registry-mirrors"@ ==> #[trigger] json_field_text(*final(v), k)
                    == json_field_text(*old(v), k)
        },
{
    let root = match v.as_object_mut() {
        Some(o) => o,
        None => return Err(()),
    };
    root.insert(
        "registry-mirrors".to_owned(),
        serde_json::Value::Array(vec![serde_json::Value::String(url.to_owned())]),
    );
    Ok(())
}

/// Relies on `serde_json::to_string_pretty` together with
/// `serde_json::from_str`: serializing a `Value` never fails — object keys
/// are strings and numbers are finite — and the document parses back to
/// the serialized value, field for field.
#[verifier::external_body]
fn json_serialize(v: &serde_json::Value) -> (r: Result<String, String>)
    ensures
        r is Ok,
        r matches Ok(out) ==> {
            &&& json_parses(out@)
            &&& json_doc_is_object(out@) == json_is_object(*v)
            &&& json_doc_first_mirror(out@) == json_first_mirror(*v)
            &&& json_doc_mirrors(out@) == json_mirrors(*v)
            &&& forall|k: Seq<char>|
                #[trigger] json_doc_field_text(out@, k) == json_field_text(*v, k)
        },
{
    serde_json::to_string_pretty(v).map_err(|e| e.to_string())
}

/// Manages the docker registry-mirror configuration.
#[derive(Debug)]
pub struct DockerManager;

impl DockerManager {
    pub fn new() -> (r: Self) {
        DockerManager
    }
}

/// The mirror URL the docker configuration text presently selects: the
/// first element of its `registry-mirrors` array.  A malformed document
/// reads as "none configured".
pub open spec fn docker_current_spec(c: Seq<char>) -> Option<Seq<char>> {
    if !json_parses(c) {
        None
    } else {
        json_doc_first_mirror(c)
    }
}

/// Whether rewriting `c` succeeds: the document parses and its root is an
/// object.
pub open spec fn docker_set_ok(c: Seq<char>) -> bool {
    json_parses(c) && json_doc_is_object(c)
}

/// What a successful docker rewrite of `c` for `url` guarantees of the new
/// document text `out`: an object whose `registry-mirrors` holds exactly
/// the one-element array `[url]`, with every other top-level field
/// unchanged.
pub open spec fn docker_set_post(c: Seq<char>, url: Seq<char>, out: Seq<char>) -> bool {
    &&& json_parses(out)
    &&& json_doc_is_object(out)
    &&& json_doc_mirrors(out) == Some(seq![url])
    &&& json_doc_first_mirror(out) == Some(url)
    &&& forall|k: Seq<char>|
        k != "registry-mirrors"@ ==> #[trigger] json_doc_field_text(out, k)
            == json_doc_field_text(c, k)
}

impl SourceManager for DockerManager {
    open spec fn spec_name(&self) -> Seq<char> {
        "docker"@
    }

    open spec fn spec_requires_sudo(&self) -> bool {
        true
    }

    open spec fn spec_config_path(&self) -> Seq<char> {
        "/etc/docker/daemon.json"@
    }

    open spec fn spec_current(&self, content: Seq<char>) -> Option<Seq<char>> {
        docker_current_spec(content)
    }

    open spec fn spec_current_errs(&self, content: Seq<char>) -> bool {
        false
    }

    open spec fn spec_set_post(&self, content: Seq<char>, url: Seq<char>, out: Seq<char>) -> bool {
        docker_set_post(content, url, out)
    }

    open spec fn spec_set_errs(&self, content: Seq<char>) -> bool {
        !docker_set_ok(content)
    }

    /// Malformed content is the parse error; a non-object document is the
    /// structure error.
    open spec fn spec_set_err(&self, content: Seq<char>, e: MirrorError) -> bool {
        if !json_parses(content) {
            e is Json
        } else {
            e matches MirrorError::Custom(s) && s@ == "Invalid daemon.json structure"@
        }
    }

    open spec fn spec_restore_ok(&self, entries: Seq<Seq<char>>, action: RestoreAction) -> bool {
        backup::file_restore_ok(self.spec_config_path(), entries, action)
    }

    open spec fn spec_restore_errs(&self, entries: Seq<Seq<char>>) -> bool {
        backup::file_restore_errs(self.spec_config_path(), entries)
    }

    fn name(&self) -> (r: String) {
        String::from_str("docker")
    }

    fn requires_sudo(&self) -> (r: bool) {
        true
    }

    fn config_path(&self) -> (r: String) {
        String::from_str("/etc/docker/daemon.json")
    }

    fn current_url(&self, content: &str) -> (r: Result<Option<String>, MirrorError>) {
        match json_parse(content) {
            Ok(v) => {
                match json_get_first_mirror(&v) {
                    Some(u) => Ok(Some(u)),
                    None => Ok(None),
                }
            },
            Err(_) => Ok(None),
        }
    }

    fn set_source(&self, content: &str, mirror: &Mirror) -> (r: Result<String, MirrorError>) {
        let mut v = match json_parse(content) {
            Ok(v) => v,
            Err(m) => {
                return Err(MirrorError::Json(m));
            },
        };
        match json_set_mirror(&mut v, mirror.url.as_str()) {
            Ok(()) => {},
            Err(()) => {
                return Err(
                    MirrorError::Custom(String::from_str("Invalid daemon.json structure")),
                );
            },
        }
        match json_serialize(&v) {
            Ok(out) => Ok(out),
            Err(_) => {
                proof {
                    assert(false);
                }
                Err(MirrorError::Custom(String::from_str("Invalid daemon.json structure")))
            },
        }
    }

    fn restore(&self, entries: &Vec<String>) -> (r: Result<RestoreAction, MirrorError>) {
        let path = self.config_path();
        backup::restore_from_entries(path.as_str(), entries)
    }
}

} // verus!
