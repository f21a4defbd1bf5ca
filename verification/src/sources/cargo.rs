//! The cargo adapter: a TOML file whose `source` tables redirect the
//! crates.io registry.
//!
//! Reading follows `source.crates-io.replace-with` to the named source
//! table and takes its `registry` field; a malformed file reads as "none
//! configured".  Writing parses the document — malformed content is a hard
//! error — upserts `source.crates-io.replace-with = "mirror"` and
//! `source.mirror.registry = <url>` into the tree, and re-serializes the
//! whole tree, leaving every other table and leaf in place.
//!
//! The TOML work itself is done by the `toml` crate behind the trusted
//! items below.  The model they share maps a key path (a sequence of table
//! keys) to what sits at its end: [`toml_str_at`] gives string leaves —
//! what the redirection keys hold — and [`toml_leaf_at`] gives every
//! non-table leaf by its canonical text, which is how preservation of
//! unrelated values of any type is stated.

use vstd::prelude::*;

use crate::backup;
use crate::error::MirrorError;
use crate::traits::{RestoreAction, SourceManager};
use crate::types::Mirror;

verus! {

#[verifier::external_type_specification]
#[verifier::external_body]
pub struct ExTomlValue(toml::Value);

/// Whether `s` parses as a TOML document.
pub uninterp spec fn toml_parses(s: Seq<char>) -> bool;

/// Whether `v` is a table at its root, as every parsed document is.
pub uninterp spec fn toml_is_table(v: toml::Value) -> bool;

/// The string leaf of `v` at the key path `path`, or `None` where the path
/// does not lead through tables to a string.
pub uninterp spec fn toml_str_at(v: toml::Value, path: Seq<Seq<char>>) -> Option<Seq<char>>;

/// The string leaf at `path` of the document text `s`, read as
/// [`toml_str_at`] of its parse.
pub uninterp spec fn toml_doc_str_at(s: Seq<char>, path: Seq<Seq<char>>) -> Option<Seq<char>>;

/// The canonical text of the non-table value of `v` at the key path
/// `path` — a string, integer, float, boolean, datetime or array — or
/// `None` where the path does not lead through tables to such a value.
pub uninterp spec fn toml_leaf_at(v: toml::Value, path: Seq<Seq<char>>) -> Option<Seq<char>>;

/// The non-table leaf at `path` of the document text `s`, read as
/// [`toml_leaf_at`] of its parse.
pub uninterp spec fn toml_doc_leaf_at(s: Seq<char>, path: Seq<Seq<char>>) -> Option<Seq<char>>;

/// Whether an upsert of the leaf `k1.k2.k3` would succeed on `v`: the root
/// is a table and the entries at `k1` and `k1.k2`, where present, are
/// tables.
pub uninterp spec fn toml_upsertable(
    v: toml::Value,
    k1: Seq<char>,
    k2: Seq<char>,
    k3: Seq<char>,
) -> bool;

/// [`toml_upsertable`] of the parse of the document text `s`.
pub uninterp spec fn toml_doc_upsertable(
    s: Seq<char>,
    k1: Seq<char>,
    k2: Seq<char>,
    k3: Seq<char>,
) -> bool;

/// `p` extends `q`: `q` is a prefix of `p`, equality included.
pub open spec fn path_extends(p: Seq<Seq<char>>, q: Seq<Seq<char>>) -> bool {
    q.len() <= p.len() && p.subrange(0, q.len() as int) == q
}

/// Relies on `toml::from_str`: parses the document into a generic value,
/// failing exactly on malformed TOML; a parsed document is table-rooted.
#[verifier::external_body]
fn toml_parse_strict(s: &str) -> (r: Result<toml::Value, String>)
    ensures
        r is Ok <==> toml_parses(s@),
        r matches Ok(v) ==> {
            &&& toml_is_table(v)
            &&& forall|p: Seq<Seq<char>>| #[trigger] toml_str_at(v, p) == toml_doc_str_at(s@, p)
            &&& forall|p: Seq<Seq<char>>| #[trigger] toml_leaf_at(v, p) == toml_doc_leaf_at(s@, p)
            &&& forall|a: Seq<char>, b: Seq<char>, c: Seq<char>|
                #[trigger] toml_upsertable(v, a, b, c) == toml_doc_upsertable(s@, a, b, c)
        },
{
    toml::from_str::<toml::Value>(s).map_err(|e| e.to_string())
}

/// Relies on `toml::Value::get` (a string index reaches table entries
/// only) and `Value::as_str`: reads the string leaf at a three-key path.
#[verifier::external_body]
fn toml_get_str(v: &toml::Value, k1: &str, k2: &str, k3: &str) -> (r: Option<String>)
    ensures
        match r {
            Some(s) => toml_str_at(*v, seq![k1@, k2@, k3@]) == Some(s@),
            None => toml_str_at(*v, seq![k1@, k2@, k3@]) is None,
        },
{
    let a = match v.get(k1) {
        Some(x) => x,
        None => return None,
    };
    let b = match a.get(k2) {
        Some(x) => x,
        None => return None,
    };
    let c = match b.get(k3) {
        Some(x) => x,
        None => return None,
    };
    c.as_str().map(|s| s.to_owned())
}

/// Relies on `toml::map::Map::entry`, `Entry::or_insert_with`,
/// `Value::as_table_mut` and `Map::insert`: creates the tables `k1` and
/// `k1.k2` as needed and sets key `k3` in the inner one to the string
/// `val`.  This succeeds exactly when the root and any existing entries at
/// `k1` and `k1.k2` are tables, and fails without mutating anything.  On
/// success only leaves at or under the written path change — the fresh
/// tables hold nothing else — and which upserts would succeed is the same
/// before and after.
#[verifier::external_body]
fn toml_upsert_str(v: &mut toml::Value, k1: &str, k2: &str, k3: &str, val: &str) -> (r: Result<
    (),
    (),
>)
    ensures
        r is Ok <==> toml_upsertable(*old(v), k1@, k2@, k3@),
        r is Err ==> *final(v) == *old(v),
        r is Ok ==> {
            &&& toml_str_at(*final(v), seq![k1@, k2@, k3@]) == Some(val@)
            &&& toml_is_table(*final(v))
            &&& forall|p: Seq<Seq<char>>|
                !path_extends(p, seq![k1@, k2@, k3@]) ==> #[trigger] toml_str_at(*final(v), p)
                    == toml_str_at(*old(v), p)
            &&& forall|p: Seq<Seq<char>>|
                !path_extends(p, seq![k1@, k2@, k3@]) ==> #[trigger] toml_leaf_at(*final(v), p)
                    == toml_leaf_at(*old(v), p)
            &&& forall|a: Seq<char>, b: Seq<char>, c: Seq<char>|
                #[trigger] toml_upsertable(*final(v), a, b, c) == toml_upsertable(
                    *old(v),
                    a,
                    b,
                    c,
                )
        },
{
    let empty = || toml::Value::Table(toml::map::Map::new());
    let root = v.as_table_mut().ok_or(())?;
    let t1 = root.entry(k1.to_owned()).or_insert_with(empty).as_table_mut().ok_or(())?;
    let t2 = t1.entry(k2.to_owned()).or_insert_with(empty).as_table_mut().ok_or(())?;
    t2.insert(k3.to_owned(), toml::Value::String(val.to_owned()));
    Ok(())
}

/// Relies on `toml::to_string_pretty` together with `toml::from_str`: a
/// table-rooted value always serializes — the serializer rejects only
/// non-table roots — and the document parses back to the serialized value,
/// leaf for leaf.
#[verifier::external_body]
fn toml_serialize(v: &toml::Value) -> (r: Result<String, String>)
    ensures
        toml_is_table(*v) ==> r is Ok,
        r matches Ok(out) ==> {
            &&& toml_parses(out@)
            &&& forall|p: Seq<Seq<char>>| #[trigger] toml_doc_str_at(out@, p) == toml_str_at(*v, p)
            &&& forall|p: Seq<Seq<char>>|
                #[trigger] toml_doc_leaf_at(out@, p) == toml_leaf_at(*v, p)
        },
{
    toml::to_string_pretty(v).map_err(|e| e.to_string())
}

/// Manages the cargo registry configuration.
#[derive(Debug)]
pub struct CargoManager {
    /// An explicit configuration file path.  `None` leaves resolving the
    /// platform location to the caller; `config_path` then names the
    /// conventional file.
    pub custom_path: Option<String>,
}

impl CargoManager {
    pub fn new() -> (r: Self)
        ensures
            r.custom_path is None,
    {
        CargoManager { custom_path: None }
    }

    pub fn with_path(path: String) -> (r: Self)
        ensures
            r.custom_path == Some(path),
    {
        CargoManager { custom_path: Some(path) }
    }
}

/// The path of the redirection key the rewrite owns.
pub open spec fn cargo_redirect_path() -> Seq<Seq<char>> {
    seq!["source"@, "crates-io"@, "replace-with"@]
}

/// The path of the registry key the rewrite owns.
pub open spec fn cargo_registry_path() -> Seq<Seq<char>> {
    seq!["source"@, "mirror"@, "registry"@]
}

/// The registry URL the cargo configuration text presently selects:
/// `source.crates-io.replace-with` names a source table whose `registry`
/// field holds the URL.  A malformed document reads as "none configured".
pub open spec fn cargo_current_spec(c: Seq<char>) -> Option<Seq<char>> {
    if !toml_parses(c) {
        None
    } else {
        match toml_doc_str_at(c, cargo_redirect_path()) {
            Some(alias) => toml_doc_str_at(c, seq!["source"@, alias, "registry"@]),
            None => None,
        }
    }
}

/// Whether rewriting `c` succeeds: the document parses, and both written
/// paths run only through entries that are tables or absent.
pub open spec fn cargo_set_ok(c: Seq<char>) -> bool {
    &&& toml_parses(c)
    &&& toml_doc_upsertable(c, "source"@, "crates-io"@, "replace-with"@)
    &&& toml_doc_upsertable(c, "source"@, "mirror"@, "registry"@)
}

/// What a successful cargo rewrite of `c` for `url` guarantees of the new
/// document text `out`: reading it back yields exactly `url`, the
/// redirection points at the `mirror` source table, and every leaf — of
/// any type — on a path not extending one of the two written paths is
/// unchanged.
pub open spec fn cargo_set_post(c: Seq<char>, url: Seq<char>, out: Seq<char>) -> bool {
    &&& toml_parses(out)
    &&& cargo_current_spec(out) == Some(url)
    &&& toml_doc_str_at(out, cargo_redirect_path()) == Some("mirror"@)
    &&& toml_doc_str_at(out, cargo_registry_path()) == Some(url)
    &&& forall|p: Seq<Seq<char>>|
        !path_extends(p, cargo_redirect_path()) && !path_extends(p, cargo_registry_path())
            ==> #[trigger] toml_doc_str_at(out, p) == toml_doc_str_at(c, p)
    &&& forall|p: Seq<Seq<char>>|
        !path_extends(p, cargo_redirect_path()) && !path_extends(p, cargo_registry_path())
            ==> #[trigger] toml_doc_leaf_at(out, p) == toml_doc_leaf_at(c, p)
}

impl SourceManager for CargoManager {
    open spec fn spec_name(&self) -> Seq<char> {
        "cargo"@
    }

    open spec fn spec_requires_sudo(&self) -> bool {
        false
    }

    open spec fn spec_config_path(&self) -> Seq<char> {
        match self.custom_path {
            Some(p) => p@,
            None => "config.toml"@,
        }
    }

    open spec fn spec_current(&self, content: Seq<char>) -> Option<Seq<char>> {
        cargo_current_spec(content)
    }

    open spec fn spec_current_errs(&self, content: Seq<char>) -> bool {
        false
    }

    open spec fn spec_set_post(&self, content: Seq<char>, url: Seq<char>, out: Seq<char>) -> bool {
        cargo_set_post(content, url, out)
    }

    open spec fn spec_set_errs(&self, content: Seq<char>) -> bool {
        !cargo_set_ok(content)
    }

    /// Malformed content is the parse error; a written path blocked by a
    /// non-table value is the structure error.
    open spec fn spec_set_err(&self, content: Seq<char>, e: MirrorError) -> bool {
        if !toml_parses(content) {
            e is TomlDe
        } else {
            e matches MirrorError::Custom(s) && s@ == "Invalid config.toml structure"@
        }
    }

    open spec fn spec_restore_ok(&self, entries: Seq<Seq<char>>, action: RestoreAction) -> bool {
        backup::file_restore_ok(self.spec_config_path(), entries, action)
    }

    open spec fn spec_restore_errs(&self, entries: Seq<Seq<char>>) -> bool {
        backup::file_restore_errs(self.spec_config_path(), entries)
    }

    fn name(&self) -> (r: String) {
        String::from_str("cargo")
    }

    fn requires_sudo(&self) -> (r: bool) {
        false
    }

    fn config_path(&self) -> (r: String) {
        match &self.custom_path {
            Some(p) => p.clone(),
            None => String::from_str("config.toml"),
        }
    }

    fn current_url(&self, content: &str) -> (r: Result<Option<String>, MirrorError>) {
        let v = match toml_parse_strict(content) {
            Ok(v) => v,
            Err(_) => {
                return Ok(None);
            },
        };
        match toml_get_str(&v, "source", "crates-io", "replace-with") {
            Some(alias) => {
                match toml_get_str(&v, "source", alias.as_str(), "registry") {
                    Some(u) => Ok(Some(u)),
                    None => Ok(None),
                }
            },
            None => Ok(None),
        }
    }

    fn set_source(&self, content: &str, mirror: &Mirror) -> (r: Result<String, MirrorError>) {
        let mut v = match toml_parse_strict(content) {
            Ok(v) => v,
            Err(m) => {
                return Err(MirrorError::TomlDe(m));
            },
        };
        let ghost v0 = v;
        match toml_upsert_str(&mut v, "source", "crates-io", "replace-with", "mirror") {
            Ok(()) => {},
            Err(()) => {
                return Err(
                    MirrorError::Custom(String::from_str("Invalid config.toml structure")),
                );
            },
        }
        let ghost v1 = v;
        match toml_upsert_str(&mut v, "source", "mirror", "registry", mirror.url.as_str()) {
            Ok(()) => {},
            Err(()) => {
                return Err(
                    MirrorError::Custom(String::from_str("Invalid config.toml structure")),
                );
            },
        }
        let ghost v2 = v;
        match toml_serialize(&v) {
            Ok(out) => {
                proof {
                    reveal_strlit("crates-io");
                    reveal_strlit("mirror");
                    assert("crates-io"@.len() != "mirror"@.len());
                    assert(cargo_redirect_path() != cargo_registry_path());
                    assert(!path_extends(cargo_redirect_path(), cargo_registry_path()));
                    assert(toml_str_at(v2, cargo_redirect_path()) == toml_str_at(
                        v1,
                        cargo_redirect_path(),
                    ));
                    assert(toml_doc_str_at(out@, cargo_redirect_path()) == Some("mirror"@));
                    assert(toml_doc_str_at(out@, cargo_registry_path()) == Some(mirror.url@));
                    assert(cargo_current_spec(out@) == Some(mirror.url@));
                    assert forall|p: Seq<Seq<char>>|
                        !path_extends(p, cargo_redirect_path()) && !path_extends(
                            p,
                            cargo_registry_path(),
                        ) implies #[trigger] toml_doc_str_at(out@, p) == toml_doc_str_at(
                        content@,
                        p,
                    ) by {
                        assert(toml_doc_str_at(out@, p) == toml_str_at(v2, p));
                        assert(toml_str_at(v2, p) == toml_str_at(v1, p));
                        assert(toml_str_at(v1, p) == toml_str_at(v0, p));
                    }
                    assert forall|p: Seq<Seq<char>>|
                        !path_extends(p, cargo_redirect_path()) && !path_extends(
                            p,
                            cargo_registry_path(),
                        ) implies #[trigger] toml_doc_leaf_at(out@, p) == toml_doc_leaf_at(
                        content@,
                        p,
                    ) by {
                        assert(toml_doc_leaf_at(out@, p) == toml_leaf_at(v2, p));
                        assert(toml_leaf_at(v2, p) == toml_leaf_at(v1, p));
                        assert(toml_leaf_at(v1, p) == toml_leaf_at(v0, p));
                    }
                }
                Ok(out)
            },
            Err(_) => {
                proof {
                    assert(false);
                }
                Err(MirrorError::Custom(String::from_str("Invalid config.toml structure")))
            },
        }
    }

    fn restore(&self, entries: &Vec<String>) -> (r: Result<RestoreAction, MirrorError>) {
        let path = self.config_path();
        backup::restore_from_entries(path.as_str(), entries)
    }
}

} // verus!
