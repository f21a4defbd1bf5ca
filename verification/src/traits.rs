//! The uniform capability contract every source adapter implements.

use vstd::prelude::*;

use crate::error::MirrorError;
use crate::types::Mirror;

verus! {

/// The views of a vector of strings.
pub open spec fn str_views(es: Seq<String>) -> Seq<Seq<char>> {
    Seq::new(es.len(), |i: int| es[i]@)
}

/// What a restore asks the surrounding process to do.
#[derive(Debug)]
pub enum RestoreAction {
    /// Copy the named sibling snapshot over the live configuration file.
    CopyBackup(String),
    /// Clear the managed setting back to its tool default.
    Unset,
    /// Show this text to the user; nothing is written.
    ShowText(String),
}

/// The uniform capability set of a source adapter.
///
/// An adapter translates between mirror URLs and one tool's configuration
/// medium — a text file, a structured file, a command channel or an
/// environment variable.  The medium's current text comes in as `content`
/// and the rewritten text goes out as a string; reading, writing, running
/// commands and resolving platform paths stay with the caller, as does the
/// candidate catalog.  A caller that applies a mirror snapshots the
/// pre-existing non-empty medium first (see [`crate::backup`]).
pub trait SourceManager: Sized {
    /// The stable lowercase tool name.
    spec fn spec_name(&self) -> Seq<char>;

    /// Whether changing this tool's configuration needs elevated privileges.
    spec fn spec_requires_sudo(&self) -> bool;

    /// The configuration location this adapter reads and writes: a file
    /// path or name, or a symbolic reference for adapters without a real
    /// file.
    spec fn spec_config_path(&self) -> Seq<char>;

    /// The mirror URL that medium content `content` presently configures.
    spec fn spec_current(&self, content: Seq<char>) -> Option<Seq<char>>;

    /// Whether reading from `content` fails instead of yielding an answer.
    spec fn spec_current_errs(&self, content: Seq<char>) -> bool;

    /// What a successful rewrite of `content` for `url` produces.
    spec fn spec_set_post(&self, content: Seq<char>, url: Seq<char>, out: Seq<char>) -> bool;

    /// Whether a rewrite of `content` fails instead of producing a result.
    spec fn spec_set_errs(&self, content: Seq<char>) -> bool;

    /// Which error a failed rewrite of `content` reports.
    spec fn spec_set_err(&self, content: Seq<char>, e: MirrorError) -> bool;

    /// What a successful restore decides, given the sibling directory
    /// entries of the configuration file.
    spec fn spec_restore_ok(&self, entries: Seq<Seq<char>>, action: RestoreAction) -> bool;

    /// Whether a restore fails for these sibling entries.
    spec fn spec_restore_errs(&self, entries: Seq<Seq<char>>) -> bool;

    fn name(&self) -> (r: String)
        ensures
            r@ == self.spec_name(),
    ;

    fn requires_sudo(&self) -> (r: bool)
        ensures
            r == self.spec_requires_sudo(),
    ;

    fn config_path(&self) -> (r: String)
        ensures
            r@ == self.spec_config_path(),
    ;

    /// Best-effort read of the presently configured mirror from the medium
    /// content.  `Ok(None)` means "none configured"; malformed content is
    /// tolerated on the read path and stands for "none configured" too.  A
    /// missing medium is the caller's case, as is any genuine I/O failure
    /// while obtaining the content.
    fn current_url(&self, content: &str) -> (r: Result<Option<String>, MirrorError>)
        ensures
            match r {
                Ok(u) => !self.spec_current_errs(content@) && match u {
                    Some(u) => self.spec_current(content@) == Some(u@),
                    None => self.spec_current(content@) is None,
                },
                Err(_) => self.spec_current_errs(content@),
            },
    ;

    /// The medium content rewritten so that it configures `mirror` — or,
    /// for an advisory adapter, the text to show instead.  The caller
    /// snapshots a pre-existing non-empty medium before writing the result.
    fn set_source(&self, content: &str, mirror: &Mirror) -> (r: Result<String, MirrorError>)
        requires
            mirror.wf(),
        ensures
            match r {
                Ok(out) => !self.spec_set_errs(content@) && self.spec_set_post(
                    content@,
                    mirror.url@,
                    out@,
                ),
                Err(e) => self.spec_set_errs(content@) && self.spec_set_err(content@, e),
            },
    ;

    /// The action that reverts to the most recent snapshot — or the
    /// documented unset/advisory action where no file-based backup applies.
    /// `entries` are the names in the configuration file's directory.
    fn restore(&self, entries: &Vec<String>) -> (r: Result<RestoreAction, MirrorError>)
        ensures
            match r {
                Ok(a) => !self.spec_restore_errs(str_views(entries@)) && self.spec_restore_ok(
                    str_views(entries@),
                    a,
                ),
                Err(e) => self.spec_restore_errs(str_views(entries@)) && e.spec_message()
                    == "No backup files found."@,
            },
    ;
}

} // verus!
