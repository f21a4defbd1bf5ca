//! The go adapter: the module proxy is managed through the `go env`
//! command channel rather than a file the crate edits itself.
//!
//! The medium content handed to [`SourceManager::current_url`] is the
//! standard output of the query invocation (`go env GOPROXY`), or the empty
//! string when the command failed or go is not installed.  What
//! [`SourceManager::set_source`] returns is the new `GOPROXY` value for the
//! write invocation (`go env -w GOPROXY=<value>`); restoring asks the
//! caller to unset the variable (`go env -u GOPROXY`).

use vstd::prelude::*;

use crate::error::MirrorError;
use crate::text::{chars_of, string_from_chars, trim_chars, trim_spec};
use crate::traits::{RestoreAction, SourceManager};
use crate::types::Mirror;

verus! {

/// Manages the go module proxy setting.
#[derive(Debug)]
pub struct GoManager;

impl GoManager {
    pub fn new() -> (r: Self) {
        GoManager
    }
}

/// The leading comma-separated token of `s`.
pub open spec fn first_comma_token(s: Seq<char>) -> Seq<char>
    decreases s.len(),
{
    if s.len() == 0 {
        s
    } else if s[0] == ',' {
        Seq::<char>::empty()
    } else {
        seq![s[0]] + first_comma_token(s.skip(1))
    }
}

/// The proxy URL the query output `c` reports: the first comma-separated
/// token of the trimmed output — `GOPROXY` usually reads
/// `https://proxy.golang.org,direct` — or nothing when the output is blank.
pub open spec fn go_current_spec(c: Seq<char>) -> Option<Seq<char>> {
    let t = trim_spec(c);
    if t.len() == 0 {
        None
    } else {
        Some(first_comma_token(t))
    }
}

/// The `GOPROXY` value written for `url`: the URL with a literal `,direct`
/// fallback suffix, so private-module resolution keeps working.
pub open spec fn go_value_spec(url: Seq<char>) -> Seq<char> {
    url + ",direct"@
}

proof fn lemma_first_comma_token_at(s: Seq<char>, k: int)
    requires
        0 <= k <= s.len(),
        forall|j: int| 0 <= j < k ==> s[j] != ',',
        k < s.len() ==> s[k] == ',',
    ensures
        first_comma_token(s) == s.take(k),
    decreases k,
{
    if k == 0 {
        assert(s.take(0) =~= Seq::<char>::empty());
        if s.len() > 0 {
            assert(first_comma_token(s) =~= s.take(0));
        } else {
            assert(s =~= s.take(0));
        }
    } else {
        assert(s[0] != ',');
        assert forall|j: int| 0 <= j < k - 1 implies s.skip(1)[j] != ',' by {
            assert(s.skip(1)[j] == s[j + 1]);
        }
        assert(k - 1 < s.skip(1).len() ==> s.skip(1)[k - 1] == s[k]);
        lemma_first_comma_token_at(s.skip(1), k - 1);
        assert(seq![s[0]] + s.skip(1).take(k - 1) =~= s.take(k));
    }
}

/// The leading comma-separated token of `v`.
pub fn first_comma_token_exec(v: &Vec<char>) -> (r: Vec<char>)
    ensures
        r@ == first_comma_token(v@),
{
    let mut k: usize = 0;
    while k < v.len() && v[k] != ','
        invariant
            k <= v@.len(),
            forall|j: int| 0 <= j < k ==> v@[j] != ',',
        decreases v@.len() - k,
    {
        k += 1;
    }
    proof {
        lemma_first_comma_token_at(v@, k as int);
    }
    let mut r: Vec<char> = Vec::new();
    let mut i: usize = 0;
    while i < k
        invariant
            i <= k <= v@.len(),
            r@ == v@.subrange(0, i as int),
        decreases k - i,
    {
        r.push(v[i]);
        proof {
            assert(v@.subrange(0, i + 1) =~= v@.subrange(0, i as int).push(v@[i as int]));
        }
        i += 1;
    }
    proof {
        assert(r@ =~= v@.take(k as int));
    }
    r
}

impl SourceManager for GoManager {
    open spec fn spec_name(&self) -> Seq<char> {
        "go"@
    }

    open spec fn spec_requires_sudo(&self) -> bool {
        false
    }

    open spec fn spec_config_path(&self) -> Seq<char> {
        "GO111MODULE/GOPROXY"@
    }

    open spec fn spec_current(&self, content: Seq<char>) -> Option<Seq<char>> {
        go_current_spec(content)
    }

    open spec fn spec_current_errs(&self, content: Seq<char>) -> bool {
        false
    }

    open spec fn spec_set_post(&self, content: Seq<char>, url: Seq<char>, out: Seq<char>) -> bool {
        out == go_value_spec(url)
    }

    open spec fn spec_set_errs(&self, content: Seq<char>) -> bool {
        false
    }

    open spec fn spec_set_err(&self, content: Seq<char>, e: MirrorError) -> bool {
        false
    }

    open spec fn spec_restore_ok(&self, entries: Seq<Seq<char>>, action: RestoreAction) -> bool {
        action is Unset
    }

    open spec fn spec_restore_errs(&self, entries: Seq<Seq<char>>) -> bool {
        false
    }

    fn name(&self) -> (r: String) {
        String::from_str("go")
    }

    fn requires_sudo(&self) -> (r: bool) {
        false
    }

    fn config_path(&self) -> (r: String) {
        String::from_str("GO111MODULE/GOPROXY")
    }

    fn current_url(&self, content: &str) -> (r: Result<Option<String>, MirrorError>) {
        let cv = chars_of(content);
        let t = trim_chars(&cv);
        if t.len() == 0 {
            Ok(None)
        } else {
            let tok = first_comma_token_exec(&t);
            Ok(Some(string_from_chars(&tok)))
        }
    }

    fn set_source(&self, content: &str, mirror: &Mirror) -> (r: Result<String, MirrorError>) {
        let mut v = mirror.url.clone();
        v.append(",direct");
        Ok(v)
    }

    fn restore(&self, entries: &Vec<String>) -> (r: Result<RestoreAction, MirrorError>) {
        Ok(RestoreAction::Unset)
    }
}

} // verus!
