//! The npm adapter: a key/value file whose `registry` assignment selects
//! the package registry.

use vstd::prelude::*;

use crate::backup;
use crate::error::MirrorError;
use crate::sources::kv;
use crate::text::{append_chars, chars_of, join_lines, join_lines_exec, lemma_lines_spec_len,
    lines_spec, split_lines, string_from_chars};
use crate::traits::{RestoreAction, SourceManager};
use crate::types::Mirror;

verus! {

/// Manages the npm registry configuration.
#[derive(Debug)]
pub struct NpmManager {
    /// An explicit configuration file path.  `None` leaves resolving the
    /// platform location to the caller; `config_path` then names the
    /// conventional file.
    pub custom_path: Option<String>,
}

impl NpmManager {
    pub fn new() -> (r: Self)
        ensures
            r.custom_path is None,
    {
        NpmManager { custom_path: None }
    }

    pub fn with_path(path: String) -> (r: Self)
        ensures
            r.custom_path == Some(path),
    {
        NpmManager { custom_path: Some(path) }
    }
}

/// The assignment line a rewrite writes.
pub open spec fn npm_new_line(url: Seq<char>) -> Seq<char> {
    "registry="@ + url
}

/// The URL the npm configuration text presently selects: the value of the
/// first line assigning to `registry`.
pub open spec fn npm_current_spec(c: Seq<char>) -> Option<Seq<char>> {
    kv::first_value(lines_spec(c), "registry"@)
}

/// The npm configuration text rewritten to select `url`: an existing
/// `registry` assignment is replaced in place; otherwise the assignment is
/// appended as a new line.
pub open spec fn npm_rewrite_spec(c: Seq<char>, url: Seq<char>) -> Seq<char> {
    let ls = lines_spec(c);
    let nl = npm_new_line(url);
    if kv::has_assign(ls, "registry"@) {
        join_lines(kv::replace_first_assign(ls, "registry"@, nl))
    } else {
        c + (if c.len() == 0 || c.last() == '\n' {
            Seq::<char>::empty()
        } else {
            seq!['\n']
        }) + nl + seq!['\n']
    }
}

impl SourceManager for NpmManager {
    open spec fn spec_name(&self) -> Seq<char> {
        "npm"@
    }

    open spec fn spec_requires_sudo(&self) -> bool {
        false
    }

    open spec fn spec_config_path(&self) -> Seq<char> {
        match self.custom_path {
            Some(p) => p@,
            None => ".npmrc"@,
        }
    }

    open spec fn spec_current(&self, content: Seq<char>) -> Option<Seq<char>> {
        npm_current_spec(content)
    }

    open spec fn spec_current_errs(&self, content: Seq<char>) -> bool {
        false
    }

    open spec fn spec_set_post(&self, content: Seq<char>, url: Seq<char>, out: Seq<char>) -> bool {
        out == npm_rewrite_spec(content, url)
    }

    open spec fn spec_set_errs(&self, content: Seq<char>) -> bool {
        false
    }

    open spec fn spec_set_err(&self, content: Seq<char>, e: MirrorError) -> bool {
        false
    }

    open spec fn spec_restore_ok(&self, entries: Seq<Seq<char>>, action: RestoreAction) -> bool {
        backup::file_restore_ok(self.spec_config_path(), entries, action)
    }

    open spec fn spec_restore_errs(&self, entries: Seq<Seq<char>>) -> bool {
        backup::file_restore_errs(self.spec_config_path(), entries)
    }

    fn name(&self) -> (r: String) {
        String::from_str("npm")
    }

    fn requires_sudo(&self) -> (r: bool) {
        false
    }

    fn config_path(&self) -> (r: String) {
        match &self.custom_path {
            Some(p) => p.clone(),
            None => String::from_str(".npmrc"),
        }
    }

    fn current_url(&self, content: &str) -> (r: Result<Option<String>, MirrorError>) {
        let cv = chars_of(content);
        let lines = split_lines(&cv);
        let key = chars_of("registry");
        match kv::first_value_exec(&lines, &key) {
            Some(v) => Ok(Some(string_from_chars(&v))),
            None => Ok(None),
        }
    }

    fn set_source(&self, content: &str, mirror: &Mirror) -> (r: Result<String, MirrorError>) {
        Ok(npm_rewrite(content, mirror.url.as_str()))
    }

    fn restore(&self, entries: &Vec<String>) -> (r: Result<RestoreAction, MirrorError>) {
        let path = self.config_path();
        backup::restore_from_entries(path.as_str(), entries)
    }
}

/// The npm configuration text rewritten to select `url`.
pub fn npm_rewrite(content: &str, url: &str) -> (r: String)
    ensures
        r@ == npm_rewrite_spec(content@, url@),
{
    let mut cv = chars_of(content);
    let lines = split_lines(&cv);
    let ghost lv = crate::text::line_views(lines@);
    let key = chars_of("registry");
    let mut nl = chars_of("registry=");
    let uv = chars_of(url);
    append_chars(&mut nl, &uv);
    proof {
        lemma_lines_spec_len(content@);
    }
    match kv::find_assign_index(&lines, &key) {
        Some(f) => {
            proof {
                assert(lv[f as int] == lines@[f as int]@);
                assert(kv::has_assign(lv, key@));
                kv::lemma_replace_first_at(lv, key@, nl@, f as int);
            }
            let out = kv::replace_first_assign_exec(lines, &key, nl);
            proof {
                assert(crate::text::line_views(out@).len() == lv.len());
            }
            let j = join_lines_exec(&out);
            string_from_chars(&j)
        },
        None => {
            let has_content = cv.len() > 0;
            if has_content && cv[cv.len() - 1] != '\n' {
                cv.push('\n');
            }
            append_chars(&mut cv, &nl);
            cv.push('\n');
            proof {
                assert(cv@ =~= content@ + (if content@.len() == 0 || content@.last() == '\n' {
                    Seq::<char>::empty()
                } else {
                    seq!['\n']
                }) + npm_new_line(url@) + seq!['\n']);
            }
            string_from_chars(&cv)
        },
    }
}


/// The written assignment line assigns exactly `url` to `registry` and
/// holds no newline.
proof fn lemma_npm_new_line_assigns(url: Seq<char>)
    requires
        url.len() > 0,
        forall|i: int| 0 <= i < url.len() ==> !crate::text::is_ws_char(url[i]),
    ensures
        kv::is_assign_line(npm_new_line(url), "registry"@),
        kv::assign_value(npm_new_line(url), "registry"@) == Some(url),
        !npm_new_line(url).contains('\n'),
{
    reveal_strlit("registry=");
    reveal_strlit("registry");
    let nl = npm_new_line(url);
    let key = "registry"@;
    let lit = "registry="@;
    assert(lit.len() == 9);
    assert(key.len() == 8);
    assert(nl.subrange(0, 8) =~= key);
    let rest = nl.skip(8);
    assert(rest[0] == lit[8]);
    assert(rest[0] == '=');
    kv::lemma_skip_blanks_at(rest, 0);
    assert(rest.skip(0) =~= rest);
    assert(kv::is_assign_line(nl, key));
    let v = kv::skip_blanks(rest).skip(1);
    assert(v =~= nl.skip(9));
    assert forall|i: int| 0 <= i < v.len() implies v[i] == url[i] by {
        assert(nl.skip(9)[i] == nl[i + 9]);
    }
    assert(v =~= url);
    crate::text::lemma_trim_noop(url);
    assert forall|i: int| 0 <= i < nl.len() implies nl[i] != '\n' by {
        if i >= 9 {
            assert(nl[i] == url[i - 9]);
        }
    }
}

/// No line shorter than the key can assign to it; in particular the empty
/// line does not.
proof fn lemma_short_line_no_assign_npm(line: Seq<char>)
    requires
        line.len() < 8,
    ensures
        !kv::is_assign_line(line, "registry"@),
{
    reveal_strlit("registry");
}

/// Writing a mirror into a configuration with no `registry` assignment
/// appends exactly one; writing into one that already assigns it replaces
/// the first assignment line in place and leaves every other line
/// unchanged.  Either way, reading the rewritten configuration yields
/// exactly the written URL.  URLs carry no whitespace; one containing a
/// newline or a blank would not survive the read-back trim.
pub proof fn lemma_npm_single_key(c: Seq<char>, url: Seq<char>)
    requires
        url.len() > 0,
        forall|i: int| 0 <= i < url.len() ==> !crate::text::is_ws_char(url[i]),
    ensures
        ({
            let ls = lines_spec(c);
            let nl = npm_new_line(url);
            let out_ls = lines_spec(npm_rewrite_spec(c, url));
            &&& npm_current_spec(npm_rewrite_spec(c, url)) == Some(url)
            &&& kv::count_assign(out_ls, "registry"@) == (if kv::has_assign(ls, "registry"@) {
                kv::count_assign(ls, "registry"@)
            } else {
                1int
            })
            &&& kv::has_assign(ls, "registry"@) ==> exists|f: int|
                #![trigger ls.update(f, nl)]
                {
                    &&& 0 <= f < ls.len()
                    &&& kv::is_assign_line(ls[f], "registry"@)
                    &&& (forall|j: int| 0 <= j < f ==> !kv::is_assign_line(ls[j], "registry"@))
                    &&& out_ls == ls.update(f, nl)
                }
            &&& !kv::has_assign(ls, "registry"@) ==> out_ls == (if c.len() == 0 {
                Seq::<Seq<char>>::empty()
            } else if c.last() == '\n' {
                ls.drop_last()
            } else {
                ls
            }) + seq![nl, Seq::<char>::empty()]
        }),
{
    let ls = lines_spec(c);
    let key = "registry"@;
    let nl = npm_new_line(url);
    let out = npm_rewrite_spec(c, url);
    lemma_npm_new_line_assigns(url);
    crate::text::lemma_lines_spec_len(c);
    crate::text::lemma_lines_spec_no_newline(c);
    lemma_short_line_no_assign_npm(Seq::<char>::empty());
    if kv::has_assign(ls, key) {
        let f = kv::first_assign_index(ls, key);
        kv::lemma_replace_first_at(ls, key, nl, f);
        let replaced = kv::replace_first_assign(ls, key, nl);
        assert(replaced =~= ls.update(f, nl));
        assert forall|i: int| 0 <= i < replaced.len() implies !#[trigger] replaced[i].contains(
            '\n',
        ) by {
            if i != f {
                assert(replaced[i] == ls[i]);
            }
        }
        crate::text::lemma_lines_of_join(replaced);
        assert(lines_spec(out) == replaced);
        kv::lemma_first_value_at(replaced, key, f);
        assert(npm_current_spec(out) == Some(url));
        assert(ls =~= ls.take(f) + seq![ls[f]] + ls.skip(f + 1));
        kv::lemma_count_assign_append(ls.take(f) + seq![ls[f]], ls.skip(f + 1), key);
        kv::lemma_count_assign_append(ls.take(f), seq![ls[f]], key);
        kv::lemma_count_assign_append(ls.take(f) + seq![nl], ls.skip(f + 1), key);
        kv::lemma_count_assign_append(ls.take(f), seq![nl], key);
        assert(replaced =~= (ls.take(f) + seq![nl]) + ls.skip(f + 1));
        kv::lemma_count_singleton(ls[f], key);
        kv::lemma_count_singleton(nl, key);
    } else {
        kv::lemma_count_assign_zero(ls, key);
        crate::text::lemma_lines_of_single(nl);
        crate::text::lemma_lines_append(nl, Seq::<char>::empty());
        assert(nl + seq!['\n'] =~= nl + seq!['\n'] + Seq::<char>::empty());
        assert(lines_spec(nl + seq!['\n']) =~= seq![nl, Seq::<char>::empty()]);
        let tail = seq![nl, Seq::<char>::empty()];
        let prefix: Seq<Seq<char>>;
        if c.len() == 0 {
            assert(out =~= nl + seq!['\n']);
            prefix = Seq::<Seq<char>>::empty();
            assert(lines_spec(out) =~= prefix + tail);
        } else if c.last() == '\n' {
            let cc = c.drop_last();
            assert(c =~= cc + seq!['\n'] + Seq::<char>::empty());
            crate::text::lemma_lines_append(cc, Seq::<char>::empty());
            assert(ls == lines_spec(cc) + seq![Seq::<char>::empty()]);
            assert(ls.drop_last() =~= lines_spec(cc));
            assert(out =~= cc + seq!['\n'] + (nl + seq!['\n']));
            crate::text::lemma_lines_append(cc, nl + seq!['\n']);
            prefix = lines_spec(cc);
            assert(lines_spec(out) =~= prefix + tail);
        } else {
            assert(out =~= c + seq!['\n'] + (nl + seq!['\n']));
            crate::text::lemma_lines_append(c, nl + seq!['\n']);
            prefix = ls;
            assert(lines_spec(out) =~= prefix + tail);
        }
        let out_ls = lines_spec(out);
        assert(out_ls =~= prefix + tail);
        let fidx = prefix.len() as int;
        assert(out_ls[fidx] == nl);
        assert forall|j: int| 0 <= j < fidx implies !kv::is_assign_line(
            #[trigger] out_ls[j],
            key,
        ) by {
            if c.len() > 0 && c.last() == '\n' {
                assert(out_ls[j] == ls.drop_last()[j]);
                assert(ls.drop_last()[j] == ls[j]);
            } else {
                assert(out_ls[j] == ls[j]);
            }
        }
        kv::lemma_first_value_at(out_ls, key, fidx);
        assert(npm_current_spec(out) == Some(url));
        kv::lemma_count_assign_append(prefix, tail, key);
        kv::lemma_count_singleton(Seq::<char>::empty(), key);
        assert(tail.skip(1) =~= seq![Seq::<char>::empty()]);
        assert(kv::count_assign(tail, key) == 1);
        if c.len() > 0 && c.last() == '\n' {
            assert(ls =~= prefix + seq![Seq::<char>::empty()]);
            kv::lemma_count_assign_append(prefix, seq![Seq::<char>::empty()], key);
            kv::lemma_count_assign_nonneg(prefix, key);
            kv::lemma_count_assign_nonneg(seq![Seq::<char>::empty()], key);
        } else if c.len() > 0 {
        } else {
            assert(kv::count_assign(prefix, key) == 0);
        }
    }
}

} // verus!
