//! The pip adapter: an ini-like key/value file whose `index-url` assignment
//! in the `[global]` section selects the package index.

use vstd::prelude::*;

use crate::backup;
use crate::error::MirrorError;
use crate::sources::kv;
use crate::text::{append_chars, chars_of, join_lines, join_lines_exec, lemma_lines_spec_len,
    lines_spec, split_lines, string_from_chars};
use crate::traits::{RestoreAction, SourceManager};
use crate::types::Mirror;

verus! {

/// Manages the pip package index configuration.
#[derive(Debug)]
pub struct PipManager {
    /// An explicit configuration file path.  `None` leaves resolving the
    /// platform location to the caller; `config_path` then names the
    /// conventional file.
    pub custom_path: Option<String>,
}

impl PipManager {
    pub fn new() -> (r: Self)
        ensures
            r.custom_path is None,
    {
        PipManager { custom_path: None }
    }

    pub fn with_path(path: String) -> (r: Self)
        ensures
            r.custom_path == Some(path),
    {
        PipManager { custom_path: Some(path) }
    }
}

/// The assignment line a rewrite writes.
pub open spec fn pip_new_line(url: Seq<char>) -> Seq<char> {
    "index-url = "@ + url
}

/// The URL the pip configuration text presently selects: the value of the
/// first line assigning to `index-url`.
pub open spec fn pip_current_spec(c: Seq<char>) -> Option<Seq<char>> {
    kv::first_value(lines_spec(c), "index-url"@)
}

/// The pip configuration text rewritten to select `url`: an existing
/// `index-url` assignment is replaced in place; otherwise the assignment is
/// injected right after an existing `[global]` line; otherwise a fresh
/// `[global]` section is appended.
pub open spec fn pip_rewrite_spec(c: Seq<char>, url: Seq<char>) -> Seq<char> {
    let ls = lines_spec(c);
    let nl = pip_new_line(url);
    if kv::has_assign(ls, "index-url"@) {
        join_lines(kv::replace_first_assign(ls, "index-url"@, nl))
    } else if kv::has_marker(ls, "[global]"@) {
        join_lines(kv::insert_after_first(ls, "[global]"@, nl))
    } else {
        c + (if c.len() == 0 {
            Seq::<char>::empty()
        } else {
            seq!['\n']
        }) + "[global]"@ + seq!['\n'] + nl + seq!['\n']
    }
}

impl SourceManager for PipManager {
    open spec fn spec_name(&self) -> Seq<char> {
        "pip"@
    }

    open spec fn spec_requires_sudo(&self) -> bool {
        false
    }

    open spec fn spec_config_path(&self) -> Seq<char> {
        match self.custom_path {
            Some(p) => p@,
            None => "pip.conf"@,
        }
    }

    open spec fn spec_current(&self, content: Seq<char>) -> Option<Seq<char>> {
        pip_current_spec(content)
    }

    open spec fn spec_current_errs(&self, content: Seq<char>) -> bool {
        false
    }

    open spec fn spec_set_post(&self, content: Seq<char>, url: Seq<char>, out: Seq<char>) -> bool {
        out == pip_rewrite_spec(content, url)
    }

    open spec fn spec_set_errs(&self, content: Seq<char>) -> bool {
        false
    }

    open spec fn spec_set_err(&self, content: Seq<char>, e: MirrorError) -> bool {
        false
    }

    open spec fn spec_restore_ok(&self, entries: Seq<Seq<char>>, action: RestoreAction) -> bool {
        backup::file_restore_ok(self.spec_config_path(), entries, action)
    }

    open spec fn spec_restore_errs(&self, entries: Seq<Seq<char>>) -> bool {
        backup::file_restore_errs(self.spec_config_path(), entries)
    }

    fn name(&self) -> (r: String) {
        String::from_str("pip")
    }

    fn requires_sudo(&self) -> (r: bool) {
        false
    }

    fn config_path(&self) -> (r: String) {
        match &self.custom_path {
            Some(p) => p.clone(),
            None => String::from_str("pip.conf"),
        }
    }

    fn current_url(&self, content: &str) -> (r: Result<Option<String>, MirrorError>) {
        let cv = chars_of(content);
        let lines = split_lines(&cv);
        let key = chars_of("index-url");
        match kv::first_value_exec(&lines, &key) {
            Some(v) => Ok(Some(string_from_chars(&v))),
            None => Ok(None),
        }
    }

    fn set_source(&self, content: &str, mirror: &Mirror) -> (r: Result<String, MirrorError>) {
        Ok(pip_rewrite(content, mirror.url.as_str()))
    }

    fn restore(&self, entries: &Vec<String>) -> (r: Result<RestoreAction, MirrorError>) {
        let path = self.config_path();
        backup::restore_from_entries(path.as_str(), entries)
    }
}

/// The pip configuration text rewritten to select `url`.
pub fn pip_rewrite(content: &str, url: &str) -> (r: String)
    ensures
        r@ == pip_rewrite_spec(content@, url@),
{
    let mut cv = chars_of(content);
    let lines = split_lines(&cv);
    let ghost lv = crate::text::line_views(lines@);
    let key = chars_of("index-url");
    let mut nl = chars_of("index-url = ");
    let uv = chars_of(url);
    append_chars(&mut nl, &uv);
    proof {
        lemma_lines_spec_len(content@);
    }
    match kv::find_assign_index(&lines, &key) {
        Some(f) => {
            proof {
                assert(lv[f as int] == lines@[f as int]@);
                assert(kv::has_assign(lv, key@));
                kv::lemma_replace_first_at(lv, key@, nl@, f as int);
            }
            let out = kv::replace_first_assign_exec(lines, &key, nl);
            proof {
                assert(crate::text::line_views(out@).len() == lv.len());
            }
            let j = join_lines_exec(&out);
            string_from_chars(&j)
        },
        None => {
            let marker = chars_of("[global]");
            match kv::find_marker_index(&lines, &marker) {
                Some(f) => {
                    proof {
                        assert(lv[f as int] == lines@[f as int]@);
                        assert(kv::has_marker(lv, marker@));
                        kv::lemma_insert_after_at(lv, marker@, nl@, f as int);
                    }
                    let out = kv::insert_after_first_exec(lines, &marker, nl);
                    proof {
                        assert(crate::text::line_views(out@).len() == lv.len() + 1);
                    }
                    let j = join_lines_exec(&out);
                    string_from_chars(&j)
                },
                None => {
                    if cv.len() > 0 {
                        cv.push('\n');
                    }
                    append_chars(&mut cv, &marker);
                    cv.push('\n');
                    append_chars(&mut cv, &nl);
                    cv.push('\n');
                    proof {
                        assert(cv@ =~= content@ + (if content@.len() == 0 {
                            Seq::<char>::empty()
                        } else {
                            seq!['\n']
                        }) + "[global]"@ + seq!['\n'] + pip_new_line(url@) + seq!['\n']);
                    }
                    string_from_chars(&cv)
                },
            }
        },
    }
}


/// The written assignment line assigns exactly `url` to `index-url` and
/// holds no newline.
proof fn lemma_pip_new_line_assigns(url: Seq<char>)
    requires
        url.len() > 0,
        forall|i: int| 0 <= i < url.len() ==> !crate::text::is_ws_char(url[i]),
    ensures
        kv::is_assign_line(pip_new_line(url), "index-url"@),
        kv::assign_value(pip_new_line(url), "index-url"@) == Some(url),
        !pip_new_line(url).contains('\n'),
{
    reveal_strlit("index-url = ");
    reveal_strlit("index-url");
    let nl = pip_new_line(url);
    let key = "index-url"@;
    let lit = "index-url = "@;
    assert(lit.len() == 12);
    assert(key.len() == 9);
    assert(nl.subrange(0, 9) =~= key);
    let rest = nl.skip(9);
    assert(rest[0] == lit[9] && rest[1] == lit[10]);
    assert(rest[0] == ' ' && rest[1] == '=');
    kv::lemma_skip_blanks_at(rest, 1);
    assert(kv::skip_blanks(rest) =~= nl.skip(10));
    assert(nl.skip(10)[0] == '=');
    assert(kv::is_assign_line(nl, key));
    assert(kv::skip_blanks(rest).skip(1) =~= nl.skip(11));
    let v = nl.skip(11);
    assert(v.len() == 1 + url.len());
    assert(v[0] == lit[11] && v[0] == ' ');
    assert forall|i: int| 0 <= i < v.len() implies v[i] == (seq![' '] + url)[i] by {
        if i > 0 {
            assert(v[i] == url[i - 1]);
        }
    }
    assert(v =~= seq![' '] + url);
    assert(v[1] == url[0] && !crate::text::is_ws_char(v[1]));
    crate::text::lemma_trim_start_skip(v, 1);
    assert(crate::text::trim_start_spec(v) =~= url);
    crate::text::lemma_trim_end_take(url, url.len() as int);
    assert(url.take(url.len() as int) =~= url);
    assert(crate::text::trim_spec(v) == url);
    assert forall|i: int| 0 <= i < nl.len() implies nl[i] != '\n' by {
        if i >= 12 {
            assert(nl[i] == url[i - 12]);
        }
    }
}

/// No line shorter than the key can assign to it; in particular the
/// `[global]` marker and the empty line do not.
proof fn lemma_short_line_no_assign(line: Seq<char>)
    requires
        line.len() < 9,
    ensures
        !kv::is_assign_line(line, "index-url"@),
{
    reveal_strlit("index-url");
}

/// Writing a mirror into a configuration with no `index-url` assignment
/// creates exactly one; writing into one that already assigns it replaces
/// the first assignment line in place and leaves every other line
/// unchanged.  Either way, reading the rewritten configuration yields
/// exactly the written URL.  URLs carry no whitespace; one containing a
/// newline or a blank would not survive the read-back trim.
pub proof fn lemma_pip_single_key(c: Seq<char>, url: Seq<char>)
    requires
        url.len() > 0,
        forall|i: int| 0 <= i < url.len() ==> !crate::text::is_ws_char(url[i]),
    ensures
        ({
            let ls = lines_spec(c);
            let nl = pip_new_line(url);
            let out_ls = lines_spec(pip_rewrite_spec(c, url));
            &&& pip_current_spec(pip_rewrite_spec(c, url)) == Some(url)
            &&& kv::count_assign(out_ls, "index-url"@) == (if kv::has_assign(ls, "index-url"@) {
                kv::count_assign(ls, "index-url"@)
            } else {
                1int
            })
            &&& kv::has_assign(ls, "index-url"@) ==> exists|f: int|
                #![trigger ls.update(f, nl)]
                {
                    &&& 0 <= f < ls.len()
                    &&& kv::is_assign_line(ls[f], "index-url"@)
                    &&& (forall|j: int| 0 <= j < f ==> !kv::is_assign_line(ls[j], "index-url"@))
                    &&& out_ls == ls.update(f, nl)
                }
            &&& !kv::has_assign(ls, "index-url"@) && kv::has_marker(ls, "[global]"@)
                ==> exists|f: int|
                #![trigger ls.skip(f + 1)]
                {
                    &&& 0 <= f < ls.len()
                    &&& ls[f] == "[global]"@
                    &&& (forall|j: int| 0 <= j < f ==> ls[j] != "[global]"@)
                    &&& out_ls == ls.take(f + 1) + seq![nl] + ls.skip(f + 1)
                }
            &&& !kv::has_assign(ls, "index-url"@) && !kv::has_marker(ls, "[global]"@) ==> out_ls
                == (if c.len() == 0 {
                Seq::<Seq<char>>::empty()
            } else {
                ls
            }) + seq!["[global]"@, nl, Seq::<char>::empty()]
        }),
{
    let ls = lines_spec(c);
    let key = "index-url"@;
    let nl = pip_new_line(url);
    let out = pip_rewrite_spec(c, url);
    lemma_pip_new_line_assigns(url);
    crate::text::lemma_lines_spec_len(c);
    crate::text::lemma_lines_spec_no_newline(c);
    reveal_strlit("[global]");
    assert("[global]"@.len() == 8);
    lemma_short_line_no_assign("[global]"@);
    lemma_short_line_no_assign(Seq::<char>::empty());
    if kv::has_assign(ls, key) {
        let f = kv::first_assign_index(ls, key);
        kv::lemma_replace_first_at(ls, key, nl, f);
        let replaced = kv::replace_first_assign(ls, key, nl);
        assert(replaced =~= ls.update(f, nl));
        assert forall|i: int| 0 <= i < replaced.len() implies !#[trigger] replaced[i].contains(
            '\n',
        ) by {
            if i != f {
                assert(replaced[i] == ls[i]);
            }
        }
        crate::text::lemma_lines_of_join(replaced);
        assert(lines_spec(out) == replaced);
        kv::lemma_first_value_at(replaced, key, f);
        assert(pip_current_spec(out) == Some(url));
        // the count is unchanged: only line `f` was swapped, one assignment
        // for another
        assert(ls =~= ls.take(f) + seq![ls[f]] + ls.skip(f + 1));
        kv::lemma_count_assign_append(ls.take(f) + seq![ls[f]], ls.skip(f + 1), key);
        kv::lemma_count_assign_append(ls.take(f), seq![ls[f]], key);
        kv::lemma_count_assign_append(ls.take(f) + seq![nl], ls.skip(f + 1), key);
        kv::lemma_count_assign_append(ls.take(f), seq![nl], key);
        assert(replaced =~= (ls.take(f) + seq![nl]) + ls.skip(f + 1));
        kv::lemma_count_singleton(ls[f], key);
        kv::lemma_count_singleton(nl, key);
    } else {
        lemma_count_zero_lines(ls, key);
        if kv::has_marker(ls, "[global]"@) {
            let f = kv::first_marker_index(ls, "[global]"@);
            kv::lemma_insert_after_at(ls, "[global]"@, nl, f);
            let inserted = kv::insert_after_first(ls, "[global]"@, nl);
            assert(inserted == ls.take(f + 1) + seq![nl] + ls.skip(f + 1));
            assert forall|i: int| 0 <= i < inserted.len() implies !#[trigger] inserted[i].contains(
                '\n',
            ) by {
                if i < f + 1 {
                    assert(inserted[i] == ls[i]);
                } else if i > f + 1 {
                    assert(inserted[i] == ls[i - 1]);
                }
            }
            crate::text::lemma_lines_of_join(inserted);
            assert(lines_spec(out) == inserted);
            assert forall|j: int| 0 <= j < f + 1 implies !kv::is_assign_line(
                #[trigger] inserted[j],
                key,
            ) by {
                assert(inserted[j] == ls[j]);
            }
            assert(inserted[f + 1] == nl);
            kv::lemma_first_value_at(inserted, key, f + 1);
            assert(pip_current_spec(out) == Some(url));
            kv::lemma_count_assign_append(ls.take(f + 1) + seq![nl], ls.skip(f + 1), key);
            kv::lemma_count_assign_append(ls.take(f + 1), seq![nl], key);
            assert(inserted =~= (ls.take(f + 1) + seq![nl]) + ls.skip(f + 1));
            kv::lemma_count_singleton(nl, key);
            assert(ls =~= ls.take(f + 1) + ls.skip(f + 1));
            kv::lemma_count_assign_append(ls.take(f + 1), ls.skip(f + 1), key);
            kv::lemma_count_assign_nonneg(ls.take(f + 1), key);
            kv::lemma_count_assign_nonneg(ls.skip(f + 1), key);
        } else {
            let tail = "[global]"@ + seq!['\n'] + (nl + seq!['\n']);
            assert(nl + seq!['\n'] =~= nl + seq!['\n'] + Seq::<char>::empty());
            crate::text::lemma_lines_append(nl, Seq::<char>::empty());
            crate::text::lemma_lines_of_single(nl);
            crate::text::lemma_lines_of_single("[global]"@);
            assert(lines_spec(nl + seq!['\n']) =~= seq![nl, Seq::<char>::empty()]);
            crate::text::lemma_lines_append("[global]"@, nl + seq!['\n']);
            assert(lines_spec(tail) =~= seq!["[global]"@, nl, Seq::<char>::empty()]);
            if c.len() == 0 {
                assert(out =~= tail);
                assert(lines_spec(out) == lines_spec(tail));
            } else {
                assert(out =~= c + seq!['\n'] + tail);
                crate::text::lemma_lines_append(c, tail);
                assert(lines_spec(out) == ls + lines_spec(tail));
                assert(lines_spec(out) =~= ls + seq!["[global]"@, nl, Seq::<char>::empty()]);
            }
            let out_ls = lines_spec(out);
            let prefix: Seq<Seq<char>> = if c.len() == 0 {
                Seq::<Seq<char>>::empty()
            } else {
                ls
            };
            assert(out_ls =~= prefix + seq!["[global]"@, nl, Seq::<char>::empty()]);
            let fidx = prefix.len() + 1;
            assert(out_ls[fidx as int] == nl);
            assert forall|j: int| 0 <= j < fidx implies !kv::is_assign_line(
                #[trigger] out_ls[j],
                key,
            ) by {
                if j < prefix.len() {
                    assert(out_ls[j] == ls[j]);
                } else {
                    assert(out_ls[j] == "[global]"@);
                }
            }
            kv::lemma_first_value_at(out_ls, key, fidx as int);
            assert(pip_current_spec(out) == Some(url));
            kv::lemma_count_assign_append(prefix, seq!["[global]"@, nl, Seq::<char>::empty()], key);
            lemma_count_zero_lines(prefix, key);
            assert(kv::count_assign(seq!["[global]"@, nl, Seq::<char>::empty()], key) == 1) by {
                let three = seq!["[global]"@, nl, Seq::<char>::empty()];
                assert(three.skip(1) =~= seq![nl, Seq::<char>::empty()]);
                assert(seq![nl, Seq::<char>::empty()].skip(1) =~= seq![Seq::<char>::empty()]);
                kv::lemma_count_singleton(Seq::<char>::empty(), key);
                assert(kv::count_assign(seq![nl, Seq::<char>::empty()], key) == 1);
                assert(kv::count_assign(three, key) == 1);
            }
        }
    }
}

/// Lines none of which assign count zero assignments.
proof fn lemma_count_zero_lines(ls: Seq<Seq<char>>, key: Seq<char>)
    requires
        !kv::has_assign(ls, key),
    ensures
        kv::count_assign(ls, key) == 0,
{
    kv::lemma_count_assign_zero(ls, key);
}

} // verus!
