//! The apt adapter: a multi-line sources file with one active source per
//! line.
//!
//! An active source line starts with the literal token `deb`, blanks, an
//! optional bracketed options group (ending at the first `]`) followed by
//! blanks, then an `http://` or `https://` URL running to the next blank
//! or to the end of the line.  Reading takes the URL of the first such
//! line; writing replaces every textual occurrence of the detected current
//! URL with the new one, or falls back to replacing the distribution's
//! well-known default domains when no current URL is detected.

use vstd::prelude::*;

use crate::backup;
use crate::error::MirrorError;
use crate::sources::kv;
use crate::text::{chars_of, lines_spec, replace_all, replace_all_spec, split_lines, starts_with,
    string_from_chars};
use crate::traits::{RestoreAction, SourceManager};
use crate::types::Mirror;

verus! {

/// Manages the apt sources configuration.
#[derive(Debug)]
pub struct AptManager {
    /// The distribution family the fallback domains are chosen for:
    /// `"ubuntu"` or `"debian"`.  Detection from OS release metadata is the
    /// caller's concern; construction falls back to `"ubuntu"`.
    pub distro: String,
    /// An explicit sources file path; `None` means the system location.
    pub custom_path: Option<String>,
}

impl AptManager {
    /// An adapter for the default distribution family and the system
    /// sources file.
    pub fn new() -> (r: Self)
        ensures
            r.distro@ == "ubuntu"@,
            r.custom_path is None,
    {
        AptManager { distro: String::from_str("ubuntu"), custom_path: None }
    }

    pub fn with_distro_and_path(distro: String, path: String) -> (r: Self)
        ensures
            r.distro == distro,
            r.custom_path == Some(path),
    {
        AptManager { distro, custom_path: Some(path) }
    }
}

/// The position of the first `c` in `s`, if any.
pub open spec fn find_char(s: Seq<char>, c: char) -> Option<int>
    decreases s.len(),
{
    if s.len() == 0 {
        None
    } else if s[0] == c {
        Some(0int)
    } else {
        match find_char(s.skip(1), c) {
            Some(i) => Some(i + 1),
            None => None,
        }
    }
}

proof fn lemma_find_char_at(s: Seq<char>, c: char, k: int)
    requires
        0 <= k < s.len(),
        s[k] == c,
        forall|j: int| 0 <= j < k ==> s[j] != c,
    ensures
        find_char(s, c) == Some(k),
    decreases k,
{
    if k > 0 {
        assert(s.skip(1)[k - 1] == s[k]);
        assert forall|j: int| 0 <= j < k - 1 implies s.skip(1)[j] != c by {
            assert(s.skip(1)[j] == s[j + 1]);
        }
        lemma_find_char_at(s.skip(1), c, k - 1);
    }
}

proof fn lemma_find_char_none(s: Seq<char>, c: char)
    requires
        forall|j: int| 0 <= j < s.len() ==> s[j] != c,
    ensures
        find_char(s, c) is None,
    decreases s.len(),
{
    if s.len() > 0 {
        assert forall|j: int| 0 <= j < s.skip(1).len() implies s.skip(1)[j] != c by {
            assert(s.skip(1)[j] == s[j + 1]);
        }
        lemma_find_char_none(s.skip(1), c);
    }
}

/// The length of the leading run of non-blank characters.
pub open spec fn nonblank_len(s: Seq<char>) -> int
    decreases s.len(),
{
    if s.len() > 0 && !kv::is_blank(s[0]) {
        1 + nonblank_len(s.skip(1))
    } else {
        0
    }
}

proof fn lemma_nonblank_len_at(s: Seq<char>, k: int)
    requires
        0 <= k <= s.len(),
        forall|j: int| 0 <= j < k ==> !kv::is_blank(s[j]),
        k < s.len() ==> kv::is_blank(s[k]),
    ensures
        nonblank_len(s) == k,
    decreases k,
{
    if k > 0 {
        assert(!kv::is_blank(s[0]));
        assert forall|j: int| 0 <= j < k - 1 implies !kv::is_blank(s.skip(1)[j]) by {
            assert(s.skip(1)[j] == s[j + 1]);
        }
        assert(k - 1 < s.skip(1).len() ==> kv::is_blank(s.skip(1)[k - 1]));
        lemma_nonblank_len_at(s.skip(1), k - 1);
    }
}

/// The URL at the head of `rest`, the text after `deb` and its options:
/// an `http://` or `https://` scheme and at least one more non-blank
/// character, running to the next blank or to the end of the line.
pub open spec fn apt_url_at(rest: Seq<char>) -> Option<Seq<char>> {
    let k = nonblank_len(rest);
    if (starts_with(rest, "http://"@) && k > "http://"@.len()) || (starts_with(rest, "https://"@)
        && k > "https://"@.len()) {
        Some(rest.take(k))
    } else {
        None
    }
}

proof fn lemma_nonblank_len_bounds(s: Seq<char>)
    ensures
        0 <= nonblank_len(s) <= s.len(),
    decreases s.len(),
{
    if s.len() > 0 && !kv::is_blank(s[0]) {
        lemma_nonblank_len_bounds(s.skip(1));
    }
}

/// The active-source URL of one line, per the grammar above.
pub open spec fn apt_line_url(line: Seq<char>) -> Option<Seq<char>> {
    if !(starts_with(line, "deb"@) && line.len() > 3 && kv::is_blank(line[3])) {
        None
    } else {
        let r2 = kv::skip_blanks(line.skip(3));
        if r2.len() > 0 && r2[0] == '[' {
            match find_char(r2, ']') {
                Some(i) => {
                    let r3 = r2.skip(i + 1);
                    if r3.len() > 0 && kv::is_blank(r3[0]) {
                        apt_url_at(kv::skip_blanks(r3))
                    } else {
                        None
                    }
                },
                None => None,
            }
        } else {
            apt_url_at(r2)
        }
    }
}

/// The URL of the first active source line.
pub open spec fn apt_first_url(ls: Seq<Seq<char>>) -> Option<Seq<char>>
    decreases ls.len(),
{
    if ls.len() == 0 {
        None
    } else if apt_line_url(ls[0]) is Some {
        apt_line_url(ls[0])
    } else {
        apt_first_url(ls.skip(1))
    }
}

/// The URL the sources text presently uses.
pub open spec fn apt_current_spec(c: Seq<char>) -> Option<Seq<char>> {
    apt_first_url(lines_spec(c))
}

/// The URL as written into the file: with a trailing slash ensured.
pub open spec fn apt_target(url: Seq<char>) -> Seq<char> {
    if url.len() > 0 && url.last() == '/' {
        url
    } else {
        url + seq!['/']
    }
}

/// The sources text rewritten for `url`: every occurrence of the detected
/// current URL is replaced; with none detected, the distribution's default
/// domains are replaced instead, in both scheme forms.  Lines on other
/// domains are deliberately left alone.
pub open spec fn apt_rewrite_spec(c: Seq<char>, url: Seq<char>, distro: Seq<char>) -> Seq<char> {
    let t = apt_target(url);
    match apt_current_spec(c) {
        Some(cur) => replace_all_spec(c, cur, t),
        None => {
            if distro == "ubuntu"@ {
                replace_all_spec(
                    replace_all_spec(
                        replace_all_spec(
                            replace_all_spec(c, "http://archive.ubuntu.com/ubuntu/"@, t),
                            "https://archive.ubuntu.com/ubuntu/"@,
                            t,
                        ),
                        "http://security.ubuntu.com/ubuntu/"@,
                        t,
                    ),
                    "https://security.ubuntu.com/ubuntu/"@,
                    t,
                )
            } else {
                replace_all_spec(
                    replace_all_spec(
                        replace_all_spec(
                            replace_all_spec(c, "http://deb.debian.org/debian/"@, t),
                            "https://deb.debian.org/debian/"@,
                            t,
                        ),
                        "http://security.debian.org/debian/"@,
                        t,
                    ),
                    "https://security.debian.org/debian/"@,
                    t,
                )
            }
        },
    }
}

/// A detected URL is never empty: it carries at least its scheme.
pub proof fn lemma_apt_url_nonempty(line: Seq<char>)
    ensures
        apt_line_url(line) matches Some(u) ==> u.len() > 0,
{
    reveal_strlit("http://");
    reveal_strlit("https://");
    let r2 = kv::skip_blanks(line.skip(3));
    lemma_nonblank_len_bounds(r2);
    if r2.len() > 0 && r2[0] == '[' {
        match find_char(r2, ']') {
            Some(i) => {
                lemma_find_char_valid(r2, ']');
                lemma_nonblank_len_bounds(kv::skip_blanks(r2.skip(i + 1)));
            },
            None => {},
        }
    }
}

proof fn lemma_apt_first_url_nonempty(ls: Seq<Seq<char>>)
    ensures
        apt_first_url(ls) matches Some(u) ==> u.len() > 0,
    decreases ls.len(),
{
    if ls.len() > 0 {
        lemma_apt_url_nonempty(ls[0]);
        lemma_apt_first_url_nonempty(ls.skip(1));
    }
}

/// The active-source URL of one line.
pub fn apt_line_url_exec(line: &Vec<char>) -> (r: Option<Vec<char>>)
    ensures
        match r {
            Some(u) => apt_line_url(line@) == Some(u@),
            None => apt_line_url(line@) is None,
        },
{
    let deb = chars_of("deb");
    proof {
        reveal_strlit("deb");
    }
    if line.len() < 4 || !crate::text::match_at(line, &deb, 0) {
        proof {
            if deb@.len() <= line@.len() {
                assert(line@.subrange(0, deb@.len() as int) =~= line@.subrange(
                    0,
                    0 + deb@.len() as int,
                ));
            }
        }
        return None;
    }
    proof {
        assert(line@.subrange(0, deb@.len() as int) =~= line@.subrange(0, 0 + deb@.len() as int));
        assert(starts_with(line@, "deb"@));
    }
    if !(line[3] == ' ' || line[3] == '\t' || line[3] == '\r') {
        return None;
    }
    // skip the blanks after `deb`
    let mut i: usize = 3;
    while i < line.len() && (line[i] == ' ' || line[i] == '\t' || line[i] == '\r')
        invariant
            3 <= i <= line@.len(),
            forall|j: int| 3 <= j < i ==> kv::is_blank(line@[j]),
        decreases line@.len() - i,
    {
        i += 1;
    }
    let ghost r1 = line@.skip(3);
    proof {
        assert forall|j: int| 0 <= j < i - 3 implies kv::is_blank(r1[j]) by {
            assert(r1[j] == line@[j + 3]);
        }
        if i < line@.len() {
            assert(r1[i - 3] == line@[i as int]);
        }
        kv::lemma_skip_blanks_at(r1, i - 3);
        assert(kv::skip_blanks(r1) =~= line@.skip(i as int));
    }
    let ghost r2 = kv::skip_blanks(r1);
    // the optional bracketed options group
    let start: usize;
    if i < line.len() && line[i] == '[' {
        proof {
            assert(r2[0] == line@[i as int]);
        }
        let mut j: usize = i;
        while j < line.len() && line[j] != ']'
            invariant
                i <= j <= line@.len(),
                forall|k: int| i <= k < j ==> line@[k] != ']',
            decreases line@.len() - j,
        {
            j += 1;
        }
        if j == line.len() {
            proof {
                assert forall|k: int| 0 <= k < r2.len() implies r2[k] != ']' by {
                    assert(r2[k] == line@[k + i]);
                }
                lemma_find_char_none(r2, ']');
            }
            return None;
        }
        proof {
            assert(line@[j as int] == ']');
            assert(r2[j - i] == line@[j as int]);
            assert forall|k: int| 0 <= k < j - i implies r2[k] != ']' by {
                assert(r2[k] == line@[k + i]);
            }
            lemma_find_char_at(r2, ']', j - i);
            assert(r2.skip(j - i + 1) =~= line@.skip(j + 1));
        }
        let ghost r3 = r2.skip(j - i + 1);
        if !(j + 1 < line.len() && (line[j + 1] == ' ' || line[j + 1] == '\t' || line[j + 1]
            == '\r')) {
            proof {
                if j + 1 < line@.len() {
                    assert(r3[0] == line@[j + 1]);
                }
            }
            return None;
        }
        proof {
            assert(r3[0] == line@[j + 1]);
        }
        // skip the blanks after the options group
        let mut m: usize = j + 1;
        while m < line.len() && (line[m] == ' ' || line[m] == '\t' || line[m] == '\r')
            invariant
                j + 1 <= m <= line@.len(),
                forall|k: int| j + 1 <= k < m ==> kv::is_blank(line@[k]),
            decreases line@.len() - m,
        {
            m += 1;
        }
        proof {
            assert forall|k: int| 0 <= k < m - (j + 1) implies kv::is_blank(r3[k]) by {
                assert(r3[k] == line@[k + j + 1]);
            }
            if m < line@.len() {
                assert(r3[m - (j + 1)] == line@[m as int]);
            }
            kv::lemma_skip_blanks_at(r3, m - (j + 1));
            assert(kv::skip_blanks(r3) =~= line@.skip(m as int));
        }
        start = m;
    } else {
        start = i;
    }
    let ghost rest = line@.skip(start as int);
    // the leading non-blank run is the URL candidate
    let mut e: usize = start;
    while e < line.len() && !(line[e] == ' ' || line[e] == '\t' || line[e] == '\r')
        invariant
            start <= e <= line@.len(),
            forall|k: int| start <= k < e ==> !kv::is_blank(line@[k]),
        decreases line@.len() - e,
    {
        e += 1;
    }
    proof {
        assert forall|k: int| 0 <= k < e - start implies !kv::is_blank(rest[k]) by {
            assert(rest[k] == line@[k + start]);
        }
        if e < line@.len() {
            assert(rest[e - start] == line@[e as int]);
        }
        lemma_nonblank_len_at(rest, e - start);
    }
    let http = chars_of("http://");
    let https = chars_of("https://");
    proof {
        reveal_strlit("http://");
        reveal_strlit("https://");
    }
    let k = e - start;
    let scheme_ok: bool;
    if http.len() <= line.len() - start && crate::text::match_at(line, &http, start) {
        proof {
            assert(rest.subrange(0, http@.len() as int) =~= line@.subrange(
                start as int,
                start as int + http@.len() as int,
            ));
        }
        scheme_ok = k > http.len();
    } else if https.len() <= line.len() - start && crate::text::match_at(line, &https, start) {
        proof {
            assert(rest.subrange(0, https@.len() as int) =~= line@.subrange(
                start as int,
                start as int + https@.len() as int,
            ));
            if http@.len() <= rest.len() {
                assert(rest.subrange(0, http@.len() as int) =~= line@.subrange(
                    start as int,
                    start as int + http@.len() as int,
                ));
            }
        }
        scheme_ok = k > https.len();
    } else {
        proof {
            if http@.len() <= rest.len() {
                assert(rest.subrange(0, http@.len() as int) =~= line@.subrange(
                    start as int,
                    start as int + http@.len() as int,
                ));
            }
            if https@.len() <= rest.len() {
                assert(rest.subrange(0, https@.len() as int) =~= line@.subrange(
                    start as int,
                    start as int + https@.len() as int,
                ));
            }
        }
        scheme_ok = false;
    }
    if !scheme_ok {
        return None;
    }
    let mut u: Vec<char> = Vec::new();
    let mut p: usize = start;
    while p < e
        invariant
            start <= p <= e <= line@.len(),
            u@ == line@.subrange(start as int, p as int),
        decreases e - p,
    {
        u.push(line[p]);
        proof {
            assert(line@.subrange(start as int, p + 1) =~= line@.subrange(
                start as int,
                p as int,
            ).push(line@[p as int]));
        }
        p += 1;
    }
    proof {
        assert(u@ =~= rest.take(e - start));
    }
    Some(u)
}

/// The URL of the first active source line.
pub fn apt_first_url_exec(lines: &Vec<Vec<char>>) -> (r: Option<Vec<char>>)
    ensures
        match r {
            Some(u) => apt_first_url(crate::text::line_views(lines@)) == Some(u@),
            None => apt_first_url(crate::text::line_views(lines@)) is None,
        },
{
    let ghost lv = crate::text::line_views(lines@);
    let mut i: usize = 0;
    proof {
        assert(lv.skip(0) =~= lv);
    }
    while i < lines.len()
        invariant
            i <= lines@.len(),
            lv == crate::text::line_views(lines@),
            apt_first_url(lv) == apt_first_url(lv.skip(i as int)),
        decreases lines@.len() - i,
    {
        proof {
            assert(lv[i as int] == lines@[i as int]@);
            assert(lv.skip(i as int)[0] == lv[i as int]);
            assert(lv.skip(i as int).skip(1) =~= lv.skip(i + 1));
        }
        match apt_line_url_exec(&lines[i]) {
            Some(u) => {
                return Some(u);
            },
            None => {},
        }
        i += 1;
    }
    proof {
        assert(lv.skip(i as int) =~= Seq::<Seq<char>>::empty());
    }
    None
}

/// The sources text rewritten for `url` under distribution family
/// `distro`.
pub fn apt_rewrite(content: &str, url: &str, distro: &str) -> (r: String)
    ensures
        r@ == apt_rewrite_spec(content@, url@, distro@),
{
    let cv = chars_of(content);
    let mut t = chars_of(url);
    if t.len() == 0 || t[t.len() - 1] != '/' {
        t.push('/');
    }
    proof {
        assert(t@ =~= apt_target(url@));
    }
    let lines = split_lines(&cv);
    match apt_first_url_exec(&lines) {
        Some(cur) => {
            proof {
                lemma_apt_first_url_nonempty(crate::text::line_views(lines@));
            }
            let out = replace_all(&cv, &cur, &t);
            string_from_chars(&out)
        },
        None => {
            let ubuntu = chars_of("ubuntu");
            let dv = chars_of(distro);
            let out: Vec<char>;
            if kv::chars_eq(&dv, &ubuntu) {
                let p1 = chars_of("http://archive.ubuntu.com/ubuntu/");
                let p2 = chars_of("https://archive.ubuntu.com/ubuntu/");
                let p3 = chars_of("http://security.ubuntu.com/ubuntu/");
                let p4 = chars_of("https://security.ubuntu.com/ubuntu/");
                proof {
                    reveal_strlit("http://archive.ubuntu.com/ubuntu/");
                    reveal_strlit("https://archive.ubuntu.com/ubuntu/");
                    reveal_strlit("http://security.ubuntu.com/ubuntu/");
                    reveal_strlit("https://security.ubuntu.com/ubuntu/");
                }
                let s1 = replace_all(&cv, &p1, &t);
                let s2 = replace_all(&s1, &p2, &t);
                let s3 = replace_all(&s2, &p3, &t);
                out = replace_all(&s3, &p4, &t);
            } else {
                let p1 = chars_of("http://deb.debian.org/debian/");
                let p2 = chars_of("https://deb.debian.org/debian/");
                let p3 = chars_of("http://security.debian.org/debian/");
                let p4 = chars_of("https://security.debian.org/debian/");
                proof {
                    reveal_strlit("http://deb.debian.org/debian/");
                    reveal_strlit("https://deb.debian.org/debian/");
                    reveal_strlit("http://security.debian.org/debian/");
                    reveal_strlit("https://security.debian.org/debian/");
                }
                let s1 = replace_all(&cv, &p1, &t);
                let s2 = replace_all(&s1, &p2, &t);
                let s3 = replace_all(&s2, &p3, &t);
                out = replace_all(&s3, &p4, &t);
            }
            string_from_chars(&out)
        },
    }
}

impl SourceManager for AptManager {
    open spec fn spec_name(&self) -> Seq<char> {
        "apt"@
    }

    open spec fn spec_requires_sudo(&self) -> bool {
        true
    }

    open spec fn spec_config_path(&self) -> Seq<char> {
        match self.custom_path {
            Some(p) => p@,
            None => "/etc/apt/sources.list"@,
        }
    }

    open spec fn spec_current(&self, content: Seq<char>) -> Option<Seq<char>> {
        apt_current_spec(content)
    }

    open spec fn spec_current_errs(&self, content: Seq<char>) -> bool {
        false
    }

    open spec fn spec_set_post(&self, content: Seq<char>, url: Seq<char>, out: Seq<char>) -> bool {
        out == apt_rewrite_spec(content, url, self.distro@)
    }

    open spec fn spec_set_errs(&self, content: Seq<char>) -> bool {
        false
    }

    open spec fn spec_set_err(&self, content: Seq<char>, e: MirrorError) -> bool {
        false
    }

    open spec fn spec_restore_ok(&self, entries: Seq<Seq<char>>, action: RestoreAction) -> bool {
        backup::file_restore_ok(self.spec_config_path(), entries, action)
    }

    open spec fn spec_restore_errs(&self, entries: Seq<Seq<char>>) -> bool {
        backup::file_restore_errs(self.spec_config_path(), entries)
    }

    fn name(&self) -> (r: String) {
        String::from_str("apt")
    }

    fn requires_sudo(&self) -> (r: bool) {
        true
    }

    fn config_path(&self) -> (r: String) {
        match &self.custom_path {
            Some(p) => p.clone(),
            None => String::from_str("/etc/apt/sources.list"),
        }
    }

    fn current_url(&self, content: &str) -> (r: Result<Option<String>, MirrorError>) {
        let cv = chars_of(content);
        let lines = split_lines(&cv);
        match apt_first_url_exec(&lines) {
            Some(u) => Ok(Some(string_from_chars(&u))),
            None => Ok(None),
        }
    }

    fn set_source(&self, content: &str, mirror: &Mirror) -> (r: Result<String, MirrorError>) {
        Ok(apt_rewrite(content, mirror.url.as_str(), self.distro.as_str()))
    }

    fn restore(&self, entries: &Vec<String>) -> (r: Result<RestoreAction, MirrorError>) {
        let path = self.config_path();
        backup::restore_from_entries(path.as_str(), entries)
    }
}


proof fn lemma_find_char_valid(s: Seq<char>, c: char)
    ensures
        find_char(s, c) matches Some(i) ==> 0 <= i < s.len() && s[i] == c,
    decreases s.len(),
{
    if s.len() > 0 && s[0] != c {
        lemma_find_char_valid(s.skip(1), c);
    }
}

proof fn lemma_no_char_skip(x: Seq<char>, j: int, c: char)
    requires
        !x.contains(c),
        0 <= j <= x.len(),
    ensures
        !x.skip(j).contains(c),
{
    if x.skip(j).contains(c) {
        let k = choose|k: int| 0 <= k < x.skip(j).len() && x.skip(j)[k] == c;
        assert(x[k + j] == c);
    }
}

proof fn lemma_no_char_take(x: Seq<char>, j: int, c: char)
    requires
        !x.contains(c),
        0 <= j <= x.len(),
    ensures
        !x.take(j).contains(c),
{
    if x.take(j).contains(c) {
        let k = choose|k: int| 0 <= k < x.take(j).len() && x.take(j)[k] == c;
        assert(x[k] == c);
    }
}

proof fn lemma_skip_blanks_no_char(x: Seq<char>, c: char)
    requires
        !x.contains(c),
    ensures
        !kv::skip_blanks(x).contains(c),
    decreases x.len(),
{
    if x.len() > 0 && kv::is_blank(x[0]) {
        lemma_no_char_skip(x, 1, c);
        lemma_skip_blanks_no_char(x.skip(1), c);
    }
}

/// A URL detected on a newline-free line carries no newline itself.
proof fn lemma_apt_line_url_no_newline(line: Seq<char>)
    requires
        !line.contains('\n'),
    ensures
        apt_line_url(line) matches Some(u) ==> !u.contains('\n'),
{
    if apt_line_url(line) is Some {
        lemma_no_char_skip(line, 3, '\n');
        lemma_skip_blanks_no_char(line.skip(3), '\n');
        let r2 = kv::skip_blanks(line.skip(3));
        if r2.len() > 0 && r2[0] == '[' {
            lemma_find_char_valid(r2, ']');
            let i = find_char(r2, ']')->Some_0;
            let r3 = r2.skip(i + 1);
            lemma_no_char_skip(r2, i + 1, '\n');
            lemma_skip_blanks_no_char(r3, '\n');
            let r4 = kv::skip_blanks(r3);
            lemma_nonblank_len_bounds(r4);
            lemma_no_char_take(r4, nonblank_len(r4), '\n');
        } else {
            lemma_nonblank_len_bounds(r2);
            lemma_no_char_take(r2, nonblank_len(r2), '\n');
        }
    }
}

proof fn lemma_apt_first_url_no_newline(ls: Seq<Seq<char>>)
    requires
        forall|i: int| 0 <= i < ls.len() ==> !#[trigger] ls[i].contains('\n'),
    ensures
        apt_first_url(ls) matches Some(u) ==> !u.contains('\n'),
    decreases ls.len(),
{
    if ls.len() > 0 {
        lemma_apt_line_url_no_newline(ls[0]);
        assert forall|i: int| 0 <= i < ls.skip(1).len() implies !#[trigger] ls.skip(
            1,
        )[i].contains('\n') by {
            assert(ls.skip(1)[i] == ls[i + 1]);
        }
        lemma_apt_first_url_no_newline(ls.skip(1));
    }
}

/// When a current URL is detected, applying a mirror rewrites the file line
/// by line: every line keeps its place and has each occurrence of the
/// detected URL replaced by the target, so lines that carry the detected
/// URL are all rewritten, and a line that does not carry it — one on
/// another origin — is left exactly as it was.
pub proof fn lemma_apt_set_rewrites_lines(
    c: Seq<char>,
    cur: Seq<char>,
    url: Seq<char>,
    distro: Seq<char>,
)
    requires
        apt_current_spec(c) == Some(cur),
        !url.contains('\n'),
    ensures
        ({
            let out = apt_rewrite_spec(c, url, distro);
            let t = apt_target(url);
            &&& lines_spec(out).len() == lines_spec(c).len()
            &&& forall|i: int| 0 <= i < lines_spec(c).len() ==> #[trigger] lines_spec(out)[i]
                == crate::text::replace_all_spec(lines_spec(c)[i], cur, t)
            &&& forall|i: int|
                0 <= i < lines_spec(c).len() && !crate::text::contains_seq(lines_spec(c)[i], cur)
                    ==> #[trigger] lines_spec(out)[i] == lines_spec(c)[i]
        }),
{
    let out = apt_rewrite_spec(c, url, distro);
    let t = apt_target(url);
    crate::text::lemma_lines_spec_no_newline(c);
    lemma_apt_first_url_no_newline(lines_spec(c));
    lemma_apt_first_url_nonempty(lines_spec(c));
    assert(!t.contains('\n')) by {
        if t.contains('\n') {
            let k = choose|k: int| 0 <= k < t.len() && t[k] == '\n';
            if !(url.len() > 0 && url.last() == '/') {
                if k < url.len() {
                    assert(url[k] == '\n');
                } else {
                    assert(t[k] == '/');
                }
            }
        }
    }
    assert(out == crate::text::replace_all_spec(c, cur, t));
    crate::text::lemma_replace_all_per_line(c, cur, t);
    assert forall|i: int|
        0 <= i < lines_spec(c).len() && !crate::text::contains_seq(
            lines_spec(c)[i],
            cur,
        ) implies #[trigger] lines_spec(out)[i] == lines_spec(c)[i] by {
        crate::text::lemma_replace_all_absent(lines_spec(c)[i], cur, t);
    }
}


/// The distribution family the two system texts indicate: the OS release
/// metadata decides first — it contains `id=ubuntu` or `id=debian` after
/// ASCII case folding — and the sources text second, by containing
/// `ubuntu` or `debian`.  An unreadable file stands as the empty string,
/// which indicates nothing.
pub open spec fn distro_of_spec(os_release: Seq<char>, sources: Seq<char>) -> Option<Seq<char>> {
    let folded = crate::sources::ascii_lower(os_release);
    if crate::text::contains_seq(folded, "id=ubuntu"@) {
        Some("ubuntu"@)
    } else if crate::text::contains_seq(folded, "id=debian"@) {
        Some("debian"@)
    } else if crate::text::contains_seq(sources, "ubuntu"@) {
        Some("ubuntu"@)
    } else if crate::text::contains_seq(sources, "debian"@) {
        Some("debian"@)
    } else {
        None
    }
}

/// The distribution family detected from the OS release metadata and the
/// sources text, or `None` when neither indicates one.  Reading the two
/// files is the caller's concern; an unreadable one is the empty string.
pub fn detect_distro_from(os_release: &str, sources: &str) -> (r: Option<String>)
    ensures
        match r {
            Some(d) => distro_of_spec(os_release@, sources@) == Some(d@),
            None => distro_of_spec(os_release@, sources@) is None,
        },
{
    proof {
        reveal_strlit("id=ubuntu");
        reveal_strlit("id=debian");
        reveal_strlit("ubuntu");
        reveal_strlit("debian");
    }
    let folded = crate::sources::ascii_lower_exec(&chars_of(os_release));
    let sv = chars_of(sources);
    if found(&folded, &chars_of("id=ubuntu")) {
        Some(String::from_str("ubuntu"))
    } else if found(&folded, &chars_of("id=debian")) {
        Some(String::from_str("debian"))
    } else if found(&sv, &chars_of("ubuntu")) {
        Some(String::from_str("ubuntu"))
    } else if found(&sv, &chars_of("debian")) {
        Some(String::from_str("debian"))
    } else {
        None
    }
}

/// Whether `pat` occurs in `s`.
fn found(s: &Vec<char>, pat: &Vec<char>) -> (r: bool)
    requires
        pat@.len() > 0,
    ensures
        r == crate::text::contains_seq(s@, pat@),
{
    match crate::text::find_first(s, pat) {
        Some(i) => {
            proof {
                assert(crate::text::occurs_at(s@, pat@, i as int));
            }
            true
        },
        None => false,
    }
}

} // verus!
