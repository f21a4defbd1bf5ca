//! Character-level text helpers shared by the configuration adapters: ASCII
//! whitespace, prefix tests, lexicographic order, line splitting and joining,
//! and substring search and replacement.
//!
//! All executable helpers work on `Vec<char>` so that every step is checked;
//! strings enter and leave through [`chars_of`] and [`string_from_chars`].

use vstd::prelude::*;

verus! {

/// The whitespace characters the config grammars recognize: space, tab,
/// carriage return and newline.
pub open spec fn is_ws_char(c: char) -> bool {
    c == ' ' || c == '\t' || c == '\r' || c == '\n'
}

pub fn is_ws(c: char) -> (r: bool)
    ensures
        r == is_ws_char(c),
{
    c == ' ' || c == '\t' || c == '\r' || c == '\n'
}

/// The characters of `s`, in order.
pub fn chars_of(s: &str) -> (r: Vec<char>)
    ensures
        r@ == s@,
{
    let n = s.unicode_len();
    let mut r: Vec<char> = Vec::new();
    let mut i: usize = 0;
    while i < n
        invariant
            i <= n,
            n == s@.len(),
            r@ == s@.subrange(0, i as int),
        decreases n - i,
    {
        r.push(s.get_char(i));
        proof {
            assert(s@.subrange(0, i + 1) =~= s@.subrange(0, i as int).push(s@[i as int]));
        }
        i += 1;
    }
    proof {
        assert(s@.subrange(0, n as int) =~= s@);
    }
    r
}

/// Relies on `String`'s `FromIterator` implementation: collecting characters
/// yields the string of exactly those characters, in order.
#[verifier::external_body]
pub fn string_from_chars(v: &Vec<char>) -> (r: String)
    ensures
        r@ == v@,
{
    v.iter().collect()
}

/// `p` is a prefix of `s`.
pub open spec fn starts_with(s: Seq<char>, p: Seq<char>) -> bool {
    p.len() <= s.len() && s.subrange(0, p.len() as int) == p
}

pub fn str_starts_with(s: &str, p: &str) -> (r: bool)
    ensures
        r == starts_with(s@, p@),
{
    let sn = s.unicode_len();
    let pn = p.unicode_len();
    if pn > sn {
        return false;
    }
    let mut i: usize = 0;
    while i < pn
        invariant
            i <= pn <= sn,
            pn == p@.len(),
            sn == s@.len(),
            forall|j: int| 0 <= j < i ==> s@[j] == p@[j],
        decreases pn - i,
    {
        if s.get_char(i) != p.get_char(i) {
            proof {
                assert(s@.subrange(0, pn as int)[i as int] == s@[i as int]);
            }
            return false;
        }
        i += 1;
    }
    proof {
        assert(s@.subrange(0, pn as int) =~= p@);
    }
    true
}

/// Lexicographic order on character sequences, by code point, with a proper
/// prefix ordered before every extension of it.  This is the order in which
/// file names sort.
pub open spec fn lex_le(a: Seq<char>, b: Seq<char>) -> bool
    decreases a.len(),
{
    if a.len() == 0 {
        true
    } else if b.len() == 0 {
        false
    } else if a[0] == b[0] {
        lex_le(a.skip(1), b.skip(1))
    } else {
        a[0] < b[0]
    }
}

pub proof fn lemma_lex_le_refl(a: Seq<char>)
    ensures
        lex_le(a, a),
    decreases a.len(),
{
    if a.len() > 0 {
        lemma_lex_le_refl(a.skip(1));
    }
}

pub proof fn lemma_lex_le_total(a: Seq<char>, b: Seq<char>)
    ensures
        lex_le(a, b) || lex_le(b, a),
    decreases a.len(),
{
    if a.len() == 0 {
    } else if b.len() == 0 {
    } else if a[0] == b[0] {
        lemma_lex_le_total(a.skip(1), b.skip(1));
    }
}

pub proof fn lemma_lex_le_antisymmetric(a: Seq<char>, b: Seq<char>)
    requires
        lex_le(a, b),
        lex_le(b, a),
    ensures
        a == b,
    decreases a.len(),
{
    if a.len() == 0 {
        assert(b.len() == 0);
        assert(a =~= b);
    } else {
        assert(b.len() > 0);
        if a[0] == b[0] {
            lemma_lex_le_antisymmetric(a.skip(1), b.skip(1));
            assert(a =~= seq![a[0]] + a.skip(1));
            assert(b =~= seq![b[0]] + b.skip(1));
        }
    }
}

pub proof fn lemma_lex_le_transitive(a: Seq<char>, b: Seq<char>, c: Seq<char>)
    requires
        lex_le(a, b),
        lex_le(b, c),
    ensures
        lex_le(a, c),
    decreases a.len(),
{
    if a.len() == 0 {
    } else {
        assert(b.len() > 0);
        assert(c.len() > 0);
        if a[0] == b[0] && b[0] == c[0] {
            lemma_lex_le_transitive(a.skip(1), b.skip(1), c.skip(1));
        }
    }
}

pub fn str_lex_le(a: &str, b: &str) -> (r: bool)
    ensures
        r == lex_le(a@, b@),
{
    let r = lex_le_from(a, b, 0);
    proof {
        assert(a@.skip(0) =~= a@);
        assert(b@.skip(0) =~= b@);
    }
    r
}

fn lex_le_from(a: &str, b: &str, i: usize) -> (r: bool)
    requires
        i <= a@.len(),
        i <= b@.len(),
    ensures
        r == lex_le(a@.skip(i as int), b@.skip(i as int)),
    decreases a@.len() - i,
{
    if i == a.unicode_len() {
        return true;
    }
    if i == b.unicode_len() {
        return false;
    }
    let ca = a.get_char(i);
    let cb = b.get_char(i);
    proof {
        assert(a@.skip(i as int)[0] == a@[i as int]);
        assert(b@.skip(i as int)[0] == b@[i as int]);
    }
    if ca == cb {
        let r = lex_le_from(a, b, i + 1);
        proof {
            assert(a@.skip(i as int).skip(1) =~= a@.skip(i + 1));
            assert(b@.skip(i as int).skip(1) =~= b@.skip(i + 1));
        }
        r
    } else {
        ca < cb
    }
}

/// The lines of `s`, split on `'\n'`.  Every text has at least one line; a
/// trailing newline produces a final empty line, so that joining the lines
/// with `'\n'` gives back exactly `s`.
pub open spec fn lines_spec(s: Seq<char>) -> Seq<Seq<char>>
    decreases s.len(),
{
    if s.len() == 0 {
        seq![Seq::<char>::empty()]
    } else if s[0] == '\n' {
        seq![Seq::<char>::empty()] + lines_spec(s.skip(1))
    } else {
        let rest = lines_spec(s.skip(1));
        seq![seq![s[0]] + rest[0]] + rest.skip(1)
    }
}

/// The inverse of [`lines_spec`]: the lines interleaved with `'\n'`.
pub open spec fn join_lines(ls: Seq<Seq<char>>) -> Seq<char>
    decreases ls.len(),
{
    if ls.len() == 0 {
        Seq::<char>::empty()
    } else if ls.len() == 1 {
        ls[0]
    } else {
        ls[0] + seq!['\n'] + join_lines(ls.skip(1))
    }
}

/// The views of a vector of character vectors.
pub open spec fn line_views(ls: Seq<Vec<char>>) -> Seq<Seq<char>> {
    Seq::new(ls.len(), |i: int| ls[i]@)
}

pub proof fn lemma_lines_spec_len(s: Seq<char>)
    ensures
        lines_spec(s).len() >= 1,
    decreases s.len(),
{
    if s.len() == 0 {
    } else if s[0] == '\n' {
        lemma_lines_spec_len(s.skip(1));
    } else {
        lemma_lines_spec_len(s.skip(1));
    }
}

pub proof fn lemma_lines_spec_no_newline(s: Seq<char>)
    ensures
        forall|i: int|
            0 <= i < lines_spec(s).len() ==> !#[trigger] lines_spec(s)[i].contains('\n'),
    decreases s.len(),
{
    if s.len() == 0 {
        assert forall|i: int| 0 <= i < lines_spec(s).len() implies !#[trigger] lines_spec(
            s,
        )[i].contains('\n') by {
            assert(lines_spec(s)[i] =~= Seq::<char>::empty());
        }
    } else if s[0] == '\n' {
        lemma_lines_spec_len(s.skip(1));
        lemma_lines_spec_no_newline(s.skip(1));
        assert forall|i: int| 0 <= i < lines_spec(s).len() implies !#[trigger] lines_spec(
            s,
        )[i].contains('\n') by {
            if i == 0 {
                assert(lines_spec(s)[0] =~= Seq::<char>::empty());
            } else {
                assert(lines_spec(s)[i] == lines_spec(s.skip(1))[i - 1]);
            }
        }
    } else {
        lemma_lines_spec_len(s.skip(1));
        lemma_lines_spec_no_newline(s.skip(1));
        let rest = lines_spec(s.skip(1));
        assert forall|i: int| 0 <= i < lines_spec(s).len() implies !#[trigger] lines_spec(
            s,
        )[i].contains('\n') by {
            if i == 0 {
                let l = seq![s[0]] + rest[0];
                assert(!rest[0].contains('\n'));
                if l.contains('\n') {
                    let j = choose|j: int| 0 <= j < l.len() && l[j] == '\n';
                    if j > 0 {
                        assert(rest[0][j - 1] == '\n');
                    }
                }
            } else {
                assert(lines_spec(s)[i] == rest[i]);
            }
        }
    }
}


/// Splitting the joined lines gives back the lines, provided none of them
/// contains a newline of its own.
pub proof fn lemma_lines_of_join(ls: Seq<Seq<char>>)
    requires
        ls.len() >= 1,
        forall|i: int| 0 <= i < ls.len() ==> !#[trigger] ls[i].contains('\n'),
    ensures
        lines_spec(join_lines(ls)) == ls,
    decreases ls.len(), ls[0].len(),
{
    if ls.len() == 1 {
        lemma_lines_of_single(ls[0]);
        assert(lines_spec(join_lines(ls)) =~= ls);
    } else if ls[0].len() == 0 {
        let s = join_lines(ls);
        assert(s =~= ls[0] + seq!['\n'] + join_lines(ls.skip(1)));
        assert(s.len() > 0 && s[0] == '\n');
        assert(s.skip(1) =~= join_lines(ls.skip(1)));
        lemma_lines_of_join(ls.skip(1));
        assert(lines_spec(s) =~= seq![Seq::<char>::empty()] + ls.skip(1));
        assert(ls[0] =~= Seq::<char>::empty());
        assert(lines_spec(s) =~= ls);
    } else {
        let s = join_lines(ls);
        let tail = ls.update(0, ls[0].skip(1));
        assert(s =~= ls[0] + seq!['\n'] + join_lines(ls.skip(1)));
        assert(s[0] == ls[0][0]);
        assert(!ls[0].contains('\n'));
        assert(ls[0][0] != '\n');
        assert forall|i: int| 0 <= i < tail.len() implies !#[trigger] tail[i].contains('\n') by {
            if i == 0 {
                if tail[0].contains('\n') {
                    let j = choose|j: int| 0 <= j < tail[0].len() && tail[0][j] == '\n';
                    assert(ls[0][j + 1] == '\n');
                }
            }
        }
        lemma_lines_of_join(tail);
        assert(tail.skip(1) =~= ls.skip(1));
        assert(join_lines(tail) =~= tail[0] + seq!['\n'] + join_lines(ls.skip(1)));
        assert(s.skip(1) =~= join_lines(tail));
        let rest = lines_spec(s.skip(1));
        assert(rest == tail);
        lemma_lines_spec_len(s.skip(1));
        assert(s.len() > 0 && s[0] != '\n');
        assert(lines_spec(s) == seq![seq![s[0]] + rest[0]] + rest.skip(1));
        assert(seq![s[0]] + tail[0] =~= ls[0]);
        assert(rest.skip(1) =~= ls.skip(1));
        assert(lines_spec(s) =~= ls);
    }
}

pub proof fn lemma_lines_of_single(l: Seq<char>)
    requires
        !l.contains('\n'),
    ensures
        lines_spec(l) == seq![l],
    decreases l.len(),
{
    if l.len() == 0 {
        assert(l =~= Seq::<char>::empty());
        assert(lines_spec(l) =~= seq![l]);
    } else {
        assert(l[0] != '\n');
        assert forall|j: int| 0 <= j < l.skip(1).len() implies l.skip(1)[j] != '\n' by {
            assert(l[j + 1] != '\n');
        }
        assert(!l.skip(1).contains('\n'));
        lemma_lines_of_single(l.skip(1));
        assert(lines_spec(l) =~= seq![seq![l[0]] + l.skip(1)]);
        assert(seq![l[0]] + l.skip(1) =~= l);
    }
}

/// The lines of `s`, as vectors of characters.
pub fn split_lines(s: &Vec<char>) -> (r: Vec<Vec<char>>)
    ensures
        line_views(r@) == lines_spec(s@),
{
    let ghost full = lines_spec(s@);
    let mut out: Vec<Vec<char>> = Vec::new();
    let mut cur: Vec<char> = Vec::new();
    let mut i: usize = 0;
    proof {
        lemma_lines_spec_len(s@);
        assert(s@.skip(0) =~= s@);
        assert(line_views(out@) =~= Seq::<Seq<char>>::empty());
        assert(cur@ + lines_spec(s@)[0] =~= lines_spec(s@)[0]);
        assert(full =~= seq![full[0]] + full.skip(1));
    }
    while i < s.len()
        invariant
            i <= s@.len(),
            full == lines_spec(s@),
            lines_spec(s@.skip(i as int)).len() >= 1,
            full =~= line_views(out@) + seq![cur@ + lines_spec(s@.skip(i as int))[0]]
                + lines_spec(s@.skip(i as int)).skip(1),
        decreases s@.len() - i,
    {
        let c = s[i];
        proof {
            assert(s@.skip(i as int)[0] == s@[i as int]);
            assert(s@.skip(i as int).skip(1) =~= s@.skip(i + 1));
            lemma_lines_spec_len(s@.skip(i + 1));
        }
        if c == '\n' {
            let ghost prev_out = out@;
            let ghost prev_cur = cur@;
            out.push(cur);
            cur = Vec::new();
            proof {
                assert(line_views(out@) =~= line_views(prev_out).push(prev_cur));
                assert(lines_spec(s@.skip(i as int)) =~= seq![Seq::<char>::empty()] + lines_spec(
                    s@.skip(i + 1),
                ));
                assert(prev_cur + lines_spec(s@.skip(i as int))[0] =~= prev_cur);
                let nl = lines_spec(s@.skip(i + 1));
                assert(lines_spec(s@.skip(i as int)).skip(1) =~= nl);
                assert(nl =~= seq![nl[0]] + nl.skip(1));
                assert(cur@ + nl[0] =~= nl[0]);
                assert(full =~= line_views(out@) + seq![cur@ + nl[0]] + nl.skip(1));
            }
        } else {
            let ghost prev_cur = cur@;
            cur.push(c);
            proof {
                let old_ls = lines_spec(s@.skip(i as int));
                let nl = lines_spec(s@.skip(i + 1));
                assert(old_ls =~= seq![seq![s@[i as int]] + nl[0]] + nl.skip(1));
                assert(prev_cur + old_ls[0] =~= cur@ + nl[0]);
                assert(old_ls.skip(1) =~= nl.skip(1));
            }
        }
        i += 1;
    }
    proof {
        assert(s@.skip(i as int) =~= Seq::<char>::empty());
        assert(lines_spec(s@.skip(i as int)) =~= seq![Seq::<char>::empty()]);
    }
    let ghost prev_out = out@;
    let ghost prev_cur = cur@;
    out.push(cur);
    proof {
        assert(line_views(out@) =~= line_views(prev_out).push(prev_cur));
        assert(prev_cur + Seq::<char>::empty() =~= prev_cur);
        assert(line_views(out@) =~= full);
    }
    out
}

/// The lines joined with `'\n'`, as one character vector.
pub fn join_lines_exec(ls: &Vec<Vec<char>>) -> (r: Vec<char>)
    requires
        ls@.len() >= 1,
    ensures
        r@ == join_lines(line_views(ls@)),
{
    let mut r: Vec<char> = Vec::new();
    let mut i: usize = 0;
    while i < ls.len()
        invariant
            i <= ls@.len(),
            ls@.len() >= 1,
            i == 0 ==> r@ =~= Seq::<char>::empty(),
            i > 0 ==> r@ == join_lines(line_views(ls@.subrange(0, i as int))),
        decreases ls@.len() - i,
    {
        let ghost prev = r@;
        if i > 0 {
            r.push('\n');
        }
        append_chars(&mut r, &ls[i]);
        proof {
            lemma_join_lines_push(line_views(ls@.subrange(0, i as int)), ls@[i as int]@);
            assert(line_views(ls@.subrange(0, i + 1)) =~= line_views(
                ls@.subrange(0, i as int),
            ).push(ls@[i as int]@));
            if i > 0 {
                assert(r@ =~= prev + seq!['\n'] + ls@[i as int]@);
            } else {
                assert(r@ =~= ls@[0]@);
                assert(line_views(ls@.subrange(0, 1)) =~= seq![ls@[0]@]);
            }
        }
        i += 1;
    }
    proof {
        assert(ls@.subrange(0, ls@.len() as int) =~= ls@);
    }
    r
}

proof fn lemma_join_lines_push(ls: Seq<Seq<char>>, l: Seq<char>)
    ensures
        ls.len() == 0 ==> join_lines(ls.push(l)) == l,
        ls.len() > 0 ==> join_lines(ls.push(l)) == join_lines(ls) + seq!['\n'] + l,
    decreases ls.len(),
{
    if ls.len() == 0 {
        assert(ls.push(l) =~= seq![l]);
    } else if ls.len() == 1 {
        assert(ls.push(l).len() == 2);
        assert(ls.push(l)[0] == ls[0]);
        assert(ls.push(l).skip(1) =~= seq![l]);
        assert(join_lines(seq![l]) == l);
        assert(join_lines(ls.push(l)) == ls[0] + seq!['\n'] + l);
    } else {
        lemma_join_lines_push(ls.skip(1), l);
        assert(ls.push(l).skip(1) =~= ls.skip(1).push(l));
        assert(ls.push(l)[0] == ls[0]);
        assert(join_lines(ls.push(l)) == ls[0] + seq!['\n'] + join_lines(ls.skip(1).push(l)));
        assert(ls[0] + seq!['\n'] + (join_lines(ls.skip(1)) + seq!['\n'] + l) =~= (ls[0]
            + seq!['\n'] + join_lines(ls.skip(1))) + seq!['\n'] + l);
    }
}

/// `p` occurs in `s` at position `i`.
pub open spec fn occurs_at(s: Seq<char>, p: Seq<char>, i: int) -> bool {
    0 <= i && i + p.len() <= s.len() && s.subrange(i, i + p.len() as int) == p
}

/// `p` occurs somewhere in `s`.
pub open spec fn contains_seq(s: Seq<char>, p: Seq<char>) -> bool {
    exists|i: int| occurs_at(s, p, i)
}

/// Whether `pat` occurs in `s` starting at `i`.
pub fn match_at(s: &Vec<char>, pat: &Vec<char>, i: usize) -> (r: bool)
    requires
        i + pat@.len() <= s@.len(),
    ensures
        r == occurs_at(s@, pat@, i as int),
{
    let n = s.len();
    let mut j: usize = 0;
    while j < pat.len()
        invariant
            j <= pat@.len(),
            i + pat@.len() <= s@.len(),
            n == s@.len(),
            forall|k: int| 0 <= k < j ==> s@[i + k] == pat@[k],
        decreases pat@.len() - j,
    {
        proof {
            assert(i + j < n);
        }
        if s[i + j] != pat[j] {
            proof {
                assert(s@.subrange(i as int, i as int + pat@.len() as int)[j as int] == s@[i + j]);
            }
            return false;
        }
        j += 1;
    }
    proof {
        assert(s@.subrange(i as int, i as int + pat@.len() as int) =~= pat@);
    }
    true
}

/// The position of the first occurrence of `pat` in `s`, if any.
pub fn find_first(s: &Vec<char>, pat: &Vec<char>) -> (r: Option<usize>)
    requires
        pat@.len() > 0,
    ensures
        match r {
            Some(i) => occurs_at(s@, pat@, i as int) && forall|j: int|
                0 <= j < i ==> !occurs_at(s@, pat@, j),
            None => !contains_seq(s@, pat@),
        },
{
    if pat.len() > s.len() {
        return None;
    }
    let mut i: usize = 0;
    while i <= s.len() - pat.len()
        invariant
            pat@.len() > 0,
            pat@.len() <= s@.len(),
            i <= s@.len(),
            forall|j: int| 0 <= j < i ==> !occurs_at(s@, pat@, j),
        decreases s@.len() - i,
    {
        if match_at(s, pat, i) {
            return Some(i);
        }
        i += 1;
    }
    None
}

/// `s` with every occurrence of `pat` replaced by `to`, scanning left to
/// right without revisiting replaced text.
pub open spec fn replace_all_spec(s: Seq<char>, pat: Seq<char>, to: Seq<char>) -> Seq<char>
    decreases s.len(),
{
    if pat.len() == 0 || s.len() < pat.len() {
        s
    } else if s.subrange(0, pat.len() as int) == pat {
        to + replace_all_spec(s.skip(pat.len() as int), pat, to)
    } else {
        seq![s[0]] + replace_all_spec(s.skip(1), pat, to)
    }
}

pub fn replace_all(s: &Vec<char>, pat: &Vec<char>, to: &Vec<char>) -> (r: Vec<char>)
    requires
        pat@.len() > 0,
    ensures
        r@ == replace_all_spec(s@, pat@, to@),
{
    let mut r: Vec<char> = Vec::new();
    let mut i: usize = 0;
    proof {
        assert(s@.skip(0) =~= s@);
    }
    while i < s.len()
        invariant
            i <= s@.len(),
            pat@.len() > 0,
            replace_all_spec(s@, pat@, to@) == r@ + replace_all_spec(
                s@.skip(i as int),
                pat@,
                to@,
            ),
        decreases s@.len() - i,
    {
        let ghost prev = r@;
        let ghost rem = s@.skip(i as int);
        if pat.len() <= s.len() - i && match_at(s, pat, i) {
            append_chars(&mut r, to);
            proof {
                assert(rem.subrange(0, pat@.len() as int) =~= s@.subrange(
                    i as int,
                    i as int + pat@.len() as int,
                ));
                assert(replace_all_spec(rem, pat@, to@) == to@ + replace_all_spec(
                    rem.skip(pat@.len() as int),
                    pat@,
                    to@,
                ));
                assert(rem.skip(pat@.len() as int) =~= s@.skip(i as int + pat@.len() as int));
                assert(r@ =~= prev + to@);
                assert(prev + (to@ + replace_all_spec(s@.skip(i as int + pat@.len() as int), pat@, to@))
                    =~= (prev + to@) + replace_all_spec(s@.skip(i as int + pat@.len() as int), pat@, to@));
            }
            i += pat.len();
        } else {
            r.push(s[i]);
            proof {
                assert(rem[0] == s@[i as int]);
                assert(rem.skip(1) =~= s@.skip(i + 1));
                if rem.len() >= pat@.len() {
                    assert(rem.subrange(0, pat@.len() as int) =~= s@.subrange(
                        i as int,
                        i as int + pat@.len() as int,
                    ));
                    assert(rem.subrange(0, pat@.len() as int) != pat@);
                    assert(replace_all_spec(rem, pat@, to@) == seq![rem[0]] + replace_all_spec(
                        rem.skip(1),
                        pat@,
                        to@,
                    ));
                } else {
                    assert(replace_all_spec(rem, pat@, to@) == rem);
                    assert(rem =~= seq![rem[0]] + rem.skip(1));
                    assert(replace_all_spec(rem.skip(1), pat@, to@) == rem.skip(1));
                }
                assert(r@ =~= prev.push(s@[i as int]));
                assert(prev + (seq![rem[0]] + replace_all_spec(s@.skip(i + 1), pat@, to@)) =~= prev.push(
                    s@[i as int],
                ) + replace_all_spec(s@.skip(i + 1), pat@, to@));
            }
            i += 1;
        }
    }
    proof {
        assert(s@.skip(i as int) =~= Seq::<char>::empty());
        assert(replace_all_spec(s@.skip(i as int), pat@, to@) == s@.skip(i as int));
        assert(r@ + Seq::<char>::empty() =~= r@);
    }
    r
}

/// `s` without leading whitespace.
pub open spec fn trim_start_spec(s: Seq<char>) -> Seq<char>
    decreases s.len(),
{
    if s.len() > 0 && is_ws_char(s[0]) {
        trim_start_spec(s.skip(1))
    } else {
        s
    }
}

/// `s` without trailing whitespace.
pub open spec fn trim_end_spec(s: Seq<char>) -> Seq<char>
    decreases s.len(),
{
    if s.len() > 0 && is_ws_char(s.last()) {
        trim_end_spec(s.drop_last())
    } else {
        s
    }
}

/// `s` without leading or trailing whitespace.
pub open spec fn trim_spec(s: Seq<char>) -> Seq<char> {
    trim_end_spec(trim_start_spec(s))
}

pub proof fn lemma_trim_start_skip(s: Seq<char>, k: int)
    requires
        0 <= k <= s.len(),
        forall|j: int| 0 <= j < k ==> is_ws_char(s[j]),
        k < s.len() ==> !is_ws_char(s[k]),
    ensures
        trim_start_spec(s) == s.skip(k),
    decreases k,
{
    if k == 0 {
        assert(s.skip(0) =~= s);
    } else {
        assert(is_ws_char(s[0]));
        assert forall|j: int| 0 <= j < k - 1 implies is_ws_char(s.skip(1)[j]) by {
            assert(s.skip(1)[j] == s[j + 1]);
        }
        assert(k - 1 < s.skip(1).len() ==> !is_ws_char(s.skip(1)[k - 1]));
        lemma_trim_start_skip(s.skip(1), k - 1);
        assert(s.skip(1).skip(k - 1) =~= s.skip(k));
    }
}

pub proof fn lemma_trim_end_take(s: Seq<char>, k: int)
    requires
        0 <= k <= s.len(),
        forall|j: int| k <= j < s.len() ==> is_ws_char(s[j]),
        k > 0 ==> !is_ws_char(s[k - 1]),
    ensures
        trim_end_spec(s) == s.take(k),
    decreases s.len() - k,
{
    if k == s.len() {
        assert(s.take(k) =~= s);
    } else {
        assert(is_ws_char(s.last()));
        assert(s.drop_last() =~= s.take(s.len() - 1));
        assert forall|j: int| k <= j < s.drop_last().len() implies is_ws_char(s.drop_last()[j]) by {
            assert(s.drop_last()[j] == s[j]);
        }
        lemma_trim_end_take(s.drop_last(), k);
        assert(s.drop_last().take(k) =~= s.take(k));
    }
}

/// `s` with leading and trailing whitespace removed.
pub fn trim_chars(s: &Vec<char>) -> (r: Vec<char>)
    ensures
        r@ == trim_spec(s@),
{
    let mut a: usize = 0;
    while a < s.len() && is_ws(s[a])
        invariant
            a <= s@.len(),
            forall|j: int| 0 <= j < a ==> is_ws_char(s@[j]),
        decreases s@.len() - a,
    {
        a += 1;
    }
    proof {
        lemma_trim_start_skip(s@, a as int);
    }
    let mut b: usize = s.len();
    while b > a && is_ws(s[b - 1])
        invariant
            a <= b <= s@.len(),
            forall|j: int| b <= j < s@.len() ==> is_ws_char(s@[j]),
        decreases b,
    {
        b -= 1;
    }
    let ghost st = s@.skip(a as int);
    proof {
        assert forall|j: int| (b - a) <= j < st.len() implies is_ws_char(st[j]) by {
            assert(st[j] == s@[j + a]);
        }
        if b > a {
            assert(st[b - a - 1] == s@[b - 1]);
        }
        lemma_trim_end_take(st, b - a);
    }
    let mut r: Vec<char> = Vec::new();
    let mut i: usize = a;
    while i < b
        invariant
            a <= i <= b <= s@.len(),
            r@ == s@.subrange(a as int, i as int),
        decreases b - i,
    {
        r.push(s[i]);
        proof {
            assert(s@.subrange(a as int, i + 1) =~= s@.subrange(a as int, i as int).push(
                s@[i as int],
            ));
        }
        i += 1;
    }
    proof {
        assert(st.take(b - a) =~= s@.subrange(a as int, b as int));
    }
    r
}

/// Appends every character of `other` to `r`.
pub fn append_chars(r: &mut Vec<char>, other: &Vec<char>)
    ensures
        final(r)@ == old(r)@ + other@,
{
    let mut i: usize = 0;
    while i < other.len()
        invariant
            i <= other@.len(),
            r@ == old(r)@ + other@.subrange(0, i as int),
        decreases other@.len() - i,
    {
        r.push(other[i]);
        proof {
            assert(old(r)@ + other@.subrange(0, i + 1) =~= (old(r)@ + other@.subrange(
                0,
                i as int,
            )).push(other@[i as int]));
        }
        i += 1;
    }
    proof {
        assert(other@.subrange(0, other@.len() as int) =~= other@);
    }
}


/// Splitting a text made of two parts joined by a newline splits each part.
pub proof fn lemma_lines_append(a: Seq<char>, b: Seq<char>)
    ensures
        lines_spec(a + seq!['\n'] + b) == lines_spec(a) + lines_spec(b),
    decreases a.len(),
{
    let s = a + seq!['\n'] + b;
    if a.len() == 0 {
        assert(s.len() > 0 && s[0] == '\n');
        assert(s.skip(1) =~= b);
        assert(lines_spec(s) =~= seq![Seq::<char>::empty()] + lines_spec(b));
        assert(lines_spec(a) =~= seq![Seq::<char>::empty()]);
        assert(lines_spec(s) =~= lines_spec(a) + lines_spec(b));
    } else if a[0] == '\n' {
        assert(s[0] == '\n');
        assert(s.skip(1) =~= a.skip(1) + seq!['\n'] + b);
        lemma_lines_append(a.skip(1), b);
        assert(lines_spec(s) =~= seq![Seq::<char>::empty()] + (lines_spec(a.skip(1)) + lines_spec(
            b,
        )));
        assert(lines_spec(a) =~= seq![Seq::<char>::empty()] + lines_spec(a.skip(1)));
        assert(lines_spec(s) =~= lines_spec(a) + lines_spec(b));
    } else {
        assert(s[0] == a[0] && s[0] != '\n');
        assert(s.skip(1) =~= a.skip(1) + seq!['\n'] + b);
        lemma_lines_append(a.skip(1), b);
        lemma_lines_spec_len(a.skip(1));
        lemma_lines_spec_len(a);
        lemma_lines_spec_len(s.skip(1));
        let rest = lines_spec(s.skip(1));
        let arest = lines_spec(a.skip(1));
        assert(rest == arest + lines_spec(b));
        assert(rest[0] == arest[0]);
        assert(lines_spec(s) =~= seq![seq![s[0]] + rest[0]] + rest.skip(1));
        assert(lines_spec(a) =~= seq![seq![a[0]] + arest[0]] + arest.skip(1));
        assert(rest.skip(1) =~= arest.skip(1) + lines_spec(b));
        assert(lines_spec(s) =~= lines_spec(a) + lines_spec(b));
    }
}

/// Trimming a text with no whitespace at all leaves it unchanged.
pub proof fn lemma_trim_noop(s: Seq<char>)
    requires
        forall|i: int| 0 <= i < s.len() ==> !is_ws_char(s[i]),
    ensures
        trim_spec(s) == s,
{
    lemma_trim_start_skip(s, 0);
    assert(s.skip(0) =~= s);
    lemma_trim_end_take(s, s.len() as int);
    assert(s.take(s.len() as int) =~= s);
}


/// No line of a text is longer than the text.
pub proof fn lemma_lines_len_bound(s: Seq<char>)
    ensures
        forall|i: int| 0 <= i < lines_spec(s).len() ==> #[trigger] lines_spec(s)[i].len() <= s.len(),
    decreases s.len(),
{
    if s.len() == 0 {
        assert forall|i: int| 0 <= i < lines_spec(s).len() implies #[trigger] lines_spec(
            s,
        )[i].len() <= s.len() by {
            assert(lines_spec(s)[i] == Seq::<char>::empty());
        }
    } else if s[0] == '\n' {
        lemma_lines_len_bound(s.skip(1));
        assert forall|i: int| 0 <= i < lines_spec(s).len() implies #[trigger] lines_spec(
            s,
        )[i].len() <= s.len() by {
            if i > 0 {
                assert(lines_spec(s)[i] == lines_spec(s.skip(1))[i - 1]);
            }
        }
    } else {
        lemma_lines_len_bound(s.skip(1));
        lemma_lines_spec_len(s.skip(1));
        let rest = lines_spec(s.skip(1));
        assert forall|i: int| 0 <= i < lines_spec(s).len() implies #[trigger] lines_spec(
            s,
        )[i].len() <= s.len() by {
            if i == 0 {
                assert(rest[0].len() <= s.skip(1).len());
                assert(lines_spec(s)[0] == seq![s[0]] + rest[0]);
            } else {
                assert(lines_spec(s)[i] == rest[i]);
            }
        }
    }
}

/// The first line of a text is its prefix up to the first newline.
pub proof fn lemma_first_line_prefix(s: Seq<char>)
    ensures
        lines_spec(s)[0].len() <= s.len(),
        lines_spec(s)[0] == s.take(lines_spec(s)[0].len() as int),
    decreases s.len(),
{
    if s.len() == 0 {
        assert(lines_spec(s)[0] =~= s.take(0));
    } else if s[0] == '\n' {
        assert(lines_spec(s)[0] =~= s.take(0));
    } else {
        lemma_first_line_prefix(s.skip(1));
        lemma_lines_spec_len(s.skip(1));
        let l0 = lines_spec(s.skip(1))[0];
        assert(lines_spec(s)[0] == seq![s[0]] + l0);
        assert(l0 == s.skip(1).take(l0.len() as int));
        assert(seq![s[0]] + s.skip(1).take(l0.len() as int) =~= s.take(l0.len() as int + 1));
    }
}

/// Prepending newline-free text extends the first line and keeps the rest.
pub proof fn lemma_lines_prepend(p: Seq<char>, s: Seq<char>)
    requires
        !p.contains('\n'),
    ensures
        lines_spec(p + s).len() == lines_spec(s).len(),
        lines_spec(p + s)[0] == p + lines_spec(s)[0],
        forall|i: int| 1 <= i < lines_spec(s).len() ==> #[trigger] lines_spec(p + s)[i]
            == lines_spec(s)[i],
    decreases p.len(),
{
    lemma_lines_spec_len(s);
    if p.len() == 0 {
        assert(p + s =~= s);
        assert(p + lines_spec(s)[0] =~= lines_spec(s)[0]);
    } else {
        assert(p[0] != '\n');
        assert forall|j: int| 0 <= j < p.skip(1).len() implies p.skip(1)[j] != '\n' by {
            assert(p.skip(1)[j] == p[j + 1]);
        }
        assert(!p.skip(1).contains('\n'));
        lemma_lines_prepend(p.skip(1), s);
        let t = p + s;
        assert(t[0] == p[0] && t[0] != '\n');
        assert(t.skip(1) =~= p.skip(1) + s);
        lemma_lines_spec_len(p.skip(1) + s);
        let rest = lines_spec(p.skip(1) + s);
        assert(lines_spec(t) == seq![seq![t[0]] + rest[0]] + rest.skip(1));
        assert(seq![p[0]] + (p.skip(1) + lines_spec(s)[0]) =~= p + lines_spec(s)[0]);
        assert forall|i: int| 1 <= i < lines_spec(s).len() implies #[trigger] lines_spec(t)[i]
            == lines_spec(s)[i] by {
            assert(lines_spec(t)[i] == rest[i]);
        }
    }
}

/// A pattern that occurs nowhere replaces nothing.
pub proof fn lemma_replace_all_absent(s: Seq<char>, pat: Seq<char>, to: Seq<char>)
    requires
        !contains_seq(s, pat),
    ensures
        replace_all_spec(s, pat, to) == s,
    decreases s.len(),
{
    if pat.len() == 0 || s.len() < pat.len() {
    } else {
        assert(!occurs_at(s, pat, 0));
        assert(s.subrange(0, pat.len() as int) == s.subrange(0, 0 + pat.len() as int));
        assert(s.subrange(0, pat.len() as int) != pat);
        assert forall|j: int| !occurs_at(s.skip(1), pat, j) by {
            if occurs_at(s.skip(1), pat, j) {
                assert(s.skip(1).subrange(j, j + pat.len() as int) =~= s.subrange(
                    j + 1,
                    j + 1 + pat.len() as int,
                ));
                assert(occurs_at(s, pat, j + 1));
            }
        }
        lemma_replace_all_absent(s.skip(1), pat, to);
        assert(seq![s[0]] + s.skip(1) =~= s);
    }
}

/// When neither the pattern nor the replacement carries a newline, the
/// replacement works line by line: the result has the same lines, each with
/// its own occurrences replaced.
pub proof fn lemma_replace_all_per_line(s: Seq<char>, pat: Seq<char>, to: Seq<char>)
    requires
        pat.len() > 0,
        !pat.contains('\n'),
        !to.contains('\n'),
    ensures
        lines_spec(replace_all_spec(s, pat, to)).len() == lines_spec(s).len(),
        forall|i: int| 0 <= i < lines_spec(s).len() ==> #[trigger] lines_spec(
            replace_all_spec(s, pat, to),
        )[i] == replace_all_spec(lines_spec(s)[i], pat, to),
    decreases s.len(),
{
    let out = replace_all_spec(s, pat, to);
    lemma_lines_spec_len(s);
    if s.len() < pat.len() {
        lemma_lines_len_bound(s);
        assert forall|i: int| 0 <= i < lines_spec(s).len() implies #[trigger] lines_spec(
            out,
        )[i] == replace_all_spec(lines_spec(s)[i], pat, to) by {
            assert(lines_spec(s)[i].len() <= s.len());
        }
    } else if s.subrange(0, pat.len() as int) == pat {
        let tail = s.skip(pat.len() as int);
        let rep = replace_all_spec(tail, pat, to);
        assert(out == to + rep);
        lemma_replace_all_per_line(tail, pat, to);
        lemma_lines_spec_len(tail);
        lemma_lines_spec_len(rep);
        lemma_lines_prepend(to, rep);
        assert(pat + tail =~= s);
        lemma_lines_prepend(pat, tail);
        assert forall|i: int| 0 <= i < lines_spec(s).len() implies #[trigger] lines_spec(
            out,
        )[i] == replace_all_spec(lines_spec(s)[i], pat, to) by {
            if i == 0 {
                assert(lines_spec(out)[0] == to + lines_spec(rep)[0]);
                assert(lines_spec(rep)[0] == replace_all_spec(lines_spec(tail)[0], pat, to));
                let line0 = lines_spec(s)[0];
                assert(line0 == pat + lines_spec(tail)[0]);
                assert(line0.len() >= pat.len());
                assert(line0.subrange(0, pat.len() as int) =~= pat);
                assert(replace_all_spec(line0, pat, to) == to + replace_all_spec(
                    line0.skip(pat.len() as int),
                    pat,
                    to,
                ));
                assert(line0.skip(pat.len() as int) =~= lines_spec(tail)[0]);
            } else {
                assert(lines_spec(out)[i] == lines_spec(rep)[i]);
                assert(lines_spec(s)[i] == lines_spec(tail)[i]);
            }
        }
    } else if s[0] == '\n' {
        let tail = s.skip(1);
        let rep = replace_all_spec(tail, pat, to);
        assert(out == seq![s[0]] + rep);
        lemma_replace_all_per_line(tail, pat, to);
        lemma_lines_spec_len(tail);
        assert(out.len() > 0 && out[0] == '\n');
        assert(out.skip(1) =~= rep);
        assert(lines_spec(out) == seq![Seq::<char>::empty()] + lines_spec(rep));
        assert(lines_spec(s) == seq![Seq::<char>::empty()] + lines_spec(tail));
        assert forall|i: int| 0 <= i < lines_spec(s).len() implies #[trigger] lines_spec(
            out,
        )[i] == replace_all_spec(lines_spec(s)[i], pat, to) by {
            if i == 0 {
                assert(lines_spec(out)[0] =~= Seq::<char>::empty());
                assert(lines_spec(s)[0] =~= Seq::<char>::empty());
                assert(Seq::<char>::empty().len() < pat.len());
            } else {
                assert(lines_spec(out)[i] == lines_spec(rep)[i - 1]);
                assert(lines_spec(s)[i] == lines_spec(tail)[i - 1]);
            }
        }
    } else {
        let tail = s.skip(1);
        let rep = replace_all_spec(tail, pat, to);
        assert(out == seq![s[0]] + rep);
        lemma_replace_all_per_line(tail, pat, to);
        lemma_lines_spec_len(tail);
        lemma_lines_spec_len(rep);
        assert(!seq![s[0]].contains('\n')) by {
            assert(seq![s[0]][0] == s[0]);
            if seq![s[0]].contains('\n') {
                let j = choose|j: int| 0 <= j < 1 && seq![s[0]][j] == '\n';
                assert(j == 0);
            }
        }
        lemma_lines_prepend(seq![s[0]], rep);
        lemma_lines_prepend(seq![s[0]], tail);
        assert(seq![s[0]] + tail =~= s);
        lemma_first_line_prefix(s);
        assert forall|i: int| 0 <= i < lines_spec(s).len() implies #[trigger] lines_spec(
            out,
        )[i] == replace_all_spec(lines_spec(s)[i], pat, to) by {
            if i == 0 {
                let line0 = lines_spec(s)[0];
                let l0t = lines_spec(tail)[0];
                assert(line0 == seq![s[0]] + l0t);
                assert(lines_spec(out)[0] == seq![s[0]] + lines_spec(rep)[0]);
                assert(lines_spec(rep)[0] == replace_all_spec(l0t, pat, to));
                if line0.len() < pat.len() {
                    assert(replace_all_spec(line0, pat, to) == line0);
                    assert(l0t.len() < pat.len());
                    assert(replace_all_spec(l0t, pat, to) == l0t);
                } else {
                    assert(line0 == s.take(line0.len() as int));
                    assert(line0.subrange(0, pat.len() as int) =~= s.subrange(
                        0,
                        pat.len() as int,
                    ));
                    assert(line0.subrange(0, pat.len() as int) != pat);
                    assert(replace_all_spec(line0, pat, to) == seq![line0[0]]
                        + replace_all_spec(line0.skip(1), pat, to));
                    assert(line0[0] == s[0]);
                    assert(line0.skip(1) =~= l0t);
                }
            } else {
                assert(lines_spec(out)[i] == lines_spec(rep)[i]);
                assert(lines_spec(s)[i] == lines_spec(tail)[i]);
            }
        }
    }
}


/// A shared prefix does not disturb the lexicographic order of what
/// follows it.
pub proof fn lemma_lex_append_common(p: Seq<char>, u: Seq<char>, v: Seq<char>)
    requires
        lex_le(u, v),
    ensures
        lex_le(p + u, p + v),
    decreases p.len(),
{
    if p.len() == 0 {
        assert(p + u =~= u);
        assert(p + v =~= v);
    } else {
        assert((p + u)[0] == p[0] && (p + v)[0] == p[0]);
        assert((p + u).skip(1) =~= p.skip(1) + u);
        assert((p + v).skip(1) =~= p.skip(1) + v);
        lemma_lex_append_common(p.skip(1), u, v);
    }
}

} // verus!
