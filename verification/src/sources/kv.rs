//! The line-oriented `key = value` grammar shared by the pip and npm
//! adapters.
//!
//! An assignment line is the key at the start of the line, optional blanks,
//! and an `=`.  Reading takes the first line that assigns a non-empty rest
//! to the key, trimmed; writing replaces the first assignment line whatever
//! its value, or inserts a fresh one.

use vstd::prelude::*;

use crate::text::{match_at, starts_with, trim_chars, trim_spec};

verus! {

/// Blank characters inside a line: space, tab and carriage return.
pub open spec fn is_blank(c: char) -> bool {
    c == ' ' || c == '\t' || c == '\r'
}

/// `s` without its leading blanks.
pub open spec fn skip_blanks(s: Seq<char>) -> Seq<char>
    decreases s.len(),
{
    if s.len() > 0 && is_blank(s[0]) {
        skip_blanks(s.skip(1))
    } else {
        s
    }
}

pub proof fn lemma_skip_blanks_at(s: Seq<char>, k: int)
    requires
        0 <= k <= s.len(),
        forall|j: int| 0 <= j < k ==> is_blank(s[j]),
        k < s.len() ==> !is_blank(s[k]),
    ensures
        skip_blanks(s) == s.skip(k),
    decreases k,
{
    if k == 0 {
        assert(s.skip(0) =~= s);
    } else {
        assert(is_blank(s[0]));
        assert forall|j: int| 0 <= j < k - 1 implies is_blank(s.skip(1)[j]) by {
            assert(s.skip(1)[j] == s[j + 1]);
        }
        assert(k - 1 < s.skip(1).len() ==> !is_blank(s.skip(1)[k - 1]));
        lemma_skip_blanks_at(s.skip(1), k - 1);
        assert(s.skip(1).skip(k - 1) =~= s.skip(k));
    }
}

/// `line` assigns something to `key`: the key itself at the start, optional
/// blanks, then `=`.
pub open spec fn is_assign_line(line: Seq<char>, key: Seq<char>) -> bool {
    starts_with(line, key) && {
        let after = skip_blanks(line.skip(key.len() as int));
        after.len() > 0 && after[0] == '='
    }
}

/// The value `line` assigns to `key`: everything after the `=`, trimmed —
/// `None` when nothing at all follows the `=`, and `None` when `line` is no
/// assignment line.
pub open spec fn assign_value(line: Seq<char>, key: Seq<char>) -> Option<Seq<char>> {
    if is_assign_line(line, key) {
        let rest = skip_blanks(line.skip(key.len() as int)).skip(1);
        if rest.len() > 0 {
            Some(trim_spec(rest))
        } else {
            None
        }
    } else {
        None
    }
}

/// Some line assigns to `key`.
pub open spec fn has_assign(ls: Seq<Seq<char>>, key: Seq<char>) -> bool {
    exists|i: int| 0 <= i < ls.len() && is_assign_line(ls[i], key)
}

/// The value of the first line that assigns a value to `key`.
pub open spec fn first_value(ls: Seq<Seq<char>>, key: Seq<char>) -> Option<Seq<char>>
    decreases ls.len(),
{
    if ls.len() == 0 {
        None
    } else if assign_value(ls[0], key) is Some {
        assign_value(ls[0], key)
    } else {
        first_value(ls.skip(1), key)
    }
}

/// The lines with the first assignment line to `key` replaced by `nl`.
pub open spec fn replace_first_assign(
    ls: Seq<Seq<char>>,
    key: Seq<char>,
    nl: Seq<char>,
) -> Seq<Seq<char>>
    decreases ls.len(),
{
    if ls.len() == 0 {
        ls
    } else if is_assign_line(ls[0], key) {
        seq![nl] + ls.skip(1)
    } else {
        seq![ls[0]] + replace_first_assign(ls.skip(1), key, nl)
    }
}

/// Some line equals `marker` exactly.
pub open spec fn has_marker(ls: Seq<Seq<char>>, marker: Seq<char>) -> bool {
    exists|i: int| 0 <= i < ls.len() && ls[i] == marker
}

/// The lines with `nl` inserted right after the first line equal to
/// `marker`.
pub open spec fn insert_after_first(
    ls: Seq<Seq<char>>,
    marker: Seq<char>,
    nl: Seq<char>,
) -> Seq<Seq<char>>
    decreases ls.len(),
{
    if ls.len() == 0 {
        ls
    } else if ls[0] == marker {
        seq![ls[0], nl] + ls.skip(1)
    } else {
        seq![ls[0]] + insert_after_first(ls.skip(1), marker, nl)
    }
}

/// Whether `a` and `b` hold the same characters.
pub fn chars_eq(a: &Vec<char>, b: &Vec<char>) -> (r: bool)
    ensures
        r == (a@ == b@),
{
    if a.len() != b.len() {
        return false;
    }
    let mut i: usize = 0;
    while i < a.len()
        invariant
            i <= a@.len(),
            a@.len() == b@.len(),
            forall|j: int| 0 <= j < i ==> a@[j] == b@[j],
        decreases a@.len() - i,
    {
        if a[i] != b[i] {
            return false;
        }
        i += 1;
    }
    proof {
        assert(a@ =~= b@);
    }
    true
}

/// Whether `line` is an assignment line for `key`.
pub fn is_assign_line_exec(line: &Vec<char>, key: &Vec<char>) -> (r: bool)
    ensures
        r == is_assign_line(line@, key@),
{
    if key.len() > line.len() || !match_at(line, key, 0) {
        proof {
            if key@.len() <= line@.len() {
                assert(line@.subrange(0, key@.len() as int) =~= line@.subrange(
                    0int,
                    0int + key@.len() as int,
                ));
            }
        }
        return false;
    }
    proof {
        assert(line@.subrange(0, key@.len() as int) =~= line@.subrange(
            0int,
            0int + key@.len() as int,
        ));
    }
    let mut i: usize = key.len();
    while i < line.len() && (line[i] == ' ' || line[i] == '\t' || line[i] == '\r')
        invariant
            key@.len() <= i <= line@.len(),
            forall|j: int| key@.len() <= j < i ==> is_blank(line@[j]),
        decreases line@.len() - i,
    {
        i += 1;
    }
    let ghost rest = line@.skip(key@.len() as int);
    proof {
        assert forall|j: int| 0 <= j < i - key@.len() implies is_blank(rest[j]) by {
            assert(rest[j] == line@[j + key@.len()]);
        }
        if i < line@.len() {
            assert(rest[i - key@.len()] == line@[i as int]);
        }
        lemma_skip_blanks_at(rest, i - key@.len());
        assert(skip_blanks(rest) =~= line@.skip(i as int));
        if i < line@.len() {
            assert(skip_blanks(rest)[0] == line@[i as int]);
        }
    }
    i < line.len() && line[i] == '='
}

/// The value `line` assigns to `key`, if any.
pub fn assign_value_exec(line: &Vec<char>, key: &Vec<char>) -> (r: Option<Vec<char>>)
    ensures
        match r {
            Some(v) => assign_value(line@, key@) == Some(v@),
            None => assign_value(line@, key@) is None,
        },
{
    if key.len() > line.len() || !match_at(line, key, 0) {
        proof {
            if key@.len() <= line@.len() {
                assert(line@.subrange(0, key@.len() as int) =~= line@.subrange(
                    0int,
                    0int + key@.len() as int,
                ));
            }
        }
        return None;
    }
    proof {
        assert(line@.subrange(0, key@.len() as int) =~= line@.subrange(
            0int,
            0int + key@.len() as int,
        ));
    }
    let mut i: usize = key.len();
    while i < line.len() && (line[i] == ' ' || line[i] == '\t' || line[i] == '\r')
        invariant
            key@.len() <= i <= line@.len(),
            forall|j: int| key@.len() <= j < i ==> is_blank(line@[j]),
        decreases line@.len() - i,
    {
        i += 1;
    }
    let ghost rest = line@.skip(key@.len() as int);
    proof {
        assert forall|j: int| 0 <= j < i - key@.len() implies is_blank(rest[j]) by {
            assert(rest[j] == line@[j + key@.len()]);
        }
        if i < line@.len() {
            assert(rest[i - key@.len()] == line@[i as int]);
        }
        lemma_skip_blanks_at(rest, i - key@.len());
        assert(skip_blanks(rest) =~= line@.skip(i as int));
        if i < line@.len() {
            assert(skip_blanks(rest)[0] == line@[i as int]);
        }
    }
    if !(i < line.len() && line[i] == '=') {
        return None;
    }
    let start = i + 1;
    if start >= line.len() {
        proof {
            assert(skip_blanks(rest).skip(1) =~= line@.skip(start as int));
        }
        return None;
    }
    let mut v: Vec<char> = Vec::new();
    let mut j: usize = start;
    while j < line.len()
        invariant
            start <= j <= line@.len(),
            v@ == line@.subrange(start as int, j as int),
        decreases line@.len() - j,
    {
        v.push(line[j]);
        proof {
            assert(line@.subrange(start as int, j + 1) =~= line@.subrange(
                start as int,
                j as int,
            ).push(line@[j as int]));
        }
        j += 1;
    }
    proof {
        assert(v@ =~= line@.skip(start as int));
        assert(skip_blanks(rest).skip(1) =~= line@.skip(start as int));
    }
    Some(trim_chars(&v))
}


/// The value of the first line that assigns a value to `key`.
pub fn first_value_exec(lines: &Vec<Vec<char>>, key: &Vec<char>) -> (r: Option<Vec<char>>)
    ensures
        match r {
            Some(v) => first_value(crate::text::line_views(lines@), key@) == Some(v@),
            None => first_value(crate::text::line_views(lines@), key@) is None,
        },
{
    let ghost lv = crate::text::line_views(lines@);
    let mut i: usize = 0;
    proof {
        assert(lv.skip(0) =~= lv);
    }
    while i < lines.len()
        invariant
            i <= lines@.len(),
            lv == crate::text::line_views(lines@),
            first_value(lv, key@) == first_value(lv.skip(i as int), key@),
        decreases lines@.len() - i,
    {
        proof {
            assert(lv[i as int] == lines@[i as int]@);
            assert(lv.skip(i as int)[0] == lv[i as int]);
            assert(lv.skip(i as int).skip(1) =~= lv.skip(i + 1));
        }
        match assign_value_exec(&lines[i], key) {
            Some(v) => {
                return Some(v);
            },
            None => {},
        }
        i += 1;
    }
    proof {
        assert(lv.skip(i as int) =~= Seq::<Seq<char>>::empty());
    }
    None
}


/// The index of the first line that assigns to `key`.
pub fn find_assign_index(lines: &Vec<Vec<char>>, key: &Vec<char>) -> (r: Option<usize>)
    ensures
        match r {
            Some(f) => f < lines@.len() && is_assign_line(lines@[f as int]@, key@) && forall|j: int|
                0 <= j < f ==> !is_assign_line(crate::text::line_views(lines@)[j], key@),
            None => !has_assign(crate::text::line_views(lines@), key@),
        },
{
    let ghost lv = crate::text::line_views(lines@);
    let mut i: usize = 0;
    while i < lines.len()
        invariant
            i <= lines@.len(),
            lv == crate::text::line_views(lines@),
            forall|j: int| 0 <= j < i ==> !is_assign_line(lv[j], key@),
        decreases lines@.len() - i,
    {
        proof {
            assert(lv[i as int] == lines@[i as int]@);
        }
        if is_assign_line_exec(&lines[i], key) {
            return Some(i);
        }
        i += 1;
    }
    None
}

/// The index of the first line equal to `marker`.
pub fn find_marker_index(lines: &Vec<Vec<char>>, marker: &Vec<char>) -> (r: Option<usize>)
    ensures
        match r {
            Some(f) => f < lines@.len() && lines@[f as int]@ == marker@ && forall|j: int|
                0 <= j < f ==> crate::text::line_views(lines@)[j] != marker@,
            None => !has_marker(crate::text::line_views(lines@), marker@),
        },
{
    let ghost lv = crate::text::line_views(lines@);
    let mut i: usize = 0;
    while i < lines.len()
        invariant
            i <= lines@.len(),
            lv == crate::text::line_views(lines@),
            forall|j: int| 0 <= j < i ==> lv[j] != marker@,
        decreases lines@.len() - i,
    {
        proof {
            assert(lv[i as int] == lines@[i as int]@);
        }
        if chars_eq(&lines[i], marker) {
            return Some(i);
        }
        i += 1;
    }
    None
}

/// Replacing the first assignment line swaps index `f` — the first index
/// that assigns — for the new line and keeps everything else.
pub proof fn lemma_replace_first_at(ls: Seq<Seq<char>>, key: Seq<char>, nl: Seq<char>, f: int)
    requires
        0 <= f < ls.len(),
        is_assign_line(ls[f], key),
        forall|j: int| 0 <= j < f ==> !is_assign_line(ls[j], key),
    ensures
        replace_first_assign(ls, key, nl) == ls.take(f) + seq![nl] + ls.skip(f + 1),
    decreases f,
{
    if f == 0 {
        assert(ls.take(0) =~= Seq::<Seq<char>>::empty());
        assert(replace_first_assign(ls, key, nl) =~= ls.take(0) + seq![nl] + ls.skip(1));
    } else {
        assert(!is_assign_line(ls[0], key));
        assert(ls.skip(1)[f - 1] == ls[f]);
        assert forall|j: int| 0 <= j < f - 1 implies !is_assign_line(ls.skip(1)[j], key) by {
            assert(ls.skip(1)[j] == ls[j + 1]);
        }
        lemma_replace_first_at(ls.skip(1), key, nl, f - 1);
        assert(ls.skip(1).take(f - 1) =~= ls.subrange(1, f));
        assert(ls.skip(1).skip(f) =~= ls.skip(f + 1));
        assert(seq![ls[0]] + (ls.subrange(1, f) + seq![nl] + ls.skip(f + 1)) =~= ls.take(f)
            + seq![nl] + ls.skip(f + 1));
    }
}

/// Inserting after the first marker line keeps indexes up to `f` — the
/// first index equal to the marker — adds the new line, and keeps the rest.
pub proof fn lemma_insert_after_at(ls: Seq<Seq<char>>, marker: Seq<char>, nl: Seq<char>, f: int)
    requires
        0 <= f < ls.len(),
        ls[f] == marker,
        forall|j: int| 0 <= j < f ==> ls[j] != marker,
    ensures
        insert_after_first(ls, marker, nl) == ls.take(f + 1) + seq![nl] + ls.skip(f + 1),
    decreases f,
{
    if f == 0 {
        assert(ls.take(1) =~= seq![ls[0]]);
        assert(insert_after_first(ls, marker, nl) =~= ls.take(1) + seq![nl] + ls.skip(1));
    } else {
        assert(ls[0] != marker);
        assert(ls.skip(1)[f - 1] == ls[f]);
        assert forall|j: int| 0 <= j < f - 1 implies ls.skip(1)[j] != marker by {
            assert(ls.skip(1)[j] == ls[j + 1]);
        }
        lemma_insert_after_at(ls.skip(1), marker, nl, f - 1);
        assert(ls.skip(1).take(f) =~= ls.subrange(1, f + 1));
        assert(ls.skip(1).skip(f) =~= ls.skip(f + 1));
        assert(seq![ls[0]] + (ls.subrange(1, f + 1) + seq![nl] + ls.skip(f + 1)) =~= ls.take(f + 1)
            + seq![nl] + ls.skip(f + 1));
    }
}

/// `lines` with the lines at indexes `from..to` appended to `out`.
fn push_range(out: &mut Vec<Vec<char>>, lines: &mut Vec<Vec<char>>, count: usize)
    requires
        count <= old(lines)@.len(),
    ensures
        final(out)@ == old(out)@ + old(lines)@.subrange(0, count as int),
        final(lines)@ == old(lines)@.skip(count as int),
{
    let mut k: usize = 0;
    while k < count
        invariant
            k <= count <= old(lines)@.len(),
            out@ == old(out)@ + old(lines)@.subrange(0, k as int),
            lines@ == old(lines)@.skip(k as int),
        decreases count - k,
    {
        let l = lines.remove(0);
        proof {
            assert(old(lines)@.skip(k as int)[0] == old(lines)@[k as int]);
            assert(old(lines)@.skip(k as int).remove(0) =~= old(lines)@.skip(k + 1));
        }
        out.push(l);
        proof {
            assert(old(out)@ + old(lines)@.subrange(0, k + 1) =~= (old(out)@
                + old(lines)@.subrange(0, k as int)).push(old(lines)@[k as int]));
        }
        k += 1;
    }
    proof {
        assert(out@ =~= old(out)@ + old(lines)@.subrange(0, count as int));
    }
}

/// The lines with the first assignment line to `key` replaced by `nl`.
pub fn replace_first_assign_exec(lines: Vec<Vec<char>>, key: &Vec<char>, nl: Vec<char>) -> (r:
    Vec<Vec<char>>)
    ensures
        crate::text::line_views(r@) == replace_first_assign(
            crate::text::line_views(lines@),
            key@,
            nl@,
        ),
{
    let ghost lv = crate::text::line_views(lines@);
    match find_assign_index(&lines, key) {
        None => {
            proof {
                lemma_replace_none(lv, key@, nl@);
            }
            lines
        },
        Some(f) => {
            let mut rem = lines;
            let mut out: Vec<Vec<char>> = Vec::new();
            push_range(&mut out, &mut rem, f);
            let _dropped = rem.remove(0);
            out.push(nl);
            let n = rem.len();
            push_range(&mut out, &mut rem, n);
            proof {
                lemma_replace_first_at(lv, key@, nl@, f as int);
                assert(crate::text::line_views(out@) =~= lv.take(f as int) + seq![nl@] + lv.skip(
                    f + 1,
                ));
            }
            out
        },
    }
}

/// When no line assigns to `key`, replacing changes nothing.
proof fn lemma_replace_none(ls: Seq<Seq<char>>, key: Seq<char>, nl: Seq<char>)
    requires
        !has_assign(ls, key),
    ensures
        replace_first_assign(ls, key, nl) == ls,
    decreases ls.len(),
{
    if ls.len() > 0 {
        assert(!is_assign_line(ls[0], key));
        assert forall|j: int| 0 <= j < ls.skip(1).len() implies !is_assign_line(
            ls.skip(1)[j],
            key,
        ) by {
            assert(ls.skip(1)[j] == ls[j + 1]);
        }
        lemma_replace_none(ls.skip(1), key, nl);
        assert(seq![ls[0]] + ls.skip(1) =~= ls);
    }
}

/// The lines with `nl` inserted right after the first line equal to
/// `marker`; unchanged when no line is.
pub fn insert_after_first_exec(lines: Vec<Vec<char>>, marker: &Vec<char>, nl: Vec<char>) -> (r:
    Vec<Vec<char>>)
    ensures
        crate::text::line_views(r@) == insert_after_first(
            crate::text::line_views(lines@),
            marker@,
            nl@,
        ),
{
    let ghost lv = crate::text::line_views(lines@);
    match find_marker_index(&lines, marker) {
        None => {
            proof {
                lemma_insert_none(lv, marker@, nl@);
            }
            lines
        },
        Some(f) => {
            let mut rem = lines;
            let mut out: Vec<Vec<char>> = Vec::new();
            let total = rem.len();
            proof {
                assert(f < total);
            }
            push_range(&mut out, &mut rem, f + 1);
            out.push(nl);
            let n = rem.len();
            push_range(&mut out, &mut rem, n);
            proof {
                lemma_insert_after_at(lv, marker@, nl@, f as int);
                assert(crate::text::line_views(out@) =~= lv.take(f + 1) + seq![nl@] + lv.skip(
                    f + 1,
                ));
            }
            out
        },
    }
}

/// When no line equals `marker`, inserting changes nothing.
proof fn lemma_insert_none(ls: Seq<Seq<char>>, marker: Seq<char>, nl: Seq<char>)
    requires
        !has_marker(ls, marker),
    ensures
        insert_after_first(ls, marker, nl) == ls,
    decreases ls.len(),
{
    if ls.len() > 0 {
        assert(ls[0] != marker);
        assert forall|j: int| 0 <= j < ls.skip(1).len() implies ls.skip(1)[j] != marker by {
            assert(ls.skip(1)[j] == ls[j + 1]);
        }
        lemma_insert_none(ls.skip(1), marker, nl);
        assert(seq![ls[0]] + ls.skip(1) =~= ls);
    }
}


/// How many lines assign to `key`.
pub open spec fn count_assign(ls: Seq<Seq<char>>, key: Seq<char>) -> int
    decreases ls.len(),
{
    if ls.len() == 0 {
        0
    } else {
        (if is_assign_line(ls[0], key) {
            1int
        } else {
            0int
        }) + count_assign(ls.skip(1), key)
    }
}

pub proof fn lemma_count_assign_nonneg(ls: Seq<Seq<char>>, key: Seq<char>)
    ensures
        count_assign(ls, key) >= 0,
    decreases ls.len(),
{
    if ls.len() > 0 {
        lemma_count_assign_nonneg(ls.skip(1), key);
    }
}

/// No line assigns to `key` exactly when the count is zero.
pub proof fn lemma_count_assign_zero(ls: Seq<Seq<char>>, key: Seq<char>)
    ensures
        (count_assign(ls, key) == 0) <==> !has_assign(ls, key),
    decreases ls.len(),
{
    if ls.len() > 0 {
        lemma_count_assign_nonneg(ls.skip(1), key);
        lemma_count_assign_zero(ls.skip(1), key);
        if has_assign(ls, key) {
            let i = choose|i: int| 0 <= i < ls.len() && is_assign_line(ls[i], key);
            if i > 0 {
                assert(ls.skip(1)[i - 1] == ls[i]);
                assert(has_assign(ls.skip(1), key));
            }
        }
        if has_assign(ls.skip(1), key) {
            let i = choose|i: int| 0 <= i < ls.skip(1).len() && is_assign_line(ls.skip(1)[i], key);
            assert(ls[i + 1] == ls.skip(1)[i]);
            assert(has_assign(ls, key));
        }
    }
}

/// Counting distributes over concatenation.
pub proof fn lemma_count_assign_append(a: Seq<Seq<char>>, b: Seq<Seq<char>>, key: Seq<char>)
    ensures
        count_assign(a + b, key) == count_assign(a, key) + count_assign(b, key),
    decreases a.len(),
{
    if a.len() == 0 {
        assert(a + b =~= b);
    } else {
        assert((a + b).skip(1) =~= a.skip(1) + b);
        assert((a + b)[0] == a[0]);
        lemma_count_assign_append(a.skip(1), b, key);
    }
}

/// When every line before `f` does not assign and line `f` assigns a value,
/// that value is the one read.
pub proof fn lemma_first_value_at(ls: Seq<Seq<char>>, key: Seq<char>, f: int)
    requires
        0 <= f < ls.len(),
        forall|j: int| 0 <= j < f ==> !is_assign_line(ls[j], key),
        assign_value(ls[f], key) is Some,
    ensures
        first_value(ls, key) == assign_value(ls[f], key),
    decreases f,
{
    if f == 0 {
    } else {
        assert(assign_value(ls[0], key) is None);
        assert(ls.skip(1)[f - 1] == ls[f]);
        assert forall|j: int| 0 <= j < f - 1 implies !is_assign_line(ls.skip(1)[j], key) by {
            assert(ls.skip(1)[j] == ls[j + 1]);
        }
        lemma_first_value_at(ls.skip(1), key, f - 1);
    }
}

/// The index of the first line assigning to `key`.
pub proof fn first_assign_index(ls: Seq<Seq<char>>, key: Seq<char>) -> (f: int)
    requires
        has_assign(ls, key),
    ensures
        0 <= f < ls.len(),
        is_assign_line(ls[f], key),
        forall|j: int| 0 <= j < f ==> !is_assign_line(ls[j], key),
    decreases ls.len(),
{
    if is_assign_line(ls[0], key) {
        0
    } else {
        let i = choose|i: int| 0 <= i < ls.len() && is_assign_line(ls[i], key);
        assert(ls.skip(1)[i - 1] == ls[i]);
        assert(has_assign(ls.skip(1), key));
        let g = first_assign_index(ls.skip(1), key);
        assert(ls[g + 1] == ls.skip(1)[g]);
        assert forall|j: int| 0 <= j < g + 1 implies !is_assign_line(ls[j], key) by {
            if j > 0 {
                assert(ls.skip(1)[j - 1] == ls[j]);
            }
        }
        g + 1
    }
}

/// The index of the first line equal to `marker`.
pub proof fn first_marker_index(ls: Seq<Seq<char>>, marker: Seq<char>) -> (f: int)
    requires
        has_marker(ls, marker),
    ensures
        0 <= f < ls.len(),
        ls[f] == marker,
        forall|j: int| 0 <= j < f ==> ls[j] != marker,
    decreases ls.len(),
{
    if ls[0] == marker {
        0
    } else {
        let i = choose|i: int| 0 <= i < ls.len() && ls[i] == marker;
        assert(ls.skip(1)[i - 1] == ls[i]);
        assert(has_marker(ls.skip(1), marker));
        let g = first_marker_index(ls.skip(1), marker);
        assert(ls[g + 1] == ls.skip(1)[g]);
        assert forall|j: int| 0 <= j < g + 1 implies ls[j] != marker by {
            if j > 0 {
                assert(ls.skip(1)[j - 1] == ls[j]);
            }
        }
        g + 1
    }
}


/// The count of a single line.
pub proof fn lemma_count_singleton(l: Seq<char>, key: Seq<char>)
    ensures
        count_assign(seq![l], key) == (if is_assign_line(l, key) {
            1int
        } else {
            0int
        }),
{
    assert(seq![l].skip(1) =~= Seq::<Seq<char>>::empty());
    assert(count_assign(Seq::<Seq<char>>::empty(), key) == 0);
    assert(seq![l][0] == l);
    assert(count_assign(seq![l], key) == (if is_assign_line(l, key) {
        1int
    } else {
        0int
    }) + count_assign(seq![l].skip(1), key));
}

} // verus!
