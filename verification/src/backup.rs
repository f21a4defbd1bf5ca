//! Timestamp-versioned backups of a single configuration file.
//!
//! A snapshot of `<name>` taken at epoch second `t` lives beside the
//! original under the name `<name>.bak.<t>`.  Restoring picks the
//! lexicographically greatest sibling carrying that prefix — the most recent
//! snapshot, as long as the decimal timestamps have the same number of
//! digits (an accepted limitation of the naming scheme) — and copies it over
//! the live file.  The functions here compute the names and the selection;
//! the caller performs the copies.

use vstd::prelude::*;

use crate::text::{
    lemma_lex_le_antisymmetric, lemma_lex_le_refl, lemma_lex_le_total, lemma_lex_le_transitive,
    lex_le, starts_with, str_lex_le, str_starts_with,
};

verus! {

/// The decimal digit character for `d`.
pub open spec fn dec_digit(d: nat) -> char {
    if d == 0 {
        '0'
    } else if d == 1 {
        '1'
    } else if d == 2 {
        '2'
    } else if d == 3 {
        '3'
    } else if d == 4 {
        '4'
    } else if d == 5 {
        '5'
    } else if d == 6 {
        '6'
    } else if d == 7 {
        '7'
    } else if d == 8 {
        '8'
    } else {
        '9'
    }
}

/// The decimal numeral of `n`, without leading zeros (except for `n == 0`).
pub open spec fn dec_str(n: nat) -> Seq<char>
    decreases n,
{
    if n < 10 {
        seq![dec_digit(n)]
    } else {
        dec_str(n / 10).push(dec_digit(n % 10))
    }
}

pub proof fn lemma_dec_str_len(n: nat)
    ensures
        dec_str(n).len() >= 1,
    decreases n,
{
    if n >= 10 {
        lemma_dec_str_len(n / 10);
    }
}

/// The name under which a snapshot of `file_name` taken at `ts` is stored.
pub open spec fn backup_name_spec(file_name: Seq<char>, ts: u64) -> Seq<char> {
    backup_prefix_spec(file_name) + dec_str(ts as nat)
}

/// The prefix every snapshot of `file_name` carries.
pub open spec fn backup_prefix_spec(file_name: Seq<char>) -> Seq<char> {
    file_name + ".bak."@
}

/// `entry` names a snapshot of `file_name`.
pub open spec fn is_backup_of(file_name: Seq<char>, entry: Seq<char>) -> bool {
    starts_with(entry, backup_prefix_spec(file_name))
}

fn dec_digit_char(d: u64) -> (c: char)
    requires
        d < 10,
    ensures
        c == dec_digit(d as nat),
{
    if d == 0 {
        '0'
    } else if d == 1 {
        '1'
    } else if d == 2 {
        '2'
    } else if d == 3 {
        '3'
    } else if d == 4 {
        '4'
    } else if d == 5 {
        '5'
    } else if d == 6 {
        '6'
    } else if d == 7 {
        '7'
    } else if d == 8 {
        '8'
    } else {
        '9'
    }
}

fn u64_dec_chars(n: u64) -> (r: Vec<char>)
    ensures
        r@ == dec_str(n as nat),
    decreases n,
{
    if n < 10 {
        let mut r: Vec<char> = Vec::new();
        r.push(dec_digit_char(n));
        proof {
            assert(r@ =~= seq![dec_digit(n as nat)]);
        }
        r
    } else {
        let mut r = u64_dec_chars(n / 10);
        r.push(dec_digit_char(n % 10));
        r
    }
}

/// The snapshot name for `file_name` at epoch second `timestamp`:
/// `<file_name>.bak.<timestamp>`.
pub fn backup_file_name(file_name: &str, timestamp: u64) -> (r: String)
    ensures
        r@ == backup_name_spec(file_name@, timestamp),
{
    let mut r = String::from_str(file_name);
    r.append(".bak.");
    let digits = u64_dec_chars(timestamp);
    let ds = crate::text::string_from_chars(&digits);
    r.append(ds.as_str());
    proof {
        assert(r@ =~= backup_name_spec(file_name@, timestamp));
    }
    r
}

/// Some entry names a snapshot of `file_name`.
pub open spec fn has_backup(file_name: Seq<char>, entries: Seq<Seq<char>>) -> bool {
    exists|i: int| 0 <= i < entries.len() && is_backup_of(file_name, entries[i])
}

/// `b` is the entry a restore selects: a snapshot of `file_name` that no
/// other listed snapshot exceeds lexicographically.
pub open spec fn restore_selects(
    file_name: Seq<char>,
    entries: Seq<Seq<char>>,
    b: Seq<char>,
) -> bool {
    &&& exists|i: int| 0 <= i < entries.len() && entries[i] == b
    &&& is_backup_of(file_name, b)
    &&& forall|i: int|
        0 <= i < entries.len() && is_backup_of(file_name, entries[i]) ==> lex_le(entries[i], b)
}

/// Among the directory entries `entries`, the lexicographically greatest one
/// naming a snapshot of `file_name`, or `None` when no entry does.
pub fn select_latest_backup(file_name: &str, entries: &Vec<String>) -> (r: Option<String>)
    ensures
        match r {
            Some(b) => restore_selects(file_name@, crate::traits::str_views(entries@), b@),
            None => !has_backup(file_name@, crate::traits::str_views(entries@)),
        },
{
    let mut prefix = String::from_str(file_name);
    prefix.append(".bak.");
    proof {
        assert(prefix@ == backup_prefix_spec(file_name@));
    }
    let mut best: Option<usize> = None;
    let mut i: usize = 0;
    while i < entries.len()
        invariant
            i <= entries@.len(),
            prefix@ == backup_prefix_spec(file_name@),
            match best {
                Some(bi) => {
                    &&& bi < i
                    &&& is_backup_of(file_name@, entries@[bi as int]@)
                    &&& forall|j: int|
                        0 <= j < i && is_backup_of(file_name@, entries@[j]@) ==> lex_le(
                            entries@[j]@,
                            entries@[bi as int]@,
                        )
                },
                None => forall|j: int| 0 <= j < i ==> !is_backup_of(file_name@, entries@[j]@),
            },
        decreases entries@.len() - i,
    {
        if str_starts_with(entries[i].as_str(), prefix.as_str()) {
            proof {
                lemma_lex_le_refl(entries@[i as int]@);
            }
            match best {
                None => {
                    best = Some(i);
                },
                Some(bi) => {
                    if str_lex_le(entries[bi].as_str(), entries[i].as_str()) {
                        proof {
                            assert forall|j: int|
                                0 <= j < i && is_backup_of(
                                    file_name@,
                                    entries@[j]@,
                                ) implies lex_le(entries@[j]@, entries@[i as int]@) by {
                                lemma_lex_le_transitive(
                                    entries@[j]@,
                                    entries@[bi as int]@,
                                    entries@[i as int]@,
                                );
                            }
                        }
                        best = Some(i);
                    } else {
                        proof {
                            lemma_lex_le_total(entries@[bi as int]@, entries@[i as int]@);
                        }
                    }
                },
            }
        }
        i += 1;
    }
    match best {
        None => {
            proof {
                let es = crate::traits::str_views(entries@);
                assert forall|j: int| 0 <= j < es.len() implies !is_backup_of(
                    file_name@,
                    es[j],
                ) by {
                    assert(es[j] == entries@[j]@);
                }
            }
            None
        },
        Some(bi) => {
            let b = entries[bi].clone();
            proof {
                let es = crate::traits::str_views(entries@);
                assert(es[bi as int] == entries@[bi as int]@);
                assert(b@ == entries@[bi as int]@);
                assert forall|j: int|
                    0 <= j < es.len() && is_backup_of(file_name@, es[j]) implies lex_le(
                    es[j],
                    b@,
                ) by {
                    assert(es[j] == entries@[j]@);
                }
            }
            Some(b)
        },
    }
}

/// The file name component of a `/`-separated path: the suffix after the
/// last separator, or the whole path when it has none.
pub open spec fn base_name_spec(p: Seq<char>) -> Seq<char>
    decreases p.len(),
{
    if p.len() == 0 || !p.contains('/') {
        p
    } else {
        base_name_spec(p.skip(1))
    }
}

proof fn lemma_base_name_at(p: Seq<char>, i: int)
    requires
        0 <= i < p.len(),
        p[i] == '/',
        forall|j: int| i < j < p.len() ==> p[j] != '/',
    ensures
        base_name_spec(p) == p.skip(i + 1),
    decreases i,
{
    assert(p.contains('/'));
    assert(base_name_spec(p) == base_name_spec(p.skip(1)));
    if i == 0 {
        assert forall|j: int| 0 <= j < p.skip(1).len() implies p.skip(1)[j] != '/' by {
            assert(p.skip(1)[j] == p[j + 1]);
        }
        assert(!p.skip(1).contains('/'));
        assert(base_name_spec(p.skip(1)) == p.skip(1));
    } else {
        assert(p.skip(1)[i - 1] == '/');
        assert forall|j: int| i - 1 < j < p.skip(1).len() implies p.skip(1)[j] != '/' by {
            assert(p.skip(1)[j] == p[j + 1]);
        }
        lemma_base_name_at(p.skip(1), i - 1);
        assert(p.skip(1).skip(i) =~= p.skip(i + 1));
    }
}

/// The file name component of `path`.
pub fn base_name(path: &str) -> (r: String)
    ensures
        r@ == base_name_spec(path@),
{
    let v = crate::text::chars_of(path);
    let mut last: Option<usize> = None;
    let mut i: usize = 0;
    while i < v.len()
        invariant
            i <= v@.len(),
            v@ == path@,
            match last {
                Some(k) => k < i && v@[k as int] == '/' && forall|j: int|
                    k < j < i ==> v@[j] != '/',
                None => forall|j: int| 0 <= j < i ==> v@[j] != '/',
            },
        decreases v@.len() - i,
    {
        if v[i] == '/' {
            last = Some(i);
        }
        i += 1;
    }
    match last {
        None => {
            proof {
                assert(!path@.contains('/'));
            }
            String::from_str(path)
        },
        Some(k) => {
            let mut r: Vec<char> = Vec::new();
            let mut j: usize = k + 1;
            while j < v.len()
                invariant
                    k < j <= v@.len(),
                    v@ == path@,
                    r@ == v@.subrange(k + 1, j as int),
                decreases v@.len() - j,
            {
                r.push(v[j]);
                proof {
                    assert(v@.subrange(k + 1, j + 1) =~= v@.subrange(k + 1, j as int).push(
                        v@[j as int],
                    ));
                }
                j += 1;
            }
            proof {
                lemma_base_name_at(path@, k as int);
                assert(r@ =~= path@.skip(k + 1));
            }
            crate::text::string_from_chars(&r)
        },
    }
}

/// What a file-backed adapter's restore decides: copy the latest snapshot
/// of the configuration file over it.
pub open spec fn file_restore_ok(
    path: Seq<char>,
    entries: Seq<Seq<char>>,
    action: crate::traits::RestoreAction,
) -> bool {
    match action {
        crate::traits::RestoreAction::CopyBackup(b) => restore_selects(
            base_name_spec(path),
            entries,
            b@,
        ),
        _ => false,
    }
}

/// A file-backed adapter's restore fails exactly when no snapshot of the
/// configuration file is listed.
pub open spec fn file_restore_errs(path: Seq<char>, entries: Seq<Seq<char>>) -> bool {
    !has_backup(base_name_spec(path), entries)
}

/// The restore plan for the file at `path`, from its sibling directory
/// entries: copy the most recent snapshot back, or fail when none exists —
/// the live file is not touched either way.
pub fn restore_from_entries(path: &str, entries: &Vec<String>) -> (r: Result<
    crate::traits::RestoreAction,
    crate::error::MirrorError,
>)
    ensures
        match r {
            Ok(a) => !file_restore_errs(path@, crate::traits::str_views(entries@))
                && file_restore_ok(path@, crate::traits::str_views(entries@), a),
            Err(e) => file_restore_errs(path@, crate::traits::str_views(entries@))
                && e.spec_message() == "No backup files found."@,
        },
{
    let name = base_name(path);
    match select_latest_backup(name.as_str(), entries) {
        Some(b) => {
            proof {
                let es = crate::traits::str_views(entries@);
                let i = choose|i: int| 0 <= i < es.len() && es[i] == b@;
                assert(is_backup_of(base_name_spec(path@), es[i]));
            }
            Ok(crate::traits::RestoreAction::CopyBackup(b))
        },
        None => Err(
            crate::error::MirrorError::Custom(String::from_str("No backup files found.")),
        ),
    }
}

/// The directory after a save: when the live file exists with non-empty
/// content, exactly one snapshot named for `ts` is added, holding that
/// content; a missing or brand-new empty file adds nothing.
pub open spec fn dir_save(
    dir: Map<Seq<char>, Seq<char>>,
    f: Seq<char>,
    ts: u64,
) -> Map<Seq<char>, Seq<char>> {
    if dir.contains_key(f) && dir[f].len() > 0 {
        dir.insert(backup_name_spec(f, ts), dir[f])
    } else {
        dir
    }
}

/// `b` is a snapshot of `f` present in `dir` that no other present snapshot
/// of `f` exceeds lexicographically — the one a restore selects.
pub open spec fn is_latest_backup(
    dir: Map<Seq<char>, Seq<char>>,
    f: Seq<char>,
    b: Seq<char>,
) -> bool {
    &&& dir.contains_key(b)
    &&& is_backup_of(f, b)
    &&& forall|n: Seq<char>|
        dir.contains_key(n) && is_backup_of(f, n) ==> lex_le(n, b)
}

/// The directory after restoring snapshot `b` of `f`: the snapshot's content
/// copied over the live file.
pub open spec fn dir_restore(
    dir: Map<Seq<char>, Seq<char>>,
    f: Seq<char>,
    b: Seq<char>,
) -> Map<Seq<char>, Seq<char>> {
    dir.insert(f, dir[b])
}

proof fn lemma_backup_name_is_backup(f: Seq<char>, ts: u64)
    ensures
        is_backup_of(f, backup_name_spec(f, ts)),
        backup_name_spec(f, ts) != f,
        backup_name_spec(f, ts).len() > f.len(),
{
    let p = backup_prefix_spec(f);
    let b = backup_name_spec(f, ts);
    lemma_dec_str_len(ts as nat);
    reveal_strlit(".bak.");
    assert(p.len() == f.len() + 5);
    assert(b.len() == p.len() + dec_str(ts as nat).len());
    assert(b.subrange(0, p.len() as int) =~= p);
}

/// A file is never its own snapshot.
proof fn lemma_file_not_backup_of_self(f: Seq<char>)
    ensures
        !is_backup_of(f, f),
{
    reveal_strlit(".bak.");
    assert(backup_prefix_spec(f).len() == f.len() + 5);
}

/// Saving a snapshot of a file and then, after the file was modified,
/// restoring the latest snapshot reproduces the exact original content.
/// The save must carry a timestamp whose snapshot name does not sort below
/// any snapshot already present — the case for a monotone clock while the
/// decimal timestamps keep their digit count.
pub proof fn lemma_save_then_restore_round_trip(
    dir: Map<Seq<char>, Seq<char>>,
    f: Seq<char>,
    ts: u64,
    modified: Seq<char>,
)
    requires
        dir.contains_key(f),
        dir[f].len() > 0,
        forall|n: Seq<char>|
            dir.contains_key(n) && is_backup_of(f, n) ==> lex_le(n, backup_name_spec(f, ts)),
    ensures
        ({
            let b = backup_name_spec(f, ts);
            let touched = dir_save(dir, f, ts).insert(f, modified);
            &&& is_latest_backup(touched, f, b)
            &&& forall|n: Seq<char>| is_latest_backup(touched, f, n) ==> n == b
            &&& dir_restore(touched, f, b)[f] == dir[f]
        }),
{
    let b = backup_name_spec(f, ts);
    let saved = dir_save(dir, f, ts);
    let touched = saved.insert(f, modified);
    lemma_backup_name_is_backup(f, ts);
    lemma_file_not_backup_of_self(f);
    assert(touched.contains_key(b));
    assert(touched[b] == dir[f]);
    lemma_lex_le_refl(b);
    assert forall|n: Seq<char>| touched.contains_key(n) && is_backup_of(f, n) implies lex_le(
        n,
        b,
    ) by {
        if n != b && n != f {
            assert(dir.contains_key(n));
        }
    }
    assert forall|n: Seq<char>| is_latest_backup(touched, f, n) implies n == b by {
        lemma_lex_le_antisymmetric(n, b);
    }
}

/// Applying mirror A, then mirror B, then restoring once yields A's
/// configuration — a single-step undo, not the pre-A state.  An apply is a
/// save followed by a write of the new content; the second save must not
/// sort below the first, as a monotone clock guarantees while the decimal
/// timestamps keep their digit count.
pub proof fn lemma_apply_apply_restore(
    dir: Map<Seq<char>, Seq<char>>,
    f: Seq<char>,
    ts1: u64,
    content_a: Seq<char>,
    ts2: u64,
    content_b: Seq<char>,
)
    requires
        dir.contains_key(f),
        dir[f].len() > 0,
        content_a.len() > 0,
        forall|n: Seq<char>|
            dir.contains_key(n) && is_backup_of(f, n) ==> lex_le(n, backup_name_spec(f, ts1)),
        lex_le(backup_name_spec(f, ts1), backup_name_spec(f, ts2)),
    ensures
        ({
            let b2 = backup_name_spec(f, ts2);
            let after_a = dir_save(dir, f, ts1).insert(f, content_a);
            let after_b = dir_save(after_a, f, ts2).insert(f, content_b);
            &&& is_latest_backup(after_b, f, b2)
            &&& forall|n: Seq<char>| is_latest_backup(after_b, f, n) ==> n == b2
            &&& dir_restore(after_b, f, b2)[f] == content_a
        }),
{
    let b1 = backup_name_spec(f, ts1);
    let b2 = backup_name_spec(f, ts2);
    let after_a = dir_save(dir, f, ts1).insert(f, content_a);
    let after_b = dir_save(after_a, f, ts2).insert(f, content_b);
    lemma_backup_name_is_backup(f, ts1);
    lemma_backup_name_is_backup(f, ts2);
    lemma_file_not_backup_of_self(f);
    assert(after_a[f] == content_a);
    assert(dir_save(after_a, f, ts2) == after_a.insert(b2, content_a));
    assert(after_b[b2] == content_a);
    lemma_lex_le_refl(b2);
    assert forall|n: Seq<char>| after_b.contains_key(n) && is_backup_of(f, n) implies lex_le(
        n,
        b2,
    ) by {
        if n != b2 && n != f {
            if n == b1 {
            } else {
                assert(dir.contains_key(n));
                lemma_lex_le_transitive(n, b1, b2);
            }
        }
    }
    assert forall|n: Seq<char>| is_latest_backup(after_b, f, n) implies n == b2 by {
        lemma_lex_le_antisymmetric(n, b2);
    }
}


proof fn lemma_dec_digit_lt(x: nat, y: nat)
    requires
        x < y < 10,
    ensures
        dec_digit(x) < dec_digit(y),
{
}

proof fn lemma_dec_lt_ext(a: nat, b: nat, s: Seq<char>, t: Seq<char>)
    requires
        a < b,
        dec_str(a).len() == dec_str(b).len(),
    ensures
        lex_le(dec_str(a) + s, dec_str(b) + t),
    decreases b,
{
    if b < 10 {
        lemma_dec_digit_lt(a, b);
        let u = dec_str(a) + s;
        let v = dec_str(b) + t;
        assert(u[0] == dec_digit(a));
        assert(v[0] == dec_digit(b));
        assert(lex_le(u, v));
    } else {
        if a < 10 {
            lemma_dec_str_len(b / 10);
            assert(dec_str(b).len() >= 2);
            assert(false);
        }
        vstd::arithmetic::div_mod::lemma_div_is_ordered(a as int, b as int, 10);
        let qa = a / 10;
        let qb = b / 10;
        let da = dec_digit(a % 10);
        let db = dec_digit(b % 10);
        assert(dec_str(a) == dec_str(qa).push(da));
        assert(dec_str(b) == dec_str(qb).push(db));
        assert(dec_str(qa).len() == dec_str(qb).len());
        assert(dec_str(a) + s =~= dec_str(qa) + (seq![da] + s));
        assert(dec_str(b) + t =~= dec_str(qb) + (seq![db] + t));
        if qa < qb {
            lemma_dec_lt_ext(qa, qb, seq![da] + s, seq![db] + t);
        } else {
            vstd::arithmetic::div_mod::lemma_fundamental_div_mod(a as int, 10);
            vstd::arithmetic::div_mod::lemma_fundamental_div_mod(b as int, 10);
            assert(a % 10 < b % 10);
            lemma_dec_digit_lt(a % 10, b % 10);
            let u = seq![da] + s;
            let v = seq![db] + t;
            assert(u[0] == da && v[0] == db);
            assert(lex_le(u, v));
            crate::text::lemma_lex_append_common(dec_str(qa), u, v);
        }
    }
}

/// Within one digit width, the decimal numerals sort as the numbers do.
pub proof fn lemma_dec_str_le(a: u64, b: u64)
    requires
        a <= b,
        dec_str(a as nat).len() == dec_str(b as nat).len(),
    ensures
        lex_le(dec_str(a as nat), dec_str(b as nat)),
{
    if a == b {
        lemma_lex_le_refl(dec_str(a as nat));
    } else {
        lemma_dec_lt_ext(a as nat, b as nat, Seq::<char>::empty(), Seq::<char>::empty());
        assert(dec_str(a as nat) + Seq::<char>::empty() =~= dec_str(a as nat));
        assert(dec_str(b as nat) + Seq::<char>::empty() =~= dec_str(b as nat));
    }
}

/// A later timestamp of the same digit width names a snapshot that sorts
/// later — the form in which a monotone clock discharges the ordering
/// premises of the round-trip laws.
pub proof fn lemma_backup_name_order(f: Seq<char>, ts1: u64, ts2: u64)
    requires
        ts1 <= ts2,
        dec_str(ts1 as nat).len() == dec_str(ts2 as nat).len(),
    ensures
        lex_le(backup_name_spec(f, ts1), backup_name_spec(f, ts2)),
{
    lemma_dec_str_le(ts1, ts2);
    crate::text::lemma_lex_append_common(
        backup_prefix_spec(f),
        dec_str(ts1 as nat),
        dec_str(ts2 as nat),
    );
}

} // verus!
