//! Benchmark engine logic: turning probe outcomes into results and ranking
//! them.
//!
//! The network side of a probe — issuing the HEAD request and waiting out
//! the timeout — happens outside this crate.  What arrives here is one
//! [`ProbeOutcome`] per candidate, in candidate order; the functions below
//! turn them into [`BenchmarkResult`]s and rank them ascending by latency,
//! unreachable entries last.

use vstd::multiset::Multiset;
use vstd::prelude::*;

use crate::text::{chars_of, starts_with, string_from_chars, match_at};
use crate::error::MirrorError;
use crate::types::{BenchmarkResult, Mirror, SENTINEL_UNREACHABLE};

verus! {

/// What one latency probe observed.
#[derive(Debug)]
pub enum ProbeOutcome {
    /// A response arrived within the timeout; `success` tells whether its
    /// status was a success status, `elapsed_ms` the time from issuing the
    /// request until its headers were received.
    Response { success: bool, elapsed_ms: u64 },
    /// No response arrived: connection refused, DNS failure, TLS failure or
    /// timeout.
    Failure,
}

/// The latency a probe outcome reports: the elapsed time of a successful
/// response, the sentinel for everything else.  A response with a
/// non-success status counts as unreachable, not as "reachable but erroring".
pub open spec fn latency_of_outcome(o: ProbeOutcome) -> u64 {
    match o {
        ProbeOutcome::Response { success, elapsed_ms } => if success {
            elapsed_ms
        } else {
            SENTINEL_UNREACHABLE
        },
        ProbeOutcome::Failure => SENTINEL_UNREACHABLE,
    }
}

/// The result reported for `mirror` after its probe ended in `outcome`.
/// The mirror is reported as given, even when the probe ran against a
/// stripped URL.
pub fn probe_result(mirror: Mirror, outcome: ProbeOutcome) -> (r: BenchmarkResult)
    ensures
        r.mirror == mirror,
        r.latency_ms == latency_of_outcome(outcome),
{
    let latency_ms = match outcome {
        ProbeOutcome::Response { success, elapsed_ms } => if success {
            elapsed_ms
        } else {
            SENTINEL_UNREACHABLE
        },
        ProbeOutcome::Failure => SENTINEL_UNREACHABLE,
    };
    BenchmarkResult { mirror, latency_ms }
}

/// `s` with every leading repetition of `p` removed.
pub open spec fn strip_prefix_rep(s: Seq<char>, p: Seq<char>) -> Seq<char>
    decreases s.len(),
{
    if p.len() > 0 && starts_with(s, p) {
        strip_prefix_rep(s.skip(p.len() as int), p)
    } else {
        s
    }
}

/// The URL a probe actually targets: the mirror URL with any tool-specific
/// `sparse+` and `git+` scheme prefixes removed.
pub open spec fn strip_probe_spec(url: Seq<char>) -> Seq<char> {
    strip_prefix_rep(strip_prefix_rep(url, "sparse+"@), "git+"@)
}

fn strip_rep(v: Vec<char>, p: &Vec<char>) -> (r: Vec<char>)
    requires
        p@.len() > 0,
    ensures
        r@ == strip_prefix_rep(v@, p@),
    decreases v@.len(),
{
    if p.len() <= v.len() && match_at(&v, p, 0) {
        proof {
            assert(v@.subrange(0, p@.len() as int) =~= v@.subrange(0int, 0int + p@.len() as int));
            assert(starts_with(v@, p@));
        }
        let mut w: Vec<char> = Vec::new();
        let mut i: usize = p.len();
        while i < v.len()
            invariant
                p@.len() <= i <= v@.len(),
                w@ == v@.subrange(p@.len() as int, i as int),
            decreases v@.len() - i,
        {
            w.push(v[i]);
            proof {
                assert(v@.subrange(p@.len() as int, i + 1) =~= v@.subrange(
                    p@.len() as int,
                    i as int,
                ).push(v@[i as int]));
            }
            i += 1;
        }
        proof {
            assert(w@ =~= v@.skip(p@.len() as int));
        }
        strip_rep(w, p)
    } else {
        proof {
            if p@.len() <= v@.len() {
                assert(v@.subrange(0, p@.len() as int) =~= v@.subrange(
                    0int,
                    0int + p@.len() as int,
                ));
            }
            assert(!starts_with(v@, p@));
        }
        v
    }
}

/// The mirror URL with known scheme prefixes stripped, ready for probing.
pub fn strip_probe_prefix(url: &str) -> (r: String)
    ensures
        r@ == strip_probe_spec(url@),
{
    let sparse = chars_of("sparse+");
    let git = chars_of("git+");
    proof {
        reveal_strlit("sparse+");
        reveal_strlit("git+");
    }
    let v = chars_of(url);
    let v = strip_rep(v, &sparse);
    let v = strip_rep(v, &git);
    string_from_chars(&v)
}

/// Ranked ascending by latency; ties in any order.
pub open spec fn sorted_by_latency(s: Seq<BenchmarkResult>) -> bool {
    forall|i: int, j: int| 0 <= i < j < s.len() ==> s[i].latency_ms <= s[j].latency_ms
}

/// The results rearranged ascending by latency.  Nothing is dropped or
/// duplicated: the output holds exactly the input results.
pub fn rank_results(results: Vec<BenchmarkResult>) -> (r: Vec<BenchmarkResult>)
    ensures
        r@.len() == results@.len(),
        r@.to_multiset() == results@.to_multiset(),
        sorted_by_latency(r@),
{
    broadcast use vstd::seq_lib::group_to_multiset_ensures;

    let mut input = results;
    let mut out: Vec<BenchmarkResult> = Vec::new();
    proof {
        assert(out@.to_multiset() =~= Multiset::<BenchmarkResult>::empty());
        assert(out@.to_multiset().add(input@.to_multiset()) =~= results@.to_multiset());
    }
    while input.len() > 0
        invariant
            out@.len() + input@.len() == results@.len(),
            out@.to_multiset().add(input@.to_multiset()) == results@.to_multiset(),
            sorted_by_latency(out@),
            forall|i: int, j: int|
                0 <= i < out@.len() && 0 <= j < input@.len() ==> out@[i].latency_ms
                    <= input@[j].latency_ms,
        decreases input@.len(),
    {
        let mut mi: usize = 0;
        let mut k: usize = 1;
        while k < input.len()
            invariant
                mi < k <= input@.len(),
                input@.len() > 0,
                forall|j: int| 0 <= j < k ==> input@[mi as int].latency_ms <= input@[j].latency_ms,
            decreases input@.len() - k,
        {
            if input[k].latency_ms < input[mi].latency_ms {
                mi = k;
            }
            k += 1;
        }
        let ghost oin = input@;
        let ghost oout = out@;
        let x = input.remove(mi);
        out.push(x);
        proof {
            oin.to_multiset_ensures();
            oout.to_multiset_ensures();
            assert(input@ == oin.remove(mi as int));
            assert(input@.to_multiset() =~= oin.to_multiset().remove(x));
            assert(out@.to_multiset() =~= oout.to_multiset().insert(x));
            assert(oin.contains(x));
            assert(oin.to_multiset().count(x) > 0);
            assert(out@.to_multiset().add(input@.to_multiset()) =~= oout.to_multiset().add(
                oin.to_multiset(),
            ));
            assert forall|j: int| 0 <= j < input@.len() implies x.latency_ms
                <= input@[j].latency_ms by {
                if j < mi {
                    assert(input@[j] == oin[j]);
                } else {
                    assert(input@[j] == oin[j + 1]);
                }
            }
            assert forall|i: int, j: int|
                0 <= i < j < out@.len() implies out@[i].latency_ms <= out@[j].latency_ms by {
                if j < out@.len() - 1 {
                    assert(oout[i].latency_ms <= oout[j].latency_ms);
                }
            }
        }
    }
    proof {
        assert(input@.to_multiset() =~= Multiset::<BenchmarkResult>::empty());
        assert(out@.to_multiset().add(input@.to_multiset()) =~= out@.to_multiset());
        out@.to_multiset_ensures();
        results@.to_multiset_ensures();
    }
    out
}

/// The results a benchmark run reports, before ranking: the `i`-th candidate
/// paired with the latency its probe outcome gives.
pub open spec fn results_of(ms: Seq<Mirror>, os: Seq<ProbeOutcome>) -> Seq<BenchmarkResult> {
    Seq::new(ms.len(), |i: int| BenchmarkResult { mirror: ms[i], latency_ms: latency_of_outcome(os[i]) })
}

/// One benchmark run over a candidate set: every candidate's probe outcome
/// becomes a result — none dropped, none duplicated, unreachable candidates
/// included — and the results come back ranked ascending by latency.
pub fn benchmark(mirrors: Vec<Mirror>, outcomes: Vec<ProbeOutcome>) -> (r: Vec<BenchmarkResult>)
    requires
        mirrors@.len() == outcomes@.len(),
    ensures
        r@.len() == mirrors@.len(),
        r@.to_multiset() == results_of(mirrors@, outcomes@).to_multiset(),
        sorted_by_latency(r@),
{
    let ghost ms = mirrors@;
    let ghost os = outcomes@;
    let mut mirrors = mirrors;
    let mut outcomes = outcomes;
    let mut raw: Vec<BenchmarkResult> = Vec::new();
    let ghost n = ms.len();
    proof {
        assert(ms.skip(0) =~= ms);
        assert(os.skip(0) =~= os);
    }
    while mirrors.len() > 0
        invariant
            raw@.len() + mirrors@.len() == n,
            n == ms.len() == os.len(),
            mirrors@ == ms.skip(raw@.len() as int),
            outcomes@ == os.skip(raw@.len() as int),
            raw@ == results_of(ms, os).subrange(0, raw@.len() as int),
        decreases mirrors@.len(),
    {
        let ghost i = raw@.len() as int;
        let m = mirrors.remove(0);
        let o = outcomes.remove(0);
        proof {
            assert(m == ms[i]);
            assert(o == os[i]);
            assert(ms.skip(i).remove(0) =~= ms.skip(i + 1));
            assert(os.skip(i).remove(0) =~= os.skip(i + 1));
        }
        let res = probe_result(m, o);
        raw.push(res);
        proof {
            assert(res == results_of(ms, os)[i]);
            assert(results_of(ms, os).subrange(0, i + 1) =~= results_of(ms, os).subrange(
                0,
                i,
            ).push(results_of(ms, os)[i]));
        }
    }
    proof {
        assert(raw@ =~= results_of(ms, os));
    }
    rank_results(raw)
}

/// Once ranked, every unreachable entry stands strictly after every entry
/// with a measured latency.
pub proof fn lemma_sentinels_after_measured(s: Seq<BenchmarkResult>)
    requires
        sorted_by_latency(s),
    ensures
        forall|i: int, j: int|
            0 <= i < s.len() && 0 <= j < s.len() && s[i].latency_ms == SENTINEL_UNREACHABLE
                && s[j].latency_ms != SENTINEL_UNREACHABLE ==> j < i,
{
    assert forall|i: int, j: int|
        0 <= i < s.len() && 0 <= j < s.len() && s[i].latency_ms == SENTINEL_UNREACHABLE
            && s[j].latency_ms != SENTINEL_UNREACHABLE implies j < i by {
        if j > i {
            assert(s[i].latency_ms <= s[j].latency_ms);
        }
    }
}


/// The result to apply in a "pick fastest" flow: a reachable result with
/// the least latency.  When every candidate is unreachable — or there are
/// none — this is a distinct terminal error telling the user to check
/// connectivity; a sentinel-ranked entry is never picked.
pub fn pick_fastest(results: Vec<BenchmarkResult>) -> (r: Result<BenchmarkResult, MirrorError>)
    ensures
        match r {
            Ok(b) => {
                &&& exists|i: int| 0 <= i < results@.len() && results@[i] == b
                &&& b.latency_ms < SENTINEL_UNREACHABLE
                &&& forall|i: int|
                    0 <= i < results@.len() ==> b.latency_ms <= #[trigger] results@[i].latency_ms
            },
            Err(e) => {
                &&& forall|i: int|
                    0 <= i < results@.len() ==> #[trigger] results@[i].latency_ms
                        == SENTINEL_UNREACHABLE
                &&& (e matches MirrorError::Custom(s) && s@
                    == "All mirrors timed out. Please check your network connection."@)
            },
        },
{
    let mut results = results;
    let mut best: Option<usize> = None;
    let mut i: usize = 0;
    while i < results.len()
        invariant
            i <= results@.len(),
            match best {
                Some(bi) => {
                    &&& bi < i
                    &&& results@[bi as int].latency_ms < SENTINEL_UNREACHABLE
                    &&& forall|j: int|
                        0 <= j < i ==> results@[bi as int].latency_ms
                            <= #[trigger] results@[j].latency_ms
                },
                None => forall|j: int|
                    0 <= j < i ==> #[trigger] results@[j].latency_ms == SENTINEL_UNREACHABLE,
            },
        decreases results@.len() - i,
    {
        let better = match best {
            Some(bi) => results[i].latency_ms < results[bi].latency_ms,
            None => results[i].latency_ms < SENTINEL_UNREACHABLE,
        };
        if better {
            best = Some(i);
        }
        i += 1;
    }
    match best {
        Some(bi) => {
            let ghost rs = results@;
            let b = results.remove(bi);
            proof {
                assert(b == rs[bi as int]);
            }
            Ok(b)
        },
        None => Err(
            MirrorError::Custom(
                String::from_str("All mirrors timed out. Please check your network connection."),
            ),
        ),
    }
}

} // verus!
