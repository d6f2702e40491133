//! Ranking of latency-probe results. The probes themselves are network
//! work done by the caller; this module takes one outcome per candidate —
//! a measured latency, or nothing for a probe that failed or timed out —
//! sorts the successes ascending by latency with a stable tie-break on
//! candidate order, and truncates to the wanted count.

use vstd::prelude::*;
use vstd::multiset::Multiset;
use crate::gossip::HyperliquidSeedPeer;

verus! {

/// One successful probe: the candidate's position in the probed list and
/// the measured latency in microseconds.
#[derive(Clone, Copy, Debug, PartialEq, Eq, Structural)]
pub struct Measured {
    pub idx: usize,
    pub latency: u64,
}

/// Ascending by latency, ties broken by original candidate order.
pub open spec fn lex_le(x: Measured, y: Measured) -> bool {
    x.latency < y.latency || (x.latency == y.latency && x.idx <= y.idx)
}

pub open spec fn sorted_lex(s: Seq<Measured>) -> bool {
    forall|i: int, j: int| 0 <= i < j < s.len() ==> lex_le(s[i], s[j])
}

/// The successful probes among the first `n` outcomes, in candidate
/// order.
pub open spec fn successes_upto(outcomes: Seq<Option<u64>>, n: int) -> Seq<Measured>
    decreases n when 0 <= n <= outcomes.len()
{
    if n <= 0 {
        Seq::empty()
    } else {
        successes_upto(outcomes, n - 1) + (match outcomes[n - 1] {
            Some(l) => seq![Measured { idx: (n - 1) as usize, latency: l }],
            None => Seq::empty(),
        })
    }
}

/// All successful probes, in candidate order.
pub open spec fn successes(outcomes: Seq<Option<u64>>) -> Seq<Measured> {
    successes_upto(outcomes, outcomes.len() as int)
}

/// Whether `m` records what `outcomes` says about candidate `m.idx`.
pub open spec fn is_success_of(m: Measured, outcomes: Seq<Option<u64>>) -> bool {
    m.idx < outcomes.len() && outcomes[m.idx as int] == Some(m.latency)
}

pub proof fn lemma_successes_upto_sound(outcomes: Seq<Option<u64>>, n: int)
    requires
        0 <= n <= outcomes.len(),
        outcomes.len() <= usize::MAX,
    ensures
        successes_upto(outcomes, n).len() <= n,
        forall|i: int|
            0 <= i < successes_upto(outcomes, n).len() ==> is_success_of(
                #[trigger] successes_upto(outcomes, n)[i],
                outcomes,
            ),
    decreases n,
{
    if n > 0 {
        lemma_successes_upto_sound(outcomes, n - 1);
        let pre = successes_upto(outcomes, n - 1);
        let cur = successes_upto(outcomes, n);
        assert forall|i: int| 0 <= i < cur.len() implies is_success_of(cur[i], outcomes) by {
            if i < pre.len() {
                assert(cur[i] == pre[i]);
            } else {
                assert(outcomes[n - 1] is Some);
                assert(cur[i] == Measured { idx: (n - 1) as usize, latency: outcomes[n - 1]->0 });
            }
        }
    }
}

/// The successful probes of `outcomes`, collected in candidate order.
fn collect_successes(outcomes: &Vec<Option<u64>>) -> (r: Vec<Measured>)
    ensures
        r@ == successes(outcomes@),
{
    let n = outcomes.len();
    let mut out: Vec<Measured> = Vec::new();
    let mut i: usize = 0;
    while i < n
        invariant
            i <= n,
            n == outcomes@.len(),
            out@ == successes_upto(outcomes@, i as int),
        decreases n - i,
    {
        proof {
            assert(successes_upto(outcomes@, i + 1) == successes_upto(outcomes@, i as int)
                + (match outcomes@[i as int] {
                Some(l) => seq![Measured { idx: i, latency: l }],
                None => Seq::<Measured>::empty(),
            }));
        }
        match outcomes[i] {
            Some(l) => {
                out.push(Measured { idx: i, latency: l });
                proof {
                    assert(out@ =~= successes_upto(outcomes@, i + 1));
                }
            }
            None => {
                proof {
                    assert(out@ =~= successes_upto(outcomes@, i + 1));
                }
            }
        }
        i += 1;
    }
    out
}

/// Index of a lexicographic minimum of a non-empty list.
fn min_index(v: &Vec<Measured>) -> (r: usize)
    requires
        v@.len() > 0,
    ensures
        r < v@.len(),
        forall|j: int| 0 <= j < v@.len() ==> lex_le(v@[r as int], #[trigger] v@[j]),
{
    let n = v.len();
    let mut best: usize = 0;
    let mut i: usize = 1;
    while i < n
        invariant
            best < i <= n,
            n == v@.len(),
            forall|j: int| 0 <= j < i ==> lex_le(v@[best as int], #[trigger] v@[j]),
        decreases n - i,
    {
        let c = &v[i];
        let b = &v[best];
        if c.latency < b.latency || (c.latency == b.latency && c.idx < b.idx) {
            best = i;
        }
        i += 1;
    }
    best
}

/// Sort measurements ascending by latency, stable on candidate order.
fn sort_measured(v: Vec<Measured>) -> (r: Vec<Measured>)
    ensures
        r@.to_multiset() == v@.to_multiset(),
        r@.len() == v@.len(),
        sorted_lex(r@),
{
    let ghost orig = v@;
    let mut rest = v;
    let mut out: Vec<Measured> = Vec::new();
    proof {
        assert forall|a: Measured| out@.to_multiset().count(a) == 0 by {
            out@.to_multiset_ensures();
            assert(!out@.contains(a));
        }
        assert(out@.to_multiset() =~= Multiset::<Measured>::empty());
        assert(Multiset::<Measured>::empty().add(rest@.to_multiset()) =~= rest@.to_multiset());
    }
    while rest.len() > 0
        invariant
            out@.to_multiset().add(rest@.to_multiset()) == orig.to_multiset(),
            out@.len() + rest@.len() == orig.len(),
            sorted_lex(out@),
            forall|a: int, b: int|
                0 <= a < out@.len() && 0 <= b < rest@.len() ==> lex_le(
                    #[trigger] out@[a],
                    #[trigger] rest@[b],
                ),
        decreases rest@.len(),
    {
        let m = min_index(&rest);
        let ghost prev = rest@;
        let ghost old_out = out@;
        let x = rest.remove(m);
        proof {
            prev.to_multiset_ensures();
            old_out.to_multiset_ensures();
            prev.remove_ensures(m as int);
            assert(rest@ == prev.remove(m as int));
            assert(rest@.to_multiset() == prev.to_multiset().remove(x));
            assert(prev.contains(x));
            assert(prev.to_multiset().count(x) > 0);
            assert(prev.to_multiset() =~= rest@.to_multiset().insert(x));
            assert(old_out.push(x).to_multiset() =~= old_out.to_multiset().insert(x));
            assert(old_out.push(x).to_multiset().add(rest@.to_multiset()) =~= old_out
                .to_multiset().add(rest@.to_multiset().insert(x)));
        }
        out.push(x);
        proof {
            assert(out@ == old_out.push(x));
            assert forall|a: int, b: int|
                0 <= a < out@.len() && 0 <= b < rest@.len() implies lex_le(
                #[trigger] out@[a],
                #[trigger] rest@[b],
            ) by {
                if b < m {
                    assert(rest@[b] == prev[b]);
                } else {
                    assert(rest@[b] == prev[b + 1]);
                }
                if a < old_out.len() {
                    assert(out@[a] == old_out[a]);
                } else {
                    assert(out@[a] == x);
                }
            }
            assert(sorted_lex(out@)) by {
                assert forall|i: int, j: int| 0 <= i < j < out@.len() implies lex_le(
                    out@[i],
                    out@[j],
                ) by {
                    if j < old_out.len() {
                        assert(lex_le(old_out[i], old_out[j]));
                    } else {
                        assert(out@[j] == x);
                        assert(lex_le(old_out[i], prev[m as int]));
                    }
                }
            }
        }
    }
    proof {
        assert forall|a: Measured| rest@.to_multiset().count(a) == 0 by {
            rest@.to_multiset_ensures();
            assert(!rest@.contains(a));
        }
        assert(rest@.to_multiset() =~= Multiset::<Measured>::empty());
        assert(out@.to_multiset().add(Multiset::<Measured>::empty()) =~= out@.to_multiset());
    }
    out
}

/// Rank the probe outcomes: the best `want` successes, ascending by
/// latency with a stable tie-break on candidate order. The result never
/// holds more than `min(want, number of successes)` entries, and if the
/// successes are fewer than `want`, all of them are returned.
pub fn rank_outcomes(outcomes: &Vec<Option<u64>>, want: usize) -> (r: Vec<Measured>)
    ensures
        r@.len() == (if want <= successes(outcomes@).len() {
            want as int
        } else {
            successes(outcomes@).len() as int
        }),
        sorted_lex(r@),
        forall|i: int, j: int|
            0 <= i < j < r@.len() ==> #[trigger] r@[i].latency <= #[trigger] r@[j].latency,
        forall|i: int| 0 <= i < r@.len() ==> is_success_of(#[trigger] r@[i], outcomes@),
        exists|s: Seq<Measured>|
            {
                &&& s.to_multiset() == successes(outcomes@).to_multiset()
                &&& sorted_lex(s)
                &&& r@ == s.take(r@.len() as int)
            },
{
    let succ = collect_successes(outcomes);
    let ghost all = succ@;
    let mut sorted = sort_measured(succ);
    proof {
        vstd::std_specs::vec::axiom_spec_len(outcomes);
        lemma_successes_upto_sound(outcomes@, outcomes@.len() as int);
        assert forall|i: int| 0 <= i < sorted@.len() implies is_success_of(
            #[trigger] sorted@[i],
            outcomes@,
        ) by {
            sorted@.to_multiset_ensures();
            all.to_multiset_ensures();
            assert(sorted@.contains(sorted@[i]));
            assert(sorted@.to_multiset().count(sorted@[i]) > 0);
            assert(all.to_multiset().count(sorted@[i]) > 0);
            assert(all.contains(sorted@[i]));
        }
    }
    let ghost full = sorted@;
    let keep = if want <= sorted.len() {
        want
    } else {
        sorted.len()
    };
    sorted.truncate(keep);
    proof {
        assert(sorted@ =~= full.take(keep as int));
        assert(sorted_lex(sorted@)) by {
            assert forall|i: int, j: int| 0 <= i < j < sorted@.len() implies lex_le(
                sorted@[i],
                sorted@[j],
            ) by {
                assert(sorted@[i] == full[i]);
                assert(sorted@[j] == full[j]);
                assert(lex_le(full[i], full[j]));
            }
        }
        assert forall|i: int, j: int| 0 <= i < j < sorted@.len() implies sorted@[i].latency
            <= sorted@[j].latency by {
            assert(lex_le(sorted@[i], sorted@[j]));
        }
        assert forall|i: int| 0 <= i < sorted@.len() implies is_success_of(
            sorted@[i],
            outcomes@,
        ) by {
            assert(sorted@[i] == full[i]);
        }
        assert(full.to_multiset() == successes(outcomes@).to_multiset() && sorted_lex(full)
            && sorted@ == full.take(sorted@.len() as int));
    }
    sorted
}

/// Whether `a` carries the same label content as `b`.
pub open spec fn same_label(a: HyperliquidSeedPeer, b: HyperliquidSeedPeer) -> bool {
    match (a.label, b.label) {
        (Some(x), Some(y)) => x@ == y@,
        (None, None) => true,
        _ => false,
    }
}

/// The peers the ranking picked, in ranked order. Each entry carries the
/// address and label of the candidate the measurement points at.
pub fn select_ranked_peers(candidates: &Vec<HyperliquidSeedPeer>, ranked: &Vec<Measured>) -> (r:
    Vec<HyperliquidSeedPeer>)
    requires
        forall|i: int| 0 <= i < ranked@.len() ==> (#[trigger] ranked@[i]).idx < candidates@.len(),
    ensures
        r@.len() == ranked@.len(),
        forall|i: int|
            0 <= i < r@.len() ==> (#[trigger] r@[i]).ip == candidates@[ranked@[i].idx as int].ip,
        forall|i: int|
            0 <= i < r@.len() ==> same_label(#[trigger] r@[i], candidates@[ranked@[i].idx as int]),
{
    let n = ranked.len();
    let mut out: Vec<HyperliquidSeedPeer> = Vec::new();
    let mut i: usize = 0;
    while i < n
        invariant
            i <= n,
            n == ranked@.len(),
            forall|k: int| 0 <= k < n ==> (#[trigger] ranked@[k]).idx < candidates@.len(),
            out@.len() == i,
            forall|k: int|
                0 <= k < i ==> (#[trigger] out@[k]).ip == candidates@[ranked@[k].idx as int].ip,
            forall|k: int|
                0 <= k < i ==> same_label(#[trigger] out@[k], candidates@[ranked@[k].idx as int]),
        decreases n - i,
    {
        let idx = ranked[i].idx;
        let c = &candidates[idx];
        let label = match &c.label {
            Some(s) => {
                let cl = s.clone();
                proof {
                    assert forall|t: int| 0 <= t < s@.len() implies cl@[t] == s@[t] by {
                        assert(cloned::<u8>(s@[t], cl@[t]));
                    }
                    assert(cl@ =~= s@);
                }
                Some(cl)
            },
            None => None,
        };
        out.push(HyperliquidSeedPeer { ip: c.ip, label });
        i += 1;
    }
    out
}

} // verus!
