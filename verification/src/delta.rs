//! Updates as signed multiplicities: summing them, reading off what they
//! support, and telling what changed between two sets of triples.

use crate::model::types::{Delta, Triple, Update};
use vstd::prelude::*;

verus! {

/// The sum of the changes that `s` holds for the triple `t`.
pub open spec fn net(s: Seq<Update>, t: Triple) -> int
    decreases s.len(),
{
    if s.len() == 0 {
        0
    } else {
        net(s.drop_last(), t) + if s.last().0 == t {
            s.last().1 as int
        } else {
            0
        }
    }
}

/// The size of a change, whatever its sign.
pub open spec fn size(d: i64) -> int {
    if d < 0 {
        -(d as int)
    } else {
        d as int
    }
}

/// The sum of the sizes of the changes of `s`. No sum of some of its changes is larger.
pub open spec fn mass(s: Seq<Update>) -> int
    decreases s.len(),
{
    if s.len() == 0 {
        0
    } else {
        mass(s.drop_last()) + size(s.last().1)
    }
}

/// Summing the changes of each triple in the order of the sequence never
/// leaves 64 bits.
pub open spec fn sums_fit(s: Seq<Update>) -> bool {
    forall|t: Triple, k: int|
        0 <= k <= s.len() ==> i64::MIN <= #[trigger] net(s.take(k), t) <= i64::MAX
}

/// The order of triples: by subject, then predicate, then object.
pub open spec fn precedes(a: Triple, b: Triple) -> bool {
    a.0 < b.0 || (a.0 == b.0 && (a.1 < b.1 || (a.1 == b.1 && a.2 < b.2)))
}

/// The triples come in strictly rising order, so each at most once, and no change is zero.
pub open spec fn consolidated(s: Seq<Update>) -> bool {
    &&& forall|i: int, j: int| 0 <= i < j < s.len() ==> precedes(#[trigger] s[i].0, #[trigger] s[j].0)
    &&& forall|i: int| 0 <= i < s.len() ==> (#[trigger] s[i]).1 != 0
}

/// The triples whose changes sum to more than zero.
pub open spec fn support_of(s: Seq<Update>) -> Set<Triple> {
    Set::new(|t: Triple| net(s, t) > 0)
}

/// Each triple of `ts` with the change `w`.
pub open spec fn weighted(ts: Seq<Triple>, w: i64) -> Seq<Update> {
    Seq::new(ts.len(), |i: int| (ts[i], w))
}

/// Each update of `s` with its sign turned.
pub open spec fn negated(s: Seq<Update>) -> Seq<Update> {
    Seq::new(s.len(), |i: int| (s[i].0, (-s[i].1) as i64))
}

/// What is emitted when the closure goes from `old` to `new` at `epoch`:
/// +1 for every triple that came, -1 for every triple that went.
pub open spec fn delta_set(old: Set<Triple>, new: Set<Triple>, epoch: usize) -> Set<Delta> {
    Set::new(
        |d: Delta|
            d.1 == epoch && ((d.2 == 1 && new.contains(d.0) && !old.contains(d.0)) || (d.2 == -1
                && old.contains(d.0) && !new.contains(d.0))),
    )
}

/// Where the triple first occurs in the batch, or the length of the batch if it does not occur.
pub open spec fn position(batch: Seq<Update>, t: Triple) -> int
    decreases batch.len(),
{
    if batch.len() == 0 {
        0
    } else if batch[0].0 == t {
        0
    } else {
        1 + position(batch.skip(1), t)
    }
}

/// The order in which the changes of one epoch are emitted: the triples of
/// the batch as they arrived, each where it first occurs, and after them
/// what the batch does not name, in the order of the triples.
pub open spec fn comes_before(batch: Seq<Update>, a: Triple, b: Triple) -> bool {
    position(batch, a) < position(batch, b) || (position(batch, a) == position(batch, b)
        && precedes(a, b))
}

/// `deltas` is the change from `old` to `new` at `epoch`, each triple once,
/// in the order that the batch gives.
pub open spec fn changes(
    old: Set<Triple>,
    new: Set<Triple>,
    epoch: usize,
    batch: Seq<Update>,
    deltas: Seq<Delta>,
) -> bool {
    &&& forall|i: int, j: int|
        0 <= i < j < deltas.len() ==> comes_before(
            batch,
            #[trigger] deltas[i].0,
            #[trigger] deltas[j].0,
        )
    &&& deltas.to_set() == delta_set(old, new, epoch)
}

/// `deltas` is the change from `old` to `new` at `epoch`, in the order of the triples.
spec fn rising_changes(old: Set<Triple>, new: Set<Triple>, epoch: usize, deltas: Seq<Delta>) -> bool {
    &&& forall|i: int, j: int|
        0 <= i < j < deltas.len() ==> precedes(#[trigger] deltas[i].0, #[trigger] deltas[j].0)
    &&& deltas.to_set() == delta_set(old, new, epoch)
}

/// 1 if the set holds the triple, else 0.
pub open spec fn multiplicity(s: Set<Triple>, t: Triple) -> int {
    if s.contains(t) {
        1
    } else {
        0
    }
}

/// The sum of the changes that `deltas` holds for the triple `t`.
pub open spec fn total(deltas: Seq<Delta>, t: Triple) -> int
    decreases deltas.len(),
{
    if deltas.len() == 0 {
        0
    } else {
        total(deltas.drop_last(), t) + if deltas.last().0 == t {
            deltas.last().2 as int
        } else {
            0
        }
    }
}

/// The changes of two sequences, one after the other, add up.
pub proof fn lemma_net_concat(a: Seq<Update>, b: Seq<Update>, t: Triple)
    ensures
        net(a + b, t) == net(a, t) + net(b, t),
    decreases b.len(),
{
    if b.len() == 0 {
        assert(a + b =~= a);
    } else {
        assert((a + b).drop_last() =~= a + b.drop_last());
        assert((a + b).last() == b.last());
        lemma_net_concat(a, b.drop_last(), t);
    }
}

/// The mass of two sequences, one after the other, adds up, and is never negative.
pub proof fn lemma_mass_concat(a: Seq<Update>, b: Seq<Update>)
    ensures
        mass(a + b) == mass(a) + mass(b),
        mass(b) >= 0,
    decreases b.len(),
{
    if b.len() == 0 {
        assert(a + b =~= a);
    } else {
        assert((a + b).drop_last() =~= a + b.drop_last());
        assert((a + b).last() == b.last());
        lemma_mass_concat(a, b.drop_last());
    }
}

/// Turning the signs turns the sign of every sum.
pub proof fn lemma_net_negated(s: Seq<Update>, t: Triple)
    requires
        forall|i: int| 0 <= i < s.len() ==> (#[trigger] s[i]).1 != i64::MIN,
    ensures
        net(negated(s), t) == -net(s, t),
    decreases s.len(),
{
    if s.len() > 0 {
        assert(negated(s).drop_last() =~= negated(s.drop_last()));
        lemma_net_negated(s.drop_last(), t);
    }
}

/// In a consolidated sequence the sum for a triple is its one entry, or zero where it has none.
pub proof fn lemma_net_consolidated(s: Seq<Update>, t: Triple)
    requires
        consolidated(s),
    ensures
        forall|i: int| 0 <= i < s.len() && (#[trigger] s[i]).0 == t ==> net(s, t) == s[i].1,
        (forall|i: int| 0 <= i < s.len() ==> (#[trigger] s[i]).0 != t) ==> net(s, t) == 0,
    decreases s.len(),
{
    if s.len() > 0 {
        let front = s.drop_last();
        assert forall|i: int, j: int| 0 <= i < j < front.len() implies precedes(
            #[trigger] front[i].0,
            #[trigger] front[j].0,
        ) by {
            assert(front[i] == s[i] && front[j] == s[j]);
        }
        assert forall|i: int| 0 <= i < front.len() implies (#[trigger] front[i]).1 != 0 by {
            assert(front[i] == s[i]);
        }
        lemma_net_consolidated(front, t);
        assert forall|i: int| 0 <= i < s.len() && (#[trigger] s[i]).0 == t implies net(s, t)
            == s[i].1 by {
            if i < front.len() {
                assert(front[i] == s[i]);
                assert(precedes(s[i].0, s[s.len() - 1].0));
            } else {
                assert forall|k: int| 0 <= k < front.len() implies (#[trigger] front[k]).0 != t by {
                    assert(front[k] == s[k]);
                    assert(precedes(s[k].0, s[s.len() - 1].0));
                }
            }
        }
        if forall|i: int| 0 <= i < s.len() ==> (#[trigger] s[i]).0 != t {
            assert forall|k: int| 0 <= k < front.len() implies (#[trigger] front[k]).0 != t by {
                assert(front[k] == s[k]);
            }
            assert(s[s.len() - 1].0 != t);
        }
    }
}

/// Triples that each occur once, all with the change `w`, sum to `w` where they occur.
pub proof fn lemma_net_weighted(ts: Seq<Triple>, w: i64, t: Triple)
    requires
        ts.no_duplicates(),
    ensures
        net(weighted(ts, w), t) == if ts.contains(t) {
            w as int
        } else {
            0
        },
        mass(weighted(ts, w)) == size(w) * ts.len(),
    decreases ts.len(),
{
    if ts.len() > 0 {
        let front = ts.drop_last();
        assert(weighted(ts, w).drop_last() =~= weighted(front, w));
        lemma_net_weighted(front, w, t);
        assert(size(w) * ts.len() == size(w) * front.len() + size(w)) by (nonlinear_arith)
            requires
                ts.len() == front.len() + 1,
        ;
        if ts.last() == t {
            if front.contains(t) {
                let i = choose|i: int| 0 <= i < front.len() && front[i] == t;
                assert(ts[i] == ts[ts.len() - 1]);
            }
            assert(ts[ts.len() - 1] == t);
        } else {
            if ts.contains(t) {
                let i = choose|i: int| 0 <= i < ts.len() && ts[i] == t;
                assert(front[i] == t);
            }
            if front.contains(t) {
                let i = choose|i: int| 0 <= i < front.len() && front[i] == t;
                assert(ts[i] == t);
            }
        }
    } else {
        assert(size(w) * ts.len() == 0) by (nonlinear_arith)
            requires
                ts.len() == 0,
        ;
    }
}

/// No sum of changes is larger than the mass, so sums fit where the mass does.
pub proof fn lemma_mass_bounds_sums(s: Seq<Update>)
    requires
        mass(s) <= i64::MAX,
    ensures
        sums_fit(s),
{
    assert forall|t: Triple, k: int| 0 <= k <= s.len() implies i64::MIN <= #[trigger] net(
        s.take(k),
        t,
    ) <= i64::MAX by {
        assert(s =~= s.take(k) + s.skip(k));
        lemma_mass_concat(s.take(k), s.skip(k));
        lemma_net_within_mass(s.take(k), t);
    }
}

/// The sum for a triple is no larger than the mass, whatever its sign.
pub proof fn lemma_net_within_mass(s: Seq<Update>, t: Triple)
    ensures
        -mass(s) <= net(s, t) <= mass(s),
    decreases s.len(),
{
    if s.len() > 0 {
        lemma_net_within_mass(s.drop_last(), t);
    }
}

/// The updates of `s` for triples other than `t`, in order.
pub open spec fn without(s: Seq<Update>, t: Triple) -> Seq<Update>
    decreases s.len(),
{
    if s.len() == 0 {
        s
    } else if s.last().0 == t {
        without(s.drop_last(), t)
    } else {
        without(s.drop_last(), t).push(s.last())
    }
}

/// The sum of the sizes of the changes that `s` holds for `t`.
pub open spec fn key_mass(s: Seq<Update>, t: Triple) -> int
    decreases s.len(),
{
    if s.len() == 0 {
        0
    } else {
        key_mass(s.drop_last(), t) + if s.last().0 == t {
            size(s.last().1)
        } else {
            0
        }
    }
}

/// Taking the updates of one triple out takes their sizes off the mass and
/// leaves the sums of the other triples as they were.
pub proof fn lemma_without(s: Seq<Update>, t: Triple, u: Triple)
    ensures
        mass(s) == mass(without(s, t)) + key_mass(s, t),
        -key_mass(s, t) <= net(s, t) <= key_mass(s, t),
        net(without(s, t), u) == if u == t {
            0
        } else {
            net(s, u)
        },
    decreases s.len(),
{
    if s.len() > 0 {
        lemma_without(s.drop_last(), t, u);
        if s.last().0 != t {
            assert(without(s, t).drop_last() =~= without(s.drop_last(), t));
        }
    }
}

/// Consolidated updates weigh no more than any updates with the same sums.
pub proof fn lemma_consolidated_mass_least(s: Seq<Update>, r: Seq<Update>)
    requires
        consolidated(s),
        forall|t: Triple| net(s, t) == net(r, t),
    ensures
        mass(s) <= mass(r),
    decreases s.len(),
{
    lemma_mass_concat(Seq::<Update>::empty(), r);
    if s.len() > 0 {
        let front = s.drop_last();
        let t = s.last().0;
        let rest = without(r, t);
        assert forall|i: int, j: int| 0 <= i < j < front.len() implies precedes(
            #[trigger] front[i].0,
            #[trigger] front[j].0,
        ) by {
            assert(front[i] == s[i] && front[j] == s[j]);
        }
        assert forall|i: int| 0 <= i < front.len() implies (#[trigger] front[i]).1 != 0 by {
            assert(front[i] == s[i]);
        }
        lemma_net_consolidated(s, t);
        assert(s[s.len() - 1].0 == t);
        assert(net(s, t) == s.last().1);
        assert forall|u: Triple| net(front, u) == net(rest, u) by {
            lemma_without(r, t, u);
        }
        lemma_consolidated_mass_least(front, rest);
        lemma_without(r, t, t);
    }
}

/// Consolidated updates are determined by their sums.
pub proof fn lemma_consolidated_is_canonical(a: Seq<Update>, b: Seq<Update>)
    requires
        consolidated(a),
        consolidated(b),
        forall|t: Triple| net(a, t) == net(b, t),
    ensures
        a == b,
    decreases a.len(),
{
    if a.len() == 0 {
        if b.len() > 0 {
            lemma_net_consolidated(b, b[0].0);
            lemma_net_consolidated(a, b[0].0);
            assert(b[0].1 != 0);
        }
        assert(a =~= b);
    } else {
        let x = a.last();
        lemma_net_consolidated(a, x.0);
        lemma_net_consolidated(b, x.0);
        assert(a[a.len() - 1].0 == x.0);
        assert(net(a, x.0) == x.1);
        assert(x.1 != 0);
        assert(b.len() > 0);
        let y = b.last();
        lemma_net_consolidated(a, y.0);
        lemma_net_consolidated(b, y.0);
        assert(b[b.len() - 1].0 == y.0);
        assert(net(b, y.0) == y.1);
        assert(y.1 != 0);
        let j = choose|j: int| 0 <= j < b.len() && (#[trigger] b[j]).0 == x.0;
        let i = choose|i: int| 0 <= i < a.len() && (#[trigger] a[i]).0 == y.0;
        if j < b.len() - 1 {
            assert(precedes(b[j].0, b[b.len() - 1].0));
            if i < a.len() - 1 {
                assert(precedes(a[i].0, a[a.len() - 1].0));
            }
        }
        assert(j == b.len() - 1);
        assert(x.1 == y.1);
        let a0 = a.drop_last();
        let b0 = b.drop_last();
        assert forall|i: int, j: int| 0 <= i < j < a0.len() implies precedes(
            #[trigger] a0[i].0,
            #[trigger] a0[j].0,
        ) by {
            assert(a0[i] == a[i] && a0[j] == a[j]);
        }
        assert forall|i: int| 0 <= i < a0.len() implies (#[trigger] a0[i]).1 != 0 by {
            assert(a0[i] == a[i]);
        }
        assert forall|i: int, j: int| 0 <= i < j < b0.len() implies precedes(
            #[trigger] b0[i].0,
            #[trigger] b0[j].0,
        ) by {
            assert(b0[i] == b[i] && b0[j] == b[j]);
        }
        assert forall|i: int| 0 <= i < b0.len() implies (#[trigger] b0[i]).1 != 0 by {
            assert(b0[i] == b[i]);
        }
        assert(x == y);
        assert forall|t: Triple| net(a0, t) == net(b0, t) by {
            assert(net(a, t) == net(b, t));
        }
        lemma_consolidated_is_canonical(a0, b0);
        assert(a =~= a0.push(x));
        assert(b =~= b0.push(y));
    }
}

/// Sorts the updates by triple and sums the changes of equal triples,
/// dropping what sums to zero. This calls `consolidate` of
/// `differential_dataflow::consolidation`, which sorts by the first element
/// with a stable sort, adds the second elements of each run of equal first
/// elements onto the first of the run, in order, and discards a run whose
/// sum is zero. Triples are ordered as tuples are. The sums are made with
/// `+=` on `i64`; they are the sums that `sums_fit` speaks of.
#[verifier::external_body]
fn consolidate(v: &mut Vec<Update>)
    requires
        sums_fit(old(v)@),
    ensures
        consolidated(final(v)@),
        forall|t: Triple| net(final(v)@, t) == net(old(v)@, t),
{
    differential_dataflow::consolidation::consolidate(v)
}

/// The mass of `v`, if it fits.
fn weigh(v: &Vec<Update>) -> (m: Option<u64>)
    ensures
        match m {
            Some(x) => x == mass(v@) && x <= i64::MAX,
            None => mass(v@) > i64::MAX,
        },
{
    let mut acc: u64 = 0;
    let mut i: usize = 0;
    while i < v.len()
        invariant
            i <= v.len(),
            acc == mass(v@.take(i as int)),
            acc <= i64::MAX,
        decreases v.len() - i,
    {
        let d = v[i].1;
        proof {
            assert(v@.take(i + 1).drop_last() =~= v@.take(i as int));
            assert(v@ =~= v@.take(i + 1) + v@.skip(i + 1));
            lemma_mass_concat(v@.take(i + 1), v@.skip(i + 1));
        }
        if d == i64::MIN {
            return None;
        }
        let a: u64 = if d < 0 {
            (-d) as u64
        } else {
            d as u64
        };
        if a > i64::MAX as u64 - acc {
            return None;
        }
        acc = acc + a;
        i += 1;
    }
    assert(v@.take(v@.len() as int) =~= v@);
    Some(acc)
}

/// The updates of `state` and of `batch` summed up per triple, or `None`
/// where the sizes of all their changes together exceed 64 bits.
pub fn accumulate(state: &Vec<Update>, batch: &Vec<Update>) -> (r: Option<Vec<Update>>)
    ensures
        match r {
            Some(v) => {
                &&& mass(state@ + batch@) <= i64::MAX
                &&& consolidated(v@)
                &&& forall|t: Triple| net(v@, t) == net(state@, t) + net(batch@, t)
                &&& mass(v@) <= mass(state@ + batch@)
            },
            None => mass(state@ + batch@) > i64::MAX,
        },
{
    proof {
        lemma_mass_concat(state@, batch@);
    }
    let m1 = match weigh(state) {
        Some(m) => m,
        None => {
            return None;
        },
    };
    let m2 = match weigh(batch) {
        Some(m) => m,
        None => {
            proof {
                lemma_mass_concat(batch@, state@);
            }
            return None;
        },
    };
    if m2 > i64::MAX as u64 - m1 {
        return None;
    }
    let mut v: Vec<Update> = Vec::new();
    let mut i: usize = 0;
    while i < state.len()
        invariant
            i <= state.len(),
            v@ == state@.take(i as int),
        decreases state.len() - i,
    {
        v.push(state[i]);
        i += 1;
        assert(v@ == state@.take(i as int));
    }
    assert(state@.take(state@.len() as int) == state@);
    let mut j: usize = 0;
    while j < batch.len()
        invariant
            j <= batch.len(),
            v@ == state@ + batch@.take(j as int),
        decreases batch.len() - j,
    {
        v.push(batch[j]);
        j += 1;
        assert(v@ == state@ + batch@.take(j as int));
    }
    assert(batch@.take(batch@.len() as int) == batch@);
    proof {
        lemma_mass_bounds_sums(v@);
    }
    consolidate(&mut v);
    proof {
        assert forall|t: Triple| net(v@, t) == net(state@, t) + net(batch@, t) by {
            lemma_net_concat(state@, batch@, t);
        }
        lemma_consolidated_mass_least(v@, state@ + batch@);
    }
    Some(v)
}

/// The triples that consolidated updates support: those with a change above zero.
pub fn support(state: &Vec<Update>) -> (r: Vec<Triple>)
    requires
        consolidated(state@),
    ensures
        r@.no_duplicates(),
        r@.to_set() == support_of(state@),
{
    let mut r: Vec<Triple> = Vec::new();
    let mut origin: Ghost<Seq<int>> = Ghost(Seq::empty());
    let mut i: usize = 0;
    while i < state.len()
        invariant
            i <= state.len(),
            consolidated(state@),
            origin@.len() == r@.len(),
            forall|k: int|
                0 <= k < r@.len() ==> 0 <= #[trigger] origin@[k] < i && state@[origin@[k]].0 == r@[k]
                    && state@[origin@[k]].1 > 0,
            forall|k: int, l: int| 0 <= k < l < r@.len() ==> origin@[k] < origin@[l],
            forall|j: int|
                0 <= j < i && (#[trigger] state@[j]).1 > 0 ==> r@.contains(state@[j].0),
        decreases state.len() - i,
    {
        let u = state[i];
        if u.1 > 0 {
            let ghost before = r@;
            r.push(u.0);
            proof {
                origin@ = origin@.push(i as int);
                assert forall|j: int| 0 <= j < i + 1 && (#[trigger] state@[j]).1 > 0 implies r@.contains(
                    state@[j].0,
                ) by {
                    if j < i {
                        let k = choose|k: int| 0 <= k < before.len() && before[k] == state@[j].0;
                        assert(r@[k] == state@[j].0);
                    } else {
                        assert(r@[before.len() as int] == state@[j].0);
                    }
                }
            }
        }
        i += 1;
    }
    proof {
        assert forall|k: int, l: int| 0 <= k < r@.len() && 0 <= l < r@.len() && k != l implies r@[k]
            != r@[l] by {
            if k < l {
                assert(precedes(state@[origin@[k]].0, state@[origin@[l]].0));
            } else {
                assert(precedes(state@[origin@[l]].0, state@[origin@[k]].0));
            }
        }
        assert forall|t: Triple| r@.to_set().contains(t) <==> support_of(state@).contains(t) by {
            lemma_net_consolidated(state@, t);
            if r@.contains(t) {
                let k = choose|k: int| 0 <= k < r@.len() && r@[k] == t;
                assert(state@[origin@[k]].0 == t);
            }
            if net(state@, t) > 0 {
                if forall|i: int| 0 <= i < state@.len() ==> (#[trigger] state@[i]).0 != t {
                } else {
                    let j = choose|j: int| 0 <= j < state@.len() && (#[trigger] state@[j]).0 == t;
                    assert(state@[j].1 > 0);
                    assert(r@.contains(state@[j].0));
                }
            }
        }
        assert(r@.to_set() =~= support_of(state@));
    }
    r
}

/// A part of triples that each occur once holds each of them at most once.
proof fn lemma_weighted_prefix(ts: Seq<Triple>, w: i64, k: int, t: Triple)
    requires
        ts.no_duplicates(),
        0 <= k <= ts.len(),
    ensures
        weighted(ts, w).take(k) == weighted(ts.take(k), w),
        net(weighted(ts, w).take(k), t) == 0 || net(weighted(ts, w).take(k), t) == w,
{
    assert(weighted(ts, w).take(k) =~= weighted(ts.take(k), w));
    assert forall|i: int, j: int| 0 <= i < ts.take(k).len() && 0 <= j < ts.take(k).len() && i
        != j implies ts.take(k)[i] != ts.take(k)[j] by {
        assert(ts.take(k)[i] == ts[i] && ts.take(k)[j] == ts[j]);
    }
    lemma_net_weighted(ts.take(k), w, t);
}

/// What changed from `old` to `new`, in the order of the triples.
fn rising_difference(new: &Vec<Triple>, old: &Vec<Triple>, epoch: usize) -> (deltas: Vec<Delta>)
    requires
        new@.no_duplicates(),
        old@.no_duplicates(),
    ensures
        rising_changes(old@.to_set(), new@.to_set(), epoch, deltas@),
{
    let mut v: Vec<Update> = Vec::new();
    let mut i: usize = 0;
    while i < new.len()
        invariant
            i <= new.len(),
            v@ == weighted(new@.take(i as int), 1),
        decreases new.len() - i,
    {
        v.push((new[i], 1));
        i += 1;
        assert(v@ =~= weighted(new@.take(i as int), 1));
    }
    assert(new@.take(new@.len() as int) == new@);
    let mut j: usize = 0;
    while j < old.len()
        invariant
            j <= old.len(),
            v@ == weighted(new@, 1) + weighted(old@.take(j as int), -1i64),
        decreases old.len() - j,
    {
        v.push((old[j], -1));
        j += 1;
        assert(v@ =~= weighted(new@, 1) + weighted(old@.take(j as int), -1i64));
    }
    assert(old@.take(old@.len() as int) == old@);
    proof {
        let plus = weighted(new@, 1);
        let minus = weighted(old@, -1i64);
        assert forall|t: Triple, k: int| 0 <= k <= v@.len() implies i64::MIN <= #[trigger] net(
            v@.take(k),
            t,
        ) <= i64::MAX by {
            if k <= plus.len() {
                assert(v@.take(k) =~= plus.take(k));
                lemma_weighted_prefix(new@, 1, k, t);
            } else {
                let rest = k - plus.len();
                assert(v@.take(k) =~= plus + minus.take(rest));
                lemma_net_concat(plus, minus.take(rest), t);
                lemma_weighted_prefix(old@, -1i64, rest, t);
                lemma_net_weighted(new@, 1, t);
            }
        }
    }
    consolidate(&mut v);
    let mut deltas: Vec<Delta> = Vec::new();
    let mut k: usize = 0;
    while k < v.len()
        invariant
            k <= v.len(),
            deltas@.len() == k,
            forall|l: int|
                0 <= l < k ==> #[trigger] deltas@[l] == (v@[l].0, epoch, v@[l].1),
        decreases v.len() - k,
    {
        deltas.push((v[k].0, epoch, v[k].1));
        k += 1;
    }
    proof {
        let o = old@.to_set();
        let n = new@.to_set();
        assert forall|t: Triple| net(v@, t) == multiplicity(n, t) - multiplicity(o, t) by {
            lemma_net_concat(weighted(new@, 1), weighted(old@, -1i64), t);
            lemma_net_weighted(new@, 1, t);
            lemma_net_weighted(old@, -1i64, t);
        }
        assert forall|d: Delta| deltas@.to_set().contains(d) <==> delta_set(o, n, epoch).contains(
            d,
        ) by {
            lemma_net_consolidated(v@, d.0);
            if deltas@.contains(d) {
                let l = choose|l: int| 0 <= l < deltas@.len() && deltas@[l] == d;
                assert(deltas@[l] == (v@[l].0, epoch, v@[l].1));
                assert(v@[l].0 == d.0);
                assert(v@[l].1 != 0);
            }
            if delta_set(o, n, epoch).contains(d) {
                if forall|i: int| 0 <= i < v@.len() ==> (#[trigger] v@[i]).0 != d.0 {
                } else {
                    let l = choose|l: int| 0 <= l < v@.len() && (#[trigger] v@[l]).0 == d.0;
                    assert(deltas@[l] == (v@[l].0, epoch, v@[l].1));
                    assert(deltas@[l] == d);
                }
            }
        }
        assert(deltas@.to_set() =~= delta_set(o, n, epoch));
        assert forall|a: int, b: int| 0 <= a < b < deltas@.len() implies precedes(
            #[trigger] deltas@[a].0,
            #[trigger] deltas@[b].0,
        ) by {
            assert(deltas@[a] == (v@[a].0, epoch, v@[a].1));
            assert(deltas@[b] == (v@[b].0, epoch, v@[b].1));
            assert(precedes(v@[a].0, v@[b].0));
        }
    }
    deltas
}

/// What `position` says: the first place of the triple in the batch, or its length.
pub proof fn lemma_position(batch: Seq<Update>, t: Triple)
    ensures
        0 <= position(batch, t) <= batch.len(),
        position(batch, t) < batch.len() ==> batch[position(batch, t)].0 == t,
        forall|j: int| 0 <= j < position(batch, t) ==> (#[trigger] batch[j]).0 != t,
    decreases batch.len(),
{
    if batch.len() > 0 && batch[0].0 != t {
        let rest = batch.skip(1);
        lemma_position(rest, t);
        assert forall|j: int| 0 <= j < position(batch, t) implies (#[trigger] batch[j]).0 != t by {
            if j > 0 {
                assert(rest[j - 1] == batch[j]);
            }
        }
        if position(batch, t) < batch.len() {
            assert(rest[position(rest, t)] == batch[position(batch, t)]);
        }
    }
}

/// A triple that occurs at `k` and nowhere before has position `k`.
proof fn lemma_position_at(batch: Seq<Update>, t: Triple, k: int)
    requires
        0 <= k < batch.len(),
        batch[k].0 == t,
        forall|j: int| 0 <= j < k ==> (#[trigger] batch[j]).0 != t,
    ensures
        position(batch, t) == k,
{
    lemma_position(batch, t);
    let p = position(batch, t);
    if p > k {
        assert(batch[k].0 != t);
    }
    if p < k {
        assert(batch[p].0 != t);
    }
}

/// Deltas in the order of a batch name each triple once; their changes for
/// a triple sum to its one change, or to zero.
pub proof fn lemma_total_of_ordered(batch: Seq<Update>, deltas: Seq<Delta>, t: Triple)
    requires
        forall|i: int, j: int|
            0 <= i < j < deltas.len() ==> comes_before(
                batch,
                #[trigger] deltas[i].0,
                #[trigger] deltas[j].0,
            ),
    ensures
        forall|i: int| 0 <= i < deltas.len() && (#[trigger] deltas[i]).0 == t ==> total(deltas, t)
            == deltas[i].2,
        (forall|i: int| 0 <= i < deltas.len() ==> (#[trigger] deltas[i]).0 != t) ==> total(deltas, t)
            == 0,
    decreases deltas.len(),
{
    if deltas.len() > 0 {
        let front = deltas.drop_last();
        let n = deltas.len() - 1;
        assert forall|i: int, j: int| 0 <= i < j < front.len() implies comes_before(
            batch,
            #[trigger] front[i].0,
            #[trigger] front[j].0,
        ) by {
            assert(front[i] == deltas[i] && front[j] == deltas[j]);
        }
        lemma_total_of_ordered(batch, front, t);
        assert forall|i: int| 0 <= i < deltas.len() && (#[trigger] deltas[i]).0 == t implies total(
            deltas,
            t,
        ) == deltas[i].2 by {
            if i < n {
                assert(front[i] == deltas[i]);
                assert(comes_before(batch, deltas[i].0, deltas[n].0));
            } else {
                assert forall|k: int| 0 <= k < front.len() implies (#[trigger] front[k]).0 != t by {
                    assert(front[k] == deltas[k]);
                    assert(comes_before(batch, deltas[k].0, deltas[n].0));
                }
            }
        }
        if forall|i: int| 0 <= i < deltas.len() ==> (#[trigger] deltas[i]).0 != t {
            assert forall|k: int| 0 <= k < front.len() implies (#[trigger] front[k]).0 != t by {
                assert(front[k] == deltas[k]);
            }
            assert(deltas[n].0 != t);
        }
    }
}

/// The changes of an epoch take the multiplicity of every triple from what
/// it was to what it is.
pub proof fn lemma_changes_sum(
    old: Set<Triple>,
    new: Set<Triple>,
    epoch: usize,
    batch: Seq<Update>,
    deltas: Seq<Delta>,
    t: Triple,
)
    requires
        changes(old, new, epoch, batch, deltas),
    ensures
        multiplicity(old, t) + total(deltas, t) == multiplicity(new, t),
{
    lemma_total_of_ordered(batch, deltas, t);
    if forall|i: int| 0 <= i < deltas.len() ==> (#[trigger] deltas[i]).0 != t {
        let plus = (t, epoch, 1i64);
        let minus = (t, epoch, -1i64);
        if deltas.contains(plus) {
            let i = choose|i: int| 0 <= i < deltas.len() && deltas[i] == plus;
            assert(deltas[i].0 == t);
        }
        if deltas.contains(minus) {
            let i = choose|i: int| 0 <= i < deltas.len() && deltas[i] == minus;
            assert(deltas[i].0 == t);
        }
        assert(!deltas.to_set().contains(plus));
        assert(!deltas.to_set().contains(minus));
    } else {
        let i = choose|i: int| 0 <= i < deltas.len() && (#[trigger] deltas[i]).0 == t;
        assert(deltas.contains(deltas[i]));
        assert(deltas.to_set().contains(deltas[i]));
    }
}

/// Whether `t` occurs among the first `upto` updates of the batch.
fn occurs(batch: &Vec<Update>, upto: usize, t: Triple) -> (b: bool)
    requires
        upto <= batch@.len(),
    ensures
        b <==> exists|j: int| 0 <= j < upto && (#[trigger] batch@[j]).0 == t,
{
    let mut j: usize = 0;
    while j < upto
        invariant
            j <= upto <= batch@.len(),
            forall|i: int| 0 <= i < j ==> (#[trigger] batch@[i]).0 != t,
        decreases upto - j,
    {
        let u = batch[j].0;
        if u.0 == t.0 && u.1 == t.1 && u.2 == t.2 {
            return true;
        }
        j += 1;
    }
    false
}

/// Where the delta of `t` stands in `deltas`, if there is one.
fn find_delta(deltas: &Vec<Delta>, t: Triple) -> (at: Option<usize>)
    ensures
        match at {
            Some(q) => q < deltas@.len() && deltas@[q as int].0 == t,
            None => forall|i: int| 0 <= i < deltas@.len() ==> (#[trigger] deltas@[i]).0 != t,
        },
{
    let mut q: usize = 0;
    while q < deltas.len()
        invariant
            q <= deltas@.len(),
            forall|i: int| 0 <= i < q ==> (#[trigger] deltas@[i]).0 != t,
        decreases deltas.len() - q,
    {
        let u = deltas[q].0;
        if u.0 == t.0 && u.1 == t.1 && u.2 == t.2 {
            return Some(q);
        }
        q += 1;
    }
    None
}

/// Puts deltas that come in the order of their triples into the order that the batch gives.
fn arrange(batch: &Vec<Update>, rising: &Vec<Delta>) -> (out: Vec<Delta>)
    requires
        forall|i: int, j: int|
            0 <= i < j < rising@.len() ==> precedes(#[trigger] rising@[i].0, #[trigger] rising@[j].0),
    ensures
        out@.to_set() == rising@.to_set(),
        forall|i: int, j: int|
            0 <= i < j < out@.len() ==> comes_before(
                batch@,
                #[trigger] out@[i].0,
                #[trigger] out@[j].0,
            ),
{
    let mut out: Vec<Delta> = Vec::new();
    let n = batch.len();
    let mut k: usize = 0;
    proof {
        assert forall|q: int| 0 <= q < rising@.len() implies position(
            batch@,
            (#[trigger] rising@[q]).0,
        ) >= 0 by {
            lemma_position(batch@, rising@[q].0);
        }
    }
    while k < n
        invariant
            k <= n,
            n == batch@.len(),
            forall|i: int, j: int|
                0 <= i < j < rising@.len() ==> precedes(
                    #[trigger] rising@[i].0,
                    #[trigger] rising@[j].0,
                ),
            forall|i: int|
                0 <= i < out@.len() ==> position(batch@, (#[trigger] out@[i]).0) < k
                    && rising@.contains(out@[i]),
            forall|i: int, j: int|
                0 <= i < j < out@.len() ==> position(batch@, #[trigger] out@[i].0) < position(
                    batch@,
                    #[trigger] out@[j].0,
                ),
            forall|q: int|
                0 <= q < rising@.len() && position(batch@, (#[trigger] rising@[q]).0) < k
                    ==> out@.contains(rising@[q]),
        decreases n - k,
    {
        let t = batch[k].0;
        let ghost before = out@;
        let seen = occurs(batch, k, t);
        let at = if seen {
            None
        } else {
            find_delta(rising, t)
        };
        proof {
            if !seen {
                lemma_position_at(batch@, t, k as int);
            }
        }
        match at {
            Some(q) => {
                out.push(rising[q]);
                proof {
                    assert(rising@.contains(rising@[q as int]));
                    assert forall|r: int|
                        0 <= r < rising@.len() && position(batch@, (#[trigger] rising@[r]).0) < k
                            + 1 implies out@.contains(rising@[r]) by {
                        lemma_position(batch@, rising@[r].0);
                        if position(batch@, rising@[r].0) < k {
                            let i = choose|i: int| 0 <= i < before.len() && before[i] == rising@[r];
                            assert(out@[i] == rising@[r]);
                        } else {
                            assert(rising@[r].0 == t);
                            if r < q {
                                assert(precedes(rising@[r].0, rising@[q as int].0));
                            }
                            if q < r {
                                assert(precedes(rising@[q as int].0, rising@[r].0));
                            }
                            assert(out@[before.len() as int] == rising@[r]);
                        }
                    }
                }
            },
            None => {
                proof {
                    assert forall|r: int|
                        0 <= r < rising@.len() && position(batch@, (#[trigger] rising@[r]).0) < k
                            + 1 implies out@.contains(rising@[r]) by {
                        lemma_position(batch@, rising@[r].0);
                        if position(batch@, rising@[r].0) == k {
                            assert(batch@[k as int].0 == rising@[r].0);
                            if seen {
                                let j = choose|j: int| 0 <= j < k && (#[trigger] batch@[j]).0 == t;
                                assert(batch@[j].0 != rising@[r].0);
                            }
                        }
                    }
                }
            },
        }
        k += 1;
    }
    let mut m: usize = 0;
    while m < rising.len()
        invariant
            m <= rising@.len(),
            n == batch@.len(),
            forall|i: int, j: int|
                0 <= i < j < rising@.len() ==> precedes(
                    #[trigger] rising@[i].0,
                    #[trigger] rising@[j].0,
                ),
            forall|i: int| 0 <= i < out@.len() ==> rising@.contains(#[trigger] out@[i]),
            forall|i: int|
                0 <= i < out@.len() ==> position(batch@, (#[trigger] out@[i]).0) < n || exists|
                    q: int,
                | 0 <= q < m && rising@[q] == out@[i],
            forall|i: int, j: int|
                0 <= i < j < out@.len() ==> comes_before(
                    batch@,
                    #[trigger] out@[i].0,
                    #[trigger] out@[j].0,
                ),
            forall|q: int|
                0 <= q < rising@.len() && position(batch@, (#[trigger] rising@[q]).0) < n
                    ==> out@.contains(rising@[q]),
            forall|q: int|
                0 <= q < m && position(batch@, (#[trigger] rising@[q]).0) >= n ==> out@.contains(
                    rising@[q],
                ),
        decreases rising.len() - m,
    {
        let d = rising[m];
        let ghost before = out@;
        let named = occurs(batch, n, d.0);
        proof {
            lemma_position(batch@, d.0);
            if named {
                let j = choose|j: int| 0 <= j < n && (#[trigger] batch@[j]).0 == d.0;
                assert(position(batch@, d.0) <= j);
            }
        }
        if !named {
            out.push(d);
            proof {
                assert(rising@.contains(d));
                assert forall|i: int, j: int| 0 <= i < j < out@.len() implies comes_before(
                    batch@,
                    #[trigger] out@[i].0,
                    #[trigger] out@[j].0,
                ) by {
                    if j == before.len() {
                        lemma_position(batch@, out@[i].0);
                        if position(batch@, before[i].0) < n {
                        } else {
                            let q = choose|q: int| 0 <= q < m && rising@[q] == before[i];
                            assert(precedes(rising@[q].0, rising@[m as int].0));
                        }
                    } else {
                        assert(comes_before(batch@, before[i].0, before[j].0));
                    }
                }
                assert forall|i: int| 0 <= i < out@.len() implies position(
                    batch@,
                    (#[trigger] out@[i]).0,
                ) < n || exists|q: int| 0 <= q < m + 1 && rising@[q] == out@[i] by {
                    if i < before.len() {
                        if position(batch@, before[i].0) < n {
                        } else {
                            let q = choose|q: int| 0 <= q < m && rising@[q] == before[i];
                            assert(rising@[q] == out@[i]);
                        }
                    } else {
                        assert(rising@[m as int] == out@[i]);
                    }
                }
                assert forall|q: int|
                    0 <= q < rising@.len() && position(batch@, (#[trigger] rising@[q]).0)
                        < n implies out@.contains(rising@[q]) by {
                    let i = choose|i: int| 0 <= i < before.len() && before[i] == rising@[q];
                    assert(out@[i] == rising@[q]);
                }
                assert forall|q: int|
                    0 <= q < m + 1 && position(batch@, (#[trigger] rising@[q]).0)
                        >= n implies out@.contains(rising@[q]) by {
                    if q < m {
                        let i = choose|i: int| 0 <= i < before.len() && before[i] == rising@[q];
                        assert(out@[i] == rising@[q]);
                    } else {
                        assert(out@[before.len() as int] == rising@[q]);
                    }
                }
            }
        } else {
            proof {
                assert forall|i: int| 0 <= i < out@.len() implies position(
                    batch@,
                    (#[trigger] out@[i]).0,
                ) < n || exists|q: int| 0 <= q < m + 1 && rising@[q] == out@[i] by {
                    if position(batch@, out@[i].0) < n {
                    } else {
                        let q = choose|q: int| 0 <= q < m && rising@[q] == out@[i];
                        assert(rising@[q] == out@[i]);
                    }
                }
            }
        }
        m += 1;
    }
    proof {
        assert forall|d: Delta| out@.to_set().contains(d) <==> rising@.to_set().contains(d) by {
            if out@.contains(d) {
                let i = choose|i: int| 0 <= i < out@.len() && out@[i] == d;
                assert(rising@.contains(out@[i]));
            }
            if rising@.contains(d) {
                let q = choose|q: int| 0 <= q < rising@.len() && rising@[q] == d;
                assert(out@.contains(rising@[q]));
            }
        }
        assert(out@.to_set() =~= rising@.to_set());
    }
    out
}

/// What changed from `old` to `new`: +1 for every triple that came and -1
/// for every triple that went, each once and marked with `epoch`. The
/// triples that the batch names come first, as they arrived; what follows
/// from them comes after, in the order of the triples.
pub fn difference(new: &Vec<Triple>, old: &Vec<Triple>, epoch: usize, batch: &Vec<Update>) -> (deltas:
    Vec<Delta>)
    requires
        new@.no_duplicates(),
        old@.no_duplicates(),
    ensures
        changes(old@.to_set(), new@.to_set(), epoch, batch@, deltas@),
        forall|t: Triple|
            multiplicity(old@.to_set(), t) + total(deltas@, t) == multiplicity(new@.to_set(), t),
{
    let rising = rising_difference(new, old, epoch);
    let deltas = arrange(batch, &rising);
    proof {
        assert forall|t: Triple|
            multiplicity(old@.to_set(), t) + total(deltas@, t) == multiplicity(new@.to_set(), t) by {
            lemma_changes_sum(old@.to_set(), new@.to_set(), epoch, batch@, deltas@, t);
        }
    }
    deltas
}

} // verus!
