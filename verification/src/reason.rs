//! The reasoner: the accumulated input, the closure emitted so far, and the
//! step that takes one batch of updates and hands out what changed.

use crate::delta::{
    accumulate, changes, comes_before, consolidated, delta_set, difference,
    lemma_consolidated_is_canonical, lemma_mass_concat, lemma_net_concat, lemma_net_negated, mass,
    multiplicity, negated, net, support, support_of, total,
};
use crate::entrypoint::{abox_output, lists_output, materialize, tbox_output, Engine};
use crate::materialization::inclusion::{lemma_empty_boxes, lemma_outputs_grow};
use crate::materialization::owl2rl::bootstrap;
use crate::model::types::{Delta, Triple, Update};
use vstd::prelude::*;

verus! {

/// Why a batch was refused. A refused batch leaves the reasoner as it was.
#[derive(Clone, Copy, PartialEq, Eq, Structural, Debug)]
pub enum ReasonError {
    /// The changes of the terminology box no longer sum in 64 bits.
    TboxOverflow,
    /// The changes of the assertion box no longer sum in 64 bits.
    AboxOverflow,
    /// There is no epoch after this one.
    EpochExhausted,
}

/// What one batch changed in the two closures.
pub struct Emission {
    pub tbox: Vec<Delta>,
    pub abox: Vec<Delta>,
}

/// The state of a reasoner between two batches.
pub struct Reasoner {
    logic: Engine,
    batch_size: usize,
    tbox_input: Vec<Update>,
    abox_input: Vec<Update>,
    tbox_closure: Vec<Triple>,
    abox_closure: Vec<Triple>,
    epoch: usize,
}

impl Reasoner {
    /// The profile.
    pub closed spec fn logic(&self) -> Engine {
        self.logic
    }

    /// The size of a full batch.
    pub closed spec fn batch_size(&self) -> usize {
        self.batch_size
    }

    /// The epoch that the next batch gets.
    pub closed spec fn epoch(&self) -> usize {
        self.epoch
    }

    /// The updates of the terminology box so far, summed up per triple.
    pub closed spec fn tbox_updates(&self) -> Seq<Update> {
        self.tbox_input@
    }

    /// The updates of the assertion box so far, summed up per triple.
    pub closed spec fn abox_updates(&self) -> Seq<Update> {
        self.abox_input@
    }

    /// The triples that the terminology box supports now.
    pub open spec fn tbox_support(&self) -> Set<Triple> {
        support_of(self.tbox_updates())
    }

    /// The triples that the assertion box supports now.
    pub open spec fn abox_support(&self) -> Set<Triple> {
        support_of(self.abox_updates())
    }

    /// The closure of the terminology box as emitted so far.
    pub closed spec fn tbox_emitted(&self) -> Set<Triple> {
        self.tbox_closure@.to_set()
    }

    /// The closure of the assertion box as emitted so far.
    pub closed spec fn abox_emitted(&self) -> Set<Triple> {
        self.abox_closure@.to_set()
    }

    /// The state is in order: updates summed up, closures without repetition.
    pub closed spec fn wf(&self) -> bool {
        &&& consolidated(self.tbox_input@)
        &&& consolidated(self.abox_input@)
        &&& self.tbox_closure@.no_duplicates()
        &&& self.abox_closure@.no_duplicates()
    }

    /// What was emitted is the closure of what is supported. This holds after every batch.
    pub open spec fn settled(&self) -> bool {
        &&& self.tbox_emitted() == tbox_output(self.logic(), self.tbox_support())
        &&& self.abox_emitted() == abox_output(
            self.logic(),
            self.tbox_support(),
            self.abox_support(),
        )
    }

    /// Nothing came in and nothing went out yet.
    pub open spec fn fresh(&self) -> bool {
        &&& self.tbox_updates().len() == 0
        &&& self.abox_updates().len() == 0
        &&& self.tbox_emitted() == Set::<Triple>::empty()
        &&& self.abox_emitted() == Set::<Triple>::empty()
    }

    /// Why the batch is refused, if it is. The checks come in this order.
    pub open spec fn refusal(&self, tbox_batch: Seq<Update>, abox_batch: Seq<Update>) -> Option<
        ReasonError,
    > {
        if mass(self.tbox_updates() + tbox_batch) > i64::MAX {
            Some(ReasonError::TboxOverflow)
        } else if mass(self.abox_updates() + abox_batch) > i64::MAX {
            Some(ReasonError::AboxOverflow)
        } else if self.epoch() == usize::MAX {
            Some(ReasonError::EpochExhausted)
        } else {
            None
        }
    }

    /// The batch takes the reasoner to `next` and emits `tbox_deltas` and `abox_deltas`.
    pub open spec fn steps_to(
        &self,
        tbox_batch: Seq<Update>,
        abox_batch: Seq<Update>,
        next: Reasoner,
        tbox_deltas: Seq<Delta>,
        abox_deltas: Seq<Delta>,
    ) -> bool {
        &&& self.refusal(tbox_batch, abox_batch) is None
        &&& next.logic() == self.logic()
        &&& next.batch_size() == self.batch_size()
        &&& next.epoch() == self.epoch() + 1
        &&& forall|t: Triple|
            net(next.tbox_updates(), t) == net(self.tbox_updates(), t) + net(tbox_batch, t)
        &&& forall|t: Triple|
            net(next.abox_updates(), t) == net(self.abox_updates(), t) + net(abox_batch, t)
        &&& consolidated(next.tbox_updates())
        &&& consolidated(next.abox_updates())
        &&& mass(next.tbox_updates()) <= mass(self.tbox_updates() + tbox_batch)
        &&& mass(next.abox_updates()) <= mass(self.abox_updates() + abox_batch)
        &&& next.settled()
        &&& changes(
            self.tbox_emitted(),
            next.tbox_emitted(),
            self.epoch(),
            tbox_batch,
            tbox_deltas,
        )
        &&& changes(
            self.abox_emitted(),
            next.abox_emitted(),
            self.epoch(),
            abox_batch,
            abox_deltas,
        )
        &&& forall|t: Triple|
            multiplicity(self.tbox_emitted(), t) + total(tbox_deltas, t) == multiplicity(
                next.tbox_emitted(),
                t,
            )
        &&& forall|t: Triple|
            multiplicity(self.abox_emitted(), t) + total(abox_deltas, t) == multiplicity(
                next.abox_emitted(),
                t,
            )
    }

    /// A reasoner for the profile `logic` that has seen nothing yet.
    pub fn new(logic: Engine, batch_size: usize) -> (r: Reasoner)
        ensures
            r.wf(),
            r.fresh(),
            r.epoch() == 0,
            r.logic() == logic,
            r.batch_size() == batch_size,
    {
        Reasoner::starting_at(logic, batch_size, 0)
    }

    /// A reasoner that has seen nothing yet and numbers its batches from `epoch` on.
    pub fn starting_at(logic: Engine, batch_size: usize, epoch: usize) -> (r: Reasoner)
        ensures
            r.wf(),
            r.fresh(),
            r.epoch() == epoch,
            r.logic() == logic,
            r.batch_size() == batch_size,
    {
        let r = Reasoner {
            logic,
            batch_size,
            tbox_input: Vec::new(),
            abox_input: Vec::new(),
            tbox_closure: Vec::new(),
            abox_closure: Vec::new(),
            epoch,
        };
        proof {
            assert(r.tbox_closure@.to_set() =~= Set::<Triple>::empty());
            assert(r.abox_closure@.to_set() =~= Set::<Triple>::empty());
        }
        r
    }

    /// The profile.
    pub fn profile(&self) -> (logic: Engine)
        ensures
            logic == self.logic(),
    {
        self.logic
    }

    /// The size of a full batch.
    pub fn full_batch(&self) -> (n: usize)
        ensures
            n == self.batch_size(),
    {
        self.batch_size
    }

    /// The epoch that the next batch gets.
    pub fn current_epoch(&self) -> (n: usize)
        ensures
            n == self.epoch(),
    {
        self.epoch
    }

    /// Takes one batch of updates for each box: sums it into the input,
    /// closes what the input supports now, and hands out what changed in the
    /// two closures, marked with the epoch of the batch.
    pub fn ingest(&mut self, tbox_batch: &Vec<Update>, abox_batch: &Vec<Update>) -> (r: Result<
        Emission,
        ReasonError,
    >)
        requires
            old(self).wf(),
        ensures
            final(self).wf(),
            match r {
                Ok(out) => old(self).steps_to(
                    tbox_batch@,
                    abox_batch@,
                    *final(self),
                    out.tbox@,
                    out.abox@,
                ),
                Err(e) => *final(self) == *old(self) && old(self).refusal(
                    tbox_batch@,
                    abox_batch@,
                ) == Some(e),
            },
    {
        let tbox_input = match accumulate(&self.tbox_input, tbox_batch) {
            Some(v) => v,
            None => {
                return Err(ReasonError::TboxOverflow);
            },
        };
        let abox_input = match accumulate(&self.abox_input, abox_batch) {
            Some(v) => v,
            None => {
                return Err(ReasonError::AboxOverflow);
            },
        };
        if self.epoch == usize::MAX {
            return Err(ReasonError::EpochExhausted);
        }
        let tbox_now = support(&tbox_input);
        let abox_now = support(&abox_input);
        proof {
            assert(support_of(tbox_input@) =~= support_of(self.tbox_input@ + tbox_batch@)) by {
                assert forall|t: Triple|
                    net(tbox_input@, t) == net(self.tbox_input@ + tbox_batch@, t) by {
                    lemma_net_concat(self.tbox_input@, tbox_batch@, t);
                }
            }
            assert(support_of(abox_input@) =~= support_of(self.abox_input@ + abox_batch@)) by {
                assert forall|t: Triple|
                    net(abox_input@, t) == net(self.abox_input@ + abox_batch@, t) by {
                    lemma_net_concat(self.abox_input@, abox_batch@, t);
                }
            }
        }
        let (tbox_closure, abox_closure) = materialize(self.logic, &tbox_now, &abox_now);
        let tbox_deltas = difference(&tbox_closure, &self.tbox_closure, self.epoch, tbox_batch);
        let abox_deltas = difference(&abox_closure, &self.abox_closure, self.epoch, abox_batch);
        self.tbox_input = tbox_input;
        self.abox_input = abox_input;
        self.tbox_closure = tbox_closure;
        self.abox_closure = abox_closure;
        self.epoch = self.epoch + 1;
        Ok(Emission { tbox: tbox_deltas, abox: abox_deltas })
    }

    /// The closure of the terminology box as emitted so far, each triple once.
    pub fn tbox_snapshot(&self) -> (r: Vec<Triple>)
        ensures
            r@.to_set() == self.tbox_emitted(),
    {
        crate::materialization::common::copy_triples(&self.tbox_closure)
    }

    /// The closure of the assertion box as emitted so far, each triple once.
    pub fn abox_snapshot(&self) -> (r: Vec<Triple>)
        ensures
            r@.to_set() == self.abox_emitted(),
    {
        crate::materialization::common::copy_triples(&self.abox_closure)
    }
}

/// A sequence with no element holds nothing, and the other way round.
pub proof fn lemma_empty_deltas(deltas: Seq<Delta>)
    requires
        deltas.to_set() == Set::<Delta>::empty(),
    ensures
        deltas.len() == 0,
{
    if deltas.len() > 0 {
        assert(deltas.contains(deltas[0]));
        assert(deltas.to_set().contains(deltas[0]));
    }
}

/// Updates that are all insertions take nothing away.
pub proof fn lemma_net_of_insertions(s: Seq<Update>, t: Triple)
    requires
        forall|i: int| 0 <= i < s.len() ==> (#[trigger] s[i]).1 >= 0,
    ensures
        net(s, t) >= 0,
    decreases s.len(),
{
    if s.len() > 0 {
        assert forall|i: int| 0 <= i < s.drop_last().len() implies (#[trigger] s.drop_last()[i]).1
            >= 0 by {
            assert(s.drop_last()[i] == s[i]);
        }
        assert(s[s.len() - 1].1 >= 0);
        lemma_net_of_insertions(s.drop_last(), t);
    }
}

/// Re-assertion in one batch is silent: a batch in which the changes of
/// every triple sum to zero (as "insert T; retract T" does) leaves both
/// closures as they were and emits nothing, for T and for all that depends on it.
pub proof fn lemma_cancelling_batch_is_silent(
    before: Reasoner,
    tbox_batch: Seq<Update>,
    abox_batch: Seq<Update>,
    after: Reasoner,
    tbox_deltas: Seq<Delta>,
    abox_deltas: Seq<Delta>,
)
    requires
        before.settled(),
        before.steps_to(tbox_batch, abox_batch, after, tbox_deltas, abox_deltas),
        forall|t: Triple| net(tbox_batch, t) == 0,
        forall|t: Triple| net(abox_batch, t) == 0,
    ensures
        after.tbox_emitted() == before.tbox_emitted(),
        after.abox_emitted() == before.abox_emitted(),
        tbox_deltas.len() == 0,
        abox_deltas.len() == 0,
{
    assert(after.tbox_support() =~= before.tbox_support());
    assert(after.abox_support() =~= before.abox_support());
    assert(delta_set(before.tbox_emitted(), after.tbox_emitted(), before.epoch()) =~= Set::<
        Delta,
    >::empty());
    assert(delta_set(before.abox_emitted(), after.abox_emitted(), before.epoch()) =~= Set::<
        Delta,
    >::empty());
    lemma_empty_deltas(tbox_deltas);
    lemma_empty_deltas(abox_deltas);
}

/// Insertion only adds: a batch without retractions that loses no list
/// leaves every emitted triple in place, and every delta it emits is +1.
pub proof fn lemma_insertions_only_add(
    before: Reasoner,
    tbox_batch: Seq<Update>,
    abox_batch: Seq<Update>,
    after: Reasoner,
    tbox_deltas: Seq<Delta>,
    abox_deltas: Seq<Delta>,
)
    requires
        before.settled(),
        before.steps_to(tbox_batch, abox_batch, after, tbox_deltas, abox_deltas),
        forall|i: int| 0 <= i < tbox_batch.len() ==> (#[trigger] tbox_batch[i]).1 >= 0,
        forall|i: int| 0 <= i < abox_batch.len() ==> (#[trigger] abox_batch[i]).1 >= 0,
        lists_output(before.logic(), before.tbox_support()).subset_of(
            lists_output(before.logic(), after.tbox_support()),
        ),
    ensures
        before.tbox_emitted().subset_of(after.tbox_emitted()),
        before.abox_emitted().subset_of(after.abox_emitted()),
        forall|i: int| 0 <= i < tbox_deltas.len() ==> (#[trigger] tbox_deltas[i]).2 == 1,
        forall|i: int| 0 <= i < abox_deltas.len() ==> (#[trigger] abox_deltas[i]).2 == 1,
{
    assert forall|t: Triple| before.tbox_support().contains(t) implies after.tbox_support().contains(
        t,
    ) by {
        lemma_net_of_insertions(tbox_batch, t);
    }
    assert forall|t: Triple| before.abox_support().contains(t) implies after.abox_support().contains(
        t,
    ) by {
        lemma_net_of_insertions(abox_batch, t);
    }
    lemma_outputs_grow(
        before.logic(),
        before.tbox_support(),
        after.tbox_support(),
        before.abox_support(),
        after.abox_support(),
    );
    assert forall|i: int| 0 <= i < tbox_deltas.len() implies (#[trigger] tbox_deltas[i]).2 == 1 by {
        assert(tbox_deltas.contains(tbox_deltas[i]));
        assert(tbox_deltas.to_set().contains(tbox_deltas[i]));
    }
    assert forall|i: int| 0 <= i < abox_deltas.len() implies (#[trigger] abox_deltas[i]).2 == 1 by {
        assert(abox_deltas.contains(abox_deltas[i]));
        assert(abox_deltas.to_set().contains(abox_deltas[i]));
    }
}

/// Insert and retract cancel: after a batch and then the same batch with
/// every sign turned, the closures are those of what was supported before.
/// For a reasoner that had seen nothing, that is nothing, but for the two
/// bootstrap triples of OWL 2 RL.
pub proof fn lemma_insert_retract_cancels(
    start: Reasoner,
    tbox_batch: Seq<Update>,
    abox_batch: Seq<Update>,
    middle: Reasoner,
    end: Reasoner,
    first_tbox: Seq<Delta>,
    first_abox: Seq<Delta>,
    second_tbox: Seq<Delta>,
    second_abox: Seq<Delta>,
)
    requires
        start.steps_to(tbox_batch, abox_batch, middle, first_tbox, first_abox),
        middle.steps_to(negated(tbox_batch), negated(abox_batch), end, second_tbox, second_abox),
        forall|i: int| 0 <= i < tbox_batch.len() ==> (#[trigger] tbox_batch[i]).1 != i64::MIN,
        forall|i: int| 0 <= i < abox_batch.len() ==> (#[trigger] abox_batch[i]).1 != i64::MIN,
    ensures
        end.tbox_emitted() == tbox_output(start.logic(), start.tbox_support()),
        end.abox_emitted() == abox_output(
            start.logic(),
            start.tbox_support(),
            start.abox_support(),
        ),
        start.fresh() ==> end.tbox_emitted() == Set::<Triple>::empty() && end.abox_emitted() == if start.logic()
            == Engine::OWL2RL {
            bootstrap()
        } else {
            Set::<Triple>::empty()
        },
{
    assert forall|t: Triple| net(end.tbox_updates(), t) == net(start.tbox_updates(), t) by {
        lemma_net_negated(tbox_batch, t);
    }
    assert forall|t: Triple| net(end.abox_updates(), t) == net(start.abox_updates(), t) by {
        lemma_net_negated(abox_batch, t);
    }
    assert(end.tbox_support() =~= start.tbox_support());
    assert(end.abox_support() =~= start.abox_support());
    if start.fresh() {
        assert(start.tbox_support() =~= Set::<Triple>::empty());
        assert(start.abox_support() =~= Set::<Triple>::empty());
        lemma_empty_boxes(start.logic());
    }
}

/// Retraction reaches everything: every triple that was emitted and no
/// longer follows from what the batch leaves supported gets its -1, and
/// nothing else does.
pub proof fn lemma_retraction_reaches_all(
    before: Reasoner,
    tbox_batch: Seq<Update>,
    abox_batch: Seq<Update>,
    after: Reasoner,
    tbox_deltas: Seq<Delta>,
    abox_deltas: Seq<Delta>,
    t: Triple,
)
    requires
        before.steps_to(tbox_batch, abox_batch, after, tbox_deltas, abox_deltas),
    ensures
        abox_deltas.contains((t, before.epoch(), -1i64)) <==> before.abox_emitted().contains(t)
            && !abox_output(after.logic(), after.tbox_support(), after.abox_support()).contains(t),
        tbox_deltas.contains((t, before.epoch(), -1i64)) <==> before.tbox_emitted().contains(t)
            && !tbox_output(after.logic(), after.tbox_support()).contains(t),
{
    let d = (t, before.epoch(), -1i64);
    assert(abox_deltas.to_set().contains(d) <==> abox_deltas.contains(d));
    assert(tbox_deltas.to_set().contains(d) <==> tbox_deltas.contains(d));
}

/// Two sequences in the order of one batch that hold the same deltas are one.
pub proof fn lemma_ordered_deltas_are_equal(batch: Seq<Update>, a: Seq<Delta>, b: Seq<Delta>)
    requires
        forall|i: int, j: int|
            0 <= i < j < a.len() ==> comes_before(batch, #[trigger] a[i].0, #[trigger] a[j].0),
        forall|i: int, j: int|
            0 <= i < j < b.len() ==> comes_before(batch, #[trigger] b[i].0, #[trigger] b[j].0),
        a.to_set() == b.to_set(),
    ensures
        a == b,
    decreases a.len(),
{
    if a.len() == 0 {
        if b.len() > 0 {
            assert(b.contains(b[0]));
            assert(b.to_set().contains(b[0]));
            assert(a.contains(b[0]));
        }
        assert(a =~= b);
    } else {
        let x = a.last();
        assert(a.contains(x));
        assert(a.to_set().contains(x));
        assert(b.contains(x));
        let j = choose|j: int| 0 <= j < b.len() && b[j] == x;
        let y = b.last();
        assert(b.contains(y));
        assert(b.to_set().contains(y));
        assert(a.contains(y));
        let i = choose|i: int| 0 <= i < a.len() && a[i] == y;
        if j < b.len() - 1 {
            assert(comes_before(batch, b[j].0, b[b.len() - 1].0));
            if i < a.len() - 1 {
                assert(comes_before(batch, a[i].0, a[a.len() - 1].0));
            }
        }
        assert(j == b.len() - 1);
        let a0 = a.drop_last();
        let b0 = b.drop_last();
        assert forall|d: Delta| a0.to_set().contains(d) <==> b0.to_set().contains(d) by {
            if a0.contains(d) {
                let k = choose|k: int| 0 <= k < a0.len() && a0[k] == d;
                assert(a[k] == d);
                assert(comes_before(batch, a[k].0, a[a.len() - 1].0));
                assert(a.contains(d));
                assert(a.to_set().contains(d));
                assert(b.contains(d));
                let l = choose|l: int| 0 <= l < b.len() && b[l] == d;
                assert(l < b.len() - 1);
                assert(b0[l] == d);
            }
            if b0.contains(d) {
                let k = choose|k: int| 0 <= k < b0.len() && b0[k] == d;
                assert(b[k] == d);
                assert(comes_before(batch, b[k].0, b[b.len() - 1].0));
                assert(b.contains(d));
                assert(b.to_set().contains(d));
                assert(a.contains(d));
                let l = choose|l: int| 0 <= l < a.len() && a[l] == d;
                assert(l < a.len() - 1);
                assert(a0[l] == d);
            }
        }
        assert(a0.to_set() =~= b0.to_set());
        assert forall|i: int, j: int| 0 <= i < j < a0.len() implies comes_before(
            batch,
            #[trigger] a0[i].0,
            #[trigger] a0[j].0,
        ) by {
            assert(a0[i] == a[i] && a0[j] == a[j]);
        }
        assert forall|i: int, j: int| 0 <= i < j < b0.len() implies comes_before(
            batch,
            #[trigger] b0[i].0,
            #[trigger] b0[j].0,
        ) by {
            assert(b0[i] == b[i] && b0[j] == b[j]);
        }
        lemma_ordered_deltas_are_equal(batch, a0, b0);
        assert(a =~= a0.push(x));
        assert(b =~= b0.push(y));
    }
}

/// Two reasoners hold the same: profile, epoch, summed input and emitted closures.
pub open spec fn agree(one: Reasoner, other: Reasoner) -> bool {
    &&& one.logic() == other.logic()
    &&& one.epoch() == other.epoch()
    &&& one.tbox_updates() == other.tbox_updates()
    &&& one.abox_updates() == other.abox_updates()
    &&& one.tbox_emitted() == other.tbox_emitted()
    &&& one.abox_emitted() == other.abox_emitted()
}

/// The step is a function: from reasoners that hold the same, one batch
/// leads to reasoners that hold the same and to the same deltas in the same
/// order, and it is refused by both or by neither.
pub proof fn lemma_step_is_determined(
    before: Reasoner,
    again: Reasoner,
    tbox_batch: Seq<Update>,
    abox_batch: Seq<Update>,
    one: Reasoner,
    other: Reasoner,
    one_tbox: Seq<Delta>,
    one_abox: Seq<Delta>,
    other_tbox: Seq<Delta>,
    other_abox: Seq<Delta>,
)
    requires
        agree(before, again),
        before.steps_to(tbox_batch, abox_batch, one, one_tbox, one_abox),
        again.steps_to(tbox_batch, abox_batch, other, other_tbox, other_abox),
    ensures
        agree(one, other),
        one_tbox == other_tbox,
        one_abox == other_abox,
{
    lemma_consolidated_is_canonical(one.tbox_updates(), other.tbox_updates());
    lemma_consolidated_is_canonical(one.abox_updates(), other.abox_updates());
    lemma_ordered_deltas_are_equal(tbox_batch, one_tbox, other_tbox);
    lemma_ordered_deltas_are_equal(abox_batch, one_abox, other_abox);
}

/// Reasoners that hold the same refuse the same batches, for the same reason.
pub proof fn lemma_refusal_is_determined(
    one: Reasoner,
    other: Reasoner,
    tbox_batch: Seq<Update>,
    abox_batch: Seq<Update>,
)
    requires
        agree(one, other),
    ensures
        one.refusal(tbox_batch, abox_batch) == other.refusal(tbox_batch, abox_batch),
{
}

/// Set semantics: summed over everything emitted, the multiplicity of a
/// triple is 0 or 1 after every batch, and every single delta is +1 or -1.
pub proof fn lemma_multiplicities_are_zero_or_one(
    before: Reasoner,
    tbox_batch: Seq<Update>,
    abox_batch: Seq<Update>,
    after: Reasoner,
    tbox_deltas: Seq<Delta>,
    abox_deltas: Seq<Delta>,
    t: Triple,
)
    requires
        before.steps_to(tbox_batch, abox_batch, after, tbox_deltas, abox_deltas),
    ensures
        0 <= multiplicity(before.tbox_emitted(), t) + total(tbox_deltas, t) <= 1,
        0 <= multiplicity(before.abox_emitted(), t) + total(abox_deltas, t) <= 1,
        forall|i: int|
            0 <= i < tbox_deltas.len() ==> (#[trigger] tbox_deltas[i]).2 == 1 || tbox_deltas[i].2
                == -1,
        forall|i: int|
            0 <= i < abox_deltas.len() ==> (#[trigger] abox_deltas[i]).2 == 1 || abox_deltas[i].2
                == -1,
{
    assert(multiplicity(before.tbox_emitted(), t) + total(tbox_deltas, t) == multiplicity(
        after.tbox_emitted(),
        t,
    ));
    assert(multiplicity(before.abox_emitted(), t) + total(abox_deltas, t) == multiplicity(
        after.abox_emitted(),
        t,
    ));
    assert forall|i: int| 0 <= i < tbox_deltas.len() implies (#[trigger] tbox_deltas[i]).2 == 1
        || tbox_deltas[i].2 == -1 by {
        assert(tbox_deltas.contains(tbox_deltas[i]));
        assert(tbox_deltas.to_set().contains(tbox_deltas[i]));
    }
    assert forall|i: int| 0 <= i < abox_deltas.len() implies (#[trigger] abox_deltas[i]).2 == 1
        || abox_deltas[i].2 == -1 by {
        assert(abox_deltas.contains(abox_deltas[i]));
        assert(abox_deltas.to_set().contains(abox_deltas[i]));
    }
}

/// A run: each state steps to the next on the batch of its number and emits
/// the deltas of that number.
pub open spec fn run(
    states: Seq<Reasoner>,
    tbox_batches: Seq<Seq<Update>>,
    abox_batches: Seq<Seq<Update>>,
    tbox_deltas: Seq<Seq<Delta>>,
    abox_deltas: Seq<Seq<Delta>>,
) -> bool {
    &&& states.len() == tbox_batches.len() + 1
    &&& abox_batches.len() == tbox_batches.len()
    &&& tbox_deltas.len() == tbox_batches.len()
    &&& abox_deltas.len() == tbox_batches.len()
    &&& forall|k: int|
        0 <= k < tbox_batches.len() ==> states[k].steps_to(
            #[trigger] tbox_batches[k],
            abox_batches[k],
            states[k + 1],
            tbox_deltas[k],
            abox_deltas[k],
        )
}

/// The sum of the changes that a run of emissions holds for the triple `t`.
pub open spec fn sum(emissions: Seq<Seq<Delta>>, t: Triple) -> int
    decreases emissions.len(),
{
    if emissions.len() == 0 {
        0
    } else {
        sum(emissions.drop_last(), t) + total(emissions.last(), t)
    }
}

/// Integrity: over any run, what was emitted for a triple sums to its
/// multiplicity in the closure at the end (less what it was at the start),
/// and the epochs count the batches.
pub proof fn lemma_integrity(
    states: Seq<Reasoner>,
    tbox_batches: Seq<Seq<Update>>,
    abox_batches: Seq<Seq<Update>>,
    tbox_deltas: Seq<Seq<Delta>>,
    abox_deltas: Seq<Seq<Delta>>,
    t: Triple,
)
    requires
        run(states, tbox_batches, abox_batches, tbox_deltas, abox_deltas),
    ensures
        multiplicity(states[0].tbox_emitted(), t) + sum(tbox_deltas, t) == multiplicity(
            states.last().tbox_emitted(),
            t,
        ),
        multiplicity(states[0].abox_emitted(), t) + sum(abox_deltas, t) == multiplicity(
            states.last().abox_emitted(),
            t,
        ),
        states.last().epoch() == states[0].epoch() + tbox_batches.len(),
        states.last().logic() == states[0].logic(),
    decreases tbox_batches.len(),
{
    let n = tbox_batches.len() as int;
    if n > 0 {
        let shorter = states.drop_last();
        assert forall|k: int| 0 <= k < n - 1 implies shorter[k].steps_to(
            #[trigger] tbox_batches.drop_last()[k],
            abox_batches.drop_last()[k],
            shorter[k + 1],
            tbox_deltas.drop_last()[k],
            abox_deltas.drop_last()[k],
        ) by {
            assert(states[k].steps_to(
                tbox_batches[k],
                abox_batches[k],
                states[k + 1],
                tbox_deltas[k],
                abox_deltas[k],
            ));
        }
        lemma_integrity(
            shorter,
            tbox_batches.drop_last(),
            abox_batches.drop_last(),
            tbox_deltas.drop_last(),
            abox_deltas.drop_last(),
            t,
        );
        assert(states[n - 1].steps_to(
            tbox_batches[n - 1],
            abox_batches[n - 1],
            states[n],
            tbox_deltas[n - 1],
            abox_deltas[n - 1],
        ));
        assert(shorter.last() == states[n - 1]);
        assert(shorter[0] == states[0]);
        assert(multiplicity(states[n - 1].tbox_emitted(), t) + total(tbox_deltas[n - 1], t)
            == multiplicity(states[n].tbox_emitted(), t));
        assert(multiplicity(states[n - 1].abox_emitted(), t) + total(abox_deltas[n - 1], t)
            == multiplicity(states[n].abox_emitted(), t));
    }
}

/// The emissions of a run, one after the other.
pub open spec fn flat(parts: Seq<Seq<Delta>>) -> Seq<Delta>
    decreases parts.len(),
{
    if parts.len() == 0 {
        Seq::empty()
    } else {
        flat(parts.drop_last()) + parts.last()
    }
}

/// The batches for the terminology box, as sequences.
pub open spec fn tbox_parts(batches: Seq<(Vec<Update>, Vec<Update>)>) -> Seq<Seq<Update>> {
    Seq::new(batches.len(), |k: int| batches[k].0@)
}

/// The batches for the assertion box, as sequences.
pub open spec fn abox_parts(batches: Seq<(Vec<Update>, Vec<Update>)>) -> Seq<Seq<Update>> {
    Seq::new(batches.len(), |k: int| batches[k].1@)
}

/// The batches of a run, one after the other.
pub open spec fn joined(parts: Seq<Seq<Update>>) -> Seq<Update>
    decreases parts.len(),
{
    if parts.len() == 0 {
        Seq::empty()
    } else {
        joined(parts.drop_last()) + parts.last()
    }
}

/// A fresh reasoner for `logic` takes the first `n` batches through
/// `states` and emits `tbox_deltas` and `abox_deltas` on the way.
pub open spec fn replays(
    logic: Engine,
    batches: Seq<(Vec<Update>, Vec<Update>)>,
    n: int,
    states: Seq<Reasoner>,
    tbox_deltas: Seq<Seq<Delta>>,
    abox_deltas: Seq<Seq<Delta>>,
) -> bool {
    &&& 0 <= n <= batches.len()
    &&& run(
        states,
        tbox_parts(batches).take(n),
        abox_parts(batches).take(n),
        tbox_deltas,
        abox_deltas,
    )
    &&& states[0].fresh()
    &&& states[0].epoch() == 0
    &&& states[0].logic() == logic
}

proof fn lemma_run_grows(
    states: Seq<Reasoner>,
    tbs: Seq<Seq<Update>>,
    abs: Seq<Seq<Update>>,
    tds: Seq<Seq<Delta>>,
    ads: Seq<Seq<Delta>>,
    tb: Seq<Update>,
    ab: Seq<Update>,
    next: Reasoner,
    td: Seq<Delta>,
    ad: Seq<Delta>,
)
    requires
        run(states, tbs, abs, tds, ads),
        states.last().steps_to(tb, ab, next, td, ad),
    ensures
        run(states.push(next), tbs.push(tb), abs.push(ab), tds.push(td), ads.push(ad)),
{
    let n = tbs.len() as int;
    let states2 = states.push(next);
    assert forall|k: int| 0 <= k < n + 1 implies states2[k].steps_to(
        #[trigger] tbs.push(tb)[k],
        abs.push(ab)[k],
        states2[k + 1],
        tds.push(td)[k],
        ads.push(ad)[k],
    ) by {
        if k < n {
            assert(states[k].steps_to(tbs[k], abs[k], states[k + 1], tds[k], ads[k]));
        }
    }
}

/// A fresh reasoner for `logic` takes every batch and emits `tbox` and `abox` in all.
pub open spec fn finishes(
    logic: Engine,
    batches: Seq<(Vec<Update>, Vec<Update>)>,
    tbox: Seq<Delta>,
    abox: Seq<Delta>,
) -> bool {
    exists|states: Seq<Reasoner>, tbox_deltas: Seq<Seq<Delta>>, abox_deltas: Seq<Seq<Delta>>|
        #![trigger replays(logic, batches, batches.len() as int, states, tbox_deltas, abox_deltas)]
        replays(logic, batches, batches.len() as int, states, tbox_deltas, abox_deltas) && tbox
            == flat(tbox_deltas) && abox == flat(abox_deltas)
}

/// A fresh reasoner for `logic` takes the batches before number `k` and
/// refuses that one for the reason `e`.
pub open spec fn ends_at(
    logic: Engine,
    batches: Seq<(Vec<Update>, Vec<Update>)>,
    k: int,
    e: ReasonError,
) -> bool {
    0 <= k < batches.len() && exists|
        states: Seq<Reasoner>,
        tbox_deltas: Seq<Seq<Delta>>,
        abox_deltas: Seq<Seq<Delta>>,
    |
        #![trigger replays(logic, batches, k, states, tbox_deltas, abox_deltas)]
        replays(logic, batches, k, states, tbox_deltas, abox_deltas) && states.last().refusal(
            batches[k].0@,
            batches[k].1@,
        ) == Some(e)
}

/// The reason `e` is borne out by the batches up to number `k`: together
/// their changes for the box weigh more than 64 bits hold. A run never runs
/// out of epochs.
pub open spec fn heavy(batches: Seq<(Vec<Update>, Vec<Update>)>, k: int, e: ReasonError) -> bool {
    match e {
        ReasonError::TboxOverflow => mass(joined(tbox_parts(batches).take(k + 1))) > i64::MAX,
        ReasonError::AboxOverflow => mass(joined(abox_parts(batches).take(k + 1))) > i64::MAX,
        ReasonError::EpochExhausted => false,
    }
}

/// Runs a fresh reasoner for `logic` through the batches, each a batch for
/// the terminology box and one for the assertion box, and hands out
/// everything it emits, in order. Where a batch is refused, the run ends
/// there: the result is the number of that batch and the reason. No batch
/// is refused as long as the changes of all batches up to it, for each box,
/// weigh no more than 64 bits hold.
pub fn reason(logic: Engine, batches: &Vec<(Vec<Update>, Vec<Update>)>) -> (r: Result<
    Emission,
    (usize, ReasonError),
>)
    ensures
        match r {
            Ok(out) => finishes(logic, batches@, out.tbox@, out.abox@),
            Err((k, e)) => ends_at(logic, batches@, k as int, e) && heavy(batches@, k as int, e),
        },
{
    let mut reasoner = Reasoner::new(logic, 0);
    let mut all_tbox: Vec<Delta> = Vec::new();
    let mut all_abox: Vec<Delta> = Vec::new();
    let ghost mut states: Seq<Reasoner> = seq![reasoner];
    let ghost mut tds: Seq<Seq<Delta>> = Seq::empty();
    let ghost mut ads: Seq<Seq<Delta>> = Seq::empty();
    let mut k: usize = 0;
    proof {
        assert(tbox_parts(batches@).take(0) =~= Seq::<Seq<Update>>::empty());
        assert(abox_parts(batches@).take(0) =~= Seq::<Seq<Update>>::empty());
    }
    while k < batches.len()
        invariant
            k <= batches.len(),
            reasoner.wf(),
            states.len() == k + 1,
            states.last() == reasoner,
            replays(logic, batches@, k as int, states, tds, ads),
            all_tbox@ == flat(tds),
            all_abox@ == flat(ads),
            reasoner.epoch() == k,
            mass(reasoner.tbox_updates()) <= mass(joined(tbox_parts(batches@).take(k as int))),
            mass(reasoner.abox_updates()) <= mass(joined(abox_parts(batches@).take(k as int))),
        decreases batches.len() - k,
    {
        let ghost before = reasoner;
        proof {
            let tb = batches@[k as int].0@;
            let ab = batches@[k as int].1@;
            assert(tbox_parts(batches@).take(k + 1).drop_last() =~= tbox_parts(batches@).take(
                k as int,
            ));
            assert(abox_parts(batches@).take(k + 1).drop_last() =~= abox_parts(batches@).take(
                k as int,
            ));
            assert(tbox_parts(batches@).take(k + 1).last() == tb);
            assert(abox_parts(batches@).take(k + 1).last() == ab);
            assert(joined(tbox_parts(batches@).take(k + 1)) == joined(
                tbox_parts(batches@).take(k as int),
            ) + tb);
            assert(joined(abox_parts(batches@).take(k + 1)) == joined(
                abox_parts(batches@).take(k as int),
            ) + ab);
            lemma_mass_concat(joined(tbox_parts(batches@).take(k as int)), tb);
            lemma_mass_concat(joined(abox_parts(batches@).take(k as int)), ab);
            lemma_mass_concat(reasoner.tbox_updates(), tb);
            lemma_mass_concat(reasoner.abox_updates(), ab);
        }
        match reasoner.ingest(&batches[k].0, &batches[k].1) {
            Err(e) => {
                proof {
                    let tb = batches@[k as int].0@;
                    let ab = batches@[k as int].1@;
                    assert(reasoner == before);
                    assert(states.last().refusal(tb, ab) == Some(e));
                    assert(replays(logic, batches@, k as int, states, tds, ads));
                    match e {
                        ReasonError::TboxOverflow => {
                            assert(mass(before.tbox_updates() + tb) > i64::MAX);
                            assert(mass(joined(tbox_parts(batches@).take(k + 1))) > i64::MAX);
                        },
                        ReasonError::AboxOverflow => {
                            assert(mass(before.abox_updates() + ab) > i64::MAX);
                            assert(mass(joined(abox_parts(batches@).take(k + 1))) > i64::MAX);
                        },
                        ReasonError::EpochExhausted => {
                            assert(before.epoch() == usize::MAX);
                            assert(false);
                        },
                    }
                    assert(heavy(batches@, k as int, e));
                    assert(ends_at(logic, batches@, k as int, e));
                }
                return Err((k, e));
            },
            Ok(out) => {
                let mut tbox = out.tbox;
                let mut abox = out.abox;
                proof {
                    let tb = batches@[k as int].0@;
                    let ab = batches@[k as int].1@;
                    lemma_run_grows(
                        states,
                        tbox_parts(batches@).take(k as int),
                        abox_parts(batches@).take(k as int),
                        tds,
                        ads,
                        tb,
                        ab,
                        reasoner,
                        tbox@,
                        abox@,
                    );
                    assert(tbox_parts(batches@).take(k + 1) =~= tbox_parts(batches@).take(
                        k as int,
                    ).push(tb));
                    assert(abox_parts(batches@).take(k + 1) =~= abox_parts(batches@).take(
                        k as int,
                    ).push(ab));
                    assert(states.push(reasoner)[0] == states[0]);
                    states = states.push(reasoner);
                    assert(tds.push(tbox@).drop_last() =~= tds);
                    assert(ads.push(abox@).drop_last() =~= ads);
                    tds = tds.push(tbox@);
                    ads = ads.push(abox@);
                }
                all_tbox.append(&mut tbox);
                all_abox.append(&mut abox);
            },
        }
        k += 1;
    }
    proof {
        assert(replays(logic, batches@, batches@.len() as int, states, tds, ads));
        assert(finishes(logic, batches@, all_tbox@, all_abox@));
    }
    Ok(Emission { tbox: all_tbox, abox: all_abox })
}

/// A run is a function of its batches: two replays of the same batches go
/// through states that hold the same and emit the same, so the run is
/// accepted by both to the same point and refused there by both or by neither.
pub proof fn lemma_run_is_determined(
    logic: Engine,
    batches: Seq<(Vec<Update>, Vec<Update>)>,
    n: int,
    one: Seq<Reasoner>,
    one_tbox: Seq<Seq<Delta>>,
    one_abox: Seq<Seq<Delta>>,
    other: Seq<Reasoner>,
    other_tbox: Seq<Seq<Delta>>,
    other_abox: Seq<Seq<Delta>>,
)
    requires
        replays(logic, batches, n, one, one_tbox, one_abox),
        replays(logic, batches, n, other, other_tbox, other_abox),
    ensures
        one_tbox == other_tbox,
        one_abox == other_abox,
        agree(one.last(), other.last()),
        n < batches.len() ==> one.last().refusal(batches[n].0@, batches[n].1@)
            == other.last().refusal(batches[n].0@, batches[n].1@),
    decreases n,
{
    let tbs = tbox_parts(batches).take(n);
    let abs = abox_parts(batches).take(n);
    if n == 0 {
        assert(one.last() == one[0]);
        assert(other.last() == other[0]);
        assert(one[0].tbox_updates() =~= other[0].tbox_updates());
        assert(one[0].abox_updates() =~= other[0].abox_updates());
        assert(one_tbox =~= other_tbox);
        assert(one_abox =~= other_abox);
    } else {
        let m = n - 1;
        assert(tbox_parts(batches).take(m) =~= tbs.drop_last());
        assert(abox_parts(batches).take(m) =~= abs.drop_last());
        assert forall|k: int| 0 <= k < m implies one.drop_last()[k].steps_to(
            #[trigger] tbs.drop_last()[k],
            abs.drop_last()[k],
            one.drop_last()[k + 1],
            one_tbox.drop_last()[k],
            one_abox.drop_last()[k],
        ) by {
            assert(one[k].steps_to(tbs[k], abs[k], one[k + 1], one_tbox[k], one_abox[k]));
        }
        assert forall|k: int| 0 <= k < m implies other.drop_last()[k].steps_to(
            #[trigger] tbs.drop_last()[k],
            abs.drop_last()[k],
            other.drop_last()[k + 1],
            other_tbox.drop_last()[k],
            other_abox.drop_last()[k],
        ) by {
            assert(other[k].steps_to(tbs[k], abs[k], other[k + 1], other_tbox[k], other_abox[k]));
        }
        assert(one.drop_last()[0] == one[0]);
        assert(other.drop_last()[0] == other[0]);
        lemma_run_is_determined(
            logic,
            batches,
            m,
            one.drop_last(),
            one_tbox.drop_last(),
            one_abox.drop_last(),
            other.drop_last(),
            other_tbox.drop_last(),
            other_abox.drop_last(),
        );
        assert(one.drop_last().last() == one[m]);
        assert(other.drop_last().last() == other[m]);
        assert(one[m].steps_to(tbs[m], abs[m], one[m + 1], one_tbox[m], one_abox[m]));
        assert(other[m].steps_to(tbs[m], abs[m], other[m + 1], other_tbox[m], other_abox[m]));
        lemma_step_is_determined(
            one[m],
            other[m],
            tbs[m],
            abs[m],
            one[n],
            other[n],
            one_tbox[m],
            one_abox[m],
            other_tbox[m],
            other_abox[m],
        );
        assert(one_tbox =~= one_tbox.drop_last().push(one_tbox[m]));
        assert(other_tbox =~= other_tbox.drop_last().push(other_tbox[m]));
        assert(one_abox =~= one_abox.drop_last().push(one_abox[m]));
        assert(other_abox =~= other_abox.drop_last().push(other_abox[m]));
    }
}

/// The start of a replay is a replay.
pub proof fn lemma_replay_prefix(
    logic: Engine,
    batches: Seq<(Vec<Update>, Vec<Update>)>,
    n: int,
    k: int,
    states: Seq<Reasoner>,
    tbox_deltas: Seq<Seq<Delta>>,
    abox_deltas: Seq<Seq<Delta>>,
)
    requires
        replays(logic, batches, n, states, tbox_deltas, abox_deltas),
        0 <= k <= n,
    ensures
        replays(
            logic,
            batches,
            k,
            states.take(k + 1),
            tbox_deltas.take(k),
            abox_deltas.take(k),
        ),
        states.take(k + 1).last() == states[k],
{
    let tbs = tbox_parts(batches).take(n);
    let abs = abox_parts(batches).take(n);
    assert(tbox_parts(batches).take(k) =~= tbs.take(k));
    assert(abox_parts(batches).take(k) =~= abs.take(k));
    assert forall|j: int| 0 <= j < k implies states.take(k + 1)[j].steps_to(
        #[trigger] tbs.take(k)[j],
        abs.take(k)[j],
        states.take(k + 1)[j + 1],
        tbox_deltas.take(k)[j],
        abox_deltas.take(k)[j],
    ) by {
        assert(states[j].steps_to(tbs[j], abs[j], states[j + 1], tbox_deltas[j], abox_deltas[j]));
    }
    assert(states.take(k + 1)[0] == states[0]);
}

/// The outcome of a run is a function of its batches: what is emitted in
/// all, or the batch that is refused and why. No run both ends and goes on.
pub proof fn lemma_outcome_is_determined(
    logic: Engine,
    batches: Seq<(Vec<Update>, Vec<Update>)>,
    tbox: Seq<Delta>,
    abox: Seq<Delta>,
    again_tbox: Seq<Delta>,
    again_abox: Seq<Delta>,
    k: int,
    e: ReasonError,
    again_k: int,
    again_e: ReasonError,
)
    ensures
        finishes(logic, batches, tbox, abox) && finishes(logic, batches, again_tbox, again_abox)
            ==> tbox == again_tbox && abox == again_abox,
        !(finishes(logic, batches, tbox, abox) && ends_at(logic, batches, k, e)),
        ends_at(logic, batches, k, e) && ends_at(logic, batches, again_k, again_e) ==> k
            == again_k && e == again_e,
{
    let n = batches.len() as int;
    if finishes(logic, batches, tbox, abox) {
        let (s1, t1, a1) = choose|
            states: Seq<Reasoner>,
            tbox_deltas: Seq<Seq<Delta>>,
            abox_deltas: Seq<Seq<Delta>>,
        |
            #![trigger replays(logic, batches, batches.len() as int, states, tbox_deltas, abox_deltas)]
            replays(logic, batches, batches.len() as int, states, tbox_deltas, abox_deltas) && tbox
                == flat(tbox_deltas) && abox == flat(abox_deltas);
        if finishes(logic, batches, again_tbox, again_abox) {
            let (s2, t2, a2) = choose|
                states: Seq<Reasoner>,
                tbox_deltas: Seq<Seq<Delta>>,
                abox_deltas: Seq<Seq<Delta>>,
            |
                #![trigger replays(logic, batches, batches.len() as int, states, tbox_deltas, abox_deltas)]
                replays(logic, batches, batches.len() as int, states, tbox_deltas, abox_deltas)
                    && again_tbox == flat(tbox_deltas) && again_abox == flat(abox_deltas);
            lemma_run_is_determined(logic, batches, n, s1, t1, a1, s2, t2, a2);
        }
        if ends_at(logic, batches, k, e) {
            let (s2, t2, a2) = choose|
                states: Seq<Reasoner>,
                tbox_deltas: Seq<Seq<Delta>>,
                abox_deltas: Seq<Seq<Delta>>,
            |
                #![trigger replays(logic, batches, k, states, tbox_deltas, abox_deltas)]
                replays(logic, batches, k, states, tbox_deltas, abox_deltas)
                    && states.last().refusal(batches[k].0@, batches[k].1@) == Some(e);
            lemma_replay_prefix(logic, batches, n, k, s1, t1, a1);
            lemma_run_is_determined(
                logic,
                batches,
                k,
                s1.take(k + 1),
                t1.take(k),
                a1.take(k),
                s2,
                t2,
                a2,
            );
            assert(s1[k].steps_to(
                tbox_parts(batches).take(n)[k],
                abox_parts(batches).take(n)[k],
                s1[k + 1],
                t1[k],
                a1[k],
            ));
        }
    }
    if ends_at(logic, batches, k, e) && ends_at(logic, batches, again_k, again_e) {
        let (s1, t1, a1) = choose|
            states: Seq<Reasoner>,
            tbox_deltas: Seq<Seq<Delta>>,
            abox_deltas: Seq<Seq<Delta>>,
        |
            #![trigger replays(logic, batches, k, states, tbox_deltas, abox_deltas)]
            replays(logic, batches, k, states, tbox_deltas, abox_deltas) && states.last().refusal(
                batches[k].0@,
                batches[k].1@,
            ) == Some(e);
        let (s2, t2, a2) = choose|
            states: Seq<Reasoner>,
            tbox_deltas: Seq<Seq<Delta>>,
            abox_deltas: Seq<Seq<Delta>>,
        |
            #![trigger replays(logic, batches, again_k, states, tbox_deltas, abox_deltas)]
            replays(logic, batches, again_k, states, tbox_deltas, abox_deltas)
                && states.last().refusal(batches[again_k].0@, batches[again_k].1@) == Some(
                again_e,
            );
        if k < again_k {
            lemma_replay_prefix(logic, batches, again_k, k, s2, t2, a2);
            lemma_run_is_determined(
                logic,
                batches,
                k,
                s1,
                t1,
                a1,
                s2.take(k + 1),
                t2.take(k),
                a2.take(k),
            );
            assert(s2[k].steps_to(
                tbox_parts(batches).take(again_k)[k],
                abox_parts(batches).take(again_k)[k],
                s2[k + 1],
                t2[k],
                a2[k],
            ));
        } else if again_k < k {
            lemma_replay_prefix(logic, batches, k, again_k, s1, t1, a1);
            lemma_run_is_determined(
                logic,
                batches,
                again_k,
                s1.take(again_k + 1),
                t1.take(again_k),
                a1.take(again_k),
                s2,
                t2,
                a2,
            );
            assert(s1[again_k].steps_to(
                tbox_parts(batches).take(k)[again_k],
                abox_parts(batches).take(k)[again_k],
                s1[again_k + 1],
                t1[again_k],
                a1[again_k],
            ));
        } else {
            lemma_run_is_determined(logic, batches, k, s1, t1, a1, s2, t2, a2);
        }
    }
}

} // verus!
