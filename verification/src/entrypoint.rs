//! Choosing a profile, and what each profile hands out.

use crate::materialization::common::{
    dummy_first_stage_materialization, dummy_second_stage_materialization, placeholder_lists,
    tbox_spo_sco_closure, tbox_spo_sco_materialization,
};
use crate::materialization::owl2rl::{
    list_set, listed, lists_of, owl2rl_abox, owl2rl_entailment, owl2rl_tbox, owl2rl_tbox_closure,
};
use crate::materialization::rdfs::{rdfs, rdfs_entailment};
use crate::materialization::rdfspp::{rdfspp, rdfspp_entailment};
use crate::collection::distinct;
use crate::model::types::{List, Triple};
use crate::reason::Reasoner;
use vstd::prelude::*;

verus! {

/// The rule profiles. `Dummy` infers nothing and hands its input back.
#[derive(Clone, Copy, PartialEq, Eq, Structural, Debug)]
pub enum Engine {
    RDFS,
    RDFSpp,
    OWL2RL,
    Dummy,
}

/// The closure of a terminology box under a profile.
pub open spec fn tbox_output(logic: Engine, tbox: Set<Triple>) -> Set<Triple> {
    match logic {
        Engine::Dummy => tbox,
        Engine::OWL2RL => owl2rl_tbox_closure(tbox),
        _ => tbox_spo_sco_closure(tbox),
    }
}

/// The lists that the first stage of a profile hands to the second: those of
/// the terminology box under OWL 2 RL, else the placeholder `(0, [0])`.
pub open spec fn lists_output(logic: Engine, tbox: Set<Triple>) -> Set<(u32, Seq<u32>)> {
    match logic {
        Engine::OWL2RL => lists_of(tbox),
        _ => set![(0u32, seq![0u32])],
    }
}

/// The closure of an assertion box under a profile and a terminology box.
/// The second stage reads the closure of the terminology box, not the box itself.
pub open spec fn abox_output(logic: Engine, tbox: Set<Triple>, abox: Set<Triple>) -> Set<Triple> {
    match logic {
        Engine::RDFS => rdfs_entailment(tbox_output(logic, tbox), abox),
        Engine::RDFSpp => rdfspp_entailment(tbox_output(logic, tbox), abox),
        Engine::OWL2RL => owl2rl_entailment(tbox_output(logic, tbox), lists_of(tbox), abox),
        Engine::Dummy => abox,
    }
}

/// The placeholder list as a set.
pub proof fn lemma_placeholder(lists: Seq<List>)
    requires
        placeholder_lists(lists),
    ensures
        list_set(lists) == set![(0u32, seq![0u32])],
{
    assert forall|l: (u32, Seq<u32>)|
        list_set(lists).contains(l) <==> set![(0u32, seq![0u32])].contains(l) by {
        if listed(lists, l.0, l.1) {
            let k = choose|k: int|
                0 <= k < lists.len() && (#[trigger] lists[k]).0 == l.0 && lists[k].1@ == l.1;
            assert(k == 0);
        }
        if l == (0u32, seq![0u32]) {
            assert(lists[0].0 == l.0 && lists[0].1@ == l.1);
        }
    }
    assert(list_set(lists) =~= set![(0u32, seq![0u32])]);
}

/// The first stage of a profile: the closure of the terminology box, each
/// triple once, and the lists for the second stage.
pub fn first_stage(logic: Engine, tbox: &Vec<Triple>) -> (r: (Vec<Triple>, Vec<List>))
    ensures
        r.0@.no_duplicates(),
        r.0@.to_set() == tbox_output(logic, tbox@.to_set()),
        list_set(r.1@) == lists_output(logic, tbox@.to_set()),
{
    match logic {
        Engine::Dummy => {
            let r = dummy_first_stage_materialization(tbox);
            proof {
                lemma_placeholder(r.1@);
            }
            (distinct(&r.0), r.1)
        },
        Engine::OWL2RL => owl2rl_tbox(tbox),
        _ => {
            let r = tbox_spo_sco_materialization(tbox);
            proof {
                lemma_placeholder(r.1@);
            }
            r
        },
    }
}

/// The second stage of a profile: the closure of the assertion box under
/// what the first stage handed over, each triple once.
pub fn second_stage(logic: Engine, tbox: &Vec<Triple>, lists: &Vec<List>, abox: &Vec<Triple>) -> (r:
    Vec<Triple>)
    ensures
        r@.no_duplicates(),
        r@.to_set() == match logic {
            Engine::RDFS => rdfs_entailment(tbox@.to_set(), abox@.to_set()),
            Engine::RDFSpp => rdfspp_entailment(tbox@.to_set(), abox@.to_set()),
            Engine::OWL2RL => owl2rl_entailment(tbox@.to_set(), list_set(lists@), abox@.to_set()),
            Engine::Dummy => abox@.to_set(),
        },
{
    match logic {
        Engine::RDFS => rdfs(tbox, lists, abox),
        Engine::RDFSpp => rdfspp(tbox, lists, abox),
        Engine::OWL2RL => owl2rl_abox(tbox, lists, abox),
        Engine::Dummy => distinct(&dummy_second_stage_materialization(tbox, lists, abox)),
    }
}

/// Both stages of a profile, one after the other.
pub fn materialize(logic: Engine, tbox: &Vec<Triple>, abox: &Vec<Triple>) -> (r: (
    Vec<Triple>,
    Vec<Triple>,
))
    ensures
        r.0@.no_duplicates(),
        r.1@.no_duplicates(),
        r.0@.to_set() == tbox_output(logic, tbox@.to_set()),
        r.1@.to_set() == abox_output(logic, tbox@.to_set(), abox@.to_set()),
{
    let (closure, lists) = first_stage(logic, tbox);
    let entailed = second_stage(logic, &closure, &lists, abox);
    (closure, entailed)
}

/// The profile that a name on the command line selects: `rdfs`, `rdfspp`
/// or `owl2rl`; any other name selects `Dummy`.
pub open spec fn engine_named(name: Seq<u8>) -> Engine {
    // r d f s
    if name == seq![114u8, 100u8, 102u8, 115u8] {
        Engine::RDFS
        // r d f s p p
    } else if name == seq![114u8, 100u8, 102u8, 115u8, 112u8, 112u8] {
        Engine::RDFSpp
        // o w l 2 r l
    } else if name == seq![111u8, 119u8, 108u8, 50u8, 114u8, 108u8] {
        Engine::OWL2RL
    } else {
        Engine::Dummy
    }
}

/// Whether `name` is the bytes of `word`.
fn spells(name: &[u8], word: &Vec<u8>) -> (b: bool)
    ensures
        b == (name@ == word@),
{
    if name.len() != word.len() {
        return false;
    }
    let mut i: usize = 0;
    while i < name.len()
        invariant
            i <= name.len(),
            name@.len() == word@.len(),
            forall|j: int| 0 <= j < i ==> name@[j] == word@[j],
        decreases name.len() - i,
    {
        if name[i] != word[i] {
            return false;
        }
        i += 1;
    }
    assert(name@ =~= word@);
    true
}

/// Reads the name of a profile.
pub fn select(name: &[u8]) -> (logic: Engine)
    ensures
        logic == engine_named(name@),
{
    let rdfs: Vec<u8> = vec![114u8, 100u8, 102u8, 115u8];
    let rdfspp: Vec<u8> = vec![114u8, 100u8, 102u8, 115u8, 112u8, 112u8];
    let owl2rl: Vec<u8> = vec![111u8, 119u8, 108u8, 50u8, 114u8, 108u8];
    if spells(name, &rdfs) {
        Engine::RDFS
    } else if spells(name, &rdfspp) {
        Engine::RDFSpp
    } else if spells(name, &owl2rl) {
        Engine::OWL2RL
    } else {
        Engine::Dummy
    }
}

/// A reasoner for the profile `logic` that has seen nothing yet. Its
/// batches are full at `batch_size` updates.
pub fn entrypoint(batch_size: usize, logic: Engine) -> (r: Reasoner)
    ensures
        r.wf(),
        r.fresh(),
        r.epoch() == 0,
        r.logic() == logic,
        r.batch_size() == batch_size,
{
    Reasoner::new(logic, batch_size)
}

} // verus!
