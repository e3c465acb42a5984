use vstd::prelude::*;
use crate::chain::{chain_has_uuid, chain_sorted, chain_uuids_distinct};
use crate::manager::{
    chain_entry_matches, dispatchers_after_load, dispatchers_after_unload, loaded_program,
    BpfManager, LoadPlan, Pin, UnloadPlan,
};
use crate::types::Hook;

verus! {

/// Law: for every (interface, hook), the current dispatcher's chain holds
/// exactly the loaded programs of that interface and hook — a program is
/// in the chain if and only if it is loaded there — in the order of
/// priority ascending with ties broken by identity ascending, each slot
/// lining up with its program's ordering key and mask; a program's chain
/// position is therefore its rank in that order.
pub proof fn lemma_chain_is_ordered_registry(m: BpfManager, k: int)
    requires
        m.wf(),
        0 <= k < m.dispatchers@.len(),
    ensures
        chain_sorted(m.dispatchers@[k].chain@),
        chain_uuids_distinct(m.dispatchers@[k].chain@),
        forall|w: int|
            0 <= w < m.dispatchers@[k].chain@.len() ==> chain_entry_matches(
                m.programs@,
                #[trigger] m.dispatchers@[k].chain@[w],
                m.dispatchers@[k].hook,
                m.dispatchers@[k].if_index,
            ),
        forall|j: int|
            0 <= j < m.programs@.len() ==> ((#[trigger] m.programs@[j]).on_hook(
                m.dispatchers@[k].hook,
                m.dispatchers@[k].if_index,
            ) <==> chain_has_uuid(m.dispatchers@[k].chain@, m.programs@[j].uuid())),
{
    let d = m.dispatchers@[k];
    assert(d.inv());
    assert forall|j: int|
        0 <= j < m.programs@.len() implies ((#[trigger] m.programs@[j]).on_hook(
            d.hook,
            d.if_index,
        ) <==> chain_has_uuid(d.chain@, m.programs@[j].uuid())) by {
        let p = m.programs@[j];
        if p.on_hook(d.hook, d.if_index) {
            // A loaded program of this (interface, hook) occupies a slot of
            // its one dispatcher, which is this one.
            let k2 = choose|k2: int|
                0 <= k2 < m.dispatchers@.len() && m.dispatchers@[k2].hook == p.hook().unwrap()
                    && m.dispatchers@[k2].if_index == p.net().unwrap().if_index && chain_has_uuid(
                    m.dispatchers@[k2].chain@,
                    p.uuid(),
                );
            if k2 != k {
                assert(false);
            }
        }
        if chain_has_uuid(d.chain@, p.uuid()) {
            // The slot carrying this identity lines up with a loaded
            // program of this (interface, hook); identities are unique, so
            // that program is this one.
            let w = choose|w: int| 0 <= w < d.chain@.len() && d.chain@[w].uuid == p.uuid();
            assert(chain_entry_matches(m.programs@, d.chain@[w], d.hook, d.if_index));
            let j2 = choose|j2: int|
                0 <= j2 < m.programs@.len() && m.programs@[j2].uuid() == d.chain@[w].uuid
                    && m.programs@[j2].on_hook(d.hook, d.if_index) && (
                m.programs@[j2].net() matches Some(n) && n.priority == d.chain@[w].priority
                    && crate::proceed_on::ProceedOn::mask_of(n.proceed_on.codes@)
                    == d.chain@[w].proceed_mask);
            if j2 != j {
                if j2 < j {
                    assert(m.programs@[j2].uuid() < m.programs@[j].uuid());
                } else {
                    assert(m.programs@[j].uuid() < m.programs@[j2].uuid());
                }
                assert(false);
            }
        }
    }
}

/// Law: a committed chain mutation strictly raises the revision of its
/// (interface, hook): a Load plans the successor of the current revision,
/// and an Unload that leaves programs behind does the same. Together with
/// the commit contracts, which install exactly the planned revision,
/// revisions are strictly monotonically increasing over time.
pub proof fn lemma_load_raises_revision(m: BpfManager, plan: LoadPlan, h: Hook)
    requires
        m.wf(),
        m.valid_load_plan(plan),
        plan.hook == Some(h),
    ensures
        plan.revision == m.revision_of(h, plan.if_index) + 1,
        plan.revision > m.revision_of(h, plan.if_index),
{
}

/// Law: the revision also rises on every Unload that rebuilds the chain.
pub proof fn lemma_unload_raises_revision(m: BpfManager, plan: UnloadPlan, h: Hook)
    requires
        m.wf(),
        m.valid_unload_plan(plan),
        plan.hook == Some(h),
        !plan.teardown,
    ensures
        plan.revision == m.revision_of(h, plan.if_index) + 1,
        plan.revision > m.revision_of(h, plan.if_index),
{
}

/// Law: a Load followed by an Unload of the same identity restores the
/// registry, the dispatchers and the expected pin tree to what they were,
/// when the Load created the first dispatcher of its (interface, hook) —
/// its Unload then tears that dispatcher down again. The hypotheses are
/// the commit contracts of the two operations.
pub proof fn lemma_load_then_unload_restores(
    m0: BpfManager,
    m1: BpfManager,
    m2: BpfManager,
    plan: LoadPlan,
    h: Hook,
    kernel_id: u32,
    pname: Seq<u8>,
    plan2: UnloadPlan,
)
    requires
        m0.wf(),
        m0.valid_load_plan(plan),
        plan.hook == Some(h),
        !plan.had_dispatcher,
        m1.next_uuid == m0.next_uuid + 1,
        m1.programs@ == m0.programs@.push(loaded_program(plan, kernel_id)),
        dispatchers_after_load(m0.dispatchers@, m1.dispatchers@, plan, h, pname),
        m1.wf(),
        m1.valid_unload_plan(plan2),
        plan2.uuid == plan.uuid,
        plan2.hook == Some(h),
        plan2.if_index == plan.if_index,
        plan2.teardown,
        m2.next_uuid == m1.next_uuid,
        m2.programs@ == m1.programs@.remove(m1.prog_index_of(plan2.uuid)),
        dispatchers_after_unload(m1.dispatchers@, m2.dispatchers@, plan2, h),
    ensures
        m2.programs@ == m0.programs@,
        m2.dispatchers@ == m0.dispatchers@,
        forall|p: Pin| m2.expected_pin(p) == m0.expected_pin(p),
{
    let n = m0.programs@.len() as int;
    let prog = loaded_program(plan, kernel_id);
    // The unloaded program is the one the Load pushed: identities are
    // unique and the new one was fresh.
    let j = m1.prog_index_of(plan2.uuid);
    assert(m1.has_program(plan2.uuid)) by {
        assert(m1.programs@[n].uuid() == plan.uuid);
    }
    assert(0 <= j < m1.programs@.len() && m1.programs@[j].uuid() == plan2.uuid);
    if j != n {
        assert(m1.programs@[j] == m0.programs@[j]);
        assert(m0.programs@[j].uuid() < m0.next_uuid);
        assert(false);
    }
    assert(m2.programs@ =~= m0.programs@);
    // The torn-down dispatcher is the one the Load created, at the end.
    let nd = m0.dispatchers@.len() as int;
    let k = choose|k: int|
        0 <= k < m1.dispatchers@.len() && (#[trigger] m1.dispatchers@[k]).hook == h
            && m1.dispatchers@[k].if_index == plan2.if_index && m2.dispatchers@
            == m1.dispatchers@.remove(k);
    if k != nd {
        assert(m1.dispatchers@[k] == m1.dispatchers@.subrange(0, nd)[k]);
        assert(m1.dispatchers@[k] == m0.dispatchers@[k]);
        assert(m0.has_dispatcher(h, plan.if_index));
        assert(false);
    }
    assert forall|l: int| 0 <= l < nd implies m2.dispatchers@[l] == m0.dispatchers@[l] by {
        assert(m1.dispatchers@[l] == m1.dispatchers@.subrange(0, nd)[l]);
    }
    assert(m2.dispatchers@ =~= m0.dispatchers@);
    assert forall|p: Pin| m2.expected_pin(p) == m0.expected_pin(p) by {
        assert(m2.programs@ == m0.programs@);
        assert(m2.dispatchers@ == m0.dispatchers@);
    }
}

} // verus!
