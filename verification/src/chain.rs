use vstd::prelude::*;

verus! {

/// Upper bound on the number of extension slots of one dispatcher.
pub const MAX_EXTENSIONS: usize = 10;

/// Run-prio value stamped into unused dispatcher slots.
pub const DEFAULT_RUN_PRIO: u32 = 50;

/// One slot of a dispatcher chain: the program's identity, its ordering
/// key, and the proceed-on mask stamped into its slot.
#[derive(Clone, Copy, Debug, PartialEq, Eq, Structural)]
pub struct ChainEntry {
    pub uuid: u128,
    pub priority: u32,
    pub proceed_mask: u32,
}

/// Chain order: priority ascending, ties broken by UUID ascending.
pub open spec fn entry_lt(a: ChainEntry, b: ChainEntry) -> bool {
    a.priority < b.priority || (a.priority == b.priority && a.uuid < b.uuid)
}

/// The chain is strictly ordered.
pub open spec fn chain_sorted(s: Seq<ChainEntry>) -> bool {
    forall|i: int, j: int| 0 <= i < j < s.len() ==> entry_lt(s[i], s[j])
}

/// Whether some slot carries the given program.
pub open spec fn chain_has_uuid(s: Seq<ChainEntry>, uuid: u128) -> bool {
    exists|k: int| 0 <= k < s.len() && s[k].uuid == uuid
}

/// No program occupies two slots.
pub open spec fn chain_uuids_distinct(s: Seq<ChainEntry>) -> bool {
    forall|k: int, l: int| 0 <= k < l < s.len() ==> s[k].uuid != s[l].uuid
}

/// What stands at index `w` after inserting `e` at `idx`.
pub open spec fn spec_inserted(s: Seq<ChainEntry>, e: ChainEntry, idx: int, w: int) -> ChainEntry {
    if w < idx {
        s[w]
    } else if w == idx {
        e
    } else {
        s[w - 1]
    }
}

/// Exec comparison deciding `entry_lt`.
pub fn entry_precedes(a: &ChainEntry, b: &ChainEntry) -> (r: bool)
    ensures
        r == entry_lt(*a, *b),
{
    a.priority < b.priority || (a.priority == b.priority && a.uuid < b.uuid)
}

/// Insert a new program into a chain, keeping the order. Returns the new
/// chain and the rank the program took.
pub fn insert_sorted(chain: &Vec<ChainEntry>, e: ChainEntry) -> (r: (Vec<ChainEntry>, usize))
    requires
        chain_sorted(chain@),
        chain_uuids_distinct(chain@),
        !chain_has_uuid(chain@, e.uuid),
    ensures
        r.1 <= chain@.len(),
        r.0@ == chain@.subrange(0, r.1 as int) + seq![e] + chain@.subrange(
            r.1 as int,
            chain@.len() as int,
        ),
        r.0@.len() == chain@.len() + 1,
        r.0@[r.1 as int] == e,
        chain_sorted(r.0@),
        chain_uuids_distinct(r.0@),
        forall|u: u128|
            chain_has_uuid(r.0@, u) <==> (chain_has_uuid(chain@, u) || u == e.uuid),
        forall|w: int| 0 <= w < r.0@.len() ==> (r.0@[w] == e || chain@.contains(r.0@[w])),
{
    let ghost n = chain@.len() as int;
    let mut out: Vec<ChainEntry> = Vec::new();
    let mut i: usize = 0;
    while i < chain.len() && entry_precedes(&chain[i], &e)
        invariant
            i <= chain@.len(),
            out@ == chain@.subrange(0, i as int),
            forall|j: int| 0 <= j < i ==> entry_lt(chain@[j], e),
        decreases chain@.len() - i,
    {
        out.push(chain[i]);
        proof {
            assert(out@ =~= chain@.subrange(0, i + 1));
        }
        i = i + 1;
    }
    let idx = i;
    proof {
        // Everything at or after the split point follows the new entry.
        assert forall|j: int| idx <= j < n implies entry_lt(e, chain@[j]) by {
            assert(chain@[j].uuid != e.uuid);
            if idx < j {
                assert(entry_lt(chain@[idx as int], chain@[j]));
            }
            assert(!entry_lt(chain@[idx as int], e));
        }
    }
    out.push(e);
    let mut k = idx;
    while k < chain.len()
        invariant
            idx <= k <= chain@.len(),
            out@ == chain@.subrange(0, idx as int) + seq![e] + chain@.subrange(
                idx as int,
                k as int,
            ),
        decreases chain@.len() - k,
    {
        out.push(chain[k]);
        proof {
            assert(out@ =~= chain@.subrange(0, idx as int) + seq![e] + chain@.subrange(
                idx as int,
                k + 1,
            ));
        }
        k = k + 1;
    }
    proof {
        assert(out@ =~= chain@.subrange(0, idx as int) + seq![e] + chain@.subrange(idx as int, n));
        if idx == 0 {
            assert(out@ =~= seq![e] + chain@.subrange(0, n));
        }
        let v = out@;
        assert forall|w: int| 0 <= w < v.len() implies v[w] == spec_inserted(chain@, e, idx as int, w) by {
            if w < idx {
                assert(v[w] == chain@.subrange(0, idx as int)[w]);
            } else if w > idx {
                assert(v[w] == chain@.subrange(idx as int, n)[w - idx - 1]);
            }
        }
        assert forall|i1: int, j1: int| 0 <= i1 < j1 < v.len() implies entry_lt(v[i1], v[j1]) by {
            assert(v[i1] == spec_inserted(chain@, e, idx as int, i1));
            assert(v[j1] == spec_inserted(chain@, e, idx as int, j1));
            assert(forall|j: int| 0 <= j < idx ==> entry_lt(chain@[j], e));
            assert(forall|j: int| idx <= j < n ==> entry_lt(e, chain@[j]));
        }
        assert forall|k1: int, l1: int| 0 <= k1 < l1 < v.len() implies v[k1].uuid != v[l1].uuid by {
            assert(v[k1] == spec_inserted(chain@, e, idx as int, k1));
            assert(v[l1] == spec_inserted(chain@, e, idx as int, l1));
            assert(forall|j: int| 0 <= j < n ==> chain@[j].uuid != e.uuid);
        }
        assert forall|w: int| 0 <= w < v.len() implies (v[w] == e || chain@.contains(v[w])) by {
            assert(v[w] == spec_inserted(chain@, e, idx as int, w));
            if w < idx {
                assert(chain@[w] == v[w]);
            } else if w > idx {
                assert(chain@[w - 1] == v[w]);
            }
        }
        assert forall|u: u128|
            chain_has_uuid(v, u) <==> (chain_has_uuid(chain@, u) || u == e.uuid) by {
            assert(v[idx as int] == e);
            if u == e.uuid {
                assert(v[idx as int].uuid == u);
                assert(chain_has_uuid(v, u));
            }
            if chain_has_uuid(chain@, u) {
                let w = choose|w: int| 0 <= w < chain@.len() && chain@[w].uuid == u;
                if w < idx {
                    assert(v[w].uuid == u);
                } else {
                    assert(v[w + 1] == spec_inserted(chain@, e, idx as int, w + 1));
                    assert(v[w + 1].uuid == u);
                }
                assert(chain_has_uuid(v, u));
            }
            if chain_has_uuid(v, u) && u != e.uuid {
                let w = choose|w: int| 0 <= w < v.len() && v[w].uuid == u;
                assert(v[w] == spec_inserted(chain@, e, idx as int, w));
                if w < idx {
                    assert(chain@[w].uuid == u);
                } else {
                    assert(w != idx);
                    assert(chain@[w - 1].uuid == u);
                }
                assert(chain_has_uuid(chain@, u));
            }
        }
    }
    (out, idx)
}

/// Remove a program from a chain, keeping the order. Returns the new chain
/// and the rank the program held, if it was present.
pub fn remove_uuid(chain: &Vec<ChainEntry>, uuid: u128) -> (r: (Vec<ChainEntry>, Option<usize>))
    requires
        chain_sorted(chain@),
        chain_uuids_distinct(chain@),
    ensures
        !chain_has_uuid(chain@, uuid) ==> (r.0@ == chain@ && r.1 is None),
        chain_has_uuid(chain@, uuid) ==> (r.1 matches Some(idx) && idx < chain@.len()
            && chain@[idx as int].uuid == uuid && r.0@ == chain@.subrange(0, idx as int)
            + chain@.subrange(idx + 1, chain@.len() as int)),
        chain_sorted(r.0@),
        chain_uuids_distinct(r.0@),
        !chain_has_uuid(r.0@, uuid),
        forall|u: u128|
            u != uuid ==> (chain_has_uuid(r.0@, u) <==> chain_has_uuid(chain@, u)),
        forall|w: int| 0 <= w < r.0@.len() ==> chain@.contains(r.0@[w]),
{
    let ghost n = chain@.len() as int;
    let mut i: usize = 0;
    while i < chain.len()
        invariant
            i <= chain@.len(),
            chain_sorted(chain@),
            chain_uuids_distinct(chain@),
            forall|j: int| 0 <= j < i ==> chain@[j].uuid != uuid,
        decreases chain@.len() - i,
    {
        if chain[i].uuid == uuid {
            let idx = i;
            let ghost m = chain@.len() as int;
            let mut out: Vec<ChainEntry> = Vec::new();
            let mut k: usize = 0;
            while k < chain.len()
                invariant
                    k <= chain@.len(),
                    idx < chain@.len(),
                    out@ == if k <= idx {
                        chain@.subrange(0, k as int)
                    } else {
                        chain@.subrange(0, idx as int) + chain@.subrange(idx + 1, k as int)
                    },
                decreases chain@.len() - k,
            {
                if k != idx {
                    out.push(chain[k]);
                }
                proof {
                    if k + 1 <= idx {
                        assert(out@ =~= chain@.subrange(0, k + 1));
                    } else if k == idx {
                        assert(out@ =~= chain@.subrange(0, idx as int) + chain@.subrange(
                            idx + 1,
                            idx + 1,
                        ));
                    } else {
                        assert(out@ =~= chain@.subrange(0, idx as int) + chain@.subrange(
                            idx + 1,
                            k + 1,
                        ));
                    }
                }
                k = k + 1;
            }
            proof {
                let v = out@;
                assert(v == chain@.subrange(0, idx as int) + chain@.subrange(idx + 1, m));
                assert forall|u: u128|
                    u != uuid implies (chain_has_uuid(v, u) <==> chain_has_uuid(chain@, u)) by {
                    {
                        if chain_has_uuid(chain@, u) {
                            let w = choose|w: int|
                                0 <= w < chain@.len() && chain@[w].uuid == u;
                            if w < idx {
                                assert(v[w].uuid == u);
                            } else {
                                assert(w > idx);
                                assert(v[w - 1].uuid == u);
                            }
                        }
                        if chain_has_uuid(v, u) {
                            let w = choose|w: int| 0 <= w < v.len() && v[w].uuid == u;
                            if w < idx {
                                assert(chain@[w].uuid == u);
                            } else {
                                assert(chain@[w + 1].uuid == u);
                            }
                        }
                    }
                }
                assert forall|w: int| 0 <= w < v.len() implies v[w].uuid != uuid by {
                    if w < idx {
                        assert(v[w] == chain@.subrange(0, idx as int)[w]);
                        assert(v[w] == chain@[w]);
                        assert(chain@[w].uuid != chain@[idx as int].uuid);
                    } else {
                        assert(v[w] == chain@.subrange(idx + 1, m)[w - idx]);
                        assert(v[w] == chain@[w + 1]);
                        assert(chain@[idx as int].uuid != chain@[w + 1].uuid);
                    }
                }
                assert(!chain_has_uuid(v, uuid));
                assert forall|w: int| 0 <= w < v.len() implies chain@.contains(v[w]) by {
                    if w < idx {
                        assert(v[w] == chain@.subrange(0, idx as int)[w]);
                        assert(chain@[w] == v[w]);
                    } else {
                        assert(v[w] == chain@.subrange(idx + 1, m)[w - idx]);
                        assert(chain@[w + 1] == v[w]);
                    }
                }
                assert forall|i1: int, j1: int| 0 <= i1 < j1 < v.len() implies entry_lt(
                    v[i1],
                    v[j1],
                ) by {
                    if i1 < idx {
                        assert(v[i1] == chain@.subrange(0, idx as int)[i1]);
                    } else {
                        assert(v[i1] == chain@.subrange(idx + 1, m)[i1 - idx]);
                    }
                    if j1 < idx {
                        assert(v[j1] == chain@.subrange(0, idx as int)[j1]);
                    } else {
                        assert(v[j1] == chain@.subrange(idx + 1, m)[j1 - idx]);
                    }
                }
                assert forall|k1: int, l1: int| 0 <= k1 < l1 < v.len() implies v[k1].uuid
                    != v[l1].uuid by {
                    if k1 < idx {
                        assert(v[k1] == chain@.subrange(0, idx as int)[k1]);
                    } else {
                        assert(v[k1] == chain@.subrange(idx + 1, m)[k1 - idx]);
                    }
                    if l1 < idx {
                        assert(v[l1] == chain@.subrange(0, idx as int)[l1]);
                    } else {
                        assert(v[l1] == chain@.subrange(idx + 1, m)[l1 - idx]);
                    }
                }
            }
            return (out, Some(idx));
        }
        i = i + 1;
    }
    let out = clone_chain(chain);
    (out, None)
}

/// Copy a chain element by element.
pub fn clone_chain(chain: &Vec<ChainEntry>) -> (r: Vec<ChainEntry>)
    ensures
        r@ == chain@,
{
    let mut out: Vec<ChainEntry> = Vec::new();
    let mut i: usize = 0;
    while i < chain.len()
        invariant
            i <= chain@.len(),
            out@ == chain@.subrange(0, i as int),
        decreases chain@.len() - i,
    {
        out.push(chain[i]);
        proof {
            assert(out@ =~= chain@.subrange(0, i + 1));
        }
        i = i + 1;
    }
    proof {
        assert(chain@.subrange(0, chain@.len() as int) =~= chain@);
    }
    out
}

/// The configuration structure stamped into a dispatcher's read-only data:
/// how many slots are live, the proceed-on mask of each slot, and the
/// run-prio of each slot.
pub struct DispatcherConfig {
    pub num_extensions: usize,
    pub chain_call_actions: Vec<u32>,
    pub run_prios: Vec<u32>,
}

/// Build the dispatcher configuration for a chain: slot `k` of the config
/// carries the proceed-on mask of chain member `k`; unused slots carry an
/// empty mask; every slot carries the default run-prio.
pub fn build_config(chain: &Vec<ChainEntry>) -> (r: DispatcherConfig)
    requires
        chain@.len() <= MAX_EXTENSIONS,
    ensures
        r.num_extensions == chain@.len(),
        r.chain_call_actions@.len() == MAX_EXTENSIONS,
        r.run_prios@.len() == MAX_EXTENSIONS,
        forall|k: int| 0 <= k < chain@.len() ==> r.chain_call_actions@[k] == chain@[k].proceed_mask,
        forall|k: int|
            chain@.len() <= k < MAX_EXTENSIONS ==> r.chain_call_actions@[k] == 0,
        forall|k: int| 0 <= k < MAX_EXTENSIONS ==> r.run_prios@[k] == DEFAULT_RUN_PRIO,
{
    let mut actions: Vec<u32> = Vec::new();
    let mut prios: Vec<u32> = Vec::new();
    let mut k: usize = 0;
    while k < MAX_EXTENSIONS
        invariant
            k <= MAX_EXTENSIONS,
            chain@.len() <= MAX_EXTENSIONS,
            actions@.len() == k,
            prios@.len() == k,
            forall|j: int| 0 <= j < k && j < chain@.len() ==> actions@[j] == chain@[j].proceed_mask,
            forall|j: int| chain@.len() <= j < k ==> actions@[j] == 0,
            forall|j: int| 0 <= j < k ==> prios@[j] == DEFAULT_RUN_PRIO,
        decreases MAX_EXTENSIONS - k,
    {
        if k < chain.len() {
            actions.push(chain[k].proceed_mask);
        } else {
            actions.push(0);
        }
        prios.push(DEFAULT_RUN_PRIO);
        k = k + 1;
    }
    DispatcherConfig { num_extensions: chain.len(), chain_call_actions: actions, run_prios: prios }
}

} // verus!
