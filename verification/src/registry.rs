use vstd::prelude::*;
use crate::bytes::{decode_u128, decode_u32, encode_u128, encode_u32};
use crate::errors::BpfdError;
use crate::manager::{AttachSpec, BpfManager, LoadOutcome, LoadRequest};
use crate::proceed_on::ProceedOn;
use crate::store::{store_has_tree, store_tree_at, Store};
use crate::types::{Direction, ProgramKind, XdpMode};

verus! {

/// The sub-tree name of one program's persistent record: a tag byte
/// followed by the encoded identity. Program names are seventeen bytes
/// long, dispatcher names nine, so the two kinds never collide.
pub open spec fn program_tree_name(uuid: u128) -> Seq<u8> {
    seq![4u8] + crate::bytes::u128_le_bytes(uuid)
}

/// Build a program sub-tree name.
pub fn make_program_tree_name(uuid: u128) -> (r: Vec<u8>)
    ensures
        r@ == program_tree_name(uuid),
{
    let mut v: Vec<u8> = Vec::new();
    v.push(4u8);
    let a = encode_u128(uuid);
    let mut i: usize = 0;
    while i < a.len()
        invariant
            i <= a@.len(),
            v@ == seq![4u8] + a@.subrange(0, i as int),
            a@ == crate::bytes::u128_le_bytes(uuid),
        decreases a@.len() - i,
    {
        v.push(a[i]);
        proof {
            assert(v@ =~= seq![4u8] + a@.subrange(0, i + 1));
        }
        i = i + 1;
    }
    proof {
        assert(a@.subrange(0, a@.len() as int) =~= a@);
        assert(v@ =~= program_tree_name(uuid));
    }
    v
}

/// Recover the identity from a program sub-tree name; any other shape is
/// not a program record.
pub fn parse_program_tree_name(name: &Vec<u8>) -> (r: Option<u128>) {
    if name.len() != 17 {
        return None;
    }
    if name[0] != 4u8 {
        return None;
    }
    let mut body: Vec<u8> = Vec::new();
    let mut i: usize = 1;
    while i < 17
        invariant
            1 <= i <= 17,
            name@.len() == 17,
            body@ == name@.subrange(1, i as int),
        decreases 17 - i,
    {
        body.push(name[i]);
        proof {
            assert(body@ =~= name@.subrange(1, i + 1));
        }
        i = i + 1;
    }
    decode_u128(&body)
}

/// Encode a proceed-on code list as concatenated four-byte values.
fn encode_codes(codes: &Vec<u32>) -> (r: Vec<u8>) {
    let mut out: Vec<u8> = Vec::new();
    let mut i: usize = 0;
    while i < codes.len()
        decreases codes@.len() - i,
    {
        let e = encode_u32(codes[i]);
        let mut j: usize = 0;
        while j < e.len()
            decreases e@.len() - j,
        {
            out.push(e[j]);
            j = j + 1;
        }
        i = i + 1;
    }
    out
}

/// Decode a proceed-on code list; a ragged length is rejected.
fn decode_codes(v: &Vec<u8>) -> (r: Option<Vec<u32>>) {
    if v.len() % 4 != 0 {
        return None;
    }
    let mut out: Vec<u32> = Vec::new();
    let mut i: usize = 0;
    while v.len() - i >= 4
        invariant
            i <= v@.len(),
        decreases v@.len() - i,
    {
        let c = (v[i] as u32) | ((v[i + 1] as u32) << 8u32) | ((v[i + 2] as u32) << 16u32) | ((v[i
            + 3] as u32) << 24u32);
        out.push(c);
        i = i + 4;
    }
    Some(out)
}

/// Write one program's record under its own sub-tree: the plan's
/// normalized fields and what the outside work reported. Only this one
/// sub-tree is named, whether the result is success or error.
#[verifier::rlimit(60)]
pub fn persist_program_record(
    store: &mut Store,
    plan: &crate::manager::LoadPlan,
    kernel_id: u32,
    disp_symbol: &Vec<u8>,
) -> (r: Result<(), BpfdError>)
    ensures
        r is Ok ==> store_has_tree(*final(store), program_tree_name(plan.uuid)),
        forall|n: Seq<u8>|
            n != program_tree_name(plan.uuid) ==> #[trigger] store_tree_at(*final(store), n)
                == store_tree_at(*old(store), n),
        forall|n: Seq<u8>|
            n != program_tree_name(plan.uuid) ==> #[trigger] store_has_tree(*final(store), n)
                == store_has_tree(*old(store), n),
{
    let name = make_program_tree_name(plan.uuid);
    let nm = name.as_slice();
    match store.clear_tree(nm) {
        Ok(()) => (),
        Err(e) => {
            return Err(e);
        },
    }
    let kind_tag: u32 = match plan.request.kind {
        ProgramKind::Xdp => 1,
        ProgramKind::Tc => 2,
        ProgramKind::Tracepoint => 3,
    };
    let enc = encode_u32(kind_tag);
    match store.put(nm, "kind", enc.as_slice()) {
        Ok(()) => (),
        Err(e) => {
            return Err(e);
        },
    }
    match store.put(nm, "location", plan.request.location.as_slice()) {
        Ok(()) => (),
        Err(e) => {
            return Err(e);
        },
    }
    match store.put(nm, "section_name", plan.request.section_name.as_slice()) {
        Ok(()) => (),
        Err(e) => {
            return Err(e);
        },
    }
    match store.put(nm, "owner", plan.request.username.as_slice()) {
        Ok(()) => (),
        Err(e) => {
            return Err(e);
        },
    }
    let enc = encode_u32(plan.request.mode.as_u32());
    match store.put(nm, "mode", enc.as_slice()) {
        Ok(()) => (),
        Err(e) => {
            return Err(e);
        },
    }
    let enc = encode_u32(kernel_id);
    match store.put(nm, "kernel_id", enc.as_slice()) {
        Ok(()) => (),
        Err(e) => {
            return Err(e);
        },
    }
    match store.put(nm, "disp_symbol", disp_symbol.as_slice()) {
        Ok(()) => (),
        Err(e) => {
            return Err(e);
        },
    }
    match &plan.request.attach {
        AttachSpec::NetworkMultiAttach { .. } => {
            let enc = encode_u32(plan.if_index);
            match store.put(nm, "if_index", enc.as_slice()) {
                Ok(()) => (),
                Err(e) => {
                    return Err(e);
                },
            }
            match store.put(nm, "if_name", plan.if_name.as_slice()) {
                Ok(()) => (),
                Err(e) => {
                    return Err(e);
                },
            }
            let enc = encode_u32(plan.priority);
            match store.put(nm, "priority", enc.as_slice()) {
                Ok(()) => (),
                Err(e) => {
                    return Err(e);
                },
            }
            let enc = encode_codes(&plan.proceed_on.codes);
            match store.put(nm, "proceed_on", enc.as_slice()) {
                Ok(()) => (),
                Err(e) => {
                    return Err(e);
                },
            }
            let dir_tag: u32 = match plan.direction {
                None => 0,
                Some(Direction::Ingress) => 1,
                Some(Direction::Egress) => 2,
            };
            let enc = encode_u32(dir_tag);
            match store.put(nm, "direction", enc.as_slice()) {
                Ok(()) => (),
                Err(e) => {
                    return Err(e);
                },
            }
        },
        AttachSpec::SingleAttach { category, name: tp_name } => {
            match store.put(nm, "tp_category", category.as_slice()) {
                Ok(()) => (),
                Err(e) => {
                    return Err(e);
                },
            }
            match store.put(nm, "tp_name", tp_name.as_slice()) {
                Ok(()) => (),
                Err(e) => {
                    return Err(e);
                },
            }
        },
    }
    Ok(())
}

/// Read one program's record back as the Load it stands for, with the
/// kernel id and dispatcher symbol of its last commit. A record that
/// cannot be decoded is discarded by the caller.
pub fn read_program_record(store: &mut Store, uuid: u128) -> (r: Option<
    (LoadRequest, u32, Vec<u8>),
>)
    ensures
        r matches Some(t) ==> crate::manager::req_wf(t.0),
{
    let name = make_program_tree_name(uuid);
    let nm = name.as_slice();
    let kind_tag = match read_u32_key(store, nm, "kind") {
        Some(x) => x,
        None => {
            return None;
        },
    };
    let location = match read_bytes_key(store, nm, "location") {
        Some(v) => v,
        None => {
            return None;
        },
    };
    let section_name = match read_bytes_key(store, nm, "section_name") {
        Some(v) => v,
        None => {
            return None;
        },
    };
    let owner = match read_bytes_key(store, nm, "owner") {
        Some(v) => v,
        None => {
            return None;
        },
    };
    let mode = match read_u32_key(store, nm, "mode") {
        Some(x) => match XdpMode::from_u32(x) {
            Some(m) => m,
            None => {
                return None;
            },
        },
        None => {
            return None;
        },
    };
    let kernel_id = match read_u32_key(store, nm, "kernel_id") {
        Some(x) => x,
        None => {
            return None;
        },
    };
    let disp_symbol = match read_bytes_key(store, nm, "disp_symbol") {
        Some(v) => v,
        None => {
            return None;
        },
    };
    let (kind, attach): (ProgramKind, AttachSpec) = if kind_tag == 1 || kind_tag == 2 {
        let if_index = match read_u32_key(store, nm, "if_index") {
            Some(x) => x,
            None => {
                return None;
            },
        };
        let if_name = match read_bytes_key(store, nm, "if_name") {
            Some(v) => v,
            None => {
                return None;
            },
        };
        let priority = match read_u32_key(store, nm, "priority") {
            Some(x) => x,
            None => {
                return None;
            },
        };
        let raw_codes = match read_bytes_key(store, nm, "proceed_on") {
            Some(v) => v,
            None => {
                return None;
            },
        };
        let codes = match decode_codes(&raw_codes) {
            Some(c) => c,
            None => {
                return None;
            },
        };
        let proceed_on = match ProceedOn::from_codes(codes) {
            Some(p) => p,
            None => {
                return None;
            },
        };
        let direction = match read_u32_key(store, nm, "direction") {
            Some(0) => None,
            Some(1) => Some(Direction::Ingress),
            Some(2) => Some(Direction::Egress),
            _ => {
                return None;
            },
        };
        let kind = if kind_tag == 1 {
            ProgramKind::Xdp
        } else {
            ProgramKind::Tc
        };
        (
            kind,
            AttachSpec::NetworkMultiAttach {
                if_index: Some(if_index),
                if_name,
                priority,
                proceed_on,
                direction,
                position: None,
            },
        )
    } else if kind_tag == 3 {
        let category = match read_bytes_key(store, nm, "tp_category") {
            Some(v) => v,
            None => {
                return None;
            },
        };
        let tp_name = match read_bytes_key(store, nm, "tp_name") {
            Some(v) => v,
            None => {
                return None;
            },
        };
        (ProgramKind::Tracepoint, AttachSpec::SingleAttach { category, name: tp_name })
    } else {
        return None;
    };
    let req = LoadRequest {
        kind,
        location,
        section_name,
        global_data: Vec::new(),
        username: owner,
        mode,
        attach,
    };
    Some((req, kernel_id, disp_symbol))
}

/// Read one four-byte value of a record.
fn read_u32_key(store: &mut Store, name: &[u8], key: &str) -> (r: Option<u32>) {
    match store.get(name, key) {
        Ok(Some(v)) => decode_u32(&v),
        _ => None,
    }
}

/// Read one byte-string value of a record.
fn read_bytes_key(store: &mut Store, name: &[u8], key: &str) -> (r: Option<Vec<u8>>) {
    match store.get(name, key) {
        Ok(Some(v)) => Some(v),
        _ => None,
    }
}

/// One program record found in the store at startup.
struct Rec {
    uuid: u128,
    kernel_id: u32,
    disp_symbol: Vec<u8>,
    req: LoadRequest,
}

/// Records are kept strictly ascending by identity.
spec fn recs_sorted(s: Seq<Rec>) -> bool {
    forall|i: int, j: int| 0 <= i < j < s.len() ==> s[i].uuid < s[j].uuid
}

/// Every kept record decodes to a well-formed Load.
spec fn recs_wf(s: Seq<Rec>) -> bool {
    forall|i: int| 0 <= i < s.len() ==> crate::manager::req_wf((#[trigger] s[i]).req)
}

/// Whether this record's identity comes before the given one.
fn rec_precedes(recs: &Vec<Rec>, i: usize, uuid: u128) -> (r: bool)
    requires
        i < recs@.len(),
    ensures
        r == (recs@[i as int].uuid < uuid),
{
    recs[i].uuid < uuid
}

/// Insert a record in identity order; a second record of the same
/// identity is discarded.
fn insert_rec(recs: &mut Vec<Rec>, rec: Rec)
    requires
        recs_sorted(old(recs)@),
        recs_wf(old(recs)@),
        crate::manager::req_wf(rec.req),
    ensures
        recs_sorted((final(recs))@),
        recs_wf((final(recs))@),
{
    let ghost s0 = recs@;
    let mut i: usize = 0;
    while i < recs.len() && rec_precedes(recs, i, rec.uuid)
        invariant
            i <= recs@.len(),
            recs@ == s0,
            recs_sorted(s0),
            recs_wf(s0),
            crate::manager::req_wf(rec.req),
            forall|j: int| 0 <= j < i ==> s0[j].uuid < rec.uuid,
        decreases recs@.len() - i,
    {
        i = i + 1;
    }
    if i < recs.len() && recs[i].uuid == rec.uuid {
        return ;
    }
    proof {
        assert forall|j: int| i <= j < s0.len() implies s0[j].uuid > rec.uuid by {
            assert(s0[i as int].uuid != rec.uuid && !(s0[i as int].uuid < rec.uuid));
            if i < j {
                assert(s0[i as int].uuid < s0[j].uuid);
            }
        }
    }
    recs.insert(i, rec);
    proof {
        let s1 = recs@;
        assert(s1 == s0.insert(i as int, rec));
        assert forall|a: int, b: int| 0 <= a < b < s1.len() implies s1[a].uuid < s1[b].uuid by {
            assert(s1[a] == (if a < i {
                s0[a]
            } else if a == i {
                rec
            } else {
                s0[a - 1]
            }));
            assert(s1[b] == (if b < i {
                s0[b]
            } else if b == i {
                rec
            } else {
                s0[b - 1]
            }));
        }
        assert forall|a: int| 0 <= a < s1.len() implies crate::manager::req_wf(
            (#[trigger] s1[a]).req,
        ) by {
            assert(s1[a] == (if a < i {
                s0[a]
            } else if a == i {
                rec
            } else {
                s0[a - 1]
            }));
        }
    }
}

/// Rebuild the core from an intact store on startup: every program record
/// that decodes is replayed through the ordinary Load path, in identity
/// order, so identities are never reused and every chain comes back in
/// priority order. A record that cannot be decoded, or that no longer
/// fits its chain, is discarded, and the daemon starts without it.
pub fn rebuild_state(store: Store) -> (r: BpfManager)
    ensures
        r.wf(),
{
    let mut mgr = BpfManager::new(store);
    let names = mgr.store.tree_names();
    let mut recs: Vec<Rec> = Vec::new();
    let mut i: usize = 0;
    while i < names.len()
        invariant
            mgr.wf(),
            recs_sorted(recs@),
            recs_wf(recs@),
        decreases names@.len() - i,
    {
        if let Some(uuid) = parse_program_tree_name(&names[i]) {
            if let Some((req, kernel_id, disp_symbol)) = read_program_record(&mut mgr.store, uuid)
            {
                insert_rec(&mut recs, Rec { uuid, kernel_id, disp_symbol, req });
            }
        }
        i = i + 1;
    }
    while recs.len() > 0
        invariant
            mgr.wf(),
            recs_sorted(recs@),
            recs_wf(recs@),
        decreases recs@.len(),
    {
        let rec = recs.remove(0);
        if rec.uuid >= mgr.next_uuid && rec.uuid < u128::MAX {
            mgr.next_uuid = rec.uuid;
            proof {
                assert forall|p: int|
                    0 <= p < mgr.programs@.len() implies (#[trigger] mgr.programs@[p]).uuid()
                        < mgr.next_uuid by {}
                assert(mgr.wf());
            }
            match mgr.begin_load(rec.req) {
                Ok(plan) => {
                    let _ = mgr.finish_load(
                        plan,
                        LoadOutcome::Loaded {
                            kernel_id: rec.kernel_id,
                            dispatcher_program_name: rec.disp_symbol,
                        },
                    );
                },
                Err(_) => (),
            }
        }
    }
    mgr
}

} // verus!
