use vstd::prelude::*;
use crate::bytes::{encode_u32, le_to_u32, lemma_u32_le_roundtrip, u32_le_bytes};
use crate::errors::BpfdError;
use crate::store::{empty_contents, store_has_tree, store_tree_at, Store};
use crate::types::{Hook, XdpMode};

verus! {

/// Tag byte naming the hook in a dispatcher sub-tree name.
pub open spec fn hook_tag(hook: Hook) -> u8 {
    match hook {
        Hook::Xdp => 1u8,
        Hook::TcIngress => 2u8,
        Hook::TcEgress => 3u8,
    }
}

/// The sub-tree name of the dispatcher record for one (interface, hook)
/// pair at one revision: the hook tag followed by the encoded interface
/// index and revision.
pub open spec fn dispatcher_tree_name(hook: Hook, if_index: u32, revision: u32) -> Seq<u8> {
    seq![hook_tag(hook)] + u32_le_bytes(if_index) + u32_le_bytes(revision)
}

/// Distinct (hook, interface, revision) triples name distinct sub-trees.
pub proof fn lemma_tree_name_injective(h1: Hook, i1: u32, r1: u32, h2: Hook, i2: u32, r2: u32)
    ensures
        dispatcher_tree_name(h1, i1, r1) == dispatcher_tree_name(h2, i2, r2) ==> (h1 == h2 && i1
            == i2 && r1 == r2),
{
    let n1 = dispatcher_tree_name(h1, i1, r1);
    let n2 = dispatcher_tree_name(h2, i2, r2);
    if n1 == n2 {
        assert(n1[0] == hook_tag(h1));
        assert(n2[0] == hook_tag(h2));
        assert(h1 == h2);
        assert(u32_le_bytes(i1) =~= u32_le_bytes(i2)) by {
            assert forall|j: int| 0 <= j < 4 implies u32_le_bytes(i1)[j] == u32_le_bytes(i2)[j] by {
                assert(n1[1 + j] == u32_le_bytes(i1)[j]);
                assert(n2[1 + j] == u32_le_bytes(i2)[j]);
            }
        }
        lemma_u32_le_roundtrip(i1);
        lemma_u32_le_roundtrip(i2);
        assert(u32_le_bytes(r1) =~= u32_le_bytes(r2)) by {
            assert forall|j: int| 0 <= j < 4 implies u32_le_bytes(r1)[j] == u32_le_bytes(r2)[j] by {
                assert(n1[5 + j] == u32_le_bytes(r1)[j]);
                assert(n2[5 + j] == u32_le_bytes(r2)[j]);
            }
        }
        lemma_u32_le_roundtrip(r1);
        lemma_u32_le_roundtrip(r2);
    }
}

/// Build a dispatcher sub-tree name.
pub fn make_dispatcher_tree_name(hook: Hook, if_index: u32, revision: u32) -> (r: Vec<u8>)
    ensures
        r@ == dispatcher_tree_name(hook, if_index, revision),
{
    let mut v: Vec<u8> = Vec::new();
    match hook {
        Hook::Xdp => v.push(1u8),
        Hook::TcIngress => v.push(2u8),
        Hook::TcEgress => v.push(3u8),
    }
    let a = encode_u32(if_index);
    let b = encode_u32(revision);
    let mut i: usize = 0;
    while i < a.len()
        invariant
            i <= a@.len(),
            v@ == seq![hook_tag(hook)] + a@.subrange(0, i as int),
            a@ == u32_le_bytes(if_index),
        decreases a@.len() - i,
    {
        v.push(a[i]);
        proof {
            assert(v@ =~= seq![hook_tag(hook)] + a@.subrange(0, i + 1));
        }
        i = i + 1;
    }
    proof {
        assert(a@.subrange(0, a@.len() as int) =~= a@);
    }
    let mut j: usize = 0;
    while j < b.len()
        invariant
            j <= b@.len(),
            v@ == seq![hook_tag(hook)] + a@ + b@.subrange(0, j as int),
            a@ == u32_le_bytes(if_index),
            b@ == u32_le_bytes(revision),
        decreases b@.len() - j,
    {
        v.push(b[j]);
        proof {
            assert(v@ =~= seq![hook_tag(hook)] + a@ + b@.subrange(0, j + 1));
        }
        j = j + 1;
    }
    proof {
        assert(b@.subrange(0, b@.len() as int) =~= b@);
        assert(v@ =~= dispatcher_tree_name(hook, if_index, revision));
    }
    v
}

/// The pairs a dispatcher sub-tree holds once the record is created.
pub open spec fn dispatcher_contents(
    if_index: u32,
    if_name: Seq<u8>,
    mode: XdpMode,
    revision: u32,
) -> Map<Seq<char>, Seq<u8>> {
    empty_contents().insert("if_index"@, u32_le_bytes(if_index)).insert("if_name"@, if_name).insert(
        "mode"@,
        u32_le_bytes(mode.as_u32_spec()),
    ).insert("revision"@, u32_le_bytes(revision))
}

/// The pairs a dispatcher sub-tree holds once the dispatcher is loaded:
/// the created record plus the slot count and the bytecode's entry symbol.
pub open spec fn dispatcher_contents_full(
    if_index: u32,
    if_name: Seq<u8>,
    mode: XdpMode,
    revision: u32,
    num_extensions: u32,
    program_name: Seq<u8>,
) -> Map<Seq<char>, Seq<u8>> {
    dispatcher_contents(if_index, if_name, mode, revision).insert(
        "num_extensions"@,
        u32_le_bytes(num_extensions),
    ).insert("program_name"@, program_name)
}

/// The six keys of a dispatcher sub-tree are pairwise distinct.
pub proof fn lemma_dispatcher_keys_distinct()
    ensures
        "if_index"@ != "if_name"@,
        "if_index"@ != "mode"@,
        "if_index"@ != "revision"@,
        "if_index"@ != "num_extensions"@,
        "if_index"@ != "program_name"@,
        "if_name"@ != "mode"@,
        "if_name"@ != "revision"@,
        "if_name"@ != "num_extensions"@,
        "if_name"@ != "program_name"@,
        "mode"@ != "revision"@,
        "mode"@ != "num_extensions"@,
        "mode"@ != "program_name"@,
        "revision"@ != "num_extensions"@,
        "revision"@ != "program_name"@,
        "num_extensions"@ != "program_name"@,
{
    reveal_strlit("if_index");
    reveal_strlit("if_name");
    reveal_strlit("mode");
    reveal_strlit("revision");
    reveal_strlit("num_extensions");
    reveal_strlit("program_name");
    assert("if_index"@.len() == 8);
    assert("if_name"@.len() == 7);
    assert("mode"@.len() == 4);
    assert("revision"@.len() == 8);
    assert("num_extensions"@.len() == 14);
    assert("program_name"@.len() == 12);
    assert("if_index"@[0] == 'i');
    assert("revision"@[0] == 'r');
}

/// The sub-tree maps `key` to the four-byte encoding of `x`.
pub open spec fn u32_pair(m: Map<Seq<char>, Seq<u8>>, key: Seq<char>, x: u32) -> bool {
    m.contains_key(key) && m[key].len() == 4 && x == le_to_u32(m[key])
}

/// The sub-tree maps `key` to exactly the bytes `v`.
pub open spec fn byte_pair(m: Map<Seq<char>, Seq<u8>>, key: Seq<char>, v: Seq<u8>) -> bool {
    m.contains_key(key) && m[key] == v
}

/// The persistent record of one dispatcher, named by its (interface,
/// hook) pair and revision. The interface, mode, revision, slot count and
/// entry symbol live in the store under that name; the contracts of the
/// accessors say exactly which pair each one reads or writes, and that no
/// other sub-tree is touched.
#[derive(Clone, Copy, Debug, PartialEq, Eq, Structural)]
pub struct Dispatcher {
    pub hook: Hook,
    pub if_index: u32,
    pub revision: u32,
}

impl Dispatcher {
    /// The name of this record's sub-tree.
    pub open spec fn name_spec(self) -> Seq<u8> {
        dispatcher_tree_name(self.hook, self.if_index, self.revision)
    }

    /// What this record's sub-tree holds.
    pub open spec fn contents(self, s: Store) -> Map<Seq<char>, Seq<u8>> {
        store_tree_at(s, self.name_spec())
    }

    /// Sub-trees other than this record's are untouched between the two
    /// store values.
    pub open spec fn others_unchanged(self, s0: Store, s1: Store) -> bool {
        &&& forall|n: Seq<u8>|
            n != self.name_spec() ==> #[trigger] store_tree_at(s1, n) == store_tree_at(s0, n)
        &&& forall|n: Seq<u8>|
            n != self.name_spec() ==> #[trigger] store_has_tree(s1, n) == store_has_tree(s0, n)
    }

    /// Create the record for one (interface, hook) pair at a revision:
    /// empty the per-revision sub-tree and write the interface index,
    /// interface name, mode, and revision. No other sub-tree is touched,
    /// whether the result is success or error.
    pub fn new(
        store: &mut Store,
        hook: Hook,
        mode: XdpMode,
        if_index: u32,
        if_name: &Vec<u8>,
        revision: u32,
    ) -> (r: Result<Dispatcher, BpfdError>)
        ensures
            r matches Ok(d) ==> (d.hook == hook && d.if_index == if_index && d.revision
                == revision),
            r matches Ok(d) ==> d.contents(*final(store)) == dispatcher_contents(
                if_index,
                if_name@,
                mode,
                revision,
            ),
            r matches Ok(d) ==> store_has_tree(*final(store), d.name_spec()),
            (Dispatcher { hook, if_index, revision }).others_unchanged(
                *old(store),
                *final(store),
            ),
    {
        let d = Dispatcher { hook, if_index, revision };
        let name = make_dispatcher_tree_name(hook, if_index, revision);
        match store.clear_tree(name.as_slice()) {
            Ok(()) => (),
            Err(e) => {
                return Err(e);
            },
        }
        match d.set_ifindex(store, if_index) {
            Ok(()) => (),
            Err(e) => {
                return Err(e);
            },
        }
        match d.set_ifname(store, if_name) {
            Ok(()) => (),
            Err(e) => {
                return Err(e);
            },
        }
        match d.set_mode(store, mode) {
            Ok(()) => (),
            Err(e) => {
                return Err(e);
            },
        }
        match d.set_revision(store, revision) {
            Ok(()) => (),
            Err(e) => {
                return Err(e);
            },
        }
        Ok(d)
    }

    /// Name a dispatcher record found in the store on restart.
    pub fn new_from_db(hook: Hook, if_index: u32, revision: u32) -> (r: Dispatcher)
        ensures
            r.hook == hook && r.if_index == if_index && r.revision == revision,
    {
        Dispatcher { hook, if_index, revision }
    }

    /// Drop the per-revision sub-tree of a dispatcher: afterwards the
    /// store no longer holds a sub-tree of that name. The returned flag
    /// says whether the record existed; no other sub-tree is touched,
    /// whether the result is success or error.
    pub fn delete(store: &mut Store, hook: Hook, if_index: u32, revision: u32) -> (r: Result<
        bool,
        BpfdError,
    >)
        ensures
            r is Ok ==> !store_has_tree(
                *final(store),
                dispatcher_tree_name(hook, if_index, revision),
            ),
            r is Ok ==> store_tree_at(*final(store), dispatcher_tree_name(hook, if_index, revision))
                == empty_contents(),
            r matches Ok(b) ==> b == store_has_tree(
                *old(store),
                dispatcher_tree_name(hook, if_index, revision),
            ),
            (Dispatcher { hook, if_index, revision }).others_unchanged(
                *old(store),
                *final(store),
            ),
    {
        let name = make_dispatcher_tree_name(hook, if_index, revision);
        store.drop_tree(name.as_slice())
    }

    /// Write the revision pair.
    pub fn set_revision(&self, store: &mut Store, revision: u32) -> (r: Result<(), BpfdError>)
        ensures
            r is Ok ==> self.contents(*final(store)) == self.contents(*old(store)).insert(
                "revision"@,
                u32_le_bytes(revision),
            ),
            r is Ok ==> store_has_tree(*final(store), self.name_spec()),
            self.others_unchanged(*old(store), *final(store)),
    {
        let name = make_dispatcher_tree_name(self.hook, self.if_index, self.revision);
        let v = encode_u32(revision);
        store.put(name.as_slice(), "revision", v.as_slice())
    }

    /// Read the revision pair.
    pub fn get_revision(&self, store: &mut Store) -> (r: Result<u32, BpfdError>)
        ensures
            r matches Ok(x) ==> u32_pair(self.contents(*final(store)), "revision"@, x),
            read_only(*old(store), *final(store)),
    {
        read_u32_pair(store, self, "revision")
    }

    /// Write the interface-index pair.
    pub fn set_ifindex(&self, store: &mut Store, if_index: u32) -> (r: Result<(), BpfdError>)
        ensures
            r is Ok ==> self.contents(*final(store)) == self.contents(*old(store)).insert(
                "if_index"@,
                u32_le_bytes(if_index),
            ),
            r is Ok ==> store_has_tree(*final(store), self.name_spec()),
            self.others_unchanged(*old(store), *final(store)),
    {
        let name = make_dispatcher_tree_name(self.hook, self.if_index, self.revision);
        let v = encode_u32(if_index);
        store.put(name.as_slice(), "if_index", v.as_slice())
    }

    /// Read the interface-index pair.
    pub fn get_ifindex(&self, store: &mut Store) -> (r: Result<u32, BpfdError>)
        ensures
            r matches Ok(x) ==> u32_pair(self.contents(*final(store)), "if_index"@, x),
            read_only(*old(store), *final(store)),
    {
        read_u32_pair(store, self, "if_index")
    }

    /// Write the interface-name pair.
    pub fn set_ifname(&self, store: &mut Store, if_name: &Vec<u8>) -> (r: Result<(), BpfdError>)
        ensures
            r is Ok ==> self.contents(*final(store)) == self.contents(*old(store)).insert(
                "if_name"@,
                if_name@,
            ),
            r is Ok ==> store_has_tree(*final(store), self.name_spec()),
            self.others_unchanged(*old(store), *final(store)),
    {
        let name = make_dispatcher_tree_name(self.hook, self.if_index, self.revision);
        store.put(name.as_slice(), "if_name", if_name.as_slice())
    }

    /// Read the interface-name pair.
    pub fn get_ifname(&self, store: &mut Store) -> (r: Result<Vec<u8>, BpfdError>)
        ensures
            r matches Ok(v) ==> byte_pair(self.contents(*final(store)), "if_name"@, v@),
            read_only(*old(store), *final(store)),
    {
        let name = make_dispatcher_tree_name(self.hook, self.if_index, self.revision);
        match store.get(name.as_slice(), "if_name") {
            Ok(Some(v)) => Ok(v),
            Ok(None) => Err(BpfdError::DatabaseError),
            Err(e) => Err(e),
        }
    }

    /// Write the mode pair.
    pub fn set_mode(&self, store: &mut Store, mode: XdpMode) -> (r: Result<(), BpfdError>)
        ensures
            r is Ok ==> self.contents(*final(store)) == self.contents(*old(store)).insert(
                "mode"@,
                u32_le_bytes(mode.as_u32_spec()),
            ),
            r is Ok ==> store_has_tree(*final(store), self.name_spec()),
            self.others_unchanged(*old(store), *final(store)),
    {
        let name = make_dispatcher_tree_name(self.hook, self.if_index, self.revision);
        let v = encode_u32(mode.as_u32());
        store.put(name.as_slice(), "mode", v.as_slice())
    }

    /// Read the mode pair.
    pub fn get_mode(&self, store: &mut Store) -> (r: Result<XdpMode, BpfdError>)
        ensures
            r matches Ok(m) ==> u32_pair(self.contents(*final(store)), "mode"@, m.as_u32_spec()),
            read_only(*old(store), *final(store)),
    {
        let x = match read_u32_pair(store, self, "mode") {
            Ok(x) => x,
            Err(e) => {
                return Err(e);
            },
        };
        match XdpMode::from_u32(x) {
            Some(m) => Ok(m),
            None => Err(BpfdError::DatabaseError),
        }
    }

    /// Write the slot-count pair.
    pub fn set_num_extensions(&self, store: &mut Store, num_extensions: usize) -> (r: Result<
        (),
        BpfdError,
    >)
        requires
            num_extensions <= 10,
        ensures
            r is Ok ==> self.contents(*final(store)) == self.contents(*old(store)).insert(
                "num_extensions"@,
                u32_le_bytes(num_extensions as u32),
            ),
            r is Ok ==> store_has_tree(*final(store), self.name_spec()),
            self.others_unchanged(*old(store), *final(store)),
    {
        let name = make_dispatcher_tree_name(self.hook, self.if_index, self.revision);
        let v = encode_u32(num_extensions as u32);
        store.put(name.as_slice(), "num_extensions", v.as_slice())
    }

    /// Read the slot-count pair.
    pub fn get_num_extensions(&self, store: &mut Store) -> (r: Result<usize, BpfdError>)
        ensures
            r matches Ok(n) ==> n <= 0xffff_ffffusize && u32_pair(
                self.contents(*final(store)),
                "num_extensions"@,
                n as u32,
            ),
            read_only(*old(store), *final(store)),
    {
        let x = match read_u32_pair(store, self, "num_extensions") {
            Ok(x) => x,
            Err(e) => {
                return Err(e);
            },
        };
        Ok(x as usize)
    }

    /// Write the entry-symbol pair.
    pub fn set_program_name(&self, store: &mut Store, program_name: &Vec<u8>) -> (r: Result<
        (),
        BpfdError,
    >)
        ensures
            r is Ok ==> self.contents(*final(store)) == self.contents(*old(store)).insert(
                "program_name"@,
                program_name@,
            ),
            r is Ok ==> store_has_tree(*final(store), self.name_spec()),
            self.others_unchanged(*old(store), *final(store)),
    {
        let name = make_dispatcher_tree_name(self.hook, self.if_index, self.revision);
        store.put(name.as_slice(), "program_name", program_name.as_slice())
    }

    /// Read the entry-symbol pair.
    pub fn get_program_name(&self, store: &mut Store) -> (r: Result<Vec<u8>, BpfdError>)
        ensures
            r matches Ok(v) ==> byte_pair(self.contents(*final(store)), "program_name"@, v@),
            read_only(*old(store), *final(store)),
    {
        let name = make_dispatcher_tree_name(self.hook, self.if_index, self.revision);
        match store.get(name.as_slice(), "program_name") {
            Ok(Some(v)) => Ok(v),
            Ok(None) => Err(BpfdError::DatabaseError),
            Err(e) => Err(e),
        }
    }
}

/// Between the two store values no pair of any sub-tree changed and no
/// existing sub-tree was removed.
pub open spec fn read_only(s0: Store, s1: Store) -> bool {
    &&& forall|n: Seq<u8>| #[trigger] store_tree_at(s1, n) == store_tree_at(s0, n)
    &&& forall|n: Seq<u8>|
        store_has_tree(s0, n) ==> #[trigger] store_has_tree(s1, n)
}

/// Read one four-byte pair of a dispatcher record as a 32-bit value.
fn read_u32_pair(store: &mut Store, d: &Dispatcher, key: &str) -> (r: Result<u32, BpfdError>)
    ensures
        r matches Ok(x) ==> u32_pair(d.contents(*final(store)), key@, x),
        read_only(*old(store), *final(store)),
{
    let name = make_dispatcher_tree_name(d.hook, d.if_index, d.revision);
    let v = match store.get(name.as_slice(), key) {
        Ok(Some(v)) => v,
        Ok(None) => {
            return Err(BpfdError::DatabaseError);
        },
        Err(e) => {
            return Err(e);
        },
    };
    match crate::bytes::decode_u32(&v) {
        Some(x) => Ok(x),
        None => Err(BpfdError::DatabaseError),
    }
}

} // verus!
