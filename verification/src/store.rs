use vstd::prelude::*;
use crate::errors::BpfdError;

verus! {

/// Handle to the persistent key-value store: a local embedded database with
/// named sub-trees, one per entity. Holds the outside database handle, which
/// Verus does not look into; every operation goes through the contracts
/// below.
///
/// All contracts speak of the store value and a sub-tree *name*, never of a
/// tree handle: sled hands out shared handles for one name, so contents are
/// a function of the database, not of a handle. Keep one `Store` per
/// database directory.
#[verifier::external_body]
pub struct Store {
    db: sled::Db,
}

/// The pairs the sub-tree of this name currently holds. A sub-tree that
/// does not exist holds nothing. Keys are the short ASCII strings of the
/// store layout; values are raw bytes.
pub uninterp spec fn store_tree_at(s: Store, name: Seq<u8>) -> Map<Seq<char>, Seq<u8>>;

/// Whether a sub-tree of this name exists in the store.
pub uninterp spec fn store_has_tree(s: Store, name: Seq<u8>) -> bool;

/// The contents of a sub-tree that holds nothing.
pub open spec fn empty_contents() -> Map<Seq<char>, Seq<u8>> {
    Map::empty()
}

impl Store {
    /// Open or create the store at the given directory.
    ///
    /// Relies on sled::open: opens the database at the path, creating it if
    /// absent. What the sub-trees hold afterwards depends on the disk, so
    /// nothing is promised of the contents.
    #[verifier::external_body]
    pub fn open(path: &str) -> Result<Store, BpfdError> {
        match sled::open(path) {
            Ok(db) => Ok(Store { db }),
            Err(_) => Err(BpfdError::DatabaseError),
        }
    }

    /// Open a store backed by a temporary directory, for tests and tooling.
    ///
    /// Relies on sled::Config::open with the temporary flag: the files are
    /// removed when the handle drops.
    #[verifier::external_body]
    pub fn ephemeral() -> Result<Store, BpfdError> {
        match sled::Config::new().temporary(true).open() {
            Ok(db) => Ok(Store { db }),
            Err(_) => Err(BpfdError::DatabaseError),
        }
    }

    /// Map `key` to `val` in the sub-tree of `name`, creating the sub-tree
    /// if absent and replacing any earlier value of the key.
    ///
    /// Relies on sled::Db::open_tree — returns the one tree of that name,
    /// creating an empty one if absent — and sled::Tree::insert — maps the
    /// key to the value and leaves every other pair. No other sub-tree is
    /// touched; on an error nothing is promised of this one sub-tree.
    #[verifier::external_body]
    pub fn put(&mut self, name: &[u8], key: &str, val: &[u8]) -> (r: Result<(), BpfdError>)
        ensures
            r is Ok ==> store_has_tree(*final(self), name@),
            r is Ok ==> store_tree_at(*final(self), name@) == store_tree_at(
                *old(self),
                name@,
            ).insert(key@, val@),
            forall|n: Seq<u8>|
                n != name@ ==> #[trigger] store_tree_at(*final(self), n) == store_tree_at(
                    *old(self),
                    n,
                ),
            forall|n: Seq<u8>|
                n != name@ ==> #[trigger] store_has_tree(*final(self), n) == store_has_tree(
                    *old(self),
                    n,
                ),
    {
        let tree = match self.db.open_tree(name) {
            Ok(t) => t,
            Err(_) => return Err(BpfdError::DatabaseError),
        };
        match tree.insert(key.as_bytes(), val) {
            Ok(_) => Ok(()),
            Err(_) => Err(BpfdError::DatabaseError),
        }
    }

    /// Look `key` up in the sub-tree of `name`. Takes the store mutably
    /// because opening a name creates its sub-tree when absent; no pair of
    /// any sub-tree changes.
    ///
    /// Relies on sled::Db::open_tree and sled::Tree::get: returns the value
    /// the sub-tree holds under the key, or nothing when the key is absent.
    /// Neither call removes a sub-tree or changes a pair.
    #[verifier::external_body]
    pub fn get(&mut self, name: &[u8], key: &str) -> (r: Result<Option<Vec<u8>>, BpfdError>)
        ensures
            r matches Ok(Some(v)) ==> store_tree_at(*final(self), name@).contains_key(key@)
                && store_tree_at(*final(self), name@)[key@] == v@,
            r matches Ok(None) ==> !store_tree_at(*final(self), name@).contains_key(key@),
            r is Ok ==> store_has_tree(*final(self), name@),
            forall|n: Seq<u8>|
                #[trigger] store_tree_at(*final(self), n) == store_tree_at(*old(self), n),
            forall|n: Seq<u8>|
                n != name@ ==> #[trigger] store_has_tree(*final(self), n) == store_has_tree(
                    *old(self),
                    n,
                ),
            store_has_tree(*old(self), name@) ==> store_has_tree(*final(self), name@),
    {
        let tree = match self.db.open_tree(name) {
            Ok(t) => t,
            Err(_) => return Err(BpfdError::DatabaseError),
        };
        match tree.get(key.as_bytes()) {
            Ok(Some(v)) => Ok(Some(v.to_vec())),
            Ok(None) => Ok(None),
            Err(_) => Err(BpfdError::DatabaseError),
        }
    }

    /// Remove every pair of the sub-tree of `name`, creating it empty if it
    /// was absent.
    ///
    /// Relies on sled::Db::open_tree and sled::Tree::clear: after a
    /// successful return the sub-tree exists and is empty. No other
    /// sub-tree is touched.
    #[verifier::external_body]
    pub fn clear_tree(&mut self, name: &[u8]) -> (r: Result<(), BpfdError>)
        ensures
            r is Ok ==> store_has_tree(*final(self), name@),
            r is Ok ==> store_tree_at(*final(self), name@) == empty_contents(),
            forall|n: Seq<u8>|
                n != name@ ==> #[trigger] store_tree_at(*final(self), n) == store_tree_at(
                    *old(self),
                    n,
                ),
            forall|n: Seq<u8>|
                n != name@ ==> #[trigger] store_has_tree(*final(self), n) == store_has_tree(
                    *old(self),
                    n,
                ),
    {
        let tree = match self.db.open_tree(name) {
            Ok(t) => t,
            Err(_) => return Err(BpfdError::DatabaseError),
        };
        match tree.clear() {
            Ok(()) => Ok(()),
            Err(_) => Err(BpfdError::DatabaseError),
        }
    }

    /// The names of all sub-trees currently in the store.
    ///
    /// Relies on sled::Db::tree_names: returns the names of the trees on
    /// disk, in no promised order and with no promised completeness
    /// relation to the model, so nothing is stated of the result; callers
    /// treat it as an arbitrary list of candidate names.
    #[verifier::external_body]
    pub fn tree_names(&self) -> Vec<Vec<u8>> {
        let mut out: Vec<Vec<u8>> = Vec::new();
        for name in self.db.tree_names() {
            out.push(name.to_vec());
        }
        out
    }

    /// Remove the sub-tree of `name` and all its pairs. The returned flag
    /// says whether a sub-tree of that name existed.
    ///
    /// Relies on sled::Db::drop_tree: removes the tree of that name from
    /// the database and returns whether it existed; every tree on disk is
    /// registered when the database opens. No other sub-tree is touched; on
    /// an error nothing is promised of this one sub-tree.
    #[verifier::external_body]
    pub fn drop_tree(&mut self, name: &[u8]) -> (r: Result<bool, BpfdError>)
        ensures
            r is Ok ==> !store_has_tree(*final(self), name@),
            r is Ok ==> store_tree_at(*final(self), name@) == empty_contents(),
            r matches Ok(b) ==> b == store_has_tree(*old(self), name@),
            forall|n: Seq<u8>|
                n != name@ ==> #[trigger] store_tree_at(*final(self), n) == store_tree_at(
                    *old(self),
                    n,
                ),
            forall|n: Seq<u8>|
                n != name@ ==> #[trigger] store_has_tree(*final(self), n) == store_has_tree(
                    *old(self),
                    n,
                ),
    {
        match self.db.drop_tree(name) {
            Ok(existed) => Ok(existed),
            Err(_) => Err(BpfdError::DatabaseError),
        }
    }
}

} // verus!
