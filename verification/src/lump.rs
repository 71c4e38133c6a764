//! The lump store: immutable blobs, each kept once under the SHA-256 digest
//! of its content.
//!
//! A loan keeps a blob in the store: a blob can be evicted only while no loan
//! on it is outstanding.

use sha2::Digest;
use vstd::prelude::*;

verus! {

/// The number of bytes in a lump identifier.
pub const LUMP_ID_LEN: usize = 32;

/// The SHA-256 digest of a byte string.
pub uninterp spec fn sha256_of(data: Seq<u8>) -> Seq<u8>;

/// `sha2::Sha256::digest`: the SHA-256 digest of `data`, which is a function
/// of the bytes alone and 32 bytes long.
#[verifier::external_body]
fn sha256(data: &[u8]) -> (digest: [u8; 32])
    ensures
        digest@ == sha256_of(data@),
{
    sha2::Sha256::digest(data).into()
}

/// Identifies a lump: the digest of its content.
#[derive(Clone, Copy, Debug, Hash, PartialEq, Eq)]
pub struct LumpId(pub [u8; 32]);

impl View for LumpId {
    type V = Seq<u8>;

    /// The 32 bytes of the identifier.
    open spec fn view(&self) -> Seq<u8> {
        self.0@
    }
}

impl LumpId {
    /// The identifier of the lump with content `data`.
    pub fn of(data: &[u8]) -> (id: LumpId)
        ensures
            id@ == sha256_of(data@),
            id@.len() == LUMP_ID_LEN,
    {
        LumpId(sha256(data))
    }

    /// Whether two identifiers have the same bytes.
    pub fn same(&self, other: &LumpId) -> (r: bool)
        ensures
            r == (self@ == other@),
    {
        let mut i: usize = 0;
        while i < 32
            invariant
                i <= 32,
                forall|k: int| 0 <= k < i ==> self.0@[k] == other.0@[k],
            decreases 32 - i,
        {
            if self.0[i] != other.0[i] {
                return false;
            }
            i = i + 1;
        }
        assert(self.0@ =~= other.0@);
        true
    }
}

/// A stored lump as a plain value.
pub struct LumpModel {
    /// The content.
    pub data: Seq<u8>,
    /// How many loans on the lump are outstanding.
    pub loans: nat,
}

/// A loan on a lump. While it is outstanding the lump stays in the store.
#[derive(Debug)]
pub struct LumpLoan {
    id: LumpId,
}

impl LumpLoan {
    /// The lump that is on loan.
    pub closed spec fn lump(&self) -> Seq<u8> {
        self.id@
    }

    /// The identifier of the lump that is on loan.
    pub fn id(&self) -> (id: LumpId)
        ensures
            id@ == self.lump(),
    {
        self.id
    }
}

struct LumpEntry {
    id: LumpId,
    data: Vec<u8>,
    loans: usize,
}

/// A content-addressed store of immutable blobs.
pub struct LumpStore {
    entries: Vec<LumpEntry>,
}

/// The store's contents after a lump with content `data` was added: a lump
/// that is stored already stays as it is.
pub open spec fn add_of(store: Map<Seq<u8>, LumpModel>, data: Seq<u8>) -> Map<Seq<u8>, LumpModel> {
    if store.contains_key(sha256_of(data)) {
        store
    } else {
        store.insert(sha256_of(data), LumpModel { data, loans: 0 })
    }
}

/// What `get` gives on a store with contents `store`.
pub open spec fn get_of(store: Map<Seq<u8>, LumpModel>, id: Seq<u8>) -> Option<Seq<u8>> {
    if store.contains_key(id) {
        Some(store[id].data)
    } else {
        None
    }
}

/// Whether every lump of `store` is stored under the digest of its content.
pub open spec fn content_addressed(store: Map<Seq<u8>, LumpModel>) -> bool {
    forall|id: Seq<u8>| #[trigger] store.contains_key(id) ==> id == sha256_of(store[id].data)
}

impl View for LumpStore {
    type V = Map<Seq<u8>, LumpModel>;

    /// The lumps stored, by identifier.
    closed spec fn view(&self) -> Map<Seq<u8>, LumpModel> {
        Map::new(
            |id: Seq<u8>| exists|i: int| 0 <= i < self.entries@.len() && self.entries@[i].id@ == id,
            |id: Seq<u8>|
                {
                    let i = choose|i: int| 0 <= i < self.entries@.len() && self.entries@[i].id@ == id;
                    LumpModel { data: self.entries@[i].data@, loans: self.entries@[i].loans as nat }
                },
        )
    }
}

impl LumpStore {
    /// The invariant: no identifier is stored twice, and each lump is stored
    /// under the digest of its content.
    pub closed spec fn wf(&self) -> bool {
        &&& forall|i: int, j: int|
            0 <= i < self.entries@.len() && 0 <= j < self.entries@.len() && i != j
                ==> self.entries@[i].id@ != self.entries@[j].id@
        &&& forall|i: int|
            0 <= i < self.entries@.len() ==> (#[trigger] self.entries@[i]).id@ == sha256_of(
                self.entries@[i].data@,
            )
    }

    /// In a well-formed store every lump is stored under the digest of its
    /// content.
    pub proof fn lemma_content_addressed(&self)
        requires
            self.wf(),
        ensures
            content_addressed(self@),
    {
        assert forall|id: Seq<u8>| #[trigger] self@.contains_key(id) implies id == sha256_of(
            self@[id].data,
        ) by {
            let i = choose|i: int| 0 <= i < self.entries@.len() && self.entries@[i].id@ == id;
            assert(self.entries@[i].id@ == sha256_of(self.entries@[i].data@));
        }
    }

    /// The entry at position `i` is what the view holds under its identifier.
    proof fn lemma_entry(&self, i: int)
        requires
            self.wf(),
            0 <= i < self.entries@.len(),
        ensures
            self@.contains_key(self.entries@[i].id@),
            self@[self.entries@[i].id@] == (LumpModel {
                data: self.entries@[i].data@,
                loans: self.entries@[i].loans as nat,
            }),
    {
        let id = self.entries@[i].id@;
        let j = choose|j: int| 0 <= j < self.entries@.len() && self.entries@[j].id@ == id;
        assert(i == j);
    }

    /// An empty store.
    pub fn new() -> (store: LumpStore)
        ensures
            store.wf(),
            store@ == Map::<Seq<u8>, LumpModel>::empty(),
    {
        let store = LumpStore { entries: Vec::new() };
        assert(store@ =~= Map::<Seq<u8>, LumpModel>::empty());
        store
    }

    /// The position of the lump `id`, if it is stored.
    fn find(&self, id: &LumpId) -> (r: Option<usize>)
        requires
            self.wf(),
        ensures
            r is Some <==> self@.contains_key(id@),
            r matches Some(i) ==> i < self.entries@.len() && self.entries@[i as int].id@ == id@,
    {
        let mut i: usize = 0;
        while i < self.entries.len()
            invariant
                i <= self.entries@.len(),
                forall|k: int| 0 <= k < i ==> self.entries@[k].id@ != id@,
            decreases self.entries@.len() - i,
        {
            if self.entries[i].id.same(id) {
                return Some(i);
            }
            i = i + 1;
        }
        None
    }

    /// The number of lumps stored.
    pub fn len(&self) -> (n: usize)
        requires
            self.wf(),
        ensures
            n == self@.dom().len(),
            self@.dom().finite(),
    {
        proof {
            self.lemma_dom_len(self.entries@.len() as int);
            assert(self.ids_below(self.entries@.len() as int) =~= self@.dom());
        }
        self.entries.len()
    }

    /// The identifiers at the first `upto` positions.
    closed spec fn ids_below(&self, upto: int) -> Set<Seq<u8>> {
        Set::new(|id: Seq<u8>| exists|i: int| 0 <= i < upto && self.entries@[i].id@ == id)
    }

    /// There are as many identifiers at the first `upto` positions as
    /// positions.
    proof fn lemma_dom_len(&self, upto: int)
        requires
            self.wf(),
            0 <= upto <= self.entries@.len(),
        ensures
            self.ids_below(upto).finite(),
            self.ids_below(upto).len() == upto,
        decreases upto,
    {
        if upto == 0 {
            assert(self.ids_below(0) =~= Set::<Seq<u8>>::empty());
        } else {
            self.lemma_dom_len(upto - 1);
            let id = self.entries@[upto - 1].id@;
            assert(!self.ids_below(upto - 1).contains(id));
            assert(self.ids_below(upto) =~= self.ids_below(upto - 1).insert(id));
        }
    }

    /// Stores a lump and gives its identifier, the digest of `data`. A lump
    /// that is stored already is kept as it is, with its loans.
    pub fn add(&mut self, data: Vec<u8>) -> (id: LumpId)
        requires
            old(self).wf(),
        ensures
            final(self).wf(),
            id@ == sha256_of(data@),
            final(self)@ == add_of(old(self)@, data@),
    {
        let id = LumpId::of(data.as_slice());
        match self.find(&id) {
            Some(_) => {},
            None => {
                let ghost before = *self;
                let ghost model = LumpModel { data: data@, loans: 0 };
                self.entries.push(LumpEntry { id, data, loans: 0 });
                proof {
                    assert forall|key: Seq<u8>| self@.contains_key(key) <==> #[trigger] before@.insert(
                        id@,
                        model,
                    ).contains_key(key) by {
                        if before@.contains_key(key) {
                            let i = choose|i: int|
                                0 <= i < before.entries@.len() && before.entries@[i].id@ == key;
                            assert(self.entries@[i].id@ == key);
                        }
                        if key == id@ {
                            assert(self.entries@[self.entries@.len() - 1].id@ == key);
                        }
                    }
                    assert forall|key: Seq<u8>| #[trigger] self@.contains_key(key) implies self@[key]
                        == before@.insert(id@, model)[key] by {
                        let i = choose|i: int|
                            0 <= i < self.entries@.len() && self.entries@[i].id@ == key;
                        self.lemma_entry(i);
                        if i < before.entries@.len() {
                            assert(before.entries@[i] == self.entries@[i]);
                            before.lemma_entry(i);
                        }
                    }
                    assert(self@ =~= before@.insert(id@, model));
                }
            },
        }
        id
    }

    /// The content of the lump `id`, if it is stored.
    pub fn get(&self, id: &LumpId) -> (r: Option<&Vec<u8>>)
        requires
            self.wf(),
        ensures
            r is Some <==> self@.contains_key(id@),
            r matches Some(data) ==> data@ == self@[id@].data,
            (match r {
                Some(data) => Some(data@),
                None => None,
            }) == get_of(self@, id@),
    {
        match self.find(id) {
            Some(i) => {
                proof {
                    self.lemma_entry(i as int);
                }
                Some(&self.entries[i].data)
            },
            None => None,
        }
    }

    /// Whether the lump `id` is stored.
    pub fn contains(&self, id: &LumpId) -> (r: bool)
        requires
            self.wf(),
        ensures
            r == self@.contains_key(id@),
    {
        self.find(id).is_some()
    }

    /// How many loans on the lump `id` are outstanding; zero where it is not
    /// stored.
    pub fn loans(&self, id: &LumpId) -> (n: usize)
        requires
            self.wf(),
        ensures
            n == (if self@.contains_key(id@) {
                self@[id@].loans
            } else {
                0
            }),
    {
        match self.find(id) {
            Some(i) => {
                proof {
                    self.lemma_entry(i as int);
                }
                self.entries[i].loans
            },
            None => 0,
        }
    }

    /// The store's contents with the loans of lump `id` set to `loans`.
    pub open spec fn with_loans(store: Map<Seq<u8>, LumpModel>, id: Seq<u8>, loans: nat) -> Map<
        Seq<u8>,
        LumpModel,
    > {
        store.insert(id, LumpModel { data: store[id].data, loans })
    }

    /// Sets the loans of the entry at `i`.
    fn set_loans(&mut self, i: usize, loans: usize)
        requires
            old(self).wf(),
            i < old(self).entries@.len(),
        ensures
            final(self).wf(),
            final(self)@ == Self::with_loans(
                old(self)@,
                old(self).entries@[i as int].id@,
                loans as nat,
            ),
    {
        let ghost before = *self;
        let ghost id = self.entries@[i as int].id@;
        self.entries[i].loans = loans;
        proof {
            let expected = Self::with_loans(before@, id, loans as nat);
            before.lemma_entry(i as int);
            assert forall|k: int| 0 <= k < self.entries@.len() implies (#[trigger] self.entries@[k]).id
                == before.entries@[k].id && self.entries@[k].data == before.entries@[k].data by {}
            assert forall|key: Seq<u8>| self@.contains_key(key) <==> #[trigger] expected.contains_key(
                key,
            ) by {
                if before@.contains_key(key) {
                    let k = choose|k: int|
                        0 <= k < before.entries@.len() && before.entries@[k].id@ == key;
                    assert(self.entries@[k].id@ == key);
                }
                if self@.contains_key(key) {
                    let k = choose|k: int| 0 <= k < self.entries@.len() && self.entries@[k].id@ == key;
                    assert(before.entries@[k].id@ == key);
                }
            }
            assert forall|key: Seq<u8>| #[trigger] self@.contains_key(key) implies self@[key]
                == expected[key] by {
                let k = choose|k: int| 0 <= k < self.entries@.len() && self.entries@[k].id@ == key;
                self.lemma_entry(k);
                before.lemma_entry(k);
            }
            assert(self@ =~= expected);
        }
    }

    /// Takes a loan on the lump `id`. Refused where the lump is not stored, or
    /// where the count of its loans cannot grow.
    pub fn loan(&mut self, id: &LumpId) -> (r: Option<LumpLoan>)
        requires
            old(self).wf(),
        ensures
            final(self).wf(),
            r is Some <==> old(self)@.contains_key(id@) && old(self)@[id@].loans < usize::MAX,
            r matches Some(loan) ==> loan.lump() == id@ && final(self)@ == Self::with_loans(
                old(self)@,
                id@,
                old(self)@[id@].loans + 1,
            ),
            r is None ==> final(self)@ == old(self)@,
    {
        match self.find(id) {
            Some(i) => {
                proof {
                    self.lemma_entry(i as int);
                }
                let loans = self.entries[i].loans;
                if loans < usize::MAX {
                    self.set_loans(i, loans + 1);
                    Some(LumpLoan { id: *id })
                } else {
                    None
                }
            },
            None => None,
        }
    }

    /// Gives a loan back. The count of loans on its lump goes down by one; a
    /// loan on a lump that is not stored, or that has no loan outstanding,
    /// changes nothing.
    pub fn release(&mut self, loan: LumpLoan)
        requires
            old(self).wf(),
        ensures
            final(self).wf(),
            final(self)@ == (if old(self)@.contains_key(loan.lump()) && old(self)@[loan.lump()].loans
                > 0 {
                Self::with_loans(
                    old(self)@,
                    loan.lump(),
                    (old(self)@[loan.lump()].loans - 1) as nat,
                )
            } else {
                old(self)@
            }),
    {
        match self.find(&loan.id) {
            Some(i) => {
                proof {
                    self.lemma_entry(i as int);
                }
                let loans = self.entries[i].loans;
                if loans > 0 {
                    self.set_loans(i, loans - 1);
                }
            },
            None => {},
        }
    }

    /// Removes the lump `id` if it is stored and no loan on it is outstanding,
    /// and says whether it did.
    pub fn evict(&mut self, id: &LumpId) -> (removed: bool)
        requires
            old(self).wf(),
        ensures
            final(self).wf(),
            removed <==> old(self)@.contains_key(id@) && old(self)@[id@].loans == 0,
            removed ==> final(self)@ == old(self)@.remove(id@),
            !removed ==> final(self)@ == old(self)@,
    {
        match self.find(id) {
            Some(i) => {
                proof {
                    self.lemma_entry(i as int);
                }
                if self.entries[i].loans == 0 {
                    let ghost before = *self;
                    self.entries.remove(i);
                    proof {
                        let expected = before@.remove(id@);
                        assert forall|k: int| 0 <= k < self.entries@.len() implies #[trigger] self.entries@[k]
                            == before.entries@[if k < i {
                                k
                            } else {
                                k + 1
                            }] by {}
                        assert(self.wf());
                        assert forall|key: Seq<u8>| self@.contains_key(key) <==> #[trigger] expected.contains_key(
                            key,
                        ) by {
                            if expected.contains_key(key) {
                                let k = choose|k: int|
                                    0 <= k < before.entries@.len() && before.entries@[k].id@ == key;
                                if k < i {
                                    assert(self.entries@[k].id@ == key);
                                } else {
                                    assert(self.entries@[k - 1].id@ == key);
                                }
                            }
                            if self@.contains_key(key) {
                                let k = choose|k: int|
                                    0 <= k < self.entries@.len() && self.entries@[k].id@ == key;
                                let kk = if k < i {
                                    k
                                } else {
                                    k + 1
                                };
                                assert(before.entries@[kk].id@ == key);
                            }
                        }
                        assert forall|key: Seq<u8>| #[trigger] self@.contains_key(key) implies self@[key]
                            == expected[key] by {
                            let k = choose|k: int|
                                0 <= k < self.entries@.len() && self.entries@[k].id@ == key;
                            self.lemma_entry(k);
                            before.lemma_entry(
                                if k < i {
                                    k
                                } else {
                                    k + 1
                                },
                            );
                        }
                        assert(self@ =~= expected);
                    }
                    true
                } else {
                    false
                }
            },
            None => false,
        }
    }
}

/// What is added can be read back: after a lump was added, `get` on its
/// identifier gives its content, provided that no other content with the same
/// digest was stored before. Adding twice is adding once.
pub proof fn lemma_get_after_add(store: Map<Seq<u8>, LumpModel>, data: Seq<u8>)
    requires
        store.contains_key(sha256_of(data)) ==> store[sha256_of(data)].data == data,
    ensures
        get_of(add_of(store, data), sha256_of(data)) == Some(data),
        add_of(add_of(store, data), data) == add_of(store, data),
{
}

/// Lumps with different digests get different identifiers, and adding one
/// leaves what `get` gives for the other as it was.
pub proof fn lemma_distinct_digests(store: Map<Seq<u8>, LumpModel>, a: Seq<u8>, b: Seq<u8>)
    requires
        sha256_of(a) != sha256_of(b),
    ensures
        get_of(add_of(store, a), sha256_of(b)) == get_of(store, sha256_of(b)),
        a != b,
{
}

/// In a store where each lump is stored under its digest, two identifiers
/// with the same content are the same identifier, so equal content is stored
/// once; and adding a lump keeps it so.
pub proof fn lemma_one_copy(store: Map<Seq<u8>, LumpModel>, data: Seq<u8>)
    requires
        content_addressed(store),
    ensures
        content_addressed(add_of(store, data)),
        forall|x: Seq<u8>, y: Seq<u8>|
            store.contains_key(x) && store.contains_key(y) && store[x].data == store[y].data ==> x
                == y,
{
    assert forall|x: Seq<u8>, y: Seq<u8>|
        store.contains_key(x) && store.contains_key(y) && store[x].data
            == store[y].data implies x == y by {
        assert(x == sha256_of(store[x].data));
        assert(y == sha256_of(store[y].data));
    }
}

} // verus!
