//! The key/value side: instances, their bucket regions, and the actions on
//! one open instance.
//!
//! One instance serves one collection. Inside it every bucket owns a region
//! of its own, and a region holds one record per indexed object: the object's
//! identifier, the internal identifier it was given when it was first
//! indexed, and the terms indexed for it.
use crate::lock::{StoreLock, StoreLockMode, StoreLockState};
use crate::table::StoreTable;
use crate::term::{lemma_merge_terms, merge_into, merge_terms, terms_view};
use vstd::prelude::*;

verus! {

/// The record of one indexed object, as a plain value.
pub struct StoreKVObjectView {
    /// The internal identifier of the object.
    pub iid: u32,
    /// The terms indexed for the object, each once.
    pub terms: Seq<Seq<char>>,
}

impl StoreKVObjectView {
    /// A record holds each term once, and no more terms than can be counted.
    pub open spec fn wf(self) -> bool {
        &&& self.terms.no_duplicates()
        &&& self.terms.len() <= u32::MAX
    }
}

/// The region of one bucket, as a plain value.
pub struct StoreKVBucketView {
    /// The internal identifier that the next new object will get.
    pub next_iid: u32,
    /// The records of the region, by object identifier.
    pub objects: Map<Seq<char>, StoreKVObjectView>,
}

impl StoreKVBucketView {
    /// A region is never empty, every record is well-formed, and the two
    /// directions of the identifier mapping agree: no internal identifier is
    /// shared by two objects, and all of them lie below the counter.
    pub open spec fn wf(self) -> bool {
        &&& self.objects.dom().finite()
        &&& 0 < self.objects.dom().len() <= self.next_iid
        &&& forall|oid: Seq<char>| #[trigger]
            self.objects.dom().contains(oid) ==> self.objects[oid].wf() && self.objects[oid].iid
                < self.next_iid
        &&& forall|a: Seq<char>, b: Seq<char>|
            self.objects.dom().contains(a) && self.objects.dom().contains(b) && a != b ==> (
            #[trigger] self.objects[a]).iid != (#[trigger] self.objects[b]).iid
    }

    /// The internal identifier of `oid`, if the object is indexed.
    pub open spec fn oid_to_iid(self, oid: Seq<char>) -> Option<u32> {
        if self.objects.dom().contains(oid) {
            Some(self.objects[oid].iid)
        } else {
            None
        }
    }

    /// Whether some object of the region carries `iid`.
    pub open spec fn has_iid(self, iid: u32) -> bool {
        exists|oid: Seq<char>| self.objects.dom().contains(oid) && (#[trigger] self.objects[oid]).iid
            == iid
    }

    /// The object that carries `iid`, if there is one.
    pub open spec fn iid_to_oid(self, iid: u32) -> Option<Seq<char>> {
        if self.has_iid(iid) {
            Some(
                choose|oid: Seq<char>|
                    self.objects.dom().contains(oid) && (#[trigger] self.objects[oid]).iid == iid,
            )
        } else {
            None
        }
    }

    /// The terms stored under `iid`. An object without terms has no term
    /// list: the store keeps no empty lists.
    pub open spec fn iid_to_terms(self, iid: u32) -> Option<Seq<Seq<char>>> {
        match self.iid_to_oid(iid) {
            Some(oid) => if self.objects[oid].terms.len() > 0 {
                Some(self.objects[oid].terms)
            } else {
                None
            },
            None => None,
        }
    }

    /// The number of entries that the region holds, one per indexed object.
    pub open spec fn entries(self) -> nat {
        self.objects.dom().len()
    }

    /// The two directions of the identifier mapping are inverse to each
    /// other: the internal identifier of an indexed object leads back to that
    /// object, and so to its terms.
    pub proof fn lemma_oid_iid_oid(self, oid: Seq<char>)
        requires
            self.wf(),
            self.objects.dom().contains(oid),
        ensures
            self.oid_to_iid(oid) == Some(self.objects[oid].iid),
            self.iid_to_oid(self.objects[oid].iid) == Some(oid),
            self.iid_to_terms(self.objects[oid].iid) == if self.objects[oid].terms.len() > 0 {
                Some(self.objects[oid].terms)
            } else {
                None
            },
    {
    }

    /// An internal identifier that is in use belongs to an indexed object,
    /// whose identifier leads to it again.
    pub proof fn lemma_iid_oid_iid(self, iid: u32)
        requires
            self.wf(),
            self.has_iid(iid),
        ensures
            self.iid_to_oid(iid) is Some,
            self.oid_to_iid(self.iid_to_oid(iid)->Some_0) == Some(iid),
    {
    }

    /// The terms that `oid` has in the region; none when it is not indexed.
    pub open spec fn terms_of(self, oid: Seq<char>) -> Seq<Seq<char>> {
        if self.objects.dom().contains(oid) {
            self.objects[oid].terms
        } else {
            Seq::empty()
        }
    }

    /// Whether the region takes no more of what indexing `added` for `oid`
    /// would bring: the term list would outgrow its bound, or the object is
    /// new and the internal identifiers are used up.
    pub open spec fn push_refused(self, oid: Seq<char>, added: Seq<Seq<char>>) -> bool {
        ||| self.terms_of(oid).len() + added.len() > u32::MAX
        ||| !self.objects.dom().contains(oid) && self.next_iid == u32::MAX
    }

    /// The region after `added` has been indexed for `oid`. An object that is
    /// new to the region gets the counter's value as its internal identifier,
    /// and the counter moves on; a known object keeps its identifier.
    pub open spec fn pushed(self, oid: Seq<char>, added: Seq<Seq<char>>) -> StoreKVBucketView {
        let terms = merge_terms(self.terms_of(oid), added);
        if self.objects.dom().contains(oid) {
            StoreKVBucketView {
                next_iid: self.next_iid,
                objects: self.objects.insert(
                    oid,
                    StoreKVObjectView { iid: self.objects[oid].iid, terms },
                ),
            }
        } else {
            StoreKVBucketView {
                next_iid: (self.next_iid + 1) as u32,
                objects: self.objects.insert(oid, StoreKVObjectView { iid: self.next_iid, terms }),
            }
        }
    }
}

/// The region that a bucket has before anything is indexed in it. It stands
/// for a bucket that the instance does not hold yet.
pub open spec fn empty_bucket() -> StoreKVBucketView {
    StoreKVBucketView { next_iid: 0, objects: Map::empty() }
}

/// The record of one indexed object.
pub struct StoreKVObject {
    iid: u32,
    terms: Vec<String>,
}

impl View for StoreKVObject {
    type V = StoreKVObjectView;

    closed spec fn view(&self) -> StoreKVObjectView {
        StoreKVObjectView { iid: self.iid, terms: terms_view(self.terms@) }
    }
}

/// The region of one bucket inside an instance.
pub struct StoreKVBucket {
    next_iid: u32,
    objects: StoreTable<StoreKVObject>,
}

impl View for StoreKVBucket {
    type V = StoreKVBucketView;

    closed spec fn view(&self) -> StoreKVBucketView {
        StoreKVBucketView {
            next_iid: self.next_iid,
            objects: self.objects@.map_values(|object: StoreKVObject| object@),
        }
    }
}

impl StoreKVBucket {
    /// Well-formedness: the table is in order, and so is the region as a value.
    pub open spec fn wf(&self) -> bool {
        &&& self.inv()
        &&& self@.wf()
    }

    /// What holds of the table behind the region.
    pub closed spec fn inv(&self) -> bool {
        self.objects.wf()
    }

    /// Opens a region with its first object.
    fn open(oid: String, terms: &Vec<String>) -> (region: StoreKVBucket)
        requires
            terms@.len() <= u32::MAX,
        ensures
            region.wf(),
            region@ == empty_bucket().pushed(oid@, terms_view(terms@)),
    {
        let mut list: Vec<String> = Vec::new();
        assert(terms_view(list@) =~= Seq::<Seq<char>>::empty());
        merge_into(&mut list, terms);
        proof {
            lemma_merge_terms(Seq::<Seq<char>>::empty(), terms_view(terms@));
        }
        let mut objects: StoreTable<StoreKVObject> = StoreTable::new();
        let object = StoreKVObject { iid: 0, terms: list };
        let _ = objects.insert(oid, object);
        let region = StoreKVBucket { next_iid: 1, objects };
        proof {
            assert(region@.objects =~= empty_bucket().pushed(oid@, terms_view(terms@)).objects);
        }
        region
    }

    /// Indexes `terms` for `oid`: a new object gets the next internal
    /// identifier, a known one keeps its own, and the terms it lacks are
    /// added to its list.
    fn push(&mut self, oid: &String, terms: &Vec<String>) -> (iid: Result<u32, ()>)
        requires
            old(self).wf(),
        ensures
            final(self).wf(),
            iid is Err == old(self)@.push_refused(oid@, terms_view(terms@)),
            iid is Err ==> final(self)@ == old(self)@,
            iid is Ok ==> {
                &&& final(self)@ == old(self)@.pushed(oid@, terms_view(terms@))
                &&& iid->Ok_0 == final(self)@.objects[oid@].iid
            },
    {
        let ghost before = self@;
        let ghost added = terms_view(terms@);
        proof {
            self.objects.lemma_len();
            assert(self@.objects.dom() =~= self.objects@.dom());
        }
        if terms.len() > 0xffff_ffff {
            return Err(());
        }
        match self.objects.find(oid) {
            Some(slot) => {
                if self.objects.at(slot).terms.len() > 0xffff_ffff - terms.len() {
                    return Err(());
                }
                let ghost old_object = self.objects.items()[slot as int];
                let object = self.objects.at_mut(slot);
                merge_into(&mut object.terms, terms);
                let iid = object.iid;
                proof {
                    lemma_merge_terms(old_object@.terms, added);
                    assert(self@.objects =~= before.pushed(oid@, added).objects);
                }
                Ok(iid)
            },
            None => {
                if self.next_iid == 0xffff_ffff {
                    return Err(());
                }
                let iid = self.next_iid;
                let mut list: Vec<String> = Vec::new();
                assert(terms_view(list@) =~= Seq::<Seq<char>>::empty());
                merge_into(&mut list, terms);
                proof {
                    lemma_merge_terms(Seq::<Seq<char>>::empty(), added);
                }
                let object = StoreKVObject { iid, terms: list };
                let _ = self.objects.insert(oid.clone(), object);
                self.next_iid = iid + 1;
                proof {
                    assert(self@.objects =~= before.pushed(oid@, added).objects);
                }
                Ok(iid)
            },
        }
    }

    /// Looks up the internal identifier of `oid`.
    fn oid_to_iid(&self, oid: &String) -> (iid: Option<u32>)
        requires
            self.wf(),
        ensures
            iid == self@.oid_to_iid(oid@),
    {
        match self.objects.find(oid) {
            Some(slot) => Some(self.objects.at(slot).iid),
            None => None,
        }
    }

    /// The slot of the record that carries `iid`.
    fn find_iid(&self, iid: u32) -> (found: Option<usize>)
        requires
            self.wf(),
        ensures
            match found {
                Some(slot) => slot < self.objects.names().len() && self.objects.items()[slot as int].iid
                    == iid && self@.iid_to_oid(iid) == Some(self.objects.names()[slot as int]),
                None => !self@.has_iid(iid),
            },
    {
        let mut slot: usize = 0;
        while slot < self.objects.len()
            invariant
                self.wf(),
                slot <= self.objects.names().len(),
                forall|i: int| 0 <= i < slot ==> (#[trigger] self.objects.items()[i]).iid != iid,
            decreases self.objects.names().len() - slot,
        {
            if self.objects.at(slot).iid == iid {
                proof {
                    let oid = self.objects.names()[slot as int];
                    assert(self@.objects.dom().contains(oid) && self@.objects[oid].iid == iid);
                }
                return Some(slot);
            }
            slot = slot + 1;
        }
        None
    }
}

/// One open key/value instance, as a plain value.
pub struct StoreKVView {
    /// The state of the instance lock.
    pub lock: StoreLockState,
    /// Whether the engine behind the instance answers. While it does not,
    /// every action on the instance fails.
    pub healthy: bool,
    /// The regions of the instance, by bucket.
    pub buckets: Map<Seq<char>, StoreKVBucketView>,
}

impl StoreKVView {
    /// The lock state is in order, and every region is well-formed.
    pub open spec fn wf(self) -> bool {
        &&& self.lock.wf()
        &&& self.buckets.dom().finite()
        &&& forall|bucket: Seq<char>| #[trigger]
            self.buckets.dom().contains(bucket) ==> self.buckets[bucket].wf()
    }

    /// The record of `oid` in `bucket`, if the object is indexed there.
    pub open spec fn object(self, bucket: Seq<char>, oid: Seq<char>) -> Option<StoreKVObjectView> {
        if self.buckets.dom().contains(bucket) && self.buckets[bucket].objects.dom().contains(oid) {
            Some(self.buckets[bucket].objects[oid])
        } else {
            None
        }
    }

    /// What resolving `oid` in `bucket` gives.
    pub open spec fn oid_to_iid(self, bucket: Seq<char>, oid: Seq<char>) -> Result<Option<u32>, ()> {
        if !self.healthy {
            Err(())
        } else if self.buckets.dom().contains(bucket) {
            Ok(self.buckets[bucket].oid_to_iid(oid))
        } else {
            Ok(None)
        }
    }

    /// What looking up the terms of `iid` in `bucket` gives.
    pub open spec fn iid_to_terms(self, bucket: Seq<char>, iid: u32) -> Result<
        Option<Seq<Seq<char>>>,
        (),
    > {
        if !self.healthy {
            Err(())
        } else if self.buckets.dom().contains(bucket) {
            Ok(self.buckets[bucket].iid_to_terms(iid))
        } else {
            Ok(None)
        }
    }

    /// The number of entries that `bucket` holds in this instance.
    pub open spec fn entries(self, bucket: Seq<char>) -> nat {
        if self.buckets.dom().contains(bucket) {
            self.buckets[bucket].entries()
        } else {
            0
        }
    }

    /// The region of `bucket`; the empty one when the instance holds none.
    pub open spec fn bucket(self, bucket: Seq<char>) -> StoreKVBucketView {
        if self.buckets.dom().contains(bucket) {
            self.buckets[bucket]
        } else {
            empty_bucket()
        }
    }

    /// Whether indexing `added` for `oid` in `bucket` is refused: the engine
    /// does not answer, the region refuses, or the bucket would need a new
    /// region and the instance has room for none.
    pub open spec fn push_refused(
        self,
        bucket: Seq<char>,
        oid: Seq<char>,
        added: Seq<Seq<char>>,
    ) -> bool {
        ||| !self.healthy
        ||| self.bucket(bucket).push_refused(oid, added)
        ||| !self.buckets.dom().contains(bucket) && self.buckets.dom().len() >= u32::MAX
    }

    /// The instance after `added` has been indexed for `oid` in `bucket`.
    pub open spec fn pushed(
        self,
        bucket: Seq<char>,
        oid: Seq<char>,
        added: Seq<Seq<char>>,
    ) -> StoreKVView {
        StoreKVView {
            buckets: self.buckets.insert(bucket, self.bucket(bucket).pushed(oid, added)),
            ..self
        }
    }

    /// The instance with its lock in another state.
    pub open spec fn with_lock(self, lock: StoreLockState) -> StoreKVView {
        StoreKVView { lock, ..self }
    }

    /// The instance after its lock was taken in `mode`.
    pub open spec fn locked(self, mode: StoreLockMode) -> StoreKVView {
        self.with_lock(self.lock.acquired(mode))
    }

    /// The instance after its lock was given back in `mode`.
    pub open spec fn unlocked(self, mode: StoreLockMode) -> StoreKVView {
        self.with_lock(self.lock.released(mode))
    }

    /// The instance without the region of `bucket`.
    pub open spec fn without_bucket(self, bucket: Seq<char>) -> StoreKVView {
        StoreKVView { buckets: self.buckets.remove(bucket), ..self }
    }
}

/// One open key/value instance: the store of one collection.
pub struct StoreKV {
    lock: StoreLock,
    healthy: bool,
    buckets: StoreTable<StoreKVBucket>,
}

impl View for StoreKV {
    type V = StoreKVView;

    closed spec fn view(&self) -> StoreKVView {
        StoreKVView {
            lock: self.lock@,
            healthy: self.healthy,
            buckets: self.buckets@.map_values(|region: StoreKVBucket| region@),
        }
    }
}

impl StoreKV {
    /// Well-formedness: the tables are in order, and so is the instance as a
    /// value.
    pub open spec fn wf(&self) -> bool {
        &&& self.inv()
        &&& self@.wf()
    }

    /// What holds of the tables behind the instance.
    pub closed spec fn inv(&self) -> bool {
        &&& self.buckets.wf()
        &&& forall|slot: int|
            0 <= slot < self.buckets.items().len() ==> (#[trigger] self.buckets.items()[slot]).inv()
    }

    /// A fresh instance: free, healthy and empty.
    pub fn new() -> (store: StoreKV)
        ensures
            store.wf(),
            store@.lock is Free,
            store@.healthy,
            store@.buckets == Map::<Seq<char>, StoreKVBucketView>::empty(),
    {
        let store = StoreKV { lock: StoreLock::new(), healthy: true, buckets: StoreTable::new() };
        assert(store@.buckets =~= Map::<Seq<char>, StoreKVBucketView>::empty());
        store
    }

    /// Marks the engine behind the instance as answering or not.
    pub fn set_healthy(&mut self, healthy: bool)
        ensures
            final(self)@ == (StoreKVView { healthy, ..old(self)@ }),
            old(self).wf() ==> final(self).wf(),
    {
        self.healthy = healthy;
    }

    /// Takes the instance lock in `mode`.
    pub fn lock(&mut self, mode: StoreLockMode)
        requires
            old(self)@.lock.admits(mode),
        ensures
            final(self)@ == old(self)@.locked(mode),
            old(self).wf() ==> final(self).wf(),
    {
        self.lock.acquire(mode);
    }

    /// Gives the instance lock back.
    pub fn unlock(&mut self, mode: StoreLockMode)
        requires
            old(self)@.lock.held(mode),
        ensures
            final(self)@ == old(self)@.unlocked(mode),
            old(self).wf() ==> final(self).wf(),
    {
        self.lock.release(mode);
    }

    /// Resolves an object identifier to its internal identifier. That the
    /// object is not indexed is an answer, not a failure.
    pub fn get_oid_to_iid(&self, bucket: &String, oid: &String) -> (iid: Result<Option<u32>, ()>)
        requires
            self.wf(),
            self@.lock.held_any(),
        ensures
            iid == self@.oid_to_iid(bucket@, oid@),
    {
        if !self.healthy {
            return Err(());
        }
        match self.buckets.find(bucket) {
            Some(slot) => {
                let region = self.buckets.at(slot);
                Ok(region.oid_to_iid(oid))
            },
            None => Ok(None),
        }
    }

    /// Looks up the terms indexed under an internal identifier. That nothing
    /// is stored under it is an answer, not a failure.
    pub fn get_iid_to_terms(&self, bucket: &String, iid: u32) -> (terms: Result<
        Option<&Vec<String>>,
        (),
    >)
        requires
            self.wf(),
            self@.lock.held_any(),
        ensures
            match terms {
                Ok(Some(list)) => self@.iid_to_terms(bucket@, iid) == Ok::<
                    Option<Seq<Seq<char>>>,
                    (),
                >(Some(terms_view(list@))),
                Ok(None) => self@.iid_to_terms(bucket@, iid) == Ok::<Option<Seq<Seq<char>>>, ()>(
                    None,
                ),
                Err(_) => self@.iid_to_terms(bucket@, iid) is Err,
            },
    {
        if !self.healthy {
            return Err(());
        }
        match self.buckets.find(bucket) {
            Some(slot) => {
                let region = self.buckets.at(slot);
                match region.find_iid(iid) {
                    Some(at) => {
                        let object = region.objects.at(at);
                        if object.terms.len() > 0 {
                            Ok(Some(&object.terms))
                        } else {
                            Ok(None)
                        }
                    },
                    None => Ok(None),
                }
            },
            None => Ok(None),
        }
    }

    /// Indexes `terms` for the object `oid` of `bucket` and returns the
    /// object's internal identifier. A refusal leaves the instance as it was.
    pub fn push_terms(&mut self, bucket: &String, oid: &String, terms: &Vec<String>) -> (iid:
        Result<u32, ()>)
        requires
            old(self).wf(),
            old(self)@.lock.held(StoreLockMode::Exclusive),
        ensures
            final(self).wf(),
            iid is Err == old(self)@.push_refused(bucket@, oid@, terms_view(terms@)),
            iid is Err ==> final(self)@ == old(self)@,
            iid is Ok ==> {
                &&& final(self)@ == old(self)@.pushed(bucket@, oid@, terms_view(terms@))
                &&& iid->Ok_0 == final(self)@.buckets[bucket@].objects[oid@].iid
            },
    {
        let ghost before = self@;
        let ghost added = terms_view(terms@);
        proof {
            self.buckets.lemma_len();
            assert(self@.buckets.dom() =~= self.buckets@.dom());
        }
        if !self.healthy {
            return Err(());
        }
        match self.buckets.find(bucket) {
            Some(slot) => {
                let region = self.buckets.at_mut(slot);
                let iid = region.push(oid, terms);
                proof {
                    assert(self@.buckets =~= before.buckets.insert(bucket@, self.buckets@[bucket@]@));
                    if before.push_refused(bucket@, oid@, added) {
                        assert(self@.buckets =~= before.buckets);
                    }
                }
                iid
            },
            None => {
                if self.buckets.is_full() || terms.len() > 0xffff_ffff {
                    return Err(());
                }
                let region = StoreKVBucket::open(oid.clone(), terms);
                let _ = self.buckets.insert(bucket.clone(), region);
                proof {
                    assert(self@.buckets =~= before.pushed(bucket@, oid@, added).buckets);
                }
                Ok(0)
            },
        }
    }

    /// Removes every entry of `bucket` from the instance and returns how many
    /// there were. It works on the instance alone, under the write lock that
    /// the caller holds, and asks for no lock itself.
    pub fn batch_erase_bucket(&mut self, bucket: &String) -> (count: Result<u32, ()>)
        requires
            old(self).wf(),
            old(self)@.lock.held(StoreLockMode::Exclusive),
        ensures
            final(self).wf(),
            count is Err == !old(self)@.healthy,
            count is Err ==> final(self)@ == old(self)@,
            count is Ok ==> {
                &&& count->Ok_0 == old(self)@.entries(bucket@)
                &&& final(self)@ == old(self)@.without_bucket(bucket@)
            },
    {
        if !self.healthy {
            return Err(());
        }
        match self.buckets.find(bucket) {
            Some(slot) => {
                let region = self.buckets.remove(slot);
                proof {
                    region.objects.lemma_len();
                    assert(region@.objects.dom() =~= region.objects@.dom());
                    assert(self@.buckets =~= old(self)@.buckets.remove(bucket@));
                }
                let count = region.objects.len();
                Ok(count as u32)
            },
            None => {
                assert(self@.buckets =~= old(self)@.buckets.remove(bucket@));
                Ok(0)
            },
        }
    }
}

/// How an instance is asked of the pool.
#[derive(Clone, Copy, Debug, PartialEq, Eq, Structural)]
pub enum StoreKVAcquireMode {
    /// Open the instance, and create it if the pool holds none.
    Any,
    /// Open the instance only if the pool holds one.
    OpenOnly,
}

/// The instance that the pool creates on demand: free, healthy and empty.
pub open spec fn fresh_store() -> StoreKVView {
    StoreKVView { lock: StoreLockState::Free, healthy: true, buckets: Map::empty() }
}

/// The key/value pool, as a plain value.
pub struct StoreKVPoolView {
    /// The state of the access lock of the family.
    pub access: StoreLockState,
    /// Whether the engine opens instances. While it does not, every request
    /// for an instance fails.
    pub available: bool,
    /// The instances of the pool, by collection.
    pub stores: Map<Seq<char>, StoreKVView>,
}

impl StoreKVPoolView {
    /// The lock state is in order, and every instance is well-formed.
    pub open spec fn wf(self) -> bool {
        &&& self.access.wf()
        &&& self.stores.dom().finite()
        &&& forall|collection: Seq<char>| #[trigger]
            self.stores.dom().contains(collection) ==> self.stores[collection].wf()
    }

    /// Whether no lock of the family is held.
    pub open spec fn idle(self) -> bool {
        &&& self.access is Free
        &&& forall|collection: Seq<char>| #[trigger]
            self.stores.dom().contains(collection) ==> self.stores[collection].lock is Free
    }

    /// Whether a request for the instance of `collection` fails: the engine
    /// does not open instances, or one would have to be created and the pool
    /// has room for none.
    pub open spec fn acquire_fails(self, mode: StoreKVAcquireMode, collection: Seq<char>) -> bool {
        ||| !self.available
        ||| mode is Any && !self.stores.dom().contains(collection) && self.stores.dom().len()
            >= u32::MAX
    }

    /// The pool after a request for the instance of `collection` that did not
    /// fail: a creating request adds a fresh instance where there was none.
    pub open spec fn acquired(self, mode: StoreKVAcquireMode, collection: Seq<char>) -> StoreKVPoolView {
        if mode is Any && !self.stores.dom().contains(collection) {
            self.with_store(collection, fresh_store())
        } else {
            self
        }
    }

    /// The record of `oid` in `bucket` of `collection`, if the object is
    /// indexed there.
    pub open spec fn object(
        self,
        collection: Seq<char>,
        bucket: Seq<char>,
        oid: Seq<char>,
    ) -> Option<StoreKVObjectView> {
        if self.stores.dom().contains(collection) {
            self.stores[collection].object(bucket, oid)
        } else {
            None
        }
    }

    /// The terms indexed for `oid` in `bucket` of `collection`; none when
    /// the object is not indexed there.
    pub open spec fn terms_of(
        self,
        collection: Seq<char>,
        bucket: Seq<char>,
        oid: Seq<char>,
    ) -> Seq<Seq<char>> {
        match self.object(collection, bucket, oid) {
            Some(object) => object.terms,
            None => Seq::empty(),
        }
    }

    /// Whether the lock of the instance of `collection` admits a request in
    /// `mode`. Where the pool holds no such instance there is no lock to
    /// wait for.
    pub open spec fn instance_admits(self, collection: Seq<char>, mode: StoreLockMode) -> bool {
        self.stores.dom().contains(collection) ==> self.stores[collection].lock.admits(mode)
    }

    /// Whether the instance of `collection` can be worked on: the engine
    /// opens instances, the collection has one, and the engine behind it
    /// answers.
    pub open spec fn answers(self, collection: Seq<char>) -> bool {
        &&& self.available
        &&& self.stores.dom().contains(collection)
        &&& self.stores[collection].healthy
    }

    /// What erasing `bucket` of `collection` returns: the number of entries
    /// erased, which is zero where the collection has no instance.
    pub open spec fn erase_outcome(self, collection: Seq<char>, bucket: Seq<char>) -> Result<u32, ()> {
        if !self.available {
            Err(())
        } else if !self.stores.dom().contains(collection) {
            Ok(0)
        } else if !self.stores[collection].healthy {
            Err(())
        } else {
            Ok(self.stores[collection].entries(bucket) as u32)
        }
    }

    /// The pool after `bucket` of `collection` was erased.
    pub open spec fn bucket_erased(self, collection: Seq<char>, bucket: Seq<char>) -> StoreKVPoolView {
        if self.answers(collection) {
            self.with_store(collection, self.stores[collection].without_bucket(bucket))
        } else {
            self
        }
    }

    /// The pool with its access lock in another state.
    pub open spec fn with_access(self, access: StoreLockState) -> StoreKVPoolView {
        StoreKVPoolView { access, ..self }
    }

    /// The pool after its access lock was taken in `mode`.
    pub open spec fn locked(self, mode: StoreLockMode) -> StoreKVPoolView {
        self.with_access(self.access.acquired(mode))
    }

    /// The pool after its access lock was given back in `mode`.
    pub open spec fn unlocked(self, mode: StoreLockMode) -> StoreKVPoolView {
        self.with_access(self.access.released(mode))
    }

    /// The pool with `store` as the instance of `collection`.
    pub open spec fn with_store(self, collection: Seq<char>, store: StoreKVView) -> StoreKVPoolView {
        StoreKVPoolView { stores: self.stores.insert(collection, store), ..self }
    }
}

/// The pool of key/value instances: at most one per collection, created on
/// demand and kept.
pub struct StoreKVPool {
    access: StoreLock,
    available: bool,
    stores: StoreTable<StoreKV>,
}

impl View for StoreKVPool {
    type V = StoreKVPoolView;

    closed spec fn view(&self) -> StoreKVPoolView {
        StoreKVPoolView {
            access: self.access@,
            available: self.available,
            stores: self.stores@.map_values(|store: StoreKV| store@),
        }
    }
}

impl StoreKVPool {
    /// Well-formedness: the tables are in order, and so is the pool as a value.
    pub open spec fn wf(&self) -> bool {
        &&& self.inv()
        &&& self@.wf()
    }

    /// What holds of the tables behind the pool.
    pub closed spec fn inv(&self) -> bool {
        &&& self.stores.wf()
        &&& forall|slot: int|
            0 <= slot < self.stores.items().len() ==> (#[trigger] self.stores.items()[slot]).inv()
    }

    /// The collections that have an instance, by slot. A slot is the handle
    /// by which an acquired instance is reached; it stays good for as long as
    /// the access lock is held, since the pool's structure is then not
    /// changed.
    pub closed spec fn collections(&self) -> Seq<Seq<char>> {
        self.stores.names()
    }

    /// An empty pool whose engine is available.
    pub fn new() -> (pool: StoreKVPool)
        ensures
            pool.wf(),
            pool@.idle(),
            pool@.available,
            pool@.stores == Map::<Seq<char>, StoreKVView>::empty(),
    {
        let pool = StoreKVPool { access: StoreLock::new(), available: true, stores: StoreTable::new() };
        assert(pool@.stores =~= Map::<Seq<char>, StoreKVView>::empty());
        pool
    }

    /// Marks the engine as opening instances or not.
    pub fn set_available(&mut self, available: bool)
        ensures
            final(self)@ == (StoreKVPoolView { available, ..old(self)@ }),
            final(self).collections() == old(self).collections(),
            old(self).wf() ==> final(self).wf(),
    {
        self.available = available;
    }

    /// Takes the access lock of the family in `mode`.
    pub fn lock_access(&mut self, mode: StoreLockMode)
        requires
            old(self)@.access.admits(mode),
        ensures
            final(self)@ == old(self)@.locked(mode),
            final(self).collections() == old(self).collections(),
            old(self).wf() ==> final(self).wf(),
    {
        self.access.acquire(mode);
    }

    /// Gives the access lock of the family back.
    pub fn unlock_access(&mut self, mode: StoreLockMode)
        requires
            old(self)@.access.held(mode),
        ensures
            final(self)@ == old(self)@.unlocked(mode),
            final(self).collections() == old(self).collections(),
            old(self).wf() ==> final(self).wf(),
    {
        self.access.release(mode);
    }

    /// Whether the access lock admits a request in `mode`.
    pub fn access_admits(&self, mode: StoreLockMode) -> (admitted: bool)
        ensures
            admitted == self@.access.admits(mode),
    {
        self.access.admits(mode)
    }

    /// Whether the lock of the instance of `collection` admits a request in
    /// `mode`.
    pub fn instance_admits(&self, collection: &String, mode: StoreLockMode) -> (admitted: bool)
        requires
            self.wf(),
        ensures
            admitted == self@.instance_admits(collection@, mode),
    {
        match self.stores.find(collection) {
            Some(slot) => {
                self.stores.at(slot).lock.admits(mode)
            },
            None => true,
        }
    }

    /// Erases `bucket` of `collection` on its own account: takes the access
    /// lock exclusively and the write lock of the instance, erases the
    /// entries, and gives both locks back. This is the general helper. It is
    /// not for a caller that holds the access lock already, in whatever
    /// mode: the request for the exclusive lock would wait for the caller
    /// itself. Such a caller erases on the instance that it has locked, with
    /// `batch_erase_bucket`.
    pub fn erase_bucket(&mut self, collection: &String, bucket: &String) -> (count: Result<u32, ()>)
        requires
            old(self).wf(),
            old(self)@.access.admits(StoreLockMode::Exclusive),
            old(self)@.instance_admits(collection@, StoreLockMode::Exclusive),
        ensures
            final(self).wf(),
            count == old(self)@.erase_outcome(collection@, bucket@),
            final(self)@ == old(self)@.bucket_erased(collection@, bucket@),
    {
        let ghost before = self@;
        self.lock_access(StoreLockMode::Exclusive);
        let count = match self.acquire(StoreKVAcquireMode::OpenOnly, collection) {
            Ok(Some(slot)) => {
                let store = self.instance_mut(slot);
                store.lock(StoreLockMode::Exclusive);
                let store = self.instance_mut(slot);
                let erased = store.batch_erase_bucket(bucket);
                let store = self.instance_mut(slot);
                store.unlock(StoreLockMode::Exclusive);
                proof {
                    assert(self@.stores =~= before.bucket_erased(collection@, bucket@).stores);
                }
                match erased {
                    Ok(count) => Ok(count),
                    Err(_) => Err(()),
                }
            },
            Ok(None) => Ok(0),
            Err(_) => Err(()),
        };
        self.unlock_access(StoreLockMode::Exclusive);
        count
    }

    /// Asks for the instance of `collection` and returns its slot. With
    /// `OpenOnly`, that the pool holds no such instance is an answer, `None`,
    /// and no failure; with `Any` the instance is then created.
    pub fn acquire(&mut self, mode: StoreKVAcquireMode, collection: &String) -> (opened: Result<
        Option<usize>,
        (),
    >)
        requires
            old(self).wf(),
            old(self)@.access.held_any(),
        ensures
            final(self).wf(),
            opened is Err == old(self)@.acquire_fails(mode, collection@),
            opened is Err ==> final(self)@ == old(self)@ && final(self).collections() == old(
                self,
            ).collections(),
            opened is Ok ==> final(self)@ == old(self)@.acquired(mode, collection@),
            match opened {
                Ok(Some(slot)) => {
                    &&& slot < final(self).collections().len()
                    &&& final(self).collections()[slot as int] == collection@
                    &&& final(self)@.stores.dom().contains(collection@)
                },
                Ok(None) => {
                    &&& mode is OpenOnly
                    &&& !final(self)@.stores.dom().contains(collection@)
                    &&& final(self).collections() == old(self).collections()
                },
                Err(_) => true,
            },
    {
        let ghost before = self@;
        proof {
            self.stores.lemma_len();
            assert(self@.stores.dom() =~= self.stores@.dom());
        }
        if !self.available {
            return Err(());
        }
        match self.stores.find(collection) {
            Some(slot) => {
                Ok(Some(slot))
            },
            None => match mode {
                StoreKVAcquireMode::OpenOnly => Ok(None),
                StoreKVAcquireMode::Any => {
                    if self.stores.is_full() {
                        return Err(());
                    }
                    let slot = self.stores.insert(collection.clone(), StoreKV::new());
                    proof {
                        assert(self@.stores =~= before.stores.insert(collection@, fresh_store()));
                    }
                    Ok(Some(slot))
                },
            },
        }
    }

    /// The instance in `slot`.
    pub fn instance(&self, slot: usize) -> (store: &StoreKV)
        requires
            self.wf(),
            slot < self.collections().len(),
        ensures
            store.wf(),
            store@ == self@.stores[self.collections()[slot as int]],
    {
        proof {
            assert(self@.stores.dom().contains(self.collections()[slot as int]));
        }
        self.stores.at(slot)
    }

    /// The instance in `slot`, for change in place. In what state the caller
    /// leaves the instance is the state the pool then holds it in.
    pub fn instance_mut(&mut self, slot: usize) -> (store: &mut StoreKV)
        requires
            old(self).wf(),
            slot < old(self).collections().len(),
        ensures
            store.wf(),
            store@ == old(self)@.stores[old(self).collections()[slot as int]],
            final(self)@ == old(self)@.with_store(
                old(self).collections()[slot as int],
                final(store)@,
            ),
            final(self).collections() == old(self).collections(),
            final(store).wf() ==> final(self).wf(),
    {
        let ghost before = *self;
        proof {
            assert(self@.stores.dom().contains(self.collections()[slot as int]));
        }
        let store = self.stores.at_mut(slot);
        proof {
            let after = before.stores@.insert(before.stores.names()[slot as int], *final(store));
            assert(after.map_values(|store: StoreKV| store@) =~= before@.stores.insert(
                before.stores.names()[slot as int],
                final(store)@,
            ));
        }
        store
    }
}

} // verus!
