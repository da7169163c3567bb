//! The registry: named collections and the operations on them.

use crate::collection::{Collection, CollectionView, Embedding, EmbeddingView};
use crate::distance::Distance;
use crate::error::Error;
use crate::text::same_text;
use vstd::prelude::*;

verus! {

/// The dimension of a collection made by `Tiny::create_collection`.
pub const DEFAULT_DIMENSION: usize = 384;

/// A collection under its name.
#[derive(Debug)]
struct Slot {
    name: String,
    collection: Collection,
}

/// A name-keyed store of collections. Names are unique; a collection is
/// reached and changed through the registry only.
#[derive(Debug)]
pub struct Tiny {
    slots: Vec<Slot>,
}

/// The position of the slot with this name, if there is one.
spec fn slot_of(slots: Seq<Slot>, name: Seq<char>) -> int {
    choose|i: int| 0 <= i < slots.len() && (#[trigger] slots[i]).name@ == name
}

/// Whether some slot has this name.
spec fn has_slot(slots: Seq<Slot>, name: Seq<char>) -> bool {
    exists|i: int| 0 <= i < slots.len() && (#[trigger] slots[i]).name@ == name
}

/// The map from names to collections that the slots stand for.
spec fn slots_view(slots: Seq<Slot>) -> Map<Seq<char>, CollectionView> {
    Map::new(
        |name: Seq<char>| has_slot(slots, name),
        |name: Seq<char>| slots[slot_of(slots, name)].collection@,
    )
}

/// No name twice, and every collection meets its invariant.
spec fn slots_wf(slots: Seq<Slot>) -> bool {
    &&& forall|i: int, j: int|
        0 <= i < j < slots.len() ==> (#[trigger] slots[i]).name@ != (#[trigger] slots[j]).name@
    &&& forall|i: int| 0 <= i < slots.len() ==> (#[trigger] slots[i]).collection@.wf()
}

/// In well-formed slots a name leads to the one slot that bears it.
proof fn lemma_slot_of(slots: Seq<Slot>, i: int)
    requires
        slots_wf(slots),
        0 <= i < slots.len(),
    ensures
        has_slot(slots, slots[i].name@),
        slot_of(slots, slots[i].name@) == i,
        slots_view(slots).contains_key(slots[i].name@),
        slots_view(slots)[slots[i].name@] == slots[i].collection@,
{
}

impl View for Tiny {
    type V = Map<Seq<char>, CollectionView>;

    closed spec fn view(&self) -> Map<Seq<char>, CollectionView> {
        slots_view(self.slots@)
    }
}

impl Tiny {
    /// The invariant of the registry: names are unique and every
    /// collection is well formed.
    pub closed spec fn wf(&self) -> bool {
        slots_wf(self.slots@)
    }

    /// An empty registry.
    pub fn new() -> (t: Self)
        ensures
            t.wf(),
            t@ == Map::<Seq<char>, CollectionView>::empty(),
    {
        let t = Tiny { slots: Vec::new() };
        t
    }

    /// The position of the slot with this name.
    fn find(&self, name: &str) -> (r: Option<usize>)
        requires
            self.wf(),
        ensures
            match r {
                Some(i) => i < self.slots.len() && self.slots@[i as int].name@ == name@
                    && self@.contains_key(name@) && self@[name@] == self.slots@[i as int].collection@,
                None => !self@.contains_key(name@) && !has_slot(self.slots@, name@),
            },
    {
        let mut i: usize = 0;
        while i < self.slots.len()
            invariant
                self.wf(),
                i <= self.slots.len(),
                forall|j: int| 0 <= j < i ==> (#[trigger] self.slots@[j]).name@ != name@,
            decreases self.slots.len() - i,
        {
            if same_text(self.slots[i].name.as_str(), name) {
                proof {
                    lemma_slot_of(self.slots@, i as int);
                }
                return Some(i);
            }
            i += 1;
        }
        None
    }

    /// Registers an empty collection of the default configuration
    /// (`DEFAULT_DIMENSION`, cosine) under `name` and returns a copy of it.
    /// A name that is taken is refused and the registry stays as it was.
    pub fn create_collection(&mut self, name: String) -> (r: Result<Collection, Error>)
        requires
            old(self).wf(),
        ensures
            final(self).wf(),
            old(self)@.contains_key(name@) ==> r == Err::<Collection, Error>(Error::UniqueViolation)
                && final(self)@ == old(self)@,
            !old(self)@.contains_key(name@) ==> r is Ok && r->Ok_0@ == (CollectionView {
                dimension: DEFAULT_DIMENSION as nat,
                distance: Distance::Cosine,
                embeddings: Seq::empty(),
            }) && final(self)@ == old(self)@.insert(name@, r->Ok_0@),
    {
        self.create_collection_with(name, DEFAULT_DIMENSION, Distance::Cosine)
    }

    /// Registers an empty collection of the given dimension and metric
    /// under `name` and returns a copy of it. A name that is taken is
    /// refused and the registry stays as it was.
    pub fn create_collection_with(&mut self, name: String, dimension: usize, distance: Distance) -> (r:
        Result<Collection, Error>)
        requires
            old(self).wf(),
            dimension > 0,
        ensures
            final(self).wf(),
            old(self)@.contains_key(name@) ==> r == Err::<Collection, Error>(Error::UniqueViolation)
                && final(self)@ == old(self)@,
            !old(self)@.contains_key(name@) ==> r is Ok && r->Ok_0@ == (CollectionView {
                dimension: dimension as nat,
                distance,
                embeddings: Seq::empty(),
            }) && final(self)@ == old(self)@.insert(name@, r->Ok_0@),
    {
        if self.find(name.as_str()).is_some() {
            return Err(Error::UniqueViolation);
        }
        let collection = Collection::new(dimension, distance);
        let copy = Collection::new(dimension, distance);
        let ghost before = self.slots@;
        let ghost key = name@;
        self.slots.push(Slot { name, collection });
        proof {
            let after = self.slots@;
            assert forall|n: Seq<char>| has_slot(after, n) <==> (n == key || has_slot(before, n)) by {
                if has_slot(before, n) {
                    let i = slot_of(before, n);
                    assert(after[i].name@ == n);
                }
                if n == key {
                    assert(after[before.len() as int].name@ == n);
                }
            }
            lemma_slot_of(after, before.len() as int);
        }
        Ok(copy)
    }

    /// Removes the collection registered under `name` with all its
    /// embeddings. A name that is not registered is refused.
    pub fn delete_collection(&mut self, name: &str) -> (r: Result<(), Error>)
        requires
            old(self).wf(),
        ensures
            final(self).wf(),
            !old(self)@.contains_key(name@) ==> r == Err::<(), Error>(Error::NotFound) && final(self)@
                == old(self)@,
            old(self)@.contains_key(name@) ==> r is Ok && final(self)@ == old(self)@.remove(name@),
    {
        match self.find(name) {
            None => Err(Error::NotFound),
            Some(i) => {
                let ghost before = self.slots@;
                self.slots.remove(i);
                proof {
                    let after = self.slots@;
                    assert forall|n: Seq<char>| has_slot(after, n) <==> (n != name@ && has_slot(
                        before,
                        n,
                    )) by {
                        if n != name@ && has_slot(before, n) {
                            let j = slot_of(before, n);
                            if j < i {
                                assert(after[j].name@ == n);
                            } else {
                                assert(after[j - 1].name@ == n);
                            }
                        }
                    }
                }
                Ok(())
            },
        }
    }

    /// Looks up the collection registered under `name`.
    pub fn get_collection(&self, name: &str) -> (r: Option<&Collection>)
        requires
            self.wf(),
        ensures
            match r {
                Some(c) => self@.contains_key(name@) && c@ == self@[name@] && c@.wf(),
                None => !self@.contains_key(name@),
            },
    {
        match self.find(name) {
            None => None,
            Some(i) => Some(&self.slots[i].collection),
        }
    }

    /// Appends an embedding to the collection registered under
    /// `collection_name`.
    ///
    /// The vector is stored as it is given: for a collection whose metric
    /// stores unit vectors (`Distance::stores_normalized`) the caller hands
    /// it over already scaled. The checks come in this order, and a refused
    /// insert leaves the registry as it was: the collection exists; the id
    /// is new to it; the vector has its dimension.
    pub fn insert_into_collection(
        &mut self,
        collection_name: &str,
        id: String,
        vector: Vec<u32>,
        blob: String,
    ) -> (r: Result<(), Error>)
        requires
            old(self).wf(),
        ensures
            final(self).wf(),
            !old(self)@.contains_key(collection_name@) ==> r == Err::<(), Error>(Error::NotFound)
                && final(self)@ == old(self)@,
            old(self)@.contains_key(collection_name@) && old(self)@[collection_name@].has_id(id@)
                ==> r == Err::<(), Error>(Error::UniqueViolation) && final(self)@ == old(self)@,
            old(self)@.contains_key(collection_name@) && !old(self)@[collection_name@].has_id(id@)
                && vector@.len() != old(self)@[collection_name@].dimension ==> r == Err::<(), Error>(
                Error::DimensionMismatch,
            ) && final(self)@ == old(self)@,
            old(self)@.contains_key(collection_name@) && !old(self)@[collection_name@].has_id(id@)
                && vector@.len() == old(self)@[collection_name@].dimension ==> r is Ok && final(self)@
                == old(self)@.insert(
                collection_name@,
                old(self)@[collection_name@].with(
                    EmbeddingView { id: id@, vector: vector@, blob: blob@ },
                ),
            ),
    {
        let i = match self.find(collection_name) {
            None => {
                return Err(Error::NotFound);
            },
            Some(i) => i,
        };
        if self.slots[i].collection.position_of(&id).is_some() {
            return Err(Error::UniqueViolation);
        }
        if vector.len() != self.slots[i].collection.dimension {
            return Err(Error::DimensionMismatch);
        }
        let ghost before = self.slots@;
        let ghost added = EmbeddingView { id: id@, vector: vector@, blob: blob@ };
        self.slots[i].collection.embeddings.push(Embedding { id, vector, blob });
        proof {
            let after = self.slots@;
            let grown = before[i as int].collection@.with(added);
            assert(forall|j: int|
                0 <= j < after.len() && j != i ==> (#[trigger] after[j]).collection
                    == before[j].collection);
            assert(after[i as int].collection@.embeddings =~= grown.embeddings);
            assert(grown.wf());
            assert forall|n: Seq<char>| has_slot(after, n) <==> has_slot(before, n) by {
                if has_slot(before, n) {
                    let j = slot_of(before, n);
                    assert(after[j].name@ == n);
                }
            }
        }
        Ok(())
    }
}

/// In a well-formed registry every vector of every collection has the
/// dimension of its collection, and no collection holds an id twice.
pub proof fn lemma_registry_invariant(t: Tiny, name: Seq<char>)
    requires
        t.wf(),
        t@.contains_key(name),
    ensures
        t@[name].wf(),
        forall|i: int|
            0 <= i < t@[name].embeddings.len() ==> (#[trigger] t@[name].embeddings[i]).vector.len()
                == t@[name].dimension,
{
    let i = slot_of(t.slots@, name);
    lemma_slot_of(t.slots@, i);
}

} // verus!
