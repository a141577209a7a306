//! A small table from ids to numbers, kept as a vector without repeated
//! ids. The blocklist, the suspicion timers and the lists of the updater
//! are such tables.

use vstd::prelude::*;
use crate::wire::same_bytes;

verus! {

/// One id with its number.
struct Slot {
    id: Vec<u8>,
    value: u64,
}

/// The id held at a position.
spec fn id_at(list: Seq<Slot>, i: int) -> Seq<u8> {
    list[i].id@
}

/// Whether an id is held at some position.
spec fn has_id(list: Seq<Slot>, id: Seq<u8>) -> bool {
    exists|i: int| 0 <= i < list.len() && #[trigger] id_at(list, i) == id
}

/// A position at which an id is held.
spec fn slot_of(list: Seq<Slot>, id: Seq<u8>) -> int {
    choose|i: int| 0 <= i < list.len() && #[trigger] id_at(list, i) == id
}

/// Whether no id is held at two positions.
spec fn distinct(list: Seq<Slot>) -> bool {
    forall|i: int, j: int|
        0 <= i < j < list.len() ==> #[trigger] id_at(list, i) != #[trigger] id_at(list, j)
}

/// The map that a list of slots stands for.
spec fn model(list: Seq<Slot>) -> Map<Seq<u8>, u64> {
    Map::new(|id: Seq<u8>| has_id(list, id), |id: Seq<u8>| list[slot_of(list, id)].value)
}

/// Where ids are distinct, the map holds at the id of a position the
/// number of that position.
proof fn lemma_at(list: Seq<Slot>, i: int)
    requires
        distinct(list),
        0 <= i < list.len(),
    ensures
        has_id(list, id_at(list, i)),
        slot_of(list, id_at(list, i)) == i,
        model(list).contains_key(id_at(list, i)),
        model(list)[id_at(list, i)] == list[i].value,
{
    let id = id_at(list, i);
    assert(has_id(list, id));
    let p = slot_of(list, id);
    assert(0 <= p < list.len() && id_at(list, p) == id);
    if p < i {
        assert(id_at(list, p) != id_at(list, i));
    } else if i < p {
        assert(id_at(list, i) != id_at(list, p));
    }
}

/// Appending a slot of a new id inserts it into the map.
proof fn lemma_push(list: Seq<Slot>, e: Slot)
    requires
        distinct(list),
        !has_id(list, e.id@),
    ensures
        distinct(list.push(e)),
        model(list.push(e)) == model(list).insert(e.id@, e.value),
{
    let next = list.push(e);
    let n = list.len() as int;
    assert forall|i: int, j: int| 0 <= i < j < next.len() implies #[trigger] id_at(next, i)
        != #[trigger] id_at(next, j) by {
        if j < n {
            assert(id_at(list, i) != id_at(list, j));
        } else if id_at(next, i) == e.id@ {
            assert(id_at(list, i) == e.id@);
        }
    }
    assert(id_at(next, n) == e.id@);
    assert forall|q: Seq<u8>| has_id(next, q) == (q == e.id@ || has_id(list, q)) by {
        if has_id(next, q) {
            let i = choose|i: int| 0 <= i < next.len() && #[trigger] id_at(next, i) == q;
            if i < n {
                assert(id_at(list, i) == q);
            }
        }
        if has_id(list, q) {
            let i = choose|i: int| 0 <= i < list.len() && #[trigger] id_at(list, i) == q;
            assert(id_at(next, i) == q);
        }
    }
    assert forall|q: Seq<u8>| has_id(next, q) implies next[slot_of(next, q)].value == (if q
        == e.id@ {
        e.value
    } else {
        list[slot_of(list, q)].value
    }) by {
        lemma_at(next, slot_of(next, q));
        if q == e.id@ {
            lemma_at(next, n);
        } else {
            let i = slot_of(list, q);
            assert(id_at(next, i) == q);
            lemma_at(next, i);
        }
    }
    assert(model(next) =~= model(list).insert(e.id@, e.value));
}

/// Replacing a slot by one of the same id replaces it in the map.
proof fn lemma_update(list: Seq<Slot>, i: int, e: Slot)
    requires
        distinct(list),
        0 <= i < list.len(),
        id_at(list, i) == e.id@,
    ensures
        distinct(list.update(i, e)),
        model(list.update(i, e)) == model(list).insert(e.id@, e.value),
{
    let next = list.update(i, e);
    assert forall|a: int| 0 <= a < list.len() implies id_at(next, a) == id_at(list, a) by {}
    assert forall|a: int, b: int| 0 <= a < b < next.len() implies #[trigger] id_at(next, a)
        != #[trigger] id_at(next, b) by {
        assert(id_at(list, a) != id_at(list, b));
    }
    assert forall|q: Seq<u8>| has_id(next, q) == has_id(list, q) by {
        if has_id(next, q) {
            let a = choose|a: int| 0 <= a < next.len() && #[trigger] id_at(next, a) == q;
            assert(id_at(list, a) == q);
        }
        if has_id(list, q) {
            let a = choose|a: int| 0 <= a < list.len() && #[trigger] id_at(list, a) == q;
            assert(id_at(next, a) == q);
        }
    }
    lemma_at(list, i);
    assert forall|q: Seq<u8>| has_id(next, q) implies next[slot_of(next, q)].value == (if q
        == e.id@ {
        e.value
    } else {
        list[slot_of(list, q)].value
    }) by {
        lemma_at(next, slot_of(next, q));
        let a = slot_of(list, q);
        assert(id_at(next, a) == q);
        lemma_at(next, a);
    }
    assert(model(next) =~= model(list).insert(e.id@, e.value));
}

/// Taking a slot out removes its id from the map.
proof fn lemma_remove(list: Seq<Slot>, i: int)
    requires
        distinct(list),
        0 <= i < list.len(),
    ensures
        distinct(list.remove(i)),
        model(list.remove(i)) == model(list).remove(id_at(list, i)),
{
    let next = list.remove(i);
    let gone = id_at(list, i);
    assert forall|a: int| 0 <= a < next.len() implies id_at(next, a) == id_at(
        list,
        if a < i {
            a
        } else {
            a + 1
        },
    ) by {}
    assert forall|a: int, b: int| 0 <= a < b < next.len() implies #[trigger] id_at(next, a)
        != #[trigger] id_at(next, b) by {
        let a0 = if a < i {
            a
        } else {
            a + 1
        };
        let b0 = if b < i {
            b
        } else {
            b + 1
        };
        assert(id_at(list, a0) != id_at(list, b0));
    }
    assert forall|q: Seq<u8>| has_id(next, q) == (q != gone && has_id(list, q)) by {
        if has_id(next, q) {
            let a = choose|a: int| 0 <= a < next.len() && #[trigger] id_at(next, a) == q;
            let a0 = if a < i {
                a
            } else {
                a + 1
            };
            assert(id_at(list, a0) == q);
            lemma_at(list, a0);
            lemma_at(list, i);
        }
        if q != gone && has_id(list, q) {
            let a = choose|a: int| 0 <= a < list.len() && #[trigger] id_at(list, a) == q;
            let a1 = if a < i {
                a
            } else {
                a - 1
            };
            assert(id_at(next, a1) == q);
        }
    }
    assert forall|q: Seq<u8>| has_id(next, q) implies next[slot_of(next, q)].value
        == list[slot_of(list, q)].value by {
        let a = slot_of(next, q);
        lemma_at(next, a);
        let a0 = if a < i {
            a
        } else {
            a + 1
        };
        assert(id_at(list, a0) == q);
        lemma_at(list, a0);
    }
    assert(model(next) =~= model(list).remove(gone));
}

/// A table from ids to numbers.
pub struct IdTable {
    list: Vec<Slot>,
}

impl View for IdTable {
    type V = Map<Seq<u8>, u64>;

    closed spec fn view(&self) -> Map<Seq<u8>, u64> {
        model(self.list@)
    }
}

impl IdTable {
    /// The table's invariant: no id is held twice.
    pub closed spec fn wf(&self) -> bool {
        distinct(self.list@)
    }

    /// Whether `ids` names every id of the table, each once.
    pub open spec fn spec_lists(&self, ids: Seq<Vec<u8>>) -> bool {
        &&& forall|i: int| 0 <= i < ids.len() ==> self@.contains_key(#[trigger] ids[i]@)
        &&& forall|id: Seq<u8>| #[trigger]
            self@.contains_key(id) ==> exists|i: int| 0 <= i < ids.len() && #[trigger] ids[i]@ == id
        &&& forall|i: int, j: int| 0 <= i < j < ids.len() ==> #[trigger] ids[i]@ != #[trigger] ids[j]@
    }

    /// An empty table.
    pub fn new() -> (r: IdTable)
        ensures
            r.wf(),
            r@ == Map::<Seq<u8>, u64>::empty(),
    {
        let r = IdTable { list: Vec::new() };
        assert(r@ =~= Map::<Seq<u8>, u64>::empty());
        r
    }

    /// The position at which an id is held.
    fn find(&self, id: &[u8]) -> (r: Option<usize>)
        ensures
            r matches Some(i) ==> i < self.list@.len() && id_at(self.list@, i as int) == id@,
            r is None ==> !has_id(self.list@, id@),
    {
        let mut i: usize = 0;
        while i < self.list.len()
            invariant
                i <= self.list.len(),
                forall|j: int| 0 <= j < i ==> id_at(self.list@, j) != id@,
            decreases self.list.len() - i,
        {
            if same_bytes(self.list[i].id.as_slice(), id) {
                return Some(i);
            }
            i = i + 1;
        }
        None
    }

    /// The number held for an id.
    pub fn get(&self, id: &[u8]) -> (r: Option<u64>)
        requires
            self.wf(),
        ensures
            r is Some <==> self@.contains_key(id@),
            r matches Some(v) ==> v == self@[id@],
    {
        match self.find(id) {
            None => None,
            Some(i) => {
                proof {
                    lemma_at(self.list@, i as int);
                }
                Some(self.list[i].value)
            },
        }
    }

    /// Whether the table holds an id.
    pub fn contains(&self, id: &[u8]) -> (r: bool)
        requires
            self.wf(),
        ensures
            r == self@.contains_key(id@),
    {
        self.get(id).is_some()
    }

    /// Holds `value` for `id` from now on.
    pub fn set(&mut self, id: &[u8], value: u64)
        requires
            old(self).wf(),
        ensures
            final(self).wf(),
            final(self)@ == old(self)@.insert(id@, value),
    {
        let slot = Slot { id: vstd::slice::slice_to_vec(id), value };
        match self.find(id) {
            None => {
                proof {
                    lemma_push(self.list@, slot);
                }
                self.list.push(slot);
            },
            Some(i) => {
                proof {
                    lemma_update(self.list@, i as int, slot);
                }
                self.list[i] = slot;
            },
        }
    }

    /// Forgets an id. Says whether the table held it.
    pub fn remove(&mut self, id: &[u8]) -> (r: bool)
        requires
            old(self).wf(),
        ensures
            final(self).wf(),
            r == old(self)@.contains_key(id@),
            final(self)@ == old(self)@.remove(id@),
    {
        match self.find(id) {
            None => {
                assert(self@ =~= old(self)@.remove(id@));
                false
            },
            Some(i) => {
                proof {
                    lemma_at(self.list@, i as int);
                    lemma_remove(self.list@, i as int);
                }
                self.list.remove(i);
                true
            },
        }
    }

    /// The ids of the table, each once.
    pub fn ids(&self) -> (r: Vec<Vec<u8>>)
        requires
            self.wf(),
        ensures
            self.spec_lists(r@),
    {
        let mut out: Vec<Vec<u8>> = Vec::new();
        let mut i: usize = 0;
        while i < self.list.len()
            invariant
                i <= self.list.len(),
                out@.len() == i,
                forall|j: int| 0 <= j < i ==> (#[trigger] out@[j])@ == id_at(self.list@, j),
            decreases self.list.len() - i,
        {
            out.push(self.list[i].id.clone());
            i = i + 1;
        }
        proof {
            let list = self.list@;
            assert forall|j: int| 0 <= j < out@.len() implies self@.contains_key(
                #[trigger] out@[j]@,
            ) by {
                lemma_at(list, j);
            }
            assert forall|id: Seq<u8>| #[trigger] self@.contains_key(id) implies exists|j: int|
                0 <= j < out@.len() && #[trigger] out@[j]@ == id by {
                let p = slot_of(list, id);
                assert(0 <= p < list.len() && id_at(list, p) == id);
                assert(out@[p]@ == id);
            }
            assert forall|a: int, b: int| 0 <= a < b < out@.len() implies #[trigger] out@[a]@
                != #[trigger] out@[b]@ by {
                assert(id_at(list, a) != id_at(list, b));
            }
        }
        out
    }
}

} // verus!
