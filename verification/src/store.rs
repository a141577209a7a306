//! The rumor store: for each identity the newest rumor known, and a counter
//! that tells what has changed of late.
//!
//! A store holds rumors of one kind. As a mathematical value it is a map
//! from identities to rumors; [`spec_insert`] says what an insert does to
//! that map, and the laws of merging are proved of it.

use vstd::prelude::*;
use crate::rumor::{Rumor, RumorType, RumorView};

verus! {

/// What an insert did.
#[derive(Clone, Copy, Debug, PartialEq, Eq, Structural)]
pub enum InsertOutcome {
    /// The store's content changed: the rumor is new or replaced an older one.
    Applied,
    /// The rumor was ignored.
    Stale,
}

/// What tells one rumor of a kind from another: its group and its id.
pub type Identity = (Seq<u8>, Seq<u8>);

/// A store as a mathematical value.
pub type Rumors = Map<Identity, RumorView>;

/// The identity of a rumor.
pub open spec fn spec_identity(r: RumorView) -> Identity {
    (r.group(), r.id())
}

/// Whether an insert of `r` into a store of kind `kind` that holds `m`
/// is applied: `r` is of the store's kind, and either nothing of its
/// identity is stored or it supersedes what is.
pub open spec fn spec_applies(kind: RumorType, m: Rumors, r: RumorView) -> bool {
    &&& r.kind() == kind
    &&& (!m.contains_key(spec_identity(r)) || r.supersedes(m[spec_identity(r)]))
}

/// What a store of kind `kind` that holds `m` holds after an insert of `r`.
pub open spec fn spec_insert(kind: RumorType, m: Rumors, r: RumorView) -> Rumors {
    if spec_applies(kind, m, r) {
        m.insert(spec_identity(r), r)
    } else {
        m
    }
}

/// The counter after one more update. It stops at the largest value.
pub open spec fn spec_bump(counter: u64) -> u64 {
    if counter < u64::MAX {
        (counter + 1) as u64
    } else {
        counter
    }
}

/// How one step marks a store. Where the step changed what the store holds
/// under `k`, the counter has gone up by one and the rumor under `k` bears
/// the new value as its stamp; where it changed nothing, the counter stands.
/// Either way every other stamp is as it was, and so is the store's kind.
pub open spec fn spec_marked(before: RumorStore, after: RumorStore, changed: bool, k: Identity) -> bool {
    &&& after.spec_kind() == before.spec_kind()
    &&& after.spec_counter() == if changed {
        spec_bump(before.spec_counter())
    } else {
        before.spec_counter()
    }
    &&& after.spec_stamps() == if changed {
        before.spec_stamps().insert(k, after.spec_counter())
    } else {
        before.spec_stamps()
    }
}

/// Whether `v` lists what `m` holds, each rumor once, in some order.
pub open spec fn spec_lists(m: Rumors, v: Seq<RumorView>) -> bool {
    &&& forall|i: int|
        0 <= i < v.len() ==> m.contains_key(spec_identity(#[trigger] v[i])) && m[spec_identity(
            v[i],
        )] == v[i]
    &&& forall|k: Identity| #[trigger]
        m.contains_key(k) ==> exists|i: int| 0 <= i < v.len() && spec_identity(#[trigger] v[i]) == k
    &&& forall|i: int, j: int|
        0 <= i < j < v.len() ==> spec_identity(#[trigger] v[i]) != spec_identity(#[trigger] v[j])
}

/// The identities of one group.
pub open spec fn spec_in_group(group: Seq<u8>) -> Set<Identity> {
    Set::new(|k: Identity| k.0 == group)
}

/// The identities whose stamp is behind `since`: what has changed after the
/// counter stood at `since`.
pub open spec fn spec_changed(stamps: Map<Identity, u64>, since: u64) -> Set<Identity> {
    Set::new(|k: Identity| stamps.contains_key(k) && stamps[k] > since)
}

/// The views of a vector of rumors.
pub open spec fn spec_views(v: Seq<Rumor>) -> Seq<RumorView> {
    Seq::new(v.len(), |i: int| v[i]@)
}

/// Inserting a rumor a second time is never applied and changes nothing,
/// whatever the first insert did.
pub proof fn lemma_insert_twice_is_stale(kind: RumorType, m: Rumors, r: RumorView)
    ensures
        !spec_applies(kind, spec_insert(kind, m, r), r),
        spec_insert(kind, spec_insert(kind, m, r), r) == spec_insert(kind, m, r),
{
}

/// A rumor of a strictly higher version than the one stored under its
/// identity is applied and takes its place, unless the stored one is final.
pub proof fn lemma_newer_is_applied(kind: RumorType, m: Rumors, r: RumorView)
    requires
        r.kind() == kind,
        m.contains_key(spec_identity(r)),
        !m[spec_identity(r)].is_final(),
        r.version() > m[spec_identity(r)].version(),
    ensures
        spec_applies(kind, m, r),
        spec_insert(kind, m, r)[spec_identity(r)] == r,
{
}

/// A rumor of a version that is not higher than the stored one's, and of
/// no higher weight at the same version, is ignored.
pub proof fn lemma_older_is_stale(kind: RumorType, m: Rumors, r: RumorView)
    requires
        m.contains_key(spec_identity(r)),
        r.version() < m[spec_identity(r)].version() || (r.version() == m[spec_identity(
            r,
        )].version() && r.weight() <= m[spec_identity(r)].weight()),
    ensures
        !spec_applies(kind, m, r),
        spec_insert(kind, m, r) == m,
{
}

/// What is final stays: once a final rumor is stored under an identity, no
/// insert changes what is stored there.
pub proof fn lemma_final_stays(kind: RumorType, m: Rumors, r: RumorView, k: Identity)
    requires
        m.contains_key(k),
        m[k].is_final(),
    ensures
        spec_insert(kind, m, r).contains_key(k),
        spec_insert(kind, m, r)[k] == m[k],
{
}

/// An insert leaves every other identity as it was.
pub proof fn lemma_insert_elsewhere(kind: RumorType, m: Rumors, r: RumorView, k: Identity)
    requires
        k != spec_identity(r),
    ensures
        spec_insert(kind, m, r).contains_key(k) == m.contains_key(k),
        m.contains_key(k) ==> spec_insert(kind, m, r)[k] == m[k],
{
}

/// After an insert the store holds, under the rumor's identity, the rumor
/// itself or one that the rumor does not supersede.
pub proof fn lemma_insert_holds(kind: RumorType, m: Rumors, r: RumorView)
    requires
        r.kind() == kind,
    ensures
        spec_insert(kind, m, r).contains_key(spec_identity(r)),
        spec_insert(kind, m, r)[spec_identity(r)] == r || !r.supersedes(
            spec_insert(kind, m, r)[spec_identity(r)],
        ),
{
}

/// What a store holds after the rumors of `items` were inserted, first to
/// last.
pub open spec fn spec_insert_all(kind: RumorType, m: Rumors, items: Seq<RumorView>) -> Rumors
    decreases items.len(),
{
    if items.len() == 0 {
        m
    } else {
        spec_insert(kind, spec_insert_all(kind, m, items.drop_last()), items.last())
    }
}

/// Whether a store that holds `m` is behind one that holds `src`: whatever
/// `m` holds, `src` holds the same or something that supersedes it.
pub open spec fn spec_behind(m: Rumors, src: Rumors) -> bool {
    forall|k: Identity| #[trigger]
        m.contains_key(k) ==> src.contains_key(k) && (m[k] == src[k] || src[k].supersedes(m[k]))
}

/// Whether a map holds rumors of one kind, each under its own identity.
pub open spec fn spec_sound(kind: RumorType, m: Rumors) -> bool {
    forall|k: Identity| #[trigger]
        m.contains_key(k) ==> m[k].kind() == kind && spec_identity(m[k]) == k
}

/// Replaying a store's content into a store that is behind it, an empty one
/// or the store itself among them, gives the store's content.
pub proof fn lemma_insert_all_restores(
    kind: RumorType,
    m: Rumors,
    src: Rumors,
    items: Seq<RumorView>,
)
    requires
        spec_sound(kind, src),
        spec_lists(src, items),
        spec_behind(m, src),
    ensures
        spec_insert_all(kind, m, items) == src,
{
    lemma_insert_some(kind, m, src, items, items.len() as int);
    assert(items.subrange(0, items.len() as int) =~= items);
    let got = spec_insert_all(kind, m, items);
    assert forall|k: Identity| got.contains_key(k) == src.contains_key(k) by {
        if src.contains_key(k) {
            let i = choose|i: int| 0 <= i < items.len() && spec_identity(#[trigger] items[i]) == k;
        }
    }
    assert forall|k: Identity| got.contains_key(k) implies got[k] == src[k] by {
        let i = choose|i: int| 0 <= i < items.len() && spec_identity(#[trigger] items[i]) == k;
    }
    assert(got =~= src);
}

/// What replaying the first `n` rumors of a store's content into a store
/// that is behind it gives: the store's content on the identities of those
/// rumors, and what was there before on the others.
proof fn lemma_insert_some(kind: RumorType, m: Rumors, src: Rumors, items: Seq<RumorView>, n: int)
    requires
        spec_sound(kind, src),
        spec_lists(src, items),
        spec_behind(m, src),
        0 <= n <= items.len(),
    ensures
        forall|k: Identity|
            #![trigger spec_insert_all(kind, m, items.subrange(0, n)).contains_key(k)]
            #![trigger spec_insert_all(kind, m, items.subrange(0, n))[k]]
            {
                let got = spec_insert_all(kind, m, items.subrange(0, n));
                if exists|i: int| 0 <= i < n && spec_identity(#[trigger] items[i]) == k {
                    got.contains_key(k) && got[k] == src[k]
                } else {
                    got.contains_key(k) == m.contains_key(k) && (m.contains_key(k) ==> got[k]
                        == m[k])
                }
            },
    decreases n,
{
    let part = items.subrange(0, n);
    if n > 0 {
        lemma_insert_some(kind, m, src, items, n - 1);
        let before = items.subrange(0, n - 1);
        assert(part.drop_last() =~= before);
        let x = items[n - 1];
        assert(part.last() == x);
        let held = spec_insert_all(kind, m, before);
        let got = spec_insert_all(kind, m, part);
        assert(got == spec_insert(kind, held, x));
        let kx = spec_identity(x);
        assert(src.contains_key(kx) && src[kx] == x);
        assert(!(exists|i: int| 0 <= i < n - 1 && spec_identity(#[trigger] items[i]) == kx)) by {
            if exists|i: int| 0 <= i < n - 1 && spec_identity(#[trigger] items[i]) == kx {
                let i = choose|i: int| 0 <= i < n - 1 && spec_identity(#[trigger] items[i]) == kx;
                assert(spec_identity(items[i]) != spec_identity(items[n - 1]));
            }
        }
        assert(held.contains_key(kx) == m.contains_key(kx));
        assert(got.contains_key(kx) && got[kx] == x) by {
            if m.contains_key(kx) {
                assert(held[kx] == m[kx]);
                assert(m[kx] == src[kx] || src[kx].supersedes(m[kx]));
            }
        }
        assert forall|k: Identity|
            #![trigger got.contains_key(k)]
            #![trigger got[k]]
            {
                if exists|i: int| 0 <= i < n && spec_identity(#[trigger] items[i]) == k {
                    got.contains_key(k) && got[k] == src[k]
                } else {
                    got.contains_key(k) == m.contains_key(k) && (m.contains_key(k) ==> got[k]
                        == m[k])
                }
            } by {
            if k == kx {
                assert(spec_identity(items[n - 1]) == k);
            } else {
                if exists|i: int| 0 <= i < n && spec_identity(#[trigger] items[i]) == k {
                    let i = choose|i: int| 0 <= i < n && spec_identity(#[trigger] items[i]) == k;
                    assert(i < n - 1);
                    assert(held.contains_key(k) && held[k] == src[k]);
                } else {
                    assert(!(exists|i: int| 0 <= i < n - 1 && spec_identity(#[trigger] items[i]) == k))
                        by {
                        if exists|i: int| 0 <= i < n - 1 && spec_identity(#[trigger] items[i]) == k {
                            let i = choose|i: int|
                                0 <= i < n - 1 && spec_identity(#[trigger] items[i]) == k;
                            assert(0 <= i < n && spec_identity(items[i]) == k);
                        }
                    }
                }
            }
        }
    } else {
        assert(part =~= Seq::<RumorView>::empty());
    }
}

/// One stored rumor with the value of the counter at which it was stored.
struct Entry {
    rumor: Rumor,
    stamp: u64,
}

/// The identity stored at a position.
spec fn key_at(list: Seq<Entry>, i: int) -> Identity {
    spec_identity(list[i].rumor@)
}

/// Whether an identity is stored at some position.
spec fn has_key(list: Seq<Entry>, k: Identity) -> bool {
    exists|i: int| 0 <= i < list.len() && #[trigger] key_at(list, i) == k
}

/// A position at which an identity is stored.
spec fn position(list: Seq<Entry>, k: Identity) -> int {
    choose|i: int| 0 <= i < list.len() && #[trigger] key_at(list, i) == k
}

/// Whether no identity is stored at two positions.
spec fn distinct(list: Seq<Entry>) -> bool {
    forall|i: int, j: int|
        0 <= i < j < list.len() ==> #[trigger] key_at(list, i) != #[trigger] key_at(list, j)
}

/// The map that a list of entries stands for.
spec fn model(list: Seq<Entry>) -> Rumors {
    Map::new(|k: Identity| has_key(list, k), |k: Identity| list[position(list, k)].rumor@)
}

/// The stamps of a list of entries, by identity.
spec fn stamps(list: Seq<Entry>) -> Map<Identity, u64> {
    Map::new(|k: Identity| has_key(list, k), |k: Identity| list[position(list, k)].stamp)
}

/// The invariant of a store, on its parts.
spec fn well_formed(kind: RumorType, list: Seq<Entry>, counter: u64) -> bool {
    &&& distinct(list)
    &&& forall|i: int| 0 <= i < list.len() ==> (#[trigger] list[i]).rumor@.kind() == kind
    &&& forall|i: int| 0 <= i < list.len() ==> (#[trigger] list[i]).stamp <= counter
}

/// Whether an entry passes a filter on the group and on the stamp.
spec fn keeps(e: Entry, group: Option<Seq<u8>>, since: Option<u64>) -> bool {
    &&& group matches Some(g) ==> e.rumor@.group() == g
    &&& since matches Some(c) ==> e.stamp > c
}

/// The identities that pass a filter on the group and on the stamp.
spec fn kept(list: Seq<Entry>, group: Option<Seq<u8>>, since: Option<u64>) -> Set<Identity> {
    Set::new(
        |k: Identity|
            {
                &&& group matches Some(g) ==> k.0 == g
                &&& since matches Some(c) ==> stamps(list).contains_key(k) && stamps(list)[k] > c
            },
    )
}

/// Where identities are distinct, the map holds at the identity of a
/// position what the list holds at that position.
proof fn lemma_model_at(list: Seq<Entry>, i: int)
    requires
        distinct(list),
        0 <= i < list.len(),
    ensures
        has_key(list, key_at(list, i)),
        position(list, key_at(list, i)) == i,
        model(list).contains_key(key_at(list, i)),
        model(list)[key_at(list, i)] == list[i].rumor@,
        stamps(list)[key_at(list, i)] == list[i].stamp,
{
    let k = key_at(list, i);
    assert(has_key(list, k));
    let p = position(list, k);
    assert(0 <= p < list.len() && key_at(list, p) == k);
    if p < i {
        assert(key_at(list, p) != key_at(list, i));
    } else if i < p {
        assert(key_at(list, i) != key_at(list, p));
    }
}

/// Appending an entry of a new identity inserts it into the map.
proof fn lemma_model_push(list: Seq<Entry>, e: Entry)
    requires
        distinct(list),
        !has_key(list, spec_identity(e.rumor@)),
    ensures
        distinct(list.push(e)),
        model(list.push(e)) == model(list).insert(spec_identity(e.rumor@), e.rumor@),
        stamps(list.push(e)) == stamps(list).insert(spec_identity(e.rumor@), e.stamp),
{
    let k = spec_identity(e.rumor@);
    let next = list.push(e);
    let n = list.len() as int;
    assert forall|i: int, j: int| 0 <= i < j < next.len() implies #[trigger] key_at(next, i)
        != #[trigger] key_at(next, j) by {
        if j < n {
            assert(key_at(list, i) != key_at(list, j));
        } else {
            assert(key_at(next, j) == k);
            if key_at(next, i) == k {
                assert(key_at(list, i) == k);
            }
        }
    }
    assert(key_at(next, n) == k);
    assert forall|q: Identity| has_key(next, q) == (q == k || has_key(list, q)) by {
        if has_key(next, q) {
            let i = choose|i: int| 0 <= i < next.len() && #[trigger] key_at(next, i) == q;
            if i < n {
                assert(key_at(list, i) == q);
            }
        }
        if has_key(list, q) {
            let i = choose|i: int| 0 <= i < list.len() && #[trigger] key_at(list, i) == q;
            assert(key_at(next, i) == q);
        }
    }
    assert forall|q: Identity| has_key(next, q) implies next[position(next, q)] == (if q == k {
        e
    } else {
        list[position(list, q)]
    }) by {
        let p = position(next, q);
        lemma_model_at(next, p);
        if q == k {
            lemma_model_at(next, n);
        } else {
            let i = position(list, q);
            assert(key_at(next, i) == q);
            lemma_model_at(next, i);
        }
    }
    assert(model(next) =~= model(list).insert(k, e.rumor@));
    assert(stamps(next) =~= stamps(list).insert(k, e.stamp));
}

/// Where identities are distinct, the map holds as many rumors as the list
/// has entries.
proof fn lemma_model_len(list: Seq<Entry>)
    requires
        distinct(list),
    ensures
        model(list).dom().finite(),
        model(list).dom().len() == list.len(),
    decreases list.len(),
{
    if list.len() == 0 {
        assert(model(list).dom() =~= Set::<Identity>::empty());
    } else {
        let front = list.drop_last();
        let e = list.last();
        let k = spec_identity(e.rumor@);
        let n = front.len() as int;
        assert forall|i: int, j: int| 0 <= i < j < front.len() implies #[trigger] key_at(front, i)
            != #[trigger] key_at(front, j) by {
            assert(key_at(list, i) != key_at(list, j));
        }
        assert(!has_key(front, k)) by {
            if has_key(front, k) {
                let i = choose|i: int| 0 <= i < front.len() && #[trigger] key_at(front, i) == k;
                assert(key_at(list, i) != key_at(list, n));
            }
        }
        lemma_model_len(front);
        lemma_model_push(front, e);
        assert(front.push(e) =~= list);
        assert(model(list).dom() =~= model(front).dom().insert(k));
    }
}

/// Replacing an entry by one of the same identity replaces it in the map.
proof fn lemma_model_update(list: Seq<Entry>, i: int, e: Entry)
    requires
        distinct(list),
        0 <= i < list.len(),
        key_at(list, i) == spec_identity(e.rumor@),
    ensures
        distinct(list.update(i, e)),
        model(list.update(i, e)) == model(list).insert(spec_identity(e.rumor@), e.rumor@),
        stamps(list.update(i, e)) == stamps(list).insert(spec_identity(e.rumor@), e.stamp),
{
    let k = spec_identity(e.rumor@);
    let next = list.update(i, e);
    assert forall|a: int| 0 <= a < list.len() implies key_at(next, a) == key_at(list, a) by {}
    assert forall|a: int, b: int| 0 <= a < b < next.len() implies #[trigger] key_at(next, a)
        != #[trigger] key_at(next, b) by {
        assert(key_at(list, a) != key_at(list, b));
    }
    assert forall|q: Identity| has_key(next, q) == has_key(list, q) by {
        if has_key(next, q) {
            let a = choose|a: int| 0 <= a < next.len() && #[trigger] key_at(next, a) == q;
            assert(key_at(list, a) == q);
        }
        if has_key(list, q) {
            let a = choose|a: int| 0 <= a < list.len() && #[trigger] key_at(list, a) == q;
            assert(key_at(next, a) == q);
        }
    }
    lemma_model_at(list, i);
    assert forall|q: Identity| has_key(next, q) implies next[position(next, q)] == (if q == k {
        e
    } else {
        list[position(list, q)]
    }) by {
        let p = position(next, q);
        lemma_model_at(next, p);
        let a = position(list, q);
        assert(key_at(next, a) == q);
        lemma_model_at(next, a);
    }
    assert(model(next) =~= model(list).insert(k, e.rumor@));
    assert(stamps(next) =~= stamps(list).insert(k, e.stamp));
}

/// The newest rumor known for each identity of one kind.
pub struct RumorStore {
    kind: RumorType,
    list: Vec<Entry>,
    update_counter: u64,
}

impl View for RumorStore {
    type V = Rumors;

    closed spec fn view(&self) -> Rumors {
        model(self.list@)
    }
}

impl RumorStore {
    /// The store's invariant: no identity is stored twice, every rumor is
    /// of the store's kind, and no stamp is ahead of the counter.
    pub closed spec fn wf(&self) -> bool {
        well_formed(self.kind, self.list@, self.update_counter)
    }

    /// The kind of rumor that the store holds.
    pub closed spec fn spec_kind(&self) -> RumorType {
        self.kind
    }

    /// How often the store's content has changed.
    pub closed spec fn spec_counter(&self) -> u64 {
        self.update_counter
    }

    /// The number of rumors that the store holds.
    pub open spec fn spec_len(&self) -> nat {
        self@.dom().len()
    }

    /// For each identity, the value that the counter took when the rumor
    /// stored under it was applied.
    pub closed spec fn spec_stamps(&self) -> Map<Identity, u64> {
        stamps(self.list@)
    }

    /// What the invariant means for the store as a map: it holds rumors of
    /// its kind under their own identities, each with a stamp, and no stamp
    /// is ahead of the counter.
    pub open spec fn sound(&self) -> bool {
        &&& self@.dom().finite()
        &&& self.spec_stamps().dom() == self@.dom()
        &&& forall|k: Identity| #[trigger]
            self@.contains_key(k) ==> {
                &&& self@[k].kind() == self.spec_kind()
                &&& spec_identity(self@[k]) == k
                &&& self.spec_stamps()[k] <= self.spec_counter()
            }
    }

    /// A well-formed store is sound.
    pub proof fn lemma_sound(&self)
        requires
            self.wf(),
        ensures
            self.sound(),
    {
        let list = self.list@;
        lemma_model_len(list);
        assert(self.spec_stamps().dom() =~= self@.dom());
        assert forall|k: Identity| #[trigger] self@.contains_key(k) implies {
            &&& self@[k].kind() == self.spec_kind()
            &&& spec_identity(self@[k]) == k
            &&& self.spec_stamps()[k] <= self.spec_counter()
        } by {
            let p = position(list, k);
            assert(0 <= p < list.len() && key_at(list, p) == k);
        }
    }

    /// The entries behind the store.
    closed spec fn spec_list(&self) -> Seq<Entry> {
        self.list@
    }

    /// An empty store for rumors of one kind.
    pub fn new(kind: RumorType) -> (r: RumorStore)
        ensures
            r.wf(),
            r@ == Rumors::empty(),
            r.spec_len() == 0,
            r.spec_stamps() == Map::<Identity, u64>::empty(),
            r.spec_kind() == kind,
            r.spec_counter() == 0,
    {
        let r = RumorStore { kind, list: Vec::new(), update_counter: 0 };
        assert(r@ =~= Rumors::empty());
        assert(r.spec_stamps() =~= Map::<Identity, u64>::empty());
        r
    }

    /// The kind of rumor that the store holds.
    pub fn kind(&self) -> (r: RumorType)
        ensures
            r == self.spec_kind(),
    {
        self.kind
    }

    /// The number of rumors that the store holds.
    pub fn len(&self) -> (r: usize)
        requires
            self.wf(),
        ensures
            r == self.spec_len(),
    {
        proof {
            lemma_model_len(self.list@);
        }
        self.list.len()
    }

    /// How often the store's content has changed.
    pub fn get_update_counter(&self) -> (r: u64)
        ensures
            r == self.spec_counter(),
    {
        self.update_counter
    }

    /// The position at which an identity is stored.
    fn find(&self, group: &[u8], id: &[u8]) -> (r: Option<usize>)
        requires
            self.wf(),
        ensures
            r matches Some(i) ==> i < self.spec_list().len() && key_at(self.spec_list(), i as int)
                == (group@, id@),
            r is None ==> !has_key(self.spec_list(), (group@, id@)),
    {
        let mut i: usize = 0;
        while i < self.list.len()
            invariant
                i <= self.list.len(),
                forall|j: int| 0 <= j < i ==> key_at(self.list@, j) != (group@, id@),
            decreases self.list.len() - i,
        {
            if self.list[i].rumor.in_group(group) && self.list[i].rumor.has_id(id) {
                return Some(i);
            }
            i = i + 1;
        }
        None
    }

    /// Merges a rumor into the store.
    ///
    /// The rumor is applied where it is of the store's kind and either
    /// nothing of its identity is stored or it supersedes what is; then it
    /// takes that place, the counter goes up by one, and the rumor is
    /// stamped with the new value. Otherwise nothing changes.
    pub fn insert(&mut self, rumor: Rumor) -> (r: InsertOutcome)
        requires
            old(self).wf(),
        ensures
            final(self).wf(),
            r == InsertOutcome::Applied <==> spec_applies(
                old(self).spec_kind(),
                old(self)@,
                rumor@,
            ),
            final(self)@ == spec_insert(old(self).spec_kind(), old(self)@, rumor@),
            final(self).spec_kind() == old(self).spec_kind(),
            r == InsertOutcome::Applied ==> final(self).spec_counter() == spec_bump(
                old(self).spec_counter(),
            ) && final(self).spec_stamps() == old(self).spec_stamps().insert(
                spec_identity(rumor@),
                final(self).spec_counter(),
            ),
            r == InsertOutcome::Stale ==> final(self).spec_counter() == old(self).spec_counter()
                && final(self).spec_stamps() == old(self).spec_stamps(),
            spec_marked(
                *old(self),
                *final(self),
                r == InsertOutcome::Applied,
                spec_identity(rumor@),
            ),
    {
        if rumor.kind() != self.kind {
            return InsertOutcome::Stale;
        }
        let group = rumor.group();
        let id = rumor.id();
        let found = self.find(group.as_slice(), id.as_slice());
        let next = if self.update_counter < u64::MAX {
            self.update_counter + 1
        } else {
            self.update_counter
        };
        match found {
            None => {
                proof {
                    lemma_model_push(self.list@, Entry { rumor, stamp: next });
                }
                self.update_counter = next;
                self.list.push(Entry { rumor, stamp: next });
                InsertOutcome::Applied
            },
            Some(i) => {
                proof {
                    lemma_model_at(self.list@, i as int);
                }
                if rumor.supersedes(&self.list[i].rumor) {
                    proof {
                        lemma_model_update(self.list@, i as int, Entry { rumor, stamp: next });
                    }
                    self.update_counter = next;
                    self.list[i] = Entry { rumor, stamp: next };
                    InsertOutcome::Applied
                } else {
                    InsertOutcome::Stale
                }
            },
        }
    }

    /// The rumor stored under an identity.
    pub fn get(&self, group: &[u8], id: &[u8]) -> (r: Option<Rumor>)
        requires
            self.wf(),
        ensures
            r is Some <==> self@.contains_key((group@, id@)),
            r matches Some(x) ==> x@ == self@[(group@, id@)],
    {
        match self.find(group, id) {
            None => None,
            Some(i) => {
                proof {
                    lemma_model_at(self.list@, i as int);
                }
                Some(self.list[i].rumor.clone())
            },
        }
    }

    /// Whether a rumor is stored under an identity.
    pub fn contains(&self, group: &[u8], id: &[u8]) -> (r: bool)
        requires
            self.wf(),
        ensures
            r == self@.contains_key((group@, id@)),
    {
        match self.find(group, id) {
            None => false,
            Some(i) => {
                proof {
                    lemma_model_at(self.list@, i as int);
                }
                true
            },
        }
    }

    /// Whether a rumor with the id `id` is stored, in whatever group.
    pub fn contains_id(&self, id: &[u8]) -> (r: bool)
        requires
            self.wf(),
        ensures
            r == exists|k: Identity| #[trigger] self@.contains_key(k) && k.1 == id@,
    {
        let mut i: usize = 0;
        while i < self.list.len()
            invariant
                i <= self.list.len(),
                distinct(self.list@),
                forall|j: int| 0 <= j < i ==> (#[trigger] key_at(self.list@, j)).1 != id@,
            decreases self.list.len() - i,
        {
            if self.list[i].rumor.has_id(id) {
                proof {
                    lemma_model_at(self.list@, i as int);
                    assert(self@.contains_key(key_at(self.list@, i as int)));
                }
                return true;
            }
            i = i + 1;
        }
        proof {
            assert forall|k: Identity| #[trigger] self@.contains_key(k) implies k.1 != id@ by {
                let p = position(self.list@, k);
                assert(0 <= p < self.list@.len() && key_at(self.list@, p) == k);
            }
        }
        false
    }

    /// A copy of the store without the entries that a filter on the group
    /// and on the stamp turns away.
    fn subset(&self, group: Option<&[u8]>, since: Option<u64>) -> (r: RumorStore)
        requires
            self.wf(),
        ensures
            r.wf(),
            r.spec_kind() == self.spec_kind(),
            r.spec_counter() == self.spec_counter(),
            r@ == self@.restrict(
                kept(
                    self.spec_list(),
                    match group {
                        Some(g) => Some(g@),
                        None => None,
                    },
                    since,
                ),
            ),
            r.spec_stamps() == self.spec_stamps().restrict(
                kept(
                    self.spec_list(),
                    match group {
                        Some(g) => Some(g@),
                        None => None,
                    },
                    since,
                ),
            ),
    {
        let ghost g: Option<Seq<u8>> = match group {
            Some(g) => Some(g@),
            None => None,
        };
        let ghost list = self.list@;
        let mut out: Vec<Entry> = Vec::new();
        let ghost mut from: Seq<int> = Seq::empty();
        let mut i: usize = 0;
        while i < self.list.len()
            invariant
                i <= self.list.len(),
                list == self.list@,
                g == match group {
                    Some(g) => Some(g@),
                    None => None,
                },
                out@.len() == from.len(),
                forall|a: int|
                    0 <= a < from.len() ==> 0 <= #[trigger] from[a] < i && keeps(
                        list[from[a]],
                        g,
                        since,
                    ) && out@[a].rumor@ == list[from[a]].rumor@ && out@[a].stamp == list[from[a]].stamp,
                forall|a: int, b: int|
                    0 <= a < b < from.len() ==> #[trigger] from[a] < #[trigger] from[b],
                forall|j: int|
                    0 <= j < i && keeps(#[trigger] list[j], g, since) ==> exists|a: int|
                        0 <= a < from.len() && #[trigger] from[a] == j,
            decreases self.list.len() - i,
        {
            let e = &self.list[i];
            let in_group = match group {
                Some(g) => e.rumor.in_group(g),
                None => true,
            };
            let fresh = match since {
                Some(c) => e.stamp > c,
                None => true,
            };
            if in_group && fresh {
                out.push(Entry { rumor: e.rumor.clone(), stamp: e.stamp });
                proof {
                    let ghost before = from;
                    from = from.push(i as int);
                    assert forall|j: int|
                        0 <= j < i + 1 && keeps(#[trigger] list[j], g, since) implies exists|a: int|
                        0 <= a < from.len() && #[trigger] from[a] == j by {
                        if j < i {
                            let a = choose|a: int| 0 <= a < before.len() && #[trigger] before[a] == j;
                            assert(from[a] == j);
                        } else {
                            assert(from[before.len() as int] == j);
                        }
                    }
                }
            }
            i = i + 1;
        }
        let r = RumorStore { kind: self.kind, list: out, update_counter: self.update_counter };
        proof {
            let sub = r.list@;
            let keep = kept(list, g, since);
            assert forall|a: int| 0 <= a < sub.len() implies key_at(sub, a) == key_at(
                list,
                from[a],
            ) by {}
            assert forall|a: int, b: int| 0 <= a < b < sub.len() implies #[trigger] key_at(sub, a)
                != #[trigger] key_at(sub, b) by {
                assert(from[a] < from[b]);
                assert(key_at(list, from[a]) != key_at(list, from[b]));
            }
            assert forall|k: Identity| has_key(sub, k) == (has_key(list, k) && keep.contains(
                k,
            )) by {
                if has_key(sub, k) {
                    let a = choose|a: int| 0 <= a < sub.len() && #[trigger] key_at(sub, a) == k;
                    assert(key_at(list, from[a]) == k);
                    lemma_model_at(list, from[a]);
                }
                if has_key(list, k) && keep.contains(k) {
                    let j = position(list, k);
                    assert(0 <= j < list.len() && key_at(list, j) == k);
                    lemma_model_at(list, j);
                    assert(keeps(list[j], g, since));
                    let a = choose|a: int| 0 <= a < from.len() && #[trigger] from[a] == j;
                    assert(key_at(sub, a) == k);
                }
            }
            assert forall|k: Identity| has_key(sub, k) implies sub[position(sub, k)].rumor@
                == list[position(list, k)].rumor@ && sub[position(sub, k)].stamp == list[position(
                list,
                k,
            )].stamp by {
                let a = position(sub, k);
                assert(0 <= a < sub.len() && key_at(sub, a) == k);
                assert(key_at(list, from[a]) == k);
                lemma_model_at(list, from[a]);
            }
            assert forall|a: int| 0 <= a < sub.len() implies (#[trigger] sub[a]).rumor@.kind()
                == self.kind && sub[a].stamp <= self.update_counter by {
                assert(sub[a].rumor@ == list[from[a]].rumor@);
            }
            assert(r@ =~= self@.restrict(keep));
            assert(r.spec_stamps() =~= self.spec_stamps().restrict(keep));
        }
        r
    }

    /// A copy of the part of the store that belongs to one service group.
    pub fn for_service_group(&self, group: &[u8]) -> (r: RumorStore)
        requires
            self.wf(),
        ensures
            r.wf(),
            r.spec_kind() == self.spec_kind(),
            r.spec_counter() == self.spec_counter(),
            r@ == self@.restrict(spec_in_group(group@)),
            r.spec_stamps() == self.spec_stamps().restrict(spec_in_group(group@)),
    {
        let r = self.subset(Some(group), None);
        proof {
            let keep = kept(self.list@, Some(group@), None);
            assert(keep =~= spec_in_group(group@));
        }
        r
    }

    /// A copy of the part of the store that has changed since the counter
    /// stood at `since`.
    pub fn changed_since(&self, since: u64) -> (r: RumorStore)
        requires
            self.wf(),
        ensures
            r.wf(),
            r.spec_kind() == self.spec_kind(),
            r.spec_counter() == self.spec_counter(),
            r@ == self@.restrict(spec_changed(self.spec_stamps(), since)),
            r.spec_stamps() == self.spec_stamps().restrict(
                spec_changed(self.spec_stamps(), since),
            ),
    {
        let r = self.subset(None, Some(since));
        proof {
            let keep = kept(self.list@, None, Some(since));
            assert(keep =~= spec_changed(self.spec_stamps(), since));
        }
        r
    }

    /// Stores a rumor of the store's kind under its identity, whatever is
    /// stored there.
    pub(crate) fn put(&mut self, rumor: Rumor)
        requires
            old(self).wf(),
            rumor@.kind() == old(self).spec_kind(),
        ensures
            final(self).wf(),
            final(self)@ == old(self)@.insert(spec_identity(rumor@), rumor@),
            final(self).spec_kind() == old(self).spec_kind(),
            final(self).spec_counter() == spec_bump(old(self).spec_counter()),
            final(self).spec_stamps() == old(self).spec_stamps().insert(
                spec_identity(rumor@),
                final(self).spec_counter(),
            ),
            spec_marked(*old(self), *final(self), true, spec_identity(rumor@)),
    {
        let group = rumor.group();
        let id = rumor.id();
        let found = self.find(group.as_slice(), id.as_slice());
        let next = if self.update_counter < u64::MAX {
            self.update_counter + 1
        } else {
            self.update_counter
        };
        match found {
            None => {
                proof {
                    lemma_model_push(self.list@, Entry { rumor, stamp: next });
                }
                self.update_counter = next;
                self.list.push(Entry { rumor, stamp: next });
            },
            Some(i) => {
                proof {
                    lemma_model_update(self.list@, i as int, Entry { rumor, stamp: next });
                }
                self.update_counter = next;
                self.list[i] = Entry { rumor, stamp: next };
            },
        }
    }

    /// The stored rumors, each once.
    pub fn list(&self) -> (r: Vec<Rumor>)
        requires
            self.wf(),
        ensures
            r@.len() == self.spec_len(),
            spec_lists(self@, spec_views(r@)),
    {
        proof {
            lemma_model_len(self.list@);
        }
        let mut out: Vec<Rumor> = Vec::new();
        let mut i: usize = 0;
        while i < self.list.len()
            invariant
                i <= self.list.len(),
                out@.len() == i,
                forall|j: int| 0 <= j < i ==> (#[trigger] out@[j])@ == self.list@[j].rumor@,
            decreases self.list.len() - i,
        {
            out.push(self.list[i].rumor.clone());
            i = i + 1;
        }
        proof {
            let v = spec_views(out@);
            let list = self.list@;
            assert forall|j: int| 0 <= j < v.len() implies self@.contains_key(
                spec_identity(#[trigger] v[j]),
            ) && self@[spec_identity(v[j])] == v[j] by {
                assert(out@[j]@ == list[j].rumor@);
                lemma_model_at(list, j);
            }
            assert forall|k: Identity| #[trigger] self@.contains_key(k) implies exists|j: int|
                0 <= j < v.len() && spec_identity(#[trigger] v[j]) == k by {
                let p = position(list, k);
                assert(0 <= p < list.len() && key_at(list, p) == k);
                assert(out@[p]@ == list[p].rumor@);
                assert(spec_identity(v[p]) == k);
            }
            assert forall|a: int, b: int| 0 <= a < b < v.len() implies spec_identity(
                #[trigger] v[a],
            ) != spec_identity(#[trigger] v[b]) by {
                assert(out@[a]@ == list[a].rumor@);
                assert(out@[b]@ == list[b].rumor@);
                assert(key_at(list, a) != key_at(list, b));
            }
        }
        out
    }
}

} // verus!
