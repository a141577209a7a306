//! The membership table: for each member id the newest record known.
//!
//! Records are merged by incarnation, then by health; a record that says
//! `Departed` is never replaced. A departure sets a member to `Departed`
//! whatever its incarnation, and leaves a tombstone where the member was
//! not known.

use vstd::prelude::*;
use crate::member::{Health, Member, MemberView, Membership, MembershipView};
use crate::rumor::{membership_group, spec_membership_group, Rumor, RumorType, RumorView};
use crate::store::{
    spec_bump, spec_identity, spec_lists, spec_marked, spec_views, Identity, InsertOutcome,
    RumorStore,
};

verus! {

/// A membership table as a mathematical value: records by member id.
pub type Members = Map<Seq<u8>, MembershipView>;

/// Whether `incoming` replaces `stored`, a record of the same member: never
/// where `stored` says `Departed`; otherwise where its incarnation is
/// higher, or the same with a stricter health.
pub open spec fn spec_wins(incoming: MembershipView, stored: MembershipView) -> bool {
    &&& stored.health != Health::Departed
    &&& (incoming.member.incarnation > stored.member.incarnation || (incoming.member.incarnation
        == stored.member.incarnation && incoming.health.rank() > stored.health.rank()))
}

/// Whether merging `x` into `m` changes `m`.
pub open spec fn spec_merges(m: Members, x: MembershipView) -> bool {
    !m.contains_key(x.member.id) || spec_wins(x, m[x.member.id])
}

/// The table after `x` was merged into it.
pub open spec fn spec_merge(m: Members, x: MembershipView) -> Members {
    if spec_merges(m, x) {
        m.insert(x.member.id, x)
    } else {
        m
    }
}

/// The record that stands for a departed member of which nothing else is
/// known.
pub open spec fn spec_tombstone(id: Seq<u8>) -> MembershipView {
    MembershipView {
        member: MemberView { id, address: Seq::empty(), incarnation: 0 },
        health: Health::Departed,
    }
}

/// The record of `id` after its departure.
pub open spec fn spec_departed(m: Members, id: Seq<u8>) -> MembershipView {
    if m.contains_key(id) {
        MembershipView { member: m[id].member, health: Health::Departed }
    } else {
        spec_tombstone(id)
    }
}

/// The table after the departure of `id`.
pub open spec fn spec_depart(m: Members, id: Seq<u8>) -> Members {
    m.insert(id, spec_departed(m, id))
}

/// The table after the records of `xs` were merged into it, first to last.
pub open spec fn spec_merge_all(m: Members, xs: Seq<MembershipView>) -> Members
    decreases xs.len(),
{
    if xs.len() == 0 {
        m
    } else {
        spec_merge(spec_merge_all(m, xs.drop_last()), xs.last())
    }
}

/// A record that says `Departed` stays as it is through any merge.
pub proof fn lemma_departed_is_terminal(m: Members, id: Seq<u8>, x: MembershipView)
    requires
        m.contains_key(id),
        m[id].health == Health::Departed,
    ensures
        spec_merge(m, x).contains_key(id),
        spec_merge(m, x)[id] == m[id],
{
}

/// After the departure of a member, no membership record of whatever
/// incarnation and health, and no sequence of such records, changes what
/// the table says of that member: it stays `Departed`.
pub proof fn lemma_departure_is_final(m: Members, id: Seq<u8>, xs: Seq<MembershipView>)
    ensures
        spec_merge_all(spec_depart(m, id), xs).contains_key(id),
        spec_merge_all(spec_depart(m, id), xs)[id] == spec_departed(m, id),
        spec_merge_all(spec_depart(m, id), xs)[id].health == Health::Departed,
    decreases xs.len(),
{
    if xs.len() > 0 {
        lemma_departure_is_final(m, id, xs.drop_last());
        lemma_departed_is_terminal(spec_merge_all(spec_depart(m, id), xs.drop_last()), id, xs.last());
    }
}

/// A second departure of the same member changes nothing.
pub proof fn lemma_depart_twice(m: Members, id: Seq<u8>)
    ensures
        spec_depart(spec_depart(m, id), id) == spec_depart(m, id),
{
    assert(spec_depart(spec_depart(m, id), id) =~= spec_depart(m, id));
}

/// Merging a record a second time changes nothing.
pub proof fn lemma_merge_twice(m: Members, x: MembershipView)
    ensures
        !spec_merges(spec_merge(m, x), x),
        spec_merge(spec_merge(m, x), x) == spec_merge(m, x),
{
}

/// A merge never lowers what the table says of a member: the incarnation
/// does not fall, and at the same incarnation the health does not get
/// milder.
pub proof fn lemma_merge_is_monotonic(m: Members, x: MembershipView, id: Seq<u8>)
    requires
        m.contains_key(id),
    ensures
        spec_merge(m, x).contains_key(id),
        spec_merge(m, x)[id].member.incarnation >= m[id].member.incarnation,
        spec_merge(m, x)[id].member.incarnation == m[id].member.incarnation ==> spec_merge(
            m,
            x,
        )[id].health.rank() >= m[id].health.rank(),
{
}

/// The table after a probe of `id` has failed on both paths: a member that
/// was `Alive` is `Suspect`, in the same incarnation; nothing else changes.
pub open spec fn spec_suspect(m: Members, id: Seq<u8>) -> Members {
    if m.contains_key(id) && m[id].health == Health::Alive {
        m.insert(id, MembershipView { member: m[id].member, health: Health::Suspect })
    } else {
        m
    }
}

/// The table after the suspicion of `id` has run out: a member that was
/// `Suspect` is `Confirmed`, in the same incarnation; nothing else changes.
pub open spec fn spec_confirm(m: Members, id: Seq<u8>) -> Members {
    if m.contains_key(id) && m[id].health == Health::Suspect {
        m.insert(id, MembershipView { member: m[id].member, health: Health::Confirmed })
    } else {
        m
    }
}

/// The table after the suspicions of `ids` have run out, first to last.
pub open spec fn spec_confirm_all(m: Members, ids: Seq<Seq<u8>>) -> Members
    decreases ids.len(),
{
    if ids.len() == 0 {
        m
    } else {
        spec_confirm(spec_confirm_all(m, ids.drop_last()), ids.last())
    }
}

/// A failed probe and a suspicion that runs out are merges: the first
/// merges the member's own record with `Suspect` where the member is
/// `Alive`, the second with `Confirmed` where it is `Suspect`.
pub proof fn lemma_detector_merges(m: Members, id: Seq<u8>)
    requires
        m.contains_key(id),
        m[id].member.id == id,
    ensures
        m[id].health == Health::Alive ==> spec_suspect(m, id) == spec_merge(
            m,
            MembershipView { member: m[id].member, health: Health::Suspect },
        ),
        m[id].health == Health::Suspect ==> spec_confirm(m, id) == spec_merge(
            m,
            MembershipView { member: m[id].member, health: Health::Confirmed },
        ),
{
}

/// A member that is suspected and announces itself `Alive` in a higher
/// incarnation is `Alive` again; in its old incarnation it stays suspected.
pub proof fn lemma_refutation(m: Members, x: MembershipView)
    requires
        m.contains_key(x.member.id),
        m[x.member.id].health == Health::Suspect || m[x.member.id].health == Health::Confirmed,
        x.health == Health::Alive,
    ensures
        x.member.incarnation > m[x.member.id].member.incarnation ==> spec_merge(m, x)[x.member.id]
            == x,
        x.member.incarnation <= m[x.member.id].member.incarnation ==> spec_merge(m, x) == m,
{
}

/// The failure detector alone never moves a member out of `Confirmed` or
/// `Departed`, and never changes an incarnation.
pub proof fn lemma_detector_keeps_outcomes(m: Members, id: Seq<u8>, other: Seq<u8>)
    requires
        m.contains_key(other),
    ensures
        spec_suspect(m, id).contains_key(other),
        spec_confirm(m, id).contains_key(other),
        spec_suspect(m, id)[other].member == m[other].member,
        spec_confirm(m, id)[other].member == m[other].member,
        spec_suspect(m, id)[other].health.rank() >= m[other].health.rank(),
        spec_confirm(m, id)[other].health.rank() >= m[other].health.rank(),
        m[other].health.rank() >= Health::Confirmed.rank() ==> spec_suspect(m, id)[other]
            == m[other] && spec_confirm(m, id)[other] == m[other],
{
}

/// A departure wins in every state and whatever the incarnation.
pub proof fn lemma_departure_wins(m: Members, id: Seq<u8>)
    ensures
        spec_depart(m, id).contains_key(id),
        spec_depart(m, id)[id].health == Health::Departed,
        m.contains_key(id) ==> spec_depart(m, id)[id].member == m[id].member,
{
}

/// Whether `xs` lists the records of `m`, each once, in some order.
pub open spec fn spec_lists_records(m: Members, xs: Seq<MembershipView>) -> bool {
    &&& forall|i: int|
        0 <= i < xs.len() ==> m.contains_key((#[trigger] xs[i]).member.id) && m[xs[i].member.id]
            == xs[i]
    &&& forall|id: Seq<u8>| #[trigger]
        m.contains_key(id) ==> exists|i: int| 0 <= i < xs.len() && (#[trigger] xs[i]).member.id == id
    &&& forall|i: int, j: int|
        0 <= i < j < xs.len() ==> (#[trigger] xs[i]).member.id != (#[trigger] xs[j]).member.id
}

/// Whether a table `m` is behind a table `src`: whatever `m` says of a
/// member, `src` says the same or something that wins over it.
pub open spec fn spec_members_behind(m: Members, src: Members) -> bool {
    forall|id: Seq<u8>| #[trigger]
        m.contains_key(id) ==> src.contains_key(id) && (m[id] == src[id] || spec_wins(
            src[id],
            m[id],
        ))
}

/// Replaying a table's records into a table that is behind it, an empty one
/// or the table itself among them, gives the table.
pub proof fn lemma_merge_all_restores(m: Members, src: Members, xs: Seq<MembershipView>)
    requires
        spec_lists_records(src, xs),
        spec_members_behind(m, src),
    ensures
        spec_merge_all(m, xs) == src,
{
    lemma_merge_some(m, src, xs, xs.len() as int);
    assert(xs.subrange(0, xs.len() as int) =~= xs);
    let got = spec_merge_all(m, xs);
    assert forall|id: Seq<u8>| got.contains_key(id) == src.contains_key(id) by {
        if src.contains_key(id) {
            let i = choose|i: int| 0 <= i < xs.len() && (#[trigger] xs[i]).member.id == id;
        }
    }
    assert forall|id: Seq<u8>| got.contains_key(id) implies got[id] == src[id] by {
        let i = choose|i: int| 0 <= i < xs.len() && (#[trigger] xs[i]).member.id == id;
    }
    assert(got =~= src);
}

/// What replaying the first `n` records of a table into a table that is
/// behind it gives: the table's records for the members of those records,
/// and what was there before for the others.
proof fn lemma_merge_some(m: Members, src: Members, xs: Seq<MembershipView>, n: int)
    requires
        spec_lists_records(src, xs),
        spec_members_behind(m, src),
        0 <= n <= xs.len(),
    ensures
        forall|id: Seq<u8>|
            #![trigger spec_merge_all(m, xs.subrange(0, n)).contains_key(id)]
            #![trigger spec_merge_all(m, xs.subrange(0, n))[id]]
            {
                let got = spec_merge_all(m, xs.subrange(0, n));
                if exists|i: int| 0 <= i < n && (#[trigger] xs[i]).member.id == id {
                    got.contains_key(id) && got[id] == src[id]
                } else {
                    got.contains_key(id) == m.contains_key(id) && (m.contains_key(id) ==> got[id]
                        == m[id])
                }
            },
    decreases n,
{
    let part = xs.subrange(0, n);
    if n > 0 {
        lemma_merge_some(m, src, xs, n - 1);
        let before = xs.subrange(0, n - 1);
        assert(part.drop_last() =~= before);
        let x = xs[n - 1];
        assert(part.last() == x);
        let held = spec_merge_all(m, before);
        let got = spec_merge_all(m, part);
        assert(got == spec_merge(held, x));
        let kx = x.member.id;
        assert(src.contains_key(kx) && src[kx] == x);
        assert(!(exists|i: int| 0 <= i < n - 1 && (#[trigger] xs[i]).member.id == kx)) by {
            if exists|i: int| 0 <= i < n - 1 && (#[trigger] xs[i]).member.id == kx {
                let i = choose|i: int| 0 <= i < n - 1 && (#[trigger] xs[i]).member.id == kx;
                assert(xs[i].member.id != xs[n - 1].member.id);
            }
        }
        assert(held.contains_key(kx) == m.contains_key(kx));
        assert(got.contains_key(kx) && got[kx] == x) by {
            if m.contains_key(kx) {
                assert(held[kx] == m[kx]);
                assert(m[kx] == src[kx] || spec_wins(src[kx], m[kx]));
            }
        }
        assert forall|id: Seq<u8>|
            #![trigger got.contains_key(id)]
            #![trigger got[id]]
            {
                if exists|i: int| 0 <= i < n && (#[trigger] xs[i]).member.id == id {
                    got.contains_key(id) && got[id] == src[id]
                } else {
                    got.contains_key(id) == m.contains_key(id) && (m.contains_key(id) ==> got[id]
                        == m[id])
                }
            } by {
            if id == kx {
                assert(xs[n - 1].member.id == id);
            } else {
                if exists|i: int| 0 <= i < n && (#[trigger] xs[i]).member.id == id {
                    let i = choose|i: int| 0 <= i < n && (#[trigger] xs[i]).member.id == id;
                    assert(i < n - 1);
                    assert(held.contains_key(id) && held[id] == src[id]);
                } else {
                    assert(!(exists|i: int| 0 <= i < n - 1 && (#[trigger] xs[i]).member.id == id))
                        by {
                        if exists|i: int| 0 <= i < n - 1 && (#[trigger] xs[i]).member.id == id {
                            let i = choose|i: int|
                                0 <= i < n - 1 && (#[trigger] xs[i]).member.id == id;
                            assert(0 <= i < n && xs[i].member.id == id);
                        }
                    }
                }
            }
        }
    } else {
        assert(part =~= Seq::<MembershipView>::empty());
    }
}

/// The record that a rumor of the membership kind holds.
pub open spec fn spec_record(r: RumorView) -> MembershipView {
    r->Membership_0
}

/// The table that a store of membership rumors stands for.
pub open spec fn spec_table(s: Map<Identity, RumorView>) -> Members {
    Map::new(
        |id: Seq<u8>| s.contains_key((spec_membership_group(), id)),
        |id: Seq<u8>| spec_record(s[(spec_membership_group(), id)]),
    )
}

/// Whether `v` lists the records of `m`, each once, in some order.
pub open spec fn spec_lists_members(m: Members, v: Seq<Membership>) -> bool {
    &&& forall|i: int|
        0 <= i < v.len() ==> m.contains_key((#[trigger] v[i])@.member.id) && m[v[i]@.member.id]
            == v[i]@
    &&& forall|id: Seq<u8>| #[trigger]
        m.contains_key(id) ==> exists|i: int| 0 <= i < v.len() && (#[trigger] v[i])@.member.id == id
    &&& forall|i: int, j: int|
        0 <= i < j < v.len() ==> (#[trigger] v[i])@.member.id != (#[trigger] v[j])@.member.id
}

/// The membership table.
pub struct MemberList {
    store: RumorStore,
}

impl View for MemberList {
    type V = Members;

    closed spec fn view(&self) -> Members {
        spec_table(self.store@)
    }
}

impl MemberList {
    /// The table's invariant.
    pub closed spec fn wf(&self) -> bool {
        &&& self.store.wf()
        &&& self.store.spec_kind() == RumorType::Member
    }

    /// How often the table has changed.
    pub closed spec fn spec_counter(&self) -> u64 {
        self.store.spec_counter()
    }

    /// The store of membership rumors behind the table.
    pub closed spec fn spec_store(&self) -> RumorStore {
        self.store
    }

    /// Every record is stored under the id of its member.
    pub proof fn lemma_keys(&self)
        requires
            self.wf(),
        ensures
            forall|id: Seq<u8>| #[trigger] self@.contains_key(id) ==> self@[id].member.id == id,
            self@ == spec_table(self.spec_store()@),
            self.spec_store().wf(),
            self.spec_store().spec_kind() == RumorType::Member,
            self.spec_store().spec_counter() == self.spec_counter(),
    {
        self.store.lemma_sound();
        assert forall|id: Seq<u8>| #[trigger] self@.contains_key(id) implies self@[id].member.id
            == id by {
            let k = (spec_membership_group(), id);
            assert(self.store@.contains_key(k));
        }
    }

    /// An empty table.
    pub fn new() -> (r: MemberList)
        ensures
            r.wf(),
            r@ == Members::empty(),
            r.spec_counter() == 0,
    {
        let r = MemberList { store: RumorStore::new(RumorType::Member) };
        assert(r@ =~= Members::empty());
        r
    }

    /// How often the table has changed.
    pub fn get_update_counter(&self) -> (r: u64)
        requires
            self.wf(),
        ensures
            r == self.spec_counter(),
    {
        self.store.get_update_counter()
    }

    /// Merges what a node says of a member into the table.
    pub fn insert(&mut self, member: Member, health: Health) -> (r: InsertOutcome)
        requires
            old(self).wf(),
        ensures
            final(self).wf(),
            r == InsertOutcome::Applied <==> spec_merges(
                old(self)@,
                MembershipView { member: member@, health },
            ),
            final(self)@ == spec_merge(old(self)@, MembershipView { member: member@, health }),
            final(self).spec_counter() == if r == InsertOutcome::Applied {
                spec_bump(old(self).spec_counter())
            } else {
                old(self).spec_counter()
            },
            spec_marked(
                old(self).spec_store(),
                final(self).spec_store(),
                r == InsertOutcome::Applied,
                (spec_membership_group(), member@.id),
            ),
    {
        let ghost x = MembershipView { member: member@, health };
        let ghost before = self.store@;
        proof {
            self.store.lemma_sound();
        }
        let r = self.store.insert(Rumor::Membership(Membership { member, health }));
        proof {
            let k = (spec_membership_group(), x.member.id);
            assert(spec_identity(RumorView::Membership(x)) == k);
            if before.contains_key(k) {
                assert(before[k].kind() == RumorType::Member);
            }
            assert(self@ =~= spec_merge(old(self)@, x));
        }
        r
    }

    /// Sets a member to `Departed`, whatever is known of it.
    ///
    /// `Applied` where that changed the table: the member was not known or
    /// not yet `Departed`.
    pub fn depart(&mut self, id: &[u8]) -> (r: InsertOutcome)
        requires
            old(self).wf(),
        ensures
            final(self).wf(),
            r == InsertOutcome::Applied <==> !(old(self)@.contains_key(id@) && old(self)@[id@].health
                == Health::Departed),
            final(self)@ == if r == InsertOutcome::Applied {
                spec_depart(old(self)@, id@)
            } else {
                old(self)@
            },
            final(self).spec_counter() == if r == InsertOutcome::Applied {
                spec_bump(old(self).spec_counter())
            } else {
                old(self).spec_counter()
            },
            spec_marked(
                old(self).spec_store(),
                final(self).spec_store(),
                r == InsertOutcome::Applied,
                (spec_membership_group(), id@),
            ),
    {
        let group = membership_group();
        proof {
            self.store.lemma_sound();
        }
        let ghost k = (spec_membership_group(), id@);
        let record = match self.store.get(group.as_slice(), id) {
            Some(Rumor::Membership(m)) => {
                assert(self.store@[k].kind() == RumorType::Member);
                if m.health == Health::Departed {
                    return InsertOutcome::Stale;
                }
                Membership { member: m.member, health: Health::Departed }
            },
            Some(_) => {
                assert(self.store@[k].kind() == RumorType::Member);
                return InsertOutcome::Stale;
            },
            None => Membership {
                member: Member { id: vstd::slice::slice_to_vec(id), address: Vec::new(), incarnation: 0 },
                health: Health::Departed,
            },
        };
        assert(record@ == spec_departed(old(self)@, id@));
        self.store.put(Rumor::Membership(record));
        assert(self@ =~= spec_depart(old(self)@, id@));
        InsertOutcome::Applied
    }

    /// Takes note that a probe of a member has failed on both paths.
    pub fn suspect(&mut self, id: &[u8]) -> (r: InsertOutcome)
        requires
            old(self).wf(),
        ensures
            final(self).wf(),
            r == InsertOutcome::Applied <==> old(self)@.contains_key(id@) && old(self)@[id@].health
                == Health::Alive,
            final(self)@ == spec_suspect(old(self)@, id@),
            spec_marked(
                old(self).spec_store(),
                final(self).spec_store(),
                r == InsertOutcome::Applied,
                (spec_membership_group(), id@),
            ),
    {
        proof {
            self.lemma_keys();
        }
        match self.get(id) {
            Some(record) => {
                if record.health == Health::Alive {
                    proof {
                        lemma_detector_merges(self@, id@);
                    }
                    self.insert(record.member, Health::Suspect)
                } else {
                    InsertOutcome::Stale
                }
            },
            None => InsertOutcome::Stale,
        }
    }

    /// Takes note that the suspicion of a member has run out.
    pub fn confirm(&mut self, id: &[u8]) -> (r: InsertOutcome)
        requires
            old(self).wf(),
        ensures
            final(self).wf(),
            r == InsertOutcome::Applied <==> old(self)@.contains_key(id@) && old(self)@[id@].health
                == Health::Suspect,
            final(self)@ == spec_confirm(old(self)@, id@),
            spec_marked(
                old(self).spec_store(),
                final(self).spec_store(),
                r == InsertOutcome::Applied,
                (spec_membership_group(), id@),
            ),
    {
        proof {
            self.lemma_keys();
        }
        match self.get(id) {
            Some(record) => {
                if record.health == Health::Suspect {
                    proof {
                        lemma_detector_merges(self@, id@);
                    }
                    self.insert(record.member, Health::Confirmed)
                } else {
                    InsertOutcome::Stale
                }
            },
            None => InsertOutcome::Stale,
        }
    }

    /// What the table says of a member.
    pub fn get(&self, id: &[u8]) -> (r: Option<Membership>)
        requires
            self.wf(),
        ensures
            r is Some <==> self@.contains_key(id@),
            r matches Some(x) ==> x@ == self@[id@],
    {
        let group = membership_group();
        proof {
            self.store.lemma_sound();
        }
        match self.store.get(group.as_slice(), id) {
            Some(Rumor::Membership(m)) => Some(m),
            Some(_) => {
                assert(self.store@[(spec_membership_group(), id@)].kind() == RumorType::Member);
                None
            },
            None => None,
        }
    }

    /// The health that the table ascribes to a member.
    pub fn health_of(&self, id: &[u8]) -> (r: Option<Health>)
        requires
            self.wf(),
        ensures
            r is Some <==> self@.contains_key(id@),
            r matches Some(h) ==> h == self@[id@].health,
    {
        match self.get(id) {
            Some(m) => Some(m.health),
            None => None,
        }
    }

    /// Whether the table knows a member.
    pub fn contains(&self, id: &[u8]) -> (r: bool)
        requires
            self.wf(),
        ensures
            r == self@.contains_key(id@),
    {
        let group = membership_group();
        self.store.contains(group.as_slice(), id)
    }

    /// The records of the table, each once.
    pub fn members(&self) -> (r: Vec<Membership>)
        requires
            self.wf(),
        ensures
            spec_lists_members(self@, r@),
    {
        let all = self.store.list();
        let ghost views = spec_views(all@);
        proof {
            self.store.lemma_sound();
        }
        let mut out: Vec<Membership> = Vec::new();
        let mut i: usize = 0;
        while i < all.len()
            invariant
                i <= all.len(),
                out@.len() == i,
                views == spec_views(all@),
                spec_lists(self.store@, views),
                self.store.sound(),
                self.store.spec_kind() == RumorType::Member,
                forall|j: int| 0 <= j < i ==> RumorView::Membership((#[trigger] out@[j])@) == views[j],
            decreases all.len() - i,
        {
            assert(self.store@.contains_key(spec_identity(views[i as int])));
            assert(views[i as int].kind() == RumorType::Member);
            match &all[i] {
                Rumor::Membership(m) => {
                    out.push(m.clone());
                },
                _ => {
                    assert(false);
                },
            }
            i = i + 1;
        }
        proof {
            assert forall|j: int| 0 <= j < out@.len() implies self@.contains_key(
                (#[trigger] out@[j])@.member.id,
            ) && self@[out@[j]@.member.id] == out@[j]@ by {
                assert(self.store@.contains_key(spec_identity(views[j])));
            }
            assert forall|id: Seq<u8>| #[trigger] self@.contains_key(id) implies exists|j: int|
                0 <= j < out@.len() && (#[trigger] out@[j])@.member.id == id by {
                let k = (spec_membership_group(), id);
                assert(self.store@.contains_key(k));
                let j = choose|j: int| 0 <= j < views.len() && spec_identity(#[trigger] views[j]) == k;
                assert(RumorView::Membership(out@[j]@) == views[j]);
            }
            assert forall|a: int, b: int| 0 <= a < b < out@.len() implies (#[trigger] out@[a])@.member.id
                != (#[trigger] out@[b])@.member.id by {
                assert(RumorView::Membership(out@[a]@) == views[a]);
                assert(RumorView::Membership(out@[b]@) == views[b]);
                assert(spec_identity(views[a]) != spec_identity(views[b]));
            }
        }
        out
    }

    /// The membership rumors behind the table.
    pub fn store(&self) -> (r: &RumorStore)
        requires
            self.wf(),
        ensures
            *r == self.spec_store(),
    {
        &self.store
    }
}

} // verus!
