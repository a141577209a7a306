//! The state that the loops of one node share: the node's own member
//! record, the membership table, one store per kind of rumor, the blocklist
//! and the pause flag. All mutation goes through the inserts below.

use vstd::prelude::*;
use crate::id_table::IdTable;
use crate::member::{Health, Member, MemberView, Membership, MembershipView};
use crate::member_list::{
    lemma_depart_twice, spec_confirm, spec_depart, spec_merge, spec_merges, spec_suspect,
    MemberList, Members,
};
use crate::rumor::{
    spec_membership_group, Departure, DepartureView, Election, Rumor, RumorType, RumorView,
    Service, ServiceConfig, ServiceFile,
};
use crate::store::{
    spec_applies, spec_identity, spec_insert, spec_marked, spec_sound, Identity, InsertOutcome,
    RumorStore, Rumors,
};
use crate::wire::same_bytes;

verus! {

/// A node's state as a mathematical value.
pub struct ServerView {
    pub me: MemberView,
    pub members: Members,
    pub services: Rumors,
    pub service_configs: Rumors,
    pub service_files: Rumors,
    pub elections: Rumors,
    pub updates: Rumors,
    pub departures: Rumors,
    pub blocked: Set<Seq<u8>>,
    pub paused: bool,
}

/// Whether a record that a peer sent of this node itself makes the node
/// refute it: the record does not say `Alive`, it is of the node's current
/// incarnation or a later one that still has a successor, and the node has
/// not departed.
pub open spec fn spec_refutes(sv: ServerView, x: MembershipView) -> bool {
    &&& x.member.id == sv.me.id
    &&& x.health != Health::Alive
    &&& sv.me.incarnation <= x.member.incarnation < u64::MAX
    &&& !(sv.members.contains_key(sv.me.id) && sv.members[sv.me.id].health == Health::Departed)
}

/// The node's own record after it has refuted `x`: one incarnation past it.
pub open spec fn spec_refuted(sv: ServerView, x: MembershipView) -> MemberView {
    MemberView {
        id: sv.me.id,
        address: sv.me.address,
        incarnation: (x.member.incarnation + 1) as u64,
    }
}

/// Whether a membership record that a peer sent changes the node's state.
pub open spec fn spec_member_applies(sv: ServerView, x: MembershipView) -> bool {
    if x.member.id == sv.me.id {
        spec_refutes(sv, x)
    } else {
        spec_merges(sv.members, x)
    }
}

/// The state after a membership record that a peer sent.
///
/// A record of another member is merged into the table. A record of the
/// node itself is never merged: where it calls for a refutation the node
/// moves to the next incarnation and announces itself `Alive`; otherwise
/// nothing changes.
pub open spec fn spec_insert_member(sv: ServerView, x: MembershipView) -> ServerView {
    if x.member.id == sv.me.id {
        if spec_refutes(sv, x) {
            let me = spec_refuted(sv, x);
            ServerView {
                me,
                members: spec_merge(sv.members, MembershipView { member: me, health: Health::Alive }),
                ..sv
            }
        } else {
            sv
        }
    } else {
        ServerView { members: spec_merge(sv.members, x), ..sv }
    }
}

/// The state after a departure: the departure is stored, and the member is
/// `Departed` from then on.
pub open spec fn spec_insert_departure(sv: ServerView, d: DepartureView) -> ServerView {
    ServerView {
        departures: spec_insert(RumorType::Departure, sv.departures, RumorView::Departure(d)),
        members: spec_depart(sv.members, d.member_id),
        ..sv
    }
}

/// Whether a rumor changes the state.
pub open spec fn spec_rumor_applies(sv: ServerView, r: RumorView) -> bool {
    match r {
        RumorView::Membership(x) => spec_member_applies(sv, x),
        RumorView::Service(_) => spec_applies(RumorType::Service, sv.services, r),
        RumorView::ServiceConfig(_) => spec_applies(
            RumorType::ServiceConfig,
            sv.service_configs,
            r,
        ),
        RumorView::ServiceFile(_) => spec_applies(RumorType::ServiceFile, sv.service_files, r),
        RumorView::Election(_) => spec_applies(RumorType::Election, sv.elections, r),
        RumorView::ElectionUpdate(_) => spec_applies(RumorType::ElectionUpdate, sv.updates, r),
        RumorView::Departure(_) => spec_applies(RumorType::Departure, sv.departures, r),
    }
}

/// The state after a rumor: it goes to the store of its kind.
pub open spec fn spec_insert_rumor(sv: ServerView, r: RumorView) -> ServerView {
    match r {
        RumorView::Membership(x) => spec_insert_member(sv, x),
        RumorView::Service(_) => ServerView {
            services: spec_insert(RumorType::Service, sv.services, r),
            ..sv
        },
        RumorView::ServiceConfig(_) => ServerView {
            service_configs: spec_insert(RumorType::ServiceConfig, sv.service_configs, r),
            ..sv
        },
        RumorView::ServiceFile(_) => ServerView {
            service_files: spec_insert(RumorType::ServiceFile, sv.service_files, r),
            ..sv
        },
        RumorView::Election(_) => ServerView {
            elections: spec_insert(RumorType::Election, sv.elections, r),
            ..sv
        },
        RumorView::ElectionUpdate(_) => ServerView {
            updates: spec_insert(RumorType::ElectionUpdate, sv.updates, r),
            ..sv
        },
        RumorView::Departure(d) => spec_insert_departure(sv, d),
    }
}

/// The state after the membership records of `xs` came in from peers,
/// first to last.
pub open spec fn spec_insert_members(sv: ServerView, xs: Seq<MembershipView>) -> ServerView
    decreases xs.len(),
{
    if xs.len() == 0 {
        sv
    } else {
        spec_insert_member(spec_insert_members(sv, xs.drop_last()), xs.last())
    }
}

/// Departure finality: once a node has taken in the departure of a member,
/// no membership record that comes in afterwards, of whatever incarnation
/// and health, and no sequence of such records, changes what the node says
/// of that member. This holds of the node itself too: a node that has
/// departed refutes nothing.
pub proof fn lemma_departure_is_final(sv: ServerView, d: DepartureView, xs: Seq<MembershipView>)
    ensures
        spec_insert_members(spec_insert_departure(sv, d), xs).members.contains_key(d.member_id),
        spec_insert_members(spec_insert_departure(sv, d), xs).members[d.member_id]
            == spec_insert_departure(sv, d).members[d.member_id],
        spec_insert_members(spec_insert_departure(sv, d), xs).members[d.member_id].health
            == Health::Departed,
    decreases xs.len(),
{
    if xs.len() > 0 {
        lemma_departure_is_final(sv, d, xs.drop_last());
    }
}

/// The membership table as a store of membership rumors.
pub open spec fn spec_member_store(m: Members) -> Rumors {
    Map::new(
        |k: Identity| k.0 == spec_membership_group() && m.contains_key(k.1),
        |k: Identity| RumorView::Membership(m[k.1]),
    )
}

/// What a node holds of one kind of rumor.
pub open spec fn spec_held(sv: ServerView, kind: RumorType) -> Rumors {
    match kind {
        RumorType::Member => spec_member_store(sv.members),
        RumorType::Service => sv.services,
        RumorType::ServiceConfig => sv.service_configs,
        RumorType::ServiceFile => sv.service_files,
        RumorType::Election => sv.elections,
        RumorType::ElectionUpdate => sv.updates,
        RumorType::Departure => sv.departures,
    }
}

/// Whether the member of every departure of `departures` is `Departed` in
/// the table `members`.
pub open spec fn spec_departures_hold(departures: Rumors, members: Members) -> bool {
    forall|k: Identity| #[trigger]
        departures.contains_key(k) ==> members.contains_key(k.1) && members[k.1].health
            == Health::Departed
}

/// What holds of the state of every node: each store holds rumors of its
/// own kind under their own identities, the table holds each record under
/// the id of its member, and the member of every departure that the node
/// holds is `Departed` in its table.
pub open spec fn spec_view_sound(sv: ServerView) -> bool {
    &&& spec_departures_hold(sv.departures, sv.members)
    &&& forall|id: Seq<u8>| #[trigger] sv.members.contains_key(id) ==> sv.members[id].member.id == id
    &&& spec_sound(RumorType::Service, sv.services)
    &&& spec_sound(RumorType::ServiceConfig, sv.service_configs)
    &&& spec_sound(RumorType::ServiceFile, sv.service_files)
    &&& spec_sound(RumorType::Election, sv.elections)
    &&& spec_sound(RumorType::ElectionUpdate, sv.updates)
    &&& spec_sound(RumorType::Departure, sv.departures)
}

/// A departure that is stale is ignored: the node holds it already, so its
/// member is `Departed` already, and nothing changes.
pub proof fn lemma_stale_departure_is_ignored(sv: ServerView, d: DepartureView)
    requires
        spec_view_sound(sv),
        !spec_rumor_applies(sv, RumorView::Departure(d)),
    ensures
        spec_insert_departure(sv, d) == sv,
{
    let k = spec_identity(RumorView::Departure(d));
    assert(sv.departures.contains_key(k));
    assert(spec_depart(sv.members, d.member_id) =~= sv.members);
}

/// The state after a rumor was read back from a snapshot: it is taken in
/// by the rule that holds for live traffic, so that a departure makes its
/// member `Departed` here too. The one difference is a membership record of
/// the node itself: the snapshot is the node's own memory, not the word of
/// a peer, so the record is merged and not refuted.
pub open spec fn spec_restore(sv: ServerView, r: RumorView) -> ServerView {
    match r {
        RumorView::Membership(x) => ServerView { members: spec_merge(sv.members, x), ..sv },
        _ => spec_insert_rumor(sv, r),
    }
}

/// The state after the rumors of `items` were read back from a snapshot,
/// first to last.
pub open spec fn spec_restore_all(sv: ServerView, items: Seq<RumorView>) -> ServerView
    decreases items.len(),
{
    if items.len() == 0 {
        sv
    } else {
        spec_restore(spec_restore_all(sv, items.drop_last()), items.last())
    }
}

/// The state of a node that has just started as `me`: it knows itself as
/// `Alive` and nothing else.
pub open spec fn spec_fresh(me: MemberView) -> ServerView {
    ServerView {
        me,
        members: Members::empty().insert(me.id, MembershipView { member: me, health: Health::Alive }),
        services: Rumors::empty(),
        service_configs: Rumors::empty(),
        service_files: Rumors::empty(),
        elections: Rumors::empty(),
        updates: Rumors::empty(),
        departures: Rumors::empty(),
        blocked: Set::empty(),
        paused: false,
    }
}

/// The identity under which the record of a member is stored.
pub open spec fn spec_member_key(id: Seq<u8>) -> Identity {
    (spec_membership_group(), id)
}

/// Whether a departure of `id` changes the table `m`: not where the member
/// is `Departed` already.
pub open spec fn spec_departs(m: Members, id: Seq<u8>) -> bool {
    !(m.contains_key(id) && m[id].health == Health::Departed)
}

/// Whether a membership record that a peer sent changes the table: where it
/// is of another member, as the merge says; where it is of the node itself,
/// where the node refutes it and the table takes the node's new record.
pub open spec fn spec_member_changes(sv: ServerView, x: MembershipView) -> bool {
    if x.member.id == sv.me.id {
        spec_refutes(sv, x) && spec_merges(
            sv.members,
            MembershipView { member: spec_refuted(sv, x), health: Health::Alive },
        )
    } else {
        spec_merges(sv.members, x)
    }
}

/// Whether every store of a node but those of `kinds` is as it was: what
/// it holds, its counter and its stamps.
pub open spec fn spec_stores_kept(before: Server, after: Server, kinds: Set<RumorType>) -> bool {
    forall|kind: RumorType|
        !kinds.contains(kind) ==> #[trigger] after.spec_store(kind) == before.spec_store(kind)
}

/// How a step on the membership table marks the stores of a node: the
/// store of membership rumors is marked under the member's identity, and
/// every other store is as it was.
pub open spec fn spec_member_marks(before: Server, after: Server, changed: bool, id: Seq<u8>) -> bool {
    &&& spec_marked(
        before.spec_store(RumorType::Member),
        after.spec_store(RumorType::Member),
        changed,
        spec_member_key(id),
    )
    &&& spec_stores_kept(before, after, set![RumorType::Member])
}

/// How taking in the rumor `r` marks the stores of a node. The store of the
/// rumor's kind is marked under the rumor's identity where the rumor was
/// applied; a departure marks the store of membership rumors as well, where
/// it changed the table; every other store is as it was.
pub open spec fn spec_rumor_marks(before: Server, after: Server, r: RumorView) -> bool {
    match r {
        RumorView::Membership(x) => spec_member_marks(
            before,
            after,
            spec_member_changes(before@, x),
            x.member.id,
        ),
        RumorView::Departure(d) => {
            &&& spec_marked(
                before.spec_store(RumorType::Member),
                after.spec_store(RumorType::Member),
                spec_departs(before@.members, d.member_id),
                spec_member_key(d.member_id),
            )
            &&& spec_marked(
                before.spec_store(RumorType::Departure),
                after.spec_store(RumorType::Departure),
                spec_rumor_applies(before@, r),
                spec_identity(r),
            )
            &&& spec_stores_kept(before, after, set![RumorType::Member, RumorType::Departure])
        },
        _ => {
            &&& spec_marked(
                before.spec_store(r.kind()),
                after.spec_store(r.kind()),
                spec_rumor_applies(before@, r),
                spec_identity(r),
            )
            &&& spec_stores_kept(before, after, set![r.kind()])
        },
    }
}

/// How reading the rumor `r` back from a snapshot marks the stores of a
/// node: as taking it in does, but that a membership record is merged
/// whoever it is of.
pub open spec fn spec_restore_marks(before: Server, after: Server, r: RumorView) -> bool {
    match r {
        RumorView::Membership(x) => spec_member_marks(
            before,
            after,
            spec_merges(before@.members, x),
            x.member.id,
        ),
        _ => spec_rumor_marks(before, after, r),
    }
}

/// The state of one node.
pub struct Server {
    member: Member,
    member_list: MemberList,
    service_store: RumorStore,
    service_config_store: RumorStore,
    service_file_store: RumorStore,
    election_store: RumorStore,
    update_store: RumorStore,
    departure_store: RumorStore,
    block_list: IdTable,
    paused: bool,
}

impl View for Server {
    type V = ServerView;

    closed spec fn view(&self) -> ServerView {
        ServerView {
            me: self.member@,
            members: self.member_list@,
            services: self.service_store@,
            service_configs: self.service_config_store@,
            service_files: self.service_file_store@,
            elections: self.election_store@,
            updates: self.update_store@,
            departures: self.departure_store@,
            blocked: self.block_list@.dom(),
            paused: self.paused,
        }
    }
}

impl Server {
    /// The state's invariant: every part is well formed, every store holds
    /// its own kind, and the member of every departure is `Departed`.
    pub closed spec fn wf(&self) -> bool {
        &&& self.member_list.wf()
        &&& self.service_store.wf()
        &&& self.service_store.spec_kind() == RumorType::Service
        &&& self.service_config_store.wf()
        &&& self.service_config_store.spec_kind() == RumorType::ServiceConfig
        &&& self.service_file_store.wf()
        &&& self.service_file_store.spec_kind() == RumorType::ServiceFile
        &&& self.election_store.wf()
        &&& self.election_store.spec_kind() == RumorType::Election
        &&& self.update_store.wf()
        &&& self.update_store.spec_kind() == RumorType::ElectionUpdate
        &&& self.departure_store.wf()
        &&& self.departure_store.spec_kind() == RumorType::Departure
        &&& self.block_list.wf()
        &&& spec_departures_hold(self.departure_store@, self.member_list@)
    }

    /// The membership table.
    pub closed spec fn spec_member_list(&self) -> MemberList {
        self.member_list
    }

    /// The store of a kind of rumor other than membership.
    pub closed spec fn spec_store(&self, kind: RumorType) -> RumorStore {
        match kind {
            RumorType::Member => self.member_list.spec_store(),
            RumorType::Service => self.service_store,
            RumorType::ServiceConfig => self.service_config_store,
            RumorType::ServiceFile => self.service_file_store,
            RumorType::Election => self.election_store,
            RumorType::ElectionUpdate => self.update_store,
            RumorType::Departure => self.departure_store,
        }
    }

    /// What the stores behind the state hold is what the state says.
    pub proof fn lemma_parts(&self)
        requires
            self.wf(),
        ensures
            self.spec_member_list().wf(),
            self.spec_member_list()@ == self@.members,
            self.spec_store(RumorType::Member) == self.spec_member_list().spec_store(),
            forall|kind: RumorType|
                (#[trigger] self.spec_store(kind)).wf() && self.spec_store(kind).spec_kind()
                    == kind,
            self.spec_store(RumorType::Service)@ == self@.services,
            self.spec_store(RumorType::ServiceConfig)@ == self@.service_configs,
            self.spec_store(RumorType::ServiceFile)@ == self@.service_files,
            self.spec_store(RumorType::Election)@ == self@.elections,
            self.spec_store(RumorType::ElectionUpdate)@ == self@.updates,
            self.spec_store(RumorType::Departure)@ == self@.departures,
            forall|kind: RumorType| (#[trigger] self.spec_store(kind))@ == spec_held(self@, kind),
            spec_view_sound(self@),
    {
        self.member_list.lemma_keys();
        self.member_list.spec_store().lemma_sound();
        self.service_store.lemma_sound();
        self.service_config_store.lemma_sound();
        self.service_file_store.lemma_sound();
        self.election_store.lemma_sound();
        self.update_store.lemma_sound();
        self.departure_store.lemma_sound();
        let store = self.member_list.spec_store()@;
        let table = self@.members;
        assert forall|k: Identity| store.contains_key(k) == spec_member_store(table).contains_key(
            k,
        ) by {
            if store.contains_key(k) {
                assert(store[k].kind() == RumorType::Member);
                assert(spec_identity(store[k]) == k);
            }
        }
        assert forall|k: Identity| store.contains_key(k) implies store[k] == spec_member_store(
            table,
        )[k] by {
            assert(store[k].kind() == RumorType::Member);
            assert(spec_identity(store[k]) == k);
        }
        assert(store =~= spec_member_store(table));
    }

    /// The state of a node that starts as `member`.
    pub fn new(member: Member) -> (r: Server)
        ensures
            r.wf(),
            r@ == spec_fresh(member@),
    {
        let mut member_list = MemberList::new();
        member_list.insert(member.clone(), Health::Alive);
        let r = Server {
            member,
            member_list,
            service_store: RumorStore::new(RumorType::Service),
            service_config_store: RumorStore::new(RumorType::ServiceConfig),
            service_file_store: RumorStore::new(RumorType::ServiceFile),
            election_store: RumorStore::new(RumorType::Election),
            update_store: RumorStore::new(RumorType::ElectionUpdate),
            departure_store: RumorStore::new(RumorType::Departure),
            block_list: IdTable::new(),
            paused: false,
        };
        assert(r@.blocked =~= Set::<Seq<u8>>::empty());
        r
    }

    /// The node's own record.
    pub fn member(&self) -> (r: &Member)
        ensures
            r@ == self@.me,
    {
        &self.member
    }

    /// The node's id.
    pub fn member_id(&self) -> (r: &Vec<u8>)
        ensures
            r@ == self@.me.id,
    {
        &self.member.id
    }

    /// The address at which gossip reaches the node.
    pub fn gossip_addr(&self) -> (r: &Vec<u8>)
        ensures
            r@ == self@.me.address,
    {
        &self.member.address
    }

    /// Whether the node has been told to stand still.
    pub fn paused(&self) -> (r: bool)
        ensures
            r == self@.paused,
    {
        self.paused
    }

    /// Tells the node to stand still.
    pub fn pause(&mut self)
        requires
            old(self).wf(),
        ensures
            final(self).wf(),
            final(self)@ == (ServerView { paused: true, ..old(self)@ }),
            spec_stores_kept(*old(self), *final(self), Set::empty()),
    {
        self.paused = true;
    }

    /// Lets the node go on.
    pub fn resume(&mut self)
        requires
            old(self).wf(),
        ensures
            final(self).wf(),
            final(self)@ == (ServerView { paused: false, ..old(self)@ }),
            spec_stores_kept(*old(self), *final(self), Set::empty()),
    {
        self.paused = false;
    }

    /// Whether traffic from a member is to be dropped.
    pub fn is_member_blocked(&self, id: &[u8]) -> (r: bool)
        requires
            self.wf(),
        ensures
            r == self@.blocked.contains(id@),
    {
        self.block_list.contains(id)
    }

    /// Drops traffic from a member from now on.
    pub fn block_member(&mut self, id: &[u8])
        requires
            old(self).wf(),
        ensures
            final(self).wf(),
            final(self)@ == (ServerView { blocked: old(self)@.blocked.insert(id@), ..old(self)@ }),
            spec_stores_kept(*old(self), *final(self), Set::empty()),
    {
        self.block_list.set(id, 0);
        assert(self@.blocked =~= old(self)@.blocked.insert(id@));
    }

    /// Takes traffic from a member again.
    pub fn unblock_member(&mut self, id: &[u8])
        requires
            old(self).wf(),
        ensures
            final(self).wf(),
            final(self)@ == (ServerView { blocked: old(self)@.blocked.remove(id@), ..old(self)@ }),
            spec_stores_kept(*old(self), *final(self), Set::empty()),
    {
        self.block_list.remove(id);
        assert(self@.blocked =~= old(self)@.blocked.remove(id@));
    }

    /// The membership table.
    pub fn member_list(&self) -> (r: &MemberList)
        ensures
            *r == self.spec_member_list(),
    {
        &self.member_list
    }

    /// The store of service rumors.
    pub fn service_store(&self) -> (r: &RumorStore)
        ensures
            *r == self.spec_store(RumorType::Service),
    {
        &self.service_store
    }

    /// The store of service configurations.
    pub fn service_config_store(&self) -> (r: &RumorStore)
        ensures
            *r == self.spec_store(RumorType::ServiceConfig),
    {
        &self.service_config_store
    }

    /// The store of service files.
    pub fn service_file_store(&self) -> (r: &RumorStore)
        ensures
            *r == self.spec_store(RumorType::ServiceFile),
    {
        &self.service_file_store
    }

    /// The store of elections.
    pub fn election_store(&self) -> (r: &RumorStore)
        ensures
            *r == self.spec_store(RumorType::Election),
    {
        &self.election_store
    }

    /// The store of election updates.
    pub fn update_store(&self) -> (r: &RumorStore)
        ensures
            *r == self.spec_store(RumorType::ElectionUpdate),
    {
        &self.update_store
    }

    /// The store of departures.
    pub fn departure_store(&self) -> (r: &RumorStore)
        ensures
            *r == self.spec_store(RumorType::Departure),
    {
        &self.departure_store
    }

    /// Merges what the node itself has found out of a member into the table.
    pub fn insert_member(&mut self, member: Member, health: Health) -> (r: InsertOutcome)
        requires
            old(self).wf(),
        ensures
            final(self).wf(),
            r == InsertOutcome::Applied <==> spec_merges(
                old(self)@.members,
                MembershipView { member: member@, health },
            ),
            final(self)@ == (ServerView {
                members: spec_merge(old(self)@.members, MembershipView { member: member@, health }),
                ..old(self)@
            }),
            spec_member_marks(*old(self), *final(self), r == InsertOutcome::Applied, member@.id),
    {
        self.member_list.insert(member, health)
    }

    /// Takes note that a probe of a member has failed on both paths: a
    /// member that was `Alive` is `Suspect` from now on.
    pub fn suspect(&mut self, id: &[u8]) -> (r: InsertOutcome)
        requires
            old(self).wf(),
        ensures
            final(self).wf(),
            r == InsertOutcome::Applied <==> old(self)@.members.contains_key(id@) && old(
                self,
            )@.members[id@].health == Health::Alive,
            final(self)@ == (ServerView {
                members: spec_suspect(old(self)@.members, id@),
                ..old(self)@
            }),
            spec_member_marks(*old(self), *final(self), r == InsertOutcome::Applied, id@),
    {
        self.member_list.suspect(id)
    }

    /// Takes note that the suspicion of a member has run out: a member that
    /// was `Suspect` is `Confirmed` from now on.
    pub fn confirm(&mut self, id: &[u8]) -> (r: InsertOutcome)
        requires
            old(self).wf(),
        ensures
            final(self).wf(),
            r == InsertOutcome::Applied <==> old(self)@.members.contains_key(id@) && old(
                self,
            )@.members[id@].health == Health::Suspect,
            final(self)@ == (ServerView {
                members: spec_confirm(old(self)@.members, id@),
                ..old(self)@
            }),
            spec_member_marks(*old(self), *final(self), r == InsertOutcome::Applied, id@),
    {
        self.member_list.confirm(id)
    }

    /// Takes in a membership record that a peer sent.
    pub fn insert_member_from_rumor(&mut self, member: Member, health: Health) -> (r:
        InsertOutcome)
        requires
            old(self).wf(),
        ensures
            final(self).wf(),
            r == InsertOutcome::Applied <==> spec_member_applies(
                old(self)@,
                MembershipView { member: member@, health },
            ),
            final(self)@ == spec_insert_member(
                old(self)@,
                MembershipView { member: member@, health },
            ),
            spec_rumor_marks(
                *old(self),
                *final(self),
                RumorView::Membership(MembershipView { member: member@, health }),
            ),
    {
        if !same_bytes(member.id.as_slice(), self.member.id.as_slice()) {
            return self.member_list.insert(member, health);
        }
        if health == Health::Alive || member.incarnation < self.member.incarnation
            || member.incarnation == u64::MAX {
            return InsertOutcome::Stale;
        }
        match self.member_list.health_of(self.member.id.as_slice()) {
            Some(Health::Departed) => {
                return InsertOutcome::Stale;
            },
            _ => {},
        }
        self.member.incarnation = member.incarnation + 1;
        self.member_list.insert(self.member.clone(), Health::Alive);
        InsertOutcome::Applied
    }

    /// Takes in a service rumor.
    pub fn insert_service(&mut self, service: Service) -> (r: InsertOutcome)
        requires
            old(self).wf(),
        ensures
            final(self).wf(),
            r == InsertOutcome::Applied <==> spec_rumor_applies(
                old(self)@,
                RumorView::Service(service@),
            ),
            final(self)@ == spec_insert_rumor(old(self)@, RumorView::Service(service@)),
            spec_rumor_marks(*old(self), *final(self), RumorView::Service(service@)),
    {
        self.service_store.insert(Rumor::Service(service))
    }

    /// Takes in a service configuration.
    pub fn insert_service_config(&mut self, config: ServiceConfig) -> (r: InsertOutcome)
        requires
            old(self).wf(),
        ensures
            final(self).wf(),
            r == InsertOutcome::Applied <==> spec_rumor_applies(
                old(self)@,
                RumorView::ServiceConfig(config@),
            ),
            final(self)@ == spec_insert_rumor(old(self)@, RumorView::ServiceConfig(config@)),
            spec_rumor_marks(*old(self), *final(self), RumorView::ServiceConfig(config@)),
    {
        self.service_config_store.insert(Rumor::ServiceConfig(config))
    }

    /// Takes in a service file.
    pub fn insert_service_file(&mut self, file: ServiceFile) -> (r: InsertOutcome)
        requires
            old(self).wf(),
        ensures
            final(self).wf(),
            r == InsertOutcome::Applied <==> spec_rumor_applies(
                old(self)@,
                RumorView::ServiceFile(file@),
            ),
            final(self)@ == spec_insert_rumor(old(self)@, RumorView::ServiceFile(file@)),
            spec_rumor_marks(*old(self), *final(self), RumorView::ServiceFile(file@)),
    {
        self.service_file_store.insert(Rumor::ServiceFile(file))
    }

    /// Takes in a ballot.
    pub fn insert_election(&mut self, election: Election) -> (r: InsertOutcome)
        requires
            old(self).wf(),
        ensures
            final(self).wf(),
            r == InsertOutcome::Applied <==> spec_rumor_applies(
                old(self)@,
                RumorView::Election(election@),
            ),
            final(self)@ == spec_insert_rumor(old(self)@, RumorView::Election(election@)),
            spec_rumor_marks(*old(self), *final(self), RumorView::Election(election@)),
    {
        self.election_store.insert(Rumor::Election(election))
    }

    /// Takes in the announcement of an election's result.
    pub fn insert_update_election(&mut self, election: Election) -> (r: InsertOutcome)
        requires
            old(self).wf(),
        ensures
            final(self).wf(),
            r == InsertOutcome::Applied <==> spec_rumor_applies(
                old(self)@,
                RumorView::ElectionUpdate(election@),
            ),
            final(self)@ == spec_insert_rumor(old(self)@, RumorView::ElectionUpdate(election@)),
            spec_rumor_marks(*old(self), *final(self), RumorView::ElectionUpdate(election@)),
    {
        self.update_store.insert(Rumor::ElectionUpdate(election))
    }

    /// Takes in a departure: stores it, and sets the member to `Departed`.
    pub fn insert_departure(&mut self, departure: Departure) -> (r: InsertOutcome)
        requires
            old(self).wf(),
        ensures
            final(self).wf(),
            r == InsertOutcome::Applied <==> spec_rumor_applies(
                old(self)@,
                RumorView::Departure(departure@),
            ),
            final(self)@ == spec_insert_rumor(old(self)@, RumorView::Departure(departure@)),
            spec_rumor_marks(*old(self), *final(self), RumorView::Departure(departure@)),
    {
        proof {
            lemma_depart_twice(old(self)@.members, departure@.member_id);
        }
        let changed = self.member_list.depart(departure.member_id.as_slice());
        proof {
            if changed == InsertOutcome::Stale {
                assert(self@.members =~= spec_depart(old(self)@.members, departure@.member_id));
            }
        }
        self.departure_store.insert(Rumor::Departure(departure))
    }

    /// Takes in a rumor that was read back from a snapshot, by the rule
    /// that holds for live traffic: a departure makes its member `Departed`.
    /// A membership record is merged whoever it is of.
    pub fn restore(&mut self, rumor: Rumor)
        requires
            old(self).wf(),
        ensures
            final(self).wf(),
            final(self)@ == spec_restore(old(self)@, rumor@),
            spec_restore_marks(*old(self), *final(self), rumor@),
    {
        match rumor {
            Rumor::Membership(m) => {
                self.member_list.insert(m.member, m.health);
            },
            Rumor::Service(s) => {
                self.insert_service(s);
            },
            Rumor::ServiceConfig(c) => {
                self.insert_service_config(c);
            },
            Rumor::ServiceFile(f) => {
                self.insert_service_file(f);
            },
            Rumor::Election(e) => {
                self.insert_election(e);
            },
            Rumor::ElectionUpdate(e) => {
                self.insert_update_election(e);
            },
            Rumor::Departure(d) => {
                self.insert_departure(d);
            },
        }
    }

    /// Takes in a rumor of whatever kind.
    pub fn insert_rumor(&mut self, rumor: Rumor) -> (r: InsertOutcome)
        requires
            old(self).wf(),
        ensures
            final(self).wf(),
            r == InsertOutcome::Applied <==> spec_rumor_applies(old(self)@, rumor@),
            final(self)@ == spec_insert_rumor(old(self)@, rumor@),
            spec_rumor_marks(*old(self), *final(self), rumor@),
    {
        match rumor {
            Rumor::Membership(m) => self.insert_member_from_rumor(m.member, m.health),
            Rumor::Service(s) => self.insert_service(s),
            Rumor::ServiceConfig(c) => self.insert_service_config(c),
            Rumor::ServiceFile(f) => self.insert_service_file(f),
            Rumor::Election(e) => self.insert_election(e),
            Rumor::ElectionUpdate(e) => self.insert_update_election(e),
            Rumor::Departure(d) => self.insert_departure(d),
        }
    }
}

} // verus!
