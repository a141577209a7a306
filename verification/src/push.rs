//! The outbound side of the gossip exchange: to whom a node pushes in one
//! round, and what.
//!
//! Each round a node pushes to a bounded sample of its peers what has
//! changed of late in its stores. The numbers that make the sample a random
//! one come from the caller; what is proved of the choice holds whatever
//! they are.

use vstd::prelude::*;
use crate::envelope::{RumorEnvelope, RumorEnvelopeView};
use crate::member::{Health, Member, MemberView};
use crate::rumor::{Rumor, RumorType, RumorView};
use crate::server::Server;
use crate::store::{
    spec_changed, spec_identity, spec_marked, spec_views, Identity, RumorStore, Rumors,
};
use crate::wire::same_bytes;

verus! {

/// The value of the counter that lies `window` updates back.
pub open spec fn spec_since(counter: u64, window: u64) -> u64 {
    if counter >= window {
        (counter - window) as u64
    } else {
        0
    }
}

/// What a store holds that has changed within its last `window` updates.
pub open spec fn spec_recent(store: RumorStore, window: u64) -> Rumors {
    store@.restrict(spec_changed(store.spec_stamps(), spec_since(store.spec_counter(), window)))
}

/// What has just changed is recent: a rumor that the last step on a store
/// put under `k` is among what has changed within any window of one update
/// or more.
pub proof fn lemma_marked_is_recent(before: RumorStore, after: RumorStore, k: Identity, window: u64)
    requires
        spec_marked(before, after, true, k),
        after@.contains_key(k),
        window >= 1,
    ensures
        spec_recent(after, window).contains_key(k),
        spec_recent(after, window)[k] == after@[k],
{
}

/// Whether `out` holds a rumor of `kind` with the identity `k`.
pub open spec fn spec_holds(out: Seq<RumorView>, kind: RumorType, k: Identity) -> bool {
    exists|i: int| 0 <= i < out.len() && (#[trigger] out[i]).kind() == kind && spec_identity(out[i]) == k
}

/// Whether `out` lists what the stores of `kinds` hold that has changed of
/// late, each rumor once and nothing else.
pub open spec fn spec_covers(
    out: Seq<RumorView>,
    server: Server,
    kinds: Set<RumorType>,
    window: u64,
) -> bool {
    &&& forall|i: int|
        0 <= i < out.len() ==> {
            &&& kinds.contains((#[trigger] out[i]).kind())
            &&& spec_recent(server.spec_store(out[i].kind()), window).contains_key(
                spec_identity(out[i]),
            )
            &&& spec_recent(server.spec_store(out[i].kind()), window)[spec_identity(out[i])]
                == out[i]
        }
    &&& forall|kind: RumorType, k: Identity|
        kinds.contains(kind) && #[trigger] spec_recent(
            server.spec_store(kind),
            window,
        ).contains_key(k) ==> spec_holds(out, kind, k)
    &&& forall|i: int, j: int|
        0 <= i < j < out.len() ==> !((#[trigger] out[i]).kind() == (#[trigger] out[j]).kind()
            && spec_identity(out[i]) == spec_identity(out[j]))
}

/// Whether a member is one to push to: any but the node itself and the
/// departed.
pub open spec fn spec_is_peer(me: Seq<u8>, x: crate::member::MembershipView) -> bool {
    x.member.id != me && x.health != Health::Departed
}

/// Whether a member is one to probe: any but the node itself that is
/// `Alive` or `Suspect`.
pub open spec fn spec_is_probed(me: Seq<u8>, x: crate::member::MembershipView) -> bool {
    x.member.id != me && (x.health == Health::Alive || x.health == Health::Suspect)
}

/// Whether a member is a peer, or one to probe.
pub open spec fn spec_is_chosen(me: Seq<u8>, x: crate::member::MembershipView, probing: bool) -> bool {
    if probing {
        spec_is_probed(me, x)
    } else {
        spec_is_peer(me, x)
    }
}

/// Whether `chosen` is a sample of `all`: members of `all`, none of them
/// taken twice.
pub open spec fn spec_is_sample(all: Seq<MemberView>, chosen: Seq<MemberView>) -> bool {
    exists|from: Seq<int>|
        {
            &&& from.len() == chosen.len()
            &&& forall|i: int|
                0 <= i < from.len() ==> 0 <= #[trigger] from[i] < all.len() && chosen[i]
                    == all[from[i]]
            &&& forall|i: int, j: int|
                0 <= i < j < from.len() ==> #[trigger] from[i] != #[trigger] from[j]
        }
}

/// The smaller of two numbers.
pub open spec fn spec_min(a: int, b: int) -> int {
    if a <= b {
        a
    } else {
        b
    }
}

/// The views of a vector of members.
pub open spec fn spec_member_views(v: Seq<Member>) -> Seq<MemberView> {
    Seq::new(v.len(), |i: int| v[i]@)
}

/// Appends to `out` what `store`, the store of one kind, holds that has
/// changed of late.
fn append_recent(
    out: &mut Vec<Rumor>,
    store: &RumorStore,
    window: u64,
    Ghost(server): Ghost<Server>,
    Ghost(kinds): Ghost<Set<RumorType>>,
)
    requires
        store.wf(),
        *store == server.spec_store(store.spec_kind()),
        !kinds.contains(store.spec_kind()),
        spec_covers(spec_views(old(out)@), server, kinds, window),
    ensures
        spec_covers(spec_views(final(out)@), server, kinds.insert(store.spec_kind()), window),
{
    let counter = store.get_update_counter();
    let since = if counter >= window {
        counter - window
    } else {
        0
    };
    let sub = store.changed_since(since);
    let items = sub.list();
    let ghost kind = store.spec_kind();
    let ghost recent = spec_recent(*store, window);
    let ghost before = spec_views(out@);
    let ghost added = spec_views(items@);
    proof {
        sub.lemma_sound();
        assert(sub@ == recent);
        assert forall|j: int| 0 <= j < added.len() implies (#[trigger] added[j]).kind() == kind by {
            assert(sub@.contains_key(spec_identity(added[j])));
        }
    }
    let mut i: usize = 0;
    while i < items.len()
        invariant
            i <= items.len(),
            added == spec_views(items@),
            spec_views(out@) =~= before + added.subrange(0, i as int),
        decreases items.len() - i,
    {
        let ghost (held, done) = (spec_views(out@), added.subrange(0, i as int));
        out.push(items[i].clone());
        i = i + 1;
        proof {
            assert(spec_views(out@) =~= held.push(added[i - 1]));
            assert(added.subrange(0, i as int) =~= done.push(added[i - 1]));
        }
    }
    proof {
        let after = spec_views(out@);
        let n = before.len() as int;
        assert(after =~= before + added);
        let all = kinds.insert(kind);
        assert forall|a: int| 0 <= a < after.len() implies {
            &&& all.contains((#[trigger] after[a]).kind())
            &&& spec_recent(server.spec_store(after[a].kind()), window).contains_key(
                spec_identity(after[a]),
            )
            &&& spec_recent(server.spec_store(after[a].kind()), window)[spec_identity(after[a])]
                == after[a]
        } by {
            if a < n {
                assert(after[a] == before[a]);
            } else {
                assert(after[a] == added[a - n]);
                assert(recent.contains_key(spec_identity(added[a - n])));
            }
        }
        assert forall|q: RumorType, k: Identity|
            all.contains(q) && #[trigger] spec_recent(server.spec_store(q), window).contains_key(
                k,
            ) implies spec_holds(after, q, k) by {
            if q == kind {
                let j = choose|j: int| 0 <= j < added.len() && spec_identity(#[trigger] added[j]) == k;
                assert(after[n + j] == added[j]);
                assert(after[n + j].kind() == kind);
            } else {
                assert(spec_holds(before, q, k));
                let j = choose|j: int|
                    0 <= j < before.len() && (#[trigger] before[j]).kind() == q && spec_identity(
                        before[j],
                    ) == k;
                assert(after[j] == before[j]);
            }
        }
        assert forall|a: int, b: int| 0 <= a < b < after.len() implies !((#[trigger] after[a]).kind()
            == (#[trigger] after[b]).kind() && spec_identity(after[a]) == spec_identity(
            after[b],
        )) by {
            if b < n {
                assert(after[a] == before[a] && after[b] == before[b]);
            } else if a < n {
                assert(after[a] == before[a]);
                assert(after[b] == added[b - n]);
                assert(kinds.contains(before[a].kind()));
            } else {
                assert(after[a] == added[a - n]);
                assert(after[b] == added[b - n]);
            }
        }
    }
}

/// The rumors of every kind that have changed within the last `window`
/// updates of their store.
pub fn recent_rumors(server: &Server, window: u64) -> (r: Vec<Rumor>)
    requires
        server.wf(),
    ensures
        spec_covers(spec_views(r@), *server, Set::full(), window),
{
    let mut out: Vec<Rumor> = Vec::new();
    let ghost mut kinds: Set<RumorType> = Set::empty();
    proof {
        server.lemma_parts();
        server.spec_member_list().lemma_keys();
    }
    append_recent(&mut out, server.member_list().store(), window, Ghost(*server), Ghost(kinds));
    proof {
        kinds = kinds.insert(RumorType::Member);
    }
    append_recent(&mut out, server.service_store(), window, Ghost(*server), Ghost(kinds));
    proof {
        kinds = kinds.insert(RumorType::Service);
    }
    append_recent(&mut out, server.service_config_store(), window, Ghost(*server), Ghost(kinds));
    proof {
        kinds = kinds.insert(RumorType::ServiceConfig);
    }
    append_recent(&mut out, server.service_file_store(), window, Ghost(*server), Ghost(kinds));
    proof {
        kinds = kinds.insert(RumorType::ServiceFile);
    }
    append_recent(&mut out, server.election_store(), window, Ghost(*server), Ghost(kinds));
    proof {
        kinds = kinds.insert(RumorType::Election);
    }
    append_recent(&mut out, server.update_store(), window, Ghost(*server), Ghost(kinds));
    proof {
        kinds = kinds.insert(RumorType::ElectionUpdate);
    }
    append_recent(&mut out, server.departure_store(), window, Ghost(*server), Ghost(kinds));
    proof {
        kinds = kinds.insert(RumorType::Departure);
        assert(kinds =~= Set::full());
    }
    out
}

/// The datagrams of one round: one for each rumor that has changed of late
/// and has a written form, in the order of [`recent_rumors`], each sent in
/// the node's own name.
pub fn outbound(server: &Server, window: u64) -> (r: Vec<Vec<u8>>)
    requires
        server.wf(),
    ensures
        exists|rumors: Seq<RumorView>| #[trigger]
            spec_covers(rumors, *server, Set::full(), window) && r@.map_values(|b: Vec<u8>| b@)
                == spec_datagrams(server@.me.id, rumors),
{
    let rumors = recent_rumors(server, window);
    let ghost views = spec_views(rumors@);
    let mut out: Vec<Vec<u8>> = Vec::new();
    let mut i: usize = 0;
    while i < rumors.len()
        invariant
            i <= rumors.len(),
            views == spec_views(rumors@),
            out@.map_values(|b: Vec<u8>| b@) == spec_datagrams(
                server@.me.id,
                views.subrange(0, i as int),
            ),
        decreases rumors.len() - i,
    {
        let envelope = RumorEnvelope { from_id: server.member_id().clone(), kind: rumors[i].clone() };
        let ghost done = views.subrange(0, i as int);
        let ghost next = views.subrange(0, i + 1);
        proof {
            assert(next.drop_last() =~= done);
            assert(next.last() == views[i as int]);
        }
        match envelope.encode() {
            Ok(bytes) => {
                let ghost prev = out@.map_values(|b: Vec<u8>| b@);
                out.push(bytes);
                assert(out@.map_values(|b: Vec<u8>| b@) =~= prev.push(bytes@));
            },
            Err(_) => {},
        }
        i = i + 1;
    }
    proof {
        assert(views.subrange(0, rumors.len() as int) =~= views);
    }
    out
}

/// The written forms of the rumors of `rumors` that have one, each in an
/// envelope from `me`.
pub open spec fn spec_datagrams(me: Seq<u8>, rumors: Seq<RumorView>) -> Seq<Seq<u8>>
    decreases rumors.len(),
{
    if rumors.len() == 0 {
        Seq::empty()
    } else {
        let e = RumorEnvelopeView { from_id: me, kind: rumors.last() };
        let before = spec_datagrams(me, rumors.drop_last());
        if e.encodable() {
            before.push(e.encode())
        } else {
            before
        }
    }
}

/// The members of the table that are peers, or that are to be probed, each
/// once.
pub(crate) fn members_but(server: &Server, probing: bool) -> (r: Vec<Member>)
    requires
        server.wf(),
    ensures
        forall|i: int|
            0 <= i < r@.len() ==> server@.members.contains_key((#[trigger] r@[i])@.id)
                && server@.members[r@[i]@.id].member == r@[i]@ && spec_is_chosen(
                server@.me.id,
                server@.members[r@[i]@.id],
                probing,
            ),
        forall|id: Seq<u8>| #[trigger]
            server@.members.contains_key(id) && spec_is_chosen(server@.me.id, server@.members[id], probing)
                ==> exists|i: int| 0 <= i < r@.len() && (#[trigger] r@[i])@.id == id,
        forall|i: int, j: int| 0 <= i < j < r@.len() ==> (#[trigger] r@[i])@.id != (#[trigger] r@[j])@.id,
{
    proof {
        server.lemma_parts();
    }
    let all = server.member_list().members();
    let ghost table = server@.members;
    let ghost me = server@.me.id;
    let mut out: Vec<Member> = Vec::new();
    let ghost mut from: Seq<int> = Seq::empty();
    let mut i: usize = 0;
    while i < all.len()
        invariant
            i <= all.len(),
            me == server@.me.id,
            out@.len() == from.len(),
            forall|a: int|
                0 <= a < from.len() ==> 0 <= #[trigger] from[a] < i && out@[a]@ == all@[from[a]]@.member
                    && spec_is_chosen(me, all@[from[a]]@, probing),
            forall|a: int, b: int| 0 <= a < b < from.len() ==> #[trigger] from[a] < #[trigger] from[b],
            forall|j: int|
                0 <= j < i && spec_is_chosen(me, (#[trigger] all@[j])@, probing) ==> exists|a: int|
                    0 <= a < from.len() && #[trigger] from[a] == j,
        decreases all.len() - i,
    {
        let x = &all[i];
        let fit = if probing {
            x.health == Health::Alive || x.health == Health::Suspect
        } else {
            x.health != Health::Departed
        };
        if !same_bytes(x.member.id.as_slice(), server.member_id().as_slice()) && fit {
            out.push(x.member.clone());
            proof {
                let ghost before = from;
                from = from.push(i as int);
                assert forall|j: int|
                    0 <= j < i + 1 && spec_is_chosen(me, (#[trigger] all@[j])@, probing) implies exists|a: int|
                    0 <= a < from.len() && #[trigger] from[a] == j by {
                    if j < i {
                        let a = choose|a: int| 0 <= a < before.len() && #[trigger] before[a] == j;
                        assert(from[a] == j);
                    } else {
                        assert(from[before.len() as int] == j);
                    }
                }
            }
        }
        i = i + 1;
    }
    proof {
        assert forall|a: int| 0 <= a < out@.len() implies table.contains_key(
            (#[trigger] out@[a])@.id,
        ) && table[out@[a]@.id].member == out@[a]@ && spec_is_chosen(me, table[out@[a]@.id], probing) by {
            let j = from[a];
            assert(table.contains_key(all@[j]@.member.id));
        }
        assert forall|id: Seq<u8>| #[trigger]
            table.contains_key(id) && spec_is_chosen(me, table[id], probing) implies exists|a: int|
            0 <= a < out@.len() && (#[trigger] out@[a])@.id == id by {
            let j = choose|j: int| 0 <= j < all@.len() && (#[trigger] all@[j])@.member.id == id;
            assert(table[all@[j]@.member.id] == all@[j]@);
            let a = choose|a: int| 0 <= a < from.len() && #[trigger] from[a] == j;
            assert(out@[a]@.id == id);
        }
        assert forall|a: int, b: int| 0 <= a < b < out@.len() implies (#[trigger] out@[a])@.id
            != (#[trigger] out@[b])@.id by {
            assert(from[a] < from[b]);
            assert(all@[from[a]]@.member.id != all@[from[b]]@.member.id);
        }
    }
    out
}

/// The members that a node may push to: every member of the table but the
/// node itself and the departed, each once.
pub fn peers(server: &Server) -> (r: Vec<Member>)
    requires
        server.wf(),
    ensures
        forall|i: int|
            0 <= i < r@.len() ==> server@.members.contains_key((#[trigger] r@[i])@.id)
                && server@.members[r@[i]@.id].member == r@[i]@ && spec_is_peer(
                server@.me.id,
                server@.members[r@[i]@.id],
            ),
        forall|id: Seq<u8>| #[trigger]
            server@.members.contains_key(id) && spec_is_peer(server@.me.id, server@.members[id])
                ==> exists|i: int| 0 <= i < r@.len() && (#[trigger] r@[i])@.id == id,
        forall|i: int, j: int| 0 <= i < j < r@.len() ==> (#[trigger] r@[i])@.id != (#[trigger] r@[j])@.id,
{
    members_but(server, false)
}

/// Takes a sample of at most `fanout` members from `candidates`.
///
/// `picks` decides which: the sample is drawn as a shuffle draws its first
/// places, with one number of `picks` for each place, and 0 where `picks`
/// runs out. Whatever the numbers, the sample has `fanout` members, or all
/// the candidates if they are fewer, and none of them twice.
pub fn select_targets(candidates: &Vec<Member>, fanout: usize, picks: &[u64]) -> (r: Vec<Member>)
    ensures
        r@.len() == spec_min(fanout as int, candidates@.len() as int),
        spec_is_sample(spec_member_views(candidates@), spec_member_views(r@)),
{
    let n = candidates.len();
    let k = if fanout <= n {
        fanout
    } else {
        n
    };
    let mut order: Vec<usize> = Vec::new();
    let mut i: usize = 0;
    while i < n
        invariant
            i <= n,
            order@.len() == i,
            forall|a: int| 0 <= a < i ==> order@[a] == a,
        decreases n - i,
    {
        order.push(i);
        i = i + 1;
    }
    let mut out: Vec<Member> = Vec::new();
    let mut at: usize = 0;
    while at < k
        invariant
            at <= k <= n,
            n == candidates@.len(),
            order@.len() == n,
            out@.len() == at,
            forall|a: int| 0 <= a < n ==> 0 <= #[trigger] order@[a] < n,
            forall|a: int, b: int| 0 <= a < b < n ==> #[trigger] order@[a] != #[trigger] order@[b],
            forall|a: int| 0 <= a < at ==> (#[trigger] out@[a])@ == candidates@[order@[a] as int]@,
        decreases k - at,
    {
        let pick = if at < picks.len() {
            picks[at]
        } else {
            0
        };
        let span = (n - at) as u64;
        let other = at + (pick % span) as usize;
        let here = order[at];
        let there = order[other];
        order[at] = there;
        order[other] = here;
        out.push(candidates[there].clone());
        at = at + 1;
    }
    proof {
        let from = Seq::new(k as nat, |a: int| order@[a] as int);
        let all = spec_member_views(candidates@);
        let chosen = spec_member_views(out@);
        assert forall|a: int| 0 <= a < from.len() implies 0 <= #[trigger] from[a] < all.len()
            && chosen[a] == all[from[a]] by {
            assert(0 <= order@[a] < n);
        }
        assert forall|a: int, b: int| 0 <= a < b < from.len() implies #[trigger] from[a]
            != #[trigger] from[b] by {
            assert(order@[a] != order@[b]);
        }
        assert(from.len() == chosen.len());
    }
    out
}

} // verus!
