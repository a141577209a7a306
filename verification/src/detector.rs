//! The failure detector: whom to probe next, how one probe runs, and when
//! a suspicion has lasted long enough.
//!
//! The detector does no input or output and reads no clock. Its caller
//! sends what it is told to send, and tells the detector of every ack and
//! of the time.

use vstd::prelude::*;
use crate::id_table::IdTable;
use crate::member::{Health, Member, MemberView};
use crate::member_list::spec_confirm_all;
use crate::probe::{Probe, ProbeKind, ProbeView};
use crate::push::{
    members_but, select_targets, spec_is_probed, spec_is_sample, spec_member_views,
};
use crate::rumor::RumorType;
use crate::server::{spec_member_marks, spec_stores_kept, Server, ServerView};
use crate::store::InsertOutcome;
use crate::wire::same_bytes;

verus! {

/// How long the detector waits, in milliseconds.
#[derive(Clone, Copy, Debug, PartialEq, Eq, Structural)]
pub struct Timing {
    /// For the ack of a ping.
    pub ping_ms: u64,
    /// For an ack by way of a relay.
    pub pingreq_ms: u64,
    /// Before a suspected member counts as confirmed dead.
    pub suspicion_ms: u64,
}

/// The later of `now + wait` and the last moment there is.
pub open spec fn spec_deadline(now: u64, wait: u64) -> u64 {
    if now + wait <= u64::MAX {
        (now + wait) as u64
    } else {
        u64::MAX
    }
}

/// How far the probe of one round has come.
#[derive(Debug)]
pub enum Phase {
    /// No probe is under way.
    Idle,
    /// A ping was sent to `target`; its ack is awaited until `deadline`.
    Direct { target: Vec<u8>, round: u64, deadline: u64 },
    /// The ping was not answered and relays were asked; an ack by way of
    /// one of them is awaited until `deadline`.
    Indirect { target: Vec<u8>, round: u64, deadline: u64 },
}

/// A [`Phase`] as a mathematical value.
pub enum PhaseView {
    Idle,
    Direct { target: Seq<u8>, round: u64, deadline: u64 },
    Indirect { target: Seq<u8>, round: u64, deadline: u64 },
}

impl View for Phase {
    type V = PhaseView;

    open spec fn view(&self) -> PhaseView {
        match self {
            Phase::Idle => PhaseView::Idle,
            Phase::Direct { target, round, deadline } => PhaseView::Direct {
                target: target@,
                round: *round,
                deadline: *deadline,
            },
            Phase::Indirect { target, round, deadline } => PhaseView::Indirect {
                target: target@,
                round: *round,
                deadline: *deadline,
            },
        }
    }
}

/// What the caller is to do after the detector was told the time.
#[derive(Debug)]
pub enum Verdict {
    /// Nothing: no probe is under way, or its deadline has not come.
    Wait,
    /// The ping to `target` was not answered in time: ask relays to ping it.
    AskRelays { target: Vec<u8>, round: u64 },
    /// Neither path led to `target` in time: it is to be suspected.
    Failed { target: Vec<u8> },
}

/// A [`Verdict`] as a mathematical value.
pub enum VerdictView {
    Wait,
    AskRelays { target: Seq<u8>, round: u64 },
    Failed { target: Seq<u8> },
}

impl View for Verdict {
    type V = VerdictView;

    open spec fn view(&self) -> VerdictView {
        match self {
            Verdict::Wait => VerdictView::Wait,
            Verdict::AskRelays { target, round } => VerdictView::AskRelays {
                target: target@,
                round: *round,
            },
            Verdict::Failed { target } => VerdictView::Failed { target: target@ },
        }
    }
}

/// The phase after a ping was sent to `target` at `now`, in a round of the
/// number `round`.
pub open spec fn spec_begin(target: Seq<u8>, round: u64, now: u64, timing: Timing) -> PhaseView {
    PhaseView::Direct { target, round, deadline: spec_deadline(now, timing.ping_ms) }
}

/// Whether an ack from `from` for the round `round` is the one awaited.
pub open spec fn spec_awaits(phase: PhaseView, from: Seq<u8>, round: u64) -> bool {
    match phase {
        PhaseView::Idle => false,
        PhaseView::Direct { target, round: r, .. } => target == from && r == round,
        PhaseView::Indirect { target, round: r, .. } => target == from && r == round,
    }
}

/// The phase after an ack: the probe is over where the ack is the one
/// awaited, and goes on otherwise.
pub open spec fn spec_on_ack(phase: PhaseView, from: Seq<u8>, round: u64) -> PhaseView {
    if spec_awaits(phase, from, round) {
        PhaseView::Idle
    } else {
        phase
    }
}

/// The phase after the detector was told the time.
pub open spec fn spec_on_tick(phase: PhaseView, now: u64, timing: Timing) -> PhaseView {
    match phase {
        PhaseView::Idle => phase,
        PhaseView::Direct { target, round, deadline } => if now >= deadline {
            PhaseView::Indirect { target, round, deadline: spec_deadline(now, timing.pingreq_ms) }
        } else {
            phase
        },
        PhaseView::Indirect { target, round, deadline } => if now >= deadline {
            PhaseView::Idle
        } else {
            phase
        },
    }
}

/// What the caller is to do after the detector was told the time.
pub open spec fn spec_verdict(phase: PhaseView, now: u64) -> VerdictView {
    match phase {
        PhaseView::Idle => VerdictView::Wait,
        PhaseView::Direct { target, round, deadline } => if now >= deadline {
            VerdictView::AskRelays { target, round }
        } else {
            VerdictView::Wait
        },
        PhaseView::Indirect { target, round, deadline } => if now >= deadline {
            VerdictView::Failed { target }
        } else {
            VerdictView::Wait
        },
    }
}

/// A probe that gets no ack fails within the two waits: told the time once
/// the first wait is over and once more when the second is, the detector
/// asks for relays and then gives the target up.
pub proof fn lemma_silence_is_detected(
    target: Seq<u8>,
    round: u64,
    start: u64,
    first: u64,
    second: u64,
    timing: Timing,
)
    requires
        first >= spec_deadline(start, timing.ping_ms),
        second >= spec_deadline(first, timing.pingreq_ms),
    ensures
        spec_verdict(spec_begin(target, round, start, timing), first) == (VerdictView::AskRelays {
            target,
            round,
        }),
        spec_verdict(spec_on_tick(spec_begin(target, round, start, timing), first, timing), second)
            == (VerdictView::Failed { target }),
        spec_on_tick(
            spec_on_tick(spec_begin(target, round, start, timing), first, timing),
            second,
            timing,
        ) == PhaseView::Idle,
{
}

/// An ack in time ends the probe on either path, and no verdict follows it.
pub proof fn lemma_ack_ends_the_probe(phase: PhaseView, from: Seq<u8>, round: u64, now: u64)
    requires
        spec_awaits(phase, from, round),
    ensures
        spec_on_ack(phase, from, round) == PhaseView::Idle,
        spec_verdict(spec_on_ack(phase, from, round), now) == VerdictView::Wait,
{
}

/// `now + wait`, or the last moment there is.
pub fn deadline(now: u64, wait: u64) -> (r: u64)
    ensures
        r == spec_deadline(now, wait),
{
    if wait <= u64::MAX - now {
        now + wait
    } else {
        u64::MAX
    }
}

impl Phase {
    /// The phase after a ping was sent to `target` at `now`.
    pub fn begin(target: Vec<u8>, round: u64, now: u64, timing: Timing) -> (r: Phase)
        ensures
            r@ == spec_begin(target@, round, now, timing),
    {
        Phase::Direct { target, round, deadline: deadline(now, timing.ping_ms) }
    }

    /// Takes note of an ack. Says whether it was the one awaited.
    pub fn on_ack(&mut self, from: &[u8], round: u64) -> (r: bool)
        ensures
            r == spec_awaits(old(self)@, from@, round),
            final(self)@ == spec_on_ack(old(self)@, from@, round),
    {
        let awaited = match self {
            Phase::Idle => false,
            Phase::Direct { target, round: r, .. } => same_bytes(target.as_slice(), from) && *r
                == round,
            Phase::Indirect { target, round: r, .. } => same_bytes(target.as_slice(), from) && *r
                == round,
        };
        if awaited {
            *self = Phase::Idle;
        }
        awaited
    }

    /// Takes note of the time, and says what is to be done.
    pub fn on_tick(&mut self, now: u64, timing: Timing) -> (r: Verdict)
        ensures
            r@ == spec_verdict(old(self)@, now),
            final(self)@ == spec_on_tick(old(self)@, now, timing),
    {
        let (verdict, next) = match self {
            Phase::Idle => (Verdict::Wait, None),
            Phase::Direct { target, round, deadline: due } => {
                if now >= *due {
                    (
                        Verdict::AskRelays { target: target.clone(), round: *round },
                        Some(
                            Phase::Indirect {
                                target: target.clone(),
                                round: *round,
                                deadline: deadline(now, timing.pingreq_ms),
                            },
                        ),
                    )
                } else {
                    (Verdict::Wait, None)
                }
            },
            Phase::Indirect { target, deadline: due, .. } => {
                if now >= *due {
                    (Verdict::Failed { target: target.clone() }, Some(Phase::Idle))
                } else {
                    (Verdict::Wait, None)
                }
            },
        };
        match next {
            Some(phase) => {
                *self = phase;
            },
            None => {},
        }
        verdict
    }
}

/// The members that a node probes: every member of the table but the node
/// itself that is `Alive` or `Suspect`, each once.
pub fn candidates(server: &Server) -> (r: Vec<Member>)
    requires
        server.wf(),
    ensures
        forall|i: int|
            0 <= i < r@.len() ==> server@.members.contains_key((#[trigger] r@[i])@.id)
                && server@.members[r@[i]@.id].member == r@[i]@ && spec_is_probed(
                server@.me.id,
                server@.members[r@[i]@.id],
            ),
        forall|id: Seq<u8>| #[trigger]
            server@.members.contains_key(id) && spec_is_probed(server@.me.id, server@.members[id])
                ==> exists|i: int| 0 <= i < r@.len() && (#[trigger] r@[i])@.id == id,
        forall|i: int, j: int| 0 <= i < j < r@.len() ==> (#[trigger] r@[i])@.id != (#[trigger] r@[j])@.id,
{
    members_but(server, true)
}

/// Whether `order` is `all` in another order.
pub open spec fn spec_is_shuffle(all: Seq<MemberView>, order: Seq<MemberView>) -> bool {
    order.len() == all.len() && spec_is_sample(all, order)
}

/// The order in which members are probed: one pass goes through a shuffle
/// of the members that were there when the pass began.
pub struct ProbeList {
    order: Vec<Member>,
    next: usize,
}

impl ProbeList {
    /// The order of the pass under way.
    pub closed spec fn spec_order(&self) -> Seq<MemberView> {
        spec_member_views(self.order@)
    }

    /// How many members of the pass have been handed out.
    pub closed spec fn spec_next(&self) -> nat {
        self.next as nat
    }

    /// The invariant: no more members were handed out than the pass has.
    pub closed spec fn wf(&self) -> bool {
        self.next <= self.order@.len()
    }

    /// A list with no pass under way.
    pub fn new() -> (r: ProbeList)
        ensures
            r.wf(),
            r.spec_order().len() == 0,
            r.spec_next() == 0,
    {
        ProbeList { order: Vec::new(), next: 0 }
    }

    /// The member to probe next.
    ///
    /// While a pass is under way, the next member of its order. Once it is
    /// over, a new pass begins with a shuffle of `candidates`, drawn by
    /// `picks`; `None` where there are no candidates.
    pub fn next_target(&mut self, candidates: &Vec<Member>, picks: &[u64]) -> (r: Option<Member>)
        requires
            old(self).wf(),
        ensures
            final(self).wf(),
            old(self).spec_next() < old(self).spec_order().len() ==> {
                &&& final(self).spec_order() == old(self).spec_order()
                &&& final(self).spec_next() == old(self).spec_next() + 1
                &&& r matches Some(m) && m@ == old(self).spec_order()[old(self).spec_next() as int]
            },
            old(self).spec_next() >= old(self).spec_order().len() ==> {
                &&& spec_is_shuffle(spec_member_views(candidates@), final(self).spec_order())
                &&& r is Some <==> candidates@.len() > 0
                &&& r matches Some(m) ==> m@ == final(self).spec_order()[0] && final(self).spec_next() == 1
                &&& r is None ==> final(self).spec_next() == 0
            },
    {
        if self.next >= self.order.len() {
            self.order = select_targets(candidates, candidates.len(), picks);
            self.next = 0;
            if self.order.len() == 0 {
                return None;
            }
        }
        let target = self.order[self.next].clone();
        self.next = self.next + 1;
        Some(target)
    }
}

/// Whether a suspicion that began at `since` has run out at `now`.
pub open spec fn spec_is_due(since: u64, now: u64, timing: Timing) -> bool {
    now >= since && now - since >= timing.suspicion_ms
}

/// Since when members have been suspected.
pub struct Suspicions {
    table: IdTable,
}

impl View for Suspicions {
    type V = Map<Seq<u8>, u64>;

    closed spec fn view(&self) -> Map<Seq<u8>, u64> {
        self.table@
    }
}

impl Suspicions {
    /// The invariant.
    pub closed spec fn wf(&self) -> bool {
        self.table.wf()
    }

    /// No suspicions.
    pub fn new() -> (r: Suspicions)
        ensures
            r.wf(),
            r@ == Map::<Seq<u8>, u64>::empty(),
    {
        Suspicions { table: IdTable::new() }
    }

    /// Takes note that a member is suspected at `now`. A member that is
    /// suspected already keeps the time of its first suspicion.
    pub fn start(&mut self, id: &[u8], now: u64)
        requires
            old(self).wf(),
        ensures
            final(self).wf(),
            final(self)@ == if old(self)@.contains_key(id@) {
                old(self)@
            } else {
                old(self)@.insert(id@, now)
            },
    {
        if !self.table.contains(id) {
            self.table.set(id, now);
        }
    }

    /// Forgets the suspicion of a member.
    pub fn clear(&mut self, id: &[u8])
        requires
            old(self).wf(),
        ensures
            final(self).wf(),
            final(self)@ == old(self)@.remove(id@),
    {
        self.table.remove(id);
    }

    /// Since when a member has been suspected.
    pub fn since(&self, id: &[u8]) -> (r: Option<u64>)
        requires
            self.wf(),
        ensures
            r is Some <==> self@.contains_key(id@),
            r matches Some(t) ==> t == self@[id@],
    {
        self.table.get(id)
    }

    /// The members whose suspicion has run out at `now`, each once.
    pub fn due(&self, now: u64, timing: Timing) -> (r: Vec<Vec<u8>>)
        requires
            self.wf(),
        ensures
            forall|i: int|
                0 <= i < r@.len() ==> self@.contains_key((#[trigger] r@[i])@) && spec_is_due(
                    self@[r@[i]@],
                    now,
                    timing,
                ),
            forall|id: Seq<u8>| #[trigger]
                self@.contains_key(id) && spec_is_due(self@[id], now, timing) ==> exists|i: int|
                    0 <= i < r@.len() && (#[trigger] r@[i])@ == id,
            forall|i: int, j: int| 0 <= i < j < r@.len() ==> (#[trigger] r@[i])@ != (#[trigger] r@[j])@,
    {
        let ids = self.table.ids();
        let mut out: Vec<Vec<u8>> = Vec::new();
        let ghost mut from: Seq<int> = Seq::empty();
        let mut i: usize = 0;
        while i < ids.len()
            invariant
                i <= ids.len(),
                self.wf(),
                self.table.spec_lists(ids@),
                out@.len() == from.len(),
                forall|a: int|
                    0 <= a < from.len() ==> 0 <= #[trigger] from[a] < i && out@[a]@ == ids@[from[a]]@
                        && spec_is_due(self@[ids@[from[a]]@], now, timing),
                forall|a: int, b: int| 0 <= a < b < from.len() ==> #[trigger] from[a] < #[trigger] from[b],
                forall|j: int|
                    0 <= j < i && spec_is_due(self@[(#[trigger] ids@[j])@], now, timing)
                        ==> exists|a: int| 0 <= a < from.len() && #[trigger] from[a] == j,
            decreases ids.len() - i,
        {
            assert(self@.contains_key(ids@[i as int]@));
            let since = match self.table.get(ids[i].as_slice()) {
                Some(t) => t,
                None => 0,
            };
            if now >= since && now - since >= timing.suspicion_ms {
                out.push(ids[i].clone());
                proof {
                    let ghost before = from;
                    from = from.push(i as int);
                    assert forall|j: int|
                        0 <= j < i + 1 && spec_is_due(
                            self@[(#[trigger] ids@[j])@],
                            now,
                            timing,
                        ) implies exists|a: int| 0 <= a < from.len() && #[trigger] from[a] == j by {
                        if j < i {
                            let a = choose|a: int| 0 <= a < before.len() && #[trigger] before[a] == j;
                            assert(from[a] == j);
                        } else {
                            assert(from[before.len() as int] == j);
                        }
                    }
                }
            }
            i = i + 1;
        }
        proof {
            assert forall|a: int| 0 <= a < out@.len() implies self@.contains_key(
                (#[trigger] out@[a])@,
            ) && spec_is_due(self@[out@[a]@], now, timing) by {
                assert(self@.contains_key(ids@[from[a]]@));
            }
            assert forall|id: Seq<u8>| #[trigger]
                self@.contains_key(id) && spec_is_due(self@[id], now, timing) implies exists|a: int|
                0 <= a < out@.len() && (#[trigger] out@[a])@ == id by {
                let j = choose|j: int| 0 <= j < ids@.len() && (#[trigger] ids@[j])@ == id;
                let a = choose|a: int| 0 <= a < from.len() && #[trigger] from[a] == j;
                assert(out@[a]@ == id);
            }
            assert forall|a: int, b: int| 0 <= a < b < out@.len() implies (#[trigger] out@[a])@
                != (#[trigger] out@[b])@ by {
                assert(from[a] < from[b]);
                assert(ids@[from[a]]@ != ids@[from[b]]@);
            }
        }
        out
    }
}

/// The suspicions that are in line with a table: one for every member that
/// the table calls `Suspect`, since the time that was noted for it or
/// else since `now`, and none for any other member.
pub open spec fn spec_synced(
    s: Map<Seq<u8>, u64>,
    m: crate::member_list::Members,
    now: u64,
) -> Map<Seq<u8>, u64> {
    Map::new(
        |id: Seq<u8>| m.contains_key(id) && m[id].health == Health::Suspect,
        |id: Seq<u8>|
            if s.contains_key(id) {
                s[id]
            } else {
                now
            },
    )
}

impl Suspicions {
    /// Brings the suspicions in line with the table of `server`: the
    /// suspicion of a member that is no longer `Suspect`, because it has
    /// refuted the suspicion, was confirmed or has departed, is forgotten,
    /// and a member that is `Suspect` without a suspicion is suspected
    /// since `now`.
    pub fn sync(&mut self, server: &Server, now: u64)
        requires
            old(self).wf(),
            server.wf(),
        ensures
            final(self).wf(),
            final(self)@ == spec_synced(old(self)@, server@.members, now),
    {
        proof {
            server.lemma_parts();
        }
        let ghost table = server@.members;
        let ids = self.table.ids();
        let mut i: usize = 0;
        while i < ids.len()
            invariant
                i <= ids.len(),
                self.wf(),
                server.wf(),
                table == server@.members,
                server.spec_member_list().wf(),
                server.spec_member_list()@ == table,
                old(self).table.spec_lists(ids@),
                forall|id: Seq<u8>| #[trigger]
                    self@.contains_key(id) ==> old(self)@.contains_key(id) && self@[id] == old(
                        self,
                    )@[id],
                forall|j: int|
                    0 <= j < ids@.len() ==> (self@.contains_key((#[trigger] ids@[j])@) <==> (j >= i
                        || (table.contains_key(ids@[j]@) && table[ids@[j]@].health
                        == Health::Suspect))),
            decreases ids.len() - i,
        {
            let health = server.member_list().health_of(ids[i].as_slice());
            let ghost before = self@;
            match health {
                Some(Health::Suspect) => {},
                _ => {
                    self.table.remove(ids[i].as_slice());
                    proof {
                        assert forall|j: int| 0 <= j < ids@.len() implies (self@.contains_key(
                            (#[trigger] ids@[j])@,
                        ) <==> (j >= i + 1 || (table.contains_key(ids@[j]@) && table[ids@[j]@].health
                            == Health::Suspect))) by {
                            if j != i as int {
                                if j < i as int {
                                    assert(ids@[j]@ != ids@[i as int]@);
                                } else {
                                    assert(ids@[i as int]@ != ids@[j]@);
                                }
                                assert(before.contains_key(ids@[j]@) <==> (j >= i || (
                                table.contains_key(ids@[j]@) && table[ids@[j]@].health
                                    == Health::Suspect)));
                            }
                        }
                    }
                },
            }
            i = i + 1;
        }
        let ghost mid = self@;
        proof {
            assert forall|id: Seq<u8>| mid.contains_key(id) <==> (old(self)@.contains_key(id)
                && table.contains_key(id) && table[id].health == Health::Suspect) by {
                if old(self)@.contains_key(id) {
                    let j = choose|j: int| 0 <= j < ids@.len() && (#[trigger] ids@[j])@ == id;
                    assert(mid.contains_key(ids@[j]@) <==> (table.contains_key(ids@[j]@)
                        && table[ids@[j]@].health == Health::Suspect));
                }
            }
        }
        let members = server.member_list().members();
        let mut k: usize = 0;
        while k < members.len()
            invariant
                k <= members.len(),
                self.wf(),
                crate::member_list::spec_lists_members(table, members@),
                forall|id: Seq<u8>| #[trigger]
                    self@.contains_key(id) <==> (mid.contains_key(id) || exists|j: int|
                        0 <= j < k && (#[trigger] members@[j])@.member.id == id && members@[j]@.health
                            == Health::Suspect),
                forall|id: Seq<u8>| #[trigger]
                    self@.contains_key(id) ==> self@[id] == if mid.contains_key(id) {
                        mid[id]
                    } else {
                        now
                    },
            decreases members.len() - k,
        {
            let ghost before = self@;
            let ghost id = members@[k as int]@.member.id;
            if members[k].health == Health::Suspect {
                self.start(members[k].member.id.as_slice(), now);
            }
            proof {
                assert forall|q: Seq<u8>| #[trigger]
                    self@.contains_key(q) <==> (mid.contains_key(q) || exists|j: int|
                    0 <= j < k + 1 && (#[trigger] members@[j])@.member.id == q && members@[j]@.health
                        == Health::Suspect) by {
                    if before.contains_key(q) && !mid.contains_key(q) {
                        let j = choose|j: int|
                            0 <= j < k && (#[trigger] members@[j])@.member.id == q && members@[j]@.health
                                == Health::Suspect;
                        assert(0 <= j < k + 1);
                    }
                    if exists|j: int|
                        0 <= j < k + 1 && (#[trigger] members@[j])@.member.id == q && members@[j]@.health
                            == Health::Suspect {
                        let j = choose|j: int|
                            0 <= j < k + 1 && (#[trigger] members@[j])@.member.id == q
                                && members@[j]@.health == Health::Suspect;
                        if j < k {
                            assert(before.contains_key(q));
                        }
                    }
                }
            }
            k = k + 1;
        }
        proof {
            let want = spec_synced(old(self)@, table, now);
            assert forall|q: Seq<u8>| self@.contains_key(q) == want.contains_key(q) by {
                if self@.contains_key(q) && !mid.contains_key(q) {
                    let j = choose|j: int|
                        0 <= j < members@.len() && (#[trigger] members@[j])@.member.id == q
                            && members@[j]@.health == Health::Suspect;
                    assert(table.contains_key(members@[j]@.member.id));
                }
                if want.contains_key(q) {
                    let j = choose|j: int|
                        0 <= j < members@.len() && (#[trigger] members@[j])@.member.id == q;
                    assert(table[members@[j]@.member.id] == members@[j]@);
                }
            }
            assert forall|q: Seq<u8>| self@.contains_key(q) implies self@[q] == want[q] by {
                if mid.contains_key(q) {
                    assert(old(self)@.contains_key(q));
                } else {
                    if old(self)@.contains_key(q) {
                        let j = choose|j: int|
                            0 <= j < members@.len() && (#[trigger] members@[j])@.member.id == q
                                && members@[j]@.health == Health::Suspect;
                        assert(table.contains_key(members@[j]@.member.id));
                        assert(table[members@[j]@.member.id] == members@[j]@);
                    }
                }
            }
            assert(self@ =~= want);
        }
    }
}

/// The ids of a vector of ids, as mathematical values.
pub open spec fn spec_id_views(v: Seq<Vec<u8>>) -> Seq<Seq<u8>> {
    Seq::new(v.len(), |i: int| v[i]@)
}

/// The suspicions without those of `ids`.
pub open spec fn spec_cleared(s: Map<Seq<u8>, u64>, ids: Seq<Seq<u8>>) -> Map<Seq<u8>, u64>
    decreases ids.len(),
{
    if ids.len() == 0 {
        s
    } else {
        spec_cleared(s, ids.drop_last()).remove(ids.last())
    }
}

/// Lets the suspicions that have run out at `now` take effect: every member
/// whose suspicion has run out and that is still `Suspect` is `Confirmed`
/// from now on, and its suspicion is forgotten with the others that have
/// run out. Hands back the members that were confirmed, for the caller to
/// tell the ring.
pub fn expire(server: &mut Server, suspicions: &mut Suspicions, now: u64, timing: Timing) -> (r:
    Vec<Vec<u8>>)
    requires
        old(server).wf(),
        old(suspicions).wf(),
    ensures
        final(server).wf(),
        final(suspicions).wf(),
        exists|due: Seq<Seq<u8>>|
            {
                &&& forall|i: int|
                    0 <= i < due.len() ==> old(suspicions)@.contains_key(#[trigger] due[i])
                        && spec_is_due(old(suspicions)@[due[i]], now, timing)
                &&& forall|id: Seq<u8>| #[trigger]
                    old(suspicions)@.contains_key(id) && spec_is_due(
                        old(suspicions)@[id],
                        now,
                        timing,
                    ) ==> due.contains(id)
                &&& #[trigger] spec_confirm_all(old(server)@.members, due) == final(server)@.members
                &&& final(suspicions)@ == spec_cleared(old(suspicions)@, due)
            },
        final(server)@ == (ServerView { members: final(server)@.members, ..old(server)@ }),
        spec_stores_kept(*old(server), *final(server), set![RumorType::Member]),
        forall|i: int|
            0 <= i < r@.len() ==> old(server)@.members.contains_key((#[trigger] r@[i])@)
                && old(server)@.members[r@[i]@].health == Health::Suspect
                && final(server)@.members[r@[i]@].health == Health::Confirmed,
{
    let ids = suspicions.due(now, timing);
    let ghost due = spec_id_views(ids@);
    let mut confirmed: Vec<Vec<u8>> = Vec::new();
    let mut i: usize = 0;
    proof {
        assert(due.subrange(0, 0) =~= Seq::<Seq<u8>>::empty());
    }
    while i < ids.len()
        invariant
            i <= ids.len(),
            due == spec_id_views(ids@),
            server.wf(),
            suspicions.wf(),
            server@ == (ServerView { members: server@.members, ..old(server)@ }),
            spec_stores_kept(*old(server), *server, set![RumorType::Member]),
            server@.members == spec_confirm_all(old(server)@.members, due.subrange(0, i as int)),
            suspicions@ == spec_cleared(old(suspicions)@, due.subrange(0, i as int)),
            forall|a: int, b: int| 0 <= a < b < due.len() ==> #[trigger] due[a] != #[trigger] due[b],
            forall|a: int|
                0 <= a < confirmed@.len() ==> old(server)@.members.contains_key(
                    (#[trigger] confirmed@[a])@,
                ) && old(server)@.members[confirmed@[a]@].health == Health::Suspect
                    && server@.members.contains_key(confirmed@[a]@)
                    && server@.members[confirmed@[a]@].health == Health::Confirmed,
            forall|id: Seq<u8>| #[trigger]
                old(server)@.members.contains_key(id) && !due.subrange(0, i as int).contains(id)
                    ==> server@.members.contains_key(id) && server@.members[id] == old(server)@.members[id],
            forall|id: Seq<u8>| #[trigger]
                server@.members.contains_key(id) ==> old(server)@.members.contains_key(id),
        decreases ids.len() - i,
    {
        let ghost done = due.subrange(0, i as int);
        let ghost next = due.subrange(0, i + 1);
        let ghost id = due[i as int];
        let ghost before = server@.members;
        proof {
            assert(next.drop_last() =~= done);
            assert(next.last() == id);
            assert(ids@[i as int]@ == id);
            assert(!done.contains(id)) by {
                if done.contains(id) {
                    let a = choose|a: int| 0 <= a < done.len() && done[a] == id;
                    assert(due[a] != due[i as int]);
                }
            }
        }
        let outcome = server.confirm(ids[i].as_slice());
        suspicions.clear(ids[i].as_slice());
        proof {
            assert forall|q: Seq<u8>| #[trigger]
                old(server)@.members.contains_key(q) && !next.contains(q) implies server@.members.contains_key(
                q,
            ) && server@.members[q] == old(server)@.members[q] by {
                if done.contains(q) {
                    let a = choose|a: int| 0 <= a < done.len() && done[a] == q;
                    assert(next[a] == q);
                }
                assert(next[i as int] == id);
            }
            assert forall|a: int| 0 <= a < confirmed@.len() implies server@.members.contains_key(
                (#[trigger] confirmed@[a])@,
            ) && server@.members[confirmed@[a]@].health == Health::Confirmed by {
                assert(before[confirmed@[a]@].health == Health::Confirmed);
            }
        }
        match outcome {
            InsertOutcome::Applied => {
                proof {
                    assert(before.contains_key(id) && before[id].health == Health::Suspect);
                    assert(old(server)@.members.contains_key(id));
                    assert(before[id] == old(server)@.members[id]);
                    assert(server@.members[id].health == Health::Confirmed);
                }
                confirmed.push(ids[i].clone());
            },
            InsertOutcome::Stale => {},
        }
        i = i + 1;
    }
    proof {
        assert(due.subrange(0, ids@.len() as int) =~= due);
        assert forall|id: Seq<u8>| #[trigger]
            old(suspicions)@.contains_key(id) && spec_is_due(
                old(suspicions)@[id],
                now,
                timing,
            ) implies due.contains(id) by {
            let j = choose|j: int| 0 <= j < ids@.len() && (#[trigger] ids@[j])@ == id;
            assert(due[j] == id);
        }
    }
    confirmed
}

/// What a node does about a probe message that reached it.
#[derive(Debug)]
pub enum Reaction {
    /// Nothing: the message asks for a member that the node does not know.
    Drop,
    /// The message is an ack for a probe of the node's own: the member
    /// `from` has answered the round `round`.
    Acked { from: Vec<u8>, round: u64 },
    /// The node sends `probe` to the address `to`.
    Send { to: Vec<u8>, probe: Probe },
}

/// A [`Reaction`] as a mathematical value.
pub enum ReactionView {
    Drop,
    Acked { from: Seq<u8>, round: u64 },
    Send { to: Seq<u8>, probe: ProbeView },
}

impl View for Reaction {
    type V = ReactionView;

    open spec fn view(&self) -> ReactionView {
        match self {
            Reaction::Drop => ReactionView::Drop,
            Reaction::Acked { from, round } => ReactionView::Acked { from: from@, round: *round },
            Reaction::Send { to, probe } => ReactionView::Send { to: to@, probe: probe@ },
        }
    }
}

/// The ping by which `sv` probes `target`, for itself.
pub open spec fn spec_ping(sv: ServerView, target: MemberView, round: u64) -> ReactionView {
    ReactionView::Send {
        to: target.address,
        probe: ProbeView {
            kind: ProbeKind::Ping,
            from_id: sv.me.id,
            subject: sv.me.id,
            round,
            reply_to: sv.me.address,
        },
    }
}

/// The request by which `sv` asks `relay` to probe `target`.
pub open spec fn spec_ping_req(
    sv: ServerView,
    relay: MemberView,
    target: Seq<u8>,
    round: u64,
) -> ReactionView {
    ReactionView::Send {
        to: relay.address,
        probe: ProbeView {
            kind: ProbeKind::PingReq,
            from_id: sv.me.id,
            subject: target,
            round,
            reply_to: sv.me.address,
        },
    }
}

/// What a node in state `sv` does about the probe message `p`.
///
/// A ping is answered with an ack to where it came from, meant for the
/// member on whose behalf it was sent. A ping-req is turned into a ping to
/// its subject, on behalf of the member that asked. An ack that is meant
/// for the node itself ends a probe of its own; one that is meant for
/// another member is passed on to that member.
pub open spec fn spec_react(sv: ServerView, p: ProbeView) -> ReactionView {
    match p.kind {
        ProbeKind::Ping => ReactionView::Send {
            to: p.reply_to,
            probe: ProbeView {
                kind: ProbeKind::Ack,
                from_id: sv.me.id,
                subject: p.subject,
                round: p.round,
                reply_to: sv.me.address,
            },
        },
        ProbeKind::PingReq => if sv.members.contains_key(p.subject) {
            ReactionView::Send {
                to: sv.members[p.subject].member.address,
                probe: ProbeView {
                    kind: ProbeKind::Ping,
                    from_id: sv.me.id,
                    subject: p.from_id,
                    round: p.round,
                    reply_to: sv.me.address,
                },
            }
        } else {
            ReactionView::Drop
        },
        ProbeKind::Ack => if p.subject == sv.me.id {
            ReactionView::Acked { from: p.from_id, round: p.round }
        } else if sv.members.contains_key(p.subject) {
            ReactionView::Send { to: sv.members[p.subject].member.address, probe: p }
        } else {
            ReactionView::Drop
        },
    }
}

/// An indirect probe comes back: where a node asks a relay to probe a
/// target, and relay and target know whom they are to answer, the relay
/// pings the target, the target acks to the relay, the relay passes the ack
/// on, and the node that asked takes it as the ack of its round.
pub proof fn lemma_indirect_probe_returns(
    asker: ServerView,
    relay: ServerView,
    target: ServerView,
    round: u64,
)
    requires
        relay.members.contains_key(target.me.id),
        relay.members[target.me.id].member.address == target.me.address,
        relay.members.contains_key(asker.me.id),
        relay.members[asker.me.id].member.address == asker.me.address,
        relay.me.id != asker.me.id,
    ensures
        ({
            let request = spec_ping_req(asker, relay.me, target.me.id, round);
            let ping = spec_react(relay, request->probe);
            let ack = spec_react(target, ping->probe);
            let passed = spec_react(relay, ack->probe);
            let end = spec_react(asker, passed->probe);
            &&& request->to == relay.me.address
            &&& ping is Send && ping->to == target.me.address
            &&& ack is Send && ack->to == relay.me.address
            &&& passed is Send && passed->to == asker.me.address
            &&& end == (ReactionView::Acked { from: target.me.id, round })
        }),
{
}

/// The ping by which a node probes `target`, for itself.
pub fn ping(server: &Server, target: &Member, round: u64) -> (r: Reaction)
    ensures
        r@ == spec_ping(server@, target@, round),
{
    Reaction::Send {
        to: target.address.clone(),
        probe: Probe {
            kind: ProbeKind::Ping,
            from_id: server.member_id().clone(),
            subject: server.member_id().clone(),
            round,
            reply_to: server.gossip_addr().clone(),
        },
    }
}

/// The request by which a node asks `relay` to probe `target`.
pub fn ping_req(server: &Server, relay: &Member, target: &[u8], round: u64) -> (r: Reaction)
    ensures
        r@ == spec_ping_req(server@, relay@, target@, round),
{
    Reaction::Send {
        to: relay.address.clone(),
        probe: Probe {
            kind: ProbeKind::PingReq,
            from_id: server.member_id().clone(),
            subject: vstd::slice::slice_to_vec(target),
            round,
            reply_to: server.gossip_addr().clone(),
        },
    }
}

/// Decides what to do about a probe message.
pub fn react(server: &Server, probe: Probe) -> (r: Reaction)
    requires
        server.wf(),
    ensures
        r@ == spec_react(server@, probe@),
{
    proof {
        server.lemma_parts();
    }
    match probe.kind {
        ProbeKind::Ping => Reaction::Send {
            to: probe.reply_to,
            probe: Probe {
                kind: ProbeKind::Ack,
                from_id: server.member_id().clone(),
                subject: probe.subject,
                round: probe.round,
                reply_to: server.gossip_addr().clone(),
            },
        },
        ProbeKind::PingReq => match server.member_list().get(probe.subject.as_slice()) {
            Some(record) => Reaction::Send {
                to: record.member.address,
                probe: Probe {
                    kind: ProbeKind::Ping,
                    from_id: server.member_id().clone(),
                    subject: probe.from_id,
                    round: probe.round,
                    reply_to: server.gossip_addr().clone(),
                },
            },
            None => Reaction::Drop,
        },
        ProbeKind::Ack => {
            if same_bytes(probe.subject.as_slice(), server.member_id().as_slice()) {
                Reaction::Acked { from: probe.from_id, round: probe.round }
            } else {
                match server.member_list().get(probe.subject.as_slice()) {
                    Some(record) => Reaction::Send { to: record.member.address, probe },
                    None => Reaction::Drop,
                }
            }
        },
    }
}

/// Whether `all` lists the members that can relay a probe of `target`:
/// every member that is probed itself, but `target`, each once.
pub open spec fn spec_lists_relays(sv: ServerView, target: Seq<u8>, all: Seq<MemberView>) -> bool {
    &&& forall|i: int|
        0 <= i < all.len() ==> sv.members.contains_key((#[trigger] all[i]).id)
            && sv.members[all[i].id].member == all[i] && spec_is_probed(
            sv.me.id,
            sv.members[all[i].id],
        ) && all[i].id != target
    &&& forall|id: Seq<u8>| #[trigger]
        sv.members.contains_key(id) && spec_is_probed(sv.me.id, sv.members[id]) && id != target
            ==> exists|i: int| 0 <= i < all.len() && (#[trigger] all[i]).id == id
    &&& forall|i: int, j: int| 0 <= i < j < all.len() ==> (#[trigger] all[i]).id != (#[trigger] all[j]).id
}

/// Whether `all` lists the members that are probed, each once.
pub open spec fn spec_lists_candidates(sv: ServerView, all: Seq<MemberView>) -> bool {
    &&& forall|i: int|
        0 <= i < all.len() ==> sv.members.contains_key((#[trigger] all[i]).id)
            && sv.members[all[i].id].member == all[i] && spec_is_probed(
            sv.me.id,
            sv.members[all[i].id],
        )
    &&& forall|id: Seq<u8>| #[trigger]
        sv.members.contains_key(id) && spec_is_probed(sv.me.id, sv.members[id]) ==> exists|i: int|
            0 <= i < all.len() && (#[trigger] all[i]).id == id
    &&& forall|i: int, j: int| 0 <= i < j < all.len() ==> (#[trigger] all[i]).id != (#[trigger] all[j]).id
}

/// Whether `chosen` are relays for a probe of `target`: a sample of the
/// members that can relay it, `count` of them or all if they are fewer.
pub open spec fn spec_are_relays(
    sv: ServerView,
    target: Seq<u8>,
    count: nat,
    chosen: Seq<MemberView>,
) -> bool {
    exists|all: Seq<MemberView>| #[trigger]
        spec_lists_relays(sv, target, all) && chosen.len() == crate::push::spec_min(
            count as int,
            all.len() as int,
        ) && spec_is_sample(all, chosen)
}

/// The requests to the relays `chosen` to probe `target`.
pub open spec fn spec_requests(
    sv: ServerView,
    chosen: Seq<MemberView>,
    target: Seq<u8>,
    round: u64,
) -> Seq<ReactionView> {
    Seq::new(chosen.len(), |i: int| spec_ping_req(sv, chosen[i], target, round))
}

/// Whether `asked` are the requests to relays for a probe of `target`: one
/// request to each member of a sample of the members that can relay it,
/// `count` of them or all if they are fewer.
pub open spec fn spec_asks(
    sv: ServerView,
    target: Seq<u8>,
    round: u64,
    count: nat,
    asked: Seq<ReactionView>,
) -> bool {
    exists|chosen: Seq<MemberView>| #[trigger]
        spec_are_relays(sv, target, count, chosen) && asked == spec_requests(
            sv,
            chosen,
            target,
            round,
        )
}

/// The views of a vector of reactions.
pub open spec fn spec_reaction_views(v: Seq<Reaction>) -> Seq<ReactionView> {
    Seq::new(v.len(), |i: int| v[i]@)
}

/// The number of the round after `round`. After the last number the count
/// starts again.
pub open spec fn spec_next_round(round: u64) -> u64 {
    if round < u64::MAX {
        (round + 1) as u64
    } else {
        0
    }
}

/// Picks the relays for a probe of `target`, by the numbers of `picks`.
pub fn relays(server: &Server, target: &[u8], count: usize, picks: &[u64]) -> (r: Vec<Member>)
    requires
        server.wf(),
    ensures
        spec_are_relays(server@, target@, count as nat, spec_member_views(r@)),
{
    let known = candidates(server);
    let mut all: Vec<Member> = Vec::new();
    let ghost mut from: Seq<int> = Seq::empty();
    let mut i: usize = 0;
    while i < known.len()
        invariant
            i <= known.len(),
            all@.len() == from.len(),
            forall|a: int|
                0 <= a < from.len() ==> 0 <= #[trigger] from[a] < i && all@[a]@ == known@[from[a]]@
                    && all@[a]@.id != target@,
            forall|a: int, b: int| 0 <= a < b < from.len() ==> #[trigger] from[a] < #[trigger] from[b],
            forall|j: int|
                0 <= j < i && (#[trigger] known@[j])@.id != target@ ==> exists|a: int|
                    0 <= a < from.len() && #[trigger] from[a] == j,
        decreases known.len() - i,
    {
        if !same_bytes(known[i].id.as_slice(), target) {
            all.push(known[i].clone());
            proof {
                let ghost before = from;
                from = from.push(i as int);
                assert forall|j: int|
                    0 <= j < i + 1 && (#[trigger] known@[j])@.id != target@ implies exists|a: int|
                    0 <= a < from.len() && #[trigger] from[a] == j by {
                    if j < i {
                        let a = choose|a: int| 0 <= a < before.len() && #[trigger] before[a] == j;
                        assert(from[a] == j);
                    } else {
                        assert(from[before.len() as int] == j);
                    }
                }
            }
        }
        i = i + 1;
    }
    let chosen = select_targets(&all, count, picks);
    proof {
        let sv = server@;
        let views = spec_member_views(all@);
        assert forall|a: int| 0 <= a < views.len() implies sv.members.contains_key(
            (#[trigger] views[a]).id,
        ) && sv.members[views[a].id].member == views[a] && spec_is_probed(
            sv.me.id,
            sv.members[views[a].id],
        ) && views[a].id != target@ by {
            assert(all@[a]@ == known@[from[a]]@);
        }
        assert forall|id: Seq<u8>| #[trigger]
            sv.members.contains_key(id) && spec_is_probed(sv.me.id, sv.members[id]) && id
                != target@ implies exists|a: int|
            0 <= a < views.len() && (#[trigger] views[a]).id == id by {
            let j = choose|j: int| 0 <= j < known@.len() && (#[trigger] known@[j])@.id == id;
            let a = choose|a: int| 0 <= a < from.len() && #[trigger] from[a] == j;
            assert(views[a].id == id);
        }
        assert forall|a: int, b: int| 0 <= a < b < views.len() implies (#[trigger] views[a]).id
            != (#[trigger] views[b]).id by {
            assert(from[a] < from[b]);
            assert(known@[from[a]]@.id != known@[from[b]]@.id);
        }
        assert(spec_lists_relays(sv, target@, views));
    }
    chosen
}

/// The requests to the relays `chosen` to probe `target`.
pub fn requests(server: &Server, chosen: &Vec<Member>, target: &[u8], round: u64) -> (r: Vec<Reaction>)
    ensures
        spec_reaction_views(r@) == spec_requests(
            server@,
            spec_member_views(chosen@),
            target@,
            round,
        ),
{
    let mut out: Vec<Reaction> = Vec::new();
    let mut i: usize = 0;
    while i < chosen.len()
        invariant
            i <= chosen.len(),
            out@.len() == i,
            forall|j: int|
                0 <= j < i ==> (#[trigger] out@[j])@ == spec_ping_req(
                    server@,
                    chosen@[j]@,
                    target@,
                    round,
                ),
        decreases chosen.len() - i,
    {
        out.push(ping_req(server, &chosen[i], target, round));
        i = i + 1;
    }
    assert(spec_reaction_views(out@) =~= spec_requests(
        server@,
        spec_member_views(chosen@),
        target@,
        round,
    ));
    out
}

/// The failure detector of one node: the probe that is under way, the
/// order of the pass, and the suspicions.
pub struct Detector {
    pub timing: Timing,
    /// How many relays are asked once a ping was not answered.
    pub relays: usize,
    pub phase: Phase,
    pub list: ProbeList,
    pub suspicions: Suspicions,
    /// The number of the last round that was begun.
    pub round: u64,
}

impl Detector {
    /// The detector's invariant: that of its parts.
    pub open spec fn wf(&self) -> bool {
        self.list.wf() && self.suspicions.wf()
    }

    /// A detector that has not probed yet.
    pub fn new(timing: Timing, relays: usize) -> (r: Detector)
        ensures
            r.wf(),
            r.timing == timing,
            r.relays == relays,
            r.phase@ == PhaseView::Idle,
            r.suspicions@ == Map::<Seq<u8>, u64>::empty(),
            r.list.spec_order().len() == 0,
            r.round == 0,
    {
        Detector {
            timing,
            relays,
            phase: Phase::Idle,
            list: ProbeList::new(),
            suspicions: Suspicions::new(),
            round: 0,
        }
    }

    /// Takes note of an ack. Says whether it was the one awaited.
    pub fn on_ack(&mut self, from: &[u8], round: u64) -> (r: bool)
        requires
            old(self).wf(),
        ensures
            final(self).wf(),
            r == spec_awaits(old(self).phase@, from@, round),
            final(self).phase@ == spec_on_ack(old(self).phase@, from@, round),
            final(self).timing == old(self).timing,
            final(self).relays == old(self).relays,
            final(self).list == old(self).list,
            final(self).suspicions == old(self).suspicions,
            final(self).round == old(self).round,
    {
        self.phase.on_ack(from, round)
    }

    /// Takes note of the time in the probe that is under way.
    ///
    /// Where the ping was not answered in time, the requests to the relays
    /// come back, for the caller to send. Where neither path led to the
    /// target in time, the target is `Suspect` from now on, if it was
    /// `Alive`, and suspected since `now`, if it was not suspected already.
    pub fn on_tick(&mut self, server: &mut Server, now: u64, picks: &[u64]) -> (r: Vec<Reaction>)
        requires
            old(self).wf(),
            old(server).wf(),
        ensures
            final(self).wf(),
            final(server).wf(),
            final(self).phase@ == spec_on_tick(old(self).phase@, now, old(self).timing),
            final(self).timing == old(self).timing,
            final(self).relays == old(self).relays,
            final(self).list == old(self).list,
            final(self).round == old(self).round,
            spec_member_marks(
                *old(server),
                *final(server),
                spec_verdict(old(self).phase@, now) matches VerdictView::Failed { target }
                    && old(server)@.members.contains_key(target) && old(
                    server,
                )@.members[target].health == Health::Alive,
                spec_verdict(old(self).phase@, now)->Failed_target,
            ),
            spec_verdict(old(self).phase@, now) is Wait ==> {
                &&& r@.len() == 0
                &&& final(server)@ == old(server)@
                &&& final(self).suspicions@ == old(self).suspicions@
            },
            spec_verdict(old(self).phase@, now) matches VerdictView::AskRelays { target, round } ==> {
                &&& final(server)@ == old(server)@
                &&& final(self).suspicions@ == old(self).suspicions@
                &&& spec_asks(
                    old(server)@,
                    target,
                    round,
                    old(self).relays as nat,
                    spec_reaction_views(r@),
                )
            },
            spec_verdict(old(self).phase@, now) matches VerdictView::Failed { target } ==> {
                &&& r@.len() == 0
                &&& final(server)@ == (ServerView {
                    members: crate::member_list::spec_suspect(old(server)@.members, target),
                    ..old(server)@
                })
                &&& final(self).suspicions@ == if old(self).suspicions@.contains_key(target) {
                    old(self).suspicions@
                } else {
                    old(self).suspicions@.insert(target, now)
                }
            },
    {
        let verdict = self.phase.on_tick(now, self.timing);
        match verdict {
            Verdict::Wait => Vec::new(),
            Verdict::AskRelays { target, round } => {
                let chosen = relays(server, target.as_slice(), self.relays, picks);
                let out = requests(server, &chosen, target.as_slice(), round);
                assert(spec_are_relays(
                    old(server)@,
                    target@,
                    old(self).relays as nat,
                    spec_member_views(chosen@),
                ));
                assert(spec_asks(
                    old(server)@,
                    target@,
                    round,
                    old(self).relays as nat,
                    spec_reaction_views(out@),
                ));
                out
            },
            Verdict::Failed { target } => {
                server.suspect(target.as_slice());
                self.suspicions.start(target.as_slice(), now);
                Vec::new()
            },
        }
    }

    /// Brings the suspicions in line with the table and lets those that
    /// have run out at `now` take effect. Hands back the members that were
    /// confirmed.
    pub fn settle(&mut self, server: &mut Server, now: u64) -> (r: Vec<Vec<u8>>)
        requires
            old(self).wf(),
            old(server).wf(),
        ensures
            final(self).wf(),
            final(server).wf(),
            final(self).phase == old(self).phase,
            final(self).timing == old(self).timing,
            final(self).relays == old(self).relays,
            final(self).list == old(self).list,
            final(self).round == old(self).round,
            final(server)@ == (ServerView { members: final(server)@.members, ..old(server)@ }),
            spec_stores_kept(*old(server), *final(server), set![RumorType::Member]),
            ({
                let synced = spec_synced(old(self).suspicions@, old(server)@.members, now);
                exists|due: Seq<Seq<u8>>|
                    {
                        &&& forall|i: int|
                            0 <= i < due.len() ==> synced.contains_key(#[trigger] due[i])
                                && spec_is_due(synced[due[i]], now, old(self).timing)
                        &&& forall|id: Seq<u8>| #[trigger]
                            synced.contains_key(id) && spec_is_due(
                                synced[id],
                                now,
                                old(self).timing,
                            ) ==> due.contains(id)
                        &&& #[trigger] spec_confirm_all(old(server)@.members, due) == final(server)@.members
                        &&& final(self).suspicions@ == spec_cleared(synced, due)
                    }
            }),
            forall|i: int|
                0 <= i < r@.len() ==> old(server)@.members.contains_key((#[trigger] r@[i])@)
                    && old(server)@.members[r@[i]@].health == Health::Suspect && final(server)@.members[r@[i]@].health == Health::Confirmed,
    {
        self.suspicions.sync(server, now);
        expire(server, &mut self.suspicions, now, self.timing)
    }

    /// Begins the next probe, where none is under way and there is a
    /// member to probe: the ping for the next member of the pass comes
    /// back, for the caller to send, and its ack is awaited from now on.
    pub fn probe_next(&mut self, server: &Server, now: u64, picks: &[u64]) -> (r: Option<Reaction>)
        requires
            old(self).wf(),
            server.wf(),
        ensures
            final(self).wf(),
            final(self).timing == old(self).timing,
            final(self).relays == old(self).relays,
            final(self).suspicions == old(self).suspicions,
            !(old(self).phase@ is Idle) ==> r is None && final(self).phase == old(self).phase
                && final(self).list == old(self).list && final(self).round == old(self).round,
            old(self).phase@ is Idle && old(self).list.spec_next() < old(
                self,
            ).list.spec_order().len() ==> final(self).list.spec_order() == old(
                self,
            ).list.spec_order() && final(self).list.spec_next() == old(self).list.spec_next() + 1
                && spec_begins(
                *final(self),
                r,
                server@,
                old(self).list.spec_order()[old(self).list.spec_next() as int],
                old(self).round,
                now,
            ),
            old(self).phase@ is Idle && old(self).list.spec_next() >= old(
                self,
            ).list.spec_order().len() ==> exists|all: Seq<MemberView>| #[trigger]
                spec_lists_candidates(server@, all) && spec_is_shuffle(
                    all,
                    final(self).list.spec_order(),
                ) && if all.len() == 0 {
                    r is None && final(self).phase@ is Idle && final(self).round == old(self).round
                        && final(self).list.spec_next() == 0
                } else {
                    final(self).list.spec_next() == 1 && spec_begins(
                        *final(self),
                        r,
                        server@,
                        final(self).list.spec_order()[0],
                        old(self).round,
                        now,
                    )
                },
    {
        match self.phase {
            Phase::Idle => {},
            _ => {
                return None;
            },
        }
        let known = candidates(server);
        proof {
            let sv = server@;
            let all = spec_member_views(known@);
            assert forall|i: int| 0 <= i < all.len() implies sv.members.contains_key(
                (#[trigger] all[i]).id,
            ) && sv.members[all[i].id].member == all[i] && spec_is_probed(
                sv.me.id,
                sv.members[all[i].id],
            ) by {
                assert(all[i] == known@[i]@);
            }
            assert forall|id: Seq<u8>| #[trigger]
                sv.members.contains_key(id) && spec_is_probed(sv.me.id, sv.members[id]) implies exists|
                i: int,
            | 0 <= i < all.len() && (#[trigger] all[i]).id == id by {
                let i = choose|i: int| 0 <= i < known@.len() && (#[trigger] known@[i])@.id == id;
                assert(all[i].id == id);
            }
            assert forall|i: int, j: int| 0 <= i < j < all.len() implies (#[trigger] all[i]).id
                != (#[trigger] all[j]).id by {
                assert(known@[i]@.id != known@[j]@.id);
            }
            assert(spec_lists_candidates(sv, all));
        }
        match self.list.next_target(&known, picks) {
            None => None,
            Some(target) => {
                let round = if self.round < u64::MAX {
                    self.round + 1
                } else {
                    0
                };
                self.round = round;
                let reaction = ping(server, &target, round);
                self.phase = Phase::begin(target.id, round, now, self.timing);
                Some(reaction)
            },
        }
    }
}

/// Whether the detector `d` has just begun a probe of `target`, in the
/// round after `round`, with the ping `r`.
pub open spec fn spec_begins(
    d: Detector,
    r: Option<Reaction>,
    sv: ServerView,
    target: MemberView,
    round: u64,
    now: u64,
) -> bool {
    &&& d.round == spec_next_round(round)
    &&& d.phase@ == spec_begin(target.id, d.round, now, d.timing)
    &&& r is Some
    &&& r.unwrap()@ == spec_ping(sv, target, d.round)
}

} // verus!
