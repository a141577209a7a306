//! The inbound side of the gossip exchange: what a node does with one
//! datagram that reached it.
//!
//! The loop that owns the socket hands every datagram to
//! [`Pull::receive`], which drops it where the node stands still, where the
//! sender is blocked or where it does not decode, and otherwise merges the
//! rumor into the store of its kind. Where probe messages come in by the
//! same socket, the loop hands the datagrams to [`Pull::dispatch`], which
//! tells the two apart.

use vstd::prelude::*;
use crate::detector::{react, spec_react, Reaction, ReactionView};
use crate::envelope::{lemma_decode_encode, spec_decode, RumorEnvelope, RumorEnvelopeView};
use crate::frame::{peek_sender, spec_sender};
use crate::probe::{lemma_probe_or_rumor, spec_decode_probe, Probe};
use crate::push::{lemma_marked_is_recent, spec_covers, spec_datagrams};
use crate::rumor::{RumorType, RumorView};
use crate::server::{
    spec_held, spec_insert_rumor, spec_rumor_applies, spec_rumor_marks, spec_stores_kept, Server,
    ServerView,
};
use crate::store::{lemma_insert_holds, spec_identity, InsertOutcome};

verus! {

/// What became of a datagram.
#[derive(Clone, Copy, Debug, PartialEq, Eq, Structural)]
pub enum Received {
    /// The node stands still; the datagram was not looked at.
    Paused,
    /// The sender is blocked; the datagram was dropped before it was decoded.
    Blocked,
    /// The datagram holds no envelope.
    Undecodable,
    /// The rumor went to the store of its kind, with this outcome.
    Merged { kind: RumorType, outcome: InsertOutcome },
}

/// What becomes of a datagram that reaches a node in state `sv`.
pub open spec fn spec_outcome(sv: ServerView, msg: Seq<u8>) -> Received {
    if sv.paused {
        Received::Paused
    } else {
        match spec_sender(msg) {
            None => Received::Undecodable,
            Some(from) => if sv.blocked.contains(from) {
                Received::Blocked
            } else {
                match spec_decode(msg) {
                    None => Received::Undecodable,
                    Some(e) => Received::Merged {
                        kind: e.kind.kind(),
                        outcome: if spec_rumor_applies(sv, e.kind) {
                            InsertOutcome::Applied
                        } else {
                            InsertOutcome::Stale
                        },
                    },
                }
            },
        }
    }
}

/// The state of a node after a datagram reached it in state `sv`.
pub open spec fn spec_receive(sv: ServerView, msg: Seq<u8>) -> ServerView {
    match spec_outcome(sv, msg) {
        Received::Merged { .. } => spec_insert_rumor(sv, spec_decode(msg).unwrap().kind),
        _ => sv,
    }
}

/// How a datagram marks the stores of the node that it reaches: where its
/// rumor is taken in, as taking in that rumor does; otherwise every store
/// is as it was.
pub open spec fn spec_receive_marks(before: Server, after: Server, msg: Seq<u8>) -> bool {
    if spec_outcome(before@, msg) is Merged {
        spec_rumor_marks(before, after, spec_decode(msg).unwrap().kind)
    } else {
        spec_stores_kept(before, after, Set::empty())
    }
}

/// The sender that is read from the front of a datagram is the sender of
/// the envelope that the datagram decodes to.
pub proof fn lemma_sender_of_decoded(msg: Seq<u8>)
    requires
        spec_decode(msg) is Some,
    ensures
        spec_sender(msg) == Some(spec_decode(msg).unwrap().from_id),
{
}

/// The blocklist comes first: a datagram from a blocked member changes
/// nothing, whether or not it decodes and whatever it would have replaced.
pub proof fn lemma_blocked_is_dropped(sv: ServerView, msg: Seq<u8>)
    requires
        spec_sender(msg) matches Some(from) && sv.blocked.contains(from),
    ensures
        spec_receive(sv, msg) == sv,
        !(spec_outcome(sv, msg) is Merged),
{
}

/// A well-formed datagram from a blocked member changes nothing.
pub proof fn lemma_blocked_envelope_is_dropped(sv: ServerView, msg: Seq<u8>)
    requires
        spec_decode(msg) matches Some(e) && sv.blocked.contains(e.from_id),
    ensures
        spec_receive(sv, msg) == sv,
{
    lemma_sender_of_decoded(msg);
}

/// What is pushed arrives: a node that does not stand still takes the
/// written form of an envelope from a sender that it does not block as the
/// rumor that the envelope holds.
pub proof fn lemma_delivery(sv: ServerView, e: RumorEnvelopeView)
    requires
        e.encodable(),
        !sv.paused,
        !sv.blocked.contains(e.from_id),
    ensures
        spec_outcome(sv, e.encode()) is Merged,
        spec_receive(sv, e.encode()) == spec_insert_rumor(sv, e.kind),
{
    lemma_decode_encode(e);
    lemma_sender_of_decoded(e.encode());
}

/// Whether a rumor is a membership record of the node itself. Such a
/// record is never merged: the node knows best how it is, and answers a
/// record that calls it anything but `Alive` by moving to its next
/// incarnation.
pub open spec fn spec_is_about(sv: ServerView, r: RumorView) -> bool {
    r matches RumorView::Membership(x) && x.member.id == sv.me.id
}

/// Whether a node holds a rumor or better: under the rumor's identity the
/// rumor itself, or one that the rumor does not supersede.
pub open spec fn spec_holds_at_least(sv: ServerView, r: RumorView) -> bool {
    let held = spec_held(sv, r.kind());
    let k = spec_identity(r);
    held.contains_key(k) && (held[k] == r || !r.supersedes(held[k]))
}

/// One hop of convergence: once a rumor has arrived that is no membership
/// record of the node itself, the node holds the rumor or better.
pub proof fn lemma_arrived_is_held(sv: ServerView, e: RumorEnvelopeView)
    requires
        e.encodable(),
        !sv.paused,
        !sv.blocked.contains(e.from_id),
        !spec_is_about(sv, e.kind),
    ensures
        spec_holds_at_least(spec_receive(sv, e.encode()), e.kind),
{
    lemma_delivery(sv, e);
    if !(e.kind is Membership) {
        lemma_insert_holds(e.kind.kind(), spec_held(sv, e.kind.kind()), e.kind);
    }
}

/// The state of a node after the datagrams of `msgs` reached it, first to
/// last.
pub open spec fn spec_receive_all(sv: ServerView, msgs: Seq<Seq<u8>>) -> ServerView
    decreases msgs.len(),
{
    if msgs.len() == 0 {
        sv
    } else {
        spec_receive(spec_receive_all(sv, msgs.drop_last()), msgs.last())
    }
}

/// No datagram changes whom a node blocks, whether it stands still, or who
/// it is.
pub proof fn lemma_receive_keeps_the_gate(sv: ServerView, msg: Seq<u8>)
    ensures
        spec_receive(sv, msg).paused == sv.paused,
        spec_receive(sv, msg).blocked == sv.blocked,
        spec_receive(sv, msg).me.id == sv.me.id,
{
}

/// No datagram changes whom a node blocks, whether it stands still, or who
/// it is.
pub proof fn lemma_receive_all_keeps_the_gate(sv: ServerView, msgs: Seq<Seq<u8>>)
    ensures
        spec_receive_all(sv, msgs).paused == sv.paused,
        spec_receive_all(sv, msgs).blocked == sv.blocked,
        spec_receive_all(sv, msgs).me.id == sv.me.id,
    decreases msgs.len(),
{
    if msgs.len() > 0 {
        lemma_receive_all_keeps_the_gate(sv, msgs.drop_last());
        lemma_receive_keeps_the_gate(spec_receive_all(sv, msgs.drop_last()), msgs.last());
    }
}

/// What a node holds does not get worse: a node that holds a rumor or
/// better still does so after any datagram, unless the rumor is a
/// membership record of the node itself.
pub proof fn lemma_held_stays_held(sv: ServerView, r: RumorView, msg: Seq<u8>)
    requires
        !spec_is_about(sv, r),
        spec_holds_at_least(sv, r),
    ensures
        spec_holds_at_least(spec_receive(sv, msg), r),
{
}

/// What a node has just taken in goes out with its next round: a rumor
/// that was applied, and is no membership record of the node itself, is
/// among what any listing of the recent rumors holds, for every window of
/// one update or more.
pub proof fn lemma_applied_goes_out(
    before: Server,
    after: Server,
    r: RumorView,
    window: u64,
    out: Seq<RumorView>,
)
    requires
        after.wf(),
        after@ == spec_insert_rumor(before@, r),
        spec_rumor_marks(before, after, r),
        spec_rumor_applies(before@, r),
        !spec_is_about(before@, r),
        window >= 1,
        spec_covers(out, after, Set::full(), window),
    ensures
        exists|i: int| 0 <= i < out.len() && #[trigger] out[i] == r,
{
    after.lemma_parts();
    let kind = r.kind();
    let k = spec_identity(r);
    let store = after.spec_store(kind);
    assert(store@ == spec_held(after@, kind));
    assert(store@.contains_key(k) && store@[k] == r);
    lemma_marked_is_recent(before.spec_store(kind), store, k, window);
    assert(crate::push::spec_holds(out, kind, k));
    let i = choose|i: int|
        0 <= i < out.len() && (#[trigger] out[i]).kind() == kind && spec_identity(out[i]) == k;
    assert(out[i] == r);
}

/// One round between two nodes, from the insert on: a rumor that a node has
/// just taken in, and that has a written form, is held, or better, by every
/// node that gets the datagrams of the node's next round, does not stand
/// still and does not block the node.
pub proof fn lemma_round_shares(
    before: Server,
    after: Server,
    r: RumorView,
    window: u64,
    out: Seq<RumorView>,
    receiver: ServerView,
)
    requires
        after.wf(),
        after@ == spec_insert_rumor(before@, r),
        spec_rumor_marks(before, after, r),
        spec_rumor_applies(before@, r),
        !spec_is_about(before@, r),
        !spec_is_about(receiver, r),
        window >= 1,
        spec_covers(out, after, Set::full(), window),
        (RumorEnvelopeView { from_id: after@.me.id, kind: r }).encodable(),
        !receiver.paused,
        !receiver.blocked.contains(after@.me.id),
    ensures
        spec_holds_at_least(
            spec_receive_all(receiver, spec_datagrams(after@.me.id, out)),
            r,
        ),
{
    lemma_applied_goes_out(before, after, r, window, out);
    let i = choose|i: int| 0 <= i < out.len() && #[trigger] out[i] == r;
    lemma_round_is_held(receiver, after@.me.id, out, i);
}

/// Convergence, one round between two nodes: once every datagram of a
/// round of the node `sender` has reached a node that does not stand still
/// and does not block the sender, that node holds every rumor of the round
/// that has a written form, or better. The one exception is what the
/// sender says of the receiver itself.
pub proof fn lemma_round_is_held(
    receiver: ServerView,
    sender: Seq<u8>,
    rumors: Seq<RumorView>,
    i: int,
)
    requires
        !receiver.paused,
        !receiver.blocked.contains(sender),
        0 <= i < rumors.len(),
        !spec_is_about(receiver, rumors[i]),
        (RumorEnvelopeView { from_id: sender, kind: rumors[i] }).encodable(),
    ensures
        spec_holds_at_least(spec_receive_all(receiver, spec_datagrams(sender, rumors)), rumors[i]),
    decreases rumors.len(),
{
    let before = rumors.drop_last();
    let last = RumorEnvelopeView { from_id: sender, kind: rumors.last() };
    let earlier = spec_receive_all(receiver, spec_datagrams(sender, before));
    lemma_receive_all_keeps_the_gate(receiver, spec_datagrams(sender, before));
    if i == rumors.len() - 1 {
        assert(spec_datagrams(sender, rumors).drop_last() =~= spec_datagrams(sender, before));
        lemma_arrived_is_held(earlier, last);
    } else {
        assert(before[i] == rumors[i]);
        lemma_round_is_held(receiver, sender, before, i);
        if last.encodable() {
            assert(spec_datagrams(sender, rumors).drop_last() =~= spec_datagrams(sender, before));
            lemma_held_stays_held(earlier, rumors[i], last.encode());
        }
    }
}

/// A datagram that holds no envelope changes nothing.
pub proof fn lemma_garbage_is_dropped(sv: ServerView, msg: Seq<u8>)
    requires
        spec_decode(msg) is None,
    ensures
        spec_receive(sv, msg) == sv,
{
}

/// What became of a datagram that may hold a rumor or a probe message.
#[derive(Debug)]
pub enum Dispatched {
    /// It was dealt with as a rumor, or dropped.
    Rumor(Received),
    /// It holds a probe message, and the node reacts to it so.
    Probe(Reaction),
}

/// A [`Dispatched`] as a mathematical value.
pub enum DispatchedView {
    Rumor(Received),
    Probe(ReactionView),
}

impl View for Dispatched {
    type V = DispatchedView;

    open spec fn view(&self) -> DispatchedView {
        match self {
            Dispatched::Rumor(r) => DispatchedView::Rumor(*r),
            Dispatched::Probe(r) => DispatchedView::Probe(r@),
        }
    }
}

/// Whether a datagram that reaches a node in state `sv` is looked at as a
/// probe message: the node does not stand still, the sender is not
/// blocked, and the datagram holds a probe message.
pub open spec fn spec_is_probe(sv: ServerView, msg: Seq<u8>) -> bool {
    &&& !sv.paused
    &&& spec_sender(msg) matches Some(from) && !sv.blocked.contains(from)
    &&& spec_decode_probe(msg) is Some
}

/// What becomes of a datagram of either kind that reaches a node in state
/// `sv`.
pub open spec fn spec_dispatch(sv: ServerView, msg: Seq<u8>) -> DispatchedView {
    if spec_is_probe(sv, msg) {
        DispatchedView::Probe(spec_react(sv, spec_decode_probe(msg).unwrap()))
    } else {
        DispatchedView::Rumor(spec_outcome(sv, msg))
    }
}

/// The blocklist comes first for probe messages too: no datagram from a
/// blocked member is answered.
pub proof fn lemma_blocked_is_not_answered(sv: ServerView, msg: Seq<u8>)
    requires
        spec_sender(msg) matches Some(from) && sv.blocked.contains(from),
    ensures
        spec_dispatch(sv, msg) == DispatchedView::Rumor(Received::Blocked) || spec_dispatch(sv, msg)
            == DispatchedView::Rumor(Received::Paused),
{
}

/// The inbound side of one node.
pub struct Pull {
    pub server: Server,
}

impl Pull {
    /// The inbound side of `server`.
    pub fn new(server: Server) -> (r: Pull)
        ensures
            r.server == server,
    {
        Pull { server }
    }

    /// Deals with one datagram.
    pub fn receive(&mut self, msg: &[u8]) -> (r: Received)
        requires
            old(self).server.wf(),
        ensures
            final(self).server.wf(),
            r == spec_outcome(old(self).server@, msg@),
            final(self).server@ == spec_receive(old(self).server@, msg@),
            spec_receive_marks(old(self).server, final(self).server, msg@),
    {
        if self.server.paused() {
            return Received::Paused;
        }
        let from = match peek_sender(msg) {
            Some(id) => id,
            None => {
                return Received::Undecodable;
            },
        };
        if self.server.is_member_blocked(from.as_slice()) {
            return Received::Blocked;
        }
        let envelope = match RumorEnvelope::decode(msg) {
            Ok(e) => e,
            Err(_) => {
                return Received::Undecodable;
            },
        };
        let kind = envelope.kind.kind();
        let outcome = self.server.insert_rumor(envelope.kind);
        Received::Merged { kind, outcome }
    }

    /// Deals with one datagram of a channel that carries rumors and probe
    /// messages alike. A probe message changes nothing in the node; what
    /// the node is to send or to note comes back.
    pub fn dispatch(&mut self, msg: &[u8]) -> (r: Dispatched)
        requires
            old(self).server.wf(),
        ensures
            final(self).server.wf(),
            r@ == spec_dispatch(old(self).server@, msg@),
            final(self).server@ == spec_receive(old(self).server@, msg@),
            spec_receive_marks(old(self).server, final(self).server, msg@),
    {
        proof {
            lemma_probe_or_rumor(msg@);
        }
        if !self.server.paused() {
            match peek_sender(msg) {
                Some(from) => {
                    if !self.server.is_member_blocked(from.as_slice()) {
                        match Probe::decode(msg) {
                            Ok(probe) => {
                                return Dispatched::Probe(react(&self.server, probe));
                            },
                            Err(_) => {},
                        }
                    }
                },
                None => {},
            }
        }
        Dispatched::Rumor(self.receive(msg))
    }
}

} // verus!
