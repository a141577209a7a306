//! Members of the ring and what is believed of their health.

use vstd::prelude::*;

verus! {

/// How a member is believed to be doing.
///
/// The states are ordered `Alive < Suspect < Confirmed < Departed`; between
/// two records of one incarnation the higher state wins.
#[derive(Clone, Copy, Debug, PartialEq, Eq, Structural)]
pub enum Health {
    Alive,
    Suspect,
    Confirmed,
    Departed,
}

impl Health {
    /// Position of the state in the order of states.
    pub open spec fn rank(self) -> int {
        match self {
            Health::Alive => 0,
            Health::Suspect => 1,
            Health::Confirmed => 2,
            Health::Departed => 3,
        }
    }

    /// The state at a position, where there is one.
    pub open spec fn spec_from_rank(r: int) -> Option<Health> {
        if r == 0 {
            Some(Health::Alive)
        } else if r == 1 {
            Some(Health::Suspect)
        } else if r == 2 {
            Some(Health::Confirmed)
        } else if r == 3 {
            Some(Health::Departed)
        } else {
            None
        }
    }

    /// The byte that stands for the state on the wire: its rank.
    pub fn to_byte(self) -> (r: u8)
        ensures
            r == self.rank(),
    {
        match self {
            Health::Alive => 0,
            Health::Suspect => 1,
            Health::Confirmed => 2,
            Health::Departed => 3,
        }
    }

    /// The state that a byte stands for.
    pub fn from_byte(b: u8) -> (r: Option<Health>)
        ensures
            r == Health::spec_from_rank(b as int),
    {
        if b == 0 {
            Some(Health::Alive)
        } else if b == 1 {
            Some(Health::Suspect)
        } else if b == 2 {
            Some(Health::Confirmed)
        } else if b == 3 {
            Some(Health::Departed)
        } else {
            None
        }
    }

    /// Whether `self` is the stricter of the two states.
    pub fn outranks(self, other: Health) -> (r: bool)
        ensures
            r == (self.rank() > other.rank()),
    {
        self.to_byte() > other.to_byte()
    }
}

/// Ranks and states correspond one to one.
pub proof fn lemma_rank_round_trip(h: Health, r: int)
    ensures
        Health::spec_from_rank(h.rank()) == Some(h),
        Health::spec_from_rank(r) matches Some(g) ==> g.rank() == r,
{
}

/// One node of the ring: who it is, where gossip reaches it, and how often
/// it has had to announce itself anew.
#[derive(Debug)]
pub struct Member {
    pub id: Vec<u8>,
    pub address: Vec<u8>,
    pub incarnation: u64,
}

/// A [`Member`] as a mathematical value.
pub struct MemberView {
    pub id: Seq<u8>,
    pub address: Seq<u8>,
    pub incarnation: u64,
}

impl View for Member {
    type V = MemberView;

    open spec fn view(&self) -> MemberView {
        MemberView { id: self.id@, address: self.address@, incarnation: self.incarnation }
    }
}

impl Clone for Member {
    fn clone(&self) -> (r: Self)
        ensures
            r@ == self@,
    {
        Member {
            id: self.id.clone(),
            address: self.address.clone(),
            incarnation: self.incarnation,
        }
    }
}

impl Member {
    /// A member in its first incarnation.
    pub fn new(id: Vec<u8>, address: Vec<u8>) -> (r: Member)
        ensures
            r@ == (MemberView { id: id@, address: address@, incarnation: 0 }),
    {
        Member { id, address, incarnation: 0 }
    }
}

/// What one node says of a member: the member as that node knows it, and
/// the health it ascribes to it.
#[derive(Debug)]
pub struct Membership {
    pub member: Member,
    pub health: Health,
}

/// A [`Membership`] as a mathematical value.
pub struct MembershipView {
    pub member: MemberView,
    pub health: Health,
}

impl View for Membership {
    type V = MembershipView;

    open spec fn view(&self) -> MembershipView {
        MembershipView { member: self.member@, health: self.health }
    }
}

impl Clone for Membership {
    fn clone(&self) -> (r: Self)
        ensures
            r@ == self@,
    {
        Membership { member: self.member.clone(), health: self.health }
    }
}

} // verus!
