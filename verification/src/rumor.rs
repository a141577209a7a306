//! The facts that nodes tell each other, and the rule by which a newer fact
//! replaces an older one.
//!
//! Every kind of rumor has an identity, made of a group and an id within
//! the group, a version that only its owner raises, and a merge rule. The
//! kinds are a closed set, so a rumor is one enum and the three are
//! functions on it.

use vstd::prelude::*;
use vstd::slice::*;
use vstd::string::StringSliceAdditionalSpecFns;
use crate::member::{Health, Membership, MembershipView};
use crate::wire::same_bytes;

verus! {

/// The kind of a rumor, as its tag on the wire tells it.
#[derive(Clone, Copy, Debug, PartialEq, Eq, Structural)]
pub enum RumorType {
    Member,
    Service,
    ServiceConfig,
    ServiceFile,
    Election,
    ElectionUpdate,
    Departure,
}

impl RumorType {
    /// The tag that stands for the kind on the wire.
    pub open spec fn tag(self) -> int {
        match self {
            RumorType::Member => 1,
            RumorType::Service => 2,
            RumorType::ServiceConfig => 3,
            RumorType::ServiceFile => 4,
            RumorType::Election => 5,
            RumorType::ElectionUpdate => 6,
            RumorType::Departure => 7,
        }
    }

    /// The kind that a tag stands for, where it stands for one.
    pub open spec fn spec_from_tag(t: int) -> Option<RumorType> {
        if t == 1 {
            Some(RumorType::Member)
        } else if t == 2 {
            Some(RumorType::Service)
        } else if t == 3 {
            Some(RumorType::ServiceConfig)
        } else if t == 4 {
            Some(RumorType::ServiceFile)
        } else if t == 5 {
            Some(RumorType::Election)
        } else if t == 6 {
            Some(RumorType::ElectionUpdate)
        } else if t == 7 {
            Some(RumorType::Departure)
        } else {
            None
        }
    }

    /// Executable form of [`RumorType::tag`].
    pub fn to_byte(self) -> (r: u8)
        ensures
            r == self.tag(),
    {
        match self {
            RumorType::Member => 1,
            RumorType::Service => 2,
            RumorType::ServiceConfig => 3,
            RumorType::ServiceFile => 4,
            RumorType::Election => 5,
            RumorType::ElectionUpdate => 6,
            RumorType::Departure => 7,
        }
    }

    /// Executable form of [`RumorType::spec_from_tag`].
    pub fn from_byte(b: u8) -> (r: Option<RumorType>)
        ensures
            r == RumorType::spec_from_tag(b as int),
    {
        if b == 1 {
            Some(RumorType::Member)
        } else if b == 2 {
            Some(RumorType::Service)
        } else if b == 3 {
            Some(RumorType::ServiceConfig)
        } else if b == 4 {
            Some(RumorType::ServiceFile)
        } else if b == 5 {
            Some(RumorType::Election)
        } else if b == 6 {
            Some(RumorType::ElectionUpdate)
        } else if b == 7 {
            Some(RumorType::Departure)
        } else {
            None
        }
    }
}

/// Tags and kinds correspond one to one.
pub proof fn lemma_tag_round_trip(k: RumorType, t: int)
    ensures
        RumorType::spec_from_tag(k.tag()) == Some(k),
        RumorType::spec_from_tag(t) matches Some(j) ==> j.tag() == t,
{
}

/// A service process announcing that it runs in a service group.
#[derive(Debug)]
pub struct Service {
    pub member_id: Vec<u8>,
    pub service_group: Vec<u8>,
    pub incarnation: u64,
    /// What the process says of itself: package, addresses, exported
    /// configuration. The engine carries it and does not read it.
    pub body: Vec<u8>,
}

/// A [`Service`] as a mathematical value.
pub struct ServiceView {
    pub member_id: Seq<u8>,
    pub service_group: Seq<u8>,
    pub incarnation: u64,
    pub body: Seq<u8>,
}

impl View for Service {
    type V = ServiceView;

    open spec fn view(&self) -> ServiceView {
        ServiceView {
            member_id: self.member_id@,
            service_group: self.service_group@,
            incarnation: self.incarnation,
            body: self.body@,
        }
    }
}

impl Clone for Service {
    fn clone(&self) -> (r: Self)
        ensures
            r@ == self@,
    {
        Service {
            member_id: self.member_id.clone(),
            service_group: self.service_group.clone(),
            incarnation: self.incarnation,
            body: self.body.clone(),
        }
    }
}

/// The configuration of a service group, one per group.
#[derive(Debug)]
pub struct ServiceConfig {
    pub service_group: Vec<u8>,
    pub incarnation: u64,
    pub encrypted: bool,
    pub config: Vec<u8>,
}

/// A [`ServiceConfig`] as a mathematical value.
pub struct ServiceConfigView {
    pub service_group: Seq<u8>,
    pub incarnation: u64,
    pub encrypted: bool,
    pub config: Seq<u8>,
}

impl View for ServiceConfig {
    type V = ServiceConfigView;

    open spec fn view(&self) -> ServiceConfigView {
        ServiceConfigView {
            service_group: self.service_group@,
            incarnation: self.incarnation,
            encrypted: self.encrypted,
            config: self.config@,
        }
    }
}

impl Clone for ServiceConfig {
    fn clone(&self) -> (r: Self)
        ensures
            r@ == self@,
    {
        ServiceConfig {
            service_group: self.service_group.clone(),
            incarnation: self.incarnation,
            encrypted: self.encrypted,
            config: self.config.clone(),
        }
    }
}

/// A named file handed to a service group, one per group and name.
#[derive(Debug)]
pub struct ServiceFile {
    pub service_group: Vec<u8>,
    pub incarnation: u64,
    pub encrypted: bool,
    pub filename: Vec<u8>,
    pub body: Vec<u8>,
}

/// A [`ServiceFile`] as a mathematical value.
pub struct ServiceFileView {
    pub service_group: Seq<u8>,
    pub incarnation: u64,
    pub encrypted: bool,
    pub filename: Seq<u8>,
    pub body: Seq<u8>,
}

impl View for ServiceFile {
    type V = ServiceFileView;

    open spec fn view(&self) -> ServiceFileView {
        ServiceFileView {
            service_group: self.service_group@,
            incarnation: self.incarnation,
            encrypted: self.encrypted,
            filename: self.filename@,
            body: self.body@,
        }
    }
}

impl Clone for ServiceFile {
    fn clone(&self) -> (r: Self)
        ensures
            r@ == self@,
    {
        ServiceFile {
            service_group: self.service_group.clone(),
            incarnation: self.incarnation,
            encrypted: self.encrypted,
            filename: self.filename.clone(),
            body: self.body.clone(),
        }
    }
}

/// How far an election has come.
#[derive(Clone, Copy, Debug, PartialEq, Eq, Structural)]
pub enum ElectionStatus {
    Running,
    NoQuorum,
    Finished,
}

impl ElectionStatus {
    /// The byte that stands for the status on the wire.
    pub open spec fn code(self) -> int {
        match self {
            ElectionStatus::Running => 0,
            ElectionStatus::NoQuorum => 1,
            ElectionStatus::Finished => 2,
        }
    }

    /// The status that a byte stands for, where it stands for one.
    pub open spec fn spec_from_code(c: int) -> Option<ElectionStatus> {
        if c == 0 {
            Some(ElectionStatus::Running)
        } else if c == 1 {
            Some(ElectionStatus::NoQuorum)
        } else if c == 2 {
            Some(ElectionStatus::Finished)
        } else {
            None
        }
    }

    /// Executable form of [`ElectionStatus::code`].
    pub fn to_byte(self) -> (r: u8)
        ensures
            r == self.code(),
    {
        match self {
            ElectionStatus::Running => 0,
            ElectionStatus::NoQuorum => 1,
            ElectionStatus::Finished => 2,
        }
    }

    /// Executable form of [`ElectionStatus::spec_from_code`].
    pub fn from_byte(b: u8) -> (r: Option<ElectionStatus>)
        ensures
            r == ElectionStatus::spec_from_code(b as int),
    {
        if b == 0 {
            Some(ElectionStatus::Running)
        } else if b == 1 {
            Some(ElectionStatus::NoQuorum)
        } else if b == 2 {
            Some(ElectionStatus::Finished)
        } else {
            None
        }
    }
}

/// A ballot for the leader of a service group, or the announcement of the
/// result; one of each per group.
#[derive(Debug)]
pub struct Election {
    pub service_group: Vec<u8>,
    /// The member that the ballot names.
    pub member_id: Vec<u8>,
    pub term: u64,
    pub suffrage: u64,
    pub status: ElectionStatus,
}

/// An [`Election`] as a mathematical value.
pub struct ElectionView {
    pub service_group: Seq<u8>,
    pub member_id: Seq<u8>,
    pub term: u64,
    pub suffrage: u64,
    pub status: ElectionStatus,
}

impl View for Election {
    type V = ElectionView;

    open spec fn view(&self) -> ElectionView {
        ElectionView {
            service_group: self.service_group@,
            member_id: self.member_id@,
            term: self.term,
            suffrage: self.suffrage,
            status: self.status,
        }
    }
}

impl Clone for Election {
    fn clone(&self) -> (r: Self)
        ensures
            r@ == self@,
    {
        Election {
            service_group: self.service_group.clone(),
            member_id: self.member_id.clone(),
            term: self.term,
            suffrage: self.suffrage,
            status: self.status,
        }
    }
}

/// The mark that a member has left for good.
#[derive(Debug)]
pub struct Departure {
    pub member_id: Vec<u8>,
}

/// A [`Departure`] as a mathematical value.
pub struct DepartureView {
    pub member_id: Seq<u8>,
}

impl View for Departure {
    type V = DepartureView;

    open spec fn view(&self) -> DepartureView {
        DepartureView { member_id: self.member_id@ }
    }
}

impl Clone for Departure {
    fn clone(&self) -> (r: Self)
        ensures
            r@ == self@,
    {
        Departure { member_id: self.member_id.clone() }
    }
}

/// A rumor of any kind.
#[derive(Debug)]
pub enum Rumor {
    Membership(Membership),
    Service(Service),
    ServiceConfig(ServiceConfig),
    ServiceFile(ServiceFile),
    Election(Election),
    ElectionUpdate(Election),
    Departure(Departure),
}

/// A [`Rumor`] as a mathematical value.
pub enum RumorView {
    Membership(MembershipView),
    Service(ServiceView),
    ServiceConfig(ServiceConfigView),
    ServiceFile(ServiceFileView),
    Election(ElectionView),
    ElectionUpdate(ElectionView),
    Departure(DepartureView),
}

impl View for Rumor {
    type V = RumorView;

    open spec fn view(&self) -> RumorView {
        match self {
            Rumor::Membership(m) => RumorView::Membership(m@),
            Rumor::Service(s) => RumorView::Service(s@),
            Rumor::ServiceConfig(c) => RumorView::ServiceConfig(c@),
            Rumor::ServiceFile(f) => RumorView::ServiceFile(f@),
            Rumor::Election(e) => RumorView::Election(e@),
            Rumor::ElectionUpdate(e) => RumorView::ElectionUpdate(e@),
            Rumor::Departure(d) => RumorView::Departure(d@),
        }
    }
}

impl Clone for Rumor {
    fn clone(&self) -> (r: Self)
        ensures
            r@ == self@,
    {
        match self {
            Rumor::Membership(m) => Rumor::Membership(m.clone()),
            Rumor::Service(s) => Rumor::Service(s.clone()),
            Rumor::ServiceConfig(c) => Rumor::ServiceConfig(c.clone()),
            Rumor::ServiceFile(f) => Rumor::ServiceFile(f.clone()),
            Rumor::Election(e) => Rumor::Election(e.clone()),
            Rumor::ElectionUpdate(e) => Rumor::ElectionUpdate(e.clone()),
            Rumor::Departure(d) => Rumor::Departure(d.clone()),
        }
    }
}

/// The group under which all membership records are kept.
pub open spec fn spec_membership_group() -> Seq<u8> {
    "membership".spec_bytes()
}

/// The group under which all departures are kept.
pub open spec fn spec_departure_group() -> Seq<u8> {
    "departure".spec_bytes()
}

/// The id of the one configuration of a service group.
pub open spec fn spec_service_config_id() -> Seq<u8> {
    "service_config".spec_bytes()
}

/// The id of the one election, and of the one election update, of a
/// service group.
pub open spec fn spec_election_id() -> Seq<u8> {
    "election".spec_bytes()
}

impl RumorView {
    /// The kind of the rumor.
    pub open spec fn kind(self) -> RumorType {
        match self {
            RumorView::Membership(_) => RumorType::Member,
            RumorView::Service(_) => RumorType::Service,
            RumorView::ServiceConfig(_) => RumorType::ServiceConfig,
            RumorView::ServiceFile(_) => RumorType::ServiceFile,
            RumorView::Election(_) => RumorType::Election,
            RumorView::ElectionUpdate(_) => RumorType::ElectionUpdate,
            RumorView::Departure(_) => RumorType::Departure,
        }
    }

    /// The group that the rumor belongs to: its service group, or the one
    /// group of its kind.
    pub open spec fn group(self) -> Seq<u8> {
        match self {
            RumorView::Membership(_) => spec_membership_group(),
            RumorView::Service(s) => s.service_group,
            RumorView::ServiceConfig(c) => c.service_group,
            RumorView::ServiceFile(f) => f.service_group,
            RumorView::Election(e) => e.service_group,
            RumorView::ElectionUpdate(e) => e.service_group,
            RumorView::Departure(_) => spec_departure_group(),
        }
    }

    /// What tells the rumor from the others of its group.
    pub open spec fn id(self) -> Seq<u8> {
        match self {
            RumorView::Membership(m) => m.member.id,
            RumorView::Service(s) => s.member_id,
            RumorView::ServiceConfig(_) => spec_service_config_id(),
            RumorView::ServiceFile(f) => f.filename,
            RumorView::Election(_) => spec_election_id(),
            RumorView::ElectionUpdate(_) => spec_election_id(),
            RumorView::Departure(d) => d.member_id,
        }
    }

    /// The number by which two rumors of one identity are ordered.
    pub open spec fn version(self) -> u64 {
        match self {
            RumorView::Membership(m) => m.member.incarnation,
            RumorView::Service(s) => s.incarnation,
            RumorView::ServiceConfig(c) => c.incarnation,
            RumorView::ServiceFile(f) => f.incarnation,
            RumorView::Election(e) => e.term,
            RumorView::ElectionUpdate(e) => e.term,
            RumorView::Departure(_) => 0,
        }
    }

    /// What decides between two rumors of one identity and one version: for
    /// a membership record the rank of its health, for the other kinds
    /// nothing.
    pub open spec fn weight(self) -> int {
        match self {
            RumorView::Membership(m) => m.health.rank(),
            _ => 0,
        }
    }

    /// Whether nothing may replace the rumor once it is stored: a departure,
    /// and a membership record that says `Departed`.
    pub open spec fn is_final(self) -> bool {
        match self {
            RumorView::Membership(m) => m.health == Health::Departed,
            RumorView::Departure(_) => true,
            _ => false,
        }
    }

    /// Whether the two rumors speak of the same thing.
    pub open spec fn same_identity(self, other: RumorView) -> bool {
        &&& self.kind() == other.kind()
        &&& self.group() == other.group()
        &&& self.id() == other.id()
    }

    /// The merge rule: whether `self`, coming in, replaces `stored`, which
    /// has the same identity. A final rumor is never replaced; otherwise the
    /// higher version wins, and at equal versions the higher weight.
    pub open spec fn supersedes(self, stored: RumorView) -> bool {
        &&& !stored.is_final()
        &&& (self.version() > stored.version() || (self.version() == stored.version()
            && self.weight() > stored.weight()))
    }
}

/// The group under which all membership records are kept.
pub fn membership_group() -> (r: Vec<u8>)
    ensures
        r@ == spec_membership_group(),
{
    slice_to_vec("membership".as_bytes())
}

/// The group under which all departures are kept.
pub fn departure_group() -> (r: Vec<u8>)
    ensures
        r@ == spec_departure_group(),
{
    slice_to_vec("departure".as_bytes())
}

impl ServiceConfig {
    /// The id of the one configuration of a service group.
    pub fn const_id() -> (r: Vec<u8>)
        ensures
            r@ == spec_service_config_id(),
    {
        slice_to_vec("service_config".as_bytes())
    }
}

impl Election {
    /// The id of the one election, and of the one election update, of a
    /// service group.
    pub fn const_id() -> (r: Vec<u8>)
        ensures
            r@ == spec_election_id(),
    {
        slice_to_vec("election".as_bytes())
    }
}

impl Rumor {
    /// The kind of the rumor.
    pub fn kind(&self) -> (r: RumorType)
        ensures
            r == self@.kind(),
    {
        match self {
            Rumor::Membership(_) => RumorType::Member,
            Rumor::Service(_) => RumorType::Service,
            Rumor::ServiceConfig(_) => RumorType::ServiceConfig,
            Rumor::ServiceFile(_) => RumorType::ServiceFile,
            Rumor::Election(_) => RumorType::Election,
            Rumor::ElectionUpdate(_) => RumorType::ElectionUpdate,
            Rumor::Departure(_) => RumorType::Departure,
        }
    }

    /// The group that the rumor belongs to.
    pub fn group(&self) -> (r: Vec<u8>)
        ensures
            r@ == self@.group(),
    {
        match self {
            Rumor::Membership(_) => membership_group(),
            Rumor::Service(s) => s.service_group.clone(),
            Rumor::ServiceConfig(c) => c.service_group.clone(),
            Rumor::ServiceFile(f) => f.service_group.clone(),
            Rumor::Election(e) => e.service_group.clone(),
            Rumor::ElectionUpdate(e) => e.service_group.clone(),
            Rumor::Departure(_) => departure_group(),
        }
    }

    /// What tells the rumor from the others of its group.
    pub fn id(&self) -> (r: Vec<u8>)
        ensures
            r@ == self@.id(),
    {
        match self {
            Rumor::Membership(m) => m.member.id.clone(),
            Rumor::Service(s) => s.member_id.clone(),
            Rumor::ServiceConfig(_) => ServiceConfig::const_id(),
            Rumor::ServiceFile(f) => f.filename.clone(),
            Rumor::Election(_) => Election::const_id(),
            Rumor::ElectionUpdate(_) => Election::const_id(),
            Rumor::Departure(d) => d.member_id.clone(),
        }
    }

    /// The number by which two rumors of one identity are ordered.
    pub fn version(&self) -> (r: u64)
        ensures
            r == self@.version(),
    {
        match self {
            Rumor::Membership(m) => m.member.incarnation,
            Rumor::Service(s) => s.incarnation,
            Rumor::ServiceConfig(c) => c.incarnation,
            Rumor::ServiceFile(f) => f.incarnation,
            Rumor::Election(e) => e.term,
            Rumor::ElectionUpdate(e) => e.term,
            Rumor::Departure(_) => 0,
        }
    }

    /// Whether nothing may replace the rumor once it is stored.
    pub fn is_final(&self) -> (r: bool)
        ensures
            r == self@.is_final(),
    {
        match self {
            Rumor::Membership(m) => m.health == Health::Departed,
            Rumor::Departure(_) => true,
            _ => false,
        }
    }

    /// Whether the rumor belongs to `group`.
    pub fn in_group(&self, group: &[u8]) -> (r: bool)
        ensures
            r == (self@.group() == group@),
    {
        match self {
            Rumor::Membership(_) => same_bytes("membership".as_bytes(), group),
            Rumor::Service(s) => same_bytes(s.service_group.as_slice(), group),
            Rumor::ServiceConfig(c) => same_bytes(c.service_group.as_slice(), group),
            Rumor::ServiceFile(f) => same_bytes(f.service_group.as_slice(), group),
            Rumor::Election(e) => same_bytes(e.service_group.as_slice(), group),
            Rumor::ElectionUpdate(e) => same_bytes(e.service_group.as_slice(), group),
            Rumor::Departure(_) => same_bytes("departure".as_bytes(), group),
        }
    }

    /// Whether the rumor has the id `id`.
    pub fn has_id(&self, id: &[u8]) -> (r: bool)
        ensures
            r == (self@.id() == id@),
    {
        match self {
            Rumor::Membership(m) => same_bytes(m.member.id.as_slice(), id),
            Rumor::Service(s) => same_bytes(s.member_id.as_slice(), id),
            Rumor::ServiceConfig(_) => same_bytes("service_config".as_bytes(), id),
            Rumor::ServiceFile(f) => same_bytes(f.filename.as_slice(), id),
            Rumor::Election(_) => same_bytes("election".as_bytes(), id),
            Rumor::ElectionUpdate(_) => same_bytes("election".as_bytes(), id),
            Rumor::Departure(d) => same_bytes(d.member_id.as_slice(), id),
        }
    }

    /// Whether the two rumors speak of the same thing.
    pub fn same_identity(&self, other: &Rumor) -> (r: bool)
        ensures
            r == self@.same_identity(other@),
    {
        if self.kind() != other.kind() {
            return false;
        }
        let group = other.group();
        let id = other.id();
        self.in_group(group.as_slice()) && self.has_id(id.as_slice())
    }

    /// The merge rule: whether `self`, coming in, replaces `stored`.
    pub fn supersedes(&self, stored: &Rumor) -> (r: bool)
        ensures
            r == self@.supersedes(stored@),
    {
        if stored.is_final() {
            return false;
        }
        let mine = self.version();
        let theirs = stored.version();
        if mine != theirs {
            return mine > theirs;
        }
        match (self, stored) {
            (Rumor::Membership(a), Rumor::Membership(b)) => a.health.outranks(b.health),
            (Rumor::Membership(a), _) => a.health.outranks(Health::Alive),
            _ => false,
        }
    }
}

} // verus!
