//! Rumors on the wire: how each kind fills a frame, and how a frame is read
//! back as a rumor of its kind.
//!
//! | kind | key | version | payload |
//! |---|---|---|---|
//! | membership | member id | incarnation | health, address |
//! | service | service group | incarnation | member id (prefixed), body |
//! | service config | service group | incarnation | encrypted, config |
//! | service file | service group | incarnation | encrypted, filename (prefixed), body |
//! | election, update | service group | term | status, suffrage, member id |
//! | departure | member id | 0 | empty |

use vstd::prelude::*;
use vstd::bytes::*;
use crate::error::Error;
use crate::frame::{lemma_emit_parse, lemma_parse_emit, spec_exact, spec_parse, Frame, FrameView};
use crate::member::{lemma_rank_round_trip, Health, Member, MemberView, Membership, MembershipView};
use crate::rumor::{
    lemma_tag_round_trip, Departure, DepartureView, Election, ElectionStatus, ElectionView, Rumor,
    RumorType, RumorView, Service, ServiceConfig, ServiceConfigView, ServiceFile, ServiceFileView,
    ServiceView,
};
use crate::wire::{
    lemma_int_widths, lemma_prefixed_at_is_written, lemma_prefixed_at_written,
    lemma_u64_at_is_written, put_prefixed, put_u64, read_prefixed,
    read_rest, read_u64, spec_prefixed, spec_prefixed_at, spec_u64_at, MAX_LEN,
};

verus! {

/// A rumor together with the id of the member that sent it.
#[derive(Debug)]
pub struct RumorEnvelope {
    pub from_id: Vec<u8>,
    pub kind: Rumor,
}

/// A [`RumorEnvelope`] as a mathematical value.
pub struct RumorEnvelopeView {
    pub from_id: Seq<u8>,
    pub kind: RumorView,
}

impl View for RumorEnvelope {
    type V = RumorEnvelopeView;

    open spec fn view(&self) -> RumorEnvelopeView {
        RumorEnvelopeView { from_id: self.from_id@, kind: self.kind@ }
    }
}

impl Clone for RumorEnvelope {
    fn clone(&self) -> (r: Self)
        ensures
            r@ == self@,
    {
        RumorEnvelope { from_id: self.from_id.clone(), kind: self.kind.clone() }
    }
}

/// The byte that stands for a flag.
pub open spec fn spec_flag(b: bool) -> u8 {
    if b {
        1
    } else {
        0
    }
}

impl RumorView {
    /// What the rumor puts into the key field of its frame.
    pub open spec fn wire_key(self) -> Seq<u8> {
        match self {
            RumorView::Membership(m) => m.member.id,
            RumorView::Departure(d) => d.member_id,
            _ => self.group(),
        }
    }

    /// Whether the byte strings that the payload holds behind a length fit
    /// their prefixes: the member id of a service, and the name of a file.
    pub open spec fn prefixes_fit(self) -> bool {
        match self {
            RumorView::Service(s) => s.member_id.len() <= MAX_LEN,
            RumorView::ServiceFile(f) => f.filename.len() <= MAX_LEN,
            _ => true,
        }
    }

    /// What the rumor puts into the payload field of its frame.
    pub open spec fn payload(self) -> Seq<u8> {
        match self {
            RumorView::Membership(m) => seq![m.health.rank() as u8] + m.member.address,
            RumorView::Service(s) => spec_prefixed(s.member_id) + s.body,
            RumorView::ServiceConfig(c) => seq![spec_flag(c.encrypted)] + c.config,
            RumorView::ServiceFile(f) => seq![spec_flag(f.encrypted)] + spec_prefixed(f.filename)
                + f.body,
            RumorView::Election(e) => seq![e.status.code() as u8] + spec_u64_to_le_bytes(
                e.suffrage,
            ) + e.member_id,
            RumorView::ElectionUpdate(e) => seq![e.status.code() as u8] + spec_u64_to_le_bytes(
                e.suffrage,
            ) + e.member_id,
            RumorView::Departure(_) => Seq::empty(),
        }
    }
}

/// The ballot that a frame of an election or an election update holds.
pub open spec fn spec_ballot(f: FrameView) -> Option<ElectionView> {
    let p = f.payload;
    if p.len() < 9 {
        None
    } else {
        match ElectionStatus::spec_from_code(p[0] as int) {
            None => None,
            Some(status) => Some(
                ElectionView {
                    service_group: f.key,
                    member_id: p.subrange(9, p.len() as int),
                    term: f.version,
                    suffrage: spec_u64_from_le_bytes(p.subrange(1, 9)),
                    status,
                },
            ),
        }
    }
}

/// The rumor that a frame holds. `None` where the tag stands for no kind or
/// the payload is not one that the kind writes.
pub open spec fn spec_rumor(f: FrameView) -> Option<RumorView> {
    let p = f.payload;
    match RumorType::spec_from_tag(f.tag as int) {
        None => None,
        Some(RumorType::Member) => if p.len() < 1 {
            None
        } else {
            match Health::spec_from_rank(p[0] as int) {
                None => None,
                Some(health) => Some(
                    RumorView::Membership(
                        MembershipView {
                            member: MemberView {
                                id: f.key,
                                address: p.subrange(1, p.len() as int),
                                incarnation: f.version,
                            },
                            health,
                        },
                    ),
                ),
            }
        },
        Some(RumorType::Service) => match spec_prefixed_at(p, 0) {
            None => None,
            Some((member_id, at)) => Some(
                RumorView::Service(
                    ServiceView {
                        member_id,
                        service_group: f.key,
                        incarnation: f.version,
                        body: p.subrange(at, p.len() as int),
                    },
                ),
            ),
        },
        Some(RumorType::ServiceConfig) => if p.len() < 1 || p[0] > 1 {
            None
        } else {
            Some(
                RumorView::ServiceConfig(
                    ServiceConfigView {
                        service_group: f.key,
                        incarnation: f.version,
                        encrypted: p[0] == 1,
                        config: p.subrange(1, p.len() as int),
                    },
                ),
            )
        },
        Some(RumorType::ServiceFile) => if p.len() < 1 || p[0] > 1 {
            None
        } else {
            match spec_prefixed_at(p, 1) {
                None => None,
                Some((filename, at)) => Some(
                    RumorView::ServiceFile(
                        ServiceFileView {
                            service_group: f.key,
                            incarnation: f.version,
                            encrypted: p[0] == 1,
                            filename,
                            body: p.subrange(at, p.len() as int),
                        },
                    ),
                ),
            }
        },
        Some(RumorType::Election) => match spec_ballot(f) {
            None => None,
            Some(e) => Some(RumorView::Election(e)),
        },
        Some(RumorType::ElectionUpdate) => match spec_ballot(f) {
            None => None,
            Some(e) => Some(RumorView::ElectionUpdate(e)),
        },
        Some(RumorType::Departure) => if f.version != 0 || p.len() != 0 {
            None
        } else {
            Some(RumorView::Departure(DepartureView { member_id: f.key }))
        },
    }
}

impl RumorEnvelopeView {
    /// The frame that carries the envelope.
    pub open spec fn frame(self) -> FrameView {
        FrameView {
            tag: self.kind.kind().tag() as u8,
            from_id: self.from_id,
            key: self.kind.wire_key(),
            version: self.kind.version(),
            payload: self.kind.payload(),
        }
    }

    /// Whether the envelope has a written form.
    pub open spec fn encodable(self) -> bool {
        self.frame().fits()
    }

    /// The written form.
    pub open spec fn encode(self) -> Seq<u8> {
        self.frame().emit()
    }
}

/// The envelope that a frame holds.
pub open spec fn spec_envelope(f: FrameView) -> Option<RumorEnvelopeView> {
    match spec_rumor(f) {
        None => None,
        Some(kind) => Some(RumorEnvelopeView { from_id: f.from_id, kind }),
    }
}

/// The envelope that a datagram holds.
pub open spec fn spec_decode(s: Seq<u8>) -> Option<RumorEnvelopeView> {
    match spec_parse(s) {
        None => None,
        Some((f, _)) => spec_envelope(f),
    }
}

/// The frame of an envelope is read back as that envelope.
pub proof fn lemma_envelope_of_frame(e: RumorEnvelopeView)
    requires
        e.encodable(),
    ensures
        spec_envelope(e.frame()) == Some(e),
{
    let f = e.frame();
    let p = f.payload;
    lemma_tag_round_trip(e.kind.kind(), 0);
    match e.kind {
        RumorView::Membership(m) => {
            lemma_rank_round_trip(m.health, 0);
            assert(p.subrange(1, p.len() as int) =~= m.member.address);
        },
        RumorView::Service(s) => {
            lemma_int_widths(s.member_id.len() as u32, 0);
            assert(p =~= Seq::<u8>::empty() + spec_prefixed(s.member_id) + s.body);
            lemma_prefixed_at_written(Seq::<u8>::empty(), s.member_id, s.body);
            assert(p.subrange(4 + s.member_id.len() as int, p.len() as int) =~= s.body);
        },
        RumorView::ServiceConfig(c) => {
            assert(p.subrange(1, p.len() as int) =~= c.config);
        },
        RumorView::ServiceFile(sf) => {
            lemma_int_widths(sf.filename.len() as u32, 0);
            let head = seq![spec_flag(sf.encrypted)];
            assert(p =~= head + spec_prefixed(sf.filename) + sf.body);
            lemma_prefixed_at_written(head, sf.filename, sf.body);
            assert(p.subrange(5 + sf.filename.len() as int, p.len() as int) =~= sf.body);
        },
        RumorView::Election(b) => {
            lemma_int_widths(0, b.suffrage);
            assert(p.subrange(1, 9) =~= spec_u64_to_le_bytes(b.suffrage));
            assert(p.subrange(9, p.len() as int) =~= b.member_id);
        },
        RumorView::ElectionUpdate(b) => {
            lemma_int_widths(0, b.suffrage);
            assert(p.subrange(1, 9) =~= spec_u64_to_le_bytes(b.suffrage));
            assert(p.subrange(9, p.len() as int) =~= b.member_id);
        },
        RumorView::Departure(_) => {},
    }
}

/// A frame that holds an envelope is the frame of that envelope.
pub proof fn lemma_frame_of_envelope(f: FrameView)
    requires
        spec_envelope(f) is Some,
    ensures
        spec_envelope(f).unwrap().frame() == f,
{
    let e = spec_envelope(f).unwrap();
    let p = f.payload;
    lemma_tag_round_trip(RumorType::Member, f.tag as int);
    match e.kind {
        RumorView::Membership(m) => {
            lemma_rank_round_trip(Health::Alive, p[0] as int);
            assert(e.kind.payload() =~= p);
        },
        RumorView::Service(s) => {
            lemma_prefixed_at_is_written(p, 0);
            let at = spec_prefixed_at(p, 0).unwrap().1;
            assert(p =~= p.subrange(0, at) + p.subrange(at, p.len() as int));
        },
        RumorView::ServiceConfig(c) => {
            assert(e.kind.payload() =~= p);
        },
        RumorView::ServiceFile(sf) => {
            lemma_prefixed_at_is_written(p, 1);
            let at = spec_prefixed_at(p, 1).unwrap().1;
            assert(p =~= seq![p[0]] + p.subrange(1, at) + p.subrange(at, p.len() as int));
        },
        RumorView::Election(b) => {
            lemma_ballot_payload(f);
        },
        RumorView::ElectionUpdate(b) => {
            lemma_ballot_payload(f);
        },
        RumorView::Departure(_) => {
            assert(e.kind.payload() =~= p);
        },
    }
}

/// The payload of a frame that holds a ballot is the written form of the
/// ballot's status, suffrage and member.
proof fn lemma_ballot_payload(f: FrameView)
    requires
        spec_ballot(f) is Some,
    ensures
        f.payload == seq![spec_ballot(f).unwrap().status.code() as u8] + spec_u64_to_le_bytes(
            spec_ballot(f).unwrap().suffrage,
        ) + spec_ballot(f).unwrap().member_id,
{
    let p = f.payload;
    let b = spec_ballot(f).unwrap();
    assert(spec_u64_at(p, 1) is Some);
    lemma_u64_at_is_written(p, 1);
    assert(p =~= seq![p[0]] + p.subrange(1, 9) + p.subrange(9, p.len() as int));
}

/// Decoding what was encoded gives the envelope back.
pub proof fn lemma_decode_encode(e: RumorEnvelopeView)
    requires
        e.encodable(),
    ensures
        spec_decode(e.encode()) == Some(e),
        spec_exact(e.encode()),
{
    lemma_parse_emit(e.frame());
    lemma_envelope_of_frame(e);
}

/// Encoding what was decoded gives the bytes back, for every datagram that
/// decodes and holds nothing behind the fields known here.
pub proof fn lemma_encode_decode(s: Seq<u8>)
    requires
        spec_decode(s) is Some,
        spec_exact(s),
    ensures
        spec_decode(s).unwrap().encodable(),
        spec_decode(s).unwrap().encode() == s,
{
    lemma_emit_parse(s);
    lemma_frame_of_envelope(spec_parse(s).unwrap().0);
}

/// The byte that stands for a flag.
fn flag_byte(b: bool) -> (r: u8)
    ensures
        r == spec_flag(b),
{
    if b {
        1
    } else {
        0
    }
}

impl Rumor {
    /// What the rumor puts into the key field of its frame.
    pub fn wire_key(&self) -> (r: Vec<u8>)
        ensures
            r@ == self@.wire_key(),
    {
        match self {
            Rumor::Membership(m) => m.member.id.clone(),
            Rumor::Departure(d) => d.member_id.clone(),
            _ => self.group(),
        }
    }

    /// What the rumor puts into the payload field of its frame, if the
    /// lengths in it fit their prefixes.
    pub fn payload(&self) -> (r: Result<Vec<u8>, Error>)
        ensures
            r is Ok <==> self@.prefixes_fit(),
            r matches Ok(p) ==> p@ == self@.payload(),
            r matches Err(e) ==> e == Error::TooLarge && self@.payload().len() > MAX_LEN,
    {
        let mut out: Vec<u8> = Vec::new();
        match self {
            Rumor::Membership(m) => {
                out.push(m.health.to_byte());
                out.extend_from_slice(m.member.address.as_slice());
            },
            Rumor::Service(s) => {
                proof {
                    lemma_int_widths(s.member_id@.len() as u32, 0);
                }
                if s.member_id.len() > MAX_LEN {
                    return Err(Error::TooLarge);
                }
                put_prefixed(&mut out, s.member_id.as_slice());
                out.extend_from_slice(s.body.as_slice());
                assert(out@ =~= self@.payload());
            },
            Rumor::ServiceConfig(c) => {
                out.push(flag_byte(c.encrypted));
                out.extend_from_slice(c.config.as_slice());
            },
            Rumor::ServiceFile(f) => {
                proof {
                    lemma_int_widths(f.filename@.len() as u32, 0);
                }
                if f.filename.len() > MAX_LEN {
                    return Err(Error::TooLarge);
                }
                out.push(flag_byte(f.encrypted));
                put_prefixed(&mut out, f.filename.as_slice());
                out.extend_from_slice(f.body.as_slice());
            },
            Rumor::Election(e) => {
                out.push(e.status.to_byte());
                put_u64(&mut out, e.suffrage);
                out.extend_from_slice(e.member_id.as_slice());
            },
            Rumor::ElectionUpdate(e) => {
                out.push(e.status.to_byte());
                put_u64(&mut out, e.suffrage);
                out.extend_from_slice(e.member_id.as_slice());
            },
            Rumor::Departure(_) => {},
        }
        assert(out@ =~= self@.payload());
        Ok(out)
    }
}

/// Reads the ballot that a frame of an election or an election update holds.
fn read_ballot(f: Frame) -> (r: Option<Election>)
    ensures
        r is Some <==> spec_ballot(f@) is Some,
        r matches Some(e) ==> spec_ballot(f@) == Some(e@),
{
    let p = f.payload.as_slice();
    if p.len() < 9 {
        return None;
    }
    let status = match ElectionStatus::from_byte(p[0]) {
        Some(s) => s,
        None => {
            return None;
        },
    };
    let suffrage = match read_u64(p, 1) {
        Some((v, _)) => v,
        None => {
            return None;
        },
    };
    let member_id = read_rest(p, 9);
    Some(Election { service_group: f.key, member_id, term: f.version, suffrage, status })
}

impl RumorEnvelope {
    /// The frame that carries the envelope, if the lengths in the payload
    /// fit their prefixes.
    pub fn to_frame(&self) -> (r: Result<Frame, Error>)
        ensures
            r is Ok <==> self@.kind.prefixes_fit(),
            r matches Ok(f) ==> f@ == self@.frame(),
            r matches Err(e) ==> e == Error::TooLarge && !self@.encodable(),
    {
        let payload = match self.kind.payload() {
            Ok(p) => p,
            Err(e) => {
                return Err(e);
            },
        };
        Ok(
            Frame {
                tag: self.kind.kind().to_byte(),
                from_id: self.from_id.clone(),
                key: self.kind.wire_key(),
                version: self.kind.version(),
                payload,
            },
        )
    }

    /// Reads a frame as an envelope of the kind that its tag names.
    pub fn from_frame(f: Frame) -> (r: Result<RumorEnvelope, Error>)
        ensures
            r is Ok <==> spec_envelope(f@) is Some,
            r matches Ok(e) ==> spec_envelope(f@) == Some(e@),
            r matches Err(e) ==> e == Error::MalformedEnvelope,
    {
        let kind = match RumorType::from_byte(f.tag) {
            Some(k) => k,
            None => {
                return Err(Error::MalformedEnvelope);
            },
        };
        let p = f.payload.as_slice();
        let rumor = match kind {
            RumorType::Member => {
                if p.len() < 1 {
                    return Err(Error::MalformedEnvelope);
                }
                let health = match Health::from_byte(p[0]) {
                    Some(h) => h,
                    None => {
                        return Err(Error::MalformedEnvelope);
                    },
                };
                let address = read_rest(p, 1);
                Rumor::Membership(
                    Membership {
                        member: Member { id: f.key, address, incarnation: f.version },
                        health,
                    },
                )
            },
            RumorType::Service => {
                let (member_id, at) = match read_prefixed(p, 0) {
                    Some(x) => x,
                    None => {
                        return Err(Error::MalformedEnvelope);
                    },
                };
                let body = read_rest(p, at);
                Rumor::Service(
                    Service { member_id, service_group: f.key, incarnation: f.version, body },
                )
            },
            RumorType::ServiceConfig => {
                if p.len() < 1 || p[0] > 1 {
                    return Err(Error::MalformedEnvelope);
                }
                let config = read_rest(p, 1);
                Rumor::ServiceConfig(
                    ServiceConfig {
                        service_group: f.key,
                        incarnation: f.version,
                        encrypted: p[0] == 1,
                        config,
                    },
                )
            },
            RumorType::ServiceFile => {
                if p.len() < 1 || p[0] > 1 {
                    return Err(Error::MalformedEnvelope);
                }
                let (filename, at) = match read_prefixed(p, 1) {
                    Some(x) => x,
                    None => {
                        return Err(Error::MalformedEnvelope);
                    },
                };
                let body = read_rest(p, at);
                Rumor::ServiceFile(
                    ServiceFile {
                        service_group: f.key,
                        incarnation: f.version,
                        encrypted: p[0] == 1,
                        filename,
                        body,
                    },
                )
            },
            RumorType::Election => {
                let from_id = f.from_id.clone();
                return match read_ballot(f) {
                    Some(e) => Ok(RumorEnvelope { from_id, kind: Rumor::Election(e) }),
                    None => Err(Error::MalformedEnvelope),
                };
            },
            RumorType::ElectionUpdate => {
                let from_id = f.from_id.clone();
                return match read_ballot(f) {
                    Some(e) => Ok(RumorEnvelope { from_id, kind: Rumor::ElectionUpdate(e) }),
                    None => Err(Error::MalformedEnvelope),
                };
            },
            RumorType::Departure => {
                if f.version != 0 || p.len() != 0 {
                    return Err(Error::MalformedEnvelope);
                }
                Rumor::Departure(Departure { member_id: f.key })
            },
        };
        Ok(RumorEnvelope { from_id: f.from_id, kind: rumor })
    }

    /// Puts the envelope into its written form.
    ///
    /// Fails with [`Error::TooLarge`] exactly where the envelope has none.
    pub fn encode(&self) -> (r: Result<Vec<u8>, Error>)
        ensures
            r is Ok <==> self@.encodable(),
            r matches Ok(b) ==> b@ == self@.encode(),
            r matches Err(e) ==> e == Error::TooLarge,
    {
        match self.to_frame() {
            Ok(f) => f.emit(),
            Err(e) => Err(e),
        }
    }

    /// Reads a datagram as an envelope.
    ///
    /// Fails with [`Error::MalformedEnvelope`] exactly where the datagram
    /// holds none; fields behind the payload are passed over.
    pub fn decode(buf: &[u8]) -> (r: Result<RumorEnvelope, Error>)
        ensures
            r is Ok <==> spec_decode(buf@) is Some,
            r matches Ok(e) ==> spec_decode(buf@) == Some(e@),
            r matches Err(e) ==> e == Error::MalformedEnvelope,
    {
        match Frame::parse(buf) {
            Ok(f) => RumorEnvelope::from_frame(f),
            Err(e) => Err(e),
        }
    }
}

} // verus!
