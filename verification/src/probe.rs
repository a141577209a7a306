//! The messages of the failure detector: ping, ack and ping-req.
//!
//! They travel in the same frames as rumors, under tags of their own. The
//! key field names the member that the message is about, the version field
//! carries the number of the round, and the payload the address to which an
//! answer goes.

use vstd::prelude::*;
use crate::envelope::{spec_decode, RumorEnvelope, RumorEnvelopeView};
use crate::error::Error;
use crate::frame::{lemma_emit_parse, lemma_parse_emit, spec_exact, spec_parse, Frame, FrameView};

verus! {

/// What a probe message asks or says.
#[derive(Clone, Copy, Debug, PartialEq, Eq, Structural)]
pub enum ProbeKind {
    /// "Are you there?" The subject is the member on whose behalf the
    /// sender asks, the sender itself where it asks for itself.
    Ping,
    /// "I am." The subject is the member that the answer is meant for.
    Ack,
    /// "Ask the subject for me."
    PingReq,
}

impl ProbeKind {
    /// The tag that stands for the kind on the wire.
    pub open spec fn tag(self) -> int {
        match self {
            ProbeKind::Ping => 8,
            ProbeKind::Ack => 9,
            ProbeKind::PingReq => 10,
        }
    }

    /// The kind that a tag stands for, where it stands for one.
    pub open spec fn spec_from_tag(t: int) -> Option<ProbeKind> {
        if t == 8 {
            Some(ProbeKind::Ping)
        } else if t == 9 {
            Some(ProbeKind::Ack)
        } else if t == 10 {
            Some(ProbeKind::PingReq)
        } else {
            None
        }
    }

    /// Executable form of [`ProbeKind::tag`].
    pub fn to_byte(self) -> (r: u8)
        ensures
            r == self.tag(),
    {
        match self {
            ProbeKind::Ping => 8,
            ProbeKind::Ack => 9,
            ProbeKind::PingReq => 10,
        }
    }

    /// Executable form of [`ProbeKind::spec_from_tag`].
    pub fn from_byte(b: u8) -> (r: Option<ProbeKind>)
        ensures
            r == ProbeKind::spec_from_tag(b as int),
    {
        if b == 8 {
            Some(ProbeKind::Ping)
        } else if b == 9 {
            Some(ProbeKind::Ack)
        } else if b == 10 {
            Some(ProbeKind::PingReq)
        } else {
            None
        }
    }
}

/// One message of the failure detector.
#[derive(Debug)]
pub struct Probe {
    pub kind: ProbeKind,
    pub from_id: Vec<u8>,
    pub subject: Vec<u8>,
    pub round: u64,
    pub reply_to: Vec<u8>,
}

/// A [`Probe`] as a mathematical value.
pub struct ProbeView {
    pub kind: ProbeKind,
    pub from_id: Seq<u8>,
    pub subject: Seq<u8>,
    pub round: u64,
    pub reply_to: Seq<u8>,
}

impl View for Probe {
    type V = ProbeView;

    open spec fn view(&self) -> ProbeView {
        ProbeView {
            kind: self.kind,
            from_id: self.from_id@,
            subject: self.subject@,
            round: self.round,
            reply_to: self.reply_to@,
        }
    }
}

impl Clone for Probe {
    fn clone(&self) -> (r: Self)
        ensures
            r@ == self@,
    {
        Probe {
            kind: self.kind,
            from_id: self.from_id.clone(),
            subject: self.subject.clone(),
            round: self.round,
            reply_to: self.reply_to.clone(),
        }
    }
}

impl ProbeView {
    /// The frame that carries the message.
    pub open spec fn frame(self) -> FrameView {
        FrameView {
            tag: self.kind.tag() as u8,
            from_id: self.from_id,
            key: self.subject,
            version: self.round,
            payload: self.reply_to,
        }
    }

    /// Whether the message has a written form.
    pub open spec fn encodable(self) -> bool {
        self.frame().fits()
    }

    /// The written form.
    pub open spec fn encode(self) -> Seq<u8> {
        self.frame().emit()
    }
}

/// The probe message that a frame holds.
pub open spec fn spec_probe(f: FrameView) -> Option<ProbeView> {
    match ProbeKind::spec_from_tag(f.tag as int) {
        None => None,
        Some(kind) => Some(
            ProbeView {
                kind,
                from_id: f.from_id,
                subject: f.key,
                round: f.version,
                reply_to: f.payload,
            },
        ),
    }
}

/// The probe message that a datagram holds.
pub open spec fn spec_decode_probe(s: Seq<u8>) -> Option<ProbeView> {
    match spec_parse(s) {
        None => None,
        Some((f, _)) => spec_probe(f),
    }
}

/// Decoding what was encoded gives the message back.
pub proof fn lemma_probe_decode_encode(p: ProbeView)
    requires
        p.encodable(),
    ensures
        spec_decode_probe(p.encode()) == Some(p),
        spec_exact(p.encode()),
{
    lemma_parse_emit(p.frame());
}

/// Encoding what was decoded gives the bytes back, for every datagram that
/// decodes and holds nothing behind the fields known here.
pub proof fn lemma_probe_encode_decode(s: Seq<u8>)
    requires
        spec_decode_probe(s) is Some,
        spec_exact(s),
    ensures
        spec_decode_probe(s).unwrap().encodable(),
        spec_decode_probe(s).unwrap().encode() == s,
{
    lemma_emit_parse(s);
}

/// No datagram is both a rumor and a probe message.
pub proof fn lemma_probe_or_rumor(s: Seq<u8>)
    ensures
        !(spec_decode_probe(s) is Some && spec_decode(s) is Some),
{
}

impl Probe {
    /// Puts the message into its written form.
    ///
    /// Fails with [`Error::TooLarge`] exactly where the message has none.
    pub fn encode(&self) -> (r: Result<Vec<u8>, Error>)
        ensures
            r is Ok <==> self@.encodable(),
            r matches Ok(b) ==> b@ == self@.encode(),
            r matches Err(e) ==> e == Error::TooLarge,
    {
        let frame = Frame {
            tag: self.kind.to_byte(),
            from_id: self.from_id.clone(),
            key: self.subject.clone(),
            version: self.round,
            payload: self.reply_to.clone(),
        };
        frame.emit()
    }

    /// Reads a datagram as a probe message.
    ///
    /// Fails with [`Error::MalformedEnvelope`] exactly where the datagram
    /// holds none.
    pub fn decode(buf: &[u8]) -> (r: Result<Probe, Error>)
        ensures
            r is Ok <==> spec_decode_probe(buf@) is Some,
            r matches Ok(p) ==> spec_decode_probe(buf@) == Some(p@),
            r matches Err(e) ==> e == Error::MalformedEnvelope,
    {
        let f = match Frame::parse(buf) {
            Ok(f) => f,
            Err(e) => {
                return Err(e);
            },
        };
        match ProbeKind::from_byte(f.tag) {
            Some(kind) => Ok(
                Probe {
                    kind,
                    from_id: f.from_id,
                    subject: f.key,
                    round: f.version,
                    reply_to: f.payload,
                },
            ),
            None => Err(Error::MalformedEnvelope),
        }
    }
}

/// What a datagram holds.
#[derive(Debug)]
pub enum Message {
    Rumor(RumorEnvelope),
    Probe(Probe),
}

/// A [`Message`] as a mathematical value.
pub enum MessageView {
    Rumor(RumorEnvelopeView),
    Probe(ProbeView),
}

impl View for Message {
    type V = MessageView;

    open spec fn view(&self) -> MessageView {
        match self {
            Message::Rumor(e) => MessageView::Rumor(e@),
            Message::Probe(p) => MessageView::Probe(p@),
        }
    }
}

/// The message that a datagram holds: a rumor under the tags of rumors, a
/// probe message under the tags of the failure detector.
pub open spec fn spec_decode_message(s: Seq<u8>) -> Option<MessageView> {
    match spec_decode(s) {
        Some(e) => Some(MessageView::Rumor(e)),
        None => match spec_decode_probe(s) {
            Some(p) => Some(MessageView::Probe(p)),
            None => None,
        },
    }
}

impl Message {
    /// Reads a datagram as whatever it holds.
    ///
    /// Fails with [`Error::MalformedEnvelope`] exactly where it holds
    /// neither a rumor nor a probe message.
    pub fn decode(buf: &[u8]) -> (r: Result<Message, Error>)
        ensures
            r is Ok <==> spec_decode_message(buf@) is Some,
            r matches Ok(m) ==> spec_decode_message(buf@) == Some(m@),
            r matches Err(e) ==> e == Error::MalformedEnvelope,
    {
        let f = match Frame::parse(buf) {
            Ok(f) => f,
            Err(e) => {
                return Err(e);
            },
        };
        match ProbeKind::from_byte(f.tag) {
            Some(kind) => Ok(
                Message::Probe(
                    Probe {
                        kind,
                        from_id: f.from_id,
                        subject: f.key,
                        round: f.version,
                        reply_to: f.payload,
                    },
                ),
            ),
            None => match RumorEnvelope::from_frame(f) {
                Ok(e) => Ok(Message::Rumor(e)),
                Err(e) => Err(e),
            },
        }
    }
}

} // verus!
