//! The narrow way in: datagrams by which a tool that is no member of the
//! ring tells a node one thing. The tool sends the datagram to the node's
//! gossip address and learns nothing of what became of it.

use vstd::prelude::*;
use vstd::slice::*;
use vstd::string::StringSliceAdditionalSpecFns;
use crate::envelope::{lemma_decode_encode, spec_decode, RumorEnvelope, RumorEnvelopeView};
use crate::error::Error;
use crate::rumor::{
    Departure, DepartureView, Rumor, RumorView, ServiceConfig, ServiceConfigView,
};

verus! {

/// The id under which a client sends.
pub open spec fn spec_client_id() -> Seq<u8> {
    "butterflyclient".spec_bytes()
}

/// The envelope that tells of the departure of `member_id`.
pub open spec fn spec_departure(member_id: Seq<u8>) -> RumorEnvelopeView {
    RumorEnvelopeView {
        from_id: spec_client_id(),
        kind: RumorView::Departure(DepartureView { member_id }),
    }
}

/// The envelope that hands a configuration to a service group.
pub open spec fn spec_service_config(
    service_group: Seq<u8>,
    incarnation: u64,
    config: Seq<u8>,
    encrypted: bool,
) -> RumorEnvelopeView {
    RumorEnvelopeView {
        from_id: spec_client_id(),
        kind: RumorView::ServiceConfig(
            ServiceConfigView { service_group, incarnation, encrypted, config },
        ),
    }
}

/// A tool that talks to one node.
#[derive(Debug)]
pub struct Client {
    /// The gossip address of the node.
    pub address: Vec<u8>,
}

impl Client {
    /// A client for the node at `address`.
    pub fn new(address: Vec<u8>) -> (r: Client)
        ensures
            r.address@ == address@,
    {
        Client { address }
    }

    /// The id under which a client sends.
    pub fn id() -> (r: Vec<u8>)
        ensures
            r@ == spec_client_id(),
    {
        slice_to_vec("butterflyclient".as_bytes())
    }

    /// The datagram that tells the node of a member's departure.
    ///
    /// Fails with [`Error::TooLarge`] exactly where the envelope has no
    /// written form.
    pub fn departure_datagram(&self, member_id: &[u8]) -> (r: Result<Vec<u8>, Error>)
        ensures
            r is Ok <==> spec_departure(member_id@).encodable(),
            r matches Ok(b) ==> b@ == spec_departure(member_id@).encode() && spec_decode(b@)
                == Some(spec_departure(member_id@)),
            r matches Err(e) ==> e == Error::TooLarge,
    {
        let envelope = RumorEnvelope {
            from_id: Client::id(),
            kind: Rumor::Departure(Departure { member_id: slice_to_vec(member_id) }),
        };
        proof {
            if envelope@.encodable() {
                lemma_decode_encode(envelope@);
            }
        }
        envelope.encode()
    }

    /// The datagram that hands the node a configuration for a service
    /// group.
    ///
    /// Fails with [`Error::TooLarge`] exactly where the envelope has no
    /// written form.
    pub fn service_config_datagram(
        &self,
        service_group: &[u8],
        incarnation: u64,
        config: &[u8],
        encrypted: bool,
    ) -> (r: Result<Vec<u8>, Error>)
        ensures
            r is Ok <==> spec_service_config(
                service_group@,
                incarnation,
                config@,
                encrypted,
            ).encodable(),
            r matches Ok(b) ==> b@ == spec_service_config(
                service_group@,
                incarnation,
                config@,
                encrypted,
            ).encode() && spec_decode(b@) == Some(
                spec_service_config(service_group@, incarnation, config@, encrypted),
            ),
            r matches Err(e) ==> e == Error::TooLarge,
    {
        let envelope = RumorEnvelope {
            from_id: Client::id(),
            kind: Rumor::ServiceConfig(
                ServiceConfig {
                    service_group: slice_to_vec(service_group),
                    incarnation,
                    encrypted,
                    config: slice_to_vec(config),
                },
            ),
        };
        proof {
            if envelope@.encodable() {
                lemma_decode_encode(envelope@);
            }
        }
        envelope.encode()
    }
}

} // verus!
