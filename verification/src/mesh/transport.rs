//! The interface every mesh transport offers, and the values it reports.
use crate::mesh::envelope::{EnvelopeView, ProtocolEnvelope};
use crate::mesh::identity::{
    owned, PeerIdentity, PeerIdentityView, TransportEndpoint, TransportEndpointView,
};
use vstd::prelude::*;

verus! {

broadcast use vstd::string::group_string_axioms;

/// What a transport can carry.
#[derive(Clone, Copy, Debug, PartialEq, Eq, Structural)]
pub struct TransportCapacity {
    pub max_message_bytes: usize,
    pub recommended_chunk_bytes: usize,
    pub max_in_flight: usize,
    pub estimated_throughput_kbps: u32,
}

impl TransportCapacity {
    /// Local HTTP: 64 KiB messages, 4 KiB chunks, 8 in flight, 1600 kbps.
    pub fn local_http() -> (r: Self)
        ensures
            r == (TransportCapacity {
                max_message_bytes: 65536,
                recommended_chunk_bytes: 4096,
                max_in_flight: 8,
                estimated_throughput_kbps: 1600,
            }),
    {
        TransportCapacity {
            max_message_bytes: 64 * 1024,
            recommended_chunk_bytes: 4 * 1024,
            max_in_flight: 8,
            estimated_throughput_kbps: 1600,
        }
    }

    /// A transport that carries nothing.
    pub fn unavailable() -> (r: Self)
        ensures
            r == (TransportCapacity {
                max_message_bytes: 0,
                recommended_chunk_bytes: 0,
                max_in_flight: 0,
                estimated_throughput_kbps: 0,
            }),
    {
        TransportCapacity {
            max_message_bytes: 0,
            recommended_chunk_bytes: 0,
            max_in_flight: 0,
            estimated_throughput_kbps: 0,
        }
    }
}

/// Proof that a transport took a message: the transport's kind.
#[derive(Debug)]
pub struct TransportReceipt {
    pub transport: String,
}

/// Why a transport did not take a message.
#[derive(Debug)]
pub struct TransportError {
    pub code: String,
    pub message: String,
    pub retry_after_ms: Option<u64>,
}

impl TransportError {
    pub fn new(code: String, message: String) -> (r: Self)
        ensures
            r.code@ == code@,
            r.message@ == message@,
            r.retry_after_ms is None,
    {
        TransportError { code, message, retry_after_ms: None }
    }
}

/// What a transport answered a message with: the kind it used, or the
/// code of its refusal.
pub open spec fn transport_answer(r: Result<TransportReceipt, TransportError>) -> Result<
    Seq<char>,
    Seq<char>,
> {
    match r {
        Ok(receipt) => Ok(receipt.transport@),
        Err(e) => Err(e.code@),
    }
}

/// A way of carrying envelopes between nodes. A transport that obeys this
/// interface's specification (the transports of this library do; one that
/// does not claim to, nothing is assumed of) reports its kind and status
/// as its spec functions name them, and answers `send` as `answers`
/// relates its state before and after.
pub trait MeshTransport {
    /// Whether this transport keeps the clauses below that are stated for
    /// transports that obey.
    closed spec fn obeys_transport_spec(&self) -> bool {
        false
    }

    /// The name of the transport's kind, which `kind` returns.
    closed spec fn kind_name(&self) -> Seq<char> {
        Seq::empty()
    }

    /// The endpoint `status` reports.
    closed spec fn status_view(&self) -> TransportEndpointView {
        TransportEndpointView {
            kind: Seq::empty(),
            status: Seq::empty(),
            url: None,
            metadata: Seq::empty(),
        }
    }

    /// Whether a `send` of `envelope` to `peer` that leaves the transport
    /// as `after` may answer `answer`.
    closed spec fn answers(
        &self,
        after: &Self,
        envelope: EnvelopeView,
        peer: PeerIdentityView,
        answer: Result<Seq<char>, Seq<char>>,
    ) -> bool {
        true
    }

    /// The transport's kind, the name peers' endpoints use for it.
    fn kind(&self) -> (r: &'static str)
        ensures
            self.obeys_transport_spec() ==> r@ == self.kind_name(),
    ;

    fn start(&self) -> Result<(), TransportError>;

    fn stop(&self) -> Result<(), TransportError>;

    /// Hands `envelope` to `target_peer`; the answer is the transport's.
    fn send(&mut self, envelope: &ProtocolEnvelope, target_peer: &PeerIdentity) -> (r: Result<
        TransportReceipt,
        TransportError,
    >)
        ensures
            old(self).obeys_transport_spec() ==> final(self).obeys_transport_spec()
                && old(self).answers(
                final(self),
                envelope@,
                target_peer@,
                transport_answer(r),
            ),
    ;

    /// Sending to every reachable node; a transport without it refuses
    /// with `broadcast_unavailable`.
    fn broadcast(&mut self, envelope: &ProtocolEnvelope) -> (r: Result<
        Vec<TransportReceipt>,
        TransportError,
    >)
        default_ensures
            match r {
                Ok(_) => false,
                Err(e) => e.code@ == "broadcast_unavailable"@,
            },
    {
        let mut message = owned(self.kind());
        message.append(" does not support broadcast yet");
        Err(TransportError::new(owned("broadcast_unavailable"), message))
    }

    fn status(&self) -> (r: TransportEndpoint)
        ensures
            self.obeys_transport_spec() ==> r@ == self.status_view(),
    ;

    fn capacity(&self) -> TransportCapacity;

    fn capabilities(&self) -> Vec<String>;
}

} // verus!
