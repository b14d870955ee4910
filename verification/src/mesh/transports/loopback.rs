//! An in-memory transport that keeps every envelope it is given, for tests
//! and simulation.
use crate::mesh::envelope::{EnvelopeView, ProtocolEnvelope};
use crate::mesh::identity::{
    owned, PeerIdentity, PeerIdentityView, TransportEndpoint, TransportEndpointView,
};
use crate::mesh::transport::{MeshTransport, TransportCapacity, TransportError, TransportReceipt};
use vstd::prelude::*;

verus! {

broadcast use vstd::string::group_string_axioms;

#[derive(Debug)]
pub struct LoopbackTransport {
    messages: Vec<ProtocolEnvelope>,
}

pub open spec fn envelopes_view(v: Seq<ProtocolEnvelope>) -> Seq<EnvelopeView> {
    v.map_values(|e: ProtocolEnvelope| e@)
}

impl View for LoopbackTransport {
    type V = Seq<EnvelopeView>;

    /// The envelopes held, oldest first.
    closed spec fn view(&self) -> Seq<EnvelopeView> {
        envelopes_view(self.messages@)
    }
}

impl Default for LoopbackTransport {
    fn default() -> (r: Self)
        ensures
            r@.len() == 0,
    {
        let r = LoopbackTransport { messages: Vec::new() };
        assert(r@ =~= Seq::<EnvelopeView>::empty());
        r
    }
}

impl LoopbackTransport {
    /// Hands out every envelope held, oldest first, and keeps none.
    pub fn drain(&mut self) -> (r: Vec<ProtocolEnvelope>)
        ensures
            envelopes_view(r@) == old(self)@,
            final(self)@.len() == 0,
    {
        let mut out: Vec<ProtocolEnvelope> = Vec::new();
        std::mem::swap(&mut out, &mut self.messages);
        assert(self@ =~= Seq::<EnvelopeView>::empty());
        out
    }

    fn keep(&mut self, envelope: &ProtocolEnvelope)
        ensures
            final(self)@ == old(self)@.push(envelope@),
    {
        let e = envelope.clone();
        self.messages.push(e);
        assert(self@ =~= old(self)@.push(envelope@));
    }
}

/// The status an in-memory transport reports.
pub open spec fn loopback_status() -> TransportEndpointView {
    TransportEndpointView {
        kind: "loopback"@,
        status: "available"@,
        url: None,
        metadata: "null"@,
    }
}

impl MeshTransport for LoopbackTransport {
    open spec fn obeys_transport_spec(&self) -> bool {
        true
    }

    open spec fn kind_name(&self) -> Seq<char> {
        "loopback"@
    }

    open spec fn status_view(&self) -> TransportEndpointView {
        loopback_status()
    }

    /// The loopback keeps every envelope and always answers `loopback`.
    open spec fn answers(
        &self,
        after: &Self,
        envelope: EnvelopeView,
        peer: PeerIdentityView,
        answer: Result<Seq<char>, Seq<char>>,
    ) -> bool {
        after@ == self@.push(envelope) && answer == Ok::<Seq<char>, Seq<char>>("loopback"@)
    }

    fn kind(&self) -> (r: &'static str) {
        proof {
            reveal_strlit("loopback");
        }
        "loopback"
    }

    fn start(&self) -> (r: Result<(), TransportError>)
        ensures
            r is Ok,
    {
        Ok(())
    }

    fn stop(&self) -> (r: Result<(), TransportError>)
        ensures
            r is Ok,
    {
        Ok(())
    }

    /// Keeps the envelope; always succeeds.
    fn send(&mut self, envelope: &ProtocolEnvelope, _target_peer: &PeerIdentity) -> (r: Result<
        TransportReceipt,
        TransportError,
    >)
        ensures
            r matches Ok(receipt) && receipt.transport@ == "loopback"@,
            final(self)@ == old(self)@.push(envelope@),
    {
        self.keep(envelope);
        Ok(TransportReceipt { transport: owned("loopback") })
    }

    /// Keeps the envelope once; one receipt.
    fn broadcast(&mut self, envelope: &ProtocolEnvelope) -> (r: Result<
        Vec<TransportReceipt>,
        TransportError,
    >)
        ensures
            r matches Ok(receipts) && receipts@.len() == 1 && receipts@[0].transport@
                == "loopback"@,
            final(self)@ == old(self)@.push(envelope@),
    {
        self.keep(envelope);
        let mut receipts: Vec<TransportReceipt> = Vec::new();
        receipts.push(TransportReceipt { transport: owned("loopback") });
        Ok(receipts)
    }

    fn status(&self) -> (r: TransportEndpoint)
        ensures
            r@ == loopback_status(),
    {
        TransportEndpoint {
            kind: owned("loopback"),
            status: owned("available"),
            url: None,
            metadata: owned("null"),
        }
    }

    /// 64 KiB messages, 8 KiB chunks, 64 in flight, 100 000 kbps.
    fn capacity(&self) -> (r: TransportCapacity)
        ensures
            r == (TransportCapacity {
                max_message_bytes: 65536,
                recommended_chunk_bytes: 8192,
                max_in_flight: 64,
                estimated_throughput_kbps: 100000,
            }),
    {
        TransportCapacity {
            max_message_bytes: 64 * 1024,
            recommended_chunk_bytes: 8 * 1024,
            max_in_flight: 64,
            estimated_throughput_kbps: 100_000,
        }
    }

    fn capabilities(&self) -> (r: Vec<String>)
        ensures
            crate::mesh::identity::strings_view(r@) == seq!["mesh.test"@, "mesh.control"@],
    {
        let mut r: Vec<String> = Vec::new();
        r.push(owned("mesh.test"));
        r.push(owned("mesh.control"));
        assert(crate::mesh::identity::strings_view(r@) =~= seq!["mesh.test"@, "mesh.control"@]);
        r
    }
}

/// What is sent over the loopback transport is handed out again by the
/// next drain, after what was held before and in sending order.
pub proof fn law_drain_returns_what_was_sent(held: Seq<EnvelopeView>, sent: Seq<EnvelopeView>)
    ensures
        sent.fold_left(held, |acc: Seq<EnvelopeView>, e: EnvelopeView| acc.push(e)) == held + sent,
    decreases sent.len(),
{
    if sent.len() > 0 {
        law_drain_returns_what_was_sent(held, sent.drop_last());
        assert(held + sent =~= (held + sent.drop_last()).push(sent.last()));
    } else {
        assert(held + sent =~= held);
    }
}

} // verus!
