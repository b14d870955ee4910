//! Transports this node knows of but cannot use yet: they report
//! themselves unavailable and refuse every message.
use crate::mesh::envelope::{EnvelopeView, ProtocolEnvelope};
use crate::mesh::identity::{
    owned, unavailable_endpoint, PeerIdentity, PeerIdentityView, TransportEndpoint,
    TransportEndpointView,
};
use crate::mesh::transport::{MeshTransport, TransportCapacity, TransportError, TransportReceipt};
use vstd::prelude::*;

verus! {

broadcast use vstd::string::group_string_axioms;

#[derive(Debug)]
pub struct StubTransport {
    kind: &'static str,
}

impl StubTransport {
    pub closed spec fn kind_view(&self) -> Seq<char> {
        self.kind@
    }

    pub fn web_rtc() -> (r: Self)
        ensures
            r.kind_view() == "webrtc"@,
    {
        StubTransport { kind: "webrtc" }
    }

    pub fn bluetooth() -> (r: Self)
        ensures
            r.kind_view() == "bluetooth"@,
    {
        StubTransport { kind: "bluetooth" }
    }

    pub fn serial() -> (r: Self)
        ensures
            r.kind_view() == "serial"@,
    {
        StubTransport { kind: "serial" }
    }

    pub fn store_forward() -> (r: Self)
        ensures
            r.kind_view() == "store_forward"@,
    {
        StubTransport { kind: "store_forward" }
    }

    fn unavailable_error(&self) -> (r: TransportError)
        ensures
            r.code@ == "transport_unavailable"@,
            r.message@ == self.kind_view() + " transport is not implemented in v0"@,
    {
        let mut message = owned(self.kind);
        message.append(" transport is not implemented in v0");
        TransportError::new(owned("transport_unavailable"), message)
    }
}

impl MeshTransport for StubTransport {
    open spec fn obeys_transport_spec(&self) -> bool {
        true
    }

    open spec fn kind_name(&self) -> Seq<char> {
        self.kind_view()
    }

    open spec fn status_view(&self) -> TransportEndpointView {
        unavailable_endpoint(self.kind_view())
    }

    /// A stub refuses every message with `transport_unavailable` and stays
    /// the stub it was.
    open spec fn answers(
        &self,
        after: &Self,
        envelope: EnvelopeView,
        peer: PeerIdentityView,
        answer: Result<Seq<char>, Seq<char>>,
    ) -> bool {
        after.kind_view() == self.kind_view() && answer == Err::<Seq<char>, Seq<char>>(
            "transport_unavailable"@,
        )
    }

    fn kind(&self) -> (r: &'static str)
        ensures
            r@ == self.kind_view(),
    {
        assert(self.kind_view() == self.kind@);
        assert(self.kind_name() == self.kind@);
        self.kind
    }

    /// A stub cannot start: `transport_unavailable`.
    fn start(&self) -> (r: Result<(), TransportError>)
        ensures
            r matches Err(e) && e.code@ == "transport_unavailable"@ && e.message@
                == self.kind_view() + " transport is not implemented in v0"@,
    {
        Err(self.unavailable_error())
    }

    fn stop(&self) -> (r: Result<(), TransportError>)
        ensures
            r is Ok,
    {
        Ok(())
    }

    /// A stub refuses every message: `transport_unavailable`.
    fn send(&mut self, _envelope: &ProtocolEnvelope, _target_peer: &PeerIdentity) -> (r: Result<
        TransportReceipt,
        TransportError,
    >)
        ensures
            r matches Err(e) && e.code@ == "transport_unavailable"@ && e.message@
                == old(self).kind_view() + " transport is not implemented in v0"@,
            final(self).kind_view() == old(self).kind_view(),
    {
        Err(self.unavailable_error())
    }

    fn status(&self) -> (r: TransportEndpoint)
        ensures
            r@ == unavailable_endpoint(self.kind_view()),
    {
        TransportEndpoint::unavailable(owned(self.kind))
    }

    fn capacity(&self) -> (r: TransportCapacity)
        ensures
            r == (TransportCapacity {
                max_message_bytes: 0,
                recommended_chunk_bytes: 0,
                max_in_flight: 0,
                estimated_throughput_kbps: 0,
            }),
    {
        TransportCapacity::unavailable()
    }

    fn capabilities(&self) -> (r: Vec<String>)
        ensures
            r@.len() == 0,
    {
        Vec::new()
    }
}

} // verus!
