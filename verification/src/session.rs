//! Per-connection session decisions: what the inbound loop does with one
//! received frame, and the single-teardown convergence of the two loops.
//!
//! The loops themselves suspend on transport reads and queue waits, so they
//! run in the embedding process; every decision they take is made here.
//!
//! Normalization policy: a text frame is relayed as it is; a binary frame is
//! normalized to its standard base64 text before fan-out; every outbound
//! payload is then written to the transport as one binary frame.  The policy
//! is applied in this one direction, consistently.

use vstd::prelude::*;

use base64::Engine;

verus! {

/// The standard, padded base64 text of a byte sequence.
pub uninterp spec fn base64_of(bytes: Seq<u8>) -> Seq<char>;

/// Relies on base64's `Engine::encode` with the `STANDARD` engine: the output
/// is a pure function of the input bytes, four characters for every started
/// group of three input bytes (standard alphabet, padded).  The length bound
/// keeps the engine's output-size computation from overflowing.
#[verifier::external_body]
fn encode_base64(bytes: &Vec<u8>) -> (r: String)
    requires
        bytes@.len() <= usize::MAX / 4,
    ensures
        r@ == base64_of(bytes@),
        r@.len() == 4 * ((bytes@.len() + 2) / 3),
{
    base64::engine::general_purpose::STANDARD.encode(bytes.as_slice())
}

/// One frame as the transport hands it to the inbound loop.
pub enum Frame {
    /// A text payload to fan out.
    Text(String),
    /// A binary payload to fan out.
    Binary(Vec<u8>),
    /// A transport-level liveness probe.
    Ping(Vec<u8>),
    /// The acknowledgement of a liveness probe.
    Pong(Vec<u8>),
    /// The peer closed the connection.
    Close,
}

/// Model of a [`Frame`].
pub ghost enum FrameModel {
    Text(Seq<char>),
    Binary(Seq<u8>),
    Ping(Seq<u8>),
    Pong(Seq<u8>),
    Close,
}

impl View for Frame {
    type V = FrameModel;

    open spec fn view(&self) -> FrameModel {
        match self {
            Frame::Text(t) => FrameModel::Text(t@),
            Frame::Binary(b) => FrameModel::Binary(b@),
            Frame::Ping(d) => FrameModel::Ping(d@),
            Frame::Pong(d) => FrameModel::Pong(d@),
            Frame::Close => FrameModel::Close,
        }
    }
}

/// What the inbound loop must do with a frame.
pub enum InboundAction {
    /// Hand this payload to the broadcast engine for the connection's room.
    Broadcast(String),
    /// Answer the liveness probe inline, before any queued payload, so a busy
    /// outbound queue cannot starve liveness.
    ReplyPong(Vec<u8>),
    /// Nothing to do.
    Ignore,
    /// Stop both loops and run the connection teardown.
    Teardown,
}

/// Model of an [`InboundAction`].
pub ghost enum ActionModel {
    Broadcast(Seq<char>),
    ReplyPong(Seq<u8>),
    Ignore,
    Teardown,
}

impl View for InboundAction {
    type V = ActionModel;

    open spec fn view(&self) -> ActionModel {
        match self {
            InboundAction::Broadcast(p) => ActionModel::Broadcast(p@),
            InboundAction::ReplyPong(d) => ActionModel::ReplyPong(d@),
            InboundAction::Ignore => ActionModel::Ignore,
            InboundAction::Teardown => ActionModel::Teardown,
        }
    }
}

/// The inbound decision: text is relayed as is, binary is normalized to its
/// base64 text, a probe is acknowledged inline, an acknowledgement is ignored,
/// and a close tears the session down.
pub open spec fn inbound_action_spec(f: FrameModel) -> ActionModel {
    match f {
        FrameModel::Text(t) => ActionModel::Broadcast(t),
        FrameModel::Binary(b) => ActionModel::Broadcast(base64_of(b)),
        FrameModel::Ping(d) => ActionModel::ReplyPong(d),
        FrameModel::Pong(_) => ActionModel::Ignore,
        FrameModel::Close => ActionModel::Teardown,
    }
}

/// Decide the inbound loop's reaction to one received frame.  The length
/// bound on binary payloads is the machine limit of the base64 output-size
/// computation.
pub fn handle_frame(frame: Frame) -> (a: InboundAction)
    requires
        frame matches Frame::Binary(b) ==> b@.len() <= usize::MAX / 4,
    ensures
        a@ == inbound_action_spec(frame@),
{
    match frame {
        Frame::Text(t) => InboundAction::Broadcast(t),
        Frame::Binary(b) => InboundAction::Broadcast(encode_base64(&b)),
        Frame::Ping(d) => InboundAction::ReplyPong(d),
        Frame::Pong(_) => InboundAction::Ignore,
        Frame::Close => InboundAction::Teardown,
    }
}

/// The single-teardown gate of one session.  Both per-connection loops may
/// detect a failure and request teardown; exactly the first request wins, so
/// removal from the room, transport close and resource release run once.
pub struct SessionTeardown {
    torn_down: bool,
}

impl SessionTeardown {
    /// Whether teardown has been requested already.
    pub closed spec fn completed(&self) -> bool {
        self.torn_down
    }

    /// A live session: no teardown yet.
    pub fn new() -> (r: SessionTeardown)
        ensures
            !r.completed(),
    {
        SessionTeardown { torn_down: false }
    }

    /// Whether some loop already requested teardown.
    pub fn is_completed(&self) -> (r: bool)
        ensures
            r == self.completed(),
    {
        self.torn_down
    }

    /// Request teardown.  Returns whether this call is the one that must
    /// perform it: true exactly once, whichever loop asks first.
    pub fn begin(&mut self) -> (first: bool)
        ensures
            final(self).completed(),
            first == !old(self).completed(),
    {
        let first = !self.torn_down;
        self.torn_down = true;
        first
    }
}

} // verus!
