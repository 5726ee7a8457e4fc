use vstd::prelude::*;

verus! {

/// The closed set of failure kinds a connection operation can surface.
#[derive(Debug)]
pub enum BngError {
    /// The simulator reported an application-level error (the `bngError` key).
    SimulatorError(String),
    /// The simulator reported a value/argument error (the `bngValueError` key).
    ValueError(String),
    /// The connection to the simulator was lost or not established.
    Disconnected(String),
    /// Protocol version mismatch between client and simulator.
    ProtocolMismatch(String),
    /// The response carried a `type` other than the expected one.
    UnexpectedResponseType { expected: String, got: String },
    /// A response was missing the `_id` field; the peer is likely incompatible.
    MissingId,
    /// Underlying I/O failure.
    Io(String),
    /// Message encoding failure.
    MsgpackEncode(String),
    /// Message decoding failure.
    MsgpackDecode(String),
    /// Timeout waiting for a response; reserved for callers that wrap
    /// operations with a deadline, the core itself never times out.
    Timeout(String),
}

/// The mathematical shape of a [`BngError`].
pub enum ErrView {
    SimulatorError(Seq<char>),
    ValueError(Seq<char>),
    Disconnected(Seq<char>),
    ProtocolMismatch(Seq<char>),
    UnexpectedResponseType { expected: Seq<char>, got: Seq<char> },
    MissingId,
    Io(Seq<char>),
    MsgpackEncode(Seq<char>),
    MsgpackDecode(Seq<char>),
    Timeout(Seq<char>),
}

impl View for BngError {
    type V = ErrView;

    open spec fn view(&self) -> ErrView {
        match self {
            BngError::SimulatorError(m) => ErrView::SimulatorError(m@),
            BngError::ValueError(m) => ErrView::ValueError(m@),
            BngError::Disconnected(m) => ErrView::Disconnected(m@),
            BngError::ProtocolMismatch(m) => ErrView::ProtocolMismatch(m@),
            BngError::UnexpectedResponseType { expected, got } => ErrView::UnexpectedResponseType {
                expected: expected@,
                got: got@,
            },
            BngError::MissingId => ErrView::MissingId,
            BngError::Io(m) => ErrView::Io(m@),
            BngError::MsgpackEncode(m) => ErrView::MsgpackEncode(m@),
            BngError::MsgpackDecode(m) => ErrView::MsgpackDecode(m@),
            BngError::Timeout(m) => ErrView::Timeout(m@),
        }
    }
}

/// The human-readable description of an error.
pub open spec fn err_message(e: ErrView) -> Seq<char> {
    match e {
        ErrView::SimulatorError(m) => "Simulator error: "@ + m,
        ErrView::ValueError(m) => "Value error: "@ + m,
        ErrView::Disconnected(m) => "Disconnected: "@ + m,
        ErrView::ProtocolMismatch(m) => "Protocol mismatch: "@ + m,
        ErrView::UnexpectedResponseType { expected, got } => "Unexpected response type: expected \""@
            + expected + "\", got \""@ + got + "\""@,
        ErrView::MissingId => "Invalid message: missing _id field. The version of BeamNG.tech may be incompatible."@,
        ErrView::Io(m) => "I/O error: "@ + m,
        ErrView::MsgpackEncode(m) => "Msgpack encode error: "@ + m,
        ErrView::MsgpackDecode(m) => "Msgpack decode error: "@ + m,
        ErrView::Timeout(m) => "Timeout: "@ + m,
    }
}

impl BngError {
    /// A human-readable description of the failure, in place of `Display`.
    pub fn message(&self) -> (r: String)
        ensures
            r@ == err_message(self@),
    {
        match self {
            BngError::SimulatorError(m) => "Simulator error: ".to_owned().concat(m.as_str()),
            BngError::ValueError(m) => "Value error: ".to_owned().concat(m.as_str()),
            BngError::Disconnected(m) => "Disconnected: ".to_owned().concat(m.as_str()),
            BngError::ProtocolMismatch(m) => "Protocol mismatch: ".to_owned().concat(m.as_str()),
            BngError::UnexpectedResponseType { expected, got } => "Unexpected response type: expected \""
                .to_owned()
                .concat(expected.as_str())
                .concat("\", got \"")
                .concat(got.as_str())
                .concat("\""),
            BngError::MissingId => "Invalid message: missing _id field. The version of BeamNG.tech may be incompatible.".to_owned(),
            BngError::Io(m) => "I/O error: ".to_owned().concat(m.as_str()),
            BngError::MsgpackEncode(m) => "Msgpack encode error: ".to_owned().concat(m.as_str()),
            BngError::MsgpackDecode(m) => "Msgpack decode error: ".to_owned().concat(m.as_str()),
            BngError::Timeout(m) => "Timeout: ".to_owned().concat(m.as_str()),
        }
    }
}

} // verus!
