//! The request/response protocol between State Management (client) and
//! Execution Management (server), and the framing of its messages.

use crate::function_group::FunctionGroupState;
use vstd::prelude::*;

verus! {

/// Where the server listens by default.
pub const OARA_SM_DOMAIN_SOCKET: &'static str = "/tmp/oara_sm_domain_socket";

/// A request of State Management.
#[derive(Debug)]
pub enum SmClientCommand {
    GetInitialState,
    SetState(FunctionGroupState),
}

/// Why the initial transition is reported as failed.
#[derive(Debug, Clone, Copy, PartialEq, Eq, Structural)]
pub enum InitialStateError {
    FailedInitializeInitialState,
    CommunicationError,
}

/// Why a requested transition failed.
#[derive(Debug, Clone, Copy, PartialEq, Eq, Structural)]
pub enum SetStateError {
    Canceled,
    Failed,
    FailedUnexpectedTerminationOnEnter,
    CommunicationError,
    InvalidTransition,
    IntegrityorAuthenticity,
    FailedUnexpectedTermination,
    MetamodelError,
}

/// The answer of Execution Management to one request.
#[derive(Debug, Clone, Copy, PartialEq, Eq)]
pub enum SmResponse {
    GetInitialState(Result<(), InitialStateError>),
    SetState(Result<(), SetStateError>),
}

/// The bytes of `n` in little-endian order.
pub open spec fn le_u32_bytes(n: u32) -> Seq<u8> {
    seq![
        (n % 256) as u8,
        ((n / 256) % 256) as u8,
        ((n / 65536) % 256) as u8,
        ((n / 16777216) % 256) as u8,
    ]
}

/// The number whose little-endian bytes are `b[0..4]`.
pub open spec fn le_u32_value(b: Seq<u8>) -> int {
    b[0] + 256 * b[1] + 65536 * b[2] + 16777216 * b[3]
}

/// A frame: the payload length as four little-endian bytes, then the payload.
pub open spec fn frame(payload: Seq<u8>) -> Seq<u8> {
    le_u32_bytes(payload.len() as u32) + payload
}

/// What decoding the start of `buf` gives: the payload of the first frame and
/// the number of bytes it spans, or `None` while the frame is incomplete.
pub open spec fn first_frame(buf: Seq<u8>) -> Option<(Seq<u8>, int)> {
    if buf.len() < 4 {
        None
    } else {
        let n = le_u32_value(buf);
        if buf.len() < 4 + n {
            None
        } else {
            Some((buf.subrange(4, 4 + n), 4 + n))
        }
    }
}

proof fn lemma_le_u32_round_trip(n: u32)
    ensures
        le_u32_value(le_u32_bytes(n)) == n,
{
    let b = le_u32_bytes(n);
    let x = n as int;
    assert(b[0] == x % 256);
    assert(b[1] == (x / 256) % 256);
    assert(b[2] == (x / 65536) % 256);
    assert(b[3] == (x / 16777216) % 256);
    assert(x == x % 256 + 256 * ((x / 256) % 256) + 65536 * ((x / 65536) % 256) + 16777216 * ((x / 16777216) % 256)) by (nonlinear_arith)
        requires
            0 <= x < 4294967296,
    {
        assert(x == 256 * (x / 256) + x % 256);
        assert(x / 256 == 256 * (x / 65536) + (x / 256) % 256) by {
            assert(x / 65536 == (x / 256) / 256);
        }
        assert(x / 65536 == 256 * (x / 16777216) + (x / 65536) % 256) by {
            assert(x / 16777216 == (x / 65536) / 256);
        }
        assert(x / 16777216 < 256);
    }
}

/// Decoding a frame gives back its payload, whatever follows it.
pub proof fn lemma_frame_round_trip(payload: Seq<u8>, rest: Seq<u8>)
    requires
        payload.len() <= u32::MAX,
    ensures
        first_frame(frame(payload) + rest) == Some((payload, 4 + payload.len() as int)),
{
    let buf = frame(payload) + rest;
    lemma_le_u32_round_trip(payload.len() as u32);
    assert(buf.subrange(0, 4) =~= le_u32_bytes(payload.len() as u32));
    assert(le_u32_value(buf) == le_u32_value(le_u32_bytes(payload.len() as u32)));
    assert(buf.subrange(4, 4 + payload.len() as int) =~= payload);
}

/// Frames `payload` for the byte stream.
pub fn encode_frame(payload: &Vec<u8>) -> (r: Vec<u8>)
    requires
        payload@.len() <= u32::MAX,
    ensures
        r@ == frame(payload@),
{
    let n = payload.len() as u32;
    let mut r: Vec<u8> = Vec::new();
    r.push((n % 256) as u8);
    r.push(((n / 256) % 256) as u8);
    r.push(((n / 65536) % 256) as u8);
    r.push(((n / 16777216) % 256) as u8);
    let mut i: usize = 0;
    while i < payload.len()
        invariant
            n == payload@.len(),
            i <= payload@.len(),
            r@ == le_u32_bytes(n) + payload@.take(i as int),
        decreases payload@.len() - i,
    {
        r.push(payload[i]);
        assert(payload@.take(i + 1) =~= payload@.take(i as int).push(payload@[i as int]));
        assert(r@ =~= le_u32_bytes(n) + payload@.take(i + 1));
        i = i + 1;
    }
    assert(payload@.take(i as int) =~= payload@);
    r
}

/// Reads the first frame of `buf`: its payload and the number of bytes it
/// spans, or `None` while more bytes are needed.
pub fn decode_frame(buf: &Vec<u8>) -> (r: Option<(Vec<u8>, usize)>)
    ensures
        match r {
            Some((payload, used)) => first_frame(buf@) == Some((payload@, used as int)),
            None => first_frame(buf@) is None,
        },
{
    if buf.len() < 4 {
        return None;
    }
    let n: u64 = buf[0] as u64 + 256 * (buf[1] as u64) + 65536 * (buf[2] as u64) + 16777216 * (buf[3] as u64);
    assert(n == le_u32_value(buf@));
    if (buf.len() as u64) < 4 + n {
        return None;
    }
    let end = (4 + n) as usize;
    let mut payload: Vec<u8> = Vec::new();
    let mut i: usize = 4;
    while i < end
        invariant
            4 <= i <= end,
            end <= buf@.len(),
            payload@ == buf@.subrange(4, i as int),
        decreases end - i,
    {
        payload.push(buf[i]);
        assert(buf@.subrange(4, i + 1) =~= buf@.subrange(4, i as int).push(buf@[i as int]));
        i = i + 1;
    }
    Some((payload, end))
}

/// How long a client waits for the answer to one request, in milliseconds.
pub const REQUEST_TIMEOUT_MS: u64 = 1000;

/// What a client got back for one request.
#[derive(Debug, Clone, Copy, PartialEq, Eq)]
pub enum ClientReply {
    Received(SmResponse),
    Undecodable,
    ReadFailed,
    TimedOut,
}

/// The state of a client's connection.
#[derive(Debug, Clone, Copy, PartialEq, Eq, Structural)]
pub enum ConnectionState {
    Disconnected,
    Connected,
    Broken,
}

/// The decisions of the State-Management side: what to send, and what an
/// answer, or its absence, means. A connection that failed once stays unusable.
#[derive(Debug)]
pub struct StateClient {
    pub connection: ConnectionState,
}

impl StateClient {
    pub fn new() -> (r: Self)
        ensures
            r.connection == ConnectionState::Disconnected,
    {
        StateClient { connection: ConnectionState::Disconnected }
    }

    /// Notes that the connection is established.
    pub fn connected(&mut self)
        requires
            old(self).connection == ConnectionState::Disconnected,
        ensures
            final(self).connection == ConnectionState::Connected,
    {
        self.connection = ConnectionState::Connected;
    }

    /// The request for the initial state, or `CommunicationError` without a
    /// usable connection.
    pub fn request_initial_state(&self) -> (r: Result<SmClientCommand, InitialStateError>)
        ensures
            self.connection == ConnectionState::Connected ==> r matches Ok(SmClientCommand::GetInitialState),
            self.connection != ConnectionState::Connected ==> r == Err::<SmClientCommand, InitialStateError>(InitialStateError::CommunicationError),
    {
        if self.connection == ConnectionState::Connected {
            Ok(SmClientCommand::GetInitialState)
        } else {
            Err(InitialStateError::CommunicationError)
        }
    }

    /// The request to move to `state`, or `CommunicationError` without a
    /// usable connection.
    pub fn request_set_state(&self, state: &FunctionGroupState) -> (r: Result<SmClientCommand, SetStateError>)
        ensures
            self.connection == ConnectionState::Connected ==> (r matches Ok(SmClientCommand::SetState(s)) && s@ == state@),
            self.connection != ConnectionState::Connected ==> r == Err::<SmClientCommand, SetStateError>(SetStateError::CommunicationError),
    {
        if self.connection == ConnectionState::Connected {
            Ok(SmClientCommand::SetState(state.clone()))
        } else {
            Err(SetStateError::CommunicationError)
        }
    }

    /// The outcome of the initial-state request: the answer of the server, or
    /// `CommunicationError` when none came in time, reading failed, or the
    /// answer does not fit the request; the connection is then unusable.
    pub fn get_initial_machine_state_transition_result(&mut self, reply: ClientReply) -> (r: Result<(), InitialStateError>)
        ensures
            match reply {
                ClientReply::Received(SmResponse::GetInitialState(x)) => r == x && final(self).connection == old(self).connection,
                _ => r == Err::<(), InitialStateError>(InitialStateError::CommunicationError)
                    && final(self).connection == ConnectionState::Broken,
            },
    {
        match reply {
            ClientReply::Received(SmResponse::GetInitialState(x)) => x,
            _ => {
                self.connection = ConnectionState::Broken;
                Err(InitialStateError::CommunicationError)
            },
        }
    }

    /// The outcome of a set-state request: the answer of the server, or
    /// `CommunicationError` when none came in time, reading failed, or the
    /// answer does not fit the request; the connection is then unusable.
    pub fn set_state(&mut self, reply: ClientReply) -> (r: Result<(), SetStateError>)
        ensures
            match reply {
                ClientReply::Received(SmResponse::SetState(x)) => r == x && final(self).connection == old(self).connection,
                _ => r == Err::<(), SetStateError>(SetStateError::CommunicationError)
                    && final(self).connection == ConnectionState::Broken,
            },
    {
        match reply {
            ClientReply::Received(SmResponse::SetState(x)) => x,
            _ => {
                self.connection = ConnectionState::Broken;
                Err(SetStateError::CommunicationError)
            },
        }
    }
}

} // verus!
