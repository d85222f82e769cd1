//! The two ends of the control socket as state machines.
//!
//! The socket itself belongs to the caller, who connects, reads and
//! writes. The writer and the listener here say which bytes to write and
//! what the bytes that were read mean, and hold each exchange to its
//! order: one command, one response, then the connection closes.

use vstd::prelude::*;
use vstd::slice::slice_to_vec;
use vstd::string::StringSliceAdditionalSpecFns;
use crate::command::handler::{handled, CommandHandler};
use crate::command::wire::{
    command_bytes, decode_command, decode_response, encodable, encode_command, encode_response,
    frame, framed, max_len, parse_command, parse_response, response_bytes, unframe, unframed,
    Failure, Response, ResponseView, WireError,
};
use crate::indexer::index::Indexer;
use crate::{Command, CommandView};

verus! {

/// Why an exchange on the control socket failed.
#[derive(Clone, Copy, Debug, PartialEq, Eq, Structural)]
pub enum TransportError {
    /// The daemon is not reachable, or the connection broke before a
    /// whole response arrived.
    Connection,
    /// A whole frame arrived and it holds no response.
    Decode,
    /// The step does not come at this point of the exchange.
    OutOfTurn,
}

/// Where the writer stands in its exchange.
#[derive(Clone, Copy, Debug, PartialEq, Eq, Structural)]
pub enum WriterState {
    Connect,
    Send,
    AwaitResponse,
    Close,
}

/// The client's end of one exchange.
#[derive(Debug)]
pub struct CommandWriter {
    socket_path: Vec<u8>,
    state: WriterState,
    outgoing: Vec<u8>,
}

/// What the writer makes of the bytes it read while it waited for the
/// response. Bytes that end before the frame does mean the connection
/// broke; a frame that holds no response is a decode error.
pub open spec fn received(bytes: Seq<u8>) -> Result<ResponseView, TransportError> {
    match unframed(bytes) {
        Ok(payload) => match parse_response(payload) {
            Ok(response) => Ok(response),
            Err(_) => Err(TransportError::Decode),
        },
        Err(WireError::Truncated) => Err(TransportError::Connection),
        Err(_) => Err(TransportError::Decode),
    }
}

impl CommandWriter {
    /// Where the writer stands.
    pub closed spec fn state(&self) -> WriterState {
        self.state
    }

    /// The socket the writer talks to.
    pub closed spec fn socket(&self) -> Seq<u8> {
        self.socket_path@
    }

    /// The bytes the writer wants written.
    pub closed spec fn outgoing(&self) -> Seq<u8> {
        self.outgoing@
    }

    /// Whether `after` is this writer one step on, in state `state` and
    /// with `outgoing` to write.
    pub open spec fn steps_to(&self, after: &CommandWriter, state: WriterState, outgoing: Seq<u8>) -> bool {
        &&& after.state() == state
        &&& after.socket() == self.socket()
        &&& after.outgoing() == outgoing
    }

    /// A writer for the socket at `socket_path`, about to connect. Nothing
    /// is held open: each invocation makes its own writer.
    pub fn new(socket_path: Vec<u8>) -> (writer: Self)
        ensures
            writer.state() == WriterState::Connect,
            writer.socket() == socket_path@,
            writer.outgoing() == Seq::<u8>::empty(),
    {
        CommandWriter { socket_path, state: WriterState::Connect, outgoing: Vec::new() }
    }

    /// The path of the socket to connect to.
    pub fn socket_path(&self) -> (path: Vec<u8>)
        ensures
            path@ == self.socket(),
    {
        slice_to_vec(self.socket_path.as_slice())
    }

    /// Where the writer stands.
    pub fn current(&self) -> (state: WriterState)
        ensures
            state == self.state(),
    {
        self.state
    }

    /// Takes the outcome of the connection attempt. A socket that does not
    /// exist or refuses the connection is a connection error.
    pub fn connected(self, reachable: bool) -> (next: Result<CommandWriter, TransportError>)
        ensures
            match next {
                Ok(writer) => self.state() == WriterState::Connect && reachable && self.steps_to(
                    &writer,
                    WriterState::Send,
                    Seq::empty(),
                ),
                Err(error) => if self.state() != WriterState::Connect {
                    error == TransportError::OutOfTurn
                } else {
                    !reachable && error == TransportError::Connection
                },
            },
    {
        if self.state != WriterState::Connect {
            Err(TransportError::OutOfTurn)
        } else if !reachable {
            Err(TransportError::Connection)
        } else {
            Ok(
                CommandWriter {
                    socket_path: self.socket_path,
                    state: WriterState::Send,
                    outgoing: Vec::new(),
                },
            )
        }
    }

    /// Puts one command on the wire: the writer then waits for the
    /// response, with the command's frame to write.
    pub fn send(self, command: &Command) -> (next: Result<CommandWriter, TransportError>)
        ensures
            match next {
                Ok(writer) => self.state() == WriterState::Send && self.steps_to(
                    &writer,
                    WriterState::AwaitResponse,
                    framed(command_bytes(command@)),
                ),
                Err(error) => self.state() != WriterState::Send && error
                    == TransportError::OutOfTurn,
            },
    {
        if self.state != WriterState::Send {
            return Err(TransportError::OutOfTurn);
        }
        let payload = encode_command(command);
        match frame(&payload) {
            Ok(outgoing) => Ok(
                CommandWriter {
                    socket_path: self.socket_path,
                    state: WriterState::AwaitResponse,
                    outgoing,
                },
            ),
            Err(_) => {
                // A command is a single byte and always fits a frame.
                assert(false);
                Err(TransportError::OutOfTurn)
            },
        }
    }

    /// The bytes to write to the socket.
    pub fn frame(&self) -> (bytes: Vec<u8>)
        ensures
            bytes@ == self.outgoing(),
    {
        slice_to_vec(self.outgoing.as_slice())
    }

    /// Takes everything that was read from the socket until it closed and
    /// ends the exchange: see [`received`]. There is no partial response.
    pub fn receive(self, bytes: &Vec<u8>) -> (response: Result<Response, TransportError>)
        ensures
            self.state() != WriterState::AwaitResponse ==> (response matches Err(error) && error
                == TransportError::OutOfTurn),
            self.state() == WriterState::AwaitResponse ==> match response {
                Ok(response) => received(bytes@) == Ok::<ResponseView, TransportError>(response@),
                Err(error) => received(bytes@) == Err::<ResponseView, TransportError>(error),
            },
    {
        if self.state != WriterState::AwaitResponse {
            return Err(TransportError::OutOfTurn);
        }
        match unframe(bytes) {
            Ok(payload) => match decode_response(&payload) {
                Ok(response) => Ok(response),
                Err(_) => Err(TransportError::Decode),
            },
            Err(WireError::Truncated) => Err(TransportError::Connection),
            Err(_) => Err(TransportError::Decode),
        }
    }
}

/// Where the listener stands with the connection at hand.
#[derive(Debug, PartialEq, Eq)]
pub enum ListenerState {
    /// No connection.
    Idle,
    /// Waiting for a client to connect.
    Accepting,
    /// A client connected; its command is being read.
    Decoding,
    /// The command is decoded and waits to be executed.
    Dispatching(Command),
    /// The reply is ready to be written.
    Responding(Vec<u8>),
}

/// Mathematical value of a [`ListenerState`].
pub enum ListenerStateView {
    Idle,
    Accepting,
    Decoding,
    Dispatching(CommandView),
    Responding(Seq<u8>),
}

impl View for ListenerState {
    type V = ListenerStateView;

    open spec fn view(&self) -> ListenerStateView {
        match *self {
            ListenerState::Idle => ListenerStateView::Idle,
            ListenerState::Accepting => ListenerStateView::Accepting,
            ListenerState::Decoding => ListenerStateView::Decoding,
            ListenerState::Dispatching(command) => ListenerStateView::Dispatching(command@),
            ListenerState::Responding(reply) => ListenerStateView::Responding(reply@),
        }
    }
}

/// What to do about the socket path when the daemon starts.
#[derive(Clone, Copy, Debug, PartialEq, Eq, Structural)]
pub enum SocketClaim {
    /// Nothing is at the path: bind.
    Bind,
    /// A socket is there and nobody answers it: it is stale; remove it and
    /// bind.
    Replace,
    /// A socket is there and a daemon answers it: do not start a second.
    Refuse,
}

/// The description sent back for a command that could not be decoded.
pub open spec fn malformed_command() -> Seq<u8> {
    "malformed command".spec_bytes()
}

/// The frame that carries a response: the response itself where it fits
/// the format, and a handler failure without description where it does
/// not.
pub open spec fn reply_frame(response: ResponseView) -> Seq<u8> {
    if encodable(response) && response_bytes(response).len() <= max_len() {
        framed(response_bytes(response))
    } else {
        framed(
            response_bytes(ResponseView::Error { kind: Failure::Handler, message: Seq::empty() }),
        )
    }
}

/// The state after the bytes of a connection were read: a command that
/// decodes waits to be dispatched; anything else is answered with a decode
/// error.
pub open spec fn decoded(bytes: Seq<u8>) -> ListenerStateView {
    match unframed(bytes) {
        Ok(payload) => match parse_command(payload) {
            Ok(command) => ListenerStateView::Dispatching(command),
            Err(_) => ListenerStateView::Responding(decode_failure()),
        },
        Err(_) => ListenerStateView::Responding(decode_failure()),
    }
}

/// The frame that tells a client that its command could not be decoded.
pub open spec fn decode_failure() -> Seq<u8> {
    reply_frame(ResponseView::Error { kind: Failure::Decode, message: malformed_command() })
}

/// Frames a response for the wire: see [`reply_frame`].
fn frame_reply(response: &Response) -> (bytes: Vec<u8>)
    ensures
        bytes@ == reply_frame(response@),
{
    match encode_response(response) {
        Ok(payload) => match frame(&payload) {
            Ok(bytes) => {
                return bytes;
            },
            Err(_) => {},
        },
        Err(_) => {},
    }
    let fallback = Response::Error { kind: Failure::Handler, message: Vec::new() };
    let payload = match encode_response(&fallback) {
        Ok(payload) => payload,
        Err(_) => Vec::new(),
    };
    assert(payload@ =~= response_bytes(
        ResponseView::Error { kind: Failure::Handler, message: Seq::empty() },
    ));
    assert(payload@.len() == 2);
    match frame(&payload) {
        Ok(bytes) => bytes,
        Err(_) => Vec::new(),
    }
}

/// The daemon's end of the control socket. It serves one connection at a
/// time, and each connection one exchange.
#[derive(Debug)]
pub struct CommandListener {
    socket_path: Vec<u8>,
    handler: CommandHandler,
    state: ListenerState,
    stopping: bool,
}

impl CommandListener {
    /// Where the listener stands.
    pub closed spec fn state(&self) -> ListenerStateView {
        self.state@
    }

    /// The socket the listener owns.
    pub closed spec fn socket(&self) -> Seq<u8> {
        self.socket_path@
    }

    /// Whether the listener was asked to stop.
    pub closed spec fn stopping(&self) -> bool {
        self.stopping
    }

    /// Whether `after` is this listener in another state, nothing else
    /// changed.
    pub open spec fn moves_to(&self, after: &CommandListener, state: ListenerStateView) -> bool {
        &&& after.state() == state
        &&& after.socket() == self.socket()
        &&& after.stopping() == self.stopping()
    }

    /// What to do about the socket path at startup, given whether a file
    /// is present there and whether a daemon answered a connection attempt.
    pub fn claim(present: bool, answered: bool) -> (claim: SocketClaim)
        ensures
            claim == if !present {
                SocketClaim::Bind
            } else if answered {
                SocketClaim::Refuse
            } else {
                SocketClaim::Replace
            },
    {
        if !present {
            SocketClaim::Bind
        } else if answered {
            SocketClaim::Refuse
        } else {
            SocketClaim::Replace
        }
    }

    /// An idle listener for the socket at `socket_path`.
    pub fn new(socket_path: Vec<u8>, handler: CommandHandler) -> (listener: Self)
        ensures
            listener.state() == ListenerStateView::Idle,
            listener.socket() == socket_path@,
            !listener.stopping(),
    {
        CommandListener { socket_path, handler, state: ListenerState::Idle, stopping: false }
    }

    /// The path of the socket to bind.
    pub fn socket_path(&self) -> (path: Vec<u8>)
        ensures
            path@ == self.socket(),
    {
        slice_to_vec(self.socket_path.as_slice())
    }

    /// Asks the listener to take no new connections. An exchange under
    /// way may finish.
    pub fn stop(&mut self)
        ensures
            final(self).stopping(),
            final(self).state() == old(self).state(),
            final(self).socket() == old(self).socket(),
    {
        self.stopping = true;
    }

    /// Starts waiting for a connection. Only an idle listener that was
    /// not asked to stop does; returns whether it did.
    pub fn listen(&mut self) -> (accepting: bool)
        ensures
            accepting == (old(self).state() == ListenerStateView::Idle && !old(self).stopping()),
            accepting ==> old(self).moves_to(final(self), ListenerStateView::Accepting),
            !accepting ==> old(self).moves_to(final(self), old(self).state()),
    {
        if self.stopping {
            return false;
        }
        match self.state {
            ListenerState::Idle => {
                self.state = ListenerState::Accepting;
                true
            },
            _ => false,
        }
    }

    /// Takes the outcome of waiting for a connection: with a client
    /// connected the listener reads its command, without one it is idle
    /// again. Returns whether the step came in turn.
    pub fn accepted(&mut self, connected: bool) -> (in_turn: bool)
        ensures
            in_turn == (old(self).state() == ListenerStateView::Accepting),
            in_turn ==> old(self).moves_to(
                final(self),
                if connected {
                    ListenerStateView::Decoding
                } else {
                    ListenerStateView::Idle
                },
            ),
            !in_turn ==> old(self).moves_to(final(self), old(self).state()),
    {
        match self.state {
            ListenerState::Accepting => {
                self.state = if connected {
                    ListenerState::Decoding
                } else {
                    ListenerState::Idle
                };
                true
            },
            _ => false,
        }
    }

    /// Takes the bytes the client sent: see [`decoded`]. Returns whether
    /// the step came in turn.
    pub fn decode(&mut self, bytes: &Vec<u8>) -> (in_turn: bool)
        ensures
            in_turn == (old(self).state() == ListenerStateView::Decoding),
            in_turn ==> old(self).moves_to(final(self), decoded(bytes@)),
            !in_turn ==> old(self).moves_to(final(self), old(self).state()),
    {
        match self.state {
            ListenerState::Decoding => {},
            _ => {
                return false;
            },
        }
        let command = match unframe(bytes) {
            Ok(payload) => match decode_command(&payload) {
                Ok(command) => Some(command),
                Err(_) => None,
            },
            Err(_) => None,
        };
        self.state = match command {
            Some(command) => ListenerState::Dispatching(command),
            None => {
                let message = slice_to_vec("malformed command".as_bytes());
                ListenerState::Responding(
                    frame_reply(&Response::Error { kind: Failure::Decode, message }),
                )
            },
        };
        true
    }

    /// Executes the decoded command against the index and gets the reply
    /// ready. Returns whether the step came in turn.
    pub fn dispatch(&mut self, index: &Indexer) -> (in_turn: bool)
        ensures
            in_turn == (old(self).state() is Dispatching),
            in_turn ==> old(self).moves_to(
                final(self),
                ListenerStateView::Responding(
                    reply_frame(handled(old(self).state()->Dispatching_0, index@)),
                ),
            ),
            !in_turn ==> old(self).moves_to(final(self), old(self).state()),
    {
        let reply = match &self.state {
            ListenerState::Dispatching(command) => {
                let response = self.handler.handle(command, index);
                frame_reply(&response)
            },
            _ => {
                return false;
            },
        };
        self.state = ListenerState::Responding(reply);
        true
    }

    /// The bytes to write to the client, while the listener is responding.
    pub fn reply(&self) -> (bytes: Option<Vec<u8>>)
        ensures
            match bytes {
                Some(bytes) => self.state() == ListenerStateView::Responding(bytes@),
                None => !(self.state() is Responding),
            },
    {
        match &self.state {
            ListenerState::Responding(reply) => Some(slice_to_vec(reply.as_slice())),
            _ => None,
        }
    }

    /// The reply was written and the connection closed: the listener is
    /// idle again. Returns whether the step came in turn.
    pub fn responded(&mut self) -> (in_turn: bool)
        ensures
            in_turn == (old(self).state() is Responding),
            in_turn ==> old(self).moves_to(final(self), ListenerStateView::Idle),
            !in_turn ==> old(self).moves_to(final(self), old(self).state()),
    {
        match self.state {
            ListenerState::Responding(_) => {
                self.state = ListenerState::Idle;
                true
            },
            _ => false,
        }
    }

    /// The connection at hand was lost. Whatever the listener was doing,
    /// it is idle again and the daemon goes on.
    pub fn abort(&mut self)
        ensures
            old(self).moves_to(final(self), ListenerStateView::Idle),
    {
        self.state = ListenerState::Idle;
    }
}

} // verus!
