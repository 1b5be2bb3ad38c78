//! The session of one connection: its liveness and the messages it receives.
//!
//! A session is made when a peer was admitted, becomes active when its
//! liveness loop starts, and is closing from the moment the peer asks for it,
//! falls silent for too long, or cannot be written to. The session itself
//! neither reads nor writes the connection: it is told what arrived and when,
//! and says what is to be sent.

use crate::command::{instruction_of, read_instruction, Instruction};
use crate::error::MyError;
use crate::filter::{enumerates, listing, may_follow, Filter};
use vstd::prelude::*;
use vstd::string::*;

verus! {

/// How often the liveness of the peer is probed, in milliseconds.
pub const HEARTBEAT_INTERVAL: u64 = 5_000;

/// How long the peer may stay silent before the session is closed, in
/// milliseconds.
pub const CLIENT_TIMEOUT: u64 = 10_000;

/// Where a session stands in its life.
#[derive(Clone, Copy, Debug, PartialEq, Eq, Structural)]
pub enum SessionState {
    /// Made, and not yet running.
    Connecting,
    /// Running: messages are handled and the peer is probed.
    Active,
    /// On its way out: nothing more is handled or sent.
    Closing,
    /// Gone: the connection is released.
    Closed,
}

/// A message from the peer.
#[derive(Clone, Debug, PartialEq, Eq)]
pub enum Message {
    /// A probe, with its payload.
    Ping(Vec<u8>),
    /// The answer to a probe, with its payload.
    Pong(Vec<u8>),
    /// A text.
    Text(String),
    /// Bytes.
    Binary(Vec<u8>),
    /// The request to close.
    Close,
    /// Nothing that concerns the session.
    Nop,
}

/// What a message is, seen as plain values.
pub ghost enum MessageView {
    Ping(Seq<u8>),
    Pong(Seq<u8>),
    Text(Seq<char>),
    Binary(Seq<u8>),
    Close,
    Nop,
}

impl View for Message {
    type V = MessageView;

    open spec fn view(&self) -> MessageView {
        match self {
            Message::Ping(payload) => MessageView::Ping(payload@),
            Message::Pong(payload) => MessageView::Pong(payload@),
            Message::Text(text) => MessageView::Text(text@),
            Message::Binary(bytes) => MessageView::Binary(bytes@),
            Message::Close => MessageView::Close,
            Message::Nop => MessageView::Nop,
        }
    }
}

/// What is to be sent, or done, in answer to a message.
#[derive(Clone, Debug, PartialEq, Eq)]
pub enum Reply {
    /// Nothing.
    Nothing,
    /// Send the answer to a probe, with this payload.
    Pong(Vec<u8>),
    /// Send this text.
    Text(String),
    /// Send these bytes.
    Binary(Vec<u8>),
    /// Stop the session.
    Stop,
}

/// What a reply is, seen as plain values.
pub ghost enum ReplyView {
    Nothing,
    Pong(Seq<u8>),
    Text(Seq<char>),
    Binary(Seq<u8>),
    Stop,
}

impl View for Reply {
    type V = ReplyView;

    open spec fn view(&self) -> ReplyView {
        match self {
            Reply::Nothing => ReplyView::Nothing,
            Reply::Pong(payload) => ReplyView::Pong(payload@),
            Reply::Text(text) => ReplyView::Text(text@),
            Reply::Binary(bytes) => ReplyView::Binary(bytes@),
            Reply::Stop => ReplyView::Stop,
        }
    }
}

/// What a tick of the liveness loop leads to.
#[derive(Clone, Copy, Debug, PartialEq, Eq, Structural)]
pub enum Beat {
    /// Send a probe.
    Ping,
    /// The peer was silent for too long: stop the session, send nothing.
    Stop,
    /// The session does not run: send nothing.
    Idle,
}

/// What a message leads to: what goes back to the peer, and what is to be
/// carried out on the filter.
#[derive(Clone, Debug, PartialEq, Eq)]
pub struct Step {
    /// What goes back to the peer.
    pub reply: Reply,
    /// What is to be carried out on the filter.
    pub instruction: Instruction,
}

/// A session, seen as plain values.
pub ghost struct Session {
    /// Where the session stands.
    pub state: SessionState,
    /// When the peer last showed a sign of life.
    pub last_activity: u64,
    /// Why the session is closing, where a failure is the reason.
    pub cause: Option<MyError>,
    /// The listing of the allow-list as it was when the session was made.
    pub snapshot: Seq<char>,
}

impl Session {
    /// How long the peer has been silent at `now`. A clock that went back
    /// counts as no silence.
    pub open spec fn silence(self, now: u64) -> int {
        if now >= self.last_activity {
            now - self.last_activity
        } else {
            0
        }
    }

    /// Whether the peer has been silent for too long at `now`.
    pub open spec fn timed_out(self, now: u64) -> bool {
        self.silence(now) > CLIENT_TIMEOUT
    }

    /// The session after its liveness loop was started at `now`.
    pub open spec fn started(self, now: u64) -> Session {
        if self.state == SessionState::Connecting {
            Session { state: SessionState::Active, last_activity: now, ..self }
        } else {
            self
        }
    }

    /// What a tick at `now` leads to.
    pub open spec fn beat(self, now: u64) -> Beat {
        if self.state != SessionState::Active {
            Beat::Idle
        } else if self.timed_out(now) {
            Beat::Stop
        } else {
            Beat::Ping
        }
    }

    /// The session after a tick at `now`.
    pub open spec fn ticked(self, now: u64) -> Session {
        if self.state == SessionState::Active && self.timed_out(now) {
            Session { state: SessionState::Closing, cause: Some(MyError::PeerTimeout), ..self }
        } else {
            self
        }
    }

    /// What goes back to the peer for `message`.
    pub open spec fn reply(self, message: MessageView) -> ReplyView {
        if self.state != SessionState::Active {
            ReplyView::Nothing
        } else {
            match message {
                MessageView::Ping(payload) => ReplyView::Pong(payload),
                MessageView::Pong(_) => ReplyView::Nothing,
                MessageView::Text(text) => if instruction_of(text).echoes() {
                    ReplyView::Text(text)
                } else {
                    ReplyView::Nothing
                },
                MessageView::Binary(bytes) => ReplyView::Binary(bytes),
                MessageView::Close => ReplyView::Stop,
                MessageView::Nop => ReplyView::Nothing,
            }
        }
    }

    /// What `message` asks to be carried out on the filter.
    pub open spec fn instruction(self, message: MessageView) -> Instruction {
        if self.state != SessionState::Active {
            Instruction::Ignore
        } else {
            match message {
                MessageView::Text(text) => instruction_of(text),
                _ => Instruction::Ignore,
            }
        }
    }

    /// The session after `message` arrived at `now`.
    pub open spec fn received(self, message: MessageView, now: u64) -> Session {
        if self.state != SessionState::Active {
            self
        } else {
            match message {
                MessageView::Ping(_) => Session { last_activity: now, ..self },
                MessageView::Pong(_) => Session { last_activity: now, ..self },
                MessageView::Close => Session { state: SessionState::Closing, ..self },
                _ => self,
            }
        }
    }

    /// The session after a write to the peer failed. A session that is
    /// closing already keeps its reason.
    pub open spec fn write_failed(self) -> Session {
        if self.state == SessionState::Closing || self.state == SessionState::Closed {
            self
        } else {
            Session {
                state: SessionState::Closing,
                cause: Some(MyError::StreamWriteFailure),
                ..self
            }
        }
    }

    /// The session after the connection was released.
    pub open spec fn finished(self) -> Session {
        Session { state: SessionState::Closed, ..self }
    }
}

/// How far a session has come in its life.
pub open spec fn stage(state: SessionState) -> nat {
    match state {
        SessionState::Connecting => 0,
        SessionState::Active => 1,
        SessionState::Closing => 2,
        SessionState::Closed => 3,
    }
}

/// A session never goes back in its life: whatever happens to it, it stands
/// where it stood or further on.
pub proof fn lemma_life_moves_forward(session: Session, message: MessageView, now: u64)
    ensures
        stage(session.started(now).state) >= stage(session.state),
        stage(session.ticked(now).state) >= stage(session.state),
        stage(session.received(message, now).state) >= stage(session.state),
        stage(session.write_failed().state) >= stage(session.state),
        stage(session.finished().state) >= stage(session.state),
{
}

/// A session whose peer was silent for longer than the timeout is closing
/// after the next tick, for that reason; the tick sends no probe, and no tick
/// after it sends one.
pub proof fn lemma_silence_closes(session: Session, now: u64, later: u64)
    requires
        session.state == SessionState::Active,
        now - session.last_activity > CLIENT_TIMEOUT,
    ensures
        session.ticked(now).state == SessionState::Closing,
        session.ticked(now).cause == Some(MyError::PeerTimeout),
        session.beat(now) == Beat::Stop,
        session.ticked(now).beat(later) == Beat::Idle,
        session.ticked(now).ticked(later) == session.ticked(now),
{
}

/// A running session whose peer showed a sign of life within the timeout is
/// probed at the tick, and runs on.
pub proof fn lemma_life_is_probed(session: Session, now: u64)
    requires
        session.state == SessionState::Active,
        now - session.last_activity <= CLIENT_TIMEOUT,
    ensures
        session.beat(now) == Beat::Ping,
        session.ticked(now) == session,
{
}

/// A session that does not run handles nothing: it answers no message, asks
/// nothing of the filter and stays as it is.
pub proof fn lemma_rest_is_silence(session: Session, message: MessageView, now: u64)
    requires
        session.state != SessionState::Active,
    ensures
        session.reply(message) == ReplyView::Nothing,
        session.instruction(message) == Instruction::Ignore,
        session.received(message, now) == session,
        session.beat(now) == Beat::Idle,
        session.ticked(now) == session,
{
}

/// A probe and its answer are the peer's signs of life: after either the
/// peer has not been silent at all, and the next tick at that time probes.
pub proof fn lemma_signs_of_life(session: Session, payload: Seq<u8>, now: u64)
    requires
        session.state == SessionState::Active,
    ensures
        session.received(MessageView::Ping(payload), now).silence(now) == 0,
        session.received(MessageView::Pong(payload), now).silence(now) == 0,
        session.received(MessageView::Ping(payload), now).beat(now) == Beat::Ping,
        session.received(MessageView::Pong(payload), now).beat(now) == Beat::Ping,
        session.reply(MessageView::Ping(payload)) == ReplyView::Pong(payload),
        session.reply(MessageView::Pong(payload)) == ReplyView::Nothing,
{
}

/// The session of one connection.
#[derive(Debug)]
pub struct MyWebSocket {
    hb: u64,
    state: SessionState,
    cause: Option<MyError>,
    snapshot: String,
}

impl View for MyWebSocket {
    type V = Session;

    closed spec fn view(&self) -> Session {
        Session {
            state: self.state,
            last_activity: self.hb,
            cause: self.cause,
            snapshot: self.snapshot@,
        }
    }
}

impl MyWebSocket {
    /// A session made at `now` for a peer that `filter` admitted. It is not
    /// running yet, and keeps the listing of the allow-list as it is.
    pub fn new(filter: &Filter, now: u64) -> (session: MyWebSocket)
        ensures
            session@.state == SessionState::Connecting,
            session@.last_activity == now,
            session@.cause is None,
            exists|order: Seq<crate::address::Address>| #[trigger]
                enumerates(order, filter@.clients) && session@.snapshot == listing(order),
    {
        MyWebSocket {
            hb: now,
            state: SessionState::Connecting,
            cause: None,
            snapshot: filter.list_clients(),
        }
    }

    /// Where the session stands.
    pub fn state(&self) -> (state: SessionState)
        ensures
            state == self@.state,
    {
        self.state
    }

    /// When the peer last showed a sign of life.
    pub fn last_activity(&self) -> (at: u64)
        ensures
            at == self@.last_activity,
    {
        self.hb
    }

    /// Why the session is closing, where a failure is the reason.
    pub fn cause(&self) -> (cause: Option<MyError>)
        ensures
            cause == self@.cause,
    {
        self.cause
    }

    /// The listing of the allow-list as it was when the session was made.
    pub fn snapshot(&self) -> (text: &str)
        ensures
            text@ == self@.snapshot,
    {
        self.snapshot.as_str()
    }

    /// Whether messages are handled and the peer is probed.
    pub fn is_active(&self) -> (active: bool)
        ensures
            active == (self@.state == SessionState::Active),
    {
        match self.state {
            SessionState::Active => true,
            _ => false,
        }
    }

    /// Starts the liveness loop at `now`: a session that was made and not
    /// yet running runs from now on.
    pub fn started(&mut self, now: u64)
        ensures
            final(self)@ == old(self)@.started(now),
    {
        match self.state {
            SessionState::Connecting => {
                self.state = SessionState::Active;
                self.hb = now;
            },
            _ => {},
        }
    }

    /// A tick of the liveness loop at `now`. Where the peer was silent for
    /// too long the session is closing from now on and no probe is sent;
    /// otherwise a running session probes the peer.
    pub fn hb(&mut self, now: u64) -> (beat: Beat)
        ensures
            beat == old(self)@.beat(now),
            final(self)@ == old(self)@.ticked(now),
    {
        match self.state {
            SessionState::Active => {
                let silence = if now >= self.hb {
                    now - self.hb
                } else {
                    0
                };
                if silence > CLIENT_TIMEOUT {
                    self.state = SessionState::Closing;
                    self.cause = Some(MyError::PeerTimeout);
                    Beat::Stop
                } else {
                    Beat::Ping
                }
            },
            _ => Beat::Idle,
        }
    }

    /// Takes in `message`, which arrived at `now`: says what goes back to
    /// the peer and what is to be carried out on the filter, and keeps what
    /// the message means for the session itself.
    pub fn interpret(&mut self, message: Message, now: u64) -> (step: Step)
        ensures
            step.reply@ == old(self)@.reply(message@),
            step.instruction == old(self)@.instruction(message@),
            final(self)@ == old(self)@.received(message@, now),
    {
        match self.state {
            SessionState::Active => {},
            _ => {
                return Step { reply: Reply::Nothing, instruction: Instruction::Ignore };
            },
        }
        match message {
            Message::Ping(payload) => {
                self.hb = now;
                Step { reply: Reply::Pong(payload), instruction: Instruction::Ignore }
            },
            Message::Pong(_) => {
                self.hb = now;
                Step { reply: Reply::Nothing, instruction: Instruction::Ignore }
            },
            Message::Text(text) => {
                let instruction = read_instruction(text.as_str());
                match instruction {
                    Instruction::Echo => Step { reply: Reply::Text(text), instruction },
                    _ => Step { reply: Reply::Nothing, instruction },
                }
            },
            Message::Binary(bytes) => Step {
                reply: Reply::Binary(bytes),
                instruction: Instruction::Ignore,
            },
            Message::Close => {
                self.state = SessionState::Closing;
                Step { reply: Reply::Stop, instruction: Instruction::Ignore }
            },
            Message::Nop => Step { reply: Reply::Nothing, instruction: Instruction::Ignore },
        }
    }

    /// Handles `message`, which arrived at `now`: carries out on `filter`
    /// what it asks, and says what goes back to the peer.
    pub fn handle(&mut self, filter: &mut Filter, message: Message, now: u64) -> (reply: Reply)
        ensures
            reply@ == old(self)@.reply(message@),
            final(self)@ == old(self)@.received(message@, now),
            exists|drawn: u64|
                final(filter)@ == old(self)@.instruction(message@).carried_out(old(filter)@, drawn),
            final(filter)@.clients == old(self)@.instruction(message@).carried_out(
                old(filter)@,
                0,
            ).clients,
            old(self)@.instruction(message@) is Add ==> may_follow(
                final(filter)@.token,
                old(filter)@.token,
            ),
            !(old(self)@.instruction(message@) is Add) ==> final(filter)@.token == old(
                filter,
            )@.token,
    {
        let step = self.interpret(message, now);
        let _ = filter.execute(step.instruction);
        step.reply
    }

    /// Handles `message` as `handle` does, with `drawn` as the number drawn
    /// for the next token.
    pub fn handle_with(
        &mut self,
        filter: &mut Filter,
        message: Message,
        now: u64,
        drawn: u64,
    ) -> (reply: Reply)
        ensures
            reply@ == old(self)@.reply(message@),
            final(self)@ == old(self)@.received(message@, now),
            final(filter)@ == old(self)@.instruction(message@).carried_out(old(filter)@, drawn),
    {
        let step = self.interpret(message, now);
        let _ = filter.execute_with(step.instruction, drawn);
        step.reply
    }

    /// Puts `ip` on the allow-list, as the command `ADD` does.
    pub fn add_ip(&mut self, filter: &mut Filter, ip: crate::address::Address) -> (added: bool)
        ensures
            final(self)@ == old(self)@,
            added == !old(filter)@.contains(ip),
            exists|drawn: u64| final(filter)@ == old(filter)@.added(ip, drawn),
            final(filter)@.clients == old(filter)@.clients.insert(ip),
            may_follow(final(filter)@.token, old(filter)@.token),
    {
        filter.add_ip(ip)
    }

    /// Takes `ip` off the allow-list, as the command `REMOVE` does.
    pub fn remove_ip(&mut self, filter: &mut Filter, ip: crate::address::Address) -> (removed: bool)
        ensures
            final(self)@ == old(self)@,
            removed == (old(filter)@.contains(ip) && ip != crate::address::loopback()),
            final(filter)@ == old(filter)@.removed(ip),
    {
        filter.remove_ip(&ip)
    }

    /// A write to the peer failed: the session is closing from now on, for
    /// that reason, unless it was closing already.
    pub fn write_failed(&mut self)
        ensures
            final(self)@ == old(self)@.write_failed(),
    {
        match self.state {
            SessionState::Closed => {},
            SessionState::Closing => {},
            _ => {
                self.state = SessionState::Closing;
                self.cause = Some(MyError::StreamWriteFailure);
            },
        }
    }

    /// The connection was released: the session is gone.
    pub fn finished(&mut self)
        ensures
            final(self)@ == old(self)@.finished(),
    {
        self.state = SessionState::Closed;
    }
}

} // verus!
