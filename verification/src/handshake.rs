//! The nickname handshake: the state machine that admits a new connection
//! under a nickname that nobody else holds.

use crate::registry::{
    after_finalize, after_release, after_reserve, attachable, check_if_nickname_exists, taken,
    Registry, SlotView,
};
use crate::session::{Session, SessionView};
use crate::text::{line_of, normalize};
use vstd::prelude::*;

verus! {

/// Where a handshake stands.
#[derive(Debug, Clone, Copy, PartialEq, Eq, Structural)]
pub enum Phase {
    /// A nickname is being asked for.
    AwaitingNickname,
    /// The proposed nickname is reserved and the client is being told so.
    Validating,
    /// The session is admitted under its nickname.
    Admitted,
    /// The transport failed; the connection is given up.
    Rejected,
}

/// What the server is to do next for the connection.
#[derive(Debug, Clone, Copy, PartialEq, Eq, Structural)]
pub enum Directive {
    /// Send the prompt token.
    SendPrompt,
    /// Receive one frame.
    Receive,
    /// Send the token that tells the client it is admitted.
    SendOk,
    /// Start the session's receive loop.
    Serve,
    /// Close the connection.
    Close,
}

/// What the transport reports once a directive was carried out, as plain
/// values.
pub enum EventView {
    /// The token was sent.
    Sent,
    /// A frame was received.
    Received(Seq<u8>),
    /// The transport failed.
    Failed,
}

/// What the transport reports once a directive was carried out.
#[derive(Debug, PartialEq, Eq)]
pub enum Event {
    /// The token was sent.
    Sent,
    /// A frame was received.
    Received(Vec<u8>),
    /// The transport failed.
    Failed,
}

impl View for Event {
    type V = EventView;

    open spec fn view(&self) -> EventView {
        match self {
            Event::Sent => EventView::Sent,
            Event::Received(frame) => EventView::Received(frame@),
            Event::Failed => EventView::Failed,
        }
    }
}

/// A handshake, as plain values.
pub struct HandshakeView {
    /// Where the handshake stands.
    pub phase: Phase,
    /// The directive whose report the handshake waits for.
    pub pending: Directive,
    /// The nickname that was reserved, once one was.
    pub nickname: Seq<char>,
}

/// The handshake of one connection.
#[derive(Debug)]
pub struct Handshake {
    phase: Phase,
    pending: Directive,
    nickname: String,
}

impl View for Handshake {
    type V = HandshakeView;

    closed spec fn view(&self) -> HandshakeView {
        HandshakeView { phase: self.phase, pending: self.pending, nickname: self.nickname@ }
    }
}

/// All that one step of a handshake reads and writes.
pub struct Stage {
    /// The handshake itself.
    pub handshake: HandshakeView,
    /// The slots of the registry.
    pub slots: Seq<SlotView>,
    /// The session that the connection belongs to.
    pub session: SessionView,
}

impl HandshakeView {
    /// A handshake that has just begun: the prompt is to be sent.
    pub open spec fn begun() -> HandshakeView {
        HandshakeView {
            phase: Phase::AwaitingNickname,
            pending: Directive::SendPrompt,
            nickname: Seq::empty(),
        }
    }

    /// Whether the pending directive fits the phase: a prompt or a receive
    /// while a nickname is awaited, the admission token while the nickname is
    /// validated, and then serving or closing.
    pub open spec fn consistent(self) -> bool {
        match self.phase {
            Phase::AwaitingNickname => self.pending == Directive::SendPrompt || self.pending
                == Directive::Receive,
            Phase::Validating => self.pending == Directive::SendOk,
            Phase::Admitted => self.pending == Directive::Serve,
            Phase::Rejected => self.pending == Directive::Close,
        }
    }

    /// Whether the handshake is over, one way or the other.
    pub open spec fn settled(self) -> bool {
        self.phase == Phase::Admitted || self.phase == Phase::Rejected
    }

    /// Whether the handshake waits for the prompt to be sent.
    pub open spec fn prompting(self) -> bool {
        self.phase == Phase::AwaitingNickname && self.pending == Directive::SendPrompt
    }

    /// Whether the handshake waits for a proposal.
    pub open spec fn listening(self) -> bool {
        self.phase == Phase::AwaitingNickname && self.pending == Directive::Receive
    }

    /// Whether the handshake waits for the admission token to be sent.
    pub open spec fn confirming(self) -> bool {
        self.phase == Phase::Validating && self.pending == Directive::SendOk
    }
}

/// The stage after the handshake is given up: the session is closed, and a
/// nickname that was reserved for it is free again.
pub open spec fn rejection(t: Stage) -> Stage {
    Stage {
        handshake: HandshakeView {
            phase: Phase::Rejected,
            pending: Directive::Close,
            nickname: t.handshake.nickname,
        },
        slots: if t.handshake.phase == Phase::Validating {
            after_release(t.slots, t.handshake.nickname)
        } else {
            t.slots
        },
        session: SessionView { live: false, ..t.session },
    }
}

/// The stage after the client has proposed `nickname`. A free nickname is
/// reserved and the client is to be told; a taken one leads back to the
/// prompt, as often as it takes.
pub open spec fn proposal(t: Stage, nickname: Seq<char>) -> Stage {
    if t.handshake.settled() {
        t
    } else if !t.handshake.listening() {
        rejection(t)
    } else if taken(t.slots, nickname) {
        Stage { handshake: HandshakeView { pending: Directive::SendPrompt, ..t.handshake }, ..t }
    } else {
        Stage {
            handshake: HandshakeView {
                phase: Phase::Validating,
                pending: Directive::SendOk,
                nickname,
            },
            slots: after_reserve(t.slots, nickname),
            session: t.session,
        }
    }
}

/// Whether the session of the stage can be admitted under the reserved
/// nickname.
pub open spec fn admissible(t: Stage) -> bool {
    &&& attachable(t.slots, t.handshake.nickname, t.session.id)
    &&& t.session.live
    &&& t.session.nickname is None
}

/// The stage after the client was told that it is admitted: the session gets
/// the nickname and its slot. Where the session cannot be admitted, or the
/// report comes out of turn, the handshake is given up.
pub open spec fn confirmation(t: Stage) -> Stage {
    if t.handshake.settled() {
        t
    } else if t.handshake.confirming() && admissible(t) {
        Stage {
            handshake: HandshakeView {
                phase: Phase::Admitted,
                pending: Directive::Serve,
                nickname: t.handshake.nickname,
            },
            slots: after_finalize(t.slots, t.handshake.nickname, t.session.id),
            session: SessionView { nickname: Some(t.handshake.nickname), ..t.session },
        }
    } else {
        rejection(t)
    }
}

/// The stage after one report of the transport. A handshake that is over
/// stays as it is. A failure, or a report that does not answer the pending
/// directive, gives the handshake up; so does a frame without bytes, which
/// means that the peer has closed the connection.
pub open spec fn stepped(t: Stage, e: EventView) -> Stage {
    if t.handshake.settled() {
        t
    } else {
        match e {
            EventView::Failed => rejection(t),
            EventView::Sent => {
                if t.handshake.prompting() {
                    Stage {
                        handshake: HandshakeView { pending: Directive::Receive, ..t.handshake },
                        ..t
                    }
                } else {
                    confirmation(t)
                }
            },
            EventView::Received(frame) => {
                if frame.len() > 0 {
                    proposal(t, line_of(frame))
                } else {
                    rejection(t)
                }
            },
        }
    }
}

/// The token that a directive puts on the wire; empty for a directive that
/// sends nothing.
pub open spec fn token_of(d: Directive) -> Seq<char> {
    match d {
        Directive::SendPrompt => "NICK"@,
        Directive::SendOk => "OK"@,
        _ => Seq::empty(),
    }
}

/// The token that `directive` puts on the wire; empty for a directive that
/// sends nothing.
pub fn token(directive: Directive) -> (t: String)
    ensures
        t@ == token_of(directive),
{
    match directive {
        Directive::SendPrompt => "NICK".to_owned(),
        Directive::SendOk => "OK".to_owned(),
        _ => String::new(),
    }
}

impl Handshake {
    /// A handshake for a connection that was just accepted. Its first
    /// directive is to send the prompt.
    pub fn new() -> (h: Handshake)
        ensures
            h@ == HandshakeView::begun(),
    {
        Handshake {
            phase: Phase::AwaitingNickname,
            pending: Directive::SendPrompt,
            nickname: String::new(),
        }
    }

    /// Where the handshake stands.
    pub fn phase(&self) -> (p: Phase)
        ensures
            p == self@.phase,
    {
        self.phase
    }

    /// The directive that the server is to carry out next.
    pub fn pending(&self) -> (d: Directive)
        ensures
            d == self@.pending,
    {
        self.pending
    }

    /// The nickname that was reserved; empty before a reservation.
    pub fn nickname(&self) -> (n: String)
        ensures
            n@ == self@.nickname,
    {
        self.nickname.clone()
    }

    /// Gives the handshake up.
    fn reject(&mut self, registry: &mut Registry, session: &mut Session)
        requires
            old(registry).wf(),
            !old(self)@.settled(),
        ensures
            (Stage { handshake: final(self)@, slots: final(registry)@, session: final(session)@ })
                == rejection(
                (Stage { handshake: old(self)@, slots: old(registry)@, session: old(session)@ }),
            ),
            final(registry).wf(),
    {
        if self.phase == Phase::Validating {
            registry.release(self.nickname.as_str());
        }
        self.phase = Phase::Rejected;
        self.pending = Directive::Close;
        session.close();
    }

    /// Takes the client's proposal of `nickname`, which is compared as it
    /// stands. Returns the next directive.
    pub fn propose(&mut self, registry: &mut Registry, session: &mut Session, nickname: &str) -> (d:
        Directive)
        requires
            old(registry).wf(),
        ensures
            (Stage { handshake: final(self)@, slots: final(registry)@, session: final(session)@ })
                == proposal(
                (Stage { handshake: old(self)@, slots: old(registry)@, session: old(session)@ }),
                nickname@,
            ),
            d == final(self)@.pending,
            final(registry).wf(),
    {
        if self.phase == Phase::Admitted || self.phase == Phase::Rejected {
            return self.pending;
        }
        if !(self.phase == Phase::AwaitingNickname && self.pending == Directive::Receive) {
            self.reject(registry, session);
            return self.pending;
        }
        if registry.reserve(nickname) {
            self.phase = Phase::Validating;
            self.pending = Directive::SendOk;
            self.nickname = nickname.to_owned();
        } else {
            self.pending = Directive::SendPrompt;
        }
        self.pending
    }

    /// Takes the report that the admission token was sent. Returns the next
    /// directive.
    fn confirm(&mut self, registry: &mut Registry, session: &mut Session) -> (d: Directive)
        requires
            old(registry).wf(),
        ensures
            (Stage { handshake: final(self)@, slots: final(registry)@, session: final(session)@ })
                == confirmation(
                (Stage { handshake: old(self)@, slots: old(registry)@, session: old(session)@ }),
            ),
            d == final(self)@.pending,
            final(registry).wf(),
    {
        if self.phase == Phase::Admitted || self.phase == Phase::Rejected {
            return self.pending;
        }
        let ready = self.phase == Phase::Validating && self.pending == Directive::SendOk
            && session.is_live() && !session.is_named() && check_if_nickname_exists(
            registry,
            self.nickname.as_str(),
        ) && registry.find(self.nickname.as_str()).is_none() && !registry.is_admitted(session);
        if ready {
            session.assign(self.nickname.clone());
            registry.finalize(self.nickname.as_str(), session);
            self.phase = Phase::Admitted;
            self.pending = Directive::Serve;
        } else {
            self.reject(registry, session);
        }
        self.pending
    }

    /// Advances the handshake by one report of the transport and returns the
    /// next directive.
    pub fn step(&mut self, registry: &mut Registry, session: &mut Session, event: &Event) -> (d:
        Directive)
        requires
            old(registry).wf(),
        ensures
            (Stage { handshake: final(self)@, slots: final(registry)@, session: final(session)@ })
                == stepped(
                (Stage { handshake: old(self)@, slots: old(registry)@, session: old(session)@ }),
                event@,
            ),
            d == final(self)@.pending,
            final(registry).wf(),
    {
        if self.phase == Phase::Admitted || self.phase == Phase::Rejected {
            return self.pending;
        }
        match event {
            Event::Failed => {
                self.reject(registry, session);
                self.pending
            },
            Event::Sent => {
                if self.phase == Phase::AwaitingNickname && self.pending == Directive::SendPrompt {
                    self.pending = Directive::Receive;
                    self.pending
                } else {
                    self.confirm(registry, session)
                }
            },
            Event::Received(frame) => {
                if frame.len() > 0 {
                    let nickname = normalize(frame.as_slice());
                    self.propose(registry, session, nickname.as_str())
                } else {
                    self.reject(registry, session);
                    self.pending
                }
            },
        }
    }
}

} // verus!
