//! One chat participant: its identity, its nickname once negotiated, and
//! whether its connection is still open.

use vstd::prelude::*;

verus! {

/// What a session is, as plain values.
pub struct SessionView {
    /// The identity, compared by value.
    pub id: u64,
    /// The nickname, once one has been assigned.
    pub nickname: Option<Seq<char>>,
    /// Whether the session's connection is still open.
    pub live: bool,
}

/// The server's record of one accepted connection.
#[derive(Debug)]
pub struct Session {
    id: u64,
    nickname: Option<String>,
    live: bool,
}

impl View for Session {
    type V = SessionView;

    closed spec fn view(&self) -> SessionView {
        SessionView {
            id: self.id,
            nickname: match self.nickname {
                Some(n) => Some(n@),
                None => None,
            },
            live: self.live,
        }
    }
}

impl Session {
    /// A session for a connection that was just accepted: live, and without a
    /// nickname.
    pub fn new(id: u64) -> (s: Session)
        ensures
            s@ == (SessionView { id, nickname: None, live: true }),
    {
        Session { id, nickname: None, live: true }
    }

    /// The session's identity.
    pub fn id(&self) -> (id: u64)
        ensures
            id == self@.id,
    {
        self.id
    }

    /// Whether the connection is still open.
    pub fn is_live(&self) -> (live: bool)
        ensures
            live == self@.live,
    {
        self.live
    }

    /// Whether a nickname has been assigned.
    pub fn is_named(&self) -> (named: bool)
        ensures
            named == self@.nickname is Some,
    {
        self.nickname.is_some()
    }

    /// The nickname, or the empty string while none is assigned.
    pub fn nickname(&self) -> (n: String)
        ensures
            n@ == self@.shown_name(),
    {
        match &self.nickname {
            Some(n) => n.clone(),
            None => String::new(),
        }
    }

    /// Gives the session its nickname. A nickname is assigned once, to a live
    /// session: a later call, or one on a closed session, changes nothing and
    /// returns `false`.
    pub fn assign(&mut self, nickname: String) -> (assigned: bool)
        ensures
            assigned == (old(self)@.live && old(self)@.nickname is None),
            assigned ==> final(self)@ == (SessionView {
                nickname: Some(nickname@),
                ..old(self)@
            }),
            !assigned ==> final(self)@ == old(self)@,
    {
        if self.live && self.nickname.is_none() {
            self.nickname = Some(nickname);
            true
        } else {
            false
        }
    }

    /// Marks the session as closed. Its identity and nickname stay.
    pub fn close(&mut self)
        ensures
            final(self)@ == (SessionView { live: false, ..old(self)@ }),
    {
        self.live = false;
    }
}

/// Sessions are compared by identity: two values are equal when they stand
/// for the same connection, whatever their nicknames.
impl PartialEq for Session {
    fn eq(&self, other: &Session) -> (r: bool) {
        self.id == other.id
    }
}

impl vstd::std_specs::cmp::PartialEqSpecImpl for Session {
    open spec fn obeys_eq_spec() -> bool {
        true
    }

    open spec fn eq_spec(&self, other: &Session) -> bool {
        self@.id == other@.id
    }
}

impl SessionView {
    /// The nickname as it is written into messages: empty while none is
    /// assigned.
    pub open spec fn shown_name(self) -> Seq<char> {
        match self.nickname {
            Some(n) => n,
            None => Seq::empty(),
        }
    }

    /// Whether the session carries `nickname` and is still open.
    pub open spec fn answers_to(self, nickname: Seq<char>) -> bool {
        self.live && self.nickname == Some(nickname)
    }
}

} // verus!
