//! The dispatcher: what the server sends, and to whom, for each line that an
//! admitted session delivers.

use crate::command::{parse_command, parsed, Command, CommandView};
use crate::registry::{
    admitted_ids, after_remove, list_users, listing, lookup, Registry, SlotView,
};
use crate::session::{Session, SessionView};
use crate::text::{line_of, normalize};
use crate::transport::TransportError;
use vstd::prelude::*;

verus! {

/// One thing for the server to send, as plain values.
pub enum ActionView {
    /// Text for the connection of the session that sent the line.
    Reply(Seq<char>),
    /// Text for the connection of the session `to`.
    Deliver { to: u64, text: Seq<char> },
}

/// One thing for the server to send.
#[derive(Debug, PartialEq, Eq)]
pub enum Action {
    /// Text for the connection of the session that sent the line.
    Reply(String),
    /// Text for the connection of the session `to`.
    Deliver { to: u64, text: String },
}

impl View for Action {
    type V = ActionView;

    open spec fn view(&self) -> ActionView {
        match self {
            Action::Reply(text) => ActionView::Reply(text@),
            Action::Deliver { to, text } => ActionView::Deliver { to: *to, text: text@ },
        }
    }
}

/// The actions of `actions`, as plain values.
pub open spec fn action_views(actions: Seq<Action>) -> Seq<ActionView> {
    actions.map_values(|a: Action| a@)
}

/// What the server does for one line, as plain values.
pub struct OutcomeView {
    /// What to send, in this order.
    pub actions: Seq<ActionView>,
    /// Whether the session is over and its connection is to be closed.
    pub finished: bool,
}

/// What the server does for one line.
#[derive(Debug, PartialEq, Eq)]
pub struct Outcome {
    /// What to send, in this order.
    pub actions: Vec<Action>,
    /// Whether the session is over and its connection is to be closed.
    pub finished: bool,
}

impl View for Outcome {
    type V = OutcomeView;

    open spec fn view(&self) -> OutcomeView {
        OutcomeView { actions: action_views(self.actions@), finished: self.finished }
    }
}

/// A chat line as the other sessions receive it.
pub open spec fn chat_line(nickname: Seq<char>, text: Seq<char>) -> Seq<char> {
    nickname + ": "@ + text
}

/// A direct message as its target receives it.
pub open spec fn dm_line(nickname: Seq<char>, text: Seq<char>) -> Seq<char> {
    "<dm><"@ + nickname + ">: "@ + text
}

/// The reply to a direct message whose target is not admitted.
pub open spec fn not_found_line(target: Seq<char>) -> Seq<char> {
    "User '"@ + target + "' not found."@
}

/// The reply to a request for the directory.
pub open spec fn users_line(m: Seq<SlotView>) -> Seq<char> {
    "Connected users: "@ + listing(m)
}

/// The reply to a direct message addressed to its own sender.
pub open spec fn self_dm_line() -> Seq<char> {
    "You can't send a direct message to yourself."@
}

/// The reply to a line that begins with `/` and names no command.
pub open spec fn usage_line() -> Seq<char> {
    "Not a valid command, valid commands are: /broadcast, /dm <user> <message>, /users, /exit"@
}

/// The token that acknowledges a session's own exit.
pub open spec fn exit_token() -> Seq<char> {
    "EXIT"@
}

/// The notice that the whole server is shutting down.
pub open spec fn shutdown_notice() -> Seq<char> {
    "SERVER CLOSED"@
}

/// Who receives a broadcast of the session `sender`: every admitted session
/// but the sender, in the order of the slots.
pub open spec fn recipients(m: Seq<SlotView>, sender: u64) -> Seq<u64> {
    others(admitted_ids(m), sender)
}

/// The identities in `ids` other than `sender`, in order.
pub open spec fn others(ids: Seq<u64>, sender: u64) -> Seq<u64> {
    ids.filter(|id: u64| id != sender)
}

/// One delivery of `text` to each of `ids`, in order.
pub open spec fn deliveries(ids: Seq<u64>, text: Seq<char>) -> Seq<ActionView> {
    ids.map_values(|id: u64| ActionView::Deliver { to: id, text })
}

/// Whether the router serves the session: it is live and it is the session
/// admitted under its nickname.
pub open spec fn serves(m: Seq<SlotView>, s: SessionView) -> bool {
    s.live && s.nickname is Some && lookup(m, s.nickname.unwrap()) == Some(s.id)
}

/// What is sent for a command of a session that the router serves.
pub open spec fn actions_for(m: Seq<SlotView>, s: SessionView, c: CommandView) -> Seq<
    ActionView,
> {
    match c {
        CommandView::Say(text) => deliveries(
            recipients(m, s.id),
            chat_line(s.shown_name(), text),
        ),
        CommandView::Dm { target, text } => {
            if target == s.shown_name() {
                seq![ActionView::Reply(self_dm_line())]
            } else {
                match lookup(m, target) {
                    Some(to) => seq![
                        ActionView::Deliver { to, text: dm_line(s.shown_name(), text) },
                    ],
                    None => seq![ActionView::Reply(not_found_line(target))],
                }
            }
        },
        CommandView::Users => seq![ActionView::Reply(users_line(m))],
        CommandView::Exit => seq![ActionView::Reply(exit_token())],
        CommandView::Unknown => seq![ActionView::Reply(usage_line())],
    }
}

/// What the server does for a command of the session `s`. A session that
/// the router does not serve is finished, and nothing is sent for it.
pub open spec fn routed(m: Seq<SlotView>, s: SessionView, c: CommandView) -> OutcomeView {
    if serves(m, s) {
        OutcomeView { actions: actions_for(m, s, c), finished: c is Exit }
    } else {
        OutcomeView { actions: Seq::empty(), finished: true }
    }
}

/// The slots after a command of the session `s`: an exit of a session that
/// the router serves removes its slot, and nothing else changes the slots.
pub open spec fn slots_after(m: Seq<SlotView>, s: SessionView, c: CommandView) -> Seq<SlotView> {
    if serves(m, s) && c is Exit {
        after_remove(m, s.id)
    } else {
        m
    }
}

/// The session after one of its commands: an exit of a session that the
/// router serves closes it, and nothing else changes it.
pub open spec fn session_after(m: Seq<SlotView>, s: SessionView, c: CommandView) -> SessionView {
    if serves(m, s) && c is Exit {
        SessionView { live: false, ..s }
    } else {
        s
    }
}

/// Whether the router serves `session`.
pub fn is_served(registry: &Registry, session: &Session) -> (r: bool)
    ensures
        r == serves(registry@, session@),
{
    if !session.is_live() || !session.is_named() {
        return false;
    }
    let nickname = session.nickname();
    match registry.find(nickname.as_str()) {
        Some(id) => id == session.id(),
        None => false,
    }
}

/// One delivery of `text` to each of `ids`, in order.
fn deliver_to(ids: &Vec<u64>, text: &str) -> (actions: Vec<Action>)
    ensures
        action_views(actions@) == deliveries(ids@, text@),
{
    let mut actions: Vec<Action> = Vec::new();
    let mut i: usize = 0;
    assert(action_views(actions@) =~= deliveries(ids@.take(0), text@));
    while i < ids.len()
        invariant
            i <= ids.len(),
            action_views(actions@) == deliveries(ids@.take(i as int), text@),
        decreases ids.len() - i,
    {
        let ghost before = action_views(actions@);
        actions.push(Action::Deliver { to: ids[i], text: text.to_owned() });
        assert(action_views(actions@) =~= before.push(
            ActionView::Deliver { to: ids[i as int], text: text@ },
        ));
        assert(deliveries(ids@.take(i + 1), text@) =~= before.push(
            ActionView::Deliver { to: ids[i as int], text: text@ },
        ));
        i += 1;
    }
    assert(ids@.take(i as int) =~= ids@);
    actions
}

/// The identities in `ids` other than `sender`, in order.
fn without_sender(ids: &Vec<u64>, sender: u64) -> (kept: Vec<u64>)
    ensures
        kept@ == others(ids@, sender),
{
    let mut kept: Vec<u64> = Vec::new();
    let mut i: usize = 0;
    proof {
        reveal(Seq::filter);
        assert(ids@.take(0) =~= Seq::<u64>::empty());
    }
    while i < ids.len()
        invariant
            i <= ids.len(),
            kept@ == others(ids@.take(i as int), sender),
        decreases ids.len() - i,
    {
        proof {
            reveal(Seq::filter);
            assert(ids@.take(i + 1).drop_last() =~= ids@.take(i as int));
        }
        if ids[i] != sender {
            kept.push(ids[i]);
        }
        i += 1;
    }
    assert(ids@.take(i as int) =~= ids@);
    kept
}

/// `text` for every admitted session but `sender`.
pub fn broadcast_message(registry: &Registry, text: &str, sender: u64) -> (actions: Vec<Action>)
    ensures
        action_views(actions@) == deliveries(recipients(registry@, sender), text@),
{
    let ids = registry.sessions();
    let kept = without_sender(&ids, sender);
    deliver_to(&kept, text)
}

/// The shutdown notice for every admitted session.
pub fn shutdown(registry: &Registry) -> (actions: Vec<Action>)
    ensures
        action_views(actions@) == deliveries(
            admitted_ids(registry@),
            shutdown_notice(),
        ),
{
    let ids = registry.sessions();
    deliver_to(&ids, "SERVER CLOSED")
}

/// A single reply to the sender.
fn reply(text: String) -> (actions: Vec<Action>)
    ensures
        action_views(actions@) == seq![ActionView::Reply(text@)],
{
    let mut actions: Vec<Action> = Vec::new();
    actions.push(Action::Reply(text));
    assert(action_views(actions@) =~= seq![ActionView::Reply(text@)]);
    actions
}

/// Carries out `command` for `session`: works out what is to be sent and,
/// for an exit, removes the session from the registry and closes it.
pub fn route(registry: &mut Registry, session: &mut Session, command: &Command) -> (outcome:
    Outcome)
    requires
        old(registry).wf(),
    ensures
        outcome@ == routed(old(registry)@, old(session)@, command@),
        final(registry)@ == slots_after(old(registry)@, old(session)@, command@),
        final(session)@ == session_after(old(registry)@, old(session)@, command@),
        final(registry).wf(),
{
    if !is_served(registry, session) {
        let actions: Vec<Action> = Vec::new();
        assert(action_views(actions@) =~= Seq::<ActionView>::empty());
        return Outcome { actions, finished: true };
    }
    let nickname = session.nickname();
    match command {
        Command::Say(text) => {
            let mut line = nickname;
            line.append(": ");
            line.append(text.as_str());
            let actions = broadcast_message(registry, line.as_str(), session.id());
            Outcome { actions, finished: false }
        },
        Command::Dm { target, text } => {
            if target.as_str().eq(nickname.as_str()) {
                let actions = reply("You can't send a direct message to yourself.".to_owned());
                Outcome { actions, finished: false }
            } else {
                match registry.find(target.as_str()) {
                    Some(to) => {
                        let mut line = "<dm><".to_owned();
                        line.append(nickname.as_str());
                        line.append(">: ");
                        line.append(text.as_str());
                        let mut actions: Vec<Action> = Vec::new();
                        actions.push(Action::Deliver { to, text: line });
                        assert(action_views(actions@) =~= seq![
                            ActionView::Deliver {
                                to,
                                text: dm_line(old(session)@.shown_name(), text@),
                            },
                        ]);
                        Outcome { actions, finished: false }
                    },
                    None => {
                        let mut line = "User '".to_owned();
                        line.append(target.as_str());
                        line.append("' not found.");
                        let actions = reply(line);
                        Outcome { actions, finished: false }
                    },
                }
            }
        },
        Command::Users => {
            let mut line = "Connected users: ".to_owned();
            let users = list_users(registry);
            line.append(users.as_str());
            let actions = reply(line);
            Outcome { actions, finished: false }
        },
        Command::Exit => {
            let actions = reply("EXIT".to_owned());
            registry.remove(session);
            session.close();
            Outcome { actions, finished: true }
        },
        Command::Unknown => {
            let actions = reply(
                "Not a valid command, valid commands are: /broadcast, /dm <user> <message>, /users, /exit".to_owned(),
            );
            Outcome { actions, finished: false }
        },
    }
}

/// Reads `line` as a command of `session` and carries it out.
pub fn dispatch(registry: &mut Registry, session: &mut Session, line: &str) -> (outcome: Outcome)
    requires
        old(registry).wf(),
    ensures
        outcome@ == routed(old(registry)@, old(session)@, parsed(line@)),
        final(registry)@ == slots_after(old(registry)@, old(session)@, parsed(line@)),
        final(session)@ == session_after(old(registry)@, old(session)@, parsed(line@)),
        final(registry).wf(),
{
    let command = parse_command(line);
    route(registry, session, &command)
}

/// Takes `session` out of service: the slot that it holds is removed and the
/// session is closed.
pub fn disconnect(registry: &mut Registry, session: &mut Session)
    requires
        old(registry).wf(),
    ensures
        final(registry)@ == after_remove(old(registry)@, old(session)@.id),
        final(session)@ == (SessionView { live: false, ..old(session)@ }),
        final(registry).wf(),
{
    registry.remove(session);
    session.close();
}

/// Whether a receive yielded a line: it succeeded with at least one byte.
pub open spec fn carries_line(received: Result<Vec<u8>, TransportError>) -> bool {
    received is Ok && received->Ok_0@.len() > 0
}

/// One turn of a session's receive loop, given what its connection
/// delivered. A frame with bytes is decoded and dispatched as a line. A
/// failed receive, or one of no bytes, ends the session: it is taken out of
/// service and nothing is sent.
pub fn receive(
    registry: &mut Registry,
    session: &mut Session,
    received: &Result<Vec<u8>, TransportError>,
) -> (outcome: Outcome)
    requires
        old(registry).wf(),
    ensures
        carries_line(*received) ==> {
            let command = parsed(line_of(received->Ok_0@));
            &&& outcome@ == routed(old(registry)@, old(session)@, command)
            &&& final(registry)@ == slots_after(old(registry)@, old(session)@, command)
            &&& final(session)@ == session_after(old(registry)@, old(session)@, command)
        },
        !carries_line(*received) ==> {
            &&& outcome@ == (OutcomeView { actions: Seq::empty(), finished: true })
            &&& final(registry)@ == after_remove(old(registry)@, old(session)@.id)
            &&& final(session)@ == (SessionView { live: false, ..old(session)@ })
        },
        final(registry).wf(),
{
    match received {
        Ok(frame) => {
            if frame.len() > 0 {
                let line = normalize(frame.as_slice());
                return dispatch(registry, session, line.as_str());
            }
        },
        Err(_) => {},
    }
    disconnect(registry, session);
    let actions: Vec<Action> = Vec::new();
    assert(action_views(actions@) =~= Seq::<ActionView>::empty());
    Outcome { actions, finished: true }
}

} // verus!
