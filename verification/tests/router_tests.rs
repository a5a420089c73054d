use chat_relay::command::Command;
use chat_relay::registry::Registry;
use chat_relay::router::{
    broadcast_message, disconnect, dispatch, is_served, receive, route, shutdown, Action, Outcome,
};
use chat_relay::session::Session;
use chat_relay::transport::TransportError;

const USAGE: &str =
    "Not a valid command, valid commands are: /broadcast, /dm <user> <message>, /users, /exit";

fn join_as(registry: &mut Registry, id: u64, nickname: &str) -> Session {
    let mut session = Session::new(id);
    assert!(registry.reserve(nickname));
    assert!(session.assign(nickname.to_string()));
    assert!(registry.finalize(nickname, &session));
    session
}

fn deliver(to: u64, text: &str) -> Action {
    Action::Deliver { to, text: text.to_string() }
}

fn reply(text: &str) -> Action {
    Action::Reply(text.to_string())
}

fn sends(actions: Vec<Action>) -> Outcome {
    Outcome { actions, finished: false }
}

#[test]
fn plain_text_goes_to_every_other_session() {
    let mut registry = Registry::new();
    let mut alice = join_as(&mut registry, 1, "alice");
    join_as(&mut registry, 2, "bob");
    join_as(&mut registry, 3, "carol");
    let outcome = dispatch(&mut registry, &mut alice, "hello");
    assert_eq!(
        outcome,
        sends(vec![deliver(2, "alice: hello"), deliver(3, "alice: hello")])
    );
}

#[test]
fn broadcast_never_returns_to_its_sender() {
    let mut registry = Registry::new();
    join_as(&mut registry, 1, "alice");
    let mut bob = join_as(&mut registry, 2, "bob");
    join_as(&mut registry, 3, "carol");
    let outcome = dispatch(&mut registry, &mut bob, "/broadcast hi all");
    assert_eq!(
        outcome,
        sends(vec![deliver(1, "bob: hi all"), deliver(3, "bob: hi all")])
    );
    for action in outcome.actions.iter() {
        assert_ne!(*action, deliver(2, "bob: hi all"));
        assert!(matches!(action, Action::Deliver { to, .. } if *to != 2));
    }
}

#[test]
fn broadcast_of_a_lone_session_reaches_nobody() {
    let mut registry = Registry::new();
    let mut alice = join_as(&mut registry, 1, "alice");
    assert_eq!(dispatch(&mut registry, &mut alice, "anyone?"), sends(vec![]));
}

#[test]
fn broadcast_skips_reservations() {
    let mut registry = Registry::new();
    let mut alice = join_as(&mut registry, 1, "alice");
    assert!(registry.reserve("ghost"));
    join_as(&mut registry, 2, "bob");
    assert_eq!(
        dispatch(&mut registry, &mut alice, "hi"),
        sends(vec![deliver(2, "alice: hi")])
    );
}

#[test]
fn explicit_broadcast_equals_plain_text() {
    let mut registry = Registry::new();
    let mut alice = join_as(&mut registry, 1, "alice");
    join_as(&mut registry, 2, "bob");
    let plain = dispatch(&mut registry, &mut alice, "same words");
    let explicit = dispatch(&mut registry, &mut alice, "/broadcast same words");
    assert_eq!(plain, explicit);
}

#[test]
fn empty_line_is_broadcast_as_empty_text() {
    let mut registry = Registry::new();
    let mut alice = join_as(&mut registry, 1, "alice");
    join_as(&mut registry, 2, "bob");
    assert_eq!(dispatch(&mut registry, &mut alice, ""), sends(vec![deliver(2, "alice: ")]));
}

#[test]
fn dm_goes_to_its_target_only() {
    let mut registry = Registry::new();
    let mut alice = join_as(&mut registry, 1, "A");
    join_as(&mut registry, 2, "B");
    join_as(&mut registry, 3, "C");
    assert_eq!(
        dispatch(&mut registry, &mut alice, "/dm B hello"),
        sends(vec![deliver(2, "<dm><A>: hello")])
    );
}

#[test]
fn dm_to_oneself_is_refused_locally() {
    let mut registry = Registry::new();
    let mut alice = join_as(&mut registry, 1, "A");
    join_as(&mut registry, 2, "B");
    assert_eq!(
        dispatch(&mut registry, &mut alice, "/dm A hello"),
        sends(vec![reply("You can't send a direct message to yourself.")])
    );
}

#[test]
fn dm_to_an_unknown_user_is_answered_locally() {
    let mut registry = Registry::new();
    let mut alice = join_as(&mut registry, 1, "alice");
    assert_eq!(
        dispatch(&mut registry, &mut alice, "/dm zed are you there"),
        sends(vec![reply("User 'zed' not found.")])
    );
    assert!(registry.reserve("zed"));
    assert_eq!(
        dispatch(&mut registry, &mut alice, "/dm zed are you there"),
        sends(vec![reply("User 'zed' not found.")])
    );
    assert_eq!(
        dispatch(&mut registry, &mut alice, "/dm"),
        sends(vec![reply("User '' not found.")])
    );
}

#[test]
fn dm_target_ends_at_the_first_space() {
    let mut registry = Registry::new();
    let mut alice = join_as(&mut registry, 1, "alice");
    join_as(&mut registry, 2, "a b");
    assert_eq!(
        dispatch(&mut registry, &mut alice, "/dm a b hello"),
        sends(vec![reply("User 'a' not found.")])
    );
    join_as(&mut registry, 3, "a");
    assert_eq!(
        dispatch(&mut registry, &mut alice, "/dm a b hello"),
        sends(vec![deliver(3, "<dm><alice>: b hello")])
    );
}

#[test]
fn dm_reaches_the_session_with_the_empty_nickname() {
    let mut registry = Registry::new();
    let mut alice = join_as(&mut registry, 1, "alice");
    join_as(&mut registry, 2, "");
    assert_eq!(
        dispatch(&mut registry, &mut alice, "/dm  hello"),
        sends(vec![deliver(2, "<dm><alice>: hello")])
    );
    assert_eq!(
        dispatch(&mut registry, &mut alice, "/users"),
        sends(vec![reply("Connected users: alice, ")])
    );
}

#[test]
fn dm_keeps_the_spaces_of_its_text() {
    let mut registry = Registry::new();
    let mut alice = join_as(&mut registry, 1, "alice");
    join_as(&mut registry, 2, "bob");
    assert_eq!(
        dispatch(&mut registry, &mut alice, "/dm bob a  b   c"),
        sends(vec![deliver(2, "<dm><alice>: a  b   c")])
    );
    assert_eq!(
        dispatch(&mut registry, &mut alice, "/dm bob"),
        sends(vec![deliver(2, "<dm><alice>: ")])
    );
}

#[test]
fn users_lists_every_admitted_nickname_once() {
    let mut registry = Registry::new();
    let mut alice = join_as(&mut registry, 1, "alice");
    let mut bob = join_as(&mut registry, 2, "bob");
    let expected = sends(vec![reply("Connected users: alice, bob")]);
    assert_eq!(dispatch(&mut registry, &mut alice, "/users"), expected);
    assert_eq!(dispatch(&mut registry, &mut bob, "/users"), expected);
    let listing = match &expected.actions[0] {
        Action::Reply(text) => text.clone(),
        _ => unreachable!(),
    };
    assert_eq!(listing.matches("alice").count(), 1);
    assert_eq!(listing.matches("bob").count(), 1);
}

#[test]
fn users_of_a_lone_session_lists_it() {
    let mut registry = Registry::new();
    let mut alice = join_as(&mut registry, 1, "alice");
    assert_eq!(
        dispatch(&mut registry, &mut alice, "/users"),
        sends(vec![reply("Connected users: alice")])
    );
}

#[test]
fn exit_acknowledges_removes_and_finishes() {
    let mut registry = Registry::new();
    let mut alice = join_as(&mut registry, 1, "A");
    let mut bob = join_as(&mut registry, 2, "B");
    let outcome = dispatch(&mut registry, &mut alice, "/exit");
    assert_eq!(outcome, Outcome { actions: vec![reply("EXIT")], finished: true });
    assert_eq!(registry.find("A"), None);
    assert!(!alice.is_live());
    assert!(!registry.is_admitted(&alice));
    assert_eq!(dispatch(&mut registry, &mut bob, "/broadcast hi"), sends(vec![]));
    assert_eq!(
        dispatch(&mut registry, &mut bob, "/users"),
        sends(vec![reply("Connected users: B")])
    );
    assert_eq!(
        dispatch(&mut registry, &mut bob, "/dm A hi"),
        sends(vec![reply("User 'A' not found.")])
    );
}

#[test]
fn exit_leaves_the_other_sessions_admitted() {
    let mut registry = Registry::new();
    join_as(&mut registry, 1, "alice");
    let mut bob = join_as(&mut registry, 2, "bob");
    let mut carol = join_as(&mut registry, 3, "carol");
    dispatch(&mut registry, &mut bob, "/exit");
    assert_eq!(registry.find("alice"), Some(1));
    assert_eq!(registry.find("carol"), Some(3));
    assert_eq!(
        dispatch(&mut registry, &mut carol, "still here"),
        sends(vec![deliver(1, "carol: still here")])
    );
}

#[test]
fn unknown_command_gets_the_usage_text() {
    let mut registry = Registry::new();
    let mut alice = join_as(&mut registry, 1, "alice");
    join_as(&mut registry, 2, "bob");
    assert_eq!(dispatch(&mut registry, &mut alice, "/help"), sends(vec![reply(USAGE)]));
    assert_eq!(dispatch(&mut registry, &mut alice, "/"), sends(vec![reply(USAGE)]));
    assert!(alice.is_live());
    assert_eq!(registry.find("alice"), Some(1));
}

#[test]
fn session_that_is_not_served_is_finished_without_a_word() {
    let mut registry = Registry::new();
    join_as(&mut registry, 1, "alice");
    let silent = Outcome { actions: vec![], finished: true };

    let mut unnamed = Session::new(5);
    assert!(!is_served(&registry, &unnamed));
    assert_eq!(dispatch(&mut registry, &mut unnamed, "hello"), silent);

    let mut impostor = Session::new(6);
    assert!(impostor.assign("alice".to_string()));
    assert!(!is_served(&registry, &impostor));
    assert_eq!(dispatch(&mut registry, &mut impostor, "/exit"), silent);
    assert_eq!(registry.find("alice"), Some(1));
    assert!(impostor.is_live());

    let mut gone = join_as(&mut registry, 7, "gone");
    dispatch(&mut registry, &mut gone, "/exit");
    assert_eq!(dispatch(&mut registry, &mut gone, "hello again"), silent);
}

#[test]
fn is_served_tells_admitted_live_sessions() {
    let mut registry = Registry::new();
    let mut alice = join_as(&mut registry, 1, "alice");
    assert!(is_served(&registry, &alice));
    alice.close();
    assert!(!is_served(&registry, &alice));
}

#[test]
fn route_carries_out_a_parsed_command() {
    let mut registry = Registry::new();
    let mut alice = join_as(&mut registry, 1, "alice");
    join_as(&mut registry, 2, "bob");
    let command = Command::Dm { target: "bob".to_string(), text: "psst".to_string() };
    assert_eq!(
        route(&mut registry, &mut alice, &command),
        sends(vec![deliver(2, "<dm><alice>: psst")])
    );
    assert_eq!(
        route(&mut registry, &mut alice, &Command::Say("x".to_string())),
        sends(vec![deliver(2, "alice: x")])
    );
    assert_eq!(
        route(&mut registry, &mut alice, &Command::Unknown),
        sends(vec![reply(USAGE)])
    );
}

#[test]
fn broadcast_message_excludes_the_sender_by_identity() {
    let mut registry = Registry::new();
    join_as(&mut registry, 1, "alice");
    join_as(&mut registry, 2, "bob");
    join_as(&mut registry, 3, "carol");
    assert_eq!(
        broadcast_message(&registry, "news", 2),
        vec![deliver(1, "news"), deliver(3, "news")]
    );
    assert_eq!(
        broadcast_message(&registry, "news", 99),
        vec![deliver(1, "news"), deliver(2, "news"), deliver(3, "news")]
    );
}

#[test]
fn shutdown_notifies_every_admitted_session() {
    let mut registry = Registry::new();
    assert_eq!(shutdown(&registry), vec![]);
    join_as(&mut registry, 1, "alice");
    assert!(registry.reserve("pending"));
    join_as(&mut registry, 2, "bob");
    assert_eq!(
        shutdown(&registry),
        vec![deliver(1, "SERVER CLOSED"), deliver(2, "SERVER CLOSED")]
    );
}

#[test]
fn receive_dispatches_a_frame() {
    let mut registry = Registry::new();
    let mut alice = join_as(&mut registry, 1, "alice");
    join_as(&mut registry, 2, "bob");
    let frame = Ok(b"  /dm bob hi \r\n\0\0".to_vec());
    assert_eq!(
        receive(&mut registry, &mut alice, &frame),
        sends(vec![deliver(2, "<dm><alice>: hi \r\n")])
    );
    let chat = Ok(b"hello\n".to_vec());
    assert_eq!(
        receive(&mut registry, &mut alice, &chat),
        sends(vec![deliver(2, "alice: hello")])
    );
}

#[test]
fn receive_of_a_blank_frame_broadcasts_empty_text() {
    let mut registry = Registry::new();
    let mut alice = join_as(&mut registry, 1, "alice");
    join_as(&mut registry, 2, "bob");
    let frame = Ok(b" \n".to_vec());
    assert_eq!(
        receive(&mut registry, &mut alice, &frame),
        sends(vec![deliver(2, "alice: ")])
    );
}

#[test]
fn receive_of_a_closed_connection_ends_the_session() {
    let mut registry = Registry::new();
    let mut alice = join_as(&mut registry, 1, "alice");
    let mut bob = join_as(&mut registry, 2, "bob");
    let closed = Err(TransportError::ConnectionClosed);
    assert_eq!(
        receive(&mut registry, &mut alice, &closed),
        Outcome { actions: vec![], finished: true }
    );
    assert_eq!(registry.find("alice"), None);
    assert!(!alice.is_live());
    assert_eq!(dispatch(&mut registry, &mut bob, "hi"), sends(vec![]));
}

#[test]
fn receive_of_a_failure_ends_the_session() {
    let mut registry = Registry::new();
    let mut alice = join_as(&mut registry, 1, "alice");
    let failed = Err(TransportError::Io("reset by peer".to_string()));
    assert_eq!(
        receive(&mut registry, &mut alice, &failed),
        Outcome { actions: vec![], finished: true }
    );
    assert_eq!(registry.find("alice"), None);
    assert!(!alice.is_live());
}

#[test]
fn receive_of_no_bytes_is_a_closure_not_a_message() {
    let mut registry = Registry::new();
    let mut alice = join_as(&mut registry, 1, "alice");
    join_as(&mut registry, 2, "bob");
    let nothing = Ok(Vec::new());
    assert_eq!(
        receive(&mut registry, &mut alice, &nothing),
        Outcome { actions: vec![], finished: true }
    );
    assert_eq!(registry.find("alice"), None);
    assert_eq!(registry.find("bob"), Some(2));
}

#[test]
fn disconnect_removes_and_closes() {
    let mut registry = Registry::new();
    let mut alice = join_as(&mut registry, 1, "alice");
    disconnect(&mut registry, &mut alice);
    assert!(!alice.is_live());
    assert_eq!(registry.find("alice"), None);
    disconnect(&mut registry, &mut alice);
    assert_eq!(registry.enumerate(), Vec::<String>::new());
}
