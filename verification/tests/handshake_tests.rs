use chat_relay::handshake::{token, Directive, Event, Handshake, Phase};
use chat_relay::registry::{check_if_nickname_exists, Registry};
use chat_relay::router::{dispatch, Action, Outcome};
use chat_relay::session::Session;

fn received(text: &str) -> Event {
    Event::Received(text.as_bytes().to_vec())
}

/// Runs a handshake in which the client proposes `names` in turn and every
/// send succeeds. Returns the tokens that the client received.
fn negotiate(registry: &mut Registry, session: &mut Session, names: &[&str]) -> Vec<String> {
    let mut handshake = Handshake::new();
    let mut tokens = Vec::new();
    let mut next = 0;
    let mut directive = handshake.pending();
    loop {
        let event = match directive {
            Directive::SendPrompt | Directive::SendOk => {
                tokens.push(token(directive));
                Event::Sent
            }
            Directive::Receive => {
                let name = names[next];
                next += 1;
                received(name)
            }
            Directive::Serve | Directive::Close => break,
        };
        directive = handshake.step(registry, session, &event);
    }
    assert_eq!(handshake.phase(), Phase::Admitted);
    tokens
}

#[test]
fn tokens_are_the_protocol_literals() {
    assert_eq!(token(Directive::SendPrompt), "NICK");
    assert_eq!(token(Directive::SendOk), "OK");
    assert_eq!(token(Directive::Receive), "");
    assert_eq!(token(Directive::Serve), "");
    assert_eq!(token(Directive::Close), "");
}

#[test]
fn handshake_begins_with_the_prompt() {
    let handshake = Handshake::new();
    assert_eq!(handshake.phase(), Phase::AwaitingNickname);
    assert_eq!(handshake.pending(), Directive::SendPrompt);
    assert_eq!(handshake.nickname(), "");
}

#[test]
fn free_nickname_is_admitted() {
    let mut registry = Registry::new();
    let mut session = Session::new(1);
    let mut handshake = Handshake::new();

    assert_eq!(handshake.step(&mut registry, &mut session, &Event::Sent), Directive::Receive);
    assert_eq!(handshake.phase(), Phase::AwaitingNickname);

    assert_eq!(
        handshake.step(&mut registry, &mut session, &received("alice")),
        Directive::SendOk
    );
    assert_eq!(handshake.phase(), Phase::Validating);
    assert_eq!(handshake.nickname(), "alice");
    assert!(check_if_nickname_exists(&registry, "alice"));
    assert_eq!(registry.find("alice"), None);
    assert!(!session.is_named());

    assert_eq!(handshake.step(&mut registry, &mut session, &Event::Sent), Directive::Serve);
    assert_eq!(handshake.phase(), Phase::Admitted);
    assert_eq!(registry.find("alice"), Some(1));
    assert_eq!(session.nickname(), "alice");
    assert!(session.is_live());
}

#[test]
fn taken_nickname_is_asked_for_again() {
    let mut registry = Registry::new();
    let mut first = Session::new(1);
    negotiate(&mut registry, &mut first, &["alice"]);

    let mut session = Session::new(2);
    let mut handshake = Handshake::new();
    handshake.step(&mut registry, &mut session, &Event::Sent);
    assert_eq!(
        handshake.step(&mut registry, &mut session, &received("alice")),
        Directive::SendPrompt
    );
    assert_eq!(handshake.phase(), Phase::AwaitingNickname);
    assert_eq!(handshake.step(&mut registry, &mut session, &Event::Sent), Directive::Receive);
    assert_eq!(
        handshake.step(&mut registry, &mut session, &received("alice")),
        Directive::SendPrompt
    );
    handshake.step(&mut registry, &mut session, &Event::Sent);
    assert_eq!(
        handshake.step(&mut registry, &mut session, &received("bob")),
        Directive::SendOk
    );
    assert_eq!(handshake.step(&mut registry, &mut session, &Event::Sent), Directive::Serve);
    assert_eq!(registry.find("alice"), Some(1));
    assert_eq!(registry.find("bob"), Some(2));
}

#[test]
fn retries_are_not_limited() {
    let mut registry = Registry::new();
    let mut first = Session::new(1);
    negotiate(&mut registry, &mut first, &["taken"]);
    let mut session = Session::new(2);
    let mut names = vec!["taken"; 200];
    names.push("free");
    let tokens = negotiate(&mut registry, &mut session, &names);
    assert_eq!(tokens.len(), 202);
    assert_eq!(tokens.iter().filter(|t| t.as_str() == "NICK").count(), 201);
    assert_eq!(tokens.last().map(|t| t.as_str()), Some("OK"));
    assert_eq!(session.nickname(), "free");
}

#[test]
fn a_reserved_nickname_is_taken_for_others() {
    let mut registry = Registry::new();
    let mut slow = Session::new(1);
    let mut slow_handshake = Handshake::new();
    slow_handshake.step(&mut registry, &mut slow, &Event::Sent);
    assert_eq!(
        slow_handshake.step(&mut registry, &mut slow, &received("alice")),
        Directive::SendOk
    );

    let mut fast = Session::new(2);
    let mut fast_handshake = Handshake::new();
    fast_handshake.step(&mut registry, &mut fast, &Event::Sent);
    assert_eq!(
        fast_handshake.step(&mut registry, &mut fast, &received("alice")),
        Directive::SendPrompt
    );

    assert_eq!(slow_handshake.step(&mut registry, &mut slow, &Event::Sent), Directive::Serve);
    assert_eq!(registry.find("alice"), Some(1));
}

#[test]
fn proposal_is_trimmed_and_freed_of_nul() {
    let mut registry = Registry::new();
    let mut session = Session::new(1);
    let tokens = negotiate(&mut registry, &mut session, &["  alice\0\0 \r\n"]);
    assert_eq!(tokens, vec!["NICK".to_string(), "OK".to_string()]);
    assert_eq!(session.nickname(), "alice");
    assert_eq!(registry.find("alice"), Some(1));

    let mut other = Session::new(2);
    let mut handshake = Handshake::new();
    handshake.step(&mut registry, &mut other, &Event::Sent);
    assert_eq!(
        handshake.step(&mut registry, &mut other, &received("alice\n")),
        Directive::SendPrompt
    );
}

#[test]
fn blank_proposal_is_taken_literally() {
    let mut registry = Registry::new();
    let mut session = Session::new(1);
    let tokens = negotiate(&mut registry, &mut session, &["   "]);
    assert_eq!(tokens, vec!["NICK".to_string(), "OK".to_string()]);
    assert!(session.is_named());
    assert_eq!(session.nickname(), "");
    assert_eq!(registry.find(""), Some(1));
    assert_eq!(registry.enumerate(), vec![String::new()]);
}

#[test]
fn frame_without_bytes_rejects() {
    let mut registry = Registry::new();
    let mut session = Session::new(1);
    let mut handshake = Handshake::new();
    handshake.step(&mut registry, &mut session, &Event::Sent);
    assert_eq!(
        handshake.step(&mut registry, &mut session, &Event::Received(Vec::new())),
        Directive::Close
    );
    assert_eq!(handshake.phase(), Phase::Rejected);
    assert!(!session.is_live());
    assert!(!check_if_nickname_exists(&registry, ""));
    assert_eq!(registry.enumerate(), Vec::<String>::new());
}

#[test]
fn failure_while_prompting_rejects() {
    let mut registry = Registry::new();
    let mut session = Session::new(1);
    let mut handshake = Handshake::new();
    assert_eq!(handshake.step(&mut registry, &mut session, &Event::Failed), Directive::Close);
    assert_eq!(handshake.phase(), Phase::Rejected);
    assert!(!session.is_live());
}

#[test]
fn failure_while_receiving_rejects() {
    let mut registry = Registry::new();
    let mut session = Session::new(1);
    let mut handshake = Handshake::new();
    handshake.step(&mut registry, &mut session, &Event::Sent);
    assert_eq!(handshake.step(&mut registry, &mut session, &Event::Failed), Directive::Close);
    assert_eq!(handshake.phase(), Phase::Rejected);
}

#[test]
fn failure_while_confirming_frees_the_nickname() {
    let mut registry = Registry::new();
    let mut session = Session::new(1);
    let mut handshake = Handshake::new();
    handshake.step(&mut registry, &mut session, &Event::Sent);
    handshake.step(&mut registry, &mut session, &received("alice"));
    assert!(check_if_nickname_exists(&registry, "alice"));
    assert_eq!(handshake.step(&mut registry, &mut session, &Event::Failed), Directive::Close);
    assert_eq!(handshake.phase(), Phase::Rejected);
    assert!(!check_if_nickname_exists(&registry, "alice"));
    assert!(!session.is_live());
    assert!(!session.is_named());

    let mut next = Session::new(2);
    let tokens = negotiate(&mut registry, &mut next, &["alice"]);
    assert_eq!(tokens, vec!["NICK".to_string(), "OK".to_string()]);
}

#[test]
fn report_out_of_turn_rejects() {
    let mut registry = Registry::new();
    let mut session = Session::new(1);
    let mut handshake = Handshake::new();
    assert_eq!(
        handshake.step(&mut registry, &mut session, &received("alice")),
        Directive::Close
    );
    assert_eq!(handshake.phase(), Phase::Rejected);
    assert!(!check_if_nickname_exists(&registry, "alice"));

    let mut session = Session::new(2);
    let mut handshake = Handshake::new();
    handshake.step(&mut registry, &mut session, &Event::Sent);
    assert_eq!(handshake.step(&mut registry, &mut session, &Event::Sent), Directive::Close);
    assert_eq!(handshake.phase(), Phase::Rejected);

    let mut session = Session::new(3);
    let mut handshake = Handshake::new();
    handshake.step(&mut registry, &mut session, &Event::Sent);
    handshake.step(&mut registry, &mut session, &received("carol"));
    assert_eq!(
        handshake.step(&mut registry, &mut session, &received("dave")),
        Directive::Close
    );
    assert!(!check_if_nickname_exists(&registry, "carol"));
    assert!(!check_if_nickname_exists(&registry, "dave"));
}

#[test]
fn settled_handshake_stays_as_it_is() {
    let mut registry = Registry::new();
    let mut session = Session::new(1);
    let mut handshake = Handshake::new();
    handshake.step(&mut registry, &mut session, &Event::Sent);
    handshake.step(&mut registry, &mut session, &received("alice"));
    handshake.step(&mut registry, &mut session, &Event::Sent);
    assert_eq!(handshake.phase(), Phase::Admitted);
    for event in [Event::Sent, received("bob"), Event::Failed, Event::Received(Vec::new())] {
        assert_eq!(handshake.step(&mut registry, &mut session, &event), Directive::Serve);
        assert_eq!(handshake.phase(), Phase::Admitted);
    }
    assert_eq!(registry.find("alice"), Some(1));
    assert!(session.is_live());
    assert!(!check_if_nickname_exists(&registry, "bob"));

    let mut lost = Session::new(2);
    let mut rejected = Handshake::new();
    rejected.step(&mut registry, &mut lost, &Event::Failed);
    for event in [Event::Sent, received("zed"), Event::Failed] {
        assert_eq!(rejected.step(&mut registry, &mut lost, &event), Directive::Close);
        assert_eq!(rejected.phase(), Phase::Rejected);
    }
    assert!(!check_if_nickname_exists(&registry, "zed"));
}

#[test]
fn session_that_cannot_be_admitted_is_rejected() {
    let mut registry = Registry::new();
    let mut first = Session::new(1);
    negotiate(&mut registry, &mut first, &["alice"]);

    let mut twin = Session::new(1);
    let mut handshake = Handshake::new();
    handshake.step(&mut registry, &mut twin, &Event::Sent);
    assert_eq!(
        handshake.step(&mut registry, &mut twin, &received("bob")),
        Directive::SendOk
    );
    assert_eq!(handshake.step(&mut registry, &mut twin, &Event::Sent), Directive::Close);
    assert_eq!(handshake.phase(), Phase::Rejected);
    assert!(!check_if_nickname_exists(&registry, "bob"));
    assert_eq!(registry.find("alice"), Some(1));
    assert_eq!(registry.sessions(), vec![1]);
}

#[test]
fn propose_takes_the_nickname_as_it_stands() {
    let mut registry = Registry::new();
    let mut session = Session::new(1);
    let mut handshake = Handshake::new();
    handshake.step(&mut registry, &mut session, &Event::Sent);
    assert_eq!(handshake.propose(&mut registry, &mut session, " alice "), Directive::SendOk);
    assert_eq!(handshake.nickname(), " alice ");
    assert!(check_if_nickname_exists(&registry, " alice "));
    assert!(!check_if_nickname_exists(&registry, "alice"));
}

#[test]
fn propose_out_of_turn_rejects() {
    let mut registry = Registry::new();
    let mut session = Session::new(1);
    let mut handshake = Handshake::new();
    assert_eq!(handshake.propose(&mut registry, &mut session, "alice"), Directive::Close);
    assert_eq!(handshake.phase(), Phase::Rejected);
    assert!(!check_if_nickname_exists(&registry, "alice"));
}

#[test]
fn two_clients_chat_and_one_leaves() {
    let mut registry = Registry::new();

    let mut client1 = Session::new(1);
    assert_eq!(
        negotiate(&mut registry, &mut client1, &["alice"]),
        vec!["NICK".to_string(), "OK".to_string()]
    );

    let mut client2 = Session::new(2);
    assert_eq!(
        negotiate(&mut registry, &mut client2, &["alice", "bob"]),
        vec!["NICK".to_string(), "NICK".to_string(), "OK".to_string()]
    );

    assert_eq!(
        dispatch(&mut registry, &mut client1, "hello"),
        Outcome {
            actions: vec![Action::Deliver { to: 2, text: "alice: hello".to_string() }],
            finished: false
        }
    );
    assert_eq!(
        dispatch(&mut registry, &mut client2, "/dm alice hi"),
        Outcome {
            actions: vec![Action::Deliver { to: 1, text: "<dm><bob>: hi".to_string() }],
            finished: false
        }
    );
    assert_eq!(
        dispatch(&mut registry, &mut client1, "/exit"),
        Outcome { actions: vec![Action::Reply("EXIT".to_string())], finished: true }
    );
    let listing = dispatch(&mut registry, &mut client2, "/users");
    assert_eq!(
        listing,
        Outcome {
            actions: vec![Action::Reply("Connected users: bob".to_string())],
            finished: false
        }
    );
    assert_eq!(registry.find("alice"), None);
}

#[test]
fn interleaved_handshakes_never_share_a_nickname() {
    let mut registry = Registry::new();
    let mut sessions: Vec<Session> = (1..=6).map(Session::new).collect();
    let mut handshakes: Vec<Handshake> = (1..=6).map(|_| Handshake::new()).collect();
    for (handshake, session) in handshakes.iter_mut().zip(sessions.iter_mut()) {
        handshake.step(&mut registry, session, &Event::Sent);
    }
    let mut winners = 0;
    for (handshake, session) in handshakes.iter_mut().zip(sessions.iter_mut()) {
        if handshake.step(&mut registry, session, &received("same")) == Directive::SendOk {
            winners += 1;
        }
    }
    assert_eq!(winners, 1);
    for (handshake, session) in handshakes.iter_mut().zip(sessions.iter_mut()) {
        handshake.step(&mut registry, session, &Event::Sent);
    }
    assert_eq!(registry.enumerate(), vec!["same".to_string()]);
    assert_eq!(registry.sessions(), vec![1]);
    let admitted = handshakes.iter().filter(|h| h.phase() == Phase::Admitted).count();
    assert_eq!(admitted, 1);
}
