//! The client's side of the protocol: what a terminal client makes of the
//! server's frames, and what it sends for the user's input.

use crate::text::{clean, cleaned, decode, decoded, trim, trimmed};
use rand::Rng;
use vstd::prelude::*;

verus! {

/// The character that shows the digit `d`.
pub open spec fn digit(d: nat) -> char {
    ('0' as u8 + d) as char
}

/// `n` written in decimal, without leading zeros.
pub open spec fn decimal(n: nat) -> Seq<char>
    decreases n,
{
    if n < 10 {
        seq![digit(n)]
    } else {
        decimal(n / 10).push(digit(n % 10))
    }
}

/// The nickname of a user who typed none, made from a number.
pub open spec fn anonymous(number: nat) -> Seq<char> {
    "Anonymous"@ + decimal(number)
}

/// The least number that an anonymous nickname is made from.
pub const ANONYMOUS_LOW: u32 = 100000;

/// The bound below which the numbers of anonymous nicknames stay.
pub const ANONYMOUS_HIGH: u32 = 999999;

/// `rand::rngs::ThreadRng`, the handle to the random number generator of a
/// thread. Nothing is known of what it holds.
#[verifier::external_type_specification]
#[verifier::external_body]
pub struct ExThreadRng(rand::rngs::ThreadRng);

/// `rand::thread_rng`: the handle to the generator of the calling thread.
/// Nothing is claimed of it. The call panics where the system cannot seed
/// the generator.
pub assume_specification[ rand::thread_rng ]() -> (rng: rand::rngs::ThreadRng)
;

/// `rand::Rng::gen_range` on a thread's generator: a number from `low` up
/// to, but not including, `high`. Which one is left open.
#[verifier::external_body]
fn random_between(rng: &mut rand::rngs::ThreadRng, low: u32, high: u32) -> (n: u32)
    requires
        low < high,
    ensures
        low <= n < high,
{
    rng.gen_range(low, high)
}

/// `n` written in decimal.
pub fn decimal_string(n: u32) -> (s: String)
    ensures
        s@ == decimal(n as nat),
{
    let mut low: Vec<char> = Vec::new();
    let mut rest: u32 = n;
    assert(decimal(n as nat) =~= decimal(rest as nat) + low@.reverse());
    while rest >= 10
        invariant
            decimal(n as nat) == decimal(rest as nat) + low@.reverse(),
        decreases rest,
    {
        let d: u8 = (rest % 10) as u8;
        let ghost before = low@;
        low.push((48u8 + d) as char);
        proof {
            assert(low@.reverse() =~= seq![digit(d as nat)] + before.reverse());
            assert(decimal(rest as nat) + before.reverse() =~= decimal((rest / 10) as nat)
                + low@.reverse());
        }
        rest = rest / 10;
    }
    let mut s = String::new();
    s.push((48u8 + rest as u8) as char);
    let mut i: usize = low.len();
    assert(s@ =~= decimal(rest as nat) + low@.reverse().take(0));
    while i > 0
        invariant
            i <= low.len(),
            s@ == decimal(rest as nat) + low@.reverse().take(low.len() - i),
        decreases i,
    {
        i -= 1;
        s.push(low[i]);
        assert(low@.reverse().take(low.len() - i) =~= low@.reverse().take(low.len() - i - 1).push(
            low@[i as int],
        ));
    }
    assert(low@.reverse().take(low.len() as int) =~= low@.reverse());
    s
}

/// The nickname of a user who typed none, made from `number`.
pub fn anonymous_nickname(number: u32) -> (name: String)
    ensures
        name@ == anonymous(number as nat),
{
    let mut name = "Anonymous".to_owned();
    let digits = decimal_string(number);
    name.append(digits.as_str());
    name
}

/// A number for an anonymous nickname, in decimal. It is drawn at random
/// from `ANONYMOUS_LOW` up to, but not including, `ANONYMOUS_HIGH`.
pub fn random_number() -> (digits: String)
    ensures
        exists|n: nat| ANONYMOUS_LOW <= n < ANONYMOUS_HIGH && digits@ == decimal(n),
{
    let mut rng = rand::thread_rng();
    let n = random_between(&mut rng, ANONYMOUS_LOW, ANONYMOUS_HIGH);
    let digits = decimal_string(n);
    assert(ANONYMOUS_LOW <= (n as nat) < ANONYMOUS_HIGH && digits@ == decimal(n as nat));
    digits
}

/// What a server frame means to a client that is joining.
#[derive(Debug, Clone, Copy, PartialEq, Eq, Structural)]
pub enum Reply {
    /// The server asks for a nickname.
    Prompt,
    /// The server has admitted the client.
    Accepted,
    /// The frame holds nothing but whitespace.
    Blank,
    /// Anything else.
    Other,
}

/// What a client that is joining does next.
#[derive(Debug, Clone, Copy, PartialEq, Eq, Structural)]
pub enum JoinAction {
    /// Ask the user for a nickname; `retry` tells that an earlier one was
    /// refused.
    Ask { retry: bool },
    /// The client is connected under its nickname; chatting begins.
    Connected,
    /// Send the exit line; joining is over.
    Leave,
    /// Read the next frame.
    Wait,
    /// The server has closed the connection; joining is over.
    Stop,
}

/// How a client that is joining reads the text of a frame.
pub open spec fn reply_of(text: Seq<char>) -> Reply {
    if trimmed(text) == "NICK"@ {
        Reply::Prompt
    } else if trimmed(text) == "OK"@ {
        Reply::Accepted
    } else if trimmed(text).len() == 0 {
        Reply::Blank
    } else {
        Reply::Other
    }
}

/// How a client that is joining reads the text of a frame.
pub fn classify_reply(text: &str) -> (r: Reply)
    ensures
        r == reply_of(text@),
{
    let t = trim(text);
    if t.as_str().eq("NICK") {
        Reply::Prompt
    } else if t.as_str().eq("OK") {
        Reply::Accepted
    } else if t.as_str().is_empty() {
        Reply::Blank
    } else {
        Reply::Other
    }
}

/// A client's progress in joining, as plain values.
pub struct JoinView {
    /// Whether the user was asked for a nickname before.
    pub tried: bool,
    /// The nickname that was sent last; empty before the first.
    pub nickname: Seq<char>,
}

/// A client's progress in joining.
#[derive(Debug)]
pub struct Join {
    tried: bool,
    nickname: String,
}

impl View for Join {
    type V = JoinView;

    closed spec fn view(&self) -> JoinView {
        JoinView { tried: self.tried, nickname: self.nickname@ }
    }
}

/// What a client that is joining does for a reply of the server.
pub open spec fn action_for(j: JoinView, r: Reply) -> JoinAction {
    match r {
        Reply::Prompt => JoinAction::Ask { retry: j.tried },
        Reply::Accepted => JoinAction::Connected,
        Reply::Blank => JoinAction::Leave,
        Reply::Other => JoinAction::Wait,
    }
}

/// The text that asks the user for a nickname.
pub open spec fn prompt_of(retry: bool) -> Seq<char> {
    if retry {
        "Nickname already taken, choose another: "@
    } else {
        "Choose a nickname: "@
    }
}

/// The text that asks the user for a nickname.
pub fn prompt(retry: bool) -> (p: String)
    ensures
        p@ == prompt_of(retry),
{
    if retry {
        "Nickname already taken, choose another: ".to_owned()
    } else {
        "Choose a nickname: ".to_owned()
    }
}

/// The line by which a client that cannot join takes its leave.
pub fn exit_line() -> (l: String)
    ensures
        l@ == "/exit\n"@,
{
    "/exit\n".to_owned()
}

/// What the client sends for a line that the user typed: the line without
/// surrounding whitespace.
pub fn outgoing(typed: &str) -> (l: String)
    ensures
        l@ == trimmed(typed@),
{
    trim(typed)
}

impl Join {
    /// The progress of a client that has just connected.
    pub fn new() -> (j: Join)
        ensures
            j@ == (JoinView { tried: false, nickname: Seq::empty() }),
    {
        Join { tried: false, nickname: String::new() }
    }

    /// The nickname that was sent last; empty before the first.
    pub fn nickname(&self) -> (n: String)
        ensures
            n@ == self@.nickname,
    {
        self.nickname.clone()
    }

    /// Takes the text of a server frame and returns what to do next. Once
    /// the server has asked for a nickname, the next request counts as a
    /// retry.
    pub fn on_reply(&mut self, text: &str) -> (a: JoinAction)
        ensures
            a == action_for(old(self)@, reply_of(text@)),
            final(self)@ == (JoinView {
                tried: old(self)@.tried || reply_of(text@) == Reply::Prompt,
                ..old(self)@
            }),
    {
        match classify_reply(text) {
            Reply::Prompt => {
                let retry = self.tried;
                self.tried = true;
                JoinAction::Ask { retry }
            },
            Reply::Accepted => JoinAction::Connected,
            Reply::Blank => JoinAction::Leave,
            Reply::Other => JoinAction::Wait,
        }
    }

    /// Takes a server frame and returns what to do next. A frame without
    /// bytes means that the server has closed the connection; any other is
    /// decoded and read as text.
    pub fn on_frame(&mut self, frame: &[u8]) -> (a: JoinAction)
        ensures
            frame@.len() == 0 ==> a == JoinAction::Stop && final(self)@ == old(self)@,
            frame@.len() > 0 ==> a == action_for(old(self)@, reply_of(decoded(frame@)))
                && final(self)@ == (JoinView {
                tried: old(self)@.tried || reply_of(decoded(frame@)) == Reply::Prompt,
                ..old(self)@
            }),
    {
        if frame.len() == 0 {
            JoinAction::Stop
        } else {
            let text = decode(frame);
            self.on_reply(text.as_str())
        }
    }

    /// Takes what the user typed as a nickname and returns the nickname to
    /// send, which is remembered. It is the input without surrounding
    /// whitespace; where that is empty, it is an anonymous nickname.
    pub fn answer(&mut self, typed: &str) -> (n: String)
        ensures
            n@ == final(self)@.nickname,
            final(self)@.tried == old(self)@.tried,
            trimmed(typed@).len() > 0 ==> n@ == trimmed(typed@),
            trimmed(typed@).len() == 0 ==> exists|k: nat|
                ANONYMOUS_LOW <= k < ANONYMOUS_HIGH && n@ == anonymous(k),
    {
        let t = trim(typed);
        if t.as_str().is_empty() {
            let mut rng = rand::thread_rng();
            let k = random_between(&mut rng, ANONYMOUS_LOW, ANONYMOUS_HIGH);
            self.nickname = anonymous_nickname(k);
            assert(ANONYMOUS_LOW <= (k as nat) < ANONYMOUS_HIGH && self.nickname@ == anonymous(
                k as nat,
            ));
        } else {
            self.nickname = t;
        }
        self.nickname.clone()
    }
}

/// What a server frame means to a client that is chatting, as plain values.
pub enum IncomingView {
    /// The server acknowledges the client's exit.
    Exit,
    /// The server is shutting down.
    ServerClosed,
    /// Text to show to the user.
    Show(Seq<char>),
}

/// What a server frame means to a client that is chatting.
#[derive(Debug, PartialEq, Eq)]
pub enum Incoming {
    /// The server acknowledges the client's exit.
    Exit,
    /// The server is shutting down.
    ServerClosed,
    /// Text to show to the user.
    Show(String),
}

impl View for Incoming {
    type V = IncomingView;

    open spec fn view(&self) -> IncomingView {
        match self {
            Incoming::Exit => IncomingView::Exit,
            Incoming::ServerClosed => IncomingView::ServerClosed,
            Incoming::Show(text) => IncomingView::Show(text@),
        }
    }
}

/// How a client that is chatting reads the text of a frame: the text is
/// cleaned, and what is left is a control token or text to show.
pub open spec fn incoming_of(text: Seq<char>) -> IncomingView {
    if trimmed(cleaned(text)) == "EXIT"@ {
        IncomingView::Exit
    } else if trimmed(cleaned(text)) == "SERVER CLOSED"@ {
        IncomingView::ServerClosed
    } else {
        IncomingView::Show(cleaned(text))
    }
}

/// How a client that is chatting reads the text of a frame.
pub fn classify_incoming(text: &str) -> (i: Incoming)
    ensures
        i@ == incoming_of(text@),
{
    let shown = clean(text);
    let t = trim(shown.as_str());
    if t.as_str().eq("EXIT") {
        Incoming::Exit
    } else if t.as_str().eq("SERVER CLOSED") {
        Incoming::ServerClosed
    } else {
        Incoming::Show(shown)
    }
}

/// How a client that is chatting reads a frame: `None` for a frame without
/// bytes, which means that the server has closed the connection.
pub fn incoming(frame: &[u8]) -> (i: Option<Incoming>)
    ensures
        frame@.len() == 0 ==> i is None,
        frame@.len() > 0 ==> i is Some && i->0@ == incoming_of(decoded(frame@)),
{
    if frame.len() == 0 {
        None
    } else {
        let text = decode(frame);
        Some(classify_incoming(text.as_str()))
    }
}

} // verus!
