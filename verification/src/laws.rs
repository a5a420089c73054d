//! Theorems about the relay as a whole: what the registry, the handshake and
//! the dispatcher guarantee together.

use crate::command::{is_command, is_word, lemma_parsed_dm, parsed, CommandView};
use crate::handshake::{stepped, Directive, EventView, HandshakeView, Phase, Stage};
use crate::registry::{
    admits, admitted_ids, admitted_names, after_remove, after_reserve, lemma_admitted_ids,
    lemma_admitted_names, lemma_admits_iff, lemma_finalize_keeps_well_formed,
    lemma_release_keeps_well_formed, lemma_remove_keeps_well_formed,
    lemma_reserve_keeps_well_formed, lemma_slot_held_by, lemma_slot_held_by_is, lemma_slot_of,
    lemma_slot_of_is, lookup, pending, slot_of, taken, well_formed, SlotView,
};
use crate::router::{
    chat_line, deliveries, dm_line, not_found_line, others, recipients, routed, self_dm_line,
    serves, slots_after, ActionView,
};
use crate::session::SessionView;
use crate::text::{is_clean, lemma_clean_fixed, line_of};
use vstd::prelude::*;
use vstd::utf8::encode_utf8;

verus! {

/// Whether the session `id` is admitted under `nickname`: it holds a slot
/// that carries the nickname.
pub open spec fn admitted_under(m: Seq<SlotView>, id: u64, nickname: Seq<char>) -> bool {
    exists|i: int| 0 <= i < m.len() && m[i].nickname == nickname && m[i].holder == Some(id)
}

/// One thing that happens to the registry of a running server.
pub enum Move {
    /// A handshake, in whatever state, takes a report of its transport.
    Handshake { handshake: HandshakeView, session: SessionView, event: EventView },
    /// The dispatcher carries out a command of a session.
    Command { session: SessionView, command: CommandView },
    /// A session is taken out of service.
    Disconnect { id: u64 },
}

/// The slots after one move.
pub open spec fn slots_after_move(m: Seq<SlotView>, v: Move) -> Seq<SlotView> {
    match v {
        Move::Handshake { handshake, session, event } => stepped(
            Stage { handshake, slots: m, session },
            event,
        ).slots,
        Move::Command { session, command } => slots_after(m, session, command),
        Move::Disconnect { id } => after_remove(m, id),
    }
}

/// The slots after a run of moves, the first of them first.
pub open spec fn slots_after_moves(m: Seq<SlotView>, moves: Seq<Move>) -> Seq<SlotView>
    decreases moves.len(),
{
    if moves.len() == 0 {
        m
    } else {
        slots_after_move(slots_after_moves(m, moves.drop_last()), moves.last())
    }
}

/// Whatever handshakes, commands and disconnections follow one another on a
/// registry, in whatever order and for whatever connections, no two sessions
/// are admitted under the same nickname at any time, and no session is
/// admitted under two nicknames.
pub proof fn lemma_nicknames_stay_unique(m: Seq<SlotView>, moves: Seq<Move>)
    requires
        well_formed(m),
    ensures
        well_formed(slots_after_moves(m, moves)),
        forall|a: u64, b: u64, n: Seq<char>|
            admitted_under(slots_after_moves(m, moves), a, n) && admitted_under(
                slots_after_moves(m, moves),
                b,
                n,
            ) ==> a == b,
        forall|a: u64, n1: Seq<char>, n2: Seq<char>|
            admitted_under(slots_after_moves(m, moves), a, n1) && admitted_under(
                slots_after_moves(m, moves),
                a,
                n2,
            ) ==> n1 == n2,
    decreases moves.len(),
{
    if moves.len() > 0 {
        lemma_nicknames_stay_unique(m, moves.drop_last());
        lemma_move_keeps_well_formed(slots_after_moves(m, moves.drop_last()), moves.last());
    }
    lemma_well_formed_is_unique(slots_after_moves(m, moves));
}

/// Among well-formed slots, a nickname admits one session and a session has
/// one nickname.
pub proof fn lemma_well_formed_is_unique(m: Seq<SlotView>)
    requires
        well_formed(m),
    ensures
        forall|a: u64, b: u64, n: Seq<char>|
            admitted_under(m, a, n) && admitted_under(m, b, n) ==> a == b,
        forall|a: u64, n1: Seq<char>, n2: Seq<char>|
            admitted_under(m, a, n1) && admitted_under(m, a, n2) ==> n1 == n2,
{
    assert forall|a: u64, b: u64, n: Seq<char>|
        admitted_under(m, a, n) && admitted_under(m, b, n) implies a == b by {
        let i = choose|i: int| 0 <= i < m.len() && m[i].nickname == n && m[i].holder == Some(a);
        let j = choose|j: int| 0 <= j < m.len() && m[j].nickname == n && m[j].holder == Some(b);
        if i < j {
            assert(m[i].nickname != m[j].nickname);
        } else if j < i {
            assert(m[j].nickname != m[i].nickname);
        }
    }
    assert forall|a: u64, n1: Seq<char>, n2: Seq<char>|
        admitted_under(m, a, n1) && admitted_under(m, a, n2) implies n1 == n2 by {
        let i = choose|i: int| 0 <= i < m.len() && m[i].nickname == n1 && m[i].holder == Some(a);
        let j = choose|j: int| 0 <= j < m.len() && m[j].nickname == n2 && m[j].holder == Some(a);
        if i < j {
            assert(m[i].holder != m[j].holder);
        } else if j < i {
            assert(m[j].holder != m[i].holder);
        }
    }
}

/// Every move keeps the slots well-formed.
pub proof fn lemma_move_keeps_well_formed(m: Seq<SlotView>, v: Move)
    requires
        well_formed(m),
    ensures
        well_formed(slots_after_move(m, v)),
{
    match v {
        Move::Handshake { handshake, session, event } => {
            lemma_step_keeps_well_formed(Stage { handshake, slots: m, session }, event);
        },
        Move::Command { session, command } => {
            lemma_remove_keeps_well_formed(m, session.id);
        },
        Move::Disconnect { id } => {
            lemma_remove_keeps_well_formed(m, id);
        },
    }
}

/// Every step of a handshake keeps the slots well-formed.
pub proof fn lemma_step_keeps_well_formed(t: Stage, e: EventView)
    requires
        well_formed(t.slots),
    ensures
        well_formed(stepped(t, e).slots),
{
    let name = t.handshake.nickname;
    lemma_release_keeps_well_formed(t.slots, name);
    lemma_finalize_keeps_well_formed(t.slots, name, t.session.id);
    match e {
        EventView::Received(frame) => {
            lemma_reserve_keeps_well_formed(t.slots, line_of(frame));
        },
        _ => {},
    }
}

/// A handshake that ends in admission leaves the session admitted under the
/// nickname that it reserved, and ready to be served.
pub proof fn lemma_admission(t: Stage, e: EventView)
    requires
        well_formed(t.slots),
        !t.handshake.settled(),
        stepped(t, e).handshake.phase == Phase::Admitted,
    ensures
        serves(stepped(t, e).slots, stepped(t, e).session),
        stepped(t, e).session.nickname == Some(t.handshake.nickname),
        admitted_under(stepped(t, e).slots, t.session.id, t.handshake.nickname),
{
    let name = t.handshake.nickname;
    let after = stepped(t, e).slots;
    lemma_slot_of(t.slots, name);
    let k = slot_of(t.slots, name);
    assert(after[k].nickname == name && after[k].holder == Some(t.session.id));
    assert forall|i: int| 0 <= i < k implies after[i].nickname != name by {
        assert(after[i] == t.slots[i]);
    }
    lemma_slot_of_is(after, name, k);
}

/// A handshake begins with a directive that fits its phase, and every step
/// keeps it so.
pub proof fn lemma_directive_fits_phase(t: Stage, e: EventView)
    ensures
        HandshakeView::begun().consistent(),
        t.handshake.consistent() ==> stepped(t, e).handshake.consistent(),
{
}

/// A taken nickname does not end a handshake: the client is asked again,
/// and neither the registry nor the session changes.
pub proof fn lemma_taken_nickname_asks_again(t: Stage, frame: Seq<u8>)
    requires
        t.handshake.listening(),
        frame.len() > 0,
        taken(t.slots, line_of(frame)),
    ensures
        stepped(t, EventView::Received(frame)) == (Stage {
            handshake: HandshakeView { pending: Directive::SendPrompt, ..t.handshake },
            ..t
        }),
{
}

/// A handshake that is given up leaves no entry behind: no slot is added,
/// nobody's admission changes, and a nickname that it had reserved is free
/// again.
pub proof fn lemma_rejection_leaves_no_entry(t: Stage, e: EventView)
    requires
        well_formed(t.slots),
        !t.handshake.settled(),
        stepped(t, e).handshake.phase == Phase::Rejected,
    ensures
        stepped(t, e).slots.len() <= t.slots.len(),
        forall|id: u64| admits(stepped(t, e).slots, id) <==> admits(t.slots, id),
        t.handshake.phase == Phase::Validating && pending(t.slots, t.handshake.nickname)
            ==> !taken(stepped(t, e).slots, t.handshake.nickname),
        !stepped(t, e).session.live,
{
    let name = t.handshake.nickname;
    let after = stepped(t, e).slots;
    lemma_slot_of(t.slots, name);
    if after != t.slots {
        let k = slot_of(t.slots, name);
        assert(after == t.slots.remove(k));
        assert forall|id: u64| admits(after, id) <==> admits(t.slots, id) by {
            lemma_admits_iff(after, id);
            lemma_admits_iff(t.slots, id);
            if admits(after, id) {
                let i = choose|i: int| 0 <= i < after.len() && after[i].holder == Some(id);
                if i < k {
                    assert(t.slots[i].holder == Some(id));
                } else {
                    assert(t.slots[i + 1].holder == Some(id));
                }
            }
            if admits(t.slots, id) {
                let i = choose|i: int| 0 <= i < t.slots.len() && t.slots[i].holder == Some(id);
                if i < k {
                    assert(after[i].holder == Some(id));
                } else {
                    assert(after[i - 1].holder == Some(id));
                }
            }
        }
        assert forall|i: int| 0 <= i < after.len() implies after[i].nickname != name by {
            if i < k {
                assert(after[i] == t.slots[i]);
            } else {
                assert(after[i] == t.slots[i + 1]);
            }
        }
        lemma_slot_of_is(after, name, after.len() as int);
    }
}

/// How often a reservation of `nickname` succeeds when it is made `n` times
/// in a row.
pub open spec fn reservations_won(m: Seq<SlotView>, nickname: Seq<char>, n: nat) -> nat
    decreases n,
{
    if n == 0 {
        0
    } else {
        let won: nat = if taken(m, nickname) {
            0
        } else {
            1
        };
        won + reservations_won(after_reserve(m, nickname), nickname, (n - 1) as nat)
    }
}

/// Of any number of reservations of one free nickname, exactly one succeeds;
/// of a taken nickname, none.
pub proof fn lemma_one_reservation_wins(m: Seq<SlotView>, nickname: Seq<char>, n: nat)
    ensures
        reservations_won(m, nickname, n) == if n > 0 && !taken(m, nickname) {
            1nat
        } else {
            0nat
        },
        n > 0 ==> taken(after_reserve(m, nickname), nickname),
    decreases n,
{
    lemma_reserved_is_taken(m, nickname);
    if n > 0 {
        lemma_one_reservation_wins(after_reserve(m, nickname), nickname, (n - 1) as nat);
    }
}

/// A nickname is taken once it was reserved, and a reservation leaves every
/// other nickname as it was.
pub proof fn lemma_reserved_is_taken(m: Seq<SlotView>, nickname: Seq<char>)
    ensures
        taken(after_reserve(m, nickname), nickname),
        forall|other: Seq<char>|
            other != nickname ==> (taken(after_reserve(m, nickname), other) <==> taken(m, other)),
{
    lemma_slot_of(m, nickname);
    if !taken(m, nickname) {
        let after = after_reserve(m, nickname);
        assert forall|i: int| 0 <= i < m.len() implies after[i].nickname != nickname by {
            assert(after[i] == m[i]);
        }
        lemma_slot_of_is(after, nickname, m.len() as int);
        assert forall|other: Seq<char>| other != nickname implies (taken(after, other) <==> taken(
            m,
            other,
        )) by {
            lemma_slot_of(m, other);
            if taken(m, other) {
                assert forall|i: int| 0 <= i < slot_of(m, other) implies after[i].nickname
                    != other by {
                    assert(after[i] == m[i]);
                }
                assert(after[slot_of(m, other)] == m[slot_of(m, other)]);
                lemma_slot_of_is(after, other, slot_of(m, other));
            } else {
                assert forall|i: int| 0 <= i < after.len() implies after[i].nickname != other by {
                    if i < m.len() {
                        assert(after[i] == m[i]);
                    }
                }
                lemma_slot_of_is(after, other, after.len() as int);
            }
        }
    }
}

/// The identities in `ids` other than `sender` are just those, and none is
/// repeated that was not repeated before.
pub proof fn lemma_others(ids: Seq<u64>, sender: u64)
    ensures
        forall|id: u64|
            #![trigger others(ids, sender).contains(id)]
            #![trigger ids.contains(id)]
            others(ids, sender).contains(id) <==> ids.contains(id) && id != sender,
        ids.no_duplicates() ==> others(ids, sender).no_duplicates(),
    decreases ids.len(),
{
    reveal(Seq::filter);
    if ids.len() == 0 {
        assert(others(ids, sender) =~= Seq::<u64>::empty());
        assert forall|id: u64| others(ids, sender).contains(id) <==> ids.contains(id) && id
            != sender by {}
    } else {
        let init = ids.drop_last();
        let last = ids.last();
        lemma_others(init, sender);
        assert forall|id: u64| others(ids, sender).contains(id) <==> ids.contains(id) && id
            != sender by {
            if others(ids, sender).contains(id) {
                let j = choose|j: int|
                    0 <= j < others(ids, sender).len() && others(ids, sender)[j] == id;
                if j < others(init, sender).len() {
                    assert(others(init, sender)[j] == id);
                    assert(others(init, sender).contains(id));
                    let i = choose|i: int| 0 <= i < init.len() && init[i] == id;
                    assert(ids[i] == id);
                } else {
                    assert(ids[ids.len() - 1] == id);
                }
            }
            if ids.contains(id) && id != sender {
                let i = choose|i: int| 0 <= i < ids.len() && ids[i] == id;
                if i < init.len() {
                    assert(init[i] == id);
                    assert(init.contains(id));
                    assert(others(init, sender).contains(id));
                    let j = choose|j: int|
                        0 <= j < others(init, sender).len() && others(init, sender)[j] == id;
                    assert(others(ids, sender)[j] == id);
                } else {
                    assert(others(ids, sender)[others(ids, sender).len() - 1] == id);
                }
            }
        }
        if ids.no_duplicates() {
            assert(init.no_duplicates());
            if last != sender {
                if init.contains(last) {
                    let i = choose|i: int| 0 <= i < init.len() && init[i] == last;
                    assert(ids[i] == ids[ids.len() - 1]);
                }
                assert(!others(init, sender).contains(last));
            }
        }
    }
}

/// A chat line of a session that the router serves is delivered once to
/// every other admitted session, with the sender's nickname before the text,
/// and to nobody else: never back to the sender, and never as a reply.
pub proof fn lemma_broadcast_exclusion(m: Seq<SlotView>, s: SessionView, text: Seq<char>)
    requires
        well_formed(m),
        serves(m, s),
    ensures
        routed(m, s, CommandView::Say(text)).actions == deliveries(
            recipients(m, s.id),
            chat_line(s.shown_name(), text),
        ),
        forall|id: u64| recipients(m, s.id).contains(id) <==> admits(m, id) && id != s.id,
        !recipients(m, s.id).contains(s.id),
        recipients(m, s.id).no_duplicates(),
        slots_after(m, s, CommandView::Say(text)) == m,
{
    lemma_admitted_ids(m);
    lemma_others(admitted_ids(m), s.id);
}

/// A direct message of a session that the router serves goes to the session
/// admitted under the target nickname and to nobody else. One addressed to
/// the sender's own nickname is answered with an error and nothing is
/// delivered; so is one whose target is not admitted.
pub proof fn lemma_dm_targeting(
    m: Seq<SlotView>,
    s: SessionView,
    target: Seq<char>,
    text: Seq<char>,
)
    requires
        well_formed(m),
        serves(m, s),
    ensures
        target == s.shown_name() ==> routed(m, s, CommandView::Dm { target, text }).actions
            == seq![ActionView::Reply(self_dm_line())],
        target != s.shown_name() && lookup(m, target) is Some ==> routed(
            m,
            s,
            CommandView::Dm { target, text },
        ).actions == seq![
            ActionView::Deliver {
                to: lookup(m, target).unwrap(),
                text: dm_line(s.shown_name(), text),
            },
        ] && lookup(m, target).unwrap() != s.id,
        target != s.shown_name() && lookup(m, target) is None ==> routed(
            m,
            s,
            CommandView::Dm { target, text },
        ).actions == seq![ActionView::Reply(not_found_line(target))],
        slots_after(m, s, CommandView::Dm { target, text }) == m,
{
    if target != s.shown_name() && lookup(m, target) is Some {
        let own = s.nickname.unwrap();
        lemma_slot_of(m, target);
        lemma_slot_of(m, own);
        let i = slot_of(m, target);
        let j = slot_of(m, own);
        if lookup(m, target).unwrap() == s.id {
            assert(m[i].holder == m[j].holder);
            assert(i != j);
        }
    }
}

/// A frame that spells `/dm`, the nickname of another admitted session and
/// a text is delivered to that session alone, as a direct message from the
/// sender. This holds of a target without whitespace and NUL and of a text
/// that cleaning leaves as it is.
pub proof fn lemma_dm_frame(m: Seq<SlotView>, s: SessionView, target: Seq<char>, text: Seq<char>)
    requires
        well_formed(m),
        serves(m, s),
        is_word(target),
        is_clean("/dm "@ + target + " "@ + text),
        target != s.shown_name(),
        lookup(m, target) is Some,
    ensures
        routed(m, s, parsed(line_of(encode_utf8("/dm "@ + target + " "@ + text)))).actions
            == seq![
            ActionView::Deliver {
                to: lookup(m, target).unwrap(),
                text: dm_line(s.shown_name(), text),
            },
        ],
        lookup(m, target).unwrap() != s.id,
{
    lemma_clean_fixed("/dm "@ + target + " "@ + text);
    lemma_parsed_dm(target, text);
    lemma_dm_targeting(m, s, target, text);
}

/// A frame that spells a text which does not begin with `/` is delivered as
/// a chat line to every other admitted session. This holds of a text that
/// cleaning leaves as it is.
pub proof fn lemma_chat_frame(m: Seq<SlotView>, s: SessionView, text: Seq<char>)
    requires
        well_formed(m),
        serves(m, s),
        is_clean(text),
        !is_command(text),
    ensures
        routed(m, s, parsed(line_of(encode_utf8(text)))).actions == deliveries(
            recipients(m, s.id),
            chat_line(s.shown_name(), text),
        ),
{
    lemma_clean_fixed(text);
}

/// The directory names every admitted session once, and names nobody else.
pub proof fn lemma_directory(m: Seq<SlotView>)
    requires
        well_formed(m),
    ensures
        forall|n: Seq<char>| admitted_names(m).contains(n) <==> lookup(m, n) is Some,
        admitted_names(m).no_duplicates(),
        admitted_names(m).len() == admitted_ids(m).len(),
{
    lemma_admitted_names(m);
}

/// Once a session that the router serves has left, nobody can be found under
/// its nickname, it is not admitted, and no broadcast of any session reaches
/// it. The other sessions stay as they were.
pub proof fn lemma_removal_on_exit(m: Seq<SlotView>, s: SessionView)
    requires
        well_formed(m),
        serves(m, s),
    ensures
        slots_after(m, s, CommandView::Exit) == after_remove(m, s.id),
        lookup(after_remove(m, s.id), s.nickname.unwrap()) is None,
        !admits(after_remove(m, s.id), s.id),
        forall|sender: u64| !recipients(after_remove(m, s.id), sender).contains(s.id),
        !admitted_names(after_remove(m, s.id)).contains(s.nickname.unwrap()),
        forall|n: Seq<char>|
            n != s.nickname.unwrap() ==> lookup(after_remove(m, s.id), n) == lookup(m, n),
{
    let own = s.nickname.unwrap();
    let after = after_remove(m, s.id);
    lemma_slot_of(m, own);
    lemma_slot_held_by(m, s.id);
    let k = slot_of(m, own);
    lemma_slot_held_by_is(m, s.id, k);
    assert(after == m.remove(k));
    lemma_remove_keeps_well_formed(m, s.id);
    assert forall|i: int| 0 <= i < after.len() implies after[i].nickname != own && after[i].holder
        != Some(s.id) by {
        if i < k {
            assert(after[i] == m[i]);
        } else {
            assert(after[i] == m[i + 1]);
        }
    }
    lemma_slot_of_is(after, own, after.len() as int);
    lemma_slot_held_by_is(after, s.id, after.len() as int);
    lemma_admitted_ids(after);
    lemma_admitted_names(after);
    assert forall|sender: u64| !recipients(after, sender).contains(s.id) by {
        lemma_others(admitted_ids(after), sender);
        assert(!admits(after, s.id));
        assert(!admitted_ids(after).contains(s.id));
    }
    assert forall|n: Seq<char>| n != own implies lookup(after, n) == lookup(m, n) by {
        lemma_slot_of(m, n);
        let i = slot_of(m, n);
        if i < m.len() {
            let j = if i < k {
                i
            } else {
                i - 1
            };
            assert(after[j] == m[i]);
            assert forall|x: int| 0 <= x < j implies after[x].nickname != n by {
                if x < k {
                    assert(after[x] == m[x]);
                } else {
                    assert(after[x] == m[x + 1]);
                }
            }
            lemma_slot_of_is(after, n, j);
        } else {
            assert forall|x: int| 0 <= x < after.len() implies after[x].nickname != n by {
                if x < k {
                    assert(after[x] == m[x]);
                } else {
                    assert(after[x] == m[x + 1]);
                }
            }
            lemma_slot_of_is(after, n, after.len() as int);
        }
    }
}

} // verus!
