//! The registry of admitted sessions: one slot per nickname, in the order in
//! which the nicknames were reserved.

use crate::session::Session;
use crate::text::{join, joined};
use vstd::prelude::*;

verus! {

/// One slot of the registry, as plain values.
pub struct SlotView {
    /// The nickname that the slot reserves.
    pub nickname: Seq<char>,
    /// The identity of the session admitted under the nickname; `None` while
    /// the slot is only a reservation.
    pub holder: Option<u64>,
}

/// No two slots carry the same nickname.
pub open spec fn names_distinct(m: Seq<SlotView>) -> bool {
    forall|i: int, j: int| 0 <= i < j < m.len() ==> m[i].nickname != m[j].nickname
}

/// No session holds two slots.
pub open spec fn holders_distinct(m: Seq<SlotView>) -> bool {
    forall|i: int, j: int|
        0 <= i < j < m.len() && m[i].holder is Some ==> m[i].holder != m[j].holder
}

/// What holds of the slots of every registry.
pub open spec fn well_formed(m: Seq<SlotView>) -> bool {
    names_distinct(m) && holders_distinct(m)
}

/// The index of the first slot that carries `nickname`, or the number of
/// slots if none does.
pub open spec fn slot_of(m: Seq<SlotView>, nickname: Seq<char>) -> int
    decreases m.len(),
{
    if m.len() == 0 || m.first().nickname == nickname {
        0
    } else {
        1 + slot_of(m.drop_first(), nickname)
    }
}

/// The index of the first slot that the session `id` holds, or the number of
/// slots if it holds none.
pub open spec fn slot_held_by(m: Seq<SlotView>, id: u64) -> int
    decreases m.len(),
{
    if m.len() == 0 || m.first().holder == Some(id) {
        0
    } else {
        1 + slot_held_by(m.drop_first(), id)
    }
}

/// Whether some slot carries `nickname`, as a reservation or for an admitted
/// session.
pub open spec fn taken(m: Seq<SlotView>, nickname: Seq<char>) -> bool {
    slot_of(m, nickname) < m.len()
}

/// Whether the session `id` is admitted.
pub open spec fn admits(m: Seq<SlotView>, id: u64) -> bool {
    slot_held_by(m, id) < m.len()
}

/// The session admitted under `nickname`, if there is one.
pub open spec fn lookup(m: Seq<SlotView>, nickname: Seq<char>) -> Option<u64> {
    if taken(m, nickname) {
        m[slot_of(m, nickname)].holder
    } else {
        None
    }
}

/// The slots after a reservation of `nickname`: a new empty slot at the end,
/// unless the nickname is taken.
pub open spec fn after_reserve(m: Seq<SlotView>, nickname: Seq<char>) -> Seq<SlotView> {
    if taken(m, nickname) {
        m
    } else {
        m.push(SlotView { nickname, holder: None })
    }
}

/// Whether the session `id` can be attached to the slot of `nickname`: the
/// slot is there and empty, and the session holds no slot yet.
pub open spec fn attachable(m: Seq<SlotView>, nickname: Seq<char>, id: u64) -> bool {
    taken(m, nickname) && m[slot_of(m, nickname)].holder is None && !admits(m, id)
}

/// The slots after the session `id` is attached to the slot of `nickname`.
pub open spec fn after_finalize(m: Seq<SlotView>, nickname: Seq<char>, id: u64) -> Seq<SlotView> {
    if attachable(m, nickname, id) {
        m.update(slot_of(m, nickname), SlotView { nickname, holder: Some(id) })
    } else {
        m
    }
}

/// The slots after the session `id` has left: its slot is gone, the others
/// keep their order.
pub open spec fn after_remove(m: Seq<SlotView>, id: u64) -> Seq<SlotView> {
    if admits(m, id) {
        m.remove(slot_held_by(m, id))
    } else {
        m
    }
}

/// Whether the slot of `nickname` is a reservation that no session holds.
pub open spec fn pending(m: Seq<SlotView>, nickname: Seq<char>) -> bool {
    taken(m, nickname) && m[slot_of(m, nickname)].holder is None
}

/// The slots after the reservation of `nickname` is given up.
pub open spec fn after_release(m: Seq<SlotView>, nickname: Seq<char>) -> Seq<SlotView> {
    if pending(m, nickname) {
        m.remove(slot_of(m, nickname))
    } else {
        m
    }
}

/// The slots that a session holds, in order.
pub open spec fn admitted(m: Seq<SlotView>) -> Seq<SlotView> {
    m.filter(|s: SlotView| s.holder is Some)
}

/// The nicknames of the admitted sessions, in the order of their slots.
pub open spec fn admitted_names(m: Seq<SlotView>) -> Seq<Seq<char>> {
    admitted(m).map_values(|s: SlotView| s.nickname)
}

/// The identities of the admitted sessions, in the order of their slots.
pub open spec fn admitted_ids(m: Seq<SlotView>) -> Seq<u64> {
    admitted(m).map_values(|s: SlotView| s.holder.unwrap())
}

/// The text of the directory listing: the admitted nicknames, separated by a
/// comma and a space.
pub open spec fn listing(m: Seq<SlotView>) -> Seq<char> {
    joined(admitted_names(m), ", "@)
}

/// `slot_of` stays within the slots and points at the nickname, with no
/// earlier slot that carries it.
pub proof fn lemma_slot_of(m: Seq<SlotView>, nickname: Seq<char>)
    ensures
        0 <= slot_of(m, nickname) <= m.len(),
        taken(m, nickname) ==> m[slot_of(m, nickname)].nickname == nickname,
        forall|i: int| 0 <= i < slot_of(m, nickname) ==> m[i].nickname != nickname,
    decreases m.len(),
{
    if m.len() == 0 || m.first().nickname == nickname {
    } else {
        let r = m.drop_first();
        lemma_slot_of(r, nickname);
        assert forall|i: int| 0 <= i < slot_of(m, nickname) implies m[i].nickname != nickname by {
            if i > 0 {
                assert(m[i] == r[i - 1]);
            }
        }
    }
}

/// An index whose slot carries the nickname, with none before it that does,
/// is `slot_of`.
pub proof fn lemma_slot_of_is(m: Seq<SlotView>, nickname: Seq<char>, k: int)
    requires
        0 <= k <= m.len(),
        k < m.len() ==> m[k].nickname == nickname,
        forall|i: int| 0 <= i < k ==> m[i].nickname != nickname,
    ensures
        slot_of(m, nickname) == k,
    decreases m.len(),
{
    if m.len() == 0 || m.first().nickname == nickname {
    } else {
        let r = m.drop_first();
        assert forall|i: int| 0 <= i < k - 1 implies r[i].nickname != nickname by {
            assert(r[i] == m[i + 1]);
        }
        lemma_slot_of_is(r, nickname, k - 1);
    }
}

/// `slot_held_by` stays within the slots and points at a slot of the
/// session, with no earlier slot that it holds.
pub proof fn lemma_slot_held_by(m: Seq<SlotView>, id: u64)
    ensures
        0 <= slot_held_by(m, id) <= m.len(),
        admits(m, id) ==> m[slot_held_by(m, id)].holder == Some(id),
        forall|i: int| 0 <= i < slot_held_by(m, id) ==> m[i].holder != Some(id),
    decreases m.len(),
{
    if m.len() == 0 || m.first().holder == Some(id) {
    } else {
        let r = m.drop_first();
        lemma_slot_held_by(r, id);
        assert forall|i: int| 0 <= i < slot_held_by(m, id) implies m[i].holder != Some(id) by {
            if i > 0 {
                assert(m[i] == r[i - 1]);
            }
        }
    }
}

/// An index whose slot the session holds, with none before it that it holds,
/// is `slot_held_by`.
pub proof fn lemma_slot_held_by_is(m: Seq<SlotView>, id: u64, k: int)
    requires
        0 <= k <= m.len(),
        k < m.len() ==> m[k].holder == Some(id),
        forall|i: int| 0 <= i < k ==> m[i].holder != Some(id),
    ensures
        slot_held_by(m, id) == k,
    decreases m.len(),
{
    if m.len() == 0 || m.first().holder == Some(id) {
    } else {
        let r = m.drop_first();
        assert forall|i: int| 0 <= i < k - 1 implies r[i].holder != Some(id) by {
            assert(r[i] == m[i + 1]);
        }
        lemma_slot_held_by_is(r, id, k - 1);
    }
}

/// One slot of the registry.
#[derive(Debug)]
struct Slot {
    nickname: String,
    holder: Option<u64>,
}

impl View for Slot {
    type V = SlotView;

    closed spec fn view(&self) -> SlotView {
        SlotView { nickname: self.nickname@, holder: self.holder }
    }
}

/// The table of nicknames in use and of the sessions admitted under them.
#[derive(Debug)]
pub struct Registry {
    slots: Vec<Slot>,
}

impl View for Registry {
    type V = Seq<SlotView>;

    closed spec fn view(&self) -> Seq<SlotView> {
        self.slots@.map_values(|s: Slot| s@)
    }
}

impl Registry {
    /// Nicknames are unique among the slots, and no session holds two of
    /// them. `new` establishes this and every operation keeps it.
    pub open spec fn wf(&self) -> bool {
        well_formed(self@)
    }

    /// A registry without slots.
    pub fn new() -> (r: Registry)
        ensures
            r@ == Seq::<SlotView>::empty(),
            r.wf(),
    {
        let r = Registry { slots: Vec::new() };
        assert(r@ =~= Seq::<SlotView>::empty());
        r
    }

    /// The index of the slot that carries `nickname`, or the number of slots.
    fn position(&self, nickname: &str) -> (k: usize)
        ensures
            k == slot_of(self@, nickname@),
            k <= self.slots.len(),
            self@.len() == self.slots.len(),
    {
        let mut k: usize = 0;
        while k < self.slots.len() && !self.slots[k].nickname.as_str().eq(nickname)
            invariant
                k <= self.slots.len(),
                forall|i: int| 0 <= i < k ==> self@[i].nickname != nickname@,
            decreases self.slots.len() - k,
        {
            k += 1;
        }
        proof {
            lemma_slot_of_is(self@, nickname@, k as int);
        }
        k
    }

    /// The index of the slot that the session `id` holds, or the number of
    /// slots.
    fn position_held_by(&self, id: u64) -> (k: usize)
        ensures
            k == slot_held_by(self@, id),
            k <= self.slots.len(),
            self@.len() == self.slots.len(),
    {
        let mut k: usize = 0;
        while k < self.slots.len() && self.slots[k].holder != Some(id)
            invariant
                k <= self.slots.len(),
                forall|i: int| 0 <= i < k ==> self@[i].holder != Some(id),
            decreases self.slots.len() - k,
        {
            k += 1;
        }
        proof {
            lemma_slot_held_by_is(self@, id, k as int);
        }
        k
    }

    /// Reserves `nickname` if no slot carries it yet: the check and the
    /// insertion are one step. Returns whether the nickname was free.
    pub fn reserve(&mut self, nickname: &str) -> (fresh: bool)
        requires
            old(self).wf(),
        ensures
            fresh == !taken(old(self)@, nickname@),
            final(self)@ == after_reserve(old(self)@, nickname@),
            final(self).wf(),
    {
        let k = self.position(nickname);
        if k < self.slots.len() {
            false
        } else {
            proof {
                lemma_slot_of(self@, nickname@);
                lemma_reserve_keeps_well_formed(self@, nickname@);
            }
            let ghost before = self@;
            self.slots.push(Slot { nickname: nickname.to_owned(), holder: None });
            assert(self@ =~= before.push(SlotView { nickname: nickname@, holder: None }));
            true
        }
    }

    /// Attaches `session` to the slot reserved for `nickname`. This happens
    /// when the slot is there and empty, the session holds no other slot, and
    /// the session is live and carries that nickname; otherwise nothing
    /// changes. Returns whether the session was attached.
    pub fn finalize(&mut self, nickname: &str, session: &Session) -> (attached: bool)
        requires
            old(self).wf(),
        ensures
            attached == (attachable(old(self)@, nickname@, session@.id) && session@.answers_to(
                nickname@,
            )),
            attached ==> final(self)@ == after_finalize(old(self)@, nickname@, session@.id),
            !attached ==> final(self)@ == old(self)@,
            final(self).wf(),
    {
        if !session.is_live() || !session.is_named() || !session.nickname().as_str().eq(nickname) {
            return false;
        }
        let id = session.id();
        let k = self.position(nickname);
        if k >= self.slots.len() || self.slots[k].holder.is_some() {
            return false;
        }
        let h = self.position_held_by(id);
        if h < self.slots.len() {
            return false;
        }
        proof {
            lemma_slot_of(self@, nickname@);
            lemma_finalize_keeps_well_formed(self@, nickname@, id);
        }
        let ghost before = self@;
        self.slots[k].holder = Some(id);
        assert(self@ =~= before.update(
            k as int,
            SlotView { nickname: nickname@, holder: Some(id) },
        ));
        true
    }

    /// Removes the slot that `session` holds, found by the session's
    /// identity and not by its nickname. Returns whether there was one;
    /// without one nothing changes.
    pub fn remove(&mut self, session: &Session) -> (removed: bool)
        requires
            old(self).wf(),
        ensures
            removed == admits(old(self)@, session@.id),
            final(self)@ == after_remove(old(self)@, session@.id),
            final(self).wf(),
    {
        let k = self.position_held_by(session.id());
        if k < self.slots.len() {
            proof {
                lemma_remove_keeps_well_formed(self@, session@.id);
            }
            let ghost before = self@;
            self.slots.remove(k);
            assert(self@ =~= before.remove(k as int));
            true
        } else {
            false
        }
    }

    /// Gives up the reservation of `nickname`: its slot is removed if no
    /// session holds it. Returns whether a reservation was removed; the slot
    /// of an admitted session is left alone.
    pub fn release(&mut self, nickname: &str) -> (released: bool)
        requires
            old(self).wf(),
        ensures
            released == pending(old(self)@, nickname@),
            final(self)@ == after_release(old(self)@, nickname@),
            final(self).wf(),
    {
        let k = self.position(nickname);
        if k < self.slots.len() && self.slots[k].holder.is_none() {
            proof {
                lemma_release_keeps_well_formed(self@, nickname@);
            }
            let ghost before = self@;
            self.slots.remove(k);
            assert(self@ =~= before.remove(k as int));
            true
        } else {
            false
        }
    }

    /// The identity of the session admitted under `nickname`; `None` when the
    /// nickname is free or only reserved.
    pub fn find(&self, nickname: &str) -> (found: Option<u64>)
        ensures
            found == lookup(self@, nickname@),
    {
        let k = self.position(nickname);
        if k < self.slots.len() {
            self.slots[k].holder
        } else {
            None
        }
    }

    /// Whether `session` is admitted: some slot is held by its identity.
    pub fn is_admitted(&self, session: &Session) -> (r: bool)
        ensures
            r == admits(self@, session@.id),
    {
        let k = self.position_held_by(session.id());
        k < self.slots.len()
    }

    /// The nicknames of the admitted sessions, in the order of their slots.
    pub fn enumerate(&self) -> (names: Vec<String>)
        ensures
            names.deep_view() == admitted_names(self@),
    {
        let mut names: Vec<String> = Vec::new();
        let mut i: usize = 0;
        assert(names.deep_view() =~= Seq::<Seq<char>>::empty());
        proof {
            reveal(Seq::filter);
            assert(self@.take(0) =~= Seq::<SlotView>::empty());
        }
        while i < self.slots.len()
            invariant
                i <= self.slots.len(),
                self@.len() == self.slots.len(),
                names.deep_view() == admitted_names(self@.take(i as int)),
            decreases self.slots.len() - i,
        {
            proof {
                lemma_admitted_step(self@.take(i + 1));
                assert(self@.take(i + 1).drop_last() =~= self@.take(i as int));
            }
            let ghost before = names.deep_view();
            if self.slots[i].holder.is_some() {
                names.push(self.slots[i].nickname.clone());
                assert(names.deep_view() =~= before.push(self@[i as int].nickname));
            }
            i += 1;
        }
        assert(self@.take(i as int) =~= self@);
        names
    }

    /// The identities of the admitted sessions, in the order of their slots.
    pub fn sessions(&self) -> (ids: Vec<u64>)
        ensures
            ids@ == admitted_ids(self@),
    {
        let mut ids: Vec<u64> = Vec::new();
        let mut i: usize = 0;
        proof {
            reveal(Seq::filter);
            assert(self@.take(0) =~= Seq::<SlotView>::empty());
            assert(ids@ =~= admitted_ids(self@.take(0)));
        }
        while i < self.slots.len()
            invariant
                i <= self.slots.len(),
                self@.len() == self.slots.len(),
                ids@ == admitted_ids(self@.take(i as int)),
            decreases self.slots.len() - i,
        {
            proof {
                lemma_admitted_step(self@.take(i + 1));
                assert(self@.take(i + 1).drop_last() =~= self@.take(i as int));
            }
            match self.slots[i].holder {
                Some(id) => {
                    ids.push(id);
                },
                None => {},
            }
            i += 1;
        }
        assert(self@.take(i as int) =~= self@);
        ids
    }
}

/// Whether some slot of `registry` carries `nickname`, be it a reservation or
/// the slot of an admitted session.
pub fn check_if_nickname_exists(registry: &Registry, nickname: &str) -> (exists_: bool)
    ensures
        exists_ == taken(registry@, nickname@),
{
    let k = registry.position(nickname);
    k < registry.slots.len()
}

/// The directory listing: the admitted nicknames in the order of their slots,
/// separated by a comma and a space.
pub fn list_users(registry: &Registry) -> (users: String)
    ensures
        users@ == listing(registry@),
{
    let names = registry.enumerate();
    join(&names, ", ")
}

/// How the admitted slots, names and identities grow with the last slot.
pub proof fn lemma_admitted_step(m: Seq<SlotView>)
    requires
        m.len() > 0,
    ensures
        m.last().holder is Some ==> admitted(m) == admitted(m.drop_last()).push(m.last()),
        m.last().holder is Some ==> admitted_names(m) == admitted_names(m.drop_last()).push(
            m.last().nickname,
        ),
        m.last().holder is Some ==> admitted_ids(m) == admitted_ids(m.drop_last()).push(
            m.last().holder.unwrap(),
        ),
        m.last().holder is None ==> admitted(m) == admitted(m.drop_last()),
        m.last().holder is None ==> admitted_names(m) == admitted_names(m.drop_last()),
        m.last().holder is None ==> admitted_ids(m) == admitted_ids(m.drop_last()),
{
    reveal(Seq::filter);
    if m.last().holder is Some {
        assert(admitted(m) == admitted(m.drop_last()).push(m.last()));
        assert(admitted_names(m) =~= admitted_names(m.drop_last()).push(m.last().nickname));
        assert(admitted_ids(m) =~= admitted_ids(m.drop_last()).push(m.last().holder.unwrap()));
    }
}

/// A reservation keeps the slots well-formed.
pub proof fn lemma_reserve_keeps_well_formed(m: Seq<SlotView>, nickname: Seq<char>)
    requires
        well_formed(m),
    ensures
        well_formed(after_reserve(m, nickname)),
{
    lemma_slot_of(m, nickname);
}

/// Attaching a session keeps the slots well-formed.
pub proof fn lemma_finalize_keeps_well_formed(m: Seq<SlotView>, nickname: Seq<char>, id: u64)
    requires
        well_formed(m),
    ensures
        well_formed(after_finalize(m, nickname, id)),
{
    lemma_slot_of(m, nickname);
    lemma_slot_held_by(m, id);
}

/// Removing a session keeps the slots well-formed.
pub proof fn lemma_remove_keeps_well_formed(m: Seq<SlotView>, id: u64)
    requires
        well_formed(m),
    ensures
        well_formed(after_remove(m, id)),
{
    lemma_slot_held_by(m, id);
}

/// Giving up a reservation keeps the slots well-formed.
pub proof fn lemma_release_keeps_well_formed(m: Seq<SlotView>, nickname: Seq<char>)
    requires
        well_formed(m),
    ensures
        well_formed(after_release(m, nickname)),
{
    lemma_slot_of(m, nickname);
}

/// A session is admitted exactly when some slot is held by it.
pub proof fn lemma_admits_iff(m: Seq<SlotView>, id: u64)
    ensures
        admits(m, id) <==> exists|i: int| 0 <= i < m.len() && m[i].holder == Some(id),
{
    lemma_slot_held_by(m, id);
}

/// The identities listed for the admitted sessions are those of the
/// sessions that hold a slot; among well-formed slots, each is listed once.
pub proof fn lemma_admitted_ids(m: Seq<SlotView>)
    ensures
        forall|id: u64|
            #![trigger admitted_ids(m).contains(id)]
            #![trigger admits(m, id)]
            admitted_ids(m).contains(id) <==> admits(m, id),
        holders_distinct(m) ==> admitted_ids(m).no_duplicates(),
    decreases m.len(),
{
    reveal(Seq::filter);
    if m.len() == 0 {
        assert(admitted_ids(m) =~= Seq::<u64>::empty());
        assert forall|id: u64| admitted_ids(m).contains(id) <==> admits(m, id) by {}
    } else {
        let init = m.drop_last();
        lemma_admitted_ids(init);
        lemma_admitted_step(m);
        assert forall|id: u64| admitted_ids(m).contains(id) <==> admits(m, id) by {
            lemma_admits_iff(m, id);
            lemma_admits_iff(init, id);
            if admitted_ids(m).contains(id) {
                let j = choose|j: int|
                    0 <= j < admitted_ids(m).len() && admitted_ids(m)[j] == id;
                if j < admitted_ids(init).len() {
                    assert(admitted_ids(init)[j] == id);
                    assert(admitted_ids(init).contains(id));
                    let i = choose|i: int| 0 <= i < init.len() && init[i].holder == Some(id);
                    assert(m[i].holder == Some(id));
                } else {
                    assert(m[m.len() - 1].holder == Some(id));
                }
            }
            if admits(m, id) {
                let i = choose|i: int| 0 <= i < m.len() && m[i].holder == Some(id);
                if i < init.len() {
                    assert(init[i].holder == Some(id));
                    assert(admitted_ids(init).contains(id));
                    let j = choose|j: int|
                        0 <= j < admitted_ids(init).len() && admitted_ids(init)[j] == id;
                    assert(admitted_ids(m)[j] == id);
                } else {
                    assert(admitted_ids(m)[admitted_ids(m).len() - 1] == id);
                }
            }
        }
        if holders_distinct(m) {
            assert(holders_distinct(init));
            if m.last().holder is Some {
                let id = m.last().holder.unwrap();
                lemma_admits_iff(init, id);
                assert(!admitted_ids(init).contains(id));
            }
        }
    }
}

/// The nicknames listed for the admitted sessions are, among well-formed
/// slots, those under which a session can be found, each listed once.
pub proof fn lemma_admitted_names(m: Seq<SlotView>)
    requires
        names_distinct(m),
    ensures
        forall|n: Seq<char>|
            #![trigger admitted_names(m).contains(n)]
            #![trigger lookup(m, n)]
            admitted_names(m).contains(n) <==> lookup(m, n) is Some,
        admitted_names(m).no_duplicates(),
    decreases m.len(),
{
    reveal(Seq::filter);
    if m.len() == 0 {
        assert(admitted_names(m) =~= Seq::<Seq<char>>::empty());
        assert forall|n: Seq<char>| admitted_names(m).contains(n) <==> lookup(m, n) is Some by {}
    } else {
        let init = m.drop_last();
        let last = m.last();
        lemma_admitted_names(init);
        lemma_admitted_step(m);
        assert forall|n: Seq<char>| admitted_names(m).contains(n) <==> lookup(m, n) is Some by {
            lemma_slot_of(m, n);
            lemma_slot_of(init, n);
            if taken(init, n) {
                lemma_slot_of_is(m, n, slot_of(init, n));
                assert(lookup(m, n) == lookup(init, n));
                assert(last.nickname != n);
            } else if last.nickname == n {
                lemma_slot_of_is(m, n, m.len() - 1);
                assert(lookup(init, n) is None);
            } else {
                assert forall|i: int| 0 <= i < m.len() implies m[i].nickname != n by {
                    if i < init.len() {
                        assert(m[i] == init[i]);
                    }
                }
                lemma_slot_of_is(m, n, m.len() as int);
                assert(lookup(init, n) is None);
            }
            if admitted_names(m).contains(n) {
                let j = choose|j: int|
                    0 <= j < admitted_names(m).len() && admitted_names(m)[j] == n;
                if j < admitted_names(init).len() {
                    assert(admitted_names(init)[j] == n);
                    assert(admitted_names(init).contains(n));
                }
            }
            if lookup(m, n) is Some {
                if taken(init, n) {
                    assert(lookup(init, n) is Some);
                    assert(admitted_names(init).contains(n));
                    let j = choose|j: int|
                        0 <= j < admitted_names(init).len() && admitted_names(init)[j] == n;
                    assert(admitted_names(m)[j] == n);
                } else {
                    assert(admitted_names(m)[admitted_names(m).len() - 1] == n);
                }
            }
        }
        if last.holder is Some {
            lemma_slot_of(init, last.nickname);
            assert(lookup(init, last.nickname) is None);
            assert(!admitted_names(init).contains(last.nickname));
        }
    }
}

} // verus!
