//! The lobby: which users wait in which room.
use std::collections::HashMap;
use vstd::prelude::*;
use vstd::std_specs::hash::group_hash_axioms;

use crate::error::AppError;

verus! {

/// `s` without any occurrence of `u`, order kept.
pub open spec fn without(s: Seq<u64>, u: u64) -> Seq<u64>
    decreases s.len(),
{
    if s.len() == 0 {
        s
    } else if s.last() == u {
        without(s.drop_last(), u)
    } else {
        without(s.drop_last(), u).push(s.last())
    }
}

proof fn lemma_drop_last_contains(s: Seq<u64>)
    requires
        s.len() > 0,
    ensures
        forall|x: u64| #[trigger] s.contains(x) <==> s.drop_last().contains(x) || x == s.last(),
{
    let t = s.drop_last();
    assert forall|x: u64| #[trigger] s.contains(x) <==> t.contains(x) || x == s.last() by {
        if s.contains(x) && x != s.last() {
            let i = choose|i: int| 0 <= i < s.len() && s[i] == x;
            assert(t[i] == x);
        }
        if t.contains(x) {
            let i = choose|i: int| 0 <= i < t.len() && t[i] == x;
            assert(s[i] == x);
        }
        if x == s.last() {
            assert(s[s.len() - 1] == x);
        }
    }
}

proof fn lemma_without(s: Seq<u64>, u: u64)
    requires
        s.no_duplicates(),
        s.contains(u),
    ensures
        without(s, u).no_duplicates(),
        without(s, u).len() == s.len() - 1,
    decreases s.len(),
{
    let t = s.drop_last();
    lemma_drop_last_contains(s);
    assert(t.no_duplicates());
    if s.last() == u {
        assert(!t.contains(u)) by {
            if t.contains(u) {
                let i = choose|i: int| 0 <= i < t.len() && t[i] == u;
                assert(s[i] == s[s.len() - 1]);
            }
        }
        lemma_without_absent(t, u);
    } else {
        lemma_without(t, u);
        lemma_without_contains(t, u);
        let w = without(t, u);
        assert(!t.contains(s.last())) by {
            if t.contains(s.last()) {
                let i = choose|i: int| 0 <= i < t.len() && t[i] == s.last();
                assert(s[i] == s[s.len() - 1]);
            }
        }
        assert(!w.contains(s.last()));
        assert forall|i: int, j: int|
            0 <= i < j < w.len() + 1 implies #[trigger] w.push(s.last())[i] != #[trigger] w.push(
                s.last(),
            )[j] by {
            if j == w.len() {
                assert(w[i] != s.last());
            }
        }
    }
}

proof fn lemma_without_contains(s: Seq<u64>, u: u64)
    ensures
        forall|x: u64| #[trigger] without(s, u).contains(x) <==> s.contains(x) && x != u,
    decreases s.len(),
{
    if s.len() > 0 {
        let t = s.drop_last();
        lemma_without_contains(t, u);
        lemma_drop_last_contains(s);
        if s.last() != u {
            let w = without(t, u);
            lemma_drop_last_contains(w.push(s.last()));
            assert(w.push(s.last()).drop_last() =~= w);
        }
    }
}

proof fn lemma_without_absent(s: Seq<u64>, u: u64)
    requires
        !s.contains(u),
    ensures
        without(s, u) == s,
    decreases s.len(),
{
    if s.len() > 0 {
        let t = s.drop_last();
        assert(!t.contains(u)) by {
            if t.contains(u) {
                let i = choose|i: int| 0 <= i < t.len() && t[i] == u;
                assert(s[i] == u);
            }
        }
        lemma_without_absent(t, u);
        assert(s.last() != u) by {
            assert(s[s.len() - 1] == s.last());
        }
        assert(t.push(s.last()) =~= s);
    }
}

/// The rooms and their members, members in the order they joined.
pub struct Hall {
    pub rooms: HashMap<usize, Vec<u64>>,
    pub belongs: HashMap<u64, usize>,
}

impl Hall {
    /// The members of each room.
    pub open spec fn members(&self) -> Map<usize, Seq<u64>> {
        self.rooms@.map_values(|v: Vec<u64>| v@)
    }

    /// Every room has one to four distinct members, and a user is in the
    /// room `belongs` gives exactly when that room lists the user.
    pub open spec fn wf(&self) -> bool {
        &&& forall|r: usize| #[trigger]
            self.rooms@.contains_key(r) ==> 1 <= self.rooms@[r]@.len() <= 4
                && self.rooms@[r]@.no_duplicates()
        &&& forall|u: u64| #[trigger]
            self.belongs@.contains_key(u) ==> self.rooms@.contains_key(self.belongs@[u])
                && self.rooms@[self.belongs@[u]]@.contains(u)
        &&& forall|r: usize, u: u64|
            self.rooms@.contains_key(r) && #[trigger] self.rooms@[r]@.contains(u)
                ==> self.belongs@.contains_key(u) && self.belongs@[u] == r
    }

    /// An empty lobby.
    pub fn new() -> (r: Hall)
        ensures
            r.wf(),
            r.rooms@.is_empty(),
            r.belongs@.is_empty(),
    {
        Hall { rooms: HashMap::new(), belongs: HashMap::new() }
    }

    /// The members of room `room_id`; none when it does not exist.
    pub open spec fn members_of(&self, room_id: usize) -> Seq<u64> {
        if self.rooms@.contains_key(room_id) {
            self.rooms@[room_id]@
        } else {
            Seq::empty()
        }
    }

    /// Whether `uid` is a member of room `room_id`.
    pub open spec fn is_member(&self, room_id: usize, uid: u64) -> bool {
        self.belongs@.contains_key(uid) && self.belongs@[uid] == room_id
    }

    /// User `uid` joins room `room_id`, which is created if it does not
    /// exist. Fails, changing nothing, when the user is already in a room or
    /// the room is full.
    pub fn room_join(&mut self, room_id: usize, uid: u64) -> (r: Result<(), AppError>)
        requires
            old(self).wf(),
        ensures
            final(self).wf(),
            old(self).belongs@.contains_key(uid) ==> r == Err::<(), AppError>(
                AppError::UserAlreadyInRoom(old(self).belongs@[uid]),
            ),
            !old(self).belongs@.contains_key(uid) && old(self).members_of(room_id).len() >= 4
                ==> r == Err::<(), AppError>(AppError::RoomAlreadyFull),
            r is Err ==> final(self).rooms@ == old(self).rooms@ && final(self).belongs@ == old(
                self,
            ).belongs@,
            !old(self).belongs@.contains_key(uid) && old(self).members_of(room_id).len() < 4 ==> {
                &&& r is Ok
                &&& final(self).members() == old(self).members().insert(
                    room_id,
                    old(self).members_of(room_id).push(uid),
                )
                &&& final(self).belongs@ == old(self).belongs@.insert(uid, room_id)
            },
    {
        broadcast use group_hash_axioms;

        match self.belongs.get(&uid) {
            Some(r) => {
                return Err(AppError::UserAlreadyInRoom(*r));
            },
            None => {},
        }
        let ghost old_hall = *self;
        let players = match self.rooms.remove(&room_id) {
            Some(players) => players,
            None => Vec::new(),
        };
        if players.len() >= 4 {
            self.rooms.insert(room_id, players);
            assert(self.rooms@ =~= old_hall.rooms@);
            return Err(AppError::RoomAlreadyFull);
        }
        let mut players = players;
        assert(!players@.contains(uid));
        players.push(uid);
        self.rooms.insert(room_id, players);
        self.belongs.insert(uid, room_id);
        assert(self.members() =~= old_hall.members().insert(
            room_id,
            old_hall.members_of(room_id).push(uid),
        ));
        let ghost m = old_hall.members_of(room_id);
        assert forall|u: u64| #[trigger] m.push(uid).contains(u) <==> m.contains(u) || u == uid by {
            if m.push(uid).contains(u) && u != uid {
                let i = choose|i: int| 0 <= i < m.len() + 1 && m.push(uid)[i] == u;
                assert(m[i] == u);
            }
            if m.contains(u) {
                let i = choose|i: int| 0 <= i < m.len() && m[i] == u;
                assert(m.push(uid)[i] == u);
            }
            if u == uid {
                assert(m.push(uid)[m.len() as int] == u);
            }
        }
        assert forall|u: u64| #[trigger]
            self.belongs@.contains_key(u) implies self.rooms@.contains_key(self.belongs@[u])
                && self.rooms@[self.belongs@[u]]@.contains(u) by {
            if u != uid {
                assert(old_hall.belongs@.contains_key(u));
            }
        }
        assert forall|r: usize, u: u64|
            self.rooms@.contains_key(r) && #[trigger] self.rooms@[r]@.contains(u)
                implies self.belongs@.contains_key(u) && self.belongs@[u] == r by {
            if r != room_id {
                assert(old_hall.rooms@[r]@.contains(u));
                if u == uid {
                    assert(old_hall.belongs@.contains_key(u));
                }
            } else if u != uid {
                assert(m.contains(u));
                assert(old_hall.rooms@[r]@.contains(u));
            }
        }
        assert(!m.contains(uid));
        assert forall|i: int, j: int|
            0 <= i < j < m.len() + 1 implies #[trigger] m.push(uid)[i] != #[trigger] m.push(uid)[j] by {
            if j == m.len() {
                assert(m.contains(m[i]));
            }
        }
        Ok(())
    }

    /// User `uid` leaves room `room_id`; a room left empty is removed.
    /// Fails, changing nothing, when the room does not exist or the user is
    /// not in it.
    pub fn room_leave(&mut self, room_id: usize, uid: u64) -> (r: Result<(), AppError>)
        requires
            old(self).wf(),
        ensures
            final(self).wf(),
            !old(self).rooms@.contains_key(room_id) ==> r == Err::<(), AppError>(
                AppError::RoomNotExist,
            ),
            old(self).rooms@.contains_key(room_id) && !old(self).is_member(room_id, uid) ==> r
                == Err::<(), AppError>(AppError::UserNotInRoom),
            r is Err ==> final(self).rooms@ == old(self).rooms@ && final(self).belongs@ == old(
                self,
            ).belongs@,
            old(self).rooms@.contains_key(room_id) && old(self).is_member(room_id, uid) ==> {
                let rest = without(old(self).members_of(room_id), uid);
                &&& r is Ok
                &&& final(self).belongs@ == old(self).belongs@.remove(uid)
                &&& final(self).members() == if rest.len() == 0 {
                    old(self).members().remove(room_id)
                } else {
                    old(self).members().insert(room_id, rest)
                }
            },
    {
        broadcast use group_hash_axioms;

        if !self.rooms.contains_key(&room_id) {
            return Err(AppError::RoomNotExist);
        }
        match self.belongs.get(&uid) {
            Some(r) => {
                if *r != room_id {
                    return Err(AppError::UserNotInRoom);
                }
            },
            None => {
                return Err(AppError::UserNotInRoom);
            },
        }
        let ghost old_hall = *self;
        self.belongs.remove(&uid);
        let players = match self.rooms.remove(&room_id) {
            Some(players) => players,
            None => Vec::new(),
        };
        proof {
            lemma_without(players@, uid);
            lemma_without_contains(players@, uid);
        }
        let rest = remove_member(&players, uid);
        if rest.len() > 0 {
            self.rooms.insert(room_id, rest);
            assert(self.members() =~= old_hall.members().insert(room_id, rest@));
        } else {
            assert(self.members() =~= old_hall.members().remove(room_id));
        }
        Ok(())
    }

    /// The four members of room `room_id`, in the order they joined, for
    /// user `uid`, a member, to start a game with. Fails when the room does
    /// not exist, the user is not in it, or it does not hold four users.
    pub fn room_start(&self, room_id: usize, uid: u64) -> (r: Result<[u64; 4], AppError>)
        requires
            self.wf(),
        ensures
            !self.rooms@.contains_key(room_id) ==> r == Err::<[u64; 4], AppError>(
                AppError::RoomNotExist,
            ),
            self.rooms@.contains_key(room_id) && !self.is_member(room_id, uid) ==> r == Err::<
                [u64; 4],
                AppError,
            >(AppError::UserNotInRoom),
            self.rooms@.contains_key(room_id) && self.is_member(room_id, uid) && self.members_of(
                room_id,
            ).len() != 4 ==> r == Err::<[u64; 4], AppError>(AppError::RoomNotFull),
            self.rooms@.contains_key(room_id) && self.is_member(room_id, uid) && self.members_of(
                room_id,
            ).len() == 4 ==> (r matches Ok(players) && players@ == self.members_of(room_id)),
    {
        broadcast use group_hash_axioms;

        if !self.rooms.contains_key(&room_id) {
            return Err(AppError::RoomNotExist);
        }
        match self.belongs.get(&uid) {
            Some(r) => {
                if *r != room_id {
                    return Err(AppError::UserNotInRoom);
                }
            },
            None => {
                return Err(AppError::UserNotInRoom);
            },
        }
        match self.rooms.get(&room_id) {
            Some(players) => {
                if players.len() != 4 {
                    return Err(AppError::RoomNotFull);
                }
                let r = [players[0], players[1], players[2], players[3]];
                assert(r@ =~= players@);
                Ok(r)
            },
            None => Err(AppError::RoomNotExist),
        }
    }
}

/// `players` without `uid`, order kept.
fn remove_member(players: &Vec<u64>, uid: u64) -> (r: Vec<u64>)
    ensures
        r@ == without(players@, uid),
{
    let mut rest: Vec<u64> = Vec::new();
    let mut i: usize = 0;
    while i < players.len()
        invariant
            i <= players@.len(),
            rest@ == without(players@.subrange(0, i as int), uid),
        decreases players@.len() - i,
    {
        assert(players@.subrange(0, i + 1).drop_last() =~= players@.subrange(0, i as int));
        if players[i] != uid {
            rest.push(players[i]);
        }
        i = i + 1;
    }
    assert(players@.subrange(0, players@.len() as int) =~= players@);
    rest
}

} // verus!
