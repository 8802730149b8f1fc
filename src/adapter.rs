use std::time::Duration;
use vstd::prelude::*;

verus! {

/// A room is named by a string.
pub type Room = String;

/// Flags that change how a broadcast selects its targets.
#[derive(Debug, Clone, Copy, Hash, PartialEq, Eq)]
pub enum BroadcastFlags {
    Local,
    Broadcast,
    Timeout(Duration),
}

/// A query describing who receives a broadcast.
pub struct BroadcastOptions {
    /// Flags of the query, read as a set.
    pub flags: Vec<BroadcastFlags>,
    /// Rooms to target; empty means "no room restriction".
    pub rooms: Vec<Room>,
    /// Rooms whose members are excluded.
    pub except: Vec<Room>,
    /// The originating socket, or the sole target when no rooms are given.
    pub sid: i64,
}

/// Views of a list of rooms.
pub open spec fn room_names(rooms: Seq<Room>) -> Seq<Seq<char>> {
    rooms.map_values(|r: Room| r@)
}

impl BroadcastOptions {
    pub open spec fn spec_is_broadcast(&self) -> bool {
        self.flags@.contains(BroadcastFlags::Broadcast)
    }

    /// Whether the `Broadcast` flag is set.
    pub fn is_broadcast(&self) -> (r: bool)
        ensures
            r == self.spec_is_broadcast(),
    {
        let mut i: usize = 0;
        while i < self.flags.len()
            invariant
                i <= self.flags@.len(),
                forall|k: int| 0 <= k < i ==> self.flags@[k] != BroadcastFlags::Broadcast,
            decreases self.flags@.len() - i,
        {
            match self.flags[i] {
                BroadcastFlags::Broadcast => {
                    return true;
                },
                _ => {},
            }
            i = i + 1;
        }
        false
    }

    /// The duration of the first `Timeout` flag, if any.
    pub fn ack_timeout(&self) -> (r: Option<Duration>)
        ensures
            r == first_timeout(self.flags@),
    {
        let mut i: usize = 0;
        proof {
            assert(self.flags@.skip(0) == self.flags@);
        }
        while i < self.flags.len()
            invariant
                i <= self.flags@.len(),
                first_timeout(self.flags@) == first_timeout(self.flags@.skip(i as int)),
            decreases self.flags@.len() - i,
        {
            proof {
                assert(self.flags@.skip(i as int).drop_first() == self.flags@.skip(i + 1));
            }
            match self.flags[i] {
                BroadcastFlags::Timeout(d) => {
                    return Some(d);
                },
                _ => {},
            }
            i = i + 1;
        }
        proof {
            assert(self.flags@.skip(i as int).len() == 0);
        }
        None
    }
}

/// The duration carried by the first `Timeout` flag of `flags`.
pub open spec fn first_timeout(flags: Seq<BroadcastFlags>) -> Option<Duration>
    decreases flags.len(),
{
    if flags.len() == 0 {
        None
    } else {
        match flags[0] {
            BroadcastFlags::Timeout(d) => Some(d),
            _ => first_timeout(flags.drop_first()),
        }
    }
}

impl Default for BroadcastOptions {
    fn default() -> (r: Self)
        ensures
            r.flags@.len() == 0,
            r.rooms@.len() == 0,
            r.except@.len() == 0,
            r.sid == -1,
    {
        BroadcastOptions { flags: Vec::new(), rooms: Vec::new(), except: Vec::new(), sid: -1 }
    }
}


/// The set of pairs `(room, sid)` with `room` named in `rooms`.
pub open spec fn pairs_for(rooms: Seq<Room>, sid: i64) -> Set<(Seq<char>, i64)> {
    Set::new(|p: (Seq<char>, i64)| p.1 == sid && room_names(rooms).contains(p.0))
}

/// Whether some room named in `rooms` holds `sid` in the membership relation `m`.
pub open spec fn in_some_room(m: Set<(Seq<char>, i64)>, rooms: Seq<Room>, sid: i64) -> bool {
    exists|k: int| 0 <= k < rooms.len() && #[trigger] m.contains((rooms[k]@, sid))
}

/// The rooms that hold `sid` in the membership relation `m`.
pub open spec fn rooms_of(m: Set<(Seq<char>, i64)>, sid: i64) -> Set<Seq<char>> {
    Set::new(|r: Seq<char>| m.contains((r, sid)))
}

/// Whether socket `s` is a target of `opts` against the membership relation `m`:
/// room targeting first, then a namespace-wide broadcast, then the single socket `opts.sid`.
pub open spec fn targeted(m: Set<(Seq<char>, i64)>, opts: &BroadcastOptions, s: i64) -> bool {
    let excluded = in_some_room(m, opts.except@, s);
    if opts.rooms@.len() > 0 {
        in_some_room(m, opts.rooms@, s) && !excluded && !(opts.spec_is_broadcast() && s == opts.sid)
    } else if opts.spec_is_broadcast() {
        !excluded
    } else {
        s == opts.sid
    }
}

/// The connected sockets, in order, that `opts` selects.
pub open spec fn targets(m: Set<(Seq<char>, i64)>, opts: &BroadcastOptions, connected: Seq<i64>) -> Seq<i64> {
    connected.filter(|s: i64| targeted(m, opts, s))
}

/// The in-process adapter: a registry of room memberships.
pub struct LocalAdapter {
    members: Vec<(Room, i64)>,
}

impl View for LocalAdapter {
    type V = Set<(Seq<char>, i64)>;

    /// The membership relation: `(room, sid)` for each socket in each room.
    closed spec fn view(&self) -> Set<(Seq<char>, i64)> {
        Set::new(
            |p: (Seq<char>, i64)|
                exists|i: int|
                    0 <= i < self.members@.len() && #[trigger] self.members@[i].0@ == p.0
                        && self.members@[i].1 == p.1,
        )
    }
}

impl LocalAdapter {
    /// Each pair is stored once.
    pub closed spec fn wf(&self) -> bool {
        forall|i: int, j: int|
            0 <= i < j < self.members@.len() ==> (#[trigger] self.members@[i]).0@
                != (#[trigger] self.members@[j]).0@ || self.members@[i].1 != self.members@[j].1
    }

    /// An empty registry.
    pub fn new() -> (r: Self)
        ensures
            r.wf(),
            r@ == Set::<(Seq<char>, i64)>::empty(),
    {
        let r = LocalAdapter { members: Vec::new() };
        proof {
            assert(r@ =~= Set::<(Seq<char>, i64)>::empty());
        }
        r
    }

    /// Lifecycle hook; nothing to do in process.
    pub fn init(&self) {
    }

    /// Lifecycle hook; nothing to do in process.
    pub fn close(&self) {
    }

    /// The number of servers sharing this room state.
    pub fn server_count(&self) -> (r: u16)
        ensures
            r == 1,
    {
        1
    }

    /// Whether `room` holds `sid`.
    fn contains_pair(&self, room: &Room, sid: i64) -> (r: bool)
        ensures
            r == self@.contains((room@, sid)),
    {
        let mut i: usize = 0;
        while i < self.members.len()
            invariant
                i <= self.members@.len(),
                forall|k: int|
                    0 <= k < i ==> !(#[trigger] self.members@[k].0@ == room@ && self.members@[k].1
                        == sid),
            decreases self.members@.len() - i,
        {
            if self.members[i].1 == sid && self.members[i].0 == *room {
                return true;
            }
            i = i + 1;
        }
        false
    }

    /// Whether some room of `rooms` holds `sid`.
    fn in_any(&self, rooms: &Vec<Room>, sid: i64) -> (r: bool)
        ensures
            r == in_some_room(self@, rooms@, sid),
    {
        let mut k: usize = 0;
        while k < rooms.len()
            invariant
                k <= rooms@.len(),
                forall|j: int| 0 <= j < k ==> !(#[trigger] self@.contains((rooms@[j]@, sid))),
            decreases rooms@.len() - k,
        {
            if self.contains_pair(&rooms[k], sid) {
                return true;
            }
            k = k + 1;
        }
        false
    }

    /// Puts `sid` in `room`, creating the room if needed.
    fn add_one(&mut self, sid: i64, room: &Room)
        requires
            old(self).wf(),
        ensures
            final(self).wf(),
            final(self)@ == old(self)@.insert((room@, sid)),
    {
        if !self.contains_pair(room, sid) {
            let ghost before = self.members@;
            self.members.push((room.clone(), sid));
            proof {
                let after = self.members@;
                assert forall|p: (Seq<char>, i64)| #[trigger] self@.contains(p) == old(self)@.insert((room@, sid)).contains(p) by {
                    if old(self)@.contains(p) {
                        let i = choose|i: int| 0 <= i < before.len() && #[trigger] before[i].0@ == p.0 && before[i].1 == p.1;
                        assert(after[i] == before[i]);
                    }
                    if p == (room@, sid) {
                        assert(after[before.len() as int].0@ == p.0);
                    }
                    if self@.contains(p) && p != (room@, sid) {
                        let i = choose|i: int| 0 <= i < after.len() && #[trigger] after[i].0@ == p.0 && after[i].1 == p.1;
                        assert(i < before.len());
                        assert(before[i] == after[i]);
                    }
                }
                assert(self@ =~= old(self)@.insert((room@, sid)));
            }
        } else {
            proof {
                assert(old(self)@.insert((room@, sid)) =~= old(self)@);
            }
        }
    }

    /// Adds `sid` to each room of `rooms`.
    fn add_rooms(&mut self, sid: i64, rooms: &Vec<Room>)
        requires
            old(self).wf(),
        ensures
            final(self).wf(),
            final(self)@ == old(self)@.union(pairs_for(rooms@, sid)),
    {
        let mut k: usize = 0;
        while k < rooms.len()
            invariant
                k <= rooms@.len(),
                self.wf(),
                self@ == old(self)@.union(pairs_for(rooms@.take(k as int), sid)),
            decreases rooms@.len() - k,
        {
            self.add_one(sid, &rooms[k]);
            proof {
                assert(rooms@.take(k + 1) == rooms@.take(k as int).push(rooms@[k as int]));
                let prev = room_names(rooms@.take(k as int));
                assert(room_names(rooms@.take(k + 1)) == prev.push(rooms@[k as int]@));
                assert forall|r: Seq<char>| #[trigger] prev.push(rooms@[k as int]@).contains(r) == (prev.contains(r) || r == rooms@[k as int]@) by {
                    if prev.contains(r) {
                        let j = choose|j: int| 0 <= j < prev.len() && prev[j] == r;
                        assert(prev.push(rooms@[k as int]@)[j] == r);
                    }
                    if r == rooms@[k as int]@ {
                        assert(prev.push(rooms@[k as int]@)[prev.len() as int] == r);
                    }
                }
                assert(pairs_for(rooms@.take(k + 1), sid) =~= pairs_for(rooms@.take(k as int), sid).insert((rooms@[k as int]@, sid)));
                assert(self@ =~= old(self)@.union(pairs_for(rooms@.take(k + 1), sid)));
            }
            k = k + 1;
        }
        proof {
            assert(rooms@.take(k as int) == rooms@);
        }
    }

    /// Adds `sid` to each room of `rooms`, creating the rooms that are absent.
    pub fn add_all(&mut self, sid: i64, rooms: Vec<Room>)
        requires
            old(self).wf(),
        ensures
            final(self).wf(),
            final(self)@ == old(self)@.union(pairs_for(rooms@, sid)),
    {
        self.add_rooms(sid, &rooms);
    }

    /// Whether `room` is named in `rooms`.
    fn named_in(rooms: &Vec<Room>, room: &Room) -> (r: bool)
        ensures
            r == room_names(rooms@).contains(room@),
    {
        let mut k: usize = 0;
        while k < rooms.len()
            invariant
                k <= rooms@.len(),
                forall|j: int| 0 <= j < k ==> rooms@[j]@ != room@,
            decreases rooms@.len() - k,
        {
            if rooms[k] == *room {
                proof {
                    assert(room_names(rooms@)[k as int] == room@);
                }
                return true;
            }
            k = k + 1;
        }
        false
    }

    /// Removes the pairs of `sid` whose room is named in `rooms`, or all of them when `every`.
    #[verifier::rlimit(40)]
    fn remove_pairs(&mut self, sid: i64, rooms: &Vec<Room>, every: bool)
        requires
            old(self).wf(),
        ensures
            final(self).wf(),
            final(self)@ == old(self)@.filter(|p: (Seq<char>, i64)| !dropped(p, sid, rooms@, every)),
    {
        let ghost before = self.members@;
        let mut kept: Vec<(Room, i64)> = Vec::new();
        let mut i: usize = 0;
        while i < self.members.len()
            invariant
                self.members@ == before,
                old(self).members@ == before,
                old(self).wf(),
                i <= before.len(),
                forall|j: int| #![trigger kept@[j]] 0 <= j < kept@.len() ==> exists|a: int|
                    0 <= a < i && kept@[j] == #[trigger] before[a] && !dropped((before[a].0@, before[a].1), sid, rooms@, every),
                forall|a: int| #![trigger before[a]] 0 <= a < i && !dropped((before[a].0@, before[a].1), sid, rooms@, every)
                    ==> exists|j: int| 0 <= j < kept@.len() && #[trigger] kept@[j] == before[a],
                forall|x: int, y: int|
                    0 <= x < y < kept@.len() ==> (#[trigger] kept@[x]).0@ != (#[trigger] kept@[y]).0@
                        || kept@[x].1 != kept@[y].1,
            decreases before.len() - i,
        {
            let s = self.members[i].1;
            let drop = s == sid && (every || Self::named_in(rooms, &self.members[i].0));
            if !drop {
                let ghost kb = kept@;
                kept.push((self.members[i].0.clone(), s));
                proof {
                    assert(kept@[kb.len() as int] == before[i as int]);
                    assert forall|j: int| 0 <= j < kb.len() implies #[trigger] kept@[j] == kb[j] by {}
                    assert forall|x: int| 0 <= x < kb.len() implies (#[trigger] kept@[x]).0@ != before[i as int].0@
                        || kept@[x].1 != before[i as int].1 by {
                        let a = choose|a: int| 0 <= a < i && kb[x] == #[trigger] before[a] && !dropped((before[a].0@, before[a].1), sid, rooms@, every);
                        assert(old(self).members@[a] == before[a]);
                        assert(old(self).members@[i as int] == before[i as int]);
                    }
                    assert forall|a: int| #![trigger before[a]] 0 <= a <= i && !dropped((before[a].0@, before[a].1), sid, rooms@, every)
                        implies exists|j: int| 0 <= j < kept@.len() && #[trigger] kept@[j] == before[a] by {
                        if a < i {
                            let j = choose|j: int| 0 <= j < kb.len() && #[trigger] kb[j] == before[a];
                            assert(kept@[j] == before[a]);
                        } else {
                            assert(kept@[kb.len() as int] == before[a]);
                        }
                    }
                }
            }
            i = i + 1;
        }
        self.members = kept;
        proof {
            assert forall|p: (Seq<char>, i64)| #[trigger] self@.contains(p) == old(self)@.filter(|p: (Seq<char>, i64)| !dropped(p, sid, rooms@, every)).contains(p) by {
                if self@.contains(p) {
                    let j = choose|j: int| 0 <= j < self.members@.len() && #[trigger] self.members@[j].0@ == p.0 && self.members@[j].1 == p.1;
                    let a = choose|a: int| 0 <= a < i && kept@[j] == #[trigger] before[a] && !dropped((before[a].0@, before[a].1), sid, rooms@, every);
                    assert(old(self).members@[a].0@ == p.0);
                }
                if old(self)@.contains(p) && !dropped(p, sid, rooms@, every) {
                    let a = choose|a: int| 0 <= a < before.len() && #[trigger] old(self).members@[a].0@ == p.0 && old(self).members@[a].1 == p.1;
                    assert(before[a] == old(self).members@[a]);
                    let j = choose|j: int| 0 <= j < kept@.len() && #[trigger] kept@[j] == before[a];
                    assert(self.members@[j].0@ == p.0);
                }
            }
            assert(self@ =~= old(self)@.filter(|p: (Seq<char>, i64)| !dropped(p, sid, rooms@, every)));
        }
    }

    /// Removes `sid` from each room of `rooms`; rooms that do not exist are skipped.
    pub fn del(&mut self, sid: i64, rooms: Vec<Room>)
        requires
            old(self).wf(),
        ensures
            final(self).wf(),
            final(self)@ == old(self)@.difference(pairs_for(rooms@, sid)),
    {
        self.remove_pairs(sid, &rooms, false);
        proof {
            assert(self@ =~= old(self)@.difference(pairs_for(rooms@, sid)));
        }
    }

    /// Removes `sid` from every room.
    pub fn del_all(&mut self, sid: i64)
        requires
            old(self).wf(),
        ensures
            final(self).wf(),
            final(self)@ == old(self)@.filter(|p: (Seq<char>, i64)| p.1 != sid),
    {
        let none: Vec<Room> = Vec::new();
        self.remove_pairs(sid, &none, true);
        proof {
            assert(self@ =~= old(self)@.filter(|p: (Seq<char>, i64)| p.1 != sid));
        }
    }

    /// The rooms that currently hold `sid`, each once.
    #[verifier::rlimit(40)]
    pub fn socket_rooms(&self, sid: i64) -> (r: Vec<Room>)
        requires
            self.wf(),
        ensures
            room_names(r@).to_set() == rooms_of(self@, sid),
            room_names(r@).no_duplicates(),
    {
        let mut r: Vec<Room> = Vec::new();
        let ghost src: Seq<int> = Seq::empty();
        let mut i: usize = 0;
        while i < self.members.len()
            invariant
                self.wf(),
                i <= self.members@.len(),
                src.len() == r@.len(),
                forall|j: int| 0 <= j < r@.len() ==> 0 <= #[trigger] src[j] < i
                    && r@[j]@ == self.members@[src[j]].0@ && self.members@[src[j]].1 == sid,
                forall|a: int| #![trigger self.members@[a]] 0 <= a < i && self.members@[a].1 == sid
                    ==> exists|j: int| 0 <= j < r@.len() && #[trigger] r@[j]@ == self.members@[a].0@,
                forall|x: int, y: int| 0 <= x < y < r@.len() ==> (#[trigger] r@[x])@ != (#[trigger] r@[y])@,
            decreases self.members@.len() - i,
        {
            if self.members[i].1 == sid {
                let ghost rb = r@;
                r.push(self.members[i].0.clone());
                proof {
                    src = src.push(i as int);
                    assert(r@[rb.len() as int]@ == self.members@[i as int].0@);
                    assert forall|j: int| 0 <= j < rb.len() implies #[trigger] r@[j] == rb[j] by {}
                    assert forall|x: int| 0 <= x < rb.len() implies (#[trigger] r@[x])@ != self.members@[i as int].0@ by {
                        let a = src[x];
                        assert(self.members@[a].0@ != self.members@[i as int].0@ || self.members@[a].1 != self.members@[i as int].1);
                    }
                    assert forall|a: int| #![trigger self.members@[a]] 0 <= a <= i && self.members@[a].1 == sid
                        implies exists|j: int| 0 <= j < r@.len() && #[trigger] r@[j]@ == self.members@[a].0@ by {
                        if a < i {
                            let j = choose|j: int| 0 <= j < rb.len() && #[trigger] rb[j]@ == self.members@[a].0@;
                            assert(r@[j] == rb[j]);
                        } else {
                            assert(r@[rb.len() as int]@ == self.members@[a].0@);
                        }
                    }
                }
            }
            i = i + 1;
        }
        proof {
            let names = room_names(r@);
            assert forall|n: Seq<char>| #[trigger] names.to_set().contains(n) == rooms_of(self@, sid).contains(n) by {
                if names.to_set().contains(n) {
                    let j = choose|j: int| 0 <= j < names.len() && names[j] == n;
                    let a = src[j];
                    assert(self.members@[a].0@ == n);
                    assert(self@.contains((n, sid)));
                }
                if rooms_of(self@, sid).contains(n) {
                    let a = choose|a: int| 0 <= a < self.members@.len() && #[trigger] self.members@[a].0@ == n && self.members@[a].1 == sid;
                    let j = choose|j: int| 0 <= j < r@.len() && #[trigger] r@[j]@ == self.members@[a].0@;
                    assert(names[j] == n);
                }
            }
            assert(names.to_set() =~= rooms_of(self@, sid));
        }
        r
    }

    /// The sockets that are members of some room of `except`, each once.
    pub fn get_except_sids(&self, except: &Vec<Room>) -> (r: Vec<i64>)
        ensures
            forall|s: i64| #[trigger] r@.contains(s) == in_some_room(self@, except@, s),
            r@.no_duplicates(),
    {
        let mut r: Vec<i64> = Vec::new();
        let mut i: usize = 0;
        while i < self.members.len()
            invariant
                i <= self.members@.len(),
                r@.no_duplicates(),
                forall|s: i64| #[trigger] r@.contains(s) == exists|a: int| 0 <= a < i
                    && (#[trigger] self.members@[a]).1 == s && room_names(except@).contains(self.members@[a].0@),
            decreases self.members@.len() - i,
        {
            let s = self.members[i].1;
            let ghost rb = r@;
            let named = Self::named_in(except, &self.members[i].0);
            if named && !vec_has(&r, s) {
                r.push(s);
                proof {
                    assert(r@[rb.len() as int] == s);
                    assert forall|t: i64| #[trigger] r@.contains(t) == (rb.contains(t) || t == s) by {
                        if rb.contains(t) {
                            let j = choose|j: int| 0 <= j < rb.len() && rb[j] == t;
                            assert(r@[j] == t);
                        }
                    }
                }
            }
            proof {
                assert forall|t: i64| #[trigger] r@.contains(t) == exists|a: int| 0 <= a < i + 1
                    && (#[trigger] self.members@[a]).1 == t && room_names(except@).contains(self.members@[a].0@) by {
                    if r@.contains(t) && !rb.contains(t) {
                        assert(t == s && named);
                        assert(self.members@[i as int].1 == t);
                    }
                    if rb.contains(t) {
                        let a = choose|a: int| 0 <= a < i && (#[trigger] self.members@[a]).1 == t && room_names(except@).contains(self.members@[a].0@);
                        assert(r@.contains(t));
                    }
                    if t == s && named {
                        assert(r@.contains(t));
                    }
                    if exists|a: int| 0 <= a < i + 1 && (#[trigger] self.members@[a]).1 == t && room_names(except@).contains(self.members@[a].0@) {
                        let a = choose|a: int| 0 <= a < i + 1 && (#[trigger] self.members@[a]).1 == t && room_names(except@).contains(self.members@[a].0@);
                        if a < i {
                            assert(rb.contains(t));
                        }
                    }
                }
            }
            i = i + 1;
        }
        proof {
            assert forall|t: i64| #[trigger] r@.contains(t) == in_some_room(self@, except@, t) by {
                if r@.contains(t) {
                    let a = choose|a: int| 0 <= a < i && (#[trigger] self.members@[a]).1 == t && room_names(except@).contains(self.members@[a].0@);
                    let k = choose|k: int| 0 <= k < room_names(except@).len() && room_names(except@)[k] == self.members@[a].0@;
                    assert(self@.contains((except@[k]@, t)));
                }
                if in_some_room(self@, except@, t) {
                    let k = choose|k: int| 0 <= k < except@.len() && #[trigger] self@.contains((except@[k]@, t));
                    let a = choose|a: int| 0 <= a < self.members@.len() && #[trigger] self.members@[a].0@ == except@[k]@ && self.members@[a].1 == t;
                    assert(room_names(except@)[k] == self.members@[a].0@);
                }
            }
        }
        r
    }

    /// The connected sockets that `opts` selects, in the order of `connected`:
    /// members of the targeted rooms (minus excluded rooms, and minus `opts.sid` when
    /// broadcasting); else every connected socket outside the excluded rooms when
    /// broadcasting; else the socket `opts.sid` alone, if connected.
    pub fn apply_opts(&self, opts: BroadcastOptions, connected: &Vec<i64>) -> (r: Vec<i64>)
        ensures
            r@ == targets(self@, &opts, connected@),
    {
        let except = self.get_except_sids(&opts.except);
        let broadcast = opts.is_broadcast();
        let with_rooms = opts.rooms.len() > 0;
        let mut r: Vec<i64> = Vec::new();
        let mut i: usize = 0;
        while i < connected.len()
            invariant
                i <= connected@.len(),
                forall|s: i64| #[trigger] except@.contains(s) == in_some_room(self@, opts.except@, s),
                broadcast == opts.spec_is_broadcast(),
                with_rooms == (opts.rooms@.len() > 0),
                r@ == targets(self@, &opts, connected@.take(i as int)),
            decreases connected@.len() - i,
        {
            let s = connected[i];
            let hit = if with_rooms {
                self.in_any(&opts.rooms, s) && !vec_has(&except, s) && !(broadcast && s == opts.sid)
            } else if broadcast {
                !vec_has(&except, s)
            } else {
                s == opts.sid
            };
            if hit {
                r.push(s);
            }
            proof {
                let f = |t: i64| targeted(self@, &opts, t);
                assert(connected@.take(i + 1).drop_last() == connected@.take(i as int));
                assert(connected@.take(i + 1).last() == s);
                reveal(Seq::filter);
                assert(hit == targeted(self@, &opts, s));
            }
            i = i + 1;
        }
        proof {
            assert(connected@.take(i as int) == connected@);
        }
        r
    }

    /// The connected members of `rooms`.
    pub fn sockets(&self, rooms: Vec<Room>, connected: &Vec<i64>) -> (r: Vec<i64>)
        ensures
            r@ == connected@.filter(|s: i64| in_room_query(self@, rooms@, s)),
    {
        let ghost names = rooms@;
        let mut opts = BroadcastOptions::default();
        opts.rooms = rooms;
        let r = self.apply_opts(opts, connected);
        proof {
            assert forall|s: i64| targeted(self@, &opts, s) == in_room_query(self@, names, s) by {
                if opts.rooms@.len() > 0 {
                    assert(!opts.spec_is_broadcast());
                    assert(!in_some_room(self@, opts.except@, s));
                } else {
                    assert(!opts.spec_is_broadcast());
                }
            }
            assert((|s: i64| targeted(self@, &opts, s)) =~= (|s: i64| in_room_query(self@, names, s)));
        }
        r
    }

    /// The connected sockets that `opts` selects.
    pub fn fetch_sockets(&self, opts: BroadcastOptions, connected: &Vec<i64>) -> (r: Vec<i64>)
        ensures
            r@ == targets(self@, &opts, connected@),
    {
        self.apply_opts(opts, connected)
    }

    /// Adds each socket that `opts` selects to each room of `rooms`.
    pub fn add_sockets(&mut self, opts: BroadcastOptions, rooms: Vec<Room>, connected: &Vec<i64>)
        requires
            old(self).wf(),
        ensures
            final(self).wf(),
            final(self)@ == old(self)@.union(grid(targets(old(self)@, &opts, connected@), rooms@)),
    {
        let sids = self.apply_opts(opts, connected);
        let mut k: usize = 0;
        while k < sids.len()
            invariant
                k <= sids@.len(),
                self.wf(),
                self@ == old(self)@.union(grid(sids@.take(k as int), rooms@)),
            decreases sids@.len() - k,
        {
            self.add_rooms(sids[k], &rooms);
            proof {
                lemma_grid_step(sids@, k as int, rooms@);
                assert(self@ =~= old(self)@.union(grid(sids@.take(k + 1), rooms@)));
            }
            k = k + 1;
        }
        proof {
            assert(sids@.take(k as int) == sids@);
        }
    }

    /// Removes each socket that `opts` selects from each room of `rooms`.
    pub fn del_sockets(&mut self, opts: BroadcastOptions, rooms: Vec<Room>, connected: &Vec<i64>)
        requires
            old(self).wf(),
        ensures
            final(self).wf(),
            final(self)@ == old(self)@.difference(grid(targets(old(self)@, &opts, connected@), rooms@)),
    {
        let sids = self.apply_opts(opts, connected);
        let mut k: usize = 0;
        while k < sids.len()
            invariant
                k <= sids@.len(),
                self.wf(),
                self@ == old(self)@.difference(grid(sids@.take(k as int), rooms@)),
            decreases sids@.len() - k,
        {
            self.remove_pairs(sids[k], &rooms, false);
            proof {
                lemma_grid_step(sids@, k as int, rooms@);
                assert(self@ =~= old(self)@.difference(grid(sids@.take(k + 1), rooms@)));
            }
            k = k + 1;
        }
        proof {
            assert(sids@.take(k as int) == sids@);
        }
    }
}

/// The pairs `(room, sid)` with `sid` in `sids` and `room` named in `rooms`.
pub open spec fn grid(sids: Seq<i64>, rooms: Seq<Room>) -> Set<(Seq<char>, i64)> {
    Set::new(|p: (Seq<char>, i64)| sids.contains(p.1) && room_names(rooms).contains(p.0))
}

proof fn lemma_grid_step(sids: Seq<i64>, k: int, rooms: Seq<Room>)
    requires
        0 <= k < sids.len(),
    ensures
        grid(sids.take(k + 1), rooms) == grid(sids.take(k), rooms).union(pairs_for(rooms, sids[k])),
{
    assert(sids.take(k + 1) == sids.take(k).push(sids[k]));
    assert forall|t: i64| #[trigger] sids.take(k + 1).contains(t) == (sids.take(k).contains(t) || t == sids[k]) by {
        if sids.take(k).contains(t) {
            let j = choose|j: int| 0 <= j < k && sids.take(k)[j] == t;
            assert(sids.take(k + 1)[j] == t);
        }
        if t == sids[k] {
            assert(sids.take(k + 1)[k] == t);
        }
    }
    assert(grid(sids.take(k + 1), rooms) =~= grid(sids.take(k), rooms).union(pairs_for(rooms, sids[k])));
}

/// Whether `x` is an element of `v`.
fn vec_has(v: &Vec<i64>, x: i64) -> (r: bool)
    ensures
        r == v@.contains(x),
{
    let mut i: usize = 0;
    while i < v.len()
        invariant
            i <= v@.len(),
            forall|k: int| 0 <= k < i ==> v@[k] != x,
        decreases v@.len() - i,
    {
        if v[i] == x {
            return true;
        }
        i = i + 1;
    }
    false
}

/// Who a query by `rooms` alone selects: the members of those rooms, or, with no
/// rooms, the socket `-1`.
pub open spec fn in_room_query(m: Set<(Seq<char>, i64)>, rooms: Seq<Room>, s: i64) -> bool {
    if rooms.len() > 0 {
        in_some_room(m, rooms, s)
    } else {
        s == -1
    }
}

/// Whether the pair `p` goes when `sid` leaves `rooms` (or every room when `every`).
pub open spec fn dropped(p: (Seq<char>, i64), sid: i64, rooms: Seq<Room>, every: bool) -> bool {
    p.1 == sid && (every || room_names(rooms).contains(p.0))
}


/// Joining two distinct rooms puts a socket that was in none in exactly those two;
/// leaving the first leaves it in the second alone; leaving all leaves it in none.
pub proof fn room_membership_law(m: Set<(Seq<char>, i64)>, s: i64, a: Room, b: Room)
    requires
        rooms_of(m, s) == Set::<Seq<char>>::empty(),
        a@ != b@,
    ensures
        rooms_of(m.union(pairs_for(seq![a, b], s)), s) == set![a@, b@],
        rooms_of(m.union(pairs_for(seq![a, b], s)).difference(pairs_for(seq![a], s)), s) == set![b@],
        rooms_of(
            m.union(pairs_for(seq![a, b], s)).difference(pairs_for(seq![a], s)).filter(
                |p: (Seq<char>, i64)| p.1 != s,
            ),
            s,
        ) == Set::<Seq<char>>::empty(),
{
    let ab = seq![a, b];
    let aa = seq![a];
    assert(room_names(ab) =~= seq![a@, b@]);
    assert(room_names(aa) =~= seq![a@]);
    let m1 = m.union(pairs_for(ab, s));
    let m2 = m1.difference(pairs_for(aa, s));
    assert forall|r: Seq<char>| #[trigger] rooms_of(m1, s).contains(r) == (r == a@ || r == b@) by {
        assert(!m.contains((r, s)) || rooms_of(m, s).contains(r));
        assert(seq![a@, b@][0] == a@ && seq![a@, b@][1] == b@);
    }
    assert(rooms_of(m1, s) =~= set![a@, b@]);
    assert forall|r: Seq<char>| #[trigger] rooms_of(m2, s).contains(r) == (r == b@) by {
        assert(!m.contains((r, s)) || rooms_of(m, s).contains(r));
        assert(seq![a@, b@][0] == a@ && seq![a@, b@][1] == b@);
        assert(seq![a@][0] == a@);
    }
    assert(rooms_of(m2, s) =~= set![b@]);
    assert(rooms_of(m2.filter(|p: (Seq<char>, i64)| p.1 != s), s) =~= Set::<Seq<char>>::empty());
}

/// Without the `Broadcast` flag, a room query selects the connected sockets that are
/// in a targeted room and in no excluded room.
pub proof fn room_targeting_law(m: Set<(Seq<char>, i64)>, opts: &BroadcastOptions, connected: Seq<i64>)
    requires
        opts.rooms@.len() > 0,
        !opts.spec_is_broadcast(),
    ensures
        targets(m, opts, connected) == connected.filter(
            |s: i64| in_some_room(m, opts.rooms@, s) && !in_some_room(m, opts.except@, s),
        ),
{
    assert((|s: i64| targeted(m, opts, s)) =~= (|s: i64|
        in_some_room(m, opts.rooms@, s) && !in_some_room(m, opts.except@, s)));
}

/// In a room query the origin socket `opts.sid` is left out exactly when the
/// `Broadcast` flag is set: without it, a connected member of a targeted room that is
/// in no excluded room is selected even when it is the origin.
pub proof fn self_exclusion_law(m: Set<(Seq<char>, i64)>, opts: &BroadcastOptions, connected: Seq<i64>)
    requires
        opts.rooms@.len() > 0,
    ensures
        opts.spec_is_broadcast() ==> !targets(m, opts, connected).contains(opts.sid),
        !opts.spec_is_broadcast() && connected.contains(opts.sid) && in_some_room(m, opts.rooms@, opts.sid)
            && !in_some_room(m, opts.except@, opts.sid) ==> targets(m, opts, connected).contains(opts.sid),
{
    let f = |s: i64| targeted(m, opts, s);
    broadcast use vstd::seq_lib::group_filter_ensures;
    if !opts.spec_is_broadcast() && connected.contains(opts.sid) && in_some_room(m, opts.rooms@, opts.sid)
        && !in_some_room(m, opts.except@, opts.sid) {
        let i = choose|i: int| 0 <= i < connected.len() && connected[i] == opts.sid;
        assert(f(connected[i]));
    }
}

/// With no rooms and the `Broadcast` flag, every connected socket outside the excluded
/// rooms is selected.
pub proof fn namespace_broadcast_law(m: Set<(Seq<char>, i64)>, opts: &BroadcastOptions, connected: Seq<i64>)
    requires
        opts.rooms@.len() == 0,
        opts.spec_is_broadcast(),
    ensures
        targets(m, opts, connected) == connected.filter(|s: i64| !in_some_room(m, opts.except@, s)),
{
    assert((|s: i64| targeted(m, opts, s)) =~= (|s: i64| !in_some_room(m, opts.except@, s)));
}

} // verus!
