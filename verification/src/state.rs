//! The room registry of the signalling server and the ICE servers it was
//! configured with.
//!
//! A room is named by its password; each peer of a room is known by the id
//! its page chose and by the handle through which the server reaches it.
use vstd::prelude::*;

use crate::models::{strings_view, IceServer, ServerConfig};

verus! {

/// Rooms by name; in each room, the handle of each peer by peer id.
pub type RoomsView<T> = Map<Seq<char>, Map<Seq<char>, T>>;

/// The peers of `room`, or none when no such room is open.
pub open spec fn room_of<T>(rooms: RoomsView<T>, room: Seq<char>) -> Map<Seq<char>, T> {
    if rooms.contains_key(room) {
        rooms[room]
    } else {
        Map::empty()
    }
}

/// The registry after `peer` joins `room` with `handle`: the room is opened
/// if needed, and a peer that was there under the same id gets the new handle.
pub open spec fn joined<T>(rooms: RoomsView<T>, room: Seq<char>, peer: Seq<char>, handle: T) -> RoomsView<T> {
    rooms.insert(room, room_of(rooms, room).insert(peer, handle))
}

/// The registry after `peer` leaves `room`: a room left without peers is closed.
pub open spec fn left<T>(rooms: RoomsView<T>, room: Seq<char>, peer: Seq<char>) -> RoomsView<T> {
    if !rooms.contains_key(room) {
        rooms
    } else if rooms[room].remove(peer) == Map::<Seq<char>, T>::empty() {
        rooms.remove(room)
    } else {
        rooms.insert(room, rooms[room].remove(peer))
    }
}

/// Every open room has at least one peer.
pub open spec fn no_empty_room<T>(rooms: RoomsView<T>) -> bool {
    forall|room: Seq<char>| #[trigger] rooms.contains_key(room) ==> rooms[room] != Map::<Seq<char>, T>::empty()
}

/// The characters of each string of `ids` are exactly the peer ids of `peers`
/// other than `except`, each once.
pub open spec fn lists_peers_except<T>(ids: Seq<String>, peers: Map<Seq<char>, T>, except: Seq<char>) -> bool {
    &&& strings_view(ids).no_duplicates()
    &&& forall|id: Seq<char>| #[trigger] strings_view(ids).contains(id)
        <==> (peers.contains_key(id) && id != except)
}

/// A peer that joins a room it was not in and then leaves it leaves the
/// registry as it found it: the room is closed again if the peer opened it.
pub proof fn lemma_leave_undoes_join<T>(rooms: RoomsView<T>, room: Seq<char>, peer: Seq<char>, handle: T)
    requires
        no_empty_room(rooms),
        !room_of(rooms, room).contains_key(peer),
    ensures
        left(joined(rooms, room, peer, handle), room, peer) == rooms,
{
    let after = joined(rooms, room, peer, handle);
    assert(after.contains_key(room));
    assert(after[room].remove(peer) =~= room_of(rooms, room));
    if rooms.contains_key(room) {
        assert(rooms[room] != Map::<Seq<char>, T>::empty());
        assert(after.insert(room, room_of(rooms, room)) =~= rooms);
    } else {
        assert(room_of(rooms, room) =~= Map::<Seq<char>, T>::empty());
        assert(after.remove(room) =~= rooms);
    }
}

/// Joining and leaving keep every open room populated: a room is open
/// exactly while it has a peer.
pub proof fn lemma_rooms_stay_populated<T>(rooms: RoomsView<T>, room: Seq<char>, peer: Seq<char>, handle: T)
    requires
        no_empty_room(rooms),
    ensures
        no_empty_room(joined(rooms, room, peer, handle)),
        no_empty_room(left(rooms, room, peer)),
{
    let j = joined(rooms, room, peer, handle);
    assert forall|r: Seq<char>| #[trigger] j.contains_key(r) implies j[r] != Map::<Seq<char>, T>::empty() by {
        if r == room {
            assert(j[r].contains_key(peer));
        } else {
            assert(rooms.contains_key(r));
        }
    }
    let l = left(rooms, room, peer);
    assert forall|r: Seq<char>| #[trigger] l.contains_key(r) implies l[r] != Map::<Seq<char>, T>::empty() by {
        assert(rooms.contains_key(r));
    }
}

/// Joining or leaving one room changes no other room.
pub proof fn lemma_rooms_are_independent<T>(
    rooms: RoomsView<T>,
    room: Seq<char>,
    peer: Seq<char>,
    handle: T,
    other: Seq<char>,
)
    requires
        other != room,
    ensures
        room_of(joined(rooms, room, peer, handle), other) == room_of(rooms, other),
        room_of(left(rooms, room, peer), other) == room_of(rooms, other),
{
}

/// A peer that joins again under the same id is reached through the handle
/// it joined with last.
pub proof fn lemma_rejoin_replaces_handle<T>(
    rooms: RoomsView<T>,
    room: Seq<char>,
    peer: Seq<char>,
    first: T,
    second: T,
)
    ensures
        joined(joined(rooms, room, peer, first), room, peer, second) == joined(rooms, room, peer, second),
{
    let a = joined(joined(rooms, room, peer, first), room, peer, second);
    let b = joined(rooms, room, peer, second);
    assert(a[room] =~= b[room]);
    assert(a =~= b);
}

// ---------------------------------------------------------------------------
// Sequences of keyed entries, read as maps.

spec fn has_key<A>(s: Seq<A>, key: spec_fn(A) -> Seq<char>, k: Seq<char>) -> bool {
    exists|i: int| 0 <= i < s.len() && key(s[i]) == k
}

spec fn key_index<A>(s: Seq<A>, key: spec_fn(A) -> Seq<char>, k: Seq<char>) -> int {
    choose|i: int| 0 <= i < s.len() && key(s[i]) == k
}

spec fn keyed_map<A, V>(s: Seq<A>, key: spec_fn(A) -> Seq<char>, val: spec_fn(A) -> V) -> Map<Seq<char>, V> {
    Map::new(|k: Seq<char>| has_key(s, key, k), |k: Seq<char>| val(s[key_index(s, key, k)]))
}

spec fn distinct_keys<A>(s: Seq<A>, key: spec_fn(A) -> Seq<char>) -> bool {
    forall|i: int, j: int|
        #![trigger s[i], s[j]]
        0 <= i < s.len() && 0 <= j < s.len() && i != j ==> key(s[i]) != key(s[j])
}

proof fn lemma_keyed_at<A, V>(s: Seq<A>, key: spec_fn(A) -> Seq<char>, val: spec_fn(A) -> V, i: int)
    requires
        distinct_keys(s, key),
        0 <= i < s.len(),
    ensures
        keyed_map(s, key, val).contains_key(key(s[i])),
        keyed_map(s, key, val)[key(s[i])] == val(s[i]),
{
    assert(has_key(s, key, key(s[i])));
    let j = key_index(s, key, key(s[i]));
    assert(key(s[j]) == key(s[i]));
    assert(j == i);
}

proof fn lemma_keyed_remove<A, V>(s: Seq<A>, key: spec_fn(A) -> Seq<char>, val: spec_fn(A) -> V, i: int)
    requires
        distinct_keys(s, key),
        0 <= i < s.len(),
    ensures
        distinct_keys(s.remove(i), key),
        keyed_map(s.remove(i), key, val) == keyed_map(s, key, val).remove(key(s[i])),
{
    let r = s.remove(i);
    assert forall|a: int, b: int|
        #![trigger r[a], r[b]]
        0 <= a < r.len() && 0 <= b < r.len() && a != b implies key(r[a]) != key(r[b]) by {
        let a2 = if a < i { a } else { a + 1 };
        let b2 = if b < i { b } else { b + 1 };
        assert(r[a] == s[a2]);
        assert(r[b] == s[b2]);
        assert(s[a2] == s[a2] && s[b2] == s[b2]);
    }
    let m = keyed_map(s, key, val);
    let m2 = keyed_map(r, key, val);
    assert forall|k: Seq<char>| #[trigger] m2.contains_key(k) <==> m.remove(key(s[i])).contains_key(k) by {
        if m2.contains_key(k) {
            let a = choose|a: int| 0 <= a < r.len() && key(r[a]) == k;
            let a2 = if a < i { a } else { a + 1 };
            assert(r[a] == s[a2]);
            assert(s[a2] == s[a2] && s[i] == s[i]);
            assert(has_key(s, key, k));
        }
        if m.remove(key(s[i])).contains_key(k) {
            let a = choose|a: int| 0 <= a < s.len() && key(s[a]) == k;
            assert(a != i);
            let a2 = if a < i { a } else { a - 1 };
            assert(r[a2] == s[a]);
            assert(has_key(r, key, k));
        }
    }
    assert forall|k: Seq<char>| #[trigger] m2.contains_key(k) implies m2[k] == m.remove(key(s[i]))[k] by {
        let a = key_index(r, key, k);
        let a2 = if a < i { a } else { a + 1 };
        assert(r[a] == s[a2]);
        lemma_keyed_at(r, key, val, a);
        lemma_keyed_at(s, key, val, a2);
    }
    assert(m2 =~= m.remove(key(s[i])));
}

proof fn lemma_keyed_push<A, V>(s: Seq<A>, key: spec_fn(A) -> Seq<char>, val: spec_fn(A) -> V, x: A)
    requires
        distinct_keys(s, key),
        !has_key(s, key, key(x)),
    ensures
        distinct_keys(s.push(x), key),
        keyed_map(s.push(x), key, val) == keyed_map(s, key, val).insert(key(x), val(x)),
{
    let r = s.push(x);
    assert forall|a: int, b: int|
        #![trigger r[a], r[b]]
        0 <= a < r.len() && 0 <= b < r.len() && a != b implies key(r[a]) != key(r[b]) by {
        if a < s.len() && b < s.len() {
            assert(r[a] == s[a] && r[b] == s[b]);
        } else if a < s.len() {
            assert(r[a] == s[a]);
        } else {
            assert(r[b] == s[b]);
        }
    }
    let m = keyed_map(s, key, val);
    let m2 = keyed_map(r, key, val);
    assert forall|k: Seq<char>| #[trigger] m2.contains_key(k) <==> m.insert(key(x), val(x)).contains_key(k) by {
        if m2.contains_key(k) {
            let a = choose|a: int| 0 <= a < r.len() && key(r[a]) == k;
            if a < s.len() {
                assert(r[a] == s[a]);
                assert(has_key(s, key, k));
            }
        }
        if m.contains_key(k) {
            let a = choose|a: int| 0 <= a < s.len() && key(s[a]) == k;
            assert(r[a] == s[a]);
            assert(has_key(r, key, k));
        }
        if k == key(x) {
            assert(r[s.len() as int] == x);
            assert(has_key(r, key, k));
        }
    }
    assert forall|k: Seq<char>| #[trigger] m2.contains_key(k) implies m2[k] == m.insert(key(x), val(x))[k] by {
        let a = key_index(r, key, k);
        lemma_keyed_at(r, key, val, a);
        if a < s.len() {
            assert(r[a] == s[a]);
            lemma_keyed_at(s, key, val, a);
        } else {
            assert(r[a] == x);
        }
    }
    assert(m2 =~= m.insert(key(x), val(x)));
}

proof fn lemma_keyed_empty<A, V>(s: Seq<A>, key: spec_fn(A) -> Seq<char>, val: spec_fn(A) -> V)
    ensures
        s.len() == 0 <==> keyed_map(s, key, val) == Map::<Seq<char>, V>::empty(),
{
    if s.len() == 0 {
        assert(keyed_map(s, key, val) =~= Map::<Seq<char>, V>::empty());
    } else {
        assert(has_key(s, key, key(s[0])));
        assert(keyed_map(s, key, val).contains_key(key(s[0])));
    }
}

// ---------------------------------------------------------------------------
// The registry.

/// A peer of a room: the id its page chose and the handle that reaches it.
struct Peer<T> {
    id: String,
    handle: T,
}

/// An open room: its name and its peers.
struct Room<T> {
    name: String,
    peers: Vec<Peer<T>>,
}

spec fn peer_key<T>() -> spec_fn(Peer<T>) -> Seq<char> {
    |p: Peer<T>| p.id@
}

spec fn peer_val<T>() -> spec_fn(Peer<T>) -> T {
    |p: Peer<T>| p.handle
}

spec fn peers_map<T>(peers: Seq<Peer<T>>) -> Map<Seq<char>, T> {
    keyed_map(peers, peer_key(), peer_val())
}

spec fn room_key<T>() -> spec_fn(Room<T>) -> Seq<char> {
    |r: Room<T>| r.name@
}

spec fn room_val<T>() -> spec_fn(Room<T>) -> Map<Seq<char>, T> {
    |r: Room<T>| peers_map(r.peers@)
}

spec fn rooms_map<T>(rooms: Seq<Room<T>>) -> RoomsView<T> {
    keyed_map(rooms, room_key(), room_val())
}

spec fn room_wf<T>(r: Room<T>) -> bool {
    &&& distinct_keys(r.peers@, peer_key())
    &&& r.peers@.len() > 0
}

spec fn rooms_wf<T>(rooms: Seq<Room<T>>) -> bool {
    &&& distinct_keys(rooms, room_key())
    &&& forall|i: int| 0 <= i < rooms.len() ==> room_wf(#[trigger] rooms[i])
}

proof fn lemma_rooms_remove_wf<T>(rooms: Seq<Room<T>>, i: int)
    requires
        rooms_wf(rooms),
        0 <= i < rooms.len(),
    ensures
        rooms_wf(rooms.remove(i)),
        rooms_map(rooms.remove(i)) == rooms_map(rooms).remove(rooms[i].name@),
{
    lemma_keyed_remove(rooms, room_key(), room_val(), i);
    let r = rooms.remove(i);
    assert forall|a: int| 0 <= a < r.len() implies room_wf(#[trigger] r[a]) by {
        let a2 = if a < i { a } else { a + 1 };
        assert(r[a] == rooms[a2]);
    }
}

proof fn lemma_rooms_push_wf<T>(rooms: Seq<Room<T>>, room: Room<T>)
    requires
        rooms_wf(rooms),
        room_wf(room),
        !rooms_map(rooms).contains_key(room.name@),
    ensures
        rooms_wf(rooms.push(room)),
        rooms_map(rooms.push(room)) == rooms_map(rooms).insert(room.name@, peers_map(room.peers@)),
{
    lemma_keyed_push(rooms, room_key(), room_val(), room);
    let r = rooms.push(room);
    assert forall|a: int| 0 <= a < r.len() implies room_wf(#[trigger] r[a]) by {
        if a < rooms.len() {
            assert(r[a] == rooms[a]);
        }
    }
}

proof fn lemma_rooms_no_empty<T>(rooms: Seq<Room<T>>)
    requires
        rooms_wf(rooms),
    ensures
        no_empty_room(rooms_map(rooms)),
{
    assert forall|k: Seq<char>| #[trigger] rooms_map(rooms).contains_key(k) implies rooms_map(rooms)[k]
        != Map::<Seq<char>, T>::empty() by {
        let i = key_index(rooms, room_key(), k);
        lemma_keyed_at(rooms, room_key(), room_val(), i);
        assert(room_wf(rooms[i]));
        lemma_keyed_empty(rooms[i].peers@, peer_key(), peer_val());
    }
}

/// The index of the room named `name`, if it is open.
fn find_room<T>(rooms: &Vec<Room<T>>, name: &String) -> (r: Option<usize>)
    requires
        rooms_wf(rooms@),
    ensures
        match r {
            Some(i) => i < rooms@.len() && rooms@[i as int].name@ == name@,
            None => !rooms_map(rooms@).contains_key(name@),
        },
{
    let n = rooms.len();
    let mut i: usize = 0;
    while i < n
        invariant
            n == rooms@.len(),
            i <= n,
            forall|k: int| 0 <= k < i ==> (#[trigger] rooms@[k]).name@ != name@,
        decreases n - i,
    {
        if rooms[i].name == *name {
            return Some(i);
        }
        i = i + 1;
    }
    assert(!has_key(rooms@, room_key(), name@)) by {
        if has_key(rooms@, room_key(), name@) {
            let k = choose|k: int| 0 <= k < rooms@.len() && room_key::<T>()(rooms@[k]) == name@;
            assert(rooms@[k].name@ == name@);
        }
    }
    None
}

/// The index of the peer with id `id`, if it is in `peers`.
fn find_peer<T>(peers: &Vec<Peer<T>>, id: &String) -> (r: Option<usize>)
    requires
        distinct_keys(peers@, peer_key()),
    ensures
        match r {
            Some(j) => j < peers@.len() && peers@[j as int].id@ == id@,
            None => !peers_map(peers@).contains_key(id@),
        },
{
    let n = peers.len();
    let mut j: usize = 0;
    while j < n
        invariant
            n == peers@.len(),
            j <= n,
            forall|k: int| 0 <= k < j ==> (#[trigger] peers@[k]).id@ != id@,
        decreases n - j,
    {
        if peers[j].id == *id {
            return Some(j);
        }
        j = j + 1;
    }
    assert(!has_key(peers@, peer_key(), id@)) by {
        if has_key(peers@, peer_key(), id@) {
            let k = choose|k: int| 0 <= k < peers@.len() && peer_key::<T>()(peers@[k]) == id@;
            assert(peers@[k].id@ == id@);
        }
    }
    None
}

/// The ids of `peers` other than `except`, in order.
fn ids_except<T>(peers: &Vec<Peer<T>>, except: &String) -> (ids: Vec<String>)
    requires
        distinct_keys(peers@, peer_key()),
    ensures
        lists_peers_except(ids@, peers_map(peers@), except@),
{
    let n = peers.len();
    let mut ids: Vec<String> = Vec::new();
    let mut j: usize = 0;
    while j < n
        invariant
            n == peers@.len(),
            j <= n,
            distinct_keys(peers@, peer_key()),
            strings_view(ids@).no_duplicates(),
            forall|id: Seq<char>| #[trigger] strings_view(ids@).contains(id)
                <==> (exists|k: int| 0 <= k < j && (#[trigger] peers@[k]).id@ == id) && id != except@,
        decreases n - j,
    {
        let ghost before = strings_view(ids@);
        if peers[j].id != *except {
            let id = peers[j].id.clone();
            ids.push(id);
            proof {
                let after = strings_view(ids@);
                assert(after =~= before.push(peers@[j as int].id@));
                assert(!before.contains(peers@[j as int].id@)) by {
                    if before.contains(peers@[j as int].id@) {
                        let k = choose|k: int| 0 <= k < j && (#[trigger] peers@[k]).id@ == peers@[j as int].id@;
                        assert(peers@[k] == peers@[k] && peers@[j as int] == peers@[j as int]);
                    }
                }
                assert forall|id: Seq<char>| #[trigger] after.contains(id)
                    <==> (exists|k: int| 0 <= k < j + 1 && (#[trigger] peers@[k]).id@ == id) && id != except@ by {
                    if id == peers@[j as int].id@ {
                        assert(after[after.len() - 1] == id);
                        assert(peers@[j as int].id@ == id);
                    } else {
                        if after.contains(id) {
                            let a = choose|a: int| 0 <= a < after.len() && after[a] == id;
                            assert(a < before.len());
                            assert(before[a] == id);
                            assert(before.contains(id));
                        }
                        if (exists|k: int| 0 <= k < j + 1 && (#[trigger] peers@[k]).id@ == id) && id != except@ {
                            let k = choose|k: int| 0 <= k < j + 1 && (#[trigger] peers@[k]).id@ == id;
                            assert(k < j);
                            assert(before.contains(id));
                            let a = choose|a: int| 0 <= a < before.len() && before[a] == id;
                            assert(after[a] == id);
                        }
                    }
                }
            }
        } else {
            proof {
                assert forall|id: Seq<char>| #[trigger] before.contains(id)
                    <==> (exists|k: int| 0 <= k < j + 1 && (#[trigger] peers@[k]).id@ == id) && id != except@ by {
                    if (exists|k: int| 0 <= k < j + 1 && (#[trigger] peers@[k]).id@ == id) && id != except@ {
                        let k = choose|k: int| 0 <= k < j + 1 && (#[trigger] peers@[k]).id@ == id;
                        assert(k < j);
                    }
                }
            }
        }
        j = j + 1;
    }
    proof {
        let m = peers_map(peers@);
        let v = strings_view(ids@);
        assert forall|id: Seq<char>| #[trigger] v.contains(id) <==> (m.contains_key(id) && id != except@) by {
            if m.contains_key(id) {
                let k = choose|k: int| 0 <= k < peers@.len() && peer_key::<T>()(peers@[k]) == id;
                assert(peers@[k].id@ == id);
            }
            if exists|k: int| 0 <= k < n && (#[trigger] peers@[k]).id@ == id {
                let k = choose|k: int| 0 <= k < n && (#[trigger] peers@[k]).id@ == id;
                assert(peer_key::<T>()(peers@[k]) == id);
                assert(has_key(peers@, peer_key(), id));
            }
        }
    }
    ids
}

/// The rooms of the signalling server, generic over the handle `T` through
/// which a peer is reached, and the ICE servers it was configured with.
pub struct AppState<T> {
    rooms: Vec<Room<T>>,
    config: ServerConfig,
}

impl<T> View for AppState<T> {
    type V = RoomsView<T>;

    closed spec fn view(&self) -> RoomsView<T> {
        rooms_map(self.rooms@)
    }
}

impl<T> AppState<T> {
    #[verifier::type_invariant]
    spec fn well_formed(self) -> bool {
        rooms_wf(self.rooms@)
    }

    /// The configuration this state was created with.
    pub closed spec fn config_view(&self) -> ServerConfig {
        self.config
    }

    /// No room is open, and the ICE servers are those parsed from
    /// `ice_server_args` (see [`parse_ice_servers`]).
    pub fn new(ice_server_args: Vec<String>) -> (s: Self)
        ensures
            s@ == RoomsView::<T>::empty(),
            s.config_view()@ == parse_ice_servers_spec(strings_view(ice_server_args@)),
    {
        let ice_servers = parse_ice_servers(ice_server_args);
        let s = AppState { rooms: Vec::new(), config: ServerConfig { ice_servers } };
        assert(s@ =~= RoomsView::<T>::empty());
        s
    }

    /// The ICE servers this state was created with.
    pub fn config(&self) -> (c: ServerConfig)
        ensures
            c@ == self.config_view()@,
    {
        self.config.copy()
    }

    /// Adds `peer_id` with `tx` to the room `room_name`, opening the room if
    /// needed, and returns the ids of the other peers that were in it.
    pub fn join(&mut self, room_name: &str, peer_id: &str, tx: T) -> (peers: Vec<String>)
        ensures
            final(self)@ == joined(old(self)@, room_name@, peer_id@, tx),
            no_empty_room(final(self)@),
            lists_peers_except(peers@, room_of(old(self)@, room_name@), peer_id@),
            final(self).config_view() == old(self).config_view(),
    {
        proof {
            use_type_invariant(&*self);
        }
        let name = room_name.to_owned();
        let pid = peer_id.to_owned();
        let mut rooms: Vec<Room<T>> = Vec::new();
        std::mem::swap(&mut rooms, &mut self.rooms);
        let ghost old_map = rooms_map(rooms@);
        let mut room = match find_room(&rooms, &name) {
            Some(i) => {
                proof {
                    lemma_keyed_at(rooms@, room_key(), room_val(), i as int);
                    lemma_rooms_remove_wf(rooms@, i as int);
                }
                rooms.remove(i)
            },
            None => {
                let r = Room { name, peers: Vec::new() };
                proof {
                    assert(peers_map(r.peers@) =~= Map::<Seq<char>, T>::empty());
                }
                r
            },
        };
        assert(room.name@ == room_name@);
        assert(peers_map(room.peers@) == room_of(old_map, room_name@));
        assert(!rooms_map(rooms@).contains_key(room_name@));
        assert(rooms_map(rooms@) == old_map.remove(room_name@));
        assert(distinct_keys(room.peers@, peer_key()));
        let others = ids_except(&room.peers, &pid);
        let ghost before = peers_map(room.peers@);
        match find_peer(&room.peers, &pid) {
            Some(j) => {
                proof {
                    lemma_keyed_remove(room.peers@, peer_key(), peer_val(), j as int);
                }
                room.peers.remove(j);
            },
            None => {
                assert(before.remove(pid@) =~= before);
            },
        }
        assert(peers_map(room.peers@) == before.remove(peer_id@));
        assert(!has_key(room.peers@, peer_key(), peer_id@));
        let ghost handle = tx;
        let ghost pre = room.peers@;
        let peer = Peer { id: pid, handle: tx };
        proof {
            lemma_keyed_push(pre, peer_key(), peer_val(), peer);
        }
        room.peers.push(peer);
        proof {
            assert(before.remove(peer_id@).insert(peer_id@, handle) =~= before.insert(peer_id@, handle));
            lemma_rooms_push_wf(rooms@, room);
            lemma_rooms_no_empty(rooms@.push(room));
            assert(old_map.remove(room_name@).insert(room_name@, before.insert(peer_id@, handle))
                =~= joined(old_map, room_name@, peer_id@, handle));
        }
        rooms.push(room);
        self.rooms = rooms;
        others
    }

    /// Removes `peer_id` from the room `room_name`, closes the room when no
    /// peer is left, and returns the ids of the peers that are still in it.
    pub fn leave(&mut self, room_name: &str, peer_id: &str) -> (remaining: Vec<String>)
        ensures
            final(self)@ == left(old(self)@, room_name@, peer_id@),
            no_empty_room(final(self)@),
            lists_peers_except(remaining@, room_of(final(self)@, room_name@), peer_id@),
            final(self).config_view() == old(self).config_view(),
    {
        proof {
            use_type_invariant(&*self);
        }
        let name = room_name.to_owned();
        let pid = peer_id.to_owned();
        let i = match find_room(&self.rooms, &name) {
            Some(i) => i,
            None => {
                let none: Vec<String> = Vec::new();
                proof {
                    assert(strings_view(none@) =~= Seq::<Seq<char>>::empty());
                }
                proof {
                    lemma_rooms_no_empty(self.rooms@);
                }
                return none;
            },
        };
        let mut rooms: Vec<Room<T>> = Vec::new();
        std::mem::swap(&mut rooms, &mut self.rooms);
        let ghost old_map = rooms_map(rooms@);
        proof {
            lemma_keyed_at(rooms@, room_key(), room_val(), i as int);
            lemma_rooms_remove_wf(rooms@, i as int);
        }
        let mut room = rooms.remove(i);
        assert(room_wf(room));
        let ghost before = peers_map(room.peers@);
        assert(before == old_map[room_name@]);
        match find_peer(&room.peers, &pid) {
            Some(j) => {
                proof {
                    lemma_keyed_remove(room.peers@, peer_key(), peer_val(), j as int);
                }
                room.peers.remove(j);
            },
            None => {
                assert(before.remove(pid@) =~= before);
            },
        }
        let remaining = ids_except(&room.peers, &pid);
        proof {
            lemma_keyed_empty(room.peers@, peer_key(), peer_val());
        }
        if room.peers.len() == 0 {
            proof {
                assert(old_map.remove(room_name@) == left(old_map, room_name@, peer_id@));
            }
        } else {
            proof {
                lemma_rooms_push_wf(rooms@, room);
                assert(old_map.remove(room_name@).insert(room_name@, before.remove(peer_id@))
                    =~= left(old_map, room_name@, peer_id@));
            }
            rooms.push(room);
        }
        proof {
            lemma_rooms_no_empty(rooms@);
        }
        self.rooms = rooms;
        remaining
    }

    /// Where a message addressed to `to` in the room `room_name` goes: the
    /// handle of that peer, if it is in the room.
    pub fn forward_signal(&self, room_name: &str, to: &str) -> (h: Option<&T>)
        ensures
            h is Some <==> room_of(self@, room_name@).contains_key(to@),
            h matches Some(t) ==> *t == room_of(self@, room_name@)[to@],
    {
        proof {
            use_type_invariant(self);
        }
        let name = room_name.to_owned();
        let id = to.to_owned();
        match find_room(&self.rooms, &name) {
            Some(i) => {
                proof {
                    lemma_keyed_at(self.rooms@, room_key(), room_val(), i as int);
                }
                let room = &self.rooms[i];
                assert(room_wf(*room));
                match find_peer(&room.peers, &id) {
                    Some(j) => {
                        proof {
                            lemma_keyed_at(room.peers@, peer_key(), peer_val(), j as int);
                        }
                        Some(&room.peers[j].handle)
                    },
                    None => None,
                }
            },
            None => None,
        }
    }
}

// ---------------------------------------------------------------------------
// Parsing `URL[,USERNAME[,CREDENTIAL]]` ICE server arguments.

/// `Some(s)` unless `s` is empty.
pub open spec fn non_empty(s: Seq<char>) -> Option<Seq<char>> {
    if s.len() > 0 {
        Some(s)
    } else {
        None
    }
}

/// The ICE server that one argument describes, split at its first two commas,
/// each part trimmed; `None` when the URL part is blank.
pub open spec fn parse_ice_server_spec(arg: Seq<char>) -> Option<crate::models::IceServerView> {
    let urls = crate::text::trim(crate::text::before_first(arg, ','));
    let rest = crate::text::after_first(arg, ',');
    if urls.len() == 0 {
        None
    } else {
        Some(
            crate::models::IceServerView {
                urls,
                username: match rest {
                    Some(r) => non_empty(crate::text::trim(crate::text::before_first(r, ','))),
                    None => None,
                },
                credential: match rest {
                    Some(r) => match crate::text::after_first(r, ',') {
                        Some(c) => non_empty(crate::text::trim(c)),
                        None => None,
                    },
                    None => None,
                },
            },
        )
    }
}

/// The ICE servers that `args` describe, in order, skipping blank URLs.
pub open spec fn parse_each_ice_server(args: Seq<Seq<char>>) -> Seq<crate::models::IceServerView>
    decreases args.len(),
{
    if args.len() == 0 {
        Seq::empty()
    } else {
        let prev = parse_each_ice_server(args.drop_last());
        match parse_ice_server_spec(args.last()) {
            Some(s) => prev.push(s),
            None => prev,
        }
    }
}

/// The STUN server used when no ICE server is configured.
pub open spec fn default_ice_server_arg() -> Seq<char> {
    "stun:stun.l.google.com:19302"@
}

/// The ICE servers configured by `args`, or by the default one when `args`
/// is empty.
pub open spec fn parse_ice_servers_spec(args: Seq<Seq<char>>) -> Seq<crate::models::IceServerView> {
    if args.len() == 0 {
        parse_each_ice_server(seq![default_ice_server_arg()])
    } else {
        parse_each_ice_server(args)
    }
}

/// Every configured ICE server has a URL, and a user name or credential only
/// when it is not blank.
pub proof fn lemma_parsed_servers_have_no_blanks(args: Seq<Seq<char>>)
    ensures
        forall|i: int|
            0 <= i < parse_ice_servers_spec(args).len() ==> {
                let s = #[trigger] parse_ice_servers_spec(args)[i];
                &&& s.urls.len() > 0
                &&& s.username matches Some(u) ==> u.len() > 0
                &&& s.credential matches Some(c) ==> c.len() > 0
            },
{
    if args.len() == 0 {
        lemma_each_parsed_server_has_no_blanks(seq![default_ice_server_arg()]);
    } else {
        lemma_each_parsed_server_has_no_blanks(args);
    }
}

proof fn lemma_each_parsed_server_has_no_blanks(args: Seq<Seq<char>>)
    ensures
        forall|i: int|
            0 <= i < parse_each_ice_server(args).len() ==> {
                let s = #[trigger] parse_each_ice_server(args)[i];
                &&& s.urls.len() > 0
                &&& s.username matches Some(u) ==> u.len() > 0
                &&& s.credential matches Some(c) ==> c.len() > 0
            },
    decreases args.len(),
{
    if args.len() > 0 {
        lemma_each_parsed_server_has_no_blanks(args.drop_last());
    }
}

/// With no argument, the one ICE server is the public Google STUN server,
/// without credentials.
pub proof fn lemma_default_ice_server()
    ensures
        parse_ice_servers_spec(Seq::empty()) == seq![
            crate::models::IceServerView { urls: default_ice_server_arg(), username: None, credential: None },
        ],
{
    reveal_strlit("stun:stun.l.google.com:19302");
    let s = default_ice_server_arg();
    assert(s.len() == 28);
    assert(!s.contains(',')) by {
        if s.contains(',') {
            let i = choose|i: int| 0 <= i < s.len() && s[i] == ',';
            assert(s[i] != ',');
        }
    }
    s.index_of_first_ensures(',');
    assert(!crate::text::is_white_space(s[0]));
    assert(crate::text::trim_start(s) == s);
    assert(!crate::text::is_white_space(s.last()));
    assert(crate::text::trim_end(s) == s);
    assert(seq![s].drop_last() =~= Seq::<Seq<char>>::empty());
    assert(parse_each_ice_server(seq![s].drop_last()) == Seq::<crate::models::IceServerView>::empty());
}

/// Parses one `URL[,USERNAME[,CREDENTIAL]]` argument.
pub fn parse_ice_server(arg: &str) -> (r: Option<IceServer>)
    ensures
        match r {
            Some(s) => parse_ice_server_spec(arg@) == Some(s@),
            None => parse_ice_server_spec(arg@) is None,
        },
{
    let v = crate::text::chars_of(arg);
    let n = v.len();
    let ghost s = v@;
    assert(s.skip(0) =~= s);
    let first = crate::text::find_char(&v, 0, ',');
    let end0 = match first {
        Some(i) => i,
        None => n,
    };
    proof {
        s.index_of_first_ensures(',');
    }
    assert(crate::text::before_first(s, ',') =~= s.subrange(0, end0 as int));
    let (a, b) = crate::text::trim_bounds(&v, 0, end0);
    if a == b {
        return None;
    }
    let urls = crate::text::string_of(&v, a, b);
    let (username, credential) = match first {
        None => (None, None),
        Some(i) => {
            let rest_start = i + 1;
            let ghost rest = s.skip(rest_start as int);
            assert(crate::text::after_first(s, ',') == Some(rest));
            let second = crate::text::find_char(&v, rest_start, ',');
            proof {
                rest.index_of_first_ensures(',');
            }
            let end1 = match second {
                Some(k) => k,
                None => n,
            };
            assert(crate::text::before_first(rest, ',') =~= s.subrange(rest_start as int, end1 as int));
            let (c, d) = crate::text::trim_bounds(&v, rest_start, end1);
            let username = if c < d {
                Some(crate::text::string_of(&v, c, d))
            } else {
                None
            };
            let credential = match second {
                None => None,
                Some(k) => {
                    assert(crate::text::after_first(rest, ',') == Some(s.subrange(k + 1, n as int))) by {
                        assert(rest.skip(k - rest_start + 1) =~= s.subrange(k + 1, n as int));
                    }
                    let (e, f) = crate::text::trim_bounds(&v, k + 1, n);
                    if e < f {
                        Some(crate::text::string_of(&v, e, f))
                    } else {
                        None
                    }
                },
            };
            (username, credential)
        },
    };
    Some(IceServer { urls, username, credential })
}

/// The ICE servers that `args` configure: each argument is
/// `URL[,USERNAME[,CREDENTIAL]]`, its parts trimmed, blank usernames and
/// credentials left out and arguments with a blank URL skipped; with no
/// argument, the public Google STUN server.
pub fn parse_ice_servers(args: Vec<String>) -> (r: Vec<IceServer>)
    ensures
        crate::models::ice_servers_view(r@) == parse_ice_servers_spec(strings_view(args@)),
{
    let ghost original = strings_view(args@);
    let args = if args.len() == 0 {
        let mut d: Vec<String> = Vec::new();
        d.push("stun:stun.l.google.com:19302".to_owned());
        assert(strings_view(d@) =~= seq![default_ice_server_arg()]);
        d
    } else {
        args
    };
    let ghost argv = strings_view(args@);
    assert(parse_ice_servers_spec(original) == parse_each_ice_server(argv));
    let mut out: Vec<IceServer> = Vec::new();
    let n = args.len();
    let mut i: usize = 0;
    assert(argv.take(0) =~= Seq::<Seq<char>>::empty());
    while i < n
        invariant
            n == args@.len(),
            argv == strings_view(args@),
            i <= n,
            crate::models::ice_servers_view(out@) == parse_each_ice_server(argv.take(i as int)),
        decreases n - i,
    {
        let ghost before = out@;
        assert(argv.take(i + 1).drop_last() =~= argv.take(i as int));
        assert(argv.take(i + 1).last() == args@[i as int]@);
        match parse_ice_server(args[i].as_str()) {
            Some(s) => {
                out.push(s);
                assert(crate::models::ice_servers_view(out@) =~= crate::models::ice_servers_view(before).push(s@));
            },
            None => {},
        }
        i = i + 1;
    }
    assert(argv.take(n as int) =~= argv);
    out
}

} // verus!
