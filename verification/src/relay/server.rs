//! The relay's room broker.
//!
//! A room pairs two connections under a name. The first arrival waits and is
//! kept alive; when the second arrives the two are bridged, and when the
//! bridge ends the room is gone. Connections are known here by the number
//! that the owner of the sockets gives them.

use crate::crypto::aes::CryptoError;
use crate::crypto::pake::{
    default_password, pake_start, pake_update, Error, PakePubKey, PubKeyView, Role,
};
use crate::crypto::random::random_bytes;
use crate::proto::croc_enc::EncryptedSession;
use crate::proto::croc_raw::{bytes_eq, is_ping, KeyError, KeyNegotiation, ProtoError};
use crate::relay::client::multiplex_password;
use crate::relay::text::{
    bad_password_text, banner, banner_of, encoded, is_utf8, ok_text, ping_text, pong_text,
    room_full_text, str_trim, text_bad_password, text_ok, text_pong, text_room_full, trimmed,
};
use vstd::prelude::*;
use vstd::utf8::valid_utf8;

verus! {

/// A rendezvous slot.
#[derive(PartialEq, Eq, Structural, Clone, Copy, Debug)]
pub struct Room {
    /// The connection that opened the room, while it waits.
    pub first: Option<u64>,
    /// The connection that joined, until the bridge takes both.
    pub second: Option<u64>,
    /// Whether the bridge between the two runs.
    pub running: bool,
    /// When the room was opened, in seconds since the epoch.
    pub opened: u64,
}

impl Room {
    /// A room is there for a waiting connection or for a running bridge, and a
    /// second connection is held only beside the first and before any bridge.
    pub open spec fn wf(&self) -> bool {
        &&& self.first is Some || self.running
        &&& self.second is Some ==> self.first is Some && !self.running
    }

    /// Whether nobody is taken in any more: both places are taken, or the
    /// bridge runs.
    pub open spec fn spec_is_full(&self) -> bool {
        (self.first is Some && self.second is Some) || self.running
    }

    /// Whether the first arrival waits alone, which is when it is kept alive.
    pub open spec fn waiting(&self) -> bool {
        self.first is Some && self.second is None && !self.running
    }

    /// Whether nobody is taken in any more.
    pub fn is_full(&self) -> (r: bool)
        ensures
            r == self.spec_is_full(),
    {
        (self.first.is_some() && self.second.is_some()) || self.is_running()
    }

    /// Whether the bridge runs.
    pub fn is_running(&self) -> (r: bool)
        ensures
            r == self.running,
    {
        self.running
    }

    /// Takes note that the bridge was stopped.
    pub fn stop(&mut self)
        ensures
            *final(self) == (Room { running: false, ..*old(self) }),
    {
        self.running = false;
    }
}

/// How a connection that asked for a room was answered.
#[derive(PartialEq, Eq, Structural, Clone, Copy, Debug)]
pub enum JoinOutcome {
    /// The room was opened for this connection, which now waits.
    Created,
    /// This connection joined the one that waited.
    Paired,
    /// The room takes nobody.
    Full,
}

/// What the keepalive of a room does next.
#[derive(PartialEq, Eq, Structural, Clone, Copy, Debug)]
pub enum KeepaliveAction {
    /// Write one ping to `conn`, then tick again after a second.
    Ping { conn: u64 },
    /// End the keepalive without writing.
    Stop,
}

/// What a keepalive writes, in a frame: the one byte 1.
pub fn keepalive_payload() -> (r: Vec<u8>)
    ensures
        is_ping(r@),
{
    let mut r: Vec<u8> = Vec::new();
    r.push(1u8);
    r
}

/// Whether no name stands twice.
pub open spec fn names_distinct(names: Seq<Vec<u8>>) -> bool {
    forall|i: int, j: int| 0 <= i < j < names.len() ==> names[i]@ != names[j]@
}

/// Whether `name` stands at `i`.
pub open spec fn named_at(names: Seq<Vec<u8>>, i: int, name: Seq<u8>) -> bool {
    0 <= i < names.len() && names[i]@ == name
}

/// The rooms by name.
pub open spec fn map_of(names: Seq<Vec<u8>>, rooms: Seq<Room>) -> Map<Seq<u8>, Room> {
    Map::new(
        |n: Seq<u8>| exists|i: int| named_at(names, i, n),
        |n: Seq<u8>| rooms[choose|i: int| named_at(names, i, n)],
    )
}

/// Whether every room of the map is well formed.
pub open spec fn all_wf(rooms: Map<Seq<u8>, Room>) -> bool {
    forall|name: Seq<u8>| rooms.contains_key(name) ==> (#[trigger] rooms[name]).wf()
}

/// The rooms after connection `conn` asked for the room `name` at time `now`,
/// and the answer it got: a room that is not there is opened for it, a room
/// where one connection waits takes it as the second, and a full room is left
/// as it is.
pub open spec fn joined(rooms: Map<Seq<u8>, Room>, name: Seq<u8>, conn: u64, now: u64) -> (
    Map<Seq<u8>, Room>,
    JoinOutcome,
) {
    if !rooms.contains_key(name) {
        (
            rooms.insert(
                name,
                Room { first: Some(conn), second: None, running: false, opened: now },
            ),
            JoinOutcome::Created,
        )
    } else if !rooms[name].spec_is_full() {
        (rooms.insert(name, Room { second: Some(conn), ..rooms[name] }), JoinOutcome::Paired)
    } else {
        (rooms, JoinOutcome::Full)
    }
}

/// The rooms after the bridge of the room `name` was asked for, and the two
/// connections that it joins, first arrival first: where both are there they
/// are moved out of the room and the bridge runs; otherwise nothing changes.
pub open spec fn bridged(rooms: Map<Seq<u8>, Room>, name: Seq<u8>) -> (
    Map<Seq<u8>, Room>,
    Option<(u64, u64)>,
) {
    if rooms.contains_key(name) && rooms[name].first is Some && rooms[name].second is Some {
        (
            rooms.insert(
                name,
                Room { first: None, second: None, running: true, opened: rooms[name].opened },
            ),
            Some((rooms[name].first->Some_0, rooms[name].second->Some_0)),
        )
    } else {
        (rooms, None)
    }
}

/// What the keepalive of the room `name` does: it pings the first arrival
/// while that one waits alone, and ends otherwise.
pub open spec fn ticked(rooms: Map<Seq<u8>, Room>, name: Seq<u8>) -> KeepaliveAction {
    if rooms.contains_key(name) && rooms[name].waiting() {
        KeepaliveAction::Ping { conn: rooms[name].first->Some_0 }
    } else {
        KeepaliveAction::Stop
    }
}

/// The rooms after a ping to the first arrival of the room `name` could not
/// be written: the room, if it still waits alone, is removed.
pub open spec fn given_up(rooms: Map<Seq<u8>, Room>, name: Seq<u8>) -> Map<Seq<u8>, Room> {
    if rooms.contains_key(name) && rooms[name].waiting() {
        rooms.remove(name)
    } else {
        rooms
    }
}

/// Joining, bridging, giving up and removing keep every room well formed.
pub proof fn lemma_rooms_stay_well_formed(
    rooms: Map<Seq<u8>, Room>,
    name: Seq<u8>,
    conn: u64,
    now: u64,
)
    requires
        all_wf(rooms),
    ensures
        all_wf(joined(rooms, name, conn, now).0),
        all_wf(bridged(rooms, name).0),
        all_wf(given_up(rooms, name)),
        all_wf(rooms.remove(name)),
{
}

/// A room has at most one bridge. Once the bridge of a room was started, no
/// second one is, nobody is taken into the room and nobody is pinged in it,
/// whatever is tried; and when the bridge has ended and the room is removed,
/// the room is not in the map.
pub proof fn lemma_one_bridge(rooms: Map<Seq<u8>, Room>, name: Seq<u8>, conn: u64, now: u64)
    requires
        all_wf(rooms),
        bridged(rooms, name).1 is Some,
    ensures
        !rooms[name].running,
        ({
            let after = bridged(rooms, name).0;
            &&& after[name].running
            &&& bridged(after, name) == (after, None::<(u64, u64)>)
            &&& joined(after, name, conn, now) == (after, JoinOutcome::Full)
            &&& ticked(after, name) == KeepaliveAction::Stop
            &&& given_up(after, name) == after
            &&& !after.remove(name).contains_key(name)
        }),
{
}

/// Only the first arrival of a room is ever pinged, and only while nobody has
/// joined it and no bridge runs.
pub proof fn lemma_keepalive_only_while_waiting(rooms: Map<Seq<u8>, Room>, name: Seq<u8>)
    requires
        all_wf(rooms),
    ensures
        ticked(rooms, name) matches KeepaliveAction::Ping { conn } ==> rooms.contains_key(name)
            && rooms[name].first == Some(conn) && rooms[name].second is None
            && !rooms[name].running,
{
}

/// The room map of a relay.
#[derive(Debug)]
pub struct Rooms {
    pub names: Vec<Vec<u8>>,
    pub rooms: Vec<Room>,
}

impl View for Rooms {
    type V = Map<Seq<u8>, Room>;

    open spec fn view(&self) -> Map<Seq<u8>, Room> {
        map_of(self.names@, self.rooms@)
    }
}

proof fn lemma_map_at(names: Seq<Vec<u8>>, rooms: Seq<Room>, i: int)
    requires
        names_distinct(names),
        names.len() == rooms.len(),
        0 <= i < names.len(),
    ensures
        map_of(names, rooms).contains_key(names[i]@),
        map_of(names, rooms)[names[i]@] == rooms[i],
{
    assert(named_at(names, i, names[i]@));
    let k = choose|k: int| named_at(names, k, names[i]@);
    assert(k == i) by {
        if k < i {
            assert(names[k]@ != names[i]@);
        } else if i < k {
            assert(names[i]@ != names[k]@);
        }
    }
}

proof fn lemma_map_absent(names: Seq<Vec<u8>>, rooms: Seq<Room>, name: Seq<u8>)
    requires
        forall|i: int| 0 <= i < names.len() ==> names[i]@ != name,
    ensures
        !map_of(names, rooms).contains_key(name),
{
    assert forall|i: int| !named_at(names, i, name) by {}
}

proof fn lemma_map_push(names: Seq<Vec<u8>>, rooms: Seq<Room>, name: Vec<u8>, room: Room)
    requires
        names_distinct(names),
        names.len() == rooms.len(),
        forall|i: int| 0 <= i < names.len() ==> names[i]@ != name@,
    ensures
        names_distinct(names.push(name)),
        map_of(names.push(name), rooms.push(room)) == map_of(names, rooms).insert(name@, room),
{
    let names2 = names.push(name);
    let rooms2 = rooms.push(room);
    let m = map_of(names, rooms).insert(name@, room);
    assert(names_distinct(names2));
    assert forall|n: Seq<u8>| map_of(names2, rooms2).contains_key(n) == m.contains_key(n) by {
        if map_of(names2, rooms2).contains_key(n) {
            let i = choose|i: int| named_at(names2, i, n);
            if i < names.len() {
                assert(named_at(names, i, n));
            }
        }
        if m.contains_key(n) {
            if n == name@ {
                assert(named_at(names2, names.len() as int, n));
            } else {
                let i = choose|i: int| named_at(names, i, n);
                assert(named_at(names2, i, n));
            }
        }
    }
    assert forall|n: Seq<u8>| m.contains_key(n) implies map_of(names2, rooms2)[n] == m[n] by {
        if n == name@ {
            lemma_map_at(names2, rooms2, names.len() as int);
        } else {
            let i = choose|i: int| named_at(names, i, n);
            lemma_map_at(names, rooms, i);
            lemma_map_at(names2, rooms2, i);
        }
    }
    assert(map_of(names2, rooms2) =~= m);
}

proof fn lemma_map_update(names: Seq<Vec<u8>>, rooms: Seq<Room>, i: int, room: Room)
    requires
        names_distinct(names),
        names.len() == rooms.len(),
        0 <= i < names.len(),
    ensures
        map_of(names, rooms.update(i, room)) == map_of(names, rooms).insert(names[i]@, room),
{
    let rooms2 = rooms.update(i, room);
    let m = map_of(names, rooms).insert(names[i]@, room);
    lemma_map_at(names, rooms, i);
    assert forall|n: Seq<u8>| m.contains_key(n) implies map_of(names, rooms2)[n] == m[n] by {
        let k = choose|k: int| named_at(names, k, n);
        lemma_map_at(names, rooms, k);
        lemma_map_at(names, rooms2, k);
        lemma_map_at(names, rooms2, i);
    }
    assert(map_of(names, rooms2) =~= m);
}

proof fn lemma_map_remove(names: Seq<Vec<u8>>, rooms: Seq<Room>, i: int)
    requires
        names_distinct(names),
        names.len() == rooms.len(),
        0 <= i < names.len(),
    ensures
        names_distinct(names.remove(i)),
        map_of(names.remove(i), rooms.remove(i)) == map_of(names, rooms).remove(names[i]@),
{
    let names2 = names.remove(i);
    let rooms2 = rooms.remove(i);
    let m = map_of(names, rooms).remove(names[i]@);
    assert forall|a: int, b: int| 0 <= a < b < names2.len() implies names2[a]@ != names2[b]@ by {
        let a0 = if a < i { a } else { a + 1 };
        let b0 = if b < i { b } else { b + 1 };
        assert(names2[a] == names[a0]);
        assert(names2[b] == names[b0]);
    }
    assert forall|n: Seq<u8>| map_of(names2, rooms2).contains_key(n) == m.contains_key(n) by {
        if map_of(names2, rooms2).contains_key(n) {
            let k = choose|k: int| named_at(names2, k, n);
            let k0 = if k < i { k } else { k + 1 };
            assert(names2[k] == names[k0]);
            assert(named_at(names, k0, n));
            if n == names[i]@ {
                if k0 < i {
                    assert(names[k0]@ != names[i]@);
                } else {
                    assert(names[i]@ != names[k0]@);
                }
            }
        }
        if m.contains_key(n) {
            let k0 = choose|k: int| named_at(names, k, n);
            let k = if k0 < i { k0 } else { k0 - 1 };
            assert(names2[k] == names[k0]);
            assert(named_at(names2, k, n));
        }
    }
    assert forall|n: Seq<u8>| m.contains_key(n) implies map_of(names2, rooms2)[n] == m[n] by {
        let k0 = choose|k: int| named_at(names, k, n);
        let k = if k0 < i { k0 } else { k0 - 1 };
        assert(names2[k] == names[k0]);
        assert(rooms2[k] == rooms[k0]);
        lemma_map_at(names, rooms, k0);
        lemma_map_at(names2, rooms2, k);
    }
    assert(map_of(names2, rooms2) =~= m);
}

impl Rooms {
    /// No name stands twice, and every room is well formed.
    pub open spec fn wf(&self) -> bool {
        &&& self.names@.len() == self.rooms@.len()
        &&& names_distinct(self.names@)
        &&& forall|i: int| 0 <= i < self.rooms@.len() ==> (#[trigger] self.rooms@[i]).wf()
    }

    /// Every room of a well-formed map is well formed.
    pub proof fn lemma_all_wf(&self)
        requires
            self.wf(),
        ensures
            all_wf(self@),
    {
        assert forall|name: Seq<u8>| self@.contains_key(name) implies (#[trigger] self@[name]).wf() by {
            let i = choose|i: int| named_at(self.names@, i, name);
            lemma_map_at(self.names@, self.rooms@, i);
        }
    }

    /// A relay without rooms.
    pub fn new() -> (r: Rooms)
        ensures
            r.wf(),
            r@ == Map::<Seq<u8>, Room>::empty(),
    {
        let r = Rooms { names: Vec::new(), rooms: Vec::new() };
        proof {
            lemma_map_absent_all(r.names@, r.rooms@);
        }
        r
    }

    /// Where `name` stands, if it does.
    fn find(&self, name: &[u8]) -> (r: Option<usize>)
        requires
            self.wf(),
        ensures
            match r {
                Some(i) => i < self.names@.len() && self.names@[i as int]@ == name@
                    && self@.contains_key(name@) && self@[name@] == self.rooms@[i as int],
                None => !self@.contains_key(name@) && forall|i: int|
                    0 <= i < self.names@.len() ==> self.names@[i]@ != name@,
            },
    {
        let mut i: usize = 0;
        while i < self.names.len()
            invariant
                self.wf(),
                i <= self.names@.len(),
                forall|k: int| 0 <= k < i ==> self.names@[k]@ != name@,
            decreases self.names@.len() - i,
        {
            if bytes_eq(self.names[i].as_slice(), name) {
                proof {
                    lemma_map_at(self.names@, self.rooms@, i as int);
                }
                return Some(i);
            }
            i = i + 1;
        }
        proof {
            lemma_map_absent(self.names@, self.rooms@, name@);
        }
        None
    }

    /// The room called `name`, if there is one.
    pub fn get(&self, name: &[u8]) -> (r: Option<Room>)
        requires
            self.wf(),
        ensures
            match r {
                Some(room) => self@.contains_key(name@) && self@[name@] == room,
                None => !self@.contains_key(name@),
            },
    {
        match self.find(name) {
            Some(i) => Some(self.rooms[i]),
            None => None,
        }
    }

    /// Takes connection `conn` into the room called `name`: a room that is not
    /// there is opened for it, a room where one connection waits takes it as
    /// the second, and a full room is left as it is.
    pub fn join(&mut self, name: Vec<u8>, conn: u64, now: u64) -> (r: JoinOutcome)
        requires
            old(self).wf(),
        ensures
            final(self).wf(),
            (final(self)@, r) == joined(old(self)@, name@, conn, now),
    {
        match self.find(name.as_slice()) {
            Some(i) => {
                let room = self.rooms[i];
                if room.is_full() {
                    JoinOutcome::Full
                } else {
                    let joined = Room { second: Some(conn), ..room };
                    proof {
                        lemma_map_update(self.names@, self.rooms@, i as int, joined);
                    }
                    self.rooms.set(i, joined);
                    JoinOutcome::Paired
                }
            },
            None => {
                let room = Room { first: Some(conn), second: None, running: false, opened: now };
                proof {
                    lemma_map_push(self.names@, self.rooms@, name, room);
                }
                self.names.push(name);
                self.rooms.push(room);
                JoinOutcome::Created
            },
        }
    }

    /// Starts the bridge of the room called `name` where both connections are
    /// there and no bridge runs: the two are moved out of the room and handed
    /// back, first arrival first. In every other case nothing changes.
    pub fn start_bridge(&mut self, name: &[u8]) -> (r: Option<(u64, u64)>)
        requires
            old(self).wf(),
        ensures
            final(self).wf(),
            (final(self)@, r) == bridged(old(self)@, name@),
    {
        match self.find(name) {
            Some(i) => {
                let room = self.rooms[i];
                match (room.first, room.second) {
                    (Some(first), Some(second)) => {
                        let bridged = Room {
                            first: None,
                            second: None,
                            running: true,
                            opened: room.opened,
                        };
                        proof {
                            lemma_map_update(self.names@, self.rooms@, i as int, bridged);
                        }
                        self.rooms.set(i, bridged);
                        Some((first, second))
                    },
                    _ => None,
                }
            },
            None => None,
        }
    }

    /// Takes note that the bridge of the room called `name` has ended, or that
    /// the room is given up: the room is removed.
    pub fn remove(&mut self, name: &[u8])
        requires
            old(self).wf(),
        ensures
            final(self).wf(),
            final(self)@ == old(self)@.remove(name@),
            !final(self)@.contains_key(name@),
    {
        match self.find(name) {
            Some(i) => {
                proof {
                    lemma_map_remove(self.names@, self.rooms@, i as int);
                }
                self.names.remove(i);
                self.rooms.remove(i);
            },
            None => {
                proof {
                    assert(self@.remove(name@) =~= self@);
                }
            },
        }
    }

    /// What the keepalive of the room called `name` does now: it pings the
    /// first arrival while that one waits alone, and ends otherwise.
    pub fn keepalive_tick(&self, name: &[u8]) -> (r: KeepaliveAction)
        requires
            self.wf(),
        ensures
            r == ticked(self@, name@),
    {
        match self.find(name) {
            Some(i) => {
                let room = self.rooms[i];
                match room.first {
                    Some(conn) => if room.second.is_none() && !room.running {
                        KeepaliveAction::Ping { conn }
                    } else {
                        KeepaliveAction::Stop
                    },
                    None => KeepaliveAction::Stop,
                }
            },
            None => KeepaliveAction::Stop,
        }
    }

    /// Takes note that a ping could not be written: the first arrival has
    /// left, and its room, if it still waits alone, is removed.
    pub fn keepalive_failed(&mut self, name: &[u8])
        requires
            old(self).wf(),
        ensures
            final(self).wf(),
            final(self)@ == given_up(old(self)@, name@),
    {
        match self.keepalive_tick(name) {
            KeepaliveAction::Ping { .. } => { self.remove(name); },
            KeepaliveAction::Stop => {},
        }
    }
}

/// Why a connection was dropped.
#[derive(Debug)]
pub enum HandlerError {
    /// The key exchange failed.
    Pake(Error),
    /// The key exchange ended without a key.
    Proto(ProtoError),
    /// A sealed message could not be opened, or the salt was malformed.
    Crypto(CryptoError),
    /// A password or a room name is not UTF-8.
    NotText,
    /// Something arrived that the connection's state has no use for.
    InvalidState,
}

/// Where the handling of a connection stands.
#[derive(Clone, Copy, Debug)]
pub enum HandlerState {
    /// The first four bytes are to be looked at.
    Probe,
    /// The client's public key is due.
    AwaitKey,
    /// The salt of the encrypted channel is due.
    AwaitSalt { key: [u8; 32] },
    /// The relay password is due.
    AwaitPassword { session: EncryptedSession },
    /// The room's name is due.
    AwaitRoom { session: EncryptedSession },
    /// The connection was handed on or closed.
    Done,
}

/// What is written to the client.
#[derive(Debug)]
pub enum Reply {
    Nothing,
    /// These bytes as they are, without a frame.
    Raw(Vec<u8>),
    /// This public key, serialized, in a frame.
    Key(PakePubKey),
    /// This text, sealed by the connection's session, in a frame.
    Sealed(Vec<u8>),
}

/// What becomes of the connection once the reply is written.
#[derive(Debug)]
pub enum Next {
    /// The next frame is read and handed in.
    Read,
    /// The connection is closed.
    Close,
    /// The connection waits in `room` and is kept alive.
    Keepalive { room: Vec<u8> },
    /// The two connections of `room` are bridged; when the bridge ends the
    /// room is to be removed.
    Bridge { room: Vec<u8>, first: u64, second: u64 },
}

/// The outcome of one step: a reply, what follows, and, where the connection
/// is closed for a fault, the fault.
#[derive(Debug)]
pub struct Step {
    pub reply: Reply,
    pub next: Next,
    pub error: Option<HandlerError>,
}

impl Step {
    /// Whether nothing is written and the next frame is awaited.
    pub open spec fn reads_on(&self) -> bool {
        self.reply is Nothing && self.next is Read && self.error is None
    }

    /// Whether the connection is closed for a fault without a word.
    pub open spec fn fails(&self) -> bool {
        self.reply is Nothing && self.next is Close && self.error is Some
    }

    /// Whether the connection is closed for this fault without a word.
    pub open spec fn fails_with(&self, error: HandlerError) -> bool {
        self.fails() && self.error == Some(error)
    }

    /// Whether `text` is sent sealed.
    pub open spec fn says(&self, text: Seq<u8>) -> bool {
        self.reply matches Reply::Sealed(t) && t@ == text
    }
}

/// The handling of one accepted connection.
#[derive(Debug)]
pub struct Handler {
    pub state: HandlerState,
    /// The number under which the connection is known to the rooms.
    pub conn: u64,
    pub relay_password: String,
    pub multiplex_ports: Vec<u16>,
    /// The address under which the relay sees the client, as text.
    pub peer_addr: Vec<u8>,
    /// The encrypted channel, from the moment it stands; replies that are to
    /// be sealed are sealed with it.
    pub session: Option<EncryptedSession>,
}

/// Whether `given` is the relay password once that is trimmed.
pub open spec fn password_matches(given: Seq<u8>, relay_password: Seq<char>) -> bool {
    given == encoded(str_trim(relay_password))
}

fn fail(error: HandlerError) -> (r: Step)
    ensures
        r.fails(),
        r.error == Some(error),
{
    Step { reply: Reply::Nothing, next: Next::Close, error: Some(error) }
}

impl Handler {
    /// The handling of connection `conn`, seen at `peer_addr`, by a relay with
    /// this password and these multiplex ports.
    pub fn new(conn: u64, relay_password: String, multiplex_ports: Vec<u16>, peer_addr: Vec<u8>) -> (r:
        Handler)
        ensures
            r.state is Probe,
            r.conn == conn,
            r.relay_password == relay_password,
            r.multiplex_ports == multiplex_ports,
            r.peer_addr == peer_addr,
            r.session is None,
    {
        Handler {
            state: HandlerState::Probe,
            conn,
            relay_password,
            multiplex_ports,
            peer_addr,
            session: None,
        }
    }

    /// Whether the payload that is read next is the client's public key, to be
    /// handed to `on_key`; every other payload goes to `on_frame`.
    pub fn awaits_key(&self) -> (r: bool)
        ensures
            r == (self.state is AwaitKey),
    {
        match self.state {
            HandlerState::AwaitKey => true,
            _ => false,
        }
    }

    /// Whether only the state may have changed.
    pub open spec fn same_settings(&self, other: &Handler) -> bool {
        &&& self.conn == other.conn
        &&& self.relay_password == other.relay_password
        &&& self.multiplex_ports == other.multiplex_ports
        &&& self.peer_addr == other.peer_addr
    }

    /// Takes the first bytes of the connection, looked at without reading
    /// them. A probe is answered with an unframed `pong` and the connection is
    /// closed; no room is touched. Anything else starts the key exchange.
    pub fn on_peek(&mut self, peeked: &[u8]) -> (r: Step)
        ensures
            final(self).same_settings(old(self)),
            final(self).session == old(self).session,
            match old(self).state {
                HandlerState::Probe => if peeked@ == ping_text() {
                    &&& final(self).state is Done
                    &&& r.reply matches Reply::Raw(bytes) && bytes@ == pong_text()
                    &&& r.next is Close
                    &&& r.error is None
                } else {
                    final(self).state is AwaitKey && r.reads_on()
                },
                _ => final(self).state is Done && r.fails_with(HandlerError::InvalidState),
            },
    {
        match self.state {
            HandlerState::Probe => {
                let ping = crate::relay::text::text_ping();
                if bytes_eq(peeked, ping.as_slice()) {
                    self.state = HandlerState::Done;
                    Step { reply: Reply::Raw(text_pong()), next: Next::Close, error: None }
                } else {
                    self.state = HandlerState::AwaitKey;
                    Step { reply: Reply::Nothing, next: Next::Read, error: None }
                }
            },
            _ => {
                self.state = HandlerState::Done;
                fail(HandlerError::InvalidState)
            },
        }
    }

    /// What the client's public key does to a handler that plays the
    /// receiver with the default password and the secret scalar `alpha`: on
    /// success the handler answers with its own public key and awaits the
    /// salt, holding the session key; on a failure of the exchange the
    /// connection is dropped with that failure.
    pub open spec fn key_post(
        &self,
        after: &Handler,
        peer: PubKeyView,
        alpha: Seq<u8>,
        r: &Step,
    ) -> bool {
        match self.state {
            HandlerState::AwaitKey => match pake_start(Role::Reciever, default_password(), alpha) {
                Some(start) => match pake_update(start, peer, alpha) {
                    Ok(done) => {
                        &&& done.k matches Some(k)
                        &&& after.state matches HandlerState::AwaitSalt { key }
                        &&& key@ == k
                        &&& r.reply matches Reply::Key(own)
                        &&& own@ == done.pub_pake
                        &&& r.next is Read
                        &&& r.error is None
                    },
                    Err(e) => {
                        &&& after.state is Done
                        &&& r.fails()
                        &&& r.error matches Some(HandlerError::Pake(err))
                        &&& err@ == e
                    },
                },
                None => false,
            },
            _ => after.state is Done && r.fails_with(HandlerError::InvalidState),
        }
    }

    /// Takes the client's public key, with `alpha` as the relay's secret
    /// scalar. The relay plays the receiver with the default password; on
    /// success it answers with its own public key and awaits the salt.
    pub fn on_key_with_alpha(&mut self, peer: PakePubKey, alpha: [u8; 32]) -> (r: Step)
        ensures
            final(self).same_settings(old(self)),
            final(self).session == old(self).session,
            old(self).key_post(final(self), peer@, alpha@, &r),
    {
        match self.state {
            HandlerState::AwaitKey => {
                let begun = KeyNegotiation::negotiate_symmetric_key_with_alpha(
                    Role::Reciever,
                    alpha,
                );
                let negotiation = match begun {
                    Ok((negotiation, _)) => negotiation,
                    Err(e) => {
                        self.state = HandlerState::Done;
                        return fail(HandlerError::Pake(e));
                    },
                };
                match negotiation.finish_with_alpha(peer, alpha) {
                    Ok((key, own)) => {
                        self.state = HandlerState::AwaitSalt { key };
                        Step { reply: Reply::Key(own), next: Next::Read, error: None }
                    },
                    Err(KeyError::Pake(e)) => {
                        self.state = HandlerState::Done;
                        fail(HandlerError::Pake(e))
                    },
                    Err(KeyError::Proto(e)) => {
                        self.state = HandlerState::Done;
                        fail(HandlerError::Proto(e))
                    },
                }
            },
            _ => {
                self.state = HandlerState::Done;
                fail(HandlerError::InvalidState)
            },
        }
    }

    /// Takes the client's public key; the relay's secret scalar is drawn at
    /// random.
    pub fn on_key(&mut self, peer: PakePubKey) -> (r: Step)
        ensures
            final(self).same_settings(old(self)),
            final(self).session == old(self).session,
            exists|alpha: Seq<u8>|
                alpha.len() == 32 && #[trigger] old(self).key_post(final(self), peer@, alpha, &r),
    {
        let alpha = random_bytes::<32>();
        self.on_key_with_alpha(peer, alpha)
    }

    /// Takes the payload of a frame that was read: the salt, then the relay
    /// password, then the room's name.
    ///
    /// - The salt must be eight bytes; with it the encrypted channel stands.
    /// - A password that is not the relay's, trimmed, is answered with
    ///   `bad password`, and the connection is closed. The right one is
    ///   answered with the banner.
    /// - The room's name is looked up in `rooms`. A room that is not there is
    ///   opened and the connection kept alive in it; a room where one waits is
    ///   joined and the two are bridged; both are answered with `ok`. A full
    ///   room is answered with `room full`, the connection is closed and the
    ///   rooms are left as they are.
    pub fn on_frame(&mut self, payload: &[u8], rooms: &mut Rooms, now: u64) -> (r: Step)
        requires
            old(rooms).wf(),
        ensures
            final(rooms).wf(),
            final(self).same_settings(old(self)),
            !(old(self).state is AwaitRoom) ==> final(rooms)@ == old(rooms)@,
            final(self).session == match (old(self).state, final(self).state) {
                (HandlerState::AwaitSalt { .. }, HandlerState::AwaitPassword { session }) => Some(
                    session,
                ),
                _ => old(self).session,
            },
            match old(self).state {
                HandlerState::AwaitSalt { key } => if payload@.len() == 8 {
                    &&& final(self).state matches HandlerState::AwaitPassword { session }
                    &&& session.encryptor.derived_from(key@)
                    &&& session.encryptor.salt@ == payload@
                    &&& r.reads_on()
                } else {
                    final(self).state is Done && r.fails_with(HandlerError::Crypto(CryptoError::KDF))
                },
                HandlerState::AwaitPassword { session } => {
                    &&& forall|text: Seq<u8>| #[trigger]
                        session.encryptor.is_sealed(payload@, text) ==> if !valid_utf8(text) {
                            final(self).state is Done && r.fails_with(HandlerError::NotText)
                        } else if password_matches(text, old(self).relay_password@) {
                            &&& final(self).state == (HandlerState::AwaitRoom { session })
                            &&& r.says(banner_of(old(self).multiplex_ports@, old(self).peer_addr@))
                            &&& r.next is Read
                            &&& r.error is None
                        } else {
                            &&& final(self).state is Done
                            &&& r.says(bad_password_text())
                            &&& r.next is Close
                            &&& r.error is None
                        }
                    &&& session.encryptor.is_no_message(payload@) ==> final(self).state
                        is Done && r.fails_with(
                        HandlerError::Crypto(CryptoError::Authentication),
                    )
                },
                HandlerState::AwaitRoom { session } => {
                    &&& final(self).state is Done
                    &&& forall|name: Seq<u8>| #[trigger]
                        session.encryptor.is_sealed(payload@, name) ==> if !valid_utf8(name) {
                            &&& r.fails()
                            &&& r.error == Some(HandlerError::NotText)
                            &&& final(rooms)@ == old(rooms)@
                        } else if !old(rooms)@.contains_key(name) {
                            &&& r.says(ok_text())
                            &&& r.next matches Next::Keepalive { room }
                            &&& room@ == name
                            &&& r.error is None
                            &&& final(rooms)@ == old(rooms)@.insert(
                                name,
                                Room {
                                    first: Some(old(self).conn),
                                    second: None,
                                    running: false,
                                    opened: now,
                                },
                            )
                        } else if !old(rooms)@[name].spec_is_full() {
                            &&& r.says(ok_text())
                            &&& r.next matches Next::Bridge { room, first, second }
                            &&& room@ == name
                            &&& Some(first) == old(rooms)@[name].first
                            &&& second == old(self).conn
                            &&& r.error is None
                            &&& final(rooms)@ == old(rooms)@.insert(
                                name,
                                Room {
                                    first: None,
                                    second: None,
                                    running: true,
                                    opened: old(rooms)@[name].opened,
                                },
                            )
                        } else {
                            &&& r.says(room_full_text())
                            &&& r.next is Close
                            &&& r.error is None
                            &&& final(rooms)@ == old(rooms)@
                        }
                    &&& session.encryptor.is_no_message(payload@) ==> r.fails_with(
                        HandlerError::Crypto(CryptoError::Authentication),
                    ) && final(rooms)@ == old(rooms)@
                },
                _ => final(self).state is Done && r.fails_with(HandlerError::InvalidState),
            },
    {
        match self.state {
            HandlerState::AwaitSalt { key } => {
                match EncryptedSession::new(&key, Role::Reciever, payload) {
                    Ok((session, _)) => {
                        self.state = HandlerState::AwaitPassword { session };
                        self.session = Some(session);
                        Step { reply: Reply::Nothing, next: Next::Read, error: None }
                    },
                    Err(e) => {
                        self.state = HandlerState::Done;
                        fail(HandlerError::Crypto(e))
                    },
                }
            },
            HandlerState::AwaitPassword { session } => {
                let password = match session.read(payload) {
                    Ok(text) => text,
                    Err(e) => {
                        self.state = HandlerState::Done;
                        return fail(HandlerError::Crypto(e));
                    },
                };
                if !is_utf8(password.as_slice()) {
                    self.state = HandlerState::Done;
                    return fail(HandlerError::NotText);
                }
                let expected = trimmed(self.relay_password.as_str());
                if !bytes_eq(password.as_slice(), expected.as_str().as_bytes()) {
                    self.state = HandlerState::Done;
                    return Step {
                        reply: Reply::Sealed(text_bad_password()),
                        next: Next::Close,
                        error: None,
                    };
                }
                let message = banner(&self.multiplex_ports, self.peer_addr.as_slice());
                self.state = HandlerState::AwaitRoom { session };
                Step { reply: Reply::Sealed(message), next: Next::Read, error: None }
            },
            HandlerState::AwaitRoom { session } => {
                self.state = HandlerState::Done;
                let room_name = match session.read(payload) {
                    Ok(text) => text,
                    Err(e) => {
                        return fail(HandlerError::Crypto(e));
                    },
                };
                if !is_utf8(room_name.as_slice()) {
                    return fail(HandlerError::NotText);
                }
                let room = room_name.clone();
                match rooms.join(room_name, self.conn, now) {
                    JoinOutcome::Created => Step {
                        reply: Reply::Sealed(text_ok()),
                        next: Next::Keepalive { room },
                        error: None,
                    },
                    JoinOutcome::Paired => match rooms.start_bridge(room.as_slice()) {
                        Some((first, second)) => Step {
                            reply: Reply::Sealed(text_ok()),
                            next: Next::Bridge { room, first, second },
                            error: None,
                        },
                        None => fail(HandlerError::InvalidState),
                    },
                    JoinOutcome::Full => Step {
                        reply: Reply::Sealed(text_room_full()),
                        next: Next::Close,
                        error: None,
                    },
                }
            },
            _ => {
                self.state = HandlerState::Done;
                fail(HandlerError::InvalidState)
            },
        }
    }
}

/// A relay: its rooms and what it was set up with.
#[derive(Debug)]
pub struct Relay {
    pub rooms: Rooms,
    pub bind_address: String,
    pub password: String,
    pub multiplex_ports: Vec<u16>,
}

impl Relay {
    /// A relay without rooms.
    pub fn new(bind_address: String, password: String, multiplex_ports: Vec<u16>) -> (r: Relay)
        ensures
            r.rooms.wf(),
            r.rooms@ == Map::<Seq<u8>, Room>::empty(),
            r.bind_address == bind_address,
            r.password == password,
            r.multiplex_ports == multiplex_ports,
    {
        Relay { rooms: Rooms::new(), bind_address, password, multiplex_ports }
    }

    /// The handling of a connection that was accepted on the main port, or on
    /// one of the multiplex ports, which ask for their own password.
    pub fn handler(&self, multiplex: bool, conn: u64, peer_addr: Vec<u8>) -> (r: Handler)
        ensures
            r.state is Probe,
            r.session is None,
            r.conn == conn,
            r.peer_addr == peer_addr,
            r.multiplex_ports@ == self.multiplex_ports@,
            r.relay_password@ == if multiplex {
                multiplex_password()
            } else {
                self.password@
            },
    {
        let relay_password = if multiplex {
            "pass123".to_owned()
        } else {
            self.password.clone()
        };
        let ports = copy_ports(&self.multiplex_ports);
        Handler::new(conn, relay_password, ports, peer_addr)
    }
}

/// A copy of a list of ports.
fn copy_ports(ports: &Vec<u16>) -> (r: Vec<u16>)
    ensures
        r@ == ports@,
{
    let mut r: Vec<u16> = Vec::new();
    let mut i: usize = 0;
    while i < ports.len()
        invariant
            i <= ports.len(),
            r@ == ports@.take(i as int),
        decreases ports.len() - i,
    {
        r.push(ports[i]);
        proof {
            assert(r@ =~= ports@.take(i + 1));
        }
        i = i + 1;
    }
    proof {
        assert(ports@.take(ports.len() as int) =~= ports@);
    }
    r
}

proof fn lemma_map_absent_all(names: Seq<Vec<u8>>, rooms: Seq<Room>)
    requires
        names.len() == 0,
    ensures
        map_of(names, rooms) == Map::<Seq<u8>, Room>::empty(),
{
    assert forall|n: Seq<u8>| !map_of(names, rooms).contains_key(n) by {
        lemma_map_absent(names, rooms, n);
    }
    assert(map_of(names, rooms) =~= Map::<Seq<u8>, Room>::empty());
}

} // verus!
