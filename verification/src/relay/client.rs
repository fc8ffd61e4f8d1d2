//! The client's side of the relay: the key exchange, the password, the banner
//! and the room, and the wait for the peer.

use crate::crypto::aes::CryptoError;
use crate::crypto::curve::SIEC255Params;
use crate::crypto::hash::{hex_lower, hex_of, sha256, sha256_digest};
use crate::crypto::pake::{default_password, pake_start, pake_update, Pake, PakePubKey, Role};
use crate::crypto::random::random_bytes;
use crate::proto::client_session::{ClientSession, ClientState};
use crate::proto::croc_enc::EncryptedSession;
use crate::proto::croc_raw::{bytes_eq, is_ping, KeyNegotiation};
use crate::relay::text::{
    banner_of, csv, decimal, encoded, handshake_text, ips_text, is_utf8, json_array,
    json_of_strings, ok_text, room_full_text, separator_text, text_handshake, text_ips, text_of,
    text_ok, text_room_full, texts_of,
};
use vstd::prelude::*;
use vstd::string::StringSliceAdditionalSpecFns;
use vstd::utf8::valid_utf8;

verus! {

/// Why the client could not get its room, or lost it.
#[derive(Debug)]
pub enum RelayClientError {
    /// The relay's banner is not what a relay sends.
    BadResponse(Vec<u8>),
    /// Symmetric key negotiation failed.
    KeyNegotiationFailiure,
    /// The room asked for is full.
    RoomFull(Vec<u8>),
    /// The room was refused for a reason that the relay did not give.
    RoomNegotiationFailed,
    /// The relay sent bytes that a waiting client has no use for.
    UnknownKeepaliveMessage(Vec<u8>),
    /// The shared secret is too short.
    BadSharedSecret(String),
    /// A sealed message of the relay could not be opened.
    Crypto(CryptoError),
    /// Something arrived that the client's state has no use for.
    InvalidState,
}

/// Whether the separator stands at `i` in `msg`.
pub open spec fn separator_at(msg: Seq<u8>, i: int) -> bool {
    0 <= i && i + 3 <= msg.len() && msg[i] == 0x7c && msg[i + 1] == 0x7c && msg[i + 2] == 0x7c
}

/// Whether `i` is where the separator stands first in `msg`.
pub open spec fn first_separator(msg: Seq<u8>, i: int) -> bool {
    separator_at(msg, i) && forall|j: int| 0 <= j < i ==> !separator_at(msg, j)
}

/// Whether the separator stands nowhere in `msg`.
pub open spec fn no_separator(msg: Seq<u8>) -> bool {
    forall|j: int| !separator_at(msg, j)
}

/// The pieces of `s` between the bytes `c`, from position `i` on, where `cur`
/// is the piece begun and `acc` holds the pieces before it.
pub open spec fn split_from(s: Seq<u8>, c: u8, i: int, cur: Seq<u8>, acc: Seq<Seq<u8>>) -> Seq<
    Seq<u8>,
>
    decreases s.len() - i,
{
    if i < 0 || i >= s.len() {
        acc.push(cur)
    } else if s[i] == c {
        split_from(s, c, i + 1, Seq::<u8>::empty(), acc.push(cur))
    } else {
        split_from(s, c, i + 1, cur.push(s[i]), acc)
    }
}

/// The pieces of `s` between the bytes `c`; one empty piece for the empty
/// string.
pub open spec fn split_on(s: Seq<u8>, c: u8) -> Seq<Seq<u8>> {
    split_from(s, c, 0, Seq::<u8>::empty(), Seq::<Seq<u8>>::empty())
}

/// What a banner says: the relay's ports, and the address under which the
/// relay sees the client.
pub ghost struct BannerView {
    pub ports: Seq<Seq<u8>>,
    pub external_ip: Seq<u8>,
}

/// What `msg` says as a banner, if it holds the separator: the ports are the
/// pieces between commas of what stands before the first separator, the address
/// is what stands behind it, up to a second separator if there is one.
pub open spec fn banner_says(msg: Seq<u8>, b: BannerView) -> bool {
    exists|i: int|
        {
            &&& #[trigger] first_separator(msg, i)
            &&& b.ports == split_on(msg.subrange(0, i), 0x2c)
            &&& {
                let rest = msg.subrange(i + 3, msg.len() as int);
                ||| no_separator(rest) && b.external_ip == rest
                ||| exists|k: int| #[trigger]
                    first_separator(rest, k) && b.external_ip == rest.subrange(0, k)
            }
        }
}

/// Where the separator stands first in `msg`, if it does.
pub fn find_separator(msg: &[u8]) -> (r: Option<usize>)
    ensures
        match r {
            Some(i) => first_separator(msg@, i as int),
            None => no_separator(msg@),
        },
{
    if msg.len() < 3 {
        return None;
    }
    let mut i: usize = 0;
    while i <= msg.len() - 3
        invariant
            msg@.len() >= 3,
            i <= msg@.len() - 2,
            forall|j: int| 0 <= j < i ==> !separator_at(msg@, j),
        decreases msg@.len() - i,
    {
        if msg[i] == 0x7c && msg[i + 1] == 0x7c && msg[i + 2] == 0x7c {
            return Some(i);
        }
        i = i + 1;
    }
    None
}

/// The pieces of `s` between the bytes `c`.
pub fn split_bytes(s: &[u8], c: u8) -> (r: Vec<Vec<u8>>)
    ensures
        r@.len() == split_on(s@, c).len(),
        forall|k: int| 0 <= k < r@.len() ==> (#[trigger] r@[k])@ == split_on(s@, c)[k],
{
    let mut acc: Vec<Vec<u8>> = Vec::new();
    let mut cur: Vec<u8> = Vec::new();
    let ghost mut acc_view: Seq<Seq<u8>> = Seq::empty();
    let mut i: usize = 0;
    while i < s.len()
        invariant
            i <= s.len(),
            acc@.len() == acc_view.len(),
            forall|k: int| 0 <= k < acc@.len() ==> (#[trigger] acc@[k])@ == acc_view[k],
            split_from(s@, c, i as int, cur@, acc_view) == split_on(s@, c),
        decreases s.len() - i,
    {
        if s[i] == c {
            proof {
                acc_view = acc_view.push(cur@);
            }
            acc.push(cur);
            cur = Vec::new();
        } else {
            cur.push(s[i]);
        }
        i = i + 1;
    }
    proof {
        acc_view = acc_view.push(cur@);
    }
    acc.push(cur);
    acc
}

/// A copy of part of a byte string.
pub fn copy_range(s: &[u8], from: usize, to: usize) -> (r: Vec<u8>)
    requires
        from <= to <= s@.len(),
    ensures
        r@ == s@.subrange(from as int, to as int),
{
    let mut r: Vec<u8> = Vec::new();
    let mut i: usize = from;
    while i < to
        invariant
            from <= i <= to <= s@.len(),
            r@ == s@.subrange(from as int, i as int),
        decreases to - i,
    {
        r.push(s[i]);
        proof {
            assert(r@ =~= s@.subrange(from as int, i + 1));
        }
        i = i + 1;
    }
    r
}

/// What the relay's banner says, or nothing where it holds no separator.
pub fn parse_banner(msg: &[u8]) -> (r: Option<(Vec<Vec<u8>>, Vec<u8>)>)
    ensures
        match r {
            Some((ports, external_ip)) => banner_says(
                msg@,
                BannerView {
                    ports: Seq::new(ports@.len(), |k: int| ports@[k]@),
                    external_ip: external_ip@,
                },
            ),
            None => no_separator(msg@),
        },
        r matches Some((ports, external_ip)) ==> (valid_utf8(msg@) ==> all_utf8(ports@)
            && valid_utf8(external_ip@)),
{
    let i = match find_separator(msg) {
        Some(i) => i,
        None => { return None; },
    };
    let end = msg.len();
    assert(separator_at(msg@, i as int));
    assert(i + 3 <= end);
    let head = copy_range(msg, 0, i);
    let rest = copy_range(msg, i + 3, end);
    let ports = split_bytes(head.as_slice(), 0x2c);
    let external_ip = match find_separator(rest.as_slice()) {
        Some(k) => copy_range(rest.as_slice(), 0, k),
        None => rest,
    };
    proof {
        let b = BannerView {
            ports: Seq::new(ports@.len(), |k: int| ports@[k]@),
            external_ip: external_ip@,
        };
        assert(b.ports =~= split_on(msg@.subrange(0, i as int), 0x2c));
        assert(first_separator(msg@, i as int));
        if valid_utf8(msg@) {
            let m = msg@;
            let len = m.len() as int;
            lemma_utf8_around_ascii(m, i as int);
            let m1 = m.subrange(i + 1, len);
            lemma_utf8_around_ascii(m1, 0);
            let m2 = m1.subrange(1, m1.len() as int);
            lemma_utf8_around_ascii(m2, 0);
            assert(m2.subrange(1, m2.len() as int) =~= rest@);
            lemma_split_pieces_utf8(
                head@,
                0x2c,
                0,
                0,
                Seq::<u8>::empty(),
                Seq::<Seq<u8>>::empty(),
            );
            if external_ip@ != rest@ {
                let k = external_ip@.len() as int;
                assert(separator_at(rest@, k));
                lemma_utf8_around_ascii(rest@, k);
            }
        }
    }
    Some((ports, external_ip))
}

/// The name of the room on the relay's main port: the first three bytes of the
/// shared secret.
pub open spec fn room_name_of(secret: Seq<u8>) -> Seq<u8> {
    secret.subrange(0, 3)
}

/// The name of the room on the multiplex ports: the first six hexadecimal
/// digits of the SHA-256 of the secret behind its fifth byte, then `-1`.
pub open spec fn multiplex_room_name_of(secret: Seq<u8>) -> Seq<u8> {
    hex_of(sha256_digest(secret.subrange(5, secret.len() as int))).subrange(0, 6) + seq![
        0x2du8,
        0x31u8,
    ]
}

/// The name of the room on the relay's main port.
pub fn room_name(shared_secret: &str) -> (r: Vec<u8>)
    requires
        shared_secret.spec_bytes().len() >= 3,
    ensures
        r@ == room_name_of(shared_secret.spec_bytes()),
{
    copy_range(shared_secret.as_bytes(), 0, 3)
}

/// The name of the room on the multiplex ports, for a secret of five bytes or
/// more.
pub fn multiplex_room_name(shared_secret: &str) -> (r: Option<Vec<u8>>)
    ensures
        match r {
            Some(name) => shared_secret.spec_bytes().len() >= 5 && name@
                == multiplex_room_name_of(shared_secret.spec_bytes()),
            None => shared_secret.spec_bytes().len() < 5,
        },
{
    let bytes = shared_secret.as_bytes();
    if bytes.len() < 5 {
        return None;
    }
    let tail = vstd::slice::slice_subrange(bytes, 5, bytes.len());
    let digest = sha256(tail);
    // generate hex string from hash
    let hex = hex_lower(digest.as_slice());
    let mut name = copy_range(hex.as_slice(), 0, 6);
    let ghost head = name@;
    name.push(0x2d);
    name.push(0x31);
    proof {
        assert(name@ =~= head + seq![0x2du8, 0x31u8]);
    }
    Some(name)
}

/// Where the client stands with the relay.
#[derive(Clone, Copy, Debug)]
pub enum ClientPhase {
    /// The relay's public key is due.
    AwaitKey,
    /// The banner is due.
    AwaitBanner { session: EncryptedSession },
    /// The answer to the room's name is due.
    AwaitRoomReply { session: EncryptedSession },
    /// The room is taken.
    Ready,
    /// The attempt has failed.
    Failed,
}

/// What the client writes next, in this order: its public key, serialized, in
/// a frame; `clear` in a frame as it is; `sealed`, sealed by the session, in a
/// frame.
#[derive(Debug)]
pub struct ClientStep {
    pub key: Option<PakePubKey>,
    pub clear: Option<Vec<u8>>,
    pub sealed: Option<Vec<u8>>,
}

/// Whether the step was refused with this fault.
pub open spec fn refused(r: Result<ClientStep, RelayClientError>, fault: RelayClientError) -> bool {
    r == Err::<ClientStep, RelayClientError>(fault)
}

impl ClientStep {
    /// Whether only `text` is written, sealed.
    pub open spec fn says(&self, text: Seq<u8>) -> bool {
        &&& self.key is None
        &&& self.clear is None
        &&& self.sealed matches Some(t) && t@ == text
    }

    /// Whether nothing is written.
    pub open spec fn silent(&self) -> bool {
        self.key is None && self.clear is None && self.sealed is None
    }
}

/// A local network interface: its IPv4 address as text, and whether that is
/// a loopback address.
#[derive(Debug)]
pub struct Interface {
    pub addr: String,
    pub loopback: bool,
}

/// What a waiting client makes of a message.
#[derive(Debug)]
pub enum KeepaliveEvent {
    /// The relay asked for the local addresses; this is to be written in a
    /// frame, and the wait goes on.
    Reply(Vec<u8>),
    /// The peer has come.
    Handshake,
    /// A ping: the wait goes on.
    Ping,
}

/// The client's side of a relay connection.
pub struct RelayClient {
    pub phase: ClientPhase,
    pub key: Option<Pake<SIEC255Params>>,
    pub password: String,
    pub relay_ports: Vec<String>,
    pub external_ip: Option<String>,
    pub disable_local: bool,
    pub shared_secret: String,
    /// The name of the room that the client asks for.
    pub room: Vec<u8>,
}

/// The password that the multiplex ports ask for.
pub open spec fn multiplex_password() -> Seq<char> {
    "pass123"@
}

/// The addresses that a client reports: none where local addresses are
/// disabled; else the relay's first port, then the addresses of the
/// interfaces that are no loopback, in their order.
pub open spec fn reported_ips(
    disable_local: bool,
    relay_ports: Seq<String>,
    interfaces: Seq<Interface>,
) -> Seq<Seq<char>> {
    if disable_local {
        Seq::<Seq<char>>::empty()
    } else {
        seq![relay_ports[0]@] + open_addresses(interfaces)
    }
}

/// The addresses of the interfaces that are no loopback.
pub open spec fn open_addresses(interfaces: Seq<Interface>) -> Seq<Seq<char>>
    decreases interfaces.len(),
{
    if interfaces.len() == 0 {
        Seq::<Seq<char>>::empty()
    } else if interfaces.last().loopback {
        open_addresses(interfaces.drop_last())
    } else {
        open_addresses(interfaces.drop_last()).push(interfaces.last().addr@)
    }
}

/// What an attempt to start the negotiation comes to, for a secret that must
/// be `least` bytes long and with `alpha` as the secret scalar: a secret that
/// is too short is refused; otherwise the client holds a sender's instance of
/// the key exchange with the default password, whose public key is what it
/// writes first, and awaits the relay's key.
pub open spec fn connect_post(
    password: Seq<char>,
    shared_secret: Seq<char>,
    room: Seq<u8>,
    least: nat,
    disable_local: bool,
    alpha: Seq<u8>,
    r: Result<(RelayClient, PakePubKey), RelayClientError>,
) -> bool {
    match r {
        Ok((client, key)) => {
            &&& encoded(shared_secret).len() >= least
            &&& client.wf()
            &&& client.phase is AwaitKey
            &&& client.password@ == password
            &&& client.shared_secret@ == shared_secret
            &&& client.room@ == room
            &&& client.disable_local == disable_local
            &&& client.external_ip is None
            &&& client.relay_ports@.len() == 0
            &&& client.key matches Some(pake) && Some(pake@) == pake_start(
                Role::Sender,
                default_password(),
                alpha,
            ) && key@ == pake@.pub_pake
        },
        Err(e) => if encoded(shared_secret).len() < least {
            e matches RelayClientError::BadSharedSecret(s) && s@ == shared_secret
        } else {
            e is KeyNegotiationFailiure && pake_start(Role::Sender, default_password(), alpha)
                is None
        },
    }
}

impl RelayClient {
    /// While the key is awaited the client holds a sender's instance of the
    /// key exchange; once the room is asked for it knows at least one port
    /// and its own address.
    pub open spec fn wf(&self) -> bool {
        &&& self.phase is AwaitKey ==> (self.key matches Some(pake) && pake.wf()
            && pake@.pub_pake.role == Role::Sender)
        &&& (self.phase is Ready || self.phase is AwaitRoomReply) ==> self.relay_ports@.len() >= 1
            && self.external_ip is Some
    }

    /// Starts the negotiation with the relay, with `alpha` as the secret
    /// scalar of the key exchange. A secret of less than four bytes is refused
    /// before anything else is done. The second part of the result is the
    /// public key that the client writes first.
    pub fn connect_with_alpha(
        password: &str,
        shared_secret: &str,
        disable_local: bool,
        alpha: [u8; 32],
    ) -> (r: Result<(RelayClient, PakePubKey), RelayClientError>)
        ensures
            connect_post(
                password@,
                shared_secret@,
                room_name_of(shared_secret.spec_bytes()),
                4,
                disable_local,
                alpha@,
                r,
            ),
    {
        if shared_secret.as_bytes().len() < 4 {
            return Err(RelayClientError::BadSharedSecret(shared_secret.to_owned()));
        }
        let (pake, key) = match KeyNegotiation::negotiate_symmetric_key_with_alpha(
            Role::Sender,
            alpha,
        ) {
            Ok((negotiation, Some(key))) => (negotiation.key, key),
            _ => { return Err(RelayClientError::KeyNegotiationFailiure); },
        };
        Ok(
            (
                RelayClient {
                    phase: ClientPhase::AwaitKey,
                    key: Some(pake),
                    password: password.to_owned(),
                    relay_ports: Vec::new(),
                    external_ip: None,
                    disable_local,
                    shared_secret: shared_secret.to_owned(),
                    room: room_name(shared_secret),
                },
                key,
            ),
        )
    }

    /// Starts the negotiation for the bulk channel on a multiplex port, with
    /// `alpha` as the secret scalar of the key exchange: the password is the
    /// one of the multiplex ports, and the room is named after the hash of the
    /// secret behind its fifth byte. A secret of less than five bytes has no
    /// such room.
    pub fn connect_bulk_with_alpha(shared_secret: &str, alpha: [u8; 32]) -> (r: Result<
        (RelayClient, PakePubKey),
        RelayClientError,
    >)
        ensures
            connect_post(
                multiplex_password(),
                shared_secret@,
                multiplex_room_name_of(shared_secret.spec_bytes()),
                5,
                false,
                alpha@,
                r,
            ),
    {
        let room = match multiplex_room_name(shared_secret) {
            Some(room) => room,
            None => {
                return Err(RelayClientError::BadSharedSecret(shared_secret.to_owned()));
            },
        };
        let (pake, key) = match KeyNegotiation::negotiate_symmetric_key_with_alpha(
            Role::Sender,
            alpha,
        ) {
            Ok((negotiation, Some(key))) => (negotiation.key, key),
            _ => { return Err(RelayClientError::KeyNegotiationFailiure); },
        };
        Ok(
            (
                RelayClient {
                    phase: ClientPhase::AwaitKey,
                    key: Some(pake),
                    password: "pass123".to_owned(),
                    relay_ports: Vec::new(),
                    external_ip: None,
                    disable_local: false,
                    shared_secret: shared_secret.to_owned(),
                    room,
                },
                key,
            ),
        )
    }

    /// Starts the negotiation for the bulk channel on a multiplex port.
    pub fn connect_bulk(shared_secret: &str) -> (r: Result<
        (RelayClient, PakePubKey),
        RelayClientError,
    >)
        ensures
            shared_secret.spec_bytes().len() < 5 ==> (r matches Err(
                RelayClientError::BadSharedSecret(s),
            ) && s@ == shared_secret@),
            exists|alpha: Seq<u8>|
                alpha.len() == 32 && #[trigger] connect_post(
                    multiplex_password(),
                    shared_secret@,
                    multiplex_room_name_of(shared_secret.spec_bytes()),
                    5,
                    false,
                    alpha,
                    r,
                ),
    {
        if shared_secret.as_bytes().len() < 5 {
            let refused = Err(RelayClientError::BadSharedSecret(shared_secret.to_owned()));
            proof {
                let any = Seq::new(32, |i: int| 0u8);
                assert(connect_post(
                    multiplex_password(),
                    shared_secret@,
                    multiplex_room_name_of(shared_secret.spec_bytes()),
                    5,
                    false,
                    any,
                    refused,
                ));
            }
            return refused;
        }
        let alpha = random_bytes::<32>();
        RelayClient::connect_bulk_with_alpha(shared_secret, alpha)
    }

    /// Starts the negotiation with the relay. A secret of less than four
    /// bytes is refused before anything else is done.
    pub fn connect(password: &str, shared_secret: &str, disable_local: bool) -> (r: Result<
        (RelayClient, PakePubKey),
        RelayClientError,
    >)
        ensures
            shared_secret.spec_bytes().len() < 4 ==> (r matches Err(
                RelayClientError::BadSharedSecret(s),
            ) && s@ == shared_secret@),
            exists|alpha: Seq<u8>|
                alpha.len() == 32 && #[trigger] connect_post(
                    password@,
                    shared_secret@,
                    room_name_of(shared_secret.spec_bytes()),
                    4,
                    disable_local,
                    alpha,
                    r,
                ),
    {
        if shared_secret.as_bytes().len() < 4 {
            let refused = Err(RelayClientError::BadSharedSecret(shared_secret.to_owned()));
            proof {
                let any = Seq::new(32, |i: int| 0u8);
                assert(connect_post(
                    password@,
                    shared_secret@,
                    room_name_of(shared_secret.spec_bytes()),
                    4,
                    disable_local,
                    any,
                    refused,
                ));
            }
            return refused;
        }
        let alpha = random_bytes::<32>();
        RelayClient::connect_with_alpha(password, shared_secret, disable_local, alpha)
    }

    /// Whether only the phase, the key, the ports and the address may have
    /// changed.
    pub open spec fn same_settings(&self, other: &RelayClient) -> bool {
        &&& self.password == other.password
        &&& self.disable_local == other.disable_local
        &&& self.shared_secret == other.shared_secret
        &&& self.room == other.room
    }

    /// Takes the relay's public key. On success the encrypted channel stands:
    /// the client writes its salt in clear and then its password, sealed.
    pub fn on_key(&mut self, peer: PakePubKey) -> (r: Result<ClientStep, RelayClientError>)
        requires
            old(self).wf(),
        ensures
            final(self).wf(),
            final(self).same_settings(old(self)),
            match old(self).phase {
                ClientPhase::AwaitKey => match pake_update(
                    old(self).key->Some_0@,
                    peer@,
                    Seq::<u8>::empty(),
                ) {
                    Ok(done) => match r {
                        Ok(step) => {
                            &&& done.k matches Some(k)
                            &&& final(self).phase matches ClientPhase::AwaitBanner { session }
                            &&& session.encryptor.derived_from(k)
                            &&& step.key is None
                            &&& step.clear matches Some(salt) && salt@ == session.encryptor.salt@
                            &&& step.sealed matches Some(pw) && pw@ == encoded(old(self).password@)
                        },
                        Err(_) => false,
                    },
                    Err(_) => final(self).phase is Failed && refused(
                        r,
                        RelayClientError::KeyNegotiationFailiure,
                    ),
                },
                _ => final(self).phase is Failed && refused(r, RelayClientError::InvalidState),
            },
    {
        match self.phase {
            ClientPhase::AwaitKey => {},
            _ => {
                self.phase = ClientPhase::Failed;
                return Err(RelayClientError::InvalidState);
            },
        }
        let key = match self.key.take() {
            Some(key) => key,
            None => {
                self.phase = ClientPhase::Failed;
                return Err(RelayClientError::InvalidState);
            },
        };
        let sym_key = match (KeyNegotiation { key }).finish(peer) {
            Ok((sym_key, _)) => sym_key,
            Err(_) => {
                self.phase = ClientPhase::Failed;
                return Err(RelayClientError::KeyNegotiationFailiure);
            },
        };
        let nothing: Vec<u8> = Vec::new();
        let (session, salt) = match EncryptedSession::new(
            &sym_key,
            Role::Sender,
            nothing.as_slice(),
        ) {
            Ok(pair) => pair,
            Err(e) => {
                self.phase = ClientPhase::Failed;
                return Err(RelayClientError::Crypto(e));
            },
        };
        let end = self.password.as_str().as_bytes().len();
        let password = copy_range(self.password.as_str().as_bytes(), 0, end);
        proof {
            assert(password@ =~= encoded(self.password@));
        }
        self.phase = ClientPhase::AwaitBanner { session };
        Ok(ClientStep { key: None, clear: salt, sealed: Some(password) })
    }

    /// Takes the payload of a frame of the relay: first the banner, which is
    /// answered with the room's name, then the relay's word on the room.
    pub fn on_frame(&mut self, payload: &[u8]) -> (r: Result<ClientStep, RelayClientError>)
        requires
            old(self).wf(),
        ensures
            final(self).wf(),
            final(self).same_settings(old(self)),
            old(self).phase matches ClientPhase::AwaitBanner { session } ==> forall|text: Seq<u8>|
                #[trigger] session.encryptor.is_sealed(payload@, text) && valid_utf8(text)
                    && !no_separator(text) ==> r is Ok,
            r is Err ==> final(self).relay_ports == old(self).relay_ports,
            r is Err ==> final(self).external_ip == old(self).external_ip,
            final(self).key == old(self).key,
            match old(self).phase {
                ClientPhase::AwaitBanner { session } => {
                    &&& forall|text: Seq<u8>| #[trigger]
                        session.encryptor.is_sealed(payload@, text) ==> match r {
                            Ok(step) => {
                                &&& final(self).phase == (ClientPhase::AwaitRoomReply { session })
                                &&& step.says(old(self).room@)
                                &&& final(self).external_ip matches Some(ip)
                                &&& banner_says(
                                    text,
                                    BannerView {
                                        ports: Seq::new(
                                            final(self).relay_ports@.len(),
                                            |k: int| encoded(final(self).relay_ports@[k]@),
                                        ),
                                        external_ip: encoded(ip@),
                                    },
                                )
                            },
                            Err(e) => final(self).phase is Failed && (e
                                matches RelayClientError::BadResponse(m) && m@ == text),
                        }
                    &&& session.encryptor.is_no_message(payload@) ==> final(self).phase
                        is Failed && refused(
                        r,
                        RelayClientError::Crypto(CryptoError::Authentication),
                    )
                    &&& forall|text: Seq<u8>| #[trigger]
                        session.encryptor.is_sealed(payload@, text) && (no_separator(text)
                            || !valid_utf8(text)) ==> r is Err
                },
                ClientPhase::AwaitRoomReply { session } => {
                    &&& forall|text: Seq<u8>| #[trigger]
                        session.encryptor.is_sealed(payload@, text) ==> if text == ok_text() {
                            final(self).phase is Ready && (r matches Ok(step) && step.silent())
                        } else if text == room_full_text() {
                            final(self).phase is Failed && (r matches Err(
                                RelayClientError::RoomFull(room),
                            ) && room@ == old(self).room@)
                        } else {
                            final(self).phase is Failed && refused(
                                r,
                                RelayClientError::RoomNegotiationFailed,
                            )
                        }
                    &&& session.encryptor.is_no_message(payload@) ==> final(self).phase
                        is Failed && refused(
                        r,
                        RelayClientError::Crypto(CryptoError::Authentication),
                    )
                },
                _ => final(self).phase is Failed && refused(r, RelayClientError::InvalidState),
            },
    {
        match self.phase {
            ClientPhase::AwaitBanner { session } => {
                self.phase = ClientPhase::Failed;
                // Banner/IpAddress
                let message = match session.read(payload) {
                    Ok(text) => text,
                    Err(e) => { return Err(RelayClientError::Crypto(e)); },
                };
                if !is_utf8(message.as_slice()) {
                    return Err(RelayClientError::BadResponse(message));
                }
                let (ports, ipaddr) = match parse_banner(message.as_slice()) {
                    Some(pair) => pair,
                    None => { return Err(RelayClientError::BadResponse(message)); },
                };
                let external_ip = match text_of(ipaddr) {
                    Some(ip) => ip,
                    None => { return Err(RelayClientError::BadResponse(message)); },
                };
                let relay_ports = match pieces_to_texts(&ports) {
                    Some(texts) => texts,
                    None => { return Err(RelayClientError::BadResponse(message)); },
                };
                proof {
                    let i = choose|i: int| first_separator(message@, i);
                    lemma_split_not_empty(
                        message@.subrange(0, i),
                        0x2c,
                        0,
                        Seq::<u8>::empty(),
                        Seq::<Seq<u8>>::empty(),
                    );
                    assert(Seq::new(relay_ports@.len(), |k: int| encoded(relay_ports@[k]@))
                        =~= Seq::new(ports@.len(), |k: int| ports@[k]@));
                }
                self.relay_ports = relay_ports;
                self.external_ip = Some(external_ip);
                // Send room number
                let room = copy_range(self.room.as_slice(), 0, self.room.len());
                assert(room@ =~= self.room@);
                self.phase = ClientPhase::AwaitRoomReply { session };
                Ok(ClientStep { key: None, clear: None, sealed: Some(room) })
            },
            ClientPhase::AwaitRoomReply { session } => {
                self.phase = ClientPhase::Failed;
                let response = match session.read(payload) {
                    Ok(text) => text,
                    Err(e) => { return Err(RelayClientError::Crypto(e)); },
                };
                if bytes_eq(response.as_slice(), text_ok().as_slice()) {
                    self.phase = ClientPhase::Ready;
                    Ok(ClientStep { key: None, clear: None, sealed: None })
                } else if bytes_eq(response.as_slice(), text_room_full().as_slice()) {
                    let room = copy_range(self.room.as_slice(), 0, self.room.len());
                    assert(room@ =~= self.room@);
                    Err(RelayClientError::RoomFull(room))
                } else {
                    Err(RelayClientError::RoomNegotiationFailed)
                }
            },
            _ => {
                self.phase = ClientPhase::Failed;
                Err(RelayClientError::InvalidState)
            },
        }
    }
}

/// What a waiting client, which knows its room, makes of `data`.
pub open spec fn keepalive_post(
    client: &RelayClient,
    data: Seq<u8>,
    interfaces: Seq<Interface>,
    r: Result<KeepaliveEvent, RelayClientError>,
) -> bool {
    if data == ips_text() {
        r matches Ok(KeepaliveEvent::Reply(bytes)) && bytes@ == encoded(
            json_of_strings(reported_ips(client.disable_local, client.relay_ports@, interfaces)),
        )
    } else if data == handshake_text() {
        r matches Ok(KeepaliveEvent::Handshake)
    } else if is_ping(data) {
        r matches Ok(KeepaliveEvent::Ping)
    } else {
        r matches Err(RelayClientError::UnknownKeepaliveMessage(m)) && m@ == data
    }
}

impl RelayClient {
    /// Takes a message that arrived while the client waits for its peer.
    ///
    /// - `ips?` is answered with the JSON array of the addresses that the
    ///   client reports.
    /// - `handshake` ends the wait: the peer has come.
    /// - A ping is passed over.
    /// - Anything else is a fault.
    pub fn handle_keepalive(&self, data: Vec<u8>, interfaces: &Vec<Interface>) -> (r: Result<
        KeepaliveEvent,
        RelayClientError,
    >)
        requires
            self.wf(),
        ensures
            if self.phase is Ready {
                keepalive_post(self, data@, interfaces@, r)
            } else {
                r matches Err(RelayClientError::InvalidState)
            },
    {
        match self.phase {
            ClientPhase::Ready => {},
            _ => { return Err(RelayClientError::InvalidState); },
        }
        if bytes_eq(data.as_slice(), text_ips().as_slice()) {
            let mut ips: Vec<String> = Vec::new();
            if !self.disable_local {
                ips.push(self.relay_ports[0].clone());
                let ghost first = self.relay_ports@[0]@;
                let mut i: usize = 0;
                while i < interfaces.len()
                    invariant
                        i <= interfaces.len(),
                        texts_of(ips@) == seq![first] + open_addresses(
                            interfaces@.take(i as int),
                        ),
                    decreases interfaces.len() - i,
                {
                    let ghost before = ips@;
                    proof {
                        assert(interfaces@.take(i + 1).drop_last() =~= interfaces@.take(i as int));
                    }
                    if !interfaces[i].loopback {
                        ips.push(interfaces[i].addr.clone());
                        proof {
                            assert(texts_of(ips@) =~= texts_of(before).push(
                                interfaces@[i as int].addr@,
                            ));
                            assert(texts_of(ips@) =~= seq![first] + open_addresses(
                                interfaces@.take(i + 1),
                            ));
                        }
                    }
                    i = i + 1;
                }
                proof {
                    assert(interfaces@.take(interfaces.len() as int) =~= interfaces@);
                }
            } else {
                proof {
                    assert(texts_of(ips@) =~= Seq::<Seq<char>>::empty());
                }
            }
            let outbips = match json_array(&ips) {
                Some(text) => text,
                None => { return Err(RelayClientError::InvalidState); },
            };
            let end = outbips.as_str().as_bytes().len();
            let bytes = copy_range(outbips.as_str().as_bytes(), 0, end);
            proof {
                assert(bytes@ =~= encoded(outbips@));
            }
            Ok(KeepaliveEvent::Reply(bytes))
        } else if bytes_eq(data.as_slice(), text_handshake().as_slice()) {
            Ok(KeepaliveEvent::Handshake)
        } else if data.len() == 1 && data[0] == 1u8 {
            Ok(KeepaliveEvent::Ping)
        } else {
            Err(RelayClientError::UnknownKeepaliveMessage(data))
        }
    }

    /// The session of the sending client, once the wait has ended with the
    /// peer's handshake.
    pub fn wait_for_receiver(self) -> (r: Result<ClientSession, RelayClientError>)
        requires
            self.wf(),
        ensures
            match r {
                Ok(session) => {
                    &&& self.phase is Ready
                    &&& session.wf()
                    &&& session.is_sender
                    &&& session.state == ClientState::KeyExchange
                    &&& session.relay_ports == self.relay_ports
                    &&& session.shared_secret == self.shared_secret
                    &&& Some(session.external_ip) == self.external_ip
                },
                Err(e) => !(self.phase is Ready) && e is InvalidState,
            },
    {
        match self.phase {
            ClientPhase::Ready => {},
            _ => { return Err(RelayClientError::InvalidState); },
        }
        match self.external_ip {
            Some(external_ip) => Ok(
                ClientSession::new(self.relay_ports, self.shared_secret, true, external_ip),
            ),
            None => Err(RelayClientError::InvalidState),
        }
    }

    /// The session of the receiving client, and the handshake that it writes
    /// in a frame to tell the waiting sender that it has come.
    pub fn connect_to_sender(self) -> (r: Result<(ClientSession, Vec<u8>), RelayClientError>)
        requires
            self.wf(),
        ensures
            match r {
                Ok((session, handshake)) => {
                    &&& self.phase is Ready
                    &&& handshake@ == handshake_text()
                    &&& session.wf()
                    &&& !session.is_sender
                    &&& session.state == ClientState::KeyExchange
                    &&& session.relay_ports == self.relay_ports
                    &&& session.shared_secret == self.shared_secret
                    &&& Some(session.external_ip) == self.external_ip
                },
                Err(e) => !(self.phase is Ready) && e is InvalidState,
            },
    {
        match self.phase {
            ClientPhase::Ready => {},
            _ => { return Err(RelayClientError::InvalidState); },
        }
        match self.external_ip {
            Some(external_ip) => Ok(
                (
                    ClientSession::new(self.relay_ports, self.shared_secret, false, external_ip),
                    text_handshake(),
                ),
            ),
            None => Err(RelayClientError::InvalidState),
        }
    }
}

/// Whether every piece is well-formed UTF-8.
pub open spec fn all_utf8(pieces: Seq<Vec<u8>>) -> bool {
    forall|k: int| 0 <= k < pieces.len() ==> valid_utf8(#[trigger] pieces[k]@)
}

/// The texts that the pieces encode, one for each piece and in their order;
/// or nothing where one of the pieces is not UTF-8.
fn pieces_to_texts(pieces: &Vec<Vec<u8>>) -> (r: Option<Vec<String>>)
    ensures
        r is Some <==> all_utf8(pieces@),
        r matches Some(texts) ==> texts@.len() == pieces@.len() && forall|k: int|
            0 <= k < texts@.len() ==> encoded((#[trigger] texts@[k])@) == pieces@[k]@,
{
    let mut texts: Vec<String> = Vec::new();
    let mut i: usize = 0;
    while i < pieces.len()
        invariant
            i <= pieces.len(),
            texts@.len() == i,
            forall|k: int| 0 <= k < i ==> valid_utf8(#[trigger] pieces@[k]@),
            forall|k: int| 0 <= k < i ==> encoded((#[trigger] texts@[k])@) == pieces@[k]@,
        decreases pieces.len() - i,
    {
        let piece = copy_range(pieces[i].as_slice(), 0, pieces[i].len());
        assert(piece@ =~= pieces@[i as int]@);
        match text_of(piece) {
            Some(text) => { texts.push(text); },
            None => {
                assert(!valid_utf8(pieces@[i as int]@));
                return None;
            },
        }
        i = i + 1;
    }
    Some(texts)
}

/// Splitting yields at least one piece.
pub proof fn lemma_split_not_empty(s: Seq<u8>, c: u8, i: int, cur: Seq<u8>, acc: Seq<Seq<u8>>)
    requires
        0 <= i,
    ensures
        split_from(s, c, i, cur, acc).len() >= acc.len() + 1,
    decreases s.len() - i,
{
    if i < s.len() {
        if s[i] == c {
            lemma_split_not_empty(s, c, i + 1, Seq::<u8>::empty(), acc.push(cur));
        } else {
            lemma_split_not_empty(s, c, i + 1, cur.push(s[i]), acc);
        }
    }
}

/// A string without the byte `c` behind position `i` ends in one piece.
pub proof fn lemma_split_tail(s: Seq<u8>, c: u8, i: int, cur: Seq<u8>, acc: Seq<Seq<u8>>)
    requires
        0 <= i <= s.len(),
        forall|j: int| i <= j < s.len() ==> s[j] != c,
    ensures
        split_from(s, c, i, cur, acc) == acc.push(cur + s.subrange(i, s.len() as int)),
    decreases s.len() - i,
{
    if i < s.len() {
        lemma_split_tail(s, c, i + 1, cur.push(s[i]), acc);
        assert(cur.push(s[i]) + s.subrange(i + 1, s.len() as int) =~= cur + s.subrange(
            i,
            s.len() as int,
        ));
    } else {
        assert(cur + s.subrange(i, s.len() as int) =~= cur);
    }
}

/// Bytes other than `c` at the end of a string lengthen its last piece.
pub proof fn lemma_split_append(
    s: Seq<u8>,
    t: Seq<u8>,
    c: u8,
    i: int,
    cur: Seq<u8>,
    acc: Seq<Seq<u8>>,
)
    requires
        0 <= i <= s.len(),
        forall|j: int| 0 <= j < t.len() ==> t[j] != c,
    ensures
        split_from(s + t, c, i, cur, acc) == ({
            let r = split_from(s, c, i, cur, acc);
            r.drop_last().push(r.last() + t)
        }),
    decreases s.len() - i,
{
    let st = s + t;
    if i < s.len() {
        assert(st[i] == s[i]);
        if s[i] == c {
            lemma_split_append(s, t, c, i + 1, Seq::<u8>::empty(), acc.push(cur));
        } else {
            lemma_split_append(s, t, c, i + 1, cur.push(s[i]), acc);
        }
    } else {
        lemma_split_tail(st, c, i, cur, acc);
        assert(st.subrange(i, st.len() as int) =~= t);
        assert(acc.push(cur).drop_last() =~= acc);
    }
}

/// The byte `c` at the end of a string begins an empty piece.
pub proof fn lemma_split_separator(s: Seq<u8>, c: u8, i: int, cur: Seq<u8>, acc: Seq<Seq<u8>>)
    requires
        0 <= i <= s.len(),
    ensures
        split_from(s.push(c), c, i, cur, acc) == split_from(s, c, i, cur, acc).push(
            Seq::<u8>::empty(),
        ),
    decreases s.len() - i,
{
    let sc = s.push(c);
    if i < s.len() {
        assert(sc[i] == s[i]);
        if s[i] == c {
            lemma_split_separator(s, c, i + 1, Seq::<u8>::empty(), acc.push(cur));
        } else {
            lemma_split_separator(s, c, i + 1, cur.push(s[i]), acc);
        }
    } else {
        assert(sc[i] == c);
        assert(split_from(sc, c, i + 1, Seq::<u8>::empty(), acc.push(cur)) == acc.push(cur).push(
            Seq::<u8>::empty(),
        ));
    }
}

/// Decimal digits are digits.
pub proof fn lemma_decimal_is_digits(n: nat)
    ensures
        decimal(n).len() >= 1,
        forall|j: int| 0 <= j < decimal(n).len() ==> 0x30 <= #[trigger] decimal(n)[j] <= 0x39,
    decreases n,
{
    if n >= 10 {
        lemma_decimal_is_digits(n / 10);
    }
}

/// A list of ports holds no bar.
pub proof fn lemma_csv_is_digits_and_commas(ports: Seq<u16>)
    ensures
        forall|j: int| 0 <= j < csv(ports).len() ==> #[trigger] csv(ports)[j] != 0x7c,
    decreases ports.len(),
{
    if ports.len() == 1 {
        lemma_decimal_is_digits(ports[0] as nat);
    } else if ports.len() > 1 {
        let head = csv(ports.drop_last());
        let d = decimal(ports.last() as nat);
        lemma_csv_is_digits_and_commas(ports.drop_last());
        lemma_decimal_is_digits(ports.last() as nat);
        assert forall|j: int| 0 <= j < csv(ports).len() implies #[trigger] csv(ports)[j]
            != 0x7c by {
            if j < head.len() {
                assert(csv(ports)[j] == head[j]);
            } else if j == head.len() {
                assert(csv(ports)[j] == 0x2c);
            } else {
                assert(csv(ports)[j] == d[j - head.len() - 1]);
            }
        }
    }
}

/// The ports in decimal.
pub open spec fn port_texts(ports: Seq<u16>) -> Seq<Seq<u8>> {
    Seq::new(ports.len(), |k: int| decimal(ports[k] as nat))
}

/// What a banner announces as the relay's ports: their decimal texts, or the
/// one text `ok` where the relay has none.
pub open spec fn announced_ports(ports: Seq<u16>) -> Seq<Seq<u8>> {
    if ports.len() == 0 {
        seq![ok_text()]
    } else {
        port_texts(ports)
    }
}

/// A list of ports splits at its commas into the ports.
pub proof fn lemma_split_csv(ports: Seq<u16>)
    requires
        ports.len() >= 1,
    ensures
        split_on(csv(ports), 0x2c) == port_texts(ports),
    decreases ports.len(),
{
    let nothing = Seq::<u8>::empty();
    let none = Seq::<Seq<u8>>::empty();
    if ports.len() == 1 {
        let d = decimal(ports[0] as nat);
        lemma_decimal_is_digits(ports[0] as nat);
        lemma_split_tail(d, 0x2c, 0, nothing, none);
        assert(nothing + d.subrange(0, d.len() as int) =~= d);
        assert(none.push(d) =~= port_texts(ports));
    } else {
        let init = ports.drop_last();
        let d = decimal(ports.last() as nat);
        lemma_split_csv(init);
        lemma_decimal_is_digits(ports.last() as nat);
        lemma_split_separator(csv(init), 0x2c, 0, nothing, none);
        lemma_split_append(csv(init).push(0x2c), d, 0x2c, 0, nothing, none);
        assert(csv(init).push(0x2c) + d =~= csv(init) + seq![0x2cu8] + d);
        let r = port_texts(init).push(nothing);
        assert(r.drop_last() =~= port_texts(init));
        assert(r.last() + d =~= d);
        assert(port_texts(init).push(d) =~= port_texts(ports));
    }
}

/// What the relay's banner is built from, the client reads out of it: the
/// ports, or `ok` in their place, and the address, as long as the address
/// does not hold the separator itself.
pub proof fn lemma_banner_round_trip(ports: Seq<u16>, peer_addr: Seq<u8>)
    requires
        no_separator(peer_addr),
    ensures
        banner_says(
            banner_of(ports, peer_addr),
            BannerView { ports: announced_ports(ports), external_ip: peer_addr },
        ),
{
    let head = if ports.len() == 0 {
        ok_text()
    } else {
        csv(ports)
    };
    let msg = banner_of(ports, peer_addr);
    let i = head.len() as int;
    let nothing = Seq::<u8>::empty();
    let none = Seq::<Seq<u8>>::empty();
    assert(msg =~= head + separator_text() + peer_addr);
    assert(separator_at(msg, i));
    if ports.len() == 0 {
        lemma_split_tail(head, 0x2c, 0, nothing, none);
        assert(nothing + head.subrange(0, head.len() as int) =~= head);
        assert(none.push(head) =~= announced_ports(ports));
    } else {
        lemma_csv_is_digits_and_commas(ports);
        lemma_split_csv(ports);
    }
    assert forall|j: int| 0 <= j < i implies !separator_at(msg, j) by {
        assert(msg[j] == head[j]);
    }
    assert(first_separator(msg, i));
    assert(msg.subrange(0, i) =~= head);
    assert(msg.subrange(i + 3, msg.len() as int) =~= peer_addr);
}

/// A byte below 128 in well-formed UTF-8 stands alone: what is before it and
/// what is behind it are well-formed too.
pub proof fn lemma_utf8_around_ascii(s: Seq<u8>, i: int)
    requires
        valid_utf8(s),
        0 <= i < s.len(),
        s[i] < 0x80,
    ensures
        valid_utf8(s.subrange(0, i)),
        valid_utf8(s.subrange(i + 1, s.len() as int)),
{
    vstd::utf8::is_char_boundary_iff_not_is_continuation_byte(s, i);
    vstd::utf8::valid_utf8_split(s, i);
    let t = s.subrange(i, s.len() as int);
    assert(t[0] == s[i]);
    assert(vstd::utf8::pop_first_scalar(t) =~= s.subrange(i + 1, s.len() as int));
}

/// The pieces into which well-formed UTF-8 falls at a byte below 128 are
/// well-formed. Here `cur` is what stands in `s` from `start`, behind the
/// last such byte, up to `i`, and `acc` holds well-formed pieces.
pub proof fn lemma_split_pieces_utf8(
    s: Seq<u8>,
    c: u8,
    start: int,
    i: int,
    cur: Seq<u8>,
    acc: Seq<Seq<u8>>,
)
    requires
        valid_utf8(s),
        c < 0x80,
        0 <= start <= i <= s.len(),
        start == 0 || s[start - 1] == c,
        cur =~= s.subrange(start, i),
        forall|k: int| 0 <= k < acc.len() ==> valid_utf8(#[trigger] acc[k]),
    ensures
        forall|k: int|
            0 <= k < split_from(s, c, i, cur, acc).len() ==> valid_utf8(
                #[trigger] split_from(s, c, i, cur, acc)[k],
            ),
    decreases s.len() - i,
{
    let len = s.len() as int;
    let tail = s.subrange(start, len);
    assert(valid_utf8(tail)) by {
        if start == 0 {
            assert(tail =~= s);
        } else {
            lemma_utf8_around_ascii(s, start - 1);
        }
    }
    let pieces = acc.push(cur);
    if i >= len {
        assert(cur =~= tail);
        assert(split_from(s, c, i, cur, acc) == pieces);
        assert forall|k: int| 0 <= k < pieces.len() implies valid_utf8(#[trigger] pieces[k]) by {
            if k < acc.len() {
                assert(pieces[k] == acc[k]);
            }
        }
    } else if s[i] == c {
        assert(valid_utf8(cur)) by {
            assert(tail[i - start] == s[i]);
            lemma_utf8_around_ascii(tail, i - start);
            assert(tail.subrange(0, i - start) =~= cur);
        }
        assert forall|k: int| 0 <= k < pieces.len() implies valid_utf8(#[trigger] pieces[k]) by {
            if k < acc.len() {
                assert(pieces[k] == acc[k]);
            }
        }
        lemma_split_pieces_utf8(s, c, i + 1, i + 1, Seq::<u8>::empty(), pieces);
        assert(split_from(s, c, i, cur, acc) == split_from(
            s,
            c,
            i + 1,
            Seq::<u8>::empty(),
            pieces,
        ));
    } else {
        assert(cur.push(s[i]) =~= s.subrange(start, i + 1));
        lemma_split_pieces_utf8(s, c, start, i + 1, cur.push(s[i]), acc);
        assert(split_from(s, c, i, cur, acc) == split_from(s, c, i + 1, cur.push(s[i]), acc));
    }
}

} // verus!
