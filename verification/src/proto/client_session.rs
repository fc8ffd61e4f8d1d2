//! The session of two paired clients: key exchange, exchange of addresses,
//! the manifest, and the files.
//!
//! The session decides; it neither reads nor writes. It is told what arrived
//! and answers with the list of things to do, in their order.

use crate::crypto::aes::{AesEncryptor, CryptoError};
use crate::crypto::curve::SIEC255Params;
use crate::crypto::pake::{
    pake_start, pake_update, Error, Pake, PakePubKey, PakeView, PubKeyView, Role,
};
use crate::crypto::random::random_bytes;
use crate::proto::croc_enc::EncryptedSession;
use crate::proto::croc_msg::{
    count_of, ExternalIPMessage, FileInfo, FilesInformation, Message, PakeMessage,
    RemoteFileRequest, TypeErrorMessage,
};
use crate::proto::croc_raw::{bytes_eq, ProtoError};
use crate::relay::client::{multiplex_room_name, multiplex_room_name_of};
use crate::relay::fs::{chunks_of, expected_chunks};
use crate::relay::text::{encoded, siec_text, text_siec};
use vstd::prelude::*;

verus! {

/// How far a session has come. It only moves forward.
#[derive(PartialEq, Eq, Structural, Clone, Copy, Debug)]
pub enum ClientState {
    KeyExchange,
    IpExchange,
    FileInfoTransfare,
    FileTransfare,
    FileTransfared,
}

impl ClientState {
    /// The place of a state in the order in which a session passes through
    /// its states.
    pub open spec fn rank(self) -> nat {
        match self {
            ClientState::KeyExchange => 0,
            ClientState::IpExchange => 1,
            ClientState::FileInfoTransfare => 2,
            ClientState::FileTransfare => 3,
            ClientState::FileTransfared => 4,
        }
    }
}

/// Why a session ended.
#[derive(Debug)]
pub enum SessionError {
    /// The relay named no port for the bulk channel.
    NoRelayPort,
    /// The shared secret is too short to hold a password behind the room's
    /// name.
    BadSharedSecret,
    /// The peer's public key could not be read.
    BadKey,
    /// The curve is not supported, or no key exchange was begun.
    Proto(ProtoError),
    /// The key exchange failed.
    Pake(Error),
    /// The salt is malformed.
    Crypto(CryptoError),
    /// A message arrived that the session's state has no use for.
    InvalidState,
    /// The receiver refused the files.
    TransferDenied,
}

/// One thing for the owner of the sockets and files to do.
#[derive(PartialEq, Eq, Clone, Copy, Debug)]
#[allow(inconsistent_fields)]
pub enum Action {
    /// Open the bulk channel: connect to the relay's first port, give the
    /// multiplex password, and ask for the room `bulk_room`.
    OpenBulkChannel,
    /// Send the key exchange message: this side's public key, and the curve's
    /// name or, where a salt is given, the salt.
    SendKey { salt: Option<[u8; 8]> },
    /// Start the workers that seal and open chunks with the session's
    /// envelope.
    StartWorkers,
    /// Send this side's external address.
    SendExternalIp,
    /// Send the manifest.
    SendFilesInfo,
    /// Ask the user whether to receive so many items of so many bytes, and
    /// hand the answer to `on_confirmation`.
    Confirm { total_items: usize, total_size: i64 },
    /// Send the error `refusing files`.
    SendRefusal,
    /// Create the empty folders of the manifest.
    CreateEmptyFolders,
    /// Send `finished`.
    SendFinished,
    /// Create the file `index` of the manifest, in its declared size.
    CreateFile { index: usize },
    /// Ask the sender for file `index`.
    SendRecipientReady { index: i64 },
    /// Take `count` chunks off the bulk channel into file `index`.
    ReceiveChunks { index: usize, count: u64 },
    /// Stream file `index` of the manifest over the bulk channel: the chunks
    /// that `chunk_plan` gives for the file's length on disk, in their order.
    StreamFile { index: usize },
    /// Close the connection.
    Close,
}

/// What a session answers: the things to do, and the fault, if any, that ends
/// the session once they are done.
#[derive(Debug)]
pub struct Step {
    pub actions: Vec<Action>,
    pub error: Option<SessionError>,
}

impl Step {
    /// Whether these are the things to do and the session goes on.
    pub open spec fn does(&self, actions: Seq<Action>) -> bool {
        self.actions@ == actions && self.error is None
    }

    /// Whether the session ends at once with this fault.
    pub open spec fn fails_with(&self, error: SessionError) -> bool {
        self.actions@.len() == 0 && self.error == Some(error)
    }
}

/// The session of one of two paired clients.
pub struct ClientSession {
    pub state: ClientState,
    pub relay_ports: Vec<String>,
    pub encrypted_session: Option<EncryptedSession>,
    pub shared_secret: String,
    pub is_sender: bool,
    pub external_ip: String,
    pub peer_external_ip: Option<String>,
    pub key: Option<Pake<SIEC255Params>>,
    /// The manifest that the sender announced, on the receiver's side.
    pub files_to_receive: Option<FilesInformation>,
    /// The manifest to announce, on the sender's side.
    pub files_to_send: Option<FilesInformation>,
    /// The room of the bulk channel, once the session has started.
    pub bulk_room: Option<Vec<u8>>,
    /// Whether the user's answer to the manifest is awaited.
    pub awaiting_confirmation: bool,
}

/// What the receiver does for the files of a manifest, one after the other:
/// create the file, ask for it, and take its chunks.
pub open spec fn receive_plan(files: Seq<FileInfo>) -> Seq<Action>
    decreases files.len(),
{
    if files.len() == 0 {
        Seq::<Action>::empty()
    } else {
        let index = files.len() - 1;
        receive_plan(files.drop_last()) + seq![
            Action::CreateFile { index: index as usize },
            Action::SendRecipientReady { index: index as i64 },
            Action::ReceiveChunks {
                index: index as usize,
                count: chunks_of(files.last().size as int) as u64,
            },
        ]
    }
}

/// The password of the inner key exchange: the shared secret behind its fifth
/// byte.
pub open spec fn inner_password(secret: Seq<char>) -> Seq<u8> {
    encoded(secret).subrange(5, encoded(secret).len() as int)
}

fn fail(error: SessionError) -> (r: Step)
    ensures
        r.fails_with(error),
{
    Step { actions: Vec::new(), error: Some(error) }
}

impl ClientSession {
    /// Whatever the session holds of a key exchange is usable.
    pub open spec fn wf(&self) -> bool {
        self.key matches Some(pake) ==> pake.wf()
    }

    /// Whether nothing but the state, the keys, the peer's address and the
    /// manifest received may differ.
    pub open spec fn same_identity(&self, other: &ClientSession) -> bool {
        &&& self.relay_ports == other.relay_ports
        &&& self.shared_secret == other.shared_secret
        &&& self.is_sender == other.is_sender
        &&& self.external_ip == other.external_ip
        &&& self.files_to_send == other.files_to_send
        &&& self.bulk_room == other.bulk_room
    }

    /// Whether nothing at all differs but what `same_identity` leaves open,
    /// and of that nothing but the state.
    pub open spec fn only_state_moved(&self, other: &ClientSession) -> bool {
        &&& self.same_identity(other)
        &&& self.encrypted_session == other.encrypted_session
        &&& self.peer_external_ip == other.peer_external_ip
        &&& self.key == other.key
        &&& self.files_to_receive == other.files_to_receive
        &&& self.awaiting_confirmation == other.awaiting_confirmation
    }

    /// A session at its start.
    pub fn new(
        relay_ports: Vec<String>,
        shared_secret: String,
        is_sender: bool,
        external_ip: String,
    ) -> (r: ClientSession)
        ensures
            r.wf(),
            r.state == ClientState::KeyExchange,
            r.relay_ports == relay_ports,
            r.shared_secret == shared_secret,
            r.is_sender == is_sender,
            r.external_ip == external_ip,
            r.encrypted_session is None,
            r.peer_external_ip is None,
            r.key is None,
            r.files_to_receive is None,
            r.files_to_send is None,
            r.bulk_room is None,
            !r.awaiting_confirmation,
    {
        ClientSession {
            state: ClientState::KeyExchange,
            relay_ports,
            encrypted_session: None,
            shared_secret,
            is_sender,
            external_ip,
            peer_external_ip: None,
            key: None,
            files_to_receive: None,
            files_to_send: None,
            bulk_room: None,
            awaiting_confirmation: false,
        }
    }

    /// What the beginning does to a session, with `alpha` as the receiver's
    /// secret scalar: a session without a port, or with a secret of less than five
    /// bytes, fails; otherwise the bulk channel is to be opened, and the
    /// receiver begins the key exchange.
    pub open spec fn process_client_post(
        &self,
        after: &ClientSession,
        files: Option<FilesInformation>,
        alpha: Seq<u8>,
        r: &Step,
    ) -> bool {
        if self.relay_ports@.len() == 0 {
            r.fails_with(SessionError::NoRelayPort)
        } else if encoded(self.shared_secret@).len() < 5 {
            r.fails_with(SessionError::BadSharedSecret)
        } else if self.is_sender {
            &&& r.does(seq![Action::OpenBulkChannel])
            &&& after.files_to_send == files
            &&& after.bulk_room matches Some(room) && room@ == multiplex_room_name_of(
                encoded(self.shared_secret@),
            )
        } else {
            match pake_start(Role::Sender, inner_password(self.shared_secret@), alpha) {
                Some(start) => {
                    &&& r.does(
                        seq![Action::OpenBulkChannel, Action::SendKey { salt: None }],
                    )
                    &&& after.key matches Some(pake) && pake@ == start
                    &&& after.files_to_send == files
                    &&& after.bulk_room matches Some(room) && room@
                        == multiplex_room_name_of(encoded(self.shared_secret@))
                },
                None => r.actions@.len() == 0 && (r.error matches Some(
                    SessionError::Pake(_),
                )),
            }
        }
    }

    /// Begins the processing of a client, with `alpha` as the receiver's
    /// secret scalar. The bulk channel is opened; the receiver then begins the
    /// key exchange, in the sender's role of it, with the secret behind its
    /// fifth byte as the password. What follows is decided message by message,
    /// by `on_message`.
    pub fn process_client_with_alpha(&mut self, files: Option<FilesInformation>, alpha: [u8; 32]) -> (r:
        Step)
        requires
            old(self).wf(),
        ensures
            final(self).wf(),
            final(self).relay_ports == old(self).relay_ports,
            final(self).shared_secret == old(self).shared_secret,
            final(self).is_sender == old(self).is_sender,
            final(self).external_ip == old(self).external_ip,
            final(self).state == old(self).state,
            old(self).process_client_post(final(self), files, alpha@, &r),
    {
        if self.relay_ports.len() == 0 {
            return fail(SessionError::NoRelayPort);
        }
        let room = match multiplex_room_name(self.shared_secret.as_str()) {
            Some(room) => room,
            None => { return fail(SessionError::BadSharedSecret); },
        };
        let mut actions: Vec<Action> = Vec::new();
        actions.push(Action::OpenBulkChannel);
        if !self.is_sender {
            let secret = self.shared_secret.as_str().as_bytes();
            let password = vstd::slice::slice_subrange(secret, 5, secret.len());
            let pake = match Pake::with_alpha(Role::Sender, Some(password), alpha) {
                Ok(pake) => pake,
                Err(e) => { return Step { actions: Vec::new(), error: Some(SessionError::Pake(e)) }; },
            };
            self.key = Some(pake);
            actions.push(Action::SendKey { salt: None });
            proof {
                assert(actions@ =~= seq![Action::OpenBulkChannel, Action::SendKey { salt: None }]);
            }
        } else {
            proof {
                assert(actions@ =~= seq![Action::OpenBulkChannel]);
            }
        }
        self.files_to_send = files;
        self.bulk_room = Some(room);
        Step { actions, error: None }
    }

    /// Begins the processing of a client; the receiver's secret scalar is
    /// drawn at random.
    pub fn process_client(&mut self, files: Option<FilesInformation>) -> (r: Step)
        requires
            old(self).wf(),
        ensures
            final(self).wf(),
            final(self).relay_ports == old(self).relay_ports,
            final(self).shared_secret == old(self).shared_secret,
            final(self).is_sender == old(self).is_sender,
            final(self).external_ip == old(self).external_ip,
            final(self).state == old(self).state,
            exists|alpha: Seq<u8>|
                alpha.len() == 32 && #[trigger] old(self).process_client_post(
                    final(self),
                    files,
                    alpha,
                    &r,
                ),
    {
        let alpha = random_bytes::<32>();
        self.process_client_with_alpha(files, alpha)
    }
}

/// The view of an optional instance of the key exchange.
pub open spec fn key_view(key: Option<Pake<SIEC255Params>>) -> Option<PakeView> {
    match key {
        Some(pake) => Some(pake@),
        None => None,
    }
}

/// Whether a manifest can be worked on: its totals fit their integers, and
/// its files can be numbered.
pub open spec fn manifest_fits(files: &FilesInformation) -> bool {
    files.totals_fit() && count_of(files.files_to_transfare) <= i64::MAX
}

/// Whether the files of a manifest can be numbered.
fn countable(files: &FilesInformation) -> (r: bool)
    ensures
        r == (count_of(files.files_to_transfare) <= i64::MAX),
{
    match &files.files_to_transfare {
        Some(v) => v.len() as u64 <= 0x7fff_ffff_ffff_ffffu64,
        None => true,
    }
}

impl ClientSession {
    /// Whether the two sessions are the same but for the representation of the
    /// numbers in their keys.
    pub open spec fn unchanged(&self, other: &ClientSession) -> bool {
        &&& self.same_identity(other)
        &&& self.state == other.state
        &&& self.encrypted_session == other.encrypted_session
        &&& self.peer_external_ip == other.peer_external_ip
        &&& key_view(self.key) == key_view(other.key)
        &&& self.files_to_receive == other.files_to_receive
        &&& self.awaiting_confirmation == other.awaiting_confirmation
    }

    /// What a key exchange message does to a session in the state
    /// `KeyExchange`.
    ///
    /// The sending client answers the receiver's opening: the curve must be
    /// `siec`; it plays the receiver's role of the exchange with the secret
    /// behind its fifth byte as the password, replies with its public key and
    /// the salt, and seals from then on with the session key and that salt.
    /// The receiving client takes the reply into the exchange it began, reads
    /// the salt from the message, seals likewise, and sends its address.
    pub open spec fn key_exchange_post(
        &self,
        after: &ClientSession,
        msg: &PakeMessage,
        peer: PubKeyView,
        alpha: Seq<u8>,
        salt: [u8; 8],
        r: &Step,
    ) -> bool {
        if self.is_sender {
            if msg.bytes2@ != siec_text() {
                r.fails_with(SessionError::Proto(ProtoError::CurveNotSupported)) && after.unchanged(
                    self,
                )
            } else if encoded(self.shared_secret@).len() < 5 {
                r.fails_with(SessionError::BadSharedSecret) && after.unchanged(self)
            } else {
                match pake_start(Role::Reciever, inner_password(self.shared_secret@), alpha) {
                    Some(start) => match pake_update(start, peer, alpha) {
                        Ok(done) => {
                            &&& done.k matches Some(k)
                            &&& key_view(after.key) == Some(done)
                            &&& after.encrypted_session matches Some(session)
                            &&& session.encryptor.salt == salt
                            &&& session.encryptor.derived_from(k)
                            &&& after.state == ClientState::IpExchange
                            &&& r.does(
                                seq![Action::SendKey { salt: Some(salt) }, Action::StartWorkers],
                            )
                        },
                        Err(e) => {
                            &&& r.actions@.len() == 0
                            &&& r.error matches Some(SessionError::Pake(err))
                            &&& err@ == e
                            &&& after.unchanged(self)
                        },
                    },
                    None => false,
                }
            }
        } else {
            match self.key {
                None => r.fails_with(SessionError::Proto(ProtoError::CurveNotInitialized))
                    && after.unchanged(self),
                Some(pake) => match pake_update(pake@, peer, alpha) {
                    Ok(done) => {
                        &&& done.k matches Some(k)
                        &&& key_view(after.key) == Some(done)
                        &&& if msg.bytes2@.len() != 8 {
                            &&& r.fails_with(SessionError::Crypto(CryptoError::KDF))
                            &&& after.state == self.state
                            &&& after.encrypted_session == self.encrypted_session
                        } else {
                            &&& after.encrypted_session matches Some(session)
                            &&& session.encryptor.salt@ == msg.bytes2@
                            &&& session.encryptor.derived_from(k)
                            &&& after.state == ClientState::IpExchange
                            &&& r.does(seq![Action::SendExternalIp, Action::StartWorkers])
                        }
                    },
                    Err(e) => {
                        &&& r.actions@.len() == 0
                        &&& r.error matches Some(SessionError::Pake(err))
                        &&& err@ == e
                        &&& after.unchanged(self)
                    },
                },
            }
        }
    }

    /// Takes a key exchange message whose public key was read as `peer`.
    /// `alpha` and `salt` are the secret scalar and the salt that the sending
    /// client uses.
    pub fn process_key_exchange(
        &mut self,
        msg: PakeMessage,
        peer: PakePubKey,
        alpha: [u8; 32],
        salt: [u8; 8],
    ) -> (r: Step)
        requires
            old(self).wf(),
        ensures
            final(self).wf(),
            final(self).state.rank() >= old(self).state.rank(),
            final(self).same_identity(old(self)),
            final(self).peer_external_ip == old(self).peer_external_ip,
            final(self).files_to_receive == old(self).files_to_receive,
            final(self).awaiting_confirmation == old(self).awaiting_confirmation,
            if old(self).state != ClientState::KeyExchange {
                r.fails_with(SessionError::InvalidState) && final(self).unchanged(old(self))
            } else {
                old(self).key_exchange_post(final(self), &msg, peer@, alpha@, salt, &r)
            },
    {
        if self.state != ClientState::KeyExchange {
            return fail(SessionError::InvalidState);
        }
        if self.is_sender {
            if !bytes_eq(msg.bytes2.as_slice(), text_siec().as_slice()) {
                return fail(SessionError::Proto(ProtoError::CurveNotSupported));
            }
            let secret = self.shared_secret.as_str().as_bytes();
            if secret.len() < 5 {
                return fail(SessionError::BadSharedSecret);
            }
            let password = vstd::slice::slice_subrange(secret, 5, secret.len());
            let mut key = match Pake::with_alpha(Role::Reciever, Some(password), alpha) {
                Ok(key) => key,
                Err(e) => { return Step { actions: Vec::new(), error: Some(SessionError::Pake(e)) }; },
            };
            match key.update_with_alpha(peer, alpha) {
                Ok(_) => {},
                Err(e) => { return Step { actions: Vec::new(), error: Some(SessionError::Pake(e)) }; },
            }
            let k = match key.k {
                Some(k) => k,
                None => {
                    return fail(SessionError::Proto(ProtoError::KeyNegotiationFailiure));
                },
            };
            self.key = Some(key);
            self.encrypted_session = Some(
                EncryptedSession::from_encryptor(AesEncryptor::new(&k, Some(salt))),
            );
            self.state = ClientState::IpExchange;
            let mut actions: Vec<Action> = Vec::new();
            actions.push(Action::SendKey { salt: Some(salt) });
            actions.push(Action::StartWorkers);
            proof {
                assert(actions@ =~= seq![
                    Action::SendKey { salt: Some(salt) },
                    Action::StartWorkers,
                ]);
            }
            Step { actions, error: None }
        } else {
            let mut key = match self.key.take() {
                Some(key) => key,
                None => {
                    return fail(SessionError::Proto(ProtoError::CurveNotInitialized));
                },
            };
            let outcome = key.update_with_alpha(peer, alpha);
            let k = key.k;
            self.key = Some(key);
            match outcome {
                Ok(_) => {},
                Err(e) => { return Step { actions: Vec::new(), error: Some(SessionError::Pake(e)) }; },
            }
            let k = match k {
                Some(k) => k,
                None => {
                    return fail(SessionError::Proto(ProtoError::KeyNegotiationFailiure));
                },
            };
            let session = match EncryptedSession::new(&k, Role::Reciever, msg.bytes2.as_slice()) {
                Ok((session, _)) => session,
                Err(e) => { return fail(SessionError::Crypto(e)); },
            };
            self.encrypted_session = Some(session);
            self.state = ClientState::IpExchange;
            let mut actions: Vec<Action> = Vec::new();
            actions.push(Action::SendExternalIp);
            actions.push(Action::StartWorkers);
            proof {
                assert(actions@ =~= seq![Action::SendExternalIp, Action::StartWorkers]);
            }
            Step { actions, error: None }
        }
    }

    /// Takes the peer's external address and goes on to the manifest. The
    /// sending client answers with its own address.
    pub fn process_ip_exchange(&mut self, msg: ExternalIPMessage) -> (r: Step)
        requires
            old(self).wf(),
        ensures
            final(self).wf(),
            final(self).state.rank() >= old(self).state.rank(),
            final(self).same_identity(old(self)),
            final(self).encrypted_session == old(self).encrypted_session,
            final(self).key == old(self).key,
            final(self).files_to_receive == old(self).files_to_receive,
            final(self).awaiting_confirmation == old(self).awaiting_confirmation,
            if old(self).state != ClientState::IpExchange {
                r.fails_with(SessionError::InvalidState) && final(self).unchanged(old(self))
            } else {
                &&& final(self).peer_external_ip == Some(msg.external_ip)
                &&& final(self).state == ClientState::FileInfoTransfare
                &&& r.does(
                    if old(self).is_sender {
                        seq![Action::SendExternalIp]
                    } else {
                        Seq::<Action>::empty()
                    },
                )
            },
    {
        if self.state != ClientState::IpExchange {
            return fail(SessionError::InvalidState);
        }
        let mut actions: Vec<Action> = Vec::new();
        if self.is_sender {
            actions.push(Action::SendExternalIp);
            proof {
                assert(actions@ =~= seq![Action::SendExternalIp]);
            }
        }
        self.peer_external_ip = Some(msg.external_ip);
        self.state = ClientState::FileInfoTransfare;
        Step { actions, error: None }
    }

    /// Takes the manifest on the receiving client: the user is asked, with
    /// the number of items and of bytes, whether to go on.
    pub fn process_files_info(&mut self, files_info: FilesInformation) -> (r: Step)
        requires
            old(self).wf(),
        ensures
            final(self).wf(),
            final(self).state.rank() >= old(self).state.rank(),
            final(self).same_identity(old(self)),
            final(self).state == old(self).state,
            final(self).encrypted_session == old(self).encrypted_session,
            final(self).key == old(self).key,
            final(self).peer_external_ip == old(self).peer_external_ip,
            if old(self).is_sender || old(self).state != ClientState::FileInfoTransfare || old(
                self,
            ).awaiting_confirmation || !manifest_fits(&files_info) {
                r.fails_with(SessionError::InvalidState) && final(self).unchanged(old(self))
            } else {
                &&& final(self).files_to_receive == Some(files_info)
                &&& final(self).awaiting_confirmation
                &&& r.does(
                    seq![
                        Action::Confirm {
                            total_items: files_info.spec_total_items() as usize,
                            total_size: files_info.spec_total_size() as i64,
                        },
                    ],
                )
            },
    {
        if self.is_sender || self.state != ClientState::FileInfoTransfare
            || self.awaiting_confirmation {
            return fail(SessionError::InvalidState);
        }
        let (total_items, total_size) = match files_info.checked_totals() {
            Some(totals) => totals,
            None => { return fail(SessionError::InvalidState); },
        };
        if !countable(&files_info) {
            return fail(SessionError::InvalidState);
        }
        self.files_to_receive = Some(files_info);
        self.awaiting_confirmation = true;
        let mut actions: Vec<Action> = Vec::new();
        actions.push(Action::Confirm { total_items, total_size });
        proof {
            assert(actions@ =~= seq![Action::Confirm { total_items, total_size }]);
        }
        Step { actions, error: None }
    }

    /// Takes the user's answer to the manifest. A refusal is reported to the
    /// sender and ends the session with `TransferDenied`. Otherwise the empty
    /// folders are created; a manifest without a list of files is finished at
    /// once, and any other is received by the step that follows the message,
    /// `after_message`.
    pub fn on_confirmation(&mut self, confirmed: bool) -> (r: Step)
        requires
            old(self).wf(),
        ensures
            final(self).wf(),
            final(self).state.rank() >= old(self).state.rank(),
            final(self).same_identity(old(self)),
            final(self).encrypted_session == old(self).encrypted_session,
            final(self).key == old(self).key,
            final(self).peer_external_ip == old(self).peer_external_ip,
            final(self).files_to_receive == old(self).files_to_receive,
            match old(self).files_to_receive {
                Some(files) if old(self).awaiting_confirmation && old(self).state
                    == ClientState::FileInfoTransfare && manifest_fits(&files) => {
                    &&& !final(self).awaiting_confirmation
                    &&& if !confirmed {
                        &&& r.actions@ == seq![Action::SendRefusal, Action::Close]
                        &&& r.error == Some(SessionError::TransferDenied)
                        &&& final(self).state == old(self).state
                    } else {
                        match files.files_to_transfare {
                            None => {
                                &&& r.does(
                                    seq![Action::CreateEmptyFolders, Action::SendFinished],
                                )
                                &&& final(self).state == ClientState::FileTransfared
                            },
                            Some(_) => {
                                &&& r.does(seq![Action::CreateEmptyFolders])
                                &&& final(self).state == ClientState::FileTransfare
                            },
                        }
                    }
                },
                _ => r.fails_with(SessionError::InvalidState) && final(self).unchanged(old(self)),
            },
    {
        if !self.awaiting_confirmation || self.state != ClientState::FileInfoTransfare {
            return fail(SessionError::InvalidState);
        }
        let mut actions: Vec<Action> = Vec::new();
        match &self.files_to_receive {
            None => { return fail(SessionError::InvalidState); },
            Some(files) => {
                if !countable(files) || files.checked_totals().is_none() {
                    return fail(SessionError::InvalidState);
                }
                if !confirmed {
                    // Notify sender that we did not allow the transaction
                    actions.push(Action::SendRefusal);
                    actions.push(Action::Close);
                    proof {
                        assert(actions@ =~= seq![Action::SendRefusal, Action::Close]);
                    }
                    self.awaiting_confirmation = false;
                    return Step { actions, error: Some(SessionError::TransferDenied) };
                }
                actions.push(Action::CreateEmptyFolders);
                match &files.files_to_transfare {
                    None => {
                        actions.push(Action::SendFinished);
                        proof {
                            assert(actions@ =~= seq![
                                Action::CreateEmptyFolders,
                                Action::SendFinished,
                            ]);
                        }
                        self.state = ClientState::FileTransfared;
                    },
                    Some(_) => {
                        proof {
                            assert(actions@ =~= seq![Action::CreateEmptyFolders]);
                        }
                        self.state = ClientState::FileTransfare;
                    },
                }
            },
        }
        self.awaiting_confirmation = false;
        Step { actions, error: None }
    }

    /// What the step after a message does to a session. A sending client that
    /// has come to the manifest announces it and goes on to the files; a
    /// receiving client that has come to the files creates, asks for and
    /// receives every file in its turn and then sends `finished`. In every
    /// other state nothing is done.
    pub open spec fn after_message_post(&self, after: &ClientSession, r: &Step) -> bool {
        if self.is_sender && self.state == ClientState::FileInfoTransfare {
            match self.files_to_send {
                Some(_) => {
                    &&& r.does(seq![Action::SendFilesInfo])
                    &&& after.state == ClientState::FileTransfare
                },
                None => r.fails_with(SessionError::InvalidState) && after.state == self.state,
            }
        } else if !self.is_sender && self.state == ClientState::FileTransfare {
            &&& after.state == self.state
            &&& match self.files_to_receive {
                Some(files) if count_of(files.files_to_transfare)
                    <= i64::MAX => match files.files_to_transfare {
                    Some(v) => r.does(receive_plan(v@) + seq![Action::SendFinished]),
                    None => r.fails_with(SessionError::InvalidState),
                },
                _ => r.fails_with(SessionError::InvalidState),
            }
        } else {
            r.does(Seq::<Action>::empty()) && after.state == self.state
        }
    }

    /// The step that follows every message once what the message asked for
    /// is done: it takes no message itself.
    pub fn after_message(&mut self) -> (r: Step)
        requires
            old(self).wf(),
        ensures
            final(self).wf(),
            final(self).state.rank() >= old(self).state.rank(),
            final(self).same_identity(old(self)),
            final(self).encrypted_session == old(self).encrypted_session,
            final(self).key == old(self).key,
            final(self).peer_external_ip == old(self).peer_external_ip,
            final(self).files_to_receive == old(self).files_to_receive,
            final(self).awaiting_confirmation == old(self).awaiting_confirmation,
            old(self).after_message_post(final(self), &r),
    {
        let mut actions: Vec<Action> = Vec::new();
        if self.is_sender && self.state == ClientState::FileInfoTransfare {
            if self.files_to_send.is_none() {
                return fail(SessionError::InvalidState);
            }
            actions.push(Action::SendFilesInfo);
            proof {
                assert(actions@ =~= seq![Action::SendFilesInfo]);
            }
            self.state = ClientState::FileTransfare;
        } else if !self.is_sender && self.state == ClientState::FileTransfare {
            match &self.files_to_receive {
                None => { return fail(SessionError::InvalidState); },
                Some(files) => {
                    if !countable(files) {
                        return fail(SessionError::InvalidState);
                    }
                    match &files.files_to_transfare {
                        None => { return fail(SessionError::InvalidState); },
                        Some(v) => {
                            // loop all files and request them one by one
                            let mut index: usize = 0;
                            while index < v.len()
                                invariant
                                    index <= v.len(),
                                    v.len() <= i64::MAX,
                                    actions@ == receive_plan(v@.take(index as int)),
                                decreases v.len() - index,
                            {
                                let count = expected_chunks(v[index].size);
                                actions.push(Action::CreateFile { index });
                                actions.push(Action::SendRecipientReady { index: index as i64 });
                                actions.push(Action::ReceiveChunks { index, count });
                                proof {
                                    assert(v@.take(index + 1).drop_last() =~= v@.take(
                                        index as int,
                                    ));
                                    assert(actions@ =~= receive_plan(v@.take(index + 1)));
                                }
                                index = index + 1;
                            }
                            proof {
                                assert(v@.take(v.len() as int) =~= v@);
                            }
                            // send finished
                            actions.push(Action::SendFinished);
                            proof {
                                assert(actions@ =~= receive_plan(v@) + seq![Action::SendFinished]);
                            }
                        },
                    }
                },
            }
        } else {
            proof {
                assert(actions@ =~= Seq::<Action>::empty());
            }
        }
        Step { actions, error: None }
    }

    /// Takes the receiver's request for a file on the sending client: the file
    /// of that number is streamed. A manifest without a list of files has
    /// nothing to stream.
    pub fn send_file(&self, msg: &RemoteFileRequest) -> (r: Step)
        ensures
            match self.files_to_send {
                Some(files) if self.is_sender && self.state == ClientState::FileTransfare
                    && self.encrypted_session is Some => match files.files_to_transfare {
                    None => r.does(Seq::<Action>::empty()),
                    Some(v) => if 0 <= msg.files_to_transfer_current_num < v@.len() {
                        r.does(
                            seq![
                                Action::StreamFile {
                                    index: msg.files_to_transfer_current_num as usize,
                                },
                            ],
                        )
                    } else {
                        r.fails_with(SessionError::InvalidState)
                    },
                },
                _ => r.fails_with(SessionError::InvalidState),
            },
    {
        if !self.is_sender || self.state != ClientState::FileTransfare
            || self.encrypted_session.is_none() {
            return fail(SessionError::InvalidState);
        }
        match &self.files_to_send {
            None => fail(SessionError::InvalidState),
            Some(files) => match &files.files_to_transfare {
                None => Step { actions: Vec::new(), error: None },
                Some(v) => {
                    let number = msg.files_to_transfer_current_num;
                    if number < 0 || number as u64 >= v.len() as u64 {
                        return fail(SessionError::InvalidState);
                    }
                    let mut actions: Vec<Action> = Vec::new();
                    actions.push(Action::StreamFile { index: number as usize });
                    proof {
                        assert(actions@ =~= seq![Action::StreamFile { index: number as usize }]);
                    }
                    Step { actions, error: None }
                },
            },
        }
    }

    /// What a message does to a session; see `on_message_with`.
    pub open spec fn message_post(
        &self,
        after: &ClientSession,
        msg: Message,
        peer_key: Option<PakePubKey>,
        alpha: Seq<u8>,
        salt: [u8; 8],
        r: &Step,
    ) -> bool {
    match msg {
        Message::Pake(m) => if self.state != ClientState::KeyExchange {
            r.fails_with(SessionError::InvalidState) && after.unchanged(self)
        } else {
            match peer_key {
                Some(peer) => self.key_exchange_post(
                    after,
                    &m,
                    peer@,
                    alpha,
                    salt,
                    r,
                ),
                None => r.fails_with(SessionError::BadKey) && after.unchanged(
                    self,
                ),
            }
        },
        Message::ExternalIP(m) => if self.state != ClientState::IpExchange {
            r.fails_with(SessionError::InvalidState) && after.unchanged(self)
        } else {
            &&& after.peer_external_ip == Some(m.external_ip)
            &&& after.state == ClientState::FileInfoTransfare
            &&& r.does(
                if self.is_sender {
                    seq![Action::SendExternalIp]
                } else {
                    Seq::<Action>::empty()
                },
            )
        },
        Message::FilesInfo(files) => if self.is_sender || self.state
            != ClientState::FileInfoTransfare || self.awaiting_confirmation
            || !manifest_fits(&files) {
            r.fails_with(SessionError::InvalidState) && after.unchanged(self)
        } else {
            &&& after.files_to_receive == Some(files)
            &&& after.awaiting_confirmation
            &&& after.state == self.state
            &&& r.does(
                seq![
                    Action::Confirm {
                        total_items: files.spec_total_items() as usize,
                        total_size: files.spec_total_size() as i64,
                    },
                ],
            )
        },
        Message::TypeRecipientReady(m) => after.unchanged(self) && match self.files_to_send {
            Some(files) if self.is_sender && self.state
                == ClientState::FileTransfare && self.encrypted_session
                is Some => match files.files_to_transfare {
                None => r.does(Seq::<Action>::empty()),
                Some(v) => if 0 <= m.files_to_transfer_current_num < v@.len() {
                    r.does(
                        seq![
                            Action::StreamFile {
                                index: m.files_to_transfer_current_num as usize,
                            },
                        ],
                    )
                } else {
                    r.fails_with(SessionError::InvalidState)
                },
            },
            _ => r.fails_with(SessionError::InvalidState),
        },
        Message::TypeError(_) => after.unchanged(self) && if self.is_sender && self.state
            == ClientState::FileTransfare {
            r.fails_with(SessionError::TransferDenied)
        } else {
            r.fails_with(SessionError::InvalidState)
        },
        Message::Finished => {
            &&& r.does(seq![Action::SendFinished, Action::Close])
            &&& after.state == ClientState::FileTransfared
            &&& after.encrypted_session == self.encrypted_session
            &&& after.key == self.key
            &&& after.peer_external_ip == self.peer_external_ip
            &&& after.files_to_receive == self.files_to_receive
        },
    }
    }

    /// Takes a message of the peer, with `peer_key` as the public key that a
    /// key exchange message holds, if it could be read, and with `alpha` and
    /// `salt` as the secret scalar and the salt that the sending client uses
    /// in the key exchange.
    ///
    /// A message that the state has no use for ends the session with
    /// `InvalidState`. `finished` is answered with `finished` in every state.
    /// An error message tells the sending client, once it has announced its
    /// manifest, that the transfer was denied.
    pub fn on_message_with(
        &mut self,
        msg: Message,
        peer_key: Option<PakePubKey>,
        alpha: [u8; 32],
        salt: [u8; 8],
    ) -> (r: Step)
        requires
            old(self).wf(),
        ensures
            final(self).wf(),
            final(self).state.rank() >= old(self).state.rank(),
            final(self).same_identity(old(self)),
            old(self).message_post(final(self), msg, peer_key, alpha@, salt, &r),
    {
        match msg {
            Message::Pake(m) => {
                if self.state != ClientState::KeyExchange {
                    return fail(SessionError::InvalidState);
                }
                match peer_key {
                    Some(peer) => self.process_key_exchange(m, peer, alpha, salt),
                    None => fail(SessionError::BadKey),
                }
            },
            Message::ExternalIP(m) => self.process_ip_exchange(m),
            Message::FilesInfo(files) => self.process_files_info(files),
            Message::TypeRecipientReady(m) => self.send_file(&m),
            Message::TypeError(_) => {
                if self.is_sender && self.state == ClientState::FileTransfare {
                    fail(SessionError::TransferDenied)
                } else {
                    fail(SessionError::InvalidState)
                }
            },
            Message::Finished => {
                // send finished
                let mut actions: Vec<Action> = Vec::new();
                actions.push(Action::SendFinished);
                actions.push(Action::Close);
                proof {
                    assert(actions@ =~= seq![Action::SendFinished, Action::Close]);
                }
                self.state = ClientState::FileTransfared;
                Step { actions, error: None }
            },
        }
    }

    /// Takes a message of the peer; the secret scalar and the salt of the key
    /// exchange are drawn at random.
    pub fn on_message(&mut self, msg: Message, peer_key: Option<PakePubKey>) -> (r: Step)
        requires
            old(self).wf(),
        ensures
            final(self).wf(),
            final(self).state.rank() >= old(self).state.rank(),
            final(self).same_identity(old(self)),
            exists|alpha: Seq<u8>, salt: [u8; 8]|
                alpha.len() == 32 && #[trigger] old(self).message_post(
                    final(self),
                    msg,
                    peer_key,
                    alpha,
                    salt,
                    &r,
                ),
    {
        let alpha = random_bytes::<32>();
        let salt = random_bytes::<8>();
        self.on_message_with(msg, peer_key, alpha, salt)
    }
}

/// The text by which a receiver turns the files down.
pub open spec fn refusal_text() -> Seq<char> {
    "refusing files"@
}

impl ClientSession {
    /// The message for `Action::SendKey`: the serialized public key, and the
    /// salt or, where there is none yet, the curve's name.
    pub fn key_message(pub_key: Vec<u8>, salt: Option<[u8; 8]>) -> (r: Message)
        ensures
            r matches Message::Pake(m) && m.bytes == pub_key && m.bytes2@ == match salt {
                Some(s) => s@,
                None => siec_text(),
            },
    {
        let bytes2 = match salt {
            Some(s) => {
                let mut v: Vec<u8> = Vec::new();
                let mut i: usize = 0;
                while i < 8
                    invariant
                        i <= 8,
                        v@ == s@.take(i as int),
                    decreases 8 - i,
                {
                    v.push(s[i]);
                    proof {
                        assert(v@ =~= s@.take(i + 1));
                    }
                    i = i + 1;
                }
                proof {
                    assert(s@.take(8) =~= s@);
                }
                v
            },
            None => text_siec(),
        };
        Message::Pake(PakeMessage { bytes: pub_key, bytes2 })
    }

    /// The message for `Action::SendExternalIp`.
    pub fn external_ip_message(&self) -> (r: Message)
        ensures
            r matches Message::ExternalIP(m) && m.external_ip@ == self.external_ip@,
    {
        Message::ExternalIP(ExternalIPMessage { external_ip: self.external_ip.clone() })
    }

    /// The message for `Action::SendRefusal`.
    pub fn refusal_message() -> (r: Message)
        ensures
            r matches Message::TypeError(m) && m.message@ == refusal_text(),
    {
        Message::TypeError(TypeErrorMessage { message: "refusing files".to_owned() })
    }

    /// The message for `Action::SendRecipientReady`.
    pub fn recipient_ready_message(index: i64) -> (r: Message)
        ensures
            r matches Message::TypeRecipientReady(m) && m.files_to_transfer_current_num == index
                && m.current_file_chunk_ranges@.len() == 0 && m.machine_id@.len() == 0,
    {
        Message::TypeRecipientReady(
            RemoteFileRequest {
                current_file_chunk_ranges: Vec::new(),
                files_to_transfer_current_num: index,
                machine_id: String::new(),
            },
        )
    }
}

} // verus!
