use rust_croc::crypto::aes::CryptoError;
use rust_croc::proto::client_session::{Action, ClientSession, ClientState, SessionError, Step};
use rust_croc::proto::croc_msg::{
    ExternalIPMessage, FileInfo, FilesInformation, Message, PakeMessage, RemoteFileRequest,
    TypeErrorMessage,
};
use rust_croc::proto::croc_raw::ProtoError;

fn file(name: &str, size: i64) -> FileInfo {
    FileInfo {
        name: name.to_string(),
        remote_folder: "./".to_string(),
        source_folder: "../".to_string(),
        hash: vec![1, 2, 3],
        size,
        modification_time: "2021-01-01".to_string(),
        is_compressed: false,
        is_encrypted: false,
        symlink: "".to_string(),
        mode: 3,
        temp_file: false,
    }
}

fn manifest(files: Option<Vec<FileInfo>>) -> FilesInformation {
    FilesInformation {
        files_to_transfare: files,
        empty_folders_to_transfare: Some(vec![]),
        total_folders_number: 0,
        machine_id: "123".to_string(),
        ask: false,
        sending_text: false,
        no_compress: true,
        hash_algorithm: "sha256".to_string(),
    }
}

fn session(is_sender: bool) -> ClientSession {
    ClientSession::new(
        vec!["9010".to_string()],
        "12345secret".to_string(),
        is_sender,
        if is_sender { "198.51.100.1:1000".to_string() } else { "198.51.100.2:2000".to_string() },
    )
}

fn actions(step: Step) -> Vec<Action> {
    assert!(step.error.is_none(), "unexpected fault {:?}", step.error);
    step.actions
}

fn pake_message(bytes2: &[u8]) -> Message {
    Message::Pake(PakeMessage { bytes: vec![], bytes2: bytes2.to_vec() })
}

/// Two sessions that have exchanged keys and addresses; the sender has
/// announced `files`.
fn paired(files: FilesInformation) -> (ClientSession, ClientSession) {
    let mut sender = session(true);
    let mut receiver = session(false);
    assert_eq!(actions(sender.process_client(Some(files))), vec![Action::OpenBulkChannel]);
    assert_eq!(
        actions(receiver.process_client(None)),
        vec![Action::OpenBulkChannel, Action::SendKey { salt: None }]
    );
    assert_eq!(sender.bulk_room, receiver.bulk_room);
    let opening = receiver.key.as_ref().unwrap().pub_pake.duplicate();
    let step = sender.on_message(pake_message(b"siec"), Some(opening));
    let salt = match actions(step)[..] {
        [Action::SendKey { salt: Some(salt) }, Action::StartWorkers] => salt,
        ref other => panic!("unexpected actions {:?}", other),
    };
    assert_eq!(sender.state, ClientState::IpExchange);
    let reply = sender.key.as_ref().unwrap().pub_pake.duplicate();
    let step = receiver.on_message(pake_message(&salt), Some(reply));
    assert_eq!(actions(step), vec![Action::SendExternalIp, Action::StartWorkers]);
    assert_eq!(receiver.state, ClientState::IpExchange);
    // both seal with the same key from now on
    let s = sender.encrypted_session.unwrap();
    let r = receiver.encrypted_session.unwrap();
    assert_eq!(s.encryptor.key, r.encryptor.key);
    assert_eq!(s.encryptor.salt, salt);
    assert_eq!(r.encryptor.salt, salt);
    assert_eq!(r.read(&s.encryptor.encrypt(b"chunk").unwrap()).unwrap(), b"chunk".to_vec());

    let step = sender.on_message(
        Message::ExternalIP(ExternalIPMessage { external_ip: receiver.external_ip.clone() }),
        None,
    );
    assert_eq!(actions(step), vec![Action::SendExternalIp]);
    assert_eq!(sender.state, ClientState::FileInfoTransfare);
    assert_eq!(sender.peer_external_ip, Some("198.51.100.2:2000".to_string()));
    // the manifest is announced by the step that follows the message
    assert_eq!(actions(sender.after_message()), vec![Action::SendFilesInfo]);
    assert_eq!(sender.state, ClientState::FileTransfare);
    assert_eq!(actions(sender.after_message()), vec![]);
    let step = receiver.on_message(
        Message::ExternalIP(ExternalIPMessage { external_ip: sender.external_ip.clone() }),
        None,
    );
    assert_eq!(actions(step), vec![]);
    assert_eq!(receiver.state, ClientState::FileInfoTransfare);
    assert_eq!(receiver.peer_external_ip, Some("198.51.100.1:1000".to_string()));
    assert_eq!(actions(receiver.after_message()), vec![]);
    (sender, receiver)
}

#[test]
fn a_file_is_announced_asked_for_and_sent() {
    let (mut sender, mut receiver) = paired(manifest(Some(vec![file("a.txt", 5)])));
    let announced = manifest(Some(vec![file("a.txt", 5)]));
    let step = receiver.on_message(Message::FilesInfo(announced), None);
    assert_eq!(actions(step), vec![Action::Confirm { total_items: 1, total_size: 5 }]);
    assert_eq!(receiver.state, ClientState::FileInfoTransfare);
    let step = receiver.on_confirmation(true);
    assert_eq!(actions(step), vec![Action::CreateEmptyFolders]);
    assert_eq!(receiver.state, ClientState::FileTransfare);
    let step = receiver.after_message();
    assert_eq!(
        actions(step),
        vec![
            Action::CreateFile { index: 0 },
            Action::SendRecipientReady { index: 0 },
            Action::ReceiveChunks { index: 0, count: 1 },
            Action::SendFinished,
        ]
    );
    assert_eq!(receiver.state, ClientState::FileTransfare);
    let request = RemoteFileRequest {
        current_file_chunk_ranges: vec![],
        files_to_transfer_current_num: 0,
        machine_id: "".to_string(),
    };
    let step = sender.on_message(Message::TypeRecipientReady(request), None);
    assert_eq!(actions(step), vec![Action::StreamFile { index: 0 }]);
    let step = sender.on_message(Message::Finished, None);
    assert_eq!(actions(step), vec![Action::SendFinished, Action::Close]);
    assert_eq!(sender.state, ClientState::FileTransfared);
    let step = receiver.on_message(Message::Finished, None);
    assert_eq!(actions(step), vec![Action::SendFinished, Action::Close]);
    assert_eq!(receiver.state, ClientState::FileTransfared);
}

#[test]
fn every_file_gets_its_number_of_chunks() {
    let files = vec![file("a", 0), file("b", 65536), file("c", 65537), file("d", 200000)];
    let (_sender, mut receiver) = paired(manifest(None));
    let step = receiver.on_message(Message::FilesInfo(manifest(Some(files))), None);
    assert_eq!(actions(step), vec![Action::Confirm { total_items: 4, total_size: 331073 }]);
    assert_eq!(actions(receiver.on_confirmation(true)), vec![Action::CreateEmptyFolders]);
    assert_eq!(
        actions(receiver.after_message()),
        vec![
            Action::CreateFile { index: 0 },
            Action::SendRecipientReady { index: 0 },
            Action::ReceiveChunks { index: 0, count: 0 },
            Action::CreateFile { index: 1 },
            Action::SendRecipientReady { index: 1 },
            Action::ReceiveChunks { index: 1, count: 1 },
            Action::CreateFile { index: 2 },
            Action::SendRecipientReady { index: 2 },
            Action::ReceiveChunks { index: 2, count: 2 },
            Action::CreateFile { index: 3 },
            Action::SendRecipientReady { index: 3 },
            Action::ReceiveChunks { index: 3, count: 4 },
            Action::SendFinished,
        ]
    );
}

#[test]
fn a_manifest_without_files_is_finished_at_once() {
    let (_sender, mut receiver) = paired(manifest(None));
    let step = receiver.on_message(Message::FilesInfo(manifest(None)), None);
    assert_eq!(actions(step), vec![Action::Confirm { total_items: 0, total_size: 0 }]);
    assert_eq!(
        actions(receiver.on_confirmation(true)),
        vec![Action::CreateEmptyFolders, Action::SendFinished]
    );
    assert_eq!(receiver.state, ClientState::FileTransfared);
}

#[test]
fn a_refusal_is_told_and_ends_both_sessions() {
    let (mut sender, mut receiver) = paired(manifest(Some(vec![file("a.txt", 5)])));
    receiver.on_message(Message::FilesInfo(manifest(Some(vec![file("a.txt", 5)]))), None);
    let step = receiver.on_confirmation(false);
    assert_eq!(step.actions, vec![Action::SendRefusal, Action::Close]);
    assert!(matches!(step.error, Some(SessionError::TransferDenied)));
    let refusal = Message::TypeError(TypeErrorMessage { message: "refusing files".to_string() });
    let step = sender.on_message(refusal, None);
    assert!(step.actions.is_empty());
    assert!(matches!(step.error, Some(SessionError::TransferDenied)));
}

#[test]
fn an_answer_that_nobody_asked_for_is_a_fault() {
    let (_sender, mut receiver) = paired(manifest(None));
    assert!(matches!(receiver.on_confirmation(true).error, Some(SessionError::InvalidState)));
}

#[test]
fn messages_out_of_order_are_faults() {
    let mut sender = session(true);
    sender.process_client(Some(manifest(None)));
    let ip = Message::ExternalIP(ExternalIPMessage { external_ip: "x".to_string() });
    assert!(matches!(sender.on_message(ip, None).error, Some(SessionError::InvalidState)));
    assert_eq!(sender.state, ClientState::KeyExchange);
    let info = Message::FilesInfo(manifest(None));
    assert!(matches!(sender.on_message(info, None).error, Some(SessionError::InvalidState)));
    let request = RemoteFileRequest {
        current_file_chunk_ranges: vec![],
        files_to_transfer_current_num: 0,
        machine_id: "".to_string(),
    };
    assert!(matches!(
        sender.on_message(Message::TypeRecipientReady(request), None).error,
        Some(SessionError::InvalidState)
    ));
    let error = Message::TypeError(TypeErrorMessage { message: "x".to_string() });
    assert!(matches!(sender.on_message(error, None).error, Some(SessionError::InvalidState)));

    let (mut sender, mut receiver) = paired(manifest(Some(vec![file("a", 1)])));
    // the key exchange is over
    assert!(matches!(
        sender.on_message(pake_message(b"siec"), None).error,
        Some(SessionError::InvalidState)
    ));
    // only the receiver takes a manifest, and only once
    let info = Message::FilesInfo(manifest(None));
    assert!(matches!(sender.on_message(info, None).error, Some(SessionError::InvalidState)));
    receiver.on_message(Message::FilesInfo(manifest(None)), None);
    let again = Message::FilesInfo(manifest(None));
    assert!(matches!(receiver.on_message(again, None).error, Some(SessionError::InvalidState)));
    // only the sender is asked for files
    let request = RemoteFileRequest {
        current_file_chunk_ranges: vec![],
        files_to_transfer_current_num: 0,
        machine_id: "".to_string(),
    };
    assert!(matches!(
        receiver.on_message(Message::TypeRecipientReady(request), None).error,
        Some(SessionError::InvalidState)
    ));
}

#[test]
fn a_file_that_is_not_in_the_manifest_cannot_be_asked_for() {
    let (mut sender, _receiver) = paired(manifest(Some(vec![file("a", 1)])));
    for number in [1i64, -1, i64::MAX] {
        let request = RemoteFileRequest {
            current_file_chunk_ranges: vec![],
            files_to_transfer_current_num: number,
            machine_id: "".to_string(),
        };
        assert!(matches!(
            sender.on_message(Message::TypeRecipientReady(request), None).error,
            Some(SessionError::InvalidState)
        ));
    }
}

#[test]
fn another_curve_is_not_supported() {
    let mut sender = session(true);
    let mut receiver = session(false);
    sender.process_client(Some(manifest(None)));
    receiver.process_client(None);
    let opening = receiver.key.as_ref().unwrap().pub_pake.duplicate();
    let step = sender.on_message(pake_message(b"p256"), Some(opening));
    assert!(matches!(
        step.error,
        Some(SessionError::Proto(ProtoError::CurveNotSupported))
    ));
    assert_eq!(sender.state, ClientState::KeyExchange);
    assert!(sender.encrypted_session.is_none());
}

#[test]
fn a_key_that_could_not_be_read_is_a_fault() {
    let mut sender = session(true);
    sender.process_client(Some(manifest(None)));
    let step = sender.on_message(pake_message(b"siec"), None);
    assert!(matches!(step.error, Some(SessionError::BadKey)));
}

#[test]
fn a_reply_without_an_opening_is_a_fault() {
    let mut receiver = session(false);
    let other = session(false);
    let mut helper = other;
    helper.process_client(None);
    let key = helper.key.as_ref().unwrap().pub_pake.duplicate();
    // the receiver never started, so it holds no key
    let step = receiver.on_message(pake_message(&[0u8; 8]), Some(key));
    assert!(matches!(
        step.error,
        Some(SessionError::Proto(ProtoError::CurveNotInitialized))
    ));
}

#[test]
fn a_salt_of_the_wrong_length_ends_the_session() {
    let mut sender = session(true);
    let mut receiver = session(false);
    sender.process_client(Some(manifest(None)));
    receiver.process_client(None);
    let opening = receiver.key.as_ref().unwrap().pub_pake.duplicate();
    sender.on_message(pake_message(b"siec"), Some(opening));
    let reply = sender.key.as_ref().unwrap().pub_pake.duplicate();
    let step = receiver.on_message(pake_message(&[1, 2, 3]), Some(reply));
    assert!(matches!(step.error, Some(SessionError::Crypto(CryptoError::KDF))));
    assert!(receiver.encrypted_session.is_none());
    assert_eq!(receiver.state, ClientState::KeyExchange);
}

#[test]
fn a_session_needs_a_port_and_a_long_enough_secret() {
    let mut no_port = ClientSession::new(vec![], "12345".to_string(), true, "x".to_string());
    assert!(matches!(no_port.process_client(None).error, Some(SessionError::NoRelayPort)));
    let mut short =
        ClientSession::new(vec!["9010".to_string()], "1234".to_string(), true, "x".to_string());
    assert!(matches!(short.process_client(None).error, Some(SessionError::BadSharedSecret)));
    let mut exact =
        ClientSession::new(vec!["9010".to_string()], "12345".to_string(), true, "x".to_string());
    assert_eq!(actions(exact.process_client(None)), vec![Action::OpenBulkChannel]);
    assert_eq!(exact.bulk_room, Some(b"e3b0c4-1".to_vec()));
}

#[test]
fn a_manifest_whose_totals_overflow_is_refused() {
    let (_sender, mut receiver) = paired(manifest(None));
    let files = vec![file("a", i64::MAX), file("b", 1)];
    let step = receiver.on_message(Message::FilesInfo(manifest(Some(files))), None);
    assert!(matches!(step.error, Some(SessionError::InvalidState)));
    assert!(receiver.files_to_receive.is_none());
}

#[test]
fn a_sender_without_a_manifest_cannot_announce_one() {
    let mut sender = session(true);
    let mut receiver = session(false);
    sender.process_client(None);
    receiver.process_client(None);
    let opening = receiver.key.as_ref().unwrap().pub_pake.duplicate();
    sender.on_message(pake_message(b"siec"), Some(opening));
    let ip = Message::ExternalIP(ExternalIPMessage { external_ip: "x".to_string() });
    assert_eq!(actions(sender.on_message(ip, None)), vec![Action::SendExternalIp]);
    assert_eq!(sender.state, ClientState::FileInfoTransfare);
    assert!(matches!(sender.after_message().error, Some(SessionError::InvalidState)));
    assert_eq!(sender.state, ClientState::FileInfoTransfare);
}

#[test]
fn nothing_follows_a_message_before_the_manifest_is_due() {
    let mut sender = session(true);
    let mut receiver = session(false);
    sender.process_client(Some(manifest(None)));
    receiver.process_client(None);
    assert_eq!(actions(sender.after_message()), vec![]);
    assert_eq!(actions(receiver.after_message()), vec![]);
    assert_eq!(sender.state, ClientState::KeyExchange);
    assert_eq!(receiver.state, ClientState::KeyExchange);
}

#[test]
fn a_key_that_the_exchange_refuses_ends_the_session() {
    let mut sender = session(true);
    let mut other = session(true);
    sender.process_client(Some(manifest(None)));
    other.process_client(Some(manifest(None)));
    // the sending client plays the receiver's role of the exchange, and this
    // key is a receiver's too
    let mut helper = session(false);
    helper.process_client(None);
    let opening = helper.key.as_ref().unwrap().pub_pake.duplicate();
    other.on_message(pake_message(b"siec"), Some(opening));
    let wrong = other.key.as_ref().unwrap().pub_pake.duplicate();
    let step = sender.on_message(pake_message(b"siec"), Some(wrong));
    assert!(matches!(
        step.error,
        Some(SessionError::Pake(rust_croc::crypto::pake::Error::SameRole))
    ));
    assert_eq!(sender.state, ClientState::KeyExchange);
    assert!(sender.encrypted_session.is_none());
}
