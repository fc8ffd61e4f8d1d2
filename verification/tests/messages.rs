use rust_croc::crypto::hash::hex_lower;
use rust_croc::proto::croc_msg::{
    path_is_under, FileInfo, FileOperationError, FolderStep, Message, PakeMessage,
};

#[test]
fn a_key_exchange_message_names_the_curve() {
    match PakeMessage::new(b"{}".to_vec(), "siec") {
        Message::Pake(m) => {
            assert_eq!(m.bytes, b"{}".to_vec());
            assert_eq!(m.bytes2, b"siec".to_vec());
        }
        other => panic!("unexpected message {:?}", other),
    }
}

#[test]
fn hexadecimal_text_is_lower_case() {
    assert_eq!(hex_lower(&[]), Vec::<u8>::new());
    assert_eq!(hex_lower(&[0x00, 0x09, 0x0a, 0xff, 0xe3]), b"00090affe3".to_vec());
}

fn parts(path: &str) -> Vec<String> {
    path.split('/').map(|part| part.to_string()).collect()
}

fn folder() -> FileInfo {
    FileInfo {
        name: "docs".to_string(),
        remote_folder: "./docs".to_string(),
        source_folder: "../".to_string(),
        hash: vec![],
        size: 0,
        modification_time: "2021-01-01".to_string(),
        is_compressed: false,
        is_encrypted: false,
        symlink: "".to_string(),
        mode: 3,
        temp_file: false,
    }
}

#[test]
fn a_path_lies_under_its_prefixes() {
    assert!(path_is_under(&parts("/home/me/docs"), &parts("/home/me")));
    assert!(path_is_under(&parts("/home/me"), &parts("/home/me")));
    assert!(!path_is_under(&parts("/home"), &parts("/home/me")));
    assert!(!path_is_under(&parts("/home/meandyou/docs"), &parts("/home/me")));
    assert!(!path_is_under(&parts("/etc/passwd"), &parts("/home/me")));
    assert!(path_is_under(&parts("/etc"), &vec![]));
}

#[test]
fn a_folder_outside_the_current_directory_is_refused() {
    let here = parts("/home/me");
    let step = folder().create_folder(&parts("/etc/docs"), "/etc/docs", &here, false, None);
    match step {
        Err(FileOperationError::TraversalError(path)) => assert_eq!(path, "/etc/docs"),
        other => panic!("unexpected outcome {:?}", other),
    }
    // whatever the user says
    let step = folder().create_folder(&parts("/etc/docs"), "/etc/docs", &here, true, Some(true));
    assert!(matches!(step, Err(FileOperationError::TraversalError(_))));
}

#[test]
fn a_folder_that_exists_is_overwritten_only_on_request() {
    let here = parts("/home/me");
    let path = parts("/home/me/docs");
    let f = folder();
    assert_eq!(
        f.create_folder(&path, "/home/me/docs", &here, false, None).unwrap(),
        FolderStep::Create
    );
    assert_eq!(
        f.create_folder(&path, "/home/me/docs", &here, true, None).unwrap(),
        FolderStep::AskOverwrite
    );
    assert_eq!(
        f.create_folder(&path, "/home/me/docs", &here, true, Some(true)).unwrap(),
        FolderStep::Create
    );
    assert!(matches!(
        f.create_folder(&path, "/home/me/docs", &here, true, Some(false)),
        Err(FileOperationError::OverwriteDenide)
    ));
}
