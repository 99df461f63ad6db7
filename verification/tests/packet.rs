use ferric_ftp::sftp::constants::{
    SFTP_SUPPORTED_VERSION, SSH_FXF_READ, SSH_FXP_ATTRS, SSH_FXP_CLOSE, SSH_FXP_DATA,
    SSH_FXP_HANDLE, SSH_FXP_INIT, SSH_FXP_NAME, SSH_FXP_OPEN, SSH_FXP_OPENDIR, SSH_FXP_READ,
    SSH_FXP_READDIR, SSH_FXP_REALPATH, SSH_FXP_STAT, SSH_FXP_STATUS, SSH_FXP_VERSION,
};
use ferric_ftp::sftp::error::{ClientCause, SftpError};
use ferric_ftp::sftp::packet::{ClientPacket, ServerPacket, SftpPacketInfo};
use ferric_ftp::sftp::reader::{BufferReader, SftpReader};
use ferric_ftp::sftp::test_utils::MockSession;
use ferric_ftp::sftp::types::{FileAttributes, FileInfo, FileType};

fn assert_packet_length(bytes: &[u8], expected_payload_length: usize) {
    let length = u32::from_be_bytes([bytes[0], bytes[1], bytes[2], bytes[3]]);
    assert_eq!(length as usize, expected_payload_length);
    assert_eq!(length as usize, bytes[4..].len());
}

fn assert_packet_type(bytes: &[u8], expected_type: u8) {
    assert_eq!(bytes[4], expected_type);
}

fn assert_request_id(bytes: &[u8], expected_id: u32) {
    let request_id = u32::from_be_bytes([bytes[5], bytes[6], bytes[7], bytes[8]]);
    assert_eq!(request_id, expected_id);
}

fn assert_string_field(bytes: &[u8], start_index: usize, expected_value: &str) {
    let len_bytes = start_index;
    let data_start = start_index + 4;

    let field_len = u32::from_be_bytes([
        bytes[len_bytes],
        bytes[len_bytes + 1],
        bytes[len_bytes + 2],
        bytes[len_bytes + 3],
    ]) as usize;

    let field_data = &bytes[data_start..data_start + field_len];
    let field_string = String::from_utf8(field_data.to_vec()).unwrap();
    assert_eq!(field_string, expected_value);
}

fn assert_bytes_field(bytes: &[u8], start_index: usize, expected_value: &[u8]) {
    let len_bytes = start_index;
    let data_start = start_index + 4;

    let field_len = u32::from_be_bytes([
        bytes[len_bytes],
        bytes[len_bytes + 1],
        bytes[len_bytes + 2],
        bytes[len_bytes + 3],
    ]) as usize;

    let field_data = &bytes[data_start..data_start + field_len];
    assert_eq!(field_data, expected_value);
}

fn frame(message_type: u8, fields: &[u8]) -> Vec<u8> {
    let mut bytes = ((fields.len() + 1) as u32).to_be_bytes().to_vec();
    bytes.push(message_type);
    bytes.extend_from_slice(fields);
    bytes
}

fn string_field(content: &[u8]) -> Vec<u8> {
    let mut bytes = (content.len() as u32).to_be_bytes().to_vec();
    bytes.extend_from_slice(content);
    bytes
}

fn cause_of(result: Result<ServerPacket, SftpError>) -> ClientCause {
    match result {
        Err(SftpError::ClientError(cause)) => cause,
        other => panic!("expected a client error, got {:?}", other),
    }
}

#[test]
fn test_init_packet_format() {
    let packet = ClientPacket::Init { version: SFTP_SUPPORTED_VERSION }.to_bytes();
    assert_eq!(packet.len(), 9); // 4 bytes length + 1 byte type + 4 bytes version
    assert_eq!(packet[4], 1); // SSH_FXP_INIT type
}

#[test]
fn test_client_packet_info() {
    let init = ClientPacket::Init { version: 3 };
    assert_eq!(init.packet_type(), SSH_FXP_INIT);
    assert_eq!(init.packet_name(), "SSH_FXP_INIT");

    let opendir = ClientPacket::OpenDir {
        request_id: 1,
        path: "/".to_string(),
    };
    assert_eq!(opendir.packet_type(), SSH_FXP_OPENDIR);
    assert_eq!(opendir.packet_name(), "SSH_FXP_OPENDIR");
}

#[test]
fn test_server_packet_info() {
    let version = ServerPacket::Version { version: 3 };
    assert_eq!(version.packet_type(), SSH_FXP_VERSION);
    assert_eq!(version.packet_name(), "SSH_FXP_VERSION");

    let handle = ServerPacket::Handle {
        request_id: 1,
        handle: vec![1, 2, 3],
    };
    assert_eq!(handle.packet_type(), SSH_FXP_HANDLE);
    assert_eq!(handle.packet_name(), "SSH_FXP_HANDLE");
}

#[test]
fn test_client_packet_init() {
    let init = ClientPacket::Init { version: 3 };
    let bytes = init.to_bytes();

    assert_packet_length(&bytes, 5);
    assert_packet_type(&bytes, SSH_FXP_INIT);
}

#[test]
fn test_client_packet_opendir() {
    let opendir = ClientPacket::OpenDir {
        request_id: 100,
        path: "/home".to_string(),
    };
    let bytes = opendir.to_bytes();

    assert_packet_length(&bytes, 14);
    assert_packet_type(&bytes, SSH_FXP_OPENDIR);
    assert_request_id(&bytes, 100);
    assert_string_field(&bytes, 9, "/home");
}

#[test]
fn test_client_packet_readdir() {
    let handle = vec![0x01, 0x02, 0x03];
    let readdir = ClientPacket::ReadDir {
        request_id: 100,
        handle: handle.clone(),
    };
    let bytes = readdir.to_bytes();

    assert_packet_length(&bytes, 12); // 1 + 4 + 4 + 3
    assert_packet_type(&bytes, SSH_FXP_READDIR);
    assert_request_id(&bytes, 100);
    assert_bytes_field(&bytes, 9, &handle);
}

#[test]
fn test_client_packet_close() {
    let handle = vec![0x01, 0x02, 0x03];
    let close = ClientPacket::Close {
        request_id: 100,
        handle: handle.clone(),
    };
    let bytes = close.to_bytes();

    assert_packet_length(&bytes, 12);
    assert_packet_type(&bytes, SSH_FXP_CLOSE);
    assert_request_id(&bytes, 100);
    assert_bytes_field(&bytes, 9, &handle);
}

#[test]
fn test_client_packet_realpath() {
    let realpath = ClientPacket::RealPath {
        request_id: 100,
        path: "/home".to_string(),
    };
    let bytes = realpath.to_bytes();

    assert_packet_length(&bytes, 14); // 1 + 4 + 4 + 5
    assert_packet_type(&bytes, SSH_FXP_REALPATH);
    assert_request_id(&bytes, 100);
    assert_string_field(&bytes, 9, "/home");
}

#[test]
fn test_client_packet_stat() {
    let opendir = ClientPacket::Stat {
        request_id: 100,
        path: "/home".to_string(),
    };
    let bytes = opendir.to_bytes();

    assert_packet_length(&bytes, 14);
    assert_packet_type(&bytes, SSH_FXP_STAT);
    assert_request_id(&bytes, 100);
    assert_string_field(&bytes, 9, "/home");
}

#[test]
fn test_server_packet_version() {
    let data = vec![
        0,
        0,
        0,
        5,               // length = 5
        SSH_FXP_VERSION, // packet type
        0,
        0,
        0,
        3, // version = 3
    ];

    let packet = ServerPacket::from_bytes(&data).unwrap();
    assert!(matches!(packet, ServerPacket::Version { version: 3 }));
}

#[test]
fn test_server_packet_handle() {
    let data = vec![
        0,
        0,
        0,
        12, // length = 12
        SSH_FXP_HANDLE,
        0,
        0,
        0,
        1, // request id = 1
        0,
        0,
        0,
        3, // handle length
        0x01,
        0x02,
        0x03, // handle
    ];

    let packet = ServerPacket::from_bytes(&data).unwrap();
    if let ServerPacket::Handle { request_id, handle } = packet {
        assert_eq!(request_id, 1);
        assert_eq!(handle, vec![0x01, 0x02, 0x03]);
    } else {
        panic!("Expected Handle packet");
    }
}

#[test]
fn test_client_packet_init_serialization() {
    let packet = ClientPacket::Init { version: 3 };
    let bytes = packet.to_bytes();

    // Verify structure: [length: u32, type: u8, version: u32]
    assert_eq!(bytes.len(), 9); // 4 (length) + 1 (type) + 4 (version)
    assert_eq!(bytes[4], SSH_FXP_INIT);

    let version_bytes = &bytes[5..9];
    assert_eq!(u32::from_be_bytes(version_bytes.try_into().unwrap()), 3);
}

#[test]
fn test_client_packet_opendir_serialization() {
    let packet = ClientPacket::OpenDir {
        request_id: 42,
        path: "/home".to_string(),
    };
    let bytes = packet.to_bytes();

    // Should be: [length, SSH_FXP_OPENDIR, request_id, path_length, path]
    assert_eq!(bytes[4], SSH_FXP_OPENDIR);

    let request_id_bytes = &bytes[5..9];
    assert_eq!(u32::from_be_bytes(request_id_bytes.try_into().unwrap()), 42);

    let path_len_bytes = &bytes[9..13];
    let path_len = u32::from_be_bytes(path_len_bytes.try_into().unwrap());
    assert_eq!(path_len, 5);

    let path = String::from_utf8(bytes[13..13 + 5].to_vec()).unwrap();
    assert_eq!(path, "/home");
}

#[test]
fn test_server_packet_version_deserialization() {
    // Create test data: [length=5, type=SSH_FXP_VERSION, version=3]
    let mut data = vec![0, 0, 0, 5]; // length
    data.push(SSH_FXP_VERSION); // type
    data.extend_from_slice(&3u32.to_be_bytes()); // version

    let mut session = MockSession::new().with_read_data(data);
    let packet = ServerPacket::from_reader(&mut session).unwrap();

    match packet {
        ServerPacket::Version { version } => assert_eq!(version, 3),
        _ => panic!("Expected Version packet"),
    }
}

#[test]
fn test_server_packet_handle_deserialization() {
    let handle_data = b"test_handle".to_vec();

    let mut data = vec![0, 0, 0, 20]; // length: 4 (req_id) + 4 (handle_len) + 11 (handle) + 1 (type) = 20
    data.push(SSH_FXP_HANDLE);
    data.extend_from_slice(&42u32.to_be_bytes()); // request_id
    data.extend_from_slice(&(handle_data.len() as u32).to_be_bytes());
    data.extend_from_slice(&handle_data);

    let mut session = MockSession::new().with_read_data(data);
    let packet = ServerPacket::from_reader(&mut session).unwrap();

    match packet {
        ServerPacket::Handle { request_id, handle } => {
            assert_eq!(request_id, 42);
            assert_eq!(handle, handle_data);
        }
        _ => panic!("Expected Handle packet"),
    }
}

#[test]
fn open_request_carries_flags_and_attribute_block() {
    let open = ClientPacket::Open {
        request_id: 7,
        path: "/a".to_string(),
        pflags: SSH_FXF_READ,
        attrs: FileAttributes::default(),
    };
    assert_eq!(open.packet_type(), SSH_FXP_OPEN);
    assert_eq!(open.packet_name(), "SSH_FXP_OPEN");
    assert_eq!(
        open.to_bytes(),
        vec![0, 0, 0, 19, 3, 0, 0, 0, 7, 0, 0, 0, 2, b'/', b'a', 0, 0, 0, 1, 0, 0, 0, 0]
    );
}

#[test]
fn read_request_carries_offset_and_length() {
    let read = ClientPacket::Read {
        request_id: 0x01020304,
        handle: vec![9],
        offset: 0x0102030405060708,
        len: 32768,
    };
    assert_eq!(read.packet_type(), SSH_FXP_READ);
    assert_eq!(read.packet_name(), "SSH_FXP_READ");
    assert_eq!(
        read.to_bytes(),
        vec![0, 0, 0, 22, 5, 1, 2, 3, 4, 0, 0, 0, 1, 9, 1, 2, 3, 4, 5, 6, 7, 8, 0, 0, 0x80, 0]
    );
}

#[test]
fn no_request_decodes_as_a_response() {
    let requests = vec![
        ClientPacket::Init { version: 3 },
        ClientPacket::OpenDir { request_id: 1, path: "/d".to_string() },
        ClientPacket::ReadDir { request_id: 2, handle: vec![1] },
        ClientPacket::Close { request_id: 3, handle: vec![1, 2] },
        ClientPacket::RealPath { request_id: 4, path: ".".to_string() },
        ClientPacket::Stat { request_id: 5, path: "x".to_string() },
        ClientPacket::Open {
            request_id: 6,
            path: "f".to_string(),
            pflags: 1,
            attrs: FileAttributes::default(),
        },
        ClientPacket::Read { request_id: 7, handle: vec![1], offset: 9, len: 1 },
    ];
    for request in requests {
        let mut bytes = request.to_bytes();
        let whole = bytes.len();
        bytes.extend_from_slice(&[0xaa, 0xbb]);
        let mut reader = BufferReader::new(&bytes);
        match cause_of(ServerPacket::from_reader(&mut reader)) {
            ClientCause::UnknownMessageType(t) => assert_eq!(t, request.packet_type()),
            other => panic!("expected UnknownMessageType, got {:?}", other),
        }
        assert_eq!(reader.available(), bytes.len() - whole);
    }
}

#[test]
fn every_request_has_a_length_that_counts_what_follows() {
    let requests = vec![
        ClientPacket::Init { version: 3 },
        ClientPacket::OpenDir { request_id: 1, path: "/d\u{e9}".to_string() },
        ClientPacket::ReadDir { request_id: 2, handle: vec![] },
        ClientPacket::Close { request_id: 3, handle: vec![1, 2] },
        ClientPacket::RealPath { request_id: 4, path: ".".to_string() },
        ClientPacket::Stat { request_id: 5, path: "".to_string() },
        ClientPacket::Open {
            request_id: 6,
            path: "f".to_string(),
            pflags: 1,
            attrs: FileAttributes::from_reported(Some(1), Some(0o100644), Some(2)),
        },
        ClientPacket::Read { request_id: 7, handle: vec![1], offset: 0, len: 1 },
    ];
    for request in requests {
        let bytes = request.to_bytes();
        let length = u32::from_be_bytes([bytes[0], bytes[1], bytes[2], bytes[3]]) as usize;
        assert_eq!(length, bytes.len() - 4);
        assert_eq!(bytes[4], request.packet_type());
    }
}

#[test]
fn attribute_block_is_read_back_as_written() {
    let attrs = FileAttributes::from_reported(Some(1024), Some(0o040755), Some(1234567890));
    assert_eq!(attrs.file_type, FileType::Directory);
    assert!(attrs.is_directory);
    assert!(!attrs.is_regular_file);
    assert!(attrs.is_complete());
    let bytes = attrs.to_bytes();
    assert_eq!(
        bytes,
        vec![
            0, 0, 0, 13, 0, 0, 0, 0, 0, 0, 4, 0, 0, 0, 0x41, 0xed, 0x49, 0x96, 0x02, 0xd2, 0x49,
            0x96, 0x02, 0xd2
        ]
    );
    let mut fields = 9u32.to_be_bytes().to_vec();
    fields.extend_from_slice(&bytes);
    let packet = ServerPacket::from_bytes(&frame(SSH_FXP_ATTRS, &fields)).unwrap();
    match packet {
        ServerPacket::Attrs { request_id, attrs: read } => {
            assert_eq!(request_id, 9);
            assert_eq!(read.size, Some(1024));
            assert_eq!(read.permissions, Some(0o040755));
            assert_eq!(read.modify_time, Some(1234567890));
            assert_eq!(read.file_type, FileType::Directory);
            assert!(read.is_directory);
        }
        other => panic!("expected Attrs, got {:?}", other),
    }
}

#[test]
fn absent_attributes_are_not_zero() {
    let attrs = FileAttributes::default();
    assert_eq!(attrs.size, None);
    assert_eq!(attrs.permissions, None);
    assert_eq!(attrs.modify_time, None);
    assert_eq!(attrs.file_type, FileType::Unknown);
    assert!(!attrs.is_complete());
    assert_eq!(attrs.to_bytes(), vec![0, 0, 0, 0]);
    let zero = FileAttributes::from_reported(Some(0), Some(0), Some(0));
    assert!(zero.is_complete());
    assert_eq!(zero.to_bytes().len(), 4 + 8 + 4 + 8);
}

#[test]
fn file_types_follow_the_permission_bits() {
    let cases = [
        (0o040000u32, FileType::Directory),
        (0o100644, FileType::RegularFile),
        (0o120777, FileType::Symlink),
        (0o020600, FileType::CharacterDevice),
        (0o060600, FileType::BlockDevice),
        (0o010600, FileType::Fifo),
        (0o140600, FileType::Socket),
        (0o000644, FileType::Unknown),
        (0o170000, FileType::Unknown),
    ];
    for (perms, expected) in cases {
        let attrs = FileAttributes::from_reported(None, Some(perms), None);
        assert_eq!(attrs.file_type, expected);
        assert_eq!(attrs.is_directory, expected == FileType::Directory);
        assert_eq!(attrs.is_regular_file, expected == FileType::RegularFile);
        assert_eq!(attrs.is_symlink, expected == FileType::Symlink);
    }
}

#[test]
fn attributes_skip_ids_access_time_and_extensions() {
    let mut fields = 1u32.to_be_bytes().to_vec();
    fields.extend_from_slice(&0x8000000fu32.to_be_bytes());
    fields.extend_from_slice(&77u64.to_be_bytes());
    fields.extend_from_slice(&1000u32.to_be_bytes());
    fields.extend_from_slice(&1001u32.to_be_bytes());
    fields.extend_from_slice(&0o100600u32.to_be_bytes());
    fields.extend_from_slice(&5u32.to_be_bytes());
    fields.extend_from_slice(&6u32.to_be_bytes());
    fields.extend_from_slice(&2u32.to_be_bytes());
    fields.extend_from_slice(&string_field(b"a@b"));
    fields.extend_from_slice(&string_field(b""));
    fields.extend_from_slice(&string_field(b"c"));
    fields.extend_from_slice(&string_field(b"value"));
    match ServerPacket::from_bytes(&frame(SSH_FXP_ATTRS, &fields)).unwrap() {
        ServerPacket::Attrs { request_id, attrs } => {
            assert_eq!(request_id, 1);
            assert_eq!(attrs.size, Some(77));
            assert_eq!(attrs.permissions, Some(0o100600));
            assert_eq!(attrs.modify_time, Some(6));
            assert!(attrs.is_regular_file);
        }
        other => panic!("expected Attrs, got {:?}", other),
    }
    let mut reader = BufferReader::new(&fields[8..]);
    let (taken, _) =
        ferric_ftp::sftp::attributes::parse_file_attributes(&mut reader, &0x8000000f).unwrap();
    assert_eq!(taken, fields.len() - 8);
    assert_eq!(reader.available(), 0);
}

#[test]
fn name_response_holds_entries_in_order() {
    let mut fields = 2u32.to_be_bytes().to_vec();
    fields.extend_from_slice(&2u32.to_be_bytes());
    fields.extend_from_slice(&string_field(b"a.txt"));
    fields.extend_from_slice(&string_field(b"-rw-r--r-- 1 u g 3 Jan 1 00:00 a.txt"));
    fields.extend_from_slice(&1u32.to_be_bytes());
    fields.extend_from_slice(&3u64.to_be_bytes());
    fields.extend_from_slice(&string_field(b"dir"));
    fields.extend_from_slice(&string_field(b"drwxr-xr-x 1 u g 0 Jan 1 00:00 dir"));
    fields.extend_from_slice(&4u32.to_be_bytes());
    fields.extend_from_slice(&0o040755u32.to_be_bytes());
    fields.extend_from_slice(&[0xde, 0xad]);
    match ServerPacket::from_bytes(&frame(SSH_FXP_NAME, &fields)).unwrap() {
        ServerPacket::Name { request_id, files } => {
            assert_eq!(request_id, 2);
            assert_eq!(files.len(), 2);
            assert_eq!(files[0].name, "a.txt");
            assert_eq!(files[0].display_name, "-rw-r--r-- 1 u g 3 Jan 1 00:00 a.txt");
            assert_eq!(files[0].attrs.size, Some(3));
            assert_eq!(files[0].attrs.permissions, None);
            assert_eq!(files[1].name, "dir");
            assert!(files[1].attrs.is_directory);
            assert_eq!(files[1].attrs.size, None);
        }
        other => panic!("expected Name, got {:?}", other),
    }
}

#[test]
fn name_response_may_be_empty() {
    let mut fields = 2u32.to_be_bytes().to_vec();
    fields.extend_from_slice(&0u32.to_be_bytes());
    match ServerPacket::from_bytes(&frame(SSH_FXP_NAME, &fields)).unwrap() {
        ServerPacket::Name { files, .. } => assert!(files.is_empty()),
        other => panic!("expected Name, got {:?}", other),
    }
}

#[test]
fn name_that_is_no_text_is_refused() {
    let mut fields = 2u32.to_be_bytes().to_vec();
    fields.extend_from_slice(&1u32.to_be_bytes());
    fields.extend_from_slice(&string_field(&[0xff, 0xfe]));
    fields.extend_from_slice(&string_field(b"line"));
    fields.extend_from_slice(&0u32.to_be_bytes());
    let cause = cause_of(ServerPacket::from_bytes(&frame(SSH_FXP_NAME, &fields)));
    assert!(matches!(cause, ClientCause::InvalidUtf8));
}

#[test]
fn name_response_that_announces_too_many_entries_is_refused() {
    let mut fields = 2u32.to_be_bytes().to_vec();
    fields.extend_from_slice(&2u32.to_be_bytes());
    fields.extend_from_slice(&string_field(b"only"));
    fields.extend_from_slice(&string_field(b"only"));
    fields.extend_from_slice(&0u32.to_be_bytes());
    let cause = cause_of(ServerPacket::from_bytes(&frame(SSH_FXP_NAME, &fields)));
    assert!(matches!(cause, ClientCause::FrameLength));
}

#[test]
fn status_response_keeps_code_and_message() {
    let mut fields = 5u32.to_be_bytes().to_vec();
    fields.extend_from_slice(&4u32.to_be_bytes());
    fields.extend_from_slice(&string_field("no such handle \u{2713}".as_bytes()));
    fields.extend_from_slice(&string_field(b"en"));
    match ServerPacket::from_bytes(&frame(SSH_FXP_STATUS, &fields)).unwrap() {
        ServerPacket::Status { request_id, status_code, message } => {
            assert_eq!(request_id, 5);
            assert_eq!(status_code, 4);
            assert_eq!(message, "no such handle \u{2713}");
        }
        other => panic!("expected Status, got {:?}", other),
    }
}

#[test]
fn status_without_language_tag_is_refused() {
    let mut fields = 5u32.to_be_bytes().to_vec();
    fields.extend_from_slice(&0u32.to_be_bytes());
    fields.extend_from_slice(&string_field(b"OK"));
    let cause = cause_of(ServerPacket::from_bytes(&frame(SSH_FXP_STATUS, &fields)));
    assert!(matches!(cause, ClientCause::FrameLength));
}

#[test]
fn data_response_holds_the_bytes() {
    let mut fields = 8u32.to_be_bytes().to_vec();
    fields.extend_from_slice(&string_field(&[1, 2, 3, 4]));
    let data = frame(SSH_FXP_DATA, &fields);
    let packet = ServerPacket::from_bytes(&data).unwrap();
    assert_eq!(packet.packet_type(), SSH_FXP_DATA);
    assert_eq!(packet.packet_name(), "SSH_FXP_DATA");
    match packet {
        ServerPacket::Data { request_id, data } => {
            assert_eq!(request_id, 8);
            assert_eq!(data, vec![1, 2, 3, 4]);
        }
        other => panic!("expected Data, got {:?}", other),
    }
}

#[test]
fn version_response_may_carry_extensions() {
    let mut fields = 3u32.to_be_bytes().to_vec();
    fields.extend_from_slice(&string_field(b"posix-rename@openssh.com"));
    fields.extend_from_slice(&string_field(b"1"));
    let packet = ServerPacket::from_bytes(&frame(SSH_FXP_VERSION, &fields)).unwrap();
    assert!(matches!(packet, ServerPacket::Version { version: 3 }));
}

#[test]
fn unknown_message_type_is_reported_with_its_number() {
    let cause = cause_of(ServerPacket::from_bytes(&frame(200, &[1, 2, 3])));
    assert!(matches!(cause, ClientCause::UnknownMessageType(200)));
    let cause = cause_of(ServerPacket::from_bytes(&frame(SSH_FXP_INIT, &[0, 0, 0, 3])));
    assert!(matches!(cause, ClientCause::UnknownMessageType(1)));
}

#[test]
fn frame_that_declares_more_than_is_there_is_a_short_read() {
    let data = vec![0, 0, 0, 13, SSH_FXP_HANDLE, 0, 0, 0, 1, 0, 0, 0, 3, 0x01, 0x02, 0x03];
    assert!(matches!(cause_of(ServerPacket::from_bytes(&data)), ClientCause::UnexpectedEof));
    let mut reader = BufferReader::new(&data);
    assert!(matches!(cause_of(ServerPacket::from_reader(&mut reader)), ClientCause::UnexpectedEof));
    let mut status = 5u32.to_be_bytes().to_vec();
    status.extend_from_slice(&0u32.to_be_bytes());
    status.extend_from_slice(&string_field(b"OK"));
    status.extend_from_slice(&string_field(b""));
    let mut cut = frame(SSH_FXP_STATUS, &status);
    cut[3] += 1;
    assert!(matches!(cause_of(ServerPacket::from_bytes(&cut)), ClientCause::UnexpectedEof));
    let mut attrs = 5u32.to_be_bytes().to_vec();
    attrs.extend_from_slice(&0u32.to_be_bytes());
    let mut cut = frame(SSH_FXP_ATTRS, &attrs);
    cut[3] += 4;
    assert!(matches!(cause_of(ServerPacket::from_bytes(&cut)), ClientCause::UnexpectedEof));
    let mut data_fields = 5u32.to_be_bytes().to_vec();
    data_fields.extend_from_slice(&string_field(&[1, 2]));
    let mut cut = frame(SSH_FXP_DATA, &data_fields);
    cut[3] += 1;
    assert!(matches!(cause_of(ServerPacket::from_bytes(&cut)), ClientCause::UnexpectedEof));
}

#[test]
fn short_input_is_a_short_read() {
    assert!(matches!(cause_of(ServerPacket::from_bytes(&[])), ClientCause::UnexpectedEof));
    assert!(matches!(cause_of(ServerPacket::from_bytes(&[0, 0, 0])), ClientCause::UnexpectedEof));
    let whole = frame(SSH_FXP_VERSION, &[0, 0, 0, 3]);
    assert!(matches!(
        cause_of(ServerPacket::from_bytes(&whole[..whole.len() - 1])),
        ClientCause::UnexpectedEof
    ));
}

#[test]
fn frame_that_its_fields_do_not_fill_is_refused() {
    let mut fields = 1u32.to_be_bytes().to_vec();
    fields.extend_from_slice(&string_field(&[1, 2, 3]));
    fields.push(0);
    assert!(matches!(
        cause_of(ServerPacket::from_bytes(&frame(SSH_FXP_HANDLE, &fields))),
        ClientCause::FrameLength
    ));
    assert!(matches!(
        cause_of(ServerPacket::from_bytes(&frame(SSH_FXP_HANDLE, &[0, 0, 0, 1, 0, 0, 0, 9, 1]))),
        ClientCause::FrameLength
    ));
    assert!(matches!(
        cause_of(ServerPacket::from_bytes(&[0, 0, 0, 0])),
        ClientCause::FrameLength
    ));
    assert!(matches!(
        cause_of(ServerPacket::from_bytes(&frame(SSH_FXP_VERSION, &[0, 0, 3]))),
        ClientCause::FrameLength
    ));
}

#[test]
fn bytes_behind_the_frame_are_left_alone() {
    let mut data = frame(SSH_FXP_VERSION, &[0, 0, 0, 3]);
    let mut second = 6u32.to_be_bytes().to_vec();
    second.extend_from_slice(&string_field(&[7]));
    data.extend_from_slice(&frame(SSH_FXP_HANDLE, &second));
    let mut reader = BufferReader::new(&data);
    assert!(matches!(
        ServerPacket::from_reader(&mut reader),
        Ok(ServerPacket::Version { version: 3 })
    ));
    match ServerPacket::from_reader(&mut reader) {
        Ok(ServerPacket::Handle { request_id, handle }) => {
            assert_eq!(request_id, 6);
            assert_eq!(handle, vec![7]);
        }
        other => panic!("expected Handle, got {:?}", other),
    }
    assert_eq!(reader.available(), 0);
    assert!(matches!(cause_of(ServerPacket::from_reader(&mut reader)), ClientCause::UnexpectedEof));
}

#[test]
fn from_frame_takes_what_follows_the_length() {
    let packet = ServerPacket::from_frame(&[SSH_FXP_VERSION, 0, 0, 0, 3]).unwrap();
    assert!(matches!(packet, ServerPacket::Version { version: 3 }));
    assert!(matches!(cause_of(ServerPacket::from_frame(&[])), ClientCause::FrameLength));
}

#[test]
fn buffer_reader_reads_numbers_most_significant_byte_first() {
    let data = [
        0x12, 0x01, 0x02, 0x03, 0x04, 0xff, 0xff, 0xff, 0xff, 0xff, 0xff, 0xff, 0xfe, 0, 0, 0, 0,
        0, 0, 0, 5, 0, 0, 0, 2, b'h', b'i', 9, 9, 9,
    ];
    let mut reader = BufferReader::new(&data);
    assert_eq!(reader.read_u8().unwrap(), 0x12);
    assert_eq!(reader.read_u32().unwrap(), 0x01020304);
    assert_eq!(reader.read_i64().unwrap(), -2);
    assert_eq!(reader.read_u64().unwrap(), 5);
    assert_eq!(reader.read_string().unwrap(), b"hi".to_vec());
    assert_eq!(reader.available(), 3);
    assert!(reader.discard(&4).is_err());
    assert_eq!(reader.available(), 3);
    assert_eq!(reader.read_bytes(2).unwrap(), vec![9, 9]);
    assert!(reader.read_bytes(2).is_err());
    assert_eq!(reader.available(), 1);
    reader.discard(&1).unwrap();
    assert!(reader.read_u8().is_err());
    assert!(reader.read_u32().is_err());
    assert!(reader.read_u64().is_err());
    assert!(reader.read_string().is_err());
    reader.discard(&0).unwrap();
}

#[test]
fn file_info_clone_keeps_every_field() {
    let file = FileInfo {
        name: "test.txt".to_string(),
        display_name: "-rw test.txt".to_string(),
        attrs: FileAttributes::from_reported(Some(1024), Some(0o100755), Some(1234567890)),
    };
    let copy = file.clone();
    assert_eq!(copy.name, "test.txt");
    assert_eq!(copy.display_name, "-rw test.txt");
    assert_eq!(copy.attrs.size, Some(1024));
    assert_eq!(copy.attrs.file_type, FileType::RegularFile);
}

#[test]
fn length_field_is_read_from_four_bytes() {
    assert_eq!(ferric_ftp::sftp::wire::declared_length(&[0, 0, 1, 2]), Some(258));
    assert_eq!(ferric_ftp::sftp::wire::declared_length(&[0xff, 0xff, 0xff, 0xff, 9]), Some(u32::MAX));
    assert_eq!(ferric_ftp::sftp::wire::declared_length(&[0, 0, 1]), None);
    assert_eq!(ferric_ftp::sftp::wire::declared_length(&[]), None);
}
