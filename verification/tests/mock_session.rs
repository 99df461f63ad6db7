use ferric_ftp::sftp::error::{ClientCause, SftpError};
use ferric_ftp::sftp::packet::ServerPacket;
use ferric_ftp::sftp::test_utils::MockSession;

fn is_injected<T: std::fmt::Debug>(result: Result<T, SftpError>) -> bool {
    matches!(result, Err(SftpError::ClientError(ClientCause::InjectedFailure)))
}

fn is_short<T: std::fmt::Debug>(result: Result<T, SftpError>) -> bool {
    matches!(result, Err(SftpError::ClientError(ClientCause::UnexpectedEof)))
}

#[test]
fn mock_session_reads_what_was_pushed() {
    let mut session = MockSession::new();
    session.push_u32(0xdeadbeef);
    session.push_string("h\u{e9}");
    session.push_read_data(&[0, 0, 0, 0, 0, 0, 1, 0, 0xff, 0xff, 0xff, 0xff, 0xff, 0xff, 0xff, 0xff, 42, 1, 2]);
    assert_eq!(session.read_data.len(), 4 + 4 + 3 + 19);
    assert_eq!(session.read_u32().unwrap(), 0xdeadbeef);
    assert_eq!(session.read_string().unwrap(), "h\u{e9}".as_bytes().to_vec());
    assert_eq!(session.read_u64().unwrap(), 256);
    assert_eq!(session.read_i64().unwrap(), -1);
    assert_eq!(session.read_u8().unwrap(), 42);
    session.discard(&2).unwrap();
    assert!(session.read_data.is_empty());
    assert!(is_short(session.read_u8()));
    assert!(is_short(session.read_u32()));
    assert!(is_short(session.read_u64()));
    assert!(is_short(session.read_i64()));
    assert!(is_short(session.read_string()));
    assert!(is_short(session.discard(&1)));
}

#[test]
fn mock_session_string_needs_all_its_bytes() {
    let mut session = MockSession::new().with_read_data(vec![0, 0, 0, 3, 1, 2]);
    assert!(is_short(session.read_string()));
    assert_eq!(session.read_data.len(), 2);
}

#[test]
fn mock_session_fails_on_demand() {
    let mut session = MockSession::new().with_read_data(vec![0; 16]).with_failure();
    assert!(session.should_fail);
    assert!(is_injected(session.read_u8()));
    assert!(is_injected(session.read_u32()));
    assert!(is_injected(session.read_string()));
    assert!(is_injected(session.write_all(&[1])));
    assert_eq!(session.read_data.len(), 16);
    assert!(session.get_written_data().is_empty());
    assert_eq!(session.read_u64().unwrap(), 0);
    session.discard(&8).unwrap();
    assert!(is_injected(ServerPacket::from_reader(&mut session)));
}

#[test]
fn mock_session_keeps_what_is_written() {
    let mut session = MockSession::new();
    session.write_all(&[1, 2]).unwrap();
    session.write_all(&[3]).unwrap();
    session.flush().unwrap();
    assert_eq!(session.get_written_data(), &[1, 2, 3]);
    session.clear_written_data();
    assert!(session.get_written_data().is_empty());
}

#[test]
fn mock_session_reads_attribute_blocks() {
    let mut session = MockSession::new();
    session.push_read_data(&[0, 0, 0, 0, 0, 0, 0, 9]);
    session.push_u32(0o100644);
    session.push_u32(1);
    let (taken, attrs) = session.parse_file_attributes(&5).unwrap();
    assert_eq!(taken, 12);
    assert_eq!(attrs.size, Some(9));
    assert_eq!(attrs.permissions, Some(0o100644));
    assert_eq!(attrs.modify_time, None);
    assert!(attrs.is_regular_file);
    assert_eq!(session.read_data.len(), 4);
    assert!(is_short(session.parse_file_attributes(&1)));
    let (taken, attrs) = session.parse_file_attributes(&0).unwrap();
    assert_eq!(taken, 0);
    assert_eq!(attrs.size, None);
}
