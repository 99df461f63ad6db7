use ferric_ftp::sftp::client::SftpClient;
use ferric_ftp::sftp::constants::{SFTP_SUPPORTED_VERSION, SSH_FXF_READ};
use ferric_ftp::sftp::error::{ClientCause, SftpError};
use ferric_ftp::sftp::packet::{ClientPacket, ServerPacket};
use ferric_ftp::sftp::path::{
    file_name_of, join_path, local_target, parent_directory, resolve, starts_at_root,
};
use ferric_ftp::sftp::test_utils::MockTransport;
use ferric_ftp::sftp::types::{FileAttributes, FileInfo, SftpStatus};
use ferric_ftp::sftp::SftpCommand;

fn entry(name: &str, display_name: &str) -> FileInfo {
    FileInfo {
        name: name.to_string(),
        display_name: display_name.to_string(),
        attrs: FileAttributes::default(),
    }
}

fn name(request_id: u32, names: &[&str]) -> ServerPacket {
    ServerPacket::Name {
        request_id,
        files: names.iter().map(|n| entry(n, n)).collect(),
    }
}

fn status(request_id: u32, status_code: u32) -> ServerPacket {
    ServerPacket::Status { request_id, status_code, message: String::new() }
}

fn directory() -> FileAttributes {
    FileAttributes::from_reported(None, Some(0o040755), None)
}

fn regular_file() -> FileAttributes {
    FileAttributes::from_reported(Some(3), Some(0o100644), None)
}

fn client_at(working_dir: &str, transport: MockTransport) -> SftpClient<MockTransport> {
    let seed = MockTransport::new().respond_with(name(0, &[working_dir]));
    let mut client = SftpClient::new(seed, None).unwrap();
    assert_eq!(client.working_dir, working_dir);
    client.protocol.transport = transport;
    client
}

#[test]
fn session_test_list_directory() {
    let mock_transport = MockTransport::new()
        .expect_request(ClientPacket::RealPath {
            request_id: 0,
            path: "/".to_string(),
        })
        .respond_with(ServerPacket::Name {
            request_id: 0,
            files: vec![FileInfo {
                name: "/".to_string(),
                display_name: "/".to_string(),
                attrs: FileAttributes::default(),
            }],
        })
        .expect_request(ClientPacket::OpenDir {
            request_id: 1,
            path: "/test".to_string(),
        })
        .respond_with(ServerPacket::Handle {
            request_id: 1,
            handle: vec![1, 2, 3],
        })
        .expect_request(ClientPacket::ReadDir {
            request_id: 2,
            handle: vec![1, 2, 3],
        })
        .respond_with(ServerPacket::Name {
            request_id: 2,
            files: vec![FileInfo {
                name: "test.txt".to_string(),
                display_name: "-rw-r--r-- 1 user user 0 Jan 1 00:00 test.txt".to_string(),
                attrs: FileAttributes::default(),
            }],
        })
        .expect_request(ClientPacket::ReadDir {
            request_id: 2,
            handle: vec![1, 2, 3],
        })
        .respond_with(ServerPacket::Status {
            request_id: 2,
            status_code: 1, // EOF
            message: "".to_string(),
        })
        .expect_request(ClientPacket::Close {
            request_id: 3,
            handle: vec![1, 2, 3],
        })
        .respond_with(ServerPacket::Status {
            request_id: 3,
            status_code: SftpStatus::Success.code(),
            message: "OK".to_string(),
        });

    let mut client = SftpClient::new(mock_transport, Some("/")).unwrap();

    let cmd = SftpCommand::Ls {
        path: Some(String::from("test")),
    };
    let result = client.execute_command(&cmd);
    assert!(result.is_ok());
    let output = result.unwrap();
    assert!(output.result);
    assert_eq!(output.lines, vec!["-rw-r--r-- 1 user user 0 Jan 1 00:00 test.txt".to_string()]);
    assert!(output.data.is_none());
    assert!(client.directory_cache.contains_key("/test"));
    match &client.protocol.transport.requests[1] {
        ClientPacket::OpenDir { path, .. } => assert_eq!(path, "/test"),
        other => panic!("expected OpenDir, got {:?}", other),
    }
}

#[test]
fn session_opens_and_lists_the_root() {
    let transport = MockTransport::new()
        .expect_request(ClientPacket::Init { version: 3 })
        .respond_with(ServerPacket::Version { version: 3 })
        .expect_request(ClientPacket::RealPath { request_id: 0, path: ".".to_string() })
        .respond_with(name(0, &["/"]))
        .expect_request(ClientPacket::OpenDir { request_id: 1, path: "/".to_string() })
        .respond_with(ServerPacket::Handle { request_id: 1, handle: vec![1, 2, 3] })
        .expect_request(ClientPacket::ReadDir { request_id: 2, handle: vec![1, 2, 3] })
        .respond_with(name(2, &["test.txt"]))
        .expect_request(ClientPacket::ReadDir { request_id: 3, handle: vec![1, 2, 3] })
        .respond_with(status(3, 1))
        .expect_request(ClientPacket::Close { request_id: 4, handle: vec![1, 2, 3] })
        .respond_with(status(4, 0));
    let mut client = SftpClient::connect(transport, SFTP_SUPPORTED_VERSION, Some(".")).unwrap();
    assert_eq!(client.working_dir, "/");
    assert!(client.current_listing.is_empty());
    assert!(client.directory_cache.is_empty());

    let output = client.execute_command(&SftpCommand::Ls { path: None }).unwrap();
    assert!(output.result);
    assert_eq!(client.current_listing.len(), 1);
    assert_eq!(client.current_listing[0].name, "test.txt");
    assert_eq!(client.directory_cache.len(), 1);
    let cached = client.directory_cache.get("/").unwrap();
    assert_eq!(cached.files.len(), 1);
    assert_eq!(cached.files[0].name, "test.txt");

    let requests = &client.protocol.transport.requests;
    assert_eq!(requests.len(), 6);
    assert!(matches!(requests[0], ClientPacket::Init { version: 3 }));
    match &requests[1] {
        ClientPacket::RealPath { request_id, path } => {
            assert_eq!(*request_id, 0);
            assert_eq!(path, ".");
        }
        other => panic!("expected RealPath, got {:?}", other),
    }
    match &requests[2] {
        ClientPacket::OpenDir { request_id, path } => {
            assert_eq!(*request_id, 1);
            assert_eq!(path, "/");
        }
        other => panic!("expected OpenDir, got {:?}", other),
    }
    for (i, expected_id) in [(3usize, 2u32), (4, 3)] {
        match &requests[i] {
            ClientPacket::ReadDir { request_id, handle } => {
                assert_eq!(*request_id, expected_id);
                assert_eq!(handle, &vec![1, 2, 3]);
            }
            other => panic!("expected ReadDir, got {:?}", other),
        }
    }
    match &requests[5] {
        ClientPacket::Close { request_id, handle } => {
            assert_eq!(*request_id, 4);
            assert_eq!(handle, &vec![1, 2, 3]);
        }
        other => panic!("expected Close, got {:?}", other),
    }
    assert!(client.protocol.transport.responses.is_empty());
}

#[test]
fn session_fails_when_the_first_answer_is_no_version() {
    let transport = MockTransport::new().respond_with(status(0, 0)).respond_with(name(0, &["/"]));
    assert!(matches!(
        SftpClient::connect(transport, 3, None),
        Err(SftpError::ClientError(ClientCause::SessionSetup))
    ));
}

#[test]
fn new_session_defaults_to_the_root() {
    let transport = MockTransport::new().respond_with(name(0, &["/home/demo"]));
    let client = SftpClient::new(transport, None).unwrap();
    assert_eq!(client.working_dir, "/home/demo");
    match &client.protocol.transport.requests[0] {
        ClientPacket::RealPath { path, .. } => assert_eq!(path, "/"),
        other => panic!("expected RealPath, got {:?}", other),
    }
    let refused = MockTransport::new().respond_with(status(0, 3));
    assert!(matches!(
        SftpClient::new(refused, None),
        Err(SftpError::ServerError { code: 3, request_id: 0, .. })
    ));
}

#[test]
fn second_listing_comes_from_the_cache() {
    let transport = MockTransport::new()
        .respond_with(ServerPacket::Handle { request_id: 0, handle: vec![4] })
        .respond_with(name(1, &["a", "b"]))
        .respond_with(name(2, &["c"]))
        .respond_with(name(3, &[]))
        .respond_with(status(4, 0));
    let mut client = client_at("/a/b", transport);
    client.list_directory(Some("sub")).unwrap();
    assert_eq!(client.protocol.transport.requests.len(), 5);
    let names: Vec<&str> = client.current_listing.iter().map(|f| f.name.as_str()).collect();
    assert_eq!(names, vec!["a", "b", "c"]);

    client.current_listing.clear();
    client.list_directory(Some("/a/b/sub")).unwrap();
    assert_eq!(client.protocol.transport.requests.len(), 5);
    let names: Vec<&str> = client.current_listing.iter().map(|f| f.name.as_str()).collect();
    assert_eq!(names, vec!["a", "b", "c"]);
    assert_eq!(client.directory_cache.len(), 1);
    assert!(client.directory_cache.contains_key("/a/b/sub"));
    assert_eq!(client.listing_lines(), vec!["a".to_string(), "b".to_string(), "c".to_string()]);
}

#[test]
fn failed_listing_closes_the_handle_and_keeps_the_cache_empty() {
    let transport = MockTransport::new()
        .respond_with(ServerPacket::Handle { request_id: 0, handle: vec![4] })
        .respond_with(name(1, &["a"]))
        .respond_with(status(2, 4))
        .respond_with(status(3, 0));
    let mut client = client_at("/", transport);
    match client.list_directory(None) {
        Err(SftpError::ServerError { code, request_id, .. }) => {
            assert_eq!(code, 4);
            assert_eq!(request_id, 2);
        }
        other => panic!("expected ServerError, got {:?}", other),
    }
    assert!(client.directory_cache.is_empty());
    assert!(client.current_listing.is_empty());
    let requests = &client.protocol.transport.requests;
    assert_eq!(requests.len(), 4);
    assert!(matches!(requests[3], ClientPacket::Close { request_id: 3, .. }));
}

#[test]
fn listing_fails_when_the_close_is_refused() {
    let transport = MockTransport::new()
        .respond_with(ServerPacket::Handle { request_id: 0, handle: vec![4] })
        .respond_with(status(1, 1))
        .respond_with(status(2, 4));
    let mut client = client_at("/", transport);
    assert!(matches!(
        client.list_directory(None),
        Err(SftpError::ServerError { code: 4, request_id: 2, .. })
    ));
    assert!(client.directory_cache.is_empty());
}

#[test]
fn listing_fails_when_the_directory_does_not_open() {
    let transport = MockTransport::new().respond_with(status(0, 2));
    let mut client = client_at("/", transport);
    assert!(matches!(
        client.list_directory(Some("missing")),
        Err(SftpError::ServerError { code: 2, request_id: 0, .. })
    ));
    assert_eq!(client.protocol.transport.requests.len(), 1);
}

#[test]
fn resolve_path_follows_the_working_directory() {
    let client = client_at("/a/b", MockTransport::new());
    assert_eq!(client.resolve_path(".."), "/a");
    assert_eq!(client.resolve_path("."), "/a/b");
    assert_eq!(client.resolve_path("/x/y"), "/x/y");
    assert_eq!(client.resolve_path("c"), "/a/b/c");
    assert_eq!(client.resolve_path("c/d"), "/a/b/c/d");
    assert_eq!(client.resolve_path("../c"), "/a/b/../c");
    let root = client_at("/", MockTransport::new());
    assert_eq!(root.resolve_path(".."), "/");
    assert_eq!(root.resolve_path("."), "/");
    assert_eq!(root.resolve_path("pub"), "/pub");
    assert_eq!(root.resolve_path("/"), "/");
}

#[test]
fn paths_are_joined_and_cut_at_slashes() {
    assert_eq!(parent_directory("/a/b"), "/a");
    assert_eq!(parent_directory("/a/b/"), "/a");
    assert_eq!(parent_directory("//a///b//c"), "/a/b");
    assert_eq!(parent_directory("/a"), "/");
    assert_eq!(parent_directory("/"), "/");
    assert_eq!(parent_directory(""), "/");
    assert_eq!(parent_directory("a/b"), "/a");
    assert_eq!(parent_directory("/d\u{e9}j\u{e0}/vu"), "/d\u{e9}j\u{e0}");
    assert_eq!(join_path("/a", "b"), "/a/b");
    assert_eq!(join_path("/a/", "b"), "/a/b");
    assert_eq!(join_path("", "b"), "b");
    assert_eq!(join_path("/", ""), "/");
    assert_eq!(resolve("/a/b", ".."), "/a");
    assert_eq!(resolve("/a/b", "..."), "/a/b/...");
    assert_eq!(resolve("/a/b", ""), "/a/b/");
    assert!(starts_at_root("/"));
    assert!(!starts_at_root(""));
    assert!(!starts_at_root("a/"));
}

#[test]
fn change_directory_to_a_file_is_refused() {
    let transport = MockTransport::new()
        .respond_with(name(0, &["/a/b/readme.txt"]))
        .respond_with(ServerPacket::Attrs { request_id: 1, attrs: regular_file() });
    let mut client = client_at("/a/b", transport);
    client.current_listing.push(entry("kept", "kept"));
    match client.change_directory(Some("readme.txt")) {
        Err(SftpError::NotADirectory(path)) => assert_eq!(path, "/a/b/readme.txt"),
        other => panic!("expected NotADirectory, got {:?}", other),
    }
    assert_eq!(client.working_dir, "/a/b");
    assert_eq!(client.current_listing.len(), 1);
    let requests = &client.protocol.transport.requests;
    match &requests[0] {
        ClientPacket::RealPath { path, .. } => assert_eq!(path, "/a/b/readme.txt"),
        other => panic!("expected RealPath, got {:?}", other),
    }
    match &requests[1] {
        ClientPacket::Stat { path, .. } => assert_eq!(path, "/a/b/readme.txt"),
        other => panic!("expected Stat, got {:?}", other),
    }
}

#[test]
fn change_directory_without_reported_permissions_is_refused() {
    let transport = MockTransport::new()
        .respond_with(name(0, &["/x"]))
        .respond_with(ServerPacket::Attrs { request_id: 1, attrs: FileAttributes::default() });
    let mut client = client_at("/", transport);
    assert!(matches!(client.change_directory(Some("x")), Err(SftpError::NotADirectory(_))));
    assert_eq!(client.working_dir, "/");
}

#[test]
fn change_directory_moves_and_drops_the_listing() {
    let transport = MockTransport::new()
        .respond_with(name(0, &["/pub"]))
        .respond_with(ServerPacket::Attrs { request_id: 1, attrs: directory() })
        .respond_with(name(2, &["/"]))
        .respond_with(ServerPacket::Attrs { request_id: 3, attrs: directory() })
        .respond_with(name(4, &["/"]))
        .respond_with(ServerPacket::Attrs { request_id: 5, attrs: directory() });
    let mut client = client_at("/", transport);
    client.current_listing.push(entry("old", "old"));
    let first_dir = client.working_dir.clone();
    let output = client
        .execute_command(&SftpCommand::Cd { path: Some(String::from("pub")) })
        .unwrap();
    assert!(output.result);
    assert!(output.lines.is_empty());
    let next_dir = client.working_dir.clone();
    assert!(client.current_listing.is_empty());
    client.execute_command(&SftpCommand::Cd { path: Some(String::from("..")) }).unwrap();
    let final_dir = client.working_dir.clone();
    assert_eq!(first_dir, final_dir);
    assert_ne!(first_dir, next_dir);
    assert_eq!(next_dir, "/pub");
    client.working_dir = String::from("/pub");
    client.execute_command(&SftpCommand::Cd { path: None }).unwrap();
    assert_eq!(client.working_dir, "/");
    let requests = &client.protocol.transport.requests;
    match &requests[2] {
        ClientPacket::RealPath { path, .. } => assert_eq!(path, "/"),
        other => panic!("expected RealPath, got {:?}", other),
    }
    match &requests[4] {
        ClientPacket::RealPath { path, .. } => assert_eq!(path, "/"),
        other => panic!("expected RealPath, got {:?}", other),
    }
}

#[test]
fn change_directory_hands_on_what_the_server_refuses() {
    let transport = MockTransport::new().respond_with(status(0, 2));
    let mut client = client_at("/a", transport);
    assert!(matches!(
        client.change_directory(Some("nowhere")),
        Err(SftpError::ServerError { code: 2, .. })
    ));
    assert_eq!(client.working_dir, "/a");
    let transport = MockTransport::new().respond_with(name(0, &["/a/x"])).respond_with(status(1, 3));
    let mut client = client_at("/a", transport);
    assert!(matches!(
        client.change_directory(Some("x")),
        Err(SftpError::ServerError { code: 3, request_id: 1, .. })
    ));
    assert_eq!(client.working_dir, "/a");
}

#[test]
fn get_file_opens_once_and_reads_from_the_start() {
    let transport = MockTransport::new()
        .respond_with(ServerPacket::Handle { request_id: 0, handle: vec![8, 8] })
        .respond_with(ServerPacket::Data { request_id: 1, data: b"hello".to_vec() })
        .respond_with(ServerPacket::Data { request_id: 2, data: b"again".to_vec() });
    let mut client = client_at("/pub", transport);
    let output = client
        .execute_command(&SftpCommand::Get {
            remote_path: String::from("readme.txt"),
            local_path: Some(String::from("test_readme.txt")),
        })
        .unwrap();
    assert!(output.result);
    assert_eq!(output.data, Some(b"hello".to_vec()));
    assert_eq!(client.handles.get("/pub/readme.txt"), Some(&vec![8, 8]));
    assert_eq!(client.get_file("/pub/readme.txt").unwrap(), b"again".to_vec());
    let requests = &client.protocol.transport.requests;
    assert_eq!(requests.len(), 3);
    match &requests[0] {
        ClientPacket::Open { request_id, path, pflags, .. } => {
            assert_eq!(*request_id, 0);
            assert_eq!(path, "/pub/readme.txt");
            assert_eq!(*pflags, SSH_FXF_READ);
        }
        other => panic!("expected Open, got {:?}", other),
    }
    for i in [1usize, 2] {
        match &requests[i] {
            ClientPacket::Read { request_id, handle, offset, len } => {
                assert_eq!(*request_id, i as u32);
                assert_eq!(handle, &vec![8, 8]);
                assert_eq!(*offset, 0);
                assert_eq!(*len, 32768);
            }
            other => panic!("expected Read, got {:?}", other),
        }
    }
}

#[test]
fn get_file_that_does_not_open_keeps_no_handle() {
    let transport = MockTransport::new().respond_with(status(0, 2));
    let mut client = client_at("/", transport);
    assert!(matches!(client.get_file("nothing"), Err(SftpError::ServerError { code: 2, .. })));
    assert!(client.handles.is_empty());
}

#[test]
fn commands_that_need_no_server() {
    let mut client = client_at("/home/demo", MockTransport::new());
    let output = client.execute_command(&SftpCommand::Pwd).unwrap();
    assert!(output.result);
    assert_eq!(output.lines, vec!["/home/demo".to_string()]);
    let output = client.execute_command(&SftpCommand::Help).unwrap();
    assert!(output.result);
    assert_eq!(
        output.lines,
        vec!["Available commands:\nls - list files in current directory\ncd - change current directory\nget - download file\nput - upload file\nbye - exit".to_string()]
    );
    let output = client.execute_command(&SftpCommand::Bye).unwrap();
    assert!(!output.result);
    assert!(output.lines.is_empty());
    assert!(output.data.is_none());
    assert!(matches!(
        client.execute_command(&SftpCommand::Put {
            remote_path: String::from("a"),
            local_path: None
        }),
        Err(SftpError::InvalidCommand("Upload is not supported"))
    ));
    assert!(client.protocol.transport.requests.is_empty());
}

#[test]
fn download_goes_to_the_named_file_or_to_the_remote_name() {
    assert_eq!(file_name_of("/pub/readme.txt"), "readme.txt");
    assert_eq!(file_name_of("readme.txt"), "readme.txt");
    assert_eq!(file_name_of("/pub/dir/"), "dir");
    assert_eq!(file_name_of("a//b///"), "b");
    assert_eq!(file_name_of("/x"), "x");
    assert_eq!(file_name_of("/"), "download");
    assert_eq!(file_name_of(""), "download");
    assert_eq!(file_name_of("/d\u{e9}j\u{e0}/v\u{fc}"), "v\u{fc}");
    assert_eq!(local_target("/pub/readme.txt", None), "readme.txt");
    assert_eq!(local_target("/pub/readme.txt", Some("copy.txt")), "copy.txt");
    assert_eq!(local_target("/pub/readme.txt", Some("/tmp/x/y")), "/tmp/x/y");
}
