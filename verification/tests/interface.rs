use ferric_ftp::interface::{is_white_space, CommandInterface};
use ferric_ftp::sftp::error::SftpError;
use ferric_ftp::sftp::SftpCommand;

#[test]
fn test_parse_ls() {
    let command = CommandInterface::parse_input("ls").unwrap();
    if let SftpCommand::Ls { path } = command {
        assert_eq!(path, Some(String::from(".")));
    } else {
        panic!("Expected Ls command");
    }
}

#[test]
fn test_parse_ls_path() {
    let command = CommandInterface::parse_input("ls test").unwrap();
    if let SftpCommand::Ls { path } = command {
        assert_eq!(path, Some(String::from("test")));
    } else {
        panic!("Expected Ls command");
    }
}

#[test]
fn parse_cd_defaults_to_root() {
    match CommandInterface::parse_input("cd").unwrap() {
        SftpCommand::Cd { path } => assert_eq!(path, Some(String::from("/"))),
        other => panic!("expected Cd, got {:?}", other),
    }
    match CommandInterface::parse_input("  cd\t/pub/files  ignored").unwrap() {
        SftpCommand::Cd { path } => assert_eq!(path, Some(String::from("/pub/files"))),
        other => panic!("expected Cd, got {:?}", other),
    }
}

#[test]
fn parse_get_takes_one_or_two_paths() {
    match CommandInterface::parse_input("get readme.txt").unwrap() {
        SftpCommand::Get { remote_path, local_path } => {
            assert_eq!(remote_path, "readme.txt");
            assert_eq!(local_path, None);
        }
        other => panic!("expected Get, got {:?}", other),
    }
    match CommandInterface::parse_input("get readme.txt copy.txt\n").unwrap() {
        SftpCommand::Get { remote_path, local_path } => {
            assert_eq!(remote_path, "readme.txt");
            assert_eq!(local_path, Some(String::from("copy.txt")));
        }
        other => panic!("expected Get, got {:?}", other),
    }
}

#[test]
fn parse_get_without_path_is_invalid() {
    match CommandInterface::parse_input("get") {
        Err(SftpError::InvalidCommand(reason)) => assert_eq!(reason, "Missing remote path"),
        other => panic!("expected InvalidCommand, got {:?}", other),
    }
}

#[test]
fn parse_empty_line_is_invalid() {
    match CommandInterface::parse_input("") {
        Err(SftpError::InvalidCommand(reason)) => assert_eq!(reason, "Empty command"),
        other => panic!("expected InvalidCommand, got {:?}", other),
    }
    match CommandInterface::parse_input(" \t \n") {
        Err(SftpError::InvalidCommand(reason)) => assert_eq!(reason, "Empty command"),
        other => panic!("expected InvalidCommand, got {:?}", other),
    }
}

#[test]
fn parse_words_without_arguments() {
    assert!(matches!(CommandInterface::parse_input("pwd"), Ok(SftpCommand::Pwd)));
    assert!(matches!(CommandInterface::parse_input("bye\n"), Ok(SftpCommand::Bye)));
    assert!(matches!(CommandInterface::parse_input(" help "), Ok(SftpCommand::Help)));
}

#[test]
fn parse_unknown_word_is_unexpected() {
    assert!(matches!(CommandInterface::parse_input("put a b"), Err(SftpError::UnexpectedCommand)));
    assert!(matches!(CommandInterface::parse_input("lsx"), Err(SftpError::UnexpectedCommand)));
    assert!(matches!(CommandInterface::parse_input("l"), Err(SftpError::UnexpectedCommand)));
}

#[test]
fn parse_keeps_characters_outside_ascii() {
    match CommandInterface::parse_input("ls caf\u{e9}\u{3000}x").unwrap() {
        SftpCommand::Ls { path } => assert_eq!(path, Some(String::from("caf\u{e9}"))),
        other => panic!("expected Ls, got {:?}", other),
    }
}

#[test]
fn white_space_is_what_the_standard_library_calls_it() {
    let mut code: u32 = 0;
    while code <= 0x3100 {
        if let Some(c) = char::from_u32(code) {
            assert_eq!(is_white_space(c), c.is_whitespace(), "U+{:04X}", code);
        }
        code += 1;
    }
    assert!(!is_white_space('\u{10FFFF}'));
}
