//! The errors of the client.

use vstd::prelude::*;

verus! {

/// An I/O error of the standard library, `std::io::Error`. Nothing is claimed
/// of what such a value holds.
#[verifier::external_type_specification]
#[verifier::external_body]
pub struct ExIoError(std::io::Error);

/// Why the client itself gave up, as opposed to the server refusing.
#[derive(Debug, Clone, Copy, PartialEq, Eq)]
pub enum ClientCause {
    /// Fewer bytes were available than a length announced.
    UnexpectedEof,
    /// A frame carried a message type the client does not know.
    UnknownMessageType(u8),
    /// A text field did not hold UTF-8.
    InvalidUtf8,
    /// The fields of a frame did not fill exactly the length it declared.
    FrameLength,
    /// The server did not answer the first message with its version.
    SessionSetup,
    /// A scripted transport had no response left.
    NoMoreResponses,
    /// A double was told to fail.
    InjectedFailure,
}

/// Everything that can go wrong in an operation.
#[derive(Debug)]
pub enum SftpError {
    /// The transport failed.
    IoError(std::io::Error),
    /// The server answered with a status that the operation does not accept.
    ServerError { code: u32, request_id: u32, message: String },
    /// The client gave up for a cause of its own.
    ClientError(ClientCause),
    /// The target of a directory change is no directory.
    NotADirectory(String),
    /// The server answered with a message of the wrong type.
    UnexpectedPacket(&'static str),
    /// The server answered with the right type and the wrong content.
    UnexpectedResponse(&'static str),
    UnknownError,
    /// The command word is not one of the client's.
    UnexpectedCommand,
    /// The command lacks an argument, or cannot be carried out.
    InvalidCommand(&'static str),
}

/// An error as a mathematical value.
pub enum SftpErrorView {
    IoError(std::io::Error),
    ServerError { code: u32, request_id: u32, message: Seq<char> },
    ClientError(ClientCause),
    NotADirectory(Seq<char>),
    UnexpectedPacket(Seq<char>),
    UnexpectedResponse(Seq<char>),
    UnknownError,
    UnexpectedCommand,
    InvalidCommand(Seq<char>),
}

impl View for SftpError {
    type V = SftpErrorView;

    open spec fn view(&self) -> SftpErrorView {
        match self {
            SftpError::IoError(e) => SftpErrorView::IoError(*e),
            SftpError::ServerError { code, request_id, message } => SftpErrorView::ServerError {
                code: *code,
                request_id: *request_id,
                message: message@,
            },
            SftpError::ClientError(c) => SftpErrorView::ClientError(*c),
            SftpError::NotADirectory(p) => SftpErrorView::NotADirectory(p@),
            SftpError::UnexpectedPacket(m) => SftpErrorView::UnexpectedPacket(m@),
            SftpError::UnexpectedResponse(m) => SftpErrorView::UnexpectedResponse(m@),
            SftpError::UnknownError => SftpErrorView::UnknownError,
            SftpError::UnexpectedCommand => SftpErrorView::UnexpectedCommand,
            SftpError::InvalidCommand(m) => SftpErrorView::InvalidCommand(m@),
        }
    }
}

impl SftpError {
    /// The error that stands for a short read.
    pub fn short_read() -> (e: SftpError)
        ensures
            e@ == SftpErrorView::ClientError(ClientCause::UnexpectedEof),
    {
        SftpError::ClientError(ClientCause::UnexpectedEof)
    }

    /// The error that stands for a frame whose fields do not fill it.
    pub fn framing() -> (e: SftpError)
        ensures
            e@ == SftpErrorView::ClientError(ClientCause::FrameLength),
    {
        SftpError::ClientError(ClientCause::FrameLength)
    }
}

impl From<std::io::Error> for SftpError {
    fn from(error: std::io::Error) -> (r: SftpError) {
        SftpError::IoError(error)
    }
}

impl vstd::std_specs::convert::FromSpecImpl<std::io::Error> for SftpError {
    open spec fn obeys_from_spec() -> bool {
        true
    }

    open spec fn from_spec(error: std::io::Error) -> SftpError {
        SftpError::IoError(error)
    }
}

} // verus!
