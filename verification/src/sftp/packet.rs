//! The messages of the protocol and their encoding: requests to bytes, bytes
//! to responses.

use super::attributes::{parse_file_attributes, spec_parse_attrs};
use super::constants::{
    SSH_FXP_ATTRS, SSH_FXP_CLOSE, SSH_FXP_DATA, SSH_FXP_HANDLE, SSH_FXP_INIT, SSH_FXP_NAME,
    SSH_FXP_OPEN, SSH_FXP_OPENDIR, SSH_FXP_READ, SSH_FXP_READDIR, SSH_FXP_REALPATH, SSH_FXP_STAT,
    SSH_FXP_STATUS, SSH_FXP_VERSION,
};
use super::error::{ClientCause, SftpError, SftpErrorView};
use super::reader::{string_at, BufferReader, SftpReader};
use super::types::{attr_bytes, files_view, FileAttributes, FileInfo, FileInfoView};
use super::wire::{
    add_bytes, add_header, add_raw, add_string, add_u32, add_u64, be_u32, be_u64, framed,
    lemma_skip_skip, lemma_u32_round_trip, string_field, u32_from_be,
};
use vstd::prelude::*;
use vstd::utf8::{decode_utf8, encode_utf8, valid_utf8};

verus! {

/// What every message can say of itself.
pub trait SftpPacketInfo {
    spec fn spec_packet_type(&self) -> u8;

    spec fn spec_packet_name(&self) -> Seq<char>;

    /// The number that stands for the message's type on the wire.
    fn packet_type(&self) -> (t: u8)
        ensures
            t == self.spec_packet_type(),
    ;

    /// The name of the message's type in the protocol's documents.
    fn packet_name(&self) -> (name: &'static str)
        ensures
            name@ == self.spec_packet_name(),
    ;
}

/// A request of the client.
#[derive(Debug)]
pub enum ClientPacket {
    Init { version: u32 },
    OpenDir { request_id: u32, path: String },
    ReadDir { request_id: u32, handle: Vec<u8> },
    Close { request_id: u32, handle: Vec<u8> },
    RealPath { request_id: u32, path: String },
    Stat { request_id: u32, path: String },
    Open { request_id: u32, path: String, pflags: u32, attrs: FileAttributes },
    Read { request_id: u32, handle: Vec<u8>, offset: u64, len: u32 },
}

/// A request as a mathematical value.
pub enum ClientPacketView {
    Init { version: u32 },
    OpenDir { request_id: u32, path: Seq<char> },
    ReadDir { request_id: u32, handle: Seq<u8> },
    Close { request_id: u32, handle: Seq<u8> },
    RealPath { request_id: u32, path: Seq<char> },
    Stat { request_id: u32, path: Seq<char> },
    Open { request_id: u32, path: Seq<char>, pflags: u32, attrs: FileAttributes },
    Read { request_id: u32, handle: Seq<u8>, offset: u64, len: u32 },
}

impl View for ClientPacket {
    type V = ClientPacketView;

    open spec fn view(&self) -> ClientPacketView {
        match self {
            ClientPacket::Init { version } => ClientPacketView::Init { version: *version },
            ClientPacket::OpenDir { request_id, path } => ClientPacketView::OpenDir {
                request_id: *request_id,
                path: path@,
            },
            ClientPacket::ReadDir { request_id, handle } => ClientPacketView::ReadDir {
                request_id: *request_id,
                handle: handle@,
            },
            ClientPacket::Close { request_id, handle } => ClientPacketView::Close {
                request_id: *request_id,
                handle: handle@,
            },
            ClientPacket::RealPath { request_id, path } => ClientPacketView::RealPath {
                request_id: *request_id,
                path: path@,
            },
            ClientPacket::Stat { request_id, path } => ClientPacketView::Stat {
                request_id: *request_id,
                path: path@,
            },
            ClientPacket::Open { request_id, path, pflags, attrs } => ClientPacketView::Open {
                request_id: *request_id,
                path: path@,
                pflags: *pflags,
                attrs: *attrs,
            },
            ClientPacket::Read { request_id, handle, offset, len } => ClientPacketView::Read {
                request_id: *request_id,
                handle: handle@,
                offset: *offset,
                len: *len,
            },
        }
    }
}

/// The type number of a request.
pub open spec fn request_type(p: ClientPacketView) -> u8 {
    match p {
        ClientPacketView::Init { .. } => SSH_FXP_INIT,
        ClientPacketView::OpenDir { .. } => SSH_FXP_OPENDIR,
        ClientPacketView::ReadDir { .. } => SSH_FXP_READDIR,
        ClientPacketView::Close { .. } => SSH_FXP_CLOSE,
        ClientPacketView::RealPath { .. } => SSH_FXP_REALPATH,
        ClientPacketView::Stat { .. } => SSH_FXP_STAT,
        ClientPacketView::Open { .. } => SSH_FXP_OPEN,
        ClientPacketView::Read { .. } => SSH_FXP_READ,
    }
}

/// The fields of a request as they follow its type byte.
pub open spec fn request_fields(p: ClientPacketView) -> Seq<u8> {
    match p {
        ClientPacketView::Init { version } => be_u32(version),
        ClientPacketView::OpenDir { request_id, path } => be_u32(request_id) + string_field(
            encode_utf8(path),
        ),
        ClientPacketView::ReadDir { request_id, handle } => be_u32(request_id) + string_field(
            handle,
        ),
        ClientPacketView::Close { request_id, handle } => be_u32(request_id) + string_field(
            handle,
        ),
        ClientPacketView::RealPath { request_id, path } => be_u32(request_id) + string_field(
            encode_utf8(path),
        ),
        ClientPacketView::Stat { request_id, path } => be_u32(request_id) + string_field(
            encode_utf8(path),
        ),
        ClientPacketView::Open { request_id, path, pflags, attrs } => be_u32(request_id)
            + string_field(encode_utf8(path)) + be_u32(pflags) + attr_bytes(attrs),
        ClientPacketView::Read { request_id, handle, offset, len } => be_u32(request_id)
            + string_field(handle) + be_u64(offset) + be_u32(len),
    }
}

/// What a frame's length counts for a request: the type byte, then the fields.
pub open spec fn request_payload(p: ClientPacketView) -> Seq<u8> {
    seq![request_type(p)] + request_fields(p)
}

/// A request on the wire.
pub open spec fn request_bytes(p: ClientPacketView) -> Seq<u8> {
    framed(request_payload(p))
}

/// The length field of an encoded request counts every byte that follows it,
/// and the byte after it is the request's type, as long as the length fits
/// the field.
pub proof fn lemma_request_framing(p: ClientPacketView)
    requires
        request_payload(p).len() <= u32::MAX,
    ensures
        request_bytes(p).len() == 4 + request_payload(p).len(),
        u32_from_be(request_bytes(p)) == request_bytes(p).len() - 4,
        request_bytes(p)[4] == request_type(p),
        request_bytes(p).skip(4) == request_payload(p),
{
    let payload = request_payload(p);
    lemma_u32_round_trip(payload.len() as u32, payload);
}

impl SftpPacketInfo for ClientPacket {
    open spec fn spec_packet_type(&self) -> u8 {
        request_type(self@)
    }

    open spec fn spec_packet_name(&self) -> Seq<char> {
        match self {
            ClientPacket::Init { .. } => "SSH_FXP_INIT"@,
            ClientPacket::OpenDir { .. } => "SSH_FXP_OPENDIR"@,
            ClientPacket::ReadDir { .. } => "SSH_FXP_READDIR"@,
            ClientPacket::Close { .. } => "SSH_FXP_CLOSE"@,
            ClientPacket::RealPath { .. } => "SSH_FXP_REALPATH"@,
            ClientPacket::Stat { .. } => "SSH_FXP_STAT"@,
            ClientPacket::Open { .. } => "SSH_FXP_OPEN"@,
            ClientPacket::Read { .. } => "SSH_FXP_READ"@,
        }
    }

    fn packet_type(&self) -> (t: u8) {
        match self {
            ClientPacket::Init { .. } => SSH_FXP_INIT,
            ClientPacket::OpenDir { .. } => SSH_FXP_OPENDIR,
            ClientPacket::ReadDir { .. } => SSH_FXP_READDIR,
            ClientPacket::Close { .. } => SSH_FXP_CLOSE,
            ClientPacket::RealPath { .. } => SSH_FXP_REALPATH,
            ClientPacket::Stat { .. } => SSH_FXP_STAT,
            ClientPacket::Open { .. } => SSH_FXP_OPEN,
            ClientPacket::Read { .. } => SSH_FXP_READ,
        }
    }

    fn packet_name(&self) -> (name: &'static str) {
        match self {
            ClientPacket::Init { .. } => "SSH_FXP_INIT",
            ClientPacket::OpenDir { .. } => "SSH_FXP_OPENDIR",
            ClientPacket::ReadDir { .. } => "SSH_FXP_READDIR",
            ClientPacket::Close { .. } => "SSH_FXP_CLOSE",
            ClientPacket::RealPath { .. } => "SSH_FXP_REALPATH",
            ClientPacket::Stat { .. } => "SSH_FXP_STAT",
            ClientPacket::Open { .. } => "SSH_FXP_OPEN",
            ClientPacket::Read { .. } => "SSH_FXP_READ",
        }
    }
}

impl ClientPacket {
    /// Encodes the request as one frame. A length that does not fit its field
    /// is written as its low 32 bits.
    pub fn to_bytes(&self) -> (bytes: Vec<u8>)
        ensures
            bytes@ == request_bytes(self@),
            bytes@.len() >= 9,
            bytes@[4] == request_type(self@),
            bytes@.len() - 4 <= u32::MAX ==> u32_from_be(bytes@) == bytes@.len() - 4,
    {
        let mut payload: Vec<u8> = Vec::new();
        payload.push(self.packet_type());
        match self {
            ClientPacket::Init { version } => {
                add_u32(&mut payload, *version);
            },
            ClientPacket::OpenDir { request_id, path } => {
                add_u32(&mut payload, *request_id);
                add_string(&mut payload, path.as_str());
            },
            ClientPacket::ReadDir { request_id, handle } => {
                add_u32(&mut payload, *request_id);
                add_bytes(&mut payload, handle.as_slice());
            },
            ClientPacket::Close { request_id, handle } => {
                add_u32(&mut payload, *request_id);
                add_bytes(&mut payload, handle.as_slice());
            },
            ClientPacket::RealPath { request_id, path } => {
                add_u32(&mut payload, *request_id);
                add_string(&mut payload, path.as_str());
            },
            ClientPacket::Stat { request_id, path } => {
                add_u32(&mut payload, *request_id);
                add_string(&mut payload, path.as_str());
            },
            ClientPacket::Open { request_id, path, pflags, attrs } => {
                add_u32(&mut payload, *request_id);
                add_string(&mut payload, path.as_str());
                add_u32(&mut payload, *pflags);
                let block = attrs.to_bytes();
                add_raw(&mut payload, block.as_slice());
            },
            ClientPacket::Read { request_id, handle, offset, len } => {
                add_u32(&mut payload, *request_id);
                add_bytes(&mut payload, handle.as_slice());
                add_u64(&mut payload, *offset);
                add_u32(&mut payload, *len);
            },
        }
        assert(payload@ =~= request_payload(self@));
        let bytes = add_header(payload);
        proof {
            let p = request_payload(self@);
            assert(bytes@.len() == 4 + p.len());
            assert(bytes@[4] == p[0]);
            if p.len() <= u32::MAX {
                lemma_request_framing(self@);
            }
        }
        bytes
    }
}

/// A response of the server.
#[derive(Debug)]
pub enum ServerPacket {
    Version { version: u32 },
    Handle { request_id: u32, handle: Vec<u8> },
    Name { request_id: u32, files: Vec<FileInfo> },
    Status { request_id: u32, status_code: u32, message: String },
    Attrs { request_id: u32, attrs: FileAttributes },
    Data { request_id: u32, data: Vec<u8> },
}

/// A response as a mathematical value.
pub enum ServerPacketView {
    Version { version: u32 },
    Handle { request_id: u32, handle: Seq<u8> },
    Name { request_id: u32, files: Seq<FileInfoView> },
    Status { request_id: u32, status_code: u32, message: Seq<char> },
    Attrs { request_id: u32, attrs: FileAttributes },
    Data { request_id: u32, data: Seq<u8> },
}

impl View for ServerPacket {
    type V = ServerPacketView;

    open spec fn view(&self) -> ServerPacketView {
        match self {
            ServerPacket::Version { version } => ServerPacketView::Version { version: *version },
            ServerPacket::Handle { request_id, handle } => ServerPacketView::Handle {
                request_id: *request_id,
                handle: handle@,
            },
            ServerPacket::Name { request_id, files } => ServerPacketView::Name {
                request_id: *request_id,
                files: files_view(files@),
            },
            ServerPacket::Status { request_id, status_code, message } => ServerPacketView::Status {
                request_id: *request_id,
                status_code: *status_code,
                message: message@,
            },
            ServerPacket::Attrs { request_id, attrs } => ServerPacketView::Attrs {
                request_id: *request_id,
                attrs: *attrs,
            },
            ServerPacket::Data { request_id, data } => ServerPacketView::Data {
                request_id: *request_id,
                data: data@,
            },
        }
    }
}

/// The type number of a response.
pub open spec fn response_type(p: ServerPacketView) -> u8 {
    match p {
        ServerPacketView::Version { .. } => SSH_FXP_VERSION,
        ServerPacketView::Handle { .. } => SSH_FXP_HANDLE,
        ServerPacketView::Name { .. } => SSH_FXP_NAME,
        ServerPacketView::Status { .. } => SSH_FXP_STATUS,
        ServerPacketView::Attrs { .. } => SSH_FXP_ATTRS,
        ServerPacketView::Data { .. } => SSH_FXP_DATA,
    }
}

impl SftpPacketInfo for ServerPacket {
    open spec fn spec_packet_type(&self) -> u8 {
        response_type(self@)
    }

    open spec fn spec_packet_name(&self) -> Seq<char> {
        match self {
            ServerPacket::Version { .. } => "SSH_FXP_VERSION"@,
            ServerPacket::Handle { .. } => "SSH_FXP_HANDLE"@,
            ServerPacket::Name { .. } => "SSH_FXP_NAME"@,
            ServerPacket::Status { .. } => "SSH_FXP_STATUS"@,
            ServerPacket::Attrs { .. } => "SSH_FXP_ATTRS"@,
            ServerPacket::Data { .. } => "SSH_FXP_DATA"@,
        }
    }

    fn packet_type(&self) -> (t: u8) {
        match self {
            ServerPacket::Version { .. } => SSH_FXP_VERSION,
            ServerPacket::Handle { .. } => SSH_FXP_HANDLE,
            ServerPacket::Name { .. } => SSH_FXP_NAME,
            ServerPacket::Status { .. } => SSH_FXP_STATUS,
            ServerPacket::Attrs { .. } => SSH_FXP_ATTRS,
            ServerPacket::Data { .. } => SSH_FXP_DATA,
        }
    }

    fn packet_name(&self) -> (name: &'static str) {
        match self {
            ServerPacket::Version { .. } => "SSH_FXP_VERSION",
            ServerPacket::Handle { .. } => "SSH_FXP_HANDLE",
            ServerPacket::Name { .. } => "SSH_FXP_NAME",
            ServerPacket::Status { .. } => "SSH_FXP_STATUS",
            ServerPacket::Attrs { .. } => "SSH_FXP_ATTRS",
            ServerPacket::Data { .. } => "SSH_FXP_DATA",
        }
    }
}

/// What decoding gives: a response, or the cause for which there is none.
pub type Decoded = Result<ServerPacketView, ClientCause>;

/// A version response: the version, then extension data that is passed over.
pub open spec fn decode_version(body: Seq<u8>) -> Decoded {
    if body.len() < 4 {
        Err(ClientCause::FrameLength)
    } else {
        Ok(ServerPacketView::Version { version: u32_from_be(body) })
    }
}

/// A response that is a request id and one string field, with nothing behind.
pub open spec fn decode_id_and_string(body: Seq<u8>) -> Result<
    (u32, Seq<u8>),
    ClientCause,
> {
    if body.len() < 4 {
        Err(ClientCause::FrameLength)
    } else {
        match string_at(body.skip(4)) {
            Some(content) => if body.len() == 8 + content.len() {
                Ok((u32_from_be(body), content))
            } else {
                Err(ClientCause::FrameLength)
            },
            None => Err(ClientCause::FrameLength),
        }
    }
}

/// A handle response.
pub open spec fn decode_handle(body: Seq<u8>) -> Decoded {
    match decode_id_and_string(body) {
        Ok((request_id, handle)) => Ok(ServerPacketView::Handle { request_id, handle }),
        Err(cause) => Err(cause),
    }
}

/// A data response.
pub open spec fn decode_data(body: Seq<u8>) -> Decoded {
    match decode_id_and_string(body) {
        Ok((request_id, data)) => Ok(ServerPacketView::Data { request_id, data }),
        Err(cause) => Err(cause),
    }
}

/// A status response: request id, code, message, and a language tag that is
/// passed over, with nothing behind.
pub open spec fn decode_status(body: Seq<u8>) -> Decoded {
    if body.len() < 8 {
        Err(ClientCause::FrameLength)
    } else {
        match string_at(body.skip(8)) {
            None => Err(ClientCause::FrameLength),
            Some(message) => if !valid_utf8(message) {
                Err(ClientCause::InvalidUtf8)
            } else {
                match string_at(body.skip(12 + message.len() as int)) {
                    None => Err(ClientCause::FrameLength),
                    Some(language) => if body.len() == 16 + message.len() + language.len() {
                        Ok(
                            ServerPacketView::Status {
                                request_id: u32_from_be(body),
                                status_code: u32_from_be(body.skip(4)),
                                message: decode_utf8(message),
                            },
                        )
                    } else {
                        Err(ClientCause::FrameLength)
                    },
                }
            },
        }
    }
}

/// An attributes response: request id, presence bits and the attribute
/// block, with nothing behind.
pub open spec fn decode_attrs(body: Seq<u8>) -> Decoded {
    if body.len() < 8 {
        Err(ClientCause::FrameLength)
    } else {
        match spec_parse_attrs(u32_from_be(body.skip(4)), body.skip(8)) {
            Some((attrs, n)) => if body.len() == 8 + n {
                Ok(ServerPacketView::Attrs { request_id: u32_from_be(body), attrs })
            } else {
                Err(ClientCause::FrameLength)
            },
            None => Err(ClientCause::FrameLength),
        }
    }
}

/// One directory entry at the front of `s`, and the bytes it takes: name,
/// display name, presence bits, attribute block. The two names must be UTF-8.
#[verifier::opaque]
pub open spec fn decode_entry(s: Seq<u8>) -> Result<
    (FileInfoView, nat),
    ClientCause,
> {
    match string_at(s) {
        None => Err(ClientCause::FrameLength),
        Some(name) => match string_at(s.skip(4 + name.len() as int)) {
            None => Err(ClientCause::FrameLength),
            Some(display_name) => {
                let names = 8 + name.len() as int + display_name.len() as int;
                if s.len() < names + 4 {
                    Err(ClientCause::FrameLength)
                } else {
                    match spec_parse_attrs(u32_from_be(s.skip(names)), s.skip(names + 4)) {
                        None => Err(ClientCause::FrameLength),
                        Some((attrs, n)) => if valid_utf8(name) && valid_utf8(display_name) {
                            Ok(
                                (
                                    FileInfoView {
                                        name: decode_utf8(name),
                                        display_name: decode_utf8(display_name),
                                        attrs,
                                    },
                                    (names + 4 + n) as nat,
                                ),
                            )
                        } else {
                            Err(ClientCause::InvalidUtf8)
                        },
                    }
                }
            },
        },
    }
}

/// The first `k` directory entries at the front of `s`, and the bytes they
/// take. The first entry that cannot be read decides the cause.
pub open spec fn decode_entries(s: Seq<u8>, k: nat) -> Result<
    (Seq<FileInfoView>, nat),
    ClientCause,
>
    decreases k,
{
    if k == 0 {
        Ok((Seq::empty(), 0))
    } else {
        match decode_entries(s, (k - 1) as nat) {
            Err(cause) => Err(cause),
            Ok((files, n)) => match decode_entry(s.skip(n as int)) {
                Err(cause) => Err(cause),
                Ok((file, m)) => Ok((files.push(file), n + m)),
            },
        }
    }
}

/// A name response: request id, count, that many entries, and whatever is
/// left of the frame, which is passed over.
pub open spec fn decode_name(body: Seq<u8>) -> Decoded {
    if body.len() < 8 {
        Err(ClientCause::FrameLength)
    } else {
        match decode_entries(body.skip(8), u32_from_be(body.skip(4)) as nat) {
            Ok((files, n)) => Ok(ServerPacketView::Name { request_id: u32_from_be(body), files }),
            Err(cause) => Err(cause),
        }
    }
}

/// The response that a frame holds, its length field apart: the first byte
/// is the type, the rest the fields.
///
/// A field that runs past the end of the frame makes the frame's length
/// wrong. Bytes behind the fields are passed over in a version and a name
/// response, and make the frame's length wrong in every other. A type that
/// the client does not know is reported with its number.
pub open spec fn decode_frame(frame: Seq<u8>) -> Decoded {
    if frame.len() == 0 {
        Err(ClientCause::FrameLength)
    } else {
        let body = frame.skip(1);
        if frame[0] == SSH_FXP_VERSION {
            decode_version(body)
        } else if frame[0] == SSH_FXP_HANDLE {
            decode_handle(body)
        } else if frame[0] == SSH_FXP_NAME {
            decode_name(body)
        } else if frame[0] == SSH_FXP_STATUS {
            decode_status(body)
        } else if frame[0] == SSH_FXP_ATTRS {
            decode_attrs(body)
        } else if frame[0] == SSH_FXP_DATA {
            decode_data(body)
        } else {
            Err(ClientCause::UnknownMessageType(frame[0]))
        }
    }
}

/// Whether `s` starts with a whole frame: a length and that many bytes.
pub open spec fn holds_frame(s: Seq<u8>) -> bool {
    s.len() >= 4 && s.len() >= 4 + u32_from_be(s)
}

/// How many bytes the frame at the front of `s` takes, its length field
/// included.
pub open spec fn frame_extent(s: Seq<u8>) -> nat
    recommends
        s.len() >= 4,
{
    (4 + u32_from_be(s)) as nat
}

/// The response at the front of `s`: a length field, and behind it the frame
/// of that length. A frame that `s` does not hold whole is a short read,
/// whatever is there of it. What follows the frame is not looked at.
pub open spec fn spec_decode(s: Seq<u8>) -> Decoded {
    if holds_frame(s) {
        decode_frame(s.subrange(4, frame_extent(s) as int))
    } else {
        Err(ClientCause::UnexpectedEof)
    }
}

/// Whether `r` is what decoding owes where the response is `expected`: the
/// response itself, or a client error with the cause.
pub open spec fn decodes_to(r: Result<ServerPacket, SftpError>, expected: Decoded) -> bool {
    match r {
        Ok(packet) => expected == Ok::<ServerPacketView, ClientCause>(packet@),
        Err(e) => expected is Err && e@ == SftpErrorView::ClientError(expected->Err_0),
    }
}

/// Once an entry cannot be read, no greater number of entries can, for the
/// same cause.
pub proof fn lemma_decode_entries_err(s: Seq<u8>, k: nat, m: nat)
    requires
        decode_entries(s, k) is Err,
        k <= m,
    ensures
        decode_entries(s, m) == decode_entries(s, k),
    decreases m,
{
    if k < m {
        lemma_decode_entries_err(s, k, (m - 1) as nat);
    }
}

/// A request that the encoder wrote is one whole frame to the decoder, which
/// takes all of it and finds the request's type behind the length. No request
/// is a response, so decoding it ends there, with that type as the cause.
pub proof fn lemma_request_frame_round_trip(p: ClientPacketView)
    requires
        request_payload(p).len() <= u32::MAX,
    ensures
        holds_frame(request_bytes(p)),
        frame_extent(request_bytes(p)) == request_bytes(p).len(),
        spec_decode(request_bytes(p)) == Err::<ServerPacketView, ClientCause>(
            ClientCause::UnknownMessageType(request_type(p)),
        ),
{
    let bytes = request_bytes(p);
    let payload = request_payload(p);
    lemma_request_framing(p);
    assert(bytes.subrange(4, frame_extent(bytes) as int) =~= payload);
    assert(payload[0] == request_type(p));
}

/// `String::from_utf8` of the standard library. It gives a text exactly where
/// `bytes` are UTF-8, and the text's encoding is then `bytes`.
#[verifier::external_body]
fn text_from_utf8(bytes: Vec<u8>) -> (r: Option<String>)
    ensures
        r is Some <==> valid_utf8(bytes@),
        r matches Some(text) ==> encode_utf8(text@) == bytes@,
{
    match String::from_utf8(bytes) {
        Ok(text) => Some(text),
        Err(_) => None,
    }
}

/// The text that `bytes` spell, or the error for bytes that are no UTF-8.
fn decode_text(bytes: Vec<u8>) -> (r: Result<String, SftpError>)
    ensures
        r is Ok <==> valid_utf8(bytes@),
        r matches Ok(text) ==> text@ == decode_utf8(bytes@),
        r matches Err(e) ==> e@ == SftpErrorView::ClientError(ClientCause::InvalidUtf8),
{
    match text_from_utf8(bytes) {
        Some(text) => {
            proof {
                vstd::utf8::encode_utf8_decode_utf8(text@);
            }
            Ok(text)
        },
        None => Err(SftpError::ClientError(ClientCause::InvalidUtf8)),
    }
}

/// A read inside a frame that fails has run past the end of the frame.
fn within_frame<T>(r: Result<T, SftpError>) -> (out: Result<T, SftpError>)
    ensures
        r is Ok ==> out == r,
        r is Err ==> out is Err && out->Err_0@ == SftpErrorView::ClientError(
            ClientCause::FrameLength,
        ),
{
    match r {
        Ok(v) => Ok(v),
        Err(_) => Err(SftpError::framing()),
    }
}

/// Reads a request id and one string field, with nothing behind.
fn read_id_and_string(body: &[u8]) -> (r: Result<(u32, Vec<u8>), SftpError>)
    ensures
        match r {
            Ok((id, content)) => decode_id_and_string(body@) == Ok::<
                (u32, Seq<u8>),
                ClientCause,
            >((id, content@)),
            Err(e) => decode_id_and_string(body@) is Err && e@
                == SftpErrorView::ClientError(decode_id_and_string(body@)->Err_0),
        },
{
    let mut reader = BufferReader::new(body);
    let request_id = within_frame(reader.read_u32())?;
    let content = within_frame(reader.read_string())?;
    if reader.available() != 0 {
        return Err(SftpError::framing());
    }
    proof {
        lemma_skip_skip(body@, 4, 4 + content@.len() as int);
    }
    Ok((request_id, content))
}

/// Reads a version response from the fields of its frame.
fn read_version(body: &[u8]) -> (r: Result<ServerPacket, SftpError>)
    ensures
        decodes_to(r, decode_version(body@)),
{
    let mut reader = BufferReader::new(body);
    let version = within_frame(reader.read_u32())?;
    Ok(ServerPacket::Version { version })
}

/// Reads a status response from the fields of its frame.
fn read_status(body: &[u8]) -> (r: Result<ServerPacket, SftpError>)
    ensures
        decodes_to(r, decode_status(body@)),
{
    let mut reader = BufferReader::new(body);
    let request_id = within_frame(reader.read_u32())?;
    let status_code = within_frame(reader.read_u32())?;
    proof {
        lemma_skip_skip(body@, 4, 4);
    }
    let raw = within_frame(reader.read_string())?;
    let ghost message = raw@;
    proof {
        lemma_skip_skip(body@, 8, 4 + message.len() as int);
    }
    let text = decode_text(raw)?;
    let language = within_frame(reader.read_string())?;
    proof {
        lemma_skip_skip(body@, 12 + message.len() as int, 4 + language@.len() as int);
    }
    if reader.available() != 0 {
        return Err(SftpError::framing());
    }
    Ok(ServerPacket::Status { request_id, status_code, message: text })
}

/// Reads an attributes response from the fields of its frame.
fn read_attrs(body: &[u8]) -> (r: Result<ServerPacket, SftpError>)
    ensures
        decodes_to(r, decode_attrs(body@)),
{
    let mut reader = BufferReader::new(body);
    let request_id = within_frame(reader.read_u32())?;
    let flags = within_frame(reader.read_u32())?;
    proof {
        lemma_skip_skip(body@, 4, 4);
    }
    // What is left to read is no longer than the buffer, which fits `usize`.
    let _left = reader.available();
    let (n, attrs) = within_frame(parse_file_attributes(&mut reader, &flags))?;
    proof {
        lemma_skip_skip(body@, 8, n as int);
    }
    if reader.available() != 0 {
        return Err(SftpError::framing());
    }
    Ok(ServerPacket::Attrs { request_id, attrs })
}

/// Reads one directory entry and says how many bytes it took.
fn read_entry(reader: &mut BufferReader) -> (r: Result<
    (FileInfo, usize),
    SftpError,
>)
    ensures
        match r {
            Ok((file, n)) => decode_entry(old(reader).remaining()) == Ok::<
                (FileInfoView, nat),
                ClientCause,
            >((file@, n as nat)) && n <= old(reader).remaining().len() && final(reader).remaining() == old(reader).remaining().skip(n as int),
            Err(e) => decode_entry(old(reader).remaining()) is Err && e@
                == SftpErrorView::ClientError(
                decode_entry(old(reader).remaining())->Err_0,
            ),
        },
{
    let ghost s = reader.remaining();
    let total = reader.available();
    proof {
        reveal(decode_entry);
    }
    assert(s.skip(0) =~= s);
    let name = within_frame(reader.read_string())?;
    let display_name = within_frame(reader.read_string())?;
    let ghost names = 8 + name@.len() as int + display_name@.len() as int;
    proof {
        lemma_skip_skip(s, 4 + name@.len() as int, 4 + display_name@.len() as int);
    }
    let flags = within_frame(reader.read_u32())?;
    proof {
        lemma_skip_skip(s, names as int, 4);
    }
    // What is left to read is no longer than the buffer, which fits `usize`.
    let _left = reader.available();
    let (n, attrs) = within_frame(parse_file_attributes(reader, &flags))?;
    proof {
        lemma_skip_skip(s, names + 4, n as int);
    }
    let taken = total - reader.available();
    let name = decode_text(name)?;
    let display_name = decode_text(display_name)?;
    Ok((FileInfo { name, display_name, attrs }, taken))
}

/// Reads a name response from the fields of its frame.
fn read_name(body: &[u8]) -> (r: Result<ServerPacket, SftpError>)
    ensures
        decodes_to(r, decode_name(body@)),
{
    let mut reader = BufferReader::new(body);
    let request_id = within_frame(reader.read_u32())?;
    let count = within_frame(reader.read_u32())?;
    proof {
        lemma_skip_skip(body@, 4, 4);
    }
    let ghost s = body@.skip(8);
    let ghost mut pos: nat = 0;
    assert(s.skip(0) =~= s);
    let mut files: Vec<FileInfo> = Vec::new();
    let mut i: u32 = 0;
    assert(files_view(files@) =~= Seq::<FileInfoView>::empty());
    while i < count
        invariant
            i <= count,
            pos <= s.len(),
            reader.remaining() == s.skip(pos as int),
            decode_entries(s, i as nat) == Ok::<
                (Seq<FileInfoView>, nat),
                ClientCause,
            >((files_view(files@), pos)),
            body@.len() >= 8,
            s == body@.skip(8),
            count == u32_from_be(body@.skip(4)),
        decreases count - i,
    {
        match read_entry(&mut reader) {
            Ok((file, n)) => {
                proof {
                    lemma_skip_skip(s, pos as int, n as int);
                    assert(files_view(files@.push(file)) =~= files_view(files@).push(file@));
                    pos = pos + n as nat;
                }
                files.push(file);
            },
            Err(e) => {
                proof {
                    let cause = decode_entry(s.skip(pos as int))->Err_0;
                    assert(decode_entries(s, (i + 1) as nat) == Err::<
                        (Seq<FileInfoView>, nat),
                        ClientCause,
                    >(cause));
                    lemma_decode_entries_err(s, (i + 1) as nat, count as nat);
                    assert(decode_name(body@) == Err::<
                        ServerPacketView,
                        ClientCause,
                    >(cause));
                }
                return Err(e);
            },
        }
        i = i + 1;
    }
    Ok(ServerPacket::Name { request_id, files })
}

impl ServerPacket {
    /// Decodes the response that one frame holds: what follows the length
    /// field, and no more.
    pub fn from_frame(frame: &[u8]) -> (r: Result<ServerPacket, SftpError>)
        ensures
            decodes_to(r, decode_frame(frame@)),
    {
        if frame.len() == 0 {
            return Err(SftpError::framing());
        }
        let message_type = frame[0];
        let body = vstd::slice::slice_subrange(frame, 1, frame.len());
        assert(body@ =~= frame@.skip(1));
        if message_type == SSH_FXP_VERSION {
            read_version(body)
        } else if message_type == SSH_FXP_HANDLE {
            let (request_id, handle) = read_id_and_string(body)?;
            Ok(ServerPacket::Handle { request_id, handle })
        } else if message_type == SSH_FXP_NAME {
            read_name(body)
        } else if message_type == SSH_FXP_STATUS {
            read_status(body)
        } else if message_type == SSH_FXP_ATTRS {
            read_attrs(body)
        } else if message_type == SSH_FXP_DATA {
            let (request_id, data) = read_id_and_string(body)?;
            Ok(ServerPacket::Data { request_id, data })
        } else {
            Err(SftpError::ClientError(ClientCause::UnknownMessageType(message_type)))
        }
    }

    /// Reads one frame from `reader`, the length and then the bytes that it
    /// declares, and decodes the response that the frame holds. A response
    /// comes only from a whole frame, and the reader then stands behind it.
    pub fn from_reader<R: SftpReader>(reader: &mut R) -> (r: Result<ServerPacket, SftpError>)
        ensures
            final(reader).reliable() == old(reader).reliable(),
            r matches Ok(packet) ==> holds_frame(old(reader).remaining()) && spec_decode(
                old(reader).remaining(),
            ) == Ok::<ServerPacketView, ClientCause>(packet@),
            old(reader).reliable() ==> decodes_to(r, spec_decode(old(reader).remaining())),
            (r is Ok || old(reader).reliable()) && holds_frame(old(reader).remaining()) ==> final(reader).remaining() == old(reader).remaining().skip(
                frame_extent(old(reader).remaining()) as int,
            ),
    {
        let ghost s = reader.remaining();
        let message_length = reader.read_u32()? as usize;
        let frame = reader.read_bytes(message_length)?;
        proof {
            lemma_skip_skip(s, 4, message_length as int);
            assert(frame@ =~= s.subrange(4, 4 + message_length));
        }
        ServerPacket::from_frame(frame.as_slice())
    }

    /// Decodes the response at the front of `data`.
    pub fn from_bytes(data: &[u8]) -> (r: Result<ServerPacket, SftpError>)
        ensures
            decodes_to(r, spec_decode(data@)),
    {
        let mut reader = BufferReader::new(data);
        ServerPacket::from_reader(&mut reader)
    }
}

} // verus!
