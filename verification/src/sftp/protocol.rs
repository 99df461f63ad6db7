//! The protocol engine: each operation sends one request, takes one response
//! and says what the response means.

use super::constants::READ_CHUNK_SIZE;
use super::error::{ClientCause, SftpError, SftpErrorView};
use super::packet::{ClientPacket, ClientPacketView, ServerPacket, ServerPacketView};
use super::session::TransportLayer;
use super::types::{
    attributes_of, files_view, FileAttributes, FileInfo, FileInfoView, SftpStatus,
};
use vstd::prelude::*;

verus! {

/// The error that hands a status response on to the caller.
pub open spec fn server_error(code: u32, request_id: u32, message: Seq<char>) -> SftpErrorView {
    SftpErrorView::ServerError { code, request_id, message }
}

/// What a response to a path resolution means: the one name of a name
/// response. A status is the server's refusal; a name response with another
/// number of entries, or any other response, breaks the protocol.
pub open spec fn realpath_result(response: ServerPacketView) -> Result<Seq<char>, SftpErrorView> {
    match response {
        ServerPacketView::Name { files, .. } if files.len() == 1 => Ok(files[0].name),
        ServerPacketView::Status { request_id, status_code, message } => Err(
            server_error(status_code, request_id, message),
        ),
        _ => Err(SftpErrorView::UnexpectedResponse("RealPath response"@)),
    }
}

/// What a response to opening a directory means: the handle.
pub open spec fn open_dir_result(response: ServerPacketView) -> Result<Seq<u8>, SftpErrorView> {
    match response {
        ServerPacketView::Handle { handle, .. } => Ok(handle),
        ServerPacketView::Status { request_id, status_code, message } => Err(
            server_error(status_code, request_id, message),
        ),
        _ => Err(SftpErrorView::UnexpectedPacket("OpenDir response"@)),
    }
}

/// What a response to reading a directory means: the entries, and none where
/// the status says that the directory is read to its end.
pub open spec fn read_dir_result(response: ServerPacketView) -> Result<
    Seq<FileInfoView>,
    SftpErrorView,
> {
    match response {
        ServerPacketView::Name { files, .. } => Ok(files),
        ServerPacketView::Status { request_id, status_code, message } => if status_code
            == SftpStatus::Eof.spec_code() {
            Ok(Seq::empty())
        } else {
            Err(server_error(status_code, request_id, message))
        },
        _ => Err(SftpErrorView::UnexpectedPacket("ReadDir response"@)),
    }
}

/// What a response to closing a handle means. Only a status other than
/// success is a failure: servers do not all acknowledge a close alike.
pub open spec fn close_result(response: ServerPacketView) -> Result<(), SftpErrorView> {
    match response {
        ServerPacketView::Status { request_id, status_code, message } => if status_code
            == SftpStatus::Success.spec_code() {
            Ok(())
        } else {
            Err(server_error(status_code, request_id, message))
        },
        _ => Ok(()),
    }
}

/// What a response to asking for a file's attributes means.
pub open spec fn stat_result(response: ServerPacketView) -> Result<FileAttributes, SftpErrorView> {
    match response {
        ServerPacketView::Attrs { attrs, .. } => Ok(attrs),
        ServerPacketView::Status { request_id, status_code, message } => Err(
            server_error(status_code, request_id, message),
        ),
        _ => Err(SftpErrorView::UnexpectedPacket("Unexpected Stat response"@)),
    }
}

/// What a response to opening a file means: the handle.
pub open spec fn open_result(response: ServerPacketView) -> Result<Seq<u8>, SftpErrorView> {
    match response {
        ServerPacketView::Handle { handle, .. } => Ok(handle),
        ServerPacketView::Status { request_id, status_code, message } => Err(
            server_error(status_code, request_id, message),
        ),
        _ => Err(SftpErrorView::UnexpectedPacket("Open response"@)),
    }
}

/// What a response to the first message means: the server's version. Any
/// other response ends the session before it began.
pub open spec fn init_result(response: ServerPacketView) -> Result<u32, SftpErrorView> {
    match response {
        ServerPacketView::Version { version } => Ok(version),
        _ => Err(SftpErrorView::ClientError(ClientCause::SessionSetup)),
    }
}

/// What one response to a read request means: a chunk of the file, or no
/// chunk where the status says that the file is read to its end.
pub open spec fn read_result(response: ServerPacketView) -> Result<Option<Seq<u8>>, SftpErrorView> {
    match response {
        ServerPacketView::Data { data, .. } => Ok(Some(data)),
        ServerPacketView::Status { request_id, status_code, message } => if status_code
            == SftpStatus::Eof.spec_code() {
            Ok(None)
        } else {
            Err(server_error(status_code, request_id, message))
        },
        _ => Err(SftpErrorView::UnexpectedPacket("Read response"@)),
    }
}

/// Whether a response is a chunk as long as was asked for, after which a
/// download goes on.
pub open spec fn is_full_chunk(response: ServerPacketView) -> bool {
    response matches ServerPacketView::Data { data, .. } && data.len() >= READ_CHUNK_SIZE
}

/// The file content that a response carries.
pub open spec fn chunk_of(response: ServerPacketView) -> Seq<u8> {
    match response {
        ServerPacketView::Data { data, .. } => data,
        _ => Seq::empty(),
    }
}

/// The file content that a run of responses carries, in order.
pub open spec fn joined(answers: Seq<ServerPacketView>) -> Seq<u8>
    decreases answers.len(),
{
    if answers.len() == 0 {
        Seq::empty()
    } else {
        joined(answers.drop_last()) + chunk_of(answers.last())
    }
}

/// Whether `later` is `earlier` with more items behind it.
pub open spec fn extends<A>(earlier: Seq<A>, later: Seq<A>) -> bool {
    earlier.len() <= later.len() && later.take(earlier.len() as int) == earlier
}

/// What `later` holds behind `earlier`.
pub open spec fn since<A>(earlier: Seq<A>, later: Seq<A>) -> Seq<A> {
    later.skip(earlier.len() as int)
}

/// Whether `requests` are the read requests of one download of the file
/// behind `handle`: each carries the id that was allocated for it and asks
/// for one chunk at the offset that the answers before it add up to.
pub open spec fn download_requests(
    ids: Seq<u32>,
    handle: Seq<u8>,
    answers: Seq<ServerPacketView>,
    requests: Seq<ClientPacketView>,
) -> bool {
    &&& requests.len() <= ids.len()
    &&& forall|i: int|
        0 <= i < requests.len() ==> #[trigger] requests[i] == (ClientPacketView::Read {
            request_id: ids[i],
            handle,
            offset: joined(answers.take(i)).len() as u64,
            len: READ_CHUNK_SIZE,
        })
}

/// What a download of the file behind `handle` owes, by the ids that were
/// allocated, the requests that went out and the answers that came in
/// during it.
///
/// All answers but the last are full chunks. Where the last is something
/// else, the download is settled: a shorter chunk or the end of the file
/// makes the joined content the result, anything else is an error. Where
/// there is no such last answer, the transport failed, once, and its error
/// is the result.
pub open spec fn downloaded(
    ids: Seq<u32>,
    handle: Seq<u8>,
    requests: Seq<ClientPacketView>,
    answers: Seq<ServerPacketView>,
    failures: Seq<SftpErrorView>,
    r: Result<Seq<u8>, SftpErrorView>,
) -> bool {
    &&& download_requests(ids, handle, answers, requests)
    &&& forall|i: int| 0 <= i < answers.len() - 1 ==> is_full_chunk(#[trigger] answers[i])
    &&& if answers.len() > 0 && !is_full_chunk(answers.last()) {
        &&& requests.len() == answers.len()
        &&& ids.len() == answers.len()
        &&& failures.len() == 0
        &&& match read_result(answers.last()) {
            Ok(_) => r == Ok::<Seq<u8>, SftpErrorView>(joined(answers)),
            Err(cause) => r == Err::<Seq<u8>, SftpErrorView>(cause),
        }
    } else {
        &&& failures.len() == 1
        &&& r == Err::<Seq<u8>, SftpErrorView>(failures[0])
        &&& answers.len() <= requests.len() <= answers.len() + 1
        &&& ids.len() == answers.len() + 1
    }
}

/// A sequence extends itself, with nothing behind.
pub proof fn lemma_extends_self<A>(a: Seq<A>)
    ensures
        extends(a, a),
        since(a, a) == Seq::<A>::empty(),
{
    assert(a.take(a.len() as int) =~= a);
    assert(since(a, a) =~= Seq::<A>::empty());
}

/// One more item behind keeps what came before.
pub proof fn lemma_extends_push<A>(a: Seq<A>, b: Seq<A>, x: A)
    requires
        extends(a, b),
    ensures
        extends(a, b.push(x)),
        since(a, b.push(x)) == since(a, b).push(x),
{
    assert(b.push(x).take(a.len() as int) =~= b.take(a.len() as int));
    assert(since(a, b.push(x)) =~= since(a, b).push(x));
}

/// The content of a run with one more response is the content of the run,
/// then that of the response.
pub proof fn lemma_joined_push(answers: Seq<ServerPacketView>, x: ServerPacketView)
    ensures
        joined(answers.push(x)) == joined(answers) + chunk_of(x),
{
    assert(answers.push(x).drop_last() =~= answers);
}

/// Builds the error that hands a status response on.
fn status_error(status_code: u32, request_id: u32, message: String) -> (e: SftpError)
    ensures
        e@ == server_error(status_code, request_id, message@),
{
    SftpError::ServerError { code: status_code, request_id, message }
}

/// Says what a response to a path resolution means.
pub fn classify_realpath(response: ServerPacket) -> (r: Result<String, SftpError>)
    ensures
        match r {
            Ok(path) => realpath_result(response@) == Ok::<Seq<char>, SftpErrorView>(path@),
            Err(e) => realpath_result(response@) == Err::<Seq<char>, SftpErrorView>(e@),
        },
{
    match response {
        ServerPacket::Name { mut files, .. } => {
            if files.len() == 1 {
                let ghost all = files@;
                match files.pop() {
                    Some(file) => {
                        assert(files_view(all)[0] == all[0]@);
                        Ok(file.name)
                    },
                    None => Err(SftpError::UnexpectedResponse("RealPath response")),
                }
            } else {
                Err(SftpError::UnexpectedResponse("RealPath response"))
            }
        },
        ServerPacket::Status { request_id, status_code, message } => Err(
            status_error(status_code, request_id, message),
        ),
        _ => Err(SftpError::UnexpectedResponse("RealPath response")),
    }
}

/// Says what a response to opening a directory means.
pub fn classify_open_dir(response: ServerPacket) -> (r: Result<Vec<u8>, SftpError>)
    ensures
        match r {
            Ok(handle) => open_dir_result(response@) == Ok::<Seq<u8>, SftpErrorView>(handle@),
            Err(e) => open_dir_result(response@) == Err::<Seq<u8>, SftpErrorView>(e@),
        },
{
    match response {
        ServerPacket::Handle { handle, .. } => Ok(handle),
        ServerPacket::Status { request_id, status_code, message } => Err(
            status_error(status_code, request_id, message),
        ),
        _ => Err(SftpError::UnexpectedPacket("OpenDir response")),
    }
}

/// Says what a response to reading a directory means.
pub fn classify_read_dir(response: ServerPacket) -> (r: Result<Vec<FileInfo>, SftpError>)
    ensures
        match r {
            Ok(files) => read_dir_result(response@) == Ok::<Seq<FileInfoView>, SftpErrorView>(
                files_view(files@),
            ),
            Err(e) => read_dir_result(response@) == Err::<Seq<FileInfoView>, SftpErrorView>(e@),
        },
{
    match response {
        ServerPacket::Name { files, .. } => Ok(files),
        ServerPacket::Status { request_id, status_code, message } => {
            if status_code == SftpStatus::Eof.code() {
                let files: Vec<FileInfo> = Vec::new();
                assert(files_view(files@) =~= Seq::<FileInfoView>::empty());
                Ok(files)
            } else {
                Err(status_error(status_code, request_id, message))
            }
        },
        _ => Err(SftpError::UnexpectedPacket("ReadDir response")),
    }
}

/// Says what a response to closing a handle means.
pub fn classify_close(response: ServerPacket) -> (r: Result<(), SftpError>)
    ensures
        match r {
            Ok(done) => close_result(response@) == Ok::<(), SftpErrorView>(done),
            Err(e) => close_result(response@) == Err::<(), SftpErrorView>(e@),
        },
{
    match response {
        ServerPacket::Status { request_id, status_code, message } => {
            if status_code == SftpStatus::Success.code() {
                Ok(())
            } else {
                Err(status_error(status_code, request_id, message))
            }
        },
        _ => Ok(()),
    }
}

/// Says what a response to asking for a file's attributes means.
pub fn classify_stat(response: ServerPacket) -> (r: Result<FileAttributes, SftpError>)
    ensures
        match r {
            Ok(attrs) => stat_result(response@) == Ok::<FileAttributes, SftpErrorView>(attrs),
            Err(e) => stat_result(response@) == Err::<FileAttributes, SftpErrorView>(e@),
        },
{
    match response {
        ServerPacket::Attrs { attrs, .. } => Ok(attrs),
        ServerPacket::Status { request_id, status_code, message } => Err(
            status_error(status_code, request_id, message),
        ),
        _ => Err(SftpError::UnexpectedPacket("Unexpected Stat response")),
    }
}

/// Says what a response to opening a file means.
pub fn classify_open(response: ServerPacket) -> (r: Result<Vec<u8>, SftpError>)
    ensures
        match r {
            Ok(handle) => open_result(response@) == Ok::<Seq<u8>, SftpErrorView>(handle@),
            Err(e) => open_result(response@) == Err::<Seq<u8>, SftpErrorView>(e@),
        },
{
    match response {
        ServerPacket::Handle { handle, .. } => Ok(handle),
        ServerPacket::Status { request_id, status_code, message } => Err(
            status_error(status_code, request_id, message),
        ),
        _ => Err(SftpError::UnexpectedPacket("Open response")),
    }
}

/// Says what a response to the first message means.
pub fn classify_init(response: ServerPacket) -> (r: Result<u32, SftpError>)
    ensures
        match r {
            Ok(version) => init_result(response@) == Ok::<u32, SftpErrorView>(version),
            Err(e) => init_result(response@) == Err::<u32, SftpErrorView>(e@),
        },
{
    match response {
        ServerPacket::Version { version } => Ok(version),
        _ => Err(SftpError::ClientError(ClientCause::SessionSetup)),
    }
}

/// Says what one response to a read request means.
pub fn classify_read(response: ServerPacket) -> (r: Result<Option<Vec<u8>>, SftpError>)
    ensures
        match r {
            Ok(Some(data)) => read_result(response@) == Ok::<Option<Seq<u8>>, SftpErrorView>(
                Some(data@),
            ),
            Ok(None) => read_result(response@) == Ok::<Option<Seq<u8>>, SftpErrorView>(None),
            Err(e) => read_result(response@) == Err::<Option<Seq<u8>>, SftpErrorView>(e@),
        },
{
    match response {
        ServerPacket::Data { data, .. } => Ok(Some(data)),
        ServerPacket::Status { request_id, status_code, message } => {
            if status_code == SftpStatus::Eof.code() {
                Ok(None)
            } else {
                Err(status_error(status_code, request_id, message))
            }
        },
        _ => Err(SftpError::UnexpectedPacket("Read response")),
    }
}

/// What passed between an engine and its transport so far: the requests that
/// the transport accepted, the responses that it handed out, the request ids
/// that it gave out, and the errors with which it refused to send or to
/// receive, each oldest first.
pub struct Trace {
    pub sent: Seq<ClientPacketView>,
    pub received: Seq<ServerPacketView>,
    pub ids: Seq<u32>,
    pub failures: Seq<SftpErrorView>,
}

/// The response that arrived between two traces, if exactly one did.
pub open spec fn answer_between(pre: Trace, post: Trace) -> Option<ServerPacketView> {
    if post.received.len() == pre.received.len() + 1 {
        Some(post.received.last())
    } else {
        None
    }
}

/// How a trace stands after `request` was tried once. Either the request
/// went out and one response came back; or the request went out and the
/// transport failed to receive; or the transport failed to send. A failure is
/// on the account with its error.
pub open spec fn tried_once(pre: Trace, post: Trace, request: ClientPacketView) -> bool {
    ||| {
        &&& post.sent == pre.sent.push(request)
        &&& post.received == pre.received.push(post.received.last())
        &&& post.failures == pre.failures
    }
    ||| {
        &&& post.sent == pre.sent.push(request)
        &&& post.received == pre.received
        &&& post.failures == pre.failures.push(post.failures.last())
    }
    ||| {
        &&& post.sent == pre.sent
        &&& post.received == pre.received
        &&& post.failures == pre.failures.push(post.failures.last())
    }
}

/// Whether exactly one request id was given out between two traces. It is
/// then the last of the later trace.
pub open spec fn allocated_once(pre: Trace, post: Trace) -> bool {
    post.ids == pre.ids.push(post.ids.last())
}

/// The protocol engine over a transport. It keeps account, in `trace`, of
/// what it handed to the transport and what it got from it.
pub struct SftpProtocol<T: TransportLayer> {
    pub transport: T,
    pub trace: Ghost<Trace>,
}

impl<T: TransportLayer> SftpProtocol<T> {
    /// An engine that talks through `transport`, with nothing on its account.
    pub fn new(transport: T) -> (r: Self)
        ensures
            r.transport == transport,
            r.trace@ == (Trace {
                sent: Seq::empty(),
                received: Seq::empty(),
                ids: Seq::empty(),
                failures: Seq::empty(),
            }),
    {
        Self {
            transport,
            trace: Ghost(
                Trace {
                    sent: Seq::empty(),
                    received: Seq::empty(),
                    ids: Seq::empty(),
                    failures: Seq::empty(),
                },
            ),
        }
    }

    /// Has the transport give out the id of the next request.
    fn allocate(&mut self) -> (id: u32)
        ensures
            final(self).trace@.ids == old(self).trace@.ids.push(id),
            final(self).trace@.sent == old(self).trace@.sent,
            final(self).trace@.received == old(self).trace@.received,
            final(self).trace@.failures == old(self).trace@.failures,
    {
        let id = self.transport.next_request_id();
        proof {
            self.trace@ = Trace { ids: self.trace@.ids.push(id), ..self.trace@ };
        }
        id
    }

    /// Sends `packet` and waits for the response to it. A failure of the
    /// transport is handed on as it is.
    fn exchange(&mut self, packet: ClientPacket) -> (r: Result<ServerPacket, SftpError>)
        ensures
            tried_once(old(self).trace@, final(self).trace@, packet@),
            final(self).trace@.ids == old(self).trace@.ids,
            match r {
                Ok(response) => answer_between(old(self).trace@, final(self).trace@) == Some(
                    response@,
                ),
                Err(e) => answer_between(old(self).trace@, final(self).trace@) is None && e@
                    == final(self).trace@.failures.last(),
            },
    {
        let ghost request = packet@;
        match self.transport.send_packet(packet) {
            Ok(()) => {
                proof {
                    self.trace@ = Trace { sent: self.trace@.sent.push(request), ..self.trace@ };
                }
            },
            Err(e) => {
                proof {
                    self.trace@ = Trace {
                        failures: self.trace@.failures.push(e@),
                        ..self.trace@
                    };
                }
                return Err(e);
            },
        }
        match self.transport.receive_packet() {
            Ok(response) => {
                proof {
                    self.trace@ = Trace {
                        received: self.trace@.received.push(response@),
                        ..self.trace@
                    };
                }
                Ok(response)
            },
            Err(e) => {
                proof {
                    self.trace@ = Trace {
                        failures: self.trace@.failures.push(e@),
                        ..self.trace@
                    };
                }
                Err(e)
            },
        }
    }

    /// Opens the session: sends the client's version and takes the server's.
    /// No request id is spent on it.
    pub fn init(&mut self, version: u32) -> (r: Result<u32, SftpError>)
        ensures
            tried_once(old(self).trace@, final(self).trace@, ClientPacketView::Init { version }),
            final(self).trace@.ids == old(self).trace@.ids,
            match answer_between(old(self).trace@, final(self).trace@) {
                Some(response) => match r {
                    Ok(server) => init_result(response) == Ok::<u32, SftpErrorView>(server),
                    Err(e) => init_result(response) == Err::<u32, SftpErrorView>(e@),
                },
                None => r matches Err(e) && e@ == final(self).trace@.failures.last(),
            },
    {
        let response = self.exchange(ClientPacket::Init { version })?;
        classify_init(response)
    }

    /// Asks the server for the canonical absolute form of `path`.
    pub fn realpath(&mut self, path: &str) -> (r: Result<String, SftpError>)
        ensures
            allocated_once(old(self).trace@, final(self).trace@),
            tried_once(
                old(self).trace@,
                final(self).trace@,
                ClientPacketView::RealPath {
                    request_id: final(self).trace@.ids.last(),
                    path: path@,
                },
            ),
            match answer_between(old(self).trace@, final(self).trace@) {
                Some(response) => match r {
                    Ok(resolved) => realpath_result(response) == Ok::<Seq<char>, SftpErrorView>(
                        resolved@,
                    ),
                    Err(e) => realpath_result(response) == Err::<Seq<char>, SftpErrorView>(e@),
                },
                None => r matches Err(e) && e@ == final(self).trace@.failures.last(),
            },
    {
        let request_id = self.allocate();
        let packet = ClientPacket::RealPath { request_id, path: path.to_owned() };
        let response = self.exchange(packet)?;
        classify_realpath(response)
    }

    /// Opens the directory at `path` and hands out its handle.
    pub fn open_dir(&mut self, path: &str) -> (r: Result<Vec<u8>, SftpError>)
        ensures
            allocated_once(old(self).trace@, final(self).trace@),
            tried_once(
                old(self).trace@,
                final(self).trace@,
                ClientPacketView::OpenDir { request_id: final(self).trace@.ids.last(), path: path@ },
            ),
            match answer_between(old(self).trace@, final(self).trace@) {
                Some(response) => match r {
                    Ok(handle) => open_dir_result(response) == Ok::<Seq<u8>, SftpErrorView>(
                        handle@,
                    ),
                    Err(e) => open_dir_result(response) == Err::<Seq<u8>, SftpErrorView>(e@),
                },
                None => r matches Err(e) && e@ == final(self).trace@.failures.last(),
            },
    {
        let request_id = self.allocate();
        let packet = ClientPacket::OpenDir { request_id, path: path.to_owned() };
        let response = self.exchange(packet)?;
        classify_open_dir(response)
    }

    /// Reads the next batch of entries of the directory behind `handle`. An
    /// empty batch says that there are no more.
    pub fn read_dir(&mut self, handle: &[u8]) -> (r: Result<Vec<FileInfo>, SftpError>)
        ensures
            allocated_once(old(self).trace@, final(self).trace@),
            tried_once(
                old(self).trace@,
                final(self).trace@,
                ClientPacketView::ReadDir {
                    request_id: final(self).trace@.ids.last(),
                    handle: handle@,
                },
            ),
            match answer_between(old(self).trace@, final(self).trace@) {
                Some(response) => match r {
                    Ok(files) => read_dir_result(response) == Ok::<
                        Seq<FileInfoView>,
                        SftpErrorView,
                    >(files_view(files@)),
                    Err(e) => read_dir_result(response) == Err::<Seq<FileInfoView>, SftpErrorView>(
                        e@,
                    ),
                },
                None => r matches Err(e) && e@ == final(self).trace@.failures.last(),
            },
    {
        let request_id = self.allocate();
        let packet = ClientPacket::ReadDir {
            request_id,
            handle: vstd::slice::slice_to_vec(handle),
        };
        let response = self.exchange(packet)?;
        classify_read_dir(response)
    }

    /// Gives `handle` back to the server.
    pub fn close(&mut self, handle: Vec<u8>) -> (r: Result<(), SftpError>)
        ensures
            allocated_once(old(self).trace@, final(self).trace@),
            tried_once(
                old(self).trace@,
                final(self).trace@,
                ClientPacketView::Close {
                    request_id: final(self).trace@.ids.last(),
                    handle: handle@,
                },
            ),
            match answer_between(old(self).trace@, final(self).trace@) {
                Some(response) => match r {
                    Ok(done) => close_result(response) == Ok::<(), SftpErrorView>(done),
                    Err(e) => close_result(response) == Err::<(), SftpErrorView>(e@),
                },
                None => r matches Err(e) && e@ == final(self).trace@.failures.last(),
            },
    {
        let request_id = self.allocate();
        let packet = ClientPacket::Close { request_id, handle };
        let response = self.exchange(packet)?;
        classify_close(response)
    }

    /// Asks for the attributes of the file at `path`.
    pub fn stat(&mut self, path: &str) -> (r: Result<FileAttributes, SftpError>)
        ensures
            allocated_once(old(self).trace@, final(self).trace@),
            tried_once(
                old(self).trace@,
                final(self).trace@,
                ClientPacketView::Stat { request_id: final(self).trace@.ids.last(), path: path@ },
            ),
            match answer_between(old(self).trace@, final(self).trace@) {
                Some(response) => match r {
                    Ok(attrs) => stat_result(response) == Ok::<FileAttributes, SftpErrorView>(
                        attrs,
                    ),
                    Err(e) => stat_result(response) == Err::<FileAttributes, SftpErrorView>(e@),
                },
                None => r matches Err(e) && e@ == final(self).trace@.failures.last(),
            },
    {
        let request_id = self.allocate();
        let packet = ClientPacket::Stat { request_id, path: path.to_owned() };
        let response = self.exchange(packet)?;
        classify_stat(response)
    }

    /// Opens the file at `path` with the open flags `pflags`, reporting no
    /// attributes of its own, and hands out the file's handle.
    pub fn open(&mut self, path: &str, pflags: u32) -> (r: Result<Vec<u8>, SftpError>)
        ensures
            allocated_once(old(self).trace@, final(self).trace@),
            tried_once(
                old(self).trace@,
                final(self).trace@,
                ClientPacketView::Open {
                    request_id: final(self).trace@.ids.last(),
                    path: path@,
                    pflags,
                    attrs: attributes_of(None, None, None),
                },
            ),
            match answer_between(old(self).trace@, final(self).trace@) {
                Some(response) => match r {
                    Ok(handle) => open_result(response) == Ok::<Seq<u8>, SftpErrorView>(handle@),
                    Err(e) => open_result(response) == Err::<Seq<u8>, SftpErrorView>(e@),
                },
                None => r matches Err(e) && e@ == final(self).trace@.failures.last(),
            },
    {
        let request_id = self.allocate();
        let packet = ClientPacket::Open {
            request_id,
            path: path.to_owned(),
            pflags,
            attrs: FileAttributes::default(),
        };
        let response = self.exchange(packet)?;
        classify_open(response)
    }

    /// Downloads the file behind `handle`: asks for chunk after chunk from the
    /// start, until a chunk comes back shorter than was asked for or the
    /// server says that the file is read to its end.
    pub fn read(&mut self, handle: &[u8]) -> (r: Result<Vec<u8>, SftpError>)
        ensures
            extends(old(self).trace@.sent, final(self).trace@.sent),
            extends(old(self).trace@.received, final(self).trace@.received),
            extends(old(self).trace@.ids, final(self).trace@.ids),
            extends(old(self).trace@.failures, final(self).trace@.failures),
            downloaded(
                since(old(self).trace@.ids, final(self).trace@.ids),
                handle@,
                since(old(self).trace@.sent, final(self).trace@.sent),
                since(old(self).trace@.received, final(self).trace@.received),
                since(old(self).trace@.failures, final(self).trace@.failures),
                match r {
                    Ok(content) => Ok(content@),
                    Err(e) => Err(e@),
                },
            ),
    {
        let mut offset: u64 = 0;
        let mut result: Vec<u8> = Vec::new();
        let ghost start = self.trace@;
        proof {
            lemma_extends_self(start.sent);
            lemma_extends_self(start.received);
            lemma_extends_self(start.ids);
            lemma_extends_self(start.failures);
        }
        loop
            invariant
                start == old(self).trace@,
                self.trace@.failures == start.failures,
                extends(start.failures, start.failures),
                since(start.failures, start.failures).len() == 0,
                extends(start.sent, self.trace@.sent),
                extends(start.received, self.trace@.received),
                extends(start.ids, self.trace@.ids),
                since(start.sent, self.trace@.sent).len() == since(
                    start.received,
                    self.trace@.received,
                ).len(),
                since(start.ids, self.trace@.ids).len() == since(
                    start.received,
                    self.trace@.received,
                ).len(),
                download_requests(
                    since(start.ids, self.trace@.ids),
                    handle@,
                    since(start.received, self.trace@.received),
                    since(start.sent, self.trace@.sent),
                ),
                forall|i: int|
                    0 <= i < since(start.received, self.trace@.received).len() ==> is_full_chunk(
                        #[trigger] since(start.received, self.trace@.received)[i],
                    ),
                result@ == joined(since(start.received, self.trace@.received)),
                offset == result@.len(),
            decreases usize::MAX - result.len(),
        {
            let ghost before = self.trace@;
            let ghost answers = since(start.received, before.received);
            let ghost requests = since(start.sent, before.sent);
            let request_id = self.allocate();
            let packet = ClientPacket::Read {
                request_id,
                handle: vstd::slice::slice_to_vec(handle),
                offset,
                len: READ_CHUNK_SIZE,
            };
            let ghost request = packet@;
            proof {
                lemma_extends_push(start.ids, before.ids, request_id);
                assert(answers.take(answers.len() as int) =~= answers);
            }
            let response = match self.exchange(packet) {
                Ok(response) => response,
                Err(e) => {
                    proof {
                        if self.trace@.sent != before.sent {
                            lemma_extends_push(start.sent, before.sent, request);
                        }
                        lemma_extends_push(start.failures, start.failures, e@);
                        assert(since(start.failures, self.trace@.failures) =~= seq![e@]);
                    }
                    return Err(e);
                },
            };
            let ghost answer = response@;
            proof {
                lemma_extends_push(start.sent, before.sent, request);
                lemma_extends_push(start.received, before.received, answer);
                lemma_joined_push(answers, answer);
                assert forall|i: int| 0 <= i < requests.len() + 1 implies answers.push(
                    answer,
                ).take(i) == answers.take(i) by {
                    assert(answers.push(answer).take(i) =~= answers.take(i));
                }
            }
            match classify_read(response) {
                Err(e) => {
                    return Err(e);
                },
                Ok(None) => {
                    assert(joined(answers.push(answer)) =~= joined(answers));
                    return Ok(result);
                },
                Ok(Some(mut data)) => {
                    let received = data.len();
                    result.append(&mut data);
                    if received < READ_CHUNK_SIZE as usize {
                        return Ok(result);
                    }
                    offset = result.len() as u64;
                },
            }
        }
    }
}

} // verus!
