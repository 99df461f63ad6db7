//! The client session: working directory, directory cache, open handles, and
//! the commands that run on them.

use super::constants::SSH_FXF_READ;
use super::error::{SftpError, SftpErrorView};
use super::packet::{ClientPacketView, ServerPacketView};
use super::path::{resolve, resolved};
use super::protocol::{
    answer_between, extends, init_result, lemma_extends_push, lemma_extends_self,
    allocated_once, close_result, downloaded, open_dir_result, open_result, read_dir_result,
    realpath_result, since, stat_result, tried_once, SftpProtocol, Trace,
};
use super::session::TransportLayer;
use super::types::{
    attributes_of, clone_files, current_time, files_view, optional_text, DirectoryCache, FileInfo,
    FileInfoView, SftpCommand,
};
use vstd::hash_map::StringHashMap;
use vstd::prelude::*;
use vstd::string::*;

verus! {

/// An error, or the lack of one, as a mathematical value.
pub open spec fn outcome_view<V>(r: Result<V, SftpError>) -> Result<V, SftpErrorView> {
    match r {
        Ok(v) => Ok(v),
        Err(e) => Err(e@),
    }
}

/// The outcome of reading entries as a mathematical value.
pub open spec fn entries_view(r: Result<Vec<FileInfo>, SftpError>) -> Result<
    Seq<FileInfoView>,
    SftpErrorView,
> {
    match r {
        Ok(files) => Ok(files_view(files@)),
        Err(e) => Err(e@),
    }
}

/// The outcome of a download as a mathematical value.
pub open spec fn content_view(r: Result<Vec<u8>, SftpError>) -> Result<Seq<u8>, SftpErrorView> {
    match r {
        Ok(content) => Ok(content@),
        Err(e) => Err(e@),
    }
}

/// A client session over a transport.
pub struct SftpClient<T: TransportLayer> {
    pub protocol: SftpProtocol<T>,
    /// The absolute path of the directory that relative paths start from.
    pub working_dir: String,
    /// The listings taken so far, by the absolute path of their directory.
    /// An entry stays for the life of the session.
    pub directory_cache: StringHashMap<DirectoryCache>,
    /// The listing that was shown last in the working directory.
    pub current_listing: Vec<FileInfo>,
    /// The handles of the files that are open, by their absolute path.
    pub handles: StringHashMap<Vec<u8>>,
}

/// The path that a change of directory aims at: the path that was given, seen
/// from the working directory, or the root where none was given.
pub open spec fn change_target(working_dir: Seq<char>, path: Option<Seq<char>>) -> Seq<char> {
    match path {
        Some(p) => resolved(working_dir, p),
        None => seq!['/'],
    }
}

/// The path that a listing aims at: the path that was given, seen from the
/// working directory, or the working directory where none was given.
pub open spec fn listing_target(working_dir: Seq<char>, path: Option<Seq<char>>) -> Seq<char> {
    match path {
        Some(p) => resolved(working_dir, p),
        None => working_dir,
    }
}

/// What a change of directory to `path` owes, from the client `pre` to the
/// client `post`, by the responses that arrived in between.
///
/// The client asks for the canonical form of the target, then for the
/// attributes of what it got. Only where both are answered, the second with
/// the attributes of a directory, the working directory becomes the canonical
/// path and the listing on show is dropped. In every other case the call
/// fails and both stay: with the server's refusal, with the transport's
/// failure, or, for a target that is no directory, with `NotADirectory`.
pub open spec fn directory_changed<T: TransportLayer>(
    pre: SftpClient<T>,
    post: SftpClient<T>,
    path: Option<Seq<char>>,
    r: Result<(), SftpErrorView>,
) -> bool {
    let answers = since(pre.protocol.trace@.received, post.protocol.trace@.received);
    let requests = since(pre.protocol.trace@.sent, post.protocol.trace@.sent);
    let ids = since(pre.protocol.trace@.ids, post.protocol.trace@.ids);
    let failures = since(pre.protocol.trace@.failures, post.protocol.trace@.failures);
    let ask = ClientPacketView::RealPath {
        request_id: ids[0],
        path: change_target(pre.working_dir@, path),
    };
    &&& post.directory_cache@ == pre.directory_cache@
    &&& post.handles@ == pre.handles@
    &&& extends(pre.protocol.trace@.sent, post.protocol.trace@.sent)
    &&& extends(pre.protocol.trace@.received, post.protocol.trace@.received)
    &&& extends(pre.protocol.trace@.ids, post.protocol.trace@.ids)
    &&& extends(pre.protocol.trace@.failures, post.protocol.trace@.failures)
    &&& r is Err ==> post.working_dir@ == pre.working_dir@ && post.current_listing@
        == pre.current_listing@
    &&& r is Ok ==> post.current_listing@.len() == 0
    &&& if answers.len() == 0 {
        &&& failures.len() == 1
        &&& r == Err::<(), SftpErrorView>(failures[0])
        &&& ids.len() == 1
        &&& requests == Seq::<ClientPacketView>::empty() || requests == seq![ask]
    } else if answers.len() == 1 {
        match realpath_result(answers[0]) {
            Err(cause) => {
                &&& r == Err::<(), SftpErrorView>(cause)
                &&& failures.len() == 0
                &&& requests == seq![ask]
                &&& ids.len() == 1
            },
            Ok(canonical) => {
                &&& failures.len() == 1
                &&& r == Err::<(), SftpErrorView>(failures[0])
                &&& ids.len() == 2
                &&& requests == seq![ask] || requests == seq![
                    ask,
                    ClientPacketView::Stat { request_id: ids[1], path: canonical },
                ]
            },
        }
    } else {
        &&& answers.len() == 2
        &&& failures.len() == 0
        &&& ids.len() == 2
        &&& realpath_result(answers[0]) matches Ok(canonical)
        &&& requests == seq![
            ask,
            ClientPacketView::Stat { request_id: ids[1], path: canonical },
        ]
        &&& match stat_result(answers[1]) {
            Err(cause) => r == Err::<(), SftpErrorView>(cause),
            Ok(attrs) => if attrs.is_directory {
                r is Ok && post.working_dir@ == canonical
            } else {
                r == Err::<(), SftpErrorView>(SftpErrorView::NotADirectory(canonical))
            },
        }
    }
}

/// Whether a response to reading a directory is a batch of entries, after
/// which there may be more.
pub open spec fn is_batch(response: ServerPacketView) -> bool {
    read_dir_result(response) matches Ok(files) && files.len() > 0
}

/// The entries that a response to reading a directory carries.
pub open spec fn batch_of(response: ServerPacketView) -> Seq<FileInfoView> {
    match read_dir_result(response) {
        Ok(files) => files,
        Err(_) => Seq::empty(),
    }
}

/// The entries that a run of responses to reading a directory carries, in order.
pub open spec fn entries_of(answers: Seq<ServerPacketView>) -> Seq<FileInfoView>
    decreases answers.len(),
{
    if answers.len() == 0 {
        Seq::empty()
    } else {
        entries_of(answers.drop_last()) + batch_of(answers.last())
    }
}

/// Whether `requests` are the requests that read one directory behind
/// `handle` batch by batch, each with the id that was allocated for it.
pub open spec fn batch_requests(ids: Seq<u32>, handle: Seq<u8>, requests: Seq<ClientPacketView>) -> bool {
    &&& requests.len() <= ids.len()
    &&& forall|i: int|
        0 <= i < requests.len() ==> #[trigger] requests[i] == (ClientPacketView::ReadDir {
            request_id: ids[i],
            handle,
        })
}

/// What reading a whole directory owes, by the responses that arrived
/// between the transports `pre` and `post`.
///
/// All responses but the last are batches. Where the last is no batch, the
/// reading is settled: an empty answer makes the entries of all batches the
/// result, an error is handed on. Where there is no such last response, the
/// transport failed, once, and its error is the result.
pub open spec fn directory_read(
    pre: Trace,
    post: Trace,
    handle: Seq<u8>,
    r: Result<Seq<FileInfoView>, SftpErrorView>,
) -> bool {
    let answers = since(pre.received, post.received);
    let requests = since(pre.sent, post.sent);
    let ids = since(pre.ids, post.ids);
    let failures = since(pre.failures, post.failures);
    &&& extends(pre.sent, post.sent)
    &&& extends(pre.received, post.received)
    &&& extends(pre.ids, post.ids)
    &&& extends(pre.failures, post.failures)
    &&& batch_requests(ids, handle, requests)
    &&& forall|i: int| 0 <= i < answers.len() - 1 ==> is_batch(#[trigger] answers[i])
    &&& if answers.len() > 0 && !is_batch(answers.last()) {
        &&& requests.len() == answers.len()
        &&& ids.len() == answers.len()
        &&& failures.len() == 0
        &&& match read_dir_result(answers.last()) {
            Ok(_) => r == Ok::<Seq<FileInfoView>, SftpErrorView>(entries_of(answers)),
            Err(cause) => r == Err::<Seq<FileInfoView>, SftpErrorView>(cause),
        }
    } else {
        &&& failures.len() == 1
        &&& r == Err::<Seq<FileInfoView>, SftpErrorView>(failures[0])
        &&& answers.len() <= requests.len() <= answers.len() + 1
        &&& ids.len() == answers.len() + 1
    }
}

/// The entries of a run with one more response are the entries of the run,
/// then those of the response.
pub proof fn lemma_entries_push(answers: Seq<ServerPacketView>, x: ServerPacketView)
    ensures
        entries_of(answers.push(x)) == entries_of(answers) + batch_of(x),
{
    assert(answers.push(x).drop_last() =~= answers);
}

/// The entries of two lists in a row, as mathematical values.
pub proof fn lemma_files_view_concat(a: Seq<FileInfo>, b: Seq<FileInfo>)
    ensures
        files_view(a + b) == files_view(a) + files_view(b),
{
    assert(files_view(a + b) =~= files_view(a) + files_view(b));
}

/// Whether `answers` are the responses of a listing that went through: a
/// handle, batches of entries, the answer that ends them, and a close that
/// the client accepts.
pub open spec fn listing_complete(answers: Seq<ServerPacketView>) -> bool {
    &&& answers.len() >= 3
    &&& open_dir_result(answers[0]) is Ok
    &&& forall|i: int| 1 <= i < answers.len() - 2 ==> is_batch(#[trigger] answers[i])
    &&& read_dir_result(answers[answers.len() - 2]) == Ok::<Seq<FileInfoView>, SftpErrorView>(
        Seq::empty(),
    )
    &&& close_result(answers.last()) is Ok
}

/// The entries that the responses of a listing carry: those of all
/// responses between the first and the last.
pub open spec fn listing_of(answers: Seq<ServerPacketView>) -> Seq<FileInfoView> {
    entries_of(answers.subrange(1, answers.len() - 1))
}

/// Whether `requests` are the requests of a listing of `target` that went
/// through: the directory is opened, read through its handle, and closed,
/// each request with the id that was allocated for it.
pub open spec fn listing_requests(
    ids: Seq<u32>,
    target: Seq<char>,
    handle: Seq<u8>,
    requests: Seq<ClientPacketView>,
) -> bool {
    &&& requests.len() >= 3
    &&& ids.len() == requests.len()
    &&& requests[0] == (ClientPacketView::OpenDir { request_id: ids[0], path: target })
    &&& forall|i: int|
        1 <= i < requests.len() - 1 ==> #[trigger] requests[i] == (ClientPacketView::ReadDir {
            request_id: ids[i],
            handle,
        })
    &&& requests.last() == (ClientPacketView::Close { request_id: ids.last(), handle })
}

/// What a listing of `path` owes, from the client `pre` to the client `post`,
/// by the responses that arrived in between.
///
/// A directory that was listed before is shown from the cache, and the
/// transport is not touched. Any other is opened, read to its end and closed;
/// the close is tried whatever the reading gave. A directory that the server
/// refuses to open fails the listing with that refusal, and nothing more is
/// sent. Behind a successful open every request is a read of the directory
/// through its handle, but for the close at the end. The listing succeeds
/// exactly where all three went through, and then it is shown and kept in
/// the cache under the directory's absolute path. A listing that fails
/// changes neither the cache nor what is shown.
pub open spec fn directory_listed<T: TransportLayer>(
    pre: SftpClient<T>,
    post: SftpClient<T>,
    path: Option<Seq<char>>,
    r: Result<(), SftpErrorView>,
) -> bool {
    let answers = since(pre.protocol.trace@.received, post.protocol.trace@.received);
    let requests = since(pre.protocol.trace@.sent, post.protocol.trace@.sent);
    let ids = since(pre.protocol.trace@.ids, post.protocol.trace@.ids);
    let failures = since(pre.protocol.trace@.failures, post.protocol.trace@.failures);
    let target = listing_target(pre.working_dir@, path);
    &&& post.working_dir@ == pre.working_dir@
    &&& post.handles@ == pre.handles@
    &&& extends(pre.protocol.trace@.sent, post.protocol.trace@.sent)
    &&& extends(pre.protocol.trace@.received, post.protocol.trace@.received)
    &&& extends(pre.protocol.trace@.ids, post.protocol.trace@.ids)
    &&& extends(pre.protocol.trace@.failures, post.protocol.trace@.failures)
    &&& if pre.directory_cache@.contains_key(target) {
        &&& r is Ok
        &&& post.protocol == pre.protocol
        &&& post.directory_cache@ == pre.directory_cache@
        &&& files_view(post.current_listing@) == files_view(pre.directory_cache@[target].files@)
    } else {
        &&& ids.len() > 0
        &&& requests.len() > 0 ==> requests[0] == (ClientPacketView::OpenDir {
            request_id: ids[0],
            path: target,
        })
        &&& r is Ok <==> listing_complete(answers)
        &&& r is Ok ==> {
            &&& requests.len() == answers.len()
            &&& failures.len() == 0
            &&& listing_requests(ids, target, open_dir_result(answers[0])->Ok_0, requests)
            &&& files_view(post.current_listing@) == listing_of(answers)
            &&& post.directory_cache@.dom() == pre.directory_cache@.dom().insert(target)
            &&& forall|key: Seq<char>| #[trigger]
                pre.directory_cache@.contains_key(key) ==> post.directory_cache@[key]
                    == pre.directory_cache@[key]
            &&& files_view(post.directory_cache@[target].files@) == listing_of(answers)
        }
        &&& r is Err ==> post.directory_cache@ == pre.directory_cache@ && post.current_listing@
            == pre.current_listing@
        &&& if answers.len() == 0 {
            failures.len() == 1 && r == Err::<(), SftpErrorView>(failures[0])
        } else {
            match open_dir_result(answers[0]) {
                Err(cause) => {
                    &&& r == Err::<(), SftpErrorView>(cause)
                    &&& failures.len() == 0
                    &&& answers.len() == 1
                    &&& requests.len() == 1
                    &&& ids.len() == 1
                },
                Ok(handle) => {
                    &&& ids.len() >= 3
                    &&& requests.len() <= ids.len()
                    &&& forall|i: int|
                        1 <= i < requests.len() ==> #[trigger] requests[i] == (
                        ClientPacketView::ReadDir { request_id: ids[i], handle }) || (i
                            == requests.len() - 1 && requests[i] == (ClientPacketView::Close {
                            request_id: ids.last(),
                            handle,
                        }))
                    &&& failures.len() > 0 || requests.last() == (ClientPacketView::Close {
                        request_id: ids.last(),
                        handle,
                    })
                },
            }
        }
    }
}

/// What a download of the file at `path` owes, from the client `pre` to the
/// client `post`, by the responses that arrived in between.
///
/// A file that the session holds open is read through the handle it has. Any
/// other is opened for reading first, and its handle is kept under the file's
/// absolute path. The content is then downloaded from the start.
pub open spec fn file_fetched<T: TransportLayer>(
    pre: SftpClient<T>,
    post: SftpClient<T>,
    path: Seq<char>,
    r: Result<Seq<u8>, SftpErrorView>,
) -> bool {
    let answers = since(pre.protocol.trace@.received, post.protocol.trace@.received);
    let requests = since(pre.protocol.trace@.sent, post.protocol.trace@.sent);
    let ids = since(pre.protocol.trace@.ids, post.protocol.trace@.ids);
    let failures = since(pre.protocol.trace@.failures, post.protocol.trace@.failures);
    let target = resolved(pre.working_dir@, path);
    let open = ClientPacketView::Open {
        request_id: ids[0],
        path: target,
        pflags: SSH_FXF_READ,
        attrs: attributes_of(None, None, None),
    };
    &&& post.working_dir@ == pre.working_dir@
    &&& post.directory_cache@ == pre.directory_cache@
    &&& post.current_listing@ == pre.current_listing@
    &&& extends(pre.protocol.trace@.sent, post.protocol.trace@.sent)
    &&& extends(pre.protocol.trace@.received, post.protocol.trace@.received)
    &&& extends(pre.protocol.trace@.ids, post.protocol.trace@.ids)
    &&& extends(pre.protocol.trace@.failures, post.protocol.trace@.failures)
    &&& if pre.handles@.contains_key(target) {
        &&& post.handles@ == pre.handles@
        &&& downloaded(ids, pre.handles@[target]@, requests, answers, failures, r)
    } else if answers.len() == 0 {
        &&& failures.len() == 1
        &&& r == Err::<Seq<u8>, SftpErrorView>(failures[0])
        &&& post.handles@ == pre.handles@
        &&& ids.len() == 1
        &&& requests == Seq::<ClientPacketView>::empty() || requests == seq![open]
    } else {
        &&& requests.len() > 0
        &&& ids.len() > 0
        &&& requests[0] == open
        &&& match open_result(answers[0]) {
            Err(cause) => {
                &&& r == Err::<Seq<u8>, SftpErrorView>(cause)
                &&& post.handles@ == pre.handles@
                &&& answers.len() == 1
                &&& requests.len() == 1
                &&& ids.len() == 1
                &&& failures.len() == 0
            },
            Ok(handle) => {
                &&& post.handles@.dom() == pre.handles@.dom().insert(target)
                &&& post.handles@[target]@ == handle
                &&& forall|key: Seq<char>| #[trigger]
                    pre.handles@.contains_key(key) ==> post.handles@[key] == pre.handles@[key]
                &&& downloaded(
                    ids.skip(1),
                    handle,
                    requests.skip(1),
                    answers.skip(1),
                    failures,
                    r,
                )
            },
        }
    }
}

/// The texts of `lines` as mathematical values, in order.
pub open spec fn lines_view(lines: Seq<String>) -> Seq<Seq<char>> {
    Seq::new(lines.len(), |i: int| lines[i]@)
}

/// The lines that show a listing: the display name of each entry.
pub open spec fn display_lines(files: Seq<FileInfoView>) -> Seq<Seq<char>> {
    Seq::new(files.len(), |i: int| files[i].display_name)
}

/// The text that explains the commands.
pub open spec fn help_text() -> Seq<char> {
    "Available commands:\nls - list files in current directory\ncd - change current directory\nget - download file\nput - upload file\nbye - exit"@
}

/// What a command leaves for the caller to do: the lines to show, the file
/// content to store, and whether to go on taking commands.
#[derive(Debug)]
pub struct CommandOutput {
    /// Whether the caller should go on taking commands.
    pub result: bool,
    /// The lines to show to the user, in order.
    pub lines: Vec<String>,
    /// The content of the file that was downloaded, for the caller to store.
    pub data: Option<Vec<u8>>,
}

/// What carrying out `cmd` owes, from the client `pre` to the client `post`.
///
/// Listing, changing directory and downloading are what the operations of
/// those names owe. Asking for the working directory or for help shows one
/// text and changes nothing. Uploading is not offered and fails without a
/// trace. Only `Bye` tells the caller to stop.
pub open spec fn command_executed<T: TransportLayer>(
    pre: SftpClient<T>,
    post: SftpClient<T>,
    cmd: SftpCommand,
    r: Result<CommandOutput, SftpError>,
) -> bool {
    let unit: Result<(), SftpErrorView> = match r {
        Ok(_) => Ok(()),
        Err(e) => Err(e@),
    };
    match cmd {
        SftpCommand::Ls { path } => {
            &&& directory_listed(pre, post, optional_text(path), unit)
            &&& r matches Ok(out) ==> out.result && out.data is None && lines_view(out.lines@)
                == display_lines(files_view(post.current_listing@))
        },
        SftpCommand::Cd { path } => {
            &&& directory_changed(pre, post, optional_text(path), unit)
            &&& r matches Ok(out) ==> out.result && out.data is None && out.lines@.len() == 0
        },
        SftpCommand::Get { remote_path, .. } => {
            &&& file_fetched(
                pre,
                post,
                remote_path@,
                match r {
                    Ok(out) => Ok(
                        match out.data {
                            Some(content) => content@,
                            None => Seq::empty(),
                        },
                    ),
                    Err(e) => Err(e@),
                },
            )
            &&& r matches Ok(out) ==> out.result && out.data is Some && out.lines@.len() == 0
        },
        SftpCommand::Put { .. } => {
            &&& post == pre
            &&& r matches Err(e)
            &&& e@ == SftpErrorView::InvalidCommand("Upload is not supported"@)
        },
        SftpCommand::Pwd => {
            &&& post == pre
            &&& r matches Ok(out)
            &&& out.result
            &&& out.data is None
            &&& lines_view(out.lines@) == seq![pre.working_dir@]
        },
        SftpCommand::Help => {
            &&& post == pre
            &&& r matches Ok(out)
            &&& out.result
            &&& out.data is None
            &&& lines_view(out.lines@) == seq![help_text()]
        },
        SftpCommand::Bye => {
            &&& post == pre
            &&& r matches Ok(out)
            &&& !out.result
            &&& out.data is None
            &&& out.lines@.len() == 0
        },
    }
}

/// After one request and at most one answer: what was sent, what was
/// received and what failed since.
pub proof fn lemma_one_exchange(pre: Trace, post: Trace, request: ClientPacketView)
    requires
        tried_once(pre, post, request),
    ensures
        extends(pre.sent, post.sent),
        extends(pre.received, post.received),
        extends(pre.failures, post.failures),
        since(pre.sent, post.sent) == Seq::<ClientPacketView>::empty() || since(
            pre.sent,
            post.sent,
        ) == seq![request],
        match answer_between(pre, post) {
            Some(answer) => {
                &&& since(pre.received, post.received) == seq![answer]
                &&& since(pre.sent, post.sent) == seq![request]
                &&& since(pre.failures, post.failures) == Seq::<SftpErrorView>::empty()
            },
            None => {
                &&& since(pre.received, post.received) == Seq::<ServerPacketView>::empty()
                &&& since(pre.failures, post.failures) == seq![post.failures.last()]
            },
        },
{
    lemma_extends_self(pre.sent);
    lemma_extends_self(pre.received);
    lemma_extends_self(pre.failures);
    if post.sent != pre.sent {
        lemma_extends_push(pre.sent, pre.sent, request);
        assert(since(pre.sent, post.sent) =~= seq![request]);
    }
    if post.received != pre.received {
        let answer = post.received.last();
        lemma_extends_push(pre.received, pre.received, answer);
        assert(since(pre.received, post.received) =~= seq![answer]);
        assert(post.received.len() == pre.received.len() + 1);
    } else {
        assert(post.received.len() == pre.received.len());
    }
    if post.failures != pre.failures {
        let failure = post.failures.last();
        lemma_extends_push(pre.failures, pre.failures, failure);
        assert(since(pre.failures, post.failures) =~= seq![failure]);
        assert(post.failures.len() == pre.failures.len() + 1);
        assert(post.received == pre.received);
    }
}

/// After one allocation: the ids that were given out since.
pub proof fn lemma_one_allocation(pre: Trace, post: Trace)
    requires
        allocated_once(pre, post),
    ensures
        extends(pre.ids, post.ids),
        since(pre.ids, post.ids) == seq![post.ids.last()],
{
    lemma_extends_self(pre.ids);
    lemma_extends_push(pre.ids, pre.ids, post.ids.last());
    assert(since(pre.ids, post.ids) =~= seq![post.ids.last()]);
}

/// The trace of a listing, put together from its three parts: the
/// directory was opened between `t0` and `t1` with the handle `h`, read to its
/// end between `t1` and `t2` with the outcome `read`, and closed between `t2`
/// and `t3` with the outcome `closed`.
pub proof fn lemma_listing_trace(
    t0: Trace,
    t1: Trace,
    t2: Trace,
    t3: Trace,
    target: Seq<char>,
    h: Seq<u8>,
    read: Result<Seq<FileInfoView>, SftpErrorView>,
    closed: Result<(), SftpErrorView>,
)
    requires
        allocated_once(t0, t1),
        tried_once(t0, t1, ClientPacketView::OpenDir { request_id: t1.ids.last(), path: target }),
        answer_between(t0, t1) matches Some(first) && open_dir_result(first) == Ok::<
            Seq<u8>,
            SftpErrorView,
        >(h),
        directory_read(t1, t2, h, read),
        allocated_once(t2, t3),
        tried_once(t2, t3, ClientPacketView::Close { request_id: t3.ids.last(), handle: h }),
        match answer_between(t2, t3) {
            Some(last) => close_result(last) == closed,
            None => closed is Err,
        },
    ensures
        extends(t0.sent, t3.sent),
        extends(t0.received, t3.received),
        extends(t0.ids, t3.ids),
        extends(t0.failures, t3.failures),
        read is Ok && closed is Ok ==> since(t0.failures, t3.failures).len() == 0,
        since(t0.ids, t3.ids).len() > 0,
        since(t0.sent, t3.sent).len() > 0,
        since(t0.sent, t3.sent)[0] == (ClientPacketView::OpenDir {
            request_id: since(t0.ids, t3.ids)[0],
            path: target,
        }),
        since(t0.received, t3.received).len() > 0,
        since(t0.received, t3.received)[0] == answer_between(t0, t1)->0,
        since(t0.ids, t3.ids).len() >= 3,
        since(t0.sent, t3.sent).len() <= since(t0.ids, t3.ids).len(),
        forall|i: int|
            1 <= i < since(t0.sent, t3.sent).len() ==> #[trigger] since(t0.sent, t3.sent)[i] == (
            ClientPacketView::ReadDir { request_id: since(t0.ids, t3.ids)[i], handle: h }) || (i
                == since(t0.sent, t3.sent).len() - 1 && since(t0.sent, t3.sent)[i] == (
            ClientPacketView::Close { request_id: since(t0.ids, t3.ids).last(), handle: h })),
        since(t0.failures, t3.failures).len() > 0 || since(t0.sent, t3.sent).last() == (
        ClientPacketView::Close { request_id: since(t0.ids, t3.ids).last(), handle: h }),
        (read is Ok && closed is Ok) <==> listing_complete(since(t0.received, t3.received)),
        read is Ok && closed is Ok ==> {
            &&& since(t0.sent, t3.sent).len() == since(t0.received, t3.received).len()
            &&& listing_requests(since(t0.ids, t3.ids), target, h, since(t0.sent, t3.sent))
            &&& read == Ok::<Seq<FileInfoView>, SftpErrorView>(
                listing_of(since(t0.received, t3.received)),
            )
        },
{
    let open = ClientPacketView::OpenDir { request_id: t1.ids.last(), path: target };
    let close = ClientPacketView::Close { request_id: t3.ids.last(), handle: h };
    lemma_one_exchange(t0, t1, open);
    lemma_one_allocation(t0, t1);
    lemma_one_exchange(t2, t3, close);
    lemma_one_allocation(t2, t3);
    lemma_since_chain(t0.sent, t1.sent, t2.sent);
    lemma_since_chain(t0.received, t1.received, t2.received);
    lemma_since_chain(t0.ids, t1.ids, t2.ids);
    lemma_since_chain(t0.sent, t2.sent, t3.sent);
    lemma_since_chain(t0.received, t2.received, t3.received);
    lemma_since_chain(t0.ids, t2.ids, t3.ids);
    lemma_since_chain(t0.failures, t1.failures, t2.failures);
    lemma_since_chain(t0.failures, t2.failures, t3.failures);
    let a0 = answer_between(t0, t1)->0;
    let reads = since(t1.received, t2.received);
    let asked = since(t1.sent, t2.sent);
    let read_ids = since(t1.ids, t2.ids);
    let last = since(t2.received, t3.received);
    let answers = since(t0.received, t3.received);
    let requests = since(t0.sent, t3.sent);
    let ids = since(t0.ids, t3.ids);
    assert(answers =~= seq![a0] + reads + last);
    assert(requests =~= seq![open] + asked + since(t2.sent, t3.sent));
    assert(ids =~= seq![t1.ids.last()] + read_ids + seq![t3.ids.last()]);
    assert(answers[0] == a0);
    assert(requests[0] == open);
    assert(ids[0] == t1.ids.last());
    assert forall|i: int| 0 <= i < reads.len() implies answers[i + 1] == reads[i] by {}
    assert forall|i: int| 0 <= i < asked.len() implies requests[i + 1] == asked[i] by {}
    assert forall|i: int| 0 <= i < read_ids.len() implies ids[i + 1] == read_ids[i] by {}
    assert forall|i: int| 1 <= i < requests.len() implies #[trigger] requests[i] == (
    ClientPacketView::ReadDir { request_id: ids[i], handle: h }) || (i == requests.len() - 1
        && requests[i] == close) by {
        if i <= asked.len() {
            assert(requests[i] == asked[i - 1]);
            assert(ids[i] == read_ids[i - 1]);
        }
    }
    assert(ids.last() == t3.ids.last());
    if last.len() == 1 {
        assert(answers.last() == last[0]);
        assert(answers.subrange(1, answers.len() - 1) =~= reads);
        if reads.len() > 0 {
            assert(answers[answers.len() - 2] == reads.last());
        }
    } else {
        assert(answers =~= seq![a0] + reads);
        if reads.len() > 0 {
            assert(answers.last() == reads.last());
        }
    }
    if read is Ok && closed is Ok {
        assert(last.len() == 1);
        assert(reads.len() > 0);
        assert forall|i: int| 1 <= i < answers.len() - 2 implies is_batch(
            #[trigger] answers[i],
        ) by {
            assert(answers[i] == reads[i - 1]);
        }
        assert(read_dir_result(reads.last())->Ok_0 =~= Seq::<FileInfoView>::empty());
        assert(listing_complete(answers));
        assert(requests.last() == close);
        assert(ids.last() == t3.ids.last());
        assert forall|i: int| 1 <= i < requests.len() - 1 implies #[trigger] requests[i] == (
        ClientPacketView::ReadDir { request_id: ids[i], handle: h }) by {
            assert(requests[i] == asked[i - 1]);
            assert(ids[i] == read_ids[i - 1]);
        }
    }
}

/// What came since `a` is what came up to `b`, then what came since `b`.
pub proof fn lemma_since_chain<A>(a: Seq<A>, b: Seq<A>, c: Seq<A>)
    requires
        extends(a, b),
        extends(b, c),
    ensures
        extends(a, c),
        since(a, c) == since(a, b) + since(b, c),
{
    assert(c.take(a.len() as int) =~= c.take(b.len() as int).take(a.len() as int));
    assert(since(a, c) =~= since(a, b) + since(b, c));
}

/// A directory that was listed is listed from the cache from then on: a
/// second listing of the same path right after one that went through
/// succeeds, leaves the engine and its transport as they were, and shows the
/// same entries.
pub proof fn lemma_second_listing_from_cache<T: TransportLayer>(
    first: SftpClient<T>,
    second: SftpClient<T>,
    third: SftpClient<T>,
    path: Option<Seq<char>>,
    r: Result<(), SftpErrorView>,
)
    requires
        directory_listed(first, second, path, Ok(())),
        directory_listed(second, third, path, r),
    ensures
        r is Ok,
        third.protocol == second.protocol,
        third.directory_cache@ == second.directory_cache@,
        files_view(third.current_listing@) == files_view(second.current_listing@),
{
    let target = listing_target(first.working_dir@, path);
    assert(second.directory_cache@.contains_key(target)) by {
        if !first.directory_cache@.contains_key(target) {
            assert(second.directory_cache@.dom().contains(target));
        }
    }
}

/// A change of directory whose target turns out to be no directory fails
/// with `NotADirectory` and the canonical path of the target, and the
/// working directory stays.
pub proof fn lemma_change_to_a_file_is_refused<T: TransportLayer>(
    pre: SftpClient<T>,
    post: SftpClient<T>,
    path: Option<Seq<char>>,
    r: Result<(), SftpErrorView>,
)
    requires
        directory_changed(pre, post, path, r),
        since(pre.protocol.trace@.received, post.protocol.trace@.received).len() == 2,
        stat_result(since(pre.protocol.trace@.received, post.protocol.trace@.received)[1])
            matches Ok(attrs) && !attrs.is_directory,
    ensures
        r == Err::<(), SftpErrorView>(
            SftpErrorView::NotADirectory(
                realpath_result(
                    since(pre.protocol.trace@.received, post.protocol.trace@.received)[0],
                )->Ok_0,
            ),
        ),
        post.working_dir@ == pre.working_dir@,
        post.current_listing@ == pre.current_listing@,
{
}

impl<T: TransportLayer> SftpClient<T> {
    /// A session on a transport that has been opened already. The working
    /// directory is the canonical form of `initial_path`, or of the root
    /// where none is given, as the server resolves it.
    ///
    /// A session that cannot be built takes the engine and its account with
    /// it, so nothing is claimed of a failure here. What an answer means, and
    /// that an answer with one name succeeds, is stated on
    /// `SftpProtocol::realpath`, which this calls once.
    pub fn new(transport: T, initial_path: Option<&str>) -> (r: Result<Self, SftpError>)
        ensures
            r matches Ok(client) ==> {
                &&& client.protocol.trace@.ids.len() == 1
                &&& client.protocol.trace@.failures.len() == 0
                &&& client.protocol.trace@.sent == seq![
                    ClientPacketView::RealPath {
                        request_id: client.protocol.trace@.ids[0],
                        path: match initial_path {
                            Some(p) => p@,
                            None => seq!['/'],
                        },
                    },
                ]
                &&& client.protocol.trace@.received.len() == 1
                &&& realpath_result(client.protocol.trace@.received[0]) == Ok::<
                    Seq<char>,
                    SftpErrorView,
                >(client.working_dir@)
                &&& client.directory_cache@ == Map::<Seq<char>, DirectoryCache>::empty()
                &&& client.handles@ == Map::<Seq<char>, Vec<u8>>::empty()
                &&& client.current_listing@.len() == 0
            },
    {
        let protocol = SftpProtocol::new(transport);
        Self::start(protocol, initial_path)
    }

    /// Opens a session on a fresh transport: the versions are exchanged, then
    /// the working directory is resolved as in `new`. A first response that
    /// is no version fails the session before anything else is asked.
    ///
    /// As in `new`, nothing is claimed of a failure here: what the two
    /// answers mean is stated on `SftpProtocol::init` and
    /// `SftpProtocol::realpath`, which this calls in that order.
    pub fn connect(transport: T, version: u32, initial_path: Option<&str>) -> (r: Result<
        Self,
        SftpError,
    >)
        ensures
            r matches Ok(client) ==> {
                &&& client.protocol.trace@.ids.len() == 1
                &&& client.protocol.trace@.failures.len() == 0
                &&& client.protocol.trace@.sent == seq![
                    ClientPacketView::Init { version },
                    ClientPacketView::RealPath {
                        request_id: client.protocol.trace@.ids[0],
                        path: match initial_path {
                            Some(p) => p@,
                            None => seq!['/'],
                        },
                    },
                ]
                &&& client.protocol.trace@.received.len() == 2
                &&& init_result(client.protocol.trace@.received[0]) is Ok
                &&& realpath_result(client.protocol.trace@.received[1]) == Ok::<
                    Seq<char>,
                    SftpErrorView,
                >(client.working_dir@)
                &&& client.directory_cache@ == Map::<Seq<char>, DirectoryCache>::empty()
                &&& client.handles@ == Map::<Seq<char>, Vec<u8>>::empty()
                &&& client.current_listing@.len() == 0
            },
    {
        let mut protocol = SftpProtocol::new(transport);
        let ghost fresh = protocol.trace@;
        let _server_version = protocol.init(version)?;
        proof {
            lemma_one_exchange(fresh, protocol.trace@, ClientPacketView::Init { version });
            assert(since(fresh.sent, protocol.trace@.sent) =~= protocol.trace@.sent);
            assert(since(fresh.received, protocol.trace@.received) =~= protocol.trace@.received);
        }
        Self::start(protocol, initial_path)
    }

    /// Resolves the working directory through `protocol` and builds the
    /// session around it, with nothing cached, nothing open and nothing on
    /// show. Where the directory is not resolved there is no session, and
    /// nothing is claimed of the failure.
    fn start(protocol: SftpProtocol<T>, initial_path: Option<&str>) -> (r: Result<Self, SftpError>)
        ensures
            r matches Ok(client) ==> {
                &&& client.protocol.trace@.ids == protocol.trace@.ids.push(
                    client.protocol.trace@.ids.last(),
                )
                &&& client.protocol.trace@.failures == protocol.trace@.failures
                &&& client.protocol.trace@.sent == protocol.trace@.sent.push(
                    ClientPacketView::RealPath {
                        request_id: client.protocol.trace@.ids.last(),
                        path: match initial_path {
                            Some(p) => p@,
                            None => seq!['/'],
                        },
                    },
                )
                &&& client.protocol.trace@.received == protocol.trace@.received.push(
                    client.protocol.trace@.received.last(),
                )
                &&& realpath_result(client.protocol.trace@.received.last()) == Ok::<
                    Seq<char>,
                    SftpErrorView,
                >(client.working_dir@)
                &&& client.directory_cache@ == Map::<Seq<char>, DirectoryCache>::empty()
                &&& client.handles@ == Map::<Seq<char>, Vec<u8>>::empty()
                &&& client.current_listing@.len() == 0
            },
    {
        let mut protocol = protocol;
        proof {
            reveal_strlit("/");
            assert("/"@ =~= seq!['/']);
        }
        let seed = match initial_path {
            Some(p) => p,
            None => "/",
        };
        let working_dir = protocol.realpath(seed)?;
        Ok(
            Self {
                protocol,
                working_dir,
                directory_cache: StringHashMap::new(),
                current_listing: Vec::new(),
                handles: StringHashMap::new(),
            },
        )
    }

    /// The absolute path that `path` names in the working directory.
    pub fn resolve_path(&self, path: &str) -> (r: String)
        ensures
            r@ == resolved(self.working_dir@, path@),
    {
        resolve(self.working_dir.as_str(), path)
    }

    /// Makes the directory at `path`, or the root where none is given, the
    /// working directory.
    pub fn change_directory(&mut self, path: Option<&str>) -> (r: Result<(), SftpError>)
        ensures
            directory_changed(
                *old(self),
                *final(self),
                match path {
                    Some(p) => Some(p@),
                    None => None,
                },
                outcome_view(r),
            ),
    {
        let ghost start = self.protocol.trace@;
        proof {
            reveal_strlit("/");
            assert("/"@ =~= seq!['/']);
        }
        let target = match path {
            Some(p) => self.resolve_path(p),
            None => String::from_str("/"),
        };
        let outcome = self.protocol.realpath(target.as_str());
        let ghost middle = self.protocol.trace@;
        let ghost ask = ClientPacketView::RealPath { request_id: middle.ids.last(), path: target@ };
        proof {
            lemma_one_exchange(start, middle, ask);
            lemma_one_allocation(start, middle);
        }
        let resolved_path = match outcome {
            Ok(p) => p,
            Err(e) => {
                return Err(e);
            },
        };
        let outcome = self.protocol.stat(resolved_path.as_str());
        proof {
            let end = self.protocol.trace@;
            let check = ClientPacketView::Stat { request_id: end.ids.last(), path: resolved_path@ };
            lemma_one_exchange(middle, end, check);
            lemma_one_allocation(middle, end);
            lemma_since_chain(start.sent, middle.sent, end.sent);
            lemma_since_chain(start.received, middle.received, end.received);
            lemma_since_chain(start.ids, middle.ids, end.ids);
            lemma_since_chain(start.failures, middle.failures, end.failures);
            assert(seq![ask] + seq![check] =~= seq![ask, check]);
            assert(seq![ask] + Seq::<ClientPacketView>::empty() =~= seq![ask]);
            assert(since(start.ids, end.ids) =~= seq![middle.ids.last(), end.ids.last()]);
        }
        let attrs = match outcome {
            Ok(attrs) => attrs,
            Err(e) => {
                return Err(e);
            },
        };
        if !attrs.is_directory {
            return Err(SftpError::NotADirectory(resolved_path));
        }
        self.working_dir = resolved_path;
        self.current_listing.clear();
        Ok(())
    }

    /// Reads the directory behind `handle` to its end, batch by batch, and
    /// hands out all its entries in the order in which they came.
    pub fn read_entire_directory(&mut self, handle: &[u8]) -> (r: Result<Vec<FileInfo>, SftpError>)
        ensures
            directory_read(
                old(self).protocol.trace@,
                final(self).protocol.trace@,
                handle@,
                entries_view(r),
            ),
            final(self).working_dir == old(self).working_dir,
            final(self).directory_cache == old(self).directory_cache,
            final(self).current_listing == old(self).current_listing,
            final(self).handles == old(self).handles,
    {
        let mut all_files: Vec<FileInfo> = Vec::new();
        let ghost start = self.protocol.trace@;
        proof {
            lemma_extends_self(start.sent);
            lemma_extends_self(start.received);
            lemma_extends_self(start.ids);
            lemma_extends_self(start.failures);
            assert(files_view(all_files@) =~= Seq::<FileInfoView>::empty());
        }
        loop
            invariant
                start == old(self).protocol.trace@,
                self.protocol.trace@.failures == start.failures,
                extends(start.failures, start.failures),
                since(start.failures, start.failures).len() == 0,
                self.working_dir == old(self).working_dir,
                self.directory_cache == old(self).directory_cache,
                self.current_listing == old(self).current_listing,
                self.handles == old(self).handles,
                extends(start.sent, self.protocol.trace@.sent),
                extends(start.received, self.protocol.trace@.received),
                extends(start.ids, self.protocol.trace@.ids),
                since(start.sent, self.protocol.trace@.sent).len() == since(
                    start.received,
                    self.protocol.trace@.received,
                ).len(),
                since(start.ids, self.protocol.trace@.ids).len() == since(
                    start.received,
                    self.protocol.trace@.received,
                ).len(),
                batch_requests(
                    since(start.ids, self.protocol.trace@.ids),
                    handle@,
                    since(start.sent, self.protocol.trace@.sent),
                ),
                forall|i: int|
                    0 <= i < since(start.received, self.protocol.trace@.received).len()
                        ==> is_batch(
                        #[trigger] since(start.received, self.protocol.trace@.received)[i],
                    ),
                files_view(all_files@) == entries_of(
                    since(start.received, self.protocol.trace@.received),
                ),
            decreases usize::MAX - all_files.len(),
        {
            let ghost before = self.protocol.trace@;
            let ghost answers = since(start.received, before.received);
            let outcome = self.protocol.read_dir(handle);
            proof {
                let after = self.protocol.trace@;
                let request = ClientPacketView::ReadDir {
                    request_id: after.ids.last(),
                    handle: handle@,
                };
                lemma_extends_push(start.ids, before.ids, after.ids.last());
                if after.sent != before.sent {
                    lemma_extends_push(start.sent, before.sent, request);
                }
                if after.received != before.received {
                    let answer = after.received.last();
                    lemma_extends_push(start.received, before.received, answer);
                    lemma_entries_push(answers, answer);
                }
                if after.failures != before.failures {
                    lemma_extends_push(start.failures, start.failures, after.failures.last());
                    assert(since(start.failures, after.failures) =~= seq![after.failures.last()]);
                }
            }
            let mut files = match outcome {
                Ok(files) => files,
                Err(e) => {
                    return Err(e);
                },
            };
            if files.len() == 0 {
                assert(files_view(files@) =~= Seq::<FileInfoView>::empty());
                assert(entries_of(answers) + Seq::<FileInfoView>::empty() =~= entries_of(answers));
                return Ok(all_files);
            }
            proof {
                lemma_files_view_concat(all_files@, files@);
            }
            all_files.append(&mut files);
        }
    }

    /// Lists the directory at `path`, or the working directory where none is
    /// given, and keeps the listing as the one on show.
    pub fn list_directory(&mut self, path: Option<&str>) -> (r: Result<(), SftpError>)
        ensures
            directory_listed(
                *old(self),
                *final(self),
                match path {
                    Some(p) => Some(p@),
                    None => None,
                },
                outcome_view(r),
            ),
    {
        let ghost t0 = self.protocol.trace@;
        proof {
            lemma_extends_self(t0.sent);
            lemma_extends_self(t0.received);
            lemma_extends_self(t0.ids);
            lemma_extends_self(t0.failures);
        }
        let target = match path {
            Some(p) => self.resolve_path(p),
            None => self.working_dir.clone(),
        };
        match self.directory_cache.get(target.as_str()) {
            Some(cache) => {
                self.current_listing = clone_files(&cache.files);
                return Ok(());
            },
            None => {},
        }
        let opened = self.protocol.open_dir(target.as_str());
        let ghost t1 = self.protocol.trace@;
        let ghost open = ClientPacketView::OpenDir { request_id: t1.ids.last(), path: target@ };
        proof {
            lemma_one_exchange(t0, t1, open);
            lemma_one_allocation(t0, t1);
        }
        let handle = match opened {
            Ok(handle) => handle,
            Err(e) => {
                return Err(e);
            },
        };
        let outcome = self.read_entire_directory(handle.as_slice());
        let ghost t2 = self.protocol.trace@;
        let ghost h = handle@;
        let closed = self.protocol.close(handle);
        let ghost t3 = self.protocol.trace@;
        proof {
            let close = ClientPacketView::Close { request_id: t3.ids.last(), handle: h };
            lemma_one_exchange(t2, t3, close);
            lemma_one_allocation(t2, t3);
            lemma_listing_trace(
                t0,
                t1,
                t2,
                t3,
                target@,
                h,
                entries_view(outcome),
                outcome_view(closed),
            );
        }
        let files = match outcome {
            Ok(files) => files,
            Err(e) => {
                return Err(e);
            },
        };
        match closed {
            Ok(()) => {},
            Err(e) => {
                return Err(e);
            },
        }
        let shown = clone_files(&files);
        self.current_listing = shown;
        self.directory_cache.insert(target, DirectoryCache { files, timestamp: current_time() });
        proof {
            assert(self.directory_cache@.dom() =~= old(self).directory_cache@.dom().insert(
                listing_target(
                    old(self).working_dir@,
                    match path {
                        Some(p) => Some(p@),
                        None => None,
                    },
                ),
            ));
        }
        Ok(())
    }

    /// The handle of the file at the absolute path `path`: the one that the
    /// session holds, or a new one from opening the file for reading, which
    /// the session then holds.
    fn get_file_handle(&mut self, path: &str) -> (r: Result<Vec<u8>, SftpError>)
        ensures
            final(self).working_dir == old(self).working_dir,
            final(self).directory_cache == old(self).directory_cache,
            final(self).current_listing == old(self).current_listing,
            old(self).handles@.contains_key(path@) ==> {
                &&& *final(self) == *old(self)
                &&& r matches Ok(handle)
                &&& handle@ == old(self).handles@[path@]@
            },
            !old(self).handles@.contains_key(path@) ==> {
                &&& allocated_once(old(self).protocol.trace@, final(self).protocol.trace@)
                &&& tried_once(
                    old(self).protocol.trace@,
                    final(self).protocol.trace@,
                    ClientPacketView::Open {
                        request_id: final(self).protocol.trace@.ids.last(),
                        path: path@,
                        pflags: SSH_FXF_READ,
                        attrs: attributes_of(None, None, None),
                    },
                )
                &&& match answer_between(old(self).protocol.trace@, final(self).protocol.trace@) {
                    Some(response) => match r {
                        Ok(handle) => open_result(response) == Ok::<Seq<u8>, SftpErrorView>(
                            handle@,
                        ),
                        Err(e) => open_result(response) == Err::<Seq<u8>, SftpErrorView>(e@),
                    },
                    None => r matches Err(e) && e@ == final(self).protocol.trace@.failures.last(),
                }
                &&& match r {
                    Ok(handle) => final(self).handles@ == old(self).handles@.insert(
                        path@,
                        final(self).handles@[path@],
                    ) && final(self).handles@[path@]@ == handle@,
                    Err(_) => final(self).handles == old(self).handles,
                }
            },
    {
        match self.handles.get(path) {
            Some(handle) => {
                return Ok(vstd::slice::slice_to_vec(handle.as_slice()));
            },
            None => {},
        }
        let handle = self.protocol.open(path, SSH_FXF_READ)?;
        let kept = vstd::slice::slice_to_vec(handle.as_slice());
        self.handles.insert(String::from_str(path), kept);
        Ok(handle)
    }

    /// Downloads the file at `remote_path` and hands out its content.
    pub fn get_file(&mut self, remote_path: &str) -> (r: Result<Vec<u8>, SftpError>)
        ensures
            file_fetched(
                *old(self),
                *final(self),
                remote_path@,
                content_view(r),
            ),
    {
        let ghost t0 = self.protocol.trace@;
        let target = self.resolve_path(remote_path);
        let ghost held = self.handles@.contains_key(target@);
        proof {
            lemma_extends_self(t0.sent);
            lemma_extends_self(t0.received);
            lemma_extends_self(t0.ids);
            lemma_extends_self(t0.failures);
        }
        let opened = self.get_file_handle(target.as_str());
        let ghost t1 = self.protocol.trace@;
        let ghost open = ClientPacketView::Open {
            request_id: t1.ids.last(),
            path: target@,
            pflags: SSH_FXF_READ,
            attrs: attributes_of(None, None, None),
        };
        proof {
            if !held {
                lemma_one_exchange(t0, t1, open);
                lemma_one_allocation(t0, t1);
            }
        }
        let handle = match opened {
            Ok(handle) => handle,
            Err(e) => {
                return Err(e);
            },
        };
        let outcome = self.protocol.read(handle.as_slice());
        proof {
            let t2 = self.protocol.trace@;
            if !held {
                lemma_since_chain(t0.sent, t1.sent, t2.sent);
                lemma_since_chain(t0.received, t1.received, t2.received);
                lemma_since_chain(t0.ids, t1.ids, t2.ids);
                lemma_since_chain(t0.failures, t1.failures, t2.failures);
                assert(since(t0.failures, t2.failures) =~= since(t1.failures, t2.failures));
                assert(since(t0.sent, t2.sent).skip(1) =~= since(t1.sent, t2.sent));
                assert(since(t0.received, t2.received).skip(1) =~= since(
                    t1.received,
                    t2.received,
                ));
                assert(since(t0.ids, t2.ids).skip(1) =~= since(t1.ids, t2.ids));
                assert(self.handles@.dom() =~= old(self).handles@.dom().insert(target@));
            }
        }
        outcome
    }

    /// The lines that show the listing on show: the display name of each entry.
    pub fn listing_lines(&self) -> (lines: Vec<String>)
        ensures
            lines_view(lines@) == display_lines(files_view(self.current_listing@)),
    {
        let mut lines: Vec<String> = Vec::new();
        let mut i: usize = 0;
        while i < self.current_listing.len()
            invariant
                i <= self.current_listing.len(),
                lines.len() == i,
                forall|j: int| 0 <= j < i ==> lines[j]@ == self.current_listing[j].display_name@,
            decreases self.current_listing.len() - i,
        {
            lines.push(self.current_listing[i].display_name.clone());
            i += 1;
        }
        assert(lines_view(lines@) =~= display_lines(files_view(self.current_listing@)));
        lines
    }

    /// Carries out one command and says what is left for the caller to do.
    pub fn execute_command(&mut self, cmd: &SftpCommand) -> (r: Result<CommandOutput, SftpError>)
        ensures
            command_executed(*old(self), *final(self), *cmd, r),
    {
        match cmd {
            SftpCommand::Ls { path } => {
                let target = match path {
                    Some(p) => Some(p.as_str()),
                    None => None,
                };
                self.list_directory(target)?;
                Ok(CommandOutput { result: true, lines: self.listing_lines(), data: None })
            },
            SftpCommand::Cd { path } => {
                let target = match path {
                    Some(p) => Some(p.as_str()),
                    None => None,
                };
                self.change_directory(target)?;
                Ok(CommandOutput { result: true, lines: Vec::new(), data: None })
            },
            SftpCommand::Pwd => {
                let mut lines: Vec<String> = Vec::new();
                lines.push(self.working_dir.clone());
                assert(lines_view(lines@) =~= seq![self.working_dir@]);
                Ok(CommandOutput { result: true, lines, data: None })
            },
            SftpCommand::Get { remote_path, .. } => {
                let content = self.get_file(remote_path.as_str())?;
                Ok(CommandOutput { result: true, lines: Vec::new(), data: Some(content) })
            },
            SftpCommand::Put { .. } => Err(SftpError::InvalidCommand("Upload is not supported")),
            SftpCommand::Help => {
                let mut lines: Vec<String> = Vec::new();
                lines.push(
                    String::from_str(
                        "Available commands:\nls - list files in current directory\ncd - change current directory\nget - download file\nput - upload file\nbye - exit",
                    ),
                );
                assert(lines_view(lines@) =~= seq![help_text()]);
                Ok(CommandOutput { result: true, lines, data: None })
            },
            SftpCommand::Bye => Ok(CommandOutput { result: false, lines: Vec::new(), data: None }),
        }
    }
}

} // verus!
