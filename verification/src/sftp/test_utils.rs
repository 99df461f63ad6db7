//! In-memory doubles: a byte stream that can be told to fail, and a transport
//! that plays a script of responses.

use super::attributes::{parse_file_attributes, spec_parse_attrs};
use super::error::{ClientCause, SftpError, SftpErrorView};
use super::packet::{request_type, ClientPacket, ServerPacket, SftpPacketInfo};
use super::reader::{short_read_error, string_at, SftpReader};
use super::session::TransportLayer;
use super::types::FileAttributes;
use super::wire::{
    add_raw, be_u32, i64_from_be, lemma_skip_skip, long_word, string_field, u32_from_be,
    u64_from_be, word,
};
use std::collections::VecDeque;
use vstd::prelude::*;
use vstd::utf8::encode_utf8;

verus! {

/// The error that a double gives when it was told to fail.
pub open spec fn injected_failure() -> SftpErrorView {
    SftpErrorView::ClientError(ClientCause::InjectedFailure)
}

/// A byte stream in memory. What is pushed to `read_data` is read from its
/// front; what is written is kept in `written_data`. With `should_fail` set,
/// writes fail, and so do the reads of one byte, of four bytes and of a
/// string.
pub struct MockSession {
    pub read_data: VecDeque<u8>,
    pub written_data: Vec<u8>,
    pub should_fail: bool,
}

impl MockSession {
    /// An empty stream that does not fail.
    pub fn new() -> (r: Self)
        ensures
            r.read_data@ == Seq::<u8>::empty(),
            r.written_data@ == Seq::<u8>::empty(),
            !r.should_fail,
    {
        MockSession { read_data: VecDeque::new(), written_data: Vec::new(), should_fail: false }
    }

    /// The same stream with `data` to read, in place of what it had.
    pub fn with_read_data(self, data: Vec<u8>) -> (r: Self)
        ensures
            r.read_data@ == data@,
            r.written_data@ == self.written_data@,
            r.should_fail == self.should_fail,
    {
        let mut r = MockSession {
            read_data: VecDeque::new(),
            written_data: self.written_data,
            should_fail: self.should_fail,
        };
        r.push_read_data(data.as_slice());
        assert(r.read_data@ =~= data@);
        r
    }

    /// The same stream, told to fail.
    pub fn with_failure(self) -> (r: Self)
        ensures
            r.read_data@ == self.read_data@,
            r.written_data@ == self.written_data@,
            r.should_fail,
    {
        MockSession { read_data: self.read_data, written_data: self.written_data, should_fail: true }
    }

    /// Puts `data` behind what is there to read.
    pub fn push_read_data(&mut self, data: &[u8])
        ensures
            final(self).read_data@ == old(self).read_data@ + data@,
            final(self).written_data@ == old(self).written_data@,
            final(self).should_fail == old(self).should_fail,
    {
        let mut i: usize = 0;
        while i < data.len()
            invariant
                i <= data.len(),
                self.read_data@ == old(self).read_data@ + data@.take(i as int),
                self.written_data@ == old(self).written_data@,
                self.should_fail == old(self).should_fail,
            decreases data.len() - i,
        {
            self.read_data.push_back(data[i]);
            i += 1;
            assert(self.read_data@ =~= old(self).read_data@ + data@.take(i as int));
        }
        assert(data@.take(i as int) =~= data@);
    }

    /// Puts the four bytes of `value` behind what is there to read.
    pub fn push_u32(&mut self, value: u32)
        ensures
            final(self).read_data@ == old(self).read_data@ + be_u32(value),
            final(self).written_data@ == old(self).written_data@,
            final(self).should_fail == old(self).should_fail,
    {
        let mut bytes: Vec<u8> = Vec::new();
        super::wire::add_u32(&mut bytes, value);
        assert(bytes@ =~= be_u32(value));
        self.push_read_data(bytes.as_slice());
    }

    /// Puts `s` as a string field behind what is there to read.
    pub fn push_string(&mut self, s: &str)
        ensures
            final(self).read_data@ == old(self).read_data@ + string_field(encode_utf8(s@)),
            final(self).written_data@ == old(self).written_data@,
            final(self).should_fail == old(self).should_fail,
    {
        let mut bytes: Vec<u8> = Vec::new();
        super::wire::add_string(&mut bytes, s);
        assert(bytes@ =~= string_field(encode_utf8(s@)));
        self.push_read_data(bytes.as_slice());
    }

    /// Takes `count` bytes from the front of what is there to read.
    fn take_front(&mut self, count: usize) -> (v: Vec<u8>)
        requires
            count <= old(self).read_data@.len(),
        ensures
            v@ == old(self).read_data@.take(count as int),
            final(self).read_data@ == old(self).read_data@.skip(count as int),
            final(self).written_data@ == old(self).written_data@,
            final(self).should_fail == old(self).should_fail,
    {
        let mut v: Vec<u8> = Vec::new();
        let mut i: usize = 0;
        assert(self.read_data@.skip(0) =~= self.read_data@);
        while i < count
            invariant
                i <= count <= old(self).read_data@.len(),
                v@ == old(self).read_data@.take(i as int),
                self.read_data@ == old(self).read_data@.skip(i as int),
                self.written_data@ == old(self).written_data@,
                self.should_fail == old(self).should_fail,
            decreases count - i,
        {
            match self.read_data.pop_front() {
                Some(byte) => {
                    v.push(byte);
                },
                None => {},
            }
            i += 1;
            assert(v@ =~= old(self).read_data@.take(i as int));
            assert(self.read_data@ =~= old(self).read_data@.skip(i as int));
        }
        v
    }

    /// The number spelled by the first four bytes of `bytes`.
    fn word_of(bytes: &Vec<u8>, at: usize) -> (v: u32)
        requires
            at + 4 <= bytes.len(),
        ensures
            v == u32_from_be(bytes@.skip(at as int)),
    {
        proof {
            reveal(word);
        }
        (bytes[at] as u32) * 0x100_0000 + (bytes[at + 1] as u32) * 0x1_0000 + (bytes[at
            + 2] as u32) * 0x100 + (bytes[at + 3] as u32)
    }

    /// Writes `data` behind what was written.
    pub fn write_all(&mut self, data: &[u8]) -> (r: Result<(), SftpError>)
        ensures
            r is Ok <==> !old(self).should_fail,
            r matches Err(e) ==> e@ == injected_failure(),
            final(self).written_data@ == if old(self).should_fail {
                old(self).written_data@
            } else {
                old(self).written_data@ + data@
            },
            final(self).read_data@ == old(self).read_data@,
            final(self).should_fail == old(self).should_fail,
    {
        if self.should_fail {
            return Err(SftpError::ClientError(ClientCause::InjectedFailure));
        }
        add_raw(&mut self.written_data, data);
        Ok(())
    }

    /// Does nothing: what is written is kept at once.
    pub fn flush(&mut self) -> (r: Result<(), SftpError>)
        ensures
            r is Ok,
            *final(self) == *old(self),
    {
        Ok(())
    }

    /// What was written so far.
    pub fn get_written_data(&self) -> (data: &[u8])
        ensures
            data@ == self.written_data@,
    {
        self.written_data.as_slice()
    }

    /// Forgets what was written.
    pub fn clear_written_data(&mut self)
        ensures
            final(self).written_data@ == Seq::<u8>::empty(),
            final(self).read_data@ == old(self).read_data@,
            final(self).should_fail == old(self).should_fail,
    {
        self.written_data.clear();
    }

    /// Reads the fields of an attribute block whose presence bits are
    /// `flags`, and says how many bytes they took.
    pub fn parse_file_attributes(&mut self, flags: &u32) -> (r: Result<
        (usize, FileAttributes),
        SftpError,
    >)
        ensures
            final(self).should_fail == old(self).should_fail,
            r matches Ok((n, attrs)) ==> spec_parse_attrs(*flags, old(self).read_data@) == Some(
                (attrs, n as nat),
            ) && final(self).read_data@ == old(self).read_data@.skip(n as int),
            !old(self).should_fail ==> (r is Ok <==> spec_parse_attrs(
                *flags,
                old(self).read_data@,
            ) is Some),
            !old(self).should_fail ==> (r matches Err(e) ==> e@ == short_read_error()),
    {
        // What is left to read is no longer than the buffer, which fits `usize`.
        let _available = self.read_data.len();
        parse_file_attributes(self, flags)
    }

    /// Reads one byte.
    pub fn read_u8(&mut self) -> (r: Result<u8, SftpError>)
        ensures
            final(self).should_fail == old(self).should_fail,
            final(self).written_data@ == old(self).written_data@,
            r is Ok <==> !old(self).should_fail && old(self).read_data@.len() >= 1,
            r matches Ok(v) ==> v == old(self).read_data@[0] && final(self).read_data@ == old(self).read_data@.skip(1),
            r matches Err(e) ==> final(self).read_data@ == old(self).read_data@ && e@ == if old(self).should_fail {
                injected_failure()
            } else {
                short_read_error()
            },
    {
        if self.should_fail {
            return Err(SftpError::ClientError(ClientCause::InjectedFailure));
        }
        match self.read_data.pop_front() {
            Some(byte) => {
                assert(self.read_data@ =~= old(self).read_data@.skip(1));
                Ok(byte)
            },
            None => Err(SftpError::short_read()),
        }
    }

    /// Reads four bytes as a number, most significant byte first.
    pub fn read_u32(&mut self) -> (r: Result<u32, SftpError>)
        ensures
            final(self).should_fail == old(self).should_fail,
            final(self).written_data@ == old(self).written_data@,
            r is Ok <==> !old(self).should_fail && old(self).read_data@.len() >= 4,
            r matches Ok(v) ==> v == u32_from_be(old(self).read_data@) && final(self).read_data@
                == old(self).read_data@.skip(4),
            r matches Err(e) ==> final(self).read_data@ == old(self).read_data@ && e@ == if old(self).should_fail {
                injected_failure()
            } else {
                short_read_error()
            },
    {
        if self.should_fail {
            return Err(SftpError::ClientError(ClientCause::InjectedFailure));
        }
        if self.read_data.len() < 4 {
            return Err(SftpError::short_read());
        }
        let bytes = self.take_front(4);
        assert(bytes@.skip(0) =~= bytes@);
        Ok(Self::word_of(&bytes, 0))
    }

    /// Reads a string field: its length, then that many bytes. The length is
    /// read even where the bytes are not all there.
    pub fn read_string(&mut self) -> (r: Result<Vec<u8>, SftpError>)
        ensures
            final(self).should_fail == old(self).should_fail,
            final(self).written_data@ == old(self).written_data@,
            r is Ok <==> !old(self).should_fail && string_at(old(self).read_data@) is Some,
            r matches Ok(v) ==> string_at(old(self).read_data@) == Some(v@) && final(self).read_data@ == old(self).read_data@.skip(4 + v@.len() as int),
            r matches Err(e) ==> e@ == if old(self).should_fail {
                injected_failure()
            } else {
                short_read_error()
            },
    {
        let len = self.read_u32()? as usize;
        if self.read_data.len() < len {
            return Err(SftpError::short_read());
        }
        let bytes = self.take_front(len);
        proof {
            lemma_skip_skip(old(self).read_data@, 4, len as int);
            assert(bytes@ =~= old(self).read_data@.subrange(4, 4 + len));
        }
        Ok(bytes)
    }

    /// The number spelled by the first eight bytes of what is there to read,
    /// which are taken, if they are there. This read does not fail on demand.
    pub fn read_u64(&mut self) -> (r: Result<u64, SftpError>)
        ensures
            final(self).should_fail == old(self).should_fail,
            final(self).written_data@ == old(self).written_data@,
            r is Ok <==> old(self).read_data@.len() >= 8,
            r matches Ok(v) ==> v == u64_from_be(old(self).read_data@) && final(self).read_data@
                == old(self).read_data@.skip(8),
            r matches Err(e) ==> final(self).read_data@ == old(self).read_data@ && e@
                == short_read_error(),
    {
        if self.read_data.len() < 8 {
            return Err(SftpError::short_read());
        }
        let bytes = self.take_front(8);
        assert(bytes@.skip(0) =~= bytes@);
        let high = Self::word_of(&bytes, 0);
        let low = Self::word_of(&bytes, 4);
        proof {
            reveal(long_word);
        }
        Ok((high as u64) * 0x1_0000_0000 + (low as u64))
    }

    /// The signed number spelled by the first eight bytes of what is there to
    /// read, which are taken, if they are there. This read does not fail on
    /// demand.
    pub fn read_i64(&mut self) -> (r: Result<i64, SftpError>)
        ensures
            final(self).should_fail == old(self).should_fail,
            final(self).written_data@ == old(self).written_data@,
            r is Ok <==> old(self).read_data@.len() >= 8,
            r matches Ok(v) ==> v == i64_from_be(old(self).read_data@) && final(self).read_data@
                == old(self).read_data@.skip(8),
            r matches Err(e) ==> final(self).read_data@ == old(self).read_data@ && e@
                == short_read_error(),
    {
        let u = self.read_u64()?;
        if u < 0x8000_0000_0000_0000 {
            Ok(u as i64)
        } else {
            let low: i64 = (u - 0x8000_0000_0000_0000) as i64;
            Ok(low + i64::MIN)
        }
    }

    /// Takes `bytes` bytes from the front of what is there to read and throws
    /// them away. This read does not fail on demand.
    pub fn discard(&mut self, bytes: &usize) -> (r: Result<(), SftpError>)
        ensures
            final(self).should_fail == old(self).should_fail,
            final(self).written_data@ == old(self).written_data@,
            r is Ok <==> old(self).read_data@.len() >= *bytes,
            r is Ok ==> final(self).read_data@ == old(self).read_data@.skip(*bytes as int),
            r matches Err(e) ==> final(self).read_data@ == old(self).read_data@ && e@
                == short_read_error(),
    {
        if self.read_data.len() < *bytes {
            return Err(SftpError::short_read());
        }
        let _gone = self.take_front(*bytes);
        Ok(())
    }
}

impl SftpReader for MockSession {
    open spec fn remaining(&self) -> Seq<u8> {
        self.read_data@
    }

    open spec fn reliable(&self) -> bool {
        !self.should_fail
    }

    fn read_u8(&mut self) -> (r: Result<u8, SftpError>) {
        MockSession::read_u8(self)
    }

    fn read_u32(&mut self) -> (r: Result<u32, SftpError>) {
        MockSession::read_u32(self)
    }

    fn read_u64(&mut self) -> (r: Result<u64, SftpError>) {
        MockSession::read_u64(self)
    }

    fn read_i64(&mut self) -> (r: Result<i64, SftpError>) {
        MockSession::read_i64(self)
    }

    fn read_string(&mut self) -> (r: Result<Vec<u8>, SftpError>) {
        MockSession::read_string(self)
    }

    fn read_bytes(&mut self, count: usize) -> (r: Result<Vec<u8>, SftpError>) {
        if self.read_data.len() < count {
            return Err(SftpError::short_read());
        }
        Ok(self.take_front(count))
    }

    fn discard(&mut self, bytes: &usize) -> (r: Result<(), SftpError>) {
        MockSession::discard(self, bytes)
    }
}

/// The request id that follows `id`. Ids count up and start over only after
/// the last one that fits 32 bits.
pub open spec fn following_id(id: u32) -> u32 {
    if id == u32::MAX {
        0
    } else {
        (id + 1) as u32
    }
}

/// A transport that plays a script. Each request that is sent is held
/// against the next expected request, if one is left, by its type, and kept
/// in `requests`. Each receive hands out the next response of the script.
/// Request ids count up from `request_id_counter`.
pub struct MockTransport {
    pub expected_requests: VecDeque<ClientPacket>,
    pub responses: VecDeque<ServerPacket>,
    pub request_id_counter: u32,
    /// The requests that were accepted, oldest first.
    pub requests: Vec<ClientPacket>,
}

impl MockTransport {
    /// A transport with an empty script, whose first request id is 0.
    pub fn new() -> (r: Self)
        ensures
            r.expected_requests@.len() == 0,
            r.responses@.len() == 0,
            r.request_id_counter == 0,
            r.requests@.len() == 0,
    {
        MockTransport {
            expected_requests: VecDeque::new(),
            responses: VecDeque::new(),
            request_id_counter: 0,
            requests: Vec::new(),
        }
    }

    /// The same transport, with `packet` expected after what is expected already.
    pub fn expect_request(self, packet: ClientPacket) -> (r: Self)
        ensures
            r.expected_requests@ == self.expected_requests@.push(packet),
            r.responses@ == self.responses@,
            r.request_id_counter == self.request_id_counter,
            r.requests@ == self.requests@,
    {
        let mut r = self;
        r.expected_requests.push_back(packet);
        r
    }

    /// The same transport, with `response` to hand out after the responses
    /// that it holds already.
    pub fn respond_with(self, response: ServerPacket) -> (r: Self)
        ensures
            r.responses@ == self.responses@.push(response),
            r.expected_requests@ == self.expected_requests@,
            r.request_id_counter == self.request_id_counter,
            r.requests@ == self.requests@,
    {
        let mut r = self;
        r.responses.push_back(response);
        r
    }
}

impl TransportLayer for MockTransport {
    /// Accepts `packet` unless the script expects a request of another type.
    /// The expected request is used up either way.
    fn send_packet(&mut self, packet: ClientPacket) -> (r: Result<(), SftpError>)
        ensures
            r is Ok <==> (old(self).expected_requests@.len() == 0 || request_type(
                old(self).expected_requests@[0]@,
            ) == request_type(packet@)),
            r matches Err(e) ==> e@ == SftpErrorView::UnexpectedPacket(
                "Request does not match the script"@,
            ),
            final(self).requests@ == if r is Ok {
                old(self).requests@.push(packet)
            } else {
                old(self).requests@
            },
            final(self).expected_requests@ == if old(self).expected_requests@.len() == 0 {
                old(self).expected_requests@
            } else {
                old(self).expected_requests@.skip(1)
            },
            final(self).responses@ == old(self).responses@,
            final(self).request_id_counter == old(self).request_id_counter,
    {
        match self.expected_requests.pop_front() {
            Some(expected) => {
                assert(self.expected_requests@ =~= old(self).expected_requests@.skip(1));
                if expected.packet_type() != packet.packet_type() {
                    return Err(SftpError::UnexpectedPacket("Request does not match the script"));
                }
            },
            None => {},
        }
        self.requests.push(packet);
        Ok(())
    }

    /// Hands out the next response of the script, as long as there is one.
    fn receive_packet(&mut self) -> (r: Result<ServerPacket, SftpError>)
        ensures
            r is Ok <==> old(self).responses@.len() > 0,
            r matches Ok(packet) ==> packet == old(self).responses@[0] && final(self).responses@
                == old(self).responses@.skip(1),
            r matches Err(e) ==> e@ == SftpErrorView::ClientError(
                ClientCause::NoMoreResponses,
            ) && final(self).responses@ == old(self).responses@,
            final(self).expected_requests@ == old(self).expected_requests@,
            final(self).requests@ == old(self).requests@,
            final(self).request_id_counter == old(self).request_id_counter,
    {
        match self.responses.pop_front() {
            Some(packet) => {
                assert(self.responses@ =~= old(self).responses@.skip(1));
                Ok(packet)
            },
            None => Err(SftpError::ClientError(ClientCause::NoMoreResponses)),
        }
    }

    /// Gives out the counter and counts one up.
    fn next_request_id(&mut self) -> (id: u32)
        ensures
            id == old(self).request_id_counter,
            final(self).request_id_counter == following_id(id),
            final(self).expected_requests@ == old(self).expected_requests@,
            final(self).responses@ == old(self).responses@,
            final(self).requests@ == old(self).requests@,
    {
        let id = self.request_id_counter;
        if id == u32::MAX {
            self.request_id_counter = 0;
        } else {
            self.request_id_counter = id + 1;
        }
        id
    }
}

} // verus!
