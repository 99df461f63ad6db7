//! Readers of wire data: the capability the decoder reads through, and the
//! reader over a byte buffer.

use super::attributes::{parse_file_attributes, spec_parse_attrs};
use super::error::{ClientCause, SftpError, SftpErrorView};
use super::types::FileAttributes;
use super::wire::{i64_from_be, long_word, u32_from_be, u64_from_be, word};
use vstd::prelude::*;

verus! {

/// The error every reader gives when fewer bytes remain than were asked for.
pub open spec fn short_read_error() -> SftpErrorView {
    SftpErrorView::ClientError(ClientCause::UnexpectedEof)
}

/// The content of the string field at the front of `s`, if `s` holds all of it.
pub open spec fn string_at(s: Seq<u8>) -> Option<Seq<u8>> {
    if s.len() >= 4 && s.len() >= 4 + u32_from_be(s) {
        Some(s.subrange(4, 4 + u32_from_be(s)))
    } else {
        None
    }
}

/// A source of wire data, read front to back.
///
/// `remaining` is what the source has yet to give. A read that succeeds hands
/// out the front of it and leaves the rest. A `reliable` source fails only
/// where fewer bytes remain than the read needs, and then with a short read;
/// any other source may also fail for reasons of its own.
pub trait SftpReader {
    spec fn remaining(&self) -> Seq<u8>;

    spec fn reliable(&self) -> bool;

    fn read_u8(&mut self) -> (r: Result<u8, SftpError>)
        ensures
            final(self).reliable() == old(self).reliable(),
            r matches Ok(v) ==> old(self).remaining().len() >= 1 && v == old(self).remaining()[0]
                && final(self).remaining() == old(self).remaining().skip(1),
            old(self).reliable() ==> (r is Ok <==> old(self).remaining().len() >= 1),
            old(self).reliable() ==> (r matches Err(e) ==> e@ == short_read_error()),
    ;

    fn read_u32(&mut self) -> (r: Result<u32, SftpError>)
        ensures
            final(self).reliable() == old(self).reliable(),
            r matches Ok(v) ==> old(self).remaining().len() >= 4 && v == u32_from_be(
                old(self).remaining(),
            ) && final(self).remaining() == old(self).remaining().skip(4),
            old(self).reliable() ==> (r is Ok <==> old(self).remaining().len() >= 4),
            old(self).reliable() ==> (r matches Err(e) ==> e@ == short_read_error()),
    ;

    fn read_u64(&mut self) -> (r: Result<u64, SftpError>)
        ensures
            final(self).reliable() == old(self).reliable(),
            r matches Ok(v) ==> old(self).remaining().len() >= 8 && v == u64_from_be(
                old(self).remaining(),
            ) && final(self).remaining() == old(self).remaining().skip(8),
            old(self).reliable() ==> (r is Ok <==> old(self).remaining().len() >= 8),
            old(self).reliable() ==> (r matches Err(e) ==> e@ == short_read_error()),
    ;

    fn read_i64(&mut self) -> (r: Result<i64, SftpError>)
        ensures
            final(self).reliable() == old(self).reliable(),
            r matches Ok(v) ==> old(self).remaining().len() >= 8 && v == i64_from_be(
                old(self).remaining(),
            ) && final(self).remaining() == old(self).remaining().skip(8),
            old(self).reliable() ==> (r is Ok <==> old(self).remaining().len() >= 8),
            old(self).reliable() ==> (r matches Err(e) ==> e@ == short_read_error()),
    ;

    /// Reads a string field: its length, then that many bytes.
    fn read_string(&mut self) -> (r: Result<Vec<u8>, SftpError>)
        ensures
            final(self).reliable() == old(self).reliable(),
            r matches Ok(v) ==> string_at(old(self).remaining()) == Some(v@) && final(self).remaining() == old(self).remaining().skip(4 + v@.len() as int),
            old(self).reliable() ==> (r is Ok <==> string_at(old(self).remaining()) is Some),
            old(self).reliable() ==> (r matches Err(e) ==> e@ == short_read_error()),
    ;

    /// Reads `count` bytes as they are.
    fn read_bytes(&mut self, count: usize) -> (r: Result<Vec<u8>, SftpError>)
        ensures
            final(self).reliable() == old(self).reliable(),
            r matches Ok(v) ==> old(self).remaining().len() >= count && v@ == old(self).remaining().subrange(0, count as int) && final(self).remaining() == old(self).remaining().skip(count as int),
            old(self).reliable() ==> (r is Ok <==> old(self).remaining().len() >= count),
            old(self).reliable() ==> (r matches Err(e) ==> e@ == short_read_error()),
    ;

    /// Reads `bytes` bytes and throws them away.
    fn discard(&mut self, bytes: &usize) -> (r: Result<(), SftpError>)
        ensures
            final(self).reliable() == old(self).reliable(),
            r is Ok ==> old(self).remaining().len() >= *bytes && final(self).remaining() == old(self).remaining().skip(*bytes as int),
            old(self).reliable() ==> (r is Ok <==> old(self).remaining().len() >= *bytes),
            old(self).reliable() ==> (r matches Err(e) ==> e@ == short_read_error()),
    ;
}

/// A reader over a byte buffer. It never fails but for want of bytes, and a
/// failed read consumes nothing.
pub struct BufferReader<'a> {
    data: &'a [u8],
    position: usize,
}

impl<'a> BufferReader<'a> {
    #[verifier::type_invariant]
    spec fn in_bounds(self) -> bool {
        self.position <= self.data@.len()
    }

    /// A reader at the front of `data`.
    pub fn new(data: &'a [u8]) -> (r: Self)
        ensures
            r.remaining() == data@,
            r.reliable(),
    {
        let r = BufferReader { data, position: 0 };
        assert(data@.skip(0) =~= data@);
        r
    }

    /// What remains is the buffer from the position on.
    proof fn remaining_is_suffix(self)
        requires
            self.position <= self.data@.len(),
        ensures
            self.remaining() == self.data@.skip(self.position as int),
            self.remaining().len() == self.data@.len() - self.position,
    {
    }

    /// How many bytes are left.
    pub fn available(&self) -> (n: usize)
        ensures
            n == self.remaining().len(),
    {
        proof {
            use_type_invariant(self);
        }
        self.data.len() - self.position
    }

    /// Reads the fields of an attribute block whose presence bits are
    /// `flags`, and says how many bytes they took.
    pub fn parse_file_attributes(&mut self, flags: &u32) -> (r: Result<
        (usize, FileAttributes),
        SftpError,
    >)
        ensures
            match r {
                Ok((n, attrs)) => spec_parse_attrs(*flags, old(self).remaining()) == Some(
                    (attrs, n as nat),
                ) && n <= old(self).remaining().len() && final(self).remaining() == old(self).remaining().skip(n as int),
                Err(e) => spec_parse_attrs(*flags, old(self).remaining()) is None && e@
                    == short_read_error(),
            },
    {
        // What is left to read is no longer than the buffer, which fits `usize`.
        let _left = self.available();
        parse_file_attributes(self, flags)
    }

    /// The number spelled by the four bytes at `p`, most significant first.
    fn word_at(&self, p: usize) -> (v: u32)
        requires
            p + 4 <= self.data@.len(),
        ensures
            v == u32_from_be(self.data@.skip(p as int)),
    {
        proof {
            reveal(word);
        }
        let v = (self.data[p] as u32) * 0x100_0000 + (self.data[p + 1] as u32) * 0x1_0000 + (
        self.data[p + 2] as u32) * 0x100 + (self.data[p + 3] as u32);
        v
    }

    /// The number spelled by the eight bytes at the position, if they are there.
    fn long_here(&self) -> (r: Option<u64>)
        ensures
            r is Some <==> self.remaining().len() >= 8,
            r matches Some(v) ==> v == u64_from_be(self.remaining()),
    {
        proof {
            use_type_invariant(self);
        }
        if self.data.len() - self.position < 8 {
            return None;
        }
        let p = self.position;
        let high = self.word_at(p);
        let low = self.word_at(p + 4);
        assert(self.data@.skip(p as int).skip(4) =~= self.data@.skip(p + 4));
        proof {
            reveal(long_word);
        }
        Some((high as u64) * 0x1_0000_0000 + (low as u64))
    }

    /// Copies `count` bytes from the position and moves past them.
    fn take(&mut self, count: usize) -> (v: Vec<u8>)
        requires
            old(self).remaining().len() >= count,
        ensures
            v@ == old(self).remaining().subrange(0, count as int),
            final(self).remaining() == old(self).remaining().skip(count as int),
    {
        proof {
            use_type_invariant(&*self);
            self.remaining_is_suffix();
        }
        let start = self.position;
        let total = self.data.len();
        let mut v: Vec<u8> = Vec::new();
        let mut i: usize = 0;
        while i < count
            invariant
                i <= count,
                start + count <= self.data@.len() == total,
                self.position == start,
                v@ == self.data@.subrange(start as int, start + i),
            decreases count - i,
        {
            v.push(self.data[start + i]);
            i += 1;
            assert(v@ =~= self.data@.subrange(start as int, start + i));
        }
        self.position = start + count;
        assert(v@ =~= old(self).remaining().subrange(0, count as int));
        assert(self.data@.skip(start + count) =~= old(self).remaining().skip(count as int));
        v
    }
}

impl<'a> SftpReader for BufferReader<'a> {
    closed spec fn remaining(&self) -> Seq<u8> {
        self.data@.skip(self.position as int)
    }

    open spec fn reliable(&self) -> bool {
        true
    }

    fn read_u8(&mut self) -> (r: Result<u8, SftpError>)
        ensures
            r is Err ==> final(self).remaining() == old(self).remaining(),
    {
        proof {
            use_type_invariant(&*self);
        }
        if self.position >= self.data.len() {
            return Err(SftpError::short_read());
        }
        let byte = self.data[self.position];
        self.position = self.position + 1;
        assert(self.data@.skip(self.position as int) =~= old(self).remaining().skip(1));
        Ok(byte)
    }

    fn read_u32(&mut self) -> (r: Result<u32, SftpError>)
        ensures
            r is Err ==> final(self).remaining() == old(self).remaining(),
    {
        proof {
            use_type_invariant(&*self);
        }
        if self.data.len() - self.position < 4 {
            return Err(SftpError::short_read());
        }
        let v = self.word_at(self.position);
        self.position = self.position + 4;
        assert(self.data@.skip(self.position as int) =~= old(self).remaining().skip(4));
        Ok(v)
    }

    fn read_u64(&mut self) -> (r: Result<u64, SftpError>)
        ensures
            r is Err ==> final(self).remaining() == old(self).remaining(),
    {
        proof {
            use_type_invariant(&*self);
            self.remaining_is_suffix();
        }
        // What is left to read is no longer than the buffer, which fits `usize`.
        let _total = self.data.len();
        match self.long_here() {
            Some(v) => {
                self.position = self.position + 8;
                assert(self.data@.skip(self.position as int) =~= old(self).remaining().skip(8));
                Ok(v)
            },
            None => Err(SftpError::short_read()),
        }
    }

    fn read_i64(&mut self) -> (r: Result<i64, SftpError>)
        ensures
            r is Err ==> final(self).remaining() == old(self).remaining(),
    {
        proof {
            use_type_invariant(&*self);
            self.remaining_is_suffix();
        }
        // What is left to read is no longer than the buffer, which fits `usize`.
        let _total = self.data.len();
        match self.long_here() {
            Some(u) => {
                self.position = self.position + 8;
                assert(self.data@.skip(self.position as int) =~= old(self).remaining().skip(8));
                if u < 0x8000_0000_0000_0000 {
                    Ok(u as i64)
                } else {
                    let low: i64 = (u - 0x8000_0000_0000_0000) as i64;
                    Ok(low + i64::MIN)
                }
            },
            None => Err(SftpError::short_read()),
        }
    }

    fn read_string(&mut self) -> (r: Result<Vec<u8>, SftpError>)
        ensures
            r is Err ==> final(self).remaining() == old(self).remaining(),
    {
        proof {
            use_type_invariant(&*self);
        }
        if self.data.len() - self.position < 4 {
            return Err(SftpError::short_read());
        }
        let len = self.word_at(self.position) as usize;
        if self.data.len() - self.position - 4 < len {
            return Err(SftpError::short_read());
        }
        self.position = self.position + 4;
        assert(self.remaining() =~= old(self).remaining().skip(4));
        let v = self.take(len);
        assert(v@ =~= old(self).remaining().subrange(4, 4 + len));
        assert(self.remaining() =~= old(self).remaining().skip(4 + len));
        Ok(v)
    }

    fn read_bytes(&mut self, count: usize) -> (r: Result<Vec<u8>, SftpError>)
        ensures
            r is Err ==> final(self).remaining() == old(self).remaining(),
    {
        proof {
            use_type_invariant(&*self);
        }
        if self.data.len() - self.position < count {
            return Err(SftpError::short_read());
        }
        Ok(self.take(count))
    }

    fn discard(&mut self, bytes: &usize) -> (r: Result<(), SftpError>)
        ensures
            r is Err ==> final(self).remaining() == old(self).remaining(),
    {
        proof {
            use_type_invariant(&*self);
        }
        if self.data.len() - self.position < *bytes {
            return Err(SftpError::short_read());
        }
        self.position = self.position + *bytes;
        assert(self.data@.skip(self.position as int) =~= old(self).remaining().skip(
            *bytes as int,
        ));
        Ok(())
    }
}

} // verus!
