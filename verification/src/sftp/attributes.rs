//! The attribute block of the wire format, read from any reader.

use super::constants::{
    SSH_FILEXFER_ATTR_ACMODTIME, SSH_FILEXFER_ATTR_EXTENDED, SSH_FILEXFER_ATTR_PERMISSIONS,
    SSH_FILEXFER_ATTR_SIZE, SSH_FILEXFER_ATTR_UIDGID,
};
use super::error::SftpError;
use super::reader::{short_read_error, string_at, SftpReader};
use super::types::{attributes_of, FileAttributes};
use super::wire::{lemma_skip_skip, u32_from_be, u64_from_be};
use vstd::prelude::*;

verus! {

/// Whether the presence bits `flags` hold `bit`.
pub open spec fn has_flag(flags: u32, bit: u32) -> bool {
    flags & bit != 0
}

/// The bytes that `k` string fields in a row take at the front of `s`, if `s`
/// holds all of them.
pub open spec fn strings_len(s: Seq<u8>, k: nat) -> Option<nat>
    decreases k,
{
    if k == 0 {
        Some(0)
    } else {
        match strings_len(s, (k - 1) as nat) {
            Some(n) => match string_at(s.skip(n as int)) {
                Some(content) => Some(n + 4 + content.len()),
                None => None,
            },
            None => None,
        }
    }
}

/// Where the size field ends in a block with presence bits `flags`.
pub open spec fn after_size(flags: u32) -> nat {
    if has_flag(flags, SSH_FILEXFER_ATTR_SIZE) {
        8
    } else {
        0
    }
}

/// Where the owner and group ids end.
pub open spec fn after_ids(flags: u32) -> nat {
    after_size(flags) + if has_flag(flags, SSH_FILEXFER_ATTR_UIDGID) {
        8nat
    } else {
        0nat
    }
}

/// Where the permission bits end.
pub open spec fn after_permissions(flags: u32) -> nat {
    after_ids(flags) + if has_flag(flags, SSH_FILEXFER_ATTR_PERMISSIONS) {
        4nat
    } else {
        0nat
    }
}

/// Where the access and modification times end: the length of the fields
/// that have a fixed size.
pub open spec fn after_times(flags: u32) -> nat {
    after_permissions(flags) + if has_flag(flags, SSH_FILEXFER_ATTR_ACMODTIME) {
        8nat
    } else {
        0nat
    }
}

/// The attributes that the fixed-size fields at the front of `s` report.
/// Owner, group and access time are passed over.
pub open spec fn fixed_attrs(flags: u32, s: Seq<u8>) -> FileAttributes
    recommends
        s.len() >= after_times(flags),
{
    attributes_of(
        if has_flag(flags, SSH_FILEXFER_ATTR_SIZE) {
            Some(u64_from_be(s))
        } else {
            None
        },
        if has_flag(flags, SSH_FILEXFER_ATTR_PERMISSIONS) {
            Some(u32_from_be(s.skip(after_ids(flags) as int)))
        } else {
            None
        },
        if has_flag(flags, SSH_FILEXFER_ATTR_ACMODTIME) {
            Some(u32_from_be(s.skip(after_permissions(flags) as int + 4)))
        } else {
            None
        },
    )
}

/// What the fields of an attribute block with presence bits `flags` hold, and
/// how many bytes they take, where `s` starts with those fields. `None` where
/// `s` ends before they do. Extended attributes, a count and that many pairs
/// of strings, are passed over.
#[verifier::opaque]
pub open spec fn spec_parse_attrs(flags: u32, s: Seq<u8>) -> Option<(FileAttributes, nat)> {
    let fixed = after_times(flags);
    if s.len() < fixed {
        None
    } else if !has_flag(flags, SSH_FILEXFER_ATTR_EXTENDED) {
        Some((fixed_attrs(flags, s), fixed))
    } else if s.len() < fixed + 4 {
        None
    } else {
        match strings_len(s.skip(fixed as int + 4), 2 * u32_from_be(s.skip(fixed as int)) as nat) {
            Some(n) => Some((fixed_attrs(flags, s), fixed + 4 + n)),
            None => None,
        }
    }
}

/// Once `k` strings do not fit, no greater number of them does.
pub proof fn lemma_strings_len_none(s: Seq<u8>, k: nat, m: nat)
    requires
        strings_len(s, k) is None,
        k <= m,
    ensures
        strings_len(s, m) is None,
    decreases m,
{
    if k < m {
        lemma_strings_len_none(s, k, (m - 1) as nat);
    }
}

/// Passes over `count` pairs of strings.
pub fn skip_string_pairs<R: SftpReader>(reader: &mut R, count: u32) -> (r: Result<
    usize,
    SftpError,
>)
    requires
        old(reader).remaining().len() <= usize::MAX,
    ensures
        final(reader).reliable() == old(reader).reliable(),
        r matches Ok(n) ==> strings_len(old(reader).remaining(), 2 * count as nat) == Some(
            n as nat,
        ) && n <= old(reader).remaining().len() && final(reader).remaining() == old(reader).remaining().skip(n as int),
        old(reader).reliable() ==> (r is Ok <==> strings_len(
            old(reader).remaining(),
            2 * count as nat,
        ) is Some),
        old(reader).reliable() ==> (r matches Err(e) ==> e@ == short_read_error()),
{
    let ghost s = reader.remaining();
    let mut len: usize = 0;
    let mut i: u32 = 0;
    assert(s.skip(0) =~= s);
    while i < count
        invariant
            i <= count,
            s == old(reader).remaining(),
            s.len() <= usize::MAX,
            reader.reliable() == old(reader).reliable(),
            len <= s.len(),
            reader.remaining() == s.skip(len as int),
            strings_len(s, 2 * i as nat) == Some(len as nat),
        decreases count - i,
    {
        let name = match reader.read_string() {
            Ok(v) => v,
            Err(e) => {
                proof {
                    if old(reader).reliable() {
                        assert(strings_len(s, (2 * i + 1) as nat) is None);
                        lemma_strings_len_none(s, (2 * i + 1) as nat, 2 * count as nat);
                    }
                }
                return Err(e);
            },
        };
        assert(s.skip(len as int).skip(4 + name@.len() as int) =~= s.skip(
            len + 4 + name@.len(),
        ));
        assert(strings_len(s, (2 * i + 1) as nat) == Some((len + 4 + name@.len()) as nat));
        len = len + 4 + name.len();
        let value = match reader.read_string() {
            Ok(v) => v,
            Err(e) => {
                proof {
                    if old(reader).reliable() {
                        assert(strings_len(s, (2 * i + 2) as nat) is None);
                        lemma_strings_len_none(s, (2 * i + 2) as nat, 2 * count as nat);
                    }
                }
                return Err(e);
            },
        };
        assert(s.skip(len as int).skip(4 + value@.len() as int) =~= s.skip(
            len + 4 + value@.len(),
        ));
        assert(strings_len(s, (2 * i + 2) as nat) == Some((len + 4 + value@.len()) as nat));
        len = len + 4 + value.len();
        i = i + 1;
    }
    Ok(len)
}

/// Reads eight bytes as a number where `present` holds, and nothing otherwise.
fn read_optional_u64<R: SftpReader>(reader: &mut R, present: bool) -> (r: Result<
    Option<u64>,
    SftpError,
>)
    ensures
        final(reader).reliable() == old(reader).reliable(),
        r matches Ok(v) ==> if present {
            old(reader).remaining().len() >= 8 && v == Some(u64_from_be(old(reader).remaining()))
                && final(reader).remaining() == old(reader).remaining().skip(8)
        } else {
            v is None && final(reader).remaining() == old(reader).remaining()
        },
        old(reader).reliable() ==> (r is Ok <==> (!present || old(reader).remaining().len() >= 8)),
        old(reader).reliable() ==> (r matches Err(e) ==> e@ == short_read_error()),
{
    if present {
        Ok(Some(reader.read_u64()?))
    } else {
        Ok(None)
    }
}

/// Reads four bytes as a number where `present` holds, and nothing otherwise.
fn read_optional_u32<R: SftpReader>(reader: &mut R, present: bool) -> (r: Result<
    Option<u32>,
    SftpError,
>)
    ensures
        final(reader).reliable() == old(reader).reliable(),
        r matches Ok(v) ==> if present {
            old(reader).remaining().len() >= 4 && v == Some(u32_from_be(old(reader).remaining()))
                && final(reader).remaining() == old(reader).remaining().skip(4)
        } else {
            v is None && final(reader).remaining() == old(reader).remaining()
        },
        old(reader).reliable() ==> (r is Ok <==> (!present || old(reader).remaining().len() >= 4)),
        old(reader).reliable() ==> (r matches Err(e) ==> e@ == short_read_error()),
{
    if present {
        Ok(Some(reader.read_u32()?))
    } else {
        Ok(None)
    }
}

/// Reads two numbers of four bytes each where `present` holds, and nothing
/// otherwise. Hands out the second.
fn read_optional_second<R: SftpReader>(reader: &mut R, present: bool) -> (r: Result<
    Option<u32>,
    SftpError,
>)
    ensures
        final(reader).reliable() == old(reader).reliable(),
        r matches Ok(v) ==> if present {
            old(reader).remaining().len() >= 8 && v == Some(
                u32_from_be(old(reader).remaining().skip(4)),
            ) && final(reader).remaining() == old(reader).remaining().skip(8)
        } else {
            v is None && final(reader).remaining() == old(reader).remaining()
        },
        old(reader).reliable() ==> (r is Ok <==> (!present || old(reader).remaining().len() >= 8)),
        old(reader).reliable() ==> (r matches Err(e) ==> e@ == short_read_error()),
{
    if present {
        let _first = reader.read_u32()?;
        let second = reader.read_u32()?;
        assert(old(reader).remaining().skip(4).skip(4) =~= old(reader).remaining().skip(8));
        Ok(Some(second))
    } else {
        Ok(None)
    }
}

/// Passes over the extended attributes where `present` holds: a count, then
/// that many pairs of strings. Says how many bytes that took.
fn skip_optional_extended<R: SftpReader>(reader: &mut R, present: bool) -> (r: Result<
    usize,
    SftpError,
>)
    requires
        old(reader).remaining().len() <= usize::MAX,
    ensures
        final(reader).reliable() == old(reader).reliable(),
        r matches Ok(n) ==> final(reader).remaining() == old(reader).remaining().skip(n as int)
            && n <= old(reader).remaining().len() && if present {
            n >= 4 && strings_len(
                old(reader).remaining().skip(4),
                2 * u32_from_be(old(reader).remaining()) as nat,
            ) == Some((n - 4) as nat)
        } else {
            n == 0
        },
        old(reader).reliable() ==> (r is Ok <==> (!present || (old(reader).remaining().len() >= 4
            && strings_len(
            old(reader).remaining().skip(4),
            2 * u32_from_be(old(reader).remaining()) as nat,
        ) is Some))),
        old(reader).reliable() ==> (r matches Err(e) ==> e@ == short_read_error()),
{
    if present {
        let count = reader.read_u32()?;
        let extended = skip_string_pairs(reader, count)?;
        assert(old(reader).remaining().skip(4).skip(extended as int) =~= old(reader).remaining().skip(4 + extended));
        Ok(4 + extended)
    } else {
        assert(old(reader).remaining().skip(0) =~= old(reader).remaining());
        Ok(0)
    }
}

/// Reads the fields of fixed size of an attribute block whose presence bits
/// are `flags`, and says how many bytes they took.
fn read_fixed_attributes<R: SftpReader>(reader: &mut R, flags: u32) -> (r: Result<
    (usize, FileAttributes),
    SftpError,
>)
    ensures
        final(reader).reliable() == old(reader).reliable(),
        r matches Ok((n, attrs)) ==> n == after_times(flags) && n <= old(reader).remaining().len()
            && attrs == fixed_attrs(flags, old(reader).remaining()) && final(reader).remaining()
            == old(reader).remaining().skip(n as int),
        old(reader).reliable() ==> (r is Ok <==> old(reader).remaining().len() >= after_times(
            flags,
        )),
        old(reader).reliable() ==> (r matches Err(e) ==> e@ == short_read_error()),
{
    let ghost s = reader.remaining();
    let has_size = flags & SSH_FILEXFER_ATTR_SIZE != 0;
    let has_ids = flags & SSH_FILEXFER_ATTR_UIDGID != 0;
    let has_permissions = flags & SSH_FILEXFER_ATTR_PERMISSIONS != 0;
    let has_times = flags & SSH_FILEXFER_ATTR_ACMODTIME != 0;
    let ghost end_size = after_size(flags) as int;
    let ghost end_ids = after_ids(flags) as int;
    let ghost end_permissions = after_permissions(flags) as int;
    let ghost end_times = after_times(flags) as int;
    assert(s.skip(0) =~= s);

    let size = read_optional_u64(reader, has_size)?;
    assert(reader.remaining() == s.skip(end_size) && end_size <= s.len());
    let _ids = read_optional_second(reader, has_ids)?;
    proof {
        if has_ids {
            lemma_skip_skip(s, end_size, 8);
        }
    }
    assert(reader.remaining() == s.skip(end_ids) && end_ids <= s.len());
    let permissions = read_optional_u32(reader, has_permissions)?;
    proof {
        if has_permissions {
            lemma_skip_skip(s, end_ids, 4);
        }
    }
    assert(reader.remaining() == s.skip(end_permissions) && end_permissions <= s.len());
    let modify_time = read_optional_second(reader, has_times)?;
    proof {
        if has_times {
            lemma_skip_skip(s, end_permissions, 8);
            lemma_skip_skip(s, end_permissions, 4);
        }
    }
    assert(reader.remaining() == s.skip(end_times) && end_times <= s.len());
    let attrs = FileAttributes::from_reported(size, permissions, modify_time);
    let mut len: usize = 0;
    if has_size {
        len = len + 8;
    }
    if has_ids {
        len = len + 8;
    }
    if has_permissions {
        len = len + 4;
    }
    if has_times {
        len = len + 8;
    }
    Ok((len, attrs))
}

/// Reads the fields of an attribute block whose presence bits are `flags`,
/// and says how many bytes they took.
pub fn parse_file_attributes<R: SftpReader>(reader: &mut R, flags: &u32) -> (r: Result<
    (usize, FileAttributes),
    SftpError,
>)
    requires
        old(reader).remaining().len() <= usize::MAX,
    ensures
        final(reader).reliable() == old(reader).reliable(),
        r matches Ok((n, attrs)) ==> spec_parse_attrs(*flags, old(reader).remaining()) == Some(
            (attrs, n as nat),
        ) && n <= old(reader).remaining().len() && final(reader).remaining() == old(reader).remaining().skip(n as int),
        old(reader).reliable() ==> (r is Ok <==> spec_parse_attrs(
            *flags,
            old(reader).remaining(),
        ) is Some),
        old(reader).reliable() ==> (r matches Err(e) ==> e@ == short_read_error()),
{
    let ghost s = reader.remaining();
    proof {
        reveal(spec_parse_attrs);
    }
    let has_extended = *flags & SSH_FILEXFER_ATTR_EXTENDED != 0;
    let (len, attrs) = read_fixed_attributes(reader, *flags)?;
    let ghost tail = s.skip(len as int);
    proof {
        if has_extended && tail.len() >= 4 {
            lemma_skip_skip(s, len as int, 4);
        }
    }
    let extended = skip_optional_extended(reader, has_extended)?;
    proof {
        lemma_skip_skip(s, len as int, extended as int);
    }
    Ok((len + extended, attrs))
}

} // verus!
