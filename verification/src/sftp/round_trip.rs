//! Responses on the wire, and the proof that decoding reads back what
//! encoding wrote.

use super::attributes::{
    after_ids, after_permissions, after_size, after_times, fixed_attrs, has_flag, spec_parse_attrs,
};
use super::constants::{
    SSH_FILEXFER_ATTR_ACMODTIME, SSH_FILEXFER_ATTR_EXTENDED, SSH_FILEXFER_ATTR_PERMISSIONS,
    SSH_FILEXFER_ATTR_SIZE, SSH_FILEXFER_ATTR_UIDGID,
};
use super::error::ClientCause;
use super::packet::{
    decode_attrs, decode_entries, decode_entry, decode_id_and_string, decode_name,
    decode_frame, decode_status, holds_frame, response_type, spec_decode, ServerPacketView,
};
use super::reader::string_at;
use super::types::{attr_bytes, attr_fields, attr_flags, FileAttributes, FileInfoView};
use super::wire::{
    be_u32, be_u64, framed, lemma_skip_skip, lemma_u32_round_trip, lemma_u64_round_trip,
    string_field, u32_from_be, u64_from_be,
};
use vstd::prelude::*;
use vstd::utf8::{decode_utf8, encode_utf8, valid_utf8};

verus! {

/// One directory entry on the wire: name, display name, attribute block.
pub open spec fn entry_bytes(file: FileInfoView) -> Seq<u8> {
    string_field(encode_utf8(file.name)) + string_field(encode_utf8(file.display_name))
        + attr_bytes(file.attrs)
}

/// Directory entries on the wire, one after the other.
pub open spec fn entries_bytes(files: Seq<FileInfoView>) -> Seq<u8>
    decreases files.len(),
{
    if files.len() == 0 {
        Seq::empty()
    } else {
        entries_bytes(files.drop_last()) + entry_bytes(files.last())
    }
}

/// The fields of a response as they follow its type byte. A status is
/// written with an empty language tag.
pub open spec fn response_fields(p: ServerPacketView) -> Seq<u8> {
    match p {
        ServerPacketView::Version { version } => be_u32(version),
        ServerPacketView::Handle { request_id, handle } => be_u32(request_id) + string_field(
            handle,
        ),
        ServerPacketView::Name { request_id, files } => be_u32(request_id) + be_u32(
            files.len() as u32,
        ) + entries_bytes(files),
        ServerPacketView::Status { request_id, status_code, message } => be_u32(request_id)
            + be_u32(status_code) + string_field(encode_utf8(message)) + string_field(
            Seq::empty(),
        ),
        ServerPacketView::Attrs { request_id, attrs } => be_u32(request_id) + attr_bytes(attrs),
        ServerPacketView::Data { request_id, data } => be_u32(request_id) + string_field(data),
    }
}

/// What a frame's length counts for a response: the type byte, then the fields.
pub open spec fn response_payload(p: ServerPacketView) -> Seq<u8> {
    seq![response_type(p)] + response_fields(p)
}

/// A response on the wire.
pub open spec fn response_bytes(p: ServerPacketView) -> Seq<u8> {
    framed(response_payload(p))
}

/// Whether a response can be written so that it can be read back: its
/// payload fits the length field, and the attributes in it say of the file
/// type what their permission bits say.
pub open spec fn response_fits(p: ServerPacketView) -> bool {
    &&& response_payload(p).len() <= u32::MAX
    &&& match p {
        ServerPacketView::Name { files, .. } => forall|i: int|
            0 <= i < files.len() ==> (#[trigger] files[i]).attrs.well_formed(),
        ServerPacketView::Attrs { attrs, .. } => attrs.well_formed(),
        _ => true,
    }
}

/// A string field is read back as its content, whatever follows it.
pub proof fn lemma_string_round_trip(content: Seq<u8>, rest: Seq<u8>)
    requires
        content.len() <= u32::MAX,
    ensures
        string_at(string_field(content) + rest) == Some(content),
        (string_field(content) + rest).skip(4 + content.len() as int) == rest,
        string_field(content).len() == 4 + content.len(),
{
    let s = string_field(content) + rest;
    assert(s =~= be_u32(content.len() as u32) + (content + rest));
    lemma_u32_round_trip(content.len() as u32, content + rest);
    assert(s.subrange(4, 4 + content.len() as int) =~= content);
    assert(s.skip(4 + content.len() as int) =~= rest);
}

/// What the presence bits of an attribute block say, for each of the eight
/// values that the encoder writes.
proof fn lemma_presence_bits(f: u32)
    by (bit_vector)
    requires
        f == 0 || f == 1 || f == 4 || f == 5 || f == 8 || f == 9 || f == 12 || f == 13,
    ensures
        (f & 0x1 != 0) == (f == 1 || f == 5 || f == 9 || f == 13),
        f & 0x2 == 0,
        (f & 0x4 != 0) == (f == 4 || f == 5 || f == 12 || f == 13),
        (f & 0x8 != 0) == (f == 8 || f == 9 || f == 12 || f == 13),
        f & 0x80000000 == 0,
{
}

/// The presence bits of the block that holds `a` say which fields it reports.
pub proof fn lemma_attr_flags(a: FileAttributes)
    ensures
        has_flag(attr_flags(a), SSH_FILEXFER_ATTR_SIZE) == (a.size is Some),
        !has_flag(attr_flags(a), SSH_FILEXFER_ATTR_UIDGID),
        has_flag(attr_flags(a), SSH_FILEXFER_ATTR_PERMISSIONS) == (a.permissions is Some),
        has_flag(attr_flags(a), SSH_FILEXFER_ATTR_ACMODTIME) == (a.modify_time is Some),
        !has_flag(attr_flags(a), SSH_FILEXFER_ATTR_EXTENDED),
{
    lemma_presence_bits(attr_flags(a));
}

/// The fields of an attribute block are read back as the attributes that
/// were written, whatever follows them.
pub proof fn lemma_attr_fields_round_trip(a: FileAttributes, rest: Seq<u8>)
    requires
        a.well_formed(),
    ensures
        spec_parse_attrs(attr_flags(a), attr_fields(a) + rest) == Some(
            (a, attr_fields(a).len()),
        ),
{
    reveal(spec_parse_attrs);
    lemma_attr_flags(a);
    let flags = attr_flags(a);
    let s = attr_fields(a) + rest;
    let size_part = match a.size {
        Some(size) => be_u64(size),
        None => Seq::<u8>::empty(),
    };
    let perm_part = match a.permissions {
        Some(perms) => be_u32(perms),
        None => Seq::<u8>::empty(),
    };
    let time_part = match a.modify_time {
        Some(mtime) => be_u32(mtime) + be_u32(mtime),
        None => Seq::<u8>::empty(),
    };
    assert(s =~= size_part + (perm_part + (time_part + rest)));
    assert(size_part.len() == after_size(flags));
    assert(size_part.len() + perm_part.len() == after_permissions(flags));
    assert(after_ids(flags) == after_size(flags));
    assert(attr_fields(a).len() == after_times(flags));
    if let Some(size) = a.size {
        lemma_u64_round_trip(size, perm_part + (time_part + rest));
    }
    assert(s.skip(after_ids(flags) as int) =~= perm_part + (time_part + rest));
    if let Some(perms) = a.permissions {
        lemma_u32_round_trip(perms, time_part + rest);
    }
    assert(s.skip(after_permissions(flags) as int) =~= time_part + rest);
    if let Some(mtime) = a.modify_time {
        assert(time_part + rest =~= be_u32(mtime) + (be_u32(mtime) + rest));
        lemma_u32_round_trip(mtime, be_u32(mtime) + rest);
        lemma_u32_round_trip(mtime, rest);
        assert(s.skip(after_permissions(flags) as int + 4) =~= be_u32(mtime) + rest);
    }
    assert(fixed_attrs(flags, s) == a);
}

/// One directory entry is read back as it was written, whatever follows it.
pub proof fn lemma_entry_round_trip(file: FileInfoView, rest: Seq<u8>)
    requires
        file.attrs.well_formed(),
        encode_utf8(file.name).len() <= u32::MAX,
        encode_utf8(file.display_name).len() <= u32::MAX,
    ensures
        decode_entry(entry_bytes(file) + rest) == Ok::<
            (FileInfoView, nat),
            ClientCause,
        >((file, entry_bytes(file).len())),
{
    reveal(decode_entry);
    let name = encode_utf8(file.name);
    let display_name = encode_utf8(file.display_name);
    let block = attr_bytes(file.attrs);
    let s = entry_bytes(file) + rest;
    assert(s =~= string_field(name) + (string_field(display_name) + (block + rest)));
    lemma_string_round_trip(name, string_field(display_name) + (block + rest));
    lemma_string_round_trip(display_name, block + rest);
    let names = 8 + name.len() as int + display_name.len() as int;
    lemma_skip_skip(s, 4 + name.len() as int, 4 + display_name.len() as int);
    assert(s.skip(names) == block + rest);
    assert(block + rest =~= be_u32(attr_flags(file.attrs)) + (attr_fields(file.attrs) + rest));
    lemma_u32_round_trip(attr_flags(file.attrs), attr_fields(file.attrs) + rest);
    lemma_skip_skip(s, names, 4);
    lemma_attr_fields_round_trip(file.attrs, rest);
    vstd::utf8::encode_utf8_valid_utf8(file.name);
    vstd::utf8::encode_utf8_valid_utf8(file.display_name);
    vstd::utf8::encode_utf8_decode_utf8(file.name);
    vstd::utf8::encode_utf8_decode_utf8(file.display_name);
}

/// Every entry takes at least the twelve bytes of its two lengths and its
/// presence bits.
pub proof fn lemma_entries_len(files: Seq<FileInfoView>)
    ensures
        entries_bytes(files).len() >= 12 * files.len(),
        forall|i: int|
            0 <= i < files.len() ==> entry_bytes(#[trigger] files[i]).len()
                <= entries_bytes(files).len(),
    decreases files.len(),
{
    if files.len() > 0 {
        lemma_entries_len(files.drop_last());
        assert forall|i: int| 0 <= i < files.len() implies entry_bytes(
            #[trigger] files[i],
        ).len() <= entries_bytes(files).len() by {
            if i < files.len() - 1 {
                assert(files[i] == files.drop_last()[i]);
            }
        }
    }
}

/// Directory entries are read back as they were written, whatever follows
/// them.
pub proof fn lemma_entries_round_trip(files: Seq<FileInfoView>, rest: Seq<u8>)
    requires
        entries_bytes(files).len() <= u32::MAX,
        forall|i: int| 0 <= i < files.len() ==> (#[trigger] files[i]).attrs.well_formed(),
    ensures
        decode_entries(entries_bytes(files) + rest, files.len()) == Ok::<
            (Seq<FileInfoView>, nat),
            ClientCause,
        >((files, entries_bytes(files).len())),
    decreases files.len(),
{
    if files.len() == 0 {
        assert(files =~= Seq::<FileInfoView>::empty());
    } else {
        let before = files.drop_last();
        let last = files.last();
        let s = entries_bytes(files) + rest;
        assert(s =~= entries_bytes(before) + (entry_bytes(last) + rest));
        assert forall|i: int| 0 <= i < before.len() implies (#[trigger] before[i]).attrs.well_formed() by {
            assert(before[i] == files[i]);
        }
        lemma_entries_round_trip(before, entry_bytes(last) + rest);
        assert(s.skip(entries_bytes(before).len() as int) =~= entry_bytes(last) + rest);
        lemma_entries_len(files);
        assert(entry_bytes(last).len() <= entries_bytes(files).len());
        lemma_entry_round_trip(last, rest);
        assert(before.push(last) =~= files);
    }
}

/// A frame is taken whole from the front of what holds it, and decoded as
/// what it holds.
pub proof fn lemma_frame_round_trip(payload: Seq<u8>, rest: Seq<u8>)
    requires
        payload.len() <= u32::MAX,
    ensures
        holds_frame(framed(payload) + rest),
        spec_decode(framed(payload) + rest) == decode_frame(payload),
        (framed(payload) + rest).skip(4 + u32_from_be(framed(payload) + rest) as int) == rest,
{
    let s = framed(payload) + rest;
    assert(s =~= be_u32(payload.len() as u32) + (payload + rest));
    lemma_u32_round_trip(payload.len() as u32, payload + rest);
    assert(s.subrange(4, 4 + payload.len() as int) =~= payload);
    assert(s.skip(4 + payload.len() as int) =~= rest);
}

/// The fields of a response with a request id and one string are read back.
proof fn lemma_id_and_string_round_trip(request_id: u32, content: Seq<u8>)
    requires
        content.len() <= u32::MAX,
    ensures
        decode_id_and_string(be_u32(request_id) + string_field(content)) == Ok::<
            (u32, Seq<u8>),
            ClientCause,
        >((request_id, content)),
{
    let none = Seq::<u8>::empty();
    lemma_u32_round_trip(request_id, string_field(content));
    lemma_string_round_trip(content, none);
    assert(string_field(content) + none =~= string_field(content));
}

/// The fields of a status response are read back.
proof fn lemma_status_round_trip(request_id: u32, status_code: u32, message: Seq<char>)
    requires
        encode_utf8(message).len() <= u32::MAX,
    ensures
        decode_status(
            response_fields(ServerPacketView::Status { request_id, status_code, message }),
        ) == Ok::<ServerPacketView, ClientCause>(
            ServerPacketView::Status { request_id, status_code, message },
        ),
{
    let none = Seq::<u8>::empty();
    let fields = response_fields(ServerPacketView::Status { request_id, status_code, message });
    let text = encode_utf8(message);
    let tail = string_field(text) + string_field(none);
    assert(fields =~= be_u32(request_id) + (be_u32(status_code) + tail));
    lemma_u32_round_trip(request_id, be_u32(status_code) + tail);
    lemma_u32_round_trip(status_code, tail);
    lemma_skip_skip(fields, 4, 4);
    lemma_string_round_trip(text, string_field(none));
    lemma_string_round_trip(none, none);
    assert(string_field(none) + none =~= string_field(none));
    lemma_skip_skip(fields, 8, 4 + text.len() as int);
    vstd::utf8::encode_utf8_valid_utf8(message);
    vstd::utf8::encode_utf8_decode_utf8(message);
}

/// The fields of an attributes response are read back.
proof fn lemma_attrs_round_trip(request_id: u32, attrs: FileAttributes)
    requires
        attrs.well_formed(),
    ensures
        decode_attrs(be_u32(request_id) + attr_bytes(attrs)) == Ok::<
            ServerPacketView,
            ClientCause,
        >(ServerPacketView::Attrs { request_id, attrs }),
{
    let none = Seq::<u8>::empty();
    let fields = be_u32(request_id) + attr_bytes(attrs);
    let block = attr_bytes(attrs);
    lemma_u32_round_trip(request_id, block);
    assert(block =~= be_u32(attr_flags(attrs)) + (attr_fields(attrs) + none));
    lemma_u32_round_trip(attr_flags(attrs), attr_fields(attrs) + none);
    lemma_skip_skip(fields, 4, 4);
    lemma_attr_fields_round_trip(attrs, none);
    assert(attr_fields(attrs) + none =~= attr_fields(attrs));
}

/// The fields of a name response are read back.
proof fn lemma_name_round_trip(request_id: u32, files: Seq<FileInfoView>)
    requires
        entries_bytes(files).len() <= u32::MAX,
        forall|i: int| 0 <= i < files.len() ==> (#[trigger] files[i]).attrs.well_formed(),
    ensures
        decode_name(
            be_u32(request_id) + be_u32(files.len() as u32) + entries_bytes(files),
        ) == Ok::<ServerPacketView, ClientCause>(
            ServerPacketView::Name { request_id, files },
        ),
{
    let none = Seq::<u8>::empty();
    let list = entries_bytes(files);
    let fields = be_u32(request_id) + be_u32(files.len() as u32) + list;
    lemma_entries_len(files);
    assert(fields =~= be_u32(request_id) + (be_u32(files.len() as u32) + list));
    lemma_u32_round_trip(request_id, be_u32(files.len() as u32) + list);
    lemma_u32_round_trip(files.len() as u32, list);
    lemma_skip_skip(fields, 4, 4);
    lemma_entries_round_trip(files, none);
    assert(list + none =~= list);
}

/// Decoding reads back what encoding wrote: a response that fits is decoded
/// from its bytes as itself, whatever follows the frame, and decoding takes
/// exactly the frame.
pub proof fn lemma_response_round_trip(p: ServerPacketView, rest: Seq<u8>)
    requires
        response_fits(p),
    ensures
        holds_frame(response_bytes(p) + rest),
        spec_decode(response_bytes(p) + rest) == Ok::<ServerPacketView, ClientCause>(p),
        (response_bytes(p) + rest).skip(4 + u32_from_be(response_bytes(p) + rest) as int) == rest,
{
    let payload = response_payload(p);
    let fields = response_fields(p);
    lemma_frame_round_trip(payload, rest);
    assert(payload[0] == response_type(p));
    assert(payload.skip(1) =~= fields);
    match p {
        ServerPacketView::Version { version } => {
            lemma_u32_round_trip(version, Seq::<u8>::empty());
        },
        ServerPacketView::Handle { request_id, handle } => {
            lemma_u32_round_trip(request_id, string_field(handle));
            lemma_id_and_string_round_trip(request_id, handle);
        },
        ServerPacketView::Data { request_id, data } => {
            lemma_u32_round_trip(request_id, string_field(data));
            lemma_id_and_string_round_trip(request_id, data);
        },
        ServerPacketView::Status { request_id, status_code, message } => {
            lemma_status_round_trip(request_id, status_code, message);
        },
        ServerPacketView::Attrs { request_id, attrs } => {
            lemma_attrs_round_trip(request_id, attrs);
        },
        ServerPacketView::Name { request_id, files } => {
            lemma_entries_len(files);
            lemma_name_round_trip(request_id, files);
        },
    }
}

} // verus!
