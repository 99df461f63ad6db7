//! The values the client works with: file attributes, directory entries,
//! cached listings, status codes and user commands.

use super::constants::{
    SSH_FILEXFER_ATTR_ACMODTIME, SSH_FILEXFER_ATTR_PERMISSIONS, SSH_FILEXFER_ATTR_SIZE, S_IFBLK,
    S_IFCHR, S_IFDIR, S_IFIFO, S_IFLNK, S_IFMT, S_IFREG, S_IFSOCK,
};
use super::wire::{add_u32, add_u64, be_u32, be_u64};
use std::time::SystemTime;
use vstd::prelude::*;

verus! {

/// The kind of a file, as the type field of its permission bits gives it.
#[derive(Debug, Clone, Copy, PartialEq, Eq, Structural)]
pub enum FileType {
    Unknown,
    RegularFile,
    Directory,
    Symlink,
    CharacterDevice,
    BlockDevice,
    Fifo,
    Socket,
}

impl Default for FileType {
    fn default() -> (r: Self)
        ensures
            r == FileType::Unknown,
    {
        FileType::Unknown
    }
}

/// The file type that the permission bits `perms` describe.
pub open spec fn file_type_of(perms: u32) -> FileType {
    let field = perms & S_IFMT;
    if field == S_IFDIR {
        FileType::Directory
    } else if field == S_IFREG {
        FileType::RegularFile
    } else if field == S_IFLNK {
        FileType::Symlink
    } else if field == S_IFCHR {
        FileType::CharacterDevice
    } else if field == S_IFBLK {
        FileType::BlockDevice
    } else if field == S_IFIFO {
        FileType::Fifo
    } else if field == S_IFSOCK {
        FileType::Socket
    } else {
        FileType::Unknown
    }
}

/// Reads the file type out of permission bits.
pub fn file_type_from_permissions(perms: u32) -> (r: FileType)
    ensures
        r == file_type_of(perms),
{
    let field = perms & S_IFMT;
    if field == S_IFDIR {
        FileType::Directory
    } else if field == S_IFREG {
        FileType::RegularFile
    } else if field == S_IFLNK {
        FileType::Symlink
    } else if field == S_IFCHR {
        FileType::CharacterDevice
    } else if field == S_IFBLK {
        FileType::BlockDevice
    } else if field == S_IFIFO {
        FileType::Fifo
    } else if field == S_IFSOCK {
        FileType::Socket
    } else {
        FileType::Unknown
    }
}

/// What a server reported about a file. An absent field was not reported,
/// which is not the same as zero.
#[derive(Debug, Clone, Copy)]
pub struct FileAttributes {
    pub size: Option<u64>,
    pub permissions: Option<u32>,
    pub modify_time: Option<u32>,
    pub file_type: FileType,
    pub is_directory: bool,
    pub is_regular_file: bool,
    pub is_symlink: bool,
}

/// The attributes that hold the three reported fields and what follows from them.
pub open spec fn attributes_of(
    size: Option<u64>,
    permissions: Option<u32>,
    modify_time: Option<u32>,
) -> FileAttributes {
    let file_type = match permissions {
        Some(p) => file_type_of(p),
        None => FileType::Unknown,
    };
    FileAttributes {
        size,
        permissions,
        modify_time,
        file_type,
        is_directory: file_type == FileType::Directory,
        is_regular_file: file_type == FileType::RegularFile,
        is_symlink: file_type == FileType::Symlink,
    }
}

/// The presence bits of an attribute block that holds `a`.
pub open spec fn attr_flags(a: FileAttributes) -> u32 {
    ((if a.size is Some { SSH_FILEXFER_ATTR_SIZE as int } else { 0 })
        + (if a.permissions is Some { SSH_FILEXFER_ATTR_PERMISSIONS as int } else { 0 })
        + (if a.modify_time is Some { SSH_FILEXFER_ATTR_ACMODTIME as int } else { 0 })) as u32
}

/// The fields of the attribute block that holds `a`: each reported field in
/// wire order. The access time, which is not kept, is written as the
/// modification time.
pub open spec fn attr_fields(a: FileAttributes) -> Seq<u8> {
    (match a.size {
        Some(size) => be_u64(size),
        None => Seq::<u8>::empty(),
    }) + (match a.permissions {
        Some(perms) => be_u32(perms),
        None => Seq::<u8>::empty(),
    }) + (match a.modify_time {
        Some(mtime) => be_u32(mtime) + be_u32(mtime),
        None => Seq::<u8>::empty(),
    })
}

/// The attribute block that holds `a`: the presence bits, then the fields.
pub open spec fn attr_bytes(a: FileAttributes) -> Seq<u8> {
    be_u32(attr_flags(a)) + attr_fields(a)
}

impl FileAttributes {
    /// The derived fields say what the permission bits say.
    pub open spec fn well_formed(&self) -> bool {
        *self == attributes_of(self.size, self.permissions, self.modify_time)
    }

    /// Builds attributes from the reported fields and derives the rest.
    pub fn from_reported(
        size: Option<u64>,
        permissions: Option<u32>,
        modify_time: Option<u32>,
    ) -> (r: Self)
        ensures
            r == attributes_of(size, permissions, modify_time),
            r.well_formed(),
    {
        let file_type = match permissions {
            Some(p) => file_type_from_permissions(p),
            None => FileType::Unknown,
        };
        FileAttributes {
            size,
            permissions,
            modify_time,
            file_type,
            is_directory: file_type == FileType::Directory,
            is_regular_file: file_type == FileType::RegularFile,
            is_symlink: file_type == FileType::Symlink,
        }
    }

    /// Whether the server reported size, permissions and modification time.
    pub fn is_complete(&self) -> (r: bool)
        ensures
            r == (self.size is Some && self.permissions is Some && self.modify_time is Some),
    {
        self.size.is_some() && self.permissions.is_some() && self.modify_time.is_some()
    }

    /// Encodes the reported fields as an attribute block.
    pub fn to_bytes(&self) -> (bytes: Vec<u8>)
        ensures
            bytes@ == attr_bytes(*self),
    {
        let mut bytes: Vec<u8> = Vec::new();
        let mut flags: u32 = 0;
        if self.size.is_some() {
            flags = flags + SSH_FILEXFER_ATTR_SIZE;
        }
        if self.permissions.is_some() {
            flags = flags + SSH_FILEXFER_ATTR_PERMISSIONS;
        }
        if self.modify_time.is_some() {
            flags = flags + SSH_FILEXFER_ATTR_ACMODTIME;
        }
        add_u32(&mut bytes, flags);
        if let Some(size) = self.size {
            add_u64(&mut bytes, size);
        }
        if let Some(perms) = self.permissions {
            add_u32(&mut bytes, perms);
        }
        if let Some(mtime) = self.modify_time {
            add_u32(&mut bytes, mtime);
            add_u32(&mut bytes, mtime);
        }
        assert(bytes@ =~= attr_bytes(*self));
        bytes
    }
}

impl Default for FileAttributes {
    fn default() -> (r: Self)
        ensures
            r == attributes_of(None, None, None),
    {
        FileAttributes {
            size: None,
            permissions: None,
            modify_time: None,
            file_type: FileType::Unknown,
            is_directory: false,
            is_regular_file: false,
            is_symlink: false,
        }
    }
}

/// A directory entry. `name` is what follow-up requests use; `display_name`
/// is a listing line for people and is never read back into a name.
#[derive(Debug)]
pub struct FileInfo {
    pub name: String,
    pub display_name: String,
    pub attrs: FileAttributes,
}

/// A directory entry as a mathematical value.
pub struct FileInfoView {
    pub name: Seq<char>,
    pub display_name: Seq<char>,
    pub attrs: FileAttributes,
}

impl View for FileInfo {
    type V = FileInfoView;

    open spec fn view(&self) -> FileInfoView {
        FileInfoView { name: self.name@, display_name: self.display_name@, attrs: self.attrs }
    }
}

impl Clone for FileInfo {
    fn clone(&self) -> (r: Self)
        ensures
            r@ == self@,
    {
        FileInfo {
            name: self.name.clone(),
            display_name: self.display_name.clone(),
            attrs: self.attrs,
        }
    }
}

/// The entries of `files` as mathematical values, in order.
pub open spec fn files_view(files: Seq<FileInfo>) -> Seq<FileInfoView> {
    Seq::new(files.len(), |i: int| files[i]@)
}

/// Copies a list of entries.
pub fn clone_files(files: &Vec<FileInfo>) -> (r: Vec<FileInfo>)
    ensures
        files_view(r@) == files_view(files@),
{
    let mut r: Vec<FileInfo> = Vec::new();
    let mut i: usize = 0;
    while i < files.len()
        invariant
            i <= files.len(),
            r.len() == i,
            forall|j: int| 0 <= j < i ==> r[j]@ == files[j]@,
        decreases files.len() - i,
    {
        r.push(files[i].clone());
        i += 1;
    }
    assert(files_view(r@) =~= files_view(files@));
    r
}

/// A moment of the system clock, `std::time::SystemTime`. Nothing is claimed
/// of what such a value holds.
#[verifier::external_type_specification]
#[verifier::external_body]
pub struct ExSystemTime(std::time::SystemTime);

/// The present moment, from `SystemTime::now`. Nothing is claimed of it: two
/// calls may give any two moments.
#[verifier::external_body]
pub(crate) fn current_time() -> SystemTime {
    SystemTime::now()
}

/// The complete listing of one directory, with the moment it was taken.
#[derive(Debug)]
pub struct DirectoryCache {
    pub files: Vec<FileInfo>,
    pub timestamp: SystemTime,
}

/// The status codes the client tells apart.
#[derive(Debug, Clone, Copy, PartialEq, Eq, Structural)]
pub enum SftpStatus {
    Success,
    Eof,
    InvalidHandle,
}

impl SftpStatus {
    /// The number that stands for the status on the wire.
    pub open spec fn spec_code(self) -> u32 {
        match self {
            SftpStatus::Success => 0,
            SftpStatus::Eof => 1,
            SftpStatus::InvalidHandle => 4,
        }
    }

    /// The number that stands for the status on the wire.
    pub fn code(self) -> (r: u32)
        ensures
            r == self.spec_code(),
    {
        match self {
            SftpStatus::Success => 0,
            SftpStatus::Eof => 1,
            SftpStatus::InvalidHandle => 4,
        }
    }
}

/// A command of the user, already parsed. Paths are remote paths written by
/// the user, but for `local_path`, which names a file on this machine.
#[derive(Debug)]
pub enum SftpCommand {
    Ls { path: Option<String> },
    Cd { path: Option<String> },
    Get { remote_path: String, local_path: Option<String> },
    Put { remote_path: String, local_path: Option<String> },
    Pwd,
    Help,
    Bye,
}

/// A command as a mathematical value.
pub enum SftpCommandView {
    Ls { path: Option<Seq<char>> },
    Cd { path: Option<Seq<char>> },
    Get { remote_path: Seq<char>, local_path: Option<Seq<char>> },
    Put { remote_path: Seq<char>, local_path: Option<Seq<char>> },
    Pwd,
    Help,
    Bye,
}

/// The text of an optional path as a mathematical value.
pub open spec fn optional_text(path: Option<String>) -> Option<Seq<char>> {
    match path {
        Some(p) => Some(p@),
        None => None,
    }
}

impl View for SftpCommand {
    type V = SftpCommandView;

    open spec fn view(&self) -> SftpCommandView {
        match self {
            SftpCommand::Ls { path } => SftpCommandView::Ls { path: optional_text(*path) },
            SftpCommand::Cd { path } => SftpCommandView::Cd { path: optional_text(*path) },
            SftpCommand::Get { remote_path, local_path } => SftpCommandView::Get {
                remote_path: remote_path@,
                local_path: optional_text(*local_path),
            },
            SftpCommand::Put { remote_path, local_path } => SftpCommandView::Put {
                remote_path: remote_path@,
                local_path: optional_text(*local_path),
            },
            SftpCommand::Pwd => SftpCommandView::Pwd,
            SftpCommand::Help => SftpCommandView::Help,
            SftpCommand::Bye => SftpCommandView::Bye,
        }
    }
}

} // verus!
