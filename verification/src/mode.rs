//! Unix-style file modes of archive entries.

use vstd::prelude::*;

verus! {

/// File type mask.
pub const S_IFMT: u32 = 0o170000;

/// Socket.
pub const S_IFSOCK: u32 = 0o140000;

/// Symbolic link.
pub const S_IFLNK: u32 = 0o120000;

/// Regular file.
pub const S_IFREG: u32 = 0o100000;

/// Block device.
pub const S_IFBLK: u32 = 0o060000;

/// Directory.
pub const S_IFDIR: u32 = 0o040000;

/// Character device.
pub const S_IFCHR: u32 = 0o020000;

/// FIFO.
pub const S_IFIFO: u32 = 0o010000;

/// Set user ID.
pub const S_ISUID: u32 = 0o004000;

/// Set group ID.
pub const S_ISGID: u32 = 0o002000;

/// Sticky bit.
pub const S_ISVTX: u32 = 0o001000;

/// The MSDOS attribute of a directory.
pub const MSDOS_DIR: u32 = 0x10;

/// The MSDOS attribute of a read-only file.
pub const MSDOS_READONLY: u32 = 0x01;

/// The creator code of Unix in the upper byte of "version made by".
pub const CREATOR_UNIX: u16 = 3;

/// The creator code of macOS.
pub const CREATOR_MACOS: u16 = 19;

/// The creator code of NTFS.
pub const CREATOR_NTFS: u16 = 11;

/// The creator code of VFAT.
pub const CREATOR_VFAT: u16 = 14;

/// The creator code of FAT.
pub const CREATOR_FAT: u16 = 0;

/// File mode information for a given zip file entry: Unix-style
/// permissions and file type.
#[derive(Debug, Clone, Copy, PartialEq, Eq, Structural)]
pub struct EntryMode(pub u32);

impl EntryMode {
    /// Creates a new mode from a raw mode value.
    pub fn new(value: u32) -> (m: Self)
        ensures
            m.0 == value,
    {
        EntryMode(value)
    }

    /// Returns the raw mode value.
    pub fn value(&self) -> (v: u32)
        ensures
            v == self.0,
    {
        self.0
    }

    /// Returns true if this is a symbolic link: the file type bits are those
    /// of a link.
    pub fn is_symlink(&self) -> (b: bool)
        ensures
            b == (self.0 & S_IFMT == S_IFLNK),
    {
        self.0 & S_IFMT == S_IFLNK
    }

    /// Returns the Unix permission bits (e.g., 0o755): the lowest nine bits.
    pub fn permissions(&self) -> (p: u32)
        ensures
            p == self.0 & 0o777,
            p == self.0 % 512,
    {
        let value = self.0;
        assert(value & 0o777 == value % 512) by (bit_vector);
        self.0 & 0o777
    }
}

/// The file type that a Unix mode names: its type bits where they are
/// those of a block or character device, a directory, a FIFO, a link or a
/// socket; else that of a regular file.
pub open spec fn unix_file_type(m: u32) -> u32 {
    let t = m & S_IFMT;
    if t == S_IFBLK || t == S_IFCHR || t == S_IFDIR || t == S_IFIFO || t == S_IFLNK || t
        == S_IFSOCK {
        t
    } else {
        S_IFREG
    }
}

/// The file mode that a Unix mode gives: its twelve permission bits
/// (permissions, set-user-id, set-group-id, sticky) and its file type.
pub open spec fn unix_file_mode(m: u32) -> u32 {
    (m & 0o7777) | unix_file_type(m)
}

/// Converts Unix mode to file mode.
pub fn unix_mode_to_file_mode(m: u32) -> (mode: u32)
    ensures
        mode == unix_file_mode(m),
{
    let t = m & S_IFMT;
    let file_type = if t == S_IFBLK || t == S_IFCHR || t == S_IFDIR || t == S_IFIFO || t == S_IFLNK
        || t == S_IFSOCK {
        t
    } else {
        S_IFREG
    };
    // The permissions, and with them the set-user-id, set-group-id and
    // sticky bits.
    (m & 0o7777) | file_type
}

/// The file mode that MSDOS attributes give: a directory open to all, or
/// a regular file that all may read, and write unless it is read-only.
pub open spec fn msdos_file_mode(m: u32) -> u32 {
    if m & MSDOS_DIR != 0 {
        S_IFDIR | 0o777
    } else if m & MSDOS_READONLY != 0 {
        S_IFREG | 0o444
    } else {
        S_IFREG | 0o666
    }
}

/// Converts MSDOS attributes to file mode.
pub fn msdos_mode_to_file_mode(m: u32) -> (mode: u32)
    ensures
        mode == msdos_file_mode(m),
{
    if m & MSDOS_DIR != 0 {
        S_IFDIR | 0o777
    } else if m & MSDOS_READONLY != 0 {
        S_IFREG | 0o444
    } else {
        S_IFREG | 0o666
    }
}

/// The mode of an entry, from the creator in the upper byte of "version
/// made by", the external file attributes, and whether the name is that of
/// a directory.
///
/// For Unix and macOS the upper 16 bits of the attributes hold a Unix mode.
/// For NTFS, VFAT and FAT the attributes are those of MSDOS. Any other
/// creator gives `0o644`. A directory's name adds the directory bit.
pub open spec fn entry_mode(version_made_by: u16, external_file_attrs: u32, is_dir: bool) -> u32 {
    let creator = version_made_by >> 8;
    let mode = if creator == CREATOR_UNIX || creator == CREATOR_MACOS {
        unix_file_mode(external_file_attrs >> 16)
    } else if creator == CREATOR_NTFS || creator == CREATOR_VFAT || creator == CREATOR_FAT {
        msdos_file_mode(external_file_attrs)
    } else {
        0o644
    };
    if is_dir {
        mode | S_IFDIR
    } else {
        mode
    }
}

/// Computes the mode of an entry.
pub fn mode_of(version_made_by: u16, external_file_attrs: u32, is_dir: bool) -> (m: EntryMode)
    ensures
        m.0 == entry_mode(version_made_by, external_file_attrs, is_dir),
{
    let creator = version_made_by >> 8;
    let mut mode = if creator == CREATOR_UNIX || creator == CREATOR_MACOS {
        unix_mode_to_file_mode(external_file_attrs >> 16)
    } else if creator == CREATOR_NTFS || creator == CREATOR_VFAT || creator == CREATOR_FAT {
        msdos_mode_to_file_mode(external_file_attrs)
    } else {
        0o644
    };
    if is_dir {
        mode |= S_IFDIR;
    }
    EntryMode::new(mode)
}

} // verus!
