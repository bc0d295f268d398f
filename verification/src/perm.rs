//! The permission-bit model: the twelve POSIX mode bits, the per-class
//! read/write/execute triple, and the classification of a path by its type.

use vstd::prelude::*;

verus! {

/// Owner read bit.
pub const S_IRUSR: u32 = 0o400;

/// Owner write bit.
pub const S_IWUSR: u32 = 0o200;

/// Owner execute bit.
pub const S_IXUSR: u32 = 0o100;

/// Group read bit.
pub const S_IRGRP: u32 = 0o040;

/// Group write bit.
pub const S_IWGRP: u32 = 0o020;

/// Group execute bit.
pub const S_IXGRP: u32 = 0o010;

/// Other read bit.
pub const S_IROTH: u32 = 0o004;

/// Other write bit.
pub const S_IWOTH: u32 = 0o002;

/// Other execute bit.
pub const S_IXOTH: u32 = 0o001;

/// Set-user-id bit.
pub const S_ISUID: u32 = 0o4000;

/// Set-group-id bit.
pub const S_ISGID: u32 = 0o2000;

/// Sticky (restricted deletion) bit.
pub const S_ISVTX: u32 = 0o1000;

/// All twelve permission bits: the nine rwx bits and the three special bits.
pub const MODE_MASK: u32 = 0o7777;

/// True when the bit-set `v` has at least one of the bits of `m` set.
pub open spec fn has_bits(v: u32, m: u32) -> bool {
    v & m != 0
}

/// How a path is classified once its metadata is known: directories and
/// symlinks by their file type, the rest by whether an owner or group
/// execute bit is set.
#[derive(Debug, Clone, Copy, PartialEq, Eq, Structural)]
pub enum PathType {
    File,
    Directory,
    Symlink,
    Executable,
}

/// The read/write/execute triple of one permission class.
#[derive(Debug, Clone, Copy, PartialEq, Eq, Structural)]
pub struct Mode {
    pub read: bool,
    pub write: bool,
    pub execute: bool,
}

/// Picks `c` when the flag is set and `'-'` otherwise, as the textual
/// permission rendering does for each position.
pub open spec fn flag_char(b: bool, c: char) -> char {
    if b {
        c
    } else {
        '-'
    }
}

impl Mode {
    /// The three characters of the textual rendering of this triple.
    pub open spec fn spec_chars(self) -> Seq<char> {
        seq![
            flag_char(self.read, 'r'),
            flag_char(self.write, 'w'),
            flag_char(self.execute, 'x'),
        ]
    }

    /// Renders the triple in the usual `rwx` notation, `'-'` for a bit
    /// that is not set.
    pub fn to_string(&self) -> (r: String)
        ensures
            r@ == self.spec_chars(),
    {
        proof {
            reveal_strlit("r");
            reveal_strlit("w");
            reveal_strlit("x");
            reveal_strlit("-");
        }
        let mut r = String::new();
        r.append(if self.read { "r" } else { "-" });
        r.append(if self.write { "w" } else { "-" });
        r.append(if self.execute { "x" } else { "-" });
        proof {
            assert(r@ =~= self.spec_chars());
        }
        r
    }
}

/// The full permission picture of one path: the sticky bit and the triple of
/// each class.
#[derive(Debug, Clone, Copy, PartialEq, Eq, Structural)]
pub struct ModeWrapper {
    pub sticky_bit: bool,
    pub owner: Mode,
    pub group: Mode,
    pub others: Mode,
}

impl ModeWrapper {
    /// The ten characters of the textual rendering: the sticky marker
    /// followed by the three class triples.
    pub open spec fn spec_chars(self) -> Seq<char> {
        seq![flag_char(self.sticky_bit, 'd')] + self.owner.spec_chars() + self.group.spec_chars()
            + self.others.spec_chars()
    }

    /// Renders the whole permission picture, sticky marker first.
    pub fn to_string(&self) -> (r: String)
        ensures
            r@ == self.spec_chars(),
    {
        proof {
            reveal_strlit("d");
            reveal_strlit("-");
        }
        let mut r = String::new();
        r.append(if self.sticky_bit { "d" } else { "-" });
        let owner = self.owner.to_string();
        r.append(owner.as_str());
        let group = self.group.to_string();
        r.append(group.as_str());
        let others = self.others.to_string();
        r.append(others.as_str());
        proof {
            assert(r@ =~= self.spec_chars());
        }
        r
    }

    /// What each field of the decoded picture must say about the bit-set it
    /// was read from.
    pub open spec fn decodes(self, bits: u32) -> bool {
        &&& self.sticky_bit == has_bits(bits, S_ISVTX)
        &&& self.owner.read == has_bits(bits, S_IRUSR)
        &&& self.owner.write == has_bits(bits, S_IWUSR)
        &&& self.owner.execute == has_bits(bits, S_IXUSR)
        &&& self.group.read == has_bits(bits, S_IRGRP)
        &&& self.group.write == has_bits(bits, S_IWGRP)
        &&& self.group.execute == has_bits(bits, S_IXGRP)
        &&& self.others.read == has_bits(bits, S_IROTH)
        &&& self.others.write == has_bits(bits, S_IWOTH)
        &&& self.others.execute == has_bits(bits, S_IXOTH)
    }

    /// Decodes a raw mode bit-set into the structured picture.
    pub fn from_bits(bits: u32) -> (r: ModeWrapper)
        ensures
            r.decodes(bits),
    {
        ModeWrapper {
            sticky_bit: bits & S_ISVTX != 0,
            owner: Mode {
                read: bits & S_IRUSR != 0,
                write: bits & S_IWUSR != 0,
                execute: bits & S_IXUSR != 0,
            },
            group: Mode {
                read: bits & S_IRGRP != 0,
                write: bits & S_IWGRP != 0,
                execute: bits & S_IXGRP != 0,
            },
            others: Mode {
                read: bits & S_IROTH != 0,
                write: bits & S_IWOTH != 0,
                execute: bits & S_IXOTH != 0,
            },
        }
    }
}

/// How a path is classified from its raw type and its mode bits:
/// directories and symlinks keep their type, anything else counts as
/// executable when an owner or group execute bit is set.
pub open spec fn spec_classify(is_dir: bool, is_symlink: bool, mode_bits: u32) -> PathType {
    if is_dir {
        PathType::Directory
    } else if is_symlink {
        PathType::Symlink
    } else if has_bits(mode_bits, S_IXUSR | S_IXGRP) {
        PathType::Executable
    } else {
        PathType::File
    }
}

/// Classifies a path from its raw type and its mode bits.
pub fn classify(is_dir: bool, is_symlink: bool, mode_bits: u32) -> (r: PathType)
    ensures
        r == spec_classify(is_dir, is_symlink, mode_bits),
{
    if is_dir {
        PathType::Directory
    } else if is_symlink {
        PathType::Symlink
    } else if mode_bits & (S_IXUSR | S_IXGRP) != 0 {
        PathType::Executable
    } else {
        PathType::File
    }
}

} // verus!
