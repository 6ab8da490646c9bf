//! One entry of a directory listing, as it was when the listing was taken.

use crate::text::{decimal, decimal_of, digit_char};
use vstd::prelude::*;
use vstd::string::*;

verus! {

/// Where a symbolic link points, and whether the target could be reached.
#[derive(PartialEq, Eq, Debug)]
pub enum LinkState {
    Working(String),
    Broken(String),
}

/// What kind of thing an entry is.
#[derive(PartialEq, Eq, Structural, PartialOrd, Ord, Copy, Clone, Debug)]
pub enum FileType {
    Directory,
    RegularFile,
    Link,
    Pipe,
    Socket,
    CharDevice,
    BlockDevice,
    Special,
}

/// The bits of a POSIX mode that hold the file type.
pub const TYPE_MASK: u32 = 0o170000;

pub const TYPE_LINK: u32 = 0o120000;

pub const TYPE_DIRECTORY: u32 = 0o040000;

pub const TYPE_REGULAR: u32 = 0o100000;

pub const TYPE_PIPE: u32 = 0o010000;

pub const TYPE_SOCKET: u32 = 0o140000;

pub const TYPE_CHAR_DEVICE: u32 = 0o020000;

pub const TYPE_BLOCK_DEVICE: u32 = 0o060000;

impl FileType {
    /// The type that the type bits of `mode` stand for.
    pub open spec fn of_mode(mode: u32) -> FileType {
        let t = mode & TYPE_MASK;
        if t == TYPE_LINK {
            FileType::Link
        } else if t == TYPE_DIRECTORY {
            FileType::Directory
        } else if t == TYPE_REGULAR {
            FileType::RegularFile
        } else if t == TYPE_PIPE {
            FileType::Pipe
        } else if t == TYPE_SOCKET {
            FileType::Socket
        } else if t == TYPE_CHAR_DEVICE {
            FileType::CharDevice
        } else if t == TYPE_BLOCK_DEVICE {
            FileType::BlockDevice
        } else {
            FileType::Special
        }
    }

    /// Classifies an entry by the type bits of its POSIX mode, as `lstat` gives it.
    pub fn get_file_type(mode: u32) -> (r: FileType)
        ensures
            r == FileType::of_mode(mode),
    {
        let t = mode & TYPE_MASK;
        if t == TYPE_LINK {
            FileType::Link
        } else if t == TYPE_DIRECTORY {
            FileType::Directory
        } else if t == TYPE_REGULAR {
            FileType::RegularFile
        } else if t == TYPE_PIPE {
            FileType::Pipe
        } else if t == TYPE_SOCKET {
            FileType::Socket
        } else if t == TYPE_CHAR_DEVICE {
            FileType::CharDevice
        } else if t == TYPE_BLOCK_DEVICE {
            FileType::BlockDevice
        } else {
            FileType::Special
        }
    }

    pub open spec fn spec_symbol(&self) -> char {
        match self {
            FileType::Directory => 'd',
            FileType::RegularFile => '-',
            FileType::Link => 'l',
            FileType::Pipe => 'p',
            FileType::Socket => 's',
            FileType::CharDevice => 'c',
            FileType::BlockDevice => 'b',
            FileType::Special => '-',
        }
    }

    /// The letter that `ls -l` shows for this type.
    #[verifier::when_used_as_spec(spec_symbol)]
    pub fn symbol(&self) -> (r: char)
        ensures
            r == self.spec_symbol(),
    {
        match self {
            FileType::Directory => 'd',
            FileType::RegularFile => '-',
            FileType::Link => 'l',
            FileType::Pipe => 'p',
            FileType::Socket => 's',
            FileType::CharDevice => 'c',
            FileType::BlockDevice => 'b',
            FileType::Special => '-',
        }
    }

    fn symbol_str(&self) -> (r: &'static str)
        ensures
            r@ == seq![self.spec_symbol()],
    {
        proof {
            reveal_strlit("d");
            reveal_strlit("-");
            reveal_strlit("l");
            reveal_strlit("p");
            reveal_strlit("s");
            reveal_strlit("c");
            reveal_strlit("b");
        }
        let r = match self {
            FileType::Directory => "d",
            FileType::RegularFile => "-",
            FileType::Link => "l",
            FileType::Pipe => "p",
            FileType::Socket => "s",
            FileType::CharDevice => "c",
            FileType::BlockDevice => "b",
            FileType::Special => "-",
        };
        assert(r@ =~= seq![self.spec_symbol()]);
        r
    }
}

/// An entry of a listing: its name and path, and what `lstat` and `stat`
/// said of it when the listing was taken.
#[derive(Debug)]
pub struct File {
    pub file_name: String,
    pub file_path: String,
    pub file_type: FileType,
    pub size: u64,
    pub mtime: i64,
    pub link_state: Option<LinkState>,
    pub uid: u32,
    pub gid: u32,
    pub mode: u32,
}

/// One of `r`, `w`, `x` or `-`, or the letter of a set-id or sticky bit:
/// the three characters of one permission group.
pub open spec fn triad(mode: u32, read: u32, write: u32, exec: u32, special: u32, sticky: bool) -> Seq<char> {
    seq![
        if mode & read != 0 { 'r' } else { '-' },
        if mode & write != 0 { 'w' } else { '-' },
        if mode & exec != 0 {
            if mode & special != 0 { if sticky { 't' } else { 's' } } else { 'x' }
        } else {
            if mode & special != 0 { if sticky { 'T' } else { 'S' } } else { '-' }
        },
    ]
}

/// The nine permission characters of `mode`: user, group, others.
pub open spec fn permission_chars(mode: u32) -> Seq<char> {
    triad(mode, 0x100, 0x80, 0x40, 0x800, false) + triad(mode, 0x20, 0x10, 0x08, 0x400, false)
        + triad(mode, 0x04, 0x02, 0x01, 0x200, true)
}

fn push_triad(ret: &mut String, mode: u32, read: u32, write: u32, exec: u32, special: u32, sticky: bool)
    ensures
        final(ret)@ == old(ret)@ + triad(mode, read, write, exec, special, sticky),
{
    proof {
        reveal_strlit("r");
        reveal_strlit("w");
        reveal_strlit("x");
        reveal_strlit("-");
        reveal_strlit("s");
        reveal_strlit("t");
        reveal_strlit("S");
        reveal_strlit("T");
    }
    ret.append(if mode & read != 0 { "r" } else { "-" });
    ret.append(if mode & write != 0 { "w" } else { "-" });
    let last = if mode & exec != 0 {
        if mode & special != 0 { if sticky { "t" } else { "s" } } else { "x" }
    } else {
        if mode & special != 0 { if sticky { "T" } else { "S" } } else { "-" }
    };
    ret.append(last);
    assert(ret@ =~= old(ret)@ + triad(mode, read, write, exec, special, sticky));
}

/// The distance between the double-precision numbers next to `n`: one up
/// to the 53rd power of two, and twice as much with every power from there.
pub open spec fn spacing(n: u64) -> nat {
    if n < 0x20_0000_0000_0000 {
        1
    } else if n < 0x40_0000_0000_0000 {
        2
    } else if n < 0x80_0000_0000_0000 {
        4
    } else if n < 0x100_0000_0000_0000 {
        8
    } else if n < 0x200_0000_0000_0000 {
        16
    } else if n < 0x400_0000_0000_0000 {
        32
    } else if n < 0x800_0000_0000_0000 {
        64
    } else if n < 0x1000_0000_0000_0000 {
        128
    } else if n < 0x2000_0000_0000_0000 {
        256
    } else if n < 0x4000_0000_0000_0000 {
        512
    } else if n < 0x8000_0000_0000_0000 {
        1024
    } else {
        2048
    }
}

/// `num / den` as the nearest whole number; of two that are equally near,
/// the even one.
pub open spec fn half_even(num: nat, den: nat) -> nat
    recommends
        den > 0,
{
    let q = num / den;
    let r = num % den;
    if 2 * r > den || (2 * r == den && q % 2 == 1) {
        q + 1
    } else {
        q
    }
}

/// The double-precision number nearest to `n`; of two that are equally
/// near, the one with the even significand.
pub open spec fn nearest_double(n: u64) -> nat {
    half_even(n as nat, spacing(n)) * spacing(n)
}

/// The number of bytes in the unit in which a size is shown: the greatest
/// of B, K, M and G that is not more than the size.
pub open spec fn unit_scale(size: u64) -> nat {
    if size < 0x400 {
        1
    } else if size < 0x10_0000 {
        0x400
    } else if size < 0x4000_0000 {
        0x10_0000
    } else {
        0x4000_0000
    }
}

pub open spec fn unit_char(size: u64) -> char {
    if size < 0x400 {
        'B'
    } else if size < 0x10_0000 {
        'K'
    } else if size < 0x4000_0000 {
        'M'
    } else {
        'G'
    }
}

/// A size in tenths of its unit: the size as a double-precision number,
/// divided by the unit and rounded to one decimal place.
pub open spec fn size_tenths(size: u64) -> nat {
    half_even(nearest_double(size) * 10, unit_scale(size))
}

/// A size as it is shown: the number with one decimal place, and the unit.
pub open spec fn size_chars(size: u64) -> Seq<char> {
    decimal_of(size_tenths(size) / 10) + seq!['.', digit_char((size_tenths(size) % 10) as int), unit_char(size)]
}

fn spacing_of(n: u64) -> (r: u64)
    ensures
        r == spacing(n),
        0 < r <= 2048,
{
    if n < 0x20_0000_0000_0000 {
        1
    } else if n < 0x40_0000_0000_0000 {
        2
    } else if n < 0x80_0000_0000_0000 {
        4
    } else if n < 0x100_0000_0000_0000 {
        8
    } else if n < 0x200_0000_0000_0000 {
        16
    } else if n < 0x400_0000_0000_0000 {
        32
    } else if n < 0x800_0000_0000_0000 {
        64
    } else if n < 0x1000_0000_0000_0000 {
        128
    } else if n < 0x2000_0000_0000_0000 {
        256
    } else if n < 0x4000_0000_0000_0000 {
        512
    } else if n < 0x8000_0000_0000_0000 {
        1024
    } else {
        2048
    }
}

fn round_half_even(num: u128, den: u128) -> (r: u128)
    requires
        den > 0,
        num <= 0xffff_ffff_ffff_ffff_ffff,
        den <= 0xffff_ffff,
    ensures
        r == half_even(num as nat, den as nat),
        r <= num / den + 1,
{
    let q = num / den;
    let rest = num % den;
    if 2 * rest > den || (2 * rest == den && q % 2 == 1) {
        q + 1
    } else {
        q
    }
}

fn unit_of(size: u64) -> (r: (u64, &'static str))
    ensures
        r.0 == unit_scale(size),
        r.1@ == seq![unit_char(size)],
{
    proof {
        reveal_strlit("B");
        reveal_strlit("K");
        reveal_strlit("M");
        reveal_strlit("G");
    }
    let r = if size < 0x400 {
        (1u64, "B")
    } else if size < 0x10_0000 {
        (0x400u64, "K")
    } else if size < 0x4000_0000 {
        (0x10_0000u64, "M")
    } else {
        (0x4000_0000u64, "G")
    };
    assert(r.1@ =~= seq![unit_char(size)]);
    r
}

/// Calls `get_user_by_uid` of the crate users and gives the name of the
/// user that it found. Which name, or whether any, depends on the machine:
/// the contract claims nothing.
#[verifier::external_body]
fn user_name(uid: u32) -> (r: Option<String>) {
    match users::get_user_by_uid(uid) {
        Some(user) => Some(user.name().to_string_lossy().into_owned()),
        None => None,
    }
}

/// Calls `get_group_by_gid` of the crate users and gives the name of the
/// group that it found. Which name, or whether any, depends on the machine:
/// the contract claims nothing.
#[verifier::external_body]
fn group_name(gid: u32) -> (r: Option<String>) {
    match users::get_group_by_gid(gid) {
        Some(group) => Some(group.name().to_string_lossy().into_owned()),
        None => None,
    }
}

/// The five parts of the line on a file, with a blank between each two.
pub fn info_line(mode: &str, size: &str, owner: &str, group: &str, mtime: &str) -> (r: String)
    ensures
        r@ == mode@ + seq![' '] + size@ + seq![' '] + owner@ + seq![' '] + group@ + seq![' '] + mtime@,
{
    proof {
        reveal_strlit(" ");
    }
    let mut r = String::from_str(mode);
    r.append(" ");
    r.append(size);
    r.append(" ");
    r.append(owner);
    r.append(" ");
    r.append(group);
    r.append(" ");
    r.append(mtime);
    r
}

impl File {
    /// An entry from the values that a listing read: the name and path, the
    /// type of the entry itself, and size, time, owner and mode of what it
    /// stands for (for a working link, of its target).
    pub fn new(
        file_name: String,
        file_path: String,
        file_type: FileType,
        link_state: Option<LinkState>,
        mode: u32,
        size: u64,
        mtime: i64,
        uid: u32,
        gid: u32,
    ) -> (r: File)
        ensures
            r.file_name == file_name,
            r.file_path == file_path,
            r.file_type == file_type,
            r.link_state == link_state,
            r.mode == mode,
            r.size == size,
            r.mtime == mtime,
            r.uid == uid,
            r.gid == gid,
    {
        File { file_name, file_path, file_type, size, mtime, link_state, uid, gid, mode }
    }

    pub open spec fn spec_is_dir(&self) -> bool {
        self.mode & TYPE_MASK == TYPE_DIRECTORY
    }

    /// Whether the entry is a directory, or a link that led to one when the
    /// listing was taken.
    #[verifier::when_used_as_spec(spec_is_dir)]
    pub fn is_dir(&self) -> (r: bool)
        ensures
            r == self.spec_is_dir(),
    {
        self.mode & TYPE_MASK == TYPE_DIRECTORY
    }

    /// The nine permission characters, as `ls -l` shows them.
    pub fn permissions(&self) -> (r: String)
        ensures
            r@ == permission_chars(self.mode),
    {
        let mut ret = String::new();
        push_triad(&mut ret, self.mode, 0x100, 0x80, 0x40, 0x800, false);
        push_triad(&mut ret, self.mode, 0x20, 0x10, 0x08, 0x400, false);
        push_triad(&mut ret, self.mode, 0x04, 0x02, 0x01, 0x200, true);
        assert(ret@ =~= permission_chars(self.mode));
        ret
    }

    /// The type letter followed by the permissions: ten characters.
    pub fn mode(&self) -> (r: String)
        ensures
            r@ == seq![self.file_type.spec_symbol()] + permission_chars(self.mode),
    {
        let mut ret = String::from_str(self.file_type.symbol_str());
        let perms = self.permissions();
        ret.append(perms.as_str());
        ret
    }

    pub open spec fn spec_is_executable(&self) -> bool {
        self.file_type == FileType::RegularFile && self.mode & 0o111 != 0
    }

    /// A regular file with any of the three execute bits.
    #[verifier::when_used_as_spec(spec_is_executable)]
    pub fn is_executable(&self) -> (r: bool)
        ensures
            r == self.spec_is_executable(),
    {
        self.file_type == FileType::RegularFile && self.mode & 0o111 != 0
    }

    /// The size as it is shown: in the greatest of the units B, K, M and G
    /// that is not more than the size, with one decimal place.
    pub fn size(&self) -> (r: String)
        ensures
            r@ == size_chars(self.size),
    {
        proof {
            reveal_strlit(".");
        }
        let step = spacing_of(self.size);
        let nearest = round_half_even(self.size as u128, step as u128);
        assert(nearest * step <= self.size + step) by (nonlinear_arith)
            requires
                nearest <= (self.size as int) / (step as int) + 1,
                step > 0,
        ;
        let double = nearest * (step as u128);
        let (scale, unit) = unit_of(self.size);
        assert(double <= 0x400 || scale > 1) by {
            if self.size < 0x400 {
                assert(step == 1);
                assert(double <= self.size + 1);
            }
        }
        let tenths = round_half_even(double * 10, scale as u128);
        assert(tenths <= 0xffff_ffff_ffff) by {
            if scale == 1 {
            } else if scale == 0x400 {
            } else if scale == 0x10_0000 {
            } else {
            }
        }
        let whole = (tenths / 10) as u64;
        let mut r = decimal(whole);
        r.append(".");
        r.append(crate::text::digit_str((tenths % 10) as u8));
        r.append(unit);
        assert(r@ =~= size_chars(self.size));
        r
    }

    /// The name of the user that owns the entry, as the machine knows it;
    /// empty where it knows none.
    pub fn owner(&self) -> (r: String) {
        // The machine decides whether it knows a name, and which; what is
        // shown for either answer is said by `text_or_empty`.
        let found = user_name(self.uid);
        text_or_empty(found)
    }

    /// The name of the group of the entry, as the machine knows it; empty
    /// where it knows none.
    pub fn group(&self) -> (r: String) {
        // The machine decides whether it knows a name, and which; what is
        // shown for either answer is said by `text_or_empty`.
        let found = group_name(self.gid);
        text_or_empty(found)
    }

    /// The day and time of the last change as the machine writes them in
    /// its time zone: `local` is what it wrote for `mtime` in the form
    /// `TIME_FORMAT`, or nothing where it could not write it.
    pub fn modify_time(&self, local: Option<String>) -> (r: String)
        ensures
            match local {
                Some(text) => r@ == text@,
                None => r@.len() == 0,
            },
    {
        text_or_empty(local)
    }

    /// The line on the entry: mode, size, owner, group and time of the
    /// last change, with a blank between each two. The owner and the group
    /// are as the machine knows them; `local` is the time as `modify_time`
    /// takes it.
    pub fn file_info(&self, local: Option<String>) -> (r: String)
        ensures
            r@.len() >= 13 + size_chars(self.size).len(),
            r@.take(12 + size_chars(self.size).len() as int) == seq![self.file_type.spec_symbol()] + permission_chars(
                self.mode,
            ) + seq![' '] + size_chars(self.size) + seq![' '],
            exists|owner: Seq<char>, group: Seq<char>|
                r@ == seq![self.file_type.spec_symbol()] + permission_chars(self.mode) + seq![' '] + size_chars(
                    self.size,
                ) + seq![' '] + owner + seq![' '] + group + seq![' '] + match local {
                    Some(text) => text@,
                    None => Seq::<char>::empty(),
                },
    {
        let ghost time = match &local {
            Some(text) => text@,
            None => Seq::<char>::empty(),
        };
        let mode = self.mode();
        let size = self.size();
        let owner = self.owner();
        let group = self.group();
        let mtime = self.modify_time(local);
        assert(mtime@ =~= time);
        let r = info_line(mode.as_str(), size.as_str(), owner.as_str(), group.as_str(), mtime.as_str());
        assert(r@.take(12 + size_chars(self.size).len() as int) =~= seq![self.file_type.spec_symbol()] + permission_chars(
            self.mode,
        ) + seq![' '] + size_chars(self.size) + seq![' ']);
        assert(r@ == seq![self.file_type.spec_symbol()] + permission_chars(self.mode) + seq![' '] + size_chars(
            self.size,
        ) + seq![' '] + owner@ + seq![' '] + group@ + seq![' '] + time);
        r
    }
}

/// What is shown for an answer of the machine: the text that it gave,
/// or nothing where it gave none.
pub fn text_or_empty(found: Option<String>) -> (r: String)
    ensures
        match found {
            Some(text) => r@ == text@,
            None => r@.len() == 0,
        },
{
    match found {
        Some(text) => text,
        None => String::new(),
    }
}

} // verus!
