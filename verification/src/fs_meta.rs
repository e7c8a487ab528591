//! File metadata, file types, permission bits, and the flag word that
//! `OpenOptions` turns into for `openat(2)`.
use vstd::prelude::*;
use crate::time::{SystemTime, Duration, NANOS_PER_SEC, unix_epoch};

verus! {

/// Open for reading only.
pub const O_RDONLY: usize = 0;
/// Open for writing only.
pub const O_WRONLY: usize = 1;
/// Open for reading and writing.
pub const O_RDWR: usize = 2;
/// Create the file if it does not exist.
pub const O_CREAT: usize = 0o100;
/// With `O_CREAT`: fail if the file exists.
pub const O_EXCL: usize = 0o200;
/// Truncate the file to length 0.
pub const O_TRUNC: usize = 0o1000;
/// Write at the end of the file.
pub const O_APPEND: usize = 0o2000;
/// Fail unless the path is a directory.
pub const O_DIRECTORY: usize = 0o200000;
/// Close the descriptor on `exec`.
pub const O_CLOEXEC: usize = 0o2000000;

/// The file-type bits of a mode.
pub const S_IFMT: u32 = 0o170000;
/// The file type of a directory.
pub const S_IFDIR: u32 = 0o040000;
/// The file type of a regular file.
pub const S_IFREG: u32 = 0o100000;
/// The file type of a symbolic link.
pub const S_IFLNK: u32 = 0o120000;

/// The fields of the kernel's x86-64 `struct stat` that metadata is built
/// from.
#[derive(Clone, Copy, Default, Debug)]
pub struct Stat {
    pub st_dev: u64,
    pub st_ino: u64,
    pub st_nlink: u64,
    pub st_mode: u32,
    pub st_uid: u32,
    pub st_gid: u32,
    pub st_rdev: u64,
    pub st_size: i64,
    pub st_blksize: i64,
    pub st_blocks: i64,
    pub st_atime: i64,
    pub st_atime_nsec: i64,
    pub st_mtime: i64,
    pub st_mtime_nsec: i64,
    pub st_ctime: i64,
    pub st_ctime_nsec: i64,
}

/// Metadata for a filesystem object.
#[derive(Clone, Copy, Debug)]
pub struct Metadata {
    pub mode: u32,
    pub size: u64,
    pub mtime: (i64, i64),
    pub uid: u32,
    pub gid: u32,
    pub ino: u64,
    pub nlink: u64,
}

/// The file-type bits of a mode.
#[derive(Clone, Copy, Debug)]
pub struct FileType {
    pub bits: u32,
}

/// Unix permission bits.
#[derive(Clone, Copy, Debug)]
pub struct Permissions {
    pub mode: u32,
}

/// Whether a mode's file-type bits say regular file.
pub open spec fn mode_is_file(mode: u32) -> bool {
    mode & S_IFMT == S_IFREG
}

/// Whether a mode's file-type bits say directory.
pub open spec fn mode_is_dir(mode: u32) -> bool {
    mode & S_IFMT == S_IFDIR
}

/// Whether a mode's file-type bits say symbolic link.
pub open spec fn mode_is_symlink(mode: u32) -> bool {
    mode & S_IFMT == S_IFLNK
}

/// A mode is of the type its type bits name, whatever its permission bits
/// (setuid, setgid and sticky included), and of no other type: a symbolic
/// link is neither a file nor a directory, though its type bits share one
/// with a regular file's.
pub proof fn lemma_mode_types(perm: u32)
    requires
        perm < 0o10000,
    ensures
        mode_is_file(S_IFREG | perm) && !mode_is_dir(S_IFREG | perm) && !mode_is_symlink(S_IFREG | perm),
        mode_is_dir(S_IFDIR | perm) && !mode_is_file(S_IFDIR | perm) && !mode_is_symlink(S_IFDIR | perm),
        mode_is_symlink(S_IFLNK | perm) && !mode_is_file(S_IFLNK | perm) && !mode_is_dir(S_IFLNK | perm),
        (S_IFREG | perm) & 0o7777 == perm && (S_IFDIR | perm) & 0o7777 == perm && (S_IFLNK | perm) & 0o7777 == perm,
{
    assert((0o100000u32 | perm) & 0o170000u32 == 0o100000u32) by (bit_vector) requires perm < 0o10000u32;
    assert((0o040000u32 | perm) & 0o170000u32 == 0o040000u32) by (bit_vector) requires perm < 0o10000u32;
    assert((0o120000u32 | perm) & 0o170000u32 == 0o120000u32) by (bit_vector) requires perm < 0o10000u32;
    assert((0o100000u32 | perm) & 0o7777u32 == perm) by (bit_vector) requires perm < 0o10000u32;
    assert((0o040000u32 | perm) & 0o7777u32 == perm) by (bit_vector) requires perm < 0o10000u32;
    assert((0o120000u32 | perm) & 0o7777u32 == perm) by (bit_vector) requires perm < 0o10000u32;
}

/// Build metadata from a `stat` result.
pub fn stat_to_meta(s: &Stat) -> (m: Metadata)
    ensures
        m.mode == s.st_mode,
        m.size == s.st_size as u64,
        m.mtime == (s.st_mtime, s.st_mtime_nsec),
        m.uid == s.st_uid,
        m.gid == s.st_gid,
        m.ino == s.st_ino,
        m.nlink == s.st_nlink,
{
    Metadata {
        mode: s.st_mode,
        size: s.st_size as u64,
        mtime: (s.st_mtime, s.st_mtime_nsec),
        uid: s.st_uid,
        gid: s.st_gid,
        ino: s.st_ino,
        nlink: s.st_nlink,
    }
}

impl Metadata {
    pub fn is_file(&self) -> (b: bool)
        ensures
            b == mode_is_file(self.mode),
    {
        self.mode & S_IFMT == S_IFREG
    }

    pub fn is_dir(&self) -> (b: bool)
        ensures
            b == mode_is_dir(self.mode),
    {
        self.mode & S_IFMT == S_IFDIR
    }

    pub fn is_symlink(&self) -> (b: bool)
        ensures
            b == mode_is_symlink(self.mode),
    {
        self.mode & S_IFMT == S_IFLNK
    }

    /// The size in bytes.
    pub fn len(&self) -> (n: u64)
        ensures
            n == self.size,
    {
        self.size
    }

    /// The file-type bits.
    pub fn file_type(&self) -> (t: FileType)
        ensures
            t.bits == self.mode & S_IFMT,
    {
        FileType { bits: self.mode & S_IFMT }
    }

    /// The permission bits (including setuid, setgid and sticky).
    pub fn permissions(&self) -> (p: Permissions)
        ensures
            p.mode == self.mode & 0o7777,
    {
        Permissions { mode: self.mode & 0o7777 }
    }

    /// The last modification time: the stored seconds and nanoseconds (each
    /// read as unsigned) after the epoch.
    pub fn modified(&self) -> (r: Result<SystemTime, crate::io_error::Error>)
        requires
            (self.mtime.0 as u64) as int + (self.mtime.1 as u32) as int / NANOS_PER_SEC as int
                <= u64::MAX,
        ensures
            r matches Ok(t) && t.wf() && t.since_epoch.total() == (self.mtime.0 as u64) as int
                * NANOS_PER_SEC as int + (self.mtime.1 as u32) as int,
    {
        let d = Duration::new(self.mtime.0 as u64, self.mtime.1 as u32);
        let epoch = unix_epoch();
        match epoch.checked_add(d) {
            Some(t) => Ok(t),
            None => {
                assert(false);
                Ok(epoch)
            },
        }
    }
}

impl FileType {
    pub fn is_file(&self) -> (b: bool)
        ensures
            b == (self.bits == S_IFREG),
    {
        self.bits == S_IFREG
    }

    pub fn is_dir(&self) -> (b: bool)
        ensures
            b == (self.bits == S_IFDIR),
    {
        self.bits == S_IFDIR
    }

    pub fn is_symlink(&self) -> (b: bool)
        ensures
            b == (self.bits == S_IFLNK),
    {
        self.bits == S_IFLNK
    }
}

impl Permissions {
    /// Whether the owner-write bit is clear.
    pub fn readonly(&self) -> (b: bool)
        ensures
            b == (self.mode & 0o200 == 0),
    {
        self.mode & 0o200 == 0
    }

    /// Clear every write bit, or set the owner-write bit.
    pub fn set_readonly(&mut self, ro: bool)
        ensures
            final(self).mode == if ro { old(self).mode & !0o222u32 } else { old(self).mode | 0o200u32 },
    {
        if ro {
            self.mode = self.mode & !0o222u32;
        } else {
            self.mode = self.mode | 0o200u32;
        }
    }

    /// The permission bits.
    pub fn mode(&self) -> (m: u32)
        ensures
            m == self.mode,
    {
        self.mode
    }
}

/// After `set_readonly(ro)`, `readonly()` reports `ro`.
pub proof fn lemma_set_readonly(mode: u32, ro: bool)
    ensures
        ro ==> (mode & !0o222u32) & 0o200u32 == 0,
        !ro ==> (mode | 0o200u32) & 0o200u32 != 0,
{
    assert((mode & !0o222u32) & 0o200u32 == 0) by (bit_vector);
    assert((mode | 0o200u32) & 0o200u32 != 0) by (bit_vector);
}

/// Options for opening a file.
#[derive(Clone, Copy, Debug, PartialEq, Eq, Structural)]
pub struct OpenOptions {
    pub read: bool,
    pub write: bool,
    pub append: bool,
    pub truncate: bool,
    pub create: bool,
    pub create_new: bool,
    pub mode: u32,
    pub custom_flags: i32,
}

impl OpenOptions {
    /// All options off, mode `0o666`.
    pub fn new() -> (o: OpenOptions)
        ensures
            !o.read && !o.write && !o.append && !o.truncate && !o.create && !o.create_new,
            o.mode == 0o666,
            o.custom_flags == 0,
    {
        OpenOptions {
            read: false,
            write: false,
            append: false,
            truncate: false,
            create: false,
            create_new: false,
            mode: 0o666,
            custom_flags: 0,
        }
    }

    pub fn read(&mut self, v: bool) -> (r: &mut Self)
        ensures
            *r == (OpenOptions { read: v, ..*old(self) }),
            *final(self) == *final(r),
    {
        self.read = v;
        self
    }

    pub fn write(&mut self, v: bool) -> (r: &mut Self)
        ensures
            *r == (OpenOptions { write: v, ..*old(self) }),
            *final(self) == *final(r),
    {
        self.write = v;
        self
    }

    pub fn append(&mut self, v: bool) -> (r: &mut Self)
        ensures
            *r == (OpenOptions { append: v, ..*old(self) }),
            *final(self) == *final(r),
    {
        self.append = v;
        self
    }

    pub fn truncate(&mut self, v: bool) -> (r: &mut Self)
        ensures
            *r == (OpenOptions { truncate: v, ..*old(self) }),
            *final(self) == *final(r),
    {
        self.truncate = v;
        self
    }

    pub fn create(&mut self, v: bool) -> (r: &mut Self)
        ensures
            *r == (OpenOptions { create: v, ..*old(self) }),
            *final(self) == *final(r),
    {
        self.create = v;
        self
    }

    pub fn create_new(&mut self, v: bool) -> (r: &mut Self)
        ensures
            *r == (OpenOptions { create_new: v, ..*old(self) }),
            *final(self) == *final(r),
    {
        self.create_new = v;
        self
    }

    /// The `openat(2)` flag word these options stand for.
    pub open spec fn flags_spec(&self) -> usize {
        let access = if self.read && (self.write || self.append) {
            O_RDWR
        } else if self.write || self.append {
            O_WRONLY
        } else {
            O_RDONLY
        };
        access | O_CLOEXEC | (if self.append { O_APPEND } else { 0 }) | (if self.truncate {
            O_TRUNC
        } else {
            0
        }) | (if self.create { O_CREAT } else { 0 }) | (if self.create_new {
            O_CREAT | O_EXCL
        } else {
            0
        }) | ((self.custom_flags as usize) & 0o77777777)
    }

    /// Compute the `openat(2)` flag word.
    pub fn open_flags(&self) -> (f: usize)
        ensures
            f == self.flags_spec(),
    {
        let mut flags = if self.read && (self.write || self.append) {
            O_RDWR
        } else if self.write || self.append {
            O_WRONLY
        } else {
            O_RDONLY
        };
        flags = flags | O_CLOEXEC;
        flags = flags | (if self.append { O_APPEND } else { 0 });
        flags = flags | (if self.truncate { O_TRUNC } else { 0 });
        flags = flags | (if self.create { O_CREAT } else { 0 });
        flags = flags | (if self.create_new { O_CREAT | O_EXCL } else { 0 });
        flags = flags | ((self.custom_flags as usize) & 0o77777777);
        flags
    }
}

/// The options `File::open` uses: read only.
pub fn open_read_options() -> (o: OpenOptions)
    ensures
        o == (OpenOptions { read: true, ..default_open_options() }),
{
    let mut o = OpenOptions::new();
    o.read(true);
    o
}

/// The options `File::create` uses: write, create, truncate.
pub fn create_options() -> (o: OpenOptions)
    ensures
        o == (OpenOptions { write: true, create: true, truncate: true, ..default_open_options() }),
{
    let mut o = OpenOptions::new();
    o.write(true).create(true).truncate(true);
    o
}

/// How the parts of a flag word combine: the access mode is the chosen
/// mode plus whatever access bits the custom flags add, and the
/// close-on-exec bit is always set.
proof fn lemma_flag_bits(acc: usize, a: usize, t: usize, c: usize, n: usize, cu: usize)
    by (bit_vector)
    requires
        acc == 0 || acc == 1 || acc == 2,
        a == 0 || a == 0o2000,
        t == 0 || t == 0o1000,
        c == 0 || c == 0o100,
        n == 0 || n == 0o300,
    ensures
        (acc | 0o2000000 | a | t | c | n | (cu & 0o77777777)) & 3 == acc | (cu & 3),
        (acc | 0o2000000 | a | t | c | n | (cu & 0o77777777)) & 0o2000000 != 0,
        a != 0 ==> (acc | 0o2000000 | a | t | c | n | (cu & 0o77777777)) & 0o2000 != 0,
        acc != 0 ==> acc | (cu & 3) != 0,
        acc == 2 ==> (acc | 0o2000000 | a | t | c | n | (cu & 0o77777777)) & 2 != 0,
        acc == 1 ==> (acc | 0o2000000 | a | t | c | n | (cu & 0o77777777)) & 1 != 0,
        cu == 0 ==> acc | 0o2000000 | a | t | c | n | (cu & 0o77777777) == acc | 0o2000000 | a | t | c | n,
        t != 0 ==> (acc | 0o2000000 | a | t | c | n | (cu & 0o77777777)) & 0o1000 != 0,
        c != 0 ==> (acc | 0o2000000 | a | t | c | n | (cu & 0o77777777)) & 0o100 != 0,
        n != 0 ==> (acc | 0o2000000 | a | t | c | n | (cu & 0o77777777)) & 0o300 == 0o300,
        n != 0 ==> (acc | 0o2000000 | a | t | c | n | (cu & 0o77777777)) & 0o100 != 0,
        n != 0 ==> (acc | 0o2000000 | a | t | c | n | (cu & 0o77777777)) & 0o200 != 0,
        cu == 0 && a == 0 ==> (acc | 0o2000000 | a | t | c | n | (cu & 0o77777777)) & 0o2000 == 0,
        cu == 0 && t == 0 ==> (acc | 0o2000000 | a | t | c | n | (cu & 0o77777777)) & 0o1000 == 0,
        cu == 0 && c == 0 && n == 0 ==> (acc | 0o2000000 | a | t | c | n | (cu & 0o77777777)) & 0o100 == 0,
        cu == 0 && n == 0 ==> (acc | 0o2000000 | a | t | c | n | (cu & 0o77777777)) & 0o200 == 0,
        cu & 3 == 0 ==> acc | (cu & 3) == acc,
{
}

/// The access mode of the flag word follows what was asked for: writing or
/// appending never opens read-only, together with reading it opens
/// read-write and alone write-only (custom flags can only add access bits),
/// and with neither the file opens read-only. Appending sets `O_APPEND`,
/// truncating and creating set their bits, and without custom flags no
/// such bit is set that was not asked for; close-on-exec is always set;
/// options that ask for appending alone
/// give exactly `O_WRONLY | O_CLOEXEC | O_APPEND`.
pub proof fn lemma_open_access_mode(o: OpenOptions)
    ensures
        o.write || o.append ==> o.flags_spec() & 3 != O_RDONLY,
        o.read && (o.write || o.append) ==> o.flags_spec() & O_RDWR != 0,
        !o.read && (o.write || o.append) ==> o.flags_spec() & O_WRONLY != 0,
        (o.custom_flags as usize) & 3 == 0 && !o.read && (o.write || o.append) ==> o.flags_spec() & 3 == O_WRONLY,
        (o.custom_flags as usize) & 3 == 0 && o.read && (o.write || o.append) ==> o.flags_spec() & 3 == O_RDWR,
        (o.custom_flags as usize) & 3 == 0 && !o.write && !o.append ==> o.flags_spec() & 3 == O_RDONLY,
        o.append ==> o.flags_spec() & O_APPEND != 0,
        o.truncate ==> o.flags_spec() & O_TRUNC != 0,
        o.create ==> o.flags_spec() & O_CREAT != 0,
        o.create_new ==> o.flags_spec() & (O_CREAT | O_EXCL) == O_CREAT | O_EXCL,
        o.custom_flags == 0 ==> (o.flags_spec() & O_APPEND != 0 <==> o.append),
        o.custom_flags == 0 ==> (o.flags_spec() & O_TRUNC != 0 <==> o.truncate),
        o.custom_flags == 0 ==> (o.flags_spec() & O_CREAT != 0 <==> o.create || o.create_new),
        o.custom_flags == 0 ==> (o.flags_spec() & O_EXCL != 0 <==> o.create_new),
        o.flags_spec() & O_CLOEXEC != 0,
        o.append && !o.read && !o.write && !o.truncate && !o.create && !o.create_new && o.custom_flags == 0
            ==> o.flags_spec() == O_WRONLY | O_CLOEXEC | O_APPEND,
{
    let acc: usize = if o.read && (o.write || o.append) {
        O_RDWR
    } else if o.write || o.append {
        O_WRONLY
    } else {
        O_RDONLY
    };
    let a: usize = if o.append { O_APPEND } else { 0 };
    let t: usize = if o.truncate { O_TRUNC } else { 0 };
    let c: usize = if o.create { O_CREAT } else { 0 };
    let n: usize = if o.create_new { O_CREAT | O_EXCL } else { 0 };
    assert(O_CREAT | O_EXCL == 0o300usize) by (bit_vector);
    let cu: usize = o.custom_flags as usize;
    assert(o.flags_spec() == acc | 0o2000000 | a | t | c | n | (cu & 0o77777777));
    lemma_flag_bits(acc, a, t, c, n, cu);
    if o.custom_flags == 0 {
        assert(cu == 0);
    }
    if o.append && !o.read && !o.write && !o.truncate && !o.create && !o.create_new && o.custom_flags == 0 {
        assert(acc == 1 && a == 0o2000 && t == 0 && c == 0 && n == 0 && cu == 0);
        assert(1usize | 0o2000000usize | 0o2000usize | 0usize | 0usize | 0usize == 0o2002001usize) by (bit_vector);
        assert(O_WRONLY | O_CLOEXEC | O_APPEND == 0o2002001usize) by (bit_vector);
        assert(o.flags_spec() == acc | 0o2000000 | a | t | c | n);
    }
}

/// The options `OpenOptions::new` returns.
pub open spec fn default_open_options() -> OpenOptions {
    OpenOptions {
        read: false,
        write: false,
        append: false,
        truncate: false,
        create: false,
        create_new: false,
        mode: 0o666,
        custom_flags: 0,
    }
}

} // verus!
