//! The storage contract's data types and the path normaliser.

use vstd::prelude::*;

verus! {

/// Errors a storage backend reports; every native error is classified
/// into one of these kinds.
#[derive(Debug, Clone, PartialEq, Eq)]
pub enum BackendError {
    NotFound,
    PermissionDenied,
    AlreadyExists,
    NotADirectory,
    IsADirectory,
    DirectoryNotEmpty,
    Io(String),
    Other(String),
}

/// Result of a backend operation.
pub type BackendResult<T> = Result<T, BackendError>;

/// Metadata of a file or directory.
#[derive(Debug, Clone, Copy, PartialEq, Eq, Structural)]
pub struct FileInfo {
    pub size: u64,
    pub is_dir: bool,
    pub permissions: u32,
    pub mtime: u32,
    pub atime: u32,
    pub uid: u32,
    pub gid: u32,
}

/// Size reported for directories by backends without native metadata.
pub const DIR_SIZE: u64 = 4096;

/// Mode bits of a directory without native metadata (`rwxr-xr-x`).
pub const DIR_MODE: u32 = 0o755;

/// Mode bits of a file without native metadata (`rw-r--r--`).
pub const FILE_MODE: u32 = 0o644;

/// Owner and group reported by backends without native metadata.
pub const DEFAULT_OWNER: u32 = 1000;

/// Directory metadata with the defaults, whatever its timestamps.
pub open spec fn is_default_dir_info(info: FileInfo) -> bool {
    &&& info.size == DIR_SIZE
    &&& info.is_dir
    &&& info.permissions == DIR_MODE
    &&& info.uid == DEFAULT_OWNER
    &&& info.gid == DEFAULT_OWNER
}

/// File metadata with the defaults and the given size, whatever its timestamps.
pub open spec fn is_default_file_info(info: FileInfo, size: u64) -> bool {
    &&& info.size == size
    &&& !info.is_dir
    &&& info.permissions == FILE_MODE
    &&& info.uid == DEFAULT_OWNER
    &&& info.gid == DEFAULT_OWNER
}

/// Directory metadata with the defaults, modified and accessed at `mtime`.
pub open spec fn dir_info_at(mtime: u32) -> FileInfo {
    FileInfo {
        size: DIR_SIZE,
        is_dir: true,
        permissions: DIR_MODE,
        mtime,
        atime: mtime,
        uid: DEFAULT_OWNER,
        gid: DEFAULT_OWNER,
    }
}

/// File metadata with the defaults, of `size` bytes, modified and accessed at `mtime`.
pub open spec fn file_info_at(size: u64, mtime: u32) -> FileInfo {
    FileInfo {
        size,
        is_dir: false,
        permissions: FILE_MODE,
        mtime,
        atime: mtime,
        uid: DEFAULT_OWNER,
        gid: DEFAULT_OWNER,
    }
}

impl FileInfo {
    /// Metadata of a directory, stamped with the current time.
    pub fn directory() -> (r: FileInfo)
        ensures
            is_default_dir_info(r),
    {
        FileInfo {
            size: DIR_SIZE,
            is_dir: true,
            permissions: DIR_MODE,
            mtime: current_timestamp(),
            atime: current_timestamp(),
            uid: DEFAULT_OWNER,
            gid: DEFAULT_OWNER,
        }
    }

    /// Metadata of a directory modified at `mtime`.
    pub fn directory_with_mtime(mtime: u32) -> (r: FileInfo)
        ensures
            r == dir_info_at(mtime),
    {
        FileInfo {
            size: DIR_SIZE,
            is_dir: true,
            permissions: DIR_MODE,
            mtime,
            atime: mtime,
            uid: DEFAULT_OWNER,
            gid: DEFAULT_OWNER,
        }
    }

    /// Metadata of a regular file of `size` bytes, stamped with the current time.
    pub fn file(size: u64) -> (r: FileInfo)
        ensures
            is_default_file_info(r, size),
    {
        FileInfo {
            size,
            is_dir: false,
            permissions: FILE_MODE,
            mtime: current_timestamp(),
            atime: current_timestamp(),
            uid: DEFAULT_OWNER,
            gid: DEFAULT_OWNER,
        }
    }

    /// Metadata of a regular file of `size` bytes modified at `mtime`.
    pub fn file_with_mtime(size: u64, mtime: u32) -> (r: FileInfo)
        ensures
            r == file_info_at(size, mtime),
    {
        FileInfo {
            size,
            is_dir: false,
            permissions: FILE_MODE,
            mtime,
            atime: mtime,
            uid: DEFAULT_OWNER,
            gid: DEFAULT_OWNER,
        }
    }
}

/// One entry of a directory listing.
#[derive(Debug, Clone)]
pub struct DirEntry {
    pub name: String,
    pub attrs: FileInfo,
}

impl View for DirEntry {
    type V = (Seq<char>, FileInfo);

    open spec fn view(&self) -> (Seq<char>, FileInfo) {
        (self.name@, self.attrs)
    }
}

/// The error `SystemTime::elapsed` reports for a clock set before the epoch,
/// carried through opaquely.
#[verifier::external_type_specification]
#[verifier::external_body]
pub struct ExSystemTimeError(std::time::SystemTimeError);

/// Relies on `SystemTime::elapsed` on the Unix epoch: the time since the
/// epoch, or an error when the clock stands before it.
#[verifier::external_body]
fn elapsed_since_epoch() -> (r: Result<std::time::Duration, std::time::SystemTimeError>) {
    std::time::UNIX_EPOCH.elapsed()
}

/// Relies on `Duration::as_secs`: the whole seconds of a duration. Nothing
/// is stated of the value, since the duration itself comes from the clock.
pub assume_specification[ core::time::Duration::as_secs ](d: &core::time::Duration) -> u64;

/// A Unix timestamp from whole seconds since the epoch: truncated to 32
/// bits, and 0 when the clock gave no reading.
pub fn timestamp_from(secs: Option<u64>) -> (r: u32)
    ensures
        r == match secs {
            Some(s) => s as u32,
            None => 0u32,
        },
{
    match secs {
        Some(s) => s as u32,
        None => 0,
    }
}

/// The current Unix time in seconds, as `timestamp_from` makes it of the
/// clock's reading. The reading itself is the wall clock's and is not
/// stated.
pub fn current_timestamp() -> (r: u32) {
    let secs = match elapsed_since_epoch() {
        Ok(d) => Some(d.as_secs()),
        Err(_) => None,
    };
    timestamp_from(secs)
}

/// Strips every leading `/`.
pub open spec fn skip_slashes(p: Seq<char>) -> Seq<char>
    decreases p.len(),
{
    if p.len() > 0 && p[0] == '/' {
        skip_slashes(p.drop_first())
    } else {
        p
    }
}

/// Strips every trailing `/`.
pub open spec fn drop_slashes(p: Seq<char>) -> Seq<char>
    decreases p.len(),
{
    if p.len() > 0 && p.last() == '/' {
        drop_slashes(p.drop_last())
    } else {
        p
    }
}

/// The normal form of a client path: edge slashes removed, and `.` or an
/// empty remainder taken as the root (the empty key).
pub open spec fn normalize(p: Seq<char>) -> Seq<char> {
    let t = drop_slashes(skip_slashes(p));
    if t == seq!['.'] {
        Seq::empty()
    } else {
        t
    }
}

proof fn lemma_skip_slashes_shape(p: Seq<char>)
    ensures
        skip_slashes(p).len() <= p.len(),
        skip_slashes(p) == p.subrange(p.len() - skip_slashes(p).len(), p.len() as int),
        skip_slashes(p).len() > 0 ==> skip_slashes(p)[0] != '/',
        forall|i: int| 0 <= i < p.len() - skip_slashes(p).len() ==> p[i] == '/',
    decreases p.len(),
{
    if p.len() > 0 && p[0] == '/' {
        let q = p.drop_first();
        lemma_skip_slashes_shape(q);
        assert(q.subrange(q.len() - skip_slashes(q).len(), q.len() as int) =~= p.subrange(
            p.len() - skip_slashes(p).len(),
            p.len() as int,
        ));
        assert forall|i: int| 0 <= i < p.len() - skip_slashes(p).len() implies p[i] == '/' by {
            if i > 0 {
                assert(p.drop_first()[i - 1] == p[i]);
            }
        }
    } else {
        assert(p =~= p.subrange(0, p.len() as int));
    }
}

proof fn lemma_drop_slashes_shape(p: Seq<char>)
    ensures
        drop_slashes(p).len() <= p.len(),
        drop_slashes(p) == p.subrange(0, drop_slashes(p).len() as int),
        drop_slashes(p).len() > 0 ==> drop_slashes(p).last() != '/',
        forall|i: int| drop_slashes(p).len() <= i < p.len() ==> p[i] == '/',
    decreases p.len(),
{
    if p.len() > 0 && p.last() == '/' {
        let q = p.drop_last();
        lemma_drop_slashes_shape(q);
        assert(q.subrange(0, drop_slashes(q).len() as int) =~= p.subrange(
            0,
            drop_slashes(p).len() as int,
        ));
        assert forall|i: int| drop_slashes(p).len() <= i < p.len() implies p[i] == '/' by {
            if i < p.len() - 1 {
                assert(p.drop_last()[i] == p[i]);
            }
        }
    } else {
        assert(p =~= p.subrange(0, p.len() as int));
    }
}

proof fn lemma_skip_slashes_fixed(p: Seq<char>)
    requires
        p.len() == 0 || p[0] != '/',
    ensures
        skip_slashes(p) == p,
{
}

proof fn lemma_drop_slashes_fixed(p: Seq<char>)
    requires
        p.len() == 0 || p.last() != '/',
    ensures
        drop_slashes(p) == p,
{
}

/// A normalised path has no slash at either edge.
proof fn lemma_normalize_edges(p: Seq<char>)
    ensures
        normalize(p).len() > 0 ==> normalize(p)[0] != '/' && normalize(p).last() != '/',
{
    let s = skip_slashes(p);
    lemma_skip_slashes_shape(p);
    lemma_drop_slashes_shape(s);
    let t = drop_slashes(s);
    if t.len() > 0 {
        assert(t[0] == s.subrange(0, t.len() as int)[0]);
    }
}

/// Normalising twice gives what normalising once gives.
pub proof fn lemma_normalize_idempotent(p: Seq<char>)
    ensures
        normalize(normalize(p)) == normalize(p),
{
    let n = normalize(p);
    lemma_normalize_edges(p);
    lemma_skip_slashes_fixed(n);
    lemma_drop_slashes_fixed(n);
    if n.len() == 0 {
        assert(normalize(n) == n) by {
            assert(skip_slashes(n) == n);
            assert(drop_slashes(n) == n);
        }
    }
}

/// A non-empty normal form neither starts nor ends with `/`.
pub proof fn lemma_normalize_no_edge_slash(p: Seq<char>)
    ensures
        normalize(p).len() > 0 ==> normalize(p).first() != '/',
        normalize(p).len() > 0 ==> normalize(p).last() != '/',
{
    lemma_normalize_edges(p);
}

/// A path made of slashes only normalises to the root.
pub proof fn lemma_all_slashes_is_root(p: Seq<char>)
    requires
        p.len() > 0,
        forall|i: int| 0 <= i < p.len() ==> p[i] == '/',
    ensures
        normalize(p) == Seq::<char>::empty(),
{
    lemma_skip_slashes_shape(p);
    let s = skip_slashes(p);
    if s.len() > 0 {
        let k = p.len() - s.len();
        assert(s[0] == p.subrange(k, p.len() as int)[0]);
        assert(s[0] == p[k]);
    }
    assert(s.len() == 0);
}

/// Normalise a path: trim leading and trailing slashes; `.` and the
/// empty remainder become the root, the empty string.
pub fn normalize_path(path: &str) -> (r: String)
    ensures
        r@ == normalize(path@),
{
    let n = path.unicode_len();
    let mut i: usize = 0;
    assert(path@.subrange(0, n as int) =~= path@);
    while i < n && path.get_char(i) == '/'
        invariant
            n == path@.len(),
            i <= n,
            skip_slashes(path@) == skip_slashes(path@.subrange(i as int, n as int)),
        decreases n - i,
    {
        assert(path@.subrange(i as int, n as int).drop_first() == path@.subrange(i + 1, n as int));
        i = i + 1;
    }
    assert(skip_slashes(path@) == path@.subrange(i as int, n as int));
    let mut j: usize = n;
    while j > i && path.get_char(j - 1) == '/'
        invariant
            n == path@.len(),
            i <= j <= n,
            drop_slashes(path@.subrange(i as int, n as int)) == drop_slashes(
                path@.subrange(i as int, j as int),
            ),
        decreases j - i,
    {
        assert(path@.subrange(i as int, j as int).drop_last() == path@.subrange(
            i as int,
            j - 1,
        ));
        j = j - 1;
    }
    let trimmed = path.substring_char(i, j);
    assert(trimmed@ == drop_slashes(skip_slashes(path@)));
    if j - i == 1 && path.get_char(i) == '.' {
        assert(trimmed@ == seq!['.']);
        String::new()
    } else {
        assert(trimmed@ != seq!['.']);
        trimmed.to_owned()
    }
}

/// A copy of `v`.
pub fn copy_bytes(v: &Vec<u8>) -> (r: Vec<u8>)
    ensures
        r@ == v@,
{
    let mut out: Vec<u8> = Vec::new();
    let mut i: usize = 0;
    while i < v.len()
        invariant
            i <= v.len(),
            out@ == v@.take(i as int),
        decreases v.len() - i,
    {
        out.push(v[i]);
        assert(v@.take(i + 1) =~= v@.take(i as int).push(v[i as int]));
        i = i + 1;
    }
    assert(v@.take(v.len() as int) =~= v@);
    out
}

} // verus!
