//! The SFTP request handler of one session: its handle state machine, the
//! write-at-offset and read-snapshot policies, and the error mapping.
//!
//! Backend calls may suspend, so they stand outside: each request that
//! needs one is served in two steps, the first saying what to ask the
//! backend and the second taking the backend's answer.

use vstd::prelude::*;

use crate::backend::{
    is_default_dir_info, is_default_file_info, normalize, normalize_path, BackendError,
    BackendResult, DirEntry, FileInfo,
};
use crate::handle::{lookup, removed, tokens_below, updated, HandleManager, HandleType, HandleView};

verus! {

/// The SFTP status codes a request fails with.
#[derive(Debug, Clone, Copy, PartialEq, Eq, Structural)]
pub enum StatusCode {
    Eof,
    NoSuchFile,
    PermissionDenied,
    Failure,
    BadMessage,
    NoConnection,
    ConnectionLost,
    OpUnsupported,
}

/// The status a backend error is reported with.
pub open spec fn status_for(e: BackendError) -> StatusCode {
    match e {
        BackendError::NotFound => StatusCode::NoSuchFile,
        BackendError::PermissionDenied => StatusCode::PermissionDenied,
        BackendError::NotADirectory => StatusCode::NoSuchFile,
        _ => StatusCode::Failure,
    }
}

impl From<BackendError> for StatusCode {
    fn from(err: BackendError) -> (r: StatusCode)
        ensures
            r == status_for(err),
    {
        match err {
            BackendError::NotFound => StatusCode::NoSuchFile,
            BackendError::PermissionDenied => StatusCode::PermissionDenied,
            BackendError::AlreadyExists => StatusCode::Failure,
            BackendError::NotADirectory => StatusCode::NoSuchFile,
            BackendError::IsADirectory => StatusCode::Failure,
            BackendError::DirectoryNotEmpty => StatusCode::Failure,
            BackendError::Io(_) => StatusCode::Failure,
            BackendError::Other(_) => StatusCode::Failure,
        }
    }
}

impl vstd::std_specs::convert::FromSpecImpl<BackendError> for StatusCode {
    open spec fn obeys_from_spec() -> bool {
        true
    }

    open spec fn from_spec(v: BackendError) -> StatusCode {
        status_for(v)
    }
}

/// A backend result with its error reported as a status.
pub fn status_result<T>(r: BackendResult<T>) -> (s: Result<T, StatusCode>)
    ensures
        match r {
            Ok(v) => s == Ok::<T, StatusCode>(v),
            Err(e) => s == Err::<T, StatusCode>(status_for(e)),
        },
{
    match r {
        Ok(v) => Ok(v),
        Err(e) => Err(StatusCode::from(e)),
    }
}

/// The open flag that asks for writing.
pub const OPEN_WRITE: u32 = 0x2;

/// Whether open flags `pflags` ask for writing.
pub fn opens_for_write(pflags: u32) -> (r: bool)
    ensures
        r == (pflags & OPEN_WRITE != 0),
{
    pflags & OPEN_WRITE != 0
}

/// The absolute form of a client path: `/` followed by its normal form.
pub fn realpath(path: &str) -> (r: String)
    ensures
        r@ == seq!['/'] + normalize(path@),
{
    let normalized = normalize_path(path);
    proof {
        reveal_strlit("/");
    }
    let mut r = String::from_str("/");
    r.append(normalized.as_str());
    r
}

/// A write buffer after writing `data` at offset `off`: the buffer grows
/// to cover the write, a gap is filled with zeros, and the bytes at
/// `[off, off + data.len())` become `data`.
pub open spec fn spliced(buf: Seq<u8>, off: int, data: Seq<u8>) -> Seq<u8> {
    let end = off + data.len();
    let len = if end > buf.len() {
        end
    } else {
        buf.len() as int
    };
    Seq::new(
        len as nat,
        |i: int|
            if off <= i < end {
                data[i - off]
            } else if i < buf.len() {
                buf[i]
            } else {
                0u8
            },
    )
}

/// The bytes a read of `len` bytes at `off` serves from `content`, which
/// must start before its end.
pub open spec fn read_window(content: Seq<u8>, off: int, len: int) -> Seq<u8> {
    let end = if off + len < content.len() {
        off + len
    } else {
        content.len() as int
    };
    content.subrange(off, end)
}

/// The table after a directory handle's first read: it is marked done.
pub open spec fn mark_read(table: Map<u64, HandleView>, token: Seq<char>) -> Map<u64, HandleView> {
    match lookup(table, token) {
        Some(HandleView::Dir { path, read_done }) => updated(
            table,
            token,
            HandleView::Dir { path, read_done: true },
        ),
        _ => table,
    }
}

/// What `fstat` needs once the handle is known.
pub enum FstatStep {
    /// The handle is a directory: this is its metadata.
    Done(FileInfo),
    /// The handle is a file at `path` holding `size` bytes: look `path` up
    /// and merge.
    Lookup { path: String, size: u64 },
}

/// The request handler of one SFTP session.
pub struct SftpHandler {
    handles: HandleManager,
}

impl SftpHandler {
    /// The open handles by number.
    pub closed spec fn table(&self) -> Map<u64, HandleView> {
        self.handles.table()
    }

    /// The number the next created handle gets.
    pub closed spec fn next_id(&self) -> nat {
        self.handles.next_id()
    }

    /// The token the next created handle gets.
    pub open spec fn next_token(&self) -> Seq<char> {
        crate::handle::decimal(self.next_id())
    }

    /// A handler with no open handles.
    pub fn new() -> (r: SftpHandler)
        ensures
            r.table() == Map::<u64, HandleView>::empty(),
            r.next_id() == 1,
    {
        SftpHandler { handles: HandleManager::new() }
    }

    /// Creates a handle for `h`, or fails when numbers have run out.
    fn issue(&mut self, h: HandleType) -> (r: Result<String, StatusCode>)
        ensures
            self_issued(*old(self), *final(self), r, h@),
    {
        if !self.handles.can_create() {
            return Err(StatusCode::Failure);
        }
        Ok(self.handles.create(h))
    }

    /// Opens a directory handle on `path` once the backend has described it:
    /// a directory gets a handle, anything else is `NoSuchFile`.
    pub fn opendir(&mut self, path: &str, info: BackendResult<FileInfo>) -> (r: Result<String, StatusCode>)
        ensures
            match info {
                Err(e) => r == Err::<String, StatusCode>(status_for(e)) && final(self).table()
                    == old(self).table() && final(self).next_id() == old(self).next_id(),
                Ok(i) => if !i.is_dir {
                    r == Err::<String, StatusCode>(StatusCode::NoSuchFile) && final(self).table()
                        == old(self).table() && final(self).next_id() == old(self).next_id()
                } else {
                    self_issued(
                        *old(self),
                        *final(self),
                        r,
                        HandleView::Dir { path: normalize(path@), read_done: false },
                    )
                },
            },
    {
        match info {
            Err(e) => Err(StatusCode::from(e)),
            Ok(i) => {
                if !i.is_dir {
                    return Err(StatusCode::NoSuchFile);
                }
                let normalized = normalize_path(path);
                self.issue(HandleType::Dir { path: normalized, read_done: false })
            },
        }
    }

    /// The directory to list for a read of `handle`: its path when it is a
    /// directory handle not yet read; `Eof` once read; `Failure` otherwise.
    pub fn readdir_target(&self, handle: &str) -> (r: Result<String, StatusCode>)
        ensures
            match lookup(self.table(), handle@) {
                Some(HandleView::Dir { path, read_done }) => if read_done {
                    r == Err::<String, StatusCode>(StatusCode::Eof)
                } else {
                    r matches Ok(p) && p@ == path
                },
                _ => r == Err::<String, StatusCode>(StatusCode::Failure),
            },
    {
        match self.handles.get(handle) {
            Some(HandleType::Dir { path, read_done }) => {
                if read_done {
                    Err(StatusCode::Eof)
                } else {
                    Ok(path)
                }
            },
            _ => Err(StatusCode::Failure),
        }
    }

    /// Serves a read of directory `handle` with the backend's listing: the
    /// listing is returned and the handle marked done.
    pub fn readdir_finish(&mut self, handle: &str, listing: BackendResult<Vec<DirEntry>>) -> (r: Result<
        Vec<DirEntry>,
        StatusCode,
    >)
        ensures
            final(self).next_id() == old(self).next_id(),
            match listing {
                Err(e) => r == Err::<Vec<DirEntry>, StatusCode>(status_for(e)) && final(self).table()
                    == old(self).table(),
                Ok(v) => r == Ok::<Vec<DirEntry>, StatusCode>(v) && final(self).table() == mark_read(
                    old(self).table(),
                    handle@,
                ),
            },
    {
        match listing {
            Err(e) => Err(StatusCode::from(e)),
            Ok(v) => {
                match self.handles.get(handle) {
                    Some(HandleType::Dir { path, read_done }) => {
                        self.handles.update(handle, HandleType::Dir { path, read_done: true });
                    },
                    _ => {},
                }
                Ok(v)
            },
        }
    }

    /// Opens `path` for writing, with an empty buffer.
    pub fn open_write(&mut self, path: &str) -> (r: Result<String, StatusCode>)
        ensures
            self_issued(
                *old(self),
                *final(self),
                r,
                HandleView::Write { path: normalize(path@), buffer: Seq::empty() },
            ),
    {
        let normalized = normalize_path(path);
        self.issue(HandleType::Write { path: normalized, buffer: Vec::new() })
    }

    /// Opens `path` for reading with the content the backend read, which
    /// the handle serves for its whole life.
    pub fn open_read(&mut self, path: &str, content: BackendResult<Vec<u8>>) -> (r: Result<
        String,
        StatusCode,
    >)
        ensures
            match content {
                Err(e) => r == Err::<String, StatusCode>(status_for(e)) && final(self).table()
                    == old(self).table() && final(self).next_id() == old(self).next_id(),
                Ok(c) => self_issued(
                    *old(self),
                    *final(self),
                    r,
                    HandleView::Read { path: normalize(path@), content: c@ },
                ),
            },
    {
        match content {
            Err(e) => Err(StatusCode::from(e)),
            Ok(c) => {
                let normalized = normalize_path(path);
                self.issue(HandleType::Read { path: normalized, content: c })
            },
        }
    }

    /// Reads up to `len` bytes at `offset` from a read handle's snapshot;
    /// `Eof` at or past its end, `Failure` for any other handle.
    pub fn read(&self, handle: &str, offset: u64, len: u32) -> (r: Result<Vec<u8>, StatusCode>)
        ensures
            match lookup(self.table(), handle@) {
                Some(HandleView::Read { path, content }) => if offset >= content.len() {
                    r == Err::<Vec<u8>, StatusCode>(StatusCode::Eof)
                } else {
                    r matches Ok(d) && d@ == read_window(content, offset as int, len as int)
                },
                _ => r == Err::<Vec<u8>, StatusCode>(StatusCode::Failure),
            },
    {
        match self.handles.get(handle) {
            Some(HandleType::Read { path, content }) => {
                let size = content.len() as u64;
                if offset >= size {
                    return Err(StatusCode::Eof);
                }
                let end: u64 = if len as u64 >= size - offset {
                    size
                } else {
                    offset + len as u64
                };
                let mut out: Vec<u8> = Vec::new();
                let mut i: usize = offset as usize;
                while i < end as usize
                    invariant
                        offset <= i <= end <= size,
                        size == content@.len(),
                        out@ == content@.subrange(offset as int, i as int),
                    decreases end - i,
                {
                    out.push(content[i]);
                    assert(content@.subrange(offset as int, i + 1) =~= content@.subrange(
                        offset as int,
                        i as int,
                    ).push(content@[i as int]));
                    i = i + 1;
                }
                Ok(out)
            },
            _ => Err(StatusCode::Failure),
        }
    }

    /// Writes `data` at `offset` into a write handle's buffer; `Failure`
    /// for any other handle, or when the write would end past `usize::MAX`.
    pub fn write(&mut self, handle: &str, offset: u64, data: &Vec<u8>) -> (r: Result<(), StatusCode>)
        ensures
            final(self).next_id() == old(self).next_id(),
            match lookup(old(self).table(), handle@) {
                Some(HandleView::Write { path, buffer }) => if offset + data@.len() > usize::MAX {
                    r == Err::<(), StatusCode>(StatusCode::Failure) && final(self).table() == old(
                        self,
                    ).table()
                } else {
                    r == Ok::<(), StatusCode>(()) && final(self).table() == updated(
                        old(self).table(),
                        handle@,
                        HandleView::Write { path, buffer: spliced(buffer, offset as int, data@) },
                    )
                },
                _ => r == Err::<(), StatusCode>(StatusCode::Failure) && final(self).table() == old(
                    self,
                ).table(),
            },
    {
        match self.handles.get(handle) {
            Some(HandleType::Write { path, buffer }) => {
                if offset > usize::MAX as u64 || data.len() > usize::MAX - offset as usize {
                    return Err(StatusCode::Failure);
                }
                let off = offset as usize;
                let ghost orig = buffer@;
                let mut buf = buffer;
                assert(buf@ =~= spliced(orig, buf.len() as int, Seq::empty()));
                while buf.len() < off
                    invariant
                        orig.len() <= buf.len(),
                        buf.len() <= if off > orig.len() {
                            off as int
                        } else {
                            orig.len() as int
                        },
                        buf@ == spliced(orig, buf.len() as int, Seq::empty()),
                    decreases off - buf.len(),
                {
                    buf.push(0u8);
                    assert(buf@ =~= spliced(orig, buf.len() as int, Seq::empty()));
                }
                assert(buf@ =~= spliced(orig, off as int, data@.take(0)));
                let mut k: usize = 0;
                while k < data.len()
                    invariant
                        off + data@.len() <= usize::MAX,
                        k <= data.len(),
                        buf@ == spliced(orig, off as int, data@.take(k as int)),
                    decreases data.len() - k,
                {
                    let pos = off + k;
                    if pos < buf.len() {
                        buf.set(pos, data[k]);
                    } else {
                        buf.push(data[k]);
                    }
                    assert(buf@ =~= spliced(orig, off as int, data@.take(k + 1)));
                    k = k + 1;
                }
                assert(data@.take(data.len() as int) =~= data@);
                self.handles.update(handle, HandleType::Write { path, buffer: buf });
                Ok(())
            },
            _ => Err(StatusCode::Failure),
        }
    }

    /// What closing `handle` must flush first: the path and buffer of a
    /// write handle; nothing for any other handle.
    pub fn close_target(&self, handle: &str) -> (r: Option<(String, Vec<u8>)>)
        ensures
            match lookup(self.table(), handle@) {
                Some(HandleView::Write { path, buffer }) => r matches Some(f) && f.0@ == path
                    && f.1@ == buffer,
                _ => r is None,
            },
    {
        match self.handles.get(handle) {
            Some(HandleType::Write { path, buffer }) => Some((path, buffer)),
            _ => None,
        }
    }

    /// Closes `handle` once its flush, if any, has run: a failed flush
    /// keeps the handle and reports the error; otherwise the handle is
    /// dropped, and an unknown handle closes as a no-op.
    pub fn close_finish(&mut self, handle: &str, flushed: BackendResult<()>) -> (r: Result<(), StatusCode>)
        ensures
            final(self).next_id() == old(self).next_id(),
            match flushed {
                Err(e) => r == Err::<(), StatusCode>(status_for(e)) && final(self).table() == old(
                    self,
                ).table(),
                Ok(_) => r == Ok::<(), StatusCode>(()) && final(self).table() == removed(
                    old(self).table(),
                    handle@,
                ),
            },
    {
        match flushed {
            Err(e) => Err(StatusCode::from(e)),
            Ok(_) => {
                let _ = self.handles.remove(handle);
                Ok(())
            },
        }
    }

    /// What `fstat` of `handle` needs: directory metadata at once for a
    /// directory handle, or the path and current size of a file handle.
    pub fn fstat_target(&self, handle: &str) -> (r: Result<FstatStep, StatusCode>)
        ensures
            match lookup(self.table(), handle@) {
                Some(HandleView::Dir { .. }) => r matches Ok(FstatStep::Done(i)) && is_default_dir_info(i),
                Some(HandleView::Read { path, content }) => r matches Ok(FstatStep::Lookup { path: p, size })
                    && p@ == path && size == content.len(),
                Some(HandleView::Write { path, buffer }) => r matches Ok(FstatStep::Lookup { path: p, size })
                    && p@ == path && size == buffer.len(),
                None => r == Err::<FstatStep, StatusCode>(StatusCode::Failure),
            },
    {
        match self.handles.get(handle) {
            Some(HandleType::Read { path, content }) => Ok(FstatStep::Lookup { path, size: content.len() as u64 }),
            Some(HandleType::Write { path, buffer }) => Ok(FstatStep::Lookup { path, size: buffer.len() as u64 }),
            Some(HandleType::Dir { .. }) => Ok(FstatStep::Done(FileInfo::directory())),
            None => Err(StatusCode::Failure),
        }
    }
}

/// Metadata of an open file: what the backend reports with the size taken
/// from the handle, or file defaults of that size when the lookup failed.
pub fn fstat_merge(size: u64, found: BackendResult<FileInfo>) -> (r: FileInfo)
    ensures
        match found {
            Ok(i) => r == (FileInfo { size, ..i }),
            Err(_) => is_default_file_info(r, size),
        },
{
    match found {
        Ok(i) => FileInfo { size, ..i },
        Err(_) => FileInfo::file(size),
    }
}

/// `after` is `before` with a fresh handle for `h`, whose token `r` holds;
/// or, with numbers run out, `before` unchanged and `Failure`.
pub open spec fn self_issued(before: SftpHandler, after: SftpHandler, r: Result<String, StatusCode>, h: HandleView) -> bool {
    if before.next_id() < u64::MAX {
        &&& r matches Ok(t) && t@ == before.next_token() && !tokens_below(before.next_id()).contains(t@)
        &&& after.next_id() == before.next_id() + 1
        &&& after.table() == before.table().insert(before.next_id() as u64, h)
    } else {
        &&& r == Err::<String, StatusCode>(StatusCode::Failure)
        &&& after.next_id() == before.next_id()
        &&& after.table() == before.table()
    }
}


} // verus!
