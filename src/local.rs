//! The local-filesystem backend's own logic: where a key lives under the
//! root directory, how native errors are classified, and how native
//! metadata becomes `FileInfo`. The filesystem calls themselves are made by
//! the server around this library.

use vstd::prelude::*;

use crate::backend::{BackendError, FileInfo};

verus! {

/// `p` adjoined to `root` as a filesystem path: an absolute `p` replaces
/// the root, and a separator is added unless the root is empty or already
/// ends with one.
pub open spec fn joined(root: Seq<char>, p: Seq<char>) -> Seq<char> {
    if p.len() == 0 {
        root
    } else if p[0] == '/' {
        p
    } else if root.len() == 0 || root.last() == '/' {
        root + p
    } else {
        root + seq!['/'] + p
    }
}

/// A backend that stores files under a root directory.
pub struct LocalBackend {
    root: String,
}

impl LocalBackend {
    /// The root directory.
    pub closed spec fn root(&self) -> Seq<char> {
        self.root@
    }

    /// A backend rooted at `root`.
    pub fn new(root: String) -> (r: LocalBackend)
        ensures
            r.root() == root@,
    {
        LocalBackend { root }
    }

    /// The filesystem path of key `path`.
    pub fn full_path(&self, path: &str) -> (r: String)
        ensures
            r@ == joined(self.root(), path@),
    {
        let n = path.unicode_len();
        if n == 0 {
            return self.root.clone();
        }
        if path.get_char(0) == '/' {
            return path.to_owned();
        }
        let rn = self.root.as_str().unicode_len();
        let mut r = self.root.clone();
        if rn != 0 && self.root.as_str().get_char(rn - 1) != '/' {
            proof {
                reveal_strlit("/");
            }
            r.append("/");
        }
        r.append(path);
        r
    }

    /// The backend error for a native error of kind `kind` described by
    /// `message`.
    pub fn error_for_kind(kind: IoErrorKind, message: String) -> (r: BackendError)
        ensures
            r == io_error_for(kind, message),
    {
        match kind {
            IoErrorKind::NotFound => BackendError::NotFound,
            IoErrorKind::PermissionDenied => BackendError::PermissionDenied,
            IoErrorKind::AlreadyExists => BackendError::AlreadyExists,
            IoErrorKind::DirectoryNotEmpty => BackendError::DirectoryNotEmpty,
            IoErrorKind::IsADirectory => BackendError::IsADirectory,
            IoErrorKind::Other => BackendError::Io(message),
        }
    }

    /// Classifies a native I/O error.
    pub fn map_io_error(err: std::io::Error) -> (r: BackendError)
        ensures
            exists|k: IoErrorKind, m: String| r == io_error_for(k, m),
    {
        let kind = io_error_kind(&err);
        let message = io_error_text(&err);
        Self::error_for_kind(kind, message)
    }

    /// Metadata from the native fields of a file: the modification time
    /// defaults to 0 and the access time to the modification time when the
    /// platform does not report them; times are truncated to 32 bits.
    pub fn metadata_to_info(
        size: u64,
        is_dir: bool,
        permissions: u32,
        uid: u32,
        gid: u32,
        modified: Option<u64>,
        accessed: Option<u64>,
    ) -> (r: FileInfo)
        ensures
            r.size == size,
            r.is_dir == is_dir,
            r.permissions == permissions,
            r.uid == uid,
            r.gid == gid,
            r.mtime == match modified {
                Some(s) => s as u32,
                None => 0u32,
            },
            r.atime == match accessed {
                Some(s) => s as u32,
                None => r.mtime,
            },
    {
        let mtime = match modified {
            Some(s) => s as u32,
            None => 0,
        };
        let atime = match accessed {
            Some(s) => s as u32,
            None => mtime,
        };
        FileInfo { size, is_dir, permissions, mtime, atime, uid, gid }
    }
}

/// The kinds of native I/O error that the backend tells apart.
#[derive(Debug, Clone, Copy, PartialEq, Eq, Structural)]
pub enum IoErrorKind {
    NotFound,
    PermissionDenied,
    AlreadyExists,
    DirectoryNotEmpty,
    IsADirectory,
    Other,
}

/// The backend error for a native error of kind `kind` described by `message`.
pub open spec fn io_error_for(kind: IoErrorKind, message: String) -> BackendError {
    match kind {
        IoErrorKind::NotFound => BackendError::NotFound,
        IoErrorKind::PermissionDenied => BackendError::PermissionDenied,
        IoErrorKind::AlreadyExists => BackendError::AlreadyExists,
        IoErrorKind::DirectoryNotEmpty => BackendError::DirectoryNotEmpty,
        IoErrorKind::IsADirectory => BackendError::IsADirectory,
        IoErrorKind::Other => BackendError::Io(message),
    }
}

/// A native I/O error, carried through opaquely.
#[verifier::external_type_specification]
#[verifier::external_body]
pub struct ExIoError(std::io::Error);

/// Relies on `std::io::Error::kind`: which kind of error this is, with the
/// kinds the backend does not tell apart taken together.
#[verifier::external_body]
fn io_error_kind(err: &std::io::Error) -> (r: IoErrorKind) {
    match err.kind() {
        std::io::ErrorKind::NotFound => IoErrorKind::NotFound,
        std::io::ErrorKind::PermissionDenied => IoErrorKind::PermissionDenied,
        std::io::ErrorKind::AlreadyExists => IoErrorKind::AlreadyExists,
        std::io::ErrorKind::DirectoryNotEmpty => IoErrorKind::DirectoryNotEmpty,
        std::io::ErrorKind::IsADirectory => IoErrorKind::IsADirectory,
        _ => IoErrorKind::Other,
    }
}

/// Relies on `ToString::to_string` through the error's `Display`: its
/// description.
#[verifier::external_body]
fn io_error_text(err: &std::io::Error) -> (r: String) {
    err.to_string()
}

} // verus!
