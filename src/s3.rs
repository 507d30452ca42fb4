//! The object-store backend's own logic: object keys under a configured
//! prefix, the classification of store errors, and the directory test. The
//! store requests themselves are made by the server around this library.

use vstd::prelude::*;

use crate::backend::{
    drop_slashes, is_default_dir_info, normalize, normalize_path, BackendError, BackendResult,
    FileInfo,
};
use crate::text::{contains_text, occurs_in};

verus! {

/// Where a bucket's objects live.
#[derive(Debug, Clone)]
pub struct S3Config {
    /// The bucket name.
    pub bucket: String,
    /// A key prefix for every object, possibly empty.
    pub prefix: String,
}

/// The object key of `path` under key prefix `prefix`.
pub open spec fn object_key(prefix: Seq<char>, path: Seq<char>) -> Seq<char> {
    let n = normalize(path);
    if prefix.len() == 0 {
        n
    } else if n.len() == 0 {
        drop_slashes(prefix)
    } else {
        drop_slashes(prefix) + seq!['/'] + n
    }
}

/// The key prefix of the objects under directory `path`.
pub open spec fn listing_prefix(prefix: Seq<char>, path: Seq<char>) -> Seq<char> {
    if normalize(path).len() == 0 {
        if prefix.len() == 0 {
            Seq::empty()
        } else {
            drop_slashes(prefix) + seq!['/']
        }
    } else {
        object_key(prefix, path) + seq!['/']
    }
}

/// Whether `s` mentions `w`.
pub open spec fn mentions(s: Seq<char>, w: Seq<char>) -> bool {
    occurs_in(w, s)
}

/// The backend error for a store error described by `message`: a missing
/// key or a 404 is `NotFound`, a refusal or a 403 is `PermissionDenied`,
/// anything else is an I/O error carrying the message.
pub open spec fn store_error_for(message: String) -> BackendError {
    let m = message@;
    if mentions(m, seq!['N', 'o', 'S', 'u', 'c', 'h', 'K', 'e', 'y']) || mentions(
        m,
        seq!['N', 'o', 't', 'F', 'o', 'u', 'n', 'd'],
    ) || mentions(m, seq!['4', '0', '4']) {
        BackendError::NotFound
    } else if mentions(m, seq!['A', 'c', 'c', 'e', 's', 's', 'D', 'e', 'n', 'i', 'e', 'd']) || mentions(
        m,
        seq!['4', '0', '3'],
    ) {
        BackendError::PermissionDenied
    } else {
        BackendError::Io(message)
    }
}

/// `s` without its trailing slashes.
fn trim_trailing_slashes(s: &str) -> (r: String)
    ensures
        r@ == drop_slashes(s@),
{
    let n = s.unicode_len();
    let mut j: usize = n;
    assert(s@.subrange(0, n as int) =~= s@);
    while j > 0 && s.get_char(j - 1) == '/'
        invariant
            n == s@.len(),
            j <= n,
            drop_slashes(s@) == drop_slashes(s@.subrange(0, j as int)),
        decreases j,
    {
        assert(s@.subrange(0, j as int).drop_last() =~= s@.subrange(0, j - 1));
        j = j - 1;
    }
    s.substring_char(0, j).to_owned()
}

impl S3Config {
    /// A configuration for `bucket` with no key prefix.
    pub fn new(bucket: String) -> (r: S3Config)
        ensures
            r.bucket@ == bucket@,
            r.prefix@ == Seq::<char>::empty(),
    {
        S3Config { bucket, prefix: String::new() }
    }

    /// This configuration with key prefix `prefix`.
    pub fn with_prefix(self, prefix: String) -> (r: S3Config)
        ensures
            r.bucket == self.bucket,
            r.prefix == prefix,
    {
        S3Config { bucket: self.bucket, prefix }
    }

    /// The object key of `path`.
    pub fn build_key(&self, path: &str) -> (r: String)
        ensures
            r@ == object_key(self.prefix@, path@),
    {
        let normalized = normalize_path(path);
        if self.prefix.as_str().unicode_len() == 0 {
            normalized
        } else if normalized.as_str().unicode_len() == 0 {
            trim_trailing_slashes(self.prefix.as_str())
        } else {
            let mut key = trim_trailing_slashes(self.prefix.as_str());
            proof {
                reveal_strlit("/");
            }
            key.append("/");
            key.append(normalized.as_str());
            key
        }
    }

    /// The key prefix of the objects under directory `path`.
    pub fn list_prefix(&self, path: &str) -> (r: String)
        ensures
            r@ == listing_prefix(self.prefix@, path@),
    {
        let normalized = normalize_path(path);
        proof {
            reveal_strlit("/");
        }
        if normalized.as_str().unicode_len() == 0 {
            if self.prefix.as_str().unicode_len() == 0 {
                String::new()
            } else {
                let mut p = trim_trailing_slashes(self.prefix.as_str());
                p.append("/");
                p
            }
        } else {
            let mut p = self.build_key(path);
            p.append("/");
            p
        }
    }

    /// The key of the keep marker of directory `path`.
    pub fn keep_key(&self, path: &str) -> (r: String)
        ensures
            r@ == object_key(self.prefix@, path@) + seq!['/', '.', 'k', 'e', 'e', 'p'],
    {
        let mut key = self.build_key(path);
        proof {
            reveal_strlit("/.keep");
        }
        key.append("/.keep");
        key
    }

    /// The copy source that names `key` in this bucket: `bucket/key`.
    pub fn copy_source(&self, key: &str) -> (r: String)
        ensures
            r@ == self.bucket@ + seq!['/'] + key@,
    {
        let mut s = self.bucket.clone();
        proof {
            reveal_strlit("/");
        }
        s.append("/");
        s.append(key);
        s
    }
}

/// Classifies a store error by its description.
pub fn map_s3_error(message: String) -> (r: BackendError)
    ensures
        r == store_error_for(message),
{
    proof {
        reveal_strlit("NoSuchKey");
        reveal_strlit("NotFound");
        reveal_strlit("404");
        reveal_strlit("AccessDenied");
        reveal_strlit("403");
    }
    let m = message.as_str();
    let not_found = contains_text(m, "NoSuchKey") || contains_text(m, "NotFound") || contains_text(
        m,
        "404",
    );
    assert("NoSuchKey"@ =~= seq!['N', 'o', 'S', 'u', 'c', 'h', 'K', 'e', 'y']);
    assert("NotFound"@ =~= seq!['N', 'o', 't', 'F', 'o', 'u', 'n', 'd']);
    assert("404"@ =~= seq!['4', '0', '4']);
    assert("AccessDenied"@ =~= seq!['A', 'c', 'c', 'e', 's', 's', 'D', 'e', 'n', 'i', 'e', 'd']);
    assert("403"@ =~= seq!['4', '0', '3']);
    if not_found {
        return BackendError::NotFound;
    }
    let denied = contains_text(m, "AccessDenied") || contains_text(m, "403");
    if denied {
        return BackendError::PermissionDenied;
    }
    BackendError::Io(message)
}

/// Metadata that needs no request: the root is always a directory.
pub fn root_info(path: &str) -> (r: Option<FileInfo>)
    ensures
        (r is Some) == (normalize(path@).len() == 0),
        r matches Some(i) ==> is_default_dir_info(i),
{
    if normalize_path(path).as_str().unicode_len() == 0 {
        Some(FileInfo::directory())
    } else {
        None
    }
}

/// The metadata of a key that is not an object, once the store has said
/// whether any object lies under it (or failed to say): a directory when
/// one does, `NotFound` when none does.
pub fn dir_probe_result(probe: Result<bool, String>) -> (r: BackendResult<FileInfo>)
    ensures
        match probe {
            Ok(true) => r matches Ok(i) && is_default_dir_info(i),
            Ok(false) => r == Err::<FileInfo, BackendError>(BackendError::NotFound),
            Err(m) => r == Err::<FileInfo, BackendError>(store_error_for(m)),
        },
{
    match probe {
        Ok(true) => Ok(FileInfo::directory()),
        Ok(false) => Err(BackendError::NotFound),
        Err(m) => Err(map_s3_error(m)),
    }
}

} // verus!
