//! The in-memory backend: a flat key space of byte blobs, with directories
//! emulated by keep markers.
//!
//! Objects are kept in a `Vec` with unique keys, beside a ghost map of the
//! contents by key. vstd's specification of `HashMap` says what lookups and
//! inserts do only for key types whose hashing it models, and `String` is
//! not among them; a vector scanned by key is specified fully, and its
//! order also fixes the order of listings.

use vstd::prelude::*;

use crate::backend::{
    copy_bytes, current_timestamp, is_default_dir_info, normalize, normalize_path, BackendError,
    BackendResult, DirEntry, FileInfo, file_info_at,
};
use crate::listing::{
    dir_prefix, dot_entries, entry_for, entry_of, lemma_first_slash_bounds, lemma_listing_entries_from, entry_views, first_slash, gives_name, has_prefix, keep_key,
    keep_marker, lemma_listing_names, listing, names_of, push_unique,
};

verus! {

/// One stored object.
struct StoredFile {
    key: String,
    content: Vec<u8>,
    mtime: u32,
}

/// In-memory storage: each object is a key with its content and
/// modification time, kept in insertion order with unique keys.
pub struct MemoryBackend {
    files: Vec<StoredFile>,
    contents: Ghost<Map<Seq<char>, Seq<u8>>>,
}

/// What renaming `src` to `dst` does to the contents: the object moves when
/// it exists, and nothing changes otherwise.
pub open spec fn renamed(m: Map<Seq<char>, Seq<u8>>, src: Seq<char>, dst: Seq<char>) -> Map<
    Seq<char>,
    Seq<u8>,
> {
    if m.contains_key(src) {
        m.remove(src).insert(dst, m[src])
    } else {
        m
    }
}

/// What reading `path` from contents `m` gives: the blob under its normal
/// form, or `NotFound`.
pub open spec fn read_result(m: Map<Seq<char>, Seq<u8>>, path: Seq<char>) -> Result<
    Seq<u8>,
    BackendError,
> {
    let k = normalize(path);
    if m.contains_key(k) {
        Ok(m[k])
    } else {
        Err(BackendError::NotFound)
    }
}

/// Contents seeded from `pairs` in order; a later pair replaces an earlier
/// one with the same key.
pub open spec fn seeded(pairs: Seq<(Seq<char>, Seq<u8>)>) -> Map<Seq<char>, Seq<u8>>
    decreases pairs.len(),
{
    if pairs.len() == 0 {
        Map::empty()
    } else {
        seeded(pairs.drop_last()).insert(pairs.last().0, pairs.last().1)
    }
}

/// Size, as the listing reports it, of stored objects.
pub open spec fn summaries(stored: Seq<(Seq<char>, Seq<u8>, u32)>) -> Seq<(Seq<char>, u64, u32)> {
    stored.map_values(|f: (Seq<char>, Seq<u8>, u32)| (f.0, f.1.len() as u64, f.2))
}

/// Whether some stored key lies strictly under directory `dir`.
pub open spec fn has_key_under(m: Map<Seq<char>, Seq<u8>>, dir: Seq<char>) -> bool {
    exists|k: Seq<char>| m.contains_key(k) && (dir + seq!['/']).is_prefix_of(k)
}

impl MemoryBackend {
    /// The stored objects, in order: key, content, modification time.
    pub closed spec fn stored(&self) -> Seq<(Seq<char>, Seq<u8>, u32)> {
        self.files@.map_values(|f: StoredFile| (f.key@, f.content@, f.mtime))
    }

    /// The stored contents by key.
    pub closed spec fn contents(&self) -> Map<Seq<char>, Seq<u8>> {
        self.contents@
    }

    /// Keys are unique, and the contents map holds exactly the stored objects.
    pub closed spec fn wf(&self) -> bool {
        &&& forall|i: int, j: int|
            0 <= i < j < self.files.len() ==> self.files@[i].key@ != self.files@[j].key@
        &&& forall|i: int|
            0 <= i < self.files.len() ==> #[trigger] self.contents@.contains_key(
                self.files@[i].key@,
            ) && self.contents@[self.files@[i].key@] == self.files@[i].content@
        &&& forall|k: Seq<char>| #[trigger]
            self.contents@.contains_key(k) ==> exists|i: int|
                0 <= i < self.files.len() && self.files@[i].key@ == k
    }

    /// The stored sequence and the contents map describe the same objects.
    pub proof fn lemma_stored_matches_contents(&self)
        requires
            self.wf(),
        ensures
            forall|i: int|
                0 <= i < self.stored().len() ==> #[trigger] self.contents().contains_key(
                    self.stored()[i].0,
                ) && self.contents()[self.stored()[i].0] == self.stored()[i].1,
            forall|k: Seq<char>| #[trigger]
                self.contents().contains_key(k) ==> exists|i: int|
                    0 <= i < self.stored().len() && self.stored()[i].0 == k,
    {
        assert forall|k: Seq<char>| #[trigger] self.contents().contains_key(k) implies exists|i: int|
            0 <= i < self.stored().len() && self.stored()[i].0 == k by {
            let i = choose|i: int| 0 <= i < self.files.len() && self.files@[i].key@ == k;
            assert(self.stored()[i].0 == k);
        }
    }

    /// An empty store.
    pub fn new() -> (r: MemoryBackend)
        ensures
            r.wf(),
            r.contents() == Map::<Seq<char>, Seq<u8>>::empty(),
    {
        MemoryBackend { files: Vec::new(), contents: Ghost(Map::empty()) }
    }

    /// Position of `key` among the stored objects.
    fn find(&self, key: &String) -> (r: Option<usize>)
        requires
            self.wf(),
        ensures
            match r {
                Some(i) => i < self.files.len() && self.files@[i as int].key@ == key@,
                None => !self.contents().contains_key(key@),
            },
    {
        let mut i: usize = 0;
        while i < self.files.len()
            invariant
                i <= self.files.len(),
                forall|j: int| 0 <= j < i ==> self.files@[j].key@ != key@,
            decreases self.files.len() - i,
        {
            if self.files[i].key == *key {
                return Some(i);
            }
            i = i + 1;
        }
        None
    }

    /// Stores `content` under `key` as given, replacing any object there.
    fn put(&mut self, key: String, content: Vec<u8>, mtime: u32)
        requires
            old(self).wf(),
        ensures
            final(self).wf(),
            final(self).contents() == old(self).contents().insert(key@, content@),
    {
        let ghost k = key@;
        let ghost c = content@;
        let ghost mut at: int = 0;
        match self.find(&key) {
            Some(i) => {
                self.files.set(i, StoredFile { key, content, mtime });
                proof {
                    at = i as int;
                }
            },
            None => {
                self.files.push(StoredFile { key, content, mtime });
                proof {
                    at = self.files.len() - 1;
                }
            },
        }
        assert(self.files@[at].key@ == k);
        self.contents = Ghost(self.contents@.insert(k, c));
        assert forall|kk: Seq<char>| #[trigger] self.contents@.contains_key(kk) implies exists|i: int|
            0 <= i < self.files.len() && self.files@[i].key@ == kk by {
            if kk == k {
                assert(self.files@[at].key@ == kk);
            } else {
                assert(old(self).contents@.contains_key(kk));
                let i = choose|i: int|
                    0 <= i < old(self).files.len() && old(self).files@[i].key@ == kk;
                assert(self.files@[i].key@ == kk);
            }
        }
    }

    /// Removes the object under `key`, if any.
    fn take(&mut self, key: &String) -> (r: Option<StoredFile>)
        requires
            old(self).wf(),
        ensures
            final(self).wf(),
            final(self).contents() == old(self).contents().remove(key@),
            match r {
                Some(f) => old(self).contents().contains_key(key@) && f.content@ == old(
                    self,
                ).contents()[key@] && f.key@ == key@,
                None => !old(self).contents().contains_key(key@),
            },
    {
        match self.find(key) {
            Some(i) => {
                let ghost before = self.files@;
                assert(old(self).contents@.contains_key(before[i as int].key@));
                assert(forall|a: int| 0 <= a < before.len() && a != i ==> before[a].key@ != before[i as int].key@) by {
                    assert forall|a: int| 0 <= a < before.len() && a != i implies before[a].key@ != before[i as int].key@ by {
                        if a < i {
                            assert(old(self).files@[a].key@ != old(self).files@[i as int].key@);
                        } else {
                            assert(old(self).files@[i as int].key@ != old(self).files@[a].key@);
                        }
                    }
                }
                let f = self.files.remove(i);
                self.contents = Ghost(self.contents@.remove(key@));
                assert forall|kk: Seq<char>| #[trigger] self.contents@.contains_key(kk) implies exists|j: int|
                    0 <= j < self.files.len() && self.files@[j].key@ == kk by {
                    let j = choose|j: int| 0 <= j < before.len() && before[j].key@ == kk;
                    if j < i {
                        assert(self.files@[j].key@ == kk);
                    } else {
                        assert(j != i);
                        assert(self.files@[j - 1].key@ == kk);
                    }
                }
                assert forall|a: int, b: int| 0 <= a < b < self.files.len() implies self.files@[a].key@
                    != self.files@[b].key@ by {
                    let a2 = if a < i { a } else { a + 1 };
                    let b2 = if b < i { b } else { b + 1 };
                    assert(self.files@[a] == before[a2]);
                    assert(self.files@[b] == before[b2]);
                }
                assert forall|a: int| 0 <= a < self.files.len() implies #[trigger] self.contents@.contains_key(
                    self.files@[a].key@,
                ) && self.contents@[self.files@[a].key@] == self.files@[a].content@ by {
                    let a2 = if a < i { a } else { a + 1 };
                    assert(self.files@[a] == before[a2]);
                    assert(a2 != i);
                    assert(old(self).contents@.contains_key(before[a2].key@));
                }
                Some(f)
            },
            None => {
                assert(self.contents@.remove(key@) =~= self.contents@);
                None
            },
        }
    }

    /// Lists the directory `path`: `.` and `..` first, then one entry per
    /// name found under it, in storage order.
    pub fn list_dir(&self, path: &str) -> (r: BackendResult<Vec<DirEntry>>)
        requires
            self.wf(),
        ensures
            match r {
                Ok(v) => {
                    &&& v.len() >= 2
                    &&& v[0].name@ == seq!['.']
                    &&& is_default_dir_info(v[0].attrs)
                    &&& v[1].name@ == seq!['.', '.']
                    &&& is_default_dir_info(v[1].attrs)
                    &&& entry_views(v@.skip(2)) == listing(
                        summaries(self.stored()),
                        dir_prefix(normalize(path@)),
                    )
                },
                Err(_) => false,
            },
    {
        let normalized = normalize_path(path);
        let prefix = if normalized.as_str().unicode_len() == 0 {
            String::new()
        } else {
            let mut p = normalized;
            proof {
                reveal_strlit("/");
            }
            p.append("/");
            p
        };
        assert(prefix@ =~= dir_prefix(normalize(path@)));
        let mut entries = dot_entries();
        let ghost dots = entries@;
        let ghost objs = summaries(self.stored());
        assert(entry_views(entries@.skip(2)) =~= listing(objs.take(0), prefix@));
        let mut i: usize = 0;
        while i < self.files.len()
            invariant
                i <= self.files.len(),
                objs == summaries(self.stored()),
                entries.len() >= 2,
                entries@.take(2) == dots.take(2),
                dots.len() == 2,
                dots[0].name@ == seq!['.'],
                is_default_dir_info(dots[0].attrs),
                dots[1].name@ == seq!['.', '.'],
                is_default_dir_info(dots[1].attrs),
                entry_views(entries@.skip(2)) == listing(objs.take(i as int), prefix@),
            decreases self.files.len() - i,
        {
            let f = &self.files[i];
            assert(objs.take(i + 1).drop_last() =~= objs.take(i as int));
            assert(objs.take(i + 1).last() == (f.key@, f.content@.len() as u64, f.mtime));
            match entry_of(f.key.as_str(), f.content.len() as u64, f.mtime, prefix.as_str()) {
                Some(e) => push_unique(&mut entries, e),
                None => {},
            }
            i = i + 1;
        }
        assert(objs.take(self.files.len() as int) =~= objs);
        assert(entries[0] == entries@.take(2)[0]);
        assert(entries[1] == entries@.take(2)[1]);
        Ok(entries)
    }

    /// Metadata of `path`: the root and any key prefix are directories, a
    /// stored object is a file of its size; anything else is `NotFound`.
    pub fn file_info(&self, path: &str) -> (r: BackendResult<FileInfo>)
        requires
            self.wf(),
        ensures
            ({
                let k = normalize(path@);
                match r {
                    Ok(info) => if k.len() == 0 {
                        is_default_dir_info(info)
                    } else if self.contents().contains_key(k) {
                        exists|i: int|
                            0 <= i < self.stored().len() && self.stored()[i].0 == k && info
                                == file_info_at(self.stored()[i].1.len() as u64, self.stored()[i].2)
                    } else {
                        has_key_under(self.contents(), k) && is_default_dir_info(info)
                    },
                    Err(e) => k.len() != 0 && !self.contents().contains_key(k) && !has_key_under(
                        self.contents(),
                        k,
                    ) && e == BackendError::NotFound,
                }
            }),
    {
        let normalized = normalize_path(path);
        if normalized.as_str().unicode_len() == 0 {
            return Ok(FileInfo::directory());
        }
        match self.find(&normalized) {
            Some(i) => {
                let f = &self.files[i];
                assert(self.stored()[i as int].0 == normalized@);
                assert(self.contents().contains_key(normalized@));
                let info = FileInfo::file_with_mtime(f.content.len() as u64, f.mtime);
                assert(info == file_info_at(self.stored()[i as int].1.len() as u64, self.stored()[i as int].2));
                return Ok(info);
            },
            None => {},
        }
        let mut prefix = normalized;
        proof {
            reveal_strlit("/");
        }
        prefix.append("/");
        assert(prefix@ =~= normalize(path@) + seq!['/']);
        let mut i: usize = 0;
        while i < self.files.len()
            invariant
                self.wf(),
                prefix@ == normalize(path@) + seq!['/'],
                normalize(path@).len() != 0,
                !self.contents().contains_key(normalize(path@)),
                i <= self.files.len(),
                forall|j: int| 0 <= j < i ==> !prefix@.is_prefix_of(#[trigger] self.files@[j].key@),
            decreases self.files.len() - i,
        {
            if has_prefix(self.files[i].key.as_str(), prefix.as_str()) {
                let ghost k = self.files@[i as int].key@;
                assert(self.contents().contains_key(k));
                assert(has_key_under(self.contents(), normalize(path@)));
                return Ok(FileInfo::directory());
            }
            i = i + 1;
        }
        assert(!has_key_under(self.contents(), normalize(path@))) by {
            if has_key_under(self.contents(), normalize(path@)) {
                let k = choose|k: Seq<char>|
                    self.contents().contains_key(k) && prefix@.is_prefix_of(k);
                let j = choose|j: int| 0 <= j < self.files.len() && self.files@[j].key@ == k;
            }
        }
        Err(BackendError::NotFound)
    }

    /// Creates directory `path` by storing its empty keep marker.
    pub fn make_dir(&mut self, path: &str) -> (r: BackendResult<()>)
        requires
            old(self).wf(),
        ensures
            final(self).wf(),
            r is Ok,
            final(self).contents() == old(self).contents().insert(keep_key(normalize(path@)), Seq::empty()),
    {
        let key = keep_key_of(path);
        self.put(key, Vec::new(), current_timestamp());
        Ok(())
    }

    /// Removes directory `path` by deleting its keep marker only; objects
    /// under it stay.
    pub fn del_dir(&mut self, path: &str) -> (r: BackendResult<()>)
        requires
            old(self).wf(),
        ensures
            final(self).wf(),
            r is Ok,
            final(self).contents() == old(self).contents().remove(keep_key(normalize(path@))),
    {
        let key = keep_key_of(path);
        let _ = self.take(&key);
        Ok(())
    }

    /// Deletes the object at `path`, if any.
    pub fn delete(&mut self, path: &str) -> (r: BackendResult<()>)
        requires
            old(self).wf(),
        ensures
            final(self).wf(),
            r is Ok,
            final(self).contents() == old(self).contents().remove(normalize(path@)),
    {
        let key = normalize_path(path);
        let _ = self.take(&key);
        Ok(())
    }

    /// Moves the object at `src` to `dst`, replacing any object there; a
    /// missing `src` changes nothing.
    pub fn rename(&mut self, src: &str, dst: &str) -> (r: BackendResult<()>)
        requires
            old(self).wf(),
        ensures
            final(self).wf(),
            r is Ok,
            final(self).contents() == renamed(old(self).contents(), normalize(src@), normalize(dst@)),
    {
        let src_key = normalize_path(src);
        let dst_key = normalize_path(dst);
        match self.take(&src_key) {
            Some(f) => {
                self.put(dst_key, f.content, f.mtime);
            },
            None => {},
        }
        Ok(())
    }

    /// The whole content stored at `path`, or `NotFound`.
    pub fn read_file(&self, path: &str) -> (r: BackendResult<Vec<u8>>)
        requires
            self.wf(),
        ensures
            match r {
                Ok(c) => read_result(self.contents(), path@) == Ok::<Seq<u8>, BackendError>(c@),
                Err(e) => read_result(self.contents(), path@) == Err::<Seq<u8>, BackendError>(e),
            },
    {
        let key = normalize_path(path);
        match self.find(&key) {
            Some(i) => Ok(copy_bytes(&self.files[i].content)),
            None => Err(BackendError::NotFound),
        }
    }

    /// Stores `content` at `path`, creating or replacing the object.
    pub fn write_file(&mut self, path: &str, content: Vec<u8>) -> (r: BackendResult<()>)
        requires
            old(self).wf(),
        ensures
            final(self).wf(),
            r is Ok,
            final(self).contents() == old(self).contents().insert(normalize(path@), content@),
    {
        let key = normalize_path(path);
        self.put(key, content, current_timestamp());
        Ok(())
    }

    /// A store holding `files`, keys taken as given; a later pair replaces
    /// an earlier one with the same key.
    pub fn with_files(files: Vec<(String, Vec<u8>)>) -> (r: MemoryBackend)
        ensures
            r.wf(),
            r.contents() == seeded(files@.map_values(|f: (String, Vec<u8>)| (f.0@, f.1@))),
    {
        let ghost pairs = files@.map_values(|f: (String, Vec<u8>)| (f.0@, f.1@));
        let mtime = current_timestamp();
        let mut store = MemoryBackend::new();
        let mut i: usize = 0;
        assert(pairs.take(0) =~= Seq::<(Seq<char>, Seq<u8>)>::empty());
        while i < files.len()
            invariant
                i <= files.len(),
                pairs == files@.map_values(|f: (String, Vec<u8>)| (f.0@, f.1@)),
                store.wf(),
                store.contents() == seeded(pairs.take(i as int)),
            decreases files.len() - i,
        {
            let key = files[i].0.clone();
            let content = copy_bytes(&files[i].1);
            store.put(key, content, mtime);
            assert(pairs.take(i + 1).drop_last() =~= pairs.take(i as int));
            i = i + 1;
        }
        assert(pairs.take(files.len() as int) =~= pairs);
        store
    }
}

impl Default for MemoryBackend {
    fn default() -> (r: MemoryBackend)
        ensures
            r.wf(),
            r.contents() == Map::<Seq<char>, Seq<u8>>::empty(),
    {
        MemoryBackend::new()
    }
}

/// Writing a blob under a path and then reading that path gives the blob back.
pub proof fn lemma_write_then_read(
    before: MemoryBackend,
    after: MemoryBackend,
    path: Seq<char>,
    data: Seq<u8>,
)
    requires
        after.contents() == before.contents().insert(normalize(path), data),
    ensures
        read_result(after.contents(), path) == Ok::<Seq<u8>, BackendError>(data),
{
}

/// After deleting a path, reading it gives `NotFound`.
pub proof fn lemma_delete_then_not_found(before: MemoryBackend, after: MemoryBackend, path: Seq<char>)
    requires
        after.contents() == before.contents().remove(normalize(path)),
    ensures
        read_result(after.contents(), path) == Err::<Seq<u8>, BackendError>(BackendError::NotFound),
{
}

/// Renaming an existing object to a different path moves its content: the
/// new path reads what the old one read before, and the old path is gone.
pub proof fn lemma_rename_moves_content(
    before: MemoryBackend,
    after: MemoryBackend,
    src: Seq<char>,
    dst: Seq<char>,
)
    requires
        normalize(src) != normalize(dst),
        read_result(before.contents(), src) is Ok,
        after.contents() == renamed(before.contents(), normalize(src), normalize(dst)),
    ensures
        read_result(after.contents(), dst) == read_result(before.contents(), src),
        read_result(after.contents(), src) == Err::<Seq<u8>, BackendError>(BackendError::NotFound),
{
}

/// Whether `d` is a single path component that a listing can show: non-empty,
/// already normal, without `/`, and not the keep marker.
pub open spec fn is_plain_name(d: Seq<char>) -> bool {
    &&& d.len() > 0
    &&& normalize(d) == d
    &&& forall|i: int| 0 <= i < d.len() ==> d[i] != '/'
    &&& d != keep_marker()
}

proof fn lemma_first_slash_after_name(d: Seq<char>, rest: Seq<char>)
    requires
        forall|i: int| 0 <= i < d.len() ==> d[i] != '/',
    ensures
        first_slash(d + seq!['/'] + rest) == d.len(),
    decreases d.len(),
{
    let s = d + seq!['/'] + rest;
    if d.len() == 0 {
        assert(s[0] == '/');
    } else {
        assert(s[0] == d[0]);
        lemma_first_slash_after_name(d.drop_first(), rest);
        assert(s.drop_first() =~= d.drop_first() + seq!['/'] + rest);
    }
}

/// Under the root, a key gives the name `d` (a single component) only when
/// it is `d` itself or lies under `d/`.
proof fn lemma_name_of_key(o: (Seq<char>, u64, u32), d: Seq<char>)
    requires
        gives_name(o, Seq::empty(), d),
    ensures
        o.0 == d || (d + seq!['/']).is_prefix_of(o.0),
        o.0 != d ==> (entry_for(o.0, o.1, o.2, Seq::empty()) matches Some(e) && e.1.is_dir),
{
    let key = o.0;
    assert(key.skip(0) =~= key);
    lemma_first_slash_bounds(key);
    let k = first_slash(key);
    assert(key.take(k as int) == d);
    if k == key.len() {
        assert(key.take(k as int) =~= key);
    } else {
        assert(key.take(k as int + 1) =~= d + seq!['/']);
    }
}

/// After creating directory `d` at the root, listing the root shows `d`;
/// and, unless a file is stored under the key `d` itself, shows it as a
/// directory.
pub proof fn lemma_make_dir_listed(
    before: MemoryBackend,
    after: MemoryBackend,
    d: Seq<char>,
    root: Seq<char>,
)
    requires
        after.wf(),
        is_plain_name(d),
        normalize(root).len() == 0,
        after.contents() == before.contents().insert(keep_key(normalize(d)), Seq::empty()),
    ensures
        names_of(listing(summaries(after.stored()), dir_prefix(normalize(root)))).contains(d),
        !after.contents().contains_key(d) ==> exists|j: int|
            0 <= j < listing(summaries(after.stored()), dir_prefix(normalize(root))).len()
                && #[trigger] listing(summaries(after.stored()), dir_prefix(normalize(root)))[j].0
                == d && listing(summaries(after.stored()), dir_prefix(normalize(root)))[j].1.is_dir,
{
    let kk = keep_key(d);
    let prefix = dir_prefix(normalize(root));
    assert(prefix =~= Seq::<char>::empty());
    after.lemma_stored_matches_contents();
    assert(after.contents().contains_key(kk));
    let i = choose|i: int| 0 <= i < after.stored().len() && after.stored()[i].0 == kk;
    let objs = summaries(after.stored());
    lemma_first_slash_after_name(d, keep_marker());
    assert(prefix.is_prefix_of(kk));
    assert(kk.skip(0) =~= kk);
    assert(kk.take(d.len() as int) =~= d);
    assert(objs[i].0 == kk);
    assert(gives_name(objs[i], prefix, d));
    lemma_listing_names(objs, prefix, d);
    let l = listing(objs, prefix);
    if !after.contents().contains_key(d) {
        let j = choose|j: int| 0 <= j < names_of(l).len() && names_of(l)[j] == d;
        lemma_listing_entries_from(objs, prefix);
        let m = choose|m: int|
            0 <= m < objs.len() && entry_for(objs[m].0, objs[m].1, objs[m].2, prefix) == Some(l[j]);
        assert(l[j].0 == d);
        assert(gives_name(objs[m], prefix, d));
        assert(objs[m].0 == after.stored()[m].0);
        assert(after.contents().contains_key(after.stored()[m].0));
        lemma_name_of_key(objs[m], d);
        assert(l[j].1.is_dir);
    }
}

/// Creating directory `d` at the root and then removing it leaves `d` out
/// of the root listing, when no key was `d` itself and none but its keep
/// marker lay under `d/`.
pub proof fn lemma_make_then_del_dir_unlisted(
    before: MemoryBackend,
    mid: MemoryBackend,
    after: MemoryBackend,
    d: Seq<char>,
    root: Seq<char>,
)
    requires
        after.wf(),
        normalize(root).len() == 0,
        !before.contents().contains_key(d),
        forall|k: Seq<char>|
            #[trigger] before.contents().contains_key(k) && (d + seq!['/']).is_prefix_of(k) ==> k
                == keep_key(normalize(d)),
        mid.contents() == before.contents().insert(keep_key(normalize(d)), Seq::empty()),
        after.contents() == mid.contents().remove(keep_key(normalize(d))),
    ensures
        !names_of(listing(summaries(after.stored()), dir_prefix(normalize(root)))).contains(d),
{
    let prefix = dir_prefix(normalize(root));
    assert(prefix =~= Seq::<char>::empty());
    let kk = keep_key(normalize(d));
    let ao = summaries(after.stored());
    after.lemma_stored_matches_contents();
    lemma_listing_names(ao, prefix, d);
    if names_of(listing(ao, prefix)).contains(d) {
        let i = choose|i: int| 0 <= i < ao.len() && #[trigger] gives_name(ao[i], prefix, d);
        let k = after.stored()[i].0;
        assert(ao[i].0 == k);
        assert(after.contents().contains_key(k));
        assert(k != kk);
        assert(before.contents().contains_key(k));
        lemma_name_of_key(ao[i], d);
    }
}

/// Key of the keep marker of directory `path`.
fn keep_key_of(path: &str) -> (r: String)
    ensures
        r@ == keep_key(normalize(path@)),
{
    let mut key = normalize_path(path);
    proof {
        reveal_strlit("/.keep");
    }
    key.append("/.keep");
    assert(key@ =~= keep_key(normalize(path@)));
    key
}

} // verus!
