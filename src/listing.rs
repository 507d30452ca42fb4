//! Directory listings over flat key spaces: objects named by keys with `/`
//! separators, where a directory exists when some key lies under it.

use vstd::prelude::*;

use crate::backend::{dir_info_at, file_info_at, is_default_dir_info, DirEntry, FileInfo};

verus! {

/// Name of the zero-byte object that marks an empty directory.
pub open spec fn keep_marker() -> Seq<char> {
    seq!['.', 'k', 'e', 'e', 'p']
}

/// Key of the marker object of directory `dir` (a normalised path).
pub open spec fn keep_key(dir: Seq<char>) -> Seq<char> {
    dir + seq!['/'] + keep_marker()
}

/// Prefix shared by every key under directory `dir` (a normalised path).
pub open spec fn dir_prefix(dir: Seq<char>) -> Seq<char> {
    if dir.len() == 0 {
        Seq::empty()
    } else {
        dir + seq!['/']
    }
}

/// Index of the first `/` of `s`, or its length when it has none.
pub open spec fn first_slash(s: Seq<char>) -> nat
    decreases s.len(),
{
    if s.len() == 0 {
        0
    } else if s[0] == '/' {
        0
    } else {
        1 + first_slash(s.drop_first())
    }
}

/// The entry that an object contributes to the listing of the directory
/// whose keys start with `prefix`: named by the first component of its key
/// below the prefix, a directory when more components follow. Objects
/// outside the prefix, empty names and keep markers contribute none.
pub open spec fn entry_for(key: Seq<char>, size: u64, mtime: u32, prefix: Seq<char>) -> Option<
    (Seq<char>, FileInfo),
> {
    if !prefix.is_prefix_of(key) {
        None
    } else {
        let rel = key.skip(prefix.len() as int);
        let k = first_slash(rel);
        let name = rel.take(k as int);
        if name.len() == 0 || name == keep_marker() {
            None
        } else if k < rel.len() {
            Some((name, dir_info_at(mtime)))
        } else {
            Some((name, file_info_at(size, mtime)))
        }
    }
}

/// Names of a sequence of listing entries.
pub open spec fn names_of(entries: Seq<(Seq<char>, FileInfo)>) -> Seq<Seq<char>> {
    entries.map_values(|e: (Seq<char>, FileInfo)| e.0)
}

/// The listing of the directory with `prefix` over `objects` (key, size,
/// modification time), in object order; of several objects that give the
/// same name, the first decides the entry.
pub open spec fn listing(objects: Seq<(Seq<char>, u64, u32)>, prefix: Seq<char>) -> Seq<
    (Seq<char>, FileInfo),
>
    decreases objects.len(),
{
    if objects.len() == 0 {
        Seq::empty()
    } else {
        let prev = listing(objects.drop_last(), prefix);
        let o = objects.last();
        match entry_for(o.0, o.1, o.2, prefix) {
            Some(e) => if names_of(prev).contains(e.0) {
                prev
            } else {
                prev.push(e)
            },
            None => prev,
        }
    }
}

/// Views of a sequence of directory entries.
pub open spec fn entry_views(entries: Seq<DirEntry>) -> Seq<(Seq<char>, FileInfo)> {
    entries.map_values(|e: DirEntry| e@)
}

/// Whether object `o` gives an entry named `name` under `prefix`.
pub open spec fn gives_name(o: (Seq<char>, u64, u32), prefix: Seq<char>, name: Seq<char>) -> bool {
    match entry_for(o.0, o.1, o.2, prefix) {
        Some(e) => e.0 == name,
        None => false,
    }
}

/// A name appears in a listing exactly when some object gives it.
pub proof fn lemma_listing_names(objects: Seq<(Seq<char>, u64, u32)>, prefix: Seq<char>, name: Seq<char>)
    ensures
        names_of(listing(objects, prefix)).contains(name) <==> exists|i: int|
            0 <= i < objects.len() && #[trigger] gives_name(objects[i], prefix, name),
    decreases objects.len(),
{
    if objects.len() > 0 {
        let init = objects.drop_last();
        lemma_listing_names(init, prefix, name);
        let prev = listing(init, prefix);
        let o = objects.last();
        let n = objects.len() - 1;
        let l = listing(objects, prefix);
        assert(o == objects[n]);
        assert(l.take(prev.len() as int) =~= prev);
        if names_of(l).contains(name) {
            if names_of(prev).contains(name) {
                let i = choose|i: int| 0 <= i < init.len() && #[trigger] gives_name(init[i], prefix, name);
                assert(init[i] == objects[i]);
            } else {
                let j = choose|j: int| 0 <= j < names_of(l).len() && names_of(l)[j] == name;
                if let Some(e) = entry_for(o.0, o.1, o.2, prefix) {
                    if !names_of(prev).contains(e.0) {
                        assert(l == prev.push(e));
                        if j < prev.len() {
                            assert(names_of(prev)[j] == name);
                        }
                        assert(gives_name(objects[n], prefix, name));
                    }
                }
            }
        } else {
            assert forall|i: int| 0 <= i < objects.len() implies !#[trigger] gives_name(objects[i], prefix, name) by {
                if i < n {
                    assert(init[i] == objects[i]);
                    if names_of(prev).contains(name) {
                        let j = choose|j: int| 0 <= j < names_of(prev).len() && names_of(prev)[j] == name;
                        assert(names_of(l)[j] == name);
                    }
                } else {
                    if let Some(e) = entry_for(o.0, o.1, o.2, prefix) {
                        if e.0 == name {
                            if names_of(prev).contains(e.0) {
                                assert(l == prev);
                            } else {
                                assert(names_of(l)[prev.len() as int] == name);
                            }
                        }
                    }
                }
            }
        }
    }
}

/// The first slash index lies within the sequence, and names a `/` when
/// below its length.
pub proof fn lemma_first_slash_bounds(s: Seq<char>)
    ensures
        first_slash(s) <= s.len(),
        first_slash(s) < s.len() ==> s[first_slash(s) as int] == '/',
        forall|i: int| 0 <= i < first_slash(s) ==> s[i] != '/',
    decreases s.len(),
{
    if s.len() > 0 && s[0] != '/' {
        let t = s.drop_first();
        lemma_first_slash_bounds(t);
        assert forall|i: int| 0 <= i < first_slash(s) implies s[i] != '/' by {
            if i > 0 {
                assert(s[i] == t[i - 1]);
            }
        }
    }
}

/// Every entry of a listing is the entry of one of the objects.
pub proof fn lemma_listing_entries_from(objects: Seq<(Seq<char>, u64, u32)>, prefix: Seq<char>)
    ensures
        forall|j: int|
            0 <= j < listing(objects, prefix).len() ==> exists|i: int|
                0 <= i < objects.len() && entry_for(objects[i].0, objects[i].1, objects[i].2, prefix)
                    == Some(#[trigger] listing(objects, prefix)[j]),
    decreases objects.len(),
{
    if objects.len() > 0 {
        let init = objects.drop_last();
        lemma_listing_entries_from(init, prefix);
        let prev = listing(init, prefix);
        let l = listing(objects, prefix);
        let n = objects.len() - 1;
        assert forall|j: int| 0 <= j < l.len() implies exists|i: int|
            0 <= i < objects.len() && entry_for(objects[i].0, objects[i].1, objects[i].2, prefix)
                == Some(#[trigger] l[j]) by {
            if j < prev.len() {
                assert(l[j] == prev[j]);
                let i = choose|i: int|
                    0 <= i < init.len() && entry_for(init[i].0, init[i].1, init[i].2, prefix) == Some(
                        prev[j],
                    );
                assert(init[i] == objects[i]);
            } else {
                assert(objects.last() == objects[n]);
            }
        }
    }
}

/// Whether `p` is a prefix of `s`.
pub fn has_prefix(s: &str, p: &str) -> (r: bool)
    ensures
        r == p@.is_prefix_of(s@),
{
    let sn = s.unicode_len();
    let pn = p.unicode_len();
    if pn > sn {
        return false;
    }
    let mut i: usize = 0;
    while i < pn
        invariant
            sn == s@.len(),
            pn == p@.len(),
            pn <= sn,
            i <= pn,
            forall|j: int| 0 <= j < i ==> p@[j] == s@[j],
        decreases pn - i,
    {
        if p.get_char(i) != s.get_char(i) {
            assert(p@[i as int] != s@.subrange(0, pn as int)[i as int]);
            return false;
        }
        i = i + 1;
    }
    assert(p@ =~= s@.subrange(0, pn as int));
    true
}

/// Index of the first `/` of `s`, or its length when it has none.
pub fn first_slash_index(s: &str) -> (r: usize)
    ensures
        r == first_slash(s@),
        r <= s@.len(),
{
    let n = s.unicode_len();
    let mut i: usize = 0;
    assert(s@.skip(0) =~= s@);
    while i < n && s.get_char(i) != '/'
        invariant
            n == s@.len(),
            i <= n,
            first_slash(s@) == i + first_slash(s@.skip(i as int)),
        decreases n - i,
    {
        assert(s@.skip(i as int).drop_first() =~= s@.skip(i + 1));
        i = i + 1;
    }
    i
}

/// Whether `name` is the keep marker.
pub fn is_keep_marker(name: &str) -> (r: bool)
    ensures
        r == (name@ == keep_marker()),
{
    if name.unicode_len() != 5 {
        return false;
    }
    let r = name.get_char(0) == '.' && name.get_char(1) == 'k' && name.get_char(2) == 'e'
        && name.get_char(3) == 'e' && name.get_char(4) == 'p';
    if r {
        assert(name@ =~= keep_marker());
    }
    r
}

/// The entry an object contributes to the listing under `prefix`.
pub fn entry_of(key: &str, size: u64, mtime: u32, prefix: &str) -> (r: Option<DirEntry>)
    ensures
        match r {
            Some(e) => entry_for(key@, size, mtime, prefix@) == Some(e@),
            None => entry_for(key@, size, mtime, prefix@) is None,
        },
{
    if !has_prefix(key, prefix) {
        return None;
    }
    let kn = key.unicode_len();
    let pn = prefix.unicode_len();
    let rel = key.substring_char(pn, kn);
    assert(rel@ =~= key@.skip(pn as int));
    let k = first_slash_index(rel);
    let name = rel.substring_char(0, k);
    assert(name@ =~= rel@.take(k as int));
    if k == 0 || is_keep_marker(name) {
        return None;
    }
    let attrs = if k < rel.unicode_len() {
        FileInfo::directory_with_mtime(mtime)
    } else {
        FileInfo::file_with_mtime(size, mtime)
    };
    Some(DirEntry { name: name.to_owned(), attrs })
}

/// Whether an entry after the first two of `entries` is named `name`.
fn listed_after_dots(entries: &Vec<DirEntry>, name: &String) -> (r: bool)
    requires
        entries.len() >= 2,
    ensures
        r == names_of(entry_views(entries@.skip(2))).contains(name@),
{
    let ghost names = names_of(entry_views(entries@.skip(2)));
    let mut j: usize = 2;
    while j < entries.len()
        invariant
            2 <= j <= entries.len(),
            names == names_of(entry_views(entries@.skip(2))),
            names.len() == entries.len() - 2,
            forall|k: int| 0 <= k < j - 2 ==> names[k] != name@,
        decreases entries.len() - j,
    {
        if entries[j].name == *name {
            assert(names[j - 2] == name@);
            return true;
        }
        j = j + 1;
    }
    false
}

/// Appends `e` to `entries` unless an entry after the first two has its name.
pub fn push_unique(entries: &mut Vec<DirEntry>, e: DirEntry)
    requires
        old(entries).len() >= 2,
    ensures
        final(entries).len() >= 2,
        final(entries)@.take(2) == old(entries)@.take(2),
        entry_views(final(entries)@.skip(2)) == if names_of(entry_views(old(entries)@.skip(2))).contains(e@.0) {
            entry_views(old(entries)@.skip(2))
        } else {
            entry_views(old(entries)@.skip(2)).push(e@)
        },
{
    if !listed_after_dots(entries, &e.name) {
        let ghost before = entries@;
        entries.push(e);
        assert(entries@.take(2) =~= before.take(2));
        assert(entry_views(entries@.skip(2)) =~= entry_views(before.skip(2)).push(e@));
    }
}

/// A summary of one stored object: its key, size and modification time.
pub struct ObjectSummary {
    pub key: String,
    pub size: u64,
    pub mtime: u32,
}

impl View for ObjectSummary {
    type V = (Seq<char>, u64, u32);

    open spec fn view(&self) -> (Seq<char>, u64, u32) {
        (self.key@, self.size, self.mtime)
    }
}

/// A directory listing from the objects under `prefix`: `.` and `..`
/// first, then one entry per name, in object order.
pub fn listing_from_objects(objects: &Vec<ObjectSummary>, prefix: &str) -> (r: Vec<DirEntry>)
    ensures
        r.len() >= 2,
        r[0].name@ == seq!['.'],
        is_default_dir_info(r[0].attrs),
        r[1].name@ == seq!['.', '.'],
        is_default_dir_info(r[1].attrs),
        entry_views(r@.skip(2)) == listing(objects@.map_values(|o: ObjectSummary| o@), prefix@),
{
    let ghost objs = objects@.map_values(|o: ObjectSummary| o@);
    let mut entries = dot_entries();
    let ghost dots = entries@;
    assert(entry_views(entries@.skip(2)) =~= listing(objs.take(0), prefix@));
    let mut i: usize = 0;
    while i < objects.len()
        invariant
            i <= objects.len(),
            objs == objects@.map_values(|o: ObjectSummary| o@),
            entries.len() >= 2,
            entries@.take(2) == dots.take(2),
            dots.len() == 2,
            dots[0].name@ == seq!['.'],
            is_default_dir_info(dots[0].attrs),
            dots[1].name@ == seq!['.', '.'],
            is_default_dir_info(dots[1].attrs),
            entry_views(entries@.skip(2)) == listing(objs.take(i as int), prefix@),
        decreases objects.len() - i,
    {
        let o = &objects[i];
        assert(objs.take(i + 1).drop_last() =~= objs.take(i as int));
        assert(objs.take(i + 1).last() == o@);
        match entry_of(o.key.as_str(), o.size, o.mtime, prefix) {
            Some(e) => push_unique(&mut entries, e),
            None => {},
        }
        i = i + 1;
    }
    assert(objs.take(objects.len() as int) =~= objs);
    assert(entries[0] == entries@.take(2)[0]);
    assert(entries[1] == entries@.take(2)[1]);
    entries
}

/// The two synthetic entries that begin every listing, `.` and `..`.
pub fn dot_entries() -> (r: Vec<DirEntry>)
    ensures
        r.len() == 2,
        r[0].name@ == seq!['.'],
        is_default_dir_info(r[0].attrs),
        r[1].name@ == seq!['.', '.'],
        is_default_dir_info(r[1].attrs),
{
    proof {
        reveal_strlit(".");
        reveal_strlit("..");
    }
    let mut entries: Vec<DirEntry> = Vec::new();
    entries.push(DirEntry { name: String::from_str("."), attrs: FileInfo::directory() });
    entries.push(DirEntry { name: String::from_str(".."), attrs: FileInfo::directory() });
    entries
}

} // verus!
