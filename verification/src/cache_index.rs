//! The cache index: which content hash a plugin file had when it had a
//! given modification time and size, keyed by its lower-cased path. The
//! file's metadata is read around it.
use vstd::prelude::*;
use crate::text::str_to_lowercase;

verus! {

/// What the index remembers of a file.
#[derive(Clone, Debug)]
pub struct CacheIndexEntry {
    /// Modification time, in seconds since the Unix epoch.
    pub mtime: u64,
    pub size: u64,
    pub sha256: String,
}

/// The index: one entry per path key.
pub struct CacheIndex {
    entries: Vec<(String, CacheIndexEntry)>,
}

/// The key of a path: its lower-case form.
pub open spec fn path_key(path: Seq<char>) -> Seq<char> {
    crate::text::unicode_lower_str(path)
}

impl CacheIndex {
    /// The entries, in order of first storing.
    pub closed spec fn spec_entries(&self) -> Seq<(String, CacheIndexEntry)> {
        self.entries@
    }

    /// Every key occurs once.
    pub closed spec fn wf(&self) -> bool {
        forall|a: int, b: int| 0 <= a < b < self.entries@.len() ==> self.entries@[a].0@ != self.entries@[b].0@
    }

    /// The remembered (time, size, hash) of a key.
    pub open spec fn entry_of(&self, key: Seq<char>) -> Option<(u64, u64, Seq<char>)> {
        let es = self.spec_entries();
        if exists|i: int| 0 <= i < es.len() && #[trigger] es[i].0@ == key {
            let i = choose|i: int| 0 <= i < es.len() && #[trigger] es[i].0@ == key;
            Some((es[i].1.mtime, es[i].1.size, es[i].1.sha256@))
        } else {
            None
        }
    }

    /// The empty index.
    pub fn new() -> (r: Self)
        ensures
            r.wf(),
            forall|k: Seq<char>| r.entry_of(k) is None,
    {
        CacheIndex { entries: Vec::new() }
    }

    /// The entries, for saving.
    pub fn entries(&self) -> (r: &Vec<(String, CacheIndexEntry)>)
        ensures
            r@ == self.spec_entries(),
    {
        &self.entries
    }

    /// The index position of a key, if stored.
    fn position(&self, key: &String) -> (r: Option<usize>)
        requires
            self.wf(),
        ensures
            match r {
                Some(i) => i < self.entries@.len() && self.entries@[i as int].0@ == key@,
                None => forall|i: int| 0 <= i < self.entries@.len() ==> self.entries@[i].0@ != key@,
            },
    {
        let mut i: usize = 0;
        while i < self.entries.len()
            invariant
                i <= self.entries@.len(),
                forall|q: int| 0 <= q < i ==> self.entries@[q].0@ != key@,
            decreases self.entries@.len() - i,
        {
            if self.entries[i].0 == *key {
                return Some(i);
            }
            i = i + 1;
        }
        None
    }

    /// The content hash remembered for a file whose metadata reads `mtime`
    /// and `size`; `None` when the file is not in the index or its metadata
    /// changed.
    pub fn lookup(&self, file_path: &str, mtime: u64, size: u64) -> (r: Option<String>)
        requires
            self.wf(),
        ensures
            match lookup_result(*self, file_path@, mtime, size) {
                Some(h) => r matches Some(x) && x@ == h,
                None => r is None,
            },
    {
        let key = str_to_lowercase(file_path);
        match self.position(&key) {
            None => None,
            Some(i) => {
                proof {
                    let es = self.spec_entries();
                    let c = choose|q: int| 0 <= q < es.len() && #[trigger] es[q].0@ == key@;
                    assert(c == i as int);
                }
                let e = &self.entries[i].1;
                if e.mtime == mtime && e.size == size {
                    Some(e.sha256.clone())
                } else {
                    None
                }
            },
        }
    }

    /// Remembers the content hash of a file with the given metadata,
    /// replacing what was remembered for its path.
    pub fn store(&mut self, file_path: &str, mtime: u64, size: u64, sha256: &str)
        requires
            old(self).wf(),
        ensures
            final(self).wf(),
            final(self).entry_of(path_key(file_path@)) == Some((mtime, size, sha256@)),
            forall|k: Seq<char>| k != path_key(file_path@) ==> #[trigger] final(self).entry_of(k) == old(self).entry_of(k),
    {
        let key = str_to_lowercase(file_path);
        let entry = CacheIndexEntry { mtime, size, sha256: sha256.to_string() };
        let ghost old_entries = self.entries@;
        proof {
            assert(old(self).wf());
        }
        match self.position(&key) {
            Some(i) => {
                self.entries.set(i, (key, entry));
                proof {
                    let es = self.entries@;
                    assert forall|a: int, b: int| 0 <= a < b < es.len() implies es[a].0@ != es[b].0@ by {
                        if a == i as int {
                            assert(es[b] == old_entries[b]);
                        } else if b == i as int {
                            assert(es[a] == old_entries[a]);
                        } else {
                            assert(es[a] == old_entries[a] && es[b] == old_entries[b]);
                        }
                    }
                    lemma_entry_of_witness(self, path_key(file_path@), i as int);
                    assert forall|k: Seq<char>| k != path_key(file_path@) implies #[trigger] self.entry_of(k) == old(self).entry_of(k) by {
                        if exists|q: int| 0 <= q < es.len() && #[trigger] es[q].0@ == k {
                            let q = choose|q: int| 0 <= q < es.len() && #[trigger] es[q].0@ == k;
                            assert(q != i as int);
                            assert(es[q] == old_entries[q]);
                            lemma_entry_of_witness(self, k, q);
                            lemma_entry_of_witness(old(self), k, q);
                        } else {
                            assert forall|q: int| 0 <= q < old_entries.len() implies old_entries[q].0@ != k by {
                                if q != i as int {
                                    assert(es[q] == old_entries[q]);
                                }
                            }
                            lemma_entry_of_none(self, k);
                            lemma_entry_of_none(old(self), k);
                        }
                    }
                }
            },
            None => {
                self.entries.push((key, entry));
                proof {
                    let es = self.entries@;
                    let n = old_entries.len() as int;
                    assert forall|a: int, b: int| 0 <= a < b < es.len() implies es[a].0@ != es[b].0@ by {
                        if b == n {
                            assert(es[a] == old_entries[a]);
                        } else {
                            assert(es[a] == old_entries[a] && es[b] == old_entries[b]);
                        }
                    }
                    lemma_entry_of_witness(self, path_key(file_path@), n);
                    assert forall|k: Seq<char>| k != path_key(file_path@) implies #[trigger] self.entry_of(k) == old(self).entry_of(k) by {
                        if exists|q: int| 0 <= q < es.len() && #[trigger] es[q].0@ == k {
                            let q = choose|q: int| 0 <= q < es.len() && #[trigger] es[q].0@ == k;
                            assert(q < n);
                            assert(es[q] == old_entries[q]);
                            lemma_entry_of_witness(self, k, q);
                            lemma_entry_of_witness(old(self), k, q);
                        } else {
                            assert forall|q: int| 0 <= q < old_entries.len() implies old_entries[q].0@ != k by {
                                assert(es[q] == old_entries[q]);
                            }
                            lemma_entry_of_none(self, k);
                            lemma_entry_of_none(old(self), k);
                        }
                    }
                }
            },
        }
    }
}

/// The entry of a stored key is the one at its position.
proof fn lemma_entry_of_witness(x: &CacheIndex, k: Seq<char>, q: int)
    requires
        x.wf(),
        0 <= q < x.spec_entries().len(),
        x.spec_entries()[q].0@ == k,
    ensures
        x.entry_of(k) == Some((x.spec_entries()[q].1.mtime, x.spec_entries()[q].1.size, x.spec_entries()[q].1.sha256@)),
{
    let es = x.spec_entries();
    assert(exists|i: int| 0 <= i < es.len() && #[trigger] es[i].0@ == k);
    let c = choose|i: int| 0 <= i < es.len() && #[trigger] es[i].0@ == k;
    if c != q {
        if c < q {
            assert(es[c].0@ != es[q].0@);
        } else {
            assert(es[q].0@ != es[c].0@);
        }
    }
}

/// A key stored nowhere has no entry.
proof fn lemma_entry_of_none(x: &CacheIndex, k: Seq<char>)
    requires
        forall|q: int| 0 <= q < x.spec_entries().len() ==> x.spec_entries()[q].0@ != k,
    ensures
        x.entry_of(k) is None,
{
}

/// What a lookup of a path with the given metadata gives (see [`CacheIndex::lookup`]).
pub open spec fn lookup_result(idx: CacheIndex, path: Seq<char>, mtime: u64, size: u64) -> Option<Seq<char>> {
    match idx.entry_of(path_key(path)) {
        Some((m, s, h)) => if m == mtime && s == size { Some(h) } else { None },
        None => None,
    }
}

/// After a store of a path's hash with some metadata, a lookup of that path
/// with the same metadata finds that hash, and lookups of other paths find
/// what they found before.
pub proof fn law_lookup_after_store(before: CacheIndex, after: CacheIndex, path: Seq<char>, mtime: u64, size: u64, sha256: Seq<char>)
    requires
        after.entry_of(path_key(path)) == Some((mtime, size, sha256)),
        forall|k: Seq<char>| k != path_key(path) ==> #[trigger] after.entry_of(k) == before.entry_of(k),
    ensures
        lookup_result(after, path, mtime, size) == Some(sha256),
        forall|p: Seq<char>, m: u64, s: u64| path_key(p) != path_key(path)
            ==> #[trigger] lookup_result(after, p, m, s) == lookup_result(before, p, m, s),
{
    assert forall|p: Seq<char>, m: u64, s: u64| path_key(p) != path_key(path)
        implies #[trigger] lookup_result(after, p, m, s) == lookup_result(before, p, m, s) by {
        assert(after.entry_of(path_key(p)) == before.entry_of(path_key(p)));
    }
}

} // verus!
