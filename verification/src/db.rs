//! The local index: watched roots and the per-file scan records, with the
//! aggregate counts the callers display. Removal of a root cascades to its
//! file records; the delta-sync index lives elsewhere and survives it.

use vstd::prelude::*;
use crate::text::str_eq;

verus! {

/// A directory under management.
#[derive(Debug)]
pub struct WatchedFolder {
    pub id: i64,
    pub path: String,
    pub enabled: bool,
}

impl Clone for WatchedFolder {
    fn clone(&self) -> (res: Self)
        ensures
            res == *self,
    {
        WatchedFolder { id: self.id, path: self.path.clone(), enabled: self.enabled }
    }
}

/// One scanned file: identity, digest, modification time, owning root.
#[derive(Debug)]
pub struct FileEntry {
    pub id: i64,
    pub path: String,
    pub hash: String,
    pub mod_time: i64,
    /// One of "pending", "synced", "error".
    pub sync_status: String,
    pub folder_id: i64,
}

impl Clone for FileEntry {
    fn clone(&self) -> (res: Self)
        ensures
            res == *self,
    {
        FileEntry {
            id: self.id,
            path: self.path.clone(),
            hash: self.hash.clone(),
            mod_time: self.mod_time,
            sync_status: self.sync_status.clone(),
            folder_id: self.folder_id,
        }
    }
}

/// Aggregate counts over the file index.
#[derive(Debug)]
pub struct SyncStats {
    pub total: i64,
    pub synced: i64,
    pub pending: i64,
}

/// A watched root, as handed to callers.
#[derive(Debug)]
pub struct FolderInfo {
    pub id: i64,
    pub path: String,
    pub enabled: bool,
}

pub open spec fn folder_ids_unique_below(s: Seq<WatchedFolder>, bound: i64) -> bool {
    &&& forall|i: int, j: int| 0 <= i < j < s.len() ==> s[i].id != s[j].id
    &&& forall|i: int| 0 <= i < s.len() ==> 0 < #[trigger] s[i].id < bound
}

pub open spec fn folder_paths_unique(s: Seq<WatchedFolder>) -> bool {
    forall|i: int, j: int| 0 <= i < j < s.len() ==> s[i].path@ != s[j].path@
}

pub open spec fn file_ids_unique_below(s: Seq<FileEntry>, bound: i64) -> bool {
    &&& forall|i: int, j: int| 0 <= i < j < s.len() ==> s[i].id != s[j].id
    &&& forall|i: int| 0 <= i < s.len() ==> 0 < #[trigger] s[i].id < bound
}

pub open spec fn file_paths_unique(s: Seq<FileEntry>) -> bool {
    forall|i: int, j: int| 0 <= i < j < s.len() ==> s[i].path@ != s[j].path@
}

/// The enabled roots of `s`, in stored order.
pub open spec fn enabled_of(s: Seq<WatchedFolder>) -> Seq<WatchedFolder> {
    s.filter(|f: WatchedFolder| f.enabled)
}

/// The file records of `s` whose status is `st`.
pub open spec fn files_with_status(s: Seq<FileEntry>, st: Seq<char>) -> Seq<FileEntry> {
    s.filter(|f: FileEntry| f.sync_status@ == st)
}

/// The local index of watched roots and file records, modeled in memory.
pub struct Database {
    folders: Vec<WatchedFolder>,
    files: Vec<FileEntry>,
    next_folder_id: i64,
    next_file_id: i64,
}

impl Database {
    pub closed spec fn folders_seq(&self) -> Seq<WatchedFolder> {
        self.folders@
    }

    pub closed spec fn files_seq(&self) -> Seq<FileEntry> {
        self.files@
    }

    pub closed spec fn next_folder_id_spec(&self) -> i64 {
        self.next_folder_id
    }

    pub closed spec fn next_file_id_spec(&self) -> i64 {
        self.next_file_id
    }

    pub open spec fn wf(&self) -> bool {
        &&& folder_ids_unique_below(self.folders_seq(), self.next_folder_id_spec())
        &&& folder_paths_unique(self.folders_seq())
        &&& file_ids_unique_below(self.files_seq(), self.next_file_id_spec())
        &&& file_paths_unique(self.files_seq())
        &&& 0 < self.next_folder_id_spec()
        &&& 0 < self.next_file_id_spec()
    }

    /// Create an empty index.
    pub fn new() -> (r: Self)
        ensures
            r.wf(),
            r.folders_seq() == Seq::<WatchedFolder>::empty(),
            r.files_seq() == Seq::<FileEntry>::empty(),
            r.next_folder_id_spec() == 1,
            r.next_file_id_spec() == 1,
    {
        Database { folders: Vec::new(), files: Vec::new(), next_folder_id: 1, next_file_id: 1 }
    }

    /// The identifier the next registered root will receive.
    pub fn next_folder_id(&self) -> (r: i64)
        ensures
            r == self.next_folder_id_spec(),
    {
        self.next_folder_id
    }

    /// The identifier the next new file record will receive.
    pub fn next_file_id(&self) -> (r: i64)
        ensures
            r == self.next_file_id_spec(),
    {
        self.next_file_id
    }

    /// Register a root. Registering a path that is already present changes
    /// nothing and returns the existing identifier; otherwise the root is
    /// appended, enabled, under a fresh identifier, which is returned.
    pub fn add_watched_folder(&mut self, path: &str) -> (r: i64)
        requires
            old(self).wf(),
            old(self).next_folder_id_spec() < i64::MAX,
        ensures
            final(self).wf(),
            final(self).files_seq() == old(self).files_seq(),
            final(self).next_file_id_spec() == old(self).next_file_id_spec(),
            r > 0,
            (exists|j: int|
                0 <= j < old(self).folders_seq().len() && old(self).folders_seq()[j].path@
                    == path@) ==> {
                &&& final(self).folders_seq() == old(self).folders_seq()
                &&& final(self).next_folder_id_spec() == old(self).next_folder_id_spec()
                &&& forall|j: int|
                    0 <= j < old(self).folders_seq().len() && old(self).folders_seq()[j].path@
                        == path@ ==> r == old(self).folders_seq()[j].id
            },
            (forall|j: int|
                0 <= j < old(self).folders_seq().len() ==> (#[trigger] old(
                    self,
                ).folders_seq()[j]).path@ != path@) ==> {
                let f = final(self).folders_seq().last();
                &&& final(self).folders_seq() == old(self).folders_seq().push(f)
                &&& f.id == old(self).next_folder_id_spec()
                &&& f.path@ == path@
                &&& f.enabled
                &&& r == old(self).next_folder_id_spec()
                &&& final(self).next_folder_id_spec() == old(self).next_folder_id_spec() + 1
            },
    {
        let n = self.folders.len();
        let mut j: usize = 0;
        while j < n
            invariant
                j <= n,
                n == self.folders@.len(),
                self.folders@ == old(self).folders@,
                self.files@ == old(self).files@,
                self.next_folder_id == old(self).next_folder_id,
                old(self).wf(),
                forall|i: int| 0 <= i < j ==> self.folders@[i].path@ != path@,
            decreases n - j,
        {
            if str_eq(self.folders[j].path.as_str(), path) {
                return self.folders[j].id;
            }
            j = j + 1;
        }
        let id = self.next_folder_id;
        let f = WatchedFolder { id, path: path.to_owned(), enabled: true };
        self.folders.push(f);
        self.next_folder_id = self.next_folder_id + 1;
        proof {
            assert(self.folders@.drop_last() =~= old(self).folders@);
        }
        id
    }

    /// The enabled roots, in registration order, as copies.
    pub fn get_watched_folders(&self) -> (r: Vec<WatchedFolder>)
        requires
            self.wf(),
        ensures
            r@ == enabled_of(self.folders_seq()),
    {
        let n = self.folders.len();
        let mut out: Vec<WatchedFolder> = Vec::new();
        let mut i: usize = 0;
        while i < n
            invariant
                i <= n,
                n == self.folders@.len(),
                out@ == enabled_of(self.folders@.take(i as int)),
            decreases n - i,
        {
            proof {
                let t = self.folders@.take(i as int);
                let t2 = self.folders@.take(i + 1);
                assert(t2.drop_last() =~= t);
                assert(t2.last() == self.folders@[i as int]);
                reveal(Seq::filter);
            }
            if self.folders[i].enabled {
                out.push(self.folders[i].clone());
            }
            i = i + 1;
        }
        proof {
            assert(self.folders@.take(n as int) =~= self.folders@);
        }
        out
    }

    /// Record a scan result for `path`: a new record under a fresh
    /// identifier, or an overwrite of digest and modification time on the
    /// existing record for that path. Either way the record's status returns
    /// to "pending" and its identifier is returned; on overwrite the owning
    /// root is kept as it was.
    pub fn upsert_file(&mut self, path: &str, hash: &str, mod_time: i64, folder_id: i64) -> (r:
        i64)
        requires
            old(self).wf(),
            old(self).next_file_id_spec() < i64::MAX,
        ensures
            final(self).wf(),
            final(self).folders_seq() == old(self).folders_seq(),
            final(self).next_folder_id_spec() == old(self).next_folder_id_spec(),
            r > 0,
            (exists|j: int|
                0 <= j < old(self).files_seq().len() && old(self).files_seq()[j].path@ == path@)
                ==> {
                &&& final(self).files_seq().len() == old(self).files_seq().len()
                &&& final(self).next_file_id_spec() == old(self).next_file_id_spec()
                &&& forall|j: int|
                    0 <= j < old(self).files_seq().len() && old(self).files_seq()[j].path@ != path@
                        ==> final(self).files_seq()[j] == old(self).files_seq()[j]
                &&& forall|j: int|
                    0 <= j < old(self).files_seq().len() && old(self).files_seq()[j].path@ == path@
                        ==> {
                        let it = final(self).files_seq()[j];
                        let was = old(self).files_seq()[j];
                        &&& it.id == was.id
                        &&& it.path == was.path
                        &&& it.hash@ == hash@
                        &&& it.mod_time == mod_time
                        &&& it.sync_status@ == "pending"@
                        &&& it.folder_id == was.folder_id
                        &&& r == was.id
                    }
            },
            (forall|j: int|
                0 <= j < old(self).files_seq().len() ==> (#[trigger] old(
                    self,
                ).files_seq()[j]).path@ != path@) ==> {
                let f = final(self).files_seq().last();
                &&& final(self).files_seq() == old(self).files_seq().push(f)
                &&& f.id == old(self).next_file_id_spec()
                &&& f.path@ == path@
                &&& f.hash@ == hash@
                &&& f.mod_time == mod_time
                &&& f.sync_status@ == "pending"@
                &&& f.folder_id == folder_id
                &&& r == old(self).next_file_id_spec()
                &&& final(self).next_file_id_spec() == old(self).next_file_id_spec() + 1
            },
    {
        let n = self.files.len();
        let mut j: usize = 0;
        while j < n
            invariant
                j <= n,
                n == self.files@.len(),
                self.folders@ == old(self).folders@,
                self.files@ == old(self).files@,
                self.next_folder_id == old(self).next_folder_id,
                self.next_file_id == old(self).next_file_id,
                old(self).wf(),
                forall|i: int| 0 <= i < j ==> self.files@[i].path@ != path@,
            decreases n - j,
        {
            if str_eq(self.files[j].path.as_str(), path) {
                let was = &self.files[j];
                let id = was.id;
                let updated = FileEntry {
                    id: was.id,
                    path: was.path.clone(),
                    hash: hash.to_owned(),
                    mod_time,
                    sync_status: "pending".to_owned(),
                    folder_id: was.folder_id,
                };
                self.files.set(j, updated);
                return id;
            }
            j = j + 1;
        }
        let id = self.next_file_id;
        let f = FileEntry {
            id,
            path: path.to_owned(),
            hash: hash.to_owned(),
            mod_time,
            sync_status: "pending".to_owned(),
            folder_id,
        };
        self.files.push(f);
        self.next_file_id = self.next_file_id + 1;
        proof {
            assert(self.files@.drop_last() =~= old(self).files@);
        }
        id
    }

    /// Up to `limit` records still awaiting a sync, in stored order; a
    /// negative `limit` means no bound, as an unbounded query would.
    pub fn get_pending_files(&self, limit: i64) -> (r: Vec<FileEntry>)
        requires
            self.wf(),
        ensures
            ({
                let pend = files_with_status(self.files_seq(), "pending"@);
                if limit < 0 {
                    r@ == pend
                } else {
                    r@ == pend.take(vstd::math::min(limit as int, pend.len() as int))
                }
            }),
    {
        let n = self.files.len();
        let mut out: Vec<FileEntry> = Vec::new();
        let mut i: usize = 0;
        while i < n
            invariant
                i <= n,
                n == self.files@.len(),
                out@ == files_with_status(self.files@.take(i as int), "pending"@),
            decreases n - i,
        {
            proof {
                let t = self.files@.take(i as int);
                let t2 = self.files@.take(i + 1);
                assert(t2.drop_last() =~= t);
                assert(t2.last() == self.files@[i as int]);
                reveal(Seq::filter);
            }
            if str_eq(self.files[i].sync_status.as_str(), "pending") {
                out.push(self.files[i].clone());
            }
            i = i + 1;
        }
        proof {
            assert(self.files@.take(n as int) =~= self.files@);
        }
        if limit >= 0 {
            let lim = if limit as u64 > usize::MAX as u64 {
                usize::MAX
            } else {
                limit as usize
            };
            if out.len() > lim {
                out.truncate(lim);
            } else {
                proof {
                    assert(out@.take(out@.len() as int) =~= out@);
                }
            }
        }
        out
    }

    /// Mark the record with identifier `file_id` as synced; an unknown
    /// identifier changes nothing.
    pub fn mark_synced(&mut self, file_id: i64)
        requires
            old(self).wf(),
        ensures
            final(self).wf(),
            final(self).folders_seq() == old(self).folders_seq(),
            final(self).next_folder_id_spec() == old(self).next_folder_id_spec(),
            final(self).next_file_id_spec() == old(self).next_file_id_spec(),
            final(self).files_seq().len() == old(self).files_seq().len(),
            forall|j: int|
                0 <= j < old(self).files_seq().len() && old(self).files_seq()[j].id != file_id
                    ==> final(self).files_seq()[j] == old(self).files_seq()[j],
            forall|j: int|
                0 <= j < old(self).files_seq().len() && old(self).files_seq()[j].id == file_id
                    ==> {
                    let it = final(self).files_seq()[j];
                    let was = old(self).files_seq()[j];
                    &&& it.id == was.id
                    &&& it.path == was.path
                    &&& it.hash == was.hash
                    &&& it.mod_time == was.mod_time
                    &&& it.sync_status@ == "synced"@
                    &&& it.folder_id == was.folder_id
                },
    {
        let n = self.files.len();
        let mut j: usize = 0;
        while j < n
            invariant
                j <= n,
                n == self.files@.len(),
                self.folders@ == old(self).folders@,
                self.files@ == old(self).files@,
                self.next_folder_id == old(self).next_folder_id,
                self.next_file_id == old(self).next_file_id,
                old(self).wf(),
                forall|i: int| 0 <= i < j ==> self.files@[i].id != file_id,
            decreases n - j,
        {
            if self.files[j].id == file_id {
                let was = &self.files[j];
                let updated = FileEntry {
                    id: was.id,
                    path: was.path.clone(),
                    hash: was.hash.clone(),
                    mod_time: was.mod_time,
                    sync_status: "synced".to_owned(),
                    folder_id: was.folder_id,
                };
                self.files.set(j, updated);
                return ;
            }
            j = j + 1;
        }
    }

    /// The aggregate counts: all records, those synced, those pending.
    pub fn get_stats(&self) -> (r: (usize, usize, usize))
        requires
            self.wf(),
        ensures
            r.0 == self.files_seq().len(),
            r.1 == files_with_status(self.files_seq(), "synced"@).len(),
            r.2 == files_with_status(self.files_seq(), "pending"@).len(),
    {
        let n = self.files.len();
        let mut synced: usize = 0;
        let mut pending: usize = 0;
        let mut i: usize = 0;
        while i < n
            invariant
                i <= n,
                n == self.files@.len(),
                synced == files_with_status(self.files@.take(i as int), "synced"@).len(),
                pending == files_with_status(self.files@.take(i as int), "pending"@).len(),
            decreases n - i,
        {
            proof {
                let t = self.files@.take(i as int);
                let t2 = self.files@.take(i + 1);
                assert(t2.drop_last() =~= t);
                assert(t2.last() == self.files@[i as int]);
                reveal(Seq::filter);
            }
            if str_eq(self.files[i].sync_status.as_str(), "synced") {
                synced = synced + 1;
            }
            if str_eq(self.files[i].sync_status.as_str(), "pending") {
                pending = pending + 1;
            }
            i = i + 1;
        }
        proof {
            assert(self.files@.take(n as int) =~= self.files@);
        }
        (n, synced, pending)
    }

    /// Unregister a root: its file records are deleted with it. The delta
    /// index is not touched by this; it lives with the queue.
    pub fn remove_watched_folder(&mut self, folder_id: i64)
        requires
            old(self).wf(),
        ensures
            final(self).wf(),
            final(self).next_folder_id_spec() == old(self).next_folder_id_spec(),
            final(self).next_file_id_spec() == old(self).next_file_id_spec(),
            final(self).files_seq() == old(self).files_seq().filter(
                |f: FileEntry| f.folder_id != folder_id,
            ),
            final(self).folders_seq() == old(self).folders_seq().filter(
                |f: WatchedFolder| f.id != folder_id,
            ),
    {
        let n = self.files.len();
        let mut kept: Vec<FileEntry> = Vec::new();
        let mut i: usize = 0;
        while i < n
            invariant
                i <= n,
                n == self.files@.len(),
                self.files@ == old(self).files@,
                self.folders@ == old(self).folders@,
                self.next_folder_id == old(self).next_folder_id,
                self.next_file_id == old(self).next_file_id,
                old(self).wf(),
                kept@ == self.files@.take(i as int).filter(|f: FileEntry| f.folder_id != folder_id),
                forall|k: int|
                    0 <= k < kept@.len() ==> exists|a: int|
                        0 <= a < i && self.files@[a] == #[trigger] kept@[k],
                file_ids_unique_below(kept@, self.next_file_id),
                file_paths_unique(kept@),
            decreases n - i,
        {
            proof {
                let t = self.files@.take(i as int);
                let t2 = self.files@.take(i + 1);
                assert(t2.drop_last() =~= t);
                assert(t2.last() == self.files@[i as int]);
                reveal(Seq::filter);
            }
            if self.files[i].folder_id != folder_id {
                let ghost before = kept@;
                kept.push(self.files[i].clone());
                proof {
                    assert forall|a: int, b: int| 0 <= a < b < kept@.len() implies kept@[a].id
                        != kept@[b].id && kept@[a].path@ != kept@[b].path@ by {
                        if b == kept@.len() - 1 {
                            let x = choose|x: int|
                                0 <= x < i && self.files@[x] == #[trigger] before[a];
                            assert(kept@[b] == self.files@[i as int]);
                        }
                    }
                }
            }
            i = i + 1;
        }
        proof {
            assert(self.files@.take(n as int) =~= self.files@);
        }
        self.files = kept;
        let m = self.folders.len();
        let mut fkept: Vec<WatchedFolder> = Vec::new();
        let mut j: usize = 0;
        while j < m
            invariant
                j <= m,
                m == self.folders@.len(),
                self.folders@ == old(self).folders@,
                self.files@ == old(self).files@.filter(|f: FileEntry| f.folder_id != folder_id),
                file_ids_unique_below(self.files@, self.next_file_id),
                file_paths_unique(self.files@),
                self.next_folder_id == old(self).next_folder_id,
                self.next_file_id == old(self).next_file_id,
                old(self).wf(),
                fkept@ == self.folders@.take(j as int).filter(
                    |f: WatchedFolder| f.id != folder_id,
                ),
                forall|k: int|
                    0 <= k < fkept@.len() ==> exists|a: int|
                        0 <= a < j && self.folders@[a] == #[trigger] fkept@[k],
                folder_ids_unique_below(fkept@, self.next_folder_id),
                folder_paths_unique(fkept@),
            decreases m - j,
        {
            proof {
                let t = self.folders@.take(j as int);
                let t2 = self.folders@.take(j + 1);
                assert(t2.drop_last() =~= t);
                assert(t2.last() == self.folders@[j as int]);
                reveal(Seq::filter);
            }
            if self.folders[j].id != folder_id {
                let ghost before = fkept@;
                fkept.push(self.folders[j].clone());
                proof {
                    assert forall|a: int, b: int| 0 <= a < b < fkept@.len() implies fkept@[a].id
                        != fkept@[b].id && fkept@[a].path@ != fkept@[b].path@ by {
                        if b == fkept@.len() - 1 {
                            let x = choose|x: int|
                                0 <= x < j && self.folders@[x] == #[trigger] before[a];
                            assert(fkept@[b] == self.folders@[j as int]);
                        }
                    }
                }
            }
            j = j + 1;
        }
        proof {
            assert(self.folders@.take(m as int) =~= self.folders@);
        }
        self.folders = fkept;
    }
}

} // verus!
