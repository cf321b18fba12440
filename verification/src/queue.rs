//! The sync queue: pending transfer work in FIFO order by creation time,
//! plus the delta-sync index mapping each path to its last-synced digest.

use vstd::prelude::*;
use crate::text::str_eq;

verus! {

/// One unit of pending transfer work.
#[derive(Debug)]
pub struct QueueItem {
    pub id: i64,
    pub file_path: String,
    /// One of "pending", "uploading", "completed", "failed".
    pub status: String,
    pub retries: i32,
    pub last_error: Option<String>,
    /// Creation time, seconds since the epoch.
    pub created_at: i64,
}

impl Clone for QueueItem {
    fn clone(&self) -> (res: Self)
        ensures
            res == *self,
    {
        QueueItem {
            id: self.id,
            file_path: self.file_path.clone(),
            status: self.status.clone(),
            retries: self.retries,
            last_error: match &self.last_error {
                Some(e) => Some(e.clone()),
                None => None,
            },
            created_at: self.created_at,
        }
    }
}

/// A delta-sync memo: the digest last transferred successfully for a path.
#[derive(Debug)]
pub struct SyncedEntry {
    pub file_path: String,
    pub file_hash: String,
    /// Upsert time, seconds since the epoch.
    pub synced_at: i64,
}

pub open spec fn is_pending_item(it: QueueItem) -> bool {
    it.status@ == "pending"@
}

/// The pending items of `s`, in order.
pub open spec fn pending_of(s: Seq<QueueItem>) -> Seq<QueueItem> {
    s.filter(|it: QueueItem| is_pending_item(it))
}

/// How many items of `s` were created at or before `now`.
pub open spec fn count_created_le(s: Seq<QueueItem>, now: i64) -> int {
    s.filter(|it: QueueItem| it.created_at <= now).len() as int
}

proof fn lemma_count_le_split(s: Seq<QueueItem>, k: int, now: i64)
    requires
        0 <= k <= s.len(),
        forall|j: int| 0 <= j < k ==> s[j].created_at <= now,
        forall|j: int| k <= j < s.len() ==> s[j].created_at > now,
    ensures
        count_created_le(s, now) == k,
    decreases s.len(),
{
    reveal(Seq::filter);
    if s.len() > 0 {
        if k == s.len() {
            lemma_count_le_split(s.drop_last(), k - 1, now);
        } else {
            lemma_count_le_split(s.drop_last(), k, now);
        }
    }
}

/// Items are ordered by creation time, oldest first.
pub open spec fn sorted_by_created(s: Seq<QueueItem>) -> bool {
    forall|i: int, j: int| 0 <= i <= j < s.len() ==> s[i].created_at <= s[j].created_at
}

/// Item identifiers are distinct and below `bound`.
pub open spec fn ids_unique_below(s: Seq<QueueItem>, bound: i64) -> bool {
    &&& forall|i: int, j: int| 0 <= i < j < s.len() ==> s[i].id != s[j].id
    &&& forall|i: int| 0 <= i < s.len() ==> 0 < #[trigger] s[i].id < bound
}

/// Index entries hold distinct paths.
pub open spec fn paths_unique(s: Seq<SyncedEntry>) -> bool {
    forall|i: int, j: int| 0 <= i < j < s.len() ==> s[i].file_path@ != s[j].file_path@
}

/// The delta index as a map from path to last-synced digest.
pub open spec fn index_map_of(s: Seq<SyncedEntry>) -> Map<Seq<char>, Seq<char>>
    decreases s.len(),
{
    if s.len() == 0 {
        Map::empty()
    } else {
        index_map_of(s.drop_last()).insert(s.last().file_path@, s.last().file_hash@)
    }
}

proof fn lemma_index_map_domain(s: Seq<SyncedEntry>, p: Seq<char>)
    ensures
        index_map_of(s).contains_key(p) <==> exists|i: int| 0 <= i < s.len() && s[i].file_path@ == p,
    decreases s.len(),
{
    if s.len() > 0 {
        lemma_index_map_domain(s.drop_last(), p);
        if s.last().file_path@ == p {
            assert(s[s.len() - 1].file_path@ == p);
        } else if index_map_of(s).contains_key(p) {
            let i = choose|i: int| 0 <= i < s.drop_last().len() && s.drop_last()[i].file_path@ == p;
            assert(s[i].file_path@ == p);
        } else {
            assert forall|i: int| 0 <= i < s.len() implies s[i].file_path@ != p by {
                if i < s.len() - 1 {
                    assert(s.drop_last()[i].file_path@ != p);
                }
            }
        }
    }
}

proof fn lemma_index_map_at(s: Seq<SyncedEntry>, i: int)
    requires
        paths_unique(s),
        0 <= i < s.len(),
    ensures
        index_map_of(s).contains_key(s[i].file_path@),
        index_map_of(s)[s[i].file_path@] == s[i].file_hash@,
    decreases s.len(),
{
    if i == s.len() - 1 {
    } else {
        lemma_index_map_at(s.drop_last(), i);
        assert(s.drop_last()[i] == s[i]);
        assert(s.last().file_path@ != s[i].file_path@);
    }
}

proof fn lemma_index_map_update(s: Seq<SyncedEntry>, i: int, e: SyncedEntry)
    requires
        paths_unique(s),
        0 <= i < s.len(),
        s[i].file_path@ == e.file_path@,
    ensures
        index_map_of(s.update(i, e)) == index_map_of(s).insert(e.file_path@, e.file_hash@),
    decreases s.len(),
{
    let t = s.update(i, e);
    if i == s.len() - 1 {
        assert(t.drop_last() =~= s.drop_last());
        assert(t.last() == e);
        assert(index_map_of(t) == index_map_of(s.drop_last()).insert(e.file_path@, e.file_hash@));
        assert(index_map_of(s.drop_last()).insert(e.file_path@, e.file_hash@) =~= index_map_of(
            s,
        ).insert(e.file_path@, e.file_hash@));
    } else {
        assert(t.drop_last() =~= s.drop_last().update(i, e));
        assert(t.last() == s.last());
        lemma_index_map_update(s.drop_last(), i, e);
        assert(s.drop_last()[i] == s[i]);
        assert(s.last().file_path@ != e.file_path@);
        assert(index_map_of(s.drop_last()).insert(e.file_path@, e.file_hash@).insert(
            s.last().file_path@,
            s.last().file_hash@,
        ) =~= index_map_of(s.drop_last()).insert(s.last().file_path@, s.last().file_hash@).insert(
            e.file_path@,
            e.file_hash@,
        ));
    }
}

/// A persistent work queue plus the delta-sync index, modeled in memory.
pub struct SyncQueue {
    items: Vec<QueueItem>,
    synced: Vec<SyncedEntry>,
    next_id: i64,
}

impl SyncQueue {
    /// The queued items, in stored (FIFO) order.
    pub closed spec fn items_seq(&self) -> Seq<QueueItem> {
        self.items@
    }

    /// The delta-sync index entries, in stored order.
    pub closed spec fn synced_seq(&self) -> Seq<SyncedEntry> {
        self.synced@
    }

    /// The delta-sync index as a map from path to digest.
    pub open spec fn index_map(&self) -> Map<Seq<char>, Seq<char>> {
        index_map_of(self.synced_seq())
    }

    /// The identifier the next enqueued item will receive.
    pub closed spec fn next_id_spec(&self) -> i64 {
        self.next_id
    }

    pub open spec fn wf(&self) -> bool {
        &&& sorted_by_created(self.items_seq())
        &&& ids_unique_below(self.items_seq(), self.next_id_spec())
        &&& paths_unique(self.synced_seq())
        &&& 0 < self.next_id_spec()
    }

    /// Create an empty queue with an empty delta index.
    pub fn new() -> (r: Self)
        ensures
            r.wf(),
            r.items_seq() == Seq::<QueueItem>::empty(),
            r.index_map() == Map::<Seq<char>, Seq<char>>::empty(),
            r.next_id_spec() == 1,
    {
        SyncQueue { items: Vec::new(), synced: Vec::new(), next_id: 1 }
    }

    /// The identifier the next enqueued item will receive.
    pub fn next_item_id(&self) -> (r: i64)
        ensures
            r == self.next_id_spec(),
    {
        self.next_id
    }

    /// Append new pending work for `file_path`, created at `now`. The item is
    /// placed after every item created at or before `now`, keeping the queue
    /// ordered by creation time; duplicates of the same path make distinct
    /// items.
    pub fn add_item(&mut self, file_path: String, now: i64)
        requires
            old(self).wf(),
            old(self).next_id_spec() < i64::MAX,
        ensures
            final(self).wf(),
            ({
                let k = count_created_le(old(self).items_seq(), now);
                let it = final(self).items_seq()[k];
                &&& final(self).items_seq() == old(self).items_seq().insert(k, it)
                &&& it.id == old(self).next_id_spec()
                &&& it.file_path == file_path
                &&& it.status@ == "pending"@
                &&& it.retries == 0
                &&& it.last_error is None
                &&& it.created_at == now
            }),
            final(self).index_map() == old(self).index_map(),
            final(self).next_id_spec() == old(self).next_id_spec() + 1,
    {
        let ghost old_items = self.items@;
        let mut k: usize = self.items.len();
        while k > 0 && self.items[k - 1].created_at > now
            invariant
                k <= self.items@.len(),
                self.items@ == old_items,
                forall|j: int| k <= j < self.items@.len() ==> self.items@[j].created_at > now,
            decreases k,
        {
            k = k - 1;
        }
        proof {
            assert(k == 0 || old_items[k as int - 1].created_at <= now);
            assert forall|j: int| 0 <= j < k implies old_items[j].created_at <= now by {
                assert(old_items[j].created_at <= old_items[k as int - 1].created_at);
            }
            lemma_count_le_split(old_items, k as int, now);
        }
        let status = "pending".to_owned();
        let item = QueueItem {
            id: self.next_id,
            file_path,
            status,
            retries: 0,
            last_error: None,
            created_at: now,
        };
        self.items.insert(k, item);
        self.next_id = self.next_id + 1;
        proof {
            let s = self.items@;
            let ki = k as int;
            assert(s[ki] == item);
            assert(s == old_items.insert(ki, s[ki]));
            assert forall|i: int, j: int| 0 <= i <= j < s.len() implies s[i].created_at
                <= s[j].created_at by {
                if i < ki && j > ki {
                    assert(s[i] == old_items[i] && s[j] == old_items[j - 1]);
                } else if i < ki && j == ki {
                    assert(s[i] == old_items[i]);
                    assert(old_items[ki - 1].created_at <= now);
                } else if i == ki && j > ki {
                    assert(s[j] == old_items[j - 1]);
                } else if i > ki && j > ki {
                    assert(s[i] == old_items[i - 1] && s[j] == old_items[j - 1]);
                }
            }
            assert(ids_unique_below(s, self.next_id));
        }
    }

    /// Up to `limit` pending items, oldest first; a negative `limit` means no
    /// bound, as an unbounded query would. Items are returned as copies: the
    /// caller claims one by a later `update_status`.
    pub fn get_pending(&self, limit: i32) -> (r: Vec<QueueItem>)
        requires
            self.wf(),
        ensures
            limit < 0 ==> r@ == pending_of(self.items_seq()),
            limit >= 0 ==> r@ == pending_of(self.items_seq()).take(
                vstd::math::min(limit as int, pending_of(self.items_seq()).len() as int),
            ),
            sorted_by_created(r@),
    {
        let mut all: Vec<QueueItem> = Vec::new();
        let n = self.items.len();
        let mut i: usize = 0;
        while i < n
            invariant
                i <= n,
                n == self.items@.len(),
                all@ == pending_of(self.items@.take(i as int)),
            decreases n - i,
        {
            proof {
                let t = self.items@.take(i as int);
                let t2 = self.items@.take(i + 1);
                assert(t2.drop_last() =~= t);
                assert(t2.last() == self.items@[i as int]);
                reveal(Seq::filter);
            }
            if str_eq(self.items[i].status.as_str(), "pending") {
                all.push(self.items[i].clone());
            }
            i = i + 1;
        }
        proof {
            assert(self.items@.take(n as int) =~= self.items@);
        }
        if limit >= 0 {
            let lim = limit as usize;
            if all.len() > lim {
                all.truncate(lim);
            } else {
                proof {
                    assert(all@.take(all@.len() as int) =~= all@);
                }
            }
        }
        proof {
            let p = pending_of(self.items_seq());
            assert forall|i2: int, j2: int| 0 <= i2 <= j2 < all@.len() implies all@[i2].created_at
                <= all@[j2].created_at by {
                assert(all@[i2] == p[i2] && all@[j2] == p[j2]);
                lemma_filter_of_sorted(self.items_seq(), i2, j2);
            }
        }
        all
    }

    /// The item with identifier `id`, as a copy, if it is queued.
    pub fn get_item(&self, id: i64) -> (r: Option<QueueItem>)
        requires
            self.wf(),
        ensures
            match r {
                Some(it) => it.id == id && exists|j: int|
                    0 <= j < self.items_seq().len() && #[trigger] self.items_seq()[j] == it,
                None => forall|j: int|
                    0 <= j < self.items_seq().len() ==> (#[trigger] self.items_seq()[j]).id != id,
            },
    {
        let n = self.items.len();
        let mut j: usize = 0;
        while j < n
            invariant
                j <= n,
                n == self.items@.len(),
                forall|i: int| 0 <= i < j ==> self.items@[i].id != id,
            decreases n - j,
        {
            if self.items[j].id == id {
                return Some(self.items[j].clone());
            }
            j = j + 1;
        }
        None
    }

    /// Transition the item with identifier `id` to `status`, replacing its
    /// recorded error; an unknown `id` changes nothing. Everything else about
    /// the queue and the delta index is untouched.
    pub fn update_status(&mut self, id: i64, status: &str, error: Option<String>)
        requires
            old(self).wf(),
        ensures
            final(self).wf(),
            final(self).items_seq().len() == old(self).items_seq().len(),
            forall|j: int|
                0 <= j < old(self).items_seq().len() && old(self).items_seq()[j].id != id
                    ==> final(self).items_seq()[j] == old(self).items_seq()[j],
            forall|j: int|
                0 <= j < old(self).items_seq().len() && old(self).items_seq()[j].id == id ==> {
                    let it = final(self).items_seq()[j];
                    let was = old(self).items_seq()[j];
                    &&& it.id == was.id
                    &&& it.file_path == was.file_path
                    &&& it.status@ == status@
                    &&& it.retries == was.retries
                    &&& it.last_error == error
                    &&& it.created_at == was.created_at
                },
            final(self).index_map() == old(self).index_map(),
            final(self).next_id_spec() == old(self).next_id_spec(),
    {
        let n = self.items.len();
        let mut j: usize = 0;
        while j < n
            invariant
                old(self).wf(),
                j <= n,
                n == self.items@.len(),
                self.items@ == old(self).items@,
                self.synced@ == old(self).synced@,
                self.next_id == old(self).next_id,
                forall|i: int| 0 <= i < j ==> self.items@[i].id != id,
            decreases n - j,
        {
            if self.items[j].id == id {
                let was = &self.items[j];
                let updated = QueueItem {
                    id: was.id,
                    file_path: was.file_path.clone(),
                    status: status.to_owned(),
                    retries: was.retries,
                    last_error: error,
                    created_at: was.created_at,
                };
                self.items.set(j, updated);
                proof {
                    assert(forall|i: int|
                        0 <= i < self.items@.len() && i != j ==> self.items@[i] == old(
                            self,
                        ).items@[i]);
                }
                return ;
            }
            j = j + 1;
        }
    }

    /// Bump the retry count of the item with identifier `id`, saturating at
    /// the counter's maximum; an unknown `id` changes nothing.
    pub fn increment_retry(&mut self, id: i64)
        requires
            old(self).wf(),
        ensures
            final(self).wf(),
            final(self).items_seq().len() == old(self).items_seq().len(),
            forall|j: int|
                0 <= j < old(self).items_seq().len() && old(self).items_seq()[j].id != id
                    ==> final(self).items_seq()[j] == old(self).items_seq()[j],
            forall|j: int|
                0 <= j < old(self).items_seq().len() && old(self).items_seq()[j].id == id ==> {
                    let it = final(self).items_seq()[j];
                    let was = old(self).items_seq()[j];
                    &&& it.id == was.id
                    &&& it.file_path == was.file_path
                    &&& it.status == was.status
                    &&& it.retries == if was.retries < i32::MAX {
                        was.retries + 1
                    } else {
                        i32::MAX as int
                    }
                    &&& it.last_error == was.last_error
                    &&& it.created_at == was.created_at
                },
            final(self).index_map() == old(self).index_map(),
            final(self).next_id_spec() == old(self).next_id_spec(),
    {
        let n = self.items.len();
        let mut j: usize = 0;
        while j < n
            invariant
                old(self).wf(),
                j <= n,
                n == self.items@.len(),
                self.items@ == old(self).items@,
                self.synced@ == old(self).synced@,
                self.next_id == old(self).next_id,
                forall|i: int| 0 <= i < j ==> self.items@[i].id != id,
            decreases n - j,
        {
            if self.items[j].id == id {
                let was = &self.items[j];
                let bumped: i32 = if was.retries < i32::MAX {
                    was.retries + 1
                } else {
                    i32::MAX
                };
                let updated = QueueItem {
                    id: was.id,
                    file_path: was.file_path.clone(),
                    status: was.status.clone(),
                    retries: bumped,
                    last_error: match &was.last_error {
                        Some(e) => Some(e.clone()),
                        None => None,
                    },
                    created_at: was.created_at,
                };
                self.items.set(j, updated);
                return ;
            }
            j = j + 1;
        }
    }

    /// The digest last recorded as successfully synced for `path`, if any.
    pub fn get_synced_hash(&self, path: &str) -> (r: Option<String>)
        requires
            self.wf(),
        ensures
            match r {
                Some(h) => self.index_map().contains_key(path@) && h@ == self.index_map()[path@],
                None => !self.index_map().contains_key(path@),
            },
    {
        let n = self.synced.len();
        let mut j: usize = 0;
        while j < n
            invariant
                j <= n,
                n == self.synced@.len(),
                self.wf(),
                forall|i: int| 0 <= i < j ==> self.synced@[i].file_path@ != path@,
            decreases n - j,
        {
            if str_eq(self.synced[j].file_path.as_str(), path) {
                proof {
                    lemma_index_map_at(self.synced@, j as int);
                }
                return Some(self.synced[j].file_hash.clone());
            }
            j = j + 1;
        }
        proof {
            lemma_index_map_domain(self.synced@, path@);
        }
        None
    }

    /// Record `hash` as the last successfully synced digest for `path`, at
    /// time `now`: an upsert keyed by path. The entry for `path` — path is
    /// the index's unique key — now carries exactly this digest and `now` as
    /// its synced-at instant; entries for every other path keep their places
    /// untouched.
    pub fn update_synced_hash(&mut self, path: &str, hash: &str, now: i64)
        requires
            old(self).wf(),
        ensures
            final(self).wf(),
            final(self).index_map() == old(self).index_map().insert(path@, hash@),
            final(self).items_seq() == old(self).items_seq(),
            final(self).next_id_spec() == old(self).next_id_spec(),
            final(self).synced_seq().len() == old(self).synced_seq().len() + (
            if old(self).index_map().contains_key(path@) {
                0int
            } else {
                1int
            }),
            forall|j: int|
                0 <= j < old(self).synced_seq().len() && old(self).synced_seq()[j].file_path@
                    != path@ ==> final(self).synced_seq()[j] == old(self).synced_seq()[j],
            exists|j: int|
                0 <= j < final(self).synced_seq().len()
                    && (#[trigger] final(self).synced_seq()[j]).file_path@ == path@
                    && final(self).synced_seq()[j].file_hash@ == hash@
                    && final(self).synced_seq()[j].synced_at == now,
    {
        let n = self.synced.len();
        let mut j: usize = 0;
        while j < n
            invariant
                old(self).wf(),
                j <= n,
                n == self.synced@.len(),
                self.items@ == old(self).items@,
                self.synced@ == old(self).synced@,
                self.next_id == old(self).next_id,
                forall|i: int| 0 <= i < j ==> self.synced@[i].file_path@ != path@,
            decreases n - j,
        {
            if str_eq(self.synced[j].file_path.as_str(), path) {
                let entry = SyncedEntry {
                    file_path: path.to_owned(),
                    file_hash: hash.to_owned(),
                    synced_at: now,
                };
                proof {
                    lemma_index_map_update(self.synced@, j as int, entry);
                    lemma_index_map_at(self.synced@, j as int);
                }
                self.synced.set(j, entry);
                proof {
                    assert(forall|a: int, b: int|
                        0 <= a < b < self.synced@.len() ==> self.synced@[a].file_path@
                            != self.synced@[b].file_path@);
                    assert(self.synced@[j as int].file_path@ == path@);
                }
                return ;
            }
            j = j + 1;
        }
        let entry = SyncedEntry {
            file_path: path.to_owned(),
            file_hash: hash.to_owned(),
            synced_at: now,
        };
        let ghost s0 = self.synced@;
        proof {
            lemma_index_map_domain(s0, path@);
        }
        self.synced.push(entry);
        proof {
            assert(self.synced@.drop_last() =~= s0);
            assert(self.synced@[self.synced@.len() - 1].file_path@ == path@);
            assert forall|a: int, b: int| 0 <= a < b < self.synced@.len() implies self.synced@[a].file_path@
                != self.synced@[b].file_path@ by {
                if b == self.synced@.len() - 1 {
                    assert(self.synced@[a].file_path@ != path@);
                }
            }
        }
    }
}

/// Selecting the pending items of a creation-time-ordered queue keeps them
/// ordered: positions `i <= j` of the selection never go back in time.
pub proof fn lemma_filter_of_sorted(s: Seq<QueueItem>, i: int, j: int)
    requires
        sorted_by_created(s),
        0 <= i <= j < pending_of(s).len(),
    ensures
        pending_of(s)[i].created_at <= pending_of(s)[j].created_at,
    decreases s.len(),
{
    reveal(Seq::filter);
    if s.len() > 0 {
        let p = pending_of(s);
        let q = pending_of(s.drop_last());
        if j < q.len() {
            assert(sorted_by_created(s.drop_last()));
            lemma_filter_of_sorted(s.drop_last(), i, j);
        } else {
            assert(p.len() == q.len() + 1 && p[j] == s.last());
            if i < q.len() {
                lemma_pending_bounded(s.drop_last(), i);
                assert(s.drop_last().len() < s.len());
            }
        }
    }
}

/// Every pending item selected from `s` was created no later than the last
/// element of `s`.
proof fn lemma_pending_bounded(s: Seq<QueueItem>, i: int)
    requires
        sorted_by_created(s),
        0 <= i < pending_of(s).len(),
        s.len() > 0,
    ensures
        pending_of(s)[i].created_at <= s.last().created_at,
    decreases s.len(),
{
    reveal(Seq::filter);
    let p = pending_of(s);
    let q = pending_of(s.drop_last());
    if i < q.len() {
        assert(sorted_by_created(s.drop_last()));
        if s.len() > 1 {
            lemma_pending_bounded(s.drop_last(), i);
            assert(s.drop_last().last() == s[s.len() - 2]);
            assert(s[s.len() - 2].created_at <= s.last().created_at);
        }
    } else {
        assert(p[i] == s.last());
    }
}

} // verus!
