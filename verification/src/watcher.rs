//! The watcher's decisions: which paths are under watch, and which root an
//! event's path belongs to. The OS subscription itself is the caller's; the
//! watch set and the event routing are decided and specified here.

use vstd::prelude::*;
use crate::text::{str_eq, starts_with, is_prefix_of};
use crate::db::WatchedFolder;

verus! {

/// The set of paths under watch. Adding and removing are idempotent: a
/// second add of the same path, or a remove of an absent one, changes
/// nothing and says so.
pub struct WatchSet {
    paths: Vec<String>,
}

impl WatchSet {
    pub closed spec fn paths_seq(&self) -> Seq<Seq<char>> {
        self.paths@.map_values(|s: String| s@)
    }

    pub open spec fn watches(&self, p: Seq<char>) -> bool {
        self.paths_seq().contains(p)
    }

    pub open spec fn wf(&self) -> bool {
        forall|i: int, j: int|
            0 <= i < j < self.paths_seq().len() ==> self.paths_seq()[i] != self.paths_seq()[j]
    }

    /// An empty watch set.
    pub fn new() -> (r: Self)
        ensures
            r.wf(),
            forall|p: Seq<char>| !r.watches(p),
    {
        let r = WatchSet { paths: Vec::new() };
        proof {
            assert(r.paths_seq() =~= Seq::<Seq<char>>::empty());
            assert forall|p: Seq<char>| !r.watches(p) by {}
        }
        r
    }

    /// Begin watching `path`. Nothing changes when it is already watched;
    /// the result says whether the watch is new.
    pub fn add(&mut self, path: &str) -> (added: bool)
        requires
            old(self).wf(),
        ensures
            final(self).wf(),
            added == !old(self).watches(path@),
            final(self).watches(path@),
            forall|p: Seq<char>|
                p != path@ ==> final(self).watches(p) == old(self).watches(p),
    {
        let n = self.paths.len();
        let mut i: usize = 0;
        while i < n
            invariant
                i <= n,
                n == self.paths@.len(),
                self.paths@ == old(self).paths@,
                old(self).wf(),
                forall|k: int| 0 <= k < i ==> self.paths@[k]@ != path@,
            decreases n - i,
        {
            if str_eq(self.paths[i].as_str(), path) {
                proof {
                    assert(old(self).paths_seq()[i as int] == path@);
                }
                return false;
            }
            i = i + 1;
        }
        let ghost before = self.paths@;
        self.paths.push(path.to_owned());
        proof {
            assert(self.paths@.drop_last() =~= before);
            assert(self.paths_seq() =~= old(self).paths_seq().push(path@));
            assert(self.paths_seq().last() == path@);
            assert forall|k: int| 0 <= k < old(self).paths_seq().len()
                implies old(self).paths_seq()[k] != path@ by {}
            assert forall|p: Seq<char>| p != path@ implies self.watches(p) == old(self).watches(
                p,
            ) by {
                if self.watches(p) {
                    let k = choose|k: int|
                        0 <= k < self.paths_seq().len() && self.paths_seq()[k] == p;
                    assert(old(self).paths_seq()[k] == p);
                } else if old(self).watches(p) {
                    let k = choose|k: int|
                        0 <= k < old(self).paths_seq().len() && old(self).paths_seq()[k] == p;
                    assert(self.paths_seq()[k] == p);
                }
            }
            assert(!old(self).watches(path@)) by {
                if old(self).watches(path@) {
                    let k = choose|k: int|
                        0 <= k < old(self).paths_seq().len() && old(self).paths_seq()[k] == path@;
                }
            }
        }
        true
    }

    /// Stop watching `path`. Nothing changes when it is not watched; the
    /// result says whether a watch was released.
    pub fn remove(&mut self, path: &str) -> (removed: bool)
        requires
            old(self).wf(),
        ensures
            final(self).wf(),
            removed == old(self).watches(path@),
            !final(self).watches(path@),
            forall|p: Seq<char>|
                p != path@ ==> final(self).watches(p) == old(self).watches(p),
    {
        let n = self.paths.len();
        let mut i: usize = 0;
        while i < n
            invariant
                i <= n,
                n == self.paths@.len(),
                self.paths@ == old(self).paths@,
                old(self).wf(),
                forall|k: int| 0 <= k < i ==> self.paths@[k]@ != path@,
            decreases n - i,
        {
            if str_eq(self.paths[i].as_str(), path) {
                let ghost before = self.paths@;
                self.paths.remove(i);
                proof {
                    assert(before[i as int]@ == path@);
                    assert(old(self).paths_seq()[i as int] == path@);
                    assert(old(self).watches(path@));
                    assert(self.paths_seq() =~= old(self).paths_seq().remove(i as int));
                    lemma_remove_keeps_others(old(self).paths_seq(), i as int);
                }
                return true;
            }
            i = i + 1;
        }
        proof {
            assert(!old(self).watches(path@)) by {
                if old(self).watches(path@) {
                    let k = choose|k: int|
                        0 <= k < old(self).paths_seq().len() && old(self).paths_seq()[k] == path@;
                }
            }
        }
        false
    }

    /// Whether `path` is currently watched.
    pub fn contains(&self, path: &str) -> (r: bool)
        requires
            self.wf(),
        ensures
            r == self.watches(path@),
    {
        let n = self.paths.len();
        let mut i: usize = 0;
        while i < n
            invariant
                i <= n,
                n == self.paths@.len(),
                forall|k: int| 0 <= k < i ==> self.paths@[k]@ != path@,
            decreases n - i,
        {
            if str_eq(self.paths[i].as_str(), path) {
                proof {
                    assert(self.paths_seq()[i as int] == path@);
                }
                return true;
            }
            i = i + 1;
        }
        proof {
            if self.watches(path@) {
                let k = choose|k: int|
                    0 <= k < self.paths_seq().len() && self.paths_seq()[k] == path@;
                assert(self.paths@[k]@ == path@);
            }
        }
        false
    }
}

proof fn lemma_remove_keeps_others(s: Seq<Seq<char>>, i: int)
    requires
        0 <= i < s.len(),
        forall|a: int, b: int| 0 <= a < b < s.len() ==> s[a] != s[b],
    ensures
        forall|a: int, b: int|
            0 <= a < b < s.remove(i).len() ==> s.remove(i)[a] != s.remove(i)[b],
        !s.remove(i).contains(s[i]),
        forall|p: Seq<char>| p != s[i] ==> s.remove(i).contains(p) == s.contains(p),
{
    let t = s.remove(i);
    assert forall|a: int, b: int| 0 <= a < b < t.len() implies t[a] != t[b] by {
        assert(t[a] == if a < i {
            s[a]
        } else {
            s[a + 1]
        });
        assert(t[b] == if b < i {
            s[b]
        } else {
            s[b + 1]
        });
    }
    assert forall|p: Seq<char>| p != s[i] implies t.contains(p) == s.contains(p) by {
        if t.contains(p) {
            let k = choose|k: int| 0 <= k < t.len() && t[k] == p;
            if k < i {
                assert(s[k] == p);
            } else {
                assert(s[k + 1] == p);
            }
        } else if s.contains(p) {
            let k = choose|k: int| 0 <= k < s.len() && s[k] == p;
            if k < i {
                assert(t[k] == p);
            } else {
                assert(k > i);
                assert(t[k - 1] == p);
            }
        }
    }
    if t.contains(s[i]) {
        let k = choose|k: int| 0 <= k < t.len() && t[k] == s[i];
        if k < i {
            assert(s[k] == s[i]);
        } else {
            assert(s[k + 1] == s[i]);
        }
    }
}

/// The root an event path resolves to: the first listed root whose path is
/// a leading segment of the event's path.
pub open spec fn resolve_from(folders: Seq<WatchedFolder>, p: Seq<char>, i: int) -> Option<i64>
    decreases folders.len() - i,
{
    if i < 0 || i >= folders.len() {
        None
    } else if is_prefix_of(folders[i].path@, p) {
        Some(folders[i].id)
    } else {
        resolve_from(folders, p, i + 1)
    }
}

pub open spec fn spec_resolve_root(folders: Seq<WatchedFolder>, p: Seq<char>) -> Option<i64> {
    resolve_from(folders, p, 0)
}

/// Resolve an event path to its owning root: the first of the given roots
/// whose path prefixes it, as first-match routing over the registered list.
pub fn resolve_root(folders: &Vec<WatchedFolder>, path: &str) -> (r: Option<i64>)
    ensures
        r == spec_resolve_root(folders@, path@),
{
    let n = folders.len();
    let mut i: usize = 0;
    while i < n
        invariant
            i <= n,
            n == folders@.len(),
            spec_resolve_root(folders@, path@) == resolve_from(folders@, path@, i as int),
        decreases n - i,
    {
        if starts_with(path, folders[i].path.as_str()) {
            return Some(folders[i].id);
        }
        i = i + 1;
    }
    None
}

/// Whether a watcher event for `path` produces work, and for which root:
/// only an existing file under some enabled root is re-indexed.
pub fn should_index_event(folders: &Vec<WatchedFolder>, path: &str, is_file: bool) -> (r: Option<
    i64,
>)
    ensures
        is_file ==> r == spec_resolve_root(folders@, path@),
        !is_file ==> r is None,
{
    if !is_file {
        return None;
    }
    resolve_root(folders, path)
}

} // verus!
