//! Trash store model: retention paths, trash-entry naming, day-based
//! retention arithmetic, and the plans behind move, list, restore and sweep.
//! The file moves themselves are the caller's to perform; every decision and
//! every derived value is computed and specified here.

use vstd::prelude::*;
use vstd::arithmetic::div_mod::lemma_div_is_ordered;
use crate::text::{
    concat2, concat3, dec_of, is_digit, lemma_dec_round_trip, spec_base_name, base_name,
    spec_parent_dir, parent_dir, str_eq, u64_to_dec,
};
use crate::meta::{
    TrashMeta, digit_run_end, lemma_digit_run_of_dec, spec_parse_meta, spec_encode_meta,
    encode_meta, parse_meta,
};
use crate::timefmt::{
    MAX_TS_SECS, rfc3339_of, rfc3339_parse_of, compact_stamp_of, rfc3339_utc, compact_stamp,
    parse_rfc3339,
};

verus! {

/// Configuration for trash management.
#[derive(Debug, Clone, Copy)]
pub struct TrashConfig {
    /// Number of days to retain trashed files.
    pub retention_days: u32,
    /// Whether to auto-cleanup expired files on startup.
    pub auto_cleanup: bool,
}

impl Default for TrashConfig {
    fn default() -> (r: Self)
        ensures
            r.retention_days == 30,
            r.auto_cleanup,
    {
        TrashConfig { retention_days: 30, auto_cleanup: true }
    }
}

/// A listed trash entry: identity, where it came from, where it sits, when
/// it was trashed, its size, and how many whole days of retention are left.
#[derive(Debug)]
pub struct TrashItem {
    pub id: String,
    pub original_path: String,
    pub trash_path: String,
    /// RFC 3339 rendering of the trashed-at instant.
    pub trashed_at: String,
    pub size_bytes: u64,
    pub days_remaining: i64,
}

impl Clone for TrashItem {
    fn clone(&self) -> (res: Self)
        ensures
            res == *self,
    {
        TrashItem {
            id: self.id.clone(),
            original_path: self.original_path.clone(),
            trash_path: self.trash_path.clone(),
            trashed_at: self.trashed_at.clone(),
            size_bytes: self.size_bytes,
            days_remaining: self.days_remaining,
        }
    }
}

/// The trash directory name joined under `base`, with a separator added
/// unless `base` already ends in one.
pub open spec fn spec_trash_dir(base: Seq<char>) -> Seq<char> {
    if base.len() > 0 && base.last() == '/' {
        base + ".aura_trash"@
    } else {
        base + "/.aura_trash"@
    }
}

/// The canonical trash directory path under a sync folder.
pub fn get_trash_path(sync_folder: &str) -> (r: String)
    ensures
        r@ == spec_trash_dir(sync_folder@),
{
    let n = sync_folder.unicode_len();
    if n > 0 {
        let last = sync_folder.get_char(n - 1);
        if last == '/' {
            return concat2(sync_folder, ".aura_trash");
        }
    }
    concat2(sync_folder, "/.aura_trash")
}

/// The trash directory for a base path; same layout as `get_trash_path`.
pub fn get_trash_dir(base_path: &str) -> (r: String)
    ensures
        r@ == spec_trash_dir(base_path@),
{
    get_trash_path(base_path)
}

/// Division by a day's seconds, rounding toward zero, as elapsed-day counts
/// are taken.
pub open spec fn days_of_secs(d: int) -> int {
    if d >= 0 {
        d / 86400
    } else {
        -((-d) / 86400)
    }
}

/// Whole days of retention left for an entry trashed at `trashed`, read at
/// `now`: the retention window minus the elapsed whole days, floored at zero.
pub open spec fn spec_days_remaining(now: int, trashed: int, retention: int) -> int {
    let rem = retention - days_of_secs(now - trashed);
    if rem < 0 {
        0
    } else {
        rem
    }
}

/// Compute the days of retention left; never negative.
pub fn days_remaining(now: i64, trashed: i64, retention_days: u32) -> (r: i64)
    ensures
        r == spec_days_remaining(now as int, trashed as int, retention_days as int),
        r >= 0,
{
    let diff: i128 = now as i128 - trashed as i128;
    let mag: u128 = if diff >= 0 {
        diff as u128
    } else {
        (-diff) as u128
    };
    let days: u128 = mag / 86400;
    proof {
        assert(days as int <= mag as int) by (nonlinear_arith)
            requires
                days as int == mag as int / 86400,
                mag as int >= 0,
        ;
    }
    let rem: i128 = if diff >= 0 {
        retention_days as i128 - days as i128
    } else {
        retention_days as i128 + days as i128
    };
    if rem < 0 {
        0
    } else {
        rem as i64
    }
}

/// Retention is monotone: as the clock advances, `days_remaining` never
/// grows for a fixed trashed-at time and retention window.
pub proof fn lemma_days_remaining_monotone(now1: int, now2: int, trashed: int, retention: int)
    requires
        now1 <= now2,
    ensures
        spec_days_remaining(now2, trashed, retention) <= spec_days_remaining(
            now1,
            trashed,
            retention,
        ),
{
    let d1 = now1 - trashed;
    let d2 = now2 - trashed;
    if d1 >= 0 {
        lemma_div_is_ordered(d1, d2, 86400);
    } else if d2 < 0 {
        lemma_div_is_ordered(-d2, -d1, 86400);
    } else {
        lemma_div_is_ordered(0, d2, 86400);
        lemma_div_is_ordered(0, -d1, 86400);
    }
}

/// What the caller must do to move `file_path` into the retention area.
pub struct TrashPlan {
    /// The retention directory to ensure exists.
    pub trash_dir: String,
    /// The generated entry name (also the entry's identifier).
    pub trash_file: String,
    /// Where the file is to be moved.
    pub trash_path: String,
    /// Where the sidecar record is to be written, after the move.
    pub meta_path: String,
    /// The sidecar record's contents.
    pub meta_text: String,
    /// The entry to report back.
    pub item: TrashItem,
}

/// Whether a path has a usable file name: nonempty, and not the parent
/// reference, which names no file of its own.
pub open spec fn valid_base_name(p: Seq<char>) -> bool {
    spec_base_name(p).len() > 0 && spec_base_name(p) != ".."@
}

/// The name a trash entry receives: the caller's move counter, the compact
/// stamp of the move's instant, and the original file name. The leading
/// counter makes the name injective in the counter (see
/// `lemma_trash_id_distinct`), so a caller that numbers its moves never
/// overwrites one trash entry with another, whatever the second or the file
/// name.
pub open spec fn spec_trash_id(seq: u64, now: i64, base: Seq<char>) -> Seq<char> {
    dec_of(seq as int) + "_"@ + compact_stamp_of(now) + "_"@ + base
}

/// Trash-entry names are collision-resistant within a root: two moves with
/// different counters receive different names, whatever their instants and
/// file names.
pub proof fn lemma_trash_id_distinct(
    seq1: u64,
    now1: i64,
    b1: Seq<char>,
    seq2: u64,
    now2: i64,
    b2: Seq<char>,
)
    requires
        seq1 != seq2,
    ensures
        spec_trash_id(seq1, now1, b1) != spec_trash_id(seq2, now2, b2),
{
    let id1 = spec_trash_id(seq1, now1, b1);
    let id2 = spec_trash_id(seq2, now2, b2);
    lemma_dec_round_trip(seq1 as int);
    lemma_dec_round_trip(seq2 as int);
    reveal_strlit("_");
    if id1 == id2 {
        assert(!is_digit('_'));
        assert(id1.subrange(0, dec_of(seq1 as int).len() as int) =~= dec_of(seq1 as int));
        assert(id1[dec_of(seq1 as int).len() as int] == '_');
        lemma_digit_run_of_dec(id1, 0, seq1 as int);
        assert(id2.subrange(0, dec_of(seq2 as int).len() as int) =~= dec_of(seq2 as int));
        assert(id2[dec_of(seq2 as int).len() as int] == '_');
        lemma_digit_run_of_dec(id2, 0, seq2 as int);
        assert(digit_run_end(id1, 0) == digit_run_end(id2, 0));
        assert(seq1 as int == seq2 as int);
    }
}

/// Decide a move into the trash. Fails exactly when the source does not
/// exist, or when the path has no usable file name; nothing is to be created
/// in either case. Otherwise every path, the sidecar text and the reported
/// entry are pinned: the entry name is `spec_trash_id(seq, now, file name)`,
/// which distinct move counters never share.
pub fn plan_move_to_trash(
    file_path: &str,
    base_folder: &str,
    source_exists: bool,
    size_bytes: u64,
    now: i64,
    seq: u64,
) -> (r: Result<TrashPlan, String>)
    requires
        0 <= now <= MAX_TS_SECS,
    ensures
        !source_exists ==> (r matches Err(e) && e@ == "Source file does not exist"@),
        source_exists && !valid_base_name(file_path@) ==> (r matches Err(e) && e@
            == "Invalid file name"@),
        source_exists && valid_base_name(file_path@) ==> (r matches Ok(p) && {
            let name = spec_trash_id(seq, now, spec_base_name(file_path@));
            &&& p.trash_dir@ == spec_trash_dir(base_folder@)
            &&& p.trash_file@ == name
            &&& p.trash_path@ == spec_trash_dir(base_folder@) + "/"@ + name
            &&& p.meta_path@ == p.trash_path@ + ".meta"@
            &&& p.meta_text@ == spec_encode_meta(file_path@, rfc3339_of(now), size_bytes as int)
            &&& p.item.id@ == name
            &&& p.item.original_path@ == file_path@
            &&& p.item.trash_path@ == p.trash_path@
            &&& p.item.trashed_at@ == rfc3339_of(now)
            &&& p.item.size_bytes == size_bytes
            &&& p.item.days_remaining == 30
        }),
{
    if !source_exists {
        return Err("Source file does not exist".to_owned());
    }
    let name = base_name(file_path);
    if name.as_str().is_empty() || str_eq(name.as_str(), "..") {
        return Err("Invalid file name".to_owned());
    }
    let trash_dir = get_trash_path(base_folder);
    let stamp = compact_stamp(now);
    let counter = u64_to_dec(seq);
    let head = concat3(counter.as_str(), "_", stamp.as_str());
    let trash_file = concat3(head.as_str(), "_", name.as_str());
    proof {
        assert(trash_file@ =~= spec_trash_id(seq, now, name@));
    }
    let trash_path = concat3(trash_dir.as_str(), "/", trash_file.as_str());
    let meta_path = concat2(trash_path.as_str(), ".meta");
    let trashed_at = rfc3339_utc(now);
    let meta = TrashMeta {
        original_path: file_path.to_owned(),
        trashed_at: trashed_at.clone(),
        size_bytes,
    };
    let meta_text = encode_meta(&meta);
    let item = TrashItem {
        id: trash_file.clone(),
        original_path: file_path.to_owned(),
        trash_path: trash_path.clone(),
        trashed_at,
        size_bytes,
        days_remaining: 30,
    };
    Ok(TrashPlan { trash_dir, trash_file, trash_path, meta_path, meta_text, item })
}

/// One directory entry of the retention area, as the caller found it: the
/// plain file name, its full path, and the sidecar's text where readable.
pub struct TrashEntry {
    pub file_name: String,
    pub trash_path: String,
    pub meta_text: Option<String>,
}

/// An entry yields a listing item exactly when its sidecar was readable and
/// parses as a sidecar record.
pub open spec fn entry_yields(e: TrashEntry) -> bool {
    e.meta_text matches Some(mt) && spec_parse_meta(mt@) is Some
}

/// How a yielded listing item relates to its directory entry.
pub open spec fn spec_item_of(e: TrashEntry, now: int, retention: int, it: TrashItem) -> bool {
    e.meta_text matches Some(mt) && spec_parse_meta(mt@) matches Some(f) && {
        &&& it.id@ == e.file_name@
        &&& it.original_path@ == f.original_path
        &&& it.trash_path@ == e.trash_path@
        &&& it.trashed_at@ == f.trashed_at
        &&& it.size_bytes as int == f.size_bytes
        &&& it.days_remaining as int == match rfc3339_parse_of(f.trashed_at) {
            Some(ts) => spec_days_remaining(now, ts as int, retention),
            None => retention,
        }
        &&& it.days_remaining >= 0
    }
}

/// The indices of the entries that yield a listing item, in order.
pub open spec fn yield_indices(entries: Seq<TrashEntry>) -> Seq<int>
    decreases entries.len(),
{
    if entries.len() == 0 {
        Seq::empty()
    } else {
        let rest = yield_indices(entries.drop_last());
        if entry_yields(entries.last()) {
            rest.push(entries.len() - 1)
        } else {
            rest
        }
    }
}

/// Build the listing item for one directory entry, or nothing when the
/// sidecar is missing or unreadable. A sidecar whose timestamp does not
/// parse yields the full retention window, as a fresh entry would.
pub fn build_trash_item(e: &TrashEntry, now: i64, retention_days: u32) -> (r: Option<TrashItem>)
    ensures
        match r {
            Some(it) => entry_yields(*e) && spec_item_of(*e, now as int, retention_days as int, it),
            None => !entry_yields(*e),
        },
{
    let mt = match &e.meta_text {
        Some(mt) => mt,
        None => {
            return None;
        },
    };
    let m = match parse_meta(mt.as_str()) {
        Some(m) => m,
        None => {
            return None;
        },
    };
    let days: i64 = match parse_rfc3339(m.trashed_at.as_str()) {
        Some(ts) => days_remaining(now, ts, retention_days),
        None => retention_days as i64,
    };
    Some(
        TrashItem {
            id: e.file_name.clone(),
            original_path: m.original_path,
            trash_path: e.trash_path.clone(),
            trashed_at: m.trashed_at,
            size_bytes: m.size_bytes,
            days_remaining: days,
        },
    )
}

/// List the retention area: one item per entry whose sidecar reads back,
/// in directory order; unreadable entries are omitted, never an error.
pub fn list_trash(entries: &Vec<TrashEntry>, now: i64, retention_days: u32) -> (r: Vec<TrashItem>)
    ensures
        r@.len() == yield_indices(entries@).len(),
        forall|k: int|
            0 <= k < r@.len() ==> spec_item_of(
                entries@[yield_indices(entries@)[k]],
                now as int,
                retention_days as int,
                #[trigger] r@[k],
            ),
{
    let n = entries.len();
    let mut out: Vec<TrashItem> = Vec::new();
    let mut i: usize = 0;
    proof {
        assert(yield_indices(entries@.take(0)) =~= Seq::<int>::empty());
    }
    while i < n
        invariant
            i <= n,
            n == entries@.len(),
            out@.len() == yield_indices(entries@.take(i as int)).len(),
            forall|k: int|
                0 <= k < out@.len() ==> 0 <= #[trigger] yield_indices(entries@.take(i as int))[k]
                    < i,
            forall|k: int|
                0 <= k < out@.len() ==> spec_item_of(
                    entries@[yield_indices(entries@.take(i as int))[k]],
                    now as int,
                    retention_days as int,
                    #[trigger] out@[k],
                ),
        decreases n - i,
    {
        proof {
            let t = entries@.take(i as int);
            let t2 = entries@.take(i + 1);
            assert(t2.drop_last() =~= t);
            assert(t2.last() == entries@[i as int]);
        }
        match build_trash_item(&entries[i], now, retention_days) {
            Some(it) => {
                out.push(it);
            },
            None => {},
        }
        i = i + 1;
    }
    proof {
        assert(entries@.take(n as int) =~= entries@);
    }
    out
}

/// The identifiers of the listed items whose retention has run out, in
/// order: exactly those with no days remaining, and no others.
pub open spec fn spec_expired_ids(items: Seq<TrashItem>) -> Seq<Seq<char>>
    decreases items.len(),
{
    if items.len() == 0 {
        Seq::empty()
    } else {
        let rest = spec_expired_ids(items.drop_last());
        if items.last().days_remaining <= 0 {
            rest.push(items.last().id@)
        } else {
            rest
        }
    }
}

/// Select the entries the sweep must purge: exactly those whose
/// `days_remaining` has reached zero. The caller purges each and reports
/// the count, which is this vector's length.
pub fn select_expired(items: &Vec<TrashItem>) -> (r: Vec<String>)
    ensures
        r@.map_values(|s: String| s@) == spec_expired_ids(items@),
{
    let n = items.len();
    let mut out: Vec<String> = Vec::new();
    let mut i: usize = 0;
    proof {
        assert(out@.map_values(|s: String| s@) =~= spec_expired_ids(items@.take(0)));
    }
    while i < n
        invariant
            i <= n,
            n == items@.len(),
            out@.map_values(|s: String| s@) == spec_expired_ids(items@.take(i as int)),
        decreases n - i,
    {
        proof {
            let t = items@.take(i as int);
            let t2 = items@.take(i + 1);
            assert(t2.drop_last() =~= t);
            assert(t2.last() == items@[i as int]);
        }
        if items[i].days_remaining <= 0 {
            let ghost before = out@;
            out.push(items[i].id.clone());
            proof {
                assert(out@.map_values(|s: String| s@) =~= before.map_values(|s: String| s@).push(
                    items@[i as int].id@,
                ));
            }
        }
        i = i + 1;
    }
    proof {
        assert(items@.take(n as int) =~= items@);
    }
    out
}

/// An item with no retention left is selected by the sweep.
pub proof fn lemma_expired_member(items: Seq<TrashItem>, i: int)
    requires
        0 <= i < items.len(),
        items[i].days_remaining <= 0,
    ensures
        spec_expired_ids(items).contains(items[i].id@),
    decreases items.len(),
{
    if i == items.len() - 1 {
        let s = spec_expired_ids(items);
        assert(s.last() == items[i].id@);
    } else {
        lemma_expired_member(items.drop_last(), i);
        assert(items.drop_last()[i] == items[i]);
        let rest = spec_expired_ids(items.drop_last());
        let j = choose|j: int| 0 <= j < rest.len() && rest[j] == items[i].id@;
        if items.last().days_remaining <= 0 {
            assert(spec_expired_ids(items)[j] == items[i].id@);
        }
    }
}

/// The full path of a trash entry and of its sidecar, for a given base
/// folder and entry identifier.
pub fn trash_entry_paths(base_folder: &str, id: &str) -> (r: (String, String))
    ensures
        r.0@ == spec_trash_dir(base_folder@) + "/"@ + id@,
        r.1@ == spec_trash_dir(base_folder@) + "/"@ + id@ + ".meta"@,
{
    let dir = get_trash_path(base_folder);
    let p = concat3(dir.as_str(), "/", id);
    let m = concat2(p.as_str(), ".meta");
    (p, m)
}

/// What the caller must do to restore a trash entry.
pub struct RestorePlan {
    /// Where the file goes back to.
    pub original_path: String,
    /// The directory to recreate first; empty when there is none to make.
    pub parent_dir: String,
}

/// Decide a restore. Fails exactly when the trash entry is gone, when its
/// sidecar was unreadable, or when the sidecar does not parse; otherwise
/// the recorded original path and its parent directory are returned.
pub fn plan_restore(trash_exists: bool, meta_text: Option<&String>) -> (r: Result<
    RestorePlan,
    String,
>)
    ensures
        !trash_exists ==> (r matches Err(e) && e@ == "Trash item not found"@),
        trash_exists && meta_text is None ==> (r matches Err(e) && e@
            == "Failed to read metadata"@),
        trash_exists && (meta_text matches Some(mt) && spec_parse_meta(mt@) is None) ==> (
        r matches Err(e) && e@ == "Invalid metadata"@),
        trash_exists && (meta_text matches Some(mt) && spec_parse_meta(mt@) matches Some(f)) ==> (
        r matches Ok(p) && {
            let f = spec_parse_meta(meta_text->Some_0@).unwrap();
            &&& p.original_path@ == f.original_path
            &&& p.parent_dir@ == spec_parent_dir(f.original_path)
        }),
{
    if !trash_exists {
        return Err("Trash item not found".to_owned());
    }
    let mt = match meta_text {
        Some(mt) => mt,
        None => {
            return Err("Failed to read metadata".to_owned());
        },
    };
    let m = match parse_meta(mt.as_str()) {
        Some(m) => m,
        None => {
            return Err("Invalid metadata".to_owned());
        },
    };
    let parent = parent_dir(m.original_path.as_str());
    Ok(RestorePlan { original_path: m.original_path, parent_dir: parent })
}

} // verus!
