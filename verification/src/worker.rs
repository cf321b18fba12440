//! The drain worker's per-item state machine: claim, probe, delta check,
//! transfer hand-off, and the final status write-back.

use vstd::prelude::*;
use crate::hash::{calculate_file_hash, spec_file_digest};
use crate::queue::SyncQueue;
use crate::text::concat2;

verus! {

/// What the caller found when probing the item's source file.
pub enum FileProbe {
    /// The path no longer exists.
    Missing,
    /// The path exists but its bytes could not be read; the error text.
    Unreadable(String),
    /// The file's current bytes.
    Content(Vec<u8>),
}

/// The outcome of one claim-and-check step for a drained item.
pub enum ItemStep {
    /// Terminal for this attempt: the item is now failed, with this error.
    Failed(String),
    /// The delta index already holds the current digest: completed, and no
    /// transfer is to be performed.
    SkippedUnchanged,
    /// A transfer is required; the item is left claimed (uploading) and this
    /// is the digest of the content to transfer.
    NeedsTransfer(String),
}

/// The outcome of the transfer the caller performed.
pub enum TransferOutcome {
    Success,
    /// The human-readable cause: a non-2xx response or a transport failure.
    Failure(String),
}

/// A transfer is needed unless the delta index holds exactly the digest of
/// the current content for this path. Exact digest match only: nothing else
/// suppresses a transfer.
pub open spec fn transfer_needed(
    index: Map<Seq<char>, Seq<char>>,
    path: Seq<char>,
    content: Seq<u8>,
) -> bool {
    !(index.contains_key(path) && index[path] == spec_file_digest(content))
}

/// Claim one drained item and decide its fate. The item is first claimed
/// (status uploading) unless its source is already gone; an unreadable source
/// fails the attempt; content whose digest equals the last-synced digest for
/// `path` completes immediately with no transfer; otherwise the item stays
/// claimed and the caller must transfer and then call `finish_transfer`.
pub fn begin_item(q: &mut SyncQueue, item_id: i64, path: &str, probe: &FileProbe) -> (r: ItemStep)
    requires
        old(q).wf(),
    ensures
        final(q).wf(),
        final(q).index_map() == old(q).index_map(),
        final(q).next_id_spec() == old(q).next_id_spec(),
        final(q).items_seq().len() == old(q).items_seq().len(),
        forall|j: int|
            0 <= j < old(q).items_seq().len() && old(q).items_seq()[j].id != item_id
                ==> final(q).items_seq()[j] == old(q).items_seq()[j],
        forall|j: int|
            0 <= j < old(q).items_seq().len() && old(q).items_seq()[j].id == item_id ==> {
                let it = final(q).items_seq()[j];
                let was = old(q).items_seq()[j];
                &&& it.id == was.id
                &&& it.file_path == was.file_path
                &&& it.retries == was.retries
                &&& it.created_at == was.created_at
                &&& match probe {
                    FileProbe::Missing => it.status@ == "failed"@ && (it.last_error matches Some(m)
                        && m@ == "File not found"@),
                    FileProbe::Unreadable(e) => it.status@ == "failed"@ && (it.last_error
                        matches Some(m) && m@ == "Hash error: "@ + e@),
                    FileProbe::Content(c) => if transfer_needed(old(q).index_map(), path@, c@) {
                        it.status@ == "uploading"@ && it.last_error is None
                    } else {
                        it.status@ == "completed"@ && it.last_error is None
                    },
                }
            },
        match probe {
            FileProbe::Missing => r matches ItemStep::Failed(m) && m@ == "File not found"@,
            FileProbe::Unreadable(e) => r matches ItemStep::Failed(m) && m@ == "Hash error: "@
                + e@,
            FileProbe::Content(c) => if transfer_needed(old(q).index_map(), path@, c@) {
                r matches ItemStep::NeedsTransfer(d) && d@ == spec_file_digest(c@)
            } else {
                r is SkippedUnchanged
            },
        },
{
    match probe {
        FileProbe::Missing => {
            let msg = "File not found".to_owned();
            q.update_status(item_id, "failed", Some(msg.clone()));
            ItemStep::Failed(msg)
        },
        FileProbe::Unreadable(e) => {
            q.update_status(item_id, "uploading", None);
            let msg = concat2("Hash error: ", e.as_str());
            q.update_status(item_id, "failed", Some(msg.clone()));
            ItemStep::Failed(msg)
        },
        FileProbe::Content(c) => {
            q.update_status(item_id, "uploading", None);
            let digest = calculate_file_hash(c.as_slice());
            let last = q.get_synced_hash(path);
            match last {
                Some(h) => {
                    if h == digest {
                        q.update_status(item_id, "completed", None);
                        return ItemStep::SkippedUnchanged;
                    }
                },
                None => {},
            }
            ItemStep::NeedsTransfer(digest)
        },
    }
}

/// Write back the outcome of the transfer the caller performed for a claimed
/// item. Success upserts the delta index with the transferred digest and
/// completes the item; failure records the cause and fails the item, which is
/// not re-enqueued here.
pub fn finish_transfer(
    q: &mut SyncQueue,
    item_id: i64,
    path: &str,
    digest: &str,
    outcome: &TransferOutcome,
    now: i64,
)
    requires
        old(q).wf(),
    ensures
        final(q).wf(),
        final(q).next_id_spec() == old(q).next_id_spec(),
        final(q).items_seq().len() == old(q).items_seq().len(),
        match outcome {
            TransferOutcome::Success => final(q).index_map() == old(q).index_map().insert(
                path@,
                digest@,
            ),
            TransferOutcome::Failure(_) => final(q).index_map() == old(q).index_map(),
        },
        forall|j: int|
            0 <= j < old(q).items_seq().len() && old(q).items_seq()[j].id != item_id
                ==> final(q).items_seq()[j] == old(q).items_seq()[j],
        forall|j: int|
            0 <= j < old(q).items_seq().len() && old(q).items_seq()[j].id == item_id ==> {
                let it = final(q).items_seq()[j];
                let was = old(q).items_seq()[j];
                &&& it.id == was.id
                &&& it.file_path == was.file_path
                &&& it.retries == was.retries
                &&& it.created_at == was.created_at
                &&& match outcome {
                    TransferOutcome::Success => it.status@ == "completed"@ && it.last_error
                        is None,
                    TransferOutcome::Failure(e) => it.status@ == "failed"@ && (it.last_error
                        matches Some(m) && m@ == e@),
                }
            },
{
    match outcome {
        TransferOutcome::Success => {
            q.update_synced_hash(path, digest, now);
            q.update_status(item_id, "completed", None);
        },
        TransferOutcome::Failure(e) => {
            q.update_status(item_id, "failed", Some(e.clone()));
        },
    }
}

/// Delta-sync idempotence: once a successful transfer records the digest of
/// `content` for `path`, draining the same unchanged content again needs no
/// transfer — the second attempt completes with zero transfer calls.
pub proof fn lemma_delta_sync_idempotent(
    index: Map<Seq<char>, Seq<char>>,
    path: Seq<char>,
    content: Seq<u8>,
)
    ensures
        !transfer_needed(index.insert(path, spec_file_digest(content)), path, content),
{
}

} // verus!
