//! The transfer contract's computable side: the remote object key, the
//! upload URL, the content type, and the outcome a response maps to. The
//! network call itself is the caller's; every byte around it is pinned here.

use vstd::prelude::*;
use crate::text::{concat2, concat3, spec_base_name, base_name};
use crate::scanner::spec_extension;

verus! {

/// Where and as whom uploads go.
#[derive(Debug)]
pub struct SyncConfig {
    pub supabase_url: String,
    pub supabase_key: String,
    pub org_id: String,
    pub bucket: String,
}

impl Clone for SyncConfig {
    fn clone(&self) -> (res: Self)
        ensures
            res == *self,
    {
        SyncConfig {
            supabase_url: self.supabase_url.clone(),
            supabase_key: self.supabase_key.clone(),
            org_id: self.org_id.clone(),
            bucket: self.bucket.clone(),
        }
    }
}

/// One sync-folder pairing: a local root, its remote prefix, the direction
/// ("upload-only", "download-only" or "bidirectional"), and when it last
/// completed a sync.
#[derive(Debug)]
pub struct SyncFolder {
    pub local_path: String,
    pub cloud_path: String,
    pub mode: String,
    pub enabled: bool,
    pub last_sync: Option<String>,
}

impl Clone for SyncFolder {
    fn clone(&self) -> (res: Self)
        ensures
            res == *self,
    {
        SyncFolder {
            local_path: self.local_path.clone(),
            cloud_path: self.cloud_path.clone(),
            mode: self.mode.clone(),
            enabled: self.enabled,
            last_sync: match &self.last_sync {
                Some(s) => Some(s.clone()),
                None => None,
            },
        }
    }
}

/// The reported outcome of one upload attempt.
#[derive(Debug)]
pub struct UploadResult {
    pub success: bool,
    pub path: Option<String>,
    pub error: Option<String>,
}

/// The content type sent for a path, by its exact extension; anything
/// unrecognized is sent as a generic binary.
pub open spec fn spec_content_type(p: Seq<char>) -> Seq<char> {
    match spec_extension(p) {
        Some(e) => if e == "jpg"@ || e == "jpeg"@ {
            "image/jpeg"@
        } else if e == "png"@ {
            "image/png"@
        } else if e == "webp"@ {
            "image/webp"@
        } else if e == "heic"@ || e == "heif"@ {
            "image/heic"@
        } else {
            "application/octet-stream"@
        },
        None => "application/octet-stream"@,
    }
}

/// The content type to send for a local path.
pub fn content_type_for(path: &str) -> (r: String)
    ensures
        r@ == spec_content_type(path@),
{
    match crate::scanner::extension_of(path) {
        Some(e) => {
            if crate::text::str_eq(e.as_str(), "jpg") || crate::text::str_eq(e.as_str(), "jpeg") {
                "image/jpeg".to_owned()
            } else if crate::text::str_eq(e.as_str(), "png") {
                "image/png".to_owned()
            } else if crate::text::str_eq(e.as_str(), "webp") {
                "image/webp".to_owned()
            } else if crate::text::str_eq(e.as_str(), "heic") || crate::text::str_eq(
                e.as_str(),
                "heif",
            ) {
                "image/heic".to_owned()
            } else {
                "application/octet-stream".to_owned()
            }
        },
        None => "application/octet-stream".to_owned(),
    }
}

/// The deterministic remote object key for a file: its content digest,
/// then its file name. Identical content under the same name always maps
/// to the same key, which makes retried uploads idempotent remotely.
pub fn remote_name_for(hash: &str, path: &str) -> (r: String)
    ensures
        r@ == hash@ + "/"@ + spec_base_name(path@),
{
    let name = base_name(path);
    concat3(hash, "/", name.as_str())
}

/// The object-store URL an upload posts to.
pub fn build_upload_url(config: &SyncConfig, remote_path: &str) -> (r: String)
    ensures
        r@ == config.supabase_url@ + "/storage/v1/object/"@ + config.bucket@ + "/"@
            + remote_path@,
{
    let a = concat3(config.supabase_url.as_str(), "/storage/v1/object/", config.bucket.as_str());
    concat3(a.as_str(), "/", remote_path)
}

/// The endpoint a connectivity probe asks.
pub fn build_health_url(config: &SyncConfig) -> (r: String)
    ensures
        r@ == config.supabase_url@ + "/rest/v1/"@,
{
    concat2(config.supabase_url.as_str(), "/rest/v1/")
}

/// Whether a response status reports success: the 2xx range, nothing else.
pub fn is_success_status(status: u16) -> (r: bool)
    ensures
        r == (200 <= status < 300),
{
    200 <= status && status < 300
}

/// Map a response to the reported outcome: any status in the 2xx range is
/// success carrying the remote key; anything else fails with the status
/// text and the response body, verbatim.
pub fn classify_response(status: u16, status_text: &str, body: &str, remote_path: &str) -> (r:
    UploadResult)
    ensures
        r.success == (200 <= status < 300),
        200 <= status < 300 ==> (r.path matches Some(p) && p@ == remote_path@) && r.error is None,
        !(200 <= status < 300) ==> r.path is None && (r.error matches Some(e) && e@
            == "Upload failed: "@ + status_text@ + " - "@ + body@),
{
    if 200 <= status && status < 300 {
        UploadResult { success: true, path: Some(remote_path.to_owned()), error: None }
    } else {
        let a = concat3("Upload failed: ", status_text, " - ");
        let e = concat2(a.as_str(), body);
        UploadResult { success: false, path: None, error: Some(e) }
    }
}

/// The outcome reported when the local file cannot be read.
pub fn read_failure(cause: &str) -> (r: UploadResult)
    ensures
        !r.success,
        r.path is None,
        r.error matches Some(e) && e@ == "Failed to read file: "@ + cause@,
{
    UploadResult {
        success: false,
        path: None,
        error: Some(concat2("Failed to read file: ", cause)),
    }
}

/// The outcome reported when the request itself fails in transport.
pub fn transport_failure(cause: &str) -> (r: UploadResult)
    ensures
        !r.success,
        r.path is None,
        r.error matches Some(e) && e@ == "Request failed: "@ + cause@,
{
    UploadResult {
        success: false,
        path: None,
        error: Some(concat2("Request failed: ", cause)),
    }
}

} // verus!
