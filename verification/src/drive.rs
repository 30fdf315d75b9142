//! The decisions of the Google Drive client: the queries and addresses it sends, the
//! headers of a resumable upload, what a response to an uploaded chunk means, and
//! which folder of a listing is the one asked for. The requests themselves are the
//! caller's.

use vstd::prelude::*;

use crate::util::text::{decimal, decimal_text};

verus! {

/// The name of the crypt folder in the cloud.
pub const GOOGLE_FOLDER: &'static str = "Crypt";

/// The size of an uploaded chunk, in bytes (5 MiB).
pub const CHUNK_SIZE: usize = 5_242_880;

/// The MIME type of a Google Drive folder.
pub open spec fn folder_mime() -> Seq<char> {
    "application/vnd.google-apps.folder"@
}

/// The query for a folder of the given name that is not in the trash, within
/// `parent` where it is not empty.
pub open spec fn folder_query_text(name: Seq<char>, parent: Seq<char>) -> Seq<char> {
    let base = "name = '"@ + name + "' and mimeType = 'application/vnd.google-apps.folder' and trashed = false"@;
    if parent.len() == 0 {
        base
    } else {
        base + " and '"@ + parent + "' in parents"@
    }
}

/// The query for the folder that `g_create_folder`, `g_view` and `g_walk` look for.
pub fn folder_query(name: &str, parent: &str) -> (query: String)
    ensures
        query@ == folder_query_text(name@, parent@),
{
    let mut query = String::from_str("name = '");
    query.append(name);
    query.append("' and mimeType = 'application/vnd.google-apps.folder' and trashed = false");
    if parent.unicode_len() > 0 {
        query.append(" and '");
        query.append(parent);
        query.append("' in parents");
    }
    query
}

/// The query for the entries of a folder that are not in the trash.
pub open spec fn children_query_text(folder_id: Seq<char>) -> Seq<char> {
    "'"@ + folder_id + "' in parents and trashed = false"@
}

/// The query for the entries of a folder that are not in the trash.
pub fn children_query(folder_id: &str) -> (query: String)
    ensures
        query@ == children_query_text(folder_id@),
{
    let mut query = String::from_str("'");
    query.append(folder_id);
    query.append("' in parents and trashed = false");
    query
}

/// The address that lists the files that a query selects.
pub open spec fn files_url_text(query: Seq<char>) -> Seq<char> {
    "https://www.googleapis.com/drive/v3/files?q="@ + query
}

/// The address that lists the files that a query selects.
pub fn files_url(query: &str) -> (url: String)
    ensures
        url@ == files_url_text(query@),
{
    let mut url = String::from_str("https://www.googleapis.com/drive/v3/files?q=");
    url.append(query);
    url
}

/// The address that tells whether a file is in the trash.
pub open spec fn trashed_url_text(id: Seq<char>) -> Seq<char> {
    "https://www.googleapis.com/drive/v3/files/"@ + id + "?fields=trashed"@
}

/// The address that tells whether a file is in the trash.
pub fn trashed_url(id: &str) -> (url: String)
    ensures
        url@ == trashed_url_text(id@),
{
    let mut url = String::from_str("https://www.googleapis.com/drive/v3/files/");
    url.append(id);
    url.append("?fields=trashed");
    url
}

/// The address that starts the resumable update of a file.
pub open spec fn update_url_text(id: Seq<char>) -> Seq<char> {
    "https://www.googleapis.com/upload/drive/v3/files/"@ + id + "?uploadType=resumable"@
}

/// The address that starts the resumable update of a file.
pub fn update_url(id: &str) -> (url: String)
    ensures
        url@ == update_url_text(id@),
{
    let mut url = String::from_str("https://www.googleapis.com/upload/drive/v3/files/");
    url.append(id);
    url.append("?uploadType=resumable");
    url
}

/// The address that downloads the contents of a file.
pub open spec fn download_url_text(id: Seq<char>) -> Seq<char> {
    "https://www.googleapis.com/drive/v3/files/"@ + id + "?alt=media&source=downloadUrl"@
}

/// The address that downloads the contents of a file.
pub fn download_url(id: &str) -> (url: String)
    ensures
        url@ == download_url_text(id@),
{
    let mut url = String::from_str("https://www.googleapis.com/drive/v3/files/");
    url.append(id);
    url.append("?alt=media&source=downloadUrl");
    url
}

/// The address of a file's metadata.
pub open spec fn file_url_text(id: Seq<char>) -> Seq<char> {
    "https://www.googleapis.com/drive/v3/files/"@ + id
}

/// The address of a file's metadata.
pub fn file_url(id: &str) -> (url: String)
    ensures
        url@ == file_url_text(id@),
{
    let mut url = String::from_str("https://www.googleapis.com/drive/v3/files/");
    url.append(id);
    url
}

/// Whether a MIME type is that of a folder.
pub fn is_folder(mime_type: &str) -> (folder: bool)
    ensures
        folder == (mime_type@ == folder_mime()),
{
    let folder = String::from_str("application/vnd.google-apps.folder");
    let mime = String::from_str(mime_type);
    mime == folder
}

// ------------------------------------------------------------------------------------------------
// Resumable uploads.

/// The `Content-Range` of the chunk from byte `start` to byte `end` (inclusive) of
/// `total_size` bytes.
pub open spec fn content_range_text(start: u64, end: u64, total_size: u64) -> Seq<char> {
    "bytes "@ + decimal(start as nat) + "-"@ + decimal(end as nat) + "/"@ + decimal(total_size as nat)
}

/// The headers of an uploaded chunk: its `Content-Range`, and its `Content-Length`,
/// `end + 1 - start`; `None` where that length does not fit in 64 bits or is
/// negative.
pub fn build_headers(start: u64, end: u64, total_size: u64) -> (headers: Option<(String, u64)>)
    ensures
        headers is Some <==> (end + 1 <= u64::MAX && start <= end + 1),
        headers matches Some((range, length)) ==> range@ == content_range_text(start, end, total_size)
            && length == end + 1 - start,
{
    let mut range = String::from_str("bytes ");
    let first = decimal_text(start);
    range.append(first.as_str());
    range.append("-");
    let last = decimal_text(end);
    range.append(last.as_str());
    range.append("/");
    let total = decimal_text(total_size);
    range.append(total.as_str());
    match end.checked_add(1) {
        Some(e) => match e.checked_sub(start) {
            Some(length) => Some((range, length)),
            None => None,
        },
        None => None,
    }
}

/// What the response to an uploaded chunk means.
pub enum ChunkStep {
    /// 308: the upload goes on with the next chunk.
    Continue,
    /// 200 or 201: the upload is done; the file has this ID.
    Uploaded(String),
    /// 200 or 201 without an ID in the body.
    MissingId,
    /// Any other status: the upload failed with it.
    Failed(u16),
}

/// Decides what the response to an uploaded chunk means, from its status and the
/// `id` of its body, where it has one.
pub fn chunk_step(status: u16, id: Option<String>) -> (step: ChunkStep)
    ensures
        status == 308 ==> step is Continue,
        (status == 200 || status == 201) ==> (match id {
            Some(i) => step == ChunkStep::Uploaded(i),
            None => step is MissingId,
        }),
        (status != 308 && status != 200 && status != 201) ==> step == ChunkStep::Failed(status),
{
    if status == 308 {
        ChunkStep::Continue
    } else if status == 200 || status == 201 {
        match id {
            Some(i) => ChunkStep::Uploaded(i),
            None => ChunkStep::MissingId,
        }
    } else {
        ChunkStep::Failed(status)
    }
}

// ------------------------------------------------------------------------------------------------
// Listings.

/// An entry of a listing: its name and its ID, where the response has them.
pub struct Listed {
    pub name: Option<String>,
    pub id: Option<String>,
}

/// Whether entry `k` of `items` is a match: it has the name `name` and an ID.
pub open spec fn is_match(items: Seq<Listed>, k: int, name: Seq<char>) -> bool {
    &&& items[k].name matches Some(n) && n@ == name
    &&& items[k].id is Some
}

/// The ID of the first entry of a listing that has the name `name` and an ID.
pub fn first_matching_id(items: &Vec<Listed>, name: &str) -> (id: Option<String>)
    ensures
        id is None <==> forall|k: int| 0 <= k < items@.len() ==> !is_match(items@, k, name@),
        id matches Some(i) ==> exists|k: int| {
            &&& 0 <= k < items@.len()
            &&& is_match(items@, k, name@)
            &&& items@[k].id == Some(i)
            &&& forall|j: int| 0 <= j < k ==> !is_match(items@, j, name@)
        },
{
    let target = String::from_str(name);
    let mut k: usize = 0;
    while k < items.len()
        invariant
            0 <= k <= items@.len(),
            target@ == name@,
            forall|j: int| 0 <= j < k ==> !is_match(items@, j, name@),
        decreases items@.len() - k,
    {
        let item = &items[k];
        match (&item.name, &item.id) {
            (Some(n), Some(i)) => {
                if *n == target {
                    assert(is_match(items@, k as int, name@));
                    return Some(i.clone());
                }
            },
            _ => {},
        }
        k += 1;
    }
    None
}

/// The ID of the last entry of a listing that has the name `name` and an ID, or
/// empty where there is none.
pub fn last_matching_id(items: &Vec<Listed>, name: &str) -> (id: String)
    ensures
        (forall|k: int| 0 <= k < items@.len() ==> !is_match(items@, k, name@)) ==> id@ == Seq::<char>::empty(),
        (exists|k: int| 0 <= k < items@.len() && is_match(items@, k, name@)) ==> exists|k: int| {
            &&& 0 <= k < items@.len()
            &&& is_match(items@, k, name@)
            &&& items@[k].id matches Some(i) && i == id
            &&& forall|j: int| k < j < items@.len() ==> !is_match(items@, j, name@)
        },
{
    let target = String::from_str(name);
    let mut id = String::new();
    let mut found: Ghost<Option<int>> = Ghost(None);
    let mut k: usize = 0;
    while k < items.len()
        invariant
            0 <= k <= items@.len(),
            target@ == name@,
            found@ is None ==> forall|j: int| 0 <= j < k ==> !is_match(items@, j, name@),
            found@ is None ==> id@ == Seq::<char>::empty(),
            found@ matches Some(f) ==> {
                &&& 0 <= f < k
                &&& is_match(items@, f, name@)
                &&& items@[f].id matches Some(i) && i == id
                &&& forall|j: int| f < j < k ==> !is_match(items@, j, name@)
            },
        decreases items@.len() - k,
    {
        let item = &items[k];
        match (&item.name, &item.id) {
            (Some(n), Some(i)) => {
                if *n == target {
                    id = i.clone();
                    proof {
                        found@ = Some(k as int);
                    }
                }
            },
            _ => {},
        }
        k += 1;
    }
    id
}

} // verus!
