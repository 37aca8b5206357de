use vstd::prelude::*;
use crate::paths::{
    download_path, is_safe_key, parent_dir, parent_path, relative_key, relative_path, safe_key,
    staged_path,
};

verus! {

/// Why the transfer of one object failed. Each kind is reported apart.
#[derive(Clone, Copy, PartialEq, Eq, Structural, Debug)]
pub enum TransferError {
    /// The key would leave the staging directory, or names no file.
    UnsafeKey,
    /// Fetching the object's body failed.
    Fetch,
    /// Creating the object's local directory failed.
    CreateDir,
    /// Creating the local file failed.
    CreateFile,
    /// Writing the local file failed.
    Write,
    /// Reading the staged file failed.
    Read,
    /// Putting the object into the destination bucket failed.
    Put,
}

/// Where a downloaded object is written.
pub struct DownloadPlan {
    /// `root/bucket/key`.
    pub path: String,
    /// The directory to create before writing.
    pub parent: Option<String>,
}

/// Plans the local side of one download. A key that could reach outside the
/// staging directory is refused before any I/O.
pub fn plan_download(root: &str, bucket: &str, key: &str) -> (r: Result<DownloadPlan, TransferError>)
    ensures
        r is Err <==> !safe_key(key@),
        r is Err ==> r->Err_0 == TransferError::UnsafeKey,
        r is Ok ==> {
            &&& r->Ok_0.path@ == staged_path(root@, bucket@, key@)
            &&& (r->Ok_0.parent is Some <==> parent_path(r->Ok_0.path@) is Some)
            &&& r->Ok_0.parent is Some ==> r->Ok_0.parent->0@ == parent_path(r->Ok_0.path@)->0
        },
{
    if !is_safe_key(key) {
        return Err(TransferError::UnsafeKey);
    }
    let path = download_path(root, bucket, key);
    let parent = parent_dir(path.as_str());
    Ok(DownloadPlan { path, parent })
}

/// One staged file to upload, under the key it is uploaded as.
pub struct UploadItem {
    pub key: String,
    pub path: String,
}

/// A walked file that does not lie below the staging directory: the staging
/// layout is broken, which ends the run.
#[derive(Clone, Copy, PartialEq, Eq, Structural, Debug)]
pub struct OutsideStaging {
    /// The position of the first such file.
    pub index: usize,
}

/// Turns the files found below `dir` into upload items, each keyed by its path
/// relative to `dir`. Fails on the first file that is not below `dir`.
pub fn plan_uploads(dir: &str, files: &Vec<String>) -> (r: Result<Vec<UploadItem>, OutsideStaging>)
    ensures
        r is Ok <==> forall|i: int| 0 <= i < files@.len() ==> relative_path(dir@, (#[trigger] files@[i])@) is Some,
        r is Err ==> {
            &&& r->Err_0.index < files@.len()
            &&& relative_path(dir@, files@[r->Err_0.index as int]@) is None
            &&& forall|i: int| 0 <= i < r->Err_0.index ==> relative_path(dir@, (#[trigger] files@[i])@) is Some
        },
        r is Ok ==> {
            &&& r->Ok_0@.len() == files@.len()
            &&& forall|i: int| 0 <= i < files@.len() ==> {
                &&& (#[trigger] r->Ok_0@[i]).key@ == relative_path(dir@, files@[i]@)->0
                &&& r->Ok_0@[i].path@ == files@[i]@
            }
        },
{
    let mut items: Vec<UploadItem> = Vec::new();
    let mut i: usize = 0;
    while i < files.len()
        invariant
            i <= files@.len(),
            items@.len() == i,
            forall|j: int| 0 <= j < i ==> relative_path(dir@, (#[trigger] files@[j])@) is Some,
            forall|j: int| 0 <= j < i ==> {
                &&& (#[trigger] items@[j]).key@ == relative_path(dir@, files@[j]@)->0
                &&& items@[j].path@ == files@[j]@
            },
        decreases files@.len() - i,
    {
        match relative_key(dir, files[i].as_str()) {
            Some(key) => {
                let path = files[i].clone();
                items.push(UploadItem { key, path });
            },
            None => {
                return Err(OutsideStaging { index: i });
            },
        }
        i += 1;
    }
    Ok(items)
}

/// What a run does, from the settings it was given.
#[derive(Clone, Copy, PartialEq, Eq, Structural, Debug)]
pub enum RunMode {
    /// No destination bucket: download every listed object.
    DownloadAll,
    /// A destination bucket with its profile and region: copy what it lacks.
    Sync,
    /// A destination bucket without its profile or region: nothing is uploaded.
    SkipUpload,
}

pub fn choose_mode(has_upload_bucket: bool, has_upload_profile: bool, has_upload_region: bool) -> (r:
    RunMode)
    ensures
        !has_upload_bucket ==> r == RunMode::DownloadAll,
        has_upload_bucket && has_upload_profile && has_upload_region ==> r == RunMode::Sync,
        has_upload_bucket && !(has_upload_profile && has_upload_region) ==> r == RunMode::SkipUpload,
{
    if !has_upload_bucket {
        RunMode::DownloadAll
    } else if has_upload_profile && has_upload_region {
        RunMode::Sync
    } else {
        RunMode::SkipUpload
    }
}

} // verus!
