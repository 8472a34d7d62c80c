//! Uploading files under a prefix: where each file goes, and what is
//! reported for it.

use vstd::prelude::*;
use crate::config::LocalConfig;
use crate::oss::{object_url, object_url_text};
use crate::paths::{upload_path_outcome, validate_upload_path, UploadPathError};
use crate::text::{trim, trimmed};

verus! {

/// What is reported for one file.
pub struct UploadItem {
    pub name: String,
    pub key: String,
    pub prefix: String,
    pub url: Option<String>,
    pub size: u64,
    pub ok: bool,
    pub error: Option<String>,
}

/// The prefix to upload under: the given path, or the saved default prefix,
/// checked as an upload path.
pub fn upload_target_prefix(config: &LocalConfig, path: Option<String>) -> (r: Result<
    String,
    UploadPathError,
>)
    ensures
        ({
            let chosen = match path {
                Some(p) => p@,
                None => config@.prefix,
            };
            match r {
                Ok(t) => upload_path_outcome(chosen) == Ok::<Seq<char>, UploadPathError>(t@),
                Err(e) => upload_path_outcome(chosen) == Err::<Seq<char>, UploadPathError>(e),
            }
        }),
{
    match path {
        Some(p) => validate_upload_path(p.as_str()),
        None => validate_upload_path(config.prefix.as_str()),
    }
}

/// The object key of a file: the prefix followed by the file name.
pub fn upload_object_key(prefix: &str, name: &str) -> (r: String)
    ensures
        r@ == prefix@ + name@,
{
    let mut key = prefix.to_owned();
    key.append(name);
    key
}

/// The content type sent for a file: the one given, or
/// `application/octet-stream` when it is blank.
pub fn upload_content_type(mime_type: &str) -> (r: String)
    ensures
        trimmed(mime_type@).len() == 0 ==> r@ == "application/octet-stream"@,
        trimmed(mime_type@).len() > 0 ==> r@ == mime_type@,
{
    if trim(mime_type).as_str().is_empty() {
        "application/octet-stream".to_owned()
    } else {
        mime_type.to_owned()
    }
}

/// The report for a file once the upload finished: on success its address,
/// on failure the error.
pub fn upload_result_item(
    config: &LocalConfig,
    name: String,
    key: String,
    prefix: String,
    size: u64,
    outcome: Result<(), String>,
) -> (r: UploadItem)
    ensures
        r.name@ == name@,
        r.key@ == key@,
        r.prefix@ == prefix@,
        r.size == size,
        r.ok == outcome is Ok,
        match outcome {
            Ok(_) => r.error is None && r.url is Some && r.url->0@ == object_url_text(
                config@.bucket,
                config@.region,
                key@,
            ),
            Err(e) => r.url is None && r.error is Some && r.error->0@ == e@,
        },
{
    match outcome {
        Ok(_) => {
            let url = object_url(config, key.as_str());
            UploadItem { name, key, prefix, url: Some(url), size, ok: true, error: None }
        },
        Err(e) => UploadItem { name, key, prefix, url: None, size, ok: false, error: Some(e) },
    }
}

/// The name a local file is uploaded under: the name given, else the file
/// name of its path, else `unnamed`; trimmed.
pub fn local_upload_name(name: Option<String>, path_file_name: Option<String>) -> (r: String)
    ensures
        r@ == trimmed(
            match name {
                Some(n) => n@,
                None => match path_file_name {
                    Some(f) => f@,
                    None => "unnamed"@,
                },
            },
        ),
{
    let chosen = match name {
        Some(n) => n,
        None => match path_file_name {
            Some(f) => f,
            None => "unnamed".to_owned(),
        },
    };
    trim(chosen.as_str())
}

/// The report for a local file whose name is blank.
pub fn unnamed_file_item(prefix: String) -> (r: UploadItem)
    ensures
        r.name@ == "unnamed"@,
        r.key@.len() == 0,
        r.prefix@ == prefix@,
        r.url is None,
        r.size == 0,
        !r.ok,
        r.error is Some && r.error->0@ == "本地文件名无效"@,
{
    UploadItem {
        name: "unnamed".to_owned(),
        key: String::new(),
        prefix,
        url: None,
        size: 0,
        ok: false,
        error: Some("本地文件名无效".to_owned()),
    }
}

/// The report for a local file that could not be read.
pub fn unreadable_file_item(name: String, key: String, prefix: String, read_error: &str) -> (r:
    UploadItem)
    ensures
        r.name@ == name@,
        r.key@ == key@,
        r.prefix@ == prefix@,
        r.url is None,
        r.size == 0,
        !r.ok,
        r.error is Some && r.error->0@ == "读取本地文件失败: "@ + read_error@,
{
    let mut message = "读取本地文件失败: ".to_owned();
    message.append(read_error);
    UploadItem { name, key, prefix, url: None, size: 0, ok: false, error: Some(message) }
}

} // verus!
