//! Media files: where a file comes from, and the requests of the media
//! actions.

use vstd::prelude::*;
use crate::client::{AnkiRequest, is_request};
use crate::json::{JsonView, jstr, obj1, obj2, object1, object2, text};

verus! {

/// Where the content of a media file comes from.
#[derive(Debug, Clone)]
pub enum MediaSource<'a> {
    /// Provide base64 encoded data directly
    Data { filename: &'a str, data: &'a str },
    /// Provide a local filesystem path
    Path { filename: &'a str, path: &'a str },
    /// Provide a URL for AnkiConnect to download from
    Url { filename: &'a str, url: &'a str },
}

/// The parameters for a media source: the file name, then the data, the
/// path or the URL, under its own key.
pub open spec fn media_source_json(source: MediaSource) -> JsonView {
    match source {
        MediaSource::Data { filename, data } => obj2("filename"@, jstr(filename@), "data"@, jstr(data@)),
        MediaSource::Path { filename, path } => obj2("filename"@, jstr(filename@), "path"@, jstr(path@)),
        MediaSource::Url { filename, url } => obj2("filename"@, jstr(filename@), "url"@, jstr(url@)),
    }
}

/// Stores a media file in the Anki collection (`storeMediaFile`).
pub fn store_media_file_request(source: &MediaSource) -> (r: AnkiRequest)
    ensures
        is_request(r, "storeMediaFile"@, Some(media_source_json(*source))),
{
    let params = match source {
        MediaSource::Data { filename, data } => object2("filename", text(filename), "data", text(data)),
        MediaSource::Path { filename, path } => object2("filename", text(filename), "path", text(path)),
        MediaSource::Url { filename, url } => object2("filename", text(filename), "url", text(url)),
    };
    AnkiRequest::new("storeMediaFile", Some(params))
}

/// Retrieves the base64 encoded data of a media file (`retrieveMediaFile`).
pub fn retrieve_media_file_request(filename: &str) -> (r: AnkiRequest)
    ensures
        is_request(r, "retrieveMediaFile"@, Some(obj1("filename"@, jstr(filename@)))),
{
    AnkiRequest::new("retrieveMediaFile", Some(object1("filename", text(filename))))
}

} // verus!
