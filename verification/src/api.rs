//! The shapes that the HTTP interface exchanges: file listings, rename and overwrite
//! requests, TMDB searches and the application's version information.
use vstd::prelude::*;
use crate::files::FolderInfo;
use crate::text::{chars_of, string_from, trim, trim_chars};

verus! {

/// The file browser's listing: the top folders and the download folder's path.
pub struct ListFilesResponse {
    pub folders: Vec<FolderInfo>,
    pub download_path: String,
}

/// A request to rename a file or folder.
pub struct RenameRequest {
    pub new_name: String,
}

/// The answer to "overwrite the existing file?".
pub struct OverwriteResponse {
    pub overwrite: bool,
}

/// A TMDB search query.
pub struct SearchTmdbQuery {
    pub query: String,
}

/// The versions of the parts of the application.
pub struct AppVersionInfo {
    pub server_version: String,
    pub web_version: String,
    pub docker_image: String,
    pub docker_version: String,
    pub tauri_version: Option<String>,
}

/// The view of an optional string.
pub open spec fn opt_chars(o: Option<String>) -> Option<Seq<char>> {
    match o {
        Some(s) => Some(s@),
        None => None,
    }
}

/// A version given at build time: trimmed, and absent when nothing is left.
pub open spec fn version_label_spec(value: Option<Seq<char>>) -> Option<Seq<char>> {
    match value {
        Some(v) => if trim(v).len() == 0 {
            None
        } else {
            Some(trim(v))
        },
        None => None,
    }
}

/// Reads a version given at build time (see `version_label_spec`).
pub fn version_label(value: Option<&str>) -> (r: Option<String>)
    ensures
        opt_chars(r) == version_label_spec(
            match value {
                Some(v) => Some(v@),
                None => None,
            },
        ),
{
    match value {
        None => None,
        Some(v) => {
            let t = trim_chars(chars_of(v).as_slice());
            if t.len() == 0 {
                None
            } else {
                Some(string_from(t.as_slice()))
            }
        },
    }
}

/// The version information, the desktop version read by `version_label`.
pub fn app_version_info(
    server_version: &str,
    web_version: &str,
    docker_image: &str,
    docker_version: &str,
    tauri_version: Option<&str>,
) -> (r: AppVersionInfo)
    ensures
        r.server_version@ == server_version@,
        r.web_version@ == web_version@,
        r.docker_image@ == docker_image@,
        r.docker_version@ == docker_version@,
        opt_chars(r.tauri_version) == version_label_spec(
            match tauri_version {
                Some(v) => Some(v@),
                None => None,
            },
        ),
{
    AppVersionInfo {
        server_version: string_from(chars_of(server_version).as_slice()),
        web_version: string_from(chars_of(web_version).as_slice()),
        docker_image: string_from(chars_of(docker_image).as_slice()),
        docker_version: string_from(chars_of(docker_version).as_slice()),
        tauri_version: version_label(tauri_version),
    }
}

} // verus!
