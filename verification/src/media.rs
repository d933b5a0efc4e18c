use vstd::prelude::*;

verus! {

/// One discoverable asset within a post.
///
/// `media_type` is `"image"` or `"video"`; `extension` is derived from it
/// (`"jpg"` for images, `"mp4"` for videos), never sniffed from content.
/// `index` is the optional 1-based sequence position inside a multi-item
/// post; it is present exactly when the asset came from an array field of
/// the post's structured data.
#[derive(Debug, Clone)]
pub struct MediaItem {
    pub id: String,
    pub media_type: String,
    pub preview_url: String,
    pub download_url: String,
    pub extension: String,
    pub index: Option<usize>,
}

/// Output of resolving one post URL: the sanitized account handle, the
/// post's key as it appeared in the URL, and the ordered, non-empty list
/// of media descriptors.
#[derive(Debug, Clone)]
pub struct ResolveResult {
    pub username: String,
    pub shortcode: String,
    pub media_items: Vec<MediaItem>,
}

/// A caller-confirmed subset of a `ResolveResult` to fetch.
#[derive(Debug, Clone)]
pub struct DownloadRequest {
    pub username: String,
    pub shortcode: String,
    pub media_items: Vec<MediaItem>,
}

/// One progress event for one item. `progress` is the progress fraction,
/// which this system only ever reports as 0 (none) or 1 (complete):
/// there is no partial byte-level progress. `filename` is set once the
/// final name is known; `error` is set exactly when `status` is
/// `"failed"`.
#[derive(Debug, Clone)]
pub struct DownloadProgress {
    pub item_id: String,
    pub status: String,
    pub progress: u8,
    pub filename: Option<String>,
    pub error: Option<String>,
}

/// Why resolving a post URL failed.
#[derive(Debug, Clone, Copy, PartialEq, Eq, Structural)]
pub enum ResolveError {
    InvalidUrl,
    FetchPageFailed,
    NoStructuredData,
    MissingAuthor,
    NoMediaFound,
}

/// Why fetching a single asset failed.
#[derive(Debug, Clone, Copy, PartialEq, Eq, Structural)]
pub enum FetchError {
    HttpStatus(u16),
    TransportFailure,
    IoFailure,
}

/// Why a whole download batch could not start.
#[derive(Debug, Clone, Copy, PartialEq, Eq, Structural)]
pub enum EngineError {
    DirectoryUnavailable,
}

} // verus!
