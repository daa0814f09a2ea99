use vstd::prelude::*;

verus! {

/// Envelope of every response of the HTTP surface.
#[derive(Debug)]
pub struct ApiResponse<T> {
    /// Whether the request succeeded.
    pub success: bool,
    /// The payload, on success.
    pub data: Option<T>,
    /// The reason, on failure.
    pub message: Option<String>,
}

impl<T> ApiResponse<T> {
    /// A successful response carrying `data`.
    pub fn success(data: T) -> (r: Self)
        ensures
            r.success,
            r.data == Some(data),
            r.message is None,
    {
        ApiResponse { success: true, data: Some(data), message: None }
    }

    /// A failed response carrying `message` and no payload.
    pub fn error(message: String) -> (r: ApiResponse<()>)
        ensures
            !r.success,
            r.data is None,
            r.message == Some(message),
    {
        ApiResponse { success: false, data: None, message: Some(message) }
    }
}

/// Query of a tempo analysis request.
#[derive(Debug)]
pub struct AnalyzeBpmQuery {
    /// Track to analyse.
    pub track_id: String,
    /// Service the track comes from.
    pub source: String,
    /// Where to fetch the audio, when it is not local.
    pub stream_url: Option<String>,
}

/// Query of a key analysis request.
#[derive(Debug)]
pub struct AnalyzeKeyQuery {
    /// Track to analyse.
    pub track_id: String,
    /// Service the track comes from.
    pub source: String,
    /// Where to fetch the audio, when it is not local.
    pub stream_url: Option<String>,
}

/// Query for a stored tempo.
#[derive(Debug)]
pub struct GetBpmQuery {
    /// Track asked about.
    pub track_id: String,
    /// Service the track comes from.
    pub source: String,
}

/// Paging and search of a playlist listing.
#[derive(Debug)]
pub struct GetPlaylistsQuery {
    /// Page number.
    pub page: Option<u64>,
    /// Entries per page.
    pub per_page: Option<u64>,
    /// Text to look for.
    pub search: Option<String>,
}

/// Request to save an album to the library.
#[derive(Debug)]
pub struct SaveAlbumRequest {
    /// Album id at its service.
    pub album_id: String,
    /// Album title.
    pub title: String,
    /// Album artist.
    pub artist: String,
    /// Release date as given by the service.
    pub release_date: Option<String>,
    /// Cover picture.
    pub cover_url: Option<String>,
    /// Service the album comes from.
    pub source: String,
    /// Number of tracks.
    pub track_count: i32,
}

/// Paging of the saved albums.
#[derive(Debug)]
pub struct GetSavedAlbumsQuery {
    /// Page number.
    pub page: Option<u64>,
    /// Entries per page.
    pub limit: Option<u64>,
}

/// Query whether an album is saved.
#[derive(Debug)]
pub struct CheckAlbumSavedQuery {
    /// Album id at its service.
    pub album_id: String,
    /// Service the album comes from.
    pub source: String,
}

/// Query for an album's tracks.
#[derive(Debug)]
pub struct GetAlbumTracksQuery {
    /// Service the album comes from.
    pub source: String,
}

/// Request to save a track to the library.
#[derive(Debug)]
pub struct SaveTrackRequest {
    /// Track id at its service.
    pub track_id: String,
    /// Track title.
    pub title: String,
    /// Track artist.
    pub artist: String,
    /// Album of the track.
    pub album: String,
    /// Length in seconds.
    pub duration: i32,
    /// Service the track comes from.
    pub source: String,
    /// Cover picture.
    pub cover_url: Option<String>,
}

/// Paging of the saved tracks.
#[derive(Debug)]
pub struct GetSavedTracksQuery {
    /// Page number.
    pub page: Option<u64>,
    /// Entries per page.
    pub limit: Option<u64>,
}

/// Query of an audio stream.
#[derive(Debug)]
pub struct StreamQuery {
    /// Track to stream.
    pub track_id: String,
    /// Service the track comes from.
    pub source: String,
    /// Where the audio lives.
    pub url: String,
}

} // verus!
