use vstd::prelude::*;

verus! {

/// A track as a streaming service describes it.
#[derive(Debug)]
pub struct StreamingTrack {
    /// Id at its service.
    pub id: String,
    /// Title.
    pub title: String,
    /// Artist.
    pub artist: String,
    /// Album.
    pub album: String,
    /// Length in seconds.
    pub duration: Option<i32>,
    /// Where to stream it.
    pub stream_url: Option<String>,
    /// Cover picture.
    pub cover_url: Option<String>,
    /// Quality label.
    pub quality: Option<String>,
    /// Service it comes from.
    pub source: String,
    /// Bit rate in kbps.
    pub bitrate: Option<i32>,
    /// Sample rate in Hz.
    pub sample_rate: Option<i32>,
    /// Bits per sample.
    pub bit_depth: Option<i32>,
}

/// An album as a streaming service describes it.
#[derive(Debug)]
pub struct StreamingAlbum {
    /// Id at its service.
    pub id: String,
    /// Title.
    pub title: String,
    /// Artist.
    pub artist: String,
    /// Release date as given by the service.
    pub release_date: Option<String>,
    /// Cover picture.
    pub cover_url: Option<String>,
    /// Its tracks.
    pub tracks: Vec<StreamingTrack>,
    /// Service it comes from.
    pub source: String,
}

/// A playlist as a streaming service describes it.
#[derive(Debug)]
pub struct StreamingPlaylist {
    /// Id at its service.
    pub id: String,
    /// Name.
    pub name: String,
    /// Description.
    pub description: Option<String>,
    /// Owner's name.
    pub owner: String,
    /// Service it comes from.
    pub source: String,
    /// Cover picture.
    pub cover_url: Option<String>,
    /// Number of tracks.
    pub track_count: u32,
    /// Whether anyone may see it.
    pub is_public: bool,
    /// Link to it at its service.
    pub external_url: Option<String>,
}

/// One page of search results.
#[derive(Debug)]
pub struct SearchResults {
    /// Matching tracks.
    pub tracks: Vec<StreamingTrack>,
    /// Matching albums.
    pub albums: Vec<StreamingAlbum>,
    /// Matching playlists.
    pub playlists: Vec<StreamingPlaylist>,
    /// Number of matches in all.
    pub total: u32,
    /// Index of the first match on this page.
    pub offset: u32,
    /// Matches per page.
    pub limit: u32,
}

/// What signing in to a streaming service takes.
#[derive(Debug)]
pub struct ServiceCredentials {
    /// Account name.
    pub username: Option<String>,
    /// Account password.
    pub password: Option<String>,
    /// Current access token.
    pub access_token: Option<String>,
    /// Token to renew access.
    pub refresh_token: Option<String>,
    /// Application id.
    pub app_id: Option<String>,
    /// Application secret.
    pub secret: Option<String>,
}

} // verus!
