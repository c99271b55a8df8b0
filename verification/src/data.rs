//! Plain data records for albums, users and playlist views.
//!
//! These carry the fields the application reads; fetching and rendering
//! them is outside the library.

use vstd::prelude::*;

verus! {

/// The kind of an album release.
#[derive(Clone, Debug, PartialEq, Eq, Hash)]
pub enum AlbumType {
    Album,
    Single,
    Compilation,
    AppearsOn,
}

impl Default for AlbumType {
    /// An album release is assumed to be a full album unless stated
    /// otherwise.
    fn default() -> (r: AlbumType)
        ensures
            r == AlbumType::Album,
    {
        AlbumType::Album
    }
}

/// How precisely an album's release date is known.
#[derive(Clone, Debug, PartialEq, Eq)]
pub enum DatePrecision {
    Year,
    Month,
    Day,
}

/// The kind of a copyright notice.
#[derive(Copy, Clone, Debug, PartialEq, Eq)]
pub enum CopyrightType {
    Copyright,
    Performance,
}

/// A copyright notice on an album.
#[derive(Clone, Debug)]
pub struct Copyright {
    pub text: String,
    pub kind: CopyrightType,
}

/// The profile of the signed-in user.
#[derive(Clone, Debug)]
pub struct UserProfile {
    pub display_name: String,
    pub email: String,
    pub id: String,
}

/// The public face of any user.
#[derive(Clone, Debug)]
pub struct PublicUser {
    pub display_name: String,
    pub id: String,
}

/// Remembers which track a playlist-membership view was opened for, so
/// the view can ask for that track's playlists when it is added.
pub struct TrackPlaylistsController {
    pub track_id: String,
}

impl TrackPlaylistsController {
    /// Creates a controller for the track with the given identifier.
    pub fn new(track_id: String) -> (r: TrackPlaylistsController)
        ensures
            r.track_id == track_id,
    {
        TrackPlaylistsController { track_id }
    }
}

} // verus!
