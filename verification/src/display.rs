use vstd::prelude::*;

use crate::model::{GpVersion, Song};

verus! {

/// The header facts a presentation layer shows about the loaded song.
#[derive(Clone, Debug)]
pub struct SongDisplayInfo {
    pub name: String,
    pub artist: String,
    pub gp_version: GpVersion,
    pub file_name: String,
}

impl SongDisplayInfo {
    /// Copy the displayable header facts out of a decoded song.
    pub fn new(song: &Song, file_name: String) -> (r: SongDisplayInfo)
        ensures
            r.name@ == song@.name,
            r.artist@ == song@.artist,
            r.gp_version == song@.version,
            r.file_name@ == file_name@,
    {
        SongDisplayInfo {
            name: song.song_info.name.clone(),
            artist: song.song_info.artist.clone(),
            gp_version: song.version,
            file_name,
        }
    }
}

/// One entry of a track chooser: a track's position and display name.
#[derive(Clone, Debug, Default, PartialEq)]
pub struct TrackSelection {
    pub index: usize,
    pub name: String,
}

impl TrackSelection {
    pub fn new(index: usize, name: String) -> (r: TrackSelection)
        ensures
            r.index == index,
            r.name@ == name@,
    {
        TrackSelection { index, name }
    }
}

} // verus!
