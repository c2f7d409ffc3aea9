use vstd::prelude::*;

verus! {

/// The supported format versions. The version is detected once from the file
/// signature and then selects the byte-layout conventions used by the decoder.
#[derive(Clone, Copy, Debug, PartialEq, Eq, Structural)]
pub enum GpVersion {
    GP3,
    GP4,
    GP5,
}

/// Every way a decode attempt can fail. A failed decode never yields a
/// partial song: the caller receives exactly one of these.
#[derive(Clone, Copy, Debug, PartialEq, Eq, Structural)]
pub enum DecodeError {
    /// The signature matches no known version marker (or the buffer is too
    /// short to hold a signature at all).
    UnsupportedVersion,
    /// A read would have crossed the end of the buffer.
    UnexpectedEndOfData,
    /// The declared tempo is zero.
    InvalidTempo,
    /// The track list declares zero tracks.
    EmptyScore,
}

/// One string/fret position with its effect flags. The effect flags are an
/// opaque payload for the synthesis backend; the scheduler never interprets
/// them.
#[derive(Clone, Copy, Debug, PartialEq, Eq, Structural)]
pub struct Note {
    /// Index of the string the note sounds on; always below the owning
    /// track's string count.
    pub string: u8,
    pub fret: u8,
    pub effects: u16,
}

/// A rhythmic slot: a duration code and the set of notes sounding
/// simultaneously. A beat with no notes is a rest.
#[derive(Clone, Debug, PartialEq)]
pub struct Beat {
    /// Duration code: 0 = whole note, each further step halves the length.
    pub duration: u8,
    pub notes: Vec<Note>,
}

/// A fixed rhythmic section, aligned across all tracks, with its time
/// signature.
#[derive(Clone, Debug, PartialEq)]
pub struct Measure {
    pub numerator: u8,
    pub denominator: u8,
    pub beats: Vec<Beat>,
}

/// One instrument's part across the whole song.
#[derive(Clone, Debug, PartialEq)]
pub struct Track {
    pub name: String,
    /// One entry per string (the open-string pitch); its length is the
    /// track's string count.
    pub tuning: Vec<u8>,
    pub measures: Vec<Measure>,
}

/// Free-text metadata from the file header.
#[derive(Clone, Debug, PartialEq)]
pub struct SongInfo {
    pub name: String,
    pub artist: String,
}

/// Tempo in beats per minute; always positive in a decoded song.
#[derive(Clone, Copy, Debug, PartialEq, Eq, Structural)]
pub struct Tempo {
    pub value: u32,
}

/// The fully decoded, version-independent representation of one file. It is
/// produced once by the decoder and then shared read-only.
#[derive(Clone, Debug, PartialEq)]
pub struct Song {
    pub song_info: SongInfo,
    pub version: GpVersion,
    pub tempo: Tempo,
    pub tracks: Vec<Track>,
}

/// Mathematical counterpart of `Note`.
#[verifier::ext_equal]
pub ghost struct NoteV {
    pub string: u8,
    pub fret: u8,
    pub effects: u16,
}

/// Mathematical counterpart of `Beat`.
#[verifier::ext_equal]
pub ghost struct BeatV {
    pub duration: u8,
    pub notes: Seq<NoteV>,
}

/// Mathematical counterpart of `Measure`.
#[verifier::ext_equal]
pub ghost struct MeasureV {
    pub numerator: u8,
    pub denominator: u8,
    pub beats: Seq<BeatV>,
}

/// Mathematical counterpart of `Track`.
#[verifier::ext_equal]
pub ghost struct TrackV {
    pub name: Seq<char>,
    pub tuning: Seq<u8>,
    pub measures: Seq<MeasureV>,
}

/// Mathematical counterpart of `Song`.
#[verifier::ext_equal]
pub ghost struct SongV {
    pub name: Seq<char>,
    pub artist: Seq<char>,
    pub version: GpVersion,
    pub tempo: u32,
    pub tracks: Seq<TrackV>,
}

impl View for Note {
    type V = NoteV;

    open spec fn view(&self) -> NoteV {
        NoteV { string: self.string, fret: self.fret, effects: self.effects }
    }
}

impl View for Beat {
    type V = BeatV;

    open spec fn view(&self) -> BeatV {
        BeatV { duration: self.duration, notes: self.notes@.map_values(|n: Note| n@) }
    }
}

impl View for Measure {
    type V = MeasureV;

    open spec fn view(&self) -> MeasureV {
        MeasureV {
            numerator: self.numerator,
            denominator: self.denominator,
            beats: self.beats@.map_values(|b: Beat| b@),
        }
    }
}

impl View for Track {
    type V = TrackV;

    open spec fn view(&self) -> TrackV {
        TrackV {
            name: self.name@,
            tuning: self.tuning@,
            measures: self.measures@.map_values(|m: Measure| m@),
        }
    }
}

impl View for Song {
    type V = SongV;

    open spec fn view(&self) -> SongV {
        SongV {
            name: self.song_info.name@,
            artist: self.song_info.artist@,
            version: self.version,
            tempo: self.tempo.value,
            tracks: self.tracks@.map_values(|t: Track| t@),
        }
    }
}

/// A note is well formed for a track with `strings` strings when its string
/// index is in range.
pub open spec fn note_wf(n: NoteV, strings: nat) -> bool {
    n.string < strings
}

/// Every note of the beat is on a valid string.
pub open spec fn beat_wf(b: BeatV, strings: nat) -> bool {
    forall|i: int| 0 <= i < b.notes.len() ==> note_wf(#[trigger] b.notes[i], strings)
}

/// Every beat of the measure is well formed.
pub open spec fn measure_wf(m: MeasureV, strings: nat) -> bool {
    forall|i: int| 0 <= i < m.beats.len() ==> beat_wf(#[trigger] m.beats[i], strings)
}

/// Every note of the track sounds on one of the track's own strings.
pub open spec fn track_wf(t: TrackV) -> bool {
    forall|i: int| 0 <= i < t.measures.len() ==> measure_wf(#[trigger] t.measures[i], t.tuning.len())
}

/// The invariant every decoded song satisfies: a positive tempo, at least
/// one track, and only in-range string indices.
pub open spec fn song_wf(s: SongV) -> bool {
    &&& s.tempo >= 1
    &&& s.tracks.len() >= 1
    &&& forall|i: int| 0 <= i < s.tracks.len() ==> track_wf(#[trigger] s.tracks[i])
}

} // verus!
