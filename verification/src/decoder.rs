use vstd::prelude::*;

use crate::model::{Beat, BeatV, DecodeError, GpVersion, Measure, MeasureV, Note, NoteV, Song,
    SongInfo, SongV, Tempo, Track, TrackV};
use crate::model::{beat_wf, measure_wf, song_wf, track_wf};
use crate::reader::{sp_bytes, sp_u16, sp_u32, sp_u8, ByteReader};

verus! {

// ---------------------------------------------------------------------------
// The mathematical parser. These spec functions define the format: the
// executable decoder below is proved to return exactly what they describe.
// ---------------------------------------------------------------------------

/// Text is stored one byte per character; a byte is read as the character
/// with that code point.
pub open spec fn chars_of(bs: Seq<u8>) -> Seq<char> {
    bs.map_values(|b: u8| b as char)
}

/// The fixed marker text that opens every supported file.
pub open spec fn signature_bytes() -> Seq<u8> {
    seq![71u8, 80u8, 67u8, 79u8, 82u8, 69u8]  // "GPCORE"
}

/// The version a buffer declares: the marker text followed by one version
/// character. `None` when the buffer is shorter than a signature or matches
/// no known marker.
pub open spec fn sp_version(b: Seq<u8>) -> Option<GpVersion> {
    if b.len() >= 7 && b.subrange(0, 6) == signature_bytes() {
        if b[6] == 51 {
            Some(GpVersion::GP3)
        } else if b[6] == 52 {
            Some(GpVersion::GP4)
        } else if b[6] == 53 {
            Some(GpVersion::GP5)
        } else {
            None
        }
    } else {
        None
    }
}

/// A string length prefix, whose width depends on the version.
pub open spec fn sp_len(v: GpVersion, b: Seq<u8>, p: int) -> Result<(int, int), DecodeError> {
    match v {
        GpVersion::GP3 => match sp_u8(b, p) {
            Ok(x) => Ok((x.0 as int, x.1)),
            Err(e) => Err(e),
        },
        GpVersion::GP4 => match sp_u16(b, p) {
            Ok(x) => Ok((x.0 as int, x.1)),
            Err(e) => Err(e),
        },
        GpVersion::GP5 => match sp_u32(b, p) {
            Ok(x) => Ok((x.0 as int, x.1)),
            Err(e) => Err(e),
        },
    }
}

/// A plain length-prefixed string.
pub open spec fn sp_string(v: GpVersion, b: Seq<u8>, p: int) -> Result<
    (Seq<char>, int),
    DecodeError,
> {
    match sp_len(v, b, p) {
        Err(e) => Err(e),
        Ok((n, p1)) => match sp_bytes(b, p1, n) {
            Err(e) => Err(e),
            Ok((bs, p2)) => Ok((chars_of(bs), p2)),
        },
    }
}

/// A string stored in a fixed slot: one length byte, then 31 content bytes of
/// which only the first `len` carry text. The whole slot is always consumed so
/// the cursor stays aligned.
pub open spec fn sp_padded_string(b: Seq<u8>, p: int) -> Result<(Seq<char>, int), DecodeError> {
    match sp_u8(b, p) {
        Err(e) => Err(e),
        Ok((l, p1)) => match sp_bytes(b, p1, 31) {
            Err(e) => Err(e),
            Ok((bs, p2)) => Ok(
                (chars_of(bs.take(if l <= 31 { l as int } else { 31 })), p2),
            ),
        },
    }
}

/// The header's free-text block: title and artist. One version stores them in
/// padded slots, one adds an album field that the model does not keep.
pub open spec fn sp_metadata(v: GpVersion, b: Seq<u8>, p: int) -> Result<
    ((Seq<char>, Seq<char>), int),
    DecodeError,
> {
    match v {
        GpVersion::GP3 => match sp_padded_string(b, p) {
            Err(e) => Err(e),
            Ok((title, p1)) => match sp_padded_string(b, p1) {
                Err(e) => Err(e),
                Ok((artist, p2)) => Ok(((title, artist), p2)),
            },
        },
        GpVersion::GP4 => match sp_string(v, b, p) {
            Err(e) => Err(e),
            Ok((title, p1)) => match sp_string(v, b, p1) {
                Err(e) => Err(e),
                Ok((artist, p2)) => match sp_string(v, b, p2) {
                    Err(e) => Err(e),
                    Ok((_album, p3)) => Ok(((title, artist), p3)),
                },
            },
        },
        GpVersion::GP5 => match sp_string(v, b, p) {
            Err(e) => Err(e),
            Ok((title, p1)) => match sp_string(v, b, p1) {
                Err(e) => Err(e),
                Ok((artist, p2)) => Ok(((title, artist), p2)),
            },
        },
    }
}

/// The tempo field: two bytes in the oldest layout, four in the others.
pub open spec fn sp_tempo(v: GpVersion, b: Seq<u8>, p: int) -> Result<(u32, int), DecodeError> {
    match v {
        GpVersion::GP3 => match sp_u16(b, p) {
            Ok(x) => Ok((x.0 as u32, x.1)),
            Err(e) => Err(e),
        },
        _ => sp_u32(b, p),
    }
}

/// Whether bit `i` of a note-presence mask is set.
pub open spec fn mask_bit(mask: u8, i: u8) -> bool {
    ((mask >> i) & 1) == 1
}

/// One note block: fret, then effect flags whose width depends on the
/// version. The string index comes from the enclosing mask position.
pub open spec fn sp_note(v: GpVersion, b: Seq<u8>, p: int, string_idx: u8) -> Result<
    (NoteV, int),
    DecodeError,
> {
    match sp_u8(b, p) {
        Err(e) => Err(e),
        Ok((fret, p1)) => match v {
            GpVersion::GP5 => match sp_u16(b, p1) {
                Err(e) => Err(e),
                Ok((fx, p2)) => Ok((NoteV { string: string_idx, fret, effects: fx }, p2)),
            },
            _ => match sp_u8(b, p1) {
                Err(e) => Err(e),
                Ok((fx, p2)) => Ok((NoteV { string: string_idx, fret, effects: fx as u16 }, p2)),
            },
        },
    }
}

/// The notes of one beat, walking the mask bits from string `i` upward. A
/// note block is present exactly for the set bits that name a valid string;
/// higher mask bits are reserved and carry no block.
pub open spec fn sp_notes(
    v: GpVersion,
    b: Seq<u8>,
    p: int,
    mask: u8,
    strings: int,
    i: u8,
) -> Result<(Seq<NoteV>, int), DecodeError>
    decreases 8 - i,
{
    if i >= 8 {
        Ok((Seq::empty(), p))
    } else if mask_bit(mask, i) && (i as int) < strings {
        match sp_note(v, b, p, i) {
            Err(e) => Err(e),
            Ok((n, p1)) => match sp_notes(v, b, p1, mask, strings, (i + 1) as u8) {
                Err(e) => Err(e),
                Ok((ns, p2)) => Ok((seq![n] + ns, p2)),
            },
        }
    } else {
        sp_notes(v, b, p, mask, strings, (i + 1) as u8)
    }
}

/// One beat: a duration code, a note-presence mask, then the present notes.
pub open spec fn sp_beat(v: GpVersion, b: Seq<u8>, p: int, strings: int) -> Result<
    (BeatV, int),
    DecodeError,
> {
    match sp_u8(b, p) {
        Err(e) => Err(e),
        Ok((duration, p1)) => match sp_u8(b, p1) {
            Err(e) => Err(e),
            Ok((mask, p2)) => match sp_notes(v, b, p2, mask, strings, 0) {
                Err(e) => Err(e),
                Ok((ns, p3)) => Ok((BeatV { duration, notes: ns }, p3)),
            },
        },
    }
}

/// `count` consecutive beats.
pub open spec fn sp_beats(v: GpVersion, b: Seq<u8>, p: int, strings: int, count: int) -> Result<
    (Seq<BeatV>, int),
    DecodeError,
>
    decreases count,
{
    if count <= 0 {
        Ok((Seq::empty(), p))
    } else {
        match sp_beat(v, b, p, strings) {
            Err(e) => Err(e),
            Ok((bt, p1)) => match sp_beats(v, b, p1, strings, count - 1) {
                Err(e) => Err(e),
                Ok((bs, p2)) => Ok((seq![bt] + bs, p2)),
            },
        }
    }
}

/// One measure: its time signature, a beat count, then the beats. A count of
/// zero is a valid, silent measure.
pub open spec fn sp_measure(v: GpVersion, b: Seq<u8>, p: int, strings: int) -> Result<
    (MeasureV, int),
    DecodeError,
> {
    match sp_u8(b, p) {
        Err(e) => Err(e),
        Ok((numerator, p1)) => match sp_u8(b, p1) {
            Err(e) => Err(e),
            Ok((denominator, p2)) => match sp_u8(b, p2) {
                Err(e) => Err(e),
                Ok((bc, p3)) => match sp_beats(v, b, p3, strings, bc as int) {
                    Err(e) => Err(e),
                    Ok((bs, p4)) => Ok((MeasureV { numerator, denominator, beats: bs }, p4)),
                },
            },
        },
    }
}

/// `count` consecutive measures.
pub open spec fn sp_measures(v: GpVersion, b: Seq<u8>, p: int, strings: int, count: int) -> Result<
    (Seq<MeasureV>, int),
    DecodeError,
>
    decreases count,
{
    if count <= 0 {
        Ok((Seq::empty(), p))
    } else {
        match sp_measure(v, b, p, strings) {
            Err(e) => Err(e),
            Ok((m, p1)) => match sp_measures(v, b, p1, strings, count - 1) {
                Err(e) => Err(e),
                Ok((ms, p2)) => Ok((seq![m] + ms, p2)),
            },
        }
    }
}

/// One track: its name, a string count with one tuning byte per string, the
/// measure count convention for the version, then the measures. Two versions
/// declare a measure count once for all tracks (`shared` is set); the newest
/// prefixes each track's own list with a two-byte count.
pub open spec fn sp_track(v: GpVersion, b: Seq<u8>, p: int, shared: Option<u16>) -> Result<
    (TrackV, int),
    DecodeError,
> {
    match sp_string(v, b, p) {
        Err(e) => Err(e),
        Ok((name, p1)) => match sp_u8(b, p1) {
            Err(e) => Err(e),
            Ok((sc, p2)) => match sp_bytes(b, p2, sc as int) {
                Err(e) => Err(e),
                Ok((tuning, p3)) => match (match shared {
                    Some(c) => Ok((c, p3)),
                    None => sp_u16(b, p3),
                }) {
                    Err(e) => Err(e),
                    Ok((mc, p4)) => match sp_measures(v, b, p4, sc as int, mc as int) {
                        Err(e) => Err(e),
                        Ok((ms, p5)) => Ok((TrackV { name, tuning, measures: ms }, p5)),
                    },
                },
            },
        },
    }
}

/// `count` consecutive tracks.
pub open spec fn sp_tracks(
    v: GpVersion,
    b: Seq<u8>,
    p: int,
    shared: Option<u16>,
    count: int,
) -> Result<(Seq<TrackV>, int), DecodeError>
    decreases count,
{
    if count <= 0 {
        Ok((Seq::empty(), p))
    } else {
        match sp_track(v, b, p, shared) {
            Err(e) => Err(e),
            Ok((t, p1)) => match sp_tracks(v, b, p1, shared, count - 1) {
                Err(e) => Err(e),
                Ok((ts, p2)) => Ok((seq![t] + ts, p2)),
            },
        }
    }
}

/// The measure count declared once for every track, in the versions that have
/// one; the newest version declares it per track instead.
pub open spec fn sp_shared_mcount(v: GpVersion, b: Seq<u8>, p: int) -> Result<
    (Option<u16>, int),
    DecodeError,
> {
    match v {
        GpVersion::GP3 => match sp_u8(b, p) {
            Ok(x) => Ok((Some(x.0 as u16), x.1)),
            Err(e) => Err(e),
        },
        GpVersion::GP4 => match sp_u16(b, p) {
            Ok(x) => Ok((Some(x.0), x.1)),
            Err(e) => Err(e),
        },
        GpVersion::GP5 => Ok((None, p)),
    }
}

/// The whole file: signature, metadata, tempo, then the track list. This is
/// the definition of the format; `parse_gp_data` returns exactly this.
pub open spec fn sp_song(b: Seq<u8>) -> Result<SongV, DecodeError> {
    match sp_version(b) {
        None => Err(DecodeError::UnsupportedVersion),
        Some(v) => match sp_metadata(v, b, 7) {
            Err(e) => Err(e),
            Ok(((title, artist), p1)) => match sp_tempo(v, b, p1) {
                Err(e) => Err(e),
                Ok((tempo, p2)) => if tempo == 0 {
                    Err(DecodeError::InvalidTempo)
                } else {
                    match sp_u8(b, p2) {
                        Err(e) => Err(e),
                        Ok((tc, p3)) => if tc == 0 {
                            Err(DecodeError::EmptyScore)
                        } else {
                            match sp_shared_mcount(v, b, p3) {
                                Err(e) => Err(e),
                                Ok((mc, p4)) => match sp_tracks(v, b, p4, mc, tc as int) {
                                    Err(e) => Err(e),
                                    Ok((ts, _p5)) => Ok(
                                        SongV {
                                            name: title,
                                            artist,
                                            version: v,
                                            tempo,
                                            tracks: ts,
                                        },
                                    ),
                                },
                            }
                        },
                    }
                },
            },
        },
    }
}

// ---------------------------------------------------------------------------
// The executable decoder.
// ---------------------------------------------------------------------------

/// Relies on std's `String::push`: appends exactly the given character.
pub assume_specification[ String::push ](s: &mut String, ch: char)
    ensures
        final(s)@ == old(s)@.push(ch),
;

/// Turn raw bytes into text, one character per byte.
fn string_of_bytes(bs: &Vec<u8>) -> (s: String)
    ensures
        s@ == chars_of(bs@),
{
    let mut s = String::new();
    let mut i: usize = 0;
    while i < bs.len()
        invariant
            i <= bs@.len(),
            s@ == chars_of(bs@.take(i as int)),
        decreases bs@.len() - i,
    {
        s.push(bs[i] as char);
        proof {
            assert(s@ =~= chars_of(bs@.take(i + 1 as int)));
        }
        i = i + 1;
    }
    proof {
        assert(bs@.take(bs@.len() as int) =~= bs@);
    }
    s
}

/// Detect the format version from the signature, or report that none
/// matches.
fn detect_version(data: &[u8]) -> (r: Option<GpVersion>)
    ensures
        r == sp_version(data@),
{
    if data.len() < 7 {
        return None;
    }
    if data[0] == 71 && data[1] == 80 && data[2] == 67 && data[3] == 79 && data[4] == 82
        && data[5] == 69 {
        proof {
            assert(data@.subrange(0, 6) =~= signature_bytes());
        }
        let vb = data[6];
        if vb == 51 {
            Some(GpVersion::GP3)
        } else if vb == 52 {
            Some(GpVersion::GP4)
        } else if vb == 53 {
            Some(GpVersion::GP5)
        } else {
            None
        }
    } else {
        proof {
            if data@.subrange(0, 6) == signature_bytes() {
                assert(data@[0] == signature_bytes()[0]);
                assert(data@[1] == signature_bytes()[1]);
                assert(data@[2] == signature_bytes()[2]);
                assert(data@[3] == signature_bytes()[3]);
                assert(data@[4] == signature_bytes()[4]);
                assert(data@[5] == signature_bytes()[5]);
            }
        }
        None
    }
}

/// Read a plain length-prefixed string in the version's layout.
fn read_string(v: GpVersion, r: &mut ByteReader) -> (out: Result<String, DecodeError>)
    requires
        old(r).wf(),
    ensures
        final(r).wf(),
        final(r).data@ == old(r).data@,
        match sp_string(v, old(r).data@, old(r).pos as int) {
            Ok(vp) => out matches Ok(s) && s@ == vp.0 && final(r).pos == vp.1,
            Err(e) => out matches Err(e2) && e2 == e,
        },
{
    let n: usize = match v {
        GpVersion::GP3 => match r.read_u8() {
            Ok(x) => x as usize,
            Err(e) => {
                return Err(e);
            },
        },
        GpVersion::GP4 => match r.read_u16_le() {
            Ok(x) => x as usize,
            Err(e) => {
                return Err(e);
            },
        },
        GpVersion::GP5 => match r.read_u32_le() {
            Ok(x) => x as usize,
            Err(e) => {
                return Err(e);
            },
        },
    };
    match r.read_bytes(n) {
        Ok(bs) => Ok(string_of_bytes(&bs)),
        Err(e) => Err(e),
    }
}

/// Read a padded-slot string: the text, then the unused remainder of the
/// slot, which is consumed to keep the cursor aligned.
fn read_padded_string(r: &mut ByteReader) -> (out: Result<String, DecodeError>)
    requires
        old(r).wf(),
    ensures
        final(r).wf(),
        final(r).data@ == old(r).data@,
        match sp_padded_string(old(r).data@, old(r).pos as int) {
            Ok(vp) => out matches Ok(s) && s@ == vp.0 && final(r).pos == vp.1,
            Err(e) => out matches Err(e2) && e2 == e,
        },
{
    let l: u8 = match r.read_u8() {
        Ok(x) => x,
        Err(e) => {
            return Err(e);
        },
    };
    let lc: usize = if (l as usize) <= 31 {
        l as usize
    } else {
        31
    };
    let ghost p1 = r.pos as int;
    let content = match r.read_bytes(lc) {
        Ok(bs) => bs,
        Err(e) => {
            return Err(e);
        },
    };
    match r.skip(31 - lc) {
        Ok(_u) => {},
        Err(e) => {
            return Err(e);
        },
    }
    proof {
        let b = old(r).data@;
        let full = b.subrange(p1, p1 + 31);
        assert(content@ =~= full.take(if l <= 31 { l as int } else { 31 }));
    }
    Ok(string_of_bytes(&content))
}

/// Read the header's title and artist in the version's layout.
fn read_metadata(v: GpVersion, r: &mut ByteReader) -> (out: Result<(String, String), DecodeError>)
    requires
        old(r).wf(),
    ensures
        final(r).wf(),
        final(r).data@ == old(r).data@,
        match sp_metadata(v, old(r).data@, old(r).pos as int) {
            Ok(vp) => out matches Ok(ta) && ta.0@ == vp.0.0 && ta.1@ == vp.0.1 && final(r).pos
                == vp.1,
            Err(e) => out matches Err(e2) && e2 == e,
        },
{
    match v {
        GpVersion::GP3 => {
            let title = match read_padded_string(r) {
                Ok(s) => s,
                Err(e) => {
                    return Err(e);
                },
            };
            let artist = match read_padded_string(r) {
                Ok(s) => s,
                Err(e) => {
                    return Err(e);
                },
            };
            Ok((title, artist))
        },
        GpVersion::GP4 => {
            let title = match read_string(v, r) {
                Ok(s) => s,
                Err(e) => {
                    return Err(e);
                },
            };
            let artist = match read_string(v, r) {
                Ok(s) => s,
                Err(e) => {
                    return Err(e);
                },
            };
            let _album = match read_string(v, r) {
                Ok(s) => s,
                Err(e) => {
                    return Err(e);
                },
            };
            Ok((title, artist))
        },
        GpVersion::GP5 => {
            let title = match read_string(v, r) {
                Ok(s) => s,
                Err(e) => {
                    return Err(e);
                },
            };
            let artist = match read_string(v, r) {
                Ok(s) => s,
                Err(e) => {
                    return Err(e);
                },
            };
            Ok((title, artist))
        },
    }
}

/// Read the tempo field in the version's layout.
fn read_tempo(v: GpVersion, r: &mut ByteReader) -> (out: Result<u32, DecodeError>)
    requires
        old(r).wf(),
    ensures
        final(r).wf(),
        final(r).data@ == old(r).data@,
        match sp_tempo(v, old(r).data@, old(r).pos as int) {
            Ok(vp) => out matches Ok(t) && t == vp.0 && final(r).pos == vp.1,
            Err(e) => out matches Err(e2) && e2 == e,
        },
{
    match v {
        GpVersion::GP3 => match r.read_u16_le() {
            Ok(x) => Ok(x as u32),
            Err(e) => Err(e),
        },
        _ => r.read_u32_le(),
    }
}

/// Read one beat: duration, note mask, then one note block per set mask bit
/// that names a valid string.
#[verifier::loop_isolation(false)]
#[verifier::rlimit(60)]
fn read_beat(v: GpVersion, r: &mut ByteReader, strings: u8) -> (out: Result<Beat, DecodeError>)
    requires
        old(r).wf(),
    ensures
        final(r).wf(),
        final(r).data@ == old(r).data@,
        match sp_beat(v, old(r).data@, old(r).pos as int, strings as int) {
            Ok(vp) => out matches Ok(bt) && bt@ == vp.0 && final(r).pos == vp.1,
            Err(e) => out matches Err(e2) && e2 == e,
        },
{
    let ghost b = old(r).data@;
    let duration = match r.read_u8() {
        Ok(x) => x,
        Err(e) => {
            return Err(e);
        },
    };
    let mask = match r.read_u8() {
        Ok(x) => x,
        Err(e) => {
            return Err(e);
        },
    };
    let ghost p2 = r.pos as int;
    let mut notes: Vec<Note> = Vec::new();
    let mut i: u8 = 0;
    while i < 8
        invariant
            r.wf(),
            r.data@ == b,
            i <= 8,
            sp_notes(v, b, p2, mask, strings as int, 0) == (match sp_notes(
                v,
                b,
                r.pos as int,
                mask,
                strings as int,
                i,
            ) {
                Ok(vp) => Ok::<(Seq<NoteV>, int), DecodeError>(
                    (notes@.map_values(|n: Note| n@) + vp.0, vp.1),
                ),
                Err(e) => Err::<(Seq<NoteV>, int), DecodeError>(e),
            }),
        decreases 8 - i,
    {
        if ((mask >> i) & 1) == 1 && i < strings {
            let ghost notes0 = notes@;
            let fret = match r.read_u8() {
                Ok(x) => x,
                Err(e) => {
                    return Err(e);
                },
            };
            let effects: u16 = match v {
                GpVersion::GP5 => match r.read_u16_le() {
                    Ok(x) => x,
                    Err(e) => {
                        return Err(e);
                    },
                },
                _ => match r.read_u8() {
                    Ok(x) => x as u16,
                    Err(e) => {
                        return Err(e);
                    },
                },
            };
            let note = Note { string: i, fret, effects };
            notes.push(note);
            proof {
                let f = |n: Note| n@;
                match sp_notes(v, b, r.pos as int, mask, strings as int, (i + 1) as u8) {
                    Ok(vp) => {
                        assert(notes@.map_values(f) =~= notes0.map_values(f).push(note@));
                        assert(notes0.map_values(f) + (seq![note@] + vp.0) =~= notes@.map_values(f)
                            + vp.0);
                    },
                    Err(_e) => {},
                }
            }
        }
        i = i + 1;
    }
    proof {
        let f = |n: Note| n@;
        assert(notes@.map_values(f) + Seq::<NoteV>::empty() =~= notes@.map_values(f));
    }
    Ok(Beat { duration, notes })
}

/// Read one measure: time signature, beat count, then the beats.
#[verifier::loop_isolation(false)]
#[verifier::rlimit(60)]
fn read_measure(v: GpVersion, r: &mut ByteReader, strings: u8) -> (out: Result<
    Measure,
    DecodeError,
>)
    requires
        old(r).wf(),
    ensures
        final(r).wf(),
        final(r).data@ == old(r).data@,
        match sp_measure(v, old(r).data@, old(r).pos as int, strings as int) {
            Ok(vp) => out matches Ok(m) && m@ == vp.0 && final(r).pos == vp.1,
            Err(e) => out matches Err(e2) && e2 == e,
        },
{
    let ghost b = old(r).data@;
    let numerator = match r.read_u8() {
        Ok(x) => x,
        Err(e) => {
            return Err(e);
        },
    };
    let denominator = match r.read_u8() {
        Ok(x) => x,
        Err(e) => {
            return Err(e);
        },
    };
    let bc = match r.read_u8() {
        Ok(x) => x,
        Err(e) => {
            return Err(e);
        },
    };
    let ghost p3 = r.pos as int;
    let mut beats: Vec<Beat> = Vec::new();
    let mut k: u8 = 0;
    while k < bc
        invariant
            r.wf(),
            r.data@ == b,
            k <= bc,
            sp_beats(v, b, p3, strings as int, bc as int) == (match sp_beats(
                v,
                b,
                r.pos as int,
                strings as int,
                bc as int - k as int,
            ) {
                Ok(vp) => Ok::<(Seq<BeatV>, int), DecodeError>(
                    (beats@.map_values(|x: Beat| x@) + vp.0, vp.1),
                ),
                Err(e) => Err::<(Seq<BeatV>, int), DecodeError>(e),
            }),
        decreases bc - k,
    {
        let ghost beats0 = beats@;
        let bt = match read_beat(v, r, strings) {
            Ok(x) => x,
            Err(e) => {
                return Err(e);
            },
        };
        beats.push(bt);
        proof {
            let f = |x: Beat| x@;
            match sp_beats(v, b, r.pos as int, strings as int, bc as int - k as int - 1) {
                Ok(vp) => {
                    assert(beats@.map_values(f) =~= beats0.map_values(f).push(bt@));
                    assert(beats0.map_values(f) + (seq![bt@] + vp.0) =~= beats@.map_values(f)
                        + vp.0);
                },
                Err(_e) => {},
            }
        }
        k = k + 1;
    }
    proof {
        let f = |x: Beat| x@;
        assert(beats@.map_values(f) + Seq::<BeatV>::empty() =~= beats@.map_values(f));
    }
    Ok(Measure { numerator, denominator, beats })
}

/// Read one track: name, tuning, the measure count the version's convention
/// gives it, then the measures.
#[verifier::loop_isolation(false)]
#[verifier::rlimit(60)]
fn read_track(v: GpVersion, r: &mut ByteReader, shared: Option<u16>) -> (out: Result<
    Track,
    DecodeError,
>)
    requires
        old(r).wf(),
    ensures
        final(r).wf(),
        final(r).data@ == old(r).data@,
        match sp_track(v, old(r).data@, old(r).pos as int, shared) {
            Ok(vp) => out matches Ok(t) && t@ == vp.0 && final(r).pos == vp.1,
            Err(e) => out matches Err(e2) && e2 == e,
        },
{
    let ghost b = old(r).data@;
    let name = match read_string(v, r) {
        Ok(x) => x,
        Err(e) => {
            return Err(e);
        },
    };
    let sc = match r.read_u8() {
        Ok(x) => x,
        Err(e) => {
            return Err(e);
        },
    };
    let tuning = match r.read_bytes(sc as usize) {
        Ok(x) => x,
        Err(e) => {
            return Err(e);
        },
    };
    let mc: u16 = match shared {
        Some(c) => c,
        None => match r.read_u16_le() {
            Ok(x) => x,
            Err(e) => {
                return Err(e);
            },
        },
    };
    let ghost p4 = r.pos as int;
    let mut measures: Vec<Measure> = Vec::new();
    let mut k: u16 = 0;
    while k < mc
        invariant
            r.wf(),
            r.data@ == b,
            k <= mc,
            sp_measures(v, b, p4, sc as int, mc as int) == (match sp_measures(
                v,
                b,
                r.pos as int,
                sc as int,
                mc as int - k as int,
            ) {
                Ok(vp) => Ok::<(Seq<MeasureV>, int), DecodeError>(
                    (measures@.map_values(|x: Measure| x@) + vp.0, vp.1),
                ),
                Err(e) => Err::<(Seq<MeasureV>, int), DecodeError>(e),
            }),
        decreases mc - k,
    {
        let ghost measures0 = measures@;
        let m = match read_measure(v, r, sc) {
            Ok(x) => x,
            Err(e) => {
                return Err(e);
            },
        };
        measures.push(m);
        proof {
            let f = |x: Measure| x@;
            match sp_measures(v, b, r.pos as int, sc as int, mc as int - k as int - 1) {
                Ok(vp) => {
                    assert(measures@.map_values(f) =~= measures0.map_values(f).push(m@));
                    assert(measures0.map_values(f) + (seq![m@] + vp.0) =~= measures@.map_values(f)
                        + vp.0);
                },
                Err(_e) => {},
            }
        }
        k = k + 1;
    }
    proof {
        let f = |x: Measure| x@;
        assert(measures@.map_values(f) + Seq::<MeasureV>::empty() =~= measures@.map_values(f));
    }
    Ok(Track { name, tuning, measures })
}

/// Decode one file. The result is exactly what the mathematical parser
/// `sp_song` gives for these bytes: either a fully decoded song or the first
/// error, never a partial song. A decoded song always satisfies `song_wf`.
#[verifier::loop_isolation(false)]
#[verifier::rlimit(60)]
pub fn parse_gp_data(data: &[u8]) -> (r: Result<Song, DecodeError>)
    ensures
        match sp_song(data@) {
            Ok(sv) => r matches Ok(song) && song@ == sv,
            Err(e) => r matches Err(e2) && e2 == e,
        },
        r matches Ok(song) ==> song_wf(song@),
{
    let ghost b = data@;
    let v = match detect_version(data) {
        Some(v) => v,
        None => {
            return Err(DecodeError::UnsupportedVersion);
        },
    };
    let mut rd = ByteReader::new(data);
    match rd.skip(7) {
        Ok(_u) => {},
        Err(e) => {
            return Err(e);
        },
    }
    let (title, artist) = match read_metadata(v, &mut rd) {
        Ok(x) => x,
        Err(e) => {
            return Err(e);
        },
    };
    let tempo = match read_tempo(v, &mut rd) {
        Ok(x) => x,
        Err(e) => {
            return Err(e);
        },
    };
    if tempo == 0 {
        return Err(DecodeError::InvalidTempo);
    }
    let tc = match rd.read_u8() {
        Ok(x) => x,
        Err(e) => {
            return Err(e);
        },
    };
    if tc == 0 {
        return Err(DecodeError::EmptyScore);
    }
    let shared: Option<u16> = match v {
        GpVersion::GP3 => match rd.read_u8() {
            Ok(c) => Some(c as u16),
            Err(e) => {
                return Err(e);
            },
        },
        GpVersion::GP4 => match rd.read_u16_le() {
            Ok(c) => Some(c),
            Err(e) => {
                return Err(e);
            },
        },
        GpVersion::GP5 => None,
    };
    let ghost p4 = rd.pos as int;
    let mut tracks: Vec<Track> = Vec::new();
    let mut k: u8 = 0;
    while k < tc
        invariant
            rd.wf(),
            rd.data@ == b,
            k <= tc,
            sp_tracks(v, b, p4, shared, tc as int) == (match sp_tracks(
                v,
                b,
                rd.pos as int,
                shared,
                tc as int - k as int,
            ) {
                Ok(vp) => Ok::<(Seq<TrackV>, int), DecodeError>(
                    (tracks@.map_values(|x: Track| x@) + vp.0, vp.1),
                ),
                Err(e) => Err::<(Seq<TrackV>, int), DecodeError>(e),
            }),
        decreases tc - k,
    {
        let ghost tracks0 = tracks@;
        let t = match read_track(v, &mut rd, shared) {
            Ok(x) => x,
            Err(e) => {
                return Err(e);
            },
        };
        tracks.push(t);
        proof {
            let f = |x: Track| x@;
            match sp_tracks(v, b, rd.pos as int, shared, tc as int - k as int - 1) {
                Ok(vp) => {
                    assert(tracks@.map_values(f) =~= tracks0.map_values(f).push(t@));
                    assert(tracks0.map_values(f) + (seq![t@] + vp.0) =~= tracks@.map_values(f)
                        + vp.0);
                },
                Err(_e) => {},
            }
        }
        k = k + 1;
    }
    let song = Song { song_info: SongInfo { name: title, artist }, version: v, tempo: Tempo {
        value: tempo,
    }, tracks };
    proof {
        let f = |x: Track| x@;
        assert(tracks@.map_values(f) + Seq::<TrackV>::empty() =~= tracks@.map_values(f));
        match sp_song(b) {
            Ok(sv) => {
                assert(song@ =~= sv);
            },
            Err(_e) => {},
        }
        lemma_sp_song_wf(b);
    }
    Ok(song)
}

// ---------------------------------------------------------------------------
// Well-formedness of everything the mathematical parser accepts.
// ---------------------------------------------------------------------------

/// Every note the mask walk yields is on a string below `strings`.
proof fn lemma_sp_notes_wf(v: GpVersion, b: Seq<u8>, p: int, mask: u8, strings: int, i: u8)
    requires
        sp_notes(v, b, p, mask, strings, i) is Ok,
    ensures
        forall|k: int|
            0 <= k < sp_notes(v, b, p, mask, strings, i)->Ok_0.0.len() ==> (#[trigger] sp_notes(
                v,
                b,
                p,
                mask,
                strings,
                i,
            )->Ok_0.0[k]).string < strings,
    decreases 8 - i,
{
    if i >= 8 {
    } else if mask_bit(mask, i) && (i as int) < strings {
        match sp_note(v, b, p, i) {
            Ok((n, p1)) => {
                lemma_sp_notes_wf(v, b, p1, mask, strings, (i + 1) as u8);
            },
            Err(_e) => {},
        }
    } else {
        lemma_sp_notes_wf(v, b, p, mask, strings, (i + 1) as u8);
    }
}

/// Law (structural round trip): a beat list declared `count` long parses to
/// exactly `count` beats, every one well formed.
pub proof fn lemma_sp_beats_wf(v: GpVersion, b: Seq<u8>, p: int, strings: int, count: int)
    requires
        sp_beats(v, b, p, strings, count) is Ok,
        strings >= 0,
    ensures
        sp_beats(v, b, p, strings, count)->Ok_0.0.len() == (if count <= 0 {
            0
        } else {
            count
        }),
        forall|k: int|
            0 <= k < sp_beats(v, b, p, strings, count)->Ok_0.0.len() ==> beat_wf(
                #[trigger] sp_beats(v, b, p, strings, count)->Ok_0.0[k],
                strings as nat,
            ),
    decreases count,
{
    if count <= 0 {
    } else {
        match sp_beat(v, b, p, strings) {
            Ok((bt, p1)) => {
                match sp_u8(b, p) {
                    Ok((_d, pa)) => match sp_u8(b, pa) {
                        Ok((mask, pb)) => {
                            lemma_sp_notes_wf(v, b, pb, mask, strings, 0);
                        },
                        Err(_e) => {},
                    },
                    Err(_e) => {},
                }
                lemma_sp_beats_wf(v, b, p1, strings, count - 1);
            },
            Err(_e) => {},
        }
    }
}

/// Law (structural round trip): a measure list declared `count` long parses
/// to exactly `count` measures, every one well formed.
pub proof fn lemma_sp_measures_wf(v: GpVersion, b: Seq<u8>, p: int, strings: int, count: int)
    requires
        sp_measures(v, b, p, strings, count) is Ok,
        strings >= 0,
    ensures
        sp_measures(v, b, p, strings, count)->Ok_0.0.len() == (if count <= 0 {
            0
        } else {
            count
        }),
        forall|k: int|
            0 <= k < sp_measures(v, b, p, strings, count)->Ok_0.0.len() ==> measure_wf(
                #[trigger] sp_measures(v, b, p, strings, count)->Ok_0.0[k],
                strings as nat,
            ),
    decreases count,
{
    if count <= 0 {
    } else {
        match sp_measure(v, b, p, strings) {
            Ok((m, p1)) => {
                match sp_u8(b, p) {
                    Ok((_n, pa)) => match sp_u8(b, pa) {
                        Ok((_d, pb)) => match sp_u8(b, pb) {
                            Ok((bc, pc)) => {
                                lemma_sp_beats_wf(v, b, pc, strings, bc as int);
                            },
                            Err(_e) => {},
                        },
                        Err(_e) => {},
                    },
                    Err(_e) => {},
                }
                lemma_sp_measures_wf(v, b, p1, strings, count - 1);
            },
            Err(_e) => {},
        }
    }
}

/// Law (structural round trip): a track list declared `count` long parses to
/// exactly `count` tracks, every one well formed (its tuning as long as its
/// declared string count, its notes on declared strings only).
pub proof fn lemma_sp_tracks_wf(v: GpVersion, b: Seq<u8>, p: int, shared: Option<u16>, count: int)
    requires
        sp_tracks(v, b, p, shared, count) is Ok,
    ensures
        sp_tracks(v, b, p, shared, count)->Ok_0.0.len() == (if count <= 0 {
            0
        } else {
            count
        }),
        forall|k: int|
            0 <= k < sp_tracks(v, b, p, shared, count)->Ok_0.0.len() ==> track_wf(
                #[trigger] sp_tracks(v, b, p, shared, count)->Ok_0.0[k],
            ),
    decreases count,
{
    if count <= 0 {
    } else {
        match sp_track(v, b, p, shared) {
            Ok((t, p1)) => {
                match sp_string(v, b, p) {
                    Ok((_name, pa)) => match sp_u8(b, pa) {
                        Ok((sc, pb)) => match sp_bytes(b, pb, sc as int) {
                            Ok((_tuning, pc)) => {
                                let mcr = match shared {
                                    Some(c) => Ok::<(u16, int), DecodeError>((c, pc)),
                                    None => sp_u16(b, pc),
                                };
                                match mcr {
                                    Ok((mc, pd)) => {
                                        lemma_sp_measures_wf(v, b, pd, sc as int, mc as int);
                                        assert(track_wf(t));
                                    },
                                    Err(_e) => {},
                                }
                            },
                            Err(_e) => {},
                        },
                        Err(_e) => {},
                    },
                    Err(_e) => {},
                }
                lemma_sp_tracks_wf(v, b, p1, shared, count - 1);
            },
            Err(_e) => {},
        }
    }
}

/// Whatever the mathematical parser accepts satisfies the song invariant:
/// positive tempo, at least one track, and only in-range string indices.
pub proof fn lemma_sp_song_wf(b: Seq<u8>)
    requires
        sp_song(b) is Ok,
    ensures
        song_wf(sp_song(b)->Ok_0),
{
    match sp_version(b) {
        None => {},
        Some(v) => {
            match sp_metadata(v, b, 7) {
                Err(_e) => {},
                Ok(((_title, _artist), p1)) => {
                    match sp_tempo(v, b, p1) {
                        Err(_e) => {},
                        Ok((tempo, p2)) => {
                            if tempo == 0 {
                            } else {
                                match sp_u8(b, p2) {
                                    Err(_e) => {},
                                    Ok((tc, p3)) => {
                                        if tc == 0 {
                                        } else {
                                            match sp_shared_mcount(v, b, p3) {
                                                Err(_e) => {},
                                                Ok((mc, p4)) => {
                                                    lemma_sp_tracks_wf(v, b, p4, mc, tc as int);
                                                },
                                            }
                                        }
                                    },
                                }
                            }
                        },
                    }
                },
            }
        },
    }
}

// ---------------------------------------------------------------------------
// Truncation: cutting the input inside a declared block turns the parse into
// `UnexpectedEndOfData`, and a cut beyond every block changes nothing.
// ---------------------------------------------------------------------------

proof fn lemma_take_subrange(b: Seq<u8>, j: int, x: int, y: int)
    requires
        0 <= x <= y <= j <= b.len(),
    ensures
        b.take(j).subrange(x, y) == b.subrange(x, y),
{
    assert(b.take(j).subrange(x, y) =~= b.subrange(x, y));
}

proof fn lemma_trunc_u8(b: Seq<u8>, p: int, j: int)
    requires
        0 <= p <= j <= b.len(),
    ensures
        p + 1 <= j ==> sp_u8(b.take(j), p) == sp_u8(b, p),
        p + 1 > j ==> sp_u8(b.take(j), p) == Err::<(u8, int), DecodeError>(
            DecodeError::UnexpectedEndOfData,
        ),
{
    if p + 1 <= j {
        assert(b.take(j)[p] == b[p]);
    }
}

proof fn lemma_trunc_u16(b: Seq<u8>, p: int, j: int)
    requires
        0 <= p <= j <= b.len(),
    ensures
        p + 2 <= j ==> sp_u16(b.take(j), p) == sp_u16(b, p),
        p + 2 > j ==> sp_u16(b.take(j), p) == Err::<(u16, int), DecodeError>(
            DecodeError::UnexpectedEndOfData,
        ),
{
    if p + 2 <= j {
        assert(b.take(j)[p] == b[p]);
        assert(b.take(j)[p + 1] == b[p + 1]);
    }
}

proof fn lemma_trunc_u32(b: Seq<u8>, p: int, j: int)
    requires
        0 <= p <= j <= b.len(),
    ensures
        p + 4 <= j ==> sp_u32(b.take(j), p) == sp_u32(b, p),
        p + 4 > j ==> sp_u32(b.take(j), p) == Err::<(u32, int), DecodeError>(
            DecodeError::UnexpectedEndOfData,
        ),
{
    if p + 4 <= j {
        assert(b.take(j)[p] == b[p]);
        assert(b.take(j)[p + 1] == b[p + 1]);
        assert(b.take(j)[p + 2] == b[p + 2]);
        assert(b.take(j)[p + 3] == b[p + 3]);
    }
}

proof fn lemma_trunc_bytes(b: Seq<u8>, p: int, n: int, j: int)
    requires
        0 <= p <= j <= b.len(),
        0 <= n,
    ensures
        p + n <= j ==> sp_bytes(b.take(j), p, n) == sp_bytes(b, p, n),
        p + n > j ==> sp_bytes(b.take(j), p, n) == Err::<(Seq<u8>, int), DecodeError>(
            DecodeError::UnexpectedEndOfData,
        ),
{
    if p + n <= j {
        lemma_take_subrange(b, j, p, p + n);
    }
}

proof fn lemma_trunc_string(v: GpVersion, b: Seq<u8>, p: int, j: int)
    requires
        sp_string(v, b, p) is Ok,
        0 <= p <= j <= b.len(),
    ensures
        p <= sp_string(v, b, p)->Ok_0.1,
        sp_string(v, b, p)->Ok_0.1 <= j ==> sp_string(v, b.take(j), p) == sp_string(v, b, p),
        sp_string(v, b, p)->Ok_0.1 > j ==> sp_string(v, b.take(j), p) == Err::<
            (Seq<char>, int),
            DecodeError,
        >(DecodeError::UnexpectedEndOfData),
{
    match v {
        GpVersion::GP3 => {
            lemma_trunc_u8(b, p, j);
            if p + 1 <= j {
                lemma_trunc_bytes(b, p + 1, b[p] as int, j);
            }
        },
        GpVersion::GP4 => {
            lemma_trunc_u16(b, p, j);
            if p + 2 <= j {
                lemma_trunc_bytes(b, p + 2, sp_u16(b, p)->Ok_0.0 as int, j);
            }
        },
        GpVersion::GP5 => {
            lemma_trunc_u32(b, p, j);
            if p + 4 <= j {
                lemma_trunc_bytes(b, p + 4, sp_u32(b, p)->Ok_0.0 as int, j);
            }
        },
    }
}

proof fn lemma_trunc_padded_string(b: Seq<u8>, p: int, j: int)
    requires
        sp_padded_string(b, p) is Ok,
        0 <= p <= j <= b.len(),
    ensures
        p <= sp_padded_string(b, p)->Ok_0.1,
        sp_padded_string(b, p)->Ok_0.1 <= j ==> sp_padded_string(b.take(j), p)
            == sp_padded_string(b, p),
        sp_padded_string(b, p)->Ok_0.1 > j ==> sp_padded_string(b.take(j), p) == Err::<
            (Seq<char>, int),
            DecodeError,
        >(DecodeError::UnexpectedEndOfData),
{
    lemma_trunc_u8(b, p, j);
    if p + 1 <= j {
        lemma_trunc_bytes(b, p + 1, 31, j);
    }
}

proof fn lemma_trunc_metadata(v: GpVersion, b: Seq<u8>, p: int, j: int)
    requires
        sp_metadata(v, b, p) is Ok,
        0 <= p <= j <= b.len(),
    ensures
        p <= sp_metadata(v, b, p)->Ok_0.1,
        sp_metadata(v, b, p)->Ok_0.1 <= j ==> sp_metadata(v, b.take(j), p) == sp_metadata(v, b, p),
        sp_metadata(v, b, p)->Ok_0.1 > j ==> sp_metadata(v, b.take(j), p) == Err::<
            ((Seq<char>, Seq<char>), int),
            DecodeError,
        >(DecodeError::UnexpectedEndOfData),
{
    match v {
        GpVersion::GP3 => {
            lemma_trunc_padded_string(b, p, j);
            let p1 = sp_padded_string(b, p)->Ok_0.1;
            if p1 <= j {
                lemma_trunc_padded_string(b, p1, j);
            }
        },
        GpVersion::GP4 => {
            lemma_trunc_string(v, b, p, j);
            let p1 = sp_string(v, b, p)->Ok_0.1;
            if p1 <= j {
                lemma_trunc_string(v, b, p1, j);
                let p2 = sp_string(v, b, p1)->Ok_0.1;
                if p2 <= j {
                    lemma_trunc_string(v, b, p2, j);
                }
            }
        },
        GpVersion::GP5 => {
            lemma_trunc_string(v, b, p, j);
            let p1 = sp_string(v, b, p)->Ok_0.1;
            if p1 <= j {
                lemma_trunc_string(v, b, p1, j);
            }
        },
    }
}

proof fn lemma_trunc_tempo(v: GpVersion, b: Seq<u8>, p: int, j: int)
    requires
        sp_tempo(v, b, p) is Ok,
        0 <= p <= j <= b.len(),
    ensures
        p <= sp_tempo(v, b, p)->Ok_0.1,
        sp_tempo(v, b, p)->Ok_0.1 <= j ==> sp_tempo(v, b.take(j), p) == sp_tempo(v, b, p),
        sp_tempo(v, b, p)->Ok_0.1 > j ==> sp_tempo(v, b.take(j), p) == Err::<
            (u32, int),
            DecodeError,
        >(DecodeError::UnexpectedEndOfData),
{
    match v {
        GpVersion::GP3 => lemma_trunc_u16(b, p, j),
        _ => lemma_trunc_u32(b, p, j),
    }
}

proof fn lemma_trunc_note(v: GpVersion, b: Seq<u8>, p: int, si: u8, j: int)
    requires
        sp_note(v, b, p, si) is Ok,
        0 <= p <= j <= b.len(),
    ensures
        p <= sp_note(v, b, p, si)->Ok_0.1,
        sp_note(v, b, p, si)->Ok_0.1 <= j ==> sp_note(v, b.take(j), p, si) == sp_note(v, b, p, si),
        sp_note(v, b, p, si)->Ok_0.1 > j ==> sp_note(v, b.take(j), p, si) == Err::<
            (NoteV, int),
            DecodeError,
        >(DecodeError::UnexpectedEndOfData),
{
    lemma_trunc_u8(b, p, j);
    if p + 1 <= j {
        match v {
            GpVersion::GP5 => lemma_trunc_u16(b, p + 1, j),
            _ => lemma_trunc_u8(b, p + 1, j),
        }
    }
}

proof fn lemma_end_notes(v: GpVersion, b: Seq<u8>, p: int, mask: u8, strings: int, i: u8)
    requires
        sp_notes(v, b, p, mask, strings, i) is Ok,
    ensures
        p <= sp_notes(v, b, p, mask, strings, i)->Ok_0.1,
    decreases 8 - i,
{
    if i >= 8 {
    } else if mask_bit(mask, i) && (i as int) < strings {
        lemma_end_notes(v, b, sp_note(v, b, p, i)->Ok_0.1, mask, strings, (i + 1) as u8);
    } else {
        lemma_end_notes(v, b, p, mask, strings, (i + 1) as u8);
    }
}

proof fn lemma_end_beats(v: GpVersion, b: Seq<u8>, p: int, strings: int, count: int)
    requires
        sp_beats(v, b, p, strings, count) is Ok,
    ensures
        p <= sp_beats(v, b, p, strings, count)->Ok_0.1,
    decreases count,
{
    if count <= 0 {
    } else {
        let e1 = sp_beat(v, b, p, strings)->Ok_0.1;
        lemma_end_notes(v, b, p + 2, sp_u8(b, p + 1)->Ok_0.0, strings, 0);
        lemma_end_beats(v, b, e1, strings, count - 1);
    }
}

proof fn lemma_end_measures(v: GpVersion, b: Seq<u8>, p: int, strings: int, count: int)
    requires
        sp_measures(v, b, p, strings, count) is Ok,
    ensures
        p <= sp_measures(v, b, p, strings, count)->Ok_0.1,
    decreases count,
{
    if count <= 0 {
    } else {
        let e1 = sp_measure(v, b, p, strings)->Ok_0.1;
        lemma_end_beats(v, b, p + 3, strings, sp_u8(b, p + 2)->Ok_0.0 as int);
        lemma_end_measures(v, b, e1, strings, count - 1);
    }
}

proof fn lemma_end_track(v: GpVersion, b: Seq<u8>, p: int, shared: Option<u16>)
    requires
        sp_track(v, b, p, shared) is Ok,
    ensures
        p <= sp_track(v, b, p, shared)->Ok_0.1,
{
    let p1 = sp_string(v, b, p)->Ok_0.1;
    let sc = sp_u8(b, p1)->Ok_0.0;
    let p3 = p1 + 1 + sc as int;
    match shared {
        Some(c) => {
            lemma_end_measures(v, b, p3, sc as int, c as int);
        },
        None => {
            lemma_end_measures(v, b, p3 + 2, sc as int, sp_u16(b, p3)->Ok_0.0 as int);
        },
    }
}

proof fn lemma_end_tracks(v: GpVersion, b: Seq<u8>, p: int, shared: Option<u16>, count: int)
    requires
        sp_tracks(v, b, p, shared, count) is Ok,
    ensures
        p <= sp_tracks(v, b, p, shared, count)->Ok_0.1,
    decreases count,
{
    if count <= 0 {
    } else {
        let e1 = sp_track(v, b, p, shared)->Ok_0.1;
        lemma_end_track(v, b, p, shared);
        lemma_end_tracks(v, b, e1, shared, count - 1);
    }
}

proof fn lemma_trunc_notes(v: GpVersion, b: Seq<u8>, p: int, mask: u8, strings: int, i: u8, j: int)
    requires
        sp_notes(v, b, p, mask, strings, i) is Ok,
        0 <= p <= j <= b.len(),
    ensures
        p <= sp_notes(v, b, p, mask, strings, i)->Ok_0.1,
        sp_notes(v, b, p, mask, strings, i)->Ok_0.1 <= j ==> sp_notes(
            v, b.take(j), p, mask, strings, i,
        ) == sp_notes(v, b, p, mask, strings, i),
        sp_notes(v, b, p, mask, strings, i)->Ok_0.1 > j ==> sp_notes(
            v, b.take(j), p, mask, strings, i,
        ) == Err::<(Seq<NoteV>, int), DecodeError>(DecodeError::UnexpectedEndOfData),
    decreases 8 - i,
{
    if i >= 8 {
    } else if mask_bit(mask, i) && (i as int) < strings {
        lemma_trunc_note(v, b, p, i, j);
        let e1 = sp_note(v, b, p, i)->Ok_0.1;
        lemma_end_notes(v, b, e1, mask, strings, (i + 1) as u8);
        if e1 <= j {
            lemma_trunc_notes(v, b, e1, mask, strings, (i + 1) as u8, j);
        }
    } else {
        lemma_trunc_notes(v, b, p, mask, strings, (i + 1) as u8, j);
    }
}

proof fn lemma_trunc_beat(v: GpVersion, b: Seq<u8>, p: int, strings: int, j: int)
    requires
        sp_beat(v, b, p, strings) is Ok,
        0 <= p <= j <= b.len(),
    ensures
        p <= sp_beat(v, b, p, strings)->Ok_0.1,
        sp_beat(v, b, p, strings)->Ok_0.1 <= j ==> sp_beat(v, b.take(j), p, strings) == sp_beat(
            v, b, p, strings,
        ),
        sp_beat(v, b, p, strings)->Ok_0.1 > j ==> sp_beat(v, b.take(j), p, strings) == Err::<
            (BeatV, int),
            DecodeError,
        >(DecodeError::UnexpectedEndOfData),
{
    lemma_trunc_u8(b, p, j);
    lemma_end_notes(v, b, p + 2, sp_u8(b, p + 1)->Ok_0.0, strings, 0);
    if p + 1 <= j {
        lemma_trunc_u8(b, p + 1, j);
        if p + 2 <= j {
            let mask = sp_u8(b, p + 1)->Ok_0.0;
            lemma_trunc_notes(v, b, p + 2, mask, strings, 0, j);
        }
    }
}

proof fn lemma_trunc_beats(v: GpVersion, b: Seq<u8>, p: int, strings: int, count: int, j: int)
    requires
        sp_beats(v, b, p, strings, count) is Ok,
        0 <= p <= j <= b.len(),
    ensures
        p <= sp_beats(v, b, p, strings, count)->Ok_0.1,
        sp_beats(v, b, p, strings, count)->Ok_0.1 <= j ==> sp_beats(
            v, b.take(j), p, strings, count,
        ) == sp_beats(v, b, p, strings, count),
        sp_beats(v, b, p, strings, count)->Ok_0.1 > j ==> sp_beats(
            v, b.take(j), p, strings, count,
        ) == Err::<(Seq<BeatV>, int), DecodeError>(DecodeError::UnexpectedEndOfData),
    decreases count,
{
    if count <= 0 {
    } else {
        lemma_trunc_beat(v, b, p, strings, j);
        let e1 = sp_beat(v, b, p, strings)->Ok_0.1;
        lemma_end_beats(v, b, e1, strings, count - 1);
        if e1 <= j {
            lemma_trunc_beats(v, b, e1, strings, count - 1, j);
        }
    }
}

proof fn lemma_trunc_measure(v: GpVersion, b: Seq<u8>, p: int, strings: int, j: int)
    requires
        sp_measure(v, b, p, strings) is Ok,
        0 <= p <= j <= b.len(),
    ensures
        p <= sp_measure(v, b, p, strings)->Ok_0.1,
        sp_measure(v, b, p, strings)->Ok_0.1 <= j ==> sp_measure(v, b.take(j), p, strings)
            == sp_measure(v, b, p, strings),
        sp_measure(v, b, p, strings)->Ok_0.1 > j ==> sp_measure(v, b.take(j), p, strings) == Err::<
            (MeasureV, int),
            DecodeError,
        >(DecodeError::UnexpectedEndOfData),
{
    lemma_trunc_u8(b, p, j);
    if p + 1 <= j {
        lemma_trunc_u8(b, p + 1, j);
        if p + 2 <= j {
            lemma_trunc_u8(b, p + 2, j);
            if p + 3 <= j {
                let bc = sp_u8(b, p + 2)->Ok_0.0;
                lemma_trunc_beats(v, b, p + 3, strings, bc as int, j);
            }
        }
    }
    lemma_end_beats(v, b, p + 3, strings, sp_u8(b, p + 2)->Ok_0.0 as int);
}

proof fn lemma_trunc_measures(v: GpVersion, b: Seq<u8>, p: int, strings: int, count: int, j: int)
    requires
        sp_measures(v, b, p, strings, count) is Ok,
        0 <= p <= j <= b.len(),
    ensures
        p <= sp_measures(v, b, p, strings, count)->Ok_0.1,
        sp_measures(v, b, p, strings, count)->Ok_0.1 <= j ==> sp_measures(
            v, b.take(j), p, strings, count,
        ) == sp_measures(v, b, p, strings, count),
        sp_measures(v, b, p, strings, count)->Ok_0.1 > j ==> sp_measures(
            v, b.take(j), p, strings, count,
        ) == Err::<(Seq<MeasureV>, int), DecodeError>(DecodeError::UnexpectedEndOfData),
    decreases count,
{
    if count <= 0 {
    } else {
        lemma_trunc_measure(v, b, p, strings, j);
        let e1 = sp_measure(v, b, p, strings)->Ok_0.1;
        lemma_end_measures(v, b, e1, strings, count - 1);
        if e1 <= j {
            lemma_trunc_measures(v, b, e1, strings, count - 1, j);
        }
    }
}

proof fn lemma_trunc_track(v: GpVersion, b: Seq<u8>, p: int, shared: Option<u16>, j: int)
    requires
        sp_track(v, b, p, shared) is Ok,
        0 <= p <= j <= b.len(),
    ensures
        p <= sp_track(v, b, p, shared)->Ok_0.1,
        sp_track(v, b, p, shared)->Ok_0.1 <= j ==> sp_track(v, b.take(j), p, shared) == sp_track(
            v, b, p, shared,
        ),
        sp_track(v, b, p, shared)->Ok_0.1 > j ==> sp_track(v, b.take(j), p, shared) == Err::<
            (TrackV, int),
            DecodeError,
        >(DecodeError::UnexpectedEndOfData),
{
    lemma_trunc_string(v, b, p, j);
    let p1 = sp_string(v, b, p)->Ok_0.1;
    let sc0 = sp_u8(b, p1)->Ok_0.0;
    let p3g = p1 + 1 + sc0 as int;
    match shared {
        Some(c) => lemma_end_measures(v, b, p3g, sc0 as int, c as int),
        None => lemma_end_measures(v, b, p3g + 2, sc0 as int, sp_u16(b, p3g)->Ok_0.0 as int),
    }
    if p1 <= j {
        lemma_trunc_u8(b, p1, j);
        if p1 + 1 <= j {
            let sc = sp_u8(b, p1)->Ok_0.0;
            lemma_trunc_bytes(b, p1 + 1, sc as int, j);
            let p3 = p1 + 1 + sc as int;
            if p3 <= j {
                match shared {
                    Some(c) => {
                        lemma_trunc_measures(v, b, p3, sc as int, c as int, j);
                    },
                    None => {
                        lemma_trunc_u16(b, p3, j);
                        if p3 + 2 <= j {
                            let mc = sp_u16(b, p3)->Ok_0.0;
                            lemma_trunc_measures(v, b, p3 + 2, sc as int, mc as int, j);
                        }
                    },
                }
            }
        }
    }
}

proof fn lemma_trunc_tracks(
    v: GpVersion,
    b: Seq<u8>,
    p: int,
    shared: Option<u16>,
    count: int,
    j: int,
)
    requires
        sp_tracks(v, b, p, shared, count) is Ok,
        0 <= p <= j <= b.len(),
    ensures
        p <= sp_tracks(v, b, p, shared, count)->Ok_0.1,
        sp_tracks(v, b, p, shared, count)->Ok_0.1 <= j ==> sp_tracks(
            v, b.take(j), p, shared, count,
        ) == sp_tracks(v, b, p, shared, count),
        sp_tracks(v, b, p, shared, count)->Ok_0.1 > j ==> sp_tracks(
            v, b.take(j), p, shared, count,
        ) == Err::<(Seq<TrackV>, int), DecodeError>(DecodeError::UnexpectedEndOfData),
    decreases count,
{
    if count <= 0 {
    } else {
        lemma_trunc_track(v, b, p, shared, j);
        let e1 = sp_track(v, b, p, shared)->Ok_0.1;
        lemma_end_tracks(v, b, e1, shared, count - 1);
        if e1 <= j {
            lemma_trunc_tracks(v, b, e1, shared, count - 1, j);
        }
    }
}

/// Law: cutting a decodable buffer anywhere past the signature either leaves
/// every declared block intact — each read still completes, and the very same
/// song comes out — or cuts strictly inside some declared block, and then
/// decoding fails with exactly `UnexpectedEndOfData`: never another error and
/// never a partial song.
pub proof fn lemma_truncation_is_end_of_data(b: Seq<u8>, j: int)
    requires
        sp_song(b) is Ok,
        7 <= j <= b.len(),
    ensures
        sp_song(b.take(j)) == sp_song(b) || sp_song(b.take(j)) == Err::<SongV, DecodeError>(
            DecodeError::UnexpectedEndOfData,
        ),
{
    let bt = b.take(j);
    assert(bt.subrange(0, 6) =~= b.subrange(0, 6));
    assert(bt[6] == b[6]);
    match sp_version(b) {
        None => {},
        Some(v) => {
            assert(sp_version(bt) == Some(v));
            lemma_trunc_metadata(v, b, 7, j);
            let p1 = sp_metadata(v, b, 7)->Ok_0.1;
            if p1 <= j {
                lemma_trunc_tempo(v, b, p1, j);
                let p2 = sp_tempo(v, b, p1)->Ok_0.1;
                if p2 <= j {
                    lemma_trunc_u8(b, p2, j);
                    if p2 + 1 <= j {
                        match v {
                            GpVersion::GP3 => lemma_trunc_u8(b, p2 + 1, j),
                            GpVersion::GP4 => lemma_trunc_u16(b, p2 + 1, j),
                            GpVersion::GP5 => (),
                        }
                        let p4 = sp_shared_mcount(v, b, p2 + 1)->Ok_0.1;
                        if p4 <= j {
                            let tc = sp_u8(b, p2)->Ok_0.0;
                            let mc = sp_shared_mcount(v, b, p2 + 1)->Ok_0.0;
                            lemma_trunc_tracks(v, b, p4, mc, tc as int, j);
                        }
                    }
                }
            }
        },
    }
}

} // verus!
