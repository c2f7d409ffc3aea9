use ruxcore::model::{DecodeError, GpVersion};
use ruxcore::decoder::parse_gp_data;
use ruxcore::reader::ByteReader;

fn padded(text: &[u8]) -> Vec<u8> {
    let mut slot = vec![text.len() as u8];
    slot.extend_from_slice(text);
    while slot.len() < 32 {
        slot.push(0);
    }
    slot
}

/// A GP3 buffer: one track, one measure, four quarter-note beats of one note
/// each (string 0, fret 5).
fn gp3_buffer() -> Vec<u8> {
    let mut b = Vec::new();
    b.extend_from_slice(b"GPCORE3");
    b.extend_from_slice(&padded(b"Hi"));
    b.extend_from_slice(&padded(b""));
    b.extend_from_slice(&[120, 0]); // tempo u16
    b.push(1); // track count
    b.push(1); // shared measure count
    b.push(3);
    b.extend_from_slice(b"Gtr"); // track name
    b.push(6); // string count
    b.extend_from_slice(&[64, 59, 55, 50, 45, 40]); // tuning
    b.extend_from_slice(&[4, 4, 4]); // numerator, denominator, beat count
    for _ in 0..4 {
        b.extend_from_slice(&[2, 1, 5, 0]); // quarter, mask 1, fret 5, effects 0
    }
    b
}

fn gp4_buffer() -> Vec<u8> {
    let mut b = Vec::new();
    b.extend_from_slice(b"GPCORE4");
    b.extend_from_slice(&[2, 0]);
    b.extend_from_slice(b"Hi"); // title
    b.extend_from_slice(&[1, 0]);
    b.extend_from_slice(b"A"); // artist
    b.extend_from_slice(&[3, 0]);
    b.extend_from_slice(b"Alb"); // album, consumed and dropped
    b.extend_from_slice(&[150, 0, 0, 0]); // tempo u32
    b.push(2); // track count
    b.extend_from_slice(&[1, 0]); // shared measure count u16
    for name in [&b"T1"[..], &b"T2"[..]] {
        b.extend_from_slice(&[name.len() as u8, 0]);
        b.extend_from_slice(name);
        b.push(4); // string count
        b.extend_from_slice(&[64, 59, 55, 50]); // tuning
        b.extend_from_slice(&[3, 4, 1]); // time signature, one beat
        b.extend_from_slice(&[0, 3, 7, 9, 2, 1]); // whole note, two notes
    }
    b
}

fn gp5_buffer() -> Vec<u8> {
    let mut b = Vec::new();
    b.extend_from_slice(b"GPCORE5");
    b.extend_from_slice(&[1, 0, 0, 0]);
    b.extend_from_slice(b"S"); // title
    b.extend_from_slice(&[0, 0, 0, 0]); // empty artist
    b.extend_from_slice(&[90, 0, 0, 0]); // tempo u32
    b.push(1); // track count (measure counts are per track)
    b.extend_from_slice(&[1, 0, 0, 0]);
    b.extend_from_slice(b"B"); // track name
    b.push(1); // string count
    b.push(33); // tuning
    b.extend_from_slice(&[2, 0]); // this track's measure count u16
    b.extend_from_slice(&[4, 4, 0]); // a silent measure: zero beats
    b.extend_from_slice(&[4, 4, 1]); // one beat
    b.extend_from_slice(&[3, 1, 12, 0, 1]); // eighth, mask 1, fret 12, effects u16
    b
}

#[test]
fn gp3_round_trips_declared_counts() {
    let song = parse_gp_data(&gp3_buffer()).expect("valid GP3 input");
    assert_eq!(song.version, GpVersion::GP3);
    assert_eq!(song.song_info.name, "Hi");
    assert_eq!(song.song_info.artist, "");
    assert_eq!(song.tempo.value, 120);
    assert_eq!(song.tracks.len(), 1);
    let track = &song.tracks[0];
    assert_eq!(track.name, "Gtr");
    assert_eq!(track.tuning.len(), 6);
    assert_eq!(track.measures.len(), 1);
    let measure = &track.measures[0];
    assert_eq!((measure.numerator, measure.denominator), (4, 4));
    assert_eq!(measure.beats.len(), 4);
    for beat in &measure.beats {
        assert_eq!(beat.duration, 2);
        assert_eq!(beat.notes.len(), 1);
        assert_eq!(beat.notes[0].string, 0);
        assert_eq!(beat.notes[0].fret, 5);
        assert_eq!(beat.notes[0].effects, 0);
    }
}

#[test]
fn gp4_round_trips_declared_counts() {
    let song = parse_gp_data(&gp4_buffer()).expect("valid GP4 input");
    assert_eq!(song.version, GpVersion::GP4);
    assert_eq!(song.song_info.name, "Hi");
    assert_eq!(song.song_info.artist, "A");
    assert_eq!(song.tempo.value, 150);
    assert_eq!(song.tracks.len(), 2);
    for track in &song.tracks {
        assert_eq!(track.measures.len(), 1);
        let beat = &track.measures[0].beats[0];
        assert_eq!(beat.duration, 0);
        assert_eq!(beat.notes.len(), 2);
        assert_eq!((beat.notes[0].string, beat.notes[0].fret), (0, 7));
        assert_eq!((beat.notes[1].string, beat.notes[1].fret), (1, 2));
    }
}

#[test]
fn gp5_round_trips_declared_counts() {
    let song = parse_gp_data(&gp5_buffer()).expect("valid GP5 input");
    assert_eq!(song.version, GpVersion::GP5);
    assert_eq!(song.song_info.name, "S");
    assert_eq!(song.tempo.value, 90);
    assert_eq!(song.tracks.len(), 1);
    let track = &song.tracks[0];
    assert_eq!(track.measures.len(), 2);
    assert_eq!(track.measures[0].beats.len(), 0); // silent measure is valid
    assert_eq!(track.measures[1].beats.len(), 1);
    let note = &track.measures[1].beats[0].notes[0];
    assert_eq!((note.string, note.fret, note.effects), (0, 12, 256));
}

#[test]
fn unknown_signature_is_unsupported_version() {
    assert_eq!(
        parse_gp_data(b"XXXXXXXXXXXXXXXX"),
        Err(DecodeError::UnsupportedVersion)
    );
    assert_eq!(
        parse_gp_data(b"GPCORE9rest"),
        Err(DecodeError::UnsupportedVersion)
    );
    // a buffer too short for any signature has no known version either
    assert_eq!(parse_gp_data(b"GP"), Err(DecodeError::UnsupportedVersion));
    assert_eq!(parse_gp_data(b""), Err(DecodeError::UnsupportedVersion));
}

#[test]
fn zero_tempo_is_invalid_tempo() {
    let mut b = Vec::new();
    b.extend_from_slice(b"GPCORE3");
    b.extend_from_slice(&padded(b"T"));
    b.extend_from_slice(&padded(b""));
    b.extend_from_slice(&[0, 0]); // tempo 0
    b.push(1);
    assert_eq!(parse_gp_data(&b), Err(DecodeError::InvalidTempo));
}

#[test]
fn zero_tracks_is_empty_score() {
    let mut b = Vec::new();
    b.extend_from_slice(b"GPCORE3");
    b.extend_from_slice(&padded(b"T"));
    b.extend_from_slice(&padded(b""));
    b.extend_from_slice(&[100, 0]);
    b.push(0); // zero tracks
    b.push(4);
    assert_eq!(parse_gp_data(&b), Err(DecodeError::EmptyScore));
}

#[test]
fn stream_ending_inside_third_track_is_unexpected_end() {
    // three tracks declared, but the bytes end after the second track's data
    let mut b = Vec::new();
    b.extend_from_slice(b"GPCORE3");
    b.extend_from_slice(&padded(b"T"));
    b.extend_from_slice(&padded(b""));
    b.extend_from_slice(&[100, 0]);
    b.push(3); // three tracks declared
    b.push(0); // zero measures each, so a track is name + tuning
    for name in [&b"A"[..], &b"B"[..]] {
        b.push(name.len() as u8);
        b.extend_from_slice(name);
        b.push(1);
        b.push(60);
    }
    assert_eq!(parse_gp_data(&b), Err(DecodeError::UnexpectedEndOfData));
}

#[test]
fn every_truncation_inside_a_block_is_unexpected_end() {
    for full in [gp3_buffer(), gp4_buffer(), gp5_buffer()] {
        assert!(parse_gp_data(&full).is_ok());
        for cut in 7..full.len() {
            assert_eq!(
                parse_gp_data(&full[..cut]),
                Err(DecodeError::UnexpectedEndOfData),
                "cut at {cut}"
            );
        }
        // cuts inside the signature itself make the signature unrecognizable
        for cut in 0..7 {
            assert_eq!(
                parse_gp_data(&full[..cut]),
                Err(DecodeError::UnsupportedVersion)
            );
        }
    }
}

#[test]
fn high_mask_bits_without_strings_carry_no_note_blocks() {
    // string count 1: only bit 0 carries a note block; bit 7 is reserved
    let mut b = Vec::new();
    b.extend_from_slice(b"GPCORE3");
    b.extend_from_slice(&padded(b"M"));
    b.extend_from_slice(&padded(b""));
    b.extend_from_slice(&[100, 0]);
    b.extend_from_slice(&[1, 1]); // one track, one measure
    b.extend_from_slice(&[1]);
    b.extend_from_slice(b"X");
    b.extend_from_slice(&[1, 60]); // one string
    b.extend_from_slice(&[4, 4, 1]); // one beat
    b.extend_from_slice(&[2, 0b1000_0001, 9, 0]); // only string 0 has a block
    let song = parse_gp_data(&b).expect("valid input");
    let notes = &song.tracks[0].measures[0].beats[0].notes;
    assert_eq!(notes.len(), 1);
    assert_eq!(notes[0].string, 0);
    assert_eq!(notes[0].fret, 9);
}

#[test]
fn reader_is_bounds_checked_and_little_endian() {
    let data = [1u8, 2, 3, 4, 5];
    let mut r = ByteReader::new(&data);
    assert_eq!(r.peek_u8(), Ok(1));
    assert_eq!(r.read_u8(), Ok(1));
    assert_eq!(r.read_u16_le(), Ok(0x0302));
    assert_eq!(r.remaining(), 2);
    assert_eq!(r.read_u32_le(), Err(DecodeError::UnexpectedEndOfData));
    assert_eq!(r.read_bytes(2).unwrap(), vec![4, 5]);
    assert_eq!(r.read_u8(), Err(DecodeError::UnexpectedEndOfData));

    let mut r2 = ByteReader::new(&data);
    assert_eq!(r2.read_u32_le(), Ok(0x0403_0201));
    assert_eq!(r2.skip(2), Err(DecodeError::UnexpectedEndOfData));
    assert_eq!(r2.skip(1), Ok(()));
    assert_eq!(r2.read_i8(), Err(DecodeError::UnexpectedEndOfData));

    let neg = [0xFFu8];
    let mut r3 = ByteReader::new(&neg);
    assert_eq!(r3.read_i8(), Ok(-1));
}
