use std::rc::Rc;
use std::sync::Arc;

use ruxcore::display::{SongDisplayInfo, TrackSelection};
use ruxcore::model::{Beat, GpVersion, Measure, Note, Song, SongInfo, Tempo, Track};
use ruxcore::player::{total_ticks_checked, AudioPlayer, PlayState};

fn quarter_beat(fret: u8) -> Beat {
    Beat {
        duration: 2,
        notes: vec![Note {
            string: 0,
            fret,
            effects: 0,
        }],
    }
}

/// Tempo 120, one track, one measure of four quarter-note beats.
fn demo_song() -> Song {
    Song {
        song_info: SongInfo {
            name: String::from("Demo"),
            artist: String::from("Nobody"),
        },
        version: GpVersion::GP3,
        tempo: Tempo { value: 120 },
        tracks: vec![Track {
            name: String::from("Guitar"),
            tuning: vec![64, 59, 55, 50, 45, 40],
            measures: vec![Measure {
                numerator: 4,
                denominator: 4,
                beats: vec![
                    quarter_beat(0),
                    quarter_beat(2),
                    quarter_beat(3),
                    quarter_beat(5),
                ],
            }],
        }],
    }
}

fn demo_player() -> (
    AudioPlayer,
    tokio::sync::watch::Receiver<usize>,
) {
    let (tx, rx) = tokio::sync::watch::channel(0usize);
    let song = Rc::new(demo_song());
    let player = AudioPlayer::new(song, 120, None, Arc::new(tx));
    (player, rx)
}

#[test]
fn total_ticks_of_demo_song_is_four() {
    assert_eq!(total_ticks_checked(&demo_song()), Some(4));
}

#[test]
fn stop_from_stopped_is_a_no_op_with_tick_zero() {
    let (mut player, _rx) = demo_player();
    assert_eq!(player.tick, 0);
    assert!(!player.is_playing());
    let offs = player.stop();
    assert!(offs.is_empty());
    assert_eq!(player.tick, 0);
    assert_eq!(player.state, PlayState::Stopped);
}

#[test]
fn toggle_twice_pauses_where_playback_left_off() {
    let (mut player, _rx) = demo_player();
    player.toggle_play();
    assert!(player.is_playing());
    assert_eq!(player.tick, 0); // playing begins from tick 0
    player.on_tick();
    player.on_tick();
    assert_eq!(player.tick, 2);
    player.toggle_play();
    assert_eq!(player.state, PlayState::Paused);
    assert_eq!(player.tick, 2); // not reset to 0
    player.toggle_play();
    assert!(player.is_playing());
    assert_eq!(player.tick, 2); // resumes from the held tick
}

#[test]
fn toggle_solo_twice_clears_solo() {
    let (mut player, _rx) = demo_player();
    assert_eq!(player.solo_track_id(), None);
    player.toggle_solo_mode(0);
    assert_eq!(player.solo_track_id(), Some(0));
    player.toggle_solo_mode(0);
    assert_eq!(player.solo_track_id(), None);
    // switching tracks re-solos rather than stacking
    player.toggle_solo_mode(0);
    player.toggle_solo_mode(1);
    assert_eq!(player.solo_track_id(), Some(1));
}

#[test]
fn focus_beyond_last_measure_clamps() {
    let (mut player, _rx) = demo_player();
    player.toggle_play();
    let offs = player.focus_measure(100);
    assert!(offs.is_empty());
    assert_eq!(player.measure, 0); // only one measure: index 0 is the last
    assert_eq!(player.tick, 0);
    assert!(player.is_playing());
}

#[test]
fn quarter_note_at_tempo_120_lasts_half_a_second() {
    let (mut player, _rx) = demo_player();
    player.toggle_play();
    let mut elapsed_micros: u64 = 0;
    for _ in 0..4 {
        elapsed_micros += player.current_tick_micros();
        player.on_tick();
    }
    // four ticks of 0.5 s complete the measure after 2 seconds
    assert_eq!(elapsed_micros, 2_000_000);
    assert_eq!(player.tick, 4);
}

#[test]
fn reaching_the_end_stops_and_releases_notes() {
    let (mut player, mut rx) = demo_player();
    player.toggle_play();
    for _ in 0..4 {
        player.on_tick();
    }
    assert!(player.is_playing());
    assert_eq!(*rx.borrow_and_update(), 4);
    let events = player.on_tick(); // past the final tick
    assert_eq!(player.state, PlayState::Stopped);
    assert_eq!(player.tick, 0);
    assert_eq!(events.len(), 1);
    assert!(!events[0].on); // the last note is released
    assert_eq!(*rx.borrow_and_update(), 0);
}

#[test]
fn ticks_publish_only_the_latest_position() {
    let (mut player, mut rx) = demo_player();
    player.toggle_play();
    player.on_tick();
    player.on_tick();
    player.on_tick();
    // a reader that checks late sees only the most recent tick
    assert_eq!(*rx.borrow_and_update(), 3);
}

#[test]
fn events_carry_note_on_then_note_off() {
    let (mut player, _rx) = demo_player();
    player.toggle_play();
    let first = player.on_tick();
    assert_eq!(first.len(), 1);
    assert!(first[0].on);
    assert_eq!((first[0].track, first[0].string, first[0].fret), (0, 0, 0));
    let second = player.on_tick();
    assert_eq!(second.len(), 2);
    assert!(!second[0].on); // previous note released
    assert_eq!(second[0].fret, 0);
    assert!(second[1].on);
    assert_eq!(second[1].fret, 2);
}

#[test]
fn solo_mutes_all_other_tracks() {
    let mut song = demo_song();
    song.tracks.push(Track {
        name: String::from("Bass"),
        tuning: vec![43, 38, 33, 28],
        measures: vec![Measure {
            numerator: 4,
            denominator: 4,
            beats: vec![quarter_beat(7)],
        }],
    });
    let (tx, _rx) = tokio::sync::watch::channel(0usize);
    let mut player = AudioPlayer::new(Rc::new(song), 120, None, Arc::new(tx));
    player.toggle_solo_mode(1);
    player.toggle_play();
    let events = player.on_tick();
    assert_eq!(events.len(), 1);
    assert_eq!(events[0].track, 1);
    assert_eq!(events[0].fret, 7);
}

#[test]
fn stop_while_playing_resets_and_releases() {
    let (mut player, mut rx) = demo_player();
    player.toggle_play();
    player.on_tick();
    player.on_tick();
    let offs = player.stop();
    assert_eq!(offs.len(), 1);
    assert!(!offs[0].on);
    assert_eq!(player.state, PlayState::Stopped);
    assert_eq!(player.tick, 0);
    assert_eq!(*rx.borrow_and_update(), 0);
}

#[test]
fn display_info_copies_the_header_facts() {
    let song = demo_song();
    let info = SongDisplayInfo::new(&song, String::from("demo.gp3"));
    assert_eq!(info.name, "Demo");
    assert_eq!(info.artist, "Nobody");
    assert_eq!(info.gp_version, GpVersion::GP3);
    assert_eq!(info.file_name, "demo.gp3");

    let sel = TrackSelection::new(0, String::from("Guitar"));
    assert_eq!(sel.index, 0);
    assert_eq!(sel.name, "Guitar");
}
