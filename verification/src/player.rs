use vstd::prelude::*;

use std::rc::Rc;
use std::sync::Arc;

use crate::feed::publish_tick;
use crate::model::{song_wf, MeasureV, NoteV, Song, SongV};

verus! {

/// The scheduler's state machine.
#[derive(Clone, Copy, Debug, PartialEq, Eq, Structural)]
pub enum PlayState {
    Stopped,
    Playing,
    Paused,
}

/// One command to the synthesis backend: start or end a note on one string
/// of one track.
#[derive(Clone, Copy, Debug, PartialEq, Eq, Structural)]
pub struct NoteEvent {
    /// `true` for note-on, `false` for note-off.
    pub on: bool,
    pub track: usize,
    pub string: u8,
    pub fret: u8,
    pub effects: u16,
}

/// The playback timeline: the measure sequence of the first track. Measures
/// are aligned across tracks, so the first track paces every track.
pub open spec fn timeline(s: SongV) -> Seq<MeasureV> {
    s.tracks[0].measures
}

/// How many ticks (beats) measure `m` of the timeline contributes.
pub open spec fn beats_in(s: SongV, m: int) -> int {
    timeline(s)[m].beats.len() as int
}

/// The tick index at which measure `m` of the timeline starts.
pub open spec fn ticks_before(s: SongV, m: int) -> int
    decreases m,
{
    if m <= 0 {
        0
    } else {
        ticks_before(s, m - 1) + beats_in(s, m - 1)
    }
}

/// The tick index one past the last beat of the timeline.
pub open spec fn total_ticks(s: SongV) -> int {
    ticks_before(s, timeline(s).len() as int)
}

/// Tick starts never decrease along the timeline.
pub proof fn lemma_ticks_before_monotonic(s: SongV, m1: int, m2: int)
    requires
        0 <= m1 <= m2,
    ensures
        ticks_before(s, m1) <= ticks_before(s, m2),
    decreases m2 - m1,
{
    if m1 < m2 {
        lemma_ticks_before_monotonic(s, m1, m2 - 1);
    }
}

/// Whether track `t` sounds under the given solo selection: every track when
/// no track is soloed, otherwise only the soloed one.
pub open spec fn audible(solo: Option<usize>, t: int) -> bool {
    match solo {
        None => true,
        Some(k) => k == t,
    }
}

/// Skip forward past exhausted and empty measures: the next position that
/// stands on a real beat, or the end of the timeline.
pub open spec fn norm_pos(s: SongV, m: int, b: int) -> (int, int)
    decreases timeline(s).len() - m,
{
    if 0 <= m < timeline(s).len() && b >= beats_in(s, m) {
        norm_pos(s, m + 1, 0)
    } else {
        (m, b)
    }
}

/// The note-on events for beat `b` of measure `m`, over the tracks from
/// index `t` up: every note of that beat in every audible track that has
/// such a beat.
pub open spec fn note_on_events(s: SongV, solo: Option<usize>, m: int, b: int, t: int) -> Seq<
    NoteEvent,
>
    decreases s.tracks.len() - t,
{
    if t < 0 || t >= s.tracks.len() {
        Seq::empty()
    } else {
        (if audible(solo, t) && 0 <= m < s.tracks[t].measures.len() && 0 <= b
            < s.tracks[t].measures[m].beats.len() {
            s.tracks[t].measures[m].beats[b].notes.map_values(
                |n: NoteV|
                    NoteEvent {
                        on: true,
                        track: t as usize,
                        string: n.string,
                        fret: n.fret,
                        effects: n.effects,
                    },
            )
        } else {
            Seq::empty()
        }) + note_on_events(s, solo, m, b, t + 1)
    }
}

/// The note-off events that release the given sounding notes.
pub open spec fn off_events(sounding: Seq<NoteEvent>) -> Seq<NoteEvent> {
    sounding.map_values(|e: NoteEvent| NoteEvent { on: false, ..e })
}

/// Mathematical state of one playback session.
#[verifier::ext_equal]
pub ghost struct PlayerV {
    pub song: SongV,
    pub tempo: u32,
    pub state: PlayState,
    pub measure: int,
    pub beat: int,
    pub tick: int,
    pub solo: Option<usize>,
    pub sounding: Seq<NoteEvent>,
}

/// The session invariant: the position stands inside the timeline (or just
/// past its end), the tick is the sum of the beats before the position, and
/// a stopped session rests at the origin with nothing sounding.
pub open spec fn player_wf(p: PlayerV) -> bool {
    &&& song_wf(p.song)
    &&& p.tempo >= 1
    &&& 0 <= p.measure <= timeline(p.song).len()
    &&& 0 <= p.beat
    &&& p.measure < timeline(p.song).len() ==> p.beat <= beats_in(p.song, p.measure)
    &&& p.measure == timeline(p.song).len() ==> p.beat == 0
    &&& p.tick == ticks_before(p.song, p.measure) + p.beat
    &&& total_ticks(p.song) <= usize::MAX
    &&& p.state == PlayState::Stopped ==> p.measure == 0 && p.beat == 0 && p.sounding
        == Seq::<NoteEvent>::empty()
}

/// What `toggle_play` does to the state machine.
pub open spec fn spec_toggle_play(st: PlayState) -> PlayState {
    match st {
        PlayState::Stopped => PlayState::Playing,
        PlayState::Playing => PlayState::Paused,
        PlayState::Paused => PlayState::Playing,
    }
}

/// What `toggle_solo_mode` does to the solo selection.
pub open spec fn spec_toggle_solo(solo: Option<usize>, k: usize) -> Option<usize> {
    if solo == Some(k) {
        None
    } else {
        Some(k)
    }
}

/// What `stop` does: back to the origin, nothing sounding.
pub open spec fn spec_stop(p: PlayerV) -> PlayerV {
    PlayerV {
        state: PlayState::Stopped,
        measure: 0,
        beat: 0,
        tick: 0,
        sounding: Seq::empty(),
        ..p
    }
}

/// The measure a seek lands on: the requested one, clamped to the valid
/// range (an empty timeline only offers the origin).
pub open spec fn clamp_measure(s: SongV, m: int) -> int {
    if timeline(s).len() == 0 {
        0
    } else if m < timeline(s).len() {
        m
    } else {
        timeline(s).len() - 1
    }
}

/// Wall-clock length of one beat in microseconds: `60 / tempo` seconds per
/// quarter note, and a whole note (code 0) is four quarters, halved at each
/// further code step.
pub open spec fn spec_tick_micros(tempo: u32, code: u8) -> u64 {
    (240000000u64 / (tempo as u64)) >> (if code <= 38 {
        code as u64
    } else {
        38u64
    })
}

/// The duration code governing the next tick from the given position: the
/// code of the beat the position normalizes to, or a quarter note (code 2)
/// when the position is past the end.
pub open spec fn duration_code_at(s: SongV, m: int, b: int) -> u8 {
    if norm_pos(s, m, b).0 < timeline(s).len() {
        timeline(s)[norm_pos(s, m, b).0].beats[norm_pos(s, m, b).1].duration
    } else {
        2
    }
}

/// Normalization lands on a real beat or at the end, and never moves the
/// tick index.
pub proof fn lemma_norm_pos(s: SongV, m: int, b: int)
    requires
        0 <= m <= timeline(s).len(),
        0 <= b,
        m < timeline(s).len() ==> b <= beats_in(s, m),
        m == timeline(s).len() ==> b == 0,
    ensures
        m <= norm_pos(s, m, b).0 <= timeline(s).len(),
        0 <= norm_pos(s, m, b).1,
        norm_pos(s, m, b).0 < timeline(s).len() ==> norm_pos(s, m, b).1 < beats_in(
            s,
            norm_pos(s, m, b).0,
        ),
        norm_pos(s, m, b).0 == timeline(s).len() ==> norm_pos(s, m, b).1 == 0,
        ticks_before(s, norm_pos(s, m, b).0) + norm_pos(s, m, b).1 == ticks_before(s, m) + b,
    decreases timeline(s).len() - m,
{
    if 0 <= m < timeline(s).len() && b >= beats_in(s, m) {
        lemma_norm_pos(s, m + 1, 0);
    }
}

/// Wall-clock length of one beat, computed exactly as `spec_tick_micros`
/// says.
pub fn tick_micros(tempo: u32, code: u8) -> (r: u64)
    requires
        tempo >= 1,
    ensures
        r == spec_tick_micros(tempo, code),
{
    let base: u64 = 240000000u64 / (tempo as u64);
    let sh: u64 = if code <= 38 {
        code as u64
    } else {
        38
    };
    base >> sh
}

/// Turn the currently sounding notes into the note-off commands that release
/// them.
#[verifier::loop_isolation(false)]
fn offs_of_sounding(sounding: &Vec<NoteEvent>) -> (offs: Vec<NoteEvent>)
    ensures
        offs@ == off_events(sounding@),
{
    let mut offs: Vec<NoteEvent> = Vec::new();
    let mut i: usize = 0;
    while i < sounding.len()
        invariant
            i <= sounding@.len(),
            offs@ == off_events(sounding@.take(i as int)),
        decreases sounding@.len() - i,
    {
        let e = sounding[i];
        offs.push(NoteEvent { on: false, ..e });
        proof {
            assert(offs@ =~= off_events(sounding@.take(i + 1 as int)));
        }
        i = i + 1;
    }
    proof {
        assert(sounding@.take(sounding@.len() as int) =~= sounding@);
    }
    offs
}

/// Compute the song's total tick count, or `None` when it would not fit the
/// machine word; this is the bound `AudioPlayer::new` asks its caller to
/// check.
#[verifier::loop_isolation(false)]
pub fn total_ticks_checked(song: &Song) -> (r: Option<usize>)
    requires
        song_wf(song@),
    ensures
        match r {
            Some(t) => t as int == total_ticks(song@),
            None => total_ticks(song@) > usize::MAX,
        },
{
    let ml = song.tracks[0].measures.len();
    let mut t: usize = 0;
    let mut k: usize = 0;
    while k < ml
        invariant
            k <= ml,
            t as int == ticks_before(song@, k as int),
        decreases ml - k,
    {
        let bl = song.tracks[0].measures[k].beats.len();
        if usize::MAX - t < bl {
            proof {
                lemma_ticks_before_monotonic(song@, k + 1 as int, timeline(song@).len() as int);
            }
            return None;
        }
        t = t + bl;
        k = k + 1;
    }
    Some(t)
}

/// Law: stopping an already stopped session changes nothing, and its tick is
/// 0 before and after.
pub proof fn lemma_stop_idempotent(p: PlayerV)
    requires
        player_wf(p),
        p.state == PlayState::Stopped,
    ensures
        spec_stop(p) == p,
        spec_stop(p).tick == 0,
        p.tick == 0,
{
    assert(ticks_before(p.song, 0) == 0);
    assert(spec_stop(p) =~= p);
}

/// Law: from a stopped session, the first toggle starts playback, and a
/// second toggle — wherever playback has advanced to by then — pauses it
/// with the tick exactly where playback left it, not reset to 0.
pub proof fn lemma_toggle_play_twice(p: PlayerV, advanced: PlayerV)
    requires
        p.state == PlayState::Stopped,
        advanced.state == spec_toggle_play(p.state),
    ensures
        spec_toggle_play(p.state) == PlayState::Playing,
        (PlayerV { state: spec_toggle_play(advanced.state), ..advanced }).state
            == PlayState::Paused,
        (PlayerV { state: spec_toggle_play(advanced.state), ..advanced }).tick == advanced.tick,
{
}

/// Law: soloing the same track twice returns to "no solo", where every track
/// is audible — provided that track was not already the soloed one.
pub proof fn lemma_toggle_solo_twice(solo: Option<usize>, k: usize)
    requires
        solo != Some(k),
    ensures
        spec_toggle_solo(spec_toggle_solo(solo, k), k) == None::<usize>,
        forall|t: int| audible(spec_toggle_solo(spec_toggle_solo(solo, k), k), t),
{
}

/// Law: seeking to a measure past the end lands on the last valid measure
/// rather than failing.
pub proof fn lemma_focus_clamps(s: SongV, m: int)
    requires
        timeline(s).len() >= 1,
        m >= timeline(s).len(),
    ensures
        clamp_measure(s, m) == timeline(s).len() - 1,
{
}

/// One playback session: walks one shared, read-only song tick by tick,
/// hands note commands to the synthesis backend's driver, and publishes every
/// new tick on the position feed.
pub struct AudioPlayer {
    pub song: Rc<Song>,
    pub tempo: u32,
    /// Path of the instrument sample bank the backend should load; `None`
    /// falls back to the built-in instrument set.
    pub sound_font_file: Option<String>,
    pub beat_sender: Arc<tokio::sync::watch::Sender<usize>>,
    pub state: PlayState,
    pub measure: usize,
    pub beat: usize,
    pub tick: usize,
    pub solo: Option<usize>,
    pub sounding: Vec<NoteEvent>,
}

impl View for AudioPlayer {
    type V = PlayerV;

    open spec fn view(&self) -> PlayerV {
        PlayerV {
            song: self.song@,
            tempo: self.tempo,
            state: self.state,
            measure: self.measure as int,
            beat: self.beat as int,
            tick: self.tick as int,
            solo: self.solo,
            sounding: self.sounding@,
        }
    }
}

impl AudioPlayer {
    /// Construct a fresh, stopped session bound to one song. The caller
    /// stops any previously running session first; the tick count of the
    /// whole song must fit the machine word the position feed carries.
    pub fn new(
        song: Rc<Song>,
        tempo: u32,
        sound_font_file: Option<String>,
        beat_sender: Arc<tokio::sync::watch::Sender<usize>>,
    ) -> (p: AudioPlayer)
        requires
            song_wf(song@),
            tempo >= 1,
            total_ticks(song@) <= usize::MAX,
        ensures
            player_wf(p@),
            p@.song == song@,
            p@.tempo == tempo,
            p@.state == PlayState::Stopped,
            p@.tick == 0,
            p@.measure == 0,
            p@.beat == 0,
            p@.solo == None::<usize>,
            p@.sounding == Seq::<NoteEvent>::empty(),
    {
        AudioPlayer {
            song,
            tempo,
            sound_font_file,
            beat_sender,
            state: PlayState::Stopped,
            measure: 0,
            beat: 0,
            tick: 0,
            solo: None,
            sounding: Vec::new(),
        }
    }

    /// Whether the session is currently advancing through the score.
    pub fn is_playing(&self) -> (r: bool)
        ensures
            r == (self@.state == PlayState::Playing),
    {
        self.state == PlayState::Playing
    }

    /// The soloed track, if solo mode is on.
    pub fn solo_track_id(&self) -> (r: Option<usize>)
        ensures
            r == self@.solo,
    {
        self.solo
    }

    /// Start, pause, or resume: stopped and paused sessions start playing
    /// (a stopped one from tick 0, which it already holds), a playing one
    /// pauses without moving the position.
    pub fn toggle_play(&mut self)
        requires
            player_wf(old(self)@),
        ensures
            player_wf(final(self)@),
            final(self)@ == (PlayerV { state: spec_toggle_play(old(self)@.state), ..old(self)@ }),
    {
        self.state = match self.state {
            PlayState::Stopped => PlayState::Playing,
            PlayState::Playing => PlayState::Paused,
            PlayState::Paused => PlayState::Playing,
        };
        proof {
            assert(self@ =~= (PlayerV {
                state: spec_toggle_play(old(self)@.state),
                ..old(self)@
            }));
        }
    }

    /// Stop from any state: the position returns to the origin, and the
    /// returned note-off commands release everything still sounding before
    /// this call returns.
    pub fn stop(&mut self) -> (offs: Vec<NoteEvent>)
        requires
            player_wf(old(self)@),
        ensures
            player_wf(final(self)@),
            offs@ == off_events(old(self)@.sounding),
            final(self)@ == spec_stop(old(self)@),
    {
        let offs = offs_of_sounding(&self.sounding);
        self.sounding = Vec::new();
        self.state = PlayState::Stopped;
        self.measure = 0;
        self.beat = 0;
        self.tick = 0;
        publish_tick(&self.beat_sender, 0);
        proof {
            assert(self@ =~= spec_stop(old(self)@));
        }
        offs
    }

    /// Select the given track as the only audible one, or clear solo mode if
    /// it is already the soloed track.
    pub fn toggle_solo_mode(&mut self, track: usize)
        requires
            player_wf(old(self)@),
        ensures
            player_wf(final(self)@),
            final(self)@ == (PlayerV {
                solo: spec_toggle_solo(old(self)@.solo, track),
                ..old(self)@
            }),
    {
        self.solo = match self.solo {
            Some(k) => if k == track {
                None
            } else {
                Some(track)
            },
            None => Some(track),
        };
        proof {
            assert(self@ =~= (PlayerV {
                solo: spec_toggle_solo(old(self)@.solo, track),
                ..old(self)@
            }));
        }
    }

    /// Seek to the start of the given measure, clamped to the valid range,
    /// whether playing or paused. The returned note-off commands flush the
    /// pre-seek notes so scheduling resumes cleanly at the new position.
    #[verifier::loop_isolation(false)]
    pub fn focus_measure(&mut self, m: usize) -> (offs: Vec<NoteEvent>)
        requires
            player_wf(old(self)@),
            old(self)@.state != PlayState::Stopped,
        ensures
            player_wf(final(self)@),
            offs@ == off_events(old(self)@.sounding),
            final(self)@ == (PlayerV {
                measure: clamp_measure(old(self)@.song, m as int),
                beat: 0,
                tick: ticks_before(old(self)@.song, clamp_measure(old(self)@.song, m as int)),
                sounding: Seq::empty(),
                ..old(self)@
            }),
    {
        let offs = offs_of_sounding(&self.sounding);
        self.sounding = Vec::new();
        let ml = self.song.tracks[0].measures.len();
        let mm: usize = if ml == 0 {
            0
        } else if m < ml {
            m
        } else {
            ml - 1
        };
        let mut t: usize = 0;
        let mut k: usize = 0;
        while k < mm
            invariant
                k <= mm,
                t == ticks_before(self@.song, k as int),
            decreases mm - k,
        {
            let bl = self.song.tracks[0].measures[k].beats.len();
            proof {
                lemma_ticks_before_monotonic(
                    self@.song,
                    k + 1 as int,
                    timeline(self@.song).len() as int,
                );
            }
            t = t + bl;
            k = k + 1;
        }
        self.measure = mm;
        self.beat = 0;
        self.tick = t;
        publish_tick(&self.beat_sender, t);
        proof {
            assert(self@ =~= (PlayerV {
                measure: clamp_measure(old(self)@.song, m as int),
                beat: 0,
                tick: ticks_before(old(self)@.song, clamp_measure(old(self)@.song, m as int)),
                sounding: Seq::empty(),
                ..old(self)@
            }));
        }
        offs
    }

    /// Wall-clock length of the tick the session would play next.
    #[verifier::loop_isolation(false)]
    pub fn current_tick_micros(&self) -> (r: u64)
        requires
            player_wf(self@),
        ensures
            r == spec_tick_micros(self@.tempo, duration_code_at(self@.song, self@.measure, self@.beat)),
    {
        let ml = self.song.tracks[0].measures.len();
        let mut m: usize = self.measure;
        let mut b: usize = self.beat;
        while m < ml && b >= self.song.tracks[0].measures[m].beats.len()
            invariant
                self.measure <= m <= ml,
                m < ml ==> b as int <= beats_in(self@.song, m as int),
                m == ml ==> b == 0,
                norm_pos(self@.song, self@.measure, self@.beat) == norm_pos(
                    self@.song,
                    m as int,
                    b as int,
                ),
            decreases ml - m,
        {
            m = m + 1;
            b = 0;
        }
        let code: u8 = if m < ml {
            self.song.tracks[0].measures[m].beats[b].duration
        } else {
            2
        };
        tick_micros(self.tempo, code)
    }

    /// One scheduler step while playing: release the notes of the previous
    /// tick, start every note of the current beat across the audible tracks,
    /// advance the position, and publish the new tick. Reaching the end of
    /// the last measure stops the session. Not playing: a no-op with no
    /// events.
    #[verifier::loop_isolation(false)]
    #[verifier::rlimit(100)]
    pub fn on_tick(&mut self) -> (events: Vec<NoteEvent>)
        requires
            player_wf(old(self)@),
        ensures
            player_wf(final(self)@),
            old(self)@.state != PlayState::Playing ==> final(self)@ == old(self)@ && events@
                == Seq::<NoteEvent>::empty(),
            old(self)@.state == PlayState::Playing ==> ({
                let s = old(self)@.song;
                let nm = norm_pos(s, old(self)@.measure, old(self)@.beat).0;
                let nb = norm_pos(s, old(self)@.measure, old(self)@.beat).1;
                if nm == timeline(s).len() {
                    &&& events@ == off_events(old(self)@.sounding)
                    &&& final(self)@ == spec_stop(old(self)@)
                } else {
                    &&& events@ == off_events(old(self)@.sounding) + note_on_events(
                        s,
                        old(self)@.solo,
                        nm,
                        nb,
                        0,
                    )
                    &&& final(self)@ == (PlayerV {
                        measure: nm,
                        beat: nb + 1,
                        tick: old(self)@.tick + 1,
                        sounding: note_on_events(s, old(self)@.solo, nm, nb, 0),
                        ..old(self)@
                    })
                }
            }),
    {
        if !(self.state == PlayState::Playing) {
            return Vec::new();
        }
        let ml = self.song.tracks[0].measures.len();
        while self.measure < ml && self.beat >= self.song.tracks[0].measures[self.measure].beats.len()
            invariant
                self.song == old(self).song,
                self.tempo == old(self).tempo,
                self.state == old(self).state,
                self.solo == old(self).solo,
                self.sounding == old(self).sounding,
                self.tick == old(self).tick,
                self.sound_font_file == old(self).sound_font_file,
                self.beat_sender == old(self).beat_sender,
                old(self).measure <= self.measure <= ml,
                self.measure < ml ==> self.beat as int <= beats_in(self@.song, self.measure as int),
                self.measure == ml ==> self.beat == 0,
                self.tick as int == ticks_before(self@.song, self.measure as int) + self.beat,
                norm_pos(old(self)@.song, old(self)@.measure, old(self)@.beat) == norm_pos(
                    self@.song,
                    self.measure as int,
                    self.beat as int,
                ),
            decreases ml - self.measure,
        {
            self.measure = self.measure + 1;
            self.beat = 0;
        }
        let ghost s0 = old(self)@.song;
        let ghost nm = self.measure as int;
        let ghost nb = self.beat as int;
        proof {
            assert(norm_pos(s0, old(self)@.measure, old(self)@.beat) == (nm, nb));
        }
        if self.measure == ml {
            let offs = offs_of_sounding(&self.sounding);
            self.sounding = Vec::new();
            self.state = PlayState::Stopped;
            self.measure = 0;
            self.beat = 0;
            self.tick = 0;
            publish_tick(&self.beat_sender, 0);
            proof {
                assert(self@ =~= spec_stop(old(self)@));
            }
            return offs;
        }
        let mut events = offs_of_sounding(&self.sounding);
        let ghost offs0 = events@;
        let mut ons: Vec<NoteEvent> = Vec::new();
        let tn = self.song.tracks.len();
        let mut t: usize = 0;
        while t < tn
            invariant
                t <= tn,
                note_on_events(s0, old(self)@.solo, nm, nb, 0) == ons@ + note_on_events(
                    s0,
                    old(self)@.solo,
                    nm,
                    nb,
                    t as int,
                ),
            decreases tn - t,
        {
            let ghost rest_next = note_on_events(s0, old(self)@.solo, nm, nb, t + 1 as int);
            let ghost ons_t0 = ons@;
            let audible_now = match self.solo {
                None => true,
                Some(k) => k == t,
            };
            let mut contributed = false;
            if audible_now {
                if self.measure < self.song.tracks[t].measures.len() {
                    if self.beat < self.song.tracks[t].measures[self.measure].beats.len() {
                        contributed = true;
                        let ghost snotes = s0.tracks[t as int].measures[nm].beats[nb].notes;
                        let ghost fev = |n: NoteV|
                            NoteEvent {
                                on: true,
                                track: t as usize,
                                string: n.string,
                                fret: n.fret,
                                effects: n.effects,
                            };
                        proof {
                            assert(snotes == self.song.tracks@[t as int]@.measures[nm].beats[nb].notes);
                        }
                        let nl = self.song.tracks[t].measures[self.measure].beats[self.beat].notes.len();
                        let mut j: usize = 0;
                        while j < nl
                            invariant
                                j <= nl,
                                nl == snotes.len(),
                                ons@ == ons_t0 + snotes.take(j as int).map_values(fev),
                            decreases nl - j,
                        {
                            let n = self.song.tracks[t].measures[self.measure].beats[self.beat].notes[j];
                            ons.push(
                                NoteEvent {
                                    on: true,
                                    track: t,
                                    string: n.string,
                                    fret: n.fret,
                                    effects: n.effects,
                                },
                            );
                            proof {
                                assert(snotes.take(j + 1 as int).map_values(fev) =~= snotes.take(
                                    j as int,
                                ).map_values(fev).push(fev(snotes[j as int])));
                                assert(ons@ =~= ons_t0 + snotes.take(j + 1 as int).map_values(fev));
                            }
                            j = j + 1;
                        }
                        proof {
                            assert(snotes.take(snotes.len() as int) =~= snotes);
                            assert(ons@ == ons_t0 + snotes.map_values(fev));
                        }
                    }
                }
            }
            proof {
                if contributed {
                    let snotes = s0.tracks[t as int].measures[nm].beats[nb].notes;
                    let fev = |n: NoteV|
                        NoteEvent {
                            on: true,
                            track: t as usize,
                            string: n.string,
                            fret: n.fret,
                            effects: n.effects,
                        };
                    assert(note_on_events(s0, old(self)@.solo, nm, nb, t as int) == snotes.map_values(
                        fev,
                    ) + rest_next);
                    assert(ons_t0 + (snotes.map_values(fev) + rest_next) =~= ons@ + rest_next);
                } else {
                    assert(note_on_events(s0, old(self)@.solo, nm, nb, t as int) == Seq::<
                        NoteEvent,
                    >::empty() + rest_next);
                    assert(Seq::<NoteEvent>::empty() + rest_next =~= rest_next);
                }
            }
            t = t + 1;
        }
        let ghost ons_seq = ons@;
        let mut j: usize = 0;
        while j < ons.len()
            invariant
                j <= ons@.len(),
                ons@ == ons_seq,
                events@ == offs0 + ons@.take(j as int),
            decreases ons@.len() - j,
        {
            events.push(ons[j]);
            proof {
                assert(offs0 + ons@.take(j + 1 as int) =~= (offs0 + ons@.take(j as int)).push(
                    ons@[j as int],
                ));
            }
            j = j + 1;
        }
        proof {
            assert(ons@.take(ons@.len() as int) =~= ons@);
        }
        self.sounding = ons;
        proof {
            lemma_ticks_before_monotonic(s0, nm + 1, timeline(s0).len() as int);
        }
        self.beat = self.beat + 1;
        self.tick = self.tick + 1;
        publish_tick(&self.beat_sender, self.tick);
        proof {
            assert(self@ =~= (PlayerV {
                measure: nm,
                beat: nb + 1,
                tick: old(self)@.tick + 1,
                sounding: note_on_events(s0, old(self)@.solo, nm, nb, 0),
                ..old(self)@
            }));
        }
        events
    }
}

} // verus!
