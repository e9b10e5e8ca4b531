//! The looper's state: recorded events, held notes, velocity scaling and the engine itself.
use std::collections::{HashMap, HashSet};
use vstd::prelude::*;

verus! {

/// `tick` moved to the nearest point of a grid of `step` ticks, halves going up.
pub open spec fn snapped(tick: int, step: int) -> int {
    (tick + step / 2) / step * step
}

/// Whether `tick` is half a sixteenth before the first end of a loop of four beats of 24 ticks.
pub open spec fn before_the_bar(tick: int, step: int, length: int) -> bool {
    step == 6 && length == 96 && tick == 93
}

/// The place in a loop of `length` ticks to which `tick` is quantized: the nearest point of a grid
/// of `step` ticks, halves going up. In the first pass of a loop of four beats of 24 ticks the
/// last half sixteenth does not go over the bar.
pub open spec fn quantized(tick: int, step: int, length: int) -> int {
    if before_the_bar(tick, step, length) {
        length - step
    } else {
        snapped(tick, step) % length
    }
}

/// Snaps `tick` to the nearest sixteenth and folds the result into the loop.
pub fn quantize_tick(tick: usize, ticks_per_sixteenth: usize, loop_length: usize) -> (r: usize)
    requires
        ticks_per_sixteenth > 0,
        loop_length > 0,
        tick + ticks_per_sixteenth / 2 <= usize::MAX,
    ensures
        r == quantized(tick as int, ticks_per_sixteenth as int, loop_length as int),
        r < loop_length,
{
    if ticks_per_sixteenth == 6 && loop_length == 96 && tick == 93 {
        return loop_length - ticks_per_sixteenth;
    }
    let raised: usize = tick + ticks_per_sixteenth / 2;
    let steps: usize = raised / ticks_per_sixteenth;
    proof {
        lemma_floor_to_grid(raised as int, ticks_per_sixteenth as int);
    }
    let on_grid: usize = steps * ticks_per_sixteenth;
    on_grid % loop_length
}

/// Rounding down to a multiple of `step` lands within one step below.
pub proof fn lemma_floor_to_grid(x: int, step: int)
    requires
        x >= 0,
        step > 0,
    ensures
        0 <= x / step * step <= x < x / step * step + step,
        (x / step * step) % step == 0,
{
    vstd::arithmetic::div_mod::lemma_fundamental_div_mod(x, step);
    vstd::arithmetic::div_mod::lemma_div_pos_is_pos(x, step);
    vstd::arithmetic::mul::lemma_mul_is_commutative(x / step, step);
    vstd::arithmetic::mul::lemma_mul_nonnegative(x / step, step);
    vstd::arithmetic::div_mod::lemma_mod_multiples_basic(x / step, step);
}

/// What a recorded event does when it is played.
#[derive(Clone, Copy, Debug, PartialEq, Eq, Structural)]
pub enum MessageType {
    NoteOn,
    NoteOff,
    PitchBend,
}

/// One event of a track, at a tick of the track's loop.
#[derive(Clone, Copy, Debug, PartialEq, Eq, Structural)]
pub struct TrackEvent {
    pub tick: usize,
    pub message_type: MessageType,
    /// Note number, or the low seven bits of a pitch bend.
    pub data1: u8,
    /// Velocity, or the high seven bits of a pitch bend.
    pub data2: u8,
    pub channel: u8,
}

/// `notes` with `note` added at the end, unless it is already there.
pub open spec fn with_note(notes: Seq<(u8, u8)>, note: (u8, u8)) -> Seq<(u8, u8)> {
    if notes.contains(note) {
        notes
    } else {
        notes.push(note)
    }
}

/// `notes` without `note`.
pub open spec fn without_note(notes: Seq<(u8, u8)>, note: (u8, u8)) -> Seq<(u8, u8)> {
    if notes.contains(note) {
        notes.remove(notes.index_of(note))
    } else {
        notes
    }
}

/// A set of `(note, channel)` pairs that remembers the order of arrival.
#[derive(Debug)]
pub struct NoteSet {
    notes: Vec<(u8, u8)>,
}

impl View for NoteSet {
    type V = Seq<(u8, u8)>;

    closed spec fn view(&self) -> Seq<(u8, u8)> {
        self.notes@
    }
}

impl NoteSet {
    #[verifier::type_invariant]
    spec fn no_note_twice(self) -> bool {
        self.notes@.no_duplicates()
    }

    /// The empty set.
    pub fn new() -> (r: NoteSet)
        ensures
            r@ == Seq::<(u8, u8)>::empty(),
    {
        NoteSet { notes: Vec::new() }
    }

    /// How many pairs the set holds.
    pub fn len(&self) -> (r: usize)
        ensures
            r == self@.len(),
            self@.no_duplicates(),
    {
        proof {
            use_type_invariant(self);
        }
        self.notes.len()
    }

    /// The pair that arrived as number `i`, counting from zero.
    pub fn get(&self, i: usize) -> (r: (u8, u8))
        requires
            i < self@.len(),
        ensures
            r == self@[i as int],
    {
        self.notes[i]
    }

    fn position(&self, note: (u8, u8)) -> (r: Option<usize>)
        ensures
            match r {
                Some(i) => i < self@.len() && self@[i as int] == note,
                None => !self@.contains(note),
            },
    {
        let mut i: usize = 0;
        while i < self.notes.len()
            invariant
                i <= self@.len(),
                forall|j: int| 0 <= j < i ==> self@[j] != note,
            decreases self@.len() - i,
        {
            let at: (u8, u8) = self.notes[i];
            if at.0 == note.0 && at.1 == note.1 {
                return Some(i);
            }
            i = i + 1;
        }
        None
    }

    /// Whether the pair is in the set.
    pub fn contains(&self, note: (u8, u8)) -> (r: bool)
        ensures
            r == self@.contains(note),
    {
        self.position(note).is_some()
    }

    /// Adds a pair.
    pub fn insert(&mut self, note: (u8, u8))
        ensures
            final(self)@ == with_note(old(self)@, note),
            final(self)@.no_duplicates(),
    {
        proof {
            use_type_invariant(&*self);
        }
        if self.position(note).is_none() {
            let mut notes: Vec<(u8, u8)> = Vec::new();
            std::mem::swap(&mut notes, &mut self.notes);
            notes.push(note);
            self.notes = notes;
        }
    }

    /// Takes a pair out and says whether it was there.
    pub fn remove(&mut self, note: (u8, u8)) -> (r: bool)
        ensures
            r == old(self)@.contains(note),
            final(self)@ == without_note(old(self)@, note),
            final(self)@.no_duplicates(),
    {
        proof {
            use_type_invariant(&*self);
        }
        match self.position(note) {
            Some(i) => {
                let mut notes: Vec<(u8, u8)> = Vec::new();
                std::mem::swap(&mut notes, &mut self.notes);
                let _gone: (u8, u8) = notes.remove(i);
                self.notes = notes;
                true
            },
            None => false,
        }
    }
}

/// A velocity capped to the MIDI maximum.
pub open spec fn capped(velocity: u32) -> u8 {
    if velocity > 127 {
        127u8
    } else {
        velocity as u8
    }
}

/// The velocity that is sent for `played`: an override replaces it, a scale then applies.
pub open spec fn adjusted(played: u8, fixed: Option<u8>, scale: Seq<u32>) -> u8 {
    capped(
        scale[(match fixed {
            Some(v) => v,
            None => played,
        }) as int],
    )
}

/// A velocity multiplier, tabulated: entry `v` is velocity `v` times the multiplier, rounded
/// toward zero.
#[derive(Clone, Copy, Debug)]
pub struct VelocityScale {
    pub scaled: [u32; 256],
}

impl View for VelocityScale {
    type V = Seq<u32>;

    open spec fn view(&self) -> Seq<u32> {
        self.scaled@
    }
}

/// The table of the multiplier one.
pub open spec fn unit_scale() -> Seq<u32> {
    Seq::new(256, |v: int| v as u32)
}

impl VelocityScale {
    /// The multiplier one.
    pub fn unity() -> (r: VelocityScale)
        ensures
            r@ == unit_scale(),
    {
        let mut scaled: [u32; 256] = [0u32;256];
        let mut v: usize = 0;
        while v < 256
            invariant
                v <= 256,
                forall|i: int| 0 <= i < v ==> scaled@[i] == i,
            decreases 256 - v,
        {
            scaled[v] = v as u32;
            v = v + 1;
        }
        VelocityScale { scaled }
    }

    /// The velocity to send for `played`.
    pub fn adjust(&self, played: u8, fixed: Option<u8>) -> (r: u8)
        ensures
            r == adjusted(played, fixed, self@),
            r <= 127,
    {
        let base: u8 = match fixed {
            Some(v) => v,
            None => played,
        };
        let scaled: u32 = self.scaled[base as usize];
        if scaled > 127 {
            127
        } else {
            scaled as u8
        }
    }
}

/// Everything that the looper knows while it runs. Track 0 is the drum lane.
pub struct EngineState {
    pub bpm: u32,
    pub ppqn: usize,
    pub time_signature_numerator: u32,
    pub time_signature_denominator: u32,
    pub ticks_per_measure: usize,
    pub max_tick: usize,
    pub current_tick: usize,
    pub is_recording: bool,
    pub pending_record: bool,
    /// When record was armed, in nanoseconds of a clock that never goes back.
    pub record_armed_at: Option<u128>,
    /// The least time from arming to punch-in, in nanoseconds.
    pub record_arm_time: u128,
    pub metronome_on: bool,
    pub quantize_on: bool,
    pub active_track: usize,
    pub track_channels: HashMap<usize, u8>,
    pub tracks: HashMap<usize, Vec<TrackEvent>>,
    pub track_lengths: HashMap<usize, usize>,
    pub track_programs: HashMap<usize, u8>,
    pub track_volumes: HashMap<usize, u8>,
    pub track_velocities: HashMap<usize, Option<u8>>,
    pub track_velocity_multipliers: HashMap<usize, VelocityScale>,
    pub drum_velocity: Option<u8>,
    pub drum_velocity_multiplier: VelocityScale,
    pub track_history: HashMap<usize, Vec<Vec<TrackEvent>>>,
    pub muted_tracks: HashSet<usize>,
    /// How many events of a track were there when its current pass began.
    pub loop_start_lens: HashMap<usize, usize>,
    /// Notes of the current recording that are still held down, by track. They are closed at the
    /// loop boundary or when recording stops.
    pub held_notes: HashMap<usize, NoteSet>,
    /// Keys that are down right now, recording or not.
    pub physically_held: NoteSet,
    pub shift_held: bool,
    pub current_scene_idx: usize,
    pub scene_name: String,
    pub scene_display_name: Option<String>,
    pub track_ids: Vec<usize>,
    pub track_names: HashMap<usize, String>,
    pub drums_name: Option<String>,
}

/// The engine's state as a mathematical value.
#[verifier::ext_equal]
pub struct Engine {
    pub bpm: u32,
    pub ppqn: usize,
    pub time_signature_numerator: u32,
    pub time_signature_denominator: u32,
    pub ticks_per_measure: usize,
    pub max_tick: usize,
    pub current_tick: usize,
    pub is_recording: bool,
    pub pending_record: bool,
    pub record_armed_at: Option<u128>,
    pub record_arm_time: u128,
    pub metronome_on: bool,
    pub quantize_on: bool,
    pub active_track: usize,
    pub track_channels: Map<usize, u8>,
    pub tracks: Map<usize, Seq<TrackEvent>>,
    pub track_lengths: Map<usize, usize>,
    pub track_programs: Map<usize, u8>,
    pub track_volumes: Map<usize, u8>,
    pub track_velocities: Map<usize, Option<u8>>,
    pub track_velocity_multipliers: Map<usize, Seq<u32>>,
    pub drum_velocity: Option<u8>,
    pub drum_velocity_multiplier: Seq<u32>,
    pub track_history: Map<usize, Seq<Seq<TrackEvent>>>,
    pub muted_tracks: Set<usize>,
    pub loop_start_lens: Map<usize, usize>,
    pub held_notes: Map<usize, Seq<(u8, u8)>>,
    pub physically_held: Seq<(u8, u8)>,
    pub shift_held: bool,
    pub current_scene_idx: usize,
    pub scene_name: Seq<char>,
    pub scene_display_name: Option<Seq<char>>,
    pub track_ids: Seq<usize>,
    pub track_names: Map<usize, Seq<char>>,
    pub drums_name: Option<Seq<char>>,
}

/// The takes of a track's history.
pub open spec fn takes(history: Seq<Vec<TrackEvent>>) -> Seq<Seq<TrackEvent>> {
    history.map_values(|take: Vec<TrackEvent>| take@)
}

/// The text of an optional name.
pub open spec fn name_text(name: Option<String>) -> Option<Seq<char>> {
    match name {
        Some(s) => Some(s@),
        None => None,
    }
}

impl View for EngineState {
    type V = Engine;

    open spec fn view(&self) -> Engine {
        Engine {
            bpm: self.bpm,
            ppqn: self.ppqn,
            time_signature_numerator: self.time_signature_numerator,
            time_signature_denominator: self.time_signature_denominator,
            ticks_per_measure: self.ticks_per_measure,
            max_tick: self.max_tick,
            current_tick: self.current_tick,
            is_recording: self.is_recording,
            pending_record: self.pending_record,
            record_armed_at: self.record_armed_at,
            record_arm_time: self.record_arm_time,
            metronome_on: self.metronome_on,
            quantize_on: self.quantize_on,
            active_track: self.active_track,
            track_channels: self.track_channels@,
            tracks: self.tracks@.map_values(|events: Vec<TrackEvent>| events@),
            track_lengths: self.track_lengths@,
            track_programs: self.track_programs@,
            track_volumes: self.track_volumes@,
            track_velocities: self.track_velocities@,
            track_velocity_multipliers: self.track_velocity_multipliers@.map_values(
                |scale: VelocityScale| scale@,
            ),
            drum_velocity: self.drum_velocity,
            drum_velocity_multiplier: self.drum_velocity_multiplier@,
            track_history: self.track_history@.map_values(
                |history: Vec<Vec<TrackEvent>>| takes(history@),
            ),
            muted_tracks: self.muted_tracks@,
            loop_start_lens: self.loop_start_lens@,
            held_notes: self.held_notes@.map_values(|notes: NoteSet| notes@),
            physically_held: self.physically_held@,
            shift_held: self.shift_held,
            current_scene_idx: self.current_scene_idx,
            scene_name: self.scene_name@,
            scene_display_name: name_text(self.scene_display_name),
            track_ids: self.track_ids@,
            track_names: self.track_names@.map_values(|name: String| name@),
            drums_name: name_text(self.drums_name),
        }
    }
}

impl EngineState {
    /// Replaces the events of a track.
    pub(crate) fn put_events(&mut self, id: usize, events: Vec<TrackEvent>)
        ensures
            final(self)@ == (Engine { tracks: old(self)@.tracks.insert(id, events@), ..old(self)@ }),
    {
        self.tracks.insert(id, events);
        assert(self@.tracks =~= old(self)@.tracks.insert(id, events@));
    }

    /// Takes a track away.
    pub(crate) fn drop_events(&mut self, id: usize)
        ensures
            final(self)@ == (Engine { tracks: old(self)@.tracks.remove(id), ..old(self)@ }),
    {
        self.tracks.remove(&id);
        assert(self@.tracks =~= old(self)@.tracks.remove(id));
    }

    /// Sets the name of a track, or takes it away.
    pub(crate) fn put_name(&mut self, id: usize, name: Option<String>)
        ensures
            final(self)@ == (Engine {
                track_names: match name {
                    Some(n) => old(self)@.track_names.insert(id, n@),
                    None => old(self)@.track_names.remove(id),
                },
                ..old(self)@
            }),
    {
        match name {
            Some(n) => {
                self.track_names.insert(id, n);
                assert(self@.track_names =~= old(self)@.track_names.insert(id, n@));
            },
            None => {
                self.track_names.remove(&id);
                assert(self@.track_names =~= old(self)@.track_names.remove(id));
            },
        }
    }
}

} // verus!
