//! What the looper does with a message from the controller.
use crate::config;
use crate::config::{KeyBinding, KeyMappings, SceneConfig};
use crate::domain;
use crate::domain::{Engine, EngineState, MessageType, TrackEvent};
use crate::output;
use crate::output::{Output, Sent};
use crate::recording;
use crate::scene;
use crate::tables;
use vstd::prelude::*;

verus! {

/// What a message brings about: the engine after it, what is sent, and the new pads where the
/// scene changed them.
#[verifier::ext_equal]
pub struct Reaction {
    pub engine: Engine,
    pub sent: Seq<Sent>,
    pub pads: Option<(Seq<Seq<u8>>, u8)>,
}

/// The engine changes to `e`, and `sent` goes out.
pub open spec fn answered(e: Engine, sent: Seq<Sent>) -> Reaction {
    Reaction { engine: e, sent, pads: None }
}

/// The engine changes to `e`, and nothing goes out.
pub open spec fn quiet(e: Engine) -> Reaction {
    answered(e, Seq::empty())
}

/// The channel of the active track.
pub open spec fn active_channel(e: Engine) -> u8 {
    e.track_channels[e.active_track]
}

/// Whether the active track has a channel.
pub open spec fn has_channel(e: Engine) -> bool {
    e.track_channels.contains_key(e.active_track)
}

/// The loop length that a note sets while the modifier is held: four, eight or sixteen beats.
pub open spec fn chosen_length(keys: KeyMappings, note: u8, channel: u8) -> Option<usize> {
    if keys.beat4.is_note(note, channel) {
        Some(96)
    } else if keys.beat8.is_note(note, channel) {
        Some(192)
    } else if keys.beat16.is_note(note, channel) {
        Some(384)
    } else {
        None
    }
}

/// The events of `events` that come before tick `length`.
pub open spec fn clipped(events: Seq<TrackEvent>, length: usize) -> Seq<TrackEvent> {
    events.filter(|event: TrackEvent| event.tick < length)
}

/// The engine with the active track cut or extended to `length` ticks.
pub open spec fn resized(e: Engine, length: usize) -> Engine {
    Engine {
        tracks: if e.tracks.contains_key(e.active_track) {
            e.tracks.insert(e.active_track, clipped(e.tracks[e.active_track], length))
        } else {
            e.tracks
        },
        track_lengths: e.track_lengths.insert(e.active_track, length),
        ..e
    }
}

/// A note message, told apart from its bytes: a start of velocity zero is an end.
pub open spec fn starts_note(bytes: Seq<u8>) -> bool {
    bytes[0] & 0xF0 == 0x90 && bytes[2] > 0
}

/// The bytes that pass a note on to the channel of the active track.
pub open spec fn passed_on(e: Engine, bytes: Seq<u8>) -> Seq<u8> {
    if starts_note(bytes) {
        bytes.update(0, 0x90u8 | active_channel(e)).update(
            2,
            recording::sounding_velocity(e, e.active_track, bytes[2]),
        )
    } else {
        bytes.update(0, 0x80u8 | active_channel(e))
    }
}

/// The engine with a key of the keyboard down or up.
pub open spec fn key_moved(e: Engine, down: bool, note: (u8, u8)) -> Engine {
    Engine {
        physically_held: if down {
            domain::with_note(e.physically_held, note)
        } else {
            domain::without_note(e.physically_held, note)
        },
        ..e
    }
}

/// The event that records a note message on the active track.
pub open spec fn note_event(e: Engine, bytes: Seq<u8>) -> TrackEvent {
    TrackEvent {
        tick: recording::recorded_tick(e, e.track_lengths[e.active_track]),
        message_type: if starts_note(bytes) {
            MessageType::NoteOn
        } else {
            MessageType::NoteOff
        },
        data1: bytes[1],
        data2: bytes[2],
        channel: active_channel(e),
    }
}

/// Whether the modifier swallows notes on `channel`.
pub open spec fn swallows(e: Engine, keys: KeyMappings, channel: u8) -> bool {
    e.shift_held && keys.shift.hears(channel)
}

/// What a note message brings about. While the modifier is held, notes on its channel only set
/// loop lengths. Notes on channel 9 do nothing. Any other note goes to the active track.
pub open spec fn note_reaction(e: Engine, keys: KeyMappings, bytes: Seq<u8>) -> Reaction {
    let channel = bytes[0] & 0x0F;
    if swallows(e, keys, channel) {
        match chosen_length(keys, bytes[1], channel) {
            Some(length) => if starts_note(bytes) {
                quiet(resized(e, length))
            } else {
                quiet(e)
            },
            None => quiet(e),
        }
    } else if channel == 9 {
        quiet(e)
    } else {
        let moved = key_moved(e, starts_note(bytes), (bytes[1], active_channel(e)));
        answered(
            if e.is_recording {
                recording::with_note_recorded(moved, e.active_track, note_event(e, bytes))
            } else {
                moved
            },
            seq![Sent::Synth(passed_on(e, bytes))],
        )
    }
}

/// Whether the active track has a loop in which to record now.
pub open spec fn has_loop(e: Engine) -> bool {
    &&& e.track_lengths.contains_key(e.active_track)
    &&& e.track_lengths[e.active_track] > 0
}

/// Whether the engine can take a note message.
pub open spec fn note_ready(e: Engine, keys: KeyMappings, bytes: Seq<u8>) -> bool {
    let channel = bytes[0] & 0x0F;
    let note = (bytes[1], active_channel(e));
    swallows(e, keys, channel) || channel == 9 || {
        &&& has_channel(e)
        &&& e.is_recording ==> has_loop(e) && recording::snaps(
            e,
            e.current_tick,
            e.track_lengths[e.active_track],
        )
        &&& e.is_recording && (starts_note(bytes) || recording::held_on(
            e,
            e.active_track,
        ).contains(note)) ==> e.tracks.contains_key(e.active_track)
    }
}

fn clip(events: &Vec<TrackEvent>, length: usize) -> (r: Vec<TrackEvent>)
    ensures
        r@ == clipped(events@, length),
{
    let ghost early = |event: TrackEvent| event.tick < length;
    let mut r: Vec<TrackEvent> = Vec::new();
    let mut i: usize = 0;
    proof {
        reveal(Seq::filter);
    }
    while i < events.len()
        invariant
            i <= events@.len(),
            r@ == events@.take(i as int).filter(early),
            early == (|event: TrackEvent| event.tick < length),
        decreases events@.len() - i,
    {
        let event: TrackEvent = events[i];
        proof {
            reveal(Seq::filter);
            assert(events@.take(i as int + 1).drop_last() =~= events@.take(i as int));
        }
        if event.tick < length {
            r.push(event);
        }
        i = i + 1;
    }
    assert(events@.take(i as int) =~= events@);
    r
}

impl EngineState {
    fn resize(&mut self, length: usize)
        ensures
            final(self)@ == resized(old(self)@, length),
    {
        let active: usize = self.active_track;
        match self.tracks.remove(&active) {
            Some(events) => {
                let kept: Vec<TrackEvent> = clip(&events, length);
                self.tracks.insert(active, kept);
                assert(self@.tracks =~= resized(old(self)@, length).tracks);
            },
            None => {
                assert(self@.tracks =~= old(self)@.tracks);
            },
        }
        self.track_lengths.insert(active, length);
    }

    fn move_key(&mut self, down: bool, note: (u8, u8))
        ensures
            final(self)@ == key_moved(old(self)@, down, note),
    {
        if down {
            self.physically_held.insert(note);
        } else {
            self.physically_held.remove(note);
        }
    }

    fn channel_of_active(&self) -> (r: u8)
        requires
            has_channel(self@),
        ensures
            r == active_channel(self@),
    {
        *self.track_channels.get(&self.active_track).unwrap()
    }
}

fn choose_length(keys: &KeyMappings, note: u8, channel: u8) -> (r: Option<usize>)
    ensures
        r == chosen_length(*keys, note, channel),
{
    if keys.beat4.matches_note(note, channel) {
        Some(96)
    } else if keys.beat8.matches_note(note, channel) {
        Some(192)
    } else if keys.beat16.matches_note(note, channel) {
        Some(384)
    } else {
        None
    }
}

/// Takes a note message.
pub fn take_note(bytes: &[u8], state: &mut EngineState, keys: &KeyMappings) -> (r: Vec<Output>)
    requires
        bytes@.len() >= 3,
        note_ready(old(state)@, *keys, bytes@),
    ensures
        final(state)@ == note_reaction(old(state)@, *keys, bytes@).engine,
        output::sent(r@) == note_reaction(old(state)@, *keys, bytes@).sent,
{
    broadcast use output::lemma_sent_push;
    broadcast use output::lemma_sent_empty;

    let channel: u8 = bytes[0] & 0x0F;
    let note: u8 = bytes[1];
    let velocity: u8 = bytes[2];
    let starts: bool = bytes[0] & 0xF0 == 0x90 && velocity > 0;
    let mut out: Vec<Output> = Vec::new();
    if state.shift_held && keys.shift.on_channel(channel) {
        if starts {
            match choose_length(keys, note, channel) {
                Some(length) => {
                    state.resize(length);
                },
                None => {},
            }
        }
        return out;
    }
    if channel == 9 {
        return out;
    }
    let active: usize = state.active_track;
    let target: u8 = state.channel_of_active();
    let mut outbound: Vec<u8> = vstd::slice::slice_to_vec(bytes);
    if starts {
        outbound.set(0, 0x90u8 | target);
        outbound.set(2, state.sounding_velocity(active, velocity));
    } else {
        outbound.set(0, 0x80u8 | target);
    }
    let ghost before = state@;
    assert(outbound@ =~= passed_on(before, bytes@));
    state.move_key(starts, (note, target));
    if state.is_recording {
        let length: usize = *state.track_lengths.get(&active).unwrap();
        let tick: usize = state.recorded_tick(length);
        let message_type: MessageType = if starts {
            MessageType::NoteOn
        } else {
            MessageType::NoteOff
        };
        state.record_note(
            active,
            TrackEvent { tick, message_type, data1: note, data2: velocity, channel: target },
        );
    }
    out.push(Output::Synth(outbound));
    out
}

/// What a pitch bend brings about. It is recorded where it is played, even while quantizing.
pub open spec fn bend_reaction(e: Engine, bytes: Seq<u8>) -> Reaction {
    let event = TrackEvent {
        tick: (e.current_tick as int % e.track_lengths[e.active_track] as int) as usize,
        message_type: MessageType::PitchBend,
        data1: bytes[1],
        data2: bytes[2],
        channel: active_channel(e),
    };
    answered(
        if e.is_recording {
            recording::with_event(e, e.active_track, event)
        } else {
            e
        },
        seq![Sent::Synth(seq![0xE0u8 | active_channel(e), bytes[1], bytes[2]])],
    )
}

/// Whether the engine can take a pitch bend.
pub open spec fn bend_ready(e: Engine) -> bool {
    &&& has_channel(e)
    &&& e.is_recording ==> has_loop(e) && e.tracks.contains_key(e.active_track)
}

/// Takes a pitch bend.
pub fn take_bend(bytes: &[u8], state: &mut EngineState) -> (r: Vec<Output>)
    requires
        bytes@.len() >= 3,
        bend_ready(old(state)@),
    ensures
        final(state)@ == bend_reaction(old(state)@, bytes@).engine,
        output::sent(r@) == bend_reaction(old(state)@, bytes@).sent,
{
    broadcast use output::lemma_sent_push;
    broadcast use output::lemma_sent_empty;

    let active: usize = state.active_track;
    let target: u8 = state.channel_of_active();
    if state.is_recording {
        let length: usize = *state.track_lengths.get(&active).unwrap();
        let tick: usize = state.current_tick % length;
        state.push_event(
            active,
            TrackEvent {
                tick,
                message_type: MessageType::PitchBend,
                data1: bytes[1],
                data2: bytes[2],
                channel: target,
            },
        );
    }
    let mut out: Vec<Output> = Vec::new();
    out.push(output::synth3(0xE0u8 | target, bytes[1], bytes[2]));
    out
}

/// Whether an optional key is this control change on this channel.
pub open spec fn is_bound(key: Option<KeyBinding>, cc_num: u8, channel: u8) -> bool {
    key matches Some(k) && k.is_cc(cc_num, channel)
}

pub(crate) fn bound(key: &Option<KeyBinding>, cc_num: u8, channel: u8) -> (r: bool)
    ensures
        r == is_bound(*key, cc_num, channel),
{
    match key {
        Some(k) => k.matches_cc(cc_num, channel),
        None => false,
    }
}

/// The first of `keys` that is this control change on this channel.
pub open spec fn first_bound(keys: Seq<KeyBinding>, cc_num: u8, channel: u8) -> Option<int>
    decreases keys.len(),
{
    if keys.len() == 0 {
        None
    } else {
        match first_bound(keys.drop_last(), cc_num, channel) {
            Some(i) => Some(i),
            None => if keys.last().is_cc(cc_num, channel) {
                Some(keys.len() - 1)
            } else {
                None
            },
        }
    }
}

pub(crate) fn find_bound(keys: &Vec<KeyBinding>, cc_num: u8, channel: u8) -> (r: Option<usize>)
    ensures
        match r {
            Some(i) => i < keys@.len() && first_bound(keys@, cc_num, channel) == Some(i as int),
            None => first_bound(keys@, cc_num, channel) is None,
        },
{
    let mut found: Option<usize> = None;
    let mut i: usize = 0;
    while i < keys.len()
        invariant
            i <= keys@.len(),
            match found {
                Some(j) => j < i && first_bound(keys@.take(i as int), cc_num, channel) == Some(
                    j as int,
                ),
                None => first_bound(keys@.take(i as int), cc_num, channel) is None,
            },
        decreases keys@.len() - i,
    {
        assert(keys@.take(i as int + 1).drop_last() =~= keys@.take(i as int));
        if found.is_none() && keys[i].matches_cc(cc_num, channel) {
            found = Some(i);
        }
        i = i + 1;
    }
    assert(keys@.take(i as int) =~= keys@);
    found
}

/// The velocity of a pad: fixed and scaled while it is struck, zero when it is let go.
pub open spec fn pad_velocity(e: Engine, value: u8) -> u8 {
    if value > 0 {
        domain::adjusted(value, e.drum_velocity, e.drum_velocity_multiplier)
    } else {
        0
    }
}

/// The event that records one note of a pad.
pub open spec fn pad_event(e: Engine, note: u8, value: u8, channel: u8) -> TrackEvent {
    TrackEvent {
        tick: recording::recorded_tick(e, recording::loop_length(e, 0)),
        message_type: if value > 0 {
            MessageType::NoteOn
        } else {
            MessageType::NoteOff
        },
        data1: note,
        data2: pad_velocity(e, value),
        channel,
    }
}

/// The engine with the notes of a pad recorded on the drum lane.
pub open spec fn pad_recorded(e: Engine, notes: Seq<u8>, value: u8, channel: u8) -> Engine
    decreases notes.len(),
{
    if notes.len() == 0 {
        e
    } else {
        recording::with_note_recorded(
            pad_recorded(e, notes.drop_last(), value, channel),
            0,
            pad_event(e, notes.last(), value, channel),
        )
    }
}

/// The messages that sound or end the notes of a pad.
pub open spec fn pad_messages(e: Engine, notes: Seq<u8>, value: u8, channel: u8) -> Seq<Sent> {
    let status: u8 = if value > 0 {
        0x90
    } else {
        0x80
    };
    notes.map_values(|note: u8| Sent::Synth(seq![status | channel, note, pad_velocity(e, value)]))
}

/// What a pad brings about; one without notes does nothing.
pub open spec fn pad_reaction(e: Engine, keys: KeyMappings, pad: int, value: u8) -> Reaction {
    if pad < keys.drum_notes@.len() {
        let notes = keys.drum_notes@[pad]@;
        answered(
            if e.is_recording {
                pad_recorded(e, notes, value, keys.drum_channel)
            } else {
                e
            },
            pad_messages(e, notes, value, keys.drum_channel),
        )
    } else {
        quiet(e)
    }
}

/// Whether the engine can take a pad.
pub open spec fn pad_ready(e: Engine, keys: KeyMappings, pad: int) -> bool {
    e.is_recording && pad < keys.drum_notes@.len() ==> recording::snaps(
        e,
        e.current_tick,
        recording::loop_length(e, 0),
    )
}

fn play_pad(state: &EngineState, notes: &Vec<u8>, value: u8, channel: u8) -> (r: Vec<Output>)
    ensures
        output::sent(r@) == pad_messages(state@, notes@, value, channel),
{
    broadcast use output::lemma_sent_push;
    broadcast use output::lemma_sent_empty;

    let status: u8 = if value > 0 {
        0x90
    } else {
        0x80
    };
    let velocity: u8 = if value > 0 {
        state.drum_velocity_multiplier.adjust(value, state.drum_velocity)
    } else {
        0
    };
    let mut out: Vec<Output> = Vec::new();
    let mut i: usize = 0;
    while i < notes.len()
        invariant
            i <= notes@.len(),
            velocity == pad_velocity(state@, value),
            status == if value > 0 {
                0x90u8
            } else {
                0x80u8
            },
            output::sent(out@) == pad_messages(state@, notes@, value, channel).take(i as int),
        decreases notes@.len() - i,
    {
        let ghost all = pad_messages(state@, notes@, value, channel);
        out.push(output::synth3(status | channel, notes[i], velocity));
        assert(all.take(i as int + 1) =~= all.take(i as int).push(all[i as int]));
        i = i + 1;
    }
    out
}

fn record_pad(state: &mut EngineState, notes: &Vec<u8>, value: u8, channel: u8)
    requires
        recording::snaps(
            old(state)@,
            old(state)@.current_tick,
            recording::loop_length(old(state)@, 0),
        ),
    ensures
        final(state)@ == pad_recorded(old(state)@, notes@, value, channel),
{
    let ghost before = state@;
    let length: usize = state.loop_length(0);
    let tick: usize = state.recorded_tick(length);
    let velocity: u8 = if value > 0 {
        state.drum_velocity_multiplier.adjust(value, state.drum_velocity)
    } else {
        0
    };
    let message_type: MessageType = if value > 0 {
        MessageType::NoteOn
    } else {
        MessageType::NoteOff
    };
    let mut i: usize = 0;
    assert(notes@.take(0) =~= Seq::<u8>::empty());
    while i < notes.len()
        invariant
            i <= notes@.len(),
            state@ == pad_recorded(before, notes@.take(i as int), value, channel),
            forall|note: u8|
                pad_event(before, note, value, channel) == (TrackEvent {
                    tick,
                    message_type,
                    data1: note,
                    data2: velocity,
                    channel,
                }),
        decreases notes@.len() - i,
    {
        let note: u8 = notes[i];
        assert(notes@.take(i as int + 1).drop_last() =~= notes@.take(i as int));
        state.record_note(
            0,
            TrackEvent { tick, message_type, data1: note, data2: velocity, channel },
        );
        i = i + 1;
    }
    assert(notes@.take(i as int) =~= notes@);
}

/// Takes a pad.
fn take_pad(state: &mut EngineState, keys: &KeyMappings, pad: usize, value: u8) -> (r: Vec<Output>)
    requires
        pad_ready(old(state)@, *keys, pad as int),
    ensures
        final(state)@ == pad_reaction(old(state)@, *keys, pad as int, value).engine,
        output::sent(r@) == pad_reaction(old(state)@, *keys, pad as int, value).sent,
{
    broadcast use output::lemma_sent_empty;

    if pad >= keys.drum_notes.len() {
        return Vec::new();
    }
    let notes: &Vec<u8> = &keys.drum_notes[pad];
    let out: Vec<Output> = play_pad(state, notes, value, keys.drum_channel);
    if state.is_recording {
        record_pad(state, notes, value, keys.drum_channel);
    }
    out
}

/// The light of a key, where both the light and the channel of the wanted state are known.
pub open spec fn light(note: Option<u8>, channel: Option<u8>) -> Seq<Sent> {
    match (note, channel) {
        (Some(n), Some(c)) => seq![output::led_message(n, c)],
        _ => Seq::<Sent>::empty(),
    }
}

fn set_light(note: Option<u8>, channel: Option<u8>) -> (r: Vec<Output>)
    ensures
        output::sent(r@) == light(note, channel),
{
    broadcast use output::lemma_sent_push;
    broadcast use output::lemma_sent_empty;

    let mut out: Vec<Output> = Vec::new();
    match (note, channel) {
        (Some(n), Some(c)) => {
            out.push(output::send_led(n, c));
        },
        _ => {},
    }
    out
}

fn silence_one(channel: u8) -> (r: Vec<Output>)
    ensures
        output::sent(r@) == seq![output::all_notes_off(channel)],
{
    broadcast use output::lemma_sent_push;
    broadcast use output::lemma_sent_empty;

    let mut out: Vec<Output> = Vec::new();
    out.push(output::silence(channel));
    out
}

/// The tracks with every held note ended where it would be recorded now.
pub open spec fn sealed_tracks(e: Engine) -> Map<usize, Seq<TrackEvent>> {
    e.tracks.map_entries(|id: usize, events: Seq<TrackEvent>| events + recording::seals(
        recording::held_on(e, id),
        recording::recorded_tick(e, recording::loop_length(e, id)),
    ))
}

/// The engine after recording stops: no note is left held.
pub open spec fn stopped(e: Engine) -> Engine {
    Engine { is_recording: false, tracks: sealed_tracks(e), held_notes: Map::empty(), ..e }
}

/// Whether recording can stop.
pub open spec fn stop_ready(e: Engine) -> bool {
    forall|id: usize| #[trigger]
        e.held_notes.contains_key(id) ==> recording::snaps(
            e,
            e.current_tick,
            recording::loop_length(e, id),
        )
}

spec fn sealed_some(e: Engine, ids: Seq<usize>) -> Map<usize, Seq<TrackEvent>> {
    Map::new(
        |id: usize| e.tracks.contains_key(id),
        |id: usize|
            if ids.contains(id) {
                sealed_tracks(e)[id]
            } else {
                e.tracks[id]
            },
    )
}

impl EngineState {
    fn stop_recording(&mut self)
        requires
            stop_ready(old(self)@),
        ensures
            final(self)@ == stopped(old(self)@),
    {
        let ghost before = self@;
        self.is_recording = false;
        let ids: Vec<usize> = tables::keys_of(&self.held_notes);
        let mut i: usize = 0;
        assert(self@.tracks =~= sealed_some(before, ids@.take(0)));
        while i < ids.len()
            invariant
                i <= ids@.len(),
                ids@.no_duplicates(),
                ids@.to_set() == before.held_notes.dom(),
                stop_ready(before),
                self@ == (Engine {
                    is_recording: false,
                    tracks: sealed_some(before, ids@.take(i as int)),
                    ..before
                }),
            decreases ids@.len() - i,
        {
            let id: usize = ids[i];
            assert(ids@.to_set().contains(id));
            assert(before.held_notes.contains_key(id));
            let length: usize = self.loop_length(id);
            let tick: usize = self.recorded_tick(length);
            self.seal(id, tick);
            assert(ids@.take(i as int + 1) =~= ids@.take(i as int).push(id));
            assert forall|k: usize| #[trigger]
                ids@.take(i as int + 1).contains(k) <==> ids@.take(i as int).contains(k) || k
                    == id by {
                if ids@.take(i as int).contains(k) {
                    let j = choose|j: int| 0 <= j < i && ids@.take(i as int)[j] == k;
                    assert(ids@.take(i as int + 1)[j] == k);
                }
                assert(ids@.take(i as int + 1)[i as int] == id);
            }
            assert(!ids@.take(i as int).contains(id));
            assert(self@.tracks =~= sealed_some(before, ids@.take(i as int + 1)));
            i = i + 1;
        }
        self.held_notes.clear();
        assert(self@.held_notes =~= Map::empty());
        assert(self@.tracks =~= sealed_tracks(before)) by {
            assert(ids@.take(i as int) =~= ids@);
            assert forall|id: usize| #[trigger] before.tracks.contains_key(id) implies sealed_some(
                before,
                ids@,
            )[id] =~= sealed_tracks(before)[id] by {
                if !ids@.contains(id) {
                    assert(!ids@.to_set().contains(id));
                }
            }
        }
    }
}

/// What the record key brings about: it stops a recording, cancels an armed one, or arms one.
pub open spec fn record_reaction(e: Engine, keys: KeyMappings, now: u128) -> Reaction {
    if e.is_recording {
        answered(stopped(e), light(keys.record_led, keys.led_off_channel))
    } else if e.pending_record {
        answered(
            Engine {
                pending_record: false,
                record_armed_at: None,
                held_notes: Map::empty(),
                ..e
            },
            light(keys.record_led, keys.led_off_channel),
        )
    } else {
        answered(
            Engine { pending_record: true, record_armed_at: Some(now), ..e },
            light(keys.record_led, keys.led_blink_channel),
        )
    }
}

fn press_record(state: &mut EngineState, keys: &KeyMappings, now: u128) -> (r: Vec<Output>)
    requires
        old(state)@.is_recording ==> stop_ready(old(state)@),
    ensures
        final(state)@ == record_reaction(old(state)@, *keys, now).engine,
        output::sent(r@) == record_reaction(old(state)@, *keys, now).sent,
{
    if state.is_recording {
        state.stop_recording();
        set_light(keys.record_led, keys.led_off_channel)
    } else if state.pending_record {
        state.pending_record = false;
        state.record_armed_at = None;
        state.held_notes.clear();
        assert(state@.held_notes =~= Map::empty());
        set_light(keys.record_led, keys.led_off_channel)
    } else {
        state.pending_record = true;
        state.record_armed_at = Some(now);
        set_light(keys.record_led, keys.led_blink_channel)
    }
}

/// Those of the channels below `n` that are in `channels`, in rising order.
pub open spec fn rising(channels: Set<u8>, n: nat) -> Seq<u8>
    decreases n,
{
    if n == 0 {
        Seq::empty()
    } else {
        let rest = rising(channels, (n - 1) as nat);
        if channels.contains((n - 1) as u8) {
            rest.push((n - 1) as u8)
        } else {
            rest
        }
    }
}

/// The messages that silence each of `channels` once, in rising order.
pub open spec fn silences(channels: Set<u8>) -> Seq<Sent> {
    rising(channels, 256).map_values(|channel: u8| output::all_notes_off(channel))
}

fn silence_all(channels: &Vec<u8>) -> (r: Vec<Output>)
    ensures
        output::sent(r@) == silences(channels@.to_set()),
{
    broadcast use output::lemma_sent_push;
    broadcast use output::lemma_sent_empty;

    let mut out: Vec<Output> = Vec::new();
    let ghost off = |channel: u8| output::all_notes_off(channel);
    let mut n: u16 = 0;
    assert(output::sent(out@) =~= rising(channels@.to_set(), 0).map_values(off));
    while n < 256
        invariant
            n <= 256,
            off == |channel: u8| output::all_notes_off(channel),
            output::sent(out@) == rising(channels@.to_set(), n as nat).map_values(off),
        decreases 256 - n,
    {
        let channel: u8 = n as u8;
        let mut used: bool = false;
        let mut i: usize = 0;
        while i < channels.len()
            invariant
                i <= channels@.len(),
                used <==> exists|j: int| 0 <= j < i && channels@[j] == channel,
            decreases channels@.len() - i,
        {
            if channels[i] == channel {
                used = true;
            }
            i = i + 1;
        }
        assert(used == channels@.to_set().contains(channel));
        let ghost below = rising(channels@.to_set(), n as nat);
        assert(below.push(channel).map_values(off) =~= below.map_values(off).push(off(channel)));
        if used {
            out.push(output::silence(channel));
        }
        n = n + 1;
    }
    out
}

impl EngineState {
    fn empty_tracks(&mut self)
        ensures
            final(self)@ == (Engine {
                tracks: old(self)@.tracks.map_values(
                    |events: Seq<TrackEvent>| Seq::<TrackEvent>::empty(),
                ),
                ..old(self)@
            }),
    {
        let ghost before = self@;
        let ids: Vec<usize> = tables::keys_of(&self.tracks);
        assert(ids@.to_set() =~= before.tracks.dom());
        let mut i: usize = 0;
        while i < ids.len()
            invariant
                i <= ids@.len(),
                ids@.to_set() == before.tracks.dom(),
                self@ == (Engine { tracks: self@.tracks, ..before }),
                self@.tracks.dom() == before.tracks.dom(),
                forall|j: int|
                    0 <= j < i ==> self@.tracks[#[trigger] ids@[j]] == Seq::<TrackEvent>::empty(),
            decreases ids@.len() - i,
        {
            let ghost at = self@.tracks;
            assert(ids@.to_set().contains(ids@[i as int]));
            self.put_events(ids[i], Vec::new());
            assert(self@.tracks.dom() =~= at.dom());
            i = i + 1;
        }
        assert forall|id: usize| before.tracks.contains_key(id) implies self@.tracks[id] == Seq::<
            TrackEvent,
        >::empty() by {
            assert(ids@.to_set().contains(id));
            let j = choose|j: int| 0 <= j < ids@.len() && ids@[j] == id;
            assert(self@.tracks[ids@[j]] == Seq::<TrackEvent>::empty());
        }
        assert(self@.tracks =~= before.tracks.map_values(
            |events: Seq<TrackEvent>| Seq::<TrackEvent>::empty(),
        ));
    }

    fn undo(&mut self)
        ensures
            final(self)@ == undone(old(self)@),
    {
        let active: usize = self.active_track;
        match self.track_history.remove(&active) {
            Some(mut history) => {
                let ghost before = history@;
                assert(old(self)@.track_history[active] == domain::takes(before));
                let previous: Option<Vec<TrackEvent>> = history.pop();
                self.track_history.insert(active, history);
                match previous {
                    Some(events) => {
                        assert(domain::takes(history@) =~= domain::takes(before).drop_last());
                        assert(self@.track_history =~= undone(old(self)@).track_history);
                        self.put_events(active, events);
                    },
                    None => {
                        assert(self@.track_history =~= old(self)@.track_history);
                    },
                }
            },
            None => {
                assert(self@.track_history =~= old(self)@.track_history);
            },
        }
    }
}

/// The engine with the active track as it was before the last recording on it, where there was
/// one.
pub open spec fn undone(e: Engine) -> Engine {
    if e.track_history.contains_key(e.active_track) && e.track_history[e.active_track].len() > 0 {
        let history = e.track_history[e.active_track];
        Engine {
            tracks: e.tracks.insert(e.active_track, history.last()),
            track_history: e.track_history.insert(e.active_track, history.drop_last()),
            ..e
        }
    } else {
        e
    }
}

/// The engine with the active track emptied.
pub open spec fn cleared(e: Engine) -> Engine {
    Engine {
        tracks: if e.tracks.contains_key(e.active_track) {
            e.tracks.insert(e.active_track, Seq::<TrackEvent>::empty())
        } else {
            e.tracks
        },
        held_notes: e.held_notes.remove(e.active_track),
        ..e
    }
}

/// The engine with every track emptied.
pub open spec fn all_cleared(e: Engine) -> Engine {
    Engine {
        tracks: e.tracks.map_values(|events: Seq<TrackEvent>| Seq::<TrackEvent>::empty()),
        held_notes: Map::empty(),
        ..e
    }
}

/// What the metronome key brings about.
pub open spec fn metronome_reaction(e: Engine, keys: KeyMappings) -> Reaction {
    let on = !e.metronome_on;
    answered(
        Engine { metronome_on: on, ..e },
        match (keys.metronome_led, keys.led_on_channel, keys.led_off_channel) {
            (Some(note), Some(on_channel), Some(off_channel)) => seq![
                output::led_message(
                    note,
                    if on {
                        on_channel
                    } else {
                        off_channel
                    },
                ),
            ],
            _ => Seq::<Sent>::empty(),
        },
    )
}

/// What the mute key brings about; a track that is muted is silenced.
pub open spec fn mute_reaction(e: Engine) -> Reaction {
    if e.muted_tracks.contains(e.active_track) {
        quiet(Engine { muted_tracks: e.muted_tracks.remove(e.active_track), ..e })
    } else {
        answered(
            Engine { muted_tracks: e.muted_tracks.insert(e.active_track), ..e },
            seq![output::all_notes_off(active_channel(e))],
        )
    }
}

/// What a track key brings about: its track becomes active, where there is one.
pub open spec fn select_reaction(e: Engine, keys: KeyMappings, cc_num: u8, channel: u8) -> Reaction {
    match first_bound(keys.track_keys@, cc_num, channel) {
        Some(i) => if e.track_channels.contains_key((i + 1) as usize) {
            quiet(Engine { active_track: (i + 1) as usize, ..e })
        } else {
            quiet(e)
        },
        None => quiet(e),
    }
}

/// What a control change of a value above zero brings about, where no pad, knob or scene key is
/// bound to it. The first key that is bound to it decides.
pub open spec fn press_reaction(
    e: Engine,
    keys: KeyMappings,
    cc_num: u8,
    channel: u8,
    now: u128,
) -> Reaction {
    if keys.shift.is_cc(cc_num, channel) {
        quiet(Engine { shift_held: true, ..e })
    } else if keys.metronome.is_cc(cc_num, channel) {
        metronome_reaction(e, keys)
    } else if keys.clear_track.is_cc(cc_num, channel) {
        answered(cleared(e), seq![output::all_notes_off(active_channel(e))])
    } else if keys.clear_all.is_cc(cc_num, channel) {
        answered(all_cleared(e), silences(e.track_channels.values()))
    } else if keys.record_track.is_cc(cc_num, channel) {
        record_reaction(e, keys, now)
    } else if is_bound(keys.undo_track, cc_num, channel) {
        quiet(undone(e))
    } else if is_bound(keys.quantize, cc_num, channel) {
        quiet(Engine { quantize_on: !e.quantize_on, ..e })
    } else if is_bound(keys.mute_track, cc_num, channel) {
        mute_reaction(e)
    } else {
        select_reaction(e, keys, cc_num, channel)
    }
}

/// Whether the engine can take such a control change.
pub open spec fn press_ready(e: Engine, keys: KeyMappings, cc_num: u8, channel: u8) -> bool {
    if keys.shift.is_cc(cc_num, channel) || keys.metronome.is_cc(cc_num, channel) {
        true
    } else if keys.clear_track.is_cc(cc_num, channel) {
        has_channel(e)
    } else if keys.clear_all.is_cc(cc_num, channel) {
        true
    } else if keys.record_track.is_cc(cc_num, channel) {
        e.is_recording ==> stop_ready(e)
    } else if is_bound(keys.undo_track, cc_num, channel) || is_bound(
        keys.quantize,
        cc_num,
        channel,
    ) {
        true
    } else if is_bound(keys.mute_track, cc_num, channel) {
        has_channel(e)
    } else {
        true
    }
}

fn press_metronome(state: &mut EngineState, keys: &KeyMappings) -> (r: Vec<Output>)
    ensures
        final(state)@ == metronome_reaction(old(state)@, *keys).engine,
        output::sent(r@) == metronome_reaction(old(state)@, *keys).sent,
{
    broadcast use output::lemma_sent_push;
    broadcast use output::lemma_sent_empty;

    state.metronome_on = !state.metronome_on;
    let mut out: Vec<Output> = Vec::new();
    match (keys.metronome_led, keys.led_on_channel, keys.led_off_channel) {
        (Some(note), Some(on_channel), Some(off_channel)) => {
            let channel: u8 = if state.metronome_on {
                on_channel
            } else {
                off_channel
            };
            out.push(output::send_led(note, channel));
        },
        _ => {},
    }
    out
}

fn press_mute(state: &mut EngineState) -> (r: Vec<Output>)
    requires
        has_channel(old(state)@),
    ensures
        final(state)@ == mute_reaction(old(state)@).engine,
        output::sent(r@) == mute_reaction(old(state)@).sent,
{
    broadcast use output::lemma_sent_empty;

    let active: usize = state.active_track;
    let target: u8 = state.channel_of_active();
    if state.muted_tracks.contains(&active) {
        state.muted_tracks.remove(&active);
        Vec::new()
    } else {
        state.muted_tracks.insert(active);
        silence_one(target)
    }
}

fn press_clear(state: &mut EngineState) -> (r: Vec<Output>)
    requires
        has_channel(old(state)@),
    ensures
        final(state)@ == cleared(old(state)@),
        output::sent(r@) == seq![output::all_notes_off(active_channel(old(state)@))],
{
    let active: usize = state.active_track;
    let target: u8 = state.channel_of_active();
    if state.tracks.contains_key(&active) {
        state.put_events(active, Vec::new());
    }
    state.held_notes.remove(&active);
    assert(state@.held_notes =~= cleared(old(state)@).held_notes);
    silence_one(target)
}

fn press_clear_all(state: &mut EngineState) -> (r: Vec<Output>)
    ensures
        final(state)@ == all_cleared(old(state)@),
        output::sent(r@) == silences(old(state)@.track_channels.values()),
{
    state.empty_tracks();
    state.held_notes.clear();
    assert(state@.held_notes =~= Map::empty());
    let channels: Vec<u8> = tables::values_of(&state.track_channels);
    silence_all(&channels)
}

fn press(
    cc_num: u8,
    channel: u8,
    state: &mut EngineState,
    keys: &KeyMappings,
    now: u128,
) -> (r: Vec<Output>)
    requires
        press_ready(old(state)@, *keys, cc_num, channel),
    ensures
        final(state)@ == press_reaction(old(state)@, *keys, cc_num, channel, now).engine,
        output::sent(r@) == press_reaction(old(state)@, *keys, cc_num, channel, now).sent,
{
    broadcast use output::lemma_sent_empty;

    if keys.shift.matches_cc(cc_num, channel) {
        state.shift_held = true;
        Vec::new()
    } else if keys.metronome.matches_cc(cc_num, channel) {
        press_metronome(state, keys)
    } else if keys.clear_track.matches_cc(cc_num, channel) {
        press_clear(state)
    } else if keys.clear_all.matches_cc(cc_num, channel) {
        press_clear_all(state)
    } else if keys.record_track.matches_cc(cc_num, channel) {
        press_record(state, keys, now)
    } else if bound(&keys.undo_track, cc_num, channel) {
        state.undo();
        Vec::new()
    } else if bound(&keys.quantize, cc_num, channel) {
        state.quantize_on = !state.quantize_on;
        Vec::new()
    } else if bound(&keys.mute_track, cc_num, channel) {
        press_mute(state)
    } else {
        match find_bound(&keys.track_keys, cc_num, channel) {
            Some(i) => {
                assert(i < keys.track_keys.len());
                let id: usize = i + 1;
                if state.track_channels.contains_key(&id) {
                    state.active_track = id;
                }
            },
            None => {},
        }
        Vec::new()
    }
}

/// The scene that follows or precedes scene `current` among `count`, going round.
pub open spec fn neighbour(current: usize, count: nat, down: bool) -> int {
    if down {
        (current + 1) % count as int
    } else {
        (current + count - 1) % count as int
    }
}

/// What a scene key brings about: the neighbouring scene, and its pads where they can be read.
pub open spec fn scene_reaction(
    e: Engine,
    scenes: Seq<(String, SceneConfig)>,
    down: bool,
) -> Reaction {
    if scenes.len() == 0 {
        quiet(e)
    } else {
        let idx = neighbour(e.current_scene_idx, scenes.len(), down);
        let (name, config) = scenes[idx];
        let after = scene::switched(e, name@, config, idx as usize);
        match config::drum_mapping(config) {
            Ok(pads) => Reaction { engine: after, sent: scene::patches(config), pads: Some(pads) },
            Err(t) => answered(
                after,
                scene::patches(config).push(Sent::PadsRejected("Parse error: "@ + t)),
            ),
        }
    }
}

/// Whether the engine can go to the neighbouring scene.
pub open spec fn scene_key_ready(
    e: Engine,
    scenes: Seq<(String, SceneConfig)>,
    down: bool,
) -> bool {
    scenes.len() > 0 ==> {
        &&& down ==> e.current_scene_idx < usize::MAX
        &&& !down ==> e.current_scene_idx + scenes.len() <= usize::MAX
        &&& scene::scene_ready(scenes[neighbour(e.current_scene_idx, scenes.len(), down)].1)
    }
}

/// Whether `after` is `before` with the pads that `pads` holds.
pub open spec fn pads_follow(
    before: KeyMappings,
    after: KeyMappings,
    pads: Option<(Seq<Seq<u8>>, u8)>,
) -> bool {
    match pads {
        None => after == before,
        Some((notes, channel)) => {
            &&& config::note_lists(after.drum_notes@) == notes
            &&& after.drum_channel == channel
            &&& after == (KeyMappings {
                drum_notes: after.drum_notes,
                drum_channel: after.drum_channel,
                ..before
            })
        },
    }
}

fn press_scene_key(
    down: bool,
    state: &mut EngineState,
    keys: &mut KeyMappings,
    scenes: &[(String, SceneConfig)],
) -> (r: Vec<Output>)
    requires
        scene_key_ready(old(state)@, scenes@, down),
    ensures
        final(state)@ == scene_reaction(old(state)@, scenes@, down).engine,
        output::sent(r@) == scene_reaction(old(state)@, scenes@, down).sent,
        pads_follow(*old(keys), *final(keys), scene_reaction(old(state)@, scenes@, down).pads),
{
    broadcast use output::lemma_sent_push;
    broadcast use output::lemma_sent_empty;

    let count: usize = scenes.len();
    if count == 0 {
        return Vec::new();
    }
    let current: usize = state.current_scene_idx;
    let idx: usize = if down {
        (current + 1) % count
    } else {
        (current + count - 1) % count
    };
    let mut out: Vec<Output> = scene::switch_scene(state, scenes, idx);
    match config::try_scene_drum_mapping(&scenes[idx].1) {
        Ok((notes, channel)) => {
            keys.drum_notes = notes;
            keys.drum_channel = channel;
        },
        Err(e) => {
            out.push(Output::PadsRejected(e));
        },
    }
    out
}

/// What a control change brings about. In this order: the release of the modifier, the pads, the
/// knobs, the scene keys, and every other key when it is pressed.
pub open spec fn control_reaction(
    e: Engine,
    keys: KeyMappings,
    scenes: Seq<(String, SceneConfig)>,
    bytes: Seq<u8>,
    now: u128,
) -> Reaction {
    let channel = bytes[0] & 0x0F;
    let cc_num = bytes[1];
    let value = bytes[2];
    if keys.shift.is_cc(cc_num, channel) && value == 0 {
        answered(
            Engine { shift_held: false, ..e },
            seq![output::all_notes_off(active_channel(e))],
        )
    } else if first_bound(keys.drum_keys@, cc_num, channel) is Some {
        pad_reaction(e, keys, first_bound(keys.drum_keys@, cc_num, channel)->0, value)
    } else if is_bound(keys.instrument_select, cc_num, channel) {
        answered(
            Engine { track_programs: e.track_programs.insert(e.active_track, value), ..e },
            seq![Sent::Synth(seq![0xC0u8 | active_channel(e), value])],
        )
    } else if is_bound(keys.volume_knob, cc_num, channel) {
        answered(
            Engine { track_volumes: e.track_volumes.insert(e.active_track, value), ..e },
            seq![Sent::Synth(seq![0xB0u8 | active_channel(e), 7u8, value])],
        )
    } else if is_bound(keys.bpm_knob, cc_num, channel) {
        quiet(Engine { bpm: (40 + value) as u32, ..e })
    } else if value == 0 {
        quiet(e)
    } else if is_bound(keys.scene_down, cc_num, channel) {
        scene_reaction(e, scenes, true)
    } else if is_bound(keys.scene_up, cc_num, channel) {
        scene_reaction(e, scenes, false)
    } else {
        press_reaction(e, keys, cc_num, channel, now)
    }
}

/// Whether the engine can take a control change.
pub open spec fn control_ready(
    e: Engine,
    keys: KeyMappings,
    scenes: Seq<(String, SceneConfig)>,
    bytes: Seq<u8>,
) -> bool {
    let channel = bytes[0] & 0x0F;
    let cc_num = bytes[1];
    let value = bytes[2];
    if keys.shift.is_cc(cc_num, channel) && value == 0 {
        has_channel(e)
    } else if first_bound(keys.drum_keys@, cc_num, channel) is Some {
        pad_ready(e, keys, first_bound(keys.drum_keys@, cc_num, channel)->0)
    } else if is_bound(keys.instrument_select, cc_num, channel) || is_bound(
        keys.volume_knob,
        cc_num,
        channel,
    ) {
        has_channel(e)
    } else if is_bound(keys.bpm_knob, cc_num, channel) || value == 0 {
        true
    } else if is_bound(keys.scene_down, cc_num, channel) {
        scene_key_ready(e, scenes, true)
    } else if is_bound(keys.scene_up, cc_num, channel) {
        scene_key_ready(e, scenes, false)
    } else {
        press_ready(e, keys, cc_num, channel)
    }
}

/// Takes a control change.
pub fn take_control(
    bytes: &[u8],
    state: &mut EngineState,
    keys: &mut KeyMappings,
    scenes: &[(String, SceneConfig)],
    now: u128,
) -> (r: Vec<Output>)
    requires
        bytes@.len() >= 3,
        control_ready(old(state)@, *old(keys), scenes@, bytes@),
    ensures
        final(state)@ == control_reaction(old(state)@, *old(keys), scenes@, bytes@, now).engine,
        output::sent(r@) == control_reaction(
            old(state)@,
            *old(keys),
            scenes@,
            bytes@,
            now,
        ).sent,
        pads_follow(
            *old(keys),
            *final(keys),
            control_reaction(old(state)@, *old(keys), scenes@, bytes@, now).pads,
        ),
{
    broadcast use output::lemma_sent_push;
    broadcast use output::lemma_sent_empty;

    let channel: u8 = bytes[0] & 0x0F;
    let cc_num: u8 = bytes[1];
    let value: u8 = bytes[2];
    if keys.shift.matches_cc(cc_num, channel) && value == 0 {
        let target: u8 = state.channel_of_active();
        state.shift_held = false;
        return silence_one(target);
    }
    match find_bound(&keys.drum_keys, cc_num, channel) {
        Some(pad) => {
            return take_pad(state, keys, pad, value);
        },
        None => {},
    }
    let mut out: Vec<Output> = Vec::new();
    if bound(&keys.instrument_select, cc_num, channel) {
        let target: u8 = state.channel_of_active();
        state.track_programs.insert(state.active_track, value);
        out.push(output::synth2(0xC0u8 | target, value));
        return out;
    }
    if bound(&keys.volume_knob, cc_num, channel) {
        let target: u8 = state.channel_of_active();
        state.track_volumes.insert(state.active_track, value);
        out.push(output::synth3(0xB0u8 | target, 7, value));
        return out;
    }
    if bound(&keys.bpm_knob, cc_num, channel) {
        state.bpm = 40 + value as u32;
        return out;
    }
    if value == 0 {
        return out;
    }
    if bound(&keys.scene_down, cc_num, channel) {
        return press_scene_key(true, state, keys, scenes);
    }
    if bound(&keys.scene_up, cc_num, channel) {
        return press_scene_key(false, state, keys, scenes);
    }
    press(cc_num, channel, state, keys, now)
}

/// Whether `bytes` is a whole note message.
pub open spec fn is_note_message(bytes: Seq<u8>) -> bool {
    bytes.len() >= 3 && (bytes[0] & 0xF0 == 0x90 || bytes[0] & 0xF0 == 0x80)
}

/// Whether `bytes` is a whole control change.
pub open spec fn is_control_change(bytes: Seq<u8>) -> bool {
    bytes.len() >= 3 && bytes[0] & 0xF0 == 0xB0
}

/// Whether `bytes` is a whole pitch bend.
pub open spec fn is_pitch_bend(bytes: Seq<u8>) -> bool {
    bytes.len() >= 3 && bytes[0] & 0xF0 == 0xE0
}

/// What a message from the controller brings about. Notes, control changes and pitch bends
/// count; anything else is ignored.
pub open spec fn reaction(
    e: Engine,
    keys: KeyMappings,
    scenes: Seq<(String, SceneConfig)>,
    bytes: Seq<u8>,
    now: u128,
) -> Reaction {
    if is_note_message(bytes) {
        note_reaction(e, keys, bytes)
    } else if is_control_change(bytes) {
        control_reaction(e, keys, scenes, bytes, now)
    } else if is_pitch_bend(bytes) {
        bend_reaction(e, bytes)
    } else {
        quiet(e)
    }
}

/// Whether the engine can take a message from the controller.
pub open spec fn message_ready(
    e: Engine,
    keys: KeyMappings,
    scenes: Seq<(String, SceneConfig)>,
    bytes: Seq<u8>,
) -> bool {
    if is_note_message(bytes) {
        note_ready(e, keys, bytes)
    } else if is_control_change(bytes) {
        control_ready(e, keys, scenes, bytes)
    } else if is_pitch_bend(bytes) {
        bend_ready(e)
    } else {
        true
    }
}

/// Takes a message from the controller at the time `now`, and returns what is to be sent.
pub fn handle_midi_message(
    bytes: &[u8],
    state: &mut EngineState,
    keys: &mut KeyMappings,
    scenes: &[(String, SceneConfig)],
    now: u128,
) -> (r: Vec<Output>)
    requires
        message_ready(old(state)@, *old(keys), scenes@, bytes@),
    ensures
        final(state)@ == reaction(old(state)@, *old(keys), scenes@, bytes@, now).engine,
        output::sent(r@) == reaction(old(state)@, *old(keys), scenes@, bytes@, now).sent,
        pads_follow(
            *old(keys),
            *final(keys),
            reaction(old(state)@, *old(keys), scenes@, bytes@, now).pads,
        ),
{
    broadcast use output::lemma_sent_empty;

    if bytes.len() < 3 {
        return Vec::new();
    }
    let kind: u8 = bytes[0] & 0xF0;
    if kind == 0x90 || kind == 0x80 {
        take_note(bytes, state, keys)
    } else if kind == 0xB0 {
        take_control(bytes, state, keys, scenes, now)
    } else if kind == 0xE0 {
        take_bend(bytes, state)
    } else {
        Vec::new()
    }
}

} // verus!
