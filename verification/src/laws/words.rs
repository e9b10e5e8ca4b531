//! The words in which the laws speak of messages, keys and tracks: each says what can be seen in a
//! message, in a binding or in the engine, and nothing of what the looper makes of it.
use crate::config::{KeyBinding, KeyKind, KeyMappings};
use crate::domain::{Engine, MessageType, TrackEvent};
use vstd::prelude::*;

verus! {

/// The channel of a message.
pub open spec fn channel_of(bytes: Seq<u8>) -> u8 {
    bytes[0] & 0x0F
}

/// Whether `bytes` starts a note: one with a velocity above zero.
pub open spec fn note_start(bytes: Seq<u8>) -> bool {
    bytes.len() >= 3 && bytes[0] & 0xF0 == 0x90 && bytes[2] > 0
}

/// Whether `bytes` ends a note; a start of velocity zero does.
pub open spec fn note_stop(bytes: Seq<u8>) -> bool {
    bytes.len() >= 3 && (bytes[0] & 0xF0 == 0x80 || (bytes[0] & 0xF0 == 0x90 && bytes[2] == 0))
}

/// Whether `bytes` is a control change.
pub open spec fn control(bytes: Seq<u8>) -> bool {
    bytes.len() >= 3 && bytes[0] & 0xF0 == 0xB0
}

/// Whether `bytes` is a pitch bend.
pub open spec fn bend(bytes: Seq<u8>) -> bool {
    bytes.len() >= 3 && bytes[0] & 0xF0 == 0xE0
}

/// Whether a key listens to the channel of a message; one without a channel listens to all.
pub open spec fn listens(key: KeyBinding, bytes: Seq<u8>) -> bool {
    match key.channel {
        Some(channel) => channel == channel_of(bytes),
        None => true,
    }
}

/// Whether the control change `bytes` is that of a key.
pub open spec fn is_key(key: KeyBinding, bytes: Seq<u8>) -> bool {
    key.kind == KeyKind::Cc(bytes[1]) && listens(key, bytes)
}

/// Whether the note `bytes` is that of a key.
pub open spec fn is_note_key(key: KeyBinding, bytes: Seq<u8>) -> bool {
    key.kind == KeyKind::Note(bytes[1]) && listens(key, bytes)
}

/// Whether the control change `bytes` is that of a key that is set.
pub open spec fn is_set_key(key: Option<KeyBinding>, bytes: Seq<u8>) -> bool {
    match key {
        Some(key) => is_key(key, bytes),
        None => false,
    }
}

/// Whether `i` is the first of `keys` that the control change `bytes` is of.
pub open spec fn is_first_key(keys: Seq<KeyBinding>, bytes: Seq<u8>, i: int) -> bool {
    &&& 0 <= i < keys.len()
    &&& is_key(keys[i], bytes)
    &&& forall|j: int| 0 <= j < i ==> !is_key(#[trigger] keys[j], bytes)
}

/// Whether the control change `bytes` is of none of `keys`.
pub open spec fn is_no_key(keys: Seq<KeyBinding>, bytes: Seq<u8>) -> bool {
    forall|j: int| 0 <= j < keys.len() ==> !is_key(#[trigger] keys[j], bytes)
}

/// Whether the control change `bytes` is of no pad and no knob.
pub open spec fn past_knobs(keys: KeyMappings, bytes: Seq<u8>) -> bool {
    &&& control(bytes)
    &&& is_no_key(keys.drum_keys@, bytes)
    &&& !is_set_key(keys.instrument_select, bytes)
    &&& !is_set_key(keys.volume_knob, bytes)
    &&& !is_set_key(keys.bpm_knob, bytes)
}

/// Whether `bytes` presses a key that is no pad, no knob and no scene key.
pub open spec fn plain_press(keys: KeyMappings, bytes: Seq<u8>) -> bool {
    &&& past_knobs(keys, bytes)
    &&& bytes[2] > 0
    &&& !is_set_key(keys.scene_down, bytes)
    &&& !is_set_key(keys.scene_up, bytes)
}

/// The channel of the active track.
pub open spec fn own_channel(e: Engine) -> u8 {
    e.track_channels[e.active_track]
}

/// The loop of a track in ticks: its own, or a measure.
pub open spec fn span(e: Engine, id: usize) -> int {
    if e.track_lengths.contains_key(id) {
        e.track_lengths[id] as int
    } else {
        e.ticks_per_measure as int
    }
}

/// `v` on a table of velocities, at most 127.
pub open spec fn on_table(table: Seq<u32>, v: u8) -> int {
    if table[v as int] <= 127 {
        table[v as int] as int
    } else {
        127
    }
}

/// How loud a track sounds a note of velocity `v`: its own velocity comes in place of `v`, its
/// table scales it, and 127 is the most.
pub open spec fn loudness(e: Engine, id: usize, v: u8) -> int {
    let base = if e.track_velocities.contains_key(id) && e.track_velocities[id] is Some {
        e.track_velocities[id]->0
    } else {
        v
    };
    if e.track_velocity_multipliers.contains_key(id) {
        on_table(e.track_velocity_multipliers[id], base)
    } else if base <= 127 {
        base as int
    } else {
        127
    }
}

/// The notes that are held on a track.
pub open spec fn held(e: Engine, id: usize, note: (u8, u8)) -> bool {
    e.held_notes.contains_key(id) && e.held_notes[id].contains(note)
}

/// Whether no note is held twice, on any track or on the keyboard.
pub open spec fn held_once(e: Engine) -> bool {
    &&& e.physically_held.no_duplicates()
    &&& forall|id: usize| #[trigger]
        e.held_notes.contains_key(id) ==> e.held_notes[id].no_duplicates()
}

/// Whether an event has these fields.
pub open spec fn event_is(
    event: TrackEvent,
    tick: int,
    kind: MessageType,
    data1: u8,
    data2: int,
    channel: u8,
) -> bool {
    &&& event.tick == tick
    &&& event.message_type == kind
    &&& event.data1 == data1
    &&& event.data2 == data2
    &&& event.channel == channel
}

/// Whether two engines have the same events and the same held notes on every track but `id`.
pub open spec fn same_but(a: Engine, b: Engine, id: usize) -> bool {
    forall|k: usize|
        #![trigger a.tracks.contains_key(k)]
        #![trigger b.tracks.contains_key(k)]
        k != id ==> {
            &&& a.tracks.contains_key(k) == b.tracks.contains_key(k)
            &&& a.tracks[k] == b.tracks[k]
            &&& a.held_notes.contains_key(k) == b.held_notes.contains_key(k)
            &&& a.held_notes[k] == b.held_notes[k]
        }
}

} // verus!
