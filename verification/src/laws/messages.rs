//! What every message of the controller does, told from its bytes.
use crate::config;
use crate::config::{KeyBinding, KeyMappings, SceneConfig};
use crate::domain;
use crate::domain::{Engine, MessageType, TrackEvent};
use crate::laws::control;
use crate::laws::scenes as scene_laws;
use crate::laws::words;
use crate::midi;
use crate::output::Sent;
use crate::scene;
use vstd::prelude::*;

verus! {

/// The first key that a control change is of is found, and none where it is of none.
proof fn lemma_first_key(keys: Seq<KeyBinding>, bytes: Seq<u8>)
    ensures
        match midi::first_bound(keys, bytes[1], bytes[0] & 0x0F) {
            Some(i) => words::is_first_key(keys, bytes, i),
            None => words::is_no_key(keys, bytes),
        },
    decreases keys.len(),
{
    if keys.len() > 0 {
        let front = keys.drop_last();
        lemma_first_key(front, bytes);
        match midi::first_bound(front, bytes[1], bytes[0] & 0x0F) {
            Some(i) => {
                assert(keys[i] == front[i]);
                assert forall|j: int| 0 <= j < i implies !words::is_key(#[trigger] keys[j], bytes) by {
                    assert(!words::is_key(front[j], bytes));
                }
            },
            None => {
                assert forall|j: int| 0 <= j < front.len() implies !words::is_key(
                    #[trigger] keys[j],
                    bytes,
                ) by {
                    assert(!words::is_key(front[j], bytes));
                }
            },
        }
    }
}

/// A key answers to its own number, on its own channel or on every one, and to nothing else.
pub proof fn law_a_key_answers_to_its_number(key: KeyBinding, bytes: Seq<u8>)
    ensures
        key.is_cc(bytes[1], bytes[0] & 0x0F) <==> words::is_key(key, bytes),
        key.is_note(bytes[1], bytes[0] & 0x0F) <==> words::is_note_key(key, bytes),
        key.hears(bytes[0] & 0x0F) <==> words::listens(key, bytes),
{
}

/// A note that the modifier lets through and that is not on the pads' channel is passed on, once,
/// whether a recording runs or not: on the channel of the active track, as a start or an end, with
/// the loudness of the track where it starts and all other bytes as they came.
pub proof fn law_notes_are_passed_on(
    e: Engine,
    keys: KeyMappings,
    scenes: Seq<(String, SceneConfig)>,
    bytes: Seq<u8>,
    now: u128,
)
    requires
        words::note_start(bytes) || words::note_stop(bytes),
        !(e.shift_held && words::listens(keys.shift, bytes)),
        words::channel_of(bytes) != 9,
    ensures
        ({
            let sent = midi::reaction(e, keys, scenes, bytes, now).sent;
            &&& sent.len() == 1
            &&& sent[0] matches Sent::Synth(out)
            &&& out.len() == bytes.len()
            &&& out[0] == if words::note_start(bytes) {
                0x90u8 | words::own_channel(e)
            } else {
                0x80u8 | words::own_channel(e)
            }
            &&& out[1] == bytes[1]
            &&& out[2] == if words::note_start(bytes) {
                words::loudness(e, e.active_track, bytes[2])
            } else {
                bytes[2] as int
            }
            &&& forall|i: int| 3 <= i < bytes.len() ==> out[i] == bytes[i]
        }),
{
}

/// A note message counts the key that is down or up, and changes nothing else but, while a
/// recording runs, the active track. There a start adds itself, at its place in the loop and with
/// the velocity that was played, and is held; an end adds itself where the note was held, which it
/// then is no more.
pub proof fn law_notes_are_recorded(
    e: Engine,
    keys: KeyMappings,
    scenes: Seq<(String, SceneConfig)>,
    bytes: Seq<u8>,
    now: u128,
)
    requires
        words::note_start(bytes) || words::note_stop(bytes),
        !(e.shift_held && words::listens(keys.shift, bytes)),
        words::channel_of(bytes) != 9,
        words::held_once(e),
        e.is_recording ==> e.track_lengths.contains_key(e.active_track)
            && e.track_lengths[e.active_track] > 0 && e.tracks.contains_key(e.active_track),
    ensures
        ({
            let r = midi::reaction(e, keys, scenes, bytes, now).engine;
            let id = e.active_track;
            let start = words::note_start(bytes);
            let note = (bytes[1], words::own_channel(e));
            let length = e.track_lengths[id] as int;
            let place = if e.quantize_on {
                domain::quantized(e.current_tick as int, e.ppqn as int / 4, length)
            } else {
                e.current_tick as int % length
            };
            let kind = if start {
                MessageType::NoteOn
            } else {
                MessageType::NoteOff
            };
            &&& r == (Engine {
                tracks: r.tracks,
                held_notes: r.held_notes,
                physically_held: r.physically_held,
                ..e
            })
            &&& forall|n: (u8, u8)|
                r.physically_held.contains(n) <==> if n == note {
                    start
                } else {
                    e.physically_held.contains(n)
                }
            &&& words::same_but(r, e, id)
            &&& !e.is_recording ==> r.tracks == e.tracks && r.held_notes == e.held_notes
            &&& e.is_recording && (start || words::held(e, id, note)) ==> {
                &&& r.tracks[id].len() == e.tracks[id].len() + 1
                &&& r.tracks[id].drop_last() == e.tracks[id]
                &&& words::event_is(
                    r.tracks[id].last(),
                    place,
                    kind,
                    bytes[1],
                    bytes[2] as int,
                    words::own_channel(e),
                )
            }
            &&& e.is_recording && !start && !words::held(e, id, note) ==> r.tracks == e.tracks
            &&& e.is_recording ==> forall|n: (u8, u8)| #[trigger]
                words::held(r, id, n) <==> if n == note {
                    start
                } else {
                    words::held(e, id, n)
                }
        }),
{
    let r = midi::reaction(e, keys, scenes, bytes, now).engine;
    let id = e.active_track;
    let note = (bytes[1], words::own_channel(e));
    lemma_with_and_without(e.physically_held, note);
    if e.held_notes.contains_key(id) {
        lemma_with_and_without(e.held_notes[id], note);
    } else {
        lemma_with_and_without(Seq::empty(), note);
    }
    if e.is_recording {
        assert(r.tracks[id].len() == e.tracks[id].len() + 1 ==> r.tracks[id].drop_last()
            =~= e.tracks[id]);
    }
}

/// While the modifier is held, a note on its channel is never sent. The start of one of the three
/// length keys, of which the first that it is of counts, sets the loop of the active track to
/// four, eight or sixteen beats of 24 ticks and keeps of its events those that come before its
/// new end, in order; any other note changes nothing, and nothing else changes.
pub proof fn law_length_keys_set_the_loop(
    e: Engine,
    keys: KeyMappings,
    scenes: Seq<(String, SceneConfig)>,
    bytes: Seq<u8>,
    now: u128,
)
    requires
        words::note_start(bytes) || words::note_stop(bytes),
        e.shift_held,
        words::listens(keys.shift, bytes),
    ensures
        ({
            let r = midi::reaction(e, keys, scenes, bytes, now);
            let id = e.active_track;
            let length: int = if !words::note_start(bytes) {
                0
            } else if words::is_note_key(keys.beat4, bytes) {
                96
            } else if words::is_note_key(keys.beat8, bytes) {
                192
            } else if words::is_note_key(keys.beat16, bytes) {
                384
            } else {
                0
            };
            &&& r.sent.len() == 0
            &&& r.pads is None
            &&& length == 0 ==> r.engine == e
            &&& length > 0 ==> {
                &&& r.engine == (Engine {
                    tracks: r.engine.tracks,
                    track_lengths: r.engine.track_lengths,
                    ..e
                })
                &&& r.engine.track_lengths.contains_key(id)
                &&& r.engine.track_lengths[id] == length
                &&& words::same_but(r.engine, e, id)
                &&& forall|k: usize|
                    k != id ==> (#[trigger] r.engine.track_lengths.contains_key(k)
                        == e.track_lengths.contains_key(k)) && r.engine.track_lengths[k]
                        == e.track_lengths[k]
                &&& r.engine.tracks.contains_key(id) == e.tracks.contains_key(id)
                &&& e.tracks.contains_key(id) ==> r.engine.tracks[id] == e.tracks[id].filter(
                    |event: TrackEvent| event.tick < length,
                )
            }
        }),
{
    let r = midi::reaction(e, keys, scenes, bytes, now).engine;
    let id = e.active_track;
    if r.track_lengths.contains_key(id) && e.tracks.contains_key(id) {
        let length = r.track_lengths[id];
        assert((|event: TrackEvent| event.tick < length) =~= (|event: TrackEvent|
            event.tick < length as int));
    }
}

/// A pitch bend is passed on to the channel of the active track. While a recording runs it is added
/// to the active track at its place in the loop, with its bytes as they came; nothing else
/// changes.
pub proof fn law_bends_are_passed_on_and_recorded(
    e: Engine,
    keys: KeyMappings,
    scenes: Seq<(String, SceneConfig)>,
    bytes: Seq<u8>,
    now: u128,
)
    requires
        words::bend(bytes),
    ensures
        ({
            let r = midi::reaction(e, keys, scenes, bytes, now);
            let id = e.active_track;
            &&& r.sent == seq![Sent::Synth(seq![0xE0u8 | words::own_channel(e), bytes[1], bytes[2]])]
            &&& r.pads is None
            &&& r.engine == (Engine { tracks: r.engine.tracks, ..e })
            &&& words::same_but(r.engine, e, id)
            &&& !e.is_recording || !e.tracks.contains_key(id) ==> r.engine.tracks == e.tracks
            &&& e.is_recording && e.tracks.contains_key(id) && e.track_lengths[id] > 0 ==> {
                &&& r.engine.tracks.contains_key(id)
                &&& r.engine.tracks[id].len() == e.tracks[id].len() + 1
                &&& r.engine.tracks[id].drop_last() == e.tracks[id]
                &&& words::event_is(
                    r.engine.tracks[id].last(),
                    e.current_tick as int % e.track_lengths[id] as int,
                    MessageType::PitchBend,
                    bytes[1],
                    bytes[2] as int,
                    words::own_channel(e),
                )
            }
        }),
{
    let r = midi::reaction(e, keys, scenes, bytes, now).engine;
    let id = e.active_track;
    let kind = bytes[0] & 0xF0;
    assert(kind == 0xE0);
    if e.is_recording && e.tracks.contains_key(id) {
        assert(r.tracks[id].drop_last() =~= e.tracks[id]);
    }
}

/// A message that is shorter than three bytes, or neither a note nor a control change nor a pitch
/// bend, changes nothing and sends nothing; nor does a note on the pads' channel that the modifier
/// lets through.
pub proof fn law_nothing_else_counts(
    e: Engine,
    keys: KeyMappings,
    scenes: Seq<(String, SceneConfig)>,
    bytes: Seq<u8>,
    now: u128,
)
    requires
        ({
            ||| bytes.len() < 3
            ||| !words::note_start(bytes) && !words::note_stop(bytes) && !words::control(bytes)
                && !words::bend(bytes)
            ||| {
                &&& words::note_start(bytes) || words::note_stop(bytes)
                &&& words::channel_of(bytes) == 9
                &&& !(e.shift_held && words::listens(keys.shift, bytes))
            }
        }),
    ensures
        ({
            let r = midi::reaction(e, keys, scenes, bytes, now);
            r.engine == e && r.sent.len() == 0 && r.pads is None
        }),
{
}

/// The modifier is held from its press to its release. The release silences the channel of the
/// active track.
pub proof fn law_the_modifier_is_held(
    e: Engine,
    keys: KeyMappings,
    scenes: Seq<(String, SceneConfig)>,
    bytes: Seq<u8>,
    now: u128,
)
    requires
        words::control(bytes),
        words::is_key(keys.shift, bytes),
        bytes[2] == 0 || words::plain_press(keys, bytes),
    ensures
        ({
            let r = midi::reaction(e, keys, scenes, bytes, now);
            &&& r.engine == (Engine { shift_held: bytes[2] > 0, ..e })
            &&& r.pads is None
            &&& r.sent == if bytes[2] > 0 {
                Seq::<Sent>::empty()
            } else {
                seq![Sent::Synth(seq![0xB0u8 | words::own_channel(e), 123u8, 0u8])]
            }
        }),
{
    lemma_first_key(keys.drum_keys@, bytes);
}

/// The instrument knob sets the program of the active track, the volume knob its volume; both tell
/// the synth on its channel. The tempo knob sets the tempo, from 40 up. The first of the three that
/// a control change is of counts, at every value, and nothing else changes.
pub proof fn law_knobs_set_the_active_track(
    e: Engine,
    keys: KeyMappings,
    scenes: Seq<(String, SceneConfig)>,
    bytes: Seq<u8>,
    now: u128,
)
    requires
        words::control(bytes),
        !(words::is_key(keys.shift, bytes) && bytes[2] == 0),
        words::is_no_key(keys.drum_keys@, bytes),
        words::is_set_key(keys.instrument_select, bytes) || words::is_set_key(
            keys.volume_knob,
            bytes,
        ) || words::is_set_key(keys.bpm_knob, bytes),
    ensures
        ({
            let r = midi::reaction(e, keys, scenes, bytes, now);
            let id = e.active_track;
            &&& r.pads is None
            &&& if words::is_set_key(keys.instrument_select, bytes) {
                &&& r.engine == (Engine { track_programs: e.track_programs.insert(id, bytes[2]), ..e })
                &&& r.sent == seq![Sent::Synth(seq![0xC0u8 | words::own_channel(e), bytes[2]])]
            } else if words::is_set_key(keys.volume_knob, bytes) {
                &&& r.engine == (Engine { track_volumes: e.track_volumes.insert(id, bytes[2]), ..e })
                &&& r.sent == seq![Sent::Synth(seq![0xB0u8 | words::own_channel(e), 7u8, bytes[2]])]
            } else {
                &&& r.engine == (Engine { bpm: r.engine.bpm, ..e })
                &&& r.engine.bpm == 40 + bytes[2]
                &&& r.sent.len() == 0
            }
        }),
{
    lemma_first_key(keys.drum_keys@, bytes);
}

/// The release of any key but the modifier, a pad or a knob changes nothing and sends nothing.
pub proof fn law_other_releases_do_nothing(
    e: Engine,
    keys: KeyMappings,
    scenes: Seq<(String, SceneConfig)>,
    bytes: Seq<u8>,
    now: u128,
)
    requires
        words::past_knobs(keys, bytes),
        bytes[2] == 0,
        !words::is_key(keys.shift, bytes),
    ensures
        ({
            let r = midi::reaction(e, keys, scenes, bytes, now);
            r.engine == e && r.sent.len() == 0 && r.pads is None
        }),
{
    lemma_first_key(keys.drum_keys@, bytes);
}

/// The metronome key turns the metronome on or off, and sets its light, where the light and both
/// channels are known, on the channel of the new state; nothing else changes.
pub proof fn law_the_metronome_key(
    e: Engine,
    keys: KeyMappings,
    scenes: Seq<(String, SceneConfig)>,
    bytes: Seq<u8>,
    now: u128,
)
    requires
        words::plain_press(keys, bytes),
        !words::is_key(keys.shift, bytes),
        words::is_key(keys.metronome, bytes),
    ensures
        ({
            let r = midi::reaction(e, keys, scenes, bytes, now);
            &&& r.engine == (Engine { metronome_on: !e.metronome_on, ..e })
            &&& r.pads is None
            &&& keys.metronome_led is Some && keys.led_on_channel is Some
                && keys.led_off_channel is Some ==> r.sent == seq![
                Sent::Led(
                    seq![
                        0x90u8 | if e.metronome_on {
                            keys.led_off_channel->0
                        } else {
                            keys.led_on_channel->0
                        },
                        keys.metronome_led->0,
                        127u8,
                    ],
                ),
            ]
            &&& keys.metronome_led is None || keys.led_on_channel is None
                || keys.led_off_channel is None ==> r.sent.len() == 0
        }),
{
    lemma_first_key(keys.drum_keys@, bytes);
}

/// Whether `bytes` presses a key behind the metronome key.
pub open spec fn past_metronome(keys: KeyMappings, bytes: Seq<u8>) -> bool {
    &&& words::plain_press(keys, bytes)
    &&& !words::is_key(keys.shift, bytes)
    &&& !words::is_key(keys.metronome, bytes)
}

/// The clear key empties the active track, where it is there, takes away what is held on it and
/// silences its channel. Every other track keeps its events and its held notes, and nothing else
/// changes: not the undo history either.
pub proof fn law_clear_empties_the_active_track_alone(
    e: Engine,
    keys: KeyMappings,
    scenes: Seq<(String, SceneConfig)>,
    bytes: Seq<u8>,
    now: u128,
)
    requires
        past_metronome(keys, bytes),
        words::is_key(keys.clear_track, bytes),
    ensures
        ({
            let r = midi::reaction(e, keys, scenes, bytes, now);
            let id = e.active_track;
            &&& r.engine == (Engine {
                tracks: r.engine.tracks,
                held_notes: r.engine.held_notes,
                ..e
            })
            &&& words::same_but(r.engine, e, id)
            &&& r.engine.tracks.contains_key(id) == e.tracks.contains_key(id)
            &&& r.engine.tracks.contains_key(id) ==> r.engine.tracks[id].len() == 0
            &&& forall|note: (u8, u8)| !#[trigger] words::held(r.engine, id, note)
            &&& r.sent == seq![Sent::Synth(seq![0xB0u8 | words::own_channel(e), 123u8, 0u8])]
            &&& r.pads is None
        }),
{
    lemma_first_key(keys.drum_keys@, bytes);
}

/// Whether `channels` are the channels in use, each once, in rising order.
pub open spec fn channels_in_use(e: Engine, channels: Seq<u8>) -> bool {
    &&& forall|c: u8| #[trigger]
        channels.contains(c) <==> exists|id: usize| #[trigger]
            e.track_channels.contains_key(id) && e.track_channels[id] == c
    &&& forall|i: int, j: int| 0 <= i < j < channels.len() ==> channels[i] < channels[j]
}

/// The clear-all key empties every track, takes none away, lets go of all held notes, and silences
/// every channel in use once, in rising order; nothing else changes.
pub proof fn law_clear_all_empties_all(
    e: Engine,
    keys: KeyMappings,
    scenes: Seq<(String, SceneConfig)>,
    bytes: Seq<u8>,
    now: u128,
)
    requires
        past_metronome(keys, bytes),
        !words::is_key(keys.clear_track, bytes),
        words::is_key(keys.clear_all, bytes),
    ensures
        ({
            let r = midi::reaction(e, keys, scenes, bytes, now);
            &&& r.engine == (Engine {
                tracks: r.engine.tracks,
                held_notes: r.engine.held_notes,
                ..e
            })
            &&& forall|id: usize| #[trigger]
                r.engine.tracks.contains_key(id) == e.tracks.contains_key(id)
            &&& forall|id: usize| #[trigger]
                r.engine.tracks.contains_key(id) ==> r.engine.tracks[id].len() == 0
            &&& forall|id: usize, note: (u8, u8)| !#[trigger] words::held(r.engine, id, note)
            &&& r.pads is None
            &&& exists|channels: Seq<u8>| #[trigger]
                channels_in_use(e, channels) && r.sent.len() == channels.len() && forall|i: int|
                    0 <= i < channels.len() ==> #[trigger] r.sent[i] == Sent::Synth(
                        seq![0xB0u8 | channels[i], 123u8, 0u8],
                    )
        }),
{
    lemma_first_key(keys.drum_keys@, bytes);
    let r = midi::reaction(e, keys, scenes, bytes, now);
    let used = e.track_channels.values();
    let channels = midi::rising(used, 256);
    control::law_clear_all_silences_each_channel_once(used, 256);
    assert(channels_in_use(e, channels)) by {
        assert forall|c: u8| #[trigger] channels.contains(c) <==> exists|id: usize| #[trigger]
            e.track_channels.contains_key(id) && e.track_channels[id] == c by {
            assert(channels.contains(c) <==> used.contains(c));
        }
    }
}

/// Whether `bytes` presses a key behind the clear keys.
pub open spec fn past_clear(keys: KeyMappings, bytes: Seq<u8>) -> bool {
    &&& past_metronome(keys, bytes)
    &&& !words::is_key(keys.clear_track, bytes)
    &&& !words::is_key(keys.clear_all, bytes)
}

/// The light of the record key on `channel`, where both are known.
pub open spec fn record_light(keys: KeyMappings, channel: Option<u8>) -> Seq<Sent> {
    if keys.record_led is Some && channel is Some {
        seq![Sent::Led(seq![0x90u8 | channel->0, keys.record_led->0, 127u8])]
    } else {
        Seq::<Sent>::empty()
    }
}

/// The record key arms a recording where none runs or is armed, and remembers the time; cancels an
/// armed one and lets go of all held notes; and stops one that runs. Stopping adds to every track,
/// behind its events, the end of each note that is held on it, at the place of the clock in its
/// loop, and lets go of them all. The light tells what is the case. Nothing else changes.
pub proof fn law_the_record_key(
    e: Engine,
    keys: KeyMappings,
    scenes: Seq<(String, SceneConfig)>,
    bytes: Seq<u8>,
    now: u128,
)
    requires
        past_clear(keys, bytes),
        words::is_key(keys.record_track, bytes),
        forall|id: usize| #[trigger] e.tracks.contains_key(id) ==> words::span(e, id) > 0,
    ensures
        ({
            let r = midi::reaction(e, keys, scenes, bytes, now);
            &&& r.pads is None
            &&& !e.is_recording && !e.pending_record ==> {
                &&& r.engine == (Engine {
                    pending_record: true,
                    record_armed_at: Some(now),
                    ..e
                })
                &&& r.sent == record_light(keys, keys.led_blink_channel)
            }
            &&& !e.is_recording && e.pending_record ==> {
                &&& r.engine == (Engine {
                    pending_record: false,
                    record_armed_at: None,
                    held_notes: Map::empty(),
                    ..e
                })
                &&& r.sent == record_light(keys, keys.led_off_channel)
            }
            &&& e.is_recording ==> {
                &&& r.engine == (Engine {
                    is_recording: false,
                    tracks: r.engine.tracks,
                    held_notes: Map::empty(),
                    ..e
                })
                &&& forall|id: usize| #[trigger]
                    r.engine.tracks.contains_key(id) == e.tracks.contains_key(id)
                &&& forall|id: usize| #[trigger]
                    e.tracks.contains_key(id) ==> ends_held_notes(
                        e,
                        r.engine,
                        id,
                        if e.quantize_on {
                            domain::quantized(
                                e.current_tick as int,
                                e.ppqn as int / 4,
                                words::span(e, id),
                            )
                        } else {
                            e.current_tick as int % words::span(e, id)
                        },
                    )
                &&& r.sent == record_light(keys, keys.led_off_channel)
            }
        }),
{
    lemma_first_key(keys.drum_keys@, bytes);
    let r = midi::reaction(e, keys, scenes, bytes, now).engine;
    if e.is_recording {
        assert forall|id: usize| #[trigger] e.tracks.contains_key(id) implies r.tracks[id].take(
            e.tracks[id].len() as int,
        ) == e.tracks[id] by {
            assert(r.tracks[id].take(e.tracks[id].len() as int) =~= e.tracks[id]);
        }
    }
}

/// Whether track `id` of `r` is that of `e` with the end of each note that is held on it added at
/// `tick`, in the order in which they came.
pub open spec fn ends_held_notes(e: Engine, r: Engine, id: usize, tick: int) -> bool {
    let n = e.tracks[id].len();
    if e.held_notes.contains_key(id) {
        &&& r.tracks[id].len() == n + e.held_notes[id].len()
        &&& r.tracks[id].take(n as int) == e.tracks[id]
        &&& forall|i: int|
            0 <= i < e.held_notes[id].len() ==> words::event_is(
                #[trigger] r.tracks[id][n + i],
                tick,
                MessageType::NoteOff,
                e.held_notes[id][i].0,
                0,
                e.held_notes[id][i].1,
            )
    } else {
        r.tracks[id] == e.tracks[id]
    }
}

/// Whether `bytes` presses a key behind the record key.
pub open spec fn past_record(keys: KeyMappings, bytes: Seq<u8>) -> bool {
    &&& past_clear(keys, bytes)
    &&& !words::is_key(keys.record_track, bytes)
}

/// The undo key puts the last of the kept takes of the active track in its place and takes it off
/// the pile; without one it changes nothing. No other track and no other pile changes, and nothing
/// is sent.
pub proof fn law_the_undo_key(
    e: Engine,
    keys: KeyMappings,
    scenes: Seq<(String, SceneConfig)>,
    bytes: Seq<u8>,
    now: u128,
)
    requires
        past_record(keys, bytes),
        words::is_set_key(keys.undo_track, bytes),
    ensures
        ({
            let r = midi::reaction(e, keys, scenes, bytes, now);
            let id = e.active_track;
            let pile = e.track_history[id];
            &&& r.sent.len() == 0
            &&& r.pads is None
            &&& !e.track_history.contains_key(id) || pile.len() == 0 ==> r.engine == e
            &&& e.track_history.contains_key(id) && pile.len() > 0 ==> {
                &&& r.engine == (Engine {
                    tracks: e.tracks.insert(id, pile[pile.len() - 1]),
                    track_history: e.track_history.insert(id, pile.take(pile.len() - 1)),
                    ..e
                })
            }
        }),
{
    lemma_first_key(keys.drum_keys@, bytes);
    let pile = e.track_history[e.active_track];
    if pile.len() > 0 {
        assert(pile.take(pile.len() - 1) =~= pile.drop_last());
    }
}

/// The quantize key turns quantizing on or off, and changes nothing else.
pub proof fn law_the_quantize_key(
    e: Engine,
    keys: KeyMappings,
    scenes: Seq<(String, SceneConfig)>,
    bytes: Seq<u8>,
    now: u128,
)
    requires
        past_record(keys, bytes),
        !words::is_set_key(keys.undo_track, bytes),
        words::is_set_key(keys.quantize, bytes),
    ensures
        ({
            let r = midi::reaction(e, keys, scenes, bytes, now);
            &&& r.engine == (Engine { quantize_on: !e.quantize_on, ..e })
            &&& r.sent.len() == 0
            &&& r.pads is None
        }),
{
    lemma_first_key(keys.drum_keys@, bytes);
}

/// The mute key mutes the active track and silences its channel, or lets it sound again; no other
/// track is touched and nothing else changes.
pub proof fn law_the_mute_key(
    e: Engine,
    keys: KeyMappings,
    scenes: Seq<(String, SceneConfig)>,
    bytes: Seq<u8>,
    now: u128,
)
    requires
        past_record(keys, bytes),
        !words::is_set_key(keys.undo_track, bytes),
        !words::is_set_key(keys.quantize, bytes),
        words::is_set_key(keys.mute_track, bytes),
    ensures
        ({
            let r = midi::reaction(e, keys, scenes, bytes, now);
            let muted = e.muted_tracks.contains(e.active_track);
            &&& r.engine == (Engine { muted_tracks: r.engine.muted_tracks, ..e })
            &&& forall|id: usize| #[trigger]
                r.engine.muted_tracks.contains(id) == if id == e.active_track {
                    !muted
                } else {
                    e.muted_tracks.contains(id)
                }
            &&& muted ==> r.sent.len() == 0
            &&& !muted ==> r.sent == seq![
                Sent::Synth(seq![0xB0u8 | words::own_channel(e), 123u8, 0u8]),
            ]
            &&& r.pads is None
        }),
{
    lemma_first_key(keys.drum_keys@, bytes);
}

/// A track key makes its track active, the first key track 1 and so on, where the engine has that
/// track; else, and for a control change of no key at all, nothing changes. Nothing is sent.
pub proof fn law_track_keys_select(
    e: Engine,
    keys: KeyMappings,
    scenes: Seq<(String, SceneConfig)>,
    bytes: Seq<u8>,
    now: u128,
)
    requires
        past_record(keys, bytes),
        !words::is_set_key(keys.undo_track, bytes),
        !words::is_set_key(keys.quantize, bytes),
        !words::is_set_key(keys.mute_track, bytes),
    ensures
        ({
            let r = midi::reaction(e, keys, scenes, bytes, now);
            &&& r.sent.len() == 0
            &&& r.pads is None
            &&& words::is_no_key(keys.track_keys@, bytes) ==> r.engine == e
            &&& forall|i: int| #[trigger]
                words::is_first_key(keys.track_keys@, bytes, i) && i < usize::MAX ==> {
                    let id = (i + 1) as usize;
                    r.engine == if e.track_channels.contains_key(id) {
                        Engine { active_track: id, ..e }
                    } else {
                        e
                    }
                }
        }),
{
    lemma_first_key(keys.drum_keys@, bytes);
    lemma_first_key(keys.track_keys@, bytes);
    assert forall|i: int, j: int| #[trigger]
        words::is_first_key(keys.track_keys@, bytes, i) && #[trigger] words::is_first_key(
            keys.track_keys@,
            bytes,
            j,
        ) implies i == j by {
        if i < j {
            assert(!words::is_key(keys.track_keys@[i], bytes));
        } else if j < i {
            assert(!words::is_key(keys.track_keys@[j], bytes));
        }
    }
}

/// The scene keys switch to the next and to the previous scene, going round, and set up the synth
/// for it. The pads follow where they can be read; else they stay, and the complaint is reported.
/// Without scenes nothing happens.
pub proof fn law_scene_keys_switch(
    e: Engine,
    keys: KeyMappings,
    scenes: Seq<(String, SceneConfig)>,
    bytes: Seq<u8>,
    now: u128,
)
    requires
        words::past_knobs(keys, bytes),
        bytes[2] > 0,
        words::is_set_key(keys.scene_down, bytes) || words::is_set_key(keys.scene_up, bytes),
        e.current_scene_idx < scenes.len() || scenes.len() == 0,
        scenes.len() <= usize::MAX,
    ensures
        ({
            let r = midi::reaction(e, keys, scenes, bytes, now);
            let at = e.current_scene_idx as int;
            let to = if words::is_set_key(keys.scene_down, bytes) {
                if at + 1 == scenes.len() {
                    0
                } else {
                    at + 1
                }
            } else {
                if at == 0 {
                    scenes.len() - 1
                } else {
                    at - 1
                }
            };
            &&& scenes.len() == 0 ==> r.engine == e && r.sent.len() == 0 && r.pads is None
            &&& scenes.len() > 0 ==> {
                let setup = scene::patches(scenes[to].1);
                &&& r.engine == scene::switched(e, scenes[to].0@, scenes[to].1, to as usize)
                &&& match config::drum_mapping(scenes[to].1) {
                    Ok(pads) => r.pads == Some(pads) && r.sent == setup,
                    Err(_) => r.pads is None && r.sent.len() == setup.len() + 1 && r.sent.take(
                        setup.len() as int,
                    ) == setup && r.sent.last() is PadsRejected,
                }
            }
        }),
{
    lemma_first_key(keys.drum_keys@, bytes);
    if scenes.len() > 0 {
        let r = midi::reaction(e, keys, scenes, bytes, now);
        scene_laws::law_scene_keys_go_round(e.current_scene_idx, scenes.len());
        let n = scenes.len() as int;
        let at = e.current_scene_idx as int;
        if at == 0 {
            vstd::arithmetic::div_mod::lemma_small_mod((n - 1) as nat, n as nat);
        } else {
            vstd::arithmetic::div_mod::lemma_mod_add_multiples_vanish(at - 1, n);
            vstd::arithmetic::div_mod::lemma_small_mod((at - 1) as nat, n as nat);
        }
        let down = words::is_set_key(keys.scene_down, bytes);
        let to = midi::neighbour(e.current_scene_idx, scenes.len(), down);
        let setup = scene::patches(scenes[to].1);
        if r.sent.len() > setup.len() {
            assert(r.sent.take(setup.len() as int) =~= setup);
        }
    }
}

/// After a scene key, the bindings are as before but for the pads, which are those of the scene.
pub proof fn law_pads_follow_the_scene(
    before: KeyMappings,
    after: KeyMappings,
    pads: Option<(Seq<Seq<u8>>, u8)>,
)
    requires
        midi::pads_follow(before, after, pads),
    ensures
        pads is None ==> after == before,
        pads matches Some((lists, channel)) ==> {
            &&& after == (KeyMappings {
                drum_notes: after.drum_notes,
                drum_channel: after.drum_channel,
                ..before
            })
            &&& after.drum_channel == channel
            &&& after.drum_notes@.len() == lists.len()
            &&& forall|i: int|
                0 <= i < after.drum_notes@.len() ==> (#[trigger] after.drum_notes@[i])@ == lists[i]
        },
{
    if let Some((lists, channel)) = pads {
        assert(config::note_lists(after.drum_notes@) == lists);
        assert forall|i: int| 0 <= i < after.drum_notes@.len() implies (
        #[trigger] after.drum_notes@[i])@ == lists[i] by {
            assert(config::note_lists(after.drum_notes@)[i] == after.drum_notes@[i]@);
        }
    }
}

/// The loudness of the pads for a strike of velocity `v`: a fixed velocity comes in its place, the
/// table scales it, and 127 is the most.
pub open spec fn pad_loudness(e: Engine, v: u8) -> int {
    words::on_table(
        e.drum_velocity_multiplier,
        match e.drum_velocity {
            Some(fixed) => fixed,
            None => v,
        },
    )
}

/// A pad sounds each of its notes in turn, on the drum channel and with the loudness of the pads,
/// when it is struck, and ends each of them when it is let go. A pad without notes is silent and
/// changes nothing. The first pad that a control change is of counts.
pub proof fn law_pads_sound(
    e: Engine,
    keys: KeyMappings,
    scenes: Seq<(String, SceneConfig)>,
    bytes: Seq<u8>,
    now: u128,
    pad: int,
)
    requires
        words::control(bytes),
        !(words::is_key(keys.shift, bytes) && bytes[2] == 0),
        words::is_first_key(keys.drum_keys@, bytes, pad),
    ensures
        ({
            let r = midi::reaction(e, keys, scenes, bytes, now);
            let notes = keys.drum_notes@[pad]@;
            &&& r.pads is None
            &&& pad >= keys.drum_notes@.len() ==> r.engine == e && r.sent.len() == 0
            &&& pad < keys.drum_notes@.len() ==> {
                &&& r.sent.len() == notes.len()
                &&& forall|i: int|
                    0 <= i < notes.len() ==> {
                        &&& #[trigger] r.sent[i] matches Sent::Synth(out)
                        &&& out.len() == 3
                        &&& out[0] == if bytes[2] > 0 {
                            0x90u8 | keys.drum_channel
                        } else {
                            0x80u8 | keys.drum_channel
                        }
                        &&& out[1] == notes[i]
                        &&& out[2] == if bytes[2] > 0 {
                            pad_loudness(e, bytes[2])
                        } else {
                            0
                        }
                    }
            }
        }),
{
    lemma_first_key(keys.drum_keys@, bytes);
    lemma_one_first_key(keys.drum_keys@, bytes);
}

/// There is at most one first key.
proof fn lemma_one_first_key(keys: Seq<KeyBinding>, bytes: Seq<u8>)
    ensures
        forall|i: int, j: int| #[trigger]
            words::is_first_key(keys, bytes, i) && #[trigger] words::is_first_key(keys, bytes, j)
                ==> i == j,
{
    assert forall|i: int, j: int| #[trigger]
        words::is_first_key(keys, bytes, i) && #[trigger] words::is_first_key(
            keys,
            bytes,
            j,
        ) implies i == j by {
        if i < j {
            assert(!words::is_key(keys[i], bytes));
        } else if j < i {
            assert(!words::is_key(keys[j], bytes));
        }
    }
}

/// While no recording runs, a pad changes nothing. While one runs, it changes the drum lane and
/// what is held there alone. A strike adds a start for each note of the pad, in turn, at the place
/// of the clock in the drum loop and with the loudness that was heard, and holds the notes; letting
/// go adds an end for each note that is held, and for no other, and holds none of them any more.
pub proof fn law_pads_are_recorded(
    e: Engine,
    keys: KeyMappings,
    scenes: Seq<(String, SceneConfig)>,
    bytes: Seq<u8>,
    now: u128,
    pad: int,
)
    requires
        words::control(bytes),
        !(words::is_key(keys.shift, bytes) && bytes[2] == 0),
        words::is_first_key(keys.drum_keys@, bytes, pad),
        pad < keys.drum_notes@.len(),
        words::held_once(e),
        words::span(e, 0) > 0,
    ensures
        ({
            let r = midi::reaction(e, keys, scenes, bytes, now).engine;
            let notes = keys.drum_notes@[pad]@;
            let c = keys.drum_channel;
            let place = if e.quantize_on {
                domain::quantized(e.current_tick as int, e.ppqn as int / 4, words::span(e, 0))
            } else {
                e.current_tick as int % words::span(e, 0)
            };
            let before = e.tracks[0];
            let after = r.tracks[0];
            &&& !e.is_recording ==> r == e
            &&& e.is_recording ==> {
                &&& r == (Engine { tracks: r.tracks, held_notes: r.held_notes, ..e })
                &&& words::same_but(r, e, 0)
                &&& r.tracks.contains_key(0) == e.tracks.contains_key(0)
                &&& forall|n: (u8, u8)| #[trigger]
                    words::held(r, 0, n) <==> if n.1 == c && notes.contains(n.0) {
                        bytes[2] > 0
                    } else {
                        words::held(e, 0, n)
                    }
                &&& e.tracks.contains_key(0) ==> before.is_prefix_of(after)
                &&& e.tracks.contains_key(0) && bytes[2] > 0 ==> {
                    &&& after.len() == before.len() + notes.len()
                    &&& forall|i: int|
                        0 <= i < notes.len() ==> words::event_is(
                            #[trigger] after[before.len() + i],
                            place,
                            MessageType::NoteOn,
                            notes[i],
                            pad_loudness(e, bytes[2]),
                            c,
                        )
                }
                &&& e.tracks.contains_key(0) && bytes[2] == 0 ==> {
                    &&& forall|i: int|
                        before.len() <= i < after.len() ==> {
                            let event = #[trigger] after[i];
                            &&& words::event_is(event, place, MessageType::NoteOff, event.data1, 0, c)
                            &&& notes.contains(event.data1) && words::held(e, 0, (event.data1, c))
                        }
                    &&& forall|note: u8| #[trigger]
                        notes.contains(note) && words::held(e, 0, (note, c)) ==> exists|i: int|
                            before.len() <= i < after.len() && (#[trigger] after[i]).data1 == note
                    &&& forall|i: int, j: int|
                        before.len() <= i < j < after.len() ==> after[i].data1 != after[j].data1
                }
            }
        }),
{
    lemma_first_key(keys.drum_keys@, bytes);
    lemma_one_first_key(keys.drum_keys@, bytes);
    let notes = keys.drum_notes@[pad]@;
    if e.is_recording {
        lemma_pad(e, notes, bytes[2], keys.drum_channel);
    }
}

/// What two changes leave alone, both together leave alone.
proof fn lemma_same_through(a: Engine, b: Engine, c: Engine, id: usize)
    requires
        words::same_but(a, b, id),
        words::same_but(b, c, id),
    ensures
        words::same_but(a, c, id),
{
    assert forall|k: usize| k != id implies a.tracks.contains_key(k) == c.tracks.contains_key(k)
        && #[trigger] a.tracks[k] == #[trigger] c.tracks[k] && a.held_notes.contains_key(k)
        == c.held_notes.contains_key(k) && a.held_notes[k] == c.held_notes[k] by {
        assert(a.tracks.contains_key(k) == b.tracks.contains_key(k));
        assert(b.tracks.contains_key(k) == c.tracks.contains_key(k));
    }
}

/// What recording the notes of a pad does to the drum lane.
proof fn lemma_pad(e: Engine, notes: Seq<u8>, value: u8, c: u8)
    requires
        words::held_once(e),
        words::span(e, 0) > 0,
    ensures
        ({
            let r = midi::pad_recorded(e, notes, value, c);
            let place = if e.quantize_on {
                domain::quantized(e.current_tick as int, e.ppqn as int / 4, words::span(e, 0))
            } else {
                e.current_tick as int % words::span(e, 0)
            };
            let before = e.tracks[0];
            let after = r.tracks[0];
            &&& r == (Engine { tracks: r.tracks, held_notes: r.held_notes, ..e })
            &&& words::held_once(r)
            &&& words::same_but(r, e, 0)
            &&& r.tracks.contains_key(0) == e.tracks.contains_key(0)
            &&& forall|n: (u8, u8)| #[trigger]
                words::held(r, 0, n) <==> if n.1 == c && notes.contains(n.0) {
                    value > 0
                } else {
                    words::held(e, 0, n)
                }
            &&& e.tracks.contains_key(0) ==> before.is_prefix_of(after)
            &&& e.tracks.contains_key(0) && value > 0 ==> {
                &&& after.len() == before.len() + notes.len()
                &&& forall|i: int|
                    0 <= i < notes.len() ==> words::event_is(
                        #[trigger] after[before.len() + i],
                        place,
                        MessageType::NoteOn,
                        notes[i],
                        pad_loudness(e, value),
                        c,
                    )
            }
            &&& e.tracks.contains_key(0) && value == 0 ==> {
                &&& forall|i: int|
                    before.len() <= i < after.len() ==> {
                        let event = #[trigger] after[i];
                        &&& words::event_is(event, place, MessageType::NoteOff, event.data1, 0, c)
                        &&& notes.contains(event.data1) && words::held(e, 0, (event.data1, c))
                    }
                &&& forall|note: u8| #[trigger]
                    notes.contains(note) && words::held(e, 0, (note, c)) ==> exists|i: int|
                        before.len() <= i < after.len() && (#[trigger] after[i]).data1 == note
                &&& forall|i: int, j: int|
                    before.len() <= i < j < after.len() ==> after[i].data1 != after[j].data1
            }
        }),
    decreases notes.len(),
{
    if notes.len() > 0 {
        let front = notes.drop_last();
        let last = notes.last();
        let d = midi::pad_recorded(e, front, value, c);
        let r = midi::pad_recorded(e, notes, value, c);
        lemma_pad(e, front, value, c);
        assert forall|n: u8| #[trigger] notes.contains(n) <==> front.contains(n) || n == last by {
            if front.contains(n) {
                let i = choose|i: int| 0 <= i < front.len() && front[i] == n;
                assert(notes[i] == n);
            }
            if n == last {
                assert(notes[notes.len() - 1] == n);
            }
            if notes.contains(n) && n != last {
                let i = choose|i: int| 0 <= i < notes.len() && notes[i] == n;
                assert(front[i] == n);
            }
        }
        let note = (last, c);
        if d.held_notes.contains_key(0) {
            lemma_with_and_without(d.held_notes[0], note);
        } else {
            lemma_with_and_without(Seq::empty(), note);
        }
        assert forall|n: (u8, u8)| #[trigger] words::held(r, 0, n) <==> if n == note {
            value > 0
        } else {
            words::held(d, 0, n)
        } by {
            if value > 0 {
                assert(r.held_notes[0] == domain::with_note(
                    if d.held_notes.contains_key(0) {
                        d.held_notes[0]
                    } else {
                        Seq::empty()
                    },
                    note,
                ));
            } else if words::held(d, 0, note) {
                assert(r.held_notes[0] == domain::without_note(d.held_notes[0], note));
            } else {
                assert(r == d);
            }
        }
        assert forall|n: (u8, u8)| #[trigger] words::held(r, 0, n) <==> if n.1 == c
            && notes.contains(n.0) {
            value > 0
        } else {
            words::held(e, 0, n)
        } by {
            assert(notes.contains(n.0) <==> front.contains(n.0) || n.0 == last);
            assert(words::held(d, 0, n) <==> if n.1 == c && front.contains(n.0) {
                value > 0
            } else {
                words::held(e, 0, n)
            });
        }
        assert(words::same_but(r, d, 0));
        lemma_same_through(r, d, e, 0);
        assert(words::held_once(r)) by {
            assert forall|id: usize| #[trigger]
                r.held_notes.contains_key(id) implies r.held_notes[id].no_duplicates() by {
                if id != 0 {
                    assert(d.held_notes.contains_key(id));
                }
            }
        }
        if e.tracks.contains_key(0) {
            let before = e.tracks[0];
            let mid = d.tracks[0];
            let after = r.tracks[0];
            assert(mid.is_prefix_of(after));
            assert(before.is_prefix_of(after));
            assert(forall|i: int| 0 <= i < mid.len() ==> after[i] == mid[i]);
            if value == 0 {
                if after.len() > mid.len() {
                    assert(words::held(d, 0, note));
                    assert(words::held(e, 0, note));
                    assert(after[mid.len() as int].data1 == last);
                }
                assert forall|n: u8| #[trigger]
                    notes.contains(n) && words::held(e, 0, (n, c)) implies exists|i: int|
                    before.len() <= i < after.len() && (#[trigger] after[i]).data1 == n by {
                    if front.contains(n) {
                        let i = choose|i: int|
                            before.len() <= i < mid.len() && (#[trigger] mid[i]).data1 == n;
                        assert(after[i].data1 == n);
                    } else {
                        assert(words::held(d, 0, note));
                        assert(after[mid.len() as int].data1 == n);
                    }
                }
                assert forall|i: int, j: int| before.len() <= i < j < after.len() implies after[i].data1
                    != after[j].data1 by {
                    if j == mid.len() {
                        assert(front.contains(mid[i].data1));
                        assert(words::held(d, 0, note));
                    }
                }
            }
        }
    } else {
        assert(e.tracks[0].is_prefix_of(e.tracks[0]));
    }
}

/// Adding a note and taking one away change that note alone.
proof fn lemma_with_and_without(notes: Seq<(u8, u8)>, note: (u8, u8))
    requires
        notes.no_duplicates(),
    ensures
        forall|n: (u8, u8)| #[trigger]
            domain::with_note(notes, note).contains(n) <==> n == note || notes.contains(n),
        forall|n: (u8, u8)| #[trigger]
            domain::without_note(notes, note).contains(n) <==> n != note && notes.contains(n),
        domain::with_note(notes, note).no_duplicates(),
        domain::without_note(notes, note).no_duplicates(),
{
    let with = domain::with_note(notes, note);
    let without = domain::without_note(notes, note);
    assert forall|n: (u8, u8)| #[trigger] with.contains(n) <==> n == note || notes.contains(n) by {
        if notes.contains(n) {
            let i = choose|i: int| 0 <= i < notes.len() && notes[i] == n;
            assert(with[i] == n);
        }
        if n == note && !notes.contains(note) {
            assert(with[notes.len() as int] == note);
        }
    }
    if notes.contains(note) {
        let at = notes.index_of(note);
        assert(notes[at] == note);
        assert forall|n: (u8, u8)| #[trigger] without.contains(n) <==> n != note && notes.contains(
            n,
        ) by {
            if without.contains(n) {
                let i = choose|i: int| 0 <= i < without.len() && without[i] == n;
                let k = if i < at {
                    i
                } else {
                    i + 1
                };
                assert(notes[k] == n);
            }
            if n != note && notes.contains(n) {
                let i = choose|i: int| 0 <= i < notes.len() && notes[i] == n;
                let k = if i < at {
                    i
                } else {
                    i - 1
                };
                assert(without[k] == n);
            }
        }
    }
}

} // verus!
