//! The keys, pads and knobs of the controller.
use crate::clock;
use crate::config::{KeyMappings, SceneConfig};
use crate::domain;
use crate::domain::{Engine, TrackEvent};
use crate::midi;
use crate::output::Sent;
use crate::recording;
use vstd::prelude::*;

verus! {

/// Whether `bytes` is a press that reaches the keys that are pressed: no pad, knob or scene key is
/// bound to it.
pub open spec fn is_press(keys: KeyMappings, bytes: Seq<u8>) -> bool {
    let channel = bytes[0] & 0x0F;
    &&& midi::is_control_change(bytes)
    &&& !midi::is_note_message(bytes)
    &&& bytes[2] > 0
    &&& midi::first_bound(keys.drum_keys@, bytes[1], channel) is None
    &&& !midi::is_bound(keys.instrument_select, bytes[1], channel)
    &&& !midi::is_bound(keys.volume_knob, bytes[1], channel)
    &&& !midi::is_bound(keys.bpm_knob, bytes[1], channel)
    &&& !midi::is_bound(keys.scene_down, bytes[1], channel)
    &&& !midi::is_bound(keys.scene_up, bytes[1], channel)
    &&& !keys.shift.is_cc(bytes[1], channel)
}

/// A message is of one kind: a control change is no note.
pub proof fn law_messages_are_told_apart(bytes: Seq<u8>)
    ensures
        !(midi::is_note_message(bytes) && midi::is_control_change(bytes)),
        !(midi::is_note_message(bytes) && midi::is_pitch_bend(bytes)),
        !(midi::is_control_change(bytes) && midi::is_pitch_bend(bytes)),
{
}

/// Two presses of the metronome key leave the engine as it was, and so do two presses of the
/// quantize key and of the mute key.
pub proof fn law_toggles_undo_themselves(
    e: Engine,
    keys: KeyMappings,
    scenes: Seq<(String, SceneConfig)>,
    bytes: Seq<u8>,
    first: u128,
    second: u128,
)
    requires
        is_press(keys, bytes),
        ({
            let channel = bytes[0] & 0x0F;
            ||| keys.metronome.is_cc(bytes[1], channel)
            ||| {
                &&& !keys.clear_track.is_cc(bytes[1], channel)
                &&& !keys.clear_all.is_cc(bytes[1], channel)
                &&& !keys.record_track.is_cc(bytes[1], channel)
                &&& !midi::is_bound(keys.undo_track, bytes[1], channel)
                &&& midi::is_bound(keys.quantize, bytes[1], channel) || midi::is_bound(
                    keys.mute_track,
                    bytes[1],
                    channel,
                )
            }
        }),
    ensures
        ({
            let once = midi::reaction(e, keys, scenes, bytes, first).engine;
            &&& once != e
            &&& midi::reaction(once, keys, scenes, bytes, second).engine == e
        }),
{
    let once = midi::reaction(e, keys, scenes, bytes, first).engine;
    let twice = midi::reaction(once, keys, scenes, bytes, second).engine;
    assert(twice.muted_tracks =~= e.muted_tracks);
    if e.muted_tracks.contains(e.active_track) {
        assert(once.metronome_on != e.metronome_on || once.quantize_on != e.quantize_on
            || !once.muted_tracks.contains(e.active_track));
    } else {
        assert(once.metronome_on != e.metronome_on || once.quantize_on != e.quantize_on
            || once.muted_tracks.contains(e.active_track));
    }
}

/// Pressing the record key twice while nothing is recorded arms and disarms: nothing is armed, no
/// note is held, and all else is as it was.
pub proof fn law_record_twice_disarms(
    e: Engine,
    keys: KeyMappings,
    scenes: Seq<(String, SceneConfig)>,
    bytes: Seq<u8>,
    first: u128,
    second: u128,
)
    requires
        is_press(keys, bytes),
        keys.record_track.is_cc(bytes[1], bytes[0] & 0x0F),
        !keys.metronome.is_cc(bytes[1], bytes[0] & 0x0F),
        !keys.clear_track.is_cc(bytes[1], bytes[0] & 0x0F),
        !keys.clear_all.is_cc(bytes[1], bytes[0] & 0x0F),
        !e.is_recording,
        !e.pending_record,
        e.record_armed_at is None,
    ensures
        ({
            let once = midi::reaction(e, keys, scenes, bytes, first).engine;
            &&& once == (Engine { pending_record: true, record_armed_at: Some(first), ..e })
            &&& midi::reaction(once, keys, scenes, bytes, second).engine == (Engine {
                held_notes: Map::empty(),
                ..e
            })
        }),
{
}

/// While the modifier is held, a note on its channel is neither sent nor recorded nor counted as a
/// key that is down. It changes at most the length of the active track, and what the new length
/// cuts off.
pub proof fn law_the_modifier_swallows_notes(
    e: Engine,
    keys: KeyMappings,
    scenes: Seq<(String, SceneConfig)>,
    bytes: Seq<u8>,
    now: u128,
)
    requires
        midi::is_note_message(bytes),
        midi::swallows(e, keys, bytes[0] & 0x0F),
    ensures
        ({
            let r = midi::reaction(e, keys, scenes, bytes, now);
            &&& r.sent.len() == 0
            &&& r.engine == (Engine {
                tracks: r.engine.tracks,
                track_lengths: r.engine.track_lengths,
                ..e
            })
            &&& forall|id: usize|
                id != e.active_track ==> #[trigger] r.engine.tracks[id] == e.tracks[id]
                    && r.engine.track_lengths[id] == e.track_lengths[id]
            &&& r.engine.tracks.dom() == e.tracks.dom()
        }),
{
    let r = midi::reaction(e, keys, scenes, bytes, now);
    assert(r.engine.tracks.dom() =~= e.tracks.dom());
}

/// A loop that is cut keeps what comes before its new end, in order, and nothing else.
pub proof fn law_a_cut_loop_keeps_what_fits(e: Engine, length: usize, event: TrackEvent)
    requires
        e.tracks.contains_key(e.active_track),
    ensures
        midi::resized(e, length).track_lengths[e.active_track] == length,
        midi::resized(e, length).tracks[e.active_track].contains(event) <==> e.tracks[
            e.active_track
        ].contains(event) && event.tick < length,
{
    let events = e.tracks[e.active_track];
    let early = |event: TrackEvent| event.tick < length;
    let kept = events.filter(early);
    if kept.contains(event) {
        events.lemma_filter_contains_rev(early, event);
        let i = choose|i: int| 0 <= i < kept.len() && kept[i] == event;
        events.lemma_filter_pred(early, i);
    }
    if events.contains(event) && event.tick < length {
        let i = choose|i: int| 0 <= i < events.len() && events[i] == event;
        events.lemma_filter_contains(early, i);
    }
}

/// The release of a key does nothing, but for the modifier, the pads and the knobs.
pub proof fn law_releases_are_ignored(
    e: Engine,
    keys: KeyMappings,
    scenes: Seq<(String, SceneConfig)>,
    bytes: Seq<u8>,
    now: u128,
)
    requires
        midi::is_control_change(bytes),
        bytes[2] == 0,
        !keys.shift.is_cc(bytes[1], bytes[0] & 0x0F),
        midi::first_bound(keys.drum_keys@, bytes[1], bytes[0] & 0x0F) is None,
        !midi::is_bound(keys.instrument_select, bytes[1], bytes[0] & 0x0F),
        !midi::is_bound(keys.volume_knob, bytes[1], bytes[0] & 0x0F),
        !midi::is_bound(keys.bpm_knob, bytes[1], bytes[0] & 0x0F),
    ensures
        midi::reaction(e, keys, scenes, bytes, now) == midi::quiet(e),
{
}

/// A message that is too short, or neither a note nor a control change nor a pitch bend, does
/// nothing; nor does a note on the pads' channel while the modifier is up.
pub proof fn law_other_messages_are_ignored(
    e: Engine,
    keys: KeyMappings,
    scenes: Seq<(String, SceneConfig)>,
    bytes: Seq<u8>,
    now: u128,
)
    requires
        ({
            ||| bytes.len() < 3
            ||| !midi::is_note_message(bytes) && !midi::is_control_change(bytes)
                && !midi::is_pitch_bend(bytes)
            ||| midi::is_note_message(bytes) && bytes[0] & 0x0F == 9 && !e.shift_held
        }),
    ensures
        midi::reaction(e, keys, scenes, bytes, now) == midi::quiet(e),
{
}

/// The tempo knob covers 40 to 167 beats a minute, one for each step.
pub proof fn law_tempo_knob_range(
    e: Engine,
    keys: KeyMappings,
    scenes: Seq<(String, SceneConfig)>,
    bytes: Seq<u8>,
    now: u128,
)
    requires
        midi::is_control_change(bytes),
        bytes[2] <= 127,
        midi::is_bound(keys.bpm_knob, bytes[1], bytes[0] & 0x0F),
        !keys.shift.is_cc(bytes[1], bytes[0] & 0x0F),
        midi::first_bound(keys.drum_keys@, bytes[1], bytes[0] & 0x0F) is None,
        !midi::is_bound(keys.instrument_select, bytes[1], bytes[0] & 0x0F),
        !midi::is_bound(keys.volume_knob, bytes[1], bytes[0] & 0x0F),
    ensures
        midi::reaction(e, keys, scenes, bytes, now).engine.bpm == 40 + bytes[2],
        40 <= midi::reaction(e, keys, scenes, bytes, now).engine.bpm <= 167,
        midi::reaction(e, keys, scenes, bytes, now).sent.len() == 0,
{
}

/// Clear-all leaves no event and no held note on any track, and takes no track away.
pub proof fn law_clear_all_empties_every_track(e: Engine, id: usize)
    ensures
        midi::all_cleared(e).tracks.dom() == e.tracks.dom(),
        e.tracks.contains_key(id) ==> midi::all_cleared(e).tracks[id].len() == 0,
        recording::held_on(midi::all_cleared(e), id).len() == 0,
{
    assert(midi::all_cleared(e).tracks.dom() =~= e.tracks.dom());
}

/// Clear-all silences every channel in use and no other, each once, in rising order.
pub proof fn law_clear_all_silences_each_channel_once(channels: Set<u8>, n: nat)
    requires
        n <= 256,
    ensures
        forall|channel: u8| #[trigger]
            midi::rising(channels, n).contains(channel) <==> channels.contains(channel) && channel
                < n,
        forall|i: int, j: int|
            0 <= i < j < midi::rising(channels, n).len() ==> midi::rising(channels, n)[i]
                < midi::rising(channels, n)[j],
    decreases n,
{
    if n > 0 {
        let last = (n - 1) as u8;
        let rest = midi::rising(channels, (n - 1) as nat);
        let all = midi::rising(channels, n);
        law_clear_all_silences_each_channel_once(channels, (n - 1) as nat);
        assert forall|channel: u8| #[trigger] all.contains(channel) <==> channels.contains(channel)
            && channel < n by {
            if rest.contains(channel) {
                let i = choose|i: int| 0 <= i < rest.len() && rest[i] == channel;
                assert(all[i] == channel);
            }
            if channels.contains(last) {
                assert(all[rest.len() as int] == last);
            }
        }
        assert forall|i: int, j: int| 0 <= i < j < all.len() implies all[i] < all[j] by {
            assert(rest.contains(rest[i]));
        }
    }
}

/// Whatever the override and the multiplier, a velocity that is sent fits in seven bits, and
/// without them it is the one that was played, up to the maximum.
pub proof fn law_velocities_stay_in_range(played: u8, fixed: Option<u8>, scale: Seq<u32>)
    ensures
        domain::adjusted(played, fixed, scale) <= 127,
        played <= 127 ==> domain::adjusted(played, None, domain::unit_scale()) == played,
        fixed matches Some(v) ==> domain::adjusted(played, fixed, scale) == domain::adjusted(
            v,
            None,
            scale,
        ),
{
}

/// A pad that is struck sounds each of its notes on the drum channel, and ends them when it is let
/// go.
pub proof fn law_pads_sound_their_notes(
    e: Engine,
    keys: KeyMappings,
    pad: int,
    value: u8,
    i: int,
)
    requires
        0 <= pad < keys.drum_notes@.len(),
        0 <= i < keys.drum_notes@[pad]@.len(),
    ensures
        ({
            let sent = midi::pad_reaction(e, keys, pad, value).sent;
            let note = keys.drum_notes@[pad]@[i];
            &&& sent.len() == keys.drum_notes@[pad]@.len()
            &&& value > 0 ==> sent[i] == Sent::Synth(
                seq![
                    0x90u8 | keys.drum_channel,
                    note,
                    domain::adjusted(value, e.drum_velocity, e.drum_velocity_multiplier),
                ],
            )
            &&& value == 0 ==> sent[i] == Sent::Synth(
                seq![0x80u8 | keys.drum_channel, note, 0u8],
            )
        }),
{
}

/// A muted track sends nothing, whatever it holds.
pub proof fn law_muted_tracks_are_silent(e: Engine, ids: Seq<usize>)
    requires
        forall|i: int| 0 <= i < ids.len() ==> e.muted_tracks.contains(#[trigger] ids[i]),
    ensures
        clock::playback(e, ids).len() == 0,
    decreases ids.len(),
{
    if ids.len() > 0 {
        assert(e.muted_tracks.contains(ids[ids.len() - 1]));
        assert forall|i: int| 0 <= i < ids.drop_last().len() implies e.muted_tracks.contains(
            #[trigger] ids.drop_last()[i],
        ) by {
            assert(e.muted_tracks.contains(ids[i]));
        }
        law_muted_tracks_are_silent(e, ids.drop_last());
    }
}

} // verus!
