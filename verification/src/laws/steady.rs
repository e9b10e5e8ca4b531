//! What every message and every tick keeps, and why the looper never stops on one.
use crate::clock;
use crate::config::{KeyMappings, SceneConfig};
use crate::domain;
use crate::domain::{Engine, TrackEvent};
use crate::laws::playing;
use crate::laws::scenes as scene_laws;
use crate::midi;
use crate::period;
use crate::recording;
use crate::scene;
use vstd::prelude::*;

verus! {

/// Whether a tick leaves room for snapping it to a sixteenth.
pub open spec fn has_margin(e: Engine, tick: int) -> bool {
    tick + e.ppqn < usize::MAX
}

/// Whether every event of `events` leaves room for snapping it.
pub open spec fn events_fit(e: Engine, events: Seq<TrackEvent>) -> bool {
    forall|i: int| 0 <= i < events.len() ==> has_margin(e, (#[trigger] events[i]).tick as int)
}

/// Whether every take of `takes` does.
pub open spec fn takes_fit(e: Engine, takes: Seq<Seq<TrackEvent>>) -> bool {
    forall|k: int| 0 <= k < takes.len() ==> events_fit(e, #[trigger] takes[k])
}

/// The engine in a state from which it can go on: a beat has at least four ticks, the active track
/// is there with a channel and a loop, every track that can be selected is there, every loop has a
/// length, and the numbers leave room for snapping.
pub open spec fn sound(e: Engine) -> bool {
    &&& e.ppqn >= 4
    &&& e.ticks_per_measure > 0
    &&& has_margin(e, e.ticks_per_measure as int)
    &&& has_margin(e, 384)
    &&& has_margin(e, e.current_tick as int)
    &&& has_margin(e, e.max_tick as int)
    &&& e.track_channels.contains_key(e.active_track)
    &&& forall|id: usize| #[trigger]
        e.track_channels.contains_key(id) ==> e.tracks.contains_key(id)
            && e.track_lengths.contains_key(id)
    &&& forall|id: usize| #[trigger]
        e.track_lengths.contains_key(id) ==> e.track_lengths[id] > 0 && has_margin(
            e,
            e.track_lengths[id] as int,
        )
    &&& forall|id: usize| #[trigger] e.tracks.contains_key(id) ==> events_fit(e, e.tracks[id])
    &&& forall|id: usize| #[trigger]
        e.track_history.contains_key(id) ==> takes_fit(e, e.track_history[id])
}

/// Every loop of a sound engine has a length.
proof fn lemma_loops(e: Engine, id: usize)
    requires
        sound(e),
    ensures
        recording::loop_length(e, id) > 0,
        has_margin(e, recording::loop_length(e, id) as int),
        recording::snaps(e, e.current_tick, recording::loop_length(e, id)),
        recording::recorded_tick(e, recording::loop_length(e, id)) < recording::loop_length(e, id),
{
    let length = recording::loop_length(e, id) as int;
    if e.quantize_on {
        let step = e.ppqn as int / 4;
        domain::lemma_floor_to_grid(e.current_tick as int + step / 2, step);
    }
}

/// Whether the neighbouring scenes can be loaded.
pub open spec fn scenes_ready(e: Engine, scenes: Seq<(String, SceneConfig)>) -> bool {
    &&& e.current_scene_idx + scenes.len() <= usize::MAX
    &&& forall|i: int| 0 <= i < scenes.len() ==> scene::scene_ready((#[trigger] scenes[i]).1)
}

/// A sound engine can take every message, where the scenes can be loaded.
pub proof fn law_every_message_can_be_taken(
    e: Engine,
    keys: KeyMappings,
    scenes: Seq<(String, SceneConfig)>,
    bytes: Seq<u8>,
)
    requires
        sound(e),
        scenes_ready(e, scenes),
    ensures
        midi::message_ready(e, keys, scenes, bytes),
{
    lemma_loops(e, e.active_track);
    lemma_loops(e, 0);
    assert forall|id: usize| #[trigger] e.held_notes.contains_key(id) implies recording::snaps(
        e,
        e.current_tick,
        recording::loop_length(e, id),
    ) by {
        lemma_loops(e, id);
    }
    if scenes.len() > 0 {
        let n = scenes.len() as int;
        let down = midi::neighbour(e.current_scene_idx, scenes.len(), true);
        let up = midi::neighbour(e.current_scene_idx, scenes.len(), false);
        assert(0 <= down < n && 0 <= up < n);
        assert(scene::scene_ready(scenes[down].1));
        assert(scene::scene_ready(scenes[up].1));
    }
}

/// The engine that a tick prepares is sound where the engine is.
proof fn lemma_prepared_is_sound(e: Engine, now: u128)
    requires
        sound(e),
    ensures
        sound(clock::prepared(e, now)),
{
    let e1 = if clock::punches_in(e, now) {
        clock::punched_in(e)
    } else if e.is_recording {
        clock::passes_counted(e)
    } else {
        e
    };
    assert(sound(e1)) by {
        if clock::punches_in(e, now) {
            let id = e.active_track;
            assert(events_fit(e, clock::events_of(e, id)));
            assert(takes_fit(e, clock::history_of(e, id).push(clock::events_of(e, id))));
            assert forall|k: usize| #[trigger] e1.track_history.contains_key(k) implies takes_fit(
                e1,
                e1.track_history[k],
            ) by {
                if k != id {
                    assert(takes_fit(e, e.track_history[k]));
                }
                assert forall|j: int| 0 <= j < e1.track_history[k].len() implies events_fit(
                    e1,
                    #[trigger] e1.track_history[k][j],
                ) by {
                    assert(events_fit(e, e1.track_history[k][j]));
                }
            }
            assert forall|k: usize| #[trigger] e1.tracks.contains_key(k) implies events_fit(
                e1,
                e1.tracks[k],
            ) by {
                assert(events_fit(e, e.tracks[k]));
            }
        }
    }
    if e1.is_recording {
        let after = clock::passes_sealed(e1, e.tracks.dom());
        assert forall|id: usize| #[trigger] after.tracks.contains_key(id) implies events_fit(
            after,
            after.tracks[id],
        ) by {
            assert(events_fit(e1, e1.tracks[id]));
            lemma_loops(e1, id);
        }
        assert forall|id: usize| #[trigger] after.track_history.contains_key(id) implies takes_fit(
            after,
            after.track_history[id],
        ) by {
            assert(takes_fit(e1, e1.track_history[id]));
            assert forall|j: int| 0 <= j < after.track_history[id].len() implies events_fit(
                after,
                #[trigger] after.track_history[id][j],
            ) by {
                assert(events_fit(e1, e1.track_history[id][j]));
            }
        }
    }
}

/// A sound engine can take every tick, and is sound after it.
pub proof fn law_every_tick_can_be_taken(e: Engine, ticks_per_beat: usize, now: u128)
    requires
        sound(e),
        ticks_per_beat > 0,
    ensures
        clock::tick_ready(e, ticks_per_beat, now),
        sound(clock::ticked(e, now)),
{
    lemma_prepared_is_sound(e, now);
    let after = clock::prepared(e, now);
    lemma_loops(e, e.active_track);
    assert forall|id: usize| #[trigger] e.tracks.contains_key(id) implies recording::loop_length(
        e,
        id,
    ) > 0 by {
        lemma_loops(e, id);
    }
    assert forall|id: usize| #[trigger]
        after.tracks.contains_key(id) && !after.muted_tracks.contains(id) implies clock::playable(
        after,
        id,
    ) by {
        lemma_loops(after, id);
        let events = after.tracks[id];
        assert(events_fit(after, events));
        assert forall|i: int| 0 <= i < clock::audible(after, id).len() implies recording::snaps(
            after,
            (#[trigger] clock::audible(after, id)[i]).tick,
            recording::loop_length(after, id),
        ) by {
            assert(clock::audible(after, id)[i] == events[i]);
            assert(has_margin(after, events[i].tick as int));
        }
    }
    let next = clock::ticked(e, now);
    lemma_same_limits(after, next);
}

/// Soundness speaks of the clock's tick only by its margin.
proof fn lemma_same_limits(e: Engine, next: Engine)
    requires
        sound(e),
        next == (Engine { current_tick: next.current_tick, ..e }),
        has_margin(e, next.current_tick as int),
    ensures
        sound(next),
{
    assert forall|id: usize| #[trigger] next.tracks.contains_key(id) implies events_fit(
        next,
        next.tracks[id],
    ) by {
        assert(events_fit(e, e.tracks[id]));
    }
    assert forall|id: usize| #[trigger] next.track_history.contains_key(id) implies takes_fit(
        next,
        next.track_history[id],
    ) by {
        lemma_takes_fit_alike(e, next, e.track_history[id]);
    }
}

/// Room for snapping depends on the resolution alone.
proof fn lemma_takes_fit_alike(e: Engine, f: Engine, takes: Seq<Seq<TrackEvent>>)
    requires
        e.ppqn == f.ppqn,
        takes_fit(e, takes),
    ensures
        takes_fit(f, takes),
{
    assert forall|k: int| 0 <= k < takes.len() implies events_fit(f, #[trigger] takes[k]) by {
        assert(events_fit(e, takes[k]));
    }
}

/// Whether a scene loads into a sound engine of this resolution: it has a first track, its measure
/// and its loops have a length, and its numbers leave room for snapping.
pub open spec fn scene_sound(config: SceneConfig, ppqn: usize) -> bool {
    &&& scene::scene_ready(config)
    &&& scene::track_count(config) >= 1
    &&& 0 < scene::measure_ticks(config)
    &&& scene::measure_ticks(config) + ppqn < usize::MAX
    &&& forall|id: usize| #[trigger]
        scene::scene_lengths(config).contains_key(id) ==> scene::scene_lengths(config)[id] > 0
    &&& period::period(scene::base_ticks(config), scene::scene_lengths(config).values()) + ppqn
        < usize::MAX
}

/// A positive divisor of a positive number is at most that number.
proof fn lemma_divisor_is_small(m: nat, d: nat)
    requires
        m > 0,
        d > 0,
        m % d == 0,
    ensures
        d <= m,
{
    if m < d {
        vstd::arithmetic::div_mod::lemma_small_mod(m, d);
    }
}

/// A sound scene that is switched to leaves the engine sound.
pub proof fn law_a_switch_keeps_the_engine_sound(
    e: Engine,
    name: Seq<char>,
    config: SceneConfig,
    idx: usize,
)
    requires
        e.ppqn >= 4,
        has_margin(e, 384),
        scene_sound(config, e.ppqn),
    ensures
        sound(scene::switched(e, name, config, idx)),
{
    let s = scene::switched(e, name, config, idx);
    let lengths = scene::scene_lengths(config);
    assert(s.track_lengths =~= lengths);
    period::lemma_period_exists(scene::base_ticks(config), lengths.values());
    assert(scene::melodic(config, 1));
    assert forall|id: usize| #[trigger] s.track_lengths.contains_key(id) implies s.track_lengths[id]
        > 0 && has_margin(s, s.track_lengths[id] as int) by {
        assert(lengths.contains_key(id));
        assert(lengths.values().contains(lengths[id]));
        lemma_divisor_is_small(s.max_tick as nat, lengths[id] as nat);
    }
}

/// Soundness of an engine that differs in what it holds.
proof fn lemma_carry(e: Engine, f: Engine)
    requires
        sound(e),
        f.ppqn == e.ppqn,
        f.ticks_per_measure == e.ticks_per_measure,
        f.max_tick == e.max_tick,
        f.current_tick == e.current_tick,
        f.track_channels == e.track_channels,
        f.track_channels.contains_key(f.active_track),
        f.track_lengths == e.track_lengths,
        f.tracks.dom() == e.tracks.dom(),
        forall|id: usize| #[trigger] f.tracks.contains_key(id) ==> events_fit(e, f.tracks[id]),
        forall|id: usize| #[trigger]
            f.track_history.contains_key(id) ==> takes_fit(e, f.track_history[id]),
    ensures
        sound(f),
{
    assert forall|id: usize| #[trigger] f.tracks.contains_key(id) implies events_fit(
        f,
        f.tracks[id],
    ) by {
        assert(events_fit(e, f.tracks[id]));
    }
    assert forall|id: usize| #[trigger] f.track_history.contains_key(id) implies takes_fit(
        f,
        f.track_history[id],
    ) by {
        lemma_takes_fit_alike(e, f, f.track_history[id]);
    }
    assert forall|id: usize| #[trigger] f.track_channels.contains_key(id) implies f.tracks.contains_key(
        id,
    ) && f.track_lengths.contains_key(id) by {
        assert(e.tracks.dom().contains(id));
    }
}

/// An event within its loop can be added to a track.
proof fn lemma_event_keeps_sound(e: Engine, id: usize, event: TrackEvent)
    requires
        sound(e),
        has_margin(e, event.tick as int),
    ensures
        sound(recording::with_event(e, id, event)),
{
    let f = recording::with_event(e, id, event);
    assert(f.tracks.dom() =~= e.tracks.dom());
    assert forall|k: usize| #[trigger] f.tracks.contains_key(k) implies events_fit(
        e,
        f.tracks[k],
    ) by {
        assert(events_fit(e, e.tracks[k]));
    }
    lemma_carry(e, f);
}

/// A note can be recorded on a track.
proof fn lemma_note_keeps_sound(e: Engine, id: usize, event: TrackEvent)
    requires
        sound(e),
        has_margin(e, event.tick as int),
    ensures
        sound(recording::with_note_recorded(e, id, event)),
{
    let note = (event.data1, event.channel);
    if recording::held_on(e, id).contains(note) {
        let f = recording::without_held(e, id, note);
        lemma_carry(e, f);
        lemma_event_keeps_sound(f, id, event);
    }
    lemma_event_keeps_sound(e, id, event);
    let g = recording::with_event(e, id, event);
    lemma_carry(g, recording::with_held(g, id, note));
}

/// The notes of a pad can be recorded.
proof fn lemma_pad_keeps_sound(e: Engine, notes: Seq<u8>, value: u8, channel: u8)
    requires
        sound(e),
    ensures
        sound(midi::pad_recorded(e, notes, value, channel)),
    decreases notes.len(),
{
    if notes.len() > 0 {
        lemma_pad_keeps_sound(e, notes.drop_last(), value, channel);
        lemma_loops(e, 0);
        playing::lemma_pad_keeps(e, notes.drop_last(), value, channel);
        lemma_note_keeps_sound(
            midi::pad_recorded(e, notes.drop_last(), value, channel),
            0,
            midi::pad_event(e, notes.last(), value, channel),
        );
    }
}

/// A note message leaves a sound engine sound.
proof fn lemma_notes_keep_sound(e: Engine, keys: KeyMappings, bytes: Seq<u8>)
    requires
        sound(e),
    ensures
        sound(midi::note_reaction(e, keys, bytes).engine),
{
    let channel = bytes[0] & 0x0F;
    let id = e.active_track;
    lemma_loops(e, id);
    if midi::swallows(e, keys, channel) {
        if midi::chosen_length(keys, bytes[1], channel) is Some && midi::starts_note(bytes) {
            let length = midi::chosen_length(keys, bytes[1], channel)->0;
            let f = midi::resized(e, length);
            let events = e.tracks[id];
            let early = |event: TrackEvent| event.tick < length;
            assert(events_fit(e, events));
            assert forall|i: int| 0 <= i < events.filter(early).len() implies has_margin(
                f,
                (#[trigger] events.filter(early)[i]).tick as int,
            ) by {
                events.lemma_filter_contains_rev(early, events.filter(early)[i]);
                let j = choose|j: int|
                    0 <= j < events.len() && events[j] == events.filter(early)[i];
                assert(has_margin(e, events[j].tick as int));
            }
            assert forall|k: usize| #[trigger] f.tracks.contains_key(k) implies events_fit(
                f,
                f.tracks[k],
            ) by {
                assert(events_fit(e, e.tracks[k]));
            }
            assert forall|k: usize| #[trigger] f.track_history.contains_key(k) implies takes_fit(
                f,
                f.track_history[k],
            ) by {
                lemma_takes_fit_alike(e, f, e.track_history[k]);
            }
        }
    } else if channel != 9 {
        let moved = midi::key_moved(
            e,
            midi::starts_note(bytes),
            (bytes[1], midi::active_channel(e)),
        );
        lemma_carry(e, moved);
        if e.is_recording {
            lemma_note_keeps_sound(moved, id, midi::note_event(e, bytes));
        }
    }
}

/// A press leaves a sound engine sound.
proof fn lemma_presses_keep_sound(
    e: Engine,
    keys: KeyMappings,
    cc_num: u8,
    channel: u8,
    now: u128,
)
    requires
        sound(e),
    ensures
        sound(midi::press_reaction(e, keys, cc_num, channel, now).engine),
{
    let f = midi::press_reaction(e, keys, cc_num, channel, now).engine;
    assert(f.tracks.dom() =~= e.tracks.dom());
    assert forall|id: usize| #[trigger] f.tracks.contains_key(id) implies events_fit(
        e,
        f.tracks[id],
    ) by {
        assert(events_fit(e, e.tracks[id]));
        lemma_loops(e, id);
        if clock::history_of(e, id).len() > 0 {
            let takes = e.track_history[id];
            assert(takes_fit(e, takes));
            assert(events_fit(e, takes[takes.len() - 1]));
        }
    }
    assert forall|id: usize| #[trigger] f.track_history.contains_key(id) implies takes_fit(
        e,
        f.track_history[id],
    ) by {
        let takes = e.track_history[id];
        assert(takes_fit(e, takes));
        assert forall|k: int| 0 <= k < f.track_history[id].len() implies events_fit(
            e,
            #[trigger] f.track_history[id][k],
        ) by {
            assert(f.track_history[id][k] == takes[k]);
        }
    }
    lemma_carry(e, f);
}

/// Every message leaves a sound engine sound, where the scenes are.
pub proof fn law_every_message_keeps_the_engine_sound(
    e: Engine,
    keys: KeyMappings,
    scenes: Seq<(String, SceneConfig)>,
    bytes: Seq<u8>,
    now: u128,
)
    requires
        sound(e),
        forall|i: int| 0 <= i < scenes.len() ==> scene_sound((#[trigger] scenes[i]).1, e.ppqn),
    ensures
        sound(midi::reaction(e, keys, scenes, bytes, now).engine),
{
    let channel = bytes[0] & 0x0F;
    if midi::is_note_message(bytes) {
        lemma_notes_keep_sound(e, keys, bytes);
    } else if midi::is_control_change(bytes) {
        let f = midi::reaction(e, keys, scenes, bytes, now).engine;
        let pad = midi::first_bound(keys.drum_keys@, bytes[1], channel);
        if keys.shift.is_cc(bytes[1], channel) && bytes[2] == 0 {
            lemma_carry(e, f);
        } else if pad is Some {
            if e.is_recording && pad->0 < keys.drum_notes@.len() {
                lemma_pad_keeps_sound(e, keys.drum_notes@[pad->0]@, bytes[2], keys.drum_channel);
            }
        } else if midi::is_bound(keys.instrument_select, bytes[1], channel) || midi::is_bound(
            keys.volume_knob,
            bytes[1],
            channel,
        ) || midi::is_bound(keys.bpm_knob, bytes[1], channel) {
            lemma_carry(e, f);
        } else if bytes[2] > 0 {
            let down = midi::is_bound(keys.scene_down, bytes[1], channel);
            let up = midi::is_bound(keys.scene_up, bytes[1], channel);
            if down || up {
                if scenes.len() > 0 {
                    let idx = midi::neighbour(e.current_scene_idx, scenes.len(), down);
                    assert(0 <= idx < scenes.len());
                    assert(scene_sound(scenes[idx].1, e.ppqn));
                    law_a_switch_keeps_the_engine_sound(
                        e,
                        scenes[idx].0@,
                        scenes[idx].1,
                        idx as usize,
                    );
                }
            } else {
                lemma_presses_keep_sound(e, keys, bytes[1], channel, now);
            }
        }
    } else if midi::is_pitch_bend(bytes) && e.is_recording {
        lemma_loops(e, e.active_track);
        let length = e.track_lengths[e.active_track] as int;
        let tick = (e.current_tick as int % length) as usize;
        assert(tick < length);
        lemma_event_keeps_sound(
            e,
            e.active_track,
            TrackEvent {
                tick,
                message_type: domain::MessageType::PitchBend,
                data1: bytes[1],
                data2: bytes[2],
                channel: midi::active_channel(e),
            },
        );
    }
}

/// The engine that starts with a sound scene is sound.
pub proof fn law_the_engine_starts_sound(name: Seq<char>, config: SceneConfig, arm_time: u128)
    requires
        config.ppqn >= 4,
        config.ppqn + 384 < usize::MAX,
        scene_sound(config, config.ppqn),
    ensures
        sound(scene::started(name, config, arm_time)),
{
    let e = Engine { ppqn: config.ppqn, ..scene::blank(arm_time) };
    law_a_switch_keeps_the_engine_sound(e, name, config, 0);
    assert(scene::started(name, config, arm_time) =~= scene::switched(e, name, config, 0));
}

/// What a reload of a scene calls for: the numbers of the engine after it are sound.
pub open spec fn reload_sound(e: Engine, config: SceneConfig) -> bool {
    let r = scene::reloaded(e, config);
    &&& scene::reload_ready(e, config)
    &&& scene::track_count(config) >= 1
    &&& config.ppqn >= 4
    &&& config.ppqn + 384 < usize::MAX
    &&& 0 < scene::measure_ticks(config)
    &&& scene::measure_ticks(config) + config.ppqn < usize::MAX
    &&& r.max_tick + config.ppqn < usize::MAX
    &&& forall|id: usize| #[trigger] r.track_lengths.contains_key(id) ==> r.track_lengths[id] > 0
}

/// A sound reload leaves a sound engine sound. Where the timing changes, this holds for an active
/// track that the scene has: the others are gone, and the active track stays what it was.
pub proof fn law_a_reload_keeps_the_engine_sound(e: Engine, config: SceneConfig)
    requires
        sound(e),
        e.active_track > 0,
        reload_sound(e, config),
        scene::timing_changed(e, config) ==> scene::melodic(config, e.active_track),
    ensures
        sound(scene::reloaded(e, config)),
{
    let r = scene::reloaded(e, config);
    let n = scene::track_count(config);
    scene_laws::lemma_track_count_fits(config);
    playing::lemma_update_keeps(
        scene_laws::swapped(e, config),
        config,
        n,
    );
    assert(r.ppqn == config.ppqn);
    period::lemma_period_exists(scene::base_ticks(config), r.track_lengths.values());
    assert forall|id: usize| #[trigger] r.track_lengths.contains_key(id) implies r.track_lengths[id]
        > 0 && has_margin(r, r.track_lengths[id] as int) by {
        assert(r.track_lengths.values().contains(r.track_lengths[id]));
        lemma_divisor_is_small(r.max_tick as nat, r.track_lengths[id] as nat);
    }
    if !scene::timing_changed(e, config) {
        let s = scene_laws::swapped(e, config);
        scene::lemma_updated_lengths(s, config, n);
        scene_laws::law_a_reload_keeps_an_active_track(e, config);
        assert forall|id: usize| #[trigger] r.track_channels.contains_key(id) implies r.tracks.contains_key(
            id,
        ) && r.track_lengths.contains_key(id) by {
            scene_laws::lemma_updated_track(s, config, n, id);
            assert(e.track_channels.contains_key(id) ==> e.tracks.contains_key(id));
        }
        assert forall|id: usize| #[trigger] r.tracks.contains_key(id) implies events_fit(
            r,
            r.tracks[id],
        ) by {
            scene_laws::lemma_updated_track(s, config, n, id);
            assert(e.tracks.contains_key(id) ==> events_fit(e, e.tracks[id]));
        }
        assert forall|id: usize| #[trigger] r.track_history.contains_key(id) implies takes_fit(
            r,
            r.track_history[id],
        ) by {
            scene_laws::lemma_updated_track(s, config, n, id);
            lemma_takes_fit_alike(e, r, e.track_history[id]);
        }
    }
}

} // verus!
