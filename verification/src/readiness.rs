//! Telling beforehand whether the engine can take a scene, a message or a tick.
use crate::clock;
use crate::config;
use crate::config::{KeyMappings, SceneConfig};
use crate::display;
use crate::domain::{Engine, EngineState, TrackEvent};
use crate::midi;
use crate::period;
use crate::recording;
use crate::scene;
use crate::tables;
use crate::text;
use vstd::prelude::*;

verus! {

fn length_of_track(scene: &SceneConfig, id: usize) -> (r: Option<usize>)
    ensures
        match r {
            Some(length) => scene::lane_countable(*scene, id) && length == scene::lane(
                *scene,
                id,
            ).length,
            None => !scene::lane_countable(*scene, id),
        },
{
    match config::find_named(&scene.tracks, &text::to_decimal(id as u64)) {
        Some(i) => {
            if scene.tracks[i].1.length.is_countable(scene.ppqn) {
                Some(scene.tracks[i].1.length.to_ticks_or(scene.ppqn, 96))
            } else {
                None
            }
        },
        None => Some(96),
    }
}

/// The lengths of the tracks 1 to `n` of a scene.
spec fn lane_lengths(scene: SceneConfig, n: nat) -> Seq<usize> {
    Seq::new(n, |i: int| scene::lane(scene, (i + 1) as usize).length)
}

fn lengths_of_tracks(scene: &SceneConfig, count: usize) -> (r: Option<Vec<usize>>)
    ensures
        match r {
            Some(v) => {
                &&& v@ == lane_lengths(*scene, count as nat)
                &&& forall|id: usize| 1 <= id <= count ==> scene::lane_countable(*scene, id)
            },
            None => exists|id: usize|
                1 <= id <= count && !(#[trigger] scene::lane_countable(*scene, id)),
        },
{
    let mut lengths: Vec<usize> = Vec::new();
    let mut done: usize = 0;
    while done < count
        invariant
            done <= count,
            lengths@ == lane_lengths(*scene, done as nat),
            forall|id: usize| 1 <= id <= done ==> scene::lane_countable(*scene, id),
        decreases count - done,
    {
        match length_of_track(scene, done + 1) {
            Some(length) => {
                lengths.push(length);
            },
            None => {
                return None;
            },
        }
        done = done + 1;
    }
    Some(lengths)
}

fn length_of_drums(scene: &SceneConfig) -> (r: Option<usize>)
    requires
        scene::measure_ticks(*scene) <= usize::MAX,
    ensures
        match r {
            Some(length) => length == scene::drum_ticks(*scene) && (config::drum_length(
                *scene,
            ) matches Some(l) ==> l.countable(scene.ppqn as nat)),
            None => config::drum_length(*scene) matches Some(l) && !l.countable(scene.ppqn as nat),
        },
{
    let measure: usize = scene.ppqn * scene.time_signature_numerator as usize;
    match &scene.drums {
        Some(d) => match &d.length {
            Some(l) => {
                if l.is_countable(scene.ppqn) {
                    Some(l.to_ticks_or(scene.ppqn, measure))
                } else {
                    None
                }
            },
            None => Some(measure),
        },
        None => Some(measure),
    }
}

/// What laying out a scene takes: its lane lengths, the length of its drums and the base period.
struct Layout {
    lengths: Vec<usize>,
    drums: usize,
    base: usize,
    count: usize,
}

fn layout_of(scene: &SceneConfig) -> (r: Option<Layout>)
    ensures
        match r {
            Some(l) => {
                &&& scene::layout_counts(*scene)
                &&& l.count == scene::track_count(*scene)
                &&& l.lengths@ == lane_lengths(*scene, l.count as nat)
                &&& l.drums == scene::drum_ticks(*scene)
                &&& l.base == scene::base_ticks(*scene)
            },
            None => !scene::layout_counts(*scene),
        },
{
    if scene.ppqn.checked_mul(scene.time_signature_numerator as usize).is_none() {
        return None;
    }
    let base: usize = match scene.max_tracking_beats.checked_mul(scene.ppqn) {
        Some(base) => base,
        None => {
            return None;
        },
    };
    let count: usize = scene::count_tracks(scene);
    let lengths: Vec<usize> = match lengths_of_tracks(scene, count) {
        Some(lengths) => lengths,
        None => {
            proof {
                let id = choose|id: usize|
                    1 <= id <= count && !(#[trigger] scene::lane_countable(*scene, id));
                assert(scene::melodic(*scene, id));
            }
            return None;
        },
    };
    match length_of_drums(scene) {
        Some(drums) => Some(Layout { lengths, drums, base, count }),
        None => None,
    }
}

fn period_is_counted(base: usize, lengths: &Vec<usize>) -> (r: bool)
    ensures
        r == period::period_fits(base as nat, lengths@.to_set()),
{
    match period::try_max_tick(base, lengths.as_slice()) {
        Some(p) => {
            assert(period::common_multiple(p as nat, base as nat, lengths@.to_set()));
            true
        },
        None => false,
    }
}

/// Whether a scene can be loaded.
pub fn scene_is_ready(scene: &SceneConfig) -> (r: bool)
    ensures
        r == scene::scene_ready(*scene),
{
    match layout_of(scene) {
        Some(layout) => {
            let mut lengths: Vec<usize> = layout.lengths;
            let ghost lanes = lengths@;
            if scene.drums.is_some() {
                lengths.push(layout.drums);
            }
            proof {
                let all = scene::scene_lengths(*scene);
                assert forall|l: usize| lengths@.to_set().contains(l) <==> all.values().contains(
                    l,
                ) by {
                    if lengths@.contains(l) {
                        let i = choose|i: int| 0 <= i < lengths@.len() && lengths@[i] == l;
                        if i < lanes.len() {
                            assert(all.contains_key((i + 1) as usize) && all[(i + 1) as usize] == l);
                        } else {
                            assert(all.contains_key(0) && all[0] == l);
                        }
                    }
                    if all.values().contains(l) {
                        let id = choose|id: usize| all.contains_key(id) && all[id] == l;
                        if id == 0 {
                            assert(lengths@[lanes.len() as int] == l);
                        } else {
                            assert(lengths@[id - 1] == l);
                        }
                    }
                }
                assert(lengths@.to_set() =~= all.values());
            }
            period_is_counted(layout.base, &lengths)
        },
        None => false,
    }
}

fn is_listed(ids: &Vec<usize>, id: usize) -> (r: bool)
    ensures
        r == ids@.contains(id),
{
    let mut i: usize = 0;
    while i < ids.len()
        invariant
            i <= ids@.len(),
            forall|j: int| 0 <= j < i ==> ids@[j] != id,
        decreases ids@.len() - i,
    {
        if ids[i] == id {
            return true;
        }
        i = i + 1;
    }
    false
}

/// Whether a track of the engine that the scene does not lay out stays on a reload.
spec fn stays(e: Engine, scene: SceneConfig, id: usize) -> bool {
    id > scene::track_count(scene) && e.track_lengths.contains_key(id) && !e.track_ids.contains(id)
}

fn lengths_that_stay(state: &EngineState, count: usize, lengths: &mut Vec<usize>)
    ensures
        forall|l: usize| #[trigger]
            final(lengths)@.contains(l) <==> old(lengths)@.contains(l) || exists|id: usize|
                id > count && #[trigger] state@.track_lengths.contains_key(id)
                    && !state@.track_ids.contains(id) && state@.track_lengths[id] == l,
{
    let ghost before = lengths@;
    let ids: Vec<usize> = tables::keys_of(&state.track_lengths);
    let mut i: usize = 0;
    while i < ids.len()
        invariant
            i <= ids@.len(),
            ids@.to_set() == state@.track_lengths.dom(),
            forall|l: usize| #[trigger]
                lengths@.contains(l) <==> before.contains(l) || exists|j: int|
                    0 <= j < i && (#[trigger] ids@[j]) > count && !state@.track_ids.contains(
                        ids@[j],
                    ) && state@.track_lengths[ids@[j]] == l,
        decreases ids@.len() - i,
    {
        let id: usize = ids[i];
        assert(ids@.to_set().contains(id));
        let ghost so_far = lengths@;
        if id > count && !is_listed(&state.track_ids, id) {
            let length: usize = *state.track_lengths.get(&id).unwrap();
            lengths.push(length);
            assert forall|l: usize| #[trigger] lengths@.contains(l) <==> so_far.contains(l) || l
                == length by {
                if so_far.contains(l) {
                    let j = choose|j: int| 0 <= j < so_far.len() && so_far[j] == l;
                    assert(lengths@[j] == l);
                }
                assert(lengths@[so_far.len() as int] == length);
            }
            assert(ids@[i as int] == id);
        }
        i = i + 1;
    }
    proof {
        assert forall|l: usize| #[trigger] lengths@.contains(l) implies before.contains(l) || exists|
            id: usize,
        |
            id > count && #[trigger] state@.track_lengths.contains_key(id)
                && !state@.track_ids.contains(id) && state@.track_lengths[id] == l by {
            if !before.contains(l) {
                let j = choose|j: int|
                    0 <= j < ids@.len() && (#[trigger] ids@[j]) > count
                        && !state@.track_ids.contains(ids@[j]) && state@.track_lengths[ids@[j]]
                        == l;
                assert(ids@.to_set().contains(ids@[j]));
                assert(state@.track_lengths.contains_key(ids@[j]));
            }
        }
        assert forall|id: usize|
            id > count && #[trigger] state@.track_lengths.contains_key(id)
                && !state@.track_ids.contains(id) implies lengths@.contains(
            state@.track_lengths[id],
        ) by {
            assert(ids@.to_set().contains(id));
            let j = choose|j: int| 0 <= j < ids@.len() && ids@[j] == id;
            assert(ids@[j] > count);
        }
    }
}

/// The lengths after a reload that keeps the timing.
proof fn lemma_reloaded_lengths(e: Engine, scene: SceneConfig)
    requires
        !scene::timing_changed(e, scene),
        scene::track_count(scene) <= usize::MAX,
    ensures
        scene::with_drums(scene::reloaded_lanes(e, scene), scene).track_lengths == Map::new(
            |id: usize|
                scene::melodic(scene, id) || (id == 0 && scene.drums is Some) || stays(e, scene, id),
            |id: usize|
                if id == 0 {
                    scene::drum_ticks(scene)
                } else if scene::melodic(scene, id) {
                    scene::lane(scene, id).length
                } else {
                    e.track_lengths[id]
                },
        ),
{
    let n = scene::track_count(scene);
    let swapped = Engine {
        bpm: scene.bpm,
        metronome_on: scene.metronome_on,
        ppqn: scene.ppqn,
        time_signature_numerator: scene.time_signature_numerator,
        time_signature_denominator: scene.time_signature_denominator,
        ticks_per_measure: scene::measure_ticks(scene) as usize,
        scene_display_name: crate::domain::name_text(scene.name),
        ..e
    };
    scene::lemma_updated_lengths(swapped, scene, n);
    let diffed = scene::lanes_diffed(swapped, scene);
    assert forall|id: usize| #[trigger] diffed.track_lengths.contains_key(id) <==> ((1 <= id <= n
        || e.track_lengths.contains_key(id)) && !(e.track_ids.contains(id) && id > n)) by {
        assert(scene::above(e.track_ids, n).contains(id) <==> e.track_ids.contains(id) && id > n);
    }
    assert(scene::with_drums(diffed, scene).track_lengths =~= Map::new(
        |id: usize|
            scene::melodic(scene, id) || (id == 0 && scene.drums is Some) || stays(e, scene, id),
        |id: usize|
            if id == 0 {
                scene::drum_ticks(scene)
            } else if scene::melodic(scene, id) {
                scene::lane(scene, id).length
            } else {
                e.track_lengths[id]
            },
    ));
}

/// Whether the engine can take a reload of its scene.
pub fn reload_is_ready(state: &EngineState, scene: &SceneConfig) -> (r: bool)
    ensures
        r == scene::reload_ready(state@, *scene),
{
    let layout: Layout = match layout_of(scene) {
        Some(layout) => layout,
        None => {
            return false;
        },
    };
    let measure: usize = scene.ppqn * scene.time_signature_numerator as usize;
    if state.ppqn != scene.ppqn || state.ticks_per_measure != measure {
        proof {
            let swapped = scene::reloaded_lanes(state@, *scene);
            assert(scene::with_drums(swapped, *scene).track_lengths =~= scene::scene_lengths(
                *scene,
            ));
        }
        return scene_is_ready(scene);
    }
    let mut lengths: Vec<usize> = layout.lengths;
    let ghost lanes = lengths@;
    if scene.drums.is_some() {
        lengths.push(layout.drums);
    }
    let ghost laid = lengths@;
    lengths_that_stay(state, layout.count, &mut lengths);
    proof {
        lemma_reloaded_lengths(state@, *scene);
        let all = scene::with_drums(scene::reloaded_lanes(state@, *scene), *scene).track_lengths;
        assert forall|l: usize| lengths@.to_set().contains(l) <==> all.values().contains(l) by {
            if lengths@.contains(l) {
                if laid.contains(l) {
                    let i = choose|i: int| 0 <= i < laid.len() && laid[i] == l;
                    if i < lanes.len() {
                        assert(all.contains_key((i + 1) as usize) && all[(i + 1) as usize] == l);
                    } else {
                        assert(all.contains_key(0) && all[0] == l);
                    }
                } else {
                    let id = choose|id: usize|
                        id > layout.count && #[trigger] state@.track_lengths.contains_key(id)
                            && !state@.track_ids.contains(id) && state@.track_lengths[id] == l;
                    assert(all.contains_key(id) && all[id] == l);
                }
            }
            if all.values().contains(l) {
                let id = choose|id: usize| all.contains_key(id) && all[id] == l;
                if id == 0 {
                    assert(laid[lanes.len() as int] == l);
                    assert(laid.contains(l));
                } else if scene::melodic(*scene, id) {
                    assert(laid[id - 1] == l);
                    assert(laid.contains(l));
                } else {
                    assert(state@.track_lengths.contains_key(id));
                }
                assert(lengths@.contains(l));
            }
        }
        assert(lengths@.to_set() =~= all.values());
    }
    period_is_counted(layout.base, &lengths)
}

fn snaps_now(state: &EngineState, tick: usize, length: usize) -> (r: bool)
    ensures
        r == recording::snaps(state@, tick, length),
{
    length > 0 && (!state.quantize_on || (state.ppqn >= 4 && tick <= usize::MAX - state.ppqn / 4
        / 2))
}

fn has_channel(state: &EngineState) -> (r: bool)
    ensures
        r == midi::has_channel(state@),
{
    state.track_channels.contains_key(&state.active_track)
}

fn is_held(state: &EngineState, id: usize, note: (u8, u8)) -> (r: bool)
    ensures
        r == recording::held_on(state@, id).contains(note),
{
    match state.held_notes.get(&id) {
        Some(notes) => notes.contains(note),
        None => false,
    }
}

fn note_is_ready(bytes: &[u8], state: &EngineState, keys: &KeyMappings) -> (r: bool)
    requires
        bytes@.len() >= 3,
    ensures
        r == midi::note_ready(state@, *keys, bytes@),
{
    let channel: u8 = bytes[0] & 0x0F;
    if (state.shift_held && keys.shift.on_channel(channel)) || channel == 9 {
        return true;
    }
    let active: usize = state.active_track;
    match state.track_channels.get(&active) {
        None => false,
        Some(target) => {
            if !state.is_recording {
                return true;
            }
            let looped: bool = match state.track_lengths.get(&active) {
                Some(length) => snaps_now(state, state.current_tick, *length),
                None => false,
            };
            let starts: bool = bytes[0] & 0xF0 == 0x90 && bytes[2] > 0;
            looped && (state.tracks.contains_key(&active) || !(starts || is_held(
                state,
                active,
                (bytes[1], *target),
            )))
        },
    }
}

fn bend_is_ready(state: &EngineState) -> (r: bool)
    ensures
        r == midi::bend_ready(state@),
{
    let active: usize = state.active_track;
    let looped: bool = match state.track_lengths.get(&active) {
        Some(length) => *length > 0,
        None => false,
    };
    has_channel(state) && (!state.is_recording || (looped && state.tracks.contains_key(&active)))
}

fn stop_is_ready(state: &EngineState) -> (r: bool)
    ensures
        r == midi::stop_ready(state@),
{
    let ids: Vec<usize> = tables::keys_of(&state.held_notes);
    assert(ids@.to_set() =~= state@.held_notes.dom());
    let mut i: usize = 0;
    while i < ids.len()
        invariant
            i <= ids@.len(),
            ids@.to_set() == state@.held_notes.dom(),
            forall|j: int|
                0 <= j < i ==> recording::snaps(
                    state@,
                    state@.current_tick,
                    recording::loop_length(state@, #[trigger] ids@[j]),
                ),
        decreases ids@.len() - i,
    {
        let id: usize = ids[i];
        assert(ids@.to_set().contains(id));
        assert(state@.held_notes.contains_key(id));
        if !snaps_now(state, state.current_tick, state.loop_length(id)) {
            return false;
        }
        i = i + 1;
    }
    assert forall|id: usize| #[trigger] state@.held_notes.contains_key(id) implies recording::snaps(
        state@,
        state@.current_tick,
        recording::loop_length(state@, id),
    ) by {
        assert(ids@.to_set().contains(id));
        let j = choose|j: int| 0 <= j < ids@.len() && ids@[j] == id;
        assert(recording::loop_length(state@, ids@[j]) == recording::loop_length(state@, id));
    }
    true
}

fn scene_key_is_ready(state: &EngineState, scenes: &[(String, SceneConfig)], down: bool) -> (r:
    bool)
    ensures
        r == midi::scene_key_ready(state@, scenes@, down),
{
    let count: usize = scenes.len();
    if count == 0 {
        return true;
    }
    let current: usize = state.current_scene_idx;
    if down {
        current < usize::MAX && scene_is_ready(&scenes[(current + 1) % count].1)
    } else {
        current <= usize::MAX - count && scene_is_ready(&scenes[(current + count - 1) % count].1)
    }
}

fn press_is_ready(cc_num: u8, channel: u8, state: &EngineState, keys: &KeyMappings) -> (r: bool)
    ensures
        r == midi::press_ready(state@, *keys, cc_num, channel),
{
    if keys.shift.matches_cc(cc_num, channel) || keys.metronome.matches_cc(cc_num, channel) {
        true
    } else if keys.clear_track.matches_cc(cc_num, channel) {
        has_channel(state)
    } else if keys.clear_all.matches_cc(cc_num, channel) {
        true
    } else if keys.record_track.matches_cc(cc_num, channel) {
        !state.is_recording || stop_is_ready(state)
    } else if midi::bound(&keys.undo_track, cc_num, channel) || midi::bound(
        &keys.quantize,
        cc_num,
        channel,
    ) {
        true
    } else if midi::bound(&keys.mute_track, cc_num, channel) {
        has_channel(state)
    } else {
        true
    }
}

fn control_is_ready(
    bytes: &[u8],
    state: &EngineState,
    keys: &KeyMappings,
    scenes: &[(String, SceneConfig)],
) -> (r: bool)
    requires
        bytes@.len() >= 3,
    ensures
        r == midi::control_ready(state@, *keys, scenes@, bytes@),
{
    let channel: u8 = bytes[0] & 0x0F;
    let cc_num: u8 = bytes[1];
    let value: u8 = bytes[2];
    if keys.shift.matches_cc(cc_num, channel) && value == 0 {
        return has_channel(state);
    }
    match midi::find_bound(&keys.drum_keys, cc_num, channel) {
        Some(pad) => {
            return !state.is_recording || pad >= keys.drum_notes.len() || snaps_now(
                state,
                state.current_tick,
                state.loop_length(0),
            );
        },
        None => {},
    }
    if midi::bound(&keys.instrument_select, cc_num, channel) || midi::bound(
        &keys.volume_knob,
        cc_num,
        channel,
    ) {
        has_channel(state)
    } else if midi::bound(&keys.bpm_knob, cc_num, channel) || value == 0 {
        true
    } else if midi::bound(&keys.scene_down, cc_num, channel) {
        scene_key_is_ready(state, scenes, true)
    } else if midi::bound(&keys.scene_up, cc_num, channel) {
        scene_key_is_ready(state, scenes, false)
    } else {
        press_is_ready(cc_num, channel, state, keys)
    }
}

/// Whether the engine can take a message from the controller.
pub fn message_is_ready(
    bytes: &[u8],
    state: &EngineState,
    keys: &KeyMappings,
    scenes: &[(String, SceneConfig)],
) -> (r: bool)
    ensures
        r == midi::message_ready(state@, *keys, scenes@, bytes@),
{
    if bytes.len() < 3 {
        return true;
    }
    let kind: u8 = bytes[0] & 0xF0;
    if kind == 0x90 || kind == 0x80 {
        note_is_ready(bytes, state, keys)
    } else if kind == 0xB0 {
        control_is_ready(bytes, state, keys, scenes)
    } else if kind == 0xE0 {
        bend_is_ready(state)
    } else {
        true
    }
}

/// How many of the events that a track has before a tick may sound on it.
spec fn heard(e: Engine, punched: bool, id: usize) -> int {
    let all = e.tracks[id].len() as int;
    if punched || !e.is_recording || clock::at_boundary(e, id) || !e.loop_start_lens.contains_key(
        id,
    ) || e.loop_start_lens[id] >= all {
        all
    } else {
        e.loop_start_lens[id] as int
    }
}

/// What may sound of a track on a tick, told before the tick.
proof fn lemma_audible_after(e: Engine, now: u128, id: usize)
    requires
        e.tracks.contains_key(id),
        e.tracks[id].len() <= usize::MAX,
    ensures
        clock::audible(clock::prepared(e, now), id) == e.tracks[id].take(
            heard(e, clock::punches_in(e, now), id),
        ),
{
    let punched = clock::punches_in(e, now);
    let e1 = if punched {
        clock::punched_in(e)
    } else if e.is_recording {
        clock::passes_counted(e)
    } else {
        e
    };
    let after = clock::prepared(e, now);
    assert(e.tracks[id].is_prefix_of(e1.tracks[id]));
    if e1.is_recording {
        assert(after.loop_start_lens == e1.loop_start_lens);
        assert(e1.tracks[id].is_prefix_of(after.tracks[id]));
        if punched || clock::at_boundary(e, id) {
            assert(e1.loop_start_lens.contains_key(id));
            assert(e1.loop_start_lens[id] == e.tracks[id].len());
        } else {
            assert(after.tracks[id] == e.tracks[id]);
        }
    }
    assert(clock::audible(after, id) =~= e.tracks[id].take(heard(e, punched, id)));
}

fn track_is_ready(state: &EngineState, id: usize, punched: bool, now: u128) -> (r: bool)
    requires
        state@.tracks.contains_key(id),
        punched == clock::punches_in(state@, now),
        punched || state@.is_recording ==> recording::loop_length(state@, id) > 0,
    ensures
        r == clock::playable(clock::prepared(state@, now), id),
{
    let ghost after = clock::prepared(state@, now);
    let events: &Vec<TrackEvent> = state.tracks.get(&id).unwrap();
    assert(events@ == state@.tracks[id]);
    let length: usize = state.loop_length(id);
    let mut count: usize = events.len();
    if !punched && state.is_recording && state.current_tick % length != 0 {
        match state.loop_start_lens.get(&id) {
            Some(at_start) => {
                if *at_start < count {
                    count = *at_start;
                }
            },
            None => {},
        }
    }
    proof {
        lemma_audible_after(state@, now, id);
    }
    let ghost sounding = clock::audible(after, id);
    assert(sounding == events@.take(count as int));
    assert(forall|tick: usize|
        recording::snaps(after, tick, recording::loop_length(after, id)) == recording::snaps(
            state@,
            tick,
            length,
        ));
    let mut i: usize = 0;
    while i < count
        invariant
            i <= count <= events@.len(),
            after == clock::prepared(state@, now),
            sounding.len() == count,
            forall|j: int| 0 <= j < count ==> #[trigger] sounding[j] == events@[j],
            sounding == clock::audible(after, id),
            forall|tick: usize|
                recording::snaps(after, tick, recording::loop_length(after, id))
                    == recording::snaps(state@, tick, length),
            forall|j: int|
                0 <= j < i ==> recording::snaps(state@, (#[trigger] sounding[j]).tick, length),
        decreases count - i,
    {
        assert(sounding[i as int] == events@[i as int]);
        if !snaps_now(state, events[i].tick, length) {
            return false;
        }
        i = i + 1;
    }
    true
}

/// Whether the clock can tick.
pub fn tick_is_ready(state: &EngineState, ticks_per_beat: usize, now: u128) -> (r: bool)
    ensures
        r == clock::tick_ready(state@, ticks_per_beat, now),
{
    let over: bool = state.pending_record && state.is_arm_time_over(now);
    if over && state.ticks_per_measure == 0 {
        return false;
    }
    let punched: bool = over && state.current_tick % state.ticks_per_measure == 0;
    let recording: bool = punched || state.is_recording;
    let ghost after = clock::prepared(state@, now);
    assert(after.tracks.dom() =~= state@.tracks.dom());
    let ids: Vec<usize> = tables::keys_of(&state.tracks);
    assert(ids@.to_set() =~= state@.tracks.dom());
    let mut i: usize = 0;
    while i < ids.len()
        invariant
            i <= ids@.len(),
            ids@.to_set() == state@.tracks.dom(),
            after == clock::prepared(state@, now),
            after.tracks.dom() == state@.tracks.dom(),
            recording == after.is_recording,
            recording == (punched || state@.is_recording),
            punched == clock::punches_in(state@, now),
            forall|j: int|
                0 <= j < i ==> {
                    &&& recording ==> recording::loop_length(state@, #[trigger] ids@[j]) > 0
                    &&& !after.muted_tracks.contains(ids@[j]) ==> clock::playable(after, ids@[j])
                },
        decreases ids@.len() - i,
    {
        let id: usize = ids[i];
        assert(ids@.to_set().contains(id));
        assert(state@.tracks.contains_key(id));
        assert(after.tracks.contains_key(id));
        if recording && state.loop_length(id) == 0 {
            return false;
        }
        if !state.muted_tracks.contains(&id) && !track_is_ready(state, id, punched, now) {
            return false;
        }
        i = i + 1;
    }
    proof {
        assert forall|id: usize| #[trigger] state@.tracks.contains_key(id) implies {
            &&& recording ==> recording::loop_length(state@, id) > 0
            &&& !after.muted_tracks.contains(id) ==> clock::playable(after, id)
        } by {
            assert(ids@.to_set().contains(id));
            let j = choose|j: int| 0 <= j < ids@.len() && ids@[j] == id;
            assert(recording ==> recording::loop_length(state@, ids@[j]) > 0);
        }
    }
    let clicks: bool = !state.metronome_on || (ticks_per_beat > 0 && (state.current_tick
        % ticks_per_beat != 0 || state.loop_length(state.active_track) > 0));
    clicks && state.current_tick < usize::MAX
}

/// Whether the screen can be drawn.
pub fn screen_is_ready(state: &EngineState, timeline_width: usize) -> (r: bool)
    ensures
        r == display::screen_ready(state@, timeline_width),
{
    let length: usize = match state.track_lengths.get(&state.active_track) {
        Some(length) => *length,
        None => 96,
    };
    if state.ppqn == 0 || length == 0 || state.current_tick / state.ppqn == usize::MAX {
        return false;
    }
    let measures: usize = if state.ticks_per_measure > 0 && length >= state.ticks_per_measure {
        assert(length / state.ticks_per_measure >= 1) by (nonlinear_arith)
            requires
                length >= state.ticks_per_measure,
                state.ticks_per_measure > 0,
        ;
        length / state.ticks_per_measure
    } else {
        1
    };
    (measures - 1).checked_mul(display::bar_width(timeline_width)).is_some()
}

/// Whether every length that a check of the scene reads can be counted in ticks.
pub fn scene_is_countable(scene: &SceneConfig) -> (r: bool)
    ensures
        r == config::scene_countable(*scene),
{
    let mut sound: bool = true;
    let mut i: usize = 0;
    assert(scene.tracks@.take(0) =~= Seq::empty());
    while i < scene.tracks.len()
        invariant
            i <= scene.tracks@.len(),
            forall|j: int|
                0 <= j < i ==> (#[trigger] scene.tracks@[j]).1.length.countable(
                    scene.ppqn as nat,
                ),
            sound == config::first_bad_length(
                scene.tracks@.take(i as int),
                scene.ppqn as nat,
            ) is None,
        decreases scene.tracks@.len() - i,
    {
        assert(scene.tracks@.take(i as int + 1).drop_last() =~= scene.tracks@.take(i as int));
        if !scene.tracks[i].1.length.is_countable(scene.ppqn) {
            assert(!scene.tracks@[i as int].1.length.countable(scene.ppqn as nat));
            return false;
        }
        if scene.tracks[i].1.length.to_ticks(scene.ppqn).is_err() {
            sound = false;
        }
        i = i + 1;
    }
    assert(scene.tracks@.take(i as int) =~= scene.tracks@);
    if !sound {
        return true;
    }
    match &scene.drums {
        Some(d) => match &d.length {
            Some(l) => l.is_countable(scene.ppqn),
            None => true,
        },
        None => true,
    }
}

} // verus!
