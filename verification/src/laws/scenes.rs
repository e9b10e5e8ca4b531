//! Scenes, reloads and the period of the clock.
use crate::clock;
use crate::config;
use crate::config::SceneConfig;
use crate::domain;
use crate::domain::{Engine, TrackEvent};
use crate::laws::playing;
use crate::midi;
use crate::output::Sent;
use crate::period;
use crate::recording;
use crate::scene;
use crate::session;
use crate::sorting;
use crate::text;
use vstd::prelude::*;

verus! {

/// The scene keys go round the scenes: the neighbour is always one of them, and a step down and a
/// step up cancel each other.
pub proof fn law_scene_keys_go_round(current: usize, count: nat)
    requires
        current < count <= usize::MAX,
    ensures
        0 <= midi::neighbour(current, count, true) < count,
        0 <= midi::neighbour(current, count, false) < count,
        midi::neighbour(midi::neighbour(current, count, true) as usize, count, false) == current,
        midi::neighbour(midi::neighbour(current, count, false) as usize, count, true) == current,
        current + 1 < count ==> midi::neighbour(current, count, true) == current + 1,
        current + 1 == count ==> midi::neighbour(current, count, true) == 0,
{
    let n = count as int;
    let c = current as int;
    if c + 1 < n {
        vstd::arithmetic::div_mod::lemma_small_mod((c + 1) as nat, count);
        vstd::arithmetic::div_mod::lemma_mod_add_multiples_vanish(c, n);
        vstd::arithmetic::div_mod::lemma_small_mod(c as nat, count);
    } else {
        vstd::arithmetic::div_mod::lemma_mod_self_0(n);
        vstd::arithmetic::div_mod::lemma_small_mod((n - 1) as nat, count);
    }
    if c > 0 {
        vstd::arithmetic::div_mod::lemma_mod_add_multiples_vanish(c - 1, n);
        vstd::arithmetic::div_mod::lemma_small_mod((c - 1) as nat, count);
        vstd::arithmetic::div_mod::lemma_small_mod(c as nat, count);
    } else {
        vstd::arithmetic::div_mod::lemma_small_mod((n - 1) as nat, count);
        vstd::arithmetic::div_mod::lemma_mod_self_0(n);
    }
}

/// A scene that was switched to starts fresh: the tracks 1 to the number of the scene and the drum
/// lane, where the scene has drums, are there and empty; nothing is muted, held, armed, recorded
/// or undoable; the first track is active and the clock stands at zero.
pub proof fn law_a_loaded_scene_is_fresh(
    e: Engine,
    name: Seq<char>,
    config: SceneConfig,
    idx: usize,
    id: usize,
)
    ensures
        ({
            let s = scene::switched(e, name, config, idx);
            &&& s.tracks.contains_key(id) <==> scene::melodic(config, id) || (id == 0
                && config.drums is Some)
            &&& s.tracks.contains_key(id) ==> s.tracks[id].len() == 0
            &&& s.track_lengths.dom() == s.tracks.dom()
            &&& s.track_channels.dom() == s.tracks.dom()
            &&& scene::melodic(config, id) ==> {
                &&& s.track_channels[id] == scene::lane(config, id).channel
                &&& s.track_lengths[id] == scene::lane(config, id).length
                &&& s.track_programs[id] == scene::lane(config, id).program
                &&& s.track_volumes[id] == scene::lane(config, id).volume
            }
            &&& s.muted_tracks == Set::<usize>::empty()
            &&& s.held_notes == Map::<usize, Seq<(u8, u8)>>::empty()
            &&& s.track_history == Map::<usize, Seq<Seq<TrackEvent>>>::empty()
            &&& !s.is_recording
            &&& !s.pending_record
            &&& s.active_track == 1
            &&& s.current_tick == 0
        }),
{
    let s = scene::switched(e, name, config, idx);
    assert(s.track_lengths.dom() =~= s.tracks.dom());
    assert(s.track_channels.dom() =~= s.tracks.dom());
}

/// After a switch or a reload the clock wraps only where every loop does: its period is positive
/// and holds a whole number of base periods and of the loops of every track, and no shorter span
/// does.
pub proof fn law_the_period_holds_whole_loops(
    e: Engine,
    name: Seq<char>,
    config: SceneConfig,
    idx: usize,
)
    ensures
        scene::scene_ready(config) ==> {
            let s = scene::switched(e, name, config, idx);
            period::is_period(s.max_tick as nat, scene::base_ticks(config), s.track_lengths.values())
        },
        scene::reload_ready(e, config) ==> {
            let s = scene::reloaded(e, config);
            period::is_period(s.max_tick as nat, scene::base_ticks(config), s.track_lengths.values())
        },
{
    if scene::scene_ready(config) {
        let s = scene::switched(e, name, config, idx);
        assert(s.track_lengths =~= scene::scene_lengths(config));
        period::lemma_period_exists(scene::base_ticks(config), s.track_lengths.values());
    }
    if scene::reload_ready(e, config) {
        let s = scene::reloaded(e, config);
        period::lemma_period_exists(scene::base_ticks(config), s.track_lengths.values());
    }
}

/// When the clock moves on, every loop whose length divides the period moves on by one tick, and
/// goes round where it ends, also where the clock itself wraps.
pub proof fn law_loops_run_on_when_the_clock_wraps(e: Engine, length: int)
    requires
        length > 0,
        e.max_tick > 0,
        e.current_tick < e.max_tick,
        e.max_tick as int % length == 0,
    ensures
        clock::advanced(e).current_tick < e.max_tick,
        clock::advanced(e).current_tick as int % length == (e.current_tick as int % length + 1)
            % length,
{
    let t = e.current_tick as int;
    let m = e.max_tick as int;
    vstd::arithmetic::div_mod::lemma_add_mod_noop(t, 1, length);
    if length == 1 {
        assert(clock::advanced(e).current_tick as int % 1 == 0);
        assert((t % 1 + 1) % 1 == 0);
    } else {
        vstd::arithmetic::div_mod::lemma_small_mod(1, length as nat);
    }
    assert((t % length + 1) % length == (t + 1) % length);
    if t + 1 < m {
        vstd::arithmetic::div_mod::lemma_small_mod((t + 1) as nat, m as nat);
    } else {
        vstd::arithmetic::div_mod::lemma_mod_self_0(m);
        vstd::arithmetic::div_mod::lemma_small_mod(0, length as nat);
    }
}

/// The engine after `n` steps of the clock.
pub open spec fn advanced_by(e: Engine, n: nat) -> Engine
    decreases n,
{
    if n == 0 {
        e
    } else {
        clock::advanced(advanced_by(e, (n - 1) as nat))
    }
}

/// The clock counts the ticks and comes round after its period: `n` steps from tick `t` it stands
/// at `t + n` by the period.
pub proof fn law_the_clock_comes_round(e: Engine, n: nat)
    requires
        e.max_tick > 0,
        e.current_tick < e.max_tick,
    ensures
        advanced_by(e, n).current_tick == (e.current_tick + n) % e.max_tick as int,
        advanced_by(e, n) == (Engine { current_tick: advanced_by(e, n).current_tick, ..e }),
        n == e.max_tick ==> advanced_by(e, n).current_tick == e.current_tick,
    decreases n,
{
    let m = e.max_tick as int;
    let t = e.current_tick as int;
    vstd::arithmetic::div_mod::lemma_small_mod(e.current_tick as nat, e.max_tick as nat);
    if n > 0 {
        law_the_clock_comes_round(e, (n - 1) as nat);
        let before = (t + n - 1) % m;
        vstd::arithmetic::div_mod::lemma_add_mod_noop(t + n - 1, 1, m);
        if m > 1 {
            vstd::arithmetic::div_mod::lemma_small_mod(1, m as nat);
            assert((before + 1) % m == (t + n) % m);
        } else {
            assert((before + 1) % 1 == 0);
            assert((t + n) % 1 == 0);
        }
    }
    if n == e.max_tick {
        vstd::arithmetic::div_mod::lemma_mod_add_multiples_vanish(t, m);
    }
}

/// A loop repeats itself: while nothing is played, recorded or armed, a track sends the same
/// messages again one loop later, and every loop after that, as long as its length divides the
/// period of the clock.
pub proof fn law_a_loop_repeats_itself(e: Engine, id: usize, passes: nat)
    requires
        e.max_tick > 0,
        e.current_tick < e.max_tick,
        recording::loop_length(e, id) > 0,
        e.max_tick as int % recording::loop_length(e, id) as int == 0,
    ensures
        clock::track_messages(
            advanced_by(e, passes * recording::loop_length(e, id) as nat),
            id,
        ) == clock::track_messages(e, id),
{
    let length = recording::loop_length(e, id) as int;
    let n = passes * recording::loop_length(e, id) as nat;
    let later = advanced_by(e, n);
    law_the_clock_comes_round(e, n);
    let t = e.current_tick as int;
    let m = e.max_tick as int;
    let far = t + passes * length;
    playing::lemma_mod_of_multiple(far, m, length);
    vstd::arithmetic::div_mod::lemma_mod_multiples_vanish(passes as int, t, length);
    assert(length * passes + t == far) by (nonlinear_arith)
        requires
            far == t + passes * length,
    ;
    assert(later.current_tick as int % length == t % length);
    assert forall|event: TrackEvent| clock::is_due(later, id, event) == clock::is_due(
        e,
        id,
        event,
    ) by {}
    assert((|event: TrackEvent| clock::is_due(later, id, event)) =~= (|event: TrackEvent|
        clock::is_due(e, id, event)));
    assert((|event: TrackEvent| clock::event_message(later, id, event)) =~= (|event: TrackEvent|
        clock::event_message(e, id, event)));
}

/// While nothing is recorded or armed, a tick only moves the clock on.
pub proof fn law_an_idle_tick_only_moves_the_clock(e: Engine, now: u128)
    requires
        !e.is_recording,
        !e.pending_record,
    ensures
        clock::ticked(e, now) == clock::advanced(e),
        clock::prepared(e, now) == e,
{
}

/// What bringing the tracks 1 to `n` in line does to the recordings of one track.
pub proof fn lemma_updated_track(e: Engine, config: SceneConfig, n: nat, id: usize)
    requires
        n <= usize::MAX,
    ensures
        ({
            let u = scene::lanes_updated(e, config, n);
            if 1 <= id <= n {
                &&& u.tracks.contains_key(id)
                &&& u.tracks[id] == if scene::same_length(e, config, id) && e.tracks.contains_key(
                    id,
                ) {
                    e.tracks[id]
                } else {
                    Seq::empty()
                }
                &&& u.track_history.contains_key(id) == (e.track_history.contains_key(id)
                    && scene::same_length(e, config, id))
                &&& scene::same_length(e, config, id) ==> u.track_history[id] == e.track_history[id]
                &&& u.track_channels.contains_key(id)
            } else {
                &&& u.tracks.contains_key(id) == e.tracks.contains_key(id)
                &&& u.tracks[id] == e.tracks[id]
                &&& u.track_history.contains_key(id) == e.track_history.contains_key(id)
                &&& u.track_history[id] == e.track_history[id]
                &&& u.track_channels.contains_key(id) == e.track_channels.contains_key(id)
            }
        }),
    decreases n,
{
    if n > 0 {
        lemma_updated_track(e, config, (n - 1) as nat, id);
        scene::lemma_updated_lengths(e, config, (n - 1) as nat);
    }
}

/// The engine with what a reload swaps at once.
pub open spec fn swapped(e: Engine, config: SceneConfig) -> Engine {
    Engine {
        bpm: config.bpm,
        metronome_on: config.metronome_on,
        ppqn: config.ppqn,
        time_signature_numerator: config.time_signature_numerator,
        time_signature_denominator: config.time_signature_denominator,
        ticks_per_measure: scene::measure_ticks(config) as usize,
        scene_display_name: domain::name_text(config.name),
        ..e
    }
}

/// A reload that keeps the timing keeps the recordings: the events and the undo history of every
/// track whose length stays the same, the events of the drum lane where its length stays the same,
/// the tick of the clock and a recording that runs.
pub proof fn law_a_reload_keeps_recordings(e: Engine, config: SceneConfig, id: usize)
    requires
        !scene::timing_changed(e, config),
        scene::layout_counts(config),
    ensures
        ({
            let r = scene::reloaded(e, config);
            &&& scene::melodic(config, id) && scene::same_length(e, config, id)
                && e.tracks.contains_key(id) ==> {
                &&& r.tracks.contains_key(id)
                &&& r.tracks[id] == e.tracks[id]
                &&& clock::history_of(r, id) == clock::history_of(e, id)
            }
            &&& config.drums is Some && e.tracks.contains_key(0) && e.track_lengths.contains_key(0)
                && e.track_lengths[0] == scene::drum_ticks(config) ==> r.tracks[0] == e.tracks[0]
            &&& r.current_tick == e.current_tick
            &&& r.is_recording == e.is_recording
            &&& r.pending_record == e.pending_record
            &&& r.held_notes == e.held_notes
        }),
{
    let n = scene::track_count(config);
    let s = swapped(e, config);
    lemma_track_count_fits(config);
    lemma_updated_track(s, config, n, id);
    lemma_updated_track(s, config, n, 0);
    scene::lemma_updated_lengths(s, config, n);
    playing::lemma_update_keeps(s, config, n);
    let u = scene::lanes_updated(s, config, n);
    let ids = scene::above(e.track_ids, n);
    assert(scene::lanes_diffed(s, config).tracks =~= u.tracks.remove_keys(ids));
}

/// The number of a track fits a machine word.
pub proof fn lemma_track_count_fits(config: SceneConfig)
    ensures
        scene::track_count(config) <= usize::MAX,
{
    lemma_largest_id_fits(config.tracks@);
}

proof fn lemma_largest_id_fits(tracks: Seq<(String, config::TomlTrackConfig)>)
    ensures
        scene::largest_id(tracks) matches Some(n) ==> n <= usize::MAX,
    decreases tracks.len(),
{
    if tracks.len() > 0 {
        lemma_largest_id_fits(tracks.drop_last());
    }
}

/// A reload that changes the length of a track, or the timing, empties it; one that takes a track
/// out of the scene takes it out of the engine.
pub proof fn law_a_reload_drops_what_no_longer_fits(e: Engine, config: SceneConfig, id: usize)
    requires
        scene::layout_counts(config),
    ensures
        ({
            let r = scene::reloaded(e, config);
            &&& scene::melodic(config, id) && (scene::timing_changed(e, config)
                || !scene::same_length(e, config, id)) ==> r.tracks.contains_key(id)
                && r.tracks[id].len() == 0 && !r.track_history.contains_key(id)
            &&& id > scene::track_count(config) && e.track_ids.contains(id)
                ==> !r.tracks.contains_key(id) && !r.track_channels.contains_key(id)
            &&& config.drums is None ==> !r.tracks.contains_key(0)
        }),
{
    let n = scene::track_count(config);
    let s = swapped(e, config);
    lemma_track_count_fits(config);
    lemma_updated_track(s, config, n, id);
    playing::lemma_update_keeps(s, config, n);
    assert(scene::above(e.track_ids, n).contains(id) <==> e.track_ids.contains(id) && id > n);
}

/// A reload that keeps the timing leaves an active track that is there.
pub proof fn law_a_reload_keeps_an_active_track(e: Engine, config: SceneConfig)
    requires
        !scene::timing_changed(e, config),
        scene::layout_counts(config),
        scene::track_count(config) >= 1,
        e.active_track > 0,
    ensures
        ({
            let r = scene::reloaded(e, config);
            &&& r.track_channels.contains_key(r.active_track)
            &&& scene::melodic(config, e.active_track) ==> r.active_track == e.active_track
        }),
{
    let n = scene::track_count(config);
    let s = swapped(e, config);
    lemma_track_count_fits(config);
    lemma_updated_track(s, config, n, e.active_track);
    lemma_updated_track(s, config, n, 1);
    playing::lemma_update_keeps(s, config, n);
    assert(!scene::above(e.track_ids, n).contains(1));
}

/// Whether track `id` is as the scene sets it.
pub open spec fn in_line(e: Engine, config: SceneConfig, id: usize) -> bool {
    let l = scene::lane(config, id);
    &&& e.tracks.contains_key(id)
    &&& e.track_channels.contains_key(id) && e.track_channels[id] == l.channel
    &&& e.track_lengths.contains_key(id) && e.track_lengths[id] == l.length
    &&& e.track_programs.contains_key(id) && e.track_programs[id] == l.program
    &&& e.track_volumes.contains_key(id) && e.track_volumes[id] == l.volume
    &&& e.track_velocities.contains_key(id) && e.track_velocities[id] == l.velocity
    &&& e.track_velocity_multipliers.contains_key(id) && e.track_velocity_multipliers[id] == l.scale
    &&& match l.name {
        Some(name) => e.track_names.contains_key(id) && e.track_names[id] == name,
        None => !e.track_names.contains_key(id),
    }
}

/// Bringing tracks in line brings each of them in line.
proof fn lemma_updated_in_line(e: Engine, config: SceneConfig, n: nat, id: usize)
    requires
        1 <= id <= n <= usize::MAX,
    ensures
        in_line(scene::lanes_updated(e, config, n), config, id),
    decreases n,
{
    if id < n {
        lemma_updated_in_line(e, config, (n - 1) as nat, id);
    }
}

/// Tracks that are in line are left as they are.
proof fn lemma_in_line_stays(e: Engine, config: SceneConfig, n: nat)
    requires
        n <= usize::MAX,
        forall|id: usize| 1 <= id <= n ==> #[trigger] in_line(e, config, id),
    ensures
        scene::lanes_updated(e, config, n) == e,
    decreases n,
{
    if n > 0 {
        let id = n as usize;
        lemma_in_line_stays(e, config, (n - 1) as nat);
        assert(in_line(e, config, id));
        assert(scene::with_lane_updated(e, config, id) =~= e);
    }
}

/// A reload brings the tracks of the scene in line, and lists them.
pub proof fn lemma_reloaded_in_line(e: Engine, config: SceneConfig, id: usize)
    requires
        scene::melodic(config, id),
    ensures
        in_line(scene::reloaded(e, config), config, id),
{
    let n = scene::track_count(config);
    let s = swapped(e, config);
    lemma_track_count_fits(config);
    if !scene::timing_changed(e, config) {
        lemma_updated_in_line(s, config, n, id);
        playing::lemma_update_keeps(s, config, n);
        assert(!scene::above(e.track_ids, n).contains(id));
        assert(in_line(scene::lanes_diffed(s, config), config, id));
    }
    assert(in_line(scene::reloaded_lanes(e, config), config, id));
}

/// Reloading the same scene again changes nothing, where the active track is one of the scene.
pub proof fn law_reloading_again_changes_nothing(e: Engine, config: SceneConfig)
    requires
        scene::layout_counts(config),
        scene::melodic(config, scene::reloaded(e, config).active_track),
    ensures
        scene::reloaded(scene::reloaded(e, config), config) == scene::reloaded(e, config),
{
    let r = scene::reloaded(e, config);
    let n = scene::track_count(config);
    lemma_track_count_fits(config);
    playing::lemma_update_keeps(swapped(e, config), config, n);
    assert(swapped(r, config) =~= r);
    assert(!scene::timing_changed(r, config));
    assert forall|id: usize| 1 <= id <= n implies #[trigger] in_line(r, config, id) by {
        lemma_reloaded_in_line(e, config, id);
    }
    lemma_in_line_stays(r, config, n);
    assert(r.track_ids == Seq::new(n, |i: int| (i + 1) as usize));
    assert(scene::above(r.track_ids, n) =~= Set::empty());
    assert(scene::without_above(r, r.track_ids, n) =~= r);
    assert(in_line(r, config, r.active_track));
    assert(scene::lanes_diffed(r, config) =~= r);
    assert(scene::reloaded_lanes(r, config) == r);
    assert(scene::with_drums(r, config) =~= r);
}

/// Reading the scenes anew follows the scene in use by its name, to wherever it has moved; its
/// place is always one of the scenes.
pub proof fn law_the_scene_in_use_is_followed_by_name(
    e: Engine,
    scenes: Seq<(String, SceneConfig)>,
)
    requires
        0 < scenes.len() <= usize::MAX,
    ensures
        ({
            let a = session::adopted(e, scenes);
            &&& a.current_scene_idx < scenes.len()
            &&& scenes[a.current_scene_idx as int].0@ == a.scene_name
            &&& config::named_at(scenes, e.scene_name) is Some ==> a.scene_name == e.scene_name
            &&& config::named_at(scenes, e.scene_name) is None ==> a.tracks == e.tracks
                && a.track_lengths == e.track_lengths && a.current_scene_idx == 0
        }),
{
    lemma_named_at(scenes, e.scene_name);
    match config::named_at(scenes, e.scene_name) {
        Some(i) => {
            let s = swapped(e, scenes[i].1);
            playing::lemma_update_keeps(
                s,
                scenes[i].1,
                scene::track_count(scenes[i].1),
            );
        },
        None => {},
    }
}

/// A name is found where it stands.
pub proof fn lemma_named_at<T>(pairs: Seq<(String, T)>, key: Seq<char>)
    ensures
        config::named_at(pairs, key) matches Some(i) ==> 0 <= i < pairs.len() && pairs[i].0@ == key,
    decreases pairs.len(),
{
    if pairs.len() > 0 {
        lemma_named_at(pairs.drop_last(), key);
    }
}

/// Where no name stands twice, an entry is found wherever it stands.
pub proof fn lemma_found_anywhere<T>(pairs: Seq<(String, T)>, i: int)
    requires
        config::named_once(pairs),
        0 <= i < pairs.len(),
    ensures
        config::named_at(pairs, pairs[i].0@) == Some(i),
    decreases pairs.len(),
{
    let front = pairs.drop_last();
    let key = pairs[i].0@;
    assert forall|a: int, b: int| 0 <= a < b < front.len() implies (#[trigger] front[a]).0@ != (
    #[trigger] front[b]).0@ by {
        assert(pairs[a].0@ != pairs[b].0@);
    }
    if i < front.len() {
        lemma_found_anywhere(front, i);
        assert(front[i] == pairs[i]);
    } else {
        lemma_named_at(front, key);
        if config::named_at(front, key) is Some {
            let k = config::named_at(front, key)->0;
            assert(pairs[k].0@ == front[k].0@);
        }
    }
}

/// The order of the tracks in a scene does not matter: where no number stands twice, a track has
/// the settings that stand under its number.
pub proof fn law_tracks_are_found_by_number(config: SceneConfig, id: usize, i: int)
    requires
        config.well_named(),
        0 <= i < config.tracks@.len(),
        config.tracks@[i].0@ == text::decimal(id as nat),
    ensures
        scene::track_config(config, id) == Some(config.tracks@[i].1),
{
    lemma_found_anywhere(config.tracks@, i);
}

/// What `largest_id` gives is among the numbers in the names, and none of them is larger.
proof fn lemma_largest_id(tracks: Seq<(String, config::TomlTrackConfig)>)
    ensures
        forall|i: int|
            0 <= i < tracks.len() ==> (text::number(
                (#[trigger] tracks[i]).0@,
                usize::MAX as nat,
            ) matches Some(n) ==> scene::largest_id(tracks) is Some && n <= scene::largest_id(
                tracks,
            )->0),
        scene::largest_id(tracks) matches Some(n) ==> exists|j: int|
            0 <= j < tracks.len() && text::number((#[trigger] tracks[j]).0@, usize::MAX as nat)
                == Some(n),
    decreases tracks.len(),
{
    if tracks.len() > 0 {
        let front = tracks.drop_last();
        lemma_largest_id(front);
        assert forall|i: int| 0 <= i < tracks.len() implies (text::number(
            (#[trigger] tracks[i]).0@,
            usize::MAX as nat,
        ) matches Some(n) ==> scene::largest_id(tracks) is Some && n <= scene::largest_id(
            tracks,
        )->0) by {
            if i < front.len() {
                assert(front[i] == tracks[i]);
            }
        }
        if scene::largest_id(front) is Some {
            let n = scene::largest_id(front)->0;
            let j = choose|j: int|
                0 <= j < front.len() && text::number(
                    (#[trigger] front[j]).0@,
                    usize::MAX as nat,
                ) == Some(n);
            assert(tracks[j] == front[j]);
        }
        assert(tracks[tracks.len() - 1] == tracks.last());
    }
}

/// Whether the name of the track at place `i` is the number `n`.
pub open spec fn numbered(config: SceneConfig, i: int, n: nat) -> bool {
    0 <= i < config.tracks@.len() && text::number(config.tracks@[i].0@, usize::MAX as nat) == Some(
        n,
    )
}

/// A scene has as many tracks as the largest number among the names of its tracks, and one track
/// where none of the names is a number.
pub proof fn law_the_largest_number_counts_the_tracks(config: SceneConfig)
    ensures
        (exists|i: int, n: nat| numbered(config, i, n)) ==> exists|i: int|
            numbered(config, i, scene::track_count(config)),
        forall|i: int, n: nat| numbered(config, i, n) ==> n <= scene::track_count(config),
        (forall|i: int, n: nat| !numbered(config, i, n)) ==> scene::track_count(config) == 1,
{
    lemma_largest_id(config.tracks@);
    if exists|i: int, n: nat| numbered(config, i, n) {
        let (i, n) = choose|i: int, n: nat| numbered(config, i, n);
        assert(text::number(config.tracks@[i].0@, usize::MAX as nat) == Some(n));
        assert(scene::largest_id(config.tracks@) is Some);
    }
    if scene::largest_id(config.tracks@) is Some {
        let count = scene::largest_id(config.tracks@)->0;
        let j = choose|j: int|
            0 <= j < config.tracks@.len() && text::number(
                (#[trigger] config.tracks@[j]).0@,
                usize::MAX as nat,
            ) == Some(count);
        assert(numbered(config, j, count));
        assert(scene::track_count(config) == count);
    }
}

/// Whether files are in the order of their names.
pub open spec fn names_in_order(files: Seq<(String, String)>) -> bool {
    forall|i: int, j: int|
        0 <= i < j < files.len() ==> sorting::not_after(
            (#[trigger] files[i]).0@,
            (#[trigger] files[j]).0@,
        )
}

/// Of two texts, one does not come after the other.
proof fn lemma_either_order(a: Seq<char>, b: Seq<char>)
    ensures
        sorting::not_after(a, b) || sorting::not_after(b, a),
    decreases a.len(),
{
    if a.len() > 0 && b.len() > 0 && a[0] == b[0] {
        lemma_either_order(a.drop_first(), b.drop_first());
    }
}

/// The order of texts carries over.
proof fn lemma_order_carries(a: Seq<char>, b: Seq<char>, c: Seq<char>)
    requires
        sorting::not_after(a, b),
        sorting::not_after(b, c),
    ensures
        sorting::not_after(a, c),
    decreases a.len(),
{
    if a.len() > 0 && b.len() > 0 && c.len() > 0 && a[0] == b[0] && b[0] == c[0] {
        lemma_order_carries(a.drop_first(), b.drop_first(), c.drop_first());
    }
}

/// Placing a file keeps the order and adds the file.
proof fn lemma_file_placed(files: Seq<(String, String)>, file: (String, String))
    requires
        names_in_order(files),
    ensures
        names_in_order(sorting::file_placed(files, file)),
        sorting::file_placed(files, file).to_multiset() == files.to_multiset().insert(file),
        sorting::file_placed(files, file).len() == files.len() + 1,
        sorting::file_placed(files, file).last() == file || files.len() > 0
            && sorting::file_placed(files, file).last() == files.last(),
    decreases files.len(),
{
    broadcast use vstd::seq_lib::group_to_multiset_ensures;

    let all = sorting::file_placed(files, file);
    if files.len() == 0 || sorting::not_after(files.last().0@, file.0@) {
        assert forall|i: int, j: int| 0 <= i < j < all.len() implies sorting::not_after(
            (#[trigger] all[i]).0@,
            (#[trigger] all[j]).0@,
        ) by {
            if j == files.len() && i < files.len() - 1 {
                assert(sorting::not_after(files[i].0@, files[files.len() - 1].0@));
                lemma_order_carries(files[i].0@, files.last().0@, file.0@);
            }
        }
    } else {
        let front = files.drop_last();
        let last = files.last();
        lemma_either_order(last.0@, file.0@);
        assert(names_in_order(front)) by {
            assert forall|i: int, j: int| 0 <= i < j < front.len() implies sorting::not_after(
                (#[trigger] front[i]).0@,
                (#[trigger] front[j]).0@,
            ) by {
                assert(sorting::not_after(files[i].0@, files[j].0@));
            }
        }
        lemma_file_placed(front, file);
        let rest = sorting::file_placed(front, file);
        assert(files =~= front.push(last));
        assert(sorting::not_after(rest.last().0@, last.0@)) by {
            if rest.last() != file {
                assert(rest.last() == files[files.len() - 2]);
            }
        }
        assert forall|i: int, j: int| 0 <= i < j < all.len() implies sorting::not_after(
            (#[trigger] all[i]).0@,
            (#[trigger] all[j]).0@,
        ) by {
            if j < rest.len() {
                assert(sorting::not_after(rest[i].0@, rest[j].0@));
            } else if i < rest.len() - 1 {
                assert(sorting::not_after(rest[i].0@, rest[rest.len() - 1].0@));
                lemma_order_carries(rest[i].0@, rest.last().0@, last.0@);
            }
        }
        assert(all.to_multiset() =~= files.to_multiset().insert(file));
    }
}

/// The files of a directory are taken in the order of their names, and none is lost or added.
pub proof fn law_files_are_taken_in_the_order_of_their_names(files: Seq<(String, String)>)
    ensures
        names_in_order(sorting::by_name(files)),
        sorting::by_name(files).to_multiset() == files.to_multiset(),
    decreases files.len(),
{
    broadcast use vstd::seq_lib::group_to_multiset_ensures;

    if files.len() > 0 {
        let front = files.drop_last();
        law_files_are_taken_in_the_order_of_their_names(front);
        lemma_file_placed(sorting::by_name(front), files.last());
        assert(files =~= front.push(files.last()));
    }
}

/// Names are compared character by character: the first in which they differ decides, and a name
/// comes before every longer one that begins with it.
pub proof fn law_names_are_compared_by_character(a: Seq<char>, b: Seq<char>, i: int)
    requires
        0 <= i <= a.len(),
        i <= b.len(),
        forall|k: int| 0 <= k < i ==> a[k] == b[k],
    ensures
        i < a.len() && i < b.len() && a[i] != b[i] ==> (sorting::not_after(a, b) <==> a[i] < b[i]),
        i == a.len() ==> sorting::not_after(a, b),
        i == b.len() && i < a.len() ==> !sorting::not_after(a, b),
    decreases i,
{
    if i > 0 {
        let c = a.drop_first();
        let d = b.drop_first();
        assert(a[0] == b[0]);
        assert forall|k: int| 0 <= k < i - 1 implies c[k] == d[k] by {
            assert(a[k + 1] == b[k + 1]);
        }
        law_names_are_compared_by_character(c, d, i - 1);
        if i < a.len() && i < b.len() {
            assert(c[i - 1] == a[i] && d[i - 1] == b[i]);
        }
    }
}

/// Scenes that were read are taken, all of them and in order, where all could be read; else the one
/// that is reported is the first that could not.
pub proof fn law_scenes_are_taken_whole(
    read: Seq<(String, Result<SceneConfig, config::ReloadError>)>,
)
    ensures
        match session::first_unread(read) {
            None => forall|k: int|
                0 <= k < read.len() ==> (#[trigger] read[k]).1 is Ok && session::scenes_of(read)[k].0
                    == read[k].0 && read[k].1 == Ok::<SceneConfig, config::ReloadError>(
                    session::scenes_of(read)[k].1,
                ),
            Some(i) => 0 <= i < read.len() && read[i].1 is Err && forall|k: int|
                0 <= k < i ==> (#[trigger] read[k]).1 is Ok,
        },
        session::scenes_of(read).len() == read.len(),
    decreases read.len(),
{
    if read.len() > 0 && read[0].1 is Ok {
        let rest = read.drop_first();
        law_scenes_are_taken_whole(rest);
        match session::first_unread(rest) {
            None => {
                assert forall|k: int| 0 <= k < read.len() implies (#[trigger] read[k]).1 is Ok by {
                    if k > 0 {
                        assert(rest[k - 1].1 is Ok);
                    }
                }
            },
            Some(i) => {
                assert(read[i + 1] == rest[i]);
                assert forall|k: int| 0 <= k < i + 1 implies (#[trigger] read[k]).1 is Ok by {
                    if k > 0 {
                        assert(rest[k - 1].1 is Ok);
                    }
                }
            },
        }
    }
}

/// Once the lights are connected, that of the metronome is set, where it has one, on the channel for
/// on or for off as the metronome is; channels count from one in the settings.
pub proof fn law_the_metronome_light_is_set_on_connect(
    e: Engine,
    led: config::LedConfig,
    note: Option<u8>,
)
    requires
        led.on_channel >= 1,
        led.off_channel >= 1,
    ensures
        note is None ==> session::connect_message(e, led, note).len() == 0,
        note matches Some(n) ==> {
            let sent = session::connect_message(e, led, note);
            let channel = if e.metronome_on {
                led.on_channel - 1
            } else {
                led.off_channel - 1
            };
            &&& sent.len() == 1
            &&& sent[0] == Sent::Led(seq![0x90u8 | (channel as u8), n, 127u8])
        },
{
}

} // verus!
