//! How a scene lies in the engine, told from its settings.
use crate::config;
use crate::config::{Length, SceneConfig, TomlTrackConfig};
use crate::domain::{Engine, VelocityScale};
use crate::laws::playing;
use crate::laws::scenes as scene_laws;
use crate::output::Sent;
use crate::period;
use crate::scene;
use crate::session;
use crate::text;
use vstd::prelude::*;

verus! {

/// How many of the first `n` tracks have a number for a name.
pub open spec fn numbered_before(tracks: Seq<(String, TomlTrackConfig)>, n: int) -> int
    decreases n,
{
    if n <= 0 {
        0
    } else {
        numbered_before(tracks, n - 1) + if has_number(tracks[n - 1]) {
            1int
        } else {
            0
        }
    }
}

/// Whether `message` sets the volume of a channel: to `volume`, or to 127 where none is set.
pub open spec fn sets_volume(message: Sent, channel: u8, volume: Option<u8>) -> bool {
    &&& message matches Sent::Synth(out)
    &&& out.len() == 3
    &&& out[0] == 0xB0u8 | (channel & 0x0F)
    &&& out[1] == 7
    &&& out[2] == if volume is Some {
        volume->0 as int
    } else {
        127
    }
}

/// Whether `message` sets the program of a channel.
pub open spec fn sets_program(message: Sent, channel: u8, program: u8) -> bool {
    &&& message matches Sent::Synth(out)
    &&& out.len() == 2
    &&& out[0] == 0xC0u8 | (channel & 0x0F)
    &&& out[1] == program
}

/// Whether a track has a number for a name.
pub open spec fn has_number(track: (String, TomlTrackConfig)) -> bool {
    text::number(track.0@, usize::MAX as nat) is Some
}

/// The patches of the first tracks.
proof fn lemma_track_patches(tracks: Seq<(String, TomlTrackConfig)>, n: int)
    requires
        0 <= n <= tracks.len(),
    ensures
        ({
            let sent = scene::track_patches(tracks.take(n));
            &&& sent.len() == 2 * numbered_before(tracks, n)
            &&& forall|i: int|
                0 <= i < n && has_number(#[trigger] tracks[i]) ==> {
                    let at = 2 * numbered_before(tracks, i);
                    let t = tracks[i].1;
                    &&& 0 <= at && at + 1 < sent.len()
                    &&& sets_volume(sent[at], t.channel, t.volume)
                    &&& sets_program(sent[at + 1], t.channel, t.program)
                }
        }),
    decreases n,
{
    if n > 0 {
        lemma_track_patches(tracks, n - 1);
        assert(tracks.take(n).drop_last() =~= tracks.take(n - 1));
        assert(tracks.take(n).last() == tracks[n - 1]);
        lemma_numbered_grow(tracks, n - 1);
        let before = scene::track_patches(tracks.take(n - 1));
        let sent = scene::track_patches(tracks.take(n));
        assert(forall|k: int| 0 <= k < before.len() ==> sent[k] == before[k]);
    }
}

/// A count does not fall below zero.
proof fn lemma_numbered_grow(tracks: Seq<(String, TomlTrackConfig)>, n: int)
    ensures
        numbered_before(tracks, n) >= 0,
    decreases n,
{
    if n > 0 {
        lemma_numbered_grow(tracks, n - 1);
    }
}

/// Setting up the synth for a scene sends, for every track that has a number for a name, in the
/// order of the settings, its volume, which is 127 where none is set, and then its program, on its
/// own channel; behind them the volume of the drums, and last the program of the drums where one
/// is set, on the channel of the drums. Nothing else is sent.
pub proof fn law_patches_set_up_the_synth(config: SceneConfig, i: int)
    ensures
        ({
            let sent = scene::patches(config);
            let tracks = config.tracks@;
            let n = 2 * numbered_before(tracks, tracks.len() as int);
            let at = 2 * numbered_before(tracks, i);
            &&& 0 <= i < tracks.len() && has_number(tracks[i]) ==> {
                &&& 0 <= at && at + 1 < n
                &&& sets_volume(sent[at], tracks[i].1.channel, tracks[i].1.volume)
                &&& sets_program(sent[at + 1], tracks[i].1.channel, tracks[i].1.program)
            }
            &&& config.drums is None ==> sent.len() == n
            &&& config.drums matches Some(d) ==> {
                &&& sent.len() == n + if d.program is Some {
                    2int
                } else {
                    1
                }
                &&& sets_volume(sent[n], d.channel, d.volume)
                &&& d.program matches Some(p) ==> sets_program(sent[n + 1], d.channel, p)
            }
        }),
{
    let n = config.tracks@.len() as int;
    lemma_track_patches(config.tracks@, n);
    lemma_numbered_grow(config.tracks@, n);
    assert(config.tracks@.take(n) =~= config.tracks@);
    let front = scene::track_patches(config.tracks@);
    let back = scene::drum_patches(config);
    assert(forall|k: int| 0 <= k < front.len() ==> scene::patches(config)[k] == front[k]);
    assert(forall|k: int| 0 <= k < back.len() ==> scene::patches(config)[front.len() + k] == back[k]);
    if 0 <= i < n && has_number(config.tracks@[i]) {
        assert(has_number(config.tracks@[i]));
    }
}

/// Whether `table` is that of a multiplier, or that of one where none is set.
pub open spec fn is_table(table: Seq<u32>, m: Option<VelocityScale>) -> bool {
    match m {
        Some(scale) => table == scale.scaled@,
        None => table.len() == 256 && forall|v: int| 0 <= v < 256 ==> table[v] == v,
    }
}

/// Whether `ticks` are those of a length, or `other` where its text cannot be read.
pub open spec fn is_length(ticks: usize, length: Length, ppqn: usize, other: int) -> bool {
    match length {
        Length::Ticks(n) => ticks == n,
        Length::Fraction(s) => match config::fraction_reading(s@, ppqn as nat) {
            Ok(n) => ticks == n,
            Err(_) => ticks == other,
        },
    }
}

/// Whether track `id` is set as `t` says.
pub open spec fn is_set_as(e: Engine, id: usize, t: TomlTrackConfig, ppqn: usize) -> bool {
    &&& e.tracks.contains_key(id)
    &&& e.track_channels.contains_key(id) && e.track_channels[id] == t.channel
    &&& e.track_lengths.contains_key(id) && is_length(e.track_lengths[id], t.length, ppqn, 96)
    &&& e.track_programs.contains_key(id) && e.track_programs[id] == t.program
    &&& e.track_volumes.contains_key(id) && e.track_volumes[id] == if t.volume is Some {
        t.volume->0
    } else {
        127u8
    }
    &&& e.track_velocities.contains_key(id) && e.track_velocities[id] == t.velocity
    &&& e.track_velocity_multipliers.contains_key(id) && is_table(
        e.track_velocity_multipliers[id],
        t.velocity_multiplier,
    )
    &&& e.track_names.contains_key(id) == t.name is Some
    &&& t.name matches Some(name) ==> e.track_names[id] == name@
}

/// Whether track `id` is a plain one: four beats of piano on the first channel.
pub open spec fn is_plain(e: Engine, id: usize) -> bool {
    &&& e.tracks.contains_key(id)
    &&& e.track_channels.contains_key(id) && e.track_channels[id] == 0
    &&& e.track_lengths.contains_key(id) && e.track_lengths[id] == 96
    &&& e.track_programs.contains_key(id) && e.track_programs[id] == 0
    &&& e.track_volumes.contains_key(id) && e.track_volumes[id] == 127
    &&& e.track_velocities.contains_key(id) && e.track_velocities[id] is None
    &&& e.track_velocity_multipliers.contains_key(id) && is_table(
        e.track_velocity_multipliers[id],
        None,
    )
    &&& !e.track_names.contains_key(id)
}

/// Switching to a scene and reloading one set every track up to the number of tracks as the
/// settings under its number say. A track without settings is a plain one.
pub proof fn law_tracks_are_set_as_the_scene_says(
    e: Engine,
    name: Seq<char>,
    config: SceneConfig,
    idx: usize,
    id: usize,
    i: int,
)
    requires
        config.well_named(),
        1 <= id <= scene::track_count(config),
    ensures
        0 <= i < config.tracks@.len() && config.tracks@[i].0@ == text::decimal(id as nat) ==> {
            let t = config.tracks@[i].1;
            &&& is_set_as(scene::switched(e, name, config, idx), id, t, config.ppqn)
            &&& is_set_as(scene::reloaded(e, config), id, t, config.ppqn)
        },
        (forall|j: int|
            0 <= j < config.tracks@.len() ==> (#[trigger] config.tracks@[j]).0@ != text::decimal(
                id as nat,
            )) ==> {
            &&& is_plain(scene::switched(e, name, config, idx), id)
            &&& is_plain(scene::reloaded(e, config), id)
        },
{
    let key = text::decimal(id as nat);
    assert(scene::melodic(config, id));
    scene_laws::lemma_reloaded_in_line(e, config, id);
    let s = scene::switched(e, name, config, idx);
    assert(scene_laws::in_line(s, config, id));
    if 0 <= i < config.tracks@.len() && config.tracks@[i].0@ == key {
        scene_laws::lemma_found_anywhere(config.tracks@, i);
        assert(scene::track_config(config, id) == Some(config.tracks@[i].1));
    } else if forall|j: int|
        0 <= j < config.tracks@.len() ==> (#[trigger] config.tracks@[j]).0@ != key {
        scene_laws::lemma_named_at(config.tracks@, key);
        assert(scene::track_config(config, id) is None);
    }
}

/// Switching to a scene and reloading one lay out the tracks from 1 to the number of tracks, in
/// order.
pub proof fn law_tracks_are_listed_in_order(
    e: Engine,
    name: Seq<char>,
    config: SceneConfig,
    idx: usize,
)
    ensures
        ({
            let n = scene::track_count(config);
            let s = scene::switched(e, name, config, idx);
            let r = scene::reloaded(e, config);
            &&& s.track_ids.len() == n && forall|k: int| 0 <= k < n ==> s.track_ids[k] == k + 1
            &&& r.track_ids.len() == n && forall|k: int| 0 <= k < n ==> r.track_ids[k] == k + 1
        }),
{
    scene_laws::lemma_track_count_fits(config);
    playing::lemma_update_keeps(
        scene_laws::swapped(e, config),
        config,
        scene::track_count(config),
    );
}

/// Whether the drum lane is as the scene says: there and set where the scene has drums, and gone
/// where it has none.
pub open spec fn drums_are_set(e: Engine, config: SceneConfig) -> bool {
    match config.drums {
        Some(d) => {
            &&& e.tracks.contains_key(0)
            &&& e.track_channels.contains_key(0) && e.track_channels[0] == d.channel
            &&& e.track_lengths.contains_key(0) && match d.length {
                Some(l) => is_length(
                    e.track_lengths[0],
                    l,
                    config.ppqn,
                    config.ppqn * config.time_signature_numerator,
                ),
                None => e.track_lengths[0] == config.ppqn * config.time_signature_numerator,
            }
            &&& e.drum_velocity == d.velocity
            &&& is_table(e.drum_velocity_multiplier, d.velocity_multiplier)
            &&& e.drums_name == match d.name {
                Some(name) => Some(name@),
                None => None,
            }
        },
        None => {
            &&& !e.tracks.contains_key(0)
            &&& !e.track_channels.contains_key(0)
            &&& !e.track_lengths.contains_key(0)
            &&& e.drum_velocity is None
            &&& is_table(e.drum_velocity_multiplier, None)
            &&& e.drums_name is None
        },
    }
}

/// Switching to a scene and reloading one set the drum lane as the scene says.
pub proof fn law_drums_are_set_as_the_scene_says(
    e: Engine,
    name: Seq<char>,
    config: SceneConfig,
    idx: usize,
)
    requires
        config.ppqn * config.time_signature_numerator <= usize::MAX,
    ensures
        drums_are_set(scene::switched(e, name, config, idx), config),
        drums_are_set(scene::reloaded(e, config), config),
{
}

/// Switching to a scene takes over its tempo, meter, metronome, name and place, wipes every
/// recording, mute, pile and held note, goes back to track 1 and to the start, and stops what runs
/// or is armed. What is played by hand stays: the keys that are down, the modifier, quantizing, the
/// arm time and the resolution of the clock. The tracks that are there are those of the scene.
pub proof fn law_switching_starts_over(
    e: Engine,
    name: Seq<char>,
    config: SceneConfig,
    idx: usize,
    id: usize,
)
    requires
        config.ppqn * config.time_signature_numerator <= usize::MAX,
    ensures
        ({
            let s = scene::switched(e, name, config, idx);
            &&& s.bpm == config.bpm
            &&& s.time_signature_numerator == config.time_signature_numerator
            &&& s.time_signature_denominator == config.time_signature_denominator
            &&& s.ticks_per_measure == config.ppqn * config.time_signature_numerator
            &&& s.metronome_on == config.metronome_on
            &&& s.scene_name == name
            &&& s.current_scene_idx == idx
            &&& s.scene_display_name is Some == config.name is Some
            &&& config.name matches Some(shown) ==> s.scene_display_name == Some(shown@)
            &&& s.active_track == 1
            &&& s.current_tick == 0
            &&& !s.is_recording && !s.pending_record && s.record_armed_at is None
            &&& !s.muted_tracks.contains(id)
            &&& !s.held_notes.contains_key(id)
            &&& !s.track_history.contains_key(id)
            &&& !s.loop_start_lens.contains_key(id)
            &&& s.tracks.contains_key(id) <==> 1 <= id <= scene::track_count(config) || (id == 0
                && config.drums is Some)
            &&& s.tracks.contains_key(id) ==> s.tracks[id].len() == 0
            &&& s.track_channels.contains_key(id) == s.tracks.contains_key(id)
            &&& s.track_lengths.contains_key(id) == s.tracks.contains_key(id)
            &&& s.physically_held == e.physically_held
            &&& s.shift_held == e.shift_held
            &&& s.quantize_on == e.quantize_on
            &&& s.ppqn == e.ppqn
            &&& s.record_arm_time == e.record_arm_time
        }),
{
}

/// The engine starts with its first scene as a switch leaves it, at the resolution of the scene,
/// with no key down, the modifier up, quantizing off, and the arm time that was set.
pub proof fn law_the_engine_starts(name: Seq<char>, config: SceneConfig, arm_time: u128, e: Engine)
    requires
        e.physically_held.len() == 0,
        !e.shift_held,
        !e.quantize_on,
        e.record_arm_time == arm_time,
    ensures
        ({
            let s = scene::started(name, config, arm_time);
            let t = scene::switched(e, name, config, 0);
            s == (Engine { ppqn: config.ppqn, ..t })
        }),
{
    assert(e.physically_held =~= Seq::empty());
    assert(scene::started(name, config, arm_time) =~= (Engine {
        ppqn: config.ppqn,
        ..scene::switched(e, name, config, 0)
    }));
}

/// Whether a reload keeps the way in which the engine counts time.
pub open spec fn counts_alike(e: Engine, config: SceneConfig) -> bool {
    e.ppqn == config.ppqn && e.ticks_per_measure == config.ppqn * config.time_signature_numerator
}

/// Reloading a scene takes over its tempo, meter, metronome and resolution. Where it counts time as
/// before, a track of the scene keeps its recordings, its pile and its mute if its loop stays as
/// long, and is emptied, pile and all, if it does not; the clock goes on. Where it counts
/// otherwise, every track is emptied, no track is muted or undoable, and the clock starts over. In
/// both cases a recording that runs or is armed, what is held, and the place of the scene stay.
pub proof fn law_reloading_keeps_what_fits(e: Engine, config: SceneConfig, id: usize)
    requires
        config.ppqn * config.time_signature_numerator <= usize::MAX,
        1 <= id <= scene::track_count(config),
    ensures
        ({
            let r = scene::reloaded(e, config);
            let kept = counts_alike(e, config) && e.track_lengths.contains_key(id)
                && e.track_lengths[id] == r.track_lengths[id];
            &&& r.bpm == config.bpm
            &&& r.ppqn == config.ppqn
            &&& r.time_signature_numerator == config.time_signature_numerator
            &&& r.time_signature_denominator == config.time_signature_denominator
            &&& r.ticks_per_measure == config.ppqn * config.time_signature_numerator
            &&& r.metronome_on == config.metronome_on
            &&& r.scene_display_name is Some == config.name is Some
            &&& config.name matches Some(shown) ==> r.scene_display_name == Some(shown@)
            &&& r.is_recording == e.is_recording
            &&& r.pending_record == e.pending_record
            &&& r.record_armed_at == e.record_armed_at
            &&& r.record_arm_time == e.record_arm_time
            &&& r.held_notes == e.held_notes
            &&& r.physically_held == e.physically_held
            &&& r.shift_held == e.shift_held
            &&& r.quantize_on == e.quantize_on
            &&& r.scene_name == e.scene_name
            &&& r.current_scene_idx == e.current_scene_idx
            &&& r.loop_start_lens == e.loop_start_lens
            &&& r.current_tick == if counts_alike(e, config) {
                e.current_tick
            } else {
                0
            }
            &&& kept && e.tracks.contains_key(id) ==> r.tracks[id] == e.tracks[id]
            &&& !(kept && e.tracks.contains_key(id)) ==> r.tracks[id].len() == 0
            &&& kept ==> r.track_history.contains_key(id) == e.track_history.contains_key(id)
            &&& kept && e.track_history.contains_key(id) ==> r.track_history[id]
                == e.track_history[id]
            &&& !kept ==> !r.track_history.contains_key(id)
            &&& r.muted_tracks.contains(id) == (counts_alike(e, config) && e.muted_tracks.contains(
                id,
            ))
            &&& !counts_alike(e, config) ==> r.active_track == e.active_track
            &&& counts_alike(e, config) && 1 <= e.active_track <= scene::track_count(config)
                ==> r.active_track == e.active_track
        }),
{
    let n = scene::track_count(config);
    let s = scene_laws::swapped(e, config);
    scene_laws::lemma_track_count_fits(config);
    assert(scene::timing_changed(e, config) == !counts_alike(e, config));
    scene_laws::lemma_updated_track(s, config, n, id);
    if 1 <= e.active_track <= n {
        scene_laws::lemma_updated_track(s, config, n, e.active_track);
    }
    scene::lemma_updated_lengths(s, config, n);
    playing::lemma_update_keeps(s, config, n);
    assert(!scene::above(e.track_ids, n).contains(id));
}

/// A reload that counts time as before takes away the tracks that the scene has no more, with all
/// that belongs to them, and makes track 1 active where the active one is among them. The drum lane
/// keeps its events where its loop stays as long, and is emptied where it does not.
pub proof fn law_reloading_drops_what_is_gone(e: Engine, config: SceneConfig, id: usize)
    requires
        config.ppqn * config.time_signature_numerator <= usize::MAX,
        counts_alike(e, config),
    ensures
        ({
            let r = scene::reloaded(e, config);
            &&& id > scene::track_count(config) && e.track_ids.contains(id) ==> {
                &&& !r.tracks.contains_key(id)
                &&& !r.track_channels.contains_key(id)
                &&& !r.track_lengths.contains_key(id)
                &&& !r.track_programs.contains_key(id)
                &&& !r.track_volumes.contains_key(id)
                &&& !r.track_velocities.contains_key(id)
                &&& !r.track_velocity_multipliers.contains_key(id)
                &&& !r.track_history.contains_key(id)
                &&& !r.muted_tracks.contains(id)
                &&& !r.track_names.contains_key(id)
                &&& e.active_track == id ==> r.active_track == 1
            }
            &&& config.drums is Some && e.track_lengths.contains_key(0) && e.tracks.contains_key(0)
                && e.track_lengths[0] == r.track_lengths[0] ==> r.tracks[0] == e.tracks[0]
            &&& config.drums is Some && !(e.track_lengths.contains_key(0) && e.tracks.contains_key(
                0,
            ) && e.track_lengths[0] == r.track_lengths[0]) ==> r.tracks[0].len() == 0
        }),
{
    let n = scene::track_count(config);
    let s = scene_laws::swapped(e, config);
    scene_laws::lemma_track_count_fits(config);
    assert(!scene::timing_changed(e, config));
    scene_laws::lemma_updated_track(s, config, n, id);
    scene_laws::lemma_updated_track(s, config, n, 0);
    scene::lemma_updated_lengths(s, config, n);
    playing::lemma_update_keeps(s, config, n);
    assert(scene::above(e.track_ids, n).contains(id) <==> e.track_ids.contains(id) && id > n);
    assert(!scene::above(e.track_ids, n).contains(0));
}

/// Whether `p` is positive and holds a whole number of base periods and of loops of every track.
pub open spec fn holds_loops(p: int, e: Engine, config: SceneConfig) -> bool {
    &&& p > 0
    &&& config.max_tracking_beats * config.ppqn > 0 ==> p % (config.max_tracking_beats * config.ppqn)
        == 0
    &&& forall|id: usize| #[trigger]
        e.track_lengths.contains_key(id) && e.track_lengths[id] > 0 ==> p
            % e.track_lengths[id] as int == 0
}

/// After a switch and after a reload the clock goes round after the shortest span that holds whole
/// loops of every track and a whole number of base periods.
pub proof fn law_the_clock_goes_round_with_the_loops(
    e: Engine,
    name: Seq<char>,
    config: SceneConfig,
    idx: usize,
    m: int,
)
    ensures
        scene::scene_ready(config) ==> {
            let s = scene::switched(e, name, config, idx);
            &&& holds_loops(s.max_tick as int, s, config)
            &&& holds_loops(m, s, config) ==> s.max_tick <= m
        },
        scene::reload_ready(e, config) ==> {
            let r = scene::reloaded(e, config);
            &&& holds_loops(r.max_tick as int, r, config)
            &&& holds_loops(m, r, config) ==> r.max_tick <= m
        },
{
    scene_laws::law_the_period_holds_whole_loops(e, name, config, idx);
    if scene::scene_ready(config) {
        lemma_period_holds(scene::switched(e, name, config, idx), config, m);
    }
    if scene::reload_ready(e, config) {
        lemma_period_holds(scene::reloaded(e, config), config, m);
    }
}

/// What a period is.
proof fn lemma_period_holds(s: Engine, config: SceneConfig, m: int)
    requires
        period::is_period(s.max_tick as nat, scene::base_ticks(config), s.track_lengths.values()),
    ensures
        holds_loops(s.max_tick as int, s, config),
        holds_loops(m, s, config) ==> s.max_tick <= m,
{
    let values = s.track_lengths.values();
    assert forall|id: usize| #[trigger]
        s.track_lengths.contains_key(id) && s.track_lengths[id] > 0 implies s.max_tick as int
        % s.track_lengths[id] as int == 0 by {
        assert(values.contains(s.track_lengths[id]));
    }
    if holds_loops(m, s, config) {
        assert forall|length: usize| #[trigger] values.contains(length) && length > 0 implies m
            % length as int == 0 by {
            let id = choose|id: usize| #[trigger]
                s.track_lengths.contains_key(id) && s.track_lengths[id] == length;
            assert(s.track_lengths.contains_key(id));
        }
        assert(period::common_multiple(m as nat, scene::base_ticks(config), values));
    }
}

/// The period of loops is the shortest span that holds a whole number of each of them and of the
/// base; loops of no length do not count, and a base of none is one tick.
pub proof fn law_a_period_is_the_shortest(p: nat, base: nat, lengths: Set<usize>, m: nat)
    requires
        period::is_period(p, base, lengths),
    ensures
        p > 0,
        base > 0 ==> p % base == 0,
        forall|l: usize| #[trigger] lengths.contains(l) && l > 0 ==> p % l as nat == 0,
        m > 0 && (base > 0 ==> m % base == 0) && (forall|l: usize| #[trigger]
            lengths.contains(l) && l > 0 ==> m % l as nat == 0) ==> p <= m,
{
    if m > 0 && (base > 0 ==> m % base == 0) && (forall|l: usize| #[trigger]
        lengths.contains(l) && l > 0 ==> m % l as nat == 0) {
        assert(period::common_multiple(m, base, lengths));
    }
}

/// Reading the scenes anew reloads the scene of the same name, wherever it has moved, and notes its
/// place. Where it is gone, the engine plays on as it is, under the name and at the place of the
/// first scene.
pub proof fn law_adopting_scenes(e: Engine, scenes: Seq<(String, SceneConfig)>, i: int)
    requires
        scenes.len() > 0,
        scenes.len() <= usize::MAX,
        config::named_once(scenes),
    ensures
        0 <= i < scenes.len() && scenes[i].0@ == e.scene_name ==> session::adopted(e, scenes) == (
        Engine { current_scene_idx: i as usize, ..scene::reloaded(e, scenes[i].1) })
            && session::adoption_messages(e, scenes) == scene::patches(scenes[i].1),
        (forall|j: int| 0 <= j < scenes.len() ==> (#[trigger] scenes[j]).0@ != e.scene_name) ==> {
            let a = session::adopted(e, scenes);
            &&& a == (Engine {
                current_scene_idx: 0,
                scene_name: scenes[0].0@,
                scene_display_name: a.scene_display_name,
                ..e
            })
            &&& a.scene_display_name is Some == scenes[0].1.name is Some
            &&& scenes[0].1.name matches Some(shown) ==> a.scene_display_name == Some(shown@)
            &&& session::adoption_messages(e, scenes).len() == 0
        },
{
    if 0 <= i < scenes.len() && scenes[i].0@ == e.scene_name {
        scene_laws::lemma_found_anywhere(scenes, i);
    } else if forall|j: int| 0 <= j < scenes.len() ==> (#[trigger] scenes[j]).0@ != e.scene_name {
        scene_laws::lemma_named_at(scenes, e.scene_name);
    }
}

} // verus!
