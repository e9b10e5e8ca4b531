//! That the models of the state, of what is sent and of what is read leave nothing out.
use crate::config;
use crate::config::{Length, ReloadError, SceneConfig};
use crate::display;
use crate::domain::{Engine, EngineState};
use crate::export;
use crate::laws::layout;
use crate::laws::scenes as scene_laws;
use crate::laws::screen;
use crate::output;
use crate::output::{Output, Sent};
use crate::period;
use crate::ports;
use crate::scene;
use crate::session;
use crate::text;
use vstd::prelude::*;

verus! {

/// The model of the state shows every field of it as it is.
pub proof fn law_the_model_shows_the_state(state: EngineState, id: usize)
    ensures
        state@.bpm == state.bpm,
        state@.ppqn == state.ppqn,
        state@.time_signature_numerator == state.time_signature_numerator,
        state@.time_signature_denominator == state.time_signature_denominator,
        state@.ticks_per_measure == state.ticks_per_measure,
        state@.max_tick == state.max_tick,
        state@.current_tick == state.current_tick,
        state@.is_recording == state.is_recording,
        state@.pending_record == state.pending_record,
        state@.record_armed_at == state.record_armed_at,
        state@.record_arm_time == state.record_arm_time,
        state@.metronome_on == state.metronome_on,
        state@.quantize_on == state.quantize_on,
        state@.active_track == state.active_track,
        state@.drum_velocity == state.drum_velocity,
        state@.shift_held == state.shift_held,
        state@.current_scene_idx == state.current_scene_idx,
        state@.track_channels == state.track_channels@,
        state@.track_lengths == state.track_lengths@,
        state@.track_programs == state.track_programs@,
        state@.track_volumes == state.track_volumes@,
        state@.track_velocities == state.track_velocities@,
        state@.loop_start_lens == state.loop_start_lens@,
        state@.muted_tracks == state.muted_tracks@,
        state@.track_ids == state.track_ids@,
        state@.physically_held == state.physically_held@,
        state@.scene_name == state.scene_name@,
        state@.tracks.contains_key(id) == state.tracks@.contains_key(id),
        state.tracks@.contains_key(id) ==> state@.tracks[id] == state.tracks@[id]@,
        state@.held_notes.contains_key(id) == state.held_notes@.contains_key(id),
        state.held_notes@.contains_key(id) ==> state@.held_notes[id] == state.held_notes@[id]@,
        state@.track_names.contains_key(id) == state.track_names@.contains_key(id),
        state.track_names@.contains_key(id) ==> state@.track_names[id] == state.track_names@[id]@,
        state@.track_velocity_multipliers.contains_key(id)
            == state.track_velocity_multipliers@.contains_key(id),
        state.track_velocity_multipliers@.contains_key(id) ==> state@.track_velocity_multipliers[id]
            == state.track_velocity_multipliers@[id].scaled@,
        state@.drum_velocity_multiplier == state.drum_velocity_multiplier.scaled@,
        state@.track_history.contains_key(id) == state.track_history@.contains_key(id),
        state.track_history@.contains_key(id) ==> {
            let pile = state.track_history@[id]@;
            &&& state@.track_history[id].len() == pile.len()
            &&& forall|i: int|
                0 <= i < pile.len() ==> #[trigger] state@.track_history[id][i] == pile[i]@
        },
        match state.scene_display_name {
            Some(name) => state@.scene_display_name == Some(name@),
            None => state@.scene_display_name is None,
        },
        match state.drums_name {
            Some(name) => state@.drums_name == Some(name@),
            None => state@.drums_name is None,
        },
{
}

/// The model of what is sent shows every message, in order, with its bytes.
pub proof fn law_the_model_shows_what_is_sent(v: Seq<Output>, i: int)
    ensures
        output::sent(v).len() == v.len(),
        0 <= i < v.len() ==> match v[i] {
            Output::Synth(bytes) => output::sent(v)[i] == Sent::Synth(bytes@),
            Output::Led(bytes) => output::sent(v)[i] == Sent::Led(bytes@),
            Output::PadsRejected(e) => output::sent(v)[i] == Sent::PadsRejected(e.line()),
        },
{
}

/// What was read is handed over as it is, and a complaint as its text.
pub proof fn law_results_say_what_was_read<T>(
    r: Result<T, ReloadError>,
    reading: Result<T, Seq<char>>,
)
    requires
        config::agrees(r, reading),
    ensures
        match reading {
            Ok(v) => r == Ok::<T, ReloadError>(v),
            Err(t) => r matches Err(ReloadError::Parse(m)) && m@ == t,
        },
{
}

/// An error is reported with its kind and its text, and a complaint about a text ends with that text
/// between quotes.
pub proof fn law_complaints_quote_their_text(s: String, what: Seq<char>, ppqn: nat)
    ensures
        ReloadError::Parse(s).line() == "Parse error: "@ + s@,
        ReloadError::Io(s).line() == "IO error: "@ + s@,
        config::complaint(what, s@) == what + s@ + "'"@,
        config::key_reading(s@) matches Err(t) ==> exists|w: Seq<char>| t == #[trigger] (w + s@)
            + "'"@,
        config::fraction_reading(s@, ppqn) matches Err(t) ==> exists|w: Seq<char>| t == #[trigger] (w
            + s@) + "'"@,
{
    let a = "Invalid channel in key binding: '"@;
    let b = "Channel 0 is invalid in key binding: '"@;
    let c = "Invalid CC number in key binding: '"@;
    let d = "Invalid note number in key binding: '"@;
    assert(config::complaint(a, s@) == (a + s@) + "'"@);
    assert(config::complaint(b, s@) == (b + s@) + "'"@);
    assert(config::complaint(c, s@) == (c + s@) + "'"@);
    assert(config::complaint(d, s@) == (d + s@) + "'"@);
    let f = "Invalid length fraction (expected 'N/D'): '"@;
    let g = "Invalid length numerator: '"@;
    let h = "Invalid length denominator: '"@;
    let j = "Length denominator cannot be zero: '"@;
    let k = "Length resolves to zero ticks: '"@;
    assert(config::complaint(f, s@) == (f + s@) + "'"@);
    assert(config::complaint(g, s@) == (g + s@) + "'"@);
    assert(config::complaint(h, s@) == (h + s@) + "'"@);
    assert(config::complaint(j, s@) == (j + s@) + "'"@);
    assert(config::complaint(k, s@) == (k + s@) + "'"@);
}

/// A port that is handed out is the one that was found, with its name.
pub proof fn law_ports_are_handed_out_with_their_names(
    r: Option<(usize, String)>,
    names: Seq<Option<String>>,
    found: Option<int>,
)
    requires
        ports::is_port(r, names, found),
        found matches Some(i) ==> 0 <= i < names.len(),
    ensures
        found is None <==> r is None,
        r matches Some((at, name)) ==> {
            &&& found == Some(at as int)
            &&& names[at as int] matches Some(n)
            &&& name@ == n@
        },
{
}

/// The lists of texts, notes, lines and tracks are seen element by element.
pub proof fn law_lists_are_seen_element_by_element(
    strings: Seq<String>,
    notes: Seq<Vec<u8>>,
    rows: Seq<display::Row>,
    tracks: Seq<Vec<export::SmfEvent>>,
    i: int,
)
    ensures
        config::texts(strings).len() == strings.len(),
        0 <= i < strings.len() ==> config::texts(strings)[i] == strings[i]@,
        config::note_lists(notes).len() == notes.len(),
        0 <= i < notes.len() ==> config::note_lists(notes)[i] == notes[i]@,
        display::row_views(rows).len() == rows.len(),
        0 <= i < rows.len() ==> display::row_views(rows)[i] == (rows[i].text@, rows[i].style),
        export::track_lists(tracks).len() == tracks.len(),
        0 <= i < tracks.len() ==> export::track_lists(tracks)[i] == tracks[i]@,
{
}

/// Whether the ticks of a length can be counted: as many as the numerator of a fraction calls for.
pub open spec fn length_counts(length: Length, ppqn: usize) -> bool {
    match length {
        Length::Ticks(_) => true,
        Length::Fraction(s) => config::fraction_parts(s@) matches Ok((num, den)) ==> num * ppqn * 4
            <= usize::MAX,
    }
}

/// Whether every number of a scene can be counted by the machine.
pub open spec fn scene_counts(config: SceneConfig) -> bool {
    &&& config.ppqn * config.time_signature_numerator <= usize::MAX
    &&& config.max_tracking_beats * config.ppqn <= usize::MAX
    &&& forall|i: int|
        0 <= i < config.tracks@.len() ==> length_counts(
            (#[trigger] config.tracks@[i]).1.length,
            config.ppqn,
        )
    &&& config.drums matches Some(d) ==> (d.length matches Some(l) ==> length_counts(
        l,
        config.ppqn,
    ))
}

/// Every scene whose numbers the machine can count can be loaded, reloaded and adopted, where the
/// span that holds all of its loops can be counted too.
pub proof fn law_scenes_that_count_can_be_loaded(
    e: Engine,
    name: Seq<char>,
    config: SceneConfig,
    idx: usize,
    m: int,
)
    requires
        scene_counts(config),
        0 < m <= usize::MAX,
    ensures
        layout::holds_loops(m, scene::switched(e, name, config, idx), config)
            ==> scene::scene_ready(config),
        layout::holds_loops(m, scene::reloaded(e, config), config) ==> scene::reload_ready(
            e,
            config,
        ),
{
    assert(scene::layout_counts(config)) by {
        assert forall|id: usize| #[trigger] scene::melodic(config, id) implies scene::lane_countable(
            config,
            id,
        ) by {
            scene_laws::lemma_named_at(config.tracks@, text::decimal(id as nat));
        }
    }
    let s = scene::switched(e, name, config, idx);
    let r = scene::reloaded(e, config);
    if layout::holds_loops(m, s, config) {
        assert(s.track_lengths =~= scene::scene_lengths(config));
        lemma_held(m, s, config);
        assert(period::common_multiple(
            m as nat,
            scene::base_ticks(config),
            scene::scene_lengths(config).values(),
        ));
    }
    if layout::holds_loops(m, r, config) {
        lemma_held(m, r, config);
        assert(period::common_multiple(
            m as nat,
            scene::base_ticks(config),
            scene::with_drums(scene::reloaded_lanes(e, config), config).track_lengths.values(),
        ));
    }
}

proof fn lemma_held(m: int, s: Engine, config: SceneConfig)
    requires
        layout::holds_loops(m, s, config),
    ensures
        period::common_multiple(m as nat, scene::base_ticks(config), s.track_lengths.values()),
{
    let values = s.track_lengths.values();
    assert forall|l: usize| #[trigger] values.contains(l) && l > 0 implies (m as nat) % (l as nat)
        == 0 by {
        let id = choose|id: usize| #[trigger]
            s.track_lengths.contains_key(id) && s.track_lengths[id] == l;
        assert(s.track_lengths.contains_key(id));
    }
}

/// The scenes can be adopted where there is one, and where the one that is in use, if it is still
/// among them, can be reloaded.
pub proof fn law_scenes_can_be_adopted(e: Engine, scenes: Seq<(String, SceneConfig)>)
    requires
        scenes.len() > 0,
        forall|i: int|
            0 <= i < scenes.len() ==> scene::reload_ready(e, (#[trigger] scenes[i]).1),
    ensures
        session::adoption_ready(e, scenes),
{
    scene_laws::lemma_named_at(scenes, e.scene_name);
}

/// The screen can be drawn wherever the clock has a resolution, the loop that is shown is not empty,
/// and its strokes can be counted.
pub proof fn law_the_screen_can_be_drawn(e: Engine, timeline_width: usize)
    requires
        e.ppqn > 0,
        screen::loop_shown(e) > 0,
        e.current_tick < usize::MAX,
        (screen::measures_shown(e) - 1) * (if timeline_width >= 32 {
            timeline_width - 20
        } else {
            12
        }) <= usize::MAX,
    ensures
        display::screen_ready(e, timeline_width),
{
    if e.ticks_per_measure > 0 {
        let t = e.ticks_per_measure as int;
        if screen::loop_shown(e) >= t {
            vstd::arithmetic::div_mod::lemma_div_non_zero(screen::loop_shown(e), t);
        } else {
            vstd::arithmetic::div_mod::lemma_basic_div(screen::loop_shown(e), t);
        }
    }
    assert(e.current_tick as int / e.ppqn as int <= e.current_tick) by (nonlinear_arith)
        requires
            e.ppqn > 0,
    ;
}

} // verus!
