//! Loading a scene into the engine: at the start, on a switch, and on a reload.
use crate::config;
use crate::config::{SceneConfig, TomlTrackConfig};
use crate::domain;
use crate::domain::{Engine, EngineState, NoteSet, TrackEvent, VelocityScale};
use crate::output;
use crate::output::{Output, Sent};
use crate::period;
use crate::tables;
use crate::text;
use std::collections::{HashMap, HashSet};
use vstd::prelude::*;

verus! {

/// The largest number among the names of `tracks`.
pub open spec fn largest_id(tracks: Seq<(String, TomlTrackConfig)>) -> Option<nat>
    decreases tracks.len(),
{
    if tracks.len() == 0 {
        None
    } else {
        let rest = largest_id(tracks.drop_last());
        match text::number(tracks.last().0@, usize::MAX as nat) {
            None => rest,
            Some(n) => match rest {
                Some(m) => if m >= n {
                    rest
                } else {
                    Some(n)
                },
                None => Some(n),
            },
        }
    }
}

/// The number of melodic tracks: the largest number among the track names, or one.
pub open spec fn track_count(scene: SceneConfig) -> nat {
    match largest_id(scene.tracks@) {
        Some(n) => n,
        None => 1,
    }
}

pub(crate) fn count_tracks(scene: &SceneConfig) -> (r: usize)
    ensures
        r == track_count(*scene),
{
    let mut largest: Option<usize> = None;
    let mut i: usize = 0;
    assert(scene.tracks@.take(0) =~= Seq::empty());
    while i < scene.tracks.len()
        invariant
            i <= scene.tracks@.len(),
            match largest {
                Some(n) => largest_id(scene.tracks@.take(i as int)) == Some(n as nat),
                None => largest_id(scene.tracks@.take(i as int)) is None,
            },
        decreases scene.tracks@.len() - i,
    {
        assert(scene.tracks@.take(i as int + 1).drop_last() =~= scene.tracks@.take(i as int));
        match text::parse_number(scene.tracks[i].0.as_str(), usize::MAX) {
            None => {},
            Some(n) => {
                largest = match largest {
                    Some(m) => if m >= n {
                        Some(m)
                    } else {
                        Some(n)
                    },
                    None => Some(n),
                };
            },
        }
        i = i + 1;
    }
    assert(scene.tracks@.take(i as int) =~= scene.tracks@);
    match largest {
        Some(n) => n,
        None => 1,
    }
}

/// What a scene sets for one melodic track.
pub struct Lane {
    pub channel: u8,
    pub length: usize,
    pub program: u8,
    pub volume: u8,
    pub velocity: Option<u8>,
    pub scale: Seq<u32>,
    pub name: Option<Seq<char>>,
}

/// `v`, or 127 in its absence.
pub open spec fn or_full(v: Option<u8>) -> u8 {
    match v {
        Some(n) => n,
        None => 127,
    }
}

/// The table of a multiplier, or that of one in its absence.
pub open spec fn scale_or_unit(m: Option<VelocityScale>) -> Seq<u32> {
    match m {
        Some(s) => s@,
        None => domain::unit_scale(),
    }
}

/// The settings that stand in the scene under the number of a track.
pub open spec fn track_config(scene: SceneConfig, id: usize) -> Option<TomlTrackConfig> {
    match config::named_at(scene.tracks@, text::decimal(id as nat)) {
        Some(i) => Some(scene.tracks@[i].1),
        None => None,
    }
}

/// What the scene sets for track `id`; a track that it leaves out has four beats of piano.
pub open spec fn lane(scene: SceneConfig, id: usize) -> Lane {
    match track_config(scene, id) {
        Some(t) => Lane {
            channel: t.channel,
            length: t.length.ticks_or(scene.ppqn as nat, 96),
            program: t.program,
            volume: or_full(t.volume),
            velocity: t.velocity,
            scale: scale_or_unit(t.velocity_multiplier),
            name: domain::name_text(t.name),
        },
        None => Lane {
            channel: 0,
            length: 96,
            program: 0,
            volume: 127,
            velocity: None,
            scale: domain::unit_scale(),
            name: None,
        },
    }
}

struct LaneSetup {
    channel: u8,
    length: usize,
    program: u8,
    volume: u8,
    velocity: Option<u8>,
    scale: VelocityScale,
    name: Option<String>,
}

impl LaneSetup {
    spec fn lane(self) -> Lane {
        Lane {
            channel: self.channel,
            length: self.length,
            program: self.program,
            volume: self.volume,
            velocity: self.velocity,
            scale: self.scale@,
            name: domain::name_text(self.name),
        }
    }
}

pub(crate) fn copy_name(name: &Option<String>) -> (r: Option<String>)
    ensures
        domain::name_text(r) == domain::name_text(*name),
{
    match name {
        Some(s) => Some(s.clone()),
        None => None,
    }
}

fn full_unless(v: Option<u8>) -> (r: u8)
    ensures
        r == or_full(v),
{
    match v {
        Some(n) => n,
        None => 127,
    }
}

fn scale_unless(m: Option<VelocityScale>) -> (r: VelocityScale)
    ensures
        r@ == scale_or_unit(m),
{
    match m {
        Some(s) => s,
        None => VelocityScale::unity(),
    }
}

/// Whether the length of track `id` can be counted in ticks.
pub open spec fn lane_countable(scene: SceneConfig, id: usize) -> bool {
    track_config(scene, id) matches Some(t) ==> t.length.countable(scene.ppqn as nat)
}

fn lane_setup(scene: &SceneConfig, id: usize) -> (r: LaneSetup)
    requires
        lane_countable(*scene, id),
    ensures
        r.lane() == lane(*scene, id),
{
    match config::find_named(&scene.tracks, &text::to_decimal(id as u64)) {
        Some(i) => {
            let t: &TomlTrackConfig = &scene.tracks[i].1;
            LaneSetup {
                channel: t.channel,
                length: t.length.to_ticks_or(scene.ppqn, 96),
                program: t.program,
                volume: full_unless(t.volume),
                velocity: t.velocity,
                scale: scale_unless(t.velocity_multiplier),
                name: copy_name(&t.name),
            }
        },
        None => LaneSetup {
            channel: 0,
            length: 96,
            program: 0,
            volume: 127,
            velocity: None,
            scale: VelocityScale::unity(),
            name: None,
        },
    }
}

/// The messages that set up the synth channels of `tracks`: volume, then program.
pub open spec fn track_patches(tracks: Seq<(String, TomlTrackConfig)>) -> Seq<Sent>
    decreases tracks.len(),
{
    if tracks.len() == 0 {
        Seq::<Sent>::empty()
    } else {
        let rest = track_patches(tracks.drop_last());
        let t = tracks.last().1;
        if text::number(tracks.last().0@, usize::MAX as nat) is Some {
            rest.push(Sent::Synth(seq![0xB0u8 | (t.channel & 0x0F), 7u8, or_full(t.volume)])).push(
                Sent::Synth(seq![0xC0u8 | (t.channel & 0x0F), t.program]),
            )
        } else {
            rest
        }
    }
}

/// The messages that set up the drum channel.
pub open spec fn drum_patches(scene: SceneConfig) -> Seq<Sent> {
    match scene.drums {
        None => Seq::<Sent>::empty(),
        Some(d) => {
            let volume = seq![
                Sent::Synth(seq![0xB0u8 | (d.channel & 0x0F), 7u8, or_full(d.volume)]),
            ];
            match d.program {
                None => volume,
                Some(p) => volume.push(Sent::Synth(seq![0xC0u8 | (d.channel & 0x0F), p])),
            }
        },
    }
}

/// The messages that set up the synth for a scene.
pub open spec fn patches(scene: SceneConfig) -> Seq<Sent> {
    track_patches(scene.tracks@) + drum_patches(scene)
}

/// Sets up the synth for a scene: the volume and the program of every numbered track, then those
/// of the drums.
pub fn load_patches(scene: &SceneConfig) -> (r: Vec<Output>)
    ensures
        output::sent(r@) == patches(*scene),
{
    broadcast use output::lemma_sent_push;
    broadcast use output::lemma_sent_empty;

    let mut out: Vec<Output> = Vec::new();
    let mut i: usize = 0;
    assert(scene.tracks@.take(0) =~= Seq::empty());
    while i < scene.tracks.len()
        invariant
            i <= scene.tracks@.len(),
            output::sent(out@) == track_patches(scene.tracks@.take(i as int)),
        decreases scene.tracks@.len() - i,
    {
        assert(scene.tracks@.take(i as int + 1).drop_last() =~= scene.tracks@.take(i as int));
        if text::parse_number(scene.tracks[i].0.as_str(), usize::MAX).is_some() {
            let t: &TomlTrackConfig = &scene.tracks[i].1;
            let channel: u8 = t.channel & 0x0F;
            out.push(output::synth3(0xB0u8 | channel, 7, full_unless(t.volume)));
            out.push(output::synth2(0xC0u8 | channel, t.program));
        }
        i = i + 1;
    }
    assert(scene.tracks@.take(i as int) =~= scene.tracks@);
    match &scene.drums {
        None => {},
        Some(d) => {
            let channel: u8 = d.channel & 0x0F;
            out.push(output::synth3(0xB0u8 | channel, 7, full_unless(d.volume)));
            match d.program {
                None => {},
                Some(p) => {
                    out.push(output::synth2(0xC0u8 | channel, p));
                },
            }
        },
    }
    assert(output::sent(out@) =~= patches(*scene));
    out
}

/// Whether `id` is the number of a melodic track of the scene.
pub open spec fn melodic(scene: SceneConfig, id: usize) -> bool {
    1 <= id <= track_count(scene)
}

/// The engine with what `l` sets for track `id`, but for its name.
pub open spec fn with_lane(e: Engine, id: usize, l: Lane) -> Engine {
    Engine {
        track_channels: e.track_channels.insert(id, l.channel),
        track_lengths: e.track_lengths.insert(id, l.length),
        track_programs: e.track_programs.insert(id, l.program),
        track_volumes: e.track_volumes.insert(id, l.volume),
        track_velocities: e.track_velocities.insert(id, l.velocity),
        track_velocity_multipliers: e.track_velocity_multipliers.insert(id, l.scale),
        ..e
    }
}

/// The engine with the tracks 1 to `n` of the scene, empty, and no others.
pub open spec fn lanes_up_to(e: Engine, scene: SceneConfig, n: nat) -> Engine {
    Engine {
        track_channels: Map::new(|id: usize| 1 <= id <= n, |id: usize| lane(scene, id).channel),
        tracks: Map::new(|id: usize| 1 <= id <= n, |id: usize| Seq::<TrackEvent>::empty()),
        track_lengths: Map::new(|id: usize| 1 <= id <= n, |id: usize| lane(scene, id).length),
        track_programs: Map::new(|id: usize| 1 <= id <= n, |id: usize| lane(scene, id).program),
        track_volumes: Map::new(|id: usize| 1 <= id <= n, |id: usize| lane(scene, id).volume),
        track_velocities: Map::new(|id: usize| 1 <= id <= n, |id: usize| lane(scene, id).velocity),
        track_velocity_multipliers: Map::new(
            |id: usize| 1 <= id <= n,
            |id: usize| lane(scene, id).scale,
        ),
        track_ids: Seq::new(n, |i: int| (i + 1) as usize),
        track_names: Map::new(
            |id: usize| 1 <= id <= n && lane(scene, id).name is Some,
            |id: usize| lane(scene, id).name->0,
        ),
        ..e
    }
}

/// The engine with the tracks of the scene, empty, and no others.
pub open spec fn fresh_lanes(e: Engine, scene: SceneConfig) -> Engine {
    lanes_up_to(e, scene, track_count(scene))
}

/// The ticks of a measure of the scene.
pub open spec fn measure_ticks(scene: SceneConfig) -> nat {
    (scene.ppqn * scene.time_signature_numerator) as nat
}

/// The ticks after which the clock wraps where no loop is longer.
pub open spec fn base_ticks(scene: SceneConfig) -> nat {
    (scene.max_tracking_beats * scene.ppqn) as nat
}

/// The loop length of the drum lane: as set, or one measure.
pub open spec fn drum_ticks(scene: SceneConfig) -> usize {
    match config::drum_length(scene) {
        Some(l) => l.ticks_or(scene.ppqn as nat, measure_ticks(scene) as usize),
        None => measure_ticks(scene) as usize,
    }
}

/// The engine with the drum lane of the scene. The lane keeps its events only where its length
/// stays the same.
pub open spec fn with_drums(e: Engine, scene: SceneConfig) -> Engine {
    match scene.drums {
        Some(d) => Engine {
            track_channels: e.track_channels.insert(0, d.channel),
            track_lengths: e.track_lengths.insert(0, drum_ticks(scene)),
            tracks: if e.track_lengths.contains_key(0) && e.track_lengths[0] == drum_ticks(scene)
                && e.tracks.contains_key(0) {
                e.tracks
            } else {
                e.tracks.insert(0, Seq::<TrackEvent>::empty())
            },
            drum_velocity: d.velocity,
            drum_velocity_multiplier: scale_or_unit(d.velocity_multiplier),
            drums_name: domain::name_text(d.name),
            ..e
        },
        None => Engine {
            track_channels: e.track_channels.remove(0),
            track_lengths: e.track_lengths.remove(0),
            tracks: e.tracks.remove(0),
            drum_velocity: None,
            drum_velocity_multiplier: domain::unit_scale(),
            drums_name: None,
            ..e
        },
    }
}

/// The engine with the clock period that its loop lengths call for.
pub open spec fn with_period(e: Engine, scene: SceneConfig) -> Engine {
    Engine {
        max_tick: period::period(base_ticks(scene), e.track_lengths.values()) as usize,
        ..e
    }
}

/// Whether the tracks and the drum lane of the scene can be laid out: every number that this
/// takes can be counted.
pub open spec fn layout_counts(scene: SceneConfig) -> bool {
    &&& measure_ticks(scene) <= usize::MAX
    &&& base_ticks(scene) <= usize::MAX
    &&& forall|id: usize| #[trigger] melodic(scene, id) ==> lane_countable(scene, id)
    &&& config::drum_length(scene) matches Some(l) ==> l.countable(scene.ppqn as nat)
}

impl EngineState {
    fn set_lane(&mut self, id: usize, l: &LaneSetup)
        ensures
            final(self)@ == with_lane(old(self)@, id, l.lane()),
    {
        self.track_channels.insert(id, l.channel);
        self.track_lengths.insert(id, l.length);
        self.track_programs.insert(id, l.program);
        self.track_volumes.insert(id, l.volume);
        self.track_velocities.insert(id, l.velocity);
        self.track_velocity_multipliers.insert(id, l.scale);
    }

    fn lay_lanes(&mut self, scene: &SceneConfig)
        requires
            layout_counts(*scene),
        ensures
            final(self)@ == fresh_lanes(old(self)@, *scene),
    {
        let ghost before = self@;
        let count: usize = count_tracks(scene);
        self.track_channels.clear();
        self.tracks.clear();
        self.track_lengths.clear();
        self.track_programs.clear();
        self.track_volumes.clear();
        self.track_velocities.clear();
        self.track_velocity_multipliers.clear();
        self.track_ids.clear();
        self.track_names.clear();
        let mut done: usize = 0;
        assert(self@ =~= lanes_up_to(before, *scene, 0));
        while done < count
            invariant
                done <= count,
                count == track_count(*scene),
                layout_counts(*scene),
                self@ == lanes_up_to(before, *scene, done as nat),
            decreases count - done,
        {
            let id: usize = done + 1;
            assert(melodic(*scene, id));
            let l: LaneSetup = lane_setup(scene, id);
            self.set_lane(id, &l);
            self.put_name(id, l.name);
            self.put_events(id, Vec::new());
            self.track_ids.push(id);
            assert(self@ =~= lanes_up_to(before, *scene, id as nat));
            done = id;
        }
    }

    fn set_drums(&mut self, scene: &SceneConfig)
        requires
            layout_counts(*scene),
        ensures
            final(self)@ == with_drums(old(self)@, *scene),
    {
        match &scene.drums {
            Some(d) => {
                let measure: usize = scene.ppqn * scene.time_signature_numerator as usize;
                let length: usize = match &d.length {
                    Some(l) => l.to_ticks_or(scene.ppqn, measure),
                    None => measure,
                };
                let kept: bool = match self.track_lengths.get(&0) {
                    Some(old_length) => *old_length == length && self.tracks.contains_key(&0),
                    None => false,
                };
                self.track_channels.insert(0, d.channel);
                self.track_lengths.insert(0, length);
                self.drum_velocity = d.velocity;
                self.drum_velocity_multiplier = scale_unless(d.velocity_multiplier);
                self.drums_name = copy_name(&d.name);
                if !kept {
                    let none: Vec<TrackEvent> = Vec::new();
                    self.tracks.insert(0, none);
                }
            },
            None => {
                self.tracks.remove(&0);
                self.track_channels.remove(&0);
                self.track_lengths.remove(&0);
                self.drum_velocity = None;
                self.drum_velocity_multiplier = VelocityScale::unity();
                self.drums_name = None;
            },
        }
    }

    fn set_period(&mut self, scene: &SceneConfig)
        requires
            base_ticks(*scene) <= usize::MAX,
            period::period_fits(base_ticks(*scene), old(self)@.track_lengths.values()),
        ensures
            final(self)@ == with_period(old(self)@, *scene),
    {
        let lengths: Vec<usize> = tables::values_of(&self.track_lengths);
        self.max_tick =
        period::compute_max_tick(scene.max_tracking_beats * scene.ppqn, lengths.as_slice());
    }
}

/// The loop lengths of a scene, by track.
pub open spec fn scene_lengths(scene: SceneConfig) -> Map<usize, usize> {
    Map::new(
        |id: usize| melodic(scene, id) || (id == 0 && scene.drums is Some),
        |id: usize|
            if id == 0 {
                drum_ticks(scene)
            } else {
                lane(scene, id).length
            },
    )
}

/// Whether a scene can be loaded: every number that this takes can be counted.
pub open spec fn scene_ready(scene: SceneConfig) -> bool {
    &&& layout_counts(scene)
    &&& period::period_fits(base_ticks(scene), scene_lengths(scene).values())
}

/// A fresh layout has the loop lengths of the scene.
proof fn lemma_fresh_lengths(e: Engine, scene: SceneConfig)
    ensures
        with_drums(fresh_lanes(e, scene), scene).track_lengths == scene_lengths(scene),
{
    assert(with_drums(fresh_lanes(e, scene), scene).track_lengths =~= scene_lengths(scene));
}

/// The engine after a switch to a scene. What is played by hand stays: the keys that are down,
/// the modifier, quantizing, and the resolution of the clock.
pub open spec fn switched(e: Engine, name: Seq<char>, scene: SceneConfig, idx: usize) -> Engine {
    let cleared = Engine {
        current_scene_idx: idx,
        scene_name: name,
        scene_display_name: domain::name_text(scene.name),
        bpm: scene.bpm,
        time_signature_numerator: scene.time_signature_numerator,
        time_signature_denominator: scene.time_signature_denominator,
        ticks_per_measure: measure_ticks(scene) as usize,
        metronome_on: scene.metronome_on,
        active_track: 1,
        is_recording: false,
        pending_record: false,
        record_armed_at: None,
        current_tick: 0,
        track_history: Map::empty(),
        muted_tracks: Set::empty(),
        loop_start_lens: Map::empty(),
        held_notes: Map::empty(),
        ..e
    };
    with_period(with_drums(fresh_lanes(cleared, scene), scene), scene)
}

impl EngineState {
    fn load_scene(&mut self, name: &String, scene: &SceneConfig, idx: usize)
        requires
            scene_ready(*scene),
        ensures
            final(self)@ == switched(old(self)@, name@, *scene, idx),
    {
        self.current_scene_idx = idx;
        self.scene_name = name.clone();
        self.scene_display_name = copy_name(&scene.name);
        self.bpm = scene.bpm;
        self.time_signature_numerator = scene.time_signature_numerator;
        self.time_signature_denominator = scene.time_signature_denominator;
        self.ticks_per_measure = scene.ppqn * scene.time_signature_numerator as usize;
        self.metronome_on = scene.metronome_on;
        self.active_track = 1;
        self.is_recording = false;
        self.pending_record = false;
        self.record_armed_at = None;
        self.current_tick = 0;
        self.track_history.clear();
        self.muted_tracks.clear();
        self.loop_start_lens.clear();
        self.held_notes.clear();
        assert(self@.track_history =~= Map::empty());
        assert(self@.held_notes =~= Map::empty());
        let ghost cleared = self@;
        self.lay_lanes(scene);
        self.set_drums(scene);
        proof {
            lemma_fresh_lengths(cleared, *scene);
        }
        self.set_period(scene);
    }
}

/// Switches to the scene at `new_idx`, wiping every recording, and sets up the synth for it.
pub fn switch_scene(
    state: &mut EngineState,
    scenes: &[(String, SceneConfig)],
    new_idx: usize,
) -> (r: Vec<Output>)
    requires
        scenes@.len() > 0 ==> new_idx < scenes@.len() && scene_ready(scenes@[new_idx as int].1),
    ensures
        scenes@.len() == 0 ==> final(state)@ == old(state)@ && r@.len() == 0,
        scenes@.len() > 0 ==> {
            let (name, scene) = scenes@[new_idx as int];
            &&& final(state)@ == switched(old(state)@, name@, scene, new_idx)
            &&& output::sent(r@) == patches(scene)
        },
{
    if scenes.len() == 0 {
        return Vec::new();
    }
    let entry: &(String, SceneConfig) = &scenes[new_idx];
    state.load_scene(&entry.0, &entry.1, new_idx);
    load_patches(&entry.1)
}

/// The engine before any scene is loaded.
pub open spec fn blank(arm_time: u128) -> Engine {
    Engine {
        bpm: 0,
        ppqn: 0,
        time_signature_numerator: 0,
        time_signature_denominator: 0,
        ticks_per_measure: 0,
        max_tick: 0,
        current_tick: 0,
        is_recording: false,
        pending_record: false,
        record_armed_at: None,
        record_arm_time: arm_time,
        metronome_on: false,
        quantize_on: false,
        active_track: 1,
        track_channels: Map::empty(),
        tracks: Map::empty(),
        track_lengths: Map::empty(),
        track_programs: Map::empty(),
        track_volumes: Map::empty(),
        track_velocities: Map::empty(),
        track_velocity_multipliers: Map::empty(),
        drum_velocity: None,
        drum_velocity_multiplier: domain::unit_scale(),
        track_history: Map::empty(),
        muted_tracks: Set::empty(),
        loop_start_lens: Map::empty(),
        held_notes: Map::empty(),
        physically_held: Seq::empty(),
        shift_held: false,
        current_scene_idx: 0,
        scene_name: Seq::empty(),
        scene_display_name: None,
        track_ids: Seq::empty(),
        track_names: Map::empty(),
        drums_name: None,
    }
}

/// The engine at the start: the first scene is loaded, and the clock runs at its resolution.
pub open spec fn started(name: Seq<char>, scene: SceneConfig, arm_time: u128) -> Engine {
    Engine { ppqn: scene.ppqn, ..switched(blank(arm_time), name, scene, 0) }
}

impl EngineState {
    /// The engine at the start, with the first scene loaded.
    pub fn start(name: &String, scene: &SceneConfig, arm_time: u128) -> (r: EngineState)
        requires
            scene_ready(*scene),
        ensures
            r@ == started(name@, *scene, arm_time),
    {
        let mut state: EngineState = EngineState {
            bpm: 0,
            ppqn: 0,
            time_signature_numerator: 0,
            time_signature_denominator: 0,
            ticks_per_measure: 0,
            max_tick: 0,
            current_tick: 0,
            is_recording: false,
            pending_record: false,
            record_armed_at: None,
            record_arm_time: arm_time,
            metronome_on: false,
            quantize_on: false,
            active_track: 1,
            track_channels: HashMap::new(),
            tracks: HashMap::new(),
            track_lengths: HashMap::new(),
            track_programs: HashMap::new(),
            track_volumes: HashMap::new(),
            track_velocities: HashMap::new(),
            track_velocity_multipliers: HashMap::new(),
            drum_velocity: None,
            drum_velocity_multiplier: VelocityScale::unity(),
            track_history: HashMap::new(),
            muted_tracks: HashSet::new(),
            loop_start_lens: HashMap::new(),
            held_notes: HashMap::new(),
            physically_held: NoteSet::new(),
            shift_held: false,
            current_scene_idx: 0,
            scene_name: String::new(),
            scene_display_name: None,
            track_ids: Vec::new(),
            track_names: HashMap::new(),
            drums_name: None,
        };
        assert(state@ =~= blank(arm_time));
        state.load_scene(name, scene, 0);
        state.ppqn = scene.ppqn;
        state
    }
}

/// `m` without the entries of those of `ids` that are above `n`.
pub open spec fn trimmed<V>(m: Map<usize, V>, ids: Seq<usize>, n: nat) -> Map<usize, V> {
    m.remove_keys(above(ids, n))
}

/// Those of `ids` that are above `n`.
pub open spec fn above(ids: Seq<usize>, n: nat) -> Set<usize> {
    ids.to_set().filter(|id: usize| id > n)
}

/// The engine without those of the tracks `ids` that are above `n`.
pub open spec fn without_above(e: Engine, ids: Seq<usize>, n: nat) -> Engine {
    Engine {
        tracks: trimmed(e.tracks, ids, n),
        track_channels: trimmed(e.track_channels, ids, n),
        track_lengths: trimmed(e.track_lengths, ids, n),
        track_programs: trimmed(e.track_programs, ids, n),
        track_volumes: trimmed(e.track_volumes, ids, n),
        track_velocities: trimmed(e.track_velocities, ids, n),
        track_velocity_multipliers: trimmed(e.track_velocity_multipliers, ids, n),
        track_history: trimmed(e.track_history, ids, n),
        muted_tracks: e.muted_tracks.difference(above(ids, n)),
        track_names: trimmed(e.track_names, ids, n),
        ..e
    }
}

/// Whether track `id` has the length that the scene sets for it.
pub open spec fn same_length(e: Engine, scene: SceneConfig, id: usize) -> bool {
    e.track_lengths.contains_key(id) && e.track_lengths[id] == lane(scene, id).length
}

/// The engine with track `id` brought in line with the scene. Its recordings stay where its
/// length stays the same.
pub open spec fn with_lane_updated(e: Engine, scene: SceneConfig, id: usize) -> Engine {
    let l = lane(scene, id);
    Engine {
        track_names: match l.name {
            Some(n) => e.track_names.insert(id, n),
            None => e.track_names.remove(id),
        },
        tracks: if same_length(e, scene, id) && e.tracks.contains_key(id) {
            e.tracks
        } else {
            e.tracks.insert(id, Seq::<TrackEvent>::empty())
        },
        track_history: if same_length(e, scene, id) {
            e.track_history
        } else {
            e.track_history.remove(id)
        },
        ..with_lane(e, id, l)
    }
}

/// The engine with the tracks 1 to `n` brought in line with the scene.
pub open spec fn lanes_updated(e: Engine, scene: SceneConfig, n: nat) -> Engine
    decreases n,
{
    if n == 0 {
        e
    } else {
        with_lane_updated(lanes_updated(e, scene, (n - 1) as nat), scene, n as usize)
    }
}

/// The engine with its melodic tracks brought in line with the scene. Tracks that the scene does
/// not have go; where the active track is among them, the first becomes active.
pub open spec fn lanes_diffed(e: Engine, scene: SceneConfig) -> Engine {
    let n = track_count(scene);
    let d = without_above(lanes_updated(e, scene, n), e.track_ids, n);
    Engine {
        track_ids: Seq::new(n, |i: int| (i + 1) as usize),
        active_track: if d.track_channels.contains_key(d.active_track) {
            d.active_track
        } else {
            1
        },
        ..d
    }
}

/// Whether the scene counts time in another way than the engine does.
pub open spec fn timing_changed(e: Engine, scene: SceneConfig) -> bool {
    e.ppqn != scene.ppqn || e.ticks_per_measure != measure_ticks(scene)
}

/// The engine with the melodic tracks of a reloaded scene.
pub open spec fn reloaded_lanes(e: Engine, scene: SceneConfig) -> Engine {
    let swapped = Engine {
        bpm: scene.bpm,
        metronome_on: scene.metronome_on,
        ppqn: scene.ppqn,
        time_signature_numerator: scene.time_signature_numerator,
        time_signature_denominator: scene.time_signature_denominator,
        ticks_per_measure: measure_ticks(scene) as usize,
        scene_display_name: domain::name_text(scene.name),
        ..e
    };
    if timing_changed(e, scene) {
        fresh_lanes(
            Engine {
                current_tick: 0,
                track_history: Map::empty(),
                muted_tracks: Set::empty(),
                ..swapped
            },
            scene,
        )
    } else {
        lanes_diffed(swapped, scene)
    }
}

/// The engine after a reload of its scene. Recordings stay unless the timing or the length of
/// their track changed.
pub open spec fn reloaded(e: Engine, scene: SceneConfig) -> Engine {
    with_period(with_drums(reloaded_lanes(e, scene), scene), scene)
}

/// Whether the engine can take a reload of its scene: every number that this takes can be
/// counted.
pub open spec fn reload_ready(e: Engine, scene: SceneConfig) -> bool {
    &&& layout_counts(scene)
    &&& period::period_fits(
        base_ticks(scene),
        with_drums(reloaded_lanes(e, scene), scene).track_lengths.values(),
    )
}

impl EngineState {
    fn update_lane(&mut self, scene: &SceneConfig, id: usize)
        requires
            lane_countable(*scene, id),
        ensures
            final(self)@ == with_lane_updated(old(self)@, *scene, id),
    {
        let l: LaneSetup = lane_setup(scene, id);
        let same: bool = match self.track_lengths.get(&id) {
            Some(old_length) => *old_length == l.length,
            None => false,
        };
        self.set_lane(id, &l);
        self.put_name(id, l.name);
        if !same {
            self.put_events(id, Vec::new());
            self.track_history.remove(&id);
            assert(self@.track_history =~= old(self)@.track_history.remove(id));
        } else if !self.tracks.contains_key(&id) {
            self.put_events(id, Vec::new());
        }
    }

    fn drop_lane(&mut self, id: usize)
        ensures
            final(self)@ == (Engine {
                tracks: old(self)@.tracks.remove(id),
                track_channels: old(self)@.track_channels.remove(id),
                track_lengths: old(self)@.track_lengths.remove(id),
                track_programs: old(self)@.track_programs.remove(id),
                track_volumes: old(self)@.track_volumes.remove(id),
                track_velocities: old(self)@.track_velocities.remove(id),
                track_velocity_multipliers: old(self)@.track_velocity_multipliers.remove(id),
                track_history: old(self)@.track_history.remove(id),
                muted_tracks: old(self)@.muted_tracks.remove(id),
                track_names: old(self)@.track_names.remove(id),
                ..old(self)@
            }),
    {
        self.drop_events(id);
        self.track_channels.remove(&id);
        self.track_lengths.remove(&id);
        self.track_programs.remove(&id);
        self.track_volumes.remove(&id);
        self.track_velocities.remove(&id);
        self.track_velocity_multipliers.remove(&id);
        self.track_history.remove(&id);
        self.muted_tracks.remove(&id);
        self.track_names.remove(&id);
        assert(self@.track_velocity_multipliers
            =~= old(self)@.track_velocity_multipliers.remove(id));
        assert(self@.track_history =~= old(self)@.track_history.remove(id));
        assert(self@.track_names =~= old(self)@.track_names.remove(id));
    }

    fn update_lanes(&mut self, scene: &SceneConfig, count: usize) -> (ids: Vec<usize>)
        requires
            count == track_count(*scene),
            layout_counts(*scene),
        ensures
            final(self)@ == lanes_updated(old(self)@, *scene, count as nat),
            ids@ == Seq::new(count as nat, |i: int| (i + 1) as usize),
    {
        let ghost before = self@;
        let mut ids: Vec<usize> = Vec::new();
        let mut done: usize = 0;
        while done < count
            invariant
                done <= count,
                count == track_count(*scene),
                layout_counts(*scene),
                self@ == lanes_updated(before, *scene, done as nat),
                ids@ == Seq::new(done as nat, |i: int| (i + 1) as usize),
            decreases count - done,
        {
            let id: usize = done + 1;
            assert(melodic(*scene, id));
            self.update_lane(scene, id);
            ids.push(id);
            done = id;
        }
        ids
    }

    fn drop_lanes_above(&mut self, ids: &Vec<usize>, count: usize)
        ensures
            final(self)@ == without_above(old(self)@, ids@, count as nat),
    {
        let ghost before = self@;
        let mut i: usize = 0;
        assert(self@ =~= without_above(before, ids@.take(0), count as nat));
        while i < ids.len()
            invariant
                i <= ids@.len(),
                self@ == without_above(before, ids@.take(i as int), count as nat),
            decreases ids@.len() - i,
        {
            let id: usize = ids[i];
            if id > count {
                self.drop_lane(id);
            }
            assert(ids@.take(i as int + 1) =~= ids@.take(i as int).push(id));
            proof {
                lemma_drop_one(before, ids@.take(i as int), id, count as nat);
            }
            i = i + 1;
        }
        assert(ids@.take(i as int) =~= ids@);
    }

    fn diff_lanes(&mut self, scene: &SceneConfig)
        requires
            layout_counts(*scene),
        ensures
            final(self)@ == lanes_diffed(old(self)@, *scene),
    {
        let count: usize = count_tracks(scene);
        let mut old_ids: Vec<usize> = self.update_lanes(scene, count);
        proof {
            lemma_update_keeps_ids(old(self)@, *scene, count as nat);
        }
        std::mem::swap(&mut old_ids, &mut self.track_ids);
        self.drop_lanes_above(&old_ids, count);
        if !self.track_channels.contains_key(&self.active_track) {
            self.active_track = 1;
        }
    }
}

/// Bringing tracks in line leaves the list of tracks alone.
proof fn lemma_update_keeps_ids(e: Engine, scene: SceneConfig, n: nat)
    ensures
        lanes_updated(e, scene, n).track_ids == e.track_ids,
    decreases n,
{
    if n > 0 {
        lemma_update_keeps_ids(e, scene, (n - 1) as nat);
    }
}

/// Bringing tracks in line sets their lengths and no others.
pub proof fn lemma_updated_lengths(e: Engine, scene: SceneConfig, n: nat)
    requires
        n <= usize::MAX,
    ensures
        lanes_updated(e, scene, n).track_lengths == Map::new(
            |id: usize| 1 <= id <= n || e.track_lengths.contains_key(id),
            |id: usize|
                if 1 <= id <= n {
                    lane(scene, id).length
                } else {
                    e.track_lengths[id]
                },
        ),
    decreases n,
{
    let all = Map::new(
        |id: usize| 1 <= id <= n || e.track_lengths.contains_key(id),
        |id: usize|
            if 1 <= id <= n {
                lane(scene, id).length
            } else {
                e.track_lengths[id]
            },
    );
    if n > 0 {
        lemma_updated_lengths(e, scene, (n - 1) as nat);
    }
    assert(lanes_updated(e, scene, n).track_lengths =~= all);
}

/// Going through one more track takes it away where it is above `n`.
proof fn lemma_drop_one(e: Engine, ids: Seq<usize>, id: usize, n: nat)
    ensures
        id <= n ==> without_above(e, ids.push(id), n) == without_above(e, ids, n),
        id > n ==> without_above(e, ids.push(id), n) == {
            let d = without_above(e, ids, n);
            Engine {
                tracks: d.tracks.remove(id),
                track_channels: d.track_channels.remove(id),
                track_lengths: d.track_lengths.remove(id),
                track_programs: d.track_programs.remove(id),
                track_volumes: d.track_volumes.remove(id),
                track_velocities: d.track_velocities.remove(id),
                track_velocity_multipliers: d.track_velocity_multipliers.remove(id),
                track_history: d.track_history.remove(id),
                muted_tracks: d.muted_tracks.remove(id),
                track_names: d.track_names.remove(id),
                ..d
            }
        },
{
    let more = above(ids.push(id), n);
    assert forall|k: usize| #[trigger] more.contains(k) <==> above(ids, n).contains(k) || (k == id
        && id > n) by {
        if ids.contains(k) {
            let j = choose|j: int| 0 <= j < ids.len() && ids[j] == k;
            assert(ids.push(id)[j] == k);
        }
        assert(ids.push(id)[ids.len() as int] == id);
    }
    let d = without_above(e, ids, n);
    if id <= n {
        assert(more =~= above(ids, n));
    } else {
        assert(more =~= above(ids, n).insert(id));
        assert(trimmed(e.tracks, ids.push(id), n) =~= d.tracks.remove(id));
        assert(trimmed(e.track_channels, ids.push(id), n) =~= d.track_channels.remove(id));
        assert(trimmed(e.track_lengths, ids.push(id), n) =~= d.track_lengths.remove(id));
        assert(trimmed(e.track_programs, ids.push(id), n) =~= d.track_programs.remove(id));
        assert(trimmed(e.track_volumes, ids.push(id), n) =~= d.track_volumes.remove(id));
        assert(trimmed(e.track_velocities, ids.push(id), n) =~= d.track_velocities.remove(id));
        assert(trimmed(e.track_velocity_multipliers, ids.push(id), n)
            =~= d.track_velocity_multipliers.remove(id));
        assert(trimmed(e.track_history, ids.push(id), n) =~= d.track_history.remove(id));
        assert(e.muted_tracks.difference(more) =~= d.muted_tracks.remove(id));
        assert(trimmed(e.track_names, ids.push(id), n) =~= d.track_names.remove(id));
    }
}

/// Brings the engine in line with a changed scene, and sets up the synth for it. Recordings stay
/// unless the timing or the length of their track changed.
pub fn apply_scene_reload(state: &mut EngineState, new_scene: &SceneConfig) -> (r: Vec<Output>)
    requires
        reload_ready(old(state)@, *new_scene),
    ensures
        final(state)@ == reloaded(old(state)@, *new_scene),
        output::sent(r@) == patches(*new_scene),
{
    let measure: usize = new_scene.ppqn * new_scene.time_signature_numerator as usize;
    let changed: bool = state.ppqn != new_scene.ppqn || state.ticks_per_measure != measure;
    state.bpm = new_scene.bpm;
    state.metronome_on = new_scene.metronome_on;
    state.ppqn = new_scene.ppqn;
    state.time_signature_numerator = new_scene.time_signature_numerator;
    state.time_signature_denominator = new_scene.time_signature_denominator;
    state.ticks_per_measure = measure;
    state.scene_display_name = copy_name(&new_scene.name);
    if changed {
        state.current_tick = 0;
        state.track_history.clear();
        state.muted_tracks.clear();
        assert(state@.track_history =~= Map::empty());
        state.lay_lanes(new_scene);
    } else {
        state.diff_lanes(new_scene);
    }
    assert(state@ == reloaded_lanes(old(state)@, *new_scene));
    state.set_drums(new_scene);
    state.set_period(new_scene);
    load_patches(new_scene)
}

} // verus!
