//! Keeping a running looper in line with its files and ports.
use crate::config;
use crate::config::{DurationNumber, HardwareConfig, LedConfig, ReloadError, SceneConfig};
use crate::domain;
use crate::domain::{Engine, EngineState};
use crate::output;
use crate::output::{Output, Sent};
use crate::readiness;
use crate::scene;
use vstd::prelude::*;

verus! {

/// The engine after the scenes were read anew. Where its scene is still among them, by name, it
/// takes the reloaded settings; else it takes the name and the place of the first scene and plays
/// on.
pub open spec fn adopted(e: Engine, scenes: Seq<(String, SceneConfig)>) -> Engine {
    match config::named_at(scenes, e.scene_name) {
        Some(i) => Engine { current_scene_idx: i as usize, ..scene::reloaded(e, scenes[i].1) },
        None => Engine {
            current_scene_idx: 0,
            scene_name: scenes[0].0@,
            scene_display_name: domain::name_text(scenes[0].1.name),
            ..e
        },
    }
}

/// What is sent when the scenes were read anew.
pub open spec fn adoption_messages(e: Engine, scenes: Seq<(String, SceneConfig)>) -> Seq<Sent> {
    match config::named_at(scenes, e.scene_name) {
        Some(i) => scene::patches(scenes[i].1),
        None => Seq::empty(),
    }
}

/// Whether the engine can take scenes that were read anew.
pub open spec fn adoption_ready(e: Engine, scenes: Seq<(String, SceneConfig)>) -> bool {
    &&& scenes.len() > 0
    &&& config::named_at(scenes, e.scene_name) matches Some(i) ==> scene::reload_ready(
        e,
        scenes[i].1,
    )
}

/// Takes scenes that were read anew.
pub fn adopt_scenes(state: &mut EngineState, scenes: &Vec<(String, SceneConfig)>) -> (r: Vec<
    Output,
>)
    requires
        adoption_ready(old(state)@, scenes@),
    ensures
        final(state)@ == adopted(old(state)@, scenes@),
        output::sent(r@) == adoption_messages(old(state)@, scenes@),
{
    broadcast use output::lemma_sent_empty;

    match config::find_named(scenes, &state.scene_name) {
        Some(i) => {
            let out: Vec<Output> = scene::apply_scene_reload(state, &scenes[i].1);
            state.current_scene_idx = i;
            out
        },
        None => {
            state.current_scene_idx = 0;
            state.scene_name = scenes[0].0.clone();
            state.scene_display_name = scene::copy_name(&scenes[0].1.name);
            Vec::new()
        },
    }
}

/// Whether the engine can take scenes that were read anew.
pub fn adoption_is_ready(state: &EngineState, scenes: &Vec<(String, SceneConfig)>) -> (r: bool)
    ensures
        r == adoption_ready(state@, scenes@),
{
    scenes.len() > 0 && match config::find_named(scenes, &state.scene_name) {
        Some(i) => readiness::reload_is_ready(state, &scenes[i].1),
        None => true,
    }
}

/// The place of the scene in use among `count` scenes, which is `idx` where there is one.
pub open spec fn place_in_use(idx: usize, count: usize) -> usize {
    if idx < count {
        idx
    } else {
        0
    }
}

/// The place of the scene in use among `count` scenes: the first where the engine's is gone.
pub fn scene_in_use(state: &EngineState, count: usize) -> (r: usize)
    ensures
        r == place_in_use(state@.current_scene_idx, count),
{
    if state.current_scene_idx < count {
        state.current_scene_idx
    } else {
        0
    }
}

/// Whether a port drops a message: its channel, counted from one, is among the excluded ones.
pub open spec fn is_excluded(message: Seq<u8>, excluded: Seq<u8>) -> bool {
    message.len() > 0 && excluded.contains(((message[0] & 0x0F) + 1) as u8)
}

/// Whether a port drops a message.
pub fn drops_message(message: &[u8], exclude_channels: &Vec<u8>) -> (r: bool)
    ensures
        r == is_excluded(message@, exclude_channels@),
{
    if message.len() == 0 {
        return false;
    }
    let status: u8 = message[0];
    assert(status & 0x0F <= 15) by (bit_vector);
    let channel: u8 = (status & 0x0F) + 1;
    let mut i: usize = 0;
    while i < exclude_channels.len()
        invariant
            i <= exclude_channels@.len(),
            message@.len() > 0,
            channel == ((message@[0] & 0x0F) + 1) as u8,
            forall|j: int| 0 <= j < i ==> exclude_channels@[j] != channel,
        decreases exclude_channels@.len() - i,
    {
        if exclude_channels[i] == channel {
            return true;
        }
        i = i + 1;
    }
    false
}

/// What is said of the file `path`, of the kind that `what` names.
pub open spec fn said_of(what: Seq<char>, path: Seq<char>, text: Seq<char>) -> Seq<char> {
    what + path + "': "@ + text
}

fn say_of(what: &str, path: &str, text: &str) -> (r: ReloadError)
    ensures
        config::says(r, said_of(what@, path@, text@)),
{
    let mut m: String = String::new();
    m.append(what);
    m.append(path);
    m.append("': ");
    m.append(text);
    assert(m@ =~= said_of(what@, path@, text@));
    ReloadError::Parse(m)
}

/// The scene that is taken from the file `path`, or the complaint about it.
pub open spec fn scene_taken(path: Seq<char>, read: Result<SceneConfig, String>) -> Result<
    SceneConfig,
    Seq<char>,
> {
    match read {
        Err(complaint) => Err(said_of("Scene '"@, path, complaint@)),
        Ok(scene) => match config::scene_length_error(scene) {
            None => Ok(scene),
            Some(t) => Err(said_of("Scene '"@, path, "Parse error: "@ + t)),
        },
    }
}

/// The hardware settings that are taken from the file `path`, or the complaint about them.
pub open spec fn hardware_taken(path: Seq<char>, read: Result<HardwareConfig, String>) -> Result<
    HardwareConfig,
    Seq<char>,
> {
    match read {
        Err(complaint) => Err(said_of("Hardware '"@, path, complaint@)),
        Ok(hw) => Ok(hw),
    }
}

/// Takes the scene that was read from the file `path`, or the complaint of the reader. A scene
/// with a length that does not resolve is refused.
pub fn accept_scene(path: &str, read: Result<SceneConfig, String>) -> (r: Result<
    SceneConfig,
    ReloadError,
>)
    requires
        read matches Ok(scene) ==> config::scene_countable(scene),
    ensures
        config::agrees(r, scene_taken(path@, read)),
{
    match read {
        Err(complaint) => Err(say_of("Scene '", path, complaint.as_str())),
        Ok(scene) => match config::try_validate_scene_lengths(&scene) {
            Ok(_) => Ok(scene),
            Err(e) => {
                let line: String = e.to_text();
                Err(say_of("Scene '", path, line.as_str()))
            },
        },
    }
}

/// Takes the hardware settings that were read from the file `path`, or the complaint of the
/// reader.
pub fn accept_hardware(path: &str, read: Result<HardwareConfig, String>) -> (r: Result<
    HardwareConfig,
    ReloadError,
>)
    ensures
        config::agrees(r, hardware_taken(path@, read)),
{
    match read {
        Err(complaint) => Err(say_of("Hardware '", path, complaint.as_str())),
        Ok(hw) => Ok(hw),
    }
}

/// The least time from arming to punch-in, in nanoseconds: none where the hardware sets none.
pub open spec fn arm_time_reading(
    arm_time: Option<String>,
    number: Option<DurationNumber>,
) -> Result<u128, Seq<char>> {
    match arm_time {
        None => Ok(0),
        Some(s) => config::duration_reading(s@, number),
    }
}

/// Reads the least time from arming to punch-in. Where it is set, its number was read as `number`.
pub fn read_arm_time(arm_time: &Option<String>, number: Option<DurationNumber>) -> (r: Result<
    u128,
    ReloadError,
>)
    ensures
        config::agrees(r, arm_time_reading(*arm_time, number)),
{
    match arm_time {
        None => Ok(0),
        Some(s) => config::try_parse_duration(s.as_str(), number),
    }
}

/// The first position at which a scene could not be read.
pub open spec fn first_unread(read: Seq<(String, Result<SceneConfig, ReloadError>)>) -> Option<int>
    decreases read.len(),
{
    if read.len() == 0 {
        None
    } else if read[0].1 is Err {
        Some(0)
    } else {
        match first_unread(read.drop_first()) {
            Some(i) => Some(i + 1),
            None => None,
        }
    }
}

/// The scenes of `read`, all of which could be read.
pub open spec fn scenes_of(read: Seq<(String, Result<SceneConfig, ReloadError>)>) -> Seq<
    (String, SceneConfig),
> {
    read.map_values(|r: (String, Result<SceneConfig, ReloadError>)| (r.0, r.1->Ok_0))
}

/// Takes scenes that were read, each with its name, where all of them could be; else the complaint
/// about the first that could not.
pub fn collect_scenes(read: Vec<(String, Result<SceneConfig, ReloadError>)>) -> (r: Result<
    Vec<(String, SceneConfig)>,
    ReloadError,
>)
    ensures
        match first_unread(read@) {
            None => r matches Ok(scenes) && scenes@ == scenes_of(read@),
            Some(i) => r matches Err(e) && 0 <= i < read@.len() && read@[i].1 == Err::<
                SceneConfig,
                ReloadError,
            >(e),
        },
{
    let ghost all = read@;
    let mut rest: Vec<(String, Result<SceneConfig, ReloadError>)> = read;
    let mut scenes: Vec<(String, SceneConfig)> = Vec::new();
    assert(all.skip(0) =~= all);
    while rest.len() > 0
        invariant
            all == read@,
            scenes@.len() + rest@.len() == all.len(),
            rest@ == all.skip(scenes@.len() as int),
            scenes@ == scenes_of(all).take(scenes@.len() as int),
            first_unread(all) == match first_unread(rest@) {
                Some(i) => Some(i + scenes@.len()),
                None => None,
            },
        decreases rest@.len(),
    {
        let ghost before = rest@;
        let ghost done = scenes@.len() as int;
        let (name, scene) = rest.remove(0);
        assert((name, scene) == all[done]);
        assert(rest@ =~= before.drop_first());
        match scene {
            Ok(scene) => {
                scenes.push((name, scene));
                assert(scenes_of(all)[done] == (name, scene));
                assert(scenes@ =~= scenes_of(all).take(done + 1));
                assert(rest@ =~= all.skip(done + 1));
            },
            Err(e) => {
                assert(first_unread(before) == Some(0int));
                return Err(e);
            },
        }
    }
    assert(scenes@ =~= scenes_of(all));
    Ok(scenes)
}

/// What is sent when the lights are connected: the light of the metronome, where it has one, on
/// the channel for on or for off.
pub open spec fn connect_message(e: Engine, led: LedConfig, note: Option<u8>) -> Seq<Sent> {
    match note {
        Some(n) => seq![
            output::led_message(
                n,
                ((if e.metronome_on {
                    led.on_channel
                } else {
                    led.off_channel
                }) - 1) as u8,
            ),
        ],
        None => Seq::empty(),
    }
}

/// Sets the light of the metronome once the lights are connected.
pub fn light_metronome(state: &EngineState, led: &LedConfig, note: Option<u8>) -> (r: Vec<Output>)
    requires
        led.on_channel >= 1,
        led.off_channel >= 1,
    ensures
        output::sent(r@) == connect_message(state@, *led, note),
{
    broadcast use output::lemma_sent_push;
    broadcast use output::lemma_sent_empty;

    let mut out: Vec<Output> = Vec::new();
    match note {
        Some(n) => {
            let channel: u8 = if state.metronome_on {
                led.on_channel
            } else {
                led.off_channel
            };
            out.push(output::send_led(n, channel - 1));
        },
        None => {},
    }
    assert(output::sent(out@) =~= connect_message(state@, *led, note));
    out
}

} // verus!
