use rsll::clock::{clock_tick, pace};
use rsll::config::{
    default_scene, parse_key, DrumsConfig, KeyMappings, LedConfig, Length, MetronomeHwConfig,
    SceneConfig, TomlTrackConfig,
};
use rsll::domain::{EngineState, MessageType, NoteSet, TrackEvent, VelocityScale};
use rsll::midi::handle_midi_message;
use rsll::output::Output;
use rsll::readiness::{
    message_is_ready, reload_is_ready, scene_is_ready, screen_is_ready, tick_is_ready,
};
use rsll::scene::{apply_scene_reload, load_patches, switch_scene};
use rsll::session::{adopt_scenes, adoption_is_ready, light_metronome, scene_in_use};
use std::collections::{HashMap, HashSet};

fn test_keys() -> KeyMappings {
    KeyMappings {
        metronome: parse_key("CC11"),
        clear_track: parse_key("CC76"),
        record_track: parse_key("CC77"),
        clear_all: parse_key("CC79"),
        track_keys: ["CC16", "CC17", "CC18", "CC19", "CC20", "CC21", "CC22", "CC23"]
            .iter()
            .map(|k| parse_key(k))
            .collect(),
        shift: parse_key("CC17_CH1"),
        beat4: parse_key("48"),
        beat8: parse_key("50"),
        beat16: parse_key("52"),
        drum_keys: vec![],
        drum_notes: vec![],
        drum_channel: 9,
        metronome_led: None,
        record_led: None,
        led_on_channel: None,
        led_off_channel: None,
        led_blink_channel: None,
        quantize: Some(parse_key("CC78")),
        instrument_select: None,
        undo_track: Some(parse_key("CC75")),
        mute_track: Some(parse_key("CC73")),
        volume_knob: None,
        bpm_knob: None,
        scene_down: None,
        scene_up: None,
    }
}

fn setup_test_state() -> EngineState {
    let channels: [u8; 8] = [0, 0, 1, 2, 3, 4, 5, 6];
    let mut track_channels = HashMap::new();
    let mut tracks = HashMap::new();
    let mut track_lengths = HashMap::new();
    let mut track_programs = HashMap::new();
    let mut track_volumes = HashMap::new();
    let mut track_velocities = HashMap::new();
    let mut track_velocity_multipliers = HashMap::new();
    for i in 1..=8usize {
        track_channels.insert(i, channels[i - 1]);
        tracks.insert(i, Vec::new());
        track_lengths.insert(i, 96usize);
        track_programs.insert(i, 0u8);
        track_volumes.insert(i, 127u8);
        track_velocities.insert(i, None);
        track_velocity_multipliers.insert(i, VelocityScale::unity());
    }
    EngineState {
        bpm: 120,
        ppqn: 24,
        time_signature_numerator: 4,
        time_signature_denominator: 4,
        ticks_per_measure: 96,
        max_tick: 384,
        current_tick: 0,
        is_recording: false,
        pending_record: false,
        record_armed_at: None,
        record_arm_time: 0,
        metronome_on: true,
        quantize_on: false,
        active_track: 1,
        track_channels,
        tracks,
        track_lengths,
        track_programs,
        track_volumes,
        track_velocities,
        track_velocity_multipliers,
        drum_velocity: None,
        drum_velocity_multiplier: VelocityScale::unity(),
        track_history: HashMap::new(),
        muted_tracks: HashSet::new(),
        loop_start_lens: HashMap::new(),
        held_notes: HashMap::new(),
        physically_held: NoteSet::new(),
        shift_held: false,
        current_scene_idx: 0,
        scene_name: "test".to_string(),
        scene_display_name: None,
        track_ids: (1..=8).collect(),
        track_names: HashMap::new(),
        drums_name: None,
    }
}

fn send(state: &mut EngineState, keys: &mut KeyMappings, bytes: &[u8]) -> Vec<Output> {
    assert!(message_is_ready(bytes, state, keys, &[]));
    handle_midi_message(bytes, state, keys, &[], 0)
}

fn press(state: &mut EngineState, bytes: &[u8]) -> Vec<Output> {
    send(state, &mut test_keys(), bytes)
}

fn metro() -> MetronomeHwConfig {
    MetronomeHwConfig {
        key: "CC11".to_string(),
        led_note: None,
        downbeat_note: 76,
        subdivision_note: 77,
        velocity: 90,
        channel: 9,
    }
}

fn tick_at(state: &mut EngineState, now: u128) -> Vec<Output> {
    assert!(tick_is_ready(state, 24, now));
    clock_tick(state, &metro(), Some(5), Some(2), 24, now)
}

fn tick(state: &mut EngineState) -> Vec<Output> {
    tick_at(state, 0)
}

fn synth(outputs: &[Output]) -> Vec<Vec<u8>> {
    let mut sent = Vec::new();
    for o in outputs {
        if let Output::Synth(bytes) = o {
            sent.push(bytes.clone());
        }
    }
    sent
}

fn leds(outputs: &[Output]) -> Vec<Vec<u8>> {
    let mut sent = Vec::new();
    for o in outputs {
        if let Output::Led(bytes) = o {
            sent.push(bytes.clone());
        }
    }
    sent
}

fn on(tick: usize, note: u8, velocity: u8, channel: u8) -> TrackEvent {
    TrackEvent { tick, message_type: MessageType::NoteOn, data1: note, data2: velocity, channel }
}

fn off(tick: usize, note: u8, velocity: u8, channel: u8) -> TrackEvent {
    TrackEvent { tick, message_type: MessageType::NoteOff, data1: note, data2: velocity, channel }
}

#[test]
fn test_toggle_metronome() {
    let mut state = setup_test_state();

    // Metronome starts as true
    assert!(state.metronome_on);

    // CC 11 value 127 should toggle it to false
    press(&mut state, &[0xB0, 11, 127]);
    assert!(!state.metronome_on);

    // CC 11 value 127 should toggle it to true again
    press(&mut state, &[0xB0, 11, 127]);
    assert!(state.metronome_on);

    // CC 11 value 0 (release) should be ignored
    press(&mut state, &[0xB0, 11, 0]);
    assert!(state.metronome_on);
}

#[test]
fn test_toggle_recording() {
    let mut state = setup_test_state();

    assert!(!state.is_recording);
    assert!(!state.pending_record);

    // CC 77 arms recording (punch-in at next downbeat), not immediate
    press(&mut state, &[0xB0, 77, 127]);
    assert!(!state.is_recording);
    assert!(state.pending_record);

    // CC 77 again cancels the armed state
    press(&mut state, &[0xB0, 77, 127]);
    assert!(!state.is_recording);
    assert!(!state.pending_record);
}

#[test]
fn test_select_track() {
    let mut state = setup_test_state();

    assert_eq!(state.active_track, 1);

    // CC 18 (Pad 3) should switch active track to 3
    press(&mut state, &[0xB0, 18, 127]);
    assert_eq!(state.active_track, 3);
}

#[test]
fn test_note_recording() {
    let mut state = setup_test_state();

    // Enable recording and advance tick
    state.is_recording = true;
    state.current_tick = 15;
    state.active_track = 3; // mapped to channel 1 (0-indexed)

    // Note On, Note 60, Velocity 100 on Channel 1 (index 0)
    press(&mut state, &[0x90, 60, 100]);

    // Check if recorded
    let track3_events = &state.tracks[&3];
    assert_eq!(track3_events.len(), 1);
    let event = &track3_events[0];
    assert_eq!(event.tick, 15);
    assert_eq!(event.data1, 60);
    assert_eq!(event.data2, 100);
    assert_eq!(event.message_type, MessageType::NoteOn);
    assert_eq!(event.channel, 1); // track 3 target channel is 1
}

#[test]
fn test_clear_track() {
    let mut state = setup_test_state();

    // Record some dummy note
    state.tracks.get_mut(&1).unwrap().push(on(0, 60, 100, 0));
    assert_eq!(state.tracks[&1].len(), 1);

    // CC 76 should clear the active track (which is 1)
    press(&mut state, &[0xB0, 76, 127]);
    assert_eq!(state.tracks[&1].len(), 0);
}

#[test]
fn test_cc17_sets_held_flag() {
    let mut state = setup_test_state();

    assert!(!state.shift_held);

    // CC 17 on channel 0 press should set the held flag
    press(&mut state, &[0xB0, 17, 127]);
    assert!(state.shift_held);

    // CC 17 release on channel 0 (value 0) should clear it
    press(&mut state, &[0xB0, 17, 0]);
    assert!(!state.shift_held);
}

#[test]
fn test_loop_length_set_via_cc17_note_combo() {
    let mut state = setup_test_state();

    // Default is 96 (4 beats)
    assert_eq!(state.track_lengths[&1], 96);

    // Hold CC 17 on channel 0
    press(&mut state, &[0xB0, 17, 127]);

    // Note 50 = 8 beats = 192 ticks
    press(&mut state, &[0x90, 50, 100]);
    assert_eq!(state.track_lengths[&1], 192);

    // Note 52 = 16 beats = 384 ticks
    press(&mut state, &[0x90, 52, 100]);
    assert_eq!(state.track_lengths[&1], 384);

    // Note 48 = 4 beats = 96 ticks
    press(&mut state, &[0x90, 48, 100]);
    assert_eq!(state.track_lengths[&1], 96);
}

#[test]
fn test_loop_length_clips_existing_events() {
    let mut state = setup_test_state();

    // Set track 1 to 8 beats (192 ticks) first, then record notes across both halves
    state.track_lengths.insert(1, 192);
    state.tracks.get_mut(&1).unwrap().push(on(50, 60, 100, 0));
    state.tracks.get_mut(&1).unwrap().push(on(150, 64, 100, 0)); // beyond 4-beat boundary
    assert_eq!(state.tracks[&1].len(), 2);

    // Shrink back to 4 beats (96 ticks) via CC 17 + note 48
    press(&mut state, &[0xB0, 17, 127]);
    press(&mut state, &[0x90, 48, 100]);

    assert_eq!(state.track_lengths[&1], 96);
    // tick 50 survives, tick 150 is clipped
    assert_eq!(state.tracks[&1].len(), 1);
    assert_eq!(state.tracks[&1][0].tick, 50);
}

#[test]
fn test_cc17_note_not_recorded_or_played() {
    let mut state = setup_test_state();
    state.is_recording = true;

    // Hold CC 17 on channel 0 and press note 48
    press(&mut state, &[0xB0, 17, 127]);
    let sent = press(&mut state, &[0x90, 48, 100]);

    // The combo note should not be recorded as a musical event
    assert_eq!(state.tracks[&1].len(), 0);
    assert_eq!(sent.len(), 0);
    assert_eq!(state.physically_held.len(), 0);
}

#[test]
fn test_toggle_quantize() {
    let mut state = setup_test_state();

    assert!(!state.quantize_on);

    // Press CC 78 (dedicated quantize key): should toggle quantize on
    press(&mut state, &[0xB0, 78, 127]);
    assert!(state.quantize_on);
    assert!(!state.is_recording);

    // Press CC 78 again: should toggle quantize off
    press(&mut state, &[0xB0, 78, 127]);
    assert!(!state.quantize_on);

    // Press CC 77 with shift held: should arm recording (pending_record), NOT quantize
    press(&mut state, &[0xB0, 17, 127]);
    press(&mut state, &[0xB0, 77, 127]);
    assert!(state.pending_record);
    assert!(!state.quantize_on); // shift+record no longer toggles quantize
}

#[test]
fn test_cc17_channel_disambiguation() {
    let mut state = setup_test_state();

    // CC 17 on channel 9 (drum pads): track select, shift_held stays false
    press(&mut state, &[0xB9, 17, 127]); // 0xB9 = 0xB0 | 9
    assert!(!state.shift_held);
    assert_eq!(state.active_track, 2); // CC 17: track 2

    // CC 17 release on channel 9 should NOT clear shift_held
    state.shift_held = true; // manually set to test the guard
    press(&mut state, &[0xB9, 17, 0]);
    assert!(state.shift_held); // still true: channel 9 release didn't clear it

    // CC 17 release on channel 0 should clear shift_held
    press(&mut state, &[0xB0, 17, 0]);
    assert!(!state.shift_held);
}

#[test]
fn test_recording_with_quantize() {
    let mut state = setup_test_state();
    state.is_recording = true;
    state.quantize_on = true;
    state.current_tick = 8; // between grid points 6 and 12, rounds down to 6

    press(&mut state, &[0x90, 60, 100]);

    assert_eq!(state.tracks[&1][0].tick, 6);
}

#[test]
fn test_recording_tick_normalized_to_track_length() {
    // Notes recorded when current_tick >= track_length must still play back: playback checks
    // `event.tick == tick % track_length`.
    let mut state = setup_test_state();
    state.is_recording = true;
    state.quantize_on = false;
    // current_tick in the second repetition of the 96-tick loop
    state.current_tick = 100; // 100 % 96 = 4

    press(&mut state, &[0x90, 60, 100]);

    // Should be stored as 4 (100 % 96), not 100
    assert_eq!(state.tracks[&1][0].tick, 4);
}

#[test]
fn test_pitch_bend_recording() {
    let mut state = setup_test_state();
    state.is_recording = true;
    state.current_tick = 20;
    state.active_track = 1; // mapped to channel 0

    // Pitch bend: center-up gesture (LSB=0, MSB=96)
    press(&mut state, &[0xE0, 0x00, 0x60]);

    let events = &state.tracks[&1];
    assert_eq!(events.len(), 1);
    let ev = &events[0];
    assert_eq!(ev.message_type, MessageType::PitchBend);
    assert_eq!(ev.tick, 20);
    assert_eq!(ev.data1, 0x00); // LSB
    assert_eq!(ev.data2, 0x60); // MSB
    assert_eq!(ev.channel, 0); // active track 1: channel 0
}

#[test]
fn test_pitch_bend_not_quantized() {
    // Pitch bend should always record at the actual tick, even when quantize is on
    let mut state = setup_test_state();
    state.is_recording = true;
    state.quantize_on = true;
    state.current_tick = 8; // between grid points, would snap to 6 if quantized

    press(&mut state, &[0xE0, 0x00, 0x40]);

    // Should be 8, not 6: pitch bend ignores quantize
    assert_eq!(state.tracks[&1][0].tick, 8);
}

#[test]
fn test_recording_without_quantize_unchanged() {
    let mut state = setup_test_state();
    state.is_recording = true;
    state.quantize_on = false;
    state.current_tick = 8;

    press(&mut state, &[0x90, 60, 100]);

    assert_eq!(state.tracks[&1][0].tick, 8); // unmodified
}

fn drums(notes: &str, channel: u8) -> DrumsConfig {
    DrumsConfig {
        notes: vec![notes.to_string()],
        channel,
        program: None,
        volume: None,
        velocity: None,
        velocity_multiplier: None,
        length: None,
        name: None,
    }
}

fn scene_with_drums(drums: Option<DrumsConfig>) -> SceneConfig {
    SceneConfig {
        name: None,
        bpm: 120,
        metronome_on: false,
        time_signature_numerator: 4,
        time_signature_denominator: 4,
        ppqn: 24,
        max_tracking_beats: 16,
        tracks: vec![],
        drums,
    }
}

#[test]
fn test_scene_switch_rebuilds_drum_mapping() {
    let mut state = setup_test_state();
    let mut keys = test_keys();
    keys.scene_down = Some(parse_key("CC90"));
    // Scene A's drum mapping, as built at startup
    keys.drum_notes = vec![vec![36]];
    keys.drum_channel = 9;

    let scene_a = scene_with_drums(Some(drums("36", 9)));
    let scene_b = scene_with_drums(Some(drums("38+42", 8)));
    let scenes = vec![("a".to_string(), scene_a), ("b".to_string(), scene_b)];

    // Press scene_down: switch to scene B; pads must now play scene B's drums
    let msg = [0xB0, 90, 127];
    assert!(message_is_ready(&msg, &state, &keys, &scenes));
    handle_midi_message(&msg, &mut state, &mut keys, &scenes, 0);
    assert_eq!(state.current_scene_idx, 1);
    assert_eq!(keys.drum_notes, vec![vec![38, 42]]);
    assert_eq!(keys.drum_channel, 8);

    // Press again: wraps back to scene A; mapping restored
    handle_midi_message(&msg, &mut state, &mut keys, &scenes, 0);
    assert_eq!(state.current_scene_idx, 0);
    assert_eq!(keys.drum_notes, vec![vec![36]]);
    assert_eq!(keys.drum_channel, 9);
}

#[test]
fn test_record_arm_sets_armed_timestamp() {
    let mut state = setup_test_state();

    // CC 77 press arms recording and stamps the arm time
    press(&mut state, &[0xB0, 77, 127]);
    assert!(state.pending_record);
    assert!(state.record_armed_at.is_some());

    // Second press cancels the armed state and clears the timestamp
    press(&mut state, &[0xB0, 77, 127]);
    assert!(!state.pending_record);
    assert!(state.record_armed_at.is_none());
}

#[test]
fn test_clear_all_tracks() {
    let mut state = setup_test_state();

    // Record notes on track 1 and track 3
    state.tracks.get_mut(&1).unwrap().push(on(0, 60, 100, 0));
    state.tracks.get_mut(&3).unwrap().push(on(5, 64, 90, 1));

    assert_eq!(state.tracks[&1].len(), 1);
    assert_eq!(state.tracks[&3].len(), 1);

    // CC 79, the key for it, should clear all tracks
    press(&mut state, &[0xB0, 79, 127]);

    for i in 1..=8 {
        assert_eq!(state.tracks[&i].len(), 0);
    }
}

#[test]
fn clear_all_empties_every_track_and_silences_each_channel_once() {
    let mut state = setup_test_state();
    state.tracks.get_mut(&1).unwrap().push(on(0, 60, 100, 0));
    state.tracks.get_mut(&3).unwrap().push(on(5, 64, 90, 1));
    state.held_notes.insert(3, NoteSet::new());

    let sent = press(&mut state, &[0xB0, 79, 127]);

    for i in 1..=8 {
        assert_eq!(state.tracks[&i].len(), 0);
    }
    assert!(state.held_notes.is_empty());
    let channels: Vec<u8> = synth(&sent).iter().map(|m| m[0]).collect();
    assert_eq!(channels, vec![0xB0, 0xB1, 0xB2, 0xB3, 0xB4, 0xB5, 0xB6]);
    assert!(synth(&sent).iter().all(|m| m[1] == 123 && m[2] == 0));
}

#[test]
fn notes_are_routed_to_the_active_track() {
    let mut state = setup_test_state();
    state.active_track = 4;

    assert_eq!(synth(&press(&mut state, &[0x90, 60, 100])), vec![vec![0x92, 60, 100]]);
    assert!(state.physically_held.contains((60, 2)));
    // a start of velocity zero ends the note
    assert_eq!(synth(&press(&mut state, &[0x90, 60, 0])), vec![vec![0x82, 60, 0]]);
    assert!(!state.physically_held.contains((60, 2)));
    // extra bytes are passed on
    assert_eq!(synth(&press(&mut state, &[0x83, 60, 7, 1])), vec![vec![0x82, 60, 7, 1]]);
    // nothing is recorded
    assert_eq!(state.tracks[&4].len(), 0);
}

#[test]
fn velocity_override_and_multiplier_apply_to_live_notes() {
    let mut state = setup_test_state();
    let mut double = VelocityScale::unity();
    for v in 0..256usize {
        double.scaled[v] = 2 * v as u32;
    }
    state.track_velocity_multipliers.insert(1, double);
    assert_eq!(synth(&press(&mut state, &[0x90, 60, 40])), vec![vec![0x90, 60, 80]]);
    // capped
    assert_eq!(synth(&press(&mut state, &[0x90, 60, 100])), vec![vec![0x90, 60, 127]]);
    // the override replaces what was played, then the multiplier applies
    state.track_velocities.insert(1, Some(30));
    assert_eq!(synth(&press(&mut state, &[0x90, 60, 100])), vec![vec![0x90, 60, 60]]);
    // without an entry the velocity passes through
    state.track_velocities.remove(&1);
    state.track_velocity_multipliers.remove(&1);
    assert_eq!(synth(&press(&mut state, &[0x90, 60, 99])), vec![vec![0x90, 60, 99]]);
}

#[test]
fn messages_that_do_not_count_are_ignored() {
    let mut state = setup_test_state();
    assert_eq!(press(&mut state, &[]).len(), 0);
    assert_eq!(press(&mut state, &[0x90, 60]).len(), 0);
    assert_eq!(press(&mut state, &[0xF8]).len(), 0);
    assert_eq!(press(&mut state, &[0xC0, 5, 0]).len(), 0);
    // notes on the pads' channel
    assert_eq!(press(&mut state, &[0x99, 60, 100]).len(), 0);
    assert_eq!(state.physically_held.len(), 0);
}

#[test]
fn shift_release_silences_the_active_track() {
    let mut state = setup_test_state();
    state.active_track = 5;
    state.shift_held = true;
    assert_eq!(synth(&press(&mut state, &[0xB0, 17, 0])), vec![vec![0xB3, 123, 0]]);
    assert!(!state.shift_held);
}

#[test]
fn pads_play_and_record_their_notes() {
    let mut state = setup_test_state();
    let mut keys = test_keys();
    keys.drum_keys = vec![parse_key("CC40"), parse_key("CC41")];
    keys.drum_notes = vec![vec![36, 42]];
    keys.drum_channel = 9;
    state.drum_velocity = Some(90);
    state.tracks.insert(0, Vec::new());
    state.is_recording = true;
    state.current_tick = 100;

    let sent = send(&mut state, &mut keys, &[0xB0, 40, 10]);
    assert_eq!(synth(&sent), vec![vec![0x99, 36, 90], vec![0x99, 42, 90]]);
    // without a length of its own the drum lane is one measure long
    assert_eq!(state.tracks[&0], vec![on(4, 36, 90, 9), on(4, 42, 90, 9)]);
    assert!(state.held_notes[&0].contains((36, 9)));

    state.current_tick = 110;
    let sent = send(&mut state, &mut keys, &[0xB0, 40, 0]);
    assert_eq!(synth(&sent), vec![vec![0x89, 36, 0], vec![0x89, 42, 0]]);
    assert_eq!(state.tracks[&0][2..], [off(14, 36, 0, 9), off(14, 42, 0, 9)]);
    assert_eq!(state.held_notes[&0].len(), 0);

    // a release of notes that are not held records nothing
    send(&mut state, &mut keys, &[0xB0, 40, 0]);
    assert_eq!(state.tracks[&0].len(), 4);
    // a pad without notes does nothing
    assert_eq!(send(&mut state, &mut keys, &[0xB0, 41, 100]).len(), 0);
}

#[test]
fn knobs_set_program_volume_and_tempo() {
    let mut state = setup_test_state();
    let mut keys = test_keys();
    keys.instrument_select = Some(parse_key("CC30"));
    keys.volume_knob = Some(parse_key("CC31"));
    keys.bpm_knob = Some(parse_key("CC32"));
    state.active_track = 3;

    assert_eq!(synth(&send(&mut state, &mut keys, &[0xB0, 30, 0])), vec![vec![0xC1, 0]]);
    assert_eq!(synth(&send(&mut state, &mut keys, &[0xB0, 30, 12])), vec![vec![0xC1, 12]]);
    assert_eq!(state.track_programs[&3], 12);
    assert_eq!(synth(&send(&mut state, &mut keys, &[0xB0, 31, 0])), vec![vec![0xB1, 7, 0]]);
    assert_eq!(state.track_volumes[&3], 0);
    send(&mut state, &mut keys, &[0xB0, 32, 0]);
    assert_eq!(state.bpm, 40);
    send(&mut state, &mut keys, &[0xB0, 32, 127]);
    assert_eq!(state.bpm, 167);
}

#[test]
fn mute_toggles_and_silences() {
    let mut state = setup_test_state();
    assert_eq!(synth(&press(&mut state, &[0xB0, 73, 127])), vec![vec![0xB0, 123, 0]]);
    assert!(state.muted_tracks.contains(&1));
    assert_eq!(press(&mut state, &[0xB0, 73, 127]).len(), 0);
    assert!(state.muted_tracks.is_empty());
}

#[test]
fn lights_follow_metronome_and_record_key() {
    let mut state = setup_test_state();
    let mut keys = test_keys();
    keys.metronome_led = Some(11);
    keys.record_led = Some(12);
    keys.led_on_channel = Some(1);
    keys.led_off_channel = Some(2);
    keys.led_blink_channel = Some(3);
    assert_eq!(leds(&send(&mut state, &mut keys, &[0xB0, 11, 127])), vec![vec![0x92, 11, 127]]);
    assert_eq!(leds(&send(&mut state, &mut keys, &[0xB0, 11, 127])), vec![vec![0x91, 11, 127]]);
    assert_eq!(leds(&send(&mut state, &mut keys, &[0xB0, 77, 127])), vec![vec![0x93, 12, 127]]);
    assert_eq!(leds(&send(&mut state, &mut keys, &[0xB0, 77, 127])), vec![vec![0x92, 12, 127]]);
    state.is_recording = true;
    assert_eq!(leds(&send(&mut state, &mut keys, &[0xB0, 77, 127])), vec![vec![0x92, 12, 127]]);
    assert!(!state.is_recording);
}

#[test]
fn a_take_is_recorded_sealed_replayed_and_undone() {
    let mut state = setup_test_state();
    state.metronome_on = false;
    state.tracks.get_mut(&1).unwrap().push(on(10, 40, 64, 0));

    // arm, and punch in on the downbeat at tick 96
    state.current_tick = 95;
    press(&mut state, &[0xB0, 77, 127]);
    let sent = tick(&mut state);
    assert!(!state.is_recording && sent.is_empty());
    let sent = tick(&mut state);
    assert!(state.is_recording && !state.pending_record);
    assert_eq!(leds(&sent), vec![vec![0x92, 5, 127]]);
    assert_eq!(state.track_history[&1], vec![vec![on(10, 40, 64, 0)]]);
    assert_eq!(state.loop_start_lens[&1], 1);
    assert_eq!(state.current_tick, 97);

    // play a note and hold it over the end of the loop
    press(&mut state, &[0x90, 60, 100]);
    assert_eq!(state.tracks[&1], vec![on(10, 40, 64, 0), on(1, 60, 100, 0)]);
    while state.current_tick != 192 {
        for message in synth(&tick(&mut state)) {
            // what is played now is not replayed in its own pass
            assert_eq!(message, vec![0x90, 40, 64]);
        }
    }
    tick(&mut state);
    assert_eq!(state.tracks[&1][2], off(95, 60, 0, 0));
    assert_eq!(state.held_notes[&1].len(), 0);
    assert_eq!(state.loop_start_lens[&1], 2);
    // the release is passed on but not recorded any more
    assert_eq!(synth(&press(&mut state, &[0x80, 60, 0])), vec![vec![0x80, 60, 0]]);
    assert_eq!(state.tracks[&1].len(), 3);

    // the next pass plays it
    assert_eq!(state.current_tick, 193);
    assert_eq!(synth(&tick(&mut state)), vec![vec![0x90, 60, 100]]);

    // stop, and undo
    press(&mut state, &[0xB0, 77, 127]);
    assert!(!state.is_recording && state.held_notes.is_empty());
    press(&mut state, &[0xB0, 75, 127]);
    assert_eq!(state.tracks[&1], vec![on(10, 40, 64, 0)]);
    // nothing is left to undo
    press(&mut state, &[0xB0, 75, 127]);
    assert_eq!(state.tracks[&1], vec![on(10, 40, 64, 0)]);
}

#[test]
fn stopping_seals_held_notes_where_they_are() {
    let mut state = setup_test_state();
    state.is_recording = true;
    state.current_tick = 100;
    press(&mut state, &[0x90, 60, 100]);
    press(&mut state, &[0x90, 64, 101]);
    press(&mut state, &[0x80, 60, 9]);
    state.current_tick = 130;
    press(&mut state, &[0xB0, 77, 127]);
    assert_eq!(
        state.tracks[&1],
        vec![on(4, 60, 100, 0), on(4, 64, 101, 0), off(4, 60, 9, 0), off(34, 64, 0, 0)]
    );
    assert!(!state.is_recording);
    assert!(state.held_notes.is_empty());
}

#[test]
fn keys_that_are_down_start_at_the_punch_in() {
    let mut state = setup_test_state();
    state.metronome_on = false;
    state.track_lengths.insert(1, 192);
    press(&mut state, &[0x90, 60, 100]);
    press(&mut state, &[0xB0, 77, 127]);
    state.current_tick = 96;
    let sent = tick(&mut state);
    assert!(state.is_recording);
    // the note sounds already, so the clock does not play it again
    assert!(synth(&sent).is_empty());
    assert_eq!(state.tracks[&1], vec![on(0, 60, 100, 0)]);
    assert!(state.held_notes[&1].contains((60, 0)));
    assert_eq!(state.loop_start_lens[&1], 0);
    assert!(state.physically_held.contains((60, 0)));
}

#[test]
fn keys_that_are_down_are_not_replayed_where_the_loop_begins() {
    let mut state = setup_test_state();
    state.metronome_on = false;
    state.tracks.get_mut(&1).unwrap().push(on(0, 40, 64, 0));
    state.tracks.get_mut(&2).unwrap().push(on(0, 41, 65, 0));
    press(&mut state, &[0x90, 60, 100]);
    press(&mut state, &[0xB0, 77, 127]);
    assert_eq!(state.current_tick, 0);
    let mut sent = synth(&tick(&mut state));
    sent.sort();
    assert!(state.is_recording);
    // what was there is played, the key that is down is not
    assert_eq!(sent, vec![vec![0x90, 40, 64], vec![0x90, 41, 65]]);
    assert_eq!(state.tracks[&1][..2], [on(0, 40, 64, 0), on(0, 60, 100, 0)]);
    assert_eq!(state.loop_start_lens[&1], 1);
    assert_eq!(state.loop_start_lens[&2], 1);
    // nor in the rest of the pass
    while state.current_tick != 96 {
        assert!(synth(&tick(&mut state)).is_empty());
    }
    // from the next pass on it is
    let mut sent = synth(&tick(&mut state));
    sent.sort();
    assert_eq!(sent, vec![vec![0x90, 40, 64], vec![0x90, 41, 65], vec![0x90, 60, 100]]);
}

#[test]
fn the_arm_time_is_waited_for() {
    let mut state = setup_test_state();
    state.metronome_on = false;
    state.record_arm_time = 500;
    let mut keys = test_keys();
    handle_midi_message(&[0xB0, 77, 127], &mut state, &mut keys, &[], 1000);
    assert_eq!(state.record_armed_at, Some(1000));
    tick_at(&mut state, 1499);
    assert!(state.pending_record && !state.is_recording);
    state.current_tick = 5;
    tick_at(&mut state, 1500);
    assert!(state.pending_record && !state.is_recording);
    state.current_tick = 96;
    tick_at(&mut state, 1500);
    assert!(!state.pending_record && state.is_recording);
    assert_eq!(state.record_armed_at, None);
}

#[test]
fn playback_is_per_loop_scaled_quantized_and_muted() {
    let mut state = setup_test_state();
    state.metronome_on = false;
    state.tracks.get_mut(&3).unwrap().push(on(4, 60, 100, 1));
    state.tracks.get_mut(&3).unwrap().push(off(4, 61, 3, 1));
    state.tracks.get_mut(&3).unwrap().push(TrackEvent {
        tick: 4,
        message_type: MessageType::PitchBend,
        data1: 1,
        data2: 2,
        channel: 1,
    });
    state.track_velocities.insert(3, Some(20));
    state.current_tick = 196;
    let expected = vec![vec![0x91, 60, 20], vec![0x81, 61, 3], vec![0xE1, 1, 2]];
    assert_eq!(synth(&tick(&mut state)), expected);
    // quantizing moves tick 4 to tick 6
    state.quantize_on = true;
    state.current_tick = 196;
    assert!(tick(&mut state).is_empty());
    state.current_tick = 198;
    assert_eq!(synth(&tick(&mut state)), expected);
    state.muted_tracks.insert(3);
    state.current_tick = 198;
    assert!(tick(&mut state).is_empty());
}

#[test]
fn the_metronome_clicks_on_beats() {
    let mut state = setup_test_state();
    assert_eq!(synth(&tick(&mut state)), vec![vec![0x99, 76, 90], vec![0x89, 76, 0]]);
    assert!(tick(&mut state).is_empty());
    state.current_tick = 24;
    assert_eq!(synth(&tick(&mut state)), vec![vec![0x99, 77, 90], vec![0x89, 77, 0]]);
    state.metronome_on = false;
    state.current_tick = 24;
    assert!(tick(&mut state).is_empty());
}

#[test]
fn the_clock_wraps_at_its_period() {
    let mut state = setup_test_state();
    state.metronome_on = false;
    state.current_tick = 383;
    tick(&mut state);
    assert_eq!(state.current_tick, 0);
    for _ in 0..384 {
        tick(&mut state);
    }
    assert_eq!(state.current_tick, 0);
    state.max_tick = 0;
    tick(&mut state);
    assert_eq!(state.current_tick, 0);
}

fn track(channel: u8, length: Length, name: Option<&str>) -> TomlTrackConfig {
    TomlTrackConfig {
        channel,
        length,
        program: 7,
        volume: Some(80),
        velocity: Some(99),
        velocity_multiplier: None,
        name: name.map(|n| n.to_string()),
    }
}

fn two_tracks() -> SceneConfig {
    SceneConfig {
        name: Some("Two".to_string()),
        bpm: 90,
        metronome_on: true,
        time_signature_numerator: 3,
        time_signature_denominator: 4,
        ppqn: 24,
        max_tracking_beats: 4,
        tracks: vec![
            ("3".to_string(), track(2, Length::Fraction("1/4".to_string()), Some("Lead"))),
            ("1".to_string(), track(17, Length::Ticks(144), None)),
            ("x".to_string(), track(5, Length::Ticks(7), None)),
        ],
        drums: Some(drums("36", 9)),
    }
}

#[test]
fn a_switch_lays_out_the_scene() {
    let mut state = setup_test_state();
    state.tracks.get_mut(&1).unwrap().push(on(0, 60, 100, 0));
    state.is_recording = true;
    state.quantize_on = true;
    state.active_track = 5;
    state.current_tick = 77;
    state.muted_tracks.insert(2);
    state.physically_held.insert((60, 0));
    let scenes = vec![("two".to_string(), two_tracks())];
    assert!(scene_is_ready(&scenes[0].1));
    let sent = switch_scene(&mut state, &scenes, 0);

    assert_eq!(state.scene_name, "two");
    assert_eq!(state.scene_display_name, Some("Two".to_string()));
    assert_eq!((state.bpm, state.ticks_per_measure, state.active_track), (90, 72, 1));
    assert!(!state.is_recording && state.quantize_on && state.metronome_on);
    assert_eq!(state.current_tick, 0);
    assert!(state.muted_tracks.is_empty());
    assert_eq!(state.track_ids, vec![1, 2, 3]);
    let mut ids: Vec<usize> = state.tracks.keys().copied().collect();
    ids.sort();
    assert_eq!(ids, vec![0, 1, 2, 3]);
    assert!(state.tracks.values().all(|t| t.is_empty()));
    assert_eq!(state.track_lengths[&0], 72);
    assert_eq!(state.track_lengths[&1], 144);
    assert_eq!(state.track_lengths[&2], 96); // left out: four beats
    assert_eq!(state.track_lengths[&3], 24);
    assert_eq!(state.track_channels[&2], 0);
    assert_eq!(state.track_velocities[&1], Some(99));
    assert_eq!(state.track_names.get(&3), Some(&"Lead".to_string()));
    assert_eq!(state.track_names.get(&1), None);
    // least common multiple of 96, 72, 144, 96 and 24
    assert_eq!(state.max_tick, 288);
    assert!(state.physically_held.contains((60, 0)));
    assert_eq!(
        synth(&sent),
        vec![
            vec![0xB2, 7, 80],
            vec![0xC2, 7],
            vec![0xB1, 7, 80],
            vec![0xC1, 7],
            vec![0xB9, 7, 127]
        ]
    );
    assert_eq!(synth(&load_patches(&scenes[0].1)), synth(&sent));
    // no scenes: nothing happens
    assert_eq!(switch_scene(&mut state, &[], 3).len(), 0);
    assert_eq!(state.bpm, 90);
}

#[test]
fn the_order_of_the_tracks_does_not_matter() {
    let mut turned = two_tracks();
    turned.tracks.reverse();
    let mut plain = two_tracks();
    plain.tracks.retain(|t| t.0 == "x");
    let scenes =
        vec![("a".to_string(), two_tracks()), ("b".to_string(), turned), ("c".to_string(), plain)];
    let mut first = setup_test_state();
    let mut second = setup_test_state();
    switch_scene(&mut first, &scenes, 0);
    switch_scene(&mut second, &scenes, 1);
    assert_eq!(first.track_ids, second.track_ids);
    assert_eq!(first.track_lengths, second.track_lengths);
    assert_eq!(first.track_channels, second.track_channels);
    assert_eq!(first.track_names, second.track_names);
    assert_eq!(first.max_tick, second.max_tick);
    // no name is a number: one track
    assert!(scene_is_ready(&scenes[2].1));
    switch_scene(&mut first, &scenes, 2);
    assert_eq!(first.track_ids, vec![1]);
    assert_eq!(first.track_lengths[&1], 96);
}

#[test]
fn scene_keys_go_round_and_report_bad_pads() {
    let mut state = setup_test_state();
    let mut keys = test_keys();
    keys.scene_down = Some(parse_key("CC90"));
    keys.scene_up = Some(parse_key("CC91"));
    let scenes = vec![
        ("a".to_string(), scene_with_drums(None)),
        ("b".to_string(), scene_with_drums(Some(drums("36+x", 9)))),
        ("c".to_string(), scene_with_drums(Some(drums("40", 3)))),
    ];
    handle_midi_message(&[0xB0, 91, 1], &mut state, &mut keys, &scenes, 0);
    assert_eq!(state.current_scene_idx, 2);
    assert_eq!((keys.drum_notes.clone(), keys.drum_channel), (vec![vec![40]], 3));
    let sent = handle_midi_message(&[0xB0, 91, 1], &mut state, &mut keys, &scenes, 0);
    assert_eq!(state.current_scene_idx, 1);
    // the pads stay as they were
    assert_eq!((keys.drum_notes.clone(), keys.drum_channel), (vec![vec![40]], 3));
    match sent.last() {
        Some(Output::PadsRejected(e)) => {
            assert_eq!(e.to_text(), "Parse error: Invalid drum note: 'x'");
        }
        _ => panic!("no notice"),
    }
    handle_midi_message(&[0xB0, 91, 1], &mut state, &mut keys, &scenes, 0);
    assert_eq!(state.current_scene_idx, 0);
    assert_eq!((keys.drum_notes.len(), keys.drum_channel), (0, 9));
    // releases do nothing, and without scenes nothing happens
    handle_midi_message(&[0xB0, 90, 0], &mut state, &mut keys, &scenes, 0);
    assert_eq!(state.current_scene_idx, 0);
    handle_midi_message(&[0xB0, 90, 9], &mut state, &mut keys, &[], 0);
    assert_eq!(state.current_scene_idx, 0);
}

#[test]
fn a_reload_keeps_recordings_unless_the_length_changes() {
    let scene = two_tracks();
    let mut state = EngineState::start(&"two".to_string(), &scene, 0);
    state.tracks.get_mut(&1).unwrap().push(on(0, 60, 100, 1));
    state.tracks.get_mut(&3).unwrap().push(on(0, 62, 100, 2));
    state.tracks.get_mut(&0).unwrap().push(on(0, 36, 100, 9));
    state.track_history.insert(1, vec![vec![]]);
    state.track_history.insert(3, vec![vec![]]);
    state.current_tick = 50;
    state.active_track = 3;
    state.is_recording = true;

    let mut changed = two_tracks();
    changed.bpm = 100;
    changed.tracks[0].1.length = Length::Ticks(48);
    changed.tracks[1].1.program = 9;
    assert!(reload_is_ready(&state, &changed));
    let sent = apply_scene_reload(&mut state, &changed);
    assert_eq!((state.bpm, state.current_tick, state.is_recording), (100, 50, true));
    assert_eq!(state.tracks[&1], vec![on(0, 60, 100, 1)]);
    assert_eq!(state.tracks[&0], vec![on(0, 36, 100, 9)]);
    assert!(state.track_history.contains_key(&1));
    assert!(state.tracks[&3].is_empty());
    assert!(!state.track_history.contains_key(&3));
    assert_eq!(state.track_programs[&1], 9);
    assert_eq!(state.active_track, 3);
    assert_eq!(synth(&sent).len(), 5);

    // fewer tracks: the others go, and the first becomes active
    changed.tracks.remove(0);
    changed.drums = None;
    apply_scene_reload(&mut state, &changed);
    assert_eq!(state.track_ids, vec![1]);
    assert!(!state.tracks.contains_key(&3) && !state.tracks.contains_key(&0));
    assert!(!state.track_channels.contains_key(&2));
    assert_eq!(state.active_track, 1);
    assert_eq!(state.tracks[&1], vec![on(0, 60, 100, 1)]);

    // another timing: all is wiped
    changed.ppqn = 48;
    apply_scene_reload(&mut state, &changed);
    assert_eq!((state.ppqn, state.ticks_per_measure, state.current_tick), (48, 144, 0));
    assert!(state.tracks[&1].is_empty());
    assert!(state.track_history.is_empty());
}

#[test]
fn reloading_again_changes_nothing() {
    let scene = two_tracks();
    let mut state = setup_test_state();
    state.muted_tracks.insert(2);
    for ppqn in [24, 48] {
        let mut changed = scene.clone();
        changed.ppqn = ppqn;
        assert!(reload_is_ready(&state, &changed));
        apply_scene_reload(&mut state, &changed);
        state.tracks.get_mut(&1).unwrap().push(on(3, 60, 100, 1));
        state.tracks.get_mut(&0).unwrap().push(on(4, 36, 100, 9));
        state.track_history.insert(1, vec![vec![on(5, 61, 100, 1)]]);
        state.muted_tracks.insert(3);
        state.current_tick = 17;
        let tracks = state.tracks.clone();
        let lengths = state.track_lengths.clone();
        let channels = state.track_channels.clone();
        let names = state.track_names.clone();
        let before = (state.max_tick, state.current_tick, state.active_track, state.bpm);
        assert!(reload_is_ready(&state, &changed));
        apply_scene_reload(&mut state, &changed);
        assert_eq!(state.tracks, tracks);
        assert_eq!(state.track_lengths, lengths);
        assert_eq!(state.track_channels, channels);
        assert_eq!(state.track_names, names);
        assert_eq!(state.track_history[&1], vec![vec![on(5, 61, 100, 1)]]);
        assert!(state.muted_tracks.contains(&3));
        assert_eq!(state.track_ids, vec![1, 2, 3]);
        assert_eq!((state.max_tick, state.current_tick, state.active_track, state.bpm), before);
    }
}

#[test]
fn the_light_of_the_metronome_is_set_on_connect() {
    let mut state = setup_test_state();
    let led =
        LedConfig { out: vec![], on_channel: 3, off_channel: 16, blink_channel: None };
    assert_eq!(leds(&light_metronome(&state, &led, Some(7))), vec![vec![0x92, 7, 127]]);
    state.metronome_on = false;
    assert_eq!(leds(&light_metronome(&state, &led, Some(7))), vec![vec![0x9F, 7, 127]]);
    assert!(light_metronome(&state, &led, None).is_empty());
}

#[test]
fn reread_scenes_are_followed_by_name() {
    let mut state = EngineState::start(&"two".to_string(), &two_tracks(), 7);
    assert_eq!((state.record_arm_time, state.ppqn, state.current_scene_idx), (7, 24, 0));
    let mut changed = two_tracks();
    changed.bpm = 33;
    let scenes = vec![("one".to_string(), default_scene()), ("two".to_string(), changed)];
    assert!(adoption_is_ready(&state, &scenes));
    let sent = adopt_scenes(&mut state, &scenes);
    assert_eq!((state.current_scene_idx, state.bpm), (1, 33));
    assert_eq!(synth(&sent).len(), 5);
    assert_eq!(scene_in_use(&state, scenes.len()), 1);
    assert_eq!(scene_in_use(&state, 1), 0);

    // the scene is gone: the first takes its name, and the music goes on
    let other = vec![("one".to_string(), default_scene())];
    let sent = adopt_scenes(&mut state, &other);
    assert_eq!((state.current_scene_idx, state.bpm), (0, 33));
    assert_eq!(state.scene_name, "one");
    assert_eq!(state.scene_display_name, None);
    assert!(sent.is_empty());
    assert!(!adoption_is_ready(&state, &vec![]));
}

#[test]
fn what_the_engine_cannot_take_is_told_beforehand() {
    let mut state = setup_test_state();
    let keys = test_keys();
    assert!(message_is_ready(&[0x90, 60, 100], &state, &keys, &[]));
    state.active_track = 9; // no such track
    assert!(!message_is_ready(&[0x90, 60, 100], &state, &keys, &[]));
    assert!(!message_is_ready(&[0xE0, 0, 0], &state, &keys, &[]));
    assert!(!message_is_ready(&[0xB0, 76, 1], &state, &keys, &[]));
    assert!(message_is_ready(&[0xB0, 79, 1], &state, &keys, &[]));
    state.active_track = 1;
    state.is_recording = true;
    state.track_lengths.insert(1, 0);
    assert!(!message_is_ready(&[0x90, 60, 100], &state, &keys, &[]));
    assert!(!tick_is_ready(&state, 24, 0));
    state.track_lengths.insert(1, 96);
    state.quantize_on = true;
    state.ppqn = 3;
    assert!(!message_is_ready(&[0x90, 60, 100], &state, &keys, &[]));
    state.ppqn = 24;
    assert!(message_is_ready(&[0x90, 60, 100], &state, &keys, &[]));
    assert!(tick_is_ready(&state, 24, 0));
    assert!(!tick_is_ready(&state, 0, 0)); // the metronome is on
    assert!(screen_is_ready(&state, 80));
    state.ppqn = 0;
    assert!(!screen_is_ready(&state, 80));
    let mut scene = two_tracks();
    scene.max_tracking_beats = usize::MAX;
    assert!(!scene_is_ready(&scene));
}

#[test]
fn a_loop_repeats_itself() {
    let mut state = setup_test_state();
    state.metronome_on = false;
    state.track_lengths.insert(2, 48);
    for i in 0..40usize {
        state.tracks.get_mut(&2).unwrap().push(on((i * 7) % 48, i as u8, 64, 0));
    }
    let mut passes = Vec::new();
    for _ in 0..8 {
        let mut pass = Vec::new();
        for _ in 0..48 {
            pass.push(synth(&tick(&mut state)));
        }
        passes.push(pass);
    }
    assert_eq!(state.current_tick, 0);
    for pass in &passes {
        assert_eq!(*pass, passes[0]);
        assert_eq!(pass.iter().map(|t| t.len()).sum::<usize>(), 40);
    }
}

#[test]
fn quantized_notes_sound_on_the_grid() {
    for at in 0..96 {
        let mut state = setup_test_state();
        state.metronome_on = false;
        state.is_recording = true;
        state.quantize_on = true;
        state.current_tick = at;
        press(&mut state, &[0x90, 60, 100]);
        let recorded = state.tracks[&1][0].tick;
        assert_eq!(recorded % 6, 0);
        press(&mut state, &[0xB0, 77, 127]);
        state.tracks.get_mut(&1).unwrap().truncate(1);
        let mut heard = Vec::new();
        state.current_tick = 0;
        for t in 0..96 {
            if !tick(&mut state).is_empty() {
                heard.push(t);
            }
        }
        assert_eq!(heard, vec![recorded]);
    }
}

#[test]
fn undo_touches_the_active_track_alone() {
    let mut state = setup_test_state();
    state.track_history.insert(1, vec![vec![on(1, 1, 1, 1)], vec![on(2, 2, 2, 2)]]);
    state.track_history.insert(2, vec![vec![on(3, 3, 3, 3)]]);
    press(&mut state, &[0xB0, 75, 127]);
    assert_eq!(state.tracks[&1], vec![on(2, 2, 2, 2)]);
    assert!(state.tracks[&2].is_empty());
    press(&mut state, &[0xB0, 75, 127]);
    assert_eq!(state.tracks[&1], vec![on(1, 1, 1, 1)]);
    assert_eq!(state.track_history[&2].len(), 1);
}

#[test]
fn a_running_engine_takes_everything() {
    let mut keys = test_keys();
    keys.drum_keys = vec![parse_key("CC40")];
    keys.drum_notes = vec![vec![36, 42]];
    keys.instrument_select = Some(parse_key("CC30"));
    keys.volume_knob = Some(parse_key("CC31"));
    keys.bpm_knob = Some(parse_key("CC32"));
    keys.scene_down = Some(parse_key("CC90"));
    keys.scene_up = Some(parse_key("CC91"));
    let scenes = vec![("two".to_string(), two_tracks()), ("one".to_string(), default_scene())];
    let mut state = EngineState::start(&"two".to_string(), &scenes[0].1, 0);
    let mut seed: u32 = 1;
    for _ in 0..60000 {
        seed = seed.wrapping_mul(1664525).wrapping_add(1013904223);
        let bytes = [0x80 | (seed >> 24) as u8 & 0x7F, (seed >> 16) as u8 & 0x7F, (seed >> 8) as u8 & 0x7F];
        assert!(message_is_ready(&bytes, &state, &keys, &scenes));
        handle_midi_message(&bytes, &mut state, &mut keys, &scenes, 0);
        assert!(tick_is_ready(&state, 24, 0));
        clock_tick(&mut state, &metro(), None, None, 24, 0);
        assert!(screen_is_ready(&state, 80));
    }
}

#[test]
fn a_late_clock_does_not_catch_up() {
    assert_eq!(pace(100, 20, 110), (120, 10));
    assert_eq!(pace(100, 20, 120), (120, 0));
    assert_eq!(pace(100, 20, 121), (121, 0));
}
