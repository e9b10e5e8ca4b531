use midly::{MidiMessage, Smf, TrackEventKind};
use rsll::config::{default_scene, GmConfig};
use rsll::display::{
    bar_width, draw_ui, ordinal, timeline_position, ui_action, vol_bar, RecordMode, RowStyle,
    UiAction, UiEvent,
};
use rsll::domain::{EngineState, MessageType, TrackEvent};
use rsll::export::{export_file_name, export_midi, export_track, SmfEvent, SmfKind};
use rsll::ports::{find_port_by_any_regex, find_port_by_regex, first_hit};
use rsll::sorting::sort_by_tick;

fn names(list: &[&str]) -> Vec<Option<String>> {
    list.iter().map(|n| Some(n.to_string())).collect()
}

#[test]
fn ports_are_found_by_pattern() {
    let mut ports = names(&["Midi Through", "FLUID Synth (1)", "MPK mini IV"]);
    let found = find_port_by_regex(&ports, "^FLUID.*");
    assert_eq!(found, Some((1, "FLUID Synth (1)".to_string())));
    assert_eq!(find_port_by_regex(&ports, "mini").map(|p| p.0), Some(2));
    // the first of several
    assert_eq!(find_port_by_regex(&ports, "M").map(|p| p.0), Some(0));
    assert_eq!(find_port_by_regex(&ports, "sfizz"), None);
    // a pattern that is not accepted finds nothing
    assert_eq!(find_port_by_regex(&ports, "("), None);
    // ports without a name are passed over
    ports[0] = None;
    assert_eq!(find_port_by_regex(&ports, ".*").map(|p| p.0), Some(1));
}

#[test]
fn patterns_are_tried_in_order() {
    let ports = names(&["alpha", "beta", "gamma"]);
    let patterns = |list: &[&str]| -> Vec<String> { list.iter().map(|p| p.to_string()).collect() };
    let found = find_port_by_any_regex(&ports, &patterns(&["zeta", "(", "^g", "^a"]));
    assert_eq!(found, Some((2, "gamma".to_string())));
    assert_eq!(find_port_by_any_regex(&ports, &patterns(&[])), None);
    assert_eq!(first_hit(&vec![false, true, true]), Some(1));
    assert_eq!(first_hit(&vec![]), None);
}

fn event(tick: usize, message_type: MessageType, data1: u8, data2: u8, channel: u8) -> TrackEvent {
    TrackEvent { tick, message_type, data1, data2, channel }
}

fn playing_state() -> EngineState {
    EngineState::start(&"song".to_string(), &default_scene(), 0)
}

#[test]
fn export_puts_events_in_the_order_of_time() {
    let events = vec![
        event(20, MessageType::NoteOff, 60, 0, 0),
        event(4, MessageType::NoteOn, 60, 100, 0),
        event(20, MessageType::NoteOn, 61, 101, 0x12),
        event(4, MessageType::PitchBend, 1, 64, 3),
    ];
    let sorted: Vec<u8> = sort_by_tick(&events).iter().map(|e| e.data1).collect();
    assert_eq!(sorted, vec![60, 1, 60, 61]);
    let kind = |e: &SmfEvent| (e.delta, e.kind, e.channel);
    let track: Vec<(u32, SmfKind, u8)> = export_track(&events).iter().map(kind).collect();
    assert_eq!(
        track,
        vec![
            (4, SmfKind::NoteStart, 0),
            (0, SmfKind::Bend, 3),
            (16, SmfKind::NoteEnd, 0),
            (0, SmfKind::NoteStart, 2),
            (0, SmfKind::TrackEnd, 0),
        ]
    );
    assert_eq!(export_track(&events)[1].bend, 64 * 128 + 1);
}

#[test]
fn exported_files_can_be_read() {
    let mut state = playing_state();
    state.tracks.insert(
        1,
        vec![
            event(30, MessageType::NoteOff, 60, 5, 1),
            event(10, MessageType::NoteOn, 60, 100, 1),
            event(12, MessageType::PitchBend, 0x7F, 0x60, 1),
        ],
    );
    state.tracks.insert(0, vec![event(300, MessageType::NoteOn, 0x80 | 36, 0x80 | 90, 0x19)]);
    state.tracks.insert(7, vec![]);
    let bytes = export_midi(&state).unwrap();
    let smf = Smf::parse(&bytes).unwrap();
    assert_eq!(smf.header.format, midly::Format::Parallel);
    assert_eq!(smf.header.timing, midly::Timing::Metrical(24.into()));
    assert_eq!(smf.tracks.len(), 2);
    let mut tracks: Vec<Vec<(u32, u8, String)>> = Vec::new();
    for t in &smf.tracks {
        let mut events = Vec::new();
        for e in t {
            match e.kind {
                TrackEventKind::Midi { channel, message } => {
                    let text = match message {
                        MidiMessage::NoteOn { key, vel } => format!("on {} {}", key, vel),
                        MidiMessage::NoteOff { key, vel } => format!("off {} {}", key, vel),
                        MidiMessage::PitchBend { bend } => format!("bend {}", bend.0),
                        _ => "other".to_string(),
                    };
                    events.push((e.delta.as_int(), channel.as_int(), text));
                }
                TrackEventKind::Meta(midly::MetaMessage::EndOfTrack) => {
                    events.push((e.delta.as_int(), 0, "end".to_string()));
                }
                _ => panic!("unexpected event"),
            }
        }
        tracks.push(events);
    }
    tracks.sort_by_key(|t| t.len());
    let line = |d: u32, c: u8, s: &str| (d, c, s.to_string());
    assert_eq!(tracks[0], vec![line(300, 9, "on 36 90"), line(0, 0, "end")]);
    assert_eq!(
        tracks[1],
        vec![
            line(10, 1, "on 60 100"),
            line(2, 1, &format!("bend {}", 0x60 * 128 + 0x7F)),
            line(18, 1, "off 60 5"),
            line(0, 0, "end"),
        ]
    );
    assert_eq!(export_file_name(&state.scene_name, 1700000000), "song_1700000000.mid");
}

#[test]
fn numbers_have_endings() {
    let words: Vec<String> = [1, 2, 3, 4, 10, 11, 12, 13, 21, 22, 101, 111, 112].iter().map(|n| ordinal(*n)).collect();
    assert_eq!(
        words,
        vec![
            "1st", "2nd", "3rd", "4th", "10th", "11th", "12th", "13th", "21st", "22nd", "101st",
            "111th", "112th"
        ]
    );
}

#[test]
fn volumes_are_drawn_as_bars() {
    assert_eq!(vol_bar(0), "[░░░░░░░░]");
    assert_eq!(vol_bar(64), "[████░░░░]");
    assert_eq!(vol_bar(127), "[████████]");
    assert_eq!(vol_bar(255), "[████████]");
    assert_eq!(bar_width(80), 60);
    assert_eq!(bar_width(10), 12);
}

#[test]
fn the_screen_shows_the_engine() {
    let mut state = playing_state();
    let gm = GmConfig { programs: vec![("0".to_string(), "Grand Piano".to_string())] };
    state.track_lengths.insert(1, 192);
    state.current_tick = 30;
    assert_eq!(timeline_position(&state), (30, 192));
    let screen = draw_ui(&state, &gm, 32, 5, 40);
    assert_eq!(screen.mode, RecordMode::Idle);
    assert_eq!(
        screen.status,
        vec![" Scene: ", "song", " | BPM: ", "120", " | Meter: ", "4/4", " | Status: IDLE"]
    );
    assert_eq!(screen.timeline_title, "Loop Matrix Timeline (2nd Beat)");
    assert_eq!(screen.bar, " [█████░|░░░░░]   30 / 192");
    assert_eq!(screen.grid, "  Beat Grid:  [■] [■] [ ] [ ]  (Step: 2)");
    assert_eq!(
        screen.heading,
        format!(
            "{:<40}",
            format!(
                " {:<6} {:<32} {:<12} {:<14} {}",
                "ID", "Hardware Routing Node", "Vol", "Event Pool", "Status Buffer"
            )
        )
    );
    assert_eq!(screen.rows.len(), 1);
    assert_eq!(screen.rows[0].style, RowStyle::Active);
    assert_eq!(
        screen.rows[0].text,
        format!(
            " {:<6} {:<32} {:<12} {:<14} {}",
            1, "(0) Grand Piano", "[████████]", 0, "Empty"
        )
    );

    // drums, names, recording and mutes
    state.tracks.insert(0, vec![]);
    state.drums_name = Some("Kit".to_string());
    state.track_names.insert(1, "Léad".to_string());
    state.tracks.insert(1, vec![event(0, MessageType::NoteOn, 1, 1, 0)]);
    state.scene_display_name = Some("Shown".to_string());
    state.pending_record = true;
    let screen = draw_ui(&state, &gm, 32, 0, 0);
    assert_eq!(screen.mode, RecordMode::Armed);
    assert_eq!(screen.status[1], "Shown");
    assert_eq!(screen.status[6..], [" | Status:  ", "⊙ ARMED"]);
    assert_eq!(
        screen.rows[0].text,
        format!(
            " {:<6} {:<32} {:<12} {:<14} {}",
            "0", "Kit (Ch 10 Global)", "-", "—", "Live / Pass-through"
        )
    );
    assert_eq!(
        screen.rows[1].text,
        format!(
            " {:<6} {:<32} {:<12} {:<14} {}",
            1, "(0) Léad", "[████████]", 1, "Sequence Loaded"
        )
    );
    state.is_recording = true;
    let screen = draw_ui(&state, &gm, 32, 0, 0);
    assert_eq!(screen.status[7], "● RECORDING");
    assert!(screen.rows[0].text.ends_with("Capturing..."));
    assert!(screen.rows[1].text.ends_with("Capturing..."));
    state.muted_tracks.insert(1);
    let screen = draw_ui(&state, &gm, 32, 0, 0);
    assert_eq!(screen.rows[1].style, RowStyle::Muted);
    assert!(screen.rows[1].text.ends_with("Muted"));
}

#[test]
fn terminal_keys_quit_and_save() {
    assert_eq!(ui_action(UiEvent::Key('q')), UiAction::Quit);
    assert_eq!(ui_action(UiEvent::Key('s')), UiAction::SaveLoops);
    assert_eq!(ui_action(UiEvent::Key('x')), UiAction::GoOn);
    assert_eq!(ui_action(UiEvent::Resized), UiAction::ClearScreen);
    assert_eq!(ui_action(UiEvent::Other), UiAction::GoOn);
}
