use rsll::config::{
    default_scene, gm_name, mapping_is_ready, parse_key, split_duration, try_build_key_mappings, try_parse_duration,
    try_parse_key, try_parse_length_fraction, try_scene_drum_mapping, try_validate_scene_lengths,
    BeatsPerMeasureConfig, DeviceConfig, DrumsConfig, DrumsHwConfig, DurationNumber, GmConfig,
    HardwareConfig, HwKeyBinding, InstrumentsConfig, KeyBinding, KeyKind, LedConfig, Length,
    MetronomeHwConfig, PortsConfig, QuantizeConfig, ReloadError, SceneConfig, TracksConfig,
};
use rsll::domain::quantize_tick;
use rsll::period::{compute_max_tick, gcd, try_max_tick};
use rsll::readiness::{scene_is_countable, scene_is_ready};
use rsll::session::{accept_hardware, accept_scene, collect_scenes, drops_message, read_arm_time};
use rsll::sorting::sort_by_name;
use rsll::text::{char_is_space, find, parse_number, to_decimal, trim};
use std::time::Duration;

fn number_in(s: &str) -> Option<DurationNumber> {
    let (number, milliseconds) = split_duration(s);
    let value: f64 = match number.parse() {
        Ok(value) => value,
        Err(_) => return None,
    };
    let finite = value.is_finite();
    let negative = value < 0.0;
    let nanos = if finite && !negative {
        Duration::from_secs_f64(if milliseconds { value / 1000.0 } else { value }).as_nanos()
    } else {
        0
    };
    Some(DurationNumber { finite, negative, nanos })
}

fn duration(s: &str) -> Result<u128, ReloadError> {
    try_parse_duration(s, number_in(s))
}

#[test]
fn test_parse_arm_time_formats() {
    assert_eq!(duration("3s").unwrap(), Duration::from_secs(3).as_nanos());
    assert_eq!(duration("1.5s").unwrap(), Duration::from_millis(1500).as_nanos());
    assert_eq!(duration("500ms").unwrap(), Duration::from_millis(500).as_nanos());
    assert_eq!(duration("3").unwrap(), Duration::from_secs(3).as_nanos());
    assert!(duration("abc").is_err());
    assert!(duration("-1s").is_err());
}

#[test]
fn test_length_fraction_to_ticks() {
    // ppqn = 24: whole note = 96 ticks. Fractions are relative to a whole note.
    assert_eq!(try_parse_length_fraction("1/1", 24).unwrap(), 96); // whole note
    assert_eq!(try_parse_length_fraction("2/1", 24).unwrap(), 192); // two whole notes
    assert_eq!(try_parse_length_fraction("4/1", 24).unwrap(), 384); // four whole notes
    assert_eq!(try_parse_length_fraction("1/4", 24).unwrap(), 24); // quarter note
    assert_eq!(try_parse_length_fraction("1/8", 24).unwrap(), 12); // eighth note
    assert_eq!(try_parse_length_fraction("1/12", 24).unwrap(), 8); // eighth triplet
    assert_eq!(try_parse_length_fraction(" 1 / 8 ", 24).unwrap(), 12); // whitespace tolerant

    // Errors
    assert!(try_parse_length_fraction("1/0", 24).is_err()); // zero denominator
    assert!(try_parse_length_fraction("abc", 24).is_err()); // no slash
    assert!(try_parse_length_fraction("a/b", 24).is_err()); // non-numeric
    assert!(try_parse_length_fraction("1/96", 24).is_err()); // resolves to zero ticks
}

#[test]
fn test_length_enum_to_ticks() {
    // Raw tick counts pass through unchanged regardless of ppqn.
    assert_eq!(Length::Ticks(96).to_ticks(24).unwrap(), 96);
    assert_eq!(Length::Ticks(384).to_ticks(48).unwrap(), 384);
    // Fraction variant resolves against ppqn.
    assert_eq!(Length::Fraction("1/8".to_string()).to_ticks(24).unwrap(), 12);
}

#[test]
fn test_compute_max_tick() {
    // base = max_tracking_beats(16) * ppqn(24) = 384
    let base = 384;
    // Legacy lengths all divide the base: period stays 384.
    assert_eq!(compute_max_tick(base, &[96, 192, 384]), 384);
    // A track longer than the base extends the master period to contain it.
    assert_eq!(compute_max_tick(base, &[768]), 768); // "8/1"
    assert_eq!(compute_max_tick(base, &[1536]), 1536); // "16/1"
    // Mixed long + short: LCM that holds whole loops of each.
    assert_eq!(compute_max_tick(base, &[768, 96]), 768);
    // No tracks: just the base.
    assert_eq!(compute_max_tick(base, &[]), 384);
    // Zero-length entries are ignored; zero base falls back to 1.
    assert_eq!(compute_max_tick(0, &[0]), 1);
}

#[test]
fn test_quantize_tick_snapping() {
    // ppqn=24, ticks_per_sixteenth=6, ticks_per_measure=96
    // Grid points at multiples of 6: 0, 6, 12, 18, ...
    assert_eq!(quantize_tick(0, 6, 96), 0);
    assert_eq!(quantize_tick(2, 6, 96), 0); // rounds down
    assert_eq!(quantize_tick(3, 6, 96), 6); // exactly halfway, rounds up
    assert_eq!(quantize_tick(5, 6, 96), 6); // rounds up
    assert_eq!(quantize_tick(6, 6, 96), 6);
    assert_eq!(quantize_tick(8, 6, 96), 6); // rounds down
    assert_eq!(quantize_tick(93, 6, 96), 90); // near end of loop
    assert_eq!(quantize_tick(94, 6, 96), 96 % 96); // wraps to 0

    // Loops longer than one measure must fold into their own length, not ticks_per_measure. With
    // a 192-tick (two-measure) loop, a tick in the second measure stays there instead of wrapping
    // back onto the first.
    assert_eq!(quantize_tick(100, 6, 192), 102); // second measure survives
    assert_eq!(quantize_tick(189, 6, 192), 192 % 192); // wraps only at full loop length
}

#[test]
fn quantizing_handles_odd_steps_and_short_loops() {
    assert_eq!(quantize_tick(2, 5, 20), 0);
    assert_eq!(quantize_tick(3, 5, 20), 5);
    assert_eq!(quantize_tick(45, 6, 48), 0); // half a step before the end of half a measure
    assert_eq!(quantize_tick(189, 6, 96), 0); // the place of tick 93, one pass later
    assert_eq!(quantize_tick(190, 6, 96), 0);
    assert_eq!(quantize_tick(7, 1, 4), 3);
    // once is enough
    for tick in 0..200 {
        for (step, length) in [(6, 96), (6, 192), (4, 64), (5, 80)] {
            let once = quantize_tick(tick, step, length);
            assert_eq!(quantize_tick(once, step, length), once);
            // the place in the loop counts, but for the one tick that stays before the bar
            if (tick, step, length) != (189, 6, 96) {
                assert_eq!(quantize_tick(tick % length, step, length), once);
            }
        }
    }
}

#[test]
fn periods_that_do_not_fit_are_told() {
    assert_eq!(gcd(96, 36), 12);
    assert_eq!(gcd(5, 0), 5);
    assert_eq!(gcd(0, 0), 0);
    assert_eq!(gcd(35, 64), 1);
    assert_eq!(try_max_tick(384, &[5]), Some(1920));
    assert_eq!(try_max_tick(usize::MAX, &[2]), None);
    assert_eq!(compute_max_tick(6, &[4, 10]), 60);
}

#[test]
fn keys_are_read_in_all_four_forms() {
    assert_eq!(parse_key("50"), KeyBinding { kind: KeyKind::Note(50), channel: None });
    assert_eq!(parse_key("50_CH1"), KeyBinding { kind: KeyKind::Note(50), channel: Some(0) });
    assert_eq!(parse_key("CC17"), KeyBinding { kind: KeyKind::Cc(17), channel: None });
    assert_eq!(parse_key("CC17_CH16"), KeyBinding { kind: KeyKind::Cc(17), channel: Some(15) });
    for n in 0..=255u8 {
        assert_eq!(
            parse_key(&format!("CC{}_CH{}", n, 255)),
            KeyBinding { kind: KeyKind::Cc(n), channel: Some(254) }
        );
    }
    assert!(parse_key("CC17_CH1").matches_cc(17, 0));
    assert!(!parse_key("CC17_CH1").matches_cc(17, 1));
    assert!(!parse_key("CC17").matches_note(17, 0));
    assert!(parse_key("17").matches_note(17, 12));
}

fn complaint(s: &str) -> String {
    match try_parse_key(s) {
        Err(e) => e.to_text(),
        Ok(_) => "none".to_string(),
    }
}

#[test]
fn bad_keys_are_refused_with_their_text() {
    assert_eq!(complaint("x"), "Parse error: Invalid note number in key binding: 'x'");
    assert_eq!(complaint("256"), "Parse error: Invalid note number in key binding: '256'");
    assert_eq!(complaint("CCx"), "Parse error: Invalid CC number in key binding: 'CCx'");
    assert_eq!(complaint("CC1_CH"), "Parse error: Invalid channel in key binding: 'CC1_CH'");
    assert_eq!(complaint("1_CH0"), "Parse error: Channel 0 is invalid in key binding: '1_CH0'");
    assert_eq!(complaint("1_CH2_CH3"), "Parse error: Invalid channel in key binding: '1_CH2_CH3'");
    assert_eq!(complaint("+7"), "none");
}

fn length_complaint(s: &str) -> String {
    match try_parse_length_fraction(s, 24) {
        Err(e) => e.to_text(),
        Ok(n) => n.to_string(),
    }
}

#[test]
fn bad_lengths_are_refused_with_their_text() {
    assert_eq!(
        length_complaint("abc"),
        "Parse error: Invalid length fraction (expected 'N/D'): 'abc'"
    );
    assert_eq!(length_complaint("a/2"), "Parse error: Invalid length numerator: 'a/2'");
    assert_eq!(length_complaint("1/b"), "Parse error: Invalid length denominator: '1/b'");
    assert_eq!(length_complaint("1/0"), "Parse error: Length denominator cannot be zero: '1/0'");
    assert_eq!(length_complaint("1/97"), "Parse error: Length resolves to zero ticks: '1/97'");
    assert_eq!(length_complaint("1/96"), "Parse error: Length resolves to zero ticks: '1/96'");
    assert_eq!(length_complaint("1/95"), "1");
    assert_eq!(length_complaint("2/192"), "1");
    for spelled in [" 1/96", "1/96 ", "1 / 96", "01/96", "+1/96", "1/096"] {
        assert_eq!(length_complaint(spelled), "1");
    }
    assert_eq!(length_complaint("1/48"), "2");
    assert_eq!(length_complaint("3/16"), "18");
}

#[test]
fn only_the_ratio_of_a_fraction_counts() {
    // a quarter is one beat at every resolution, down to one tick
    for ppqn in [1, 2, 5, 24, 96] {
        assert_eq!(try_parse_length_fraction("1/4", ppqn).unwrap(), ppqn);
        assert_eq!(try_parse_length_fraction("3/12", ppqn).unwrap(), ppqn);
        assert_eq!(try_parse_length_fraction("7/1", ppqn).unwrap(), 28 * ppqn);
    }
    assert_eq!(try_parse_length_fraction("1/8", 2).unwrap(), 1);
    assert_eq!(try_parse_length_fraction("1/96", 25).unwrap(), 1);
    assert_eq!(try_parse_length_fraction("1/96", 48).unwrap(), 2);
    assert!(try_parse_length_fraction("1/8", 1).is_err());
}

#[test]
fn durations_are_cut_alike() {
    for s in ["1.5", "1.5s", " 1.5 s ", "\t1.5  "] {
        assert_eq!(split_duration(s), ("1.5", false));
        assert_eq!(duration(s).unwrap(), 1_500_000_000);
    }
    assert_eq!(split_duration(" 1.5 ms"), ("1.5", true));
    for n in [0u64, 1, 3, 86_400, 1_000_000] {
        let seconds = Duration::from_secs(n).as_nanos();
        assert_eq!(duration(&n.to_string()).unwrap(), seconds);
        assert_eq!(duration(&format!("{}ms", n * 1000)).unwrap(), seconds);
    }
}

#[test]
fn half_a_sixteenth_before_the_end_goes_over_the_bar_in_other_loops() {
    assert_eq!(quantize_tick(189, 6, 96), 0); // the second pass
    assert_eq!(quantize_tick(285, 6, 96), 0);
    assert_eq!(quantize_tick(186, 12, 192), 0);
    assert_eq!(quantize_tick(94, 4, 96), 0);
    assert_eq!(quantize_tick(93, 6, 192), 96);
    assert_eq!(quantize_tick(92, 6, 96), 90);
}

#[test]
fn durations_are_refused_with_their_text() {
    assert_eq!(duration("x").unwrap_err().to_text(), "Parse error: Invalid duration: 'x'");
    let negative = "Parse error: Duration must be non-negative: '-2ms'";
    assert_eq!(duration("-2ms").unwrap_err().to_text(), negative);
    assert!(duration("inf").is_err());
    assert_eq!(duration(" 250 ms ").unwrap(), 250_000_000);
    assert_eq!(read_arm_time(&None, None).unwrap(), 0);
    let set = Some("2s".to_string());
    assert_eq!(read_arm_time(&set, number_in("2s")).unwrap(), 2_000_000_000);
    assert!(read_arm_time(&Some("x".to_string()), None).is_err());
}

#[test]
fn white_space_is_that_of_unicode() {
    for n in 0..=0x10FFFFu32 {
        if let Some(c) = char::from_u32(n) {
            assert_eq!(char_is_space(c), c.is_whitespace(), "{:x}", n);
        }
    }
    for s in ["", " ", "a", " a b\t", "\u{a0}x\u{3000}", "\n\n"] {
        assert_eq!(trim(s), s.trim());
    }
}

#[test]
fn numbers_are_read_as_the_language_reads_them() {
    let texts = ["", "+", "-1", "0", "00", "+12", "255", "256", "1 ", "x", "99999999999999999999"];
    for s in texts {
        assert_eq!(parse_number(s, 255), s.parse::<u8>().ok().map(|n| n as usize), "{}", s);
        assert_eq!(parse_number(s, usize::MAX), s.parse::<usize>().ok(), "{}", s);
    }
    for n in [0u64, 7, 10, 99, 100, u64::MAX] {
        assert_eq!(to_decimal(n), n.to_string());
    }
    assert_eq!(find("CC17_CH1", "_CH"), Some(4));
    assert_eq!(find("CC17", "_CH"), None);
    assert_eq!(find("é/é", "/"), Some(1));
}

fn drums(notes: &[&str]) -> DrumsConfig {
    DrumsConfig {
        notes: notes.iter().map(|n| n.to_string()).collect(),
        channel: 8,
        program: Some(3),
        volume: None,
        velocity: None,
        velocity_multiplier: None,
        length: None,
        name: None,
    }
}

fn with_drums(d: Option<DrumsConfig>) -> SceneConfig {
    let mut scene = default_scene();
    scene.drums = d;
    scene
}

#[test]
fn pads_are_read_from_the_scene() {
    let scene = with_drums(Some(drums(&["36", " 38 + 42 ", "1+2+3"])));
    let read = try_scene_drum_mapping(&scene).unwrap();
    assert_eq!(read, (vec![vec![36], vec![38, 42], vec![1, 2, 3]], 8));
    assert_eq!(try_scene_drum_mapping(&with_drums(None)).unwrap(), (vec![], 9));
    let bad = try_scene_drum_mapping(&with_drums(Some(drums(&["36", "38+"]))));
    assert_eq!(bad.unwrap_err().to_text(), "Parse error: Invalid drum note: ''");
}

#[test]
fn scenes_are_checked_before_they_are_taken() {
    let scene = default_scene();
    assert!(try_validate_scene_lengths(&scene).is_ok());
    assert!(scene_is_countable(&scene) && scene_is_ready(&scene));
    let mut bad = default_scene();
    bad.tracks[0].1.length = Length::Fraction("1/0".to_string());
    assert!(scene_is_countable(&bad));
    let said = "Parse error: Length denominator cannot be zero: '1/0'";
    assert_eq!(try_validate_scene_lengths(&bad).unwrap_err().to_text(), said);
    let refused = accept_scene("a.toml", Ok(bad)).unwrap_err();
    assert_eq!(refused.to_text(), format!("Parse error: Scene 'a.toml': {}", said));
    let refused = accept_scene("a.toml", Err("no".to_string())).unwrap_err();
    assert_eq!(refused.to_text(), "Parse error: Scene 'a.toml': no");
    assert_eq!(accept_scene("a.toml", Ok(default_scene())).unwrap().bpm, 120);

    let mut drummed = with_drums(Some(drums(&[])));
    drummed.drums.as_mut().unwrap().length = Some(Length::Fraction("x".to_string()));
    assert!(try_validate_scene_lengths(&drummed).is_err());
    let mut huge = default_scene();
    huge.tracks[0].1.length = Length::Fraction(format!("{}/1", usize::MAX));
    assert!(!scene_is_countable(&huge) && !scene_is_ready(&huge));
}

fn plain(key: &str) -> HwKeyBinding {
    HwKeyBinding { key: key.to_string(), led_note: Some(70), arm_time: None }
}

fn hardware() -> HardwareConfig {
    HardwareConfig {
        device: DeviceConfig { client_name: "c".to_string() },
        ports: PortsConfig { in_ports: vec![], out: vec![] },
        metronome: MetronomeHwConfig {
            key: "CC11".to_string(),
            led_note: Some(71),
            downbeat_note: 1,
            subdivision_note: 2,
            velocity: 3,
            channel: 4,
        },
        clear_track: plain("CC76"),
        record_track: plain("CC77"),
        undo_track: Some(plain("CC75")),
        clear_all: plain("CC79"),
        tracks: TracksConfig { keys: vec!["CC16".to_string(), "40_CH2".to_string()] },
        beats_per_measure: BeatsPerMeasureConfig {
            modifier: "CC17_CH1".to_string(),
            key4: "48".to_string(),
            key8: "50".to_string(),
            key16: "52".to_string(),
        },
        quantize: Some(QuantizeConfig { key: "CC78".to_string() }),
        instruments: Some(InstrumentsConfig { key: "CC1".to_string() }),
        leds: Some(LedConfig {
            out: vec![],
            on_channel: 1,
            off_channel: 2,
            blink_channel: Some(3),
        }),
        drums: Some(DrumsHwConfig { pads: vec!["CC40".to_string()] }),
        mute_track: None,
        volume_knob: None,
        bpm_knob: Some(QuantizeConfig { key: "CC2_CH3".to_string() }),
        scene_down: None,
        scene_up: Some(QuantizeConfig { key: "9".to_string() }),
    }
}

#[test]
fn key_mappings_are_built_from_both_files() {
    let scene = with_drums(Some(drums(&["36+37"])));
    let keys = try_build_key_mappings(&hardware(), &scene).unwrap();
    assert_eq!(keys.metronome, parse_key("CC11"));
    assert_eq!(keys.track_keys, vec![parse_key("CC16"), parse_key("40_CH2")]);
    assert_eq!(keys.drum_keys, vec![parse_key("CC40")]);
    assert_eq!((keys.drum_notes.clone(), keys.drum_channel), (vec![vec![36, 37]], 8));
    assert_eq!((keys.metronome_led, keys.record_led), (Some(71), Some(70)));
    assert_eq!(
        (keys.led_on_channel, keys.led_off_channel, keys.led_blink_channel),
        (Some(0), Some(1), Some(2))
    );
    assert_eq!(keys.bpm_knob, Some(parse_key("CC2_CH3")));
    assert_eq!(keys.volume_knob, None);
    assert_eq!(keys.scene_up, Some(parse_key("9")));
}

#[test]
fn bad_hardware_settings_are_refused() {
    let scene = default_scene();
    let mut hw = hardware();
    hw.beats_per_measure.modifier = "CC17".to_string();
    assert_eq!(
        try_build_key_mappings(&hw, &scene).err().unwrap().to_text(),
        "Parse error: beats_per_measure.modifier must include a channel (e.g. CC17_CH1)"
    );
    let mut hw = hardware();
    hw.tracks.keys.push("zz".to_string());
    assert_eq!(
        try_build_key_mappings(&hw, &scene).err().unwrap().to_text(),
        "Parse error: Invalid note number in key binding: 'zz'"
    );
    let mut hw = hardware();
    hw.leds.as_mut().unwrap().off_channel = 0;
    assert!(!mapping_is_ready(&hw, &scene));
    hw.beats_per_measure.modifier = "CC17".to_string();
    assert!(mapping_is_ready(&hw, &scene) && try_build_key_mappings(&hw, &scene).is_err());
    assert!(mapping_is_ready(&hardware(), &scene));
    assert!(accept_hardware("h.toml", Ok(hardware())).is_ok());
    assert_eq!(
        accept_hardware("h.toml", Err("bad".to_string())).unwrap_err().to_text(),
        "Parse error: Hardware 'h.toml': bad"
    );
    assert_eq!(ReloadError::Io("gone".to_string()).to_text(), "IO error: gone");
}

#[test]
fn instruments_have_names() {
    let gm = GmConfig { programs: vec![("5".to_string(), "Electric Piano".to_string())] };
    assert_eq!(gm_name(&gm, 5), "Electric Piano");
    assert_eq!(gm_name(&gm, 6), "Program 6");
}

#[test]
fn excluded_channels_are_dropped() {
    assert!(drops_message(&[0x99, 1, 2], &vec![10]));
    assert!(!drops_message(&[0x98, 1, 2], &vec![10]));
    assert!(!drops_message(&[], &vec![10]));
    assert!(drops_message(&[0xBF], &vec![1, 16]));
    assert!(!drops_message(&[0x90], &vec![]));
}

#[test]
fn files_are_sorted_by_name() {
    let file = |name: &str, path: &str| (name.to_string(), path.to_string());
    let files = vec![file("b", "1"), file("a", "2"), file("B", "3"), file("ab", "4"), file("a", "5")];
    let sorted = sort_by_name(&files);
    let paths: Vec<&str> = sorted.iter().map(|f| f.1.as_str()).collect();
    assert_eq!(paths, vec!["3", "2", "5", "4", "1"]);
    let mut expected = files.clone();
    expected.sort_by(|x, y| x.0.cmp(&y.0));
    assert_eq!(sorted, expected);
}

#[test]
fn scenes_are_taken_whole_or_not_at_all() {
    let named = |n: &str, bpm: u32| {
        let mut scene = default_scene();
        scene.bpm = bpm;
        (n.to_string(), Ok(scene))
    };
    let failed = |n: &str| (n.to_string(), Err(ReloadError::Parse(format!("{} is bad", n))));
    let scenes = collect_scenes(vec![named("a", 1), named("b", 2), named("c", 3)]).unwrap();
    let taken: Vec<(&str, u32)> = scenes.iter().map(|s| (s.0.as_str(), s.1.bpm)).collect();
    assert_eq!(taken, vec![("a", 1), ("b", 2), ("c", 3)]);
    assert!(collect_scenes(vec![]).unwrap().is_empty());
    let first = collect_scenes(vec![named("a", 1), failed("b"), named("c", 3), failed("d")]);
    assert_eq!(first.unwrap_err().to_text(), "Parse error: b is bad");
}
