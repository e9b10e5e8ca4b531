//! How the settings of the controller and of the scenes are read, told from their texts.
use crate::config;
use crate::config::{
    GmConfig, HardwareConfig, KeyBinding, KeyKind, KeyMappings, Length, QuantizeConfig, SceneConfig,
};
use crate::export;
use crate::laws::scenes as scene_laws;
use crate::laws::texts;
use crate::ports;
use crate::session;
use crate::text;
use vstd::prelude::*;

verus! {

/// Whether `key` is what the text of a key names.
pub open spec fn names_key(s: String, key: KeyBinding) -> bool {
    config::key_reading(s@) == Ok::<KeyBinding, Seq<char>>(key)
}

/// Whether `key` is what the text of a key names that may be left out.
pub open spec fn names_optional_key(s: Option<QuantizeConfig>, key: Option<KeyBinding>) -> bool {
    match s {
        Some(q) => key matches Some(k) && names_key(q.key, k),
        None => key is None,
    }
}

/// Whether each of `keys` is what its text names.
pub open spec fn names_keys(texts: Seq<String>, keys: Seq<KeyBinding>) -> bool {
    &&& keys.len() == texts.len()
    &&& forall|i: int| 0 <= i < keys.len() ==> names_key(#[trigger] texts[i], keys[i])
}

/// Whether the text of a key can be read.
pub open spec fn key_reads(s: String) -> bool {
    config::key_reading(s@) is Ok
}

/// Whether the text of a key can be read, where there is one.
pub open spec fn optional_key_reads(s: Option<QuantizeConfig>) -> bool {
    s matches Some(q) ==> key_reads(q.key)
}

/// Whether all texts of keys can be read.
pub open spec fn keys_read(texts: Seq<String>) -> bool {
    forall|i: int| 0 <= i < texts.len() ==> key_reads(#[trigger] texts[i])
}

proof fn lemma_first_bad_key(keys: Seq<Seq<char>>)
    ensures
        config::first_bad_key(keys) is None <==> forall|i: int|
            0 <= i < keys.len() ==> config::key_reading(#[trigger] keys[i]) is Ok,
    decreases keys.len(),
{
    if keys.len() > 0 {
        let front = keys.drop_last();
        lemma_first_bad_key(front);
        assert(keys[keys.len() - 1] == keys.last());
        if forall|i: int| 0 <= i < keys.len() ==> config::key_reading(#[trigger] keys[i]) is Ok {
            assert forall|i: int| 0 <= i < front.len() implies config::key_reading(
                #[trigger] front[i],
            ) is Ok by {
                assert(config::key_reading(keys[i]) is Ok);
            }
        }
        if config::first_bad_key(keys) is None {
            assert forall|i: int| 0 <= i < keys.len() implies config::key_reading(
                #[trigger] keys[i],
            ) is Ok by {
                if i < front.len() {
                    assert(config::key_reading(front[i]) is Ok);
                }
            }
        }
    }
}

proof fn lemma_texts_read(v: Seq<String>)
    ensures
        config::first_bad_key(config::texts(v)) is None <==> keys_read(v),
{
    let views = config::texts(v);
    lemma_first_bad_key(views);
    if keys_read(v) {
        assert forall|i: int| 0 <= i < views.len() implies config::key_reading(
            #[trigger] views[i],
        ) is Ok by {
            assert(key_reads(v[i]));
        }
    }
    if config::first_bad_key(views) is None {
        assert forall|i: int| 0 <= i < v.len() implies key_reads(#[trigger] v[i]) by {
            assert(config::key_reading(views[i]) is Ok);
        }
    }
}

/// The bindings of a controller are refused where and only where one of its key texts cannot be
/// read, the modifier is on no channel of its own, or the pads of the scene cannot be read.
pub proof fn law_bindings_are_refused_for_a_reason(hw: HardwareConfig, scene: SceneConfig)
    ensures
        config::mapping_error(hw, scene) is None <==> {
            &&& key_reads(hw.beats_per_measure.modifier)
            &&& config::key_reading(hw.beats_per_measure.modifier@) matches Ok(k)
            &&& k.channel is Some
            &&& hw.drums matches Some(d) ==> keys_read(d.pads@)
            &&& config::drum_mapping(scene) is Ok
            &&& key_reads(hw.metronome.key)
            &&& key_reads(hw.clear_track.key)
            &&& key_reads(hw.record_track.key)
            &&& key_reads(hw.clear_all.key)
            &&& keys_read(hw.tracks.keys@)
            &&& key_reads(hw.beats_per_measure.key4)
            &&& key_reads(hw.beats_per_measure.key8)
            &&& key_reads(hw.beats_per_measure.key16)
            &&& optional_key_reads(hw.quantize)
            &&& hw.instruments matches Some(i) ==> key_reads(i.key)
            &&& hw.undo_track matches Some(u) ==> key_reads(u.key)
            &&& optional_key_reads(hw.mute_track)
            &&& optional_key_reads(hw.volume_knob)
            &&& optional_key_reads(hw.bpm_knob)
            &&& optional_key_reads(hw.scene_down)
            &&& optional_key_reads(hw.scene_up)
        },
{
    lemma_texts_read(hw.tracks.keys@);
    match hw.drums {
        Some(d) => {
            lemma_texts_read(d.pads@);
        },
        None => {
            assert(config::first_bad_key(config::pad_keys(hw)) is None);
        },
    }
}

/// A light channel counted from zero.
pub open spec fn from_zero(channel: Option<u8>, counted: Option<u8>) -> bool {
    match counted {
        Some(c) => channel is Some && channel->0 == c - 1,
        None => channel is None,
    }
}

/// Every binding is that of its own setting: each key what the text under its name says, each light
/// its own note, each light channel its own, counted from zero, and the pads those of the scene.
pub proof fn law_every_binding_has_its_own_setting(
    m: KeyMappings,
    hw: HardwareConfig,
    scene: SceneConfig,
)
    requires
        config::mapping_error(hw, scene) is None,
        config::maps_keys(m, hw, scene),
        hw.leds matches Some(led) ==> led.on_channel >= 1 && led.off_channel >= 1 && (
        led.blink_channel matches Some(c) ==> c >= 1),
    ensures
        names_key(hw.metronome.key, m.metronome),
        names_key(hw.clear_track.key, m.clear_track),
        names_key(hw.record_track.key, m.record_track),
        names_key(hw.clear_all.key, m.clear_all),
        names_keys(hw.tracks.keys@, m.track_keys@),
        names_key(hw.beats_per_measure.modifier, m.shift),
        names_key(hw.beats_per_measure.key4, m.beat4),
        names_key(hw.beats_per_measure.key8, m.beat8),
        names_key(hw.beats_per_measure.key16, m.beat16),
        match hw.drums {
            Some(d) => names_keys(d.pads@, m.drum_keys@),
            None => m.drum_keys@.len() == 0,
        },
        names_optional_key(hw.quantize, m.quantize),
        match hw.instruments {
            Some(i) => m.instrument_select matches Some(k) && names_key(i.key, k),
            None => m.instrument_select is None,
        },
        match hw.undo_track {
            Some(u) => m.undo_track matches Some(k) && names_key(u.key, k),
            None => m.undo_track is None,
        },
        names_optional_key(hw.mute_track, m.mute_track),
        names_optional_key(hw.volume_knob, m.volume_knob),
        names_optional_key(hw.bpm_knob, m.bpm_knob),
        names_optional_key(hw.scene_down, m.scene_down),
        names_optional_key(hw.scene_up, m.scene_up),
        m.metronome_led == hw.metronome.led_note,
        m.record_led == hw.record_track.led_note,
        match hw.leds {
            Some(led) => {
                &&& from_zero(m.led_on_channel, Some(led.on_channel))
                &&& from_zero(m.led_off_channel, Some(led.off_channel))
                &&& from_zero(m.led_blink_channel, led.blink_channel)
            },
            None => m.led_on_channel is None && m.led_off_channel is None
                && m.led_blink_channel is None,
        },
        config::drum_mapping(scene) matches Ok((lists, channel)) && m.drum_channel == channel
            && m.drum_notes@.len() == lists.len() && forall|i: int|
            0 <= i < lists.len() ==> (#[trigger] m.drum_notes@[i])@ == lists[i],
{
    law_bindings_are_refused_for_a_reason(hw, scene);
    lemma_names_keys(hw.tracks.keys@, m.track_keys@);
    match hw.drums {
        Some(d) => {
            lemma_names_keys(d.pads@, m.drum_keys@);
        },
        None => {},
    }
    let lists = config::note_lists(m.drum_notes@);
    assert forall|i: int| 0 <= i < lists.len() implies (#[trigger] m.drum_notes@[i])@
        == lists[i] by {}
}

proof fn lemma_names_keys(v: Seq<String>, keys: Seq<KeyBinding>)
    requires
        keys_read(v),
        keys == config::keys_of(config::texts(v)),
    ensures
        names_keys(v, keys),
{
    let views = config::texts(v);
    assert forall|i: int| 0 <= i < keys.len() implies names_key(#[trigger] v[i], keys[i]) by {
        assert(key_reads(v[i]));
        assert(views[i] == v[i]@);
    }
}

/// The notes that the text of one pad names.
pub open spec fn pad_reading(s: Seq<char>) -> Result<Seq<u8>, Seq<char>> {
    config::pad_notes(config::plus_parts(s))
}

proof fn lemma_pads(entries: Seq<Seq<char>>)
    ensures
        match config::pads_notes(entries) {
            Ok(lists) => lists.len() == entries.len() && forall|i: int|
                0 <= i < entries.len() ==> pad_reading(#[trigger] entries[i]) == Ok::<
                    Seq<u8>,
                    Seq<char>,
                >(lists[i]),
            Err(_) => exists|i: int|
                0 <= i < entries.len() && pad_reading(#[trigger] entries[i]) is Err,
        },
    decreases entries.len(),
{
    if entries.len() > 0 {
        let front = entries.drop_last();
        lemma_pads(front);
        match config::pads_notes(front) {
            Ok(lists) => {
                assert(entries[entries.len() - 1] == entries.last());
                match config::pads_notes(entries) {
                    Ok(all) => {
                        assert forall|i: int| 0 <= i < entries.len() implies pad_reading(
                            #[trigger] entries[i],
                        ) == Ok::<Seq<u8>, Seq<char>>(all[i]) by {
                            if i < front.len() {
                                assert(pad_reading(front[i]) == Ok::<Seq<u8>, Seq<char>>(lists[i]));
                            }
                        }
                    },
                    Err(_) => {
                        assert(pad_reading(entries[entries.len() - 1]) is Err);
                    },
                }
            },
            Err(_) => {
                let i = choose|i: int|
                    0 <= i < front.len() && pad_reading(#[trigger] front[i]) is Err;
                assert(pad_reading(entries[i]) is Err);
            },
        }
    }
}

/// `parts` with a plus sign between every two.
pub open spec fn joined(parts: Seq<Seq<char>>) -> Seq<char>
    decreases parts.len(),
{
    if parts.len() == 0 {
        Seq::empty()
    } else if parts.len() == 1 {
        parts[0]
    } else {
        joined(parts.drop_last()).push('+') + parts.last()
    }
}

/// The text of a pad is cut at every plus sign and nowhere else: no part holds one, and with plus
/// signs between them the parts are the text again.
pub proof fn law_pads_are_cut_at_plus_signs(s: Seq<char>)
    ensures
        config::plus_parts(s).len() > 0,
        joined(config::plus_parts(s)) == s,
        forall|i: int, k: int|
            0 <= i < config::plus_parts(s).len() && 0 <= k < config::plus_parts(s)[i].len()
                ==> #[trigger] config::plus_parts(s)[i][k] != '+',
    decreases s.len(),
{
    let parts = config::plus_parts(s);
    if s.len() > 0 {
        let front = s.drop_last();
        law_pads_are_cut_at_plus_signs(front);
        let before = config::plus_parts(front);
        assert(s =~= front.push(s.last()));
        if s.last() == '+' {
            assert(parts.drop_last() =~= before);
            assert(joined(parts) =~= joined(before).push('+'));
        } else {
            let last = before.last().push(s.last());
            assert(parts =~= before.update(before.len() - 1, last));
            if parts.len() == 1 {
                assert(joined(parts) =~= s);
            } else {
                assert(parts.drop_last() =~= before.drop_last());
                assert(joined(parts) =~= joined(before).push(s.last()));
            }
        }
    } else {
        assert(joined(parts) =~= s);
    }
}

/// Each part of a pad is a note number from 0 to 255, with or without blanks around it, and stands
/// for that note; a part that is none has the pad refused.
pub proof fn law_pad_parts_are_note_numbers(parts: Seq<Seq<char>>)
    ensures
        match config::pad_notes(parts) {
            Ok(notes) => notes.len() == parts.len() && forall|i: int|
                0 <= i < parts.len() ==> text::number(text::trimmed(#[trigger] parts[i]), 255)
                    == Some(notes[i] as nat),
            Err(_) => exists|i: int|
                0 <= i < parts.len() && text::number(text::trimmed(#[trigger] parts[i]), 255) is None,
        },
    decreases parts.len(),
{
    if parts.len() > 0 {
        let front = parts.drop_last();
        law_pad_parts_are_note_numbers(front);
        assert(parts[parts.len() - 1] == parts.last());
        match config::pad_notes(front) {
            Ok(notes) => {
                match config::pad_notes(parts) {
                    Ok(all) => {
                        assert forall|i: int| 0 <= i < parts.len() implies text::number(
                            text::trimmed(#[trigger] parts[i]),
                            255,
                        ) == Some(all[i] as nat) by {
                            if i < front.len() {
                                assert(text::number(text::trimmed(front[i]), 255) == Some(
                                    notes[i] as nat,
                                ));
                            }
                        }
                    },
                    Err(_) => {
                        assert(text::number(text::trimmed(parts[parts.len() - 1]), 255) is None);
                    },
                }
            },
            Err(_) => {
                let i = choose|i: int|
                    0 <= i < front.len() && text::number(
                        text::trimmed(#[trigger] front[i]),
                        255,
                    ) is None;
                assert(text::number(text::trimmed(parts[i]), 255) is None);
            },
        }
    }
}

/// The pads of a scene are read one by one, each from its own text and in order, and sound on the
/// channel of its drums; they are refused where and only where one of the texts cannot be read.
/// Without drums there are no pads, and the channel is that of the drums in General MIDI.
pub proof fn law_pads_are_read_one_by_one(scene: SceneConfig)
    ensures
        match scene.drums {
            None => config::drum_mapping(scene) matches Ok((lists, channel)) && lists.len() == 0
                && channel == 9,
            Some(d) => match config::drum_mapping(scene) {
                Ok((lists, channel)) => channel == d.channel && lists.len() == d.notes@.len()
                    && forall|i: int|
                    0 <= i < lists.len() ==> pad_reading((#[trigger] d.notes@[i])@) == Ok::<
                        Seq<u8>,
                        Seq<char>,
                    >(lists[i]),
                Err(_) => exists|i: int|
                    0 <= i < d.notes@.len() && pad_reading((#[trigger] d.notes@[i])@) is Err,
            },
        },
{
    match scene.drums {
        None => {},
        Some(d) => {
            let entries = config::texts(d.notes@);
            lemma_pads(entries);
            match config::drum_mapping(scene) {
                Ok((lists, channel)) => {
                    assert forall|i: int| 0 <= i < lists.len() implies pad_reading(
                        (#[trigger] d.notes@[i])@,
                    ) == Ok::<Seq<u8>, Seq<char>>(lists[i]) by {
                        assert(entries[i] == d.notes@[i]@);
                    }
                },
                Err(_) => {
                    let i = choose|i: int|
                        0 <= i < entries.len() && pad_reading(#[trigger] entries[i]) is Err;
                    assert(pad_reading(d.notes@[i]@) is Err);
                },
            }
        },
    }
}

/// Whether a length can be read.
pub open spec fn length_reads(length: Length, ppqn: usize) -> bool {
    match length {
        Length::Ticks(_) => true,
        Length::Fraction(s) => config::fraction_reading(s@, ppqn as nat) is Ok,
    }
}

proof fn lemma_bad_length(tracks: Seq<(String, config::TomlTrackConfig)>, ppqn: usize)
    ensures
        config::first_bad_length(tracks, ppqn as nat) is None <==> forall|i: int|
            0 <= i < tracks.len() ==> length_reads((#[trigger] tracks[i]).1.length, ppqn),
    decreases tracks.len(),
{
    if tracks.len() > 0 {
        let front = tracks.drop_last();
        lemma_bad_length(front, ppqn);
        assert(tracks[tracks.len() - 1] == tracks.last());
        if config::first_bad_length(tracks, ppqn as nat) is None {
            assert forall|i: int| 0 <= i < tracks.len() implies length_reads(
                (#[trigger] tracks[i]).1.length,
                ppqn,
            ) by {
                if i < front.len() {
                    assert(length_reads(front[i].1.length, ppqn));
                }
            }
        }
        if forall|i: int|
            0 <= i < tracks.len() ==> length_reads((#[trigger] tracks[i]).1.length, ppqn) {
            assert forall|i: int| 0 <= i < front.len() implies length_reads(
                (#[trigger] front[i]).1.length,
                ppqn,
            ) by {
                assert(length_reads(tracks[i].1.length, ppqn));
            }
        }
    }
}

/// A scene is refused where and only where the length of one of its tracks, or that of its drums,
/// cannot be read. A length in ticks always can.
pub proof fn law_scenes_are_refused_for_a_length(scene: SceneConfig)
    ensures
        config::scene_length_error(scene) is None <==> {
            &&& forall|i: int|
                0 <= i < scene.tracks@.len() ==> length_reads(
                    (#[trigger] scene.tracks@[i]).1.length,
                    scene.ppqn,
                )
            &&& scene.drums matches Some(d) ==> (d.length matches Some(l) ==> length_reads(
                l,
                scene.ppqn,
            ))
        },
{
    lemma_bad_length(scene.tracks@, scene.ppqn);
}

/// An instrument has the name that is listed under the number of its program; one that is not
/// listed is called by that number.
pub proof fn law_instruments_are_named_by_number(gm: GmConfig, program: u8, i: int)
    requires
        gm.well_named(),
    ensures
        0 <= i < gm.programs@.len() && gm.programs@[i].0@ == text::decimal(program as nat)
            ==> config::instrument_name(gm, program) == gm.programs@[i].1@,
        (forall|j: int|
            0 <= j < gm.programs@.len() ==> (#[trigger] gm.programs@[j]).0@ != text::decimal(
                program as nat,
            )) ==> config::instrument_name(gm, program) == "Program "@ + text::decimal(
            program as nat,
        ),
{
    let key = text::decimal(program as nat);
    if 0 <= i < gm.programs@.len() && gm.programs@[i].0@ == key {
        scene_laws::lemma_found_anywhere(gm.programs@, i);
    } else if forall|j: int| 0 <= j < gm.programs@.len() ==> (#[trigger] gm.programs@[j]).0@ != key {
        scene_laws::lemma_named_at(gm.programs@, key);
    }
}

/// The digits of a number stand for it: each is worth its place, and zero is written as one digit.
pub proof fn law_decimal_digits_count_by_their_place(n: nat)
    ensures
        n < 10 ==> text::decimal(n).len() == 1 && text::decimal(n)[0] as int == '0' as int + n,
        n >= 10 ==> text::decimal(n).drop_last() == text::decimal(n / 10) && text::decimal(
            n,
        ).last() as int == '0' as int + n % 10,
{
    if n >= 10 {
        assert(text::decimal(n).drop_last() =~= text::decimal(n / 10));
    }
}

/// A text is read as a number only where it holds decimal digits, at least one, and nothing else
/// but a plus sign in front; appending a digit multiplies by ten and adds it; and a number beyond
/// the largest that is accepted is refused.
pub proof fn law_only_digits_are_numbers(s: Seq<char>, c: char, max: nat)
    ensures
        text::number(s, max) matches Some(n) ==> n <= max && s.len() > 0 && forall|i: int|
            (0 < i < s.len() || (i == 0 && s[0] != '+')) ==> '0' <= #[trigger] s[i] <= '9',
        text::number(s, max) is Some && s[0] == '+' ==> s.len() > 1,
        '0' <= c <= '9' ==> text::number(seq![c], max) == if c as int - '0' as int <= max {
            Some((c as int - '0' as int) as nat)
        } else {
            None::<nat>
        },
        text::number(s, max) matches Some(n) ==> ('0' <= c <= '9' ==> text::number(s.push(c), max)
            == if n * 10 + (c as int - '0' as int) <= max {
            Some((n * 10 + (c as int - '0' as int)) as nat)
        } else {
            None::<nat>
        }),
        !('0' <= c <= '9') && s.len() > 0 ==> text::number(s.push(c), max) is None,
{
    let plus = s.len() > 0 && s[0] == '+';
    let digits = if plus {
        s.drop_first()
    } else {
        s
    };
    if text::number(s, max) is Some {
        assert forall|i: int|
            (0 < i < s.len() || (i == 0 && s[0] != '+')) implies '0' <= #[trigger] s[i] <= '9' by {
            let k = if plus {
                i - 1
            } else {
                i
            };
            assert(text::is_digit(digits[k]));
        }
        let longer = s.push(c);
        let more = digits.push(c);
        assert(more =~= if plus {
            longer.drop_first()
        } else {
            longer
        });
        assert(more.drop_last() =~= digits);
        if '0' <= c <= '9' {
            assert forall|i: int| 0 <= i < more.len() implies text::is_digit(#[trigger] more[i]) by {
                if i < digits.len() {
                    assert(text::is_digit(digits[i]));
                }
            }
        }
    }
    let one = seq![c];
    assert(one.drop_last() =~= Seq::empty());
    assert(text::digits_value(one.drop_last()) == 0);
    assert(one[0] == c);
    if !('0' <= c <= '9') && s.len() > 0 {
        let longer = s.push(c);
        let more = if longer[0] == '+' {
            longer.drop_first()
        } else {
            longer
        };
        assert(more[more.len() - 1] == c);
        assert(!text::is_digit(more[more.len() - 1]));
    }
}

/// A key text names a note or a control change only with a number up to 255 in it, and a channel
/// only with a number from 1 to 255 behind the mark.
pub proof fn law_keys_are_refused(base: Seq<char>, after: Seq<char>)
    requires
        forall|i: int| 0 <= i < base.len() ==> #[trigger] base[i] != '_',
    ensures
        ({
            let digits = if base.len() >= 2 && base[0] == 'C' && base[1] == 'C' {
                base.skip(2)
            } else {
                base
            };
            &&& text::number(digits, 255) is None ==> config::key_reading(base) is Err
                && config::key_reading(base + "_CH"@ + after) is Err
            &&& text::number(after, 255) is None || text::number(after, 255) == Some(0nat)
                ==> config::key_reading(base + "_CH"@ + after) is Err
            &&& config::key_reading(base) matches Ok(k) ==> {
                &&& k.channel is None
                &&& text::number(digits, 255) matches Some(n)
                &&& k.kind == if base.len() >= 2 && base[0] == 'C' && base[1] == 'C' {
                    KeyKind::Cc(n as u8)
                } else {
                    KeyKind::Note(n as u8)
                }
            }
            &&& config::key_reading(base + "_CH"@ + after) matches Ok(k) ==> {
                &&& config::key_reading(base) matches Ok(plain)
                &&& k.kind == plain.kind
                &&& text::number(after, 255) matches Some(n)
                &&& k.channel is Some && k.channel->0 == n - 1
            }
        }),
{
    texts::lemma_no_channel(base);
    texts::lemma_split_at_channel(base, after);
}

/// A port is found where the pattern matches its name and no port before it has a name that it
/// matches; none is found where and only where it matches no name.
pub proof fn law_the_first_port_that_matches_is_found(
    names: Seq<Option<String>>,
    pattern: Seq<char>,
    k: int,
)
    ensures
        match ports::port_found(names, pattern) {
            Some(i) => {
                &&& 0 <= i < names.len()
                &&& names[i] matches Some(n)
                &&& ports::regex_match(pattern, n@) == Some(true)
                &&& 0 <= k < i ==> (names[k] matches Some(m) ==> ports::regex_match(pattern, m@)
                    != Some(true))
            },
            None => 0 <= k < names.len() ==> (names[k] matches Some(m) ==> ports::regex_match(
                pattern,
                m@,
            ) != Some(true)),
        },
{
    let hits = names.map_values(|name: Option<String>| ports::is_hit(name, pattern));
    lemma_first_true(hits);
    match ports::first_true(hits) {
        Some(i) => {
            assert(hits[i]);
            if 0 <= k < i {
                assert(!hits[k]);
            }
        },
        None => {
            if 0 <= k < names.len() {
                assert(!hits[k]);
            }
        },
    }
}

proof fn lemma_first_true(hits: Seq<bool>)
    ensures
        match ports::first_true(hits) {
            Some(i) => 0 <= i < hits.len() && hits[i] && forall|k: int|
                0 <= k < i ==> !#[trigger] hits[k],
            None => forall|k: int| 0 <= k < hits.len() ==> !#[trigger] hits[k],
        },
    decreases hits.len(),
{
    if hits.len() > 0 {
        let front = hits.drop_last();
        lemma_first_true(front);
        assert(forall|k: int| 0 <= k < front.len() ==> front[k] == hits[k]);
        match ports::first_true(front) {
            Some(i) => {
                assert(hits[i]);
            },
            None => {
                assert forall|k: int| 0 <= k < front.len() implies !#[trigger] hits[k] by {
                    assert(!front[k]);
                }
            },
        }
    }
}

/// Of several patterns the first that finds a port decides.
pub proof fn law_the_first_pattern_that_finds_decides(
    names: Seq<Option<String>>,
    patterns: Seq<String>,
)
    ensures
        match ports::port_found_by_any(names, patterns) {
            Some(i) => exists|p: int|
                0 <= p < patterns.len() && ports::port_found(names, (#[trigger] patterns[p])@)
                    == Some(i) && forall|q: int|
                    0 <= q < p ==> ports::port_found(names, (#[trigger] patterns[q])@) is None,
            None => forall|q: int|
                0 <= q < patterns.len() ==> ports::port_found(names, (#[trigger] patterns[q])@) is None,
        },
    decreases patterns.len(),
{
    if patterns.len() > 0 {
        let front = patterns.drop_last();
        law_the_first_pattern_that_finds_decides(names, front);
        let n = patterns.len() - 1;
        match ports::port_found_by_any(names, front) {
            Some(i) => {
                let p = choose|p: int|
                    0 <= p < front.len() && ports::port_found(names, (#[trigger] front[p])@)
                        == Some(i) && forall|q: int|
                        0 <= q < p ==> ports::port_found(names, (#[trigger] front[q])@) is None;
                assert(patterns[p] == front[p]);
                assert forall|q: int| 0 <= q < p implies ports::port_found(
                    names,
                    (#[trigger] patterns[q])@,
                ) is None by {
                    assert(ports::port_found(names, front[q]@) is None);
                }
            },
            None => {
                assert forall|q: int| 0 <= q < n implies ports::port_found(
                    names,
                    (#[trigger] patterns[q])@,
                ) is None by {
                    assert(ports::port_found(names, front[q]@) is None);
                }
                assert(patterns[n] == patterns.last());
            },
        }
    }
}

/// A port drops the messages on the channels that it leaves out, counted from one, and no others.
pub proof fn law_ports_drop_by_channel(message: Seq<u8>, excluded: Seq<u8>, i: int)
    ensures
        session::is_excluded(message, excluded) ==> message.len() > 0 && exists|k: int|
            0 <= k < excluded.len() && #[trigger] excluded[k] == message[0] as int % 16 + 1,
        message.len() > 0 && 0 <= i < excluded.len() && excluded[i] == message[0] as int % 16 + 1
            ==> session::is_excluded(message, excluded),
{
    if message.len() > 0 {
        let status = message[0];
        assert(status & 0x0F == status % 16) by (bit_vector);
        let channel = ((status & 0x0F) + 1) as u8;
        if excluded.contains(channel) {
            let k = choose|k: int| 0 <= k < excluded.len() && excluded[k] == channel;
            assert(excluded[k] == status as int % 16 + 1);
        }
        if 0 <= i < excluded.len() && excluded[i] == status as int % 16 + 1 {
            assert(excluded[i] == channel);
        }
    }
}

/// The scene in use is that at the place of the engine, and the first where there is none.
pub proof fn law_the_scene_in_use_is_one_of_them(idx: usize, count: usize)
    ensures
        count > 0 ==> session::place_in_use(idx, count) < count,
        idx < count ==> session::place_in_use(idx, count) == idx,
        idx >= count ==> session::place_in_use(idx, count) == 0,
{
}

/// A file of settings is taken where it could be read and, for a scene, its lengths can be; else the
/// complaint names the file and says what the matter is.
pub proof fn law_files_are_taken_or_named(
    path: Seq<char>,
    scene: Result<SceneConfig, String>,
    hw: Result<HardwareConfig, String>,
)
    ensures
        scene matches Ok(read) ==> (config::scene_length_error(read) is None
            <==> session::scene_taken(path, scene) is Ok),
        session::scene_taken(path, scene) matches Ok(taken) ==> scene == Ok::<SceneConfig, String>(
            taken,
        ),
        scene matches Err(m) ==> session::scene_taken(path, scene) == Err::<SceneConfig, Seq<char>>(
            "Scene '"@ + path + "': "@ + m@,
        ),
        scene matches Ok(read) ==> (config::scene_length_error(read) matches Some(t)
            ==> session::scene_taken(path, scene) == Err::<SceneConfig, Seq<char>>(
            "Scene '"@ + path + "': "@ + ("Parse error: "@ + t),
        )),
        hw matches Ok(read) ==> session::hardware_taken(path, hw) == Ok::<
            HardwareConfig,
            Seq<char>,
        >(read),
        hw matches Err(m) ==> session::hardware_taken(path, hw) == Err::<HardwareConfig, Seq<char>>(
            "Hardware '"@ + path + "': "@ + m@,
        ),
{
}

/// The file of the loops has the name of the scene and the time in its own, and the ending of MIDI
/// files.
pub proof fn law_the_file_is_named_after_the_scene(name: Seq<char>, seconds: nat)
    ensures
        ({
            let file = export::file_name(name, seconds);
            &&& file.len() == name.len() + 1 + text::decimal(seconds).len() + 4
            &&& file.take(name.len() as int) == name
            &&& file[name.len() as int] == '_'
            &&& file.subrange(name.len() as int + 1, file.len() - 4) == text::decimal(seconds)
            &&& file.skip(file.len() - 4) == ".mid"@
        }),
{
    reveal_strlit("_");
    reveal_strlit(".mid");
    let file = export::file_name(name, seconds);
    assert(file.take(name.len() as int) =~= name);
    assert(file.subrange(name.len() as int + 1, file.len() - 4) =~= text::decimal(seconds));
    assert(file.skip(file.len() - 4) =~= ".mid"@);
}

} // verus!
