//! Recording, playback, undo and arming.
use crate::clock;
use crate::config::{KeyMappings, SceneConfig};
use crate::domain;
use crate::domain::{Engine, MessageType, TrackEvent};
use crate::midi;
use crate::recording;
use crate::scene;
use vstd::prelude::*;

verus! {

/// How far apart two ticks are.
pub open spec fn distance(a: int, b: int) -> int {
    if a >= b {
        a - b
    } else {
        b - a
    }
}

/// The point of the grid that quantizing takes: the nearest, and of two the later, but for the
/// last half sixteenth of the first pass of a loop of four beats of 24 ticks.
pub open spec fn taken_point(tick: int, step: int, length: int) -> int {
    if domain::before_the_bar(tick, step, length) {
        tick - step / 2
    } else {
        domain::snapped(tick, step)
    }
}

/// Quantizing moves a tick to the nearest point of the grid, folded into the loop: no other point
/// is nearer, and of two that are equally near the later one is taken, unless it is the first end
/// of a loop of four beats of 24 ticks.
pub proof fn law_quantize_takes_the_nearest_point(tick: int, step: int, length: int, other: int)
    requires
        tick >= 0,
        step > 0,
        length > 0,
        other % step == 0,
    ensures
        domain::quantized(tick, step, length) == taken_point(tick, step, length) % length,
        taken_point(tick, step, length) % step == 0,
        distance(tick, taken_point(tick, step, length)) <= distance(tick, other),
        other > taken_point(tick, step, length) && !domain::before_the_bar(tick, step, length)
            ==> distance(tick, taken_point(tick, step, length)) < distance(tick, other),
{
    let at = taken_point(tick, step, length);
    let raised = tick + step / 2;
    domain::lemma_floor_to_grid(raised, step);
    if other > at {
        lemma_next_on_grid(at, other, step);
    } else if other < at {
        lemma_next_on_grid(other, at, step);
    }
}

/// Two points of a grid are a step apart or more.
pub proof fn lemma_next_on_grid(a: int, b: int, step: int)
    requires
        step > 0,
        a < b,
        a % step == 0,
        b % step == 0,
    ensures
        a + step <= b,
{
    vstd::arithmetic::div_mod::lemma_fundamental_div_mod(a, step);
    vstd::arithmetic::div_mod::lemma_fundamental_div_mod(b, step);
    let i = a / step;
    let j = b / step;
    assert(i < j) by (nonlinear_arith)
        requires
            step > 0,
            step * i < step * j,
    ;
    assert(step * i + step <= step * j) by (nonlinear_arith)
        requires
            step > 0,
            i + 1 <= j,
    ;
}

/// In a loop that holds a whole number of sixteenths, a quantized tick is on the grid and
/// quantizing it again leaves it where it is.
pub proof fn law_quantize_once_is_enough(tick: int, step: int, length: int)
    requires
        tick >= 0,
        step > 0,
        length > 0,
        length % step == 0,
    ensures
        domain::quantized(tick, step, length) % step == 0,
        0 <= domain::quantized(tick, step, length) < length,
        domain::quantized(domain::quantized(tick, step, length), step, length)
            == domain::quantized(tick, step, length),
{
    let at = taken_point(tick, step, length);
    law_quantize_takes_the_nearest_point(tick, step, length, 0);
    let folded = at % length;
    lemma_mod_of_multiple(at, length, step);
    assert(folded % step == 0);
    vstd::arithmetic::div_mod::lemma_small_mod(folded as nat, length as nat);
    if domain::before_the_bar(folded, step, length) {
        lemma_next_on_grid(folded, length, step);
    }
    domain::lemma_floor_to_grid(folded + step / 2, step);
    let again = domain::snapped(folded, step);
    if again > folded {
        lemma_next_on_grid(folded, again, step);
    } else if again < folded {
        lemma_next_on_grid(again, folded, step);
    }
    assert(again == folded);
}

/// Quantizing goes by the place in the loop, whichever pass the clock is in. The exception is the
/// last half sixteenth of a loop of four beats of 24 ticks, which stays before the bar in the
/// first pass alone.
pub proof fn law_quantize_goes_by_the_place_in_the_loop(tick: int, step: int, length: int)
    requires
        tick >= 0,
        step > 0,
        length > 0,
        length % step == 0,
        domain::before_the_bar(tick % length, step, length) ==> tick < length,
    ensures
        domain::quantized(tick % length, step, length) == domain::quantized(tick, step, length),
{
    let p = tick % length;
    vstd::arithmetic::div_mod::lemma_small_mod(p as nat, length as nat);
    if !domain::before_the_bar(tick, step, length) {
        vstd::arithmetic::div_mod::lemma_fundamental_div_mod(tick, length);
        vstd::arithmetic::div_mod::lemma_fundamental_div_mod(length, step);
        let q = tick / length;
        let k = length / step;
        let a = p + step / 2;
        assert(tick + step / 2 == step * (k * q) + a) by (nonlinear_arith)
            requires
                tick == length * q + p,
                length == step * k,
                a == p + step / 2,
        ;
        vstd::arithmetic::div_mod::lemma_hoist_over_denominator(a, k * q, step as nat);
        let n = a / step;
        assert((k * q) * step + a == tick + step / 2) by (nonlinear_arith)
            requires
                tick + step / 2 == step * (k * q) + a,
        ;
        assert((tick + step / 2) / step == n + k * q);
        assert((n + k * q) * step == length * q + n * step) by (nonlinear_arith)
            requires
                length == step * k,
        ;
        vstd::arithmetic::div_mod::lemma_mod_multiples_vanish(q, n * step, length);
    }
}

/// Folding into a multiple of `step` keeps the remainder by `step`.
pub proof fn lemma_mod_of_multiple(a: int, length: int, step: int)
    requires
        step > 0,
        length > 0,
        length % step == 0,
    ensures
        (a % length) % step == a % step,
{
    vstd::arithmetic::div_mod::lemma_fundamental_div_mod(a, length);
    vstd::arithmetic::div_mod::lemma_fundamental_div_mod(length, step);
    let q = a / length;
    let k = length / step;
    assert(a == step * (k * q) + a % length) by (nonlinear_arith)
        requires
            a == length * q + a % length,
            length == step * k,
    ;
    vstd::arithmetic::div_mod::lemma_mod_multiples_vanish(k * q, a % length, step);
}

/// The note that a message starts, where it is neither swallowed by the modifier nor on the pads'
/// channel.
pub open spec fn starts_playing(e: Engine, keys: KeyMappings, bytes: Seq<u8>) -> bool {
    &&& midi::is_note_message(bytes)
    &&& midi::starts_note(bytes)
    &&& !midi::swallows(e, keys, bytes[0] & 0x0F)
    &&& bytes[0] & 0x0F != 9
    &&& midi::has_channel(e)
}

/// Whether the active track is recording, and can.
pub open spec fn is_capturing(e: Engine) -> bool {
    &&& e.is_recording
    &&& midi::has_loop(e)
    &&& e.tracks.contains_key(e.active_track)
}

/// A note that is played while recording is added to the active track, and is played back from
/// then on whenever the clock comes to its place of the loop: on any later tick at that place the
/// message of the recorded event is among those that the track sends, and at any other place the
/// event is not due. Its place is that of the sixteenth on which it sounds where quantizing is on,
/// and where quantizing is never on, the place at which it was played.
pub proof fn law_what_is_recorded_is_played_back(
    e: Engine,
    keys: KeyMappings,
    scenes: Seq<(String, SceneConfig)>,
    bytes: Seq<u8>,
    now: u128,
    later: Engine,
)
    requires
        starts_playing(e, keys, bytes),
        is_capturing(e),
        recording::loop_length(later, e.active_track) == e.track_lengths[e.active_track],
        later.tracks.contains_key(e.active_track),
        !later.muted_tracks.contains(e.active_track),
    ensures
        ({
            let id = e.active_track;
            let length = e.track_lengths[id] as int;
            let event = midi::note_event(e, bytes);
            let after = midi::reaction(e, keys, scenes, bytes, now).engine;
            let place = clock::sounding_tick(later, id, event);
            &&& after.tracks[id] == e.tracks[id].push(event)
            &&& event.message_type == MessageType::NoteOn
            &&& event.data1 == bytes[1]
            &&& event.data2 == bytes[2]
            &&& event.channel == midi::active_channel(e)
            &&& event.tick < length
            &&& event.tick == if e.quantize_on {
                domain::quantized(e.current_tick as int, e.ppqn as int / 4, length)
            } else {
                e.current_tick as int % length
            }
            &&& 0 <= place < length
            &&& !later.quantize_on ==> place == event.tick
            &&& clock::is_due(later, id, event) <==> later.current_tick as int % length == place
            &&& later.current_tick as int % length == place && clock::audible(later, id).contains(
                event,
            ) ==> clock::track_messages(later, id).contains(
                clock::event_message(later, id, event),
            )
        }),
{
    let id = e.active_track;
    let event = midi::note_event(e, bytes);
    let after = midi::reaction(e, keys, scenes, bytes, now).engine;
    assert(after.tracks[id] =~= e.tracks[id].push(event));
    if clock::audible(later, id).contains(event) && clock::is_due(later, id, event) {
        lemma_due_event_is_sent(later, id, event);
    }
}

/// An audible event of a track that is not muted sends its message when it is due.
proof fn lemma_due_event_is_sent(e: Engine, id: usize, event: TrackEvent)
    requires
        !e.muted_tracks.contains(id),
        clock::audible(e, id).contains(event),
        clock::is_due(e, id, event),
    ensures
        clock::track_messages(e, id).contains(clock::event_message(e, id, event)),
{
    let events = clock::audible(e, id);
    let due = |event: TrackEvent| clock::is_due(e, id, event);
    let i = choose|i: int| 0 <= i < events.len() && events[i] == event;
    events.lemma_filter_contains(due, i);
    let kept = events.filter(due);
    let j = choose|j: int| 0 <= j < kept.len() && kept[j] == event;
    assert(clock::track_messages(e, id)[j] == clock::event_message(e, id, event));
}

/// With quantizing on, a note is recorded on the nearest sixteenth, and where the loop holds a
/// whole number of sixteenths it is played back on exactly that tick, whether quantizing is still
/// on or not.
pub proof fn law_quantized_notes_sound_on_the_grid(
    e: Engine,
    keys: KeyMappings,
    bytes: Seq<u8>,
    later: Engine,
)
    requires
        starts_playing(e, keys, bytes),
        is_capturing(e),
        e.quantize_on,
        e.ppqn >= 4,
        later.ppqn == e.ppqn,
        recording::loop_length(later, e.active_track) == e.track_lengths[e.active_track],
        e.track_lengths[e.active_track] as int % (e.ppqn as int / 4) == 0,
    ensures
        ({
            let id = e.active_track;
            let length = e.track_lengths[id] as int;
            let step = e.ppqn as int / 4;
            let event = midi::note_event(e, bytes);
            &&& event.tick == domain::quantized(e.current_tick as int, step, length)
            &&& event.tick as int % step == 0
            &&& clock::sounding_tick(later, id, event) == event.tick
        }),
{
    let length = e.track_lengths[e.active_track] as int;
    let step = e.ppqn as int / 4;
    law_quantize_once_is_enough(e.current_tick as int, step, length);
    domain::lemma_floor_to_grid(e.current_tick as int + step / 2, step);
}

/// A pitch bend is recorded on the tick on which it is played, whether quantizing is on or not.
pub proof fn law_pitch_bends_are_never_quantized(
    e: Engine,
    keys: KeyMappings,
    scenes: Seq<(String, SceneConfig)>,
    bytes: Seq<u8>,
    now: u128,
)
    requires
        midi::is_pitch_bend(bytes),
        is_capturing(e),
    ensures
        ({
            let events = midi::reaction(
                e,
                keys,
                scenes,
                bytes,
                now,
            ).engine.tracks[e.active_track];
            &&& events.len() == e.tracks[e.active_track].len() + 1
            &&& events.drop_last() == e.tracks[e.active_track]
            &&& events.last().message_type == MessageType::PitchBend
            &&& events.last().tick == e.current_tick as int
                % e.track_lengths[e.active_track] as int
        }),
{
    let kind = bytes[0] & 0xF0;
    assert(kind == 0xE0);
    let events = midi::reaction(e, keys, scenes, bytes, now).engine.tracks[e.active_track];
    assert(events.drop_last() =~= e.tracks[e.active_track]);
}

/// While a recording runs, what is played now does not sound from the clock before the loop comes
/// round: a recorded note leaves the audible events of its track as they are.
pub proof fn law_the_current_pass_is_not_replayed(
    e: Engine,
    keys: KeyMappings,
    bytes: Seq<u8>,
    id: usize,
)
    requires
        midi::is_note_message(bytes),
        e.is_recording,
        e.tracks.contains_key(id),
        e.loop_start_lens.contains_key(id),
        e.loop_start_lens[id] <= e.tracks[id].len(),
        !midi::swallows(e, keys, bytes[0] & 0x0F),
    ensures
        clock::audible(midi::note_reaction(e, keys, bytes).engine, id) == clock::audible(e, id),
{
    let after = midi::note_reaction(e, keys, bytes).engine;
    assert(clock::audible(after, id) =~= clock::audible(e, id));
}

/// Playing only adds: a note that the modifier lets through, a pitch bend and a tick of the clock
/// leave what every track holds in place, in front of what they add.
pub proof fn law_playing_only_adds(
    e: Engine,
    keys: KeyMappings,
    scenes: Seq<(String, SceneConfig)>,
    bytes: Seq<u8>,
    now: u128,
    id: usize,
)
    requires
        e.tracks.contains_key(id),
        !midi::is_control_change(bytes),
        midi::is_note_message(bytes) ==> !midi::swallows(e, keys, bytes[0] & 0x0F),
    ensures
        ({
            let after = midi::reaction(e, keys, scenes, bytes, now).engine;
            &&& after.tracks.contains_key(id)
            &&& e.tracks[id].is_prefix_of(after.tracks[id])
        }),
        clock::ticked(e, now).tracks.contains_key(id),
        e.tracks[id].is_prefix_of(clock::ticked(e, now).tracks[id]),
{
    let after = midi::reaction(e, keys, scenes, bytes, now).engine;
    assert(e.tracks[id] =~= after.tracks[id].subrange(0, e.tracks[id].len() as int));
    let ticked = clock::ticked(e, now);
    assert(e.tracks[id] =~= ticked.tracks[id].subrange(0, e.tracks[id].len() as int));
}

/// On the tick of a punch-in, every track may replay what it held before, and nothing of the
/// recording that begins: the keys that are down sound already.
pub proof fn law_punch_in_replays_what_was_there(e: Engine, now: u128, id: usize)
    requires
        clock::punches_in(e, now),
        e.tracks.contains_key(id),
        e.tracks[id].len() <= usize::MAX,
    ensures
        clock::audible(clock::prepared(e, now), id) == e.tracks[id],
{
    let after = clock::prepared(e, now);
    assert(after.is_recording);
    assert(after.loop_start_lens.contains_key(id) && after.loop_start_lens[id]
        == e.tracks[id].len());
    assert(clock::audible(after, id) =~= e.tracks[id]);
}

/// A key that is down when a recording begins starts at the beginning of the loop, and on the tick
/// of the punch-in the active track sends what it would have sent without it.
pub proof fn law_keys_down_start_with_the_recording(e: Engine, now: u128, note: (u8, u8))
    requires
        clock::punches_in(e, now),
        e.tracks.contains_key(e.active_track),
        e.tracks[e.active_track].len() <= usize::MAX,
        e.physically_held.contains(note),
    ensures
        ({
            let id = e.active_track;
            let after = clock::prepared(e, now);
            &&& after.tracks[id].contains(clock::early_note(note))
            &&& clock::track_messages(after, id) == if e.muted_tracks.contains(id) {
                Seq::empty()
            } else {
                clock::messages_of(after, id, e.tracks[id])
            }
        }),
{
    let id = e.active_track;
    let after = clock::prepared(e, now);
    law_punch_in_replays_what_was_there(e, now, id);
    let i = choose|i: int| 0 <= i < e.physically_held.len() && e.physically_held[i] == note;
    assert(after.tracks[id][e.tracks[id].len() + i] == clock::early_note(note));
}

/// Undo after a recording brings the track back as it was when the recording began, whatever was
/// recorded since, and the takes before it stay undoable.
pub proof fn law_undo_restores_the_track(e: Engine, later: Engine)
    requires
        later.track_history == clock::punched_in(e).track_history,
        later.active_track == e.active_track,
    ensures
        midi::undone(later).tracks[e.active_track] == clock::events_of(e, e.active_track),
        midi::undone(later).track_history[e.active_track] == clock::history_of(e, e.active_track),
{
    let id = e.active_track;
    assert(later.track_history[id].drop_last() =~= clock::history_of(e, id));
}

/// Undo touches no track but the active one, and without a recording to undo it does nothing.
pub proof fn law_undo_is_per_track(e: Engine, id: usize)
    requires
        id != e.active_track,
    ensures
        midi::undone(e).tracks.contains_key(id) == e.tracks.contains_key(id),
        midi::undone(e).tracks[id] == e.tracks[id],
        clock::history_of(e, e.active_track).len() == 0 ==> midi::undone(e) == e,
{
}

/// Notes and pitch bends leave the undo history alone, and so does the clock, but for a punch-in.
pub proof fn law_recording_keeps_the_undo_history(
    e: Engine,
    keys: KeyMappings,
    scenes: Seq<(String, SceneConfig)>,
    bytes: Seq<u8>,
    now: u128,
)
    ensures
        !midi::is_control_change(bytes) ==> midi::reaction(
            e,
            keys,
            scenes,
            bytes,
            now,
        ).engine.track_history == e.track_history,
        !clock::punches_in(e, now) ==> clock::ticked(e, now).track_history == e.track_history,
        clock::punches_in(e, now) ==> clock::ticked(e, now).track_history == clock::punched_in(
            e,
        ).track_history,
{
}

/// A recording begins on a tick if and only if it is armed, the arm time is over and the tick is a
/// downbeat; until then it stays armed.
pub proof fn law_recording_begins_on_a_downbeat(e: Engine, now: u128)
    requires
        !e.is_recording,
    ensures
        clock::ticked(e, now).is_recording <==> e.pending_record && clock::arm_time_over(e, now)
            && e.current_tick as int % e.ticks_per_measure as int == 0,
        !clock::ticked(e, now).is_recording ==> clock::ticked(e, now).pending_record
            == e.pending_record && clock::ticked(e, now).record_armed_at == e.record_armed_at,
{
}

/// Between arming and punch-in at least the arm time goes by.
pub proof fn law_arm_time_is_waited_for(
    e: Engine,
    keys: KeyMappings,
    scenes: Seq<(String, SceneConfig)>,
    bytes: Seq<u8>,
    armed_at: u128,
    later: Engine,
    now: u128,
)
    requires
        !e.is_recording,
        midi::reaction(e, keys, scenes, bytes, armed_at).engine.pending_record,
        !e.pending_record,
        later.record_armed_at == midi::reaction(
            e,
            keys,
            scenes,
            bytes,
            armed_at,
        ).engine.record_armed_at,
        later.record_arm_time > 0,
        clock::punches_in(later, now),
    ensures
        now >= armed_at + later.record_arm_time,
{
    let after = midi::reaction(e, keys, scenes, bytes, armed_at).engine;
    assert(after.record_armed_at == Some(armed_at));
}

/// When recording stops, no note is left hanging: nothing is held any more, every note that was
/// held has its end in its track, and what was recorded stays in front of the ends.
pub proof fn law_stopping_ends_held_notes(e: Engine, id: usize, note: (u8, u8))
    requires
        e.tracks.contains_key(id),
    ensures
        midi::stopped(e).held_notes == Map::<usize, Seq<(u8, u8)>>::empty(),
        midi::stopped(e).tracks[id].len() == e.tracks[id].len() + recording::held_on(e, id).len(),
        midi::stopped(e).tracks[id].take(e.tracks[id].len() as int) == e.tracks[id],
        recording::held_on(e, id).contains(note) ==> midi::stopped(e).tracks[id].contains(
            recording::note_end(
                note,
                recording::recorded_tick(e, recording::loop_length(e, id)),
            ),
        ),
{
    let events = midi::stopped(e).tracks[id];
    let tick = recording::recorded_tick(e, recording::loop_length(e, id));
    let notes = recording::held_on(e, id);
    assert(events == e.tracks[id] + recording::seals(notes, tick));
    assert(events.take(e.tracks[id].len() as int) =~= e.tracks[id]);
    if notes.contains(note) {
        let i = choose|i: int| 0 <= i < notes.len() && notes[i] == note;
        assert(recording::seals(notes, tick)[i] == recording::note_end(note, tick));
        assert(events[e.tracks[id].len() + i] == recording::note_end(note, tick));
    }
}

/// Where the loop of a track comes round while recording, the notes that are held on it end on the
/// last tick of the loop and are held no more. A later release then records nothing, so that a
/// note held through the loop fills it.
pub proof fn law_held_notes_end_with_the_loop(e: Engine, id: usize, event: TrackEvent)
    requires
        e.tracks.contains_key(id),
        clock::at_boundary(e, id),
        recording::loop_length(e, id) > 0,
        recording::held_on(e, id).contains((event.data1, event.channel)),
        event.message_type == MessageType::NoteOff,
    ensures
        ({
            let after = clock::passes_sealed(e, e.tracks.dom());
            let last = (recording::loop_length(e, id) - 1) as usize;
            &&& recording::held_on(after, id).len() == 0
            &&& after.tracks[id].contains(
                recording::note_end((event.data1, event.channel), last),
            )
            &&& recording::with_note_recorded(after, id, event) == after
        }),
{
    let after = clock::passes_sealed(e, e.tracks.dom());
    let last = (recording::loop_length(e, id) - 1) as usize;
    let note = (event.data1, event.channel);
    let notes = recording::held_on(e, id);
    let i = choose|i: int| 0 <= i < notes.len() && notes[i] == note;
    assert(recording::seals(notes, last)[i] == recording::note_end(note, last));
    assert(after.tracks[id][e.tracks[id].len() + i] == recording::note_end(note, last));
}

/// A note that is let go before its loop comes round ends where it is let go.
pub proof fn law_a_released_note_ends_where_it_is_released(e: Engine, id: usize, event: TrackEvent)
    requires
        e.tracks.contains_key(id),
        recording::held_on(e, id).contains((event.data1, event.channel)),
        recording::held_on(e, id).no_duplicates(),
        event.message_type == MessageType::NoteOff,
    ensures
        recording::with_note_recorded(e, id, event).tracks[id] == e.tracks[id].push(event),
        !recording::held_on(recording::with_note_recorded(e, id, event), id).contains(
            (event.data1, event.channel),
        ),
{
    let note = (event.data1, event.channel);
    let notes = recording::held_on(e, id);
    let at = notes.index_of(note);
    assert(notes[at] == note);
    assert(forall|j: int| 0 <= j < notes.len() && j != at ==> notes[j] != note);
    assert(!notes.remove(at).contains(note));
}

/// The keys that are down are known from note messages alone: no other message, no tick of the
/// clock, no scene and no reload changes them.
pub proof fn law_keys_down_mirror_the_keyboard(
    e: Engine,
    keys: KeyMappings,
    scenes: Seq<(String, SceneConfig)>,
    bytes: Seq<u8>,
    now: u128,
    name: Seq<char>,
    config: SceneConfig,
    idx: usize,
)
    ensures
        !midi::is_note_message(bytes) ==> midi::reaction(
            e,
            keys,
            scenes,
            bytes,
            now,
        ).engine.physically_held == e.physically_held,
        clock::ticked(e, now).physically_held == e.physically_held,
        scene::switched(e, name, config, idx).physically_held == e.physically_held,
        scene::reloaded(e, config).physically_held == e.physically_held,
{
    if is_drum_pad(keys, bytes) {
        let notes = keys.drum_notes@;
        assert forall|list: Seq<u8>|
            (#[trigger] midi::pad_recorded(e, list, bytes[2], keys.drum_channel)).physically_held
                == e.physically_held by {
            lemma_pad_keeps(e, list, bytes[2], keys.drum_channel);
        }
    }
    lemma_update_keeps(
        Engine {
            bpm: config.bpm,
            metronome_on: config.metronome_on,
            ppqn: config.ppqn,
            time_signature_numerator: config.time_signature_numerator,
            time_signature_denominator: config.time_signature_denominator,
            ticks_per_measure: scene::measure_ticks(config) as usize,
            scene_display_name: domain::name_text(config.name),
            ..e
        },
        config,
        scene::track_count(config),
    );
}

/// Whether `bytes` is a control change that a pad is bound to.
pub open spec fn is_drum_pad(keys: KeyMappings, bytes: Seq<u8>) -> bool {
    midi::is_control_change(bytes) && midi::first_bound(
        keys.drum_keys@,
        bytes[1],
        bytes[0] & 0x0F,
    ) is Some
}

/// Recording a pad changes the tracks and the held notes alone.
pub proof fn lemma_pad_keeps(e: Engine, notes: Seq<u8>, value: u8, channel: u8)
    ensures
        ({
            let after = midi::pad_recorded(e, notes, value, channel);
            after == (Engine { tracks: after.tracks, held_notes: after.held_notes, ..e })
        }),
    decreases notes.len(),
{
    if notes.len() > 0 {
        lemma_pad_keeps(e, notes.drop_last(), value, channel);
    }
}

/// Bringing tracks in line leaves alone what is not set per track.
pub proof fn lemma_update_keeps(e: Engine, config: SceneConfig, n: nat)
    ensures
        ({
            let after = scene::lanes_updated(e, config, n);
            after == (Engine {
                track_channels: after.track_channels,
                tracks: after.tracks,
                track_lengths: after.track_lengths,
                track_programs: after.track_programs,
                track_volumes: after.track_volumes,
                track_velocities: after.track_velocities,
                track_velocity_multipliers: after.track_velocity_multipliers,
                track_history: after.track_history,
                track_names: after.track_names,
                ..e
            })
        }),
    decreases n,
{
    if n > 0 {
        lemma_update_keeps(e, config, (n - 1) as nat);
    }
}

} // verus!
