//! What every tick of the clock does, told from the engine before it.
use crate::clock;
use crate::config::MetronomeHwConfig;
use crate::domain;
use crate::domain::{Engine, MessageType, TrackEvent};
use crate::laws::messages;
use crate::laws::playing;
use crate::laws::words;
use crate::output::Sent;
use vstd::prelude::*;

verus! {

/// How many events of a track may sound: all, or while a recording runs those that were counted.
pub open spec fn heard(e: Engine, id: usize) -> int {
    let all = e.tracks[id].len() as int;
    if e.is_recording && e.loop_start_lens.contains_key(id) && e.loop_start_lens[id] < all {
        e.loop_start_lens[id] as int
    } else {
        all
    }
}

/// The place in its loop at which event `i` of a track sounds.
pub open spec fn place(e: Engine, id: usize, i: int) -> int {
    if e.quantize_on {
        domain::quantized(
            e.tracks[id][i].tick as int,
            e.ppqn as int / 4,
            words::span(e, id),
        )
    } else {
        e.tracks[id][i].tick as int
    }
}

/// Whether event `i` of a track is due: the clock stands at its place in the loop.
pub open spec fn due(e: Engine, id: usize, i: int) -> bool {
    0 <= i < heard(e, id) && place(e, id, i) == e.current_tick as int % words::span(e, id)
}

/// How many of the first `n` events of a track are due.
pub open spec fn due_before(e: Engine, id: usize, n: int) -> int
    decreases n,
{
    if n <= 0 {
        0
    } else {
        due_before(e, id, n - 1) + if due(e, id, n - 1) {
            1int
        } else {
            0
        }
    }
}

/// How many events of the tracks `ids` are due, without the muted tracks.
pub open spec fn due_on(e: Engine, ids: Seq<usize>) -> int
    decreases ids.len(),
{
    if ids.len() == 0 {
        0
    } else {
        due_on(e, ids.drop_last()) + if e.muted_tracks.contains(ids.last()) {
            0
        } else {
            due_before(e, ids.last(), heard(e, ids.last()))
        }
    }
}

/// Whether `message` plays an event of a track: its kind on its channel, its first byte of data,
/// and its second, which for the start of a note is the loudness of the track.
pub open spec fn plays(message: Sent, e: Engine, id: usize, event: TrackEvent) -> bool {
    &&& message matches Sent::Synth(out)
    &&& out.len() == 3
    &&& out[0] == match event.message_type {
        MessageType::NoteOn => 0x90u8 | event.channel,
        MessageType::NoteOff => 0x80u8 | event.channel,
        MessageType::PitchBend => 0xE0u8 | event.channel,
    }
    &&& out[1] == event.data1
    &&& out[2] == if event.message_type == MessageType::NoteOn {
        words::loudness(e, id, event.data2)
    } else {
        event.data2 as int
    }
}

/// The events of one track that are due, among the first `n`, in order.
proof fn lemma_track_plays(e: Engine, id: usize, n: int)
    requires
        0 <= n <= heard(e, id),
    ensures
        ({
            let out = clock::messages_of(e, id, e.tracks[id].take(n));
            &&& out.len() == due_before(e, id, n)
            &&& forall|i: int|
                0 <= i < n && #[trigger] due(e, id, i) ==> {
                    &&& 0 <= due_before(e, id, i) < out.len()
                    &&& plays(out[due_before(e, id, i)], e, id, e.tracks[id][i])
                }
        }),
    decreases n,
{
    let events = e.tracks[id].take(n);
    reveal(Seq::filter);
    if n > 0 {
        let front = e.tracks[id].take(n - 1);
        lemma_track_plays(e, id, n - 1);
        assert(events.drop_last() =~= front);
        let event = events.last();
        assert(event == e.tracks[id][n - 1]);
        let before = clock::messages_of(e, id, front);
        let out = clock::messages_of(e, id, events);
        assert(clock::is_due(e, id, event) == due(e, id, n - 1));
        assert(out =~= if due(e, id, n - 1) {
            before.push(clock::event_message(e, id, event))
        } else {
            before
        });
        assert forall|i: int| 0 <= i < n && #[trigger] due(e, id, i) implies {
            &&& 0 <= due_before(e, id, i) < out.len()
            &&& plays(out[due_before(e, id, i)], e, id, e.tracks[id][i])
        } by {
            if i < n - 1 {
                assert(due(e, id, i));
            }
        }
    } else {
        assert(events =~= Seq::empty());
        assert(clock::messages_of(e, id, events) =~= Seq::empty());
    }
}

/// On a tick, every track that is not muted, the drum lane among them, plays all of its events that
/// are due, in order, and nothing else: the tracks follow each other as the walk goes, the messages
/// of one track stand together, and there are as many as events are due.
pub proof fn law_every_due_event_sounds(e: Engine, ids: Seq<usize>)
    ensures
        clock::playback(e, ids).len() == due_on(e, ids),
        forall|k: int, i: int|
            0 <= k < ids.len() && !e.muted_tracks.contains(ids[k]) && #[trigger] due(e, ids[k], i)
                ==> {
                let at = due_on(e, ids.take(k)) + due_before(e, ids[k], i);
                &&& 0 <= at < clock::playback(e, ids).len()
                &&& plays(clock::playback(e, ids)[at], e, ids[k], e.tracks[ids[k]][i])
            },
    decreases ids.len(),
{
    if ids.len() > 0 {
        let front = ids.drop_last();
        let last = ids.last();
        let all = clock::playback(e, ids);
        let before = clock::playback(e, front);
        law_every_due_event_sounds(e, front);
        lemma_track_plays(e, last, heard(e, last));
        assert(e.tracks[last].take(heard(e, last)) =~= clock::audible(e, last));
        assert(all.len() == due_on(e, ids));
        assert forall|k: int, i: int|
            0 <= k < ids.len() && !e.muted_tracks.contains(ids[k]) && #[trigger] due(
                e,
                ids[k],
                i,
            ) implies {
            let at = due_on(e, ids.take(k)) + due_before(e, ids[k], i);
            &&& 0 <= at < all.len()
            &&& plays(all[at], e, ids[k], e.tracks[ids[k]][i])
        } by {
            if k < front.len() {
                assert(front[k] == ids[k]);
                assert(due(e, front[k], i));
                assert(front.take(k) =~= ids.take(k));
            } else {
                assert(ids.take(k) =~= front);
            }
        }
    }
}

/// Whether a recording begins on this tick: one is armed, the time from arming is over, and the
/// tick is a downbeat. A clock that went back counts no time.
pub open spec fn begins(e: Engine, now: u128) -> bool {
    &&& e.pending_record
    &&& e.record_armed_at matches Some(armed) ==> if now >= armed {
        now - armed >= e.record_arm_time
    } else {
        e.record_arm_time == 0
    }
    &&& e.current_tick as int % e.ticks_per_measure as int == 0
}

/// A tick sends the light of the record key where a recording begins and the light is known, then
/// what the tracks play, going through each of them once, then the click. The click comes on every
/// beat while the metronome is on: the start and the end of one note, which is that of the
/// downbeat where the loop of the active track begins and the other one elsewhere.
pub proof fn law_what_a_tick_sends(
    e: Engine,
    metro: MetronomeHwConfig,
    record_led: Option<u8>,
    led_on_channel: Option<u8>,
    ticks_per_beat: usize,
    now: u128,
    ids: Seq<usize>,
)
    ensures
        ({
            let after = clock::prepared(e, now);
            let out = clock::tick_output(
                e,
                metro,
                record_led,
                led_on_channel,
                ticks_per_beat,
                now,
                ids,
            );
            let lit = begins(e, now) && record_led is Some && led_on_channel is Some;
            let beat = e.metronome_on && e.current_tick as int % ticks_per_beat as int == 0;
            let note = if e.current_tick as int % words::span(e, e.active_track) == 0 {
                metro.downbeat_note
            } else {
                metro.subdivision_note
            };
            let first: int = if lit {
                1
            } else {
                0
            };
            let last = first + due_on(after, ids);
            &&& clock::is_walk(ids, after) ==> ids.no_duplicates() && forall|id: usize| #[trigger]
                ids.contains(id) <==> e.tracks.contains_key(id)
            &&& out.len() == last + if beat {
                2int
            } else {
                0
            }
            &&& lit ==> out[0] == Sent::Led(
                seq![0x90u8 | led_on_channel->0, record_led->0, 127u8],
            )
            &&& first <= last
            &&& out.subrange(first, last) == clock::playback(after, ids)
            &&& beat ==> {
                &&& out[last] == Sent::Synth(seq![0x90u8 | metro.channel, note, metro.velocity])
                &&& out[last + 1] == Sent::Synth(seq![0x80u8 | metro.channel, note, 0u8])
            }
        }),
{
    let after = clock::prepared(e, now);
    let out = clock::tick_output(e, metro, record_led, led_on_channel, ticks_per_beat, now, ids);
    law_every_due_event_sounds(after, ids);
    let first: int = if begins(e, now) && record_led is Some && led_on_channel is Some {
        1
    } else {
        0
    };
    assert(clock::punches_in(e, now) == begins(e, now));
    assert(out.subrange(first, first + due_on(after, ids)) =~= clock::playback(after, ids));
    assert forall|id: usize| #[trigger] after.tracks.contains_key(id) == e.tracks.contains_key(
        id,
    ) by {}
    if clock::is_walk(ids, after) {
        assert forall|id: usize| #[trigger] ids.contains(id) <==> e.tracks.contains_key(id) by {
            assert(ids.to_set().contains(id) == ids.contains(id));
            assert(after.tracks.dom().contains(id) == e.tracks.contains_key(id));
        }
    }
}

/// Whether the loop of a track begins on this tick.
pub open spec fn comes_round(e: Engine, id: usize) -> bool {
    e.current_tick as int % words::span(e, id) == 0
}

/// A tick that neither begins nor continues a recording changes nothing but the clock. The clock
/// moves on by one and goes round at its period, and no tick changes anything else than the tracks,
/// what is held, what is counted, the undo history and whether a recording runs or is armed.
pub proof fn law_the_clock_moves_on(e: Engine, now: u128)
    requires
        e.current_tick < usize::MAX,
    ensures
        ({
            let r = clock::ticked(e, now);
            let next = e.current_tick + 1;
            &&& e.max_tick == 0 ==> r.current_tick == 0
            &&& e.max_tick > 0 && next < e.max_tick ==> r.current_tick == next
            &&& e.max_tick > 0 && next == e.max_tick ==> r.current_tick == 0
            &&& e.max_tick > 0 ==> r.current_tick == next % e.max_tick as int
            &&& r == (Engine { current_tick: r.current_tick, ..clock::prepared(e, now) })
            &&& r == (Engine {
                current_tick: r.current_tick,
                tracks: r.tracks,
                held_notes: r.held_notes,
                loop_start_lens: r.loop_start_lens,
                track_history: r.track_history,
                is_recording: r.is_recording,
                pending_record: r.pending_record,
                record_armed_at: r.record_armed_at,
                ..e
            })
            &&& !begins(e, now) && !e.is_recording ==> r == (Engine {
                current_tick: r.current_tick,
                ..e
            })
        }),
{
    if e.max_tick > 0 {
        let next = e.current_tick + 1;
        if next < e.max_tick {
            vstd::arithmetic::div_mod::lemma_small_mod(next as nat, e.max_tick as nat);
        } else if next == e.max_tick {
            vstd::arithmetic::div_mod::lemma_mod_self_0(next as int);
        }
    }
}

/// While a recording runs and none begins, a tick adds to every track whose loop comes round the
/// end of each note that is held on it, on the last tick of the loop, and holds them no more; what
/// was there before counts as what the new pass may play. Every other track stays as it is.
pub proof fn law_held_notes_end_where_the_loop_comes_round(e: Engine, now: u128, id: usize)
    requires
        e.is_recording,
        !begins(e, now),
        e.tracks.contains_key(id),
        words::span(e, id) > 0,
        e.tracks[id].len() <= usize::MAX,
    ensures
        ({
            let r = clock::prepared(e, now);
            &&& r == (Engine {
                tracks: r.tracks,
                held_notes: r.held_notes,
                loop_start_lens: r.loop_start_lens,
                ..e
            })
            &&& r.tracks.contains_key(id)
            &&& comes_round(e, id) ==> {
                &&& messages::ends_held_notes(e, r, id, words::span(e, id) - 1)
                &&& forall|note: (u8, u8)| !#[trigger] words::held(r, id, note)
                &&& r.loop_start_lens.contains_key(id)
                &&& r.loop_start_lens[id] == e.tracks[id].len()
            }
            &&& !comes_round(e, id) ==> {
                &&& r.tracks[id] == e.tracks[id]
                &&& forall|note: (u8, u8)| #[trigger]
                    words::held(r, id, note) == words::held(e, id, note)
                &&& r.loop_start_lens.contains_key(id) == e.loop_start_lens.contains_key(id)
                &&& e.loop_start_lens.contains_key(id) ==> r.loop_start_lens[id]
                    == e.loop_start_lens[id]
            }
        }),
{
    let r = clock::prepared(e, now);
    assert(clock::punches_in(e, now) == begins(e, now));
    assert(r.tracks[id].take(e.tracks[id].len() as int) =~= e.tracks[id]);
    assert(!e.held_notes.contains_key(id) ==> r.tracks[id] =~= e.tracks[id]);
}

/// Where a recording begins, it runs and is armed no more. What the active track held is put on its
/// pile, to be undone to, and no other pile changes. What every track held counts as what this
/// pass may play. To the active track the keys that are down are added, as starts at the beginning
/// of the loop, and are held there.
pub proof fn law_a_recording_begins(e: Engine, now: u128, id: usize)
    requires
        begins(e, now),
        e.tracks.contains_key(id) ==> e.tracks[id].len() <= usize::MAX,
    ensures
        ({
            let r = clock::prepared(e, now);
            let a = e.active_track;
            let n = e.tracks[id].len();
            let keys = e.physically_held;
            &&& r == (Engine {
                tracks: r.tracks,
                held_notes: r.held_notes,
                loop_start_lens: r.loop_start_lens,
                track_history: r.track_history,
                is_recording: true,
                pending_record: false,
                record_armed_at: None,
                ..e
            })
            &&& r.track_history.contains_key(a)
            &&& r.track_history[a].len() > 0
            &&& e.tracks.contains_key(a) ==> r.track_history[a].last() == e.tracks[a]
            &&& !e.tracks.contains_key(a) ==> r.track_history[a].last().len() == 0
            &&& r.track_history[a].drop_last() == if e.track_history.contains_key(a) {
                e.track_history[a]
            } else {
                Seq::empty()
            }
            &&& id != a ==> r.track_history.contains_key(id) == e.track_history.contains_key(id)
                && r.track_history[id] == e.track_history[id]
            &&& r.tracks.contains_key(id) == e.tracks.contains_key(id)
            &&& e.tracks.contains_key(id) ==> {
                &&& r.loop_start_lens.contains_key(id)
                &&& r.loop_start_lens[id] == n
                &&& r.tracks[id].len() >= n
                &&& r.tracks[id].take(n as int) == e.tracks[id]
                &&& id == a ==> r.tracks[id].len() >= n + keys.len() && forall|i: int|
                    0 <= i < keys.len() ==> words::event_is(
                        #[trigger] r.tracks[id][n + i],
                        0,
                        MessageType::NoteOn,
                        keys[i].0,
                        100,
                        keys[i].1,
                    )
                &&& !comes_round(e, id) ==> r.tracks[id].len() == n + if id == a {
                    keys.len()
                } else {
                    0
                }
                &&& !comes_round(e, id) ==> forall|note: (u8, u8)| #[trigger]
                    words::held(r, id, note) <==> words::held(e, id, note) || (id == a
                        && keys.contains(note))
            }
        }),
{
    let r = clock::prepared(e, now);
    let a = e.active_track;
    assert(clock::punches_in(e, now) == begins(e, now));
    assert(r.track_history[a].drop_last() =~= if e.track_history.contains_key(a) {
        e.track_history[a]
    } else {
        Seq::empty()
    });
    if e.tracks.contains_key(id) {
        assert(r.tracks[id].take(e.tracks[id].len() as int) =~= e.tracks[id]);
        let base = if e.held_notes.contains_key(a) {
            e.held_notes[a]
        } else {
            Seq::empty()
        };
        assert forall|note: (u8, u8)| #[trigger]
            clock::with_notes(base, e.physically_held).contains(note) <==> base.contains(note)
                || e.physically_held.contains(note) by {
            lemma_with_notes(base, e.physically_held, note);
        }
    }
}

/// Where a recording begins on a tick on which the loop of a track begins, the notes that are held
/// on it, with the keys that are down on the active track, end on the last tick of the loop; those
/// ends are all that is added behind the starts.
pub proof fn law_a_recording_begins_with_the_loop(
    e: Engine,
    now: u128,
    id: usize,
    i: int,
    down: (u8, u8),
)
    requires
        begins(e, now),
        e.tracks.contains_key(id),
        words::span(e, id) > 0,
        comes_round(e, id),
    ensures
        ({
            let r = clock::prepared(e, now);
            let n = e.tracks[id].len() + if id == e.active_track {
                e.physically_held.len()
            } else {
                0
            };
            &&& forall|note: (u8, u8)| !#[trigger] words::held(r, id, note)
            &&& n <= i < r.tracks[id].len() ==> {
                let event = r.tracks[id][i];
                let note = (event.data1, event.channel);
                &&& words::event_is(
                    event,
                    words::span(e, id) - 1,
                    MessageType::NoteOff,
                    event.data1,
                    0,
                    event.channel,
                )
                &&& words::held(e, id, note) || (id == e.active_track
                    && e.physically_held.contains(note))
            }
            &&& words::held(e, id, down) || (id == e.active_track && e.physically_held.contains(
                down,
            )) ==> exists|j: int|
                n <= j < r.tracks[id].len() && (#[trigger] r.tracks[id][j]).data1 == down.0
                    && r.tracks[id][j].channel == down.1
        }),
{
    let r = clock::prepared(e, now);
    let a = e.active_track;
    assert(clock::punches_in(e, now) == begins(e, now));
    let n = e.tracks[id].len() + if id == a {
        e.physically_held.len()
    } else {
        0
    };
    let base = if e.held_notes.contains_key(id) {
        e.held_notes[id]
    } else {
        Seq::empty()
    };
    let notes = if id == a {
        clock::with_notes(base, e.physically_held)
    } else {
        base
    };
    assert(clock::with_notes(base, Seq::empty()) == base);
    assert forall|note: (u8, u8)| #[trigger] notes.contains(note) <==> base.contains(note) || (id == a
        && e.physically_held.contains(note)) by {
        lemma_with_notes(base, e.physically_held, note);
    }
    if e.physically_held.len() == 0 {
        assert(e.physically_held =~= Seq::empty());
    }
    assert(r.tracks[id].len() == n + notes.len());
    assert forall|k: int| 0 <= k < notes.len() implies words::event_is(
        #[trigger] r.tracks[id][n + k],
        words::span(e, id) - 1,
        MessageType::NoteOff,
        notes[k].0,
        0,
        notes[k].1,
    ) by {}
    if n <= i < r.tracks[id].len() {
        assert(r.tracks[id][n + (i - n)] == r.tracks[id][i]);
        assert(notes.contains(notes[i - n]));
    }
    if notes.contains(down) {
        let k = choose|k: int| 0 <= k < notes.len() && notes[k] == down;
        assert(r.tracks[id][n + k].data1 == down.0);
    }
}

/// Adding notes adds those and no others.
proof fn lemma_with_notes(notes: Seq<(u8, u8)>, more: Seq<(u8, u8)>, note: (u8, u8))
    ensures
        clock::with_notes(notes, more).contains(note) <==> notes.contains(note) || more.contains(
            note,
        ),
    decreases more.len(),
{
    if more.len() > 0 {
        let front = more.drop_last();
        lemma_with_notes(notes, front, note);
        let before = clock::with_notes(notes, front);
        let after = clock::with_notes(notes, more);
        if before.contains(note) {
            let i = choose|i: int| 0 <= i < before.len() && before[i] == note;
            assert(after[i] == note);
        }
        if note == more.last() && !before.contains(note) {
            assert(after[before.len() as int] == note);
        }
        if more.contains(note) && note != more.last() {
            let i = choose|i: int| 0 <= i < more.len() && more[i] == note;
            assert(front[i] == note);
        }
        if front.contains(note) {
            let i = choose|i: int| 0 <= i < front.len() && front[i] == note;
            assert(more[i] == note);
        }
        assert(more[more.len() - 1] == more.last());
    } else {
        assert(!more.contains(note));
    }
}

/// Quantizing moves a tick to a multiple of the step that is half a step away at most, of two such
/// to the later one, and folds it into the loop. The one exception is tick 93 of a loop of 96 in
/// steps of 6, which goes to 90.
pub proof fn law_quantizing_rounds_to_the_step(tick: int, step: int, length: int, p: int)
    requires
        tick >= 0,
        step > 0,
        length > 0,
        p % step == 0,
        2 * (p - tick) <= step,
        2 * (tick - p) < step,
    ensures
        tick == 93 && step == 6 && length == 96 ==> domain::quantized(tick, step, length) == 90,
        !(tick == 93 && step == 6 && length == 96) ==> domain::quantized(tick, step, length) == p
            % length,
{
    let at = domain::snapped(tick, step);
    domain::lemma_floor_to_grid(tick + step / 2, step);
    if at < p {
        playing::lemma_next_on_grid(at, p, step);
    } else if p < at {
        playing::lemma_next_on_grid(p, at, step);
    }
}

/// The clock waits until the next tick is due, which is one tick's time after the last; a clock that
/// has fallen behind waits not at all and counts on from now.
pub proof fn law_the_clock_keeps_its_pace(due: u128, tick_duration: u128, now: u128)
    requires
        due + tick_duration <= u128::MAX,
    ensures
        ({
            let (next, wait) = clock::paced(due, tick_duration, now);
            &&& now + wait == next
            &&& next == if now > due + tick_duration {
                now as int
            } else {
                due + tick_duration
            }
        }),
{
}

} // verus!
