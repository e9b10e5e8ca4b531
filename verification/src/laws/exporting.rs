//! The loops in a MIDI file.
use crate::domain::{Engine, MessageType, TrackEvent};
use crate::export;
use crate::export::{SmfEvent, SmfKind};
use crate::sorting;
use vstd::prelude::*;

verus! {

/// Whether events are in the order of time.
pub open spec fn in_order(events: Seq<TrackEvent>) -> bool {
    forall|i: int, j: int| 0 <= i <= j < events.len() ==> events[i].tick <= events[j].tick
}

/// The events of one tick.
pub open spec fn on_tick(events: Seq<TrackEvent>, tick: usize) -> Seq<TrackEvent> {
    events.filter(|event: TrackEvent| event.tick == tick)
}

/// Placing an event keeps the order, adds the event, and puts it behind those of its tick.
proof fn lemma_placed(events: Seq<TrackEvent>, event: TrackEvent, tick: usize)
    requires
        in_order(events),
    ensures
        in_order(sorting::placed(events, event)),
        sorting::placed(events, event).to_multiset() == events.to_multiset().insert(event),
        sorting::placed(events, event).len() == events.len() + 1,
        events.len() > 0 ==> sorting::placed(events, event).last().tick == if events.last().tick
            <= event.tick {
            event.tick
        } else {
            events.last().tick
        },
        on_tick(sorting::placed(events, event), tick) == if event.tick == tick {
            on_tick(events, tick).push(event)
        } else {
            on_tick(events, tick)
        },
    decreases events.len(),
{
    broadcast use vstd::seq_lib::group_to_multiset_ensures;

    reveal(Seq::filter);
    let all = sorting::placed(events, event);
    if events.len() == 0 || events.last().tick <= event.tick {
        assert(all.drop_last() =~= events);
        assert forall|i: int, j: int| 0 <= i <= j < all.len() implies all[i].tick <= all[j].tick by {
            if j == events.len() && i < events.len() {
                assert(events[i].tick <= events[events.len() - 1].tick);
            }
        }
    } else {
        let front = events.drop_last();
        lemma_placed(front, event, tick);
        let rest = sorting::placed(front, event);
        assert(all.drop_last() =~= rest);
        assert(events =~= front.push(events.last()));
        assert forall|i: int, j: int| 0 <= i <= j < all.len() implies all[i].tick <= all[j].tick by {
            if j == rest.len() && i < rest.len() {
                assert(rest[i].tick <= rest[rest.len() - 1].tick);
                if front.len() > 0 {
                    assert(front.last().tick <= events.last().tick);
                } else {
                    assert(rest =~= seq![event]);
                }
            }
        }
        assert(all.to_multiset() =~= events.to_multiset().insert(event));
    }
}

/// In a file, the events of a track are in the order of time, none is lost or added, and those of
/// one tick stay in the order in which they were recorded.
pub proof fn law_export_sorts_and_keeps_every_event(events: Seq<TrackEvent>, tick: usize)
    ensures
        in_order(sorting::by_tick(events)),
        sorting::by_tick(events).to_multiset() == events.to_multiset(),
        sorting::by_tick(events).len() == events.len(),
        on_tick(sorting::by_tick(events), tick) == on_tick(events, tick),
    decreases events.len(),
{
    broadcast use vstd::seq_lib::group_to_multiset_ensures;

    if events.len() > 0 {
        let front = events.drop_last();
        law_export_sorts_and_keeps_every_event(front, tick);
        lemma_placed(sorting::by_tick(front), events.last(), tick);
        assert(events =~= front.push(events.last()));
        reveal(Seq::filter);
    }
}

/// The ticks from the start of a track of a file to behind its first `n` events.
pub open spec fn time_after(track: Seq<SmfEvent>, n: int) -> int
    decreases n,
{
    if n <= 0 {
        0
    } else {
        time_after(track, n - 1) + track[n - 1].delta
    }
}

/// In a file, every event of a track stands at the tick at which it was recorded, as far as the
/// ticks fit the width of a step, and the track ends with the last of them.
pub proof fn law_export_keeps_the_time(events: Seq<TrackEvent>, n: int)
    requires
        0 <= n <= events.len(),
        forall|i: int| 0 <= i < events.len() ==> (#[trigger] events[i]).tick <= u32::MAX,
    ensures
        n > 0 ==> time_after(export::smf_track(events), n) == sorting::by_tick(events)[n - 1].tick,
        export::smf_track(events).len() == events.len() + 1,
        export::smf_track(events).last() == export::end_of_track(),
    decreases n,
{
    let sorted = sorting::by_tick(events);
    let track = export::smf_track(events);
    law_export_sorts_and_keeps_every_event(events, 0);
    if n > 0 {
        law_export_keeps_the_time(events, n - 1);
        lemma_sorted_comes_from(events, n - 1);
        let k = choose|k: int| 0 <= k < events.len() && events[k] == sorted[n - 1];
        assert(events[k].tick <= u32::MAX);
        let last: usize = if n == 1 {
            0
        } else {
            sorted[n - 2].tick
        };
        assert(track[n - 1] == export::smf_event(last, sorted[n - 1]));
        assert(last <= sorted[n - 1].tick);
        assert(time_after(track, 0) == 0);
        assert(time_after(track, n - 1) == last);
    }
}

/// Every sorted event is one of the events.
proof fn lemma_sorted_comes_from(events: Seq<TrackEvent>, i: int)
    requires
        0 <= i < events.len(),
    ensures
        events.contains(sorting::by_tick(events)[i]),
{
    broadcast use vstd::seq_lib::group_to_multiset_ensures;

    let sorted = sorting::by_tick(events);
    law_export_sorts_and_keeps_every_event(events, 0);
    assert(sorted.contains(sorted[i]));
    assert(sorted.to_multiset().count(sorted[i]) > 0);
    assert(events.to_multiset().count(sorted[i]) > 0);
}

/// Everything in a file fits the widths of MIDI: channels four bits, keys and velocities seven.
pub proof fn law_exported_events_are_in_range(last: usize, event: TrackEvent)
    ensures
        export::smf_event(last, event).channel <= 15,
        export::smf_event(last, event).key <= 127,
        export::smf_event(last, event).vel <= 127,
        event.data1 <= 127 && event.data2 <= 127 && event.message_type == MessageType::PitchBend
            ==> export::smf_event(last, event).bend == event.data2 * 128 + event.data1,
{
    let c = event.channel;
    let a = event.data1;
    let b = event.data2;
    assert(c & 0x0F <= 15) by (bit_vector);
    assert(a & 0x7F <= 127) by (bit_vector);
    assert(b & 0x7F <= 127) by (bit_vector);
    let wide_a = a as u16;
    let wide_b = b as u16;
    assert(wide_a <= 127 && wide_b <= 127 ==> ((wide_b << 7u16) | wide_a) == wide_b * 128 + wide_a)
        by (bit_vector);
}

/// Tracks without events are left out of a file, and no other.
pub proof fn law_export_leaves_out_empty_tracks(e: Engine, ids: Seq<usize>, i: int)
    requires
        0 <= i < ids.len(),
    ensures
        e.tracks[ids[i]].len() > 0 ==> export::smf_tracks(e, ids).contains(
            export::smf_track(e.tracks[ids[i]]),
        ),
        export::smf_tracks(e, ids).len() <= ids.len(),
        (forall|j: int| 0 <= j < ids.len() ==> e.tracks[#[trigger] ids[j]].len() == 0)
            ==> export::smf_tracks(e, ids).len() == 0,
    decreases ids.len(),
{
    let front = ids.drop_last();
    let rest = export::smf_tracks(e, front);
    let all = export::smf_tracks(e, ids);
    if front.len() > 0 {
        let k = if i < front.len() {
            i
        } else {
            0
        };
        law_export_leaves_out_empty_tracks(e, front, k);
        if forall|j: int| 0 <= j < ids.len() ==> e.tracks[#[trigger] ids[j]].len() == 0 {
            assert forall|j: int| 0 <= j < front.len() implies e.tracks[
                #[trigger] front[j]
            ].len() == 0 by {
                assert(e.tracks[ids[j]].len() == 0);
            }
            assert(e.tracks[ids[ids.len() - 1]].len() == 0);
        }
    } else {
        assert(rest =~= Seq::empty());
        assert(i == 0);
        assert(ids.last() == ids[0]);
    }
    if e.tracks[ids[i]].len() > 0 {
        let wanted = export::smf_track(e.tracks[ids[i]]);
        if i == front.len() {
            assert(all[rest.len() as int] == wanted);
        } else {
            assert(front[i] == ids[i]);
            let j = choose|j: int| 0 <= j < rest.len() && rest[j] == wanted;
            assert(all[j] == wanted);
        }
    }
}

/// Whether `event` of a file is that of a recorded event: its kind, its channel, and its data as
/// far as a file has room for them, which are seven bits for each byte and four for the channel.
pub open spec fn is_written(event: SmfEvent, recorded: TrackEvent) -> bool {
    &&& event.channel == recorded.channel as int % 16
    &&& match recorded.message_type {
        MessageType::NoteOn => event.kind == SmfKind::NoteStart && event.key
            == recorded.data1 as int % 128 && event.vel == recorded.data2 as int % 128,
        MessageType::NoteOff => event.kind == SmfKind::NoteEnd && event.key
            == recorded.data1 as int % 128 && event.vel == recorded.data2 as int % 128,
        MessageType::PitchBend => event.kind == SmfKind::Bend && (recorded.data1 <= 127
            && recorded.data2 <= 127 ==> event.bend == recorded.data2 * 128 + recorded.data1),
    }
}

/// What is written of one event.
proof fn lemma_written(last: usize, recorded: TrackEvent)
    ensures
        is_written(export::smf_event(last, recorded), recorded),
{
    let a = recorded.data1;
    let b = recorded.data2;
    let c = recorded.channel;
    assert(a & 0x7F == a % 128) by (bit_vector);
    assert(b & 0x7F == b % 128) by (bit_vector);
    assert(c & 0x0F == c % 16) by (bit_vector);
    let x = a as u16;
    let y = b as u16;
    assert(x <= 127 && y <= 127 ==> ((y << 7u16) | x) == y * 128 + x) by (bit_vector);
}

/// Every recorded event is in the file, unchanged where its bytes are those of MIDI: a note keeps
/// its key, its velocity and its channel, a start stays a start and an end an end, a pitch bend
/// keeps its position, and each stands at the tick at which it was recorded. The track holds as
/// many events as were recorded and then its end, at once behind the last.
pub proof fn law_every_event_is_written(events: Seq<TrackEvent>, i: int)
    requires
        forall|k: int| 0 <= k < events.len() ==> (#[trigger] events[k]).tick <= u32::MAX,
    ensures
        ({
            let track = export::smf_track(events);
            &&& track.len() == events.len() + 1
            &&& track.last().kind == SmfKind::TrackEnd
            &&& track.last().delta == 0
            &&& 0 <= i < events.len() ==> exists|j: int|
                0 <= j < events.len() && is_written(#[trigger] track[j], events[i]) && time_after(
                    track,
                    j + 1,
                ) == events[i].tick
        }),
{
    let track = export::smf_track(events);
    let sorted = sorting::by_tick(events);
    law_export_sorts_and_keeps_every_event(events, 0);
    if 0 <= i < events.len() {
        broadcast use vstd::seq_lib::group_to_multiset_ensures;

        assert(events.contains(events[i]));
        assert(events.to_multiset().contains(events[i]));
        assert(sorted.to_multiset().contains(events[i]));
        assert(sorted.contains(events[i]));
        let j = choose|j: int| 0 <= j < sorted.len() && sorted[j] == events[i];
        lemma_written(
            if j == 0 {
                0
            } else {
                sorted[j - 1].tick
            },
            events[i],
        );
        law_export_keeps_the_time(events, j + 1);
        assert(is_written(track[j], events[i]));
    }
}

/// How many of the first `n` tracks of `ids` are not empty.
pub open spec fn full_before(e: Engine, ids: Seq<usize>, n: int) -> int
    decreases n,
{
    if n <= 0 {
        0
    } else {
        full_before(e, ids, n - 1) + if e.tracks[ids[n - 1]].len() > 0 {
            1int
        } else {
            0
        }
    }
}

/// The file holds one track for every track that is not empty, in the order of the walk, and no
/// other.
pub proof fn law_the_file_holds_every_full_track(e: Engine, ids: Seq<usize>, n: int)
    requires
        0 <= n <= ids.len(),
    ensures
        ({
            let tracks = export::smf_tracks(e, ids.take(n));
            &&& tracks.len() == full_before(e, ids, n)
            &&& forall|i: int|
                0 <= i < n && e.tracks[#[trigger] ids[i]].len() > 0 ==> {
                    &&& 0 <= full_before(e, ids, i) < tracks.len()
                    &&& tracks[full_before(e, ids, i)] == export::smf_track(e.tracks[ids[i]])
                }
        }),
    decreases n,
{
    if n > 0 {
        law_the_file_holds_every_full_track(e, ids, n - 1);
        assert(ids.take(n).drop_last() =~= ids.take(n - 1));
        assert(ids.take(n).last() == ids[n - 1]);
    }
}

/// The tracks of the file play together, and it counts as many ticks to the beat as the clock, as
/// far as a file has room for them.
pub proof fn law_the_file_keeps_the_resolution(e: Engine, ids: Seq<usize>)
    ensures
        export::file_of(e, ids).format == export::SmfFormat::Together,
        e.ppqn <= 0xFFFF ==> export::file_of(e, ids).ppqn == e.ppqn,
        export::file_of(e, ids).tracks.len() == full_before(e, ids, ids.len() as int),
        forall|i: int|
            0 <= i < ids.len() && e.tracks[#[trigger] ids[i]].len() > 0 ==> export::file_of(
                e,
                ids,
            ).tracks[full_before(e, ids, i)] == export::smf_track(e.tracks[ids[i]]),
{
    law_the_file_holds_every_full_track(e, ids, ids.len() as int);
    assert(ids.take(ids.len() as int) =~= ids);
}

} // verus!
