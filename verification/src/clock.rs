//! One tick of the master clock: punch-in, loop boundaries, playback and the metronome.
use crate::config::MetronomeHwConfig;
use crate::domain;
use crate::domain::{Engine, EngineState, MessageType, NoteSet, TrackEvent};
use crate::output;
use crate::output::{Output, Sent};
use crate::recording;
use crate::tables;
use vstd::prelude::*;

verus! {

/// Whether the least time from arming to punch-in is over.
pub open spec fn arm_time_over(e: Engine, now: u128) -> bool {
    match e.record_armed_at {
        None => true,
        Some(armed) => if now >= armed {
            now - armed >= e.record_arm_time
        } else {
            e.record_arm_time == 0
        },
    }
}

/// Whether an armed recording begins on this tick: on a downbeat, once the arm time is over.
pub open spec fn punches_in(e: Engine, now: u128) -> bool {
    &&& e.pending_record
    &&& arm_time_over(e, now)
    &&& e.current_tick as int % e.ticks_per_measure as int == 0
}

/// The events of a track; none where there is no track.
pub open spec fn events_of(e: Engine, id: usize) -> Seq<TrackEvent> {
    if e.tracks.contains_key(id) {
        e.tracks[id]
    } else {
        Seq::empty()
    }
}

/// The takes that can be brought back on a track.
pub open spec fn history_of(e: Engine, id: usize) -> Seq<Seq<TrackEvent>> {
    if e.track_history.contains_key(id) {
        e.track_history[id]
    } else {
        Seq::empty()
    }
}

/// How many events every track has.
pub open spec fn event_counts(e: Engine) -> Map<usize, usize> {
    e.tracks.map_values(|events: Seq<TrackEvent>| events.len() as usize)
}

/// The event that starts a note which was down before the recording began.
pub open spec fn early_note(note: (u8, u8)) -> TrackEvent {
    TrackEvent {
        tick: 0,
        message_type: MessageType::NoteOn,
        data1: note.0,
        data2: 100,
        channel: note.1,
    }
}

/// `notes` with all of `more` added, in order.
pub open spec fn with_notes(notes: Seq<(u8, u8)>, more: Seq<(u8, u8)>) -> Seq<(u8, u8)>
    decreases more.len(),
{
    if more.len() == 0 {
        notes
    } else {
        domain::with_note(with_notes(notes, more.drop_last()), more.last())
    }
}

/// The engine with the keys that are down taken into the recording, at the start of the loop.
pub open spec fn rearmed(e: Engine) -> Engine {
    if e.physically_held.len() == 0 {
        e
    } else {
        Engine {
            tracks: if e.tracks.contains_key(e.active_track) {
                e.tracks.insert(
                    e.active_track,
                    e.tracks[e.active_track] + e.physically_held.map_values(
                        |note: (u8, u8)| early_note(note),
                    ),
                )
            } else {
                e.tracks
            },
            held_notes: e.held_notes.insert(
                e.active_track,
                with_notes(recording::held_on(e, e.active_track), e.physically_held),
            ),
            ..e
        }
    }
}

/// The engine after punch-in: the active track is kept for undo, what is there now is what the
/// current pass may replay, and the keys that are down start at the downbeat, behind that.
pub open spec fn punched_in(e: Engine) -> Engine {
    rearmed(
        Engine {
            track_history: e.track_history.insert(
                e.active_track,
                history_of(e, e.active_track).push(events_of(e, e.active_track)),
            ),
            pending_record: false,
            record_armed_at: None,
            is_recording: true,
            loop_start_lens: e.loop_start_lens.union_prefer_right(event_counts(e)),
            ..e
        },
    )
}

/// Whether the loop of a track begins on this tick.
pub open spec fn at_boundary(e: Engine, id: usize) -> bool {
    e.current_tick as int % recording::loop_length(e, id) as int == 0
}

/// The engine with the notes that are held on track `id` ended with the pass that is over, where
/// its loop begins on this tick.
pub open spec fn with_pass_sealed(e: Engine, id: usize) -> Engine {
    if e.tracks.contains_key(id) && at_boundary(e, id) {
        Engine {
            tracks: e.tracks.insert(id, e.tracks[id] + boundary_seals(e, id)),
            held_notes: if e.held_notes.contains_key(id) {
                e.held_notes.insert(id, Seq::empty())
            } else {
                e.held_notes
            },
            ..e
        }
    } else {
        e
    }
}

/// The events that end the held notes of a track on the last tick of its loop.
pub open spec fn boundary_seals(e: Engine, id: usize) -> Seq<TrackEvent> {
    recording::seals(
        recording::held_on(e, id),
        (recording::loop_length(e, id) - 1) as usize,
    )
}

/// The engine with the events counted of the tracks whose loop begins on this tick: what is there
/// now may be replayed in the pass that begins.
pub open spec fn passes_counted(e: Engine) -> Engine {
    Engine {
        loop_start_lens: e.loop_start_lens.union_prefer_right(
            event_counts(e).restrict(Set::new(|id: usize| at_boundary(e, id))),
        ),
        ..e
    }
}

/// The engine with the held notes ended of those of the tracks in `ids` whose loop begins on this
/// tick.
pub open spec fn passes_sealed(e: Engine, ids: Set<usize>) -> Engine {
    Engine {
        tracks: e.tracks.map_entries(
            |id: usize, events: Seq<TrackEvent>|
                if ids.contains(id) && at_boundary(e, id) {
                    events + boundary_seals(e, id)
                } else {
                    events
                },
        ),
        held_notes: e.held_notes.map_entries(
            |id: usize, notes: Seq<(u8, u8)>|
                if ids.contains(id) && e.tracks.contains_key(id) && at_boundary(e, id) {
                    Seq::empty()
                } else {
                    notes
                },
        ),
        ..e
    }
}

/// The engine after what a tick does before anything sounds. Where a recording begins on the tick,
/// the events have been counted before the keys that are down were taken in: those keys sound
/// already, and are not replayed before the loop comes round.
pub open spec fn prepared(e: Engine, now: u128) -> Engine {
    if punches_in(e, now) {
        passes_sealed(punched_in(e), e.tracks.dom())
    } else if e.is_recording {
        passes_sealed(passes_counted(e), e.tracks.dom())
    } else {
        e
    }
}

/// The events of a track that may sound: while recording, those that were there when the pass
/// began.
pub open spec fn audible(e: Engine, id: usize) -> Seq<TrackEvent> {
    let events = e.tracks[id];
    if e.is_recording && e.loop_start_lens.contains_key(id) && e.loop_start_lens[id]
        < events.len() {
        events.take(e.loop_start_lens[id] as int)
    } else {
        events
    }
}

/// The tick of its loop on which an event of a track sounds.
pub open spec fn sounding_tick(e: Engine, id: usize, event: TrackEvent) -> int {
    if e.quantize_on {
        domain::quantized(event.tick as int, e.ppqn as int / 4, recording::loop_length(e, id) as int)
    } else {
        event.tick as int
    }
}

/// Whether an event of a track sounds on this tick.
pub open spec fn is_due(e: Engine, id: usize, event: TrackEvent) -> bool {
    sounding_tick(e, id, event) == e.current_tick as int % recording::loop_length(e, id) as int
}

/// The message that plays an event of a track.
pub open spec fn event_message(e: Engine, id: usize, event: TrackEvent) -> Sent {
    match event.message_type {
        MessageType::NoteOn => Sent::Synth(
            seq![
                0x90u8 | event.channel,
                event.data1,
                recording::sounding_velocity(e, id, event.data2),
            ],
        ),
        MessageType::NoteOff => Sent::Synth(
            seq![0x80u8 | event.channel, event.data1, event.data2],
        ),
        MessageType::PitchBend => Sent::Synth(
            seq![0xE0u8 | event.channel, event.data1, event.data2],
        ),
    }
}

/// The messages that `events` of a track send on this tick.
pub open spec fn messages_of(e: Engine, id: usize, events: Seq<TrackEvent>) -> Seq<Sent> {
    events.filter(|event: TrackEvent| is_due(e, id, event)).map_values(
        |event: TrackEvent| event_message(e, id, event),
    )
}

/// The messages that a track sends on this tick; a muted track sends none.
pub open spec fn track_messages(e: Engine, id: usize) -> Seq<Sent> {
    if e.muted_tracks.contains(id) {
        Seq::empty()
    } else {
        messages_of(e, id, audible(e, id))
    }
}

/// The messages of the tracks `ids`, in this order.
pub open spec fn playback(e: Engine, ids: Seq<usize>) -> Seq<Sent>
    decreases ids.len(),
{
    if ids.len() == 0 {
        Seq::empty()
    } else {
        playback(e, ids.drop_last()) + track_messages(e, ids.last())
    }
}

/// Whether `ids` names every track once.
pub open spec fn is_walk(ids: Seq<usize>, e: Engine) -> bool {
    ids.no_duplicates() && ids.to_set() == e.tracks.dom()
}

/// The click of the metronome: on every beat, with a note of its own where the loop of the active
/// track begins.
pub open spec fn click(e: Engine, metro: MetronomeHwConfig, ticks_per_beat: usize) -> Seq<Sent> {
    if e.metronome_on && e.current_tick as int % ticks_per_beat as int == 0 {
        let note = if at_boundary(e, e.active_track) {
            metro.downbeat_note
        } else {
            metro.subdivision_note
        };
        seq![
            Sent::Synth(seq![0x90u8 | metro.channel, note, metro.velocity]),
            Sent::Synth(seq![0x80u8 | metro.channel, note, 0u8]),
        ]
    } else {
        Seq::empty()
    }
}

/// The light of the record key, set to on where a recording begins.
pub open spec fn punch_light(punched: bool, led: Option<u8>, channel: Option<u8>) -> Seq<Sent> {
    match (led, channel) {
        (Some(n), Some(c)) => if punched {
            seq![output::led_message(n, c)]
        } else {
            Seq::<Sent>::empty()
        },
        _ => Seq::<Sent>::empty(),
    }
}

/// What a tick sends, going through the tracks as `ids` does: the light, the events, the click.
pub open spec fn tick_output(
    e: Engine,
    metro: MetronomeHwConfig,
    record_led: Option<u8>,
    led_on_channel: Option<u8>,
    ticks_per_beat: usize,
    now: u128,
    ids: Seq<usize>,
) -> Seq<Sent> {
    punch_light(punches_in(e, now), record_led, led_on_channel) + playback(prepared(e, now), ids)
        + click(prepared(e, now), metro, ticks_per_beat)
}

/// The engine with the clock moved on, going round at its period.
pub open spec fn advanced(e: Engine) -> Engine {
    Engine {
        current_tick: if e.max_tick == 0 {
            0
        } else {
            ((e.current_tick + 1) % e.max_tick as int) as usize
        },
        ..e
    }
}

/// The engine after a tick.
pub open spec fn ticked(e: Engine, now: u128) -> Engine {
    advanced(prepared(e, now))
}

/// Whether the events of a track can be played.
pub open spec fn playable(e: Engine, id: usize) -> bool {
    forall|i: int|
        0 <= i < audible(e, id).len() ==> recording::snaps(
            e,
            (#[trigger] audible(e, id)[i]).tick,
            recording::loop_length(e, id),
        )
}

/// Whether every track has a loop.
pub open spec fn loops_set(e: Engine) -> bool {
    forall|id: usize| #[trigger] e.tracks.contains_key(id) ==> recording::loop_length(e, id) > 0
}

/// Whether the clock can tick.
pub open spec fn tick_ready(e: Engine, ticks_per_beat: usize, now: u128) -> bool {
    let after = prepared(e, now);
    &&& e.pending_record && arm_time_over(e, now) ==> e.ticks_per_measure > 0
    &&& after.is_recording ==> loops_set(e)
    &&& forall|id: usize| #[trigger]
        after.tracks.contains_key(id) && !after.muted_tracks.contains(id) ==> playable(after, id)
    &&& e.metronome_on ==> ticks_per_beat > 0 && (e.current_tick as int % ticks_per_beat as int
        == 0 ==> recording::loop_length(e, e.active_track) > 0)
    &&& e.current_tick < usize::MAX
}

fn copy_events(events: &Vec<TrackEvent>) -> (r: Vec<TrackEvent>)
    ensures
        r@ == events@,
{
    let mut r: Vec<TrackEvent> = Vec::new();
    let mut i: usize = 0;
    while i < events.len()
        invariant
            i <= events@.len(),
            r@ == events@.take(i as int),
        decreases events@.len() - i,
    {
        r.push(events[i]);
        i = i + 1;
    }
    r
}

impl EngineState {
    pub(crate) fn is_arm_time_over(&self, now: u128) -> (r: bool)
        ensures
            r == arm_time_over(self@, now),
    {
        match self.record_armed_at {
            None => true,
            Some(armed) => if now >= armed {
                now - armed >= self.record_arm_time
            } else {
                self.record_arm_time == 0
            },
        }
    }

    fn keep_take(&mut self)
        ensures
            final(self)@ == (Engine {
                track_history: old(self)@.track_history.insert(
                    old(self)@.active_track,
                    history_of(old(self)@, old(self)@.active_track).push(
                        events_of(old(self)@, old(self)@.active_track),
                    ),
                ),
                ..old(self)@
            }),
    {
        let active: usize = self.active_track;
        let take: Vec<TrackEvent> = match self.tracks.get(&active) {
            Some(events) => copy_events(events),
            None => Vec::new(),
        };
        assert(take@ == events_of(self@, active));
        let mut history: Vec<Vec<TrackEvent>> = match self.track_history.remove(&active) {
            Some(history) => history,
            None => Vec::new(),
        };
        let ghost before = history@;
        assert(domain::takes(before) =~= history_of(old(self)@, active));
        history.push(take);
        assert(domain::takes(history@) =~= domain::takes(before).push(take@));
        self.track_history.insert(active, history);
        assert(self@.track_history =~= old(self)@.track_history.insert(
            active,
            domain::takes(history@),
        ));
    }

    fn count_events(&mut self)
        ensures
            final(self)@ == (Engine {
                loop_start_lens: old(self)@.loop_start_lens.union_prefer_right(
                    event_counts(old(self)@),
                ),
                ..old(self)@
            }),
    {
        let ghost before = self@;
        let ids: Vec<usize> = tables::keys_of(&self.tracks);
        assert(ids@.to_set() =~= before.tracks.dom());
        let mut i: usize = 0;
        assert(self@.loop_start_lens =~= before.loop_start_lens.union_prefer_right(
            event_counts(before).restrict(ids@.take(0).to_set()),
        ));
        while i < ids.len()
            invariant
                i <= ids@.len(),
                ids@.to_set() == before.tracks.dom(),
                self@ == (Engine {
                    loop_start_lens: before.loop_start_lens.union_prefer_right(
                        event_counts(before).restrict(ids@.take(i as int).to_set()),
                    ),
                    ..before
                }),
            decreases ids@.len() - i,
        {
            let id: usize = ids[i];
            assert(ids@.to_set().contains(id));
            assert(self@.tracks.contains_key(id));
            let count: usize = self.tracks.get(&id).unwrap().len();
            assert(count == self@.tracks[id].len());
            self.loop_start_lens.insert(id, count);
            proof {
                tables::lemma_take_one_more(ids@, i as int);
            }
            assert(self@.loop_start_lens =~= before.loop_start_lens.union_prefer_right(
                event_counts(before).restrict(ids@.take(i as int + 1).to_set()),
            ));
            i = i + 1;
        }
        assert(ids@.take(i as int) =~= ids@);
        assert(event_counts(before).restrict(ids@.to_set()) =~= event_counts(before));
    }

    fn rearm(&mut self)
        ensures
            final(self)@ == rearmed(old(self)@),
    {
        let ghost before = self@;
        let ghost notes = self@.physically_held;
        let count: usize = self.physically_held.len();
        if count == 0 {
            return;
        }
        let active: usize = self.active_track;
        let mut held: NoteSet = match self.held_notes.remove(&active) {
            Some(held) => held,
            None => NoteSet::new(),
        };
        assert(held@ == recording::held_on(before, active));
        let mut fresh: Vec<TrackEvent> = Vec::new();
        let mut i: usize = 0;
        let ghost starts = notes.map_values(|note: (u8, u8)| early_note(note));
        while i < count
            invariant
                i <= count,
                count == notes.len(),
                self.physically_held@ == notes,
                held@ == with_notes(recording::held_on(before, active), notes.take(i as int)),
                starts == notes.map_values(|note: (u8, u8)| early_note(note)),
                fresh@ == starts.take(i as int),
            decreases count - i,
        {
            let note: (u8, u8) = self.physically_held.get(i);
            fresh.push(
                TrackEvent {
                    tick: 0,
                    message_type: MessageType::NoteOn,
                    data1: note.0,
                    data2: 100,
                    channel: note.1,
                },
            );
            held.insert(note);
            assert(notes.take(i as int + 1).drop_last() =~= notes.take(i as int));
            assert(starts.take(i as int + 1) =~= starts.take(i as int).push(starts[i as int]));
            i = i + 1;
        }
        assert(notes.take(i as int) =~= notes);
        assert(fresh@ =~= starts);
        self.held_notes.insert(active, held);
        assert(self@.held_notes =~= rearmed(before).held_notes);
        match self.tracks.remove(&active) {
            Some(mut events) => {
                events.append(&mut fresh);
                self.tracks.insert(active, events);
                assert(self@.tracks =~= rearmed(before).tracks);
            },
            None => {
                assert(self@.tracks =~= before.tracks);
            },
        }
    }

    fn punch_in(&mut self)
        ensures
            final(self)@ == punched_in(old(self)@),
    {
        self.keep_take();
        self.pending_record = false;
        self.record_armed_at = None;
        self.is_recording = true;
        self.count_events();
        self.rearm();
    }

    fn count_passes(&mut self)
        requires
            loops_set(old(self)@),
        ensures
            final(self)@ == passes_counted(old(self)@),
    {
        let ghost before = self@;
        let ghost begun = Set::new(|id: usize| at_boundary(before, id));
        let ids: Vec<usize> = tables::keys_of(&self.tracks);
        assert(ids@.to_set() =~= before.tracks.dom());
        let mut i: usize = 0;
        assert(self@.loop_start_lens =~= before.loop_start_lens.union_prefer_right(
            event_counts(before).restrict(begun.intersect(ids@.take(0).to_set())),
        ));
        while i < ids.len()
            invariant
                i <= ids@.len(),
                ids@.to_set() == before.tracks.dom(),
                loops_set(before),
                begun == Set::new(|id: usize| at_boundary(before, id)),
                self@ == (Engine {
                    loop_start_lens: before.loop_start_lens.union_prefer_right(
                        event_counts(before).restrict(
                            begun.intersect(ids@.take(i as int).to_set()),
                        ),
                    ),
                    ..before
                }),
            decreases ids@.len() - i,
        {
            let id: usize = ids[i];
            assert(ids@.to_set().contains(id));
            assert(before.tracks.contains_key(id));
            let length: usize = self.loop_length(id);
            if self.current_tick % length == 0 {
                let count: usize = self.tracks.get(&id).unwrap().len();
                assert(count == self@.tracks[id].len());
                self.loop_start_lens.insert(id, count);
            }
            proof {
                tables::lemma_take_one_more(ids@, i as int);
            }
            assert(self@.loop_start_lens =~= before.loop_start_lens.union_prefer_right(
                event_counts(before).restrict(begun.intersect(ids@.take(i as int + 1).to_set())),
            ));
            i = i + 1;
        }
        assert(ids@.take(i as int) =~= ids@);
        assert(event_counts(before).restrict(begun.intersect(ids@.to_set())) =~= event_counts(
            before,
        ).restrict(begun));
    }

    fn seal_pass(&mut self, id: usize)
        requires
            old(self)@.tracks.contains_key(id),
            recording::loop_length(old(self)@, id) > 0,
        ensures
            final(self)@ == with_pass_sealed(old(self)@, id),
    {
        let length: usize = self.loop_length(id);
        if self.current_tick % length != 0 {
            return;
        }
        self.seal(id, length - 1);
        if self.held_notes.contains_key(&id) {
            self.held_notes.insert(id, NoteSet::new());
            assert(self@.held_notes =~= old(self)@.held_notes.insert(id, Seq::empty()));
        }
    }

    fn seal_passes(&mut self)
        requires
            loops_set(old(self)@),
        ensures
            final(self)@ == passes_sealed(old(self)@, old(self)@.tracks.dom()),
    {
        let ghost before = self@;
        let ids: Vec<usize> = tables::keys_of(&self.tracks);
        assert(ids@.to_set() =~= before.tracks.dom());
        let mut i: usize = 0;
        assert(self@ =~= passes_sealed(before, ids@.take(0).to_set()));
        while i < ids.len()
            invariant
                i <= ids@.len(),
                ids@.no_duplicates(),
                ids@.to_set() == before.tracks.dom(),
                loops_set(before),
                self@ == passes_sealed(before, ids@.take(i as int).to_set()),
            decreases ids@.len() - i,
        {
            let id: usize = ids[i];
            assert(ids@.to_set().contains(id));
            assert(before.tracks.contains_key(id));
            self.seal_pass(id);
            proof {
                tables::lemma_take_one_more(ids@, i as int);
                lemma_one_more_pass(before, ids@.take(i as int).to_set(), id);
            }
            i = i + 1;
        }
        assert(ids@.take(i as int) =~= ids@);
    }
}

/// Sealing the passes of some tracks, then of one more, seals the passes of all of them.
proof fn lemma_one_more_pass(e: Engine, ids: Set<usize>, id: usize)
    requires
        e.tracks.contains_key(id),
        !ids.contains(id),
    ensures
        with_pass_sealed(passes_sealed(e, ids), id) == passes_sealed(e, ids.insert(id)),
{
    let d = passes_sealed(e, ids);
    let r = with_pass_sealed(d, id);
    let all = passes_sealed(e, ids.insert(id));
    assert(at_boundary(d, id) == at_boundary(e, id));
    assert(recording::held_on(d, id) =~= recording::held_on(e, id));
    assert(boundary_seals(d, id) == boundary_seals(e, id));
    assert(r.tracks =~= all.tracks);
    assert(r.held_notes =~= all.held_notes);
}

/// Going through one more event sends its message where it is due.
proof fn lemma_one_more_event(e: Engine, id: usize, events: Seq<TrackEvent>, event: TrackEvent)
    ensures
        messages_of(e, id, events.push(event)) == if is_due(e, id, event) {
            messages_of(e, id, events).push(event_message(e, id, event))
        } else {
            messages_of(e, id, events)
        },
{
    reveal(Seq::filter);
    assert(events.push(event).drop_last() =~= events);
    assert(messages_of(e, id, events.push(event)) =~= if is_due(e, id, event) {
        messages_of(e, id, events).push(event_message(e, id, event))
    } else {
        messages_of(e, id, events)
    });
}

fn play_event(state: &EngineState, id: usize, event: &TrackEvent) -> (r: Output)
    ensures
        r@ == event_message(state@, id, *event),
{
    match event.message_type {
        MessageType::NoteOn => output::synth3(
            0x90u8 | event.channel,
            event.data1,
            state.sounding_velocity(id, event.data2),
        ),
        MessageType::NoteOff => output::synth3(0x80u8 | event.channel, event.data1, event.data2),
        MessageType::PitchBend => output::synth3(0xE0u8 | event.channel, event.data1, event.data2),
    }
}

fn play_track(state: &EngineState, id: usize, out: &mut Vec<Output>)
    requires
        state@.tracks.contains_key(id),
        !state@.muted_tracks.contains(id) ==> playable(state@, id),
    ensures
        output::sent(final(out)@) == output::sent(old(out)@) + track_messages(state@, id),
{
    broadcast use output::lemma_sent_push;

    if state.muted_tracks.contains(&id) {
        return;
    }
    let events: &Vec<TrackEvent> = state.tracks.get(&id).unwrap();
    assert(events@ == state@.tracks[id]);
    let mut count: usize = events.len();
    if state.is_recording {
        match state.loop_start_lens.get(&id) {
            Some(at_start) => {
                if *at_start < count {
                    count = *at_start;
                }
            },
            None => {},
        }
    }
    assert(events@.take(count as int) =~= audible(state@, id));
    let length: usize = state.loop_length(id);
    let ghost before = output::sent(out@);
    let mut i: usize = 0;
    proof {
        reveal(Seq::filter);
    }
    while i < count
        invariant
            i <= count <= events@.len(),
            length == recording::loop_length(state@, id),
            events@.take(count as int) == audible(state@, id),
            playable(state@, id),
            output::sent(out@) == before + messages_of(state@, id, events@.take(i as int)),
        decreases count - i,
    {
        let event: TrackEvent = events[i];
        assert(audible(state@, id)[i as int] == event);
        let tick: usize = if state.quantize_on {
            domain::quantize_tick(event.tick, state.ppqn / 4, length)
        } else {
            event.tick
        };
        proof {
            assert(events@.take(i as int + 1) =~= events@.take(i as int).push(event));
            lemma_one_more_event(state@, id, events@.take(i as int), event);
        }
        let ghost sent_so_far = messages_of(state@, id, events@.take(i as int));
        assert((tick == state@.current_tick as int % length as int) == is_due(state@, id, event));
        if tick == state.current_tick % length {
            out.push(play_event(state, id, &event));
            assert((before + sent_so_far).push(event_message(state@, id, event)) =~= before
                + sent_so_far.push(event_message(state@, id, event)));
        }
        i = i + 1;
    }
}

fn play(state: &EngineState, out: &mut Vec<Output>)
    requires
        forall|id: usize| #[trigger]
            state@.tracks.contains_key(id) && !state@.muted_tracks.contains(id) ==> playable(
                state@,
                id,
            ),
    ensures
        exists|ids: Seq<usize>| #[trigger]
            is_walk(ids, state@) && output::sent(final(out)@) == output::sent(old(out)@)
                + playback(state@, ids),
{
    let ids: Vec<usize> = tables::keys_of(&state.tracks);
    assert(ids@.to_set() =~= state@.tracks.dom());
    let ghost before = output::sent(out@);
    let mut i: usize = 0;
    while i < ids.len()
        invariant
            i <= ids@.len(),
            ids@.to_set() == state@.tracks.dom(),
            forall|id: usize| #[trigger]
                state@.tracks.contains_key(id) && !state@.muted_tracks.contains(id) ==> playable(
                    state@,
                    id,
                ),
            output::sent(out@) == before + playback(state@, ids@.take(i as int)),
        decreases ids@.len() - i,
    {
        assert(ids@.to_set().contains(ids@[i as int]));
        assert(state@.tracks.contains_key(ids@[i as int]));
        play_track(state, ids[i], out);
        assert(ids@.take(i as int + 1).drop_last() =~= ids@.take(i as int));
        i = i + 1;
    }
    assert(ids@.take(i as int) =~= ids@);
    assert(is_walk(ids@, state@));
}

fn beat(state: &EngineState, metro: &MetronomeHwConfig, ticks_per_beat: usize, out: &mut Vec<Output>)
    requires
        state@.metronome_on ==> ticks_per_beat > 0 && (state@.current_tick as int
            % ticks_per_beat as int == 0 ==> recording::loop_length(state@, state@.active_track)
            > 0),
    ensures
        output::sent(final(out)@) == output::sent(old(out)@) + click(
            state@,
            *metro,
            ticks_per_beat,
        ),
{
    broadcast use output::lemma_sent_push;

    if state.metronome_on && state.current_tick % ticks_per_beat == 0 {
        let length: usize = state.loop_length(state.active_track);
        let note: u8 = if state.current_tick % length == 0 {
            metro.downbeat_note
        } else {
            metro.subdivision_note
        };
        out.push(output::synth3(0x90u8 | metro.channel, note, metro.velocity));
        out.push(output::synth3(0x80u8 | metro.channel, note, 0));
    }
}

/// Runs one tick of the master clock at the time `now`, and returns what is to be sent: the
/// record light where a recording begins, the events that are due, track by track in no
/// particular order, and the click.
pub fn clock_tick(
    state: &mut EngineState,
    metro: &MetronomeHwConfig,
    record_led: Option<u8>,
    led_on_channel: Option<u8>,
    ticks_per_beat: usize,
    now: u128,
) -> (r: Vec<Output>)
    requires
        tick_ready(old(state)@, ticks_per_beat, now),
    ensures
        final(state)@ == ticked(old(state)@, now),
        exists|ids: Seq<usize>| #[trigger]
            is_walk(ids, prepared(old(state)@, now)) && output::sent(r@) == tick_output(
                old(state)@,
                *metro,
                record_led,
                led_on_channel,
                ticks_per_beat,
                now,
                ids,
            ),
{
    broadcast use output::lemma_sent_push;
    broadcast use output::lemma_sent_empty;

    let mut out: Vec<Output> = Vec::new();
    let punched: bool = state.pending_record && state.is_arm_time_over(now) && state.current_tick
        % state.ticks_per_measure == 0;
    if punched {
        state.punch_in();
        match (record_led, led_on_channel) {
            (Some(note), Some(channel)) => {
                out.push(output::send_led(note, channel));
            },
            _ => {},
        }
    }
    assert(output::sent(out@) =~= punch_light(punched, record_led, led_on_channel));
    if state.is_recording {
        assert(loops_set(state@)) by {
            assert(forall|id: usize| #[trigger]
                state@.tracks.contains_key(id) ==> old(state)@.tracks.contains_key(id));
        }
        assert(state@.tracks.dom() =~= old(state)@.tracks.dom());
        if !punched {
            state.count_passes();
        }
        state.seal_passes();
    }
    assert(state@ == prepared(old(state)@, now));
    play(state, &mut out);
    beat(state, metro, ticks_per_beat, &mut out);
    let period: usize = if state.max_tick == 0 {
        1
    } else {
        state.max_tick
    };
    state.current_tick = (state.current_tick + 1) % period;
    out
}

/// When the tick after the one that was due at `due` is due, and how long to wait for it.
pub open spec fn paced(due: u128, tick_duration: u128, now: u128) -> (u128, u128) {
    if due + tick_duration < now {
        (now, 0u128)
    } else {
        ((due + tick_duration) as u128, (due + tick_duration - now) as u128)
    }
}

/// When the next tick is due, and how long to wait for it. A clock that has fallen behind goes on
/// from now instead of catching up.
pub fn pace(due: u128, tick_duration: u128, now: u128) -> (r: (u128, u128))
    requires
        due + tick_duration <= u128::MAX,
    ensures
        r == paced(due, tick_duration, now),
{
    let next: u128 = due + tick_duration;
    if next < now {
        (now, 0)
    } else {
        (next, next - now)
    }
}

} // verus!
