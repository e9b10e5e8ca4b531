//! Writing what is played into the tracks.
use crate::domain;
use crate::domain::{Engine, EngineState, MessageType, NoteSet, TrackEvent, VelocityScale};
use vstd::prelude::*;

verus! {

/// The loop length of a track; one measure where none is set.
pub open spec fn loop_length(e: Engine, id: usize) -> usize {
    if e.track_lengths.contains_key(id) {
        e.track_lengths[id]
    } else {
        e.ticks_per_measure
    }
}

/// The tick at which a loop of `length` ticks records what is played now.
pub open spec fn recorded_tick(e: Engine, length: usize) -> usize {
    if e.quantize_on {
        domain::quantized(e.current_tick as int, e.ppqn as int / 4, length as int) as usize
    } else {
        (e.current_tick as int % length as int) as usize
    }
}

/// Whether `tick` can be snapped to the sixteenths of a loop of `length` ticks.
pub open spec fn snaps(e: Engine, tick: usize, length: usize) -> bool {
    &&& length > 0
    &&& e.quantize_on ==> e.ppqn >= 4 && tick + e.ppqn / 4 / 2 <= usize::MAX
}

/// The velocity that a track plays in place of the recorded one.
pub open spec fn fixed_velocity(e: Engine, id: usize) -> Option<u8> {
    if e.track_velocities.contains_key(id) {
        e.track_velocities[id]
    } else {
        None
    }
}

/// The velocity scale of a track; one where none is set.
pub open spec fn velocity_scale(e: Engine, id: usize) -> Seq<u32> {
    if e.track_velocity_multipliers.contains_key(id) {
        e.track_velocity_multipliers[id]
    } else {
        domain::unit_scale()
    }
}

/// The velocity at which a track sounds a note of velocity `played`.
pub open spec fn sounding_velocity(e: Engine, id: usize, played: u8) -> u8 {
    domain::adjusted(played, fixed_velocity(e, id), velocity_scale(e, id))
}

/// The engine with an event at the end of track `id`; a track that is not there takes none.
pub open spec fn with_event(e: Engine, id: usize, event: TrackEvent) -> Engine {
    Engine {
        tracks: if e.tracks.contains_key(id) {
            e.tracks.insert(id, e.tracks[id].push(event))
        } else {
            e.tracks
        },
        ..e
    }
}

/// The notes that are held on track `id`.
pub open spec fn held_on(e: Engine, id: usize) -> Seq<(u8, u8)> {
    if e.held_notes.contains_key(id) {
        e.held_notes[id]
    } else {
        Seq::empty()
    }
}

/// The engine with a note held on track `id`.
pub open spec fn with_held(e: Engine, id: usize, note: (u8, u8)) -> Engine {
    Engine { held_notes: e.held_notes.insert(id, domain::with_note(held_on(e, id), note)), ..e }
}

/// The engine with a note no longer held on track `id`.
pub open spec fn without_held(e: Engine, id: usize, note: (u8, u8)) -> Engine {
    Engine {
        held_notes: if e.held_notes.contains_key(id) {
            e.held_notes.insert(id, domain::without_note(e.held_notes[id], note))
        } else {
            e.held_notes
        },
        ..e
    }
}

/// The engine with the start or the end of a note recorded on track `id`. The end is recorded
/// only while the note is held: one that was closed at the loop boundary fills its loop.
pub open spec fn with_note_recorded(e: Engine, id: usize, event: TrackEvent) -> Engine {
    let note = (event.data1, event.channel);
    if event.message_type == MessageType::NoteOn {
        with_held(with_event(e, id, event), id, note)
    } else if held_on(e, id).contains(note) {
        with_event(without_held(e, id, note), id, event)
    } else {
        e
    }
}

/// The events that end `notes` at `tick`.
pub open spec fn seals(notes: Seq<(u8, u8)>, tick: usize) -> Seq<TrackEvent> {
    notes.map_values(|note: (u8, u8)| note_end(note, tick))
}

/// The event that ends a note at `tick`.
pub open spec fn note_end(note: (u8, u8), tick: usize) -> TrackEvent {
    TrackEvent {
        tick,
        message_type: MessageType::NoteOff,
        data1: note.0,
        data2: 0,
        channel: note.1,
    }
}

/// The engine with the notes that are held on track `id` ended at `tick`; a track that is not
/// there takes no events.
pub open spec fn with_seals(e: Engine, id: usize, tick: usize) -> Engine {
    Engine {
        tracks: if e.tracks.contains_key(id) {
            e.tracks.insert(id, e.tracks[id] + seals(held_on(e, id), tick))
        } else {
            e.tracks
        },
        ..e
    }
}

impl EngineState {
    /// The loop length of a track.
    pub fn loop_length(&self, id: usize) -> (r: usize)
        ensures
            r == loop_length(self@, id),
    {
        match self.track_lengths.get(&id) {
            Some(length) => *length,
            None => self.ticks_per_measure,
        }
    }

    /// The tick at which a loop of `length` ticks records what is played now.
    pub fn recorded_tick(&self, length: usize) -> (r: usize)
        requires
            snaps(self@, self@.current_tick, length),
        ensures
            r == recorded_tick(self@, length),
    {
        if self.quantize_on {
            domain::quantize_tick(self.current_tick, self.ppqn / 4, length)
        } else {
            self.current_tick % length
        }
    }

    /// The velocity at which a track sounds a note.
    pub fn sounding_velocity(&self, id: usize, played: u8) -> (r: u8)
        ensures
            r == sounding_velocity(self@, id, played),
            r <= 127,
    {
        let fixed: Option<u8> = match self.track_velocities.get(&id) {
            Some(velocity) => *velocity,
            None => None,
        };
        match self.track_velocity_multipliers.get(&id) {
            Some(scale) => scale.adjust(played, fixed),
            None => VelocityScale::unity().adjust(played, fixed),
        }
    }

    pub(crate) fn push_event(&mut self, id: usize, event: TrackEvent)
        ensures
            final(self)@ == with_event(old(self)@, id, event),
    {
        match self.tracks.remove(&id) {
            Some(mut events) => {
                events.push(event);
                self.tracks.insert(id, events);
                assert(self@.tracks =~= with_event(old(self)@, id, event).tracks);
            },
            None => {
                assert(self@.tracks =~= old(self)@.tracks);
            },
        }
    }

    pub(crate) fn hold(&mut self, id: usize, note: (u8, u8))
        ensures
            final(self)@ == with_held(old(self)@, id, note),
    {
        let mut notes: NoteSet = match self.held_notes.remove(&id) {
            Some(notes) => notes,
            None => NoteSet::new(),
        };
        notes.insert(note);
        self.held_notes.insert(id, notes);
        assert(self@.held_notes =~= with_held(old(self)@, id, note).held_notes);
    }

    pub(crate) fn let_go(&mut self, id: usize, note: (u8, u8)) -> (r: bool)
        ensures
            r == held_on(old(self)@, id).contains(note),
            final(self)@ == without_held(old(self)@, id, note),
    {
        match self.held_notes.remove(&id) {
            Some(mut notes) => {
                let was_held: bool = notes.remove(note);
                self.held_notes.insert(id, notes);
                assert(self@.held_notes =~= without_held(old(self)@, id, note).held_notes);
                was_held
            },
            None => {
                assert(self@.held_notes =~= old(self)@.held_notes);
                false
            },
        }
    }

    pub(crate) fn record_note(&mut self, id: usize, event: TrackEvent)
        ensures
            final(self)@ == with_note_recorded(old(self)@, id, event),
    {
        let note: (u8, u8) = (event.data1, event.channel);
        match event.message_type {
            MessageType::NoteOn => {
                self.push_event(id, event);
                self.hold(id, note);
            },
            _ => {
                if self.let_go(id, note) {
                    self.push_event(id, event);
                } else {
                    assert(self@.held_notes =~= old(self)@.held_notes);
                }
            },
        }
    }

    pub(crate) fn seal(&mut self, id: usize, tick: usize)
        ensures
            final(self)@ == with_seals(old(self)@, id, tick),
    {
        let ghost notes = held_on(self@, id);
        match self.tracks.remove(&id) {
            Some(mut events) => {
                let ghost before = events@;
                match self.held_notes.get(&id) {
                    Some(held) => {
                        let mut i: usize = 0;
                        while i < held.len()
                            invariant
                                i <= held@.len(),
                                held@ == notes,
                                events@ == before + seals(notes, tick).take(i as int),
                            decreases held@.len() - i,
                        {
                            let note: (u8, u8) = held.get(i);
                            let ghost all = seals(notes, tick);
                            events.push(
                                TrackEvent {
                                    tick,
                                    message_type: MessageType::NoteOff,
                                    data1: note.0,
                                    data2: 0,
                                    channel: note.1,
                                },
                            );
                            assert(all.take(i as int + 1) =~= all.take(i as int).push(
                                all[i as int],
                            ));
                            i = i + 1;
                        }
                    },
                    None => {},
                }
                assert(events@ =~= before + seals(notes, tick));
                self.tracks.insert(id, events);
                assert(self@.tracks =~= with_seals(old(self)@, id, tick).tracks);
            },
            None => {
                assert(self@.tracks =~= old(self)@.tracks);
            },
        }
    }
}

} // verus!
