//! Writing the loops as a standard MIDI file.
use self::SmfFormat::{OneTrack, Separate, Together};
use self::SmfKind::{Bend, NoteEnd, NoteStart, TrackEnd};
use crate::clock;
use crate::domain::{Engine, EngineState, MessageType, TrackEvent};
use crate::sorting;
use crate::tables;
use crate::text;
use midly::Format::{Parallel, Sequential, SingleTrack};
use midly::MetaMessage::EndOfTrack;
use midly::MidiMessage::{NoteOff, NoteOn, PitchBend};
use midly::Timing::Metrical;
use midly::TrackEventKind::{Meta, Midi};
use midly::{Header, PitchBend as Wheel, Smf, TrackEvent as FileEvent};
use vstd::prelude::*;

verus! {

/// How the tracks of a MIDI file are laid out: there is one, they play together, or each is a piece
/// of its own.
#[derive(Clone, Copy, Debug, PartialEq, Eq, Structural)]
pub enum SmfFormat {
    OneTrack,
    Together,
    Separate,
}

/// What an event of a MIDI file does.
#[derive(Clone, Copy, Debug, PartialEq, Eq, Structural)]
pub enum SmfKind {
    NoteStart,
    NoteEnd,
    Bend,
    TrackEnd,
}

/// An event of a MIDI file. What its kind has no use for is zero.
#[derive(Clone, Copy, Debug, PartialEq, Eq, Structural)]
pub struct SmfEvent {
    /// The ticks since the event before.
    pub delta: u32,
    pub kind: SmfKind,
    pub channel: u8,
    pub key: u8,
    pub vel: u8,
    pub bend: u16,
}

/// The bytes of the MIDI file of this format, with `ppqn` ticks to the beat and these events; none
/// where it cannot be written.
pub uninterp spec fn smf_bytes(
    format: SmfFormat,
    ppqn: u16,
    tracks: Seq<Seq<SmfEvent>>,
) -> Option<Seq<u8>>;

/// The events of the tracks of `v`.
pub open spec fn track_lists(v: Seq<Vec<SmfEvent>>) -> Seq<Seq<SmfEvent>> {
    v.map_values(|t: Vec<SmfEvent>| t@)
}

/// Calls `midly::Smf::write` on a file with a header of `midly::Header::new` and these tracks, and
/// says whether it succeeded. The claim: success and the bytes that were written depend on the
/// format, on the ticks to the beat and on the events alone. What a failed call leaves in `out` is
/// not stated.
#[verifier::external_body]
fn write_smf(
    format: SmfFormat,
    ppqn: u16,
    tracks: &Vec<Vec<SmfEvent>>,
    out: &mut Vec<u8>,
) -> (r: bool)
    requires
        old(out)@.len() == 0,
    ensures
        r == smf_bytes(format, ppqn, track_lists(tracks@)) is Some,
        r ==> smf_bytes(format, ppqn, track_lists(tracks@)) == Some(final(out)@),
{
    Smf { header: Header::new(match format {
        OneTrack => SingleTrack, Together => Parallel, Separate => Sequential
    }, Metrical(ppqn.into())), tracks: tracks.iter().map(|t| t.iter().map(|e| {
        let channel = e.channel.into();
        let [key, vel] = [e.key, e.vel].map(Into::into);
        FileEvent { delta: e.delta.into(), kind: match e.kind {
            NoteStart => Midi { channel, message: NoteOn { key, vel } },
            NoteEnd => Midi { channel, message: NoteOff { key, vel } },
            Bend => Midi { channel, message: PitchBend { bend: Wheel(e.bend.into()) } },
            TrackEnd => Meta(EndOfTrack)
        } }
    }).collect()).collect() }.write(out).is_ok()
}

/// The ticks from `last` to `tick`, in the width that a file has room for.
pub open spec fn delta_from(last: usize, tick: usize) -> u32 {
    if tick >= last {
        (tick - last) as u32
    } else {
        0
    }
}

/// A recorded event in a file, behind an event at tick `last`.
pub open spec fn smf_event(last: usize, event: TrackEvent) -> SmfEvent {
    let delta = delta_from(last, event.tick);
    let channel = event.channel & 0x0F;
    let key = event.data1 & 0x7F;
    let vel = event.data2 & 0x7F;
    match event.message_type {
        MessageType::NoteOn => SmfEvent {
            delta,
            kind: SmfKind::NoteStart,
            channel,
            key,
            vel,
            bend: 0,
        },
        MessageType::NoteOff => SmfEvent {
            delta,
            kind: SmfKind::NoteEnd,
            channel,
            key,
            vel,
            bend: 0,
        },
        MessageType::PitchBend => SmfEvent {
            delta,
            kind: SmfKind::Bend,
            channel,
            key: 0,
            vel: 0,
            bend: ((event.data2 as u16) << 7u16) | (event.data1 as u16),
        },
    }
}

/// The event that ends a track of a file.
pub open spec fn end_of_track() -> SmfEvent {
    SmfEvent { delta: 0, kind: SmfKind::TrackEnd, channel: 0, key: 0, vel: 0, bend: 0 }
}

/// Events that are in the order of time, in a file.
pub open spec fn in_file(events: Seq<TrackEvent>) -> Seq<SmfEvent> {
    Seq::new(
        events.len(),
        |i: int|
            smf_event(
                if i == 0 {
                    0
                } else {
                    events[i - 1].tick
                },
                events[i],
            ),
    )
}

/// A track in a file: its events in the order of time, and the end.
pub open spec fn smf_track(events: Seq<TrackEvent>) -> Seq<SmfEvent> {
    in_file(sorting::by_tick(events)).push(end_of_track())
}

/// Those of the tracks `ids` that are not empty, in a file.
pub open spec fn smf_tracks(e: Engine, ids: Seq<usize>) -> Seq<Seq<SmfEvent>>
    decreases ids.len(),
{
    if ids.len() == 0 {
        Seq::empty()
    } else {
        let rest = smf_tracks(e, ids.drop_last());
        if e.tracks[ids.last()].len() == 0 {
            rest
        } else {
            rest.push(smf_track(e.tracks[ids.last()]))
        }
    }
}

/// What is written to a file: how its tracks are laid out, the ticks to the beat, and the tracks.
pub struct SmfFile {
    pub format: SmfFormat,
    pub ppqn: u16,
    pub tracks: Seq<Seq<SmfEvent>>,
}

/// The file of the loops, going through the tracks as `ids` does: they play together, at the
/// resolution of the clock.
pub open spec fn file_of(e: Engine, ids: Seq<usize>) -> SmfFile {
    SmfFile {
        format: SmfFormat::Together,
        ppqn: e.ppqn as u16,
        tracks: smf_tracks(e, ids),
    }
}

/// The bytes of a file.
pub open spec fn file_bytes(file: SmfFile) -> Option<Seq<u8>> {
    smf_bytes(file.format, file.ppqn, file.tracks)
}

fn write_event(last: usize, event: &TrackEvent) -> (r: SmfEvent)
    ensures
        r == smf_event(last, *event),
{
    let delta: u32 = if event.tick >= last {
        #[verifier::truncate]
        ((event.tick - last) as u32)
    } else {
        0
    };
    let channel: u8 = event.channel & 0x0F;
    let key: u8 = event.data1 & 0x7F;
    let vel: u8 = event.data2 & 0x7F;
    match event.message_type {
        MessageType::NoteOn => SmfEvent {
            delta,
            kind: SmfKind::NoteStart,
            channel,
            key,
            vel,
            bend: 0,
        },
        MessageType::NoteOff => SmfEvent {
            delta,
            kind: SmfKind::NoteEnd,
            channel,
            key,
            vel,
            bend: 0,
        },
        MessageType::PitchBend => SmfEvent {
            delta,
            kind: SmfKind::Bend,
            channel,
            key: 0,
            vel: 0,
            bend: ((event.data2 as u16) << 7u16) | (event.data1 as u16),
        },
    }
}

/// A track in a file: its events in the order of time, and the end.
pub fn export_track(events: &Vec<TrackEvent>) -> (r: Vec<SmfEvent>)
    ensures
        r@ == smf_track(events@),
{
    let sorted: Vec<TrackEvent> = sorting::sort_by_tick(events);
    let mut track: Vec<SmfEvent> = Vec::new();
    let mut last: usize = 0;
    let mut i: usize = 0;
    while i < sorted.len()
        invariant
            i <= sorted@.len(),
            last == if i == 0 {
                0
            } else {
                sorted@[i - 1].tick
            },
            track@ == in_file(sorted@).take(i as int),
        decreases sorted@.len() - i,
    {
        track.push(write_event(last, &sorted[i]));
        last = sorted[i].tick;
        assert(in_file(sorted@).take(i as int + 1) =~= in_file(sorted@).take(i as int).push(
            in_file(sorted@)[i as int],
        ));
        i = i + 1;
    }
    assert(track@ =~= in_file(sorted@));
    track.push(
        SmfEvent { delta: 0, kind: SmfKind::TrackEnd, channel: 0, key: 0, vel: 0, bend: 0 },
    );
    track
}

/// The tracks of the engine that are not empty, in a file, in no particular order.
pub fn export_tracks(state: &EngineState) -> (r: Vec<Vec<SmfEvent>>)
    ensures
        exists|ids: Seq<usize>| #[trigger]
            clock::is_walk(ids, state@) && track_lists(r@) == smf_tracks(state@, ids),
{
    let ids: Vec<usize> = tables::keys_of(&state.tracks);
    assert(ids@.to_set() =~= state@.tracks.dom());
    let mut tracks: Vec<Vec<SmfEvent>> = Vec::new();
    let mut i: usize = 0;
    assert(track_lists(tracks@) =~= Seq::empty());
    while i < ids.len()
        invariant
            i <= ids@.len(),
            ids@.to_set() == state@.tracks.dom(),
            track_lists(tracks@) == smf_tracks(state@, ids@.take(i as int)),
        decreases ids@.len() - i,
    {
        let id: usize = ids[i];
        assert(ids@.to_set().contains(id));
        assert(state@.tracks.contains_key(id));
        let events: &Vec<TrackEvent> = state.tracks.get(&id).unwrap();
        assert(events@ == state@.tracks[id]);
        assert(ids@.take(i as int + 1).drop_last() =~= ids@.take(i as int));
        if events.len() > 0 {
            let ghost before = tracks@;
            let track: Vec<SmfEvent> = export_track(events);
            tracks.push(track);
            assert(track_lists(tracks@) =~= track_lists(before).push(track@));
        }
        i = i + 1;
    }
    assert(ids@.take(i as int) =~= ids@);
    assert(clock::is_walk(ids@, state@));
    tracks
}

/// The loops as the bytes of a MIDI file whose tracks play together, in no particular order; none
/// where they cannot be written.
pub fn export_midi(state: &EngineState) -> (r: Option<Vec<u8>>)
    ensures
        exists|ids: Seq<usize>| #[trigger]
            clock::is_walk(ids, state@) && file_bytes(file_of(state@, ids)) == match r {
                Some(bytes) => Some(bytes@),
                None => None,
            },
{
    let ppqn: u16 = #[verifier::truncate]
    (state.ppqn as u16);
    let tracks: Vec<Vec<SmfEvent>> = export_tracks(state);
    let mut out: Vec<u8> = Vec::new();
    if write_smf(SmfFormat::Together, ppqn, &tracks, &mut out) {
        Some(out)
    } else {
        None
    }
}

/// The name of the file that holds the loops of a scene.
pub open spec fn file_name(scene_name: Seq<char>, seconds: nat) -> Seq<char> {
    scene_name + "_"@ + text::decimal(seconds) + ".mid"@
}

/// The name of the file that holds the loops of a scene, `seconds` into the epoch.
pub fn export_file_name(scene_name: &String, seconds: u64) -> (r: String)
    ensures
        r@ == file_name(scene_name@, seconds as nat),
{
    let mut name: String = String::new();
    name.append(scene_name.as_str());
    name.append("_");
    text::push_decimal(&mut name, seconds);
    name.append(".mid");
    assert(name@ =~= scene_name@ + "_"@ + text::decimal(seconds as nat) + ".mid"@);
    name
}

} // verus!
