//! The texts of the terminal screen.
use crate::config;
use crate::config::GmConfig;
use crate::domain::{Engine, EngineState};
use crate::text;
use vstd::prelude::*;

verus! {

/// The ending of an ordinal number: 1st, 2nd, 3rd, 4th, and 11th, 12th, 13th.
pub open spec fn ordinal_ending(n: nat) -> Seq<char> {
    if 11 <= n % 100 <= 13 {
        "th"@
    } else if n % 10 == 1 {
        "st"@
    } else if n % 10 == 2 {
        "nd"@
    } else if n % 10 == 3 {
        "rd"@
    } else {
        "th"@
    }
}

/// A number as an ordinal.
pub fn ordinal(n: usize) -> (r: String)
    ensures
        r@ == text::decimal(n as nat) + ordinal_ending(n as nat),
{
    let mut s: String = text::to_decimal(n as u64);
    let hundred: usize = n % 100;
    let ten: usize = n % 10;
    if 11 <= hundred && hundred <= 13 {
        s.append("th");
    } else if ten == 1 {
        s.append("st");
    } else if ten == 2 {
        s.append("nd");
    } else if ten == 3 {
        s.append("rd");
    } else {
        s.append("th");
    }
    s
}

/// The cells of a bar, the first `filled` of which are full, with a stroke at every cell in
/// `strokes`.
pub open spec fn cells(width: nat, filled: nat, strokes: spec_fn(int) -> bool) -> Seq<char> {
    Seq::new(
        width,
        |i: int|
            if strokes(i) {
                '|'
            } else if i < filled {
                '█'
            } else {
                '░'
            },
    )
}

/// How many of eight cells a volume fills.
pub open spec fn volume_cells(volume: u8) -> nat {
    let filled = (volume * 8 + 63) / 127;
    if filled < 8 {
        filled as nat
    } else {
        8
    }
}

/// A MIDI volume, 0 to 127, as a bar of eight cells between brackets.
pub fn vol_bar(vol: u8) -> (r: String)
    ensures
        r@ == "["@ + cells(8, volume_cells(vol), |i: int| false) + "]"@,
{
    proof {
        reveal_strlit("█");
        reveal_strlit("░");
    }
    let mut filled: usize = (vol as usize * 8 + 63) / 127;
    if filled > 8 {
        filled = 8;
    }
    let mut s: String = String::new();
    s.append("[");
    let ghost all = cells(8, filled as nat, |i: int| false);
    let mut i: usize = 0;
    assert(s@ =~= "["@ + all.take(0));
    while i < 8
        invariant
            i <= 8,
            all == cells(8, filled as nat, |i: int| false),
            "█"@ == seq!['█'],
            "░"@ == seq!['░'],
            s@ == "["@ + all.take(i as int),
        decreases 8 - i,
    {
        if i < filled {
            s.append("█");
        } else {
            s.append("░");
        }
        assert(s@ =~= "["@ + all.take(i as int + 1));
        i = i + 1;
    }
    assert(all.take(8) =~= all);
    s.append("]");
    s
}

/// The width of the progress bar in a window of `width` columns.
pub open spec fn bar_width_in(width: nat) -> nat {
    if width >= 32 {
        (width - 20) as nat
    } else {
        12
    }
}

/// The width of the progress bar in a window.
pub fn bar_width(width: usize) -> (r: usize)
    ensures
        r == bar_width_in(width as nat),
{
    if width >= 32 {
        width - 20
    } else {
        12
    }
}

/// The measures in a loop, at least one.
pub open spec fn measures_in(length: usize, ticks_per_measure: usize) -> int {
    if ticks_per_measure > 0 && length >= ticks_per_measure {
        length as int / ticks_per_measure as int
    } else {
        1
    }
}

/// Whether a measure other than the first begins at cell `i` of the bar.
pub open spec fn is_separator(i: int, width: int, measures: int) -> bool {
    exists|m: int| 1 <= m < measures && #[trigger] (m * width) / measures == i
}

/// The progress bar: full up to the current tick, with a stroke where a measure begins.
pub open spec fn progress_text(
    width: nat,
    filled: nat,
    measures: int,
    tick: nat,
    length: nat,
) -> Seq<char> {
    " ["@ + cells(width, filled, |i: int| is_separator(i, width as int, measures)) + "]   "@
        + text::decimal(tick) + " / "@ + text::decimal(length)
}

fn begins_measure(i: usize, width: usize, measures: usize) -> (r: bool)
    requires
        (measures - 1) * width <= usize::MAX,
    ensures
        r == is_separator(i as int, width as int, measures as int),
{
    let mut m: usize = 1;
    while m < measures
        invariant
            1 <= m,
            m <= measures || measures == 0,
            (measures - 1) * width <= usize::MAX,
            forall|k: int| 1 <= k < m ==> #[trigger] (k * width as int) / measures as int != i,
        decreases measures - m,
    {
        assert(m * width <= (measures - 1) * width) by (nonlinear_arith)
            requires
                m <= measures - 1,
        ;
        if m * width / measures == i {
            assert((m as int * width as int) / measures as int == i);
            return true;
        }
        m = m + 1;
    }
    false
}

fn progress(width: usize, filled: usize, measures: usize, tick: usize, length: usize) -> (r: String)
    requires
        (measures - 1) * width <= usize::MAX,
    ensures
        r@ == progress_text(
            width as nat,
            filled as nat,
            measures as int,
            tick as nat,
            length as nat,
        ),
{
    proof {
        reveal_strlit("█");
        reveal_strlit("░");
        reveal_strlit("|");
    }
    let mut s: String = String::new();
    s.append(" [");
    let ghost all = cells(
        width as nat,
        filled as nat,
        |i: int| is_separator(i, width as int, measures as int),
    );
    let mut i: usize = 0;
    assert(s@ =~= " ["@ + all.take(0));
    while i < width
        invariant
            i <= width,
            (measures - 1) * width <= usize::MAX,
            all == cells(
                width as nat,
                filled as nat,
                |i: int| is_separator(i, width as int, measures as int),
            ),
            "█"@ == seq!['█'],
            "░"@ == seq!['░'],
            "|"@ == seq!['|'],
            s@ == " ["@ + all.take(i as int),
        decreases width - i,
    {
        if begins_measure(i, width, measures) {
            s.append("|");
        } else if i < filled {
            s.append("█");
        } else {
            s.append("░");
        }
        assert(s@ =~= " ["@ + all.take(i as int + 1));
        i = i + 1;
    }
    assert(all.take(width as int) =~= all);
    s.append("]   ");
    text::push_decimal(&mut s, tick as u64);
    s.append(" / ");
    text::push_decimal(&mut s, length as u64);
    s
}

/// The boxes of the beats of a measure, full up to beat `current`, counted from zero.
pub open spec fn boxes(count: nat, current: nat) -> Seq<char>
    decreases count,
{
    if count == 0 {
        Seq::empty()
    } else {
        boxes((count - 1) as nat, current) + if count - 1 <= current {
            "[■] "@
        } else {
            "[ ] "@
        }
    }
}

/// The beat grid of a measure.
pub open spec fn grid_text(count: nat, current: nat, step: nat) -> Seq<char> {
    "  Beat Grid:  "@ + boxes(count, current) + " (Step: "@ + text::decimal(step) + ")"@
}

fn grid(count: usize, current: usize, step: usize) -> (r: String)
    ensures
        r@ == grid_text(count as nat, current as nat, step as nat),
{
    let mut s: String = String::new();
    s.append("  Beat Grid:  ");
    let mut i: usize = 0;
    assert(s@ =~= "  Beat Grid:  "@ + boxes(0, current as nat));
    while i < count
        invariant
            i <= count,
            s@ == "  Beat Grid:  "@ + boxes(i as nat, current as nat),
        decreases count - i,
    {
        if i <= current {
            s.append("[■] ");
        } else {
            s.append("[ ] ");
        }
        assert(s@ =~= "  Beat Grid:  "@ + boxes(i as nat + 1, current as nat));
        i = i + 1;
    }
    s.append(" (Step: ");
    text::push_decimal(&mut s, step as u64);
    s.append(")");
    s
}

/// A text filled up with blanks to `width` characters.
pub open spec fn padded(s: Seq<char>, width: nat) -> Seq<char> {
    if s.len() >= width {
        s
    } else {
        s + Seq::new((width - s.len()) as nat, |i: int| ' ')
    }
}

fn push_padded(s: &mut String, t: &str, width: usize)
    ensures
        final(s)@ == old(s)@ + padded(t@, width as nat),
{
    proof {
        reveal_strlit(" ");
    }
    let ghost before = s@;
    let mut n: usize = t.unicode_len();
    s.append(t);
    assert(s@ =~= before + t@ + Seq::new(0, |i: int| ' '));
    let ghost first = n as int;
    while n < width
        invariant
            first <= n,
            first == t@.len(),
            n <= width || n == first,
            " "@ == seq![' '],
            s@ == before + t@ + Seq::new((n - first) as nat, |i: int| ' '),
        decreases width - n,
    {
        s.append(" ");
        n = n + 1;
        assert(s@ =~= before + t@ + Seq::new((n - first) as nat, |i: int| ' '));
    }
    assert(s@ =~= before + padded(t@, width as nat));
}

/// A line of the track table.
pub open spec fn row_text(
    id: Seq<char>,
    routing: Seq<char>,
    volume: Seq<char>,
    events: Seq<char>,
    status: Seq<char>,
) -> Seq<char> {
    " "@ + padded(id, 6) + " "@ + padded(routing, 32) + " "@ + padded(volume, 12) + " "@ + padded(
        events,
        14,
    ) + " "@ + status
}

fn row(id: &str, routing: &str, volume: &str, events: &str, status: &str) -> (r: String)
    ensures
        r@ == row_text(id@, routing@, volume@, events@, status@),
{
    let mut s: String = String::new();
    s.append(" ");
    push_padded(&mut s, id, 6);
    s.append(" ");
    push_padded(&mut s, routing, 32);
    s.append(" ");
    push_padded(&mut s, volume, 12);
    s.append(" ");
    push_padded(&mut s, events, 14);
    s.append(" ");
    s.append(status);
    assert(s@ =~= row_text(id@, routing@, volume@, events@, status@));
    s
}

/// The heading of the track table, filled up to `width` columns.
pub open spec fn heading_text(width: nat) -> Seq<char> {
    padded(
        row_text(
            "ID"@,
            "Hardware Routing Node"@,
            "Vol"@,
            "Event Pool"@,
            "Status Buffer"@,
        ),
        width,
    )
}

/// What the record key is about.
#[derive(Clone, Copy, Debug, PartialEq, Eq, Structural)]
pub enum RecordMode {
    Recording,
    Armed,
    Idle,
}

/// What the record key is about: a recording that runs, one that is armed, or nothing.
pub open spec fn record_mode(e: Engine) -> RecordMode {
    if e.is_recording {
        RecordMode::Recording
    } else if e.pending_record {
        RecordMode::Armed
    } else {
        RecordMode::Idle
    }
}

/// The name under which a scene is shown.
pub open spec fn shown_name(e: Engine) -> Seq<char> {
    match e.scene_display_name {
        Some(name) => name,
        None => e.scene_name,
    }
}

/// The pieces of the status line.
pub open spec fn status_pieces(e: Engine) -> Seq<Seq<char>> {
    let common = seq![
        " Scene: "@,
        shown_name(e),
        " | BPM: "@,
        text::decimal(e.bpm as nat),
        " | Meter: "@,
        text::decimal(e.time_signature_numerator as nat) + "/"@ + text::decimal(
            e.time_signature_denominator as nat,
        ),
    ];
    match record_mode(e) {
        RecordMode::Recording => common.push(" | Status:  "@).push("● RECORDING"@),
        RecordMode::Armed => common.push(" | Status:  "@).push("⊙ ARMED"@),
        RecordMode::Idle => common.push(" | Status: IDLE"@),
    }
}

/// What a line of the track table stands out by.
#[derive(Clone, Copy, Debug, PartialEq, Eq, Structural)]
pub enum RowStyle {
    Plain,
    Active,
    Muted,
}

/// A line of the track table.
#[derive(Debug)]
pub struct Row {
    pub text: String,
    pub style: RowStyle,
}

/// The lines of `v`.
pub open spec fn row_views(v: Seq<Row>) -> Seq<(Seq<char>, RowStyle)> {
    v.map_values(|r: Row| (r.text@, r.style))
}

/// How many events a track has.
pub open spec fn event_count(e: Engine, id: usize) -> nat {
    if e.tracks.contains_key(id) {
        e.tracks[id].len()
    } else {
        0
    }
}

/// The line of the drum lane.
pub open spec fn drum_row(e: Engine) -> Seq<char> {
    let count = event_count(e, 0);
    row_text(
        "0"@,
        (match e.drums_name {
            Some(name) => name,
            None => "Drums"@,
        }) + " (Ch 10 Global)"@,
        "-"@,
        if count > 0 {
            text::decimal(count)
        } else {
            "—"@
        },
        if e.is_recording {
            "Capturing..."@
        } else if count > 0 {
            "Sequence Loaded"@
        } else {
            "Live / Pass-through"@
        },
    )
}

/// The program of a track.
pub open spec fn program_of(e: Engine, id: usize) -> u8 {
    if e.track_programs.contains_key(id) {
        e.track_programs[id]
    } else {
        0
    }
}

/// The volume of a track.
pub open spec fn volume_of(e: Engine, id: usize) -> u8 {
    if e.track_volumes.contains_key(id) {
        e.track_volumes[id]
    } else {
        127
    }
}

/// The instrument of a track: the program, and the name of the track or else of the instrument.
pub open spec fn instrument_text(e: Engine, gm: GmConfig, id: usize) -> Seq<char> {
    "("@ + text::decimal(program_of(e, id) as nat) + ") "@ + if e.track_names.contains_key(id) {
        e.track_names[id]
    } else {
        config::instrument_name(gm, program_of(e, id))
    }
}

/// What a track is doing.
pub open spec fn track_status(e: Engine, id: usize) -> Seq<char> {
    if e.muted_tracks.contains(id) {
        "Muted"@
    } else if id == e.active_track && e.is_recording {
        "Capturing..."@
    } else if event_count(e, id) > 0 {
        "Sequence Loaded"@
    } else {
        "Empty"@
    }
}

/// The line of a melodic track.
pub open spec fn track_row(e: Engine, gm: GmConfig, id: usize) -> (Seq<char>, RowStyle) {
    (
        row_text(
            text::decimal(id as nat),
            instrument_text(e, gm, id),
            "["@ + cells(8, volume_cells(volume_of(e, id)), |i: int| false) + "]"@,
            text::decimal(event_count(e, id)),
            track_status(e, id),
        ),
        if e.muted_tracks.contains(id) {
            RowStyle::Muted
        } else if id == e.active_track {
            RowStyle::Active
        } else {
            RowStyle::Plain
        },
    )
}

/// The lines of the track table: the drum lane where there is one, then the tracks in order.
pub open spec fn table_rows(e: Engine, gm: GmConfig) -> Seq<(Seq<char>, RowStyle)> {
    (if e.tracks.contains_key(0) {
        seq![(drum_row(e), RowStyle::Plain)]
    } else {
        Seq::<(Seq<char>, RowStyle)>::empty()
    }) + e.track_ids.map_values(|id: usize| track_row(e, gm, id))
}

/// The texts of the screen.
#[derive(Debug)]
pub struct Screen {
    pub mode: RecordMode,
    pub status: Vec<String>,
    pub timeline_title: String,
    pub bar: String,
    pub grid: String,
    pub heading: String,
    pub rows: Vec<Row>,
}

/// The loop length that the timeline shows; four beats where the active track has none.
pub open spec fn shown_length(e: Engine) -> usize {
    if e.track_lengths.contains_key(e.active_track) {
        e.track_lengths[e.active_track]
    } else {
        96
    }
}

/// The beat of the clock, counted from one.
pub open spec fn beat_number(e: Engine) -> int {
    e.current_tick as int / e.ppqn as int + 1
}

/// The beat of the measure, counted from zero.
pub open spec fn beat_in_measure(e: Engine) -> int {
    if e.time_signature_numerator > 0 {
        (e.current_tick as int / e.ppqn as int) % e.time_signature_numerator as int
    } else {
        0
    }
}

/// The sixteenth of the beat, counted from one.
pub open spec fn step_number(e: Engine) -> int {
    (e.current_tick as int % e.ppqn as int) / (if e.ppqn >= 4 {
        e.ppqn as int / 4
    } else {
        1
    }) + 1
}

/// Whether the screen can be drawn in a window of `timeline_width` columns.
pub open spec fn screen_ready(e: Engine, timeline_width: usize) -> bool {
    &&& e.ppqn > 0
    &&& shown_length(e) > 0
    &&& beat_number(e) <= usize::MAX
    &&& (measures_in(shown_length(e), e.ticks_per_measure) - 1) * bar_width_in(
        timeline_width as nat,
    ) <= usize::MAX
}

/// Whether `s` is the screen of the engine. The timeline is `timeline_width` columns wide and its
/// bar full in the first `filled` cells; the inside of the table is `table_width` columns wide.
pub open spec fn shows(
    s: Screen,
    e: Engine,
    gm: GmConfig,
    timeline_width: usize,
    filled: usize,
    table_width: usize,
) -> bool {
    &&& s.mode == record_mode(e)
    &&& config::texts(s.status@) == status_pieces(e)
    &&& s.timeline_title@ == "Loop Matrix Timeline ("@ + text::decimal(beat_number(e) as nat)
        + ordinal_ending(beat_number(e) as nat) + " Beat)"@
    &&& s.bar@ == progress_text(
        bar_width_in(timeline_width as nat),
        filled as nat,
        measures_in(shown_length(e), e.ticks_per_measure),
        (e.current_tick as int % shown_length(e) as int) as nat,
        shown_length(e) as nat,
    )
    &&& s.grid@ == grid_text(
        e.time_signature_numerator as nat,
        beat_in_measure(e) as nat,
        step_number(e) as nat,
    )
    &&& s.heading@ == heading_text(table_width as nat)
    &&& row_views(s.rows@) == table_rows(e, gm)
}

fn push_text(v: &mut Vec<String>, s: String)
    ensures
        config::texts(final(v)@) == config::texts(old(v)@).push(s@),
{
    let ghost before = v@;
    v.push(s);
    assert(config::texts(v@) =~= config::texts(before).push(s@));
}

fn status_line(state: &EngineState) -> (r: Vec<String>)
    ensures
        config::texts(r@) == status_pieces(state@),
{
    let mut v: Vec<String> = Vec::new();
    assert(config::texts(v@) =~= Seq::<Seq<char>>::empty());
    push_text(&mut v, " Scene: ".to_string());
    let name: String = match &state.scene_display_name {
        Some(name) => name.clone(),
        None => state.scene_name.clone(),
    };
    push_text(&mut v, name);
    push_text(&mut v, " | BPM: ".to_string());
    push_text(&mut v, text::to_decimal(state.bpm as u64));
    push_text(&mut v, " | Meter: ".to_string());
    let mut meter: String = text::to_decimal(state.time_signature_numerator as u64);
    meter.append("/");
    text::push_decimal(&mut meter, state.time_signature_denominator as u64);
    push_text(&mut v, meter);
    if state.is_recording {
        push_text(&mut v, " | Status:  ".to_string());
        push_text(&mut v, "● RECORDING".to_string());
    } else if state.pending_record {
        push_text(&mut v, " | Status:  ".to_string());
        push_text(&mut v, "⊙ ARMED".to_string());
    } else {
        push_text(&mut v, " | Status: IDLE".to_string());
    }
    assert(config::texts(v@) =~= status_pieces(state@));
    v
}

fn count_of(state: &EngineState, id: usize) -> (r: usize)
    ensures
        r == event_count(state@, id),
{
    match state.tracks.get(&id) {
        Some(events) => {
            assert(events@ == state@.tracks[id]);
            events.len()
        },
        None => 0,
    }
}

fn draw_drums(state: &EngineState) -> (r: String)
    ensures
        r@ == drum_row(state@),
{
    let count: usize = count_of(state, 0);
    let mut routing: String = match &state.drums_name {
        Some(name) => name.clone(),
        None => "Drums".to_string(),
    };
    routing.append(" (Ch 10 Global)");
    let events: String = if count > 0 {
        text::to_decimal(count as u64)
    } else {
        "—".to_string()
    };
    let status: &str = if state.is_recording {
        "Capturing..."
    } else if count > 0 {
        "Sequence Loaded"
    } else {
        "Live / Pass-through"
    };
    row("0", routing.as_str(), "-", events.as_str(), status)
}

fn draw_track(state: &EngineState, gm: &GmConfig, id: usize) -> (r: Row)
    ensures
        (r.text@, r.style) == track_row(state@, *gm, id),
{
    let count: usize = count_of(state, id);
    let muted: bool = state.muted_tracks.contains(&id);
    let active: bool = id == state.active_track;
    let status: &str = if muted {
        "Muted"
    } else if active && state.is_recording {
        "Capturing..."
    } else if count > 0 {
        "Sequence Loaded"
    } else {
        "Empty"
    };
    let program: u8 = match state.track_programs.get(&id) {
        Some(program) => *program,
        None => 0,
    };
    let volume: u8 = match state.track_volumes.get(&id) {
        Some(volume) => *volume,
        None => 127,
    };
    let mut instrument: String = String::new();
    instrument.append("(");
    text::push_decimal(&mut instrument, program as u64);
    instrument.append(") ");
    match state.track_names.get(&id) {
        Some(name) => {
            assert(name@ == state@.track_names[id]);
            instrument.append(name.as_str());
        },
        None => {
            let name: String = config::gm_name(gm, program);
            instrument.append(name.as_str());
        },
    }
    assert(instrument@ =~= instrument_text(state@, *gm, id));
    let number: String = text::to_decimal(id as u64);
    let bar: String = vol_bar(volume);
    let events: String = text::to_decimal(count as u64);
    let line: String = row(
        number.as_str(),
        instrument.as_str(),
        bar.as_str(),
        events.as_str(),
        status,
    );
    let style: RowStyle = if muted {
        RowStyle::Muted
    } else if active {
        RowStyle::Active
    } else {
        RowStyle::Plain
    };
    Row { text: line, style }
}

fn draw_table(state: &EngineState, gm: &GmConfig) -> (r: Vec<Row>)
    ensures
        row_views(r@) == table_rows(state@, *gm),
{
    let mut rows: Vec<Row> = Vec::new();
    if state.tracks.contains_key(&0) {
        rows.push(Row { text: draw_drums(state), style: RowStyle::Plain });
    }
    let ghost first = row_views(rows@);
    let ghost all = state@.track_ids.map_values(|id: usize| track_row(state@, *gm, id));
    let mut i: usize = 0;
    assert(row_views(rows@) =~= first + all.take(0));
    while i < state.track_ids.len()
        invariant
            i <= state.track_ids@.len(),
            all == state@.track_ids.map_values(|id: usize| track_row(state@, *gm, id)),
            row_views(rows@) == first + all.take(i as int),
        decreases state.track_ids@.len() - i,
    {
        let ghost before = rows@;
        let line: Row = draw_track(state, gm, state.track_ids[i]);
        rows.push(line);
        assert(row_views(rows@) =~= row_views(before).push((line.text@, line.style)));
        assert(all.take(i as int + 1) =~= all.take(i as int).push(all[i as int]));
        assert(row_views(rows@) =~= first + all.take(i as int + 1));
        i = i + 1;
    }
    assert(all.take(i as int) =~= all);
    assert(row_views(rows@) =~= table_rows(state@, *gm));
    rows
}

/// The tick of the active track's loop and its length, which the timeline shows.
pub fn timeline_position(state: &EngineState) -> (r: (usize, usize))
    requires
        shown_length(state@) > 0,
    ensures
        r.0 == state@.current_tick as int % shown_length(state@) as int,
        r.1 == shown_length(state@),
{
    let length: usize = match state.track_lengths.get(&state.active_track) {
        Some(length) => *length,
        None => 96,
    };
    (state.current_tick % length, length)
}

/// Puts the texts of the screen together. The bar of the timeline is full in its first `filled`
/// cells.
pub fn draw_ui(
    state: &EngineState,
    gm_config: &GmConfig,
    timeline_width: usize,
    filled: usize,
    table_width: usize,
) -> (r: Screen)
    requires
        screen_ready(state@, timeline_width),
    ensures
        shows(r, state@, *gm_config, timeline_width, filled, table_width),
{
    let (tick, length) = timeline_position(state);
    let beats: usize = state.current_tick / state.ppqn;
    let sixteenth: usize = if state.ppqn >= 4 {
        state.ppqn / 4
    } else {
        1
    };
    let in_beat: usize = state.current_tick % state.ppqn;
    assert(in_beat / sixteenth <= in_beat) by (nonlinear_arith)
        requires
            sixteenth >= 1,
    ;
    let step: usize = in_beat / sixteenth + 1;
    let mut title: String = String::new();
    title.append("Loop Matrix Timeline (");
    let nth: String = ordinal(beats + 1);
    title.append(nth.as_str());
    title.append(" Beat)");
    assert(title@ =~= "Loop Matrix Timeline ("@ + text::decimal(beat_number(state@) as nat)
        + ordinal_ending(beat_number(state@) as nat) + " Beat)"@);
    let measures: usize = if state.ticks_per_measure > 0 && length >= state.ticks_per_measure {
        length / state.ticks_per_measure
    } else {
        1
    };
    let meter: usize = state.time_signature_numerator as usize;
    let current: usize = if meter > 0 {
        beats % meter
    } else {
        0
    };
    let mode: RecordMode = if state.is_recording {
        RecordMode::Recording
    } else if state.pending_record {
        RecordMode::Armed
    } else {
        RecordMode::Idle
    };
    let line: String = row("ID", "Hardware Routing Node", "Vol", "Event Pool", "Status Buffer");
    let mut heading: String = String::new();
    push_padded(&mut heading, line.as_str(), table_width);
    assert(heading@ =~= heading_text(table_width as nat));
    Screen {
        mode,
        status: status_line(state),
        timeline_title: title,
        bar: progress(bar_width(timeline_width), filled, measures, tick, length),
        grid: grid(meter, current, step),
        heading,
        rows: draw_table(state, gm_config),
    }
}

/// What happened at the terminal.
#[derive(Clone, Copy, Debug, PartialEq, Eq, Structural)]
pub enum UiEvent {
    Key(char),
    Resized,
    Other,
}

/// What the terminal is to do.
#[derive(Clone, Copy, Debug, PartialEq, Eq, Structural)]
pub enum UiAction {
    Quit,
    SaveLoops,
    ClearScreen,
    GoOn,
}

/// What an event at the terminal calls for.
pub open spec fn action_for(event: UiEvent) -> UiAction {
    match event {
        UiEvent::Key(c) => if c == 'q' {
            UiAction::Quit
        } else if c == 's' {
            UiAction::SaveLoops
        } else {
            UiAction::GoOn
        },
        UiEvent::Resized => UiAction::ClearScreen,
        UiEvent::Other => UiAction::GoOn,
    }
}

/// What an event at the terminal calls for: `q` quits, `s` saves the loops, and another size clears
/// the screen.
pub fn ui_action(event: UiEvent) -> (r: UiAction)
    ensures
        r == action_for(event),
{
    match event {
        UiEvent::Key(c) => if c == 'q' {
            UiAction::Quit
        } else if c == 's' {
            UiAction::SaveLoops
        } else {
            UiAction::GoOn
        },
        UiEvent::Resized => UiAction::ClearScreen,
        UiEvent::Other => UiAction::GoOn,
    }
}

} // verus!
