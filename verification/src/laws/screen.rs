//! What the screen says, told from the engine.
use crate::config;
use crate::config::GmConfig;
use crate::display;
use crate::display::{RecordMode, RowStyle, Screen, UiAction, UiEvent};
use crate::domain::Engine;
use crate::text;
use vstd::prelude::*;

verus! {

/// Numbers end in "st", "nd" and "rd" where they end in 1, 2 and 3, and in "th" everywhere else; but
/// those that end in 11, 12 and 13 end in "th" too.
pub proof fn law_ordinals_end_as_they_are_spoken(n: nat)
    ensures
        n % 10 == 1 && n % 100 != 11 ==> display::ordinal_ending(n) == "st"@,
        n % 10 == 2 && n % 100 != 12 ==> display::ordinal_ending(n) == "nd"@,
        n % 10 == 3 && n % 100 != 13 ==> display::ordinal_ending(n) == "rd"@,
        n % 10 == 0 || n % 10 >= 4 ==> display::ordinal_ending(n) == "th"@,
        n % 100 == 11 || n % 100 == 12 || n % 100 == 13 ==> display::ordinal_ending(n) == "th"@,
{
}

/// A bar of eight cells shows a volume as near as eight cells can: it is empty at zero, full at 127
/// and above, and the full cells are off by half a cell at most. The full cells come first.
pub proof fn law_volume_bars_are_near(volume: u8, i: int)
    ensures
        ({
            let k = display::volume_cells(volume) as int;
            let bar = display::cells(8, k as nat, |i: int| false);
            &&& 0 <= k <= 8
            &&& volume <= 127 ==> -63 <= 127 * k - 8 * volume <= 63
            &&& volume >= 127 ==> k == 8
            &&& bar.len() == 8
            &&& 0 <= i < k ==> bar[i] == '█'
            &&& k <= i < 8 ==> bar[i] == '░'
        }),
{
}

/// The status line names the scene as it is shown, the tempo and the meter, and says whether a
/// recording runs, is armed, or neither.
pub proof fn law_the_status_line(
    s: Screen,
    e: Engine,
    gm: GmConfig,
    timeline_width: usize,
    filled: usize,
    table_width: usize,
)
    requires
        display::shows(s, e, gm, timeline_width, filled, table_width),
    ensures
        s.status@.len() == if e.is_recording || e.pending_record {
            8int
        } else {
            7
        },
        s.status@[0]@ == " Scene: "@,
        s.status@[1]@ == if e.scene_display_name is Some {
            e.scene_display_name->0
        } else {
            e.scene_name
        },
        s.status@[2]@ == " | BPM: "@,
        s.status@[3]@ == text::decimal(e.bpm as nat),
        s.status@[4]@ == " | Meter: "@,
        s.status@[5]@ == text::decimal(e.time_signature_numerator as nat) + "/"@ + text::decimal(
            e.time_signature_denominator as nat,
        ),
        e.is_recording ==> s.mode == RecordMode::Recording && s.status@[6]@ == " | Status:  "@
            && s.status@[7]@ == "● RECORDING"@,
        !e.is_recording && e.pending_record ==> s.mode == RecordMode::Armed && s.status@[6]@
            == " | Status:  "@ && s.status@[7]@ == "⊙ ARMED"@,
        !e.is_recording && !e.pending_record ==> s.mode == RecordMode::Idle && s.status@[6]@
            == " | Status: IDLE"@,
{
    let pieces = config::texts(s.status@);
    assert(pieces.len() == s.status@.len());
    assert(forall|i: int| 0 <= i < pieces.len() ==> pieces[i] == #[trigger] s.status@[i]@);
    assert(pieces[0] == " Scene: "@);
    assert(pieces[6] == s.status@[6]@);
    if e.is_recording || e.pending_record {
        assert(pieces[7] == s.status@[7]@);
    }
}

/// The loop that the timeline shows: that of the active track, or four beats of 24 ticks.
pub open spec fn loop_shown(e: Engine) -> int {
    if e.track_lengths.contains_key(e.active_track) {
        e.track_lengths[e.active_track] as int
    } else {
        96
    }
}

/// The measures of the loop that is shown, at least one.
pub open spec fn measures_shown(e: Engine) -> int {
    let m = if e.ticks_per_measure > 0 {
        loop_shown(e) / e.ticks_per_measure as int
    } else {
        1
    };
    if m >= 1 {
        m
    } else {
        1
    }
}

/// Whether one of `measures` other than the first begins in cell `i` of a bar of `width` cells that
/// shows them all.
pub open spec fn measure_begins(i: int, width: int, measures: int) -> bool {
    exists|m: int| 1 <= m < measures && #[trigger] (m * width) / measures == i
}

/// The timeline says on which beat of the clock it stands. Its bar is twenty columns narrower than
/// the window and twelve wide at least; it is full up to the given cell, with a stroke where a
/// measure other than the first begins, and behind it stand the tick of the loop and its length.
pub proof fn law_the_timeline(
    s: Screen,
    e: Engine,
    gm: GmConfig,
    timeline_width: usize,
    filled: usize,
    table_width: usize,
    i: int,
)
    requires
        display::shows(s, e, gm, timeline_width, filled, table_width),
        e.ppqn > 0,
        loop_shown(e) > 0,
    ensures
        ({
            let beat = e.current_tick as int / e.ppqn as int + 1;
            let width: int = if timeline_width >= 32 {
                timeline_width - 20
            } else {
                12
            };
            let bar = s.bar@;
            &&& s.timeline_title@ == "Loop Matrix Timeline ("@ + text::decimal(beat as nat)
                + display::ordinal_ending(beat as nat) + " Beat)"@
            &&& bar.len() >= 2 + width
            &&& bar[0] == ' '
            &&& bar[1] == '['
            &&& 0 <= i < width ==> bar[2 + i] == if measure_begins(i, width, measures_shown(e)) {
                '|'
            } else if i < filled {
                '█'
            } else {
                '░'
            }
            &&& bar.skip(2 + width) == "]   "@ + text::decimal(
                (e.current_tick as int % loop_shown(e)) as nat,
            ) + " / "@ + text::decimal(loop_shown(e) as nat)
        }),
{
    reveal_strlit(" [");
    let width: int = if timeline_width >= 32 {
        timeline_width - 20
    } else {
        12
    };
    if e.ticks_per_measure > 0 {
        let t = e.ticks_per_measure as int;
        if loop_shown(e) >= t {
            vstd::arithmetic::div_mod::lemma_div_non_zero(loop_shown(e), t);
        } else {
            vstd::arithmetic::div_mod::lemma_basic_div(loop_shown(e), t);
        }
    }
    assert(display::measures_in(display::shown_length(e), e.ticks_per_measure) == measures_shown(e));
    let cells = display::cells(
        width as nat,
        filled as nat,
        |i: int| display::is_separator(i, width, measures_shown(e)),
    );
    if 0 <= i < width {
        assert(s.bar@[2 + i] == cells[i]);
        assert(display::is_separator(i, width, measures_shown(e)) == measure_begins(
            i,
            width,
            measures_shown(e),
        ));
    }
    assert(s.bar@.skip(2 + width) =~= "]   "@ + text::decimal(
        (e.current_tick as int % loop_shown(e)) as nat,
    ) + " / "@ + text::decimal(loop_shown(e) as nat));
}

/// The boxes of the beats.
proof fn lemma_boxes(count: nat, current: nat, i: int)
    ensures
        display::boxes(count, current).len() == 4 * count,
        0 <= i < count ==> {
            let boxes = display::boxes(count, current);
            &&& boxes[4 * i] == '['
            &&& boxes[4 * i + 1] == if i <= current {
                '■'
            } else {
                ' '
            }
            &&& boxes[4 * i + 2] == ']'
            &&& boxes[4 * i + 3] == ' '
        },
    decreases count,
{
    reveal_strlit("[■] ");
    reveal_strlit("[ ] ");
    if count > 0 {
        lemma_boxes((count - 1) as nat, current, i);
    }
}

/// The beat grid has a box for every beat of the measure, full up to the one on which the clock
/// stands, and says which quarter of the beat it is.
pub proof fn law_the_beat_grid(
    s: Screen,
    e: Engine,
    gm: GmConfig,
    timeline_width: usize,
    filled: usize,
    table_width: usize,
    i: int,
)
    requires
        display::shows(s, e, gm, timeline_width, filled, table_width),
        e.ppqn > 0,
        e.time_signature_numerator > 0,
    ensures
        ({
            let n = e.time_signature_numerator as int;
            let current = (e.current_tick as int / e.ppqn as int) % n;
            let quarter = if e.ppqn >= 4 {
                e.ppqn as int / 4
            } else {
                1
            };
            let step = (e.current_tick as int % e.ppqn as int) / quarter + 1;
            let grid = s.grid@;
            &&& grid.len() >= 14 + 4 * n
            &&& grid.take(14) == "  Beat Grid:  "@
            &&& 0 <= i < n ==> {
                &&& grid[14 + 4 * i] == '['
                &&& grid[14 + 4 * i + 1] == if i <= current {
                    '■'
                } else {
                    ' '
                }
                &&& grid[14 + 4 * i + 2] == ']'
                &&& grid[14 + 4 * i + 3] == ' '
            }
            &&& grid.skip(14 + 4 * n) == " (Step: "@ + text::decimal(step as nat) + ")"@
        }),
{
    reveal_strlit("  Beat Grid:  ");
    let n = e.time_signature_numerator as nat;
    let current = display::beat_in_measure(e) as nat;
    vstd::arithmetic::div_mod::lemma_div_pos_is_pos(e.current_tick as int, e.ppqn as int);
    lemma_boxes(n, current, i);
    assert(s.grid@.take(14) =~= "  Beat Grid:  "@);
    assert(s.grid@.skip(14 + 4 * n as int) =~= " (Step: "@ + text::decimal(
        display::step_number(e) as nat,
    ) + ")"@);
    if 0 <= i < n {
        let boxes = display::boxes(n, current);
        assert(s.grid@[14 + 4 * i] == boxes[4 * i]);
        assert(s.grid@[14 + 4 * i + 1] == boxes[4 * i + 1]);
        assert(s.grid@[14 + 4 * i + 2] == boxes[4 * i + 2]);
        assert(s.grid@[14 + 4 * i + 3] == boxes[4 * i + 3]);
    }
}

/// Whether `cell` is the text `t`, filled up with blanks to `width` characters.
pub open spec fn fills(cell: Seq<char>, t: Seq<char>, width: int) -> bool {
    &&& cell.len() == if t.len() >= width {
        t.len() as int
    } else {
        width
    }
    &&& cell.take(t.len() as int) == t
    &&& forall|i: int| t.len() <= i < cell.len() ==> cell[i] == ' '
}

/// Whether a line of the table has these five cells.
pub open spec fn is_line(
    line: Seq<char>,
    id: Seq<char>,
    routing: Seq<char>,
    volume: Seq<char>,
    events: Seq<char>,
    status: Seq<char>,
) -> bool {
    exists|a: Seq<char>, b: Seq<char>, c: Seq<char>, d: Seq<char>|
        #![trigger fills(a, id, 6), fills(b, routing, 32), fills(c, volume, 12), fills(d, events, 14)]
        {
            &&& fills(a, id, 6)
            &&& fills(b, routing, 32)
            &&& fills(c, volume, 12)
            &&& fills(d, events, 14)
            &&& line == " "@ + a + " "@ + b + " "@ + c + " "@ + d + " "@ + status
        }
}

proof fn lemma_fills(t: Seq<char>, width: nat)
    ensures
        fills(display::padded(t, width), t, width as int),
{
    assert(display::padded(t, width).take(t.len() as int) =~= t);
}

proof fn lemma_line(
    id: Seq<char>,
    routing: Seq<char>,
    volume: Seq<char>,
    events: Seq<char>,
    status: Seq<char>,
)
    ensures
        is_line(
            display::row_text(id, routing, volume, events, status),
            id,
            routing,
            volume,
            events,
            status,
        ),
{
    lemma_fills(id, 6);
    lemma_fills(routing, 32);
    lemma_fills(volume, 12);
    lemma_fills(events, 14);
    let a = display::padded(id, 6);
    let b = display::padded(routing, 32);
    let c = display::padded(volume, 12);
    let d = display::padded(events, 14);
    assert(fills(a, id, 6) && fills(b, routing, 32) && fills(c, volume, 12) && fills(d, events, 14));
}

/// The table has a line for the drum lane, where there is one, and then one for every track, in
/// order.
pub proof fn law_the_table_has_a_line_for_every_track(
    s: Screen,
    e: Engine,
    gm: GmConfig,
    timeline_width: usize,
    filled: usize,
    table_width: usize,
    k: int,
)
    requires
        display::shows(s, e, gm, timeline_width, filled, table_width),
    ensures
        ({
            let first: int = if e.tracks.contains_key(0) {
                1
            } else {
                0
            };
            let id = e.track_ids[k];
            let row = s.rows@[first + k];
            let count = if e.tracks.contains_key(id) {
                e.tracks[id].len()
            } else {
                0
            };
            let program: u8 = if e.track_programs.contains_key(id) {
                e.track_programs[id]
            } else {
                0
            };
            let volume: u8 = if e.track_volumes.contains_key(id) {
                e.track_volumes[id]
            } else {
                127
            };
            &&& s.rows@.len() == first + e.track_ids.len()
            &&& fills(s.heading@, display::heading_text(0), table_width as int)
            &&& is_line(
                display::heading_text(0),
                "ID"@,
                "Hardware Routing Node"@,
                "Vol"@,
                "Event Pool"@,
                "Status Buffer"@,
            )
            &&& 0 <= k < e.track_ids.len() ==> {
                &&& is_line(
                    row.text@,
                    text::decimal(id as nat),
                    "("@ + text::decimal(program as nat) + ") "@ + if e.track_names.contains_key(
                        id,
                    ) {
                        e.track_names[id]
                    } else {
                        config::instrument_name(gm, program)
                    },
                    "["@ + display::cells(8, display::volume_cells(volume), |i: int| false) + "]"@,
                    text::decimal(count),
                    if e.muted_tracks.contains(id) {
                        "Muted"@
                    } else if id == e.active_track && e.is_recording {
                        "Capturing..."@
                    } else if count > 0 {
                        "Sequence Loaded"@
                    } else {
                        "Empty"@
                    },
                )
                &&& row.style == if e.muted_tracks.contains(id) {
                    RowStyle::Muted
                } else if id == e.active_track {
                    RowStyle::Active
                } else {
                    RowStyle::Plain
                }
            }
        }),
{
    let first: int = if e.tracks.contains_key(0) {
        1
    } else {
        0
    };
    let views = display::row_views(s.rows@);
    assert(views.len() == s.rows@.len());
    let plain = display::row_text(
        "ID"@,
        "Hardware Routing Node"@,
        "Vol"@,
        "Event Pool"@,
        "Status Buffer"@,
    );
    assert(display::heading_text(0) == plain);
    lemma_fills(plain, table_width as nat);
    assert(s.heading@.take(plain.len() as int) =~= plain);
    lemma_line("ID"@, "Hardware Routing Node"@, "Vol"@, "Event Pool"@, "Status Buffer"@);
    if 0 <= k < e.track_ids.len() {
        let id = e.track_ids[k];
        assert(views[first + k] == display::track_row(e, gm, id));
        assert(views[first + k].0 == s.rows@[first + k].text@);
        lemma_line(
            text::decimal(id as nat),
            display::instrument_text(e, gm, id),
            "["@ + display::cells(
                8,
                display::volume_cells(display::volume_of(e, id)),
                |i: int| false,
            ) + "]"@,
            text::decimal(display::event_count(e, id)),
            display::track_status(e, id),
        );
    }
}

/// The line of the drum lane comes first and stands out by nothing. It gives the name of the drums,
/// how many events they have, if any, and whether they are recorded, loaded or played by hand.
pub proof fn law_the_line_of_the_drums(
    s: Screen,
    e: Engine,
    gm: GmConfig,
    timeline_width: usize,
    filled: usize,
    table_width: usize,
)
    requires
        display::shows(s, e, gm, timeline_width, filled, table_width),
        e.tracks.contains_key(0),
    ensures
        ({
            let count = e.tracks[0].len();
            let row = s.rows@[0];
            &&& s.rows@.len() > 0
            &&& row.style == RowStyle::Plain
            &&& is_line(
                row.text@,
                "0"@,
                (if e.drums_name is Some {
                    e.drums_name->0
                } else {
                    "Drums"@
                }) + " (Ch 10 Global)"@,
                "-"@,
                if count > 0 {
                    text::decimal(count)
                } else {
                    "—"@
                },
                if e.is_recording {
                    "Capturing..."@
                } else if count > 0 {
                    "Sequence Loaded"@
                } else {
                    "Live / Pass-through"@
                },
            )
        }),
{
    let views = display::row_views(s.rows@);
    assert(views.len() == s.rows@.len());
    assert(views[0] == (display::drum_row(e), RowStyle::Plain));
    assert(views[0].0 == s.rows@[0].text@);
    let count = e.tracks[0].len();
    lemma_line(
        "0"@,
        (if e.drums_name is Some {
            e.drums_name->0
        } else {
            "Drums"@
        }) + " (Ch 10 Global)"@,
        "-"@,
        if count > 0 {
            text::decimal(count)
        } else {
            "—"@
        },
        if e.is_recording {
            "Capturing..."@
        } else if count > 0 {
            "Sequence Loaded"@
        } else {
            "Live / Pass-through"@
        },
    );
}

/// The key `q` and nothing else quits, the key `s` and nothing else saves, and another size of the
/// window and nothing else clears the screen.
pub proof fn law_the_terminal_is_heard(event: UiEvent)
    ensures
        display::action_for(event) == UiAction::Quit <==> event == UiEvent::Key('q'),
        display::action_for(event) == UiAction::SaveLoops <==> event == UiEvent::Key('s'),
        display::action_for(event) == UiAction::ClearScreen <==> event == UiEvent::Resized,
{
}

} // verus!
