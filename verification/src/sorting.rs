//! Putting events in the order of time, and files in the order of their names.
use crate::domain::TrackEvent;
use vstd::prelude::*;

verus! {

/// `events`, which are in the order of time, with `event` behind those of the same or an earlier
/// tick.
pub open spec fn placed(events: Seq<TrackEvent>, event: TrackEvent) -> Seq<TrackEvent>
    decreases events.len(),
{
    if events.len() == 0 || events.last().tick <= event.tick {
        events.push(event)
    } else {
        placed(events.drop_last(), event).push(events.last())
    }
}

/// `events` in the order of time; events of one tick stay in the order in which they came.
pub open spec fn by_tick(events: Seq<TrackEvent>) -> Seq<TrackEvent>
    decreases events.len(),
{
    if events.len() == 0 {
        events
    } else {
        placed(by_tick(events.drop_last()), events.last())
    }
}

/// Puts events in the order of time; events of one tick stay in the order in which they came.
pub fn sort_by_tick(events: &Vec<TrackEvent>) -> (r: Vec<TrackEvent>)
    ensures
        r@ == by_tick(events@),
{
    let mut r: Vec<TrackEvent> = Vec::new();
    let mut i: usize = 0;
    while i < events.len()
        invariant
            i <= events@.len(),
            r@ == by_tick(events@.take(i as int)),
        decreases events@.len() - i,
    {
        let event: TrackEvent = events[i];
        let mut j: usize = r.len();
        assert(r@.take(j as int) =~= r@);
        assert(placed(r@.take(j as int), event) + r@.skip(j as int) =~= placed(r@, event));
        while j > 0 && r[j - 1].tick > event.tick
            invariant
                j <= r@.len(),
                placed(r@.take(j as int), event) + r@.skip(j as int) == placed(r@, event),
            decreases j,
        {
            let ghost before = r@.take(j as int);
            assert(before.drop_last() =~= r@.take(j as int - 1));
            assert(placed(before, event) == placed(r@.take(j as int - 1), event).push(r@[j - 1]));
            assert(placed(before, event) + r@.skip(j as int) =~= placed(
                r@.take(j as int - 1),
                event,
            ) + r@.skip(j as int - 1));
            j = j - 1;
        }
        assert(r@.insert(j as int, event) =~= r@.take(j as int).push(event) + r@.skip(j as int));
        r.insert(j, event);
        assert(events@.take(i as int + 1).drop_last() =~= events@.take(i as int));
        i = i + 1;
    }
    assert(events@.take(i as int) =~= events@);
    r
}

/// Whether text `a` comes before text `b` or is the same, character by character.
pub open spec fn not_after(a: Seq<char>, b: Seq<char>) -> bool
    decreases a.len(),
{
    if a.len() == 0 {
        true
    } else if b.len() == 0 {
        false
    } else if a[0] == b[0] {
        not_after(a.drop_first(), b.drop_first())
    } else {
        a[0] < b[0]
    }
}

fn is_not_after(a: &str, b: &str) -> (r: bool)
    ensures
        r == not_after(a@, b@),
{
    let a_len: usize = a.unicode_len();
    let b_len: usize = b.unicode_len();
    let mut i: usize = 0;
    assert(a@.skip(0) =~= a@);
    assert(b@.skip(0) =~= b@);
    while i < a_len && i < b_len
        invariant
            i <= a_len == a@.len(),
            i <= b_len == b@.len(),
            not_after(a@, b@) == not_after(a@.skip(i as int), b@.skip(i as int)),
        decreases a_len - i,
    {
        let c: char = a.get_char(i);
        let d: char = b.get_char(i);
        assert(a@.skip(i as int).drop_first() =~= a@.skip(i as int + 1));
        assert(b@.skip(i as int).drop_first() =~= b@.skip(i as int + 1));
        if c != d {
            return c < d;
        }
        i = i + 1;
    }
    i == a_len
}

/// `files`, which are in the order of their names, with `file` behind those whose names do not
/// come after its own.
pub open spec fn file_placed(files: Seq<(String, String)>, file: (String, String)) -> Seq<
    (String, String),
>
    decreases files.len(),
{
    if files.len() == 0 || not_after(files.last().0@, file.0@) {
        files.push(file)
    } else {
        file_placed(files.drop_last(), file).push(files.last())
    }
}

/// `files` in the order of their names.
pub open spec fn by_name(files: Seq<(String, String)>) -> Seq<(String, String)>
    decreases files.len(),
{
    if files.len() == 0 {
        files
    } else {
        file_placed(by_name(files.drop_last()), files.last())
    }
}

/// Puts files, each a name and a path, in the order of their names.
pub fn sort_by_name(files: &Vec<(String, String)>) -> (r: Vec<(String, String)>)
    ensures
        r@ == by_name(files@),
{
    let mut r: Vec<(String, String)> = Vec::new();
    let mut i: usize = 0;
    while i < files.len()
        invariant
            i <= files@.len(),
            r@ == by_name(files@.take(i as int)),
        decreases files@.len() - i,
    {
        let file: (String, String) = (files[i].0.clone(), files[i].1.clone());
        assert(file == files@[i as int]);
        let mut j: usize = r.len();
        assert(r@.take(j as int) =~= r@);
        assert(file_placed(r@.take(j as int), file) + r@.skip(j as int) =~= file_placed(r@, file));
        while j > 0 && !is_not_after(r[j - 1].0.as_str(), file.0.as_str())
            invariant
                j <= r@.len(),
                file_placed(r@.take(j as int), file) + r@.skip(j as int) == file_placed(r@, file),
            decreases j,
        {
            let ghost before = r@.take(j as int);
            assert(before.drop_last() =~= r@.take(j as int - 1));
            assert(file_placed(before, file) == file_placed(r@.take(j as int - 1), file).push(
                r@[j - 1],
            ));
            assert(file_placed(before, file) + r@.skip(j as int) =~= file_placed(
                r@.take(j as int - 1),
                file,
            ) + r@.skip(j as int - 1));
            j = j - 1;
        }
        assert(r@.insert(j as int, file) =~= r@.take(j as int).push(file) + r@.skip(j as int));
        r.insert(j, file);
        assert(files@.take(i as int + 1).drop_last() =~= files@.take(i as int));
        i = i + 1;
    }
    assert(files@.take(i as int) =~= files@);
    r
}

} // verus!
