//! The texts of the configuration files: numbers, keys, lengths and pads.
use crate::config;
use crate::config::{KeyBinding, KeyKind, Length};
use crate::session;
use crate::text;
use vstd::prelude::*;

verus! {

/// A number in decimal is a run of digits that stands for the number.
proof fn lemma_decimal(n: nat)
    ensures
        text::all_digits(text::decimal(n)),
        text::digits_value(text::decimal(n)) == n,
    decreases n,
{
    let s = text::decimal(n);
    if n < 10 {
        assert(s.drop_last() =~= Seq::empty());
        assert(text::digits_value(s.drop_last()) == 0);
    } else {
        lemma_decimal(n / 10);
        assert(s.drop_last() =~= text::decimal(n / 10));
        assert forall|i: int| 0 <= i < s.len() implies text::is_digit(#[trigger] s[i]) by {
            if i < s.len() - 1 {
                assert(text::is_digit(text::decimal(n / 10)[i]));
            }
        }
    }
}

/// A number that is written in decimal is read back, up to the largest that is accepted.
pub proof fn law_numbers_are_read_back(n: nat, max: nat)
    ensures
        text::number(text::decimal(n), max) == if n <= max {
            Some(n)
        } else {
            None::<nat>
        },
{
    lemma_decimal(n);
    assert(text::is_digit(text::decimal(n)[0]));
}

/// Text without an underscore in front of `_CH` is split there.
pub proof fn lemma_split_at_channel(base: Seq<char>, after: Seq<char>)
    requires
        forall|i: int| 0 <= i < base.len() ==> #[trigger] base[i] != '_',
    ensures
        text::found(base + "_CH"@ + after, "_CH"@) == Some(base.len() as int),
        (base + "_CH"@ + after).take(base.len() as int) == base,
        (base + "_CH"@ + after).skip(base.len() as int + 3) == after,
{
    reveal_strlit("_CH");
    let s = base + "_CH"@ + after;
    let at = base.len() as int;
    assert(s.subrange(at, at + 3) =~= "_CH"@);
    assert forall|j: int| 0 <= j < at implies !text::occurs_at(s, "_CH"@, j) by {
        if text::occurs_at(s, "_CH"@, j) {
            assert(s.subrange(j, j + 3)[0] == s[j]);
            assert(s[j] == base[j]);
        }
    }
    text::lemma_found_at(s, "_CH"@, at);
    assert(s.take(at) =~= base);
    assert(s.skip(at + 3) =~= after);
}

/// Text without an underscore has no channel.
pub proof fn lemma_no_channel(base: Seq<char>)
    requires
        forall|i: int| 0 <= i < base.len() ==> #[trigger] base[i] != '_',
    ensures
        text::found(base, "_CH"@) == None::<int>,
{
    reveal_strlit("_CH");
    assert forall|j: int| !text::occurs_at(base, "_CH"@, j) by {
        if text::occurs_at(base, "_CH"@, j) {
            assert(base.subrange(j, j + 3)[0] == base[j]);
        }
    }
    text::lemma_not_found(base, "_CH"@);
}

/// Every key can be written down and is read back: a note by its number, a control change by `CC`
/// and its number, on any channel or on one that counts from one behind `_CH`.
pub proof fn law_keys_are_read_back(n: u8, channel: u8)
    ensures
        config::key_reading(text::decimal(n as nat)) == Ok::<KeyBinding, Seq<char>>(
            KeyBinding { kind: KeyKind::Note(n), channel: None },
        ),
        config::key_reading("CC"@ + text::decimal(n as nat)) == Ok::<KeyBinding, Seq<char>>(
            KeyBinding { kind: KeyKind::Cc(n), channel: None },
        ),
        channel > 0 ==> config::key_reading(
            text::decimal(n as nat) + "_CH"@ + text::decimal(channel as nat),
        ) == Ok::<KeyBinding, Seq<char>>(
            KeyBinding { kind: KeyKind::Note(n), channel: Some((channel - 1) as u8) },
        ),
        channel > 0 ==> config::key_reading(
            "CC"@ + text::decimal(n as nat) + "_CH"@ + text::decimal(channel as nat),
        ) == Ok::<KeyBinding, Seq<char>>(
            KeyBinding { kind: KeyKind::Cc(n), channel: Some((channel - 1) as u8) },
        ),
        channel == 0 ==> config::key_reading(
            text::decimal(n as nat) + "_CH"@ + text::decimal(channel as nat),
        ) is Err,
{
    reveal_strlit("CC");
    let digits = text::decimal(n as nat);
    let with_cc = "CC"@ + digits;
    let after = text::decimal(channel as nat);
    lemma_decimal(n as nat);
    law_numbers_are_read_back(n as nat, 255);
    law_numbers_are_read_back(channel as nat, 255);
    assert(text::is_digit(digits[0]));
    assert forall|i: int| 0 <= i < digits.len() implies #[trigger] digits[i] != '_' by {
        assert(text::is_digit(digits[i]));
    }
    assert forall|i: int| 0 <= i < with_cc.len() implies #[trigger] with_cc[i] != '_' by {
        if i >= 2 {
            assert(text::is_digit(digits[i - 2]));
        }
    }
    lemma_no_channel(digits);
    lemma_no_channel(with_cc);
    lemma_split_at_channel(digits, after);
    lemma_split_at_channel(with_cc, after);
    assert(with_cc.skip(2) =~= digits);
}

/// A run of `n` blanks.
pub open spec fn blanks(n: nat) -> Seq<char> {
    Seq::new(n, |i: int| ' ')
}

/// Blanks at the start are trimmed.
proof fn lemma_trim_start(n: nat, s: Seq<char>)
    requires
        s.len() > 0,
        !text::is_space(s[0]),
    ensures
        text::trimmed_start(blanks(n) + s) == s,
    decreases n,
{
    if n == 0 {
        assert(blanks(0) + s =~= s);
    } else {
        lemma_trim_start((n - 1) as nat, s);
        assert((blanks(n) + s).drop_first() =~= blanks((n - 1) as nat) + s);
    }
}

/// Blanks at the end are trimmed.
proof fn lemma_trim_end(s: Seq<char>, n: nat)
    requires
        s.len() > 0,
        !text::is_space(s.last()),
    ensures
        text::trimmed_end(s + blanks(n)) == s,
    decreases n,
{
    if n == 0 {
        assert(s + blanks(0) =~= s);
    } else {
        lemma_trim_end(s, (n - 1) as nat);
        assert((s + blanks(n)).drop_last() =~= s + blanks((n - 1) as nat));
    }
}

/// Blanks around a text are trimmed.
proof fn lemma_trim(a: nat, s: Seq<char>, b: nat)
    requires
        s.len() > 0,
        !text::is_space(s[0]),
        !text::is_space(s.last()),
    ensures
        text::trimmed(blanks(a) + s + blanks(b)) == s,
{
    assert(blanks(a) + s + blanks(b) =~= blanks(a) + (s + blanks(b)));
    lemma_trim_start(a, s + blanks(b));
    lemma_trim_end(s, b);
}

/// A number in decimal keeps its digits when it is trimmed, whatever blanks stand around it.
proof fn lemma_trim_decimal(a: nat, n: nat, b: nat)
    ensures
        text::trimmed(blanks(a) + text::decimal(n) + blanks(b)) == text::decimal(n),
{
    lemma_decimal(n);
    let s = text::decimal(n);
    assert(text::is_digit(s[0]));
    assert(text::is_digit(s[s.len() - 1]));
    lemma_trim(a, s, b);
}

/// The text of a length fraction, with blanks around its parts.
pub open spec fn fraction_text(a: nat, num: nat, b: nat, c: nat, den: nat, d: nat) -> Seq<char> {
    blanks(a) + (text::decimal(num) + blanks(b) + "/"@ + (blanks(c) + text::decimal(den)))
        + blanks(d)
}

/// A length fraction is its share of a whole note, which has four times the ticks of a beat,
/// rounded down; blanks around its parts do not matter. One with a zero denominator, or that comes
/// to no ticks, is refused, and so is the text "1/96" at 24 ticks to the beat.
pub proof fn law_fractions_are_shares_of_a_whole_note(
    num: nat,
    den: nat,
    ppqn: nat,
    a: nat,
    b: nat,
    c: nat,
    d: nat,
)
    requires
        num <= usize::MAX,
        den <= usize::MAX,
    ensures
        ({
            let s = fraction_text(a, num, b, c, den, d);
            let reading = config::fraction_reading(s, ppqn);
            if den > 0 && num * ppqn * 4 / den >= 1 && !(s == "1/96"@ && ppqn == 24) {
                reading == Ok::<usize, Seq<char>>((num * ppqn * 4 / den) as usize)
            } else {
                reading is Err
            }
        }),
{
    reveal_strlit("/");
    let left = text::decimal(num) + blanks(b);
    let right = blanks(c) + text::decimal(den);
    let core = left + "/"@ + right;
    lemma_decimal(num);
    lemma_decimal(den);
    assert(text::is_digit(text::decimal(num)[0]));
    assert(text::is_digit(text::decimal(den)[text::decimal(den).len() - 1]));
    assert(core[0] == text::decimal(num)[0]);
    assert(core.last() == text::decimal(den).last());
    lemma_trim(a, core, d);
    let at = left.len() as int;
    assert(core.subrange(at, at + 1) =~= "/"@);
    assert forall|j: int| 0 <= j < at implies !text::occurs_at(core, "/"@, j) by {
        assert(core.subrange(j, j + 1)[0] == core[j]);
        if j < text::decimal(num).len() {
            assert(text::is_digit(text::decimal(num)[j]));
            assert(core[j] == text::decimal(num)[j]);
        } else {
            assert(core[j] == ' ');
        }
    }
    text::lemma_found_at(core, "/"@, at);
    assert(core.take(at) =~= left);
    assert(core.skip(at + 1) =~= right);
    lemma_trim_decimal(0, num, b);
    lemma_trim_decimal(c, den, 0);
    assert(blanks(0) + text::decimal(num) + blanks(b) =~= left);
    assert(blanks(c) + text::decimal(den) + blanks(0) =~= right);
    law_numbers_are_read_back(num, usize::MAX as nat);
    law_numbers_are_read_back(den, usize::MAX as nat);
}

/// Of a length fraction only the ratio counts: with both parts `k` times as large it comes to the
/// same ticks. The exception is the text "1/96" at 24 ticks to the beat.
pub proof fn law_only_the_ratio_counts(num: nat, den: nat, k: nat, ppqn: nat)
    requires
        k > 0,
        den > 0,
        k * num <= usize::MAX,
        k * den <= usize::MAX,
        !(fraction_text(0, num, 0, 0, den, 0) == "1/96"@ && ppqn == 24),
        !(fraction_text(0, k * num, 0, 0, k * den, 0) == "1/96"@ && ppqn == 24),
    ensures
        ({
            let plain = config::fraction_reading(fraction_text(0, num, 0, 0, den, 0), ppqn);
            let scaled = config::fraction_reading(
                fraction_text(0, k * num, 0, 0, k * den, 0),
                ppqn,
            );
            &&& plain is Ok <==> scaled is Ok
            &&& plain is Ok ==> plain == scaled
        }),
{
    assert(num <= k * num && den <= k * den && k * den > 0) by (nonlinear_arith)
        requires
            k > 0,
            den > 0,
    ;
    law_fractions_are_shares_of_a_whole_note(num, den, ppqn, 0, 0, 0, 0);
    law_fractions_are_shares_of_a_whole_note(k * num, k * den, ppqn, 0, 0, 0, 0);
    let whole = num * ppqn * 4;
    assert(k * num * ppqn * 4 == whole * k) by (nonlinear_arith)
        requires
            whole == num * ppqn * 4,
    ;
    assert(whole >= 0) by (nonlinear_arith)
        requires
            whole == num * ppqn * 4,
    ;
    vstd::arithmetic::div_mod::lemma_div_denominator((whole * k) as int, k as int, den as int);
    vstd::arithmetic::div_mod::lemma_div_multiples_vanish(whole as int, k as int);
    assert(k * whole == whole * k) by (nonlinear_arith);
}

/// The shares that a quarter and `k` whole notes come to.
proof fn lemma_whole_shares(k: nat, ppqn: nat)
    requires
        k > 0,
        ppqn > 0,
    ensures
        1 * ppqn * 4 / 4nat == ppqn,
        k * ppqn * 4 / 1nat == 4 * k * ppqn,
        4 * k * ppqn >= 1,
{
    assert(k * ppqn * 4 == 4 * k * ppqn && 4 * k * ppqn >= 1) by (nonlinear_arith)
        requires
            k > 0,
            ppqn > 0,
    ;
    assert(1 * ppqn * 4 == 4 * ppqn);
}

/// A quarter is one beat at every resolution, and `k` whole notes are four times `k` beats.
pub proof fn law_a_quarter_is_a_beat(k: nat, ppqn: nat)
    requires
        k > 0,
        ppqn > 0,
        k <= usize::MAX,
    ensures
        config::fraction_reading("1/4"@, ppqn) == Ok::<usize, Seq<char>>(ppqn as usize),
        config::fraction_reading(text::decimal(k) + "/1"@, ppqn) == Ok::<usize, Seq<char>>(
            (4 * k * ppqn) as usize,
        ),
{
    reveal_strlit("1/4");
    reveal_strlit("/1");
    reveal_strlit("1/96");
    assert("1/4"@ != "1/96"@) by {
        assert("1/4"@.len() != "1/96"@.len());
    }
    assert(text::decimal(k) + "/1"@ != "1/96"@) by {
        assert((text::decimal(k) + "/1"@).last() != "1/96"@.last());
    }
    reveal_strlit("/");
    assert(fraction_text(0, 1, 0, 0, 4, 0) =~= "1/4"@);
    assert(fraction_text(0, k, 0, 0, 1, 0) =~= text::decimal(k) + "/1"@);
    lemma_whole_shares(k, ppqn);
    law_fractions_are_shares_of_a_whole_note(1, 4, ppqn, 0, 0, 0, 0);
    law_fractions_are_shares_of_a_whole_note(k, 1, ppqn, 0, 0, 0, 0);
}

/// A length in ticks is taken as it is, whatever the resolution.
pub proof fn law_lengths_in_ticks_pass_through(ticks: usize, ppqn: nat)
    ensures
        Length::Ticks(ticks).reading(ppqn) == Ok::<usize, Seq<char>>(ticks),
        Length::Ticks(ticks).countable(ppqn),
{
}

/// The text of a pad: its notes with plus signs between them.
pub open spec fn pad_text(notes: Seq<u8>) -> Seq<char>
    decreases notes.len(),
{
    if notes.len() <= 1 {
        if notes.len() == 0 {
            Seq::empty()
        } else {
            text::decimal(notes[0] as nat)
        }
    } else {
        pad_text(notes.drop_last()) + "+"@ + text::decimal(notes.last() as nat)
    }
}

/// Text without a plus sign lengthens the last part.
proof fn lemma_parts_of_tail(s: Seq<char>, t: Seq<char>)
    requires
        forall|i: int| 0 <= i < t.len() ==> #[trigger] t[i] != '+',
    ensures
        config::plus_parts(s).len() > 0,
        config::plus_parts(s + t) == config::plus_parts(s).drop_last().push(
            config::plus_parts(s).last() + t,
        ),
    decreases t.len(),
{
    lemma_parts_nonempty(s);
    let parts = config::plus_parts(s);
    if t.len() == 0 {
        assert(s + t =~= s);
        assert(parts.last() + t =~= parts.last());
        assert(parts.drop_last().push(parts.last()) =~= parts);
    } else {
        let front = t.drop_last();
        assert forall|i: int| 0 <= i < front.len() implies #[trigger] front[i] != '+' by {
            assert(t[i] != '+');
        }
        lemma_parts_of_tail(s, front);
        assert((s + t).drop_last() =~= s + front);
        assert(t[t.len() - 1] != '+');
        let before = config::plus_parts(s + front);
        assert(before.drop_last() =~= parts.drop_last());
        assert((parts.last() + front).push(t.last()) =~= parts.last() + t);
    }
}

/// There is always a part.
proof fn lemma_parts_nonempty(s: Seq<char>)
    ensures
        config::plus_parts(s).len() > 0,
    decreases s.len(),
{
    if s.len() > 0 {
        lemma_parts_nonempty(s.drop_last());
    }
}

/// The parts of the text of a pad are the numbers of its notes.
proof fn lemma_parts_of_pad(notes: Seq<u8>)
    requires
        notes.len() > 0,
    ensures
        config::plus_parts(pad_text(notes)) == notes.map_values(
            |note: u8| text::decimal(note as nat),
        ),
    decreases notes.len(),
{
    reveal_strlit("+");
    let last = text::decimal(notes.last() as nat);
    lemma_decimal(notes.last() as nat);
    assert forall|i: int| 0 <= i < last.len() implies #[trigger] last[i] != '+' by {
        assert(text::is_digit(last[i]));
    }
    let all = notes.map_values(|note: u8| text::decimal(note as nat));
    if notes.len() == 1 {
        lemma_parts_of_tail(Seq::empty(), last);
        assert(Seq::empty() + last =~= pad_text(notes));
        assert(Seq::<char>::empty() + last =~= last);
        assert(config::plus_parts(pad_text(notes)) =~= all);
    } else {
        let front = notes.drop_last();
        lemma_parts_of_pad(front);
        let s = pad_text(front) + "+"@;
        assert(s.drop_last() =~= pad_text(front));
        lemma_parts_of_tail(s, last);
        assert(config::plus_parts(s) == config::plus_parts(pad_text(front)).push(Seq::empty()));
        assert(config::plus_parts(s).drop_last() =~= config::plus_parts(pad_text(front)));
        assert(Seq::<char>::empty() + last =~= last);
        assert(config::plus_parts(pad_text(notes)) =~= all);
    }
}

/// Numbers are read as the notes that they stand for.
proof fn lemma_pad_numbers(notes: Seq<u8>)
    ensures
        config::pad_notes(notes.map_values(|note: u8| text::decimal(note as nat))) == Ok::<
            Seq<u8>,
            Seq<char>,
        >(notes),
    decreases notes.len(),
{
    let parts = notes.map_values(|note: u8| text::decimal(note as nat));
    if notes.len() > 0 {
        let front = notes.drop_last();
        lemma_pad_numbers(front);
        assert(parts.drop_last() =~= front.map_values(|note: u8| text::decimal(note as nat)));
        law_numbers_are_read_back(notes.last() as nat, 255);
        lemma_trim_decimal(0, notes.last() as nat, 0);
        assert(blanks(0) + text::decimal(notes.last() as nat) + blanks(0) =~= text::decimal(
            notes.last() as nat,
        ));
        assert(front.push(notes.last()) =~= notes);
    } else {
        assert(notes =~= Seq::empty());
    }
}

/// A pad of any notes can be written down with plus signs between them and is read back.
pub proof fn law_pads_are_read_back(notes: Seq<u8>)
    requires
        notes.len() > 0,
    ensures
        config::pad_notes(config::plus_parts(pad_text(notes))) == Ok::<Seq<u8>, Seq<char>>(notes),
{
    lemma_parts_of_pad(notes);
    lemma_pad_numbers(notes);
}

/// The text of a duration, with blanks around its number and its unit.
pub open spec fn duration_text(a: nat, number: Seq<char>, b: nat, unit: Seq<char>, c: nat) -> Seq<
    char,
> {
    blanks(a) + (number + blanks(b) + unit) + blanks(c)
}

/// A duration text is cut alike with and without the unit "s", and whatever blanks stand around
/// its number and its unit: the number is what counts, in seconds. With "ms" it counts
/// milliseconds. Where the number was read as one that a time can be, that time is what comes out.
pub proof fn law_durations_are_cut_alike(
    number: Seq<char>,
    a: nat,
    b: nat,
    c: nat,
    read: config::DurationNumber,
)
    requires
        number.len() > 0,
        !text::is_space(number[0]),
        !text::is_space(number.last()),
        number.last() != 's',
        number.last() != 'm',
    ensures
        config::duration_parts(number) == (number, false),
        config::duration_parts(duration_text(a, number, 0, Seq::empty(), c)) == (number, false),
        config::duration_parts(duration_text(a, number, b, "s"@, c)) == (number, false),
        config::duration_parts(duration_text(a, number, b, "ms"@, c)) == (number, true),
        read.finite && !read.negative ==> forall|s: Seq<char>|
            #[trigger] config::duration_reading(s, Some(read)) == Ok::<u128, Seq<char>>(read.nanos),
{
    reveal_strlit("s");
    reveal_strlit("ms");
    lemma_trim(0, number, 0);
    assert(blanks(0) + number + blanks(0) =~= number);
    assert(number + blanks(0) + Seq::empty() =~= number);
    lemma_trim(a, number, c);
    lemma_trim(0, number, b);
    assert(blanks(0) + number + blanks(b) =~= number + blanks(b));
    let seconds = number + blanks(b) + "s"@;
    assert(seconds[0] == number[0]);
    lemma_trim(a, seconds, c);
    assert(seconds.take(seconds.len() - 1) =~= number + blanks(b));
    let before = seconds[seconds.len() - 2];
    assert(before == if b == 0 {
        number.last()
    } else {
        ' '
    });
    let millis = number + blanks(b) + "ms"@;
    assert(millis[0] == number[0]);
    lemma_trim(a, millis, c);
    assert(millis.take(millis.len() - 2) =~= number + blanks(b));
}

/// Trimming takes off white space at both ends and nothing else, and leaves none there.
pub proof fn law_trimming_takes_off_white_space(s: Seq<char>)
    ensures
        ({
            let t = text::trimmed(s);
            &&& t.len() > 0 ==> !text::is_space(t[0]) && !text::is_space(t.last())
            &&& exists|a: int|
                0 <= a && a + t.len() <= s.len() && #[trigger] s.subrange(a, a + t.len()) == t
                    && forall|i: int|
                    (0 <= i < a || a + t.len() <= i < s.len()) ==> text::is_space(#[trigger] s[i])
        }),
{
    let u = text::trimmed_start(s);
    let t = text::trimmed(s);
    lemma_start(s);
    lemma_end(u);
    let a = s.len() - u.len();
    assert(s.subrange(a as int, a + t.len()) =~= t) by {
        assert(forall|i: int| 0 <= i < u.len() ==> u[i] == s[a + i]);
    }
    assert forall|i: int| (0 <= i < a || a + t.len() <= i < s.len()) implies text::is_space(
        #[trigger] s[i],
    ) by {
        if i >= a {
            assert(text::is_space(u[i - a]));
        }
    }
    if t.len() > 0 {
        assert(t[0] == u[0]);
    }
}

proof fn lemma_start(s: Seq<char>)
    ensures
        ({
            let u = text::trimmed_start(s);
            let a = s.len() - u.len();
            &&& 0 <= a <= s.len()
            &&& s.skip(a) == u
            &&& forall|i: int| 0 <= i < a ==> text::is_space(#[trigger] s[i])
            &&& u.len() > 0 ==> !text::is_space(u[0])
        }),
    decreases s.len(),
{
    let u = text::trimmed_start(s);
    if s.len() > 0 && text::is_space(s.first()) {
        let rest = s.drop_first();
        lemma_start(rest);
        let a = s.len() - u.len();
        assert(s.skip(a) =~= rest.skip(a - 1));
        assert forall|i: int| 0 <= i < a implies text::is_space(#[trigger] s[i]) by {
            if i > 0 {
                assert(text::is_space(rest[i - 1]));
            }
        }
    } else {
        assert(s.skip(0) =~= s);
    }
}

proof fn lemma_end(s: Seq<char>)
    ensures
        ({
            let u = text::trimmed_end(s);
            &&& u.len() <= s.len()
            &&& s.take(u.len() as int) == u
            &&& forall|i: int| u.len() <= i < s.len() ==> text::is_space(#[trigger] s[i])
            &&& u.len() > 0 ==> !text::is_space(u.last())
        }),
    decreases s.len(),
{
    let u = text::trimmed_end(s);
    if s.len() > 0 && text::is_space(s.last()) {
        let rest = s.drop_last();
        lemma_end(rest);
        assert(s.take(u.len() as int) =~= rest.take(u.len() as int));
        assert forall|i: int| u.len() <= i < s.len() implies text::is_space(#[trigger] s[i]) by {
            if i < rest.len() {
                assert(text::is_space(rest[i]));
            }
        }
    } else {
        assert(s.take(s.len() as int) =~= s);
    }
}

/// A length fraction is refused where it has no slash, or something other than a number on either
/// side of the first one.
pub proof fn law_what_is_no_fraction_is_refused(s: Seq<char>, ppqn: nat, i: int)
    ensures
        (forall|k: int| 0 <= k < s.len() ==> #[trigger] s[k] != '/') ==> config::fraction_reading(
            s,
            ppqn,
        ) is Err,
        ({
            let t = text::trimmed(s);
            &&& 0 <= i < t.len()
            &&& t[i] == '/'
            &&& forall|k: int| 0 <= k < i ==> #[trigger] t[k] != '/'
            &&& text::number(text::trimmed(t.take(i)), usize::MAX as nat) is None || text::number(
                text::trimmed(t.skip(i + 1)),
                usize::MAX as nat,
            ) is None
        }) ==> config::fraction_reading(s, ppqn) is Err,
{
    reveal_strlit("/");
    let t = text::trimmed(s);
    law_trimming_takes_off_white_space(s);
    if forall|k: int| 0 <= k < s.len() ==> #[trigger] s[k] != '/' {
        let a = choose|a: int|
            0 <= a && a + t.len() <= s.len() && #[trigger] s.subrange(a, a + t.len()) == t;
        assert forall|j: int| !text::occurs_at(t, "/"@, j) by {
            if text::occurs_at(t, "/"@, j) {
                assert(t.subrange(j, j + 1)[0] == t[j]);
                assert(t[j] == s.subrange(a, a + t.len())[j]);
                assert(s[a + j] == '/');
            }
        }
        text::lemma_not_found(t, "/"@);
    }
    if 0 <= i < t.len() && t[i] == '/' && forall|k: int| 0 <= k < i ==> #[trigger] t[k] != '/' {
        assert(t.subrange(i, i + 1) =~= "/"@);
        assert forall|j: int| 0 <= j < i implies !text::occurs_at(t, "/"@, j) by {
            assert(t.subrange(j, j + 1)[0] == t[j]);
        }
        text::lemma_found_at(t, "/"@, i);
    }
}

/// A duration is refused where its number cannot be read, is not finite or is below zero, and
/// nowhere else. An arm time that is not set is none.
pub proof fn law_durations_are_refused(s: String, read: Option<config::DurationNumber>)
    ensures
        config::duration_reading(s@, read) is Err <==> read is None || !read->0.finite
            || read->0.negative,
        config::duration_reading(s@, read) matches Ok(nanos) ==> nanos == read->0.nanos,
        session::arm_time_reading(None, read) == Ok::<u128, Seq<char>>(0),
        session::arm_time_reading(Some(s), read) == config::duration_reading(s@, read),
{
}

} // verus!
