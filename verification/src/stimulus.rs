//! What drives the pads: a clock that toggles and pins that are held high for
//! a range of cycles.

use vstd::prelude::*;
use crate::number::{
    chars_of, decimal, digit_of, law_decimal_form, law_decimal_reads_back, law_numbers_accepted,
    parse_number, read_number, NumberError,
};
use crate::outcome::{
    accepted, law_left_out, law_until_fatal, lemma_stopped_stays, stopped, until_fatal,
};
use crate::pins::{parse_pin, read_pin, PinError};

verus! {

/// A pad and the cycles, first and last, in which it is held high.
#[derive(Clone, Copy, Debug, PartialEq, Eq, Structural)]
pub struct Stimulus {
    /// The pad.
    pub pad: usize,
    /// The first cycle in which the pad is high.
    pub start: u64,
    /// The last cycle in which the pad is high.
    pub end: u64,
}

/// Why a text describes no stimulus.
#[derive(Clone, Copy, Debug, PartialEq, Eq, Structural)]
pub enum StimulusError {
    /// The text is not a pin and a range with one colon between them.
    Format,
    /// The pin stands for no pad.
    Pin(PinError),
    /// The first cycle is no number.
    Start(NumberError),
    /// The last cycle is no number.
    End(NumberError),
}

/// The pieces of a text between the separators. A text without any is one
/// piece.
pub open spec fn split(text: Seq<char>, separator: char) -> Seq<Seq<char>>
    decreases text.len(),
{
    if text.len() == 0 {
        seq![Seq::empty()]
    } else {
        let before = split(text.drop_last(), separator);
        if text.last() == separator {
            before.push(Seq::empty())
        } else {
            before.drop_last().push(before.last().push(text.last()))
        }
    }
}

/// Cut a text at the separators.
pub fn split_text(text: &[char], separator: char) -> (pieces: Vec<Vec<char>>)
    ensures
        pieces@.len() == split(text@, separator).len(),
        pieces@.len() >= 1,
        forall|i: int|
            0 <= i < pieces@.len() ==> (#[trigger] pieces@[i])@ == split(text@, separator)[i],
{
    let n: usize = text.len();
    let mut pieces: Vec<Vec<char>> = Vec::new();
    let mut piece: Vec<char> = Vec::new();
    proof {
        assert(text@.take(0) =~= Seq::<char>::empty());
    }
    for i in 0..n
        invariant
            n == text@.len(),
            split(text@.take(i as int), separator).len() == pieces@.len() + 1,
            split(text@.take(i as int), separator).last() == piece@,
            forall|k: int|
                0 <= k < pieces@.len() ==> (#[trigger] pieces@[k])@ == split(
                    text@.take(i as int),
                    separator,
                )[k],
    {
        let c: char = text[i];
        proof {
            assert(text@.take(i + 1).drop_last() =~= text@.take(i as int));
        }
        if c == separator {
            pieces.push(piece);
            piece = Vec::new();
        } else {
            piece.push(c);
        }
    }
    proof {
        assert(text@.take(n as int) =~= text@);
    }
    pieces.push(piece);
    pieces
}

/// The stimulus that a text such as `w1:0-9` describes. A range without a last
/// cycle lasts until `cycles`.
pub open spec fn read_stimulus(
    text: Seq<char>,
    width: int,
    height: int,
    cycles: u64,
) -> Result<Stimulus, StimulusError> {
    let parts = split(text, ':');
    if parts.len() != 2 {
        Err(StimulusError::Format)
    } else {
        match read_pin(parts[0], width, height) {
            Err(e) => Err(StimulusError::Pin(e)),
            Ok(pad) => {
                let range = split(parts[1], '-');
                match read_number(range[0], 10, u64::MAX as int) {
                    Err(e) => Err(StimulusError::Start(e)),
                    Ok(start) => if range.len() == 1 {
                        Ok(Stimulus { pad, start: start as u64, end: cycles })
                    } else {
                        match read_number(range[1], 10, u64::MAX as int) {
                            Err(e) => Err(StimulusError::End(e)),
                            Ok(end) => Ok(Stimulus { pad, start: start as u64, end: end as u64 }),
                        }
                    },
                }
            },
        }
    }
}

/// Read a stimulus.
pub fn parse_stimulus(text: &str, width: usize, height: usize, cycles: u64) -> (stimulus: Result<
    Stimulus,
    StimulusError,
>)
    ensures
        stimulus == read_stimulus(text@, width as int, height as int, cycles),
{
    let chars: Vec<char> = chars_of(text);
    let parts: Vec<Vec<char>> = split_text(chars.as_slice(), ':');
    if parts.len() != 2 {
        return Err(StimulusError::Format);
    }
    let pad: usize = match parse_pin(parts[0].as_slice(), width, height) {
        Err(e) => return Err(StimulusError::Pin(e)),
        Ok(pad) => pad,
    };
    let range: Vec<Vec<char>> = split_text(parts[1].as_slice(), '-');
    let start: u64 = match parse_number(range[0].as_slice(), 10, u64::MAX) {
        Err(e) => return Err(StimulusError::Start(e)),
        Ok(start) => start,
    };
    if range.len() == 1 {
        return Ok(Stimulus { pad, start, end: cycles });
    }
    match parse_number(range[1].as_slice(), 10, u64::MAX) {
        Err(e) => Err(StimulusError::End(e)),
        Ok(end) => Ok(Stimulus { pad, start, end }),
    }
}

/// Faults in a stimulus after which the bench does not start. A wrong format
/// or an unknown edge only leaves that stimulus out.
pub open spec fn stimulus_fatal() -> spec_fn(StimulusError) -> bool {
    |e: StimulusError| e != StimulusError::Format && e != StimulusError::Pin(PinError::UnknownEdge)
}

/// What becomes of each of a list of stimuli.
pub open spec fn read_stimuli(
    texts: Seq<String>,
    width: int,
    height: int,
    cycles: u64,
) -> Seq<Result<Stimulus, StimulusError>> {
    Seq::new(texts.len(), |i: int| read_stimulus(texts[i]@, width, height, cycles))
}

/// The stimuli to apply.
pub struct Stimuli {
    /// The stimuli in the order given.
    pub list: Vec<Stimulus>,
    /// What became of each text, up to the first fatal fault.
    pub outcomes: Vec<Result<Stimulus, StimulusError>>,
}

/// Read a list of stimuli.
pub fn resolve_stimuli(texts: &[String], width: usize, height: usize, cycles: u64) -> (stimuli:
    Stimuli)
    ensures
        stimuli.outcomes@ == until_fatal(
            read_stimuli(texts@, width as int, height as int, cycles),
            stimulus_fatal(),
        ),
        stimuli.list@ == accepted(stimuli.outcomes@),
{
    let mut list: Vec<Stimulus> = Vec::new();
    let mut outcomes: Vec<Result<Stimulus, StimulusError>> = Vec::new();
    let n: usize = texts.len();
    let ghost readings = read_stimuli(texts@, width as int, height as int, cycles);
    let ghost fatal = stimulus_fatal();
    let mut i: usize = 0;
    proof {
        assert(readings.take(0) =~= Seq::<Result<Stimulus, StimulusError>>::empty());
    }
    while i < n
        invariant
            i <= n == texts@.len(),
            readings == read_stimuli(texts@, width as int, height as int, cycles),
            fatal == stimulus_fatal(),
            outcomes@ == until_fatal(readings.take(i as int), fatal),
            !stopped(outcomes@, fatal),
            list@ == accepted(outcomes@),
        decreases n - i,
    {
        let outcome: Result<Stimulus, StimulusError> = parse_stimulus(
            texts[i].as_str(),
            width,
            height,
            cycles,
        );
        let ghost before = outcomes@;
        outcomes.push(outcome);
        proof {
            assert(readings.take(i + 1).drop_last() =~= readings.take(i as int));
            assert(outcomes@.drop_last() =~= before);
        }
        match outcome {
            Ok(stimulus) => list.push(stimulus),
            Err(StimulusError::Format) | Err(StimulusError::Pin(PinError::UnknownEdge)) => {},
            Err(_) => {
                proof {
                    lemma_stopped_stays(readings, fatal, i + 1);
                }
                return Stimuli { list, outcomes };
            },
        }
        i += 1;
    }
    proof {
        assert(readings.take(n as int) =~= readings);
    }
    Stimuli { list, outcomes }
}

/// Whether a pad is held high in a cycle: some stimulus on it covers the cycle.
pub open spec fn held(cycle: u64, stimuli: Seq<Stimulus>, pad: usize) -> bool {
    exists|i: int|
        0 <= i < stimuli.len() && (#[trigger] stimuli[i]).pad == pad && stimuli[i].start <= cycle
            <= stimuli[i].end
}

/// Find out whether a pad is held high in a cycle.
pub fn is_held(cycle: u64, stimuli: &[Stimulus], pad: usize) -> (high: bool)
    ensures
        high == held(cycle, stimuli@, pad),
{
    let n: usize = stimuli.len();
    for i in 0..n
        invariant
            n == stimuli@.len(),
            forall|k: int|
                0 <= k < i ==> !((#[trigger] stimuli@[k]).pad == pad && stimuli@[k].start <= cycle
                    <= stimuli@[k].end),
    {
        let stimulus: Stimulus = stimuli[i];
        if stimulus.pad == pad && stimulus.start <= cycle && cycle <= stimulus.end {
            assert(stimuli@[i as int] == stimulus);
            return true;
        }
    }
    false
}

/// The levels to put on pads in a cycle, in the order in which they are set:
/// the clock, high in even cycles, then the pad of every stimulus, high where
/// it is held.
pub open spec fn driven(cycle: u64, clock: Option<usize>, stimuli: Seq<Stimulus>) -> Seq<
    (usize, bool),
> {
    let toggled = match clock {
        Some(pad) => seq![(pad, cycle % 2 == 0)],
        None => Seq::empty(),
    };
    toggled + Seq::new(
        stimuli.len(),
        |i: int| (stimuli[i].pad, held(cycle, stimuli, stimuli[i].pad)),
    )
}

/// Decide the levels to put on pads in a cycle.
pub fn drive(cycle: u64, clock: Option<usize>, stimuli: &[Stimulus]) -> (levels: Vec<(usize, bool)>)
    ensures
        levels@ == driven(cycle, clock, stimuli@),
{
    let mut levels: Vec<(usize, bool)> = Vec::new();
    if let Some(pad) = clock {
        levels.push((pad, cycle % 2 == 0));
    }
    let ghost toggled = levels@;
    let n: usize = stimuli.len();
    for i in 0..n
        invariant
            n == stimuli@.len(),
            levels@ == toggled + Seq::new(
                i as nat,
                |k: int| (stimuli@[k].pad, held(cycle, stimuli@, stimuli@[k].pad)),
            ),
    {
        let pad: usize = stimuli[i].pad;
        levels.push((pad, is_held(cycle, stimuli, pad)));
    }
    assert(levels@ =~= driven(cycle, clock, stimuli@));
    levels
}

/// The level that a pad is left with, if it is driven at all: the last one set.
pub open spec fn level_of(levels: Seq<(usize, bool)>, pad: usize) -> Option<bool>
    decreases levels.len(),
{
    if levels.len() == 0 {
        None
    } else if levels.last().0 == pad {
        Some(levels.last().1)
    } else {
        level_of(levels.drop_last(), pad)
    }
}

proof fn lemma_level_agreed(levels: Seq<(usize, bool)>, pad: usize, level: bool, k: int)
    requires
        0 <= k < levels.len(),
        levels[k] == (pad, level),
        forall|i: int| k < i < levels.len() && (#[trigger] levels[i]).0 == pad ==> levels[i].1
            == level,
    ensures
        level_of(levels, pad) == Some(level),
    decreases levels.len(),
{
    if k < levels.len() - 1 && levels[levels.len() - 1].0 != pad {
        let before = levels.drop_last();
        assert forall|i: int|
            k < i < before.len() && (#[trigger] before[i]).0 == pad implies before[i].1 == level by {
            assert(before[i] == levels[i]);
        }
        lemma_level_agreed(before, pad, level, k);
    }
}

/// A stimulated pad is high in exactly the cycles that one of its stimuli
/// covers, whatever the order of the stimuli: each of them holds the pad high
/// from its first to its last cycle.
pub proof fn law_stimulus_range(
    cycle: u64,
    clock: Option<usize>,
    stimuli: Seq<Stimulus>,
    k: int,
)
    requires
        0 <= k < stimuli.len(),
    ensures
        level_of(driven(cycle, clock, stimuli), stimuli[k].pad) == Some(
            held(cycle, stimuli, stimuli[k].pad),
        ),
        stimuli[k].start <= cycle <= stimuli[k].end ==> level_of(
            driven(cycle, clock, stimuli),
            stimuli[k].pad,
        ) == Some(true),
{
    let levels = driven(cycle, clock, stimuli);
    let pad = stimuli[k].pad;
    let high = held(cycle, stimuli, pad);
    let offset: int = if clock is Some { 1 } else { 0 };
    assert forall|i: int|
        k + offset < i < levels.len() && (#[trigger] levels[i]).0 == pad implies levels[i].1
        == high by {
        assert(levels[i].0 == stimuli[i - offset].pad);
    }
    lemma_level_agreed(levels, pad, high, k + offset);
}

/// The clock pad is high in even cycles and low in odd ones, unless a stimulus
/// drives it.
pub proof fn law_clock_toggles(cycle: u64, clock: usize, stimuli: Seq<Stimulus>)
    requires
        forall|i: int| 0 <= i < stimuli.len() ==> (#[trigger] stimuli[i]).pad != clock,
    ensures
        level_of(driven(cycle, Some(clock), stimuli), clock) == Some(cycle % 2 == 0),
{
    let levels = driven(cycle, Some(clock), stimuli);
    assert forall|i: int| 0 < i < levels.len() implies (#[trigger] levels[i]).0 != clock by {
        assert(levels[i].0 == stimuli[i - 1].pad);
    }
    lemma_level_agreed(levels, clock, cycle % 2 == 0, 0);
}

/// A pad that is neither the clock nor named by a stimulus is not driven.
pub proof fn law_others_not_driven(
    cycle: u64,
    clock: Option<usize>,
    stimuli: Seq<Stimulus>,
    pad: usize,
)
    requires
        clock != Some(pad),
        forall|i: int| 0 <= i < stimuli.len() ==> (#[trigger] stimuli[i]).pad != pad,
    ensures
        level_of(driven(cycle, clock, stimuli), pad) is None,
{
    let levels = driven(cycle, clock, stimuli);
    let offset: int = if clock is Some { 1 } else { 0 };
    assert forall|i: int| 0 <= i < levels.len() implies (#[trigger] levels[i]).0 != pad by {
        if i >= offset {
            assert(levels[i].0 == stimuli[i - offset].pad);
        }
    }
    lemma_never_set(levels, pad);
}

proof fn lemma_never_set(levels: Seq<(usize, bool)>, pad: usize)
    requires
        forall|i: int| 0 <= i < levels.len() ==> (#[trigger] levels[i]).0 != pad,
    ensures
        level_of(levels, pad) is None,
    decreases levels.len(),
{
    if levels.len() > 0 {
        let before = levels.drop_last();
        assert forall|i: int| 0 <= i < before.len() implies (#[trigger] before[i]).0 != pad by {
            assert(before[i] == levels[i]);
        }
        assert(levels[levels.len() - 1].0 != pad);
        lemma_never_set(before, pad);
    }
}

/// A text without a separator is one piece, and the pieces of two texts with a
/// separator between them are those of the one and then those of the other.
pub proof fn law_split_at_separator(a: Seq<char>, b: Seq<char>, separator: char)
    ensures
        !a.contains(separator) ==> split(a, separator) == seq![a],
        split(a.push(separator) + b, separator) == split(a, separator) + split(b, separator),
    decreases a.len() + b.len(),
{
    let whole = a.push(separator) + b;
    if !a.contains(separator) {
        if a.len() == 0 {
            assert(a =~= Seq::<char>::empty());
        } else {
            let before = a.drop_last();
            assert forall|i: int| 0 <= i < before.len() implies before[i] != separator by {
                assert(before[i] == a[i]);
            }
            assert(a[a.len() - 1] != separator);
            law_split_at_separator(before, Seq::empty(), separator);
            assert(before.push(a.last()) =~= a);
        }
        assert(split(a, separator) =~= seq![a]);
    }
    law_split_joins(a, separator);
    if b.len() == 0 {
        assert(whole.drop_last() =~= a);
        assert(split(whole, separator) =~= split(a, separator) + split(b, separator));
    } else {
        let rest = b.drop_last();
        law_split_at_separator(a, rest, separator);
        law_split_joins(rest, separator);
        assert(whole.drop_last() =~= a.push(separator) + rest);
        assert(split(whole, separator) =~= split(a, separator) + split(b, separator));
    }
}

/// What the laws say of pieces holds of the function that cuts a text.
pub proof fn law_split_called(text: &[char], separator: char, pieces: Vec<Vec<char>>, i: int)
    requires
        call_ensures(split_text, (text, separator), pieces),
        0 <= i < pieces@.len(),
    ensures
        call_requires(split_text, (text, separator)),
        pieces@.len() == split(text@, separator).len(),
        pieces@[i]@ == split(text@, separator)[i],
{
}

/// A stimulus has one colon, between a pin and a range: without one, or with
/// more, the text has the wrong format.
pub proof fn law_stimulus_format(
    a: Seq<char>,
    b: Seq<char>,
    c: Seq<char>,
    width: int,
    height: int,
    cycles: u64,
)
    ensures
        !a.contains(':') ==> read_stimulus(a, width, height, cycles) == Err::<
            Stimulus,
            StimulusError,
        >(StimulusError::Format),
        read_stimulus(a.push(':') + (b.push(':') + c), width, height, cycles) == Err::<
            Stimulus,
            StimulusError,
        >(StimulusError::Format),
{
    law_split_at_separator(a, b.push(':') + c, ':');
    law_split_at_separator(b, c, ':');
    law_split_joins(a, ':');
    law_split_joins(b, ':');
    law_split_joins(c, ':');
}

/// A pin, a colon and a range with a dash hold the pad of the pin high from the
/// first cycle to the last, both in decimal. What follows a second dash does not
/// matter. A fault in the pin goes before one in the first cycle, and that
/// before one in the last.
pub proof fn law_stimulus_with_end(
    pin: Seq<char>,
    start: Seq<char>,
    end: Seq<char>,
    rest: Seq<char>,
    width: int,
    height: int,
    cycles: u64,
)
    requires
        !pin.contains(':'),
        !start.contains(':') && !start.contains('-'),
        !end.contains(':') && !end.contains('-'),
        !rest.contains(':'),
        rest.len() > 0 ==> rest[0] == '-',
    ensures
        read_stimulus(pin.push(':') + (start.push('-') + (end + rest)), width, height, cycles)
            == match read_pin(pin, width, height) {
            Err(e) => Err(StimulusError::Pin(e)),
            Ok(pad) => match read_number(start, 10, 0xffff_ffff_ffff_ffff) {
                Err(e) => Err(StimulusError::Start(e)),
                Ok(first) => match read_number(end, 10, 0xffff_ffff_ffff_ffff) {
                    Err(e) => Err(StimulusError::End(e)),
                    Ok(last) => Ok(Stimulus { pad, start: first as u64, end: last as u64 }),
                },
            },
        },
{
    let tail = end + rest;
    let range = start.push('-') + tail;
    assert(!range.contains(':')) by {
        assert forall|i: int| 0 <= i < range.len() implies range[i] != ':' by {
            if i < start.len() {
                assert(range[i] == start[i]);
            } else if start.len() < i <= start.len() + end.len() {
                assert(range[i] == end[i - start.len() - 1]);
            } else if i > start.len() {
                assert(range[i] == rest[i - start.len() - 1 - end.len()]);
            }
        }
    }
    law_split_at_separator(pin, range, ':');
    law_split_at_separator(range, Seq::empty(), ':');
    law_split_at_separator(start, tail, '-');
    law_split_at_separator(end, Seq::empty(), '-');
    if rest.len() == 0 {
        assert(tail =~= end);
    } else {
        assert(tail =~= end.push('-') + rest.skip(1));
        law_split_at_separator(end, rest.skip(1), '-');
    }
    assert(split(range, '-')[0] == start);
    assert(split(range, '-')[1] == end);
}

/// A range without a dash is the first cycle alone, and lasts as long as the
/// simulation does.
pub proof fn law_stimulus_without_end(
    pin: Seq<char>,
    start: Seq<char>,
    width: int,
    height: int,
    cycles: u64,
)
    requires
        !pin.contains(':'),
        !start.contains(':') && !start.contains('-'),
    ensures
        read_stimulus(pin.push(':') + start, width, height, cycles) == match read_pin(
            pin,
            width,
            height,
        ) {
            Err(e) => Err(StimulusError::Pin(e)),
            Ok(pad) => match read_number(start, 10, 0xffff_ffff_ffff_ffff) {
                Err(e) => Err(StimulusError::Start(e)),
                Ok(first) => Ok(Stimulus { pad, start: first as u64, end: cycles }),
            },
        },
{
    law_split_at_separator(pin, start, ':');
    law_split_at_separator(start, Seq::empty(), ':');
    law_split_at_separator(start, Seq::empty(), '-');
}

/// A pin that stands for a pad is a letter and digits.
proof fn lemma_no_colon(pin: Seq<char>, width: int, height: int)
    requires
        read_pin(pin, width, height) is Ok,
    ensures
        !pin.contains(':'),
{
    let position = pin.skip(1);
    law_numbers_accepted(position, 10, usize::MAX as int);
    let digits = if position[0] == '+' { position.skip(1) } else { position };
    assert(digit_of(':', 10) is None);
    assert forall|i: int| 0 <= i < pin.len() implies pin[i] != ':' by {
        if i > 1 && position[0] == '+' {
            assert(digit_of(digits[i - 2], 10) is Some);
            assert(digits[i - 2] == pin[i]);
        } else if i > 0 {
            assert(position[i - 1] == pin[i]);
            if position[0] != '+' {
                assert(digit_of(digits[i - 1], 10) is Some);
            }
        }
    }
}

/// A pin that stands for a pad, with any two cycles in decimal, is read as that
/// pad and those cycles.
pub proof fn law_stimulus_reads_back(
    pin: Seq<char>,
    pad: usize,
    start: u64,
    end: u64,
    width: int,
    height: int,
    cycles: u64,
)
    requires
        read_pin(pin, width, height) == Ok::<usize, PinError>(pad),
    ensures
        read_stimulus(
            pin + seq![':'] + decimal(start as nat) + seq!['-'] + decimal(end as nat),
            width,
            height,
            cycles,
        ) == Ok::<Stimulus, StimulusError>(Stimulus { pad, start, end }),
        read_stimulus(pin + seq![':'] + decimal(start as nat), width, height, cycles) == Ok::<
            Stimulus,
            StimulusError,
        >(Stimulus { pad, start, end: cycles }),
{
    let s = decimal(start as nat);
    let e = decimal(end as nat);
    lemma_no_colon(pin, width, height);
    law_decimal_form(start as nat);
    law_decimal_form(end as nat);
    law_decimal_reads_back(start as nat, 0xffff_ffff_ffff_ffff);
    law_decimal_reads_back(end as nat, 0xffff_ffff_ffff_ffff);
    assert forall|i: int| 0 <= i < s.len() implies s[i] != ':' && s[i] != '-' by {
        assert('0' <= s[i] <= '9');
    }
    assert forall|i: int| 0 <= i < e.len() implies e[i] != ':' && e[i] != '-' by {
        assert('0' <= e[i] <= '9');
    }
    law_stimulus_with_end(pin, s, e, Seq::empty(), width, height, cycles);
    law_stimulus_without_end(pin, s, width, height, cycles);
    assert(pin + seq![':'] + s + seq!['-'] + e =~= pin.push(':') + (s.push('-') + (e
        + Seq::<char>::empty())));
    assert(pin + seq![':'] + s =~= pin.push(':') + s);
}

/// What the laws say of a stimulus holds of the function that reads one, on any
/// text and any fabric.
pub proof fn law_stimulus_called(
    text: &str,
    width: usize,
    height: usize,
    cycles: u64,
    stimulus: Result<Stimulus, StimulusError>,
)
    requires
        call_ensures(parse_stimulus, (text, width, height, cycles), stimulus),
    ensures
        call_requires(parse_stimulus, (text, width, height, cycles)),
        stimulus == read_stimulus(text@, width as int, height as int, cycles),
{
}

/// The stimuli to apply are those of the texts, in the order given. The texts
/// count up to the first that is at fault, but those of a wrong format or with an
/// unknown edge are only left out.
pub proof fn law_stimuli(
    texts: &[String],
    width: usize,
    height: usize,
    cycles: u64,
    stimuli: Stimuli,
)
    requires
        call_ensures(resolve_stimuli, (texts, width, height, cycles), stimuli),
    ensures
        call_requires(resolve_stimuli, (texts, width, height, cycles)),
        ({
            let done = stimuli.outcomes@;
            let goes_on = |outcome: Result<Stimulus, StimulusError>|
                match outcome {
                    Ok(_) => true,
                    Err(e) => e == StimulusError::Format || e == StimulusError::Pin(
                        PinError::UnknownEdge,
                    ),
                };
            &&& stimuli.list@ == accepted(done)
            &&& done.len() <= texts@.len()
            &&& forall|i: int|
                0 <= i < done.len() ==> #[trigger] done[i] == read_stimulus(
                    texts@[i]@,
                    width as int,
                    height as int,
                    cycles,
                )
            &&& forall|i: int| 0 <= i < done.len() - 1 ==> goes_on(#[trigger] done[i])
            &&& done.len() < texts@.len() ==> done.len() > 0 && !goes_on(done[done.len() - 1])
        }),
{
    let readings = read_stimuli(texts@, width as int, height as int, cycles);
    law_until_fatal(readings, stimulus_fatal());
    if until_fatal(readings, stimulus_fatal()) != readings {
        law_left_out(readings, stimulus_fatal());
    }
}

/// In each cycle the clock pad, where there is one, is set first: high in the
/// even cycles. Then the pad of every stimulus is set in turn: high exactly
/// where some stimulus of the same pad has begun and not yet ended. Nothing else
/// is set.
pub proof fn law_driven_levels(
    cycle: u64,
    clock: Option<usize>,
    stimuli: &[Stimulus],
    levels: Vec<(usize, bool)>,
    k: int,
)
    requires
        call_ensures(drive, (cycle, clock, stimuli), levels),
        0 <= k < stimuli@.len(),
    ensures
        call_requires(drive, (cycle, clock, stimuli)),
        ({
            let first: int = if clock is Some { 1 } else { 0 };
            &&& levels@.len() == first + stimuli@.len()
            &&& clock is Some ==> levels@[0] == (clock->0, cycle % 2 == 0)
            &&& levels@[first + k].0 == stimuli@[k].pad
            &&& levels@[first + k].1 <==> !(forall|i: int|
                0 <= i < stimuli@.len() && (#[trigger] stimuli@[i]).pad == stimuli@[k].pad ==> cycle
                    < stimuli@[i].start || stimuli@[i].end < cycle)
        }),
{
}

/// Without stimuli only the clock is driven.
pub proof fn law_clock_alone(
    cycle: u64,
    clock: Option<usize>,
    stimuli: &[Stimulus],
    levels: Vec<(usize, bool)>,
)
    requires
        call_ensures(drive, (cycle, clock, stimuli), levels),
        stimuli@.len() == 0,
    ensures
        call_requires(drive, (cycle, clock, stimuli)),
        levels@ == match clock {
            Some(pad) => seq![(pad, cycle % 2 == 0)],
            None => Seq::empty(),
        },
{
}

/// More stimuli never take a pad low: a pad is held by two lists of stimuli
/// together where it is held by one of them. One stimulus holds its own pad
/// alone, from its first cycle to its last.
pub proof fn law_held_by_any(
    cycle: u64,
    a: Seq<Stimulus>,
    b: Seq<Stimulus>,
    stimulus: Stimulus,
    pad: usize,
)
    ensures
        held(cycle, a + b, pad) == (held(cycle, a, pad) || held(cycle, b, pad)),
        held(cycle, seq![stimulus], pad) == (stimulus.pad == pad && stimulus.start <= cycle && cycle
            <= stimulus.end),
        !held(cycle, Seq::empty(), pad),
{
    if held(cycle, a, pad) {
        let i = choose|i: int|
            0 <= i < a.len() && (#[trigger] a[i]).pad == pad && a[i].start <= cycle <= a[i].end;
        assert((a + b)[i] == a[i]);
    }
    if held(cycle, b, pad) {
        let i = choose|i: int|
            0 <= i < b.len() && (#[trigger] b[i]).pad == pad && b[i].start <= cycle <= b[i].end;
        assert((a + b)[a.len() + i] == b[i]);
    }
    if stimulus.pad == pad && stimulus.start <= cycle <= stimulus.end {
        assert(seq![stimulus][0] == stimulus);
    }
}

/// What the laws say of held pads holds of the function that asks for one.
pub proof fn law_held_called(cycle: u64, stimuli: &[Stimulus], pad: usize, high: bool)
    requires
        call_ensures(is_held, (cycle, stimuli, pad), high),
    ensures
        call_requires(is_held, (cycle, stimuli, pad)),
        high == held(cycle, stimuli@, pad),
{
}

/// Pieces with a separator between each two.
pub open spec fn joined(pieces: Seq<Seq<char>>, separator: char) -> Seq<char>
    decreases pieces.len(),
{
    if pieces.len() == 0 {
        Seq::empty()
    } else if pieces.len() == 1 {
        pieces[0]
    } else {
        joined(pieces.drop_last(), separator).push(separator) + pieces.last()
    }
}

/// The pieces of a text hold no separator, and joining them again gives the
/// text.
pub proof fn law_split_joins(text: Seq<char>, separator: char)
    ensures
        split(text, separator).len() >= 1,
        joined(split(text, separator), separator) == text,
        forall|i: int|
            0 <= i < split(text, separator).len() ==> !(#[trigger] split(
                text,
                separator,
            )[i]).contains(separator),
    decreases text.len(),
{
    let pieces = split(text, separator);
    if text.len() == 0 {
        assert(joined(pieces, separator) =~= text);
    } else {
        let before = split(text.drop_last(), separator);
        law_split_joins(text.drop_last(), separator);
        if text.last() == separator {
            assert(pieces.drop_last() =~= before);
            assert(joined(pieces, separator) =~= text);
        } else {
            assert(pieces.drop_last() =~= before.drop_last());
            assert(joined(pieces, separator) =~= joined(before, separator).push(text.last()));
            assert(joined(pieces, separator) =~= text);
            assert forall|i: int| 0 <= i < pieces.len() implies !(#[trigger] pieces[i]).contains(
                separator,
            ) by {
                if i < before.len() - 1 {
                    assert(pieces[i] == before[i]);
                } else {
                    let last = before[before.len() - 1];
                    assert forall|k: int| 0 <= k < pieces[i].len() implies pieces[i][k]
                        != separator by {
                        if k < last.len() {
                            assert(pieces[i][k] == last[k]);
                            assert(!last.contains(separator));
                        }
                    }
                }
            }
        }
    }
}

} // verus!
