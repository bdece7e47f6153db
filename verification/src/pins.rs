//! The IO pads around the fabric: how they are numbered, and how the command
//! line names them.

use vstd::prelude::*;
use crate::number::{chars_of, parse_number, read_number, NumberError};
use crate::outcome::{
    accepted, law_left_out, law_until_fatal, lemma_stopped_stays, stopped, until_fatal,
};

verus! {

/// Why a pin name stands for no pad.
#[derive(Clone, Copy, Debug, PartialEq, Eq, Structural)]
pub enum PinError {
    /// The name does not begin with a one-byte character.
    NoEdge,
    /// What follows the edge is no position.
    Position(NumberError),
    /// The first character names no edge.
    UnknownEdge,
    /// The pad number is larger than the machine can hold.
    Overflow,
}

/// The number of the first pad on an edge. Pads are numbered from north over
/// east and south to west; north and south have `width` pads, east and west
/// have `height`.
pub open spec fn first_pad(edge: char, width: int, height: int) -> Option<int> {
    if edge == 'n' || edge == 'N' {
        Some(0)
    } else if edge == 'e' || edge == 'E' {
        Some(width)
    } else if edge == 's' || edge == 'S' {
        Some(width + height)
    } else if edge == 'w' || edge == 'W' {
        Some(2 * width + height)
    } else {
        None
    }
}

/// The pad that a pin name stands for: an edge and a position on it.
pub open spec fn read_pin(name: Seq<char>, width: int, height: int) -> Result<usize, PinError> {
    if name.len() == 0 || name[0] as int >= 0x80 {
        Err(PinError::NoEdge)
    } else {
        match read_number(name.skip(1), 10, usize::MAX as int) {
            Err(e) => Err(PinError::Position(e)),
            Ok(position) => match first_pad(name[0], width, height) {
                None => Err(PinError::UnknownEdge),
                Some(first) => if first + position > usize::MAX {
                    Err(PinError::Overflow)
                } else {
                    Ok((first + position) as usize)
                },
            },
        }
    }
}

/// Find the pad that a pin name stands for.
pub fn parse_pin(name: &[char], width: usize, height: usize) -> (pad: Result<usize, PinError>)
    ensures
        pad == read_pin(name@, width as int, height as int),
{
    let n: usize = name.len();
    if n == 0 || name[0] > '\u{7f}' {
        return Err(PinError::NoEdge);
    }
    proof {
        assert(name@.subrange(1, n as int) =~= name@.skip(1));
    }
    let position: u64 = match parse_number(
        vstd::slice::slice_subrange(name, 1, n),
        10,
        usize::MAX as u64,
    ) {
        Err(e) => return Err(PinError::Position(e)),
        Ok(position) => position,
    };
    let first: u128 = match name[0] {
        'n' | 'N' => 0,
        'e' | 'E' => width as u128,
        's' | 'S' => width as u128 + height as u128,
        'w' | 'W' => 2 * width as u128 + height as u128,
        _ => return Err(PinError::UnknownEdge),
    };
    let pad: u128 = first + position as u128;
    if pad > usize::MAX as u128 {
        return Err(PinError::Overflow);
    }
    Ok(pad as usize)
}

/// Find the pad that a pin name stands for.
pub fn resolve_pin(name: &str, width: usize, height: usize) -> (pad: Result<usize, PinError>)
    ensures
        pad == read_pin(name@, width as int, height as int),
{
    let text: Vec<char> = chars_of(name);
    parse_pin(text.as_slice(), width, height)
}

/// Faults in a monitored pin after which the bench does not start. A bad
/// position or an unknown edge only leaves that pin out.
pub open spec fn monitor_fatal() -> spec_fn(PinError) -> bool {
    |e: PinError| e == PinError::NoEdge || e == PinError::Overflow
}

/// What becomes of each of a list of pin names.
pub open spec fn read_pins(names: Seq<String>, width: int, height: int) -> Seq<
    Result<usize, PinError>,
> {
    Seq::new(names.len(), |i: int| read_pin(names[i]@, width, height))
}

/// The pads to watch.
pub struct Monitors {
    /// The pads that were given by number, then those given by name.
    pub pads: Vec<usize>,
    /// What became of each name, up to the first fatal fault.
    pub outcomes: Vec<Result<usize, PinError>>,
}

/// Gather the pads to watch from numbers and names.
pub fn resolve_monitors(
    pads: &[usize],
    names: &[String],
    width: usize,
    height: usize,
) -> (monitors: Monitors)
    ensures
        monitors.outcomes@ == until_fatal(
            read_pins(names@, width as int, height as int),
            monitor_fatal(),
        ),
        monitors.pads@ == pads@ + accepted(monitors.outcomes@),
{
    let mut all: Vec<usize> = Vec::new();
    let count: usize = pads.len();
    for i in 0..count
        invariant
            count == pads@.len(),
            all@ == pads@.take(i as int),
    {
        all.push(pads[i]);
    }
    let mut outcomes: Vec<Result<usize, PinError>> = Vec::new();
    let n: usize = names.len();
    let ghost readings = read_pins(names@, width as int, height as int);
    let ghost fatal = monitor_fatal();
    let mut i: usize = 0;
    proof {
        assert(pads@.take(count as int) =~= pads@);
        assert(all@ =~= pads@ + accepted(outcomes@));
        assert(readings.take(0) =~= Seq::<Result<usize, PinError>>::empty());
    }
    while i < n
        invariant
            i <= n == names@.len(),
            readings == read_pins(names@, width as int, height as int),
            fatal == monitor_fatal(),
            outcomes@ == until_fatal(readings.take(i as int), fatal),
            !stopped(outcomes@, fatal),
            all@ == pads@ + accepted(outcomes@),
        decreases n - i,
    {
        let outcome: Result<usize, PinError> = resolve_pin(names[i].as_str(), width, height);
        let ghost before = outcomes@;
        outcomes.push(outcome);
        proof {
            assert(readings.take(i + 1).drop_last() =~= readings.take(i as int));
            assert(outcomes@.drop_last() =~= before);
        }
        match outcome {
            Ok(pad) => {
                all.push(pad);
                assert(all@ =~= pads@ + accepted(outcomes@));
            },
            Err(PinError::NoEdge) | Err(PinError::Overflow) => {
                proof {
                    lemma_stopped_stays(readings, fatal, i + 1);
                }
                return Monitors { pads: all, outcomes };
            },
            Err(_) => {},
        }
        i += 1;
    }
    proof {
        assert(readings.take(n as int) =~= readings);
    }
    Monitors { pads: all, outcomes }
}

/// The pad that carries the clock: a number goes before a name.
pub open spec fn clock_of(
    pad: Option<usize>,
    name: Option<&str>,
    width: int,
    height: int,
) -> Result<Option<usize>, PinError> {
    match (pad, name) {
        (Some(pad), _) => Ok(Some(pad)),
        (None, None) => Ok(None),
        (None, Some(name)) => match read_pin(name@, width, height) {
            Ok(pad) => Ok(Some(pad)),
            Err(e) => Err(e),
        },
    }
}

/// Find the pad that carries the clock.
pub fn resolve_clock(
    pad: Option<usize>,
    name: Option<&str>,
    width: usize,
    height: usize,
) -> (clock: Result<Option<usize>, PinError>)
    ensures
        clock == clock_of(pad, name, width as int, height as int),
{
    if pad.is_some() {
        return Ok(pad);
    }
    match name {
        None => Ok(None),
        Some(name) => match resolve_pin(name, width, height) {
            Ok(pad) => Ok(Some(pad)),
            Err(e) => Err(e),
        },
    }
}

/// The number of pads around the fabric.
pub fn pad_count(width: usize, height: usize) -> (count: usize)
    requires
        2 * width + 2 * height <= usize::MAX,
    ensures
        count == 2 * width + 2 * height,
{
    2 * width + 2 * height
}

/// The numbers of the pads that are high, in ascending order.
pub open spec fn active(levels: Seq<bool>) -> Seq<usize>
    decreases levels.len(),
{
    if levels.len() == 0 {
        Seq::empty()
    } else if levels.last() {
        active(levels.drop_last()).push((levels.len() - 1) as usize)
    } else {
        active(levels.drop_last())
    }
}

/// Find the pads that are high.
pub fn active_pads(levels: &[bool]) -> (pads: Vec<usize>)
    ensures
        pads@ == active(levels@),
{
    let n: usize = levels.len();
    let mut pads: Vec<usize> = Vec::new();
    proof {
        assert(levels@.take(0) =~= Seq::<bool>::empty());
    }
    for i in 0..n
        invariant
            n == levels@.len(),
            pads@ == active(levels@.take(i as int)),
    {
        proof {
            assert(levels@.take(i + 1).drop_last() =~= levels@.take(i as int));
        }
        if levels[i] {
            pads.push(i);
        }
    }
    proof {
        assert(levels@.take(n as int) =~= levels@);
    }
    pads
}

/// How many active pads the summary lists by number.
pub const SHOWN_PADS: usize = 20;

/// The active pads that the summary lists: the first of them.
pub fn shown_pads(active: &[usize]) -> (shown: &[usize])
    ensures
        active@.len() <= SHOWN_PADS ==> shown@ == active@,
        active@.len() > SHOWN_PADS ==> shown@ == active@.take(SHOWN_PADS as int),
{
    let n: usize = active.len();
    let end: usize = if n < SHOWN_PADS { n } else { SHOWN_PADS };
    proof {
        assert(active@.subrange(0, end as int) =~= active@.take(end as int));
        assert(active@.take(n as int) =~= active@);
    }
    vstd::slice::slice_subrange(active, 0, end)
}

/// How many pads an edge has.
pub open spec fn edge_length(edge: char, width: int, height: int) -> int {
    if edge == 'n' || edge == 's' {
        width
    } else {
        height
    }
}

/// The letters of the edges.
pub open spec fn is_edge(edge: char) -> bool {
    edge == 'n' || edge == 'e' || edge == 's' || edge == 'w'
}

/// The number of the pad at a position on an edge.
pub open spec fn pad_at(edge: char, position: int, width: int, height: int) -> int {
    first_pad(edge, width, height)->0 + position
}

/// The pads on the four edges are numbered without overlap: north first, then
/// east, south and west, up to twice the width plus twice the height.
pub proof fn law_pads_distinct(
    width: int,
    height: int,
    edge_a: char,
    a: int,
    edge_b: char,
    b: int,
)
    requires
        width >= 0,
        height >= 0,
        is_edge(edge_a),
        is_edge(edge_b),
        0 <= a < edge_length(edge_a, width, height),
        0 <= b < edge_length(edge_b, width, height),
    ensures
        0 <= pad_at(edge_a, a, width, height) < 2 * width + 2 * height,
        pad_at(edge_a, a, width, height) == pad_at(edge_b, b, width, height) ==> edge_a == edge_b
            && a == b,
{
}

/// Every pad around the fabric has a place on one of the edges.
pub proof fn law_pads_covered(width: int, height: int, pad: int)
    requires
        width >= 0,
        height >= 0,
        0 <= pad < 2 * width + 2 * height,
    ensures
        exists|edge: char, position: int| #[trigger]
            pad_at(edge, position, width, height) == pad && is_edge(edge) && 0 <= position
                < edge_length(edge, width, height),
{
    if pad < width {
        assert(pad_at('n', pad, width, height) == pad);
    } else if pad < width + height {
        assert(pad_at('e', pad - width, width, height) == pad);
    } else if pad < 2 * width + height {
        assert(pad_at('s', pad - width - height, width, height) == pad);
    } else {
        assert(pad_at('w', pad - 2 * width - height, width, height) == pad);
    }
}

/// An edge letter followed by a decimal position names the pad at that place.
pub proof fn law_pin_names_pad(edge: char, position: nat, width: int, height: int)
    requires
        width >= 0,
        height >= 0,
        first_pad(edge, width, height) is Some,
        pad_at(edge, position as int, width, height) <= usize::MAX,
    ensures
        read_pin(seq![edge] + crate::number::decimal(position), width, height) == Ok::<
            usize,
            PinError,
        >(pad_at(edge, position as int, width, height) as usize),
{
    let name = seq![edge] + crate::number::decimal(position);
    assert(name.skip(1) =~= crate::number::decimal(position));
    crate::number::law_decimal_reads_back(position, usize::MAX as int);
}

/// For every fabric, position `p` of the north, east, south and west edge is
/// pad `p`, `width + p`, `width + height + p` and `2 * width + height + p`, with
/// the letter of the edge in either case and the position in any numeral. A pad
/// number that the machine cannot hold is an overflow.
pub proof fn law_pads_by_edge(position: Seq<char>, p: int, width: int, height: int)
    requires
        width >= 0,
        height >= 0,
        read_number(position, 10, usize::MAX as int) == Ok::<int, NumberError>(p),
    ensures
        ({
            let at = |edge: char| read_pin(seq![edge] + position, width, height);
            let held = |pad: int|
                if pad <= usize::MAX {
                    Ok(pad as usize)
                } else {
                    Err(PinError::Overflow)
                };
            &&& at('n') == held(p)
            &&& at('N') == held(p)
            &&& at('e') == held(width + p)
            &&& at('E') == held(width + p)
            &&& at('s') == held(width + height + p)
            &&& at('S') == held(width + height + p)
            &&& at('w') == held(2 * width + height + p)
            &&& at('W') == held(2 * width + height + p)
        }),
{
    assert((seq!['n'] + position).skip(1) =~= position);
    assert((seq!['N'] + position).skip(1) =~= position);
    assert((seq!['e'] + position).skip(1) =~= position);
    assert((seq!['E'] + position).skip(1) =~= position);
    assert((seq!['s'] + position).skip(1) =~= position);
    assert((seq!['S'] + position).skip(1) =~= position);
    assert((seq!['w'] + position).skip(1) =~= position);
    assert((seq!['W'] + position).skip(1) =~= position);
}

/// A name is refused where it does not begin with an ASCII character, where no
/// number follows that character, with the fault of the number, and where the
/// character is the letter of no edge.
pub proof fn law_names_refused(first: char, position: Seq<char>, width: int, height: int)
    ensures
        read_pin(Seq::empty(), width, height) == Err::<usize, PinError>(PinError::NoEdge),
        ({
            let pad = read_pin(seq![first] + position, width, height);
            if first as int > 127 {
                pad == Err::<usize, PinError>(PinError::NoEdge)
            } else {
                match read_number(position, 10, usize::MAX as int) {
                    Err(e) => pad == Err::<usize, PinError>(PinError::Position(e)),
                    Ok(_) => {
                        let edges = seq!['n', 'N', 'e', 'E', 's', 'S', 'w', 'W'];
                        pad == Err::<usize, PinError>(PinError::UnknownEdge) <==> !edges.contains(
                            first,
                        )
                    },
                }
            }
        }),
{
    let edges = seq!['n', 'N', 'e', 'E', 's', 'S', 'w', 'W'];
    assert((seq![first] + position).skip(1) =~= position);
    if first_pad(first, width, height) is Some {
        assert(edges[0] == first || edges[1] == first || edges[2] == first || edges[3] == first
            || edges[4] == first || edges[5] == first || edges[6] == first || edges[7] == first);
        assert(edges.contains(first));
    } else {
        assert forall|i: int| 0 <= i < edges.len() implies edges[i] != first by {}
    }
}

/// What the laws say of pin names holds of both functions that read them, on any
/// name and any fabric.
pub proof fn law_pin_called(
    name: &str,
    chars: &[char],
    width: usize,
    height: usize,
    of_name: Result<usize, PinError>,
    of_chars: Result<usize, PinError>,
)
    requires
        call_ensures(resolve_pin, (name, width, height), of_name),
        call_ensures(parse_pin, (chars, width, height), of_chars),
    ensures
        call_requires(resolve_pin, (name, width, height)),
        call_requires(parse_pin, (chars, width, height)),
        of_name == read_pin(name@, width as int, height as int),
        of_chars == read_pin(chars@, width as int, height as int),
{
}

/// The pads to watch are those given by number and then those of the names,
/// each in the order given. The names count up to the first that does not begin
/// with an ASCII character or whose pad number the machine cannot hold; other
/// names that stand for no pad are left out.
pub proof fn law_monitors(
    pads: &[usize],
    names: &[String],
    width: usize,
    height: usize,
    monitors: Monitors,
)
    requires
        call_ensures(resolve_monitors, (pads, names, width, height), monitors),
    ensures
        call_requires(resolve_monitors, (pads, names, width, height)),
        ({
            let done = monitors.outcomes@;
            let ends = |outcome: Result<usize, PinError>|
                outcome == Err::<usize, PinError>(PinError::NoEdge) || outcome == Err::<
                    usize,
                    PinError,
                >(PinError::Overflow);
            &&& monitors.pads@ == pads@ + accepted(done)
            &&& done.len() <= names@.len()
            &&& forall|i: int|
                0 <= i < done.len() ==> #[trigger] done[i] == read_pin(
                    names@[i]@,
                    width as int,
                    height as int,
                )
            &&& forall|i: int| 0 <= i < done.len() - 1 ==> !ends(#[trigger] done[i])
            &&& done.len() < names@.len() ==> done.len() > 0 && ends(done[done.len() - 1])
        }),
{
    let readings = read_pins(names@, width as int, height as int);
    law_until_fatal(readings, monitor_fatal());
    if until_fatal(readings, monitor_fatal()) != readings {
        law_left_out(readings, monitor_fatal());
    }
}

/// The clock is on the pad that was given by number, else on the pad that was
/// given by name, else on none.
pub proof fn law_clock(
    pad: Option<usize>,
    name: Option<&str>,
    width: usize,
    height: usize,
    clock: Result<Option<usize>, PinError>,
)
    requires
        call_ensures(resolve_clock, (pad, name, width, height), clock),
    ensures
        call_requires(resolve_clock, (pad, name, width, height)),
        pad is Some ==> clock == Ok::<Option<usize>, PinError>(pad),
        pad is None && name is None ==> clock == Ok::<Option<usize>, PinError>(None),
        pad is None && name is Some ==> match read_pin(name->0@, width as int, height as int) {
            Ok(at) => clock == Ok::<Option<usize>, PinError>(Some(at)),
            Err(e) => clock == Err::<Option<usize>, PinError>(e),
        },
{
}

/// There are as many pads as the four edges have, the active ones are those
/// that are high, each once and in ascending order, and the summary lists the
/// first twenty of them.
pub proof fn law_summary(
    width: usize,
    height: usize,
    count: usize,
    levels: &[bool],
    high: Vec<usize>,
    listed: &[usize],
    shown: &[usize],
)
    requires
        call_ensures(pad_count, (width, height), count),
        call_ensures(active_pads, (levels,), high),
        call_ensures(shown_pads, (listed,), shown),
    ensures
        width + height + width + height <= usize::MAX ==> call_requires(
            pad_count,
            (width, height),
        ),
        call_requires(active_pads, (levels,)),
        call_requires(shown_pads, (listed,)),
        count == width + height + width + height,
        forall|pad: usize| #[trigger]
            high@.contains(pad) == (pad < levels@.len() && levels@[pad as int]),
        forall|i: int, j: int| 0 <= i < j < high@.len() ==> high@[i] < high@[j],
        shown@.len() == if listed@.len() < 20 { listed@.len() } else { 20 },
        forall|i: int| 0 <= i < shown@.len() ==> #[trigger] shown@[i] == listed@[i],
{
    assert(levels@.len() == levels.len());
    law_active(levels@);
    let pads = active(levels@);
    assert forall|pad: usize| #[trigger]
        pads.contains(pad) == (pad < levels@.len() && levels@[pad as int]) by {
        let level = levels@[pad as int];
    }
}

/// The active pads are those that are high, each once and in ascending order.
pub proof fn law_active(levels: Seq<bool>)
    requires
        levels.len() <= usize::MAX,
    ensures
        forall|pad: usize|
            active(levels).contains(pad) <==> pad < levels.len() && #[trigger] levels[pad as int],
        forall|i: int, j: int|
            0 <= i < j < active(levels).len() ==> active(levels)[i] < active(levels)[j],
    decreases levels.len(),
{
    if levels.len() > 0 {
        let before = levels.drop_last();
        law_active(before);
        let last = (levels.len() - 1) as usize;
        assert forall|i: int| 0 <= i < active(before).len() implies #[trigger] active(before)[i]
            < last by {
            assert(active(before).contains(active(before)[i]));
            assert(before[active(before)[i] as int]);
        }
        assert forall|pad: usize|
            active(levels).contains(pad) <==> pad < levels.len() && #[trigger] levels[pad as int] by {
            if pad < last {
                assert(before[pad as int] == levels[pad as int]);
            }
            if active(before).contains(pad) {
                let k = choose|k: int| 0 <= k < active(before).len() && active(before)[k] == pad;
                assert(active(levels)[k] == pad);
                assert(before[pad as int]);
            }
            if active(levels).contains(pad) && pad != last {
                let k = choose|k: int| 0 <= k < active(levels).len() && active(levels)[k] == pad;
                assert(active(before)[k] == pad);
                assert(active(before).contains(pad));
                assert(before[pad as int]);
            }
            if pad == last && levels.last() {
                assert(active(levels)[active(levels).len() - 1] == pad);
            }
        }
    }
}

} // verus!
