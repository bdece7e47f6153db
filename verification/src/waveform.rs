//! What goes into the waveform file: signal names, their identifiers and the
//! changes in each cycle.

use vstd::prelude::*;
use crate::number::{decimal, to_decimal};

verus! {

/// Identifier of the clock signal.
pub const CLOCK_ID: char = '!';

/// How many monitored pads have an identifier.
pub const MAX_MONITORS: usize = 222;

/// Identifier of the monitored pad with this index: the first is `"`, the
/// second `#`, and so on.
pub open spec fn monitor_id(index: int) -> char {
    (0x22 + index) as char
}

/// The identifier of a monitored pad.
pub fn signal_id(index: usize) -> (id: char)
    requires
        index < MAX_MONITORS,
    ensures
        id == monitor_id(index as int),
{
    (0x22 + index as u8) as char
}

/// The name of the signal of a pad.
pub open spec fn pad_signal(pad: usize) -> Seq<char> {
    "io_"@ + decimal(pad as nat)
}

/// Name the signal of a pad.
pub fn signal_name(pad: usize) -> (name: String)
    ensures
        name@ == pad_signal(pad),
{
    "io_".to_string().concat(to_decimal(pad as u64).as_str())
}

/// One entry of the waveform.
#[derive(Clone, Copy, Debug, PartialEq, Eq, Structural)]
pub enum WaveEvent {
    /// What follows happens at this time.
    Time(u64),
    /// The signal with this identifier takes this level.
    Level(char, bool),
}

/// The entries for one cycle: the clock rises and the monitored pads take
/// their levels, then half a cycle later the clock falls.
pub open spec fn sampled(cycle: u64, levels: Seq<bool>) -> Seq<WaveEvent> {
    seq![WaveEvent::Time((cycle * 2) as u64), WaveEvent::Level(CLOCK_ID, true)] + Seq::new(
        levels.len(),
        |i: int| WaveEvent::Level(monitor_id(i), levels[i]),
    ) + seq![WaveEvent::Time((cycle * 2 + 1) as u64), WaveEvent::Level(CLOCK_ID, false)]
}

/// Decide the entries for one cycle from the levels of the monitored pads.
pub fn sample(cycle: u64, levels: &[bool]) -> (events: Vec<WaveEvent>)
    requires
        cycle * 2 + 1 <= u64::MAX,
        levels@.len() <= MAX_MONITORS,
    ensures
        events@ == sampled(cycle, levels@),
{
    let mut events: Vec<WaveEvent> = Vec::new();
    events.push(WaveEvent::Time(cycle * 2));
    events.push(WaveEvent::Level(CLOCK_ID, true));
    let ghost head = events@;
    let n: usize = levels.len();
    for i in 0..n
        invariant
            n == levels@.len() <= MAX_MONITORS,
            events@ == head + Seq::new(
                i as nat,
                |k: int| WaveEvent::Level(monitor_id(k), levels@[k]),
            ),
    {
        events.push(WaveEvent::Level(signal_id(i), levels[i]));
    }
    events.push(WaveEvent::Time(cycle * 2 + 1));
    events.push(WaveEvent::Level(CLOCK_ID, false));
    assert(events@ =~= sampled(cycle, levels@));
    events
}

/// Of every monitored pad a cycle records one level, that of the pad, between
/// the rise and the fall of the clock. Its identifier is 34 for the first pad
/// and one more for each further pad.
pub proof fn law_monitor_recorded(cycle: u64, levels: Seq<bool>, i: int)
    requires
        cycle * 2 + 1 <= u64::MAX,
        levels.len() <= 222,
        0 <= i < levels.len(),
    ensures
        ({
            let entries = sampled(cycle, levels);
            &&& entries[i + 2] matches WaveEvent::Level(id, level) && id as int == 34 + i && level
                == levels[i]
            &&& forall|j: int|
                0 <= j < entries.len() && j != i + 2 ==> !((
                #[trigger] entries[j]) matches WaveEvent::Level(id, _) && id as int == 34 + i)
        }),
{
    let entries = sampled(cycle, levels);
    assert forall|j: int| 0 <= j < entries.len() && j != i + 2 implies !((
    #[trigger] entries[j]) matches WaveEvent::Level(id, _) && id as int == 34 + i) by {
        if 2 <= j < levels.len() + 2 {
            assert(entries[j] == WaveEvent::Level(monitor_id(j - 2), levels[j - 2]));
        }
    }
}

/// A cycle begins at twice its number with the clock high, and half-way through
/// it, one later, the clock goes low. Between the two stand the monitored pads
/// and nothing else.
pub proof fn law_clock_recorded(cycle: u64, levels: Seq<bool>)
    requires
        cycle * 2 + 1 <= u64::MAX,
    ensures
        ({
            let entries = sampled(cycle, levels);
            let n = levels.len() as int;
            &&& entries.len() == n + 4
            &&& entries[0] matches WaveEvent::Time(t) && t == cycle + cycle
            &&& entries[1] == WaveEvent::Level('!', true)
            &&& entries[n + 2] matches WaveEvent::Time(t) && t == cycle + cycle + 1
            &&& entries[n + 3] == WaveEvent::Level('!', false)
        }),
{
}

/// What the laws say of a cycle holds of the function that records one, and the
/// identifiers are those under which the pads are announced.
pub proof fn law_sample_called(
    cycle: u64,
    levels: &[bool],
    events: Vec<WaveEvent>,
    index: usize,
    id: char,
)
    requires
        call_ensures(sample, (cycle, levels), events),
        call_ensures(signal_id, (index,), id),
        index < 222,
    ensures
        cycle + cycle + 1 <= u64::MAX && levels@.len() <= 222 ==> call_requires(
            sample,
            (cycle, levels),
        ),
        call_requires(signal_id, (index,)),
        events@ == sampled(cycle, levels@),
        id as int == 34 + index,
{
}

/// The signal of a pad is named `io_` and the number of the pad in decimal.
pub proof fn law_signal_named(pad: usize, name: String)
    requires
        call_ensures(signal_name, (pad,), name),
    ensures
        call_requires(signal_name, (pad,)),
        name@ == pad_signal(pad),
        pad_signal(pad) == seq!['i', 'o', '_'] + decimal(pad as nat),
{
    reveal_strlit("io_");
    assert("io_"@ =~= seq!['i', 'o', '_']);
}

/// No two monitored pads share an identifier, and none has that of the clock.
pub proof fn law_ids_distinct(i: int, j: int)
    requires
        0 <= i < j < MAX_MONITORS,
    ensures
        monitor_id(i) != monitor_id(j),
        monitor_id(i) != CLOCK_ID,
        monitor_id(j) != CLOCK_ID,
{
}

/// Signals of different pads have different names, and none is named as the
/// clock is.
pub proof fn law_names_distinct(a: usize, b: usize)
    ensures
        pad_signal(a) == pad_signal(b) ==> a == b,
        pad_signal(a) != "clk"@,
{
    reveal_strlit("io_");
    reveal_strlit("clk");
    assert(pad_signal(a)[0] == 'i');
    if pad_signal(a) == pad_signal(b) {
        assert(pad_signal(a).skip(3) =~= decimal(a as nat));
        assert(pad_signal(b).skip(3) =~= decimal(b as nat));
        crate::number::law_decimal_reads_back(a as nat, usize::MAX as int);
        crate::number::law_decimal_reads_back(b as nat, usize::MAX as int);
    }
}

/// Two times stand in ascending order; other entries have no time.
pub open spec fn comes_before(a: WaveEvent, b: WaveEvent) -> bool {
    match (a, b) {
        (WaveEvent::Time(s), WaveEvent::Time(t)) => s < t,
        _ => true,
    }
}

/// Time in the waveform only moves forward, from entry to entry and from
/// cycle to cycle.
pub proof fn law_time_advances(
    cycle: u64,
    levels: Seq<bool>,
    later: u64,
    later_levels: Seq<bool>,
)
    requires
        cycle < later,
        later * 2 + 1 <= u64::MAX,
    ensures
        forall|i: int, j: int|
            0 <= i < j < sampled(cycle, levels).len() ==> comes_before(
                #[trigger] sampled(cycle, levels)[i],
                #[trigger] sampled(cycle, levels)[j],
            ),
        forall|i: int, j: int|
            0 <= i < sampled(cycle, levels).len() && 0 <= j < sampled(later, later_levels).len()
                ==> comes_before(
                #[trigger] sampled(cycle, levels)[i],
                #[trigger] sampled(later, later_levels)[j],
            ),
{
}

} // verus!
