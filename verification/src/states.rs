//! The sixteen controller states of IEEE 1149.1 and the moves between them.

use vstd::prelude::*;

verus! {

/// Test-Logic-Reset.
pub const TLR: u8 = 0;

/// Run-Test/Idle.
pub const RTI: u8 = 1;

/// Select-DR-Scan.
pub const SDR_S: u8 = 2;

/// Capture-DR.
pub const CDR: u8 = 3;

/// Shift-DR.
pub const SDR: u8 = 4;

/// Exit1-DR.
pub const E1DR: u8 = 5;

/// Pause-DR.
pub const PDR: u8 = 6;

/// Exit2-DR.
pub const E2DR: u8 = 7;

/// Update-DR.
pub const UDR: u8 = 8;

/// Select-IR-Scan.
pub const SIR_S: u8 = 9;

/// Capture-IR.
pub const CIR: u8 = 10;

/// Shift-IR.
pub const SIR: u8 = 11;

/// Exit1-IR.
pub const E1IR: u8 = 12;

/// Pause-IR.
pub const PIR: u8 = 13;

/// Exit2-IR.
pub const E2IR: u8 = 14;

/// Update-IR.
pub const UIR: u8 = 15;

/// Where each state goes on a clock with TMS low, and where with TMS high,
/// in the order of the state numbers.
pub open spec fn moves() -> Seq<(u8, u8)> {
    seq![
        (RTI, TLR),
        (RTI, SDR_S),
        (CDR, SIR_S),
        (SDR, E1DR),
        (SDR, E1DR),
        (PDR, UDR),
        (PDR, E2DR),
        (SDR, UDR),
        (RTI, SDR_S),
        (CIR, TLR),
        (SIR, E1IR),
        (SIR, E1IR),
        (PIR, UIR),
        (PIR, E2IR),
        (SIR, UIR),
        (RTI, SDR_S),
    ]
}

/// The state after one clock. A number that names no state leads to
/// Test-Logic-Reset.
pub open spec fn next(state: u8, tms: bool) -> u8 {
    if state > UIR {
        TLR
    } else if tms {
        moves()[state as int].1
    } else {
        moves()[state as int].0
    }
}

/// The state after a number of clocks with TMS high.
pub open spec fn held_high(state: u8, clocks: nat) -> u8
    decreases clocks,
{
    if clocks == 0 {
        state
    } else {
        next(held_high(state, (clocks - 1) as nat), true)
    }
}

/// The controller state after one rising TCK edge.
pub fn next_state(state: u8, tms: bool) -> (after: u8)
    ensures
        after == next(state, tms),
{
    match (state, tms) {
        (TLR, false) => RTI,
        (TLR, true) => TLR,
        (RTI, false) => RTI,
        (RTI, true) => SDR_S,
        (SDR_S, false) => CDR,
        (SDR_S, true) => SIR_S,
        (CDR, false) => SDR,
        (CDR, true) => E1DR,
        (SDR, false) => SDR,
        (SDR, true) => E1DR,
        (E1DR, false) => PDR,
        (E1DR, true) => UDR,
        (PDR, false) => PDR,
        (PDR, true) => E2DR,
        (E2DR, false) => SDR,
        (E2DR, true) => UDR,
        (UDR, false) => RTI,
        (UDR, true) => SDR_S,
        (SIR_S, false) => CIR,
        (SIR_S, true) => TLR,
        (CIR, false) => SIR,
        (CIR, true) => E1IR,
        (SIR, false) => SIR,
        (SIR, true) => E1IR,
        (E1IR, false) => PIR,
        (E1IR, true) => UIR,
        (PIR, false) => PIR,
        (PIR, true) => E2IR,
        (E2IR, false) => SIR,
        (E2IR, true) => UIR,
        (UIR, false) => RTI,
        (UIR, true) => SDR_S,
        _ => TLR,
    }
}

/// Every move ends in one of the sixteen states.
pub proof fn law_next_in_range(state: u8, tms: bool)
    ensures
        next(state, tms) <= UIR,
{
}

/// Five clocks with TMS high reach Test-Logic-Reset from anywhere, and every
/// further one stays there.
pub proof fn law_five_high_reset(state: u8, clocks: nat)
    requires
        clocks >= 5,
    ensures
        held_high(state, clocks) == TLR,
    decreases clocks,
{
    if clocks == 5 {
        reveal_with_fuel(held_high, 6);
    } else {
        law_five_high_reset(state, (clocks - 1) as nat);
    }
}

/// With TMS low the controller settles in one of Run-Test/Idle, the two shift
/// and the two pause states; these and Test-Logic-Reset with TMS high are the
/// only states that a clock can leave unchanged.
pub proof fn law_stable_states(state: u8, tms: bool)
    requires
        state <= UIR,
    ensures
        next(state, tms) == state <==> if tms {
            state == TLR
        } else {
            state == RTI || state == SDR || state == PDR || state == SIR || state == PIR
        },
{
}

/// The ways into each state: which states lead to it, and with which level of
/// TMS.
pub proof fn law_ways_in(state: u8, tms: bool)
    requires
        state <= 15,
    ensures
        ({
            let to = next(state, tms);
            &&& to == TLR <==> tms && (state == TLR || state == SIR_S)
            &&& to == RTI <==> !tms && (state == TLR || state == RTI || state == UDR || state
                == UIR)
            &&& to == SDR_S <==> tms && (state == RTI || state == UDR || state == UIR)
            &&& to == CDR <==> !tms && state == SDR_S
            &&& to == SDR <==> !tms && (state == CDR || state == SDR || state == E2DR)
            &&& to == E1DR <==> tms && (state == CDR || state == SDR)
            &&& to == PDR <==> !tms && (state == E1DR || state == PDR)
            &&& to == E2DR <==> tms && state == PDR
            &&& to == UDR <==> tms && (state == E1DR || state == E2DR)
            &&& to == SIR_S <==> tms && state == SDR_S
            &&& to == CIR <==> !tms && state == SIR_S
            &&& to == SIR <==> !tms && (state == CIR || state == SIR || state == E2IR)
            &&& to == E1IR <==> tms && (state == CIR || state == SIR)
            &&& to == PIR <==> !tms && (state == E1IR || state == PIR)
            &&& to == E2IR <==> tms && state == PIR
            &&& to == UIR <==> tms && (state == E1IR || state == E2IR)
        }),
{
}

/// What the laws say of the moves holds of the function that makes them. It
/// takes any number, and leads to Test-Logic-Reset from one that names no state.
pub proof fn law_next_called(state: u8, tms: bool, after: u8)
    requires
        call_ensures(next_state, (state, tms), after),
    ensures
        call_requires(next_state, (state, tms)),
        after == next(state, tms),
        state > 15 ==> after == TLR,
{
}

/// The instruction column has the shape of the data column: from Capture to
/// Exit2 each of its states moves as its data twin, seven numbers lower, does,
/// and the two Update states move alike.
pub proof fn law_columns_alike(state: u8, tms: bool)
    ensures
        CDR <= state <= E2DR ==> next((state + 7) as u8, tms) == next(state, tms) + 7,
        next(UIR, tms) == next(UDR, tms),
{
}

} // verus!
