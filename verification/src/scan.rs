//! What a host sees of the TAP: clock pulses, register scans and the promises
//! that hold of them.

use vstd::arithmetic::power2::lemma2_to64;
use vstd::prelude::*;
use crate::bits::{
    bit_of, bits_of, cleared, lemma_bits_of_value_of, lemma_value_of_bits_of, shifted, value_of,
};
use crate::jtag::{
    captured_ir, single_bit, TapModel, IR_BYPASS, IR_CONFIG, IR_EXTEST, IR_IDCODE, IR_WIDTH,
};
use crate::states::{
    held_high, law_five_high_reset, CDR, CIR, E1DR, E1IR, E2DR, PDR, PIR, RTI, SDR, SDR_S, SIR,
    SIR_S, TLR, UDR, UIR,
};

verus! {

/// The levels of TMS and TDI during one period of TCK.
pub struct Pulse {
    /// Level of TMS.
    pub tms: bool,
    /// Level of TDI.
    pub tdi: bool,
}

/// The byte that carries the three pin levels.
pub open spec fn pin_byte(tck: bool, p: Pulse) -> u8 {
    ((if tck { 4int } else { 0 }) + (if p.tms { 2int } else { 0 }) + (if p.tdi { 1int } else { 0 })) as u8
}

/// One period of TCK: the pins are set up with TCK low, then TCK rises.
pub open spec fn pulse(m: TapModel, p: Pulse) -> TapModel {
    m.step(pin_byte(false, p)).step(pin_byte(true, p))
}

/// The TAP after a sequence of pulses.
pub open spec fn clocked(m: TapModel, pulses: Seq<Pulse>) -> TapModel
    decreases pulses.len(),
{
    if pulses.len() == 0 {
        m
    } else {
        pulse(clocked(m, pulses.drop_last()), pulses.last())
    }
}

/// The level on TDO after each of a sequence of pulses.
pub open spec fn trace(m: TapModel, pulses: Seq<Pulse>) -> Seq<bool> {
    Seq::new(pulses.len(), |i: int| clocked(m, pulses.take(i + 1)).tdo)
}

/// Pulses that walk the controller through its states, TDI low.
pub open spec fn walk(tms: Seq<bool>) -> Seq<Pulse> {
    Seq::new(tms.len(), |i: int| Pulse { tms: tms[i], tdi: false })
}

/// Pulses that shift `tdi` through a register and leave it with the last bit.
pub open spec fn scan(tdi: Seq<bool>) -> Seq<Pulse> {
    Seq::new(tdi.len(), |i: int| Pulse { tms: i == tdi.len() - 1, tdi: tdi[i] })
}

/// How a scan is entered and left.
pub struct Route {
    /// Enter straight through Select, from Run-Test/Idle or an Update state,
    /// rather than by way of Run-Test/Idle.
    pub direct: bool,
    /// Leave Update for Run-Test/Idle rather than stay in Update.
    pub idle: bool,
}

/// The states from which a scan can be entered.
pub open spec fn ready(m: TapModel, route: Route) -> bool {
    ||| m.state == RTI
    ||| m.state == UDR
    ||| m.state == UIR
    ||| m.state == TLR && !route.direct
}

/// Pulses that enter Shift-DR.
pub open spec fn to_shift_dr(route: Route) -> Seq<Pulse> {
    if route.direct {
        walk(seq![true, false, false])
    } else {
        walk(seq![false, true, false, false])
    }
}

/// Pulses that enter Shift-IR.
pub open spec fn to_shift_ir(route: Route) -> Seq<Pulse> {
    if route.direct {
        walk(seq![true, true, false, false])
    } else {
        walk(seq![false, true, true, false, false])
    }
}

/// Pulses that go from Exit1 to Update and may go on to Run-Test/Idle.
pub open spec fn leave(route: Route) -> Seq<Pulse> {
    if route.idle {
        walk(seq![true, false])
    } else {
        walk(seq![true])
    }
}

/// A whole data register scan.
pub open spec fn dr_scan(route: Route, tdi: Seq<bool>) -> Seq<Pulse> {
    to_shift_dr(route) + scan(tdi) + leave(route)
}

/// A whole instruction register scan.
pub open spec fn ir_scan(route: Route, tdi: Seq<bool>) -> Seq<Pulse> {
    to_shift_ir(route) + scan(tdi) + leave(route)
}

proof fn lemma_pin_byte(tck: bool, p: Pulse)
    ensures
        bit_of(pin_byte(tck, p) as u64, 2) == tck,
        bit_of(pin_byte(tck, p) as u64, 1) == p.tms,
        bit_of(pin_byte(tck, p) as u64, 0) == p.tdi,
{
    let b = pin_byte(tck, p);
    let hi = tck;
    let mid = p.tms;
    let lo = p.tdi;
    assert(((b as u64 >> 2) & 1 == 1) == hi && ((b as u64 >> 1) & 1 == 1) == mid && ((b as u64 >> 0)
        & 1 == 1) == lo) by (bit_vector)
        requires
            b == (if hi { 4u8 } else { 0u8 }) + (if mid { 2u8 } else { 0u8 }) + (if lo {
                1u8
            } else {
                0u8
            }),
    ;
}

/// Registers keep their widths, the state stays one of the sixteen,
/// Test-Logic-Reset selects IDCODE, and CONFIG bits are gathered only under
/// CONFIG from Shift-DR to Exit2-DR: a TAP powers up so, and every operation on
/// it keeps this.
pub proof fn law_valid_kept(m: TapModel, byte: u8, idcode: u32)
    requires
        m.valid(),
    ensures
        TapModel::power_up(idcode).valid(),
        m.step(byte).valid(),
        m.reset().valid(),
        m.taken().valid(),
{
    lemma_opcode_fits(m.ir_shift);
}

proof fn lemma_opcode_fits(register: Seq<bool>)
    requires
        register.len() == IR_WIDTH,
    ensures
        value_of(register) < 16,
{
    lemma2_to64();
    lemma_bits_of_value_of(register);
}

/// The TAP acts on rising edges of TCK alone: a byte that brings none changes
/// nothing but the level that TCK is remembered to have.
pub proof fn law_edge_triggered(m: TapModel, byte: u8)
    requires
        m.last_tck || !bit_of(byte as u64, 2),
    ensures
        m.step(byte) == (TapModel { last_tck: bit_of(byte as u64, 2), ..m }),
{
}

/// Only the low three bits of a byte carry pin levels.
pub proof fn law_high_bits_ignored(m: TapModel, a: u8, b: u8)
    requires
        a % 8 == b % 8,
    ensures
        m.step(a) == m.step(b),
{
    assert((a as u64 >> 2) & 1 == (b as u64 >> 2) & 1 && (a as u64 >> 1) & 1 == (b as u64 >> 1) & 1
        && (a as u64 >> 0) & 1 == (b as u64 >> 0) & 1) by (bit_vector)
        requires
            a % 8 == b % 8,
    ;
}

/// A pulse is one rising edge, whatever level TCK had before it.
pub proof fn law_pulse_is_one_edge(m: TapModel, p: Pulse)
    ensures
        pulse(m, p) == (TapModel { last_tck: true, ..m.rising_edge(p.tms, p.tdi) }),
{
    lemma_pin_byte(false, p);
    lemma_pin_byte(true, p);
}

/// TDI matters in the Shift states alone.
pub proof fn law_tdi_outside_shift(m: TapModel, tms: bool, a: bool, b: bool)
    requires
        m.state != SDR,
        m.state != SIR,
    ensures
        pulse(m, Pulse { tms, tdi: a }) == pulse(m, Pulse { tms, tdi: b }),
{
    law_pulse_is_one_edge(m, Pulse { tms, tdi: a });
    law_pulse_is_one_edge(m, Pulse { tms, tdi: b });
}

/// Between two bytes the instruction changes only where Update-IR or
/// Test-Logic-Reset is entered, a bitstream is latched only where Update-DR is
/// entered under CONFIG, and the identification code never changes.
pub proof fn law_what_stays(m: TapModel, byte: u8)
    ensures
        ({
            let after = m.step(byte);
            &&& after.idcode == m.idcode
            &&& after.ir == m.ir || after.state == UIR || after.state == TLR
            &&& after.last_config == m.last_config || (after.state == UDR && m.ir == IR_CONFIG)
        }),
{
}

/// A reset leaves a TAP as it powers up, but for a latched bitstream that
/// nobody took yet and the level of TCK.
pub proof fn law_reset_is_power_up(m: TapModel)
    ensures
        m.reset() == (TapModel {
            last_tck: m.last_tck,
            last_config: m.last_config,
            ..TapModel::power_up(m.idcode)
        }),
        m.reset().reset() == m.reset(),
{
}

/// A latched bitstream can be taken once: a second take finds none, and the
/// TAP is otherwise left alone.
pub proof fn law_taken_once(m: TapModel)
    ensures
        m.taken() == (TapModel { last_config: None, ..m }),
        m.taken().taken() == m.taken(),
        m.last_config is None ==> m.taken() == m,
{
}

/// Pulses may be sent in pieces.
pub proof fn law_clocked_concat(m: TapModel, a: Seq<Pulse>, b: Seq<Pulse>)
    ensures
        clocked(m, a + b) == clocked(clocked(m, a), b),
    decreases b.len(),
{
    if b.len() == 0 {
        assert(a + b =~= a);
    } else {
        assert((a + b).drop_last() =~= a + b.drop_last());
        law_clocked_concat(m, a, b.drop_last());
    }
}

/// A valid TAP stays valid through any pulses.
pub proof fn law_valid_clocked(m: TapModel, pulses: Seq<Pulse>)
    requires
        m.valid(),
    ensures
        clocked(m, pulses).valid(),
    decreases pulses.len(),
{
    if pulses.len() > 0 {
        let before = clocked(m, pulses.drop_last());
        let p = pulses.last();
        law_valid_clocked(m, pulses.drop_last());
        law_valid_kept(before, pin_byte(false, p), 0);
        law_valid_kept(before.step(pin_byte(false, p)), pin_byte(true, p), 0);
    }
}

/// The bitstream that is latched once TMS was held high long enough: a data
/// scan that was under way under CONFIG is cut short in Update-DR, and latches
/// what it gathered. In Shift-DR the first of the clocks still shifts a bit.
pub open spec fn cut_short(m: TapModel, tdi: bool) -> Option<Seq<bool>> {
    if m.ir == IR_CONFIG && CDR <= m.state <= E2DR {
        if m.state == SDR {
            Some(m.config_bits.push(tdi))
        } else {
            Some(m.config_bits)
        }
    } else {
        m.last_config
    }
}

/// Five or more pulses with TMS high reset a TAP in any state, whatever is on
/// TDI: it is left as it powers up, registers cleared and TDO low, but for the
/// level of TCK and the latched bitstream. That is the one that was latched
/// before, unless a data scan under CONFIG was cut short.
pub proof fn law_tms_high_resets(m: TapModel, pulses: Seq<Pulse>)
    requires
        m.valid(),
        pulses.len() >= 5,
        forall|i: int| 0 <= i < pulses.len() ==> (#[trigger] pulses[i]).tms,
    ensures
        clocked(m, pulses) == (TapModel {
            last_tck: true,
            last_config: cut_short(m, pulses[0].tdi),
            ..TapModel::power_up(m.idcode)
        }),
{
    lemma_tms_high(m, pulses);
    law_five_high_reset(m.state, pulses.len());
    law_pulse_is_one_edge(clocked(m, pulses.drop_last()), pulses.last());
    assert(cut_short(clocked(m, pulses), false) == clocked(m, pulses).last_config);
}

proof fn lemma_tms_high(m: TapModel, pulses: Seq<Pulse>)
    requires
        m.valid(),
        forall|i: int| 0 <= i < pulses.len() ==> (#[trigger] pulses[i]).tms,
    ensures
        clocked(m, pulses).state == held_high(m.state, pulses.len()),
        clocked(m, pulses).idcode == m.idcode,
        pulses.len() > 0 ==> {
            &&& clocked(m, pulses).state != SDR
            &&& cut_short(clocked(m, pulses), false) == cut_short(m, pulses[0].tdi)
        },
    decreases pulses.len(),
{
    if pulses.len() > 0 {
        let before = pulses.drop_last();
        assert forall|i: int| 0 <= i < before.len() implies (#[trigger] before[i]).tms by {
            assert(pulses[i].tms);
        }
        lemma_tms_high(m, before);
        assert(pulses[pulses.len() - 1].tms);
        law_valid_clocked(m, before);
        lemma_cut_short(clocked(m, before), pulses.last());
        law_pulse_is_one_edge(clocked(m, before), pulses.last());
    }
}

/// A pulse with TMS high changes nothing in what will be latched.
proof fn lemma_cut_short(m: TapModel, p: Pulse)
    requires
        m.valid(),
        p.tms,
    ensures
        pulse(m, p).state != SDR,
        cut_short(pulse(m, p), false) == cut_short(m, p.tdi),
{
    law_pulse_is_one_edge(m, p);
}

/// One rising edge with TDI low.
spec fn edge(m: TapModel, tms: bool) -> TapModel {
    TapModel { last_tck: true, ..m.rising_edge(tms, false) }
}

proof fn lemma_walk_push(m: TapModel, tms: Seq<bool>, last: bool)
    ensures
        clocked(m, walk(tms.push(last))) == edge(clocked(m, walk(tms)), last),
{
    assert(walk(tms.push(last)).drop_last() =~= walk(tms));
    law_pulse_is_one_edge(clocked(m, walk(tms)), Pulse { tms: last, tdi: false });
}

proof fn lemma_walk_1(m: TapModel, a: bool)
    ensures
        clocked(m, walk(seq![a])) == edge(m, a),
{
    lemma_walk_push(m, Seq::empty(), a);
    assert(Seq::<bool>::empty().push(a) =~= seq![a]);
}

proof fn lemma_walk_2(m: TapModel, a: bool, b: bool)
    ensures
        clocked(m, walk(seq![a, b])) == edge(edge(m, a), b),
{
    lemma_walk_1(m, a);
    lemma_walk_push(m, seq![a], b);
    assert(seq![a].push(b) =~= seq![a, b]);
}

proof fn lemma_walk_3(m: TapModel, a: bool, b: bool, c: bool)
    ensures
        clocked(m, walk(seq![a, b, c])) == edge(edge(edge(m, a), b), c),
{
    lemma_walk_2(m, a, b);
    lemma_walk_push(m, seq![a, b], c);
    assert(seq![a, b].push(c) =~= seq![a, b, c]);
}

proof fn lemma_walk_4(m: TapModel, a: bool, b: bool, c: bool, d: bool)
    ensures
        clocked(m, walk(seq![a, b, c, d])) == edge(edge(edge(edge(m, a), b), c), d),
{
    lemma_walk_3(m, a, b, c);
    lemma_walk_push(m, seq![a, b, c], d);
    assert(seq![a, b, c].push(d) =~= seq![a, b, c, d]);
}

proof fn lemma_walk_5(m: TapModel, a: bool, b: bool, c: bool, d: bool, e: bool)
    ensures
        clocked(m, walk(seq![a, b, c, d, e])) == edge(edge(edge(edge(edge(m, a), b), c), d), e),
{
    lemma_walk_4(m, a, b, c, d);
    lemma_walk_push(m, seq![a, b, c, d], e);
    assert(seq![a, b, c, d].push(e) =~= seq![a, b, c, d, e]);
}

/// The first move of a scan, by way of Run-Test/Idle or not, ends in
/// Select-DR-Scan and changes nothing else.
spec fn selected(m: TapModel, route: Route) -> TapModel {
    if route.direct {
        edge(m, true)
    } else {
        edge(edge(m, false), true)
    }
}

proof fn lemma_selected(m: TapModel, route: Route)
    requires
        ready(m, route),
    ensures
        selected(m, route) == (TapModel { state: SDR_S, last_tck: true, ..m }),
{
    if !route.direct {
        assert(edge(m, false) == (TapModel { state: RTI, last_tck: true, ..m }));
    }
}

/// Entering Shift-DR captures the data register and does nothing else.
pub proof fn law_enter_shift_dr(m: TapModel, route: Route)
    requires
        ready(m, route),
    ensures
        clocked(m, to_shift_dr(route)) == (TapModel {
            state: SDR,
            last_tck: true,
            ..m.capture_dr()
        }),
{
    if route.direct {
        lemma_walk_3(m, true, false, false);
    } else {
        lemma_walk_4(m, false, true, false, false);
    }
    lemma_selected(m, route);
    assert(edge(selected(m, route), false) == (TapModel {
        state: CDR,
        last_tck: true,
        ..m.capture_dr()
    }));
}

/// Entering Shift-IR captures the instruction register and does nothing else.
pub proof fn law_enter_shift_ir(m: TapModel, route: Route)
    requires
        ready(m, route),
    ensures
        clocked(m, to_shift_ir(route)) == (TapModel {
            state: SIR,
            last_tck: true,
            ..m.capture_ir()
        }),
{
    if route.direct {
        lemma_walk_4(m, true, true, false, false);
    } else {
        lemma_walk_5(m, false, true, true, false, false);
    }
    lemma_selected(m, route);
    let m2 = edge(selected(m, route), true);
    assert(m2 == (TapModel { state: SIR_S, last_tck: true, ..m }));
    assert(edge(m2, false) == (TapModel { state: CIR, last_tck: true, ..m.capture_ir() }));
}

/// Leaving a scan updates the register that was scanned and does nothing else.
pub proof fn law_leave_scan(m: TapModel, route: Route)
    ensures
        m.state == E1DR ==> clocked(m, leave(route)) == (TapModel {
            state: if route.idle { RTI } else { UDR },
            last_tck: true,
            ..m.update_dr()
        }),
        m.state == E1IR ==> clocked(m, leave(route)) == (TapModel {
            state: if route.idle { RTI } else { UIR },
            last_tck: true,
            ..m.update_ir()
        }),
{
    lemma_walk_1(m, true);
    lemma_walk_2(m, true, false);
    let m1 = edge(m, true);
    if m.state == E1DR {
        assert(m1 == (TapModel { state: UDR, last_tck: true, ..m.update_dr() }));
    }
    if m.state == E1IR {
        assert(m1 == (TapModel { state: UIR, last_tck: true, ..m.update_ir() }));
    }
}

/// The first `k` pulses of a scan are those of the first `k - 1`, and one more.
proof fn lemma_scan_prefix(m: TapModel, tdi: Seq<bool>, k: int)
    requires
        0 < k <= tdi.len(),
    ensures
        clocked(m, scan(tdi).take(k)) == (TapModel {
            last_tck: true,
            ..clocked(m, scan(tdi).take(k - 1)).rising_edge(k == tdi.len(), tdi[k - 1])
        }),
{
    assert(scan(tdi).take(k).drop_last() =~= scan(tdi).take(k - 1));
    law_pulse_is_one_edge(clocked(m, scan(tdi).take(k - 1)), scan(tdi)[k - 1]);
}

/// The IDCODE register after `k` clocks of a scan.
proof fn lemma_idcode_shift(m: TapModel, tdi: Seq<bool>, k: int)
    requires
        m.valid(),
        m.state == SDR,
        m.ir == IR_IDCODE,
        0 <= k <= tdi.len(),
    ensures
        clocked(m, scan(tdi).take(k)) == (TapModel {
            state: if 0 < k && k == tdi.len() { E1DR } else { SDR },
            last_tck: k > 0 || m.last_tck,
            dr_shift: (m.dr_shift + tdi).subrange(k, k + 32),
            tdo: if k > 0 { (m.dr_shift + tdi)[k - 1] } else { m.tdo },
            ..m
        }),
    decreases k,
{
    let line = m.dr_shift + tdi;
    if k == 0 {
        assert(line.subrange(0, 32) =~= m.dr_shift);
    } else {
        lemma_idcode_shift(m, tdi, k - 1);
        lemma_scan_prefix(m, tdi, k);
        assert(shifted(line.subrange(k - 1, k + 31), tdi[k - 1]) =~= line.subrange(k, k + 32));
    }
}

/// A data scan under IDCODE reads the identification code, least significant
/// bit first, and then the bits that were shifted in, 32 clocks late.
pub proof fn law_idcode_read(m: TapModel, route: Route, tdi: Seq<bool>)
    requires
        m.valid(),
        ready(m, route),
        m.ir == IR_IDCODE,
    ensures
        ({
            let out = trace(clocked(m, to_shift_dr(route)), scan(tdi));
            &&& out == (bits_of(m.idcode as u64, 32) + tdi).take(tdi.len() as int)
            &&& tdi.len() >= 32 ==> value_of(out.take(32)) == m.idcode
        }),
{
    law_enter_shift_dr(m, route);
    let entered = clocked(m, to_shift_dr(route));
    let out = trace(entered, scan(tdi));
    let line = bits_of(m.idcode as u64, 32) + tdi;
    assert forall|i: int| 0 <= i < tdi.len() implies #[trigger] out[i] == line[i] by {
        lemma_idcode_shift(entered, tdi, i + 1);
    }
    assert(out =~= line.take(tdi.len() as int));
    if tdi.len() >= 32 {
        assert(out.take(32) =~= bits_of(m.idcode as u64, 32));
        lemma2_to64();
        lemma_value_of_bits_of(m.idcode as u64, 32);
    }
}

/// The bypass bit after `k` clocks of a scan.
proof fn lemma_bypass_shift(m: TapModel, tdi: Seq<bool>, k: int)
    requires
        m.valid(),
        m.state == SDR,
        m.ir == IR_BYPASS || m.ir == IR_EXTEST,
        m.dr_shift == cleared(32),
        0 <= k <= tdi.len(),
    ensures
        clocked(m, scan(tdi).take(k)) == (TapModel {
            state: if 0 < k && k == tdi.len() { E1DR } else { SDR },
            last_tck: k > 0 || m.last_tck,
            dr_shift: if k > 0 { single_bit(tdi[k - 1]) } else { m.dr_shift },
            tdo: if k > 1 { tdi[k - 2] } else if k == 1 { false } else { m.tdo },
            ..m
        }),
    decreases k,
{
    if k > 0 {
        lemma_bypass_shift(m, tdi, k - 1);
        lemma_scan_prefix(m, tdi, k);
    }
}

/// A data scan under BYPASS or EXTEST passes TDI through one bit that was
/// captured as zero.
pub proof fn law_bypass_delays_one(m: TapModel, route: Route, tdi: Seq<bool>)
    requires
        m.valid(),
        ready(m, route),
        m.ir == IR_BYPASS || m.ir == IR_EXTEST,
    ensures
        trace(clocked(m, to_shift_dr(route)), scan(tdi)) == (seq![false] + tdi).take(tdi.len() as int),
{
    law_enter_shift_dr(m, route);
    let entered = clocked(m, to_shift_dr(route));
    let out = trace(entered, scan(tdi));
    assert forall|i: int| 0 <= i < tdi.len() implies #[trigger] out[i] == (seq![false] + tdi)[i] by {
        lemma_bypass_shift(entered, tdi, i + 1);
    }
    assert(out =~= (seq![false] + tdi).take(tdi.len() as int));
}

/// The CONFIG bits after `k` clocks of a scan.
proof fn lemma_config_shift(m: TapModel, tdi: Seq<bool>, k: int)
    requires
        m.valid(),
        m.state == SDR,
        m.ir == IR_CONFIG,
        0 <= k <= tdi.len(),
    ensures
        clocked(m, scan(tdi).take(k)) == (TapModel {
            state: if 0 < k && k == tdi.len() { E1DR } else { SDR },
            last_tck: k > 0 || m.last_tck,
            config_bits: m.config_bits + tdi.take(k),
            tdo: if k > 0 { tdi[k - 1] } else { m.tdo },
            ..m
        }),
    decreases k,
{
    if k == 0 {
        assert(m.config_bits + tdi.take(0) =~= m.config_bits);
    } else {
        lemma_config_shift(m, tdi, k - 1);
        lemma_scan_prefix(m, tdi, k);
        assert((m.config_bits + tdi.take(k - 1)).push(tdi[k - 1]) =~= m.config_bits + tdi.take(k));
    }
}

/// One burst of a scan under CONFIG adds its bits, in order, to those that
/// came before, reads back what it wrote, and changes nothing else.
pub proof fn law_config_burst(m: TapModel, tdi: Seq<bool>)
    requires
        m.valid(),
        m.state == SDR,
        m.ir == IR_CONFIG,
        tdi.len() > 0,
    ensures
        clocked(m, scan(tdi)) == (TapModel {
            state: E1DR,
            last_tck: true,
            config_bits: m.config_bits + tdi,
            tdo: tdi.last(),
            ..m
        }),
        trace(m, scan(tdi)) == tdi,
{
    let n = tdi.len() as int;
    lemma_config_shift(m, tdi, n);
    assert(scan(tdi).take(n) =~= scan(tdi));
    assert(tdi.take(n) =~= tdi);
    assert forall|i: int| 0 <= i < n implies #[trigger] trace(m, scan(tdi))[i] == tdi[i] by {
        lemma_config_shift(m, tdi, i + 1);
    }
    assert(trace(m, scan(tdi)) =~= tdi);
}

/// A data scan under CONFIG latches exactly the bits that were shifted in, in
/// shift order, and replaces what was latched before.
pub proof fn law_config_captured(m: TapModel, route: Route, payload: Seq<bool>)
    requires
        m.valid(),
        ready(m, route),
        m.ir == IR_CONFIG,
        payload.len() > 0,
    ensures
        clocked(m, dr_scan(route, payload)) == (TapModel {
            state: if route.idle { RTI } else { UDR },
            last_tck: true,
            config_bits: Seq::empty(),
            last_config: Some(payload),
            tdo: payload.last(),
            ..m
        }),
{
    law_enter_shift_dr(m, route);
    let entered = clocked(m, to_shift_dr(route));
    law_config_burst(entered, payload);
    let left = clocked(entered, scan(payload));
    assert(left.config_bits =~= payload);
    law_leave_scan(left, route);
    law_clocked_concat(m, to_shift_dr(route), scan(payload));
    law_clocked_concat(m, to_shift_dr(route) + scan(payload), leave(route));
}

/// Pulses that go through Capture-DR to Exit1-DR without a shift.
pub open spec fn past_shift_dr(route: Route) -> Seq<Pulse> {
    if route.direct {
        walk(seq![true, false, true])
    } else {
        walk(seq![false, true, false, true])
    }
}

/// A data scan under CONFIG that shifts nothing latches an empty bitstream.
pub proof fn law_config_empty(m: TapModel, route: Route)
    requires
        ready(m, route),
        m.ir == IR_CONFIG,
    ensures
        clocked(m, past_shift_dr(route) + leave(route)) == (TapModel {
            state: if route.idle { RTI } else { UDR },
            last_tck: true,
            config_bits: Seq::empty(),
            last_config: Some(Seq::empty()),
            ..m
        }),
{
    if route.direct {
        lemma_walk_3(m, true, false, true);
    } else {
        lemma_walk_4(m, false, true, false, true);
    }
    lemma_selected(m, route);
    let m3 = edge(selected(m, route), false);
    let m4 = edge(m3, true);
    assert(m3 == (TapModel { state: CDR, last_tck: true, ..m.capture_dr() }));
    assert(m4 == (TapModel { state: E1DR, last_tck: true, ..m.capture_dr() }));
    law_leave_scan(m4, route);
    law_clocked_concat(m, past_shift_dr(route), leave(route));
}

/// The level on TDO after `k` clocks of a scan that mirrors TDI.
proof fn lemma_mirror_shift(m: TapModel, tdi: Seq<bool>, k: int)
    requires
        m.state == SDR,
        m.ir != IR_IDCODE && m.ir != IR_BYPASS && m.ir != IR_EXTEST,
        0 <= k <= tdi.len(),
    ensures
        ({
            let after = clocked(m, scan(tdi).take(k));
            &&& after.ir == m.ir
            &&& after.state == if 0 < k && k == tdi.len() { E1DR } else { SDR }
            &&& k > 0 ==> after.tdo == tdi[k - 1]
        }),
    decreases k,
{
    if k > 0 {
        lemma_mirror_shift(m, tdi, k - 1);
        lemma_scan_prefix(m, tdi, k);
    }
}

/// Under every instruction but IDCODE, BYPASS and EXTEST a data scan reads
/// back the bits that it shifts in.
pub proof fn law_other_scans_mirror(m: TapModel, route: Route, tdi: Seq<bool>)
    requires
        m.valid(),
        ready(m, route),
        m.ir != IR_IDCODE && m.ir != IR_BYPASS && m.ir != IR_EXTEST,
    ensures
        trace(clocked(m, to_shift_dr(route)), scan(tdi)) == tdi,
{
    law_enter_shift_dr(m, route);
    let entered = clocked(m, to_shift_dr(route));
    let out = trace(entered, scan(tdi));
    assert forall|i: int| 0 <= i < tdi.len() implies #[trigger] out[i] == tdi[i] by {
        lemma_mirror_shift(entered, tdi, i + 1);
    }
    assert(out =~= tdi);
}

/// Pulses that go from Exit1 to Pause, wait there for `clocks` further clocks
/// and return to Shift.
pub open spec fn pause(clocks: nat) -> Seq<Pulse> {
    Seq::new(clocks + 3, |i: int| Pulse { tms: i == clocks + 1, tdi: false })
}

proof fn lemma_pausing(m: TapModel, clocks: nat, k: int)
    requires
        m.state == E1DR || m.state == E1IR,
        1 <= k <= clocks + 1,
    ensures
        clocked(m, pause(clocks).take(k)) == (TapModel {
            state: if m.state == E1DR { PDR } else { PIR },
            last_tck: true,
            ..m
        }),
    decreases k,
{
    let p = Pulse { tms: false, tdi: false };
    assert(pause(clocks).take(k).drop_last() =~= pause(clocks).take(k - 1));
    law_pulse_is_one_edge(clocked(m, pause(clocks).take(k - 1)), p);
    if k > 1 {
        lemma_pausing(m, clocks, k - 1);
    }
}

/// A scan of either register may pause: the registers keep their bits however
/// long it does.
pub proof fn law_pause_keeps(m: TapModel, clocks: nat)
    requires
        m.state == E1DR || m.state == E1IR,
    ensures
        clocked(m, pause(clocks)) == (TapModel {
            state: if m.state == E1DR { SDR } else { SIR },
            last_tck: true,
            ..m
        }),
{
    let n = clocks as int;
    let held = clocked(m, pause(clocks).take(n + 1));
    let low = Pulse { tms: false, tdi: false };
    let high = Pulse { tms: true, tdi: false };
    lemma_pausing(m, clocks, n + 1);
    assert(pause(clocks).take(n + 2).drop_last() =~= pause(clocks).take(n + 1));
    assert(pause(clocks).drop_last() =~= pause(clocks).take(n + 2));
    law_pulse_is_one_edge(held, high);
    law_pulse_is_one_edge(pulse(held, high), low);
    assert(clocked(m, pause(clocks).take(n + 2)) == pulse(held, high));
}

/// A scan that will go on after `x` and one that ends with it do the same to
/// all but the state.
proof fn lemma_scan_extended(m: TapModel, x: Seq<bool>, y: Seq<bool>, k: int)
    requires
        m.state == SDR || m.state == SIR,
        y.len() > 0,
        0 <= k <= x.len(),
    ensures
        ({
            let longer = clocked(m, scan(x + y).take(k));
            &&& longer.state == m.state
            &&& clocked(m, scan(x).take(k)) == (TapModel {
                state: if 0 < k && k == x.len() {
                    if m.state == SDR { E1DR } else { E1IR }
                } else {
                    m.state
                },
                ..longer
            })
        }),
    decreases k,
{
    if k > 0 {
        lemma_scan_extended(m, x, y, k - 1);
        lemma_scan_prefix(m, x, k);
        lemma_scan_prefix(m, x + y, k);
        assert((x + y)[k - 1] == x[k - 1]);
    }
}

/// A scan of either register that pauses between `x` and `y` does what one scan
/// of both does, and reads the same.
pub proof fn law_pause_joins(m: TapModel, x: Seq<bool>, clocks: nat, y: Seq<bool>)
    requires
        m.state == SDR || m.state == SIR,
        x.len() > 0,
        y.len() > 0,
    ensures
        clocked(m, scan(x) + pause(clocks) + scan(y)) == clocked(m, scan(x + y)),
        trace(m, scan(x)) + trace(clocked(m, scan(x) + pause(clocks)), scan(y)) == trace(
            m,
            scan(x + y),
        ),
{
    let n = x.len() as int;
    let joint = scan(x + y);
    let resumed = clocked(m, scan(x) + pause(clocks));
    lemma_scan_extended(m, x, y, n);
    lemma_scan_prefix(m, x + y, n);
    assert(scan(x).take(n) =~= scan(x));
    law_clocked_concat(m, scan(x), pause(clocks));
    law_pause_keeps(clocked(m, scan(x)), clocks);
    assert(resumed == clocked(m, joint.take(n)));
    law_clocked_concat(m, scan(x) + pause(clocks), scan(y));
    law_clocked_concat(m, joint.take(n), scan(y));
    assert(joint.take(n) + scan(y) =~= joint);
    let parts = trace(m, scan(x)) + trace(resumed, scan(y));
    assert forall|i: int| 0 <= i < joint.len() implies #[trigger] parts[i] == trace(m, joint)[i] by {
        if i < n {
            lemma_scan_extended(m, x, y, i + 1);
        } else {
            law_clocked_concat(m, joint.take(n), scan(y).take(i - n + 1));
            assert(joint.take(n) + scan(y).take(i - n + 1) =~= joint.take(i + 1));
        }
    }
    assert(parts =~= trace(m, joint));
}

/// Waiting in Pause, with TMS low and anything on TDI.
proof fn lemma_waiting(m: TapModel, waits: Seq<Pulse>)
    requires
        m.state == E1DR || m.state == E1IR,
        waits.len() > 0,
        forall|i: int| 0 <= i < waits.len() ==> !(#[trigger] waits[i]).tms,
    ensures
        clocked(m, waits) == (TapModel {
            state: if m.state == E1DR { PDR } else { PIR },
            last_tck: true,
            ..m
        }),
    decreases waits.len(),
{
    let before = waits.drop_last();
    assert forall|i: int| 0 <= i < before.len() implies !(#[trigger] before[i]).tms by {
        assert(before[i] == waits[i]);
    }
    assert(!waits[waits.len() - 1].tms);
    law_pulse_is_one_edge(clocked(m, before), waits.last());
    if before.len() > 0 {
        lemma_waiting(m, before);
    }
}

/// A scan that waits in Pause after its last bit may go to Update from there,
/// through Exit2. An instruction scan of four bits then puts the opcode in force
/// that they spell, and a data scan under CONFIG latches the bits gathered
/// before it and its own.
pub proof fn law_update_from_pause(
    m: TapModel,
    tdi: Seq<bool>,
    waits: Seq<Pulse>,
    exit: Pulse,
    update: Pulse,
)
    requires
        m.valid(),
        waits.len() > 0,
        forall|i: int| 0 <= i < waits.len() ==> !(#[trigger] waits[i]).tms,
        exit.tms,
        update.tms,
    ensures
        ({
            let after = clocked(m, scan(tdi) + waits + seq![exit, update]);
            &&& m.state == SIR && tdi.len() == 4 ==> {
                &&& after.state == UIR
                &&& after.ir == (if tdi[0] { 1int } else { 0 }) + (if tdi[1] { 2int } else { 0 }) + (
                if tdi[2] { 4int } else { 0 }) + (if tdi[3] { 8int } else { 0 })
            }
            &&& m.state == SDR && m.ir == 2 && tdi.len() > 0 ==> {
                &&& after.state == UDR
                &&& after.last_config == Some(m.config_bits + tdi)
            }
        }),
{
    let last = seq![exit, update];
    let left = clocked(m, scan(tdi));
    law_clocked_concat(m, scan(tdi), waits);
    law_clocked_concat(m, scan(tdi) + waits, last);
    let held = clocked(m, scan(tdi) + waits);
    assert(last.drop_last() =~= seq![exit]);
    assert(seq![exit].drop_last() =~= Seq::<Pulse>::empty());
    assert(clocked(held, seq![exit]) == pulse(held, exit)) by {
        reveal_with_fuel(clocked, 2);
    }
    law_pulse_is_one_edge(held, exit);
    law_pulse_is_one_edge(pulse(held, exit), update);
    if m.state == SIR && tdi.len() == 4 {
        law_ir_exchanged(m, tdi);
        lemma_waiting(left, waits);
        assert(held.ir_shift == tdi);
        reveal_with_fuel(value_of, 5);
        assert(tdi.drop_first()[0] == tdi[1]);
        assert(tdi.drop_first().drop_first()[0] == tdi[2]);
        assert(tdi.drop_first().drop_first().drop_first()[0] == tdi[3]);
    }
    if m.state == SDR && m.ir == 2 && tdi.len() > 0 {
        law_config_burst(m, tdi);
        lemma_waiting(left, waits);
    }
}

/// The instruction register after `k` clocks of a scan.
proof fn lemma_ir_shift(m: TapModel, tdi: Seq<bool>, k: int)
    requires
        m.valid(),
        m.state == SIR,
        0 <= k <= tdi.len(),
    ensures
        clocked(m, scan(tdi).take(k)) == (TapModel {
            state: if 0 < k && k == tdi.len() { E1IR } else { SIR },
            last_tck: k > 0 || m.last_tck,
            ir_shift: (m.ir_shift + tdi).subrange(k, k + 4),
            tdo: if k > 0 { (m.ir_shift + tdi)[k - 1] } else { m.tdo },
            ..m
        }),
    decreases k,
{
    let line = m.ir_shift + tdi;
    if k == 0 {
        assert(line.subrange(0, 4) =~= m.ir_shift);
    } else {
        lemma_ir_shift(m, tdi, k - 1);
        lemma_scan_prefix(m, tdi, k);
        assert(shifted(line.subrange(k - 1, k + 3), tdi[k - 1]) =~= line.subrange(k, k + 4));
    }
}

/// Four bits shifted into the instruction register replace the word in it,
/// which comes out bit by bit; nothing but the register and TDO changes.
pub proof fn law_four_ir_shifts(m: TapModel, d0: bool, d1: bool, d2: bool, d3: bool)
    requires
        m.ir_shift.len() == IR_WIDTH,
    ensures
        ({
            let m1 = m.shift_ir(d0);
            let m2 = m1.shift_ir(d1);
            let m3 = m2.shift_ir(d2);
            let m4 = m3.shift_ir(d3);
            &&& m1.tdo == m.ir_shift[0]
            &&& m2.tdo == m.ir_shift[1]
            &&& m3.tdo == m.ir_shift[2]
            &&& m4 == (TapModel { ir_shift: seq![d0, d1, d2, d3], tdo: m.ir_shift[3], ..m })
            &&& value_of(m4.ir_shift) == (if d0 { 1int } else { 0 }) + (if d1 { 2int } else { 0 }) + (
            if d2 { 4int } else { 0 }) + (if d3 { 8int } else { 0 })
        }),
{
    let m1 = m.shift_ir(d0);
    let m2 = m1.shift_ir(d1);
    let m3 = m2.shift_ir(d2);
    let m4 = m3.shift_ir(d3);
    assert(m4.ir_shift =~= seq![d0, d1, d2, d3]);
    reveal_with_fuel(value_of, 5);
}

/// From any Shift-IR state a scan of four bits loads these bits and hands out
/// the ones that were there. The instruction in force stays.
pub proof fn law_ir_exchanged(m: TapModel, tdi: Seq<bool>)
    requires
        m.valid(),
        m.state == SIR,
        tdi.len() == IR_WIDTH,
    ensures
        clocked(m, scan(tdi)) == (TapModel {
            state: E1IR,
            last_tck: true,
            ir_shift: tdi,
            tdo: m.ir_shift[3],
            ..m
        }),
        trace(m, scan(tdi)) == m.ir_shift,
{
    lemma_ir_shift(m, tdi, 4);
    assert(scan(tdi).take(4) =~= scan(tdi));
    assert((m.ir_shift + tdi).subrange(4, 8) =~= tdi);
    assert forall|i: int| 0 <= i < 4 implies #[trigger] trace(m, scan(tdi))[i] == m.ir_shift[i] by {
        lemma_ir_shift(m, tdi, i + 1);
    }
    assert(trace(m, scan(tdi)) =~= m.ir_shift);
}

/// An instruction scan reads the captured pattern, least significant bit
/// first, and then the bits that were shifted in, four clocks late. It puts
/// the opcode in force that the last four bits of all these spell.
pub proof fn law_ir_loaded(m: TapModel, route: Route, tdi: Seq<bool>)
    requires
        m.valid(),
        ready(m, route),
        tdi.len() > 0,
    ensures
        ({
            let n = tdi.len() as int;
            let line = captured_ir() + tdi;
            &&& trace(clocked(m, to_shift_ir(route)), scan(tdi)) == line.take(n)
            &&& clocked(m, ir_scan(route, tdi)) == (TapModel {
                state: if route.idle { RTI } else { UIR },
                last_tck: true,
                ir: value_of(line.skip(n)) as u32,
                ir_shift: line.skip(n),
                tdo: line[n - 1],
                ..m
            })
            &&& n == 4 ==> line.skip(n) == tdi
        }),
{
    let n = tdi.len() as int;
    let line = captured_ir() + tdi;
    law_enter_shift_ir(m, route);
    let entered = clocked(m, to_shift_ir(route));
    lemma_ir_shift(entered, tdi, n);
    assert(scan(tdi).take(n) =~= scan(tdi));
    assert(line.subrange(n, n + 4) =~= line.skip(n));
    law_leave_scan(clocked(entered, scan(tdi)), route);
    law_clocked_concat(m, to_shift_ir(route), scan(tdi));
    law_clocked_concat(m, to_shift_ir(route) + scan(tdi), leave(route));
    let out = trace(entered, scan(tdi));
    assert forall|i: int| 0 <= i < n implies #[trigger] out[i] == line[i] by {
        lemma_ir_shift(entered, tdi, i + 1);
    }
    assert(out =~= line.take(n));
    if n == 4 {
        assert(line.skip(n) =~= tdi);
    }
}

/// Any of the sixteen opcodes can be selected by an instruction scan of its
/// four bits.
pub proof fn law_opcode_selected(m: TapModel, route: Route, opcode: u32)
    requires
        m.valid(),
        ready(m, route),
        opcode < 16,
    ensures
        ({
            let after = clocked(m, ir_scan(route, bits_of(opcode as u64, 4)));
            &&& after.ir == opcode
            &&& after.state == if route.idle { RTI } else { UIR }
        }),
{
    law_ir_loaded(m, route, bits_of(opcode as u64, 4));
    lemma2_to64();
    lemma_value_of_bits_of(opcode as u64, 4);
}

/// The pulses that hand a bitstream to the device: a scan that selects CONFIG
/// and one that shifts the bits.
pub open spec fn upload(select: Route, load: Route, payload: Seq<bool>) -> Seq<Pulse> {
    ir_scan(select, bits_of(IR_CONFIG as u64, 4)) + dr_scan(load, payload)
}

/// Selecting CONFIG and scanning a bitstream latches that bitstream, whatever
/// instruction was in force before.
pub proof fn law_upload_latches(m: TapModel, select: Route, load: Route, payload: Seq<bool>)
    requires
        m.valid(),
        ready(m, select),
        payload.len() > 0,
    ensures
        ({
            let after = clocked(m, upload(select, load, payload));
            &&& after.last_config == Some(payload)
            &&& after.ir == IR_CONFIG
            &&& after.state == if load.idle { RTI } else { UDR }
        }),
{
    let chosen = ir_scan(select, bits_of(IR_CONFIG as u64, 4));
    law_opcode_selected(m, select, IR_CONFIG);
    law_valid_clocked(m, chosen);
    law_config_captured(clocked(m, chosen), load, payload);
    law_clocked_concat(m, chosen, dr_scan(load, payload));
}

} // verus!
