use aegis_harness::bits::pack_bits_lsb_first;
use aegis_harness::jtag::{Tap, IR_BYPASS, IR_CONFIG, IR_IDCODE};
use aegis_harness::states::{RTI, SDR, SIR, TLR};

/// Drive TMS bit-by-bit on rising clocks. Each entry is a TMS value; TDI=0.
fn tms_seq(tap: &mut Tap, tms_bits: &[u8]) {
    for &t in tms_bits {
        let tms: bool = t != 0;
        tap.step((tms as u8) << 1);
        tap.step(0b100 | (tms as u8) << 1);
    }
}

/// Shift `bits` of TDI through SDR or SIR. Returns TDO bits in order
/// captured (one per shift cycle).
fn shift(tap: &mut Tap, tdi_bits: &[bool]) -> Vec<bool> {
    let mut out: Vec<bool> = Vec::with_capacity(tdi_bits.len());
    for (i, &b) in tdi_bits.iter().enumerate() {
        let last: bool = i + 1 == tdi_bits.len();
        let tms: u8 = (last as u8) << 1;
        let tdi: u8 = b as u8;
        tap.step(tms | tdi);
        tap.step(0b100 | tms | tdi);
        out.push(tap.tdo());
    }
    out
}

/// Walk from Test-Logic-Reset to Shift-DR.
fn enter_shift_dr(tap: &mut Tap) {
    tms_seq(tap, &[0, 1, 0, 0]);
    assert_eq!(tap.state(), SDR);
}

/// Walk from Test-Logic-Reset to Shift-IR.
fn enter_shift_ir(tap: &mut Tap) {
    tms_seq(tap, &[0, 1, 1, 0, 0]);
    assert_eq!(tap.state(), SIR);
}

/// Walk from Exit1-DR/IR back to Run-Test-Idle via Update.
fn exit_to_rti(tap: &mut Tap) {
    tms_seq(tap, &[1, 0]);
    assert_eq!(tap.state(), RTI);
}

#[test]
fn idcode_shifts_out_lsb_first() {
    let mut tap = Tap::new(0xdead_beef);
    enter_shift_dr(&mut tap);
    let tdo = shift(&mut tap, &[false; 32]);
    let mut got: u32 = 0;
    for (i, b) in tdo.iter().enumerate() {
        if *b {
            got |= 1 << i;
        }
    }
    assert_eq!(got, 0xdead_beef);
}

#[test]
fn config_shift_captures_bitstream() {
    let mut tap = Tap::new(1);
    enter_shift_ir(&mut tap);
    // 0b0010 LSB-first selects IR_CONFIG.
    let _ = shift(&mut tap, &[false, true, false, false]);
    exit_to_rti(&mut tap);
    assert_eq!(tap.ir(), IR_CONFIG);

    enter_shift_dr(&mut tap);
    let payload: Vec<bool> = (0..17).map(|i| i % 3 == 0).collect();
    let _ = shift(&mut tap, &payload);
    exit_to_rti(&mut tap);

    let captured = tap
        .take_last_config()
        .expect("Update-DR should have latched CONFIG");
    assert_eq!(captured, payload);
}

#[test]
fn pack_bits_packs_lsb_first() {
    let bits = [false, false, true, false, true, true, false, true];
    assert_eq!(pack_bits_lsb_first(&bits), vec![0xb4]);
}

#[test]
fn pack_bits_pads_partial_byte() {
    let bits = [true, false, true, true, false];
    assert_eq!(pack_bits_lsb_first(&bits), vec![0b0000_1101]);
}

#[test]
fn trst_resets_tap_and_ir() {
    let mut tap = Tap::new(7);
    enter_shift_ir(&mut tap);
    let _ = shift(&mut tap, &[true, true, true, true]);
    exit_to_rti(&mut tap);
    assert_eq!(tap.ir(), IR_BYPASS);
    tap.trst();
    assert_eq!(tap.state(), TLR);
    assert_eq!(tap.ir(), IR_IDCODE);
}
