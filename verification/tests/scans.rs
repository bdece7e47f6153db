use aegis_harness::bits::pack_bits_lsb_first;
use aegis_harness::jtag::{Tap, IR_BYPASS, IR_CONFIG, IR_EXTEST, IR_IDCODE, IR_USER, IR_WIDTH};
use aegis_harness::states::{
    next_state, CDR, CIR, E1DR, E1IR, E2DR, E2IR, PDR, PIR, RTI, SDR, SDR_S, SIR, SIR_S, TLR, UDR,
    UIR,
};

fn pulse(tap: &mut Tap, tms: bool, tdi: bool) -> bool {
    let pins: u8 = ((tms as u8) << 1) | tdi as u8;
    tap.step(pins);
    tap.step(0b100 | pins);
    tap.tdo()
}

fn walk(tap: &mut Tap, tms: &[bool]) {
    for &level in tms {
        pulse(tap, level, false);
    }
}

fn scan(tap: &mut Tap, tdi: &[bool]) -> Vec<bool> {
    let mut out: Vec<bool> = Vec::new();
    for i in 0..tdi.len() {
        out.push(pulse(tap, i + 1 == tdi.len(), tdi[i]));
    }
    out
}

fn select(tap: &mut Tap, opcode: u32) -> Vec<bool> {
    walk(tap, &[false, true, true, false, false]);
    let bits: Vec<bool> = (0..4).map(|i| (opcode >> i) & 1 == 1).collect();
    let out = scan(tap, &bits);
    walk(tap, &[true, false]);
    out
}

fn to_shift_dr(tap: &mut Tap) {
    walk(tap, &[false, true, false, false]);
    assert_eq!(tap.state(), SDR);
}

#[test]
fn every_move_of_the_controller() {
    let table: [(u8, u8, u8); 16] = [
        (TLR, RTI, TLR),
        (RTI, RTI, SDR_S),
        (SDR_S, CDR, SIR_S),
        (CDR, SDR, E1DR),
        (SDR, SDR, E1DR),
        (E1DR, PDR, UDR),
        (PDR, PDR, E2DR),
        (E2DR, SDR, UDR),
        (UDR, RTI, SDR_S),
        (SIR_S, CIR, TLR),
        (CIR, SIR, E1IR),
        (SIR, SIR, E1IR),
        (E1IR, PIR, UIR),
        (PIR, PIR, E2IR),
        (E2IR, SIR, UIR),
        (UIR, RTI, SDR_S),
    ];
    for (state, low, high) in table {
        assert_eq!(next_state(state, false), low);
        assert_eq!(next_state(state, true), high);
    }
}

#[test]
fn unknown_states_lead_to_reset() {
    for state in 16..=255u8 {
        assert_eq!(next_state(state, false), TLR);
        assert_eq!(next_state(state, true), TLR);
    }
}

#[test]
fn five_high_clocks_reset_from_anywhere() {
    for start in 0..=255u8 {
        let mut state: u8 = start;
        for _ in 0..5 {
            state = next_state(state, true);
        }
        assert_eq!(state, TLR);
    }
}

#[test]
fn columns_move_alike() {
    for state in CDR..=E2DR {
        assert_eq!(next_state(state + 7, false), next_state(state, false) + 7);
        assert_eq!(next_state(state + 7, true), next_state(state, true) + 7);
    }
    assert_eq!(next_state(UIR, false), next_state(UDR, false));
    assert_eq!(next_state(UIR, true), next_state(UDR, true));
}

#[test]
fn power_up_selects_idcode() {
    let mut tap = Tap::new(9);
    assert_eq!(tap.state(), TLR);
    assert_eq!(tap.ir(), IR_IDCODE);
    assert!(!tap.tdo());
    assert_eq!(tap.take_last_config(), None);
}

#[test]
fn idcode_is_followed_by_what_was_shifted_in() {
    let mut tap = Tap::new(0x8000_0001);
    to_shift_dr(&mut tap);
    let mut tdi: Vec<bool> = vec![false; 36];
    tdi[0] = true;
    tdi[3] = true;
    let out = scan(&mut tap, &tdi);
    for i in 0..32 {
        assert_eq!(out[i], i == 0 || i == 31);
    }
    assert_eq!(out[32..].to_vec(), vec![true, false, false, true]);
}

#[test]
fn bypass_and_extest_delay_one_bit() {
    for opcode in [IR_BYPASS, IR_EXTEST] {
        let mut tap = Tap::new(0xffff_ffff);
        select(&mut tap, opcode);
        assert_eq!(tap.ir(), opcode);
        to_shift_dr(&mut tap);
        let out = scan(&mut tap, &[true, true, false, true, false]);
        assert_eq!(out, vec![false, true, true, false, true]);
    }
}

#[test]
fn other_instructions_mirror() {
    for opcode in [IR_CONFIG, IR_USER, 4, 9, 14] {
        let mut tap = Tap::new(0xffff_ffff);
        select(&mut tap, opcode);
        to_shift_dr(&mut tap);
        let tdi = [true, false, false, true, true];
        assert_eq!(scan(&mut tap, &tdi), tdi.to_vec());
    }
}

#[test]
fn every_opcode_can_be_selected() {
    for opcode in 0..16u32 {
        let mut tap = Tap::new(1);
        let captured = select(&mut tap, opcode);
        assert_eq!(captured, vec![true, false, false, false]);
        assert_eq!(tap.ir(), opcode);
        assert_eq!(tap.state(), RTI);
    }
    assert_eq!(IR_WIDTH, 4);
}

#[test]
fn long_and_short_instruction_scans() {
    let mut tap = Tap::new(1);
    walk(&mut tap, &[false, true, true, false, false]);
    let out = scan(&mut tap, &[true, true, false, true, false, false]);
    assert_eq!(out, vec![true, false, false, false, true, true]);
    walk(&mut tap, &[true, false]);
    // The last four of 1000 110100 are 0100, which spell two.
    assert_eq!(tap.ir(), IR_CONFIG);

    // One bit moves the captured 1000 to 0001, which spells eight.
    walk(&mut tap, &[false, true, true, false, false]);
    scan(&mut tap, &[true]);
    walk(&mut tap, &[true, false]);
    assert_eq!(tap.ir(), 8);
}

#[test]
fn config_survives_a_pause() {
    let mut tap = Tap::new(1);
    select(&mut tap, IR_CONFIG);
    to_shift_dr(&mut tap);
    scan(&mut tap, &[true, false, true]);
    assert_eq!(tap.state(), E1DR);
    walk(&mut tap, &[false, false, false, true, false]);
    assert_eq!(tap.state(), SDR);
    scan(&mut tap, &[true, true]);
    walk(&mut tap, &[true, false]);
    assert_eq!(
        tap.take_last_config(),
        Some(vec![true, false, true, true, true])
    );
}

#[test]
fn config_without_shift_latches_nothing_but_a_stream() {
    let mut tap = Tap::new(1);
    select(&mut tap, IR_CONFIG);
    walk(&mut tap, &[false, true, false, true]);
    assert_eq!(tap.state(), E1DR);
    walk(&mut tap, &[true, false]);
    assert_eq!(tap.take_last_config(), Some(Vec::new()));
}

#[test]
fn config_is_taken_once_and_replaced() {
    let mut tap = Tap::new(1);
    select(&mut tap, IR_CONFIG);
    for payload in [vec![true, true], vec![false, true, false]] {
        to_shift_dr(&mut tap);
        scan(&mut tap, &payload);
        walk(&mut tap, &[true, false]);
    }
    assert_eq!(tap.take_last_config(), Some(vec![false, true, false]));
    assert_eq!(tap.take_last_config(), None);
}

#[test]
fn other_instructions_latch_no_stream() {
    let mut tap = Tap::new(1);
    to_shift_dr(&mut tap);
    scan(&mut tap, &[true, true]);
    walk(&mut tap, &[true, false]);
    assert_eq!(tap.take_last_config(), None);
}

#[test]
fn trst_keeps_a_latched_stream_and_drops_a_partial_one() {
    let mut tap = Tap::new(1);
    select(&mut tap, IR_CONFIG);
    to_shift_dr(&mut tap);
    scan(&mut tap, &[true]);
    walk(&mut tap, &[true, false]);
    to_shift_dr(&mut tap);
    scan(&mut tap, &[false, false]);
    tap.trst();
    assert!(!tap.tdo());
    assert_eq!(tap.take_last_config(), Some(vec![true]));
    select(&mut tap, IR_CONFIG);
    walk(&mut tap, &[false, true, false, true, true, false]);
    assert_eq!(tap.take_last_config(), Some(Vec::new()));
}

#[test]
fn five_high_pulses_reset_the_tap() {
    let mut tap = Tap::new(0x1234_5678);
    select(&mut tap, IR_BYPASS);
    to_shift_dr(&mut tap);
    for _ in 0..5 {
        pulse(&mut tap, true, true);
    }
    assert_eq!(tap.state(), TLR);
    assert_eq!(tap.ir(), IR_IDCODE);
}

#[test]
fn high_pulses_clear_tdo_and_what_was_gathered() {
    let mut tap = Tap::new(1);
    select(&mut tap, IR_CONFIG);
    to_shift_dr(&mut tap);
    pulse(&mut tap, false, true);
    assert!(pulse(&mut tap, false, true));
    for _ in 0..5 {
        pulse(&mut tap, true, true);
    }
    assert!(!tap.tdo());
    // The first of the five still shifts a bit, the second updates.
    assert_eq!(tap.take_last_config(), Some(vec![true, true, true]));
    select(&mut tap, IR_CONFIG);
    walk(&mut tap, &[false, true, false, true, true, false]);
    assert_eq!(tap.take_last_config(), Some(Vec::new()));
}

#[test]
fn scans_can_follow_each_other_from_update() {
    let mut tap = Tap::new(0x8000_0003);
    to_shift_dr(&mut tap);
    scan(&mut tap, &[true; 4]);
    walk(&mut tap, &[true]);
    assert_eq!(tap.state(), UDR);

    // IDCODE again, straight from Update-DR.
    walk(&mut tap, &[true, false, false]);
    assert_eq!(tap.state(), SDR);
    let out = scan(&mut tap, &[false; 32]);
    for i in 0..32 {
        assert_eq!(out[i], i < 2 || i == 31);
    }
    walk(&mut tap, &[true]);

    // An instruction scan from Update-DR.
    walk(&mut tap, &[true, true, false, false]);
    assert_eq!(tap.state(), SIR);
    assert_eq!(
        scan(&mut tap, &[true, true, true, true]),
        vec![true, false, false, false]
    );
    walk(&mut tap, &[true]);
    assert_eq!(tap.state(), UIR);
    assert_eq!(tap.ir(), IR_BYPASS);

    // A data scan from Update-IR.
    walk(&mut tap, &[true, false, false]);
    assert_eq!(scan(&mut tap, &[true, false, true]), vec![false, true, false]);
    walk(&mut tap, &[true]);

    // CONFIG, selected from Update-DR and loaded from Update-IR.
    walk(&mut tap, &[true, true, false, false]);
    scan(&mut tap, &[false, true, false, false]);
    walk(&mut tap, &[true, true, false, false]);
    scan(&mut tap, &[true, true, false]);
    walk(&mut tap, &[true]);
    assert_eq!(tap.state(), UDR);
    assert_eq!(tap.take_last_config(), Some(vec![true, true, false]));
}

#[test]
fn paused_scan_is_one_scan() {
    for opcode in [IR_IDCODE, IR_BYPASS, IR_CONFIG, IR_USER] {
        let tdi: Vec<bool> = (0..40).map(|i| i % 3 == 1).collect();
        let mut whole = Tap::new(0xdead_beef);
        select(&mut whole, opcode);
        to_shift_dr(&mut whole);
        let expected = scan(&mut whole, &tdi);
        walk(&mut whole, &[true]);

        let mut paused = Tap::new(0xdead_beef);
        select(&mut paused, opcode);
        to_shift_dr(&mut paused);
        let mut out = scan(&mut paused, &tdi[..13]);
        walk(&mut paused, &[false, false, true, false]);
        out.extend(scan(&mut paused, &tdi[13..]));
        walk(&mut paused, &[true]);
        assert_eq!(out, expected);
        assert_eq!(paused.take_last_config(), whole.take_last_config());
    }
}

#[test]
fn four_clocks_exchange_the_instruction_word() {
    let mut tap = Tap::new(1);
    select(&mut tap, IR_USER);
    walk(&mut tap, &[false, true, true, false, false]);
    let words = [
        [true, true, false, true],
        [false, true, true, false],
        [true, false, true, true],
    ];
    let mut before = vec![true, false, false, false];
    for word in words {
        let out: Vec<bool> = word.iter().map(|&tdi| pulse(&mut tap, false, tdi)).collect();
        assert_eq!(out, before);
        assert_eq!(tap.ir(), IR_USER);
        before = word.to_vec();
    }
    assert_eq!(scan(&mut tap, &[false; 4]), before);
}

#[test]
fn only_rising_edges_count() {
    let mut tap = Tap::new(1);
    tap.step(0b000);
    tap.step(0b000);
    assert_eq!(tap.state(), TLR);
    tap.step(0b100);
    assert_eq!(tap.state(), RTI);
    tap.step(0b110);
    tap.step(0b111);
    assert_eq!(tap.state(), RTI);
    tap.step(0b010);
    assert_eq!(tap.state(), RTI);
    tap.step(0b110);
    assert_eq!(tap.state(), SDR_S);
}

#[test]
fn high_bits_of_a_byte_are_ignored() {
    let mut tap = Tap::new(1);
    tap.step(0b1111_1000);
    assert_eq!(tap.state(), TLR);
    tap.step(0b1010_1100);
    assert_eq!(tap.state(), RTI);
}

#[test]
fn packing_fills_bytes_in_order() {
    assert_eq!(pack_bits_lsb_first(&[]), Vec::<u8>::new());
    let mut bits: Vec<bool> = vec![false; 17];
    bits[7] = true;
    bits[8] = true;
    bits[16] = true;
    assert_eq!(pack_bits_lsb_first(&bits), vec![0x80, 0x01, 0x01]);
    assert_eq!(pack_bits_lsb_first(&[true; 16]), vec![0xff, 0xff]);
}

#[test]
fn packing_in_pieces_and_unpacking() {
    let bits: Vec<bool> = (0..29).map(|i| (i * i) % 5 < 2).collect();
    let whole = pack_bits_lsb_first(&bits);
    let mut pieces = pack_bits_lsb_first(&bits[..16]);
    pieces.extend(pack_bits_lsb_first(&bits[16..]));
    assert_eq!(whole, pieces);
    for i in 0..whole.len() * 8 {
        let bit: bool = (whole[i / 8] >> (i % 8)) & 1 == 1;
        assert_eq!(bit, i < bits.len() && bits[i]);
    }
}

#[test]
fn instruction_scan_survives_a_pause() {
    let mut tap = Tap::new(1);
    walk(&mut tap, &[false, true, true, false, false]);
    scan(&mut tap, &[true, true]);
    assert_eq!(tap.state(), E1IR);
    walk(&mut tap, &[false, false, true, false]);
    assert_eq!(tap.state(), SIR);
    scan(&mut tap, &[false, false]);
    walk(&mut tap, &[true, false]);
    assert_eq!(tap.ir(), IR_USER);
}

#[test]
fn instruction_stays_through_data_scans() {
    let mut tap = Tap::new(1);
    select(&mut tap, IR_USER);
    for _ in 0..3 {
        to_shift_dr(&mut tap);
        scan(&mut tap, &[true, false, true, true]);
        walk(&mut tap, &[true, false]);
        assert_eq!(tap.ir(), IR_USER);
        assert_eq!(tap.take_last_config(), None);
    }
}

#[test]
fn tdi_matters_in_shift_states_alone() {
    let tms = [false, true, true, false, false, false, true, false, true, true];
    let mut low = Tap::new(5);
    let mut high = Tap::new(5);
    for level in tms {
        let shifts = low.state() == SIR;
        pulse(&mut low, level, false);
        pulse(&mut high, level, !shifts);
        assert_eq!(low.state(), high.state());
        assert_eq!(low.ir(), high.ir());
        assert_eq!(low.tdo(), high.tdo());
    }
    assert_eq!(low.state(), UIR);
}

#[test]
fn high_pulses_latch_only_a_config_scan_that_was_under_way() {
    // Moves from Run-Test/Idle, and what is gathered on the way.
    let stops: [(&[bool], u8, Vec<bool>); 5] = [
        (&[true, false], CDR, vec![]),
        (&[true, false, false, false], SDR, vec![false, true]),
        (&[true, false, false, true], E1DR, vec![false]),
        (&[true, false, false, true, false], PDR, vec![false]),
        (&[true, false, false, true, false, true], E2DR, vec![false]),
    ];
    for (moves, state, gathered) in stops {
        for opcode in [IR_CONFIG, IR_USER] {
            let mut tap = Tap::new(1);
            select(&mut tap, opcode);
            walk(&mut tap, moves);
            assert_eq!(tap.state(), state);
            for _ in 0..5 {
                pulse(&mut tap, true, true);
            }
            assert_eq!(tap.state(), TLR);
            let latched = tap.take_last_config();
            if opcode == IR_CONFIG {
                assert_eq!(latched, Some(gathered.clone()));
            } else {
                assert_eq!(latched, None);
            }
        }
    }

    // Outside of a data scan a latched bitstream stays.
    let mut tap = Tap::new(1);
    select(&mut tap, IR_CONFIG);
    to_shift_dr(&mut tap);
    scan(&mut tap, &[true, false]);
    walk(&mut tap, &[true, false]);
    for _ in 0..7 {
        pulse(&mut tap, true, true);
    }
    assert_eq!(tap.take_last_config(), Some(vec![true, false]));
}

#[test]
fn four_calls_exchange_the_instruction_word() {
    for old in 0..16u32 {
        for new in 0..16u32 {
            let mut tap = Tap::new(1);
            for i in 0..4 {
                tap.shift_ir_bit((old >> i) & 1 == 1);
            }
            for i in 0..4 {
                tap.shift_ir_bit((new >> i) & 1 == 1);
                assert_eq!(tap.tdo(), (old >> i) & 1 == 1);
            }
            for i in 0..4 {
                tap.shift_ir_bit(false);
                assert_eq!(tap.tdo(), (new >> i) & 1 == 1);
            }
            assert_eq!(tap.ir(), IR_IDCODE);
            assert_eq!(tap.state(), TLR);
        }
    }
}
