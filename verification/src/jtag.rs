//! Aegis JTAG TAP model: a four-bit instruction register with IDCODE, CONFIG
//! and BYPASS, and the sixteen-state IEEE 1149.1 controller.

use vstd::arithmetic::power2::{lemma2_to64, pow2};
use vstd::prelude::*;
use crate::bits::{
    bit_of, bits_of, cleared, law_bits_are_digits, lemma_value_of_bits_of, shifted, value_of,
};
use crate::states::{
    next, next_state, CDR, CIR, E1IR, E2DR, E2IR, SDR, SIR, TLR, UDR, UIR,
};

verus! {

/// Width of the instruction register.
pub const IR_WIDTH: u8 = 4;

/// Opcode of EXTEST, which behaves as BYPASS does.
pub const IR_EXTEST: u32 = 0x0;

/// Opcode of IDCODE.
pub const IR_IDCODE: u32 = 0x1;

/// Opcode of CONFIG, which takes a bitstream.
pub const IR_CONFIG: u32 = 0x2;

/// Opcode of USER.
pub const IR_USER: u32 = 0x3;

/// Opcode of BYPASS.
pub const IR_BYPASS: u32 = 0xF;

/// What a TAP holds: its registers as sequences of bits, the bit that shifts
/// out next at the front.
#[verifier::ext_equal]
pub struct TapModel {
    /// The controller state.
    pub state: u8,
    /// The level that TCK last had.
    pub last_tck: bool,
    /// The instruction in force.
    pub ir: u32,
    /// The instruction shift register, `IR_WIDTH` bits.
    pub ir_shift: Seq<bool>,
    /// The identification code of the device.
    pub idcode: u32,
    /// The data shift register, 32 bits.
    pub dr_shift: Seq<bool>,
    /// The bits that CONFIG has shifted in since the last Capture-DR.
    pub config_bits: Seq<bool>,
    /// The last bitstream that Update-DR latched, until somebody takes it.
    pub last_config: Option<Seq<bool>>,
    /// The level on TDO.
    pub tdo: bool,
}

/// The data register with one live bit at the front.
pub open spec fn single_bit(tdi: bool) -> Seq<bool> {
    Seq::new(32, |i: int| i == 0 && tdi)
}

/// The instruction register as Capture-IR loads it: the two low bits read 01.
pub open spec fn captured_ir() -> Seq<bool> {
    seq![true, false, false, false]
}

impl TapModel {
    /// A TAP as it powers up.
    pub open spec fn power_up(idcode: u32) -> TapModel {
        TapModel {
            state: TLR,
            last_tck: false,
            ir: IR_IDCODE,
            ir_shift: cleared(4),
            idcode,
            dr_shift: cleared(32),
            config_bits: Seq::empty(),
            last_config: None,
            tdo: false,
        }
    }

    /// What holds of a TAP at all times: the state is one of the sixteen, each
    /// register has its width, the instruction fits its register,
    /// Test-Logic-Reset selects IDCODE, and CONFIG bits are gathered only under
    /// CONFIG from Shift-DR to Exit2-DR.
    pub open spec fn valid(self) -> bool {
        &&& self.state <= UIR
        &&& self.ir < 16
        &&& self.ir_shift.len() == IR_WIDTH
        &&& self.dr_shift.len() == 32
        &&& self.state == TLR ==> self.ir == IR_IDCODE
        &&& self.config_bits.len() > 0 ==> self.ir == IR_CONFIG && SDR <= self.state <= E2DR
    }

    /// The TAP after a reset. The identification code, a latched bitstream and
    /// the level of TCK stay.
    pub open spec fn reset(self) -> TapModel {
        TapModel {
            state: TLR,
            ir: IR_IDCODE,
            ir_shift: cleared(4),
            dr_shift: cleared(32),
            config_bits: Seq::empty(),
            tdo: false,
            ..self
        }
    }

    /// What Capture-DR loads.
    pub open spec fn capture_dr(self) -> TapModel {
        if self.ir == IR_IDCODE {
            TapModel { dr_shift: bits_of(self.idcode as u64, 32), ..self }
        } else if self.ir == IR_CONFIG {
            TapModel { config_bits: Seq::empty(), ..self }
        } else {
            TapModel { dr_shift: cleared(32), ..self }
        }
    }

    /// One clock in Shift-DR.
    pub open spec fn shift_dr(self, tdi: bool) -> TapModel {
        if self.ir == IR_IDCODE {
            TapModel { tdo: self.dr_shift[0], dr_shift: shifted(self.dr_shift, tdi), ..self }
        } else if self.ir == IR_BYPASS || self.ir == IR_EXTEST {
            TapModel { tdo: self.dr_shift[0], dr_shift: single_bit(tdi), ..self }
        } else if self.ir == IR_CONFIG {
            TapModel { tdo: tdi, config_bits: self.config_bits.push(tdi), ..self }
        } else {
            TapModel { tdo: tdi, ..self }
        }
    }

    /// What Update-DR latches.
    pub open spec fn update_dr(self) -> TapModel {
        if self.ir == IR_CONFIG {
            TapModel {
                last_config: Some(self.config_bits),
                config_bits: Seq::empty(),
                ..self
            }
        } else {
            self
        }
    }

    /// What Capture-IR loads.
    pub open spec fn capture_ir(self) -> TapModel {
        TapModel { ir_shift: captured_ir(), ..self }
    }

    /// One clock in Shift-IR.
    pub open spec fn shift_ir(self, tdi: bool) -> TapModel {
        TapModel { tdo: self.ir_shift[0], ir_shift: shifted(self.ir_shift, tdi), ..self }
    }

    /// What Update-IR puts in force.
    pub open spec fn update_ir(self) -> TapModel {
        TapModel { ir: value_of(self.ir_shift) as u32, ..self }
    }

    /// What the current state does with the bit on TDI.
    pub open spec fn shift(self, tdi: bool) -> TapModel {
        if self.state == SDR {
            self.shift_dr(tdi)
        } else if self.state == SIR {
            self.shift_ir(tdi)
        } else {
            self
        }
    }

    /// The TAP as it enters `state`.
    pub open spec fn enter(self, state: u8) -> TapModel {
        let entered = if state == TLR {
            self.reset()
        } else if state == CDR {
            self.capture_dr()
        } else if state == UDR {
            self.update_dr()
        } else if state == CIR {
            self.capture_ir()
        } else if state == UIR {
            self.update_ir()
        } else {
            self
        };
        TapModel { state, ..entered }
    }

    /// One rising edge of TCK: the current state shifts, then the next state
    /// is entered.
    pub open spec fn rising_edge(self, tms: bool, tdi: bool) -> TapModel {
        self.shift(tdi).enter(next(self.state, tms))
    }

    /// One byte of pin levels: bit 0 is TDI, bit 1 is TMS, bit 2 is TCK.
    pub open spec fn step(self, byte: u8) -> TapModel {
        let tck = bit_of(byte as u64, 2);
        let tms = bit_of(byte as u64, 1);
        let tdi = bit_of(byte as u64, 0);
        let clocked = if tck && !self.last_tck {
            self.rising_edge(tms, tdi)
        } else {
            self
        };
        TapModel { last_tck: tck, ..clocked }
    }

    /// The TAP after its latched bitstream was taken.
    pub open spec fn taken(self) -> TapModel {
        TapModel { last_config: None, ..self }
    }
}

/// Per-connection TAP state. Public so external simulators can poke at it
/// directly, e.g. to wire a captured CONFIG bitstream into a simulated fabric.
pub struct Tap {
    state: u8,
    last_tck: bool,
    ir: u32,
    ir_shift: u32,
    idcode: u32,
    dr_shift: u64,
    config_bits: Vec<bool>,
    last_config: Option<Vec<bool>>,
    tdo: bool,
}

impl View for Tap {
    type V = TapModel;

    closed spec fn view(&self) -> TapModel {
        TapModel {
            state: self.state,
            last_tck: self.last_tck,
            ir: self.ir,
            ir_shift: bits_of(self.ir_shift as u64, 4),
            idcode: self.idcode,
            dr_shift: bits_of(self.dr_shift, 32),
            config_bits: self.config_bits@,
            last_config: match self.last_config {
                Some(bits) => Some(bits@),
                None => None,
            },
            tdo: self.tdo,
        }
    }
}

proof fn lemma_zero_bits(n: nat)
    requires
        n <= 64,
    ensures
        bits_of(0, n) =~= cleared(n),
{
    assert forall|i: int| 0 <= i < n implies !(#[trigger] bit_of(0, i)) by {
        let k = i as u64;
        assert((0u64 >> k) & 1 == 0) by (bit_vector);
    }
}

proof fn lemma_low_bit(x: u64)
    ensures
        ((x & 1) != 0) == bit_of(x, 0),
{
    assert(((x & 1) != 0) == ((x >> 0) & 1 == 1)) by (bit_vector);
}

proof fn lemma_single_bit(tdi: bool)
    ensures
        bits_of(if tdi { 1u64 } else { 0u64 }, 32) =~= single_bit(tdi),
{
    let word = if tdi { 1u64 } else { 0u64 };
    assert forall|i: int| 0 <= i < 32 implies #[trigger] bit_of(word, i) == (i == 0 && tdi) by {
        let k = i as u64;
        assert((1u64 >> k) & 1 == (if k == 0 { 1u64 } else { 0u64 })) by (bit_vector)
            requires
                k < 32,
        ;
        assert((0u64 >> k) & 1 == 0) by (bit_vector);
    }
}

proof fn lemma_one_bits()
    ensures
        bits_of(1, 4) =~= captured_ir(),
{
    assert((1u64 >> 0) & 1 == 1) by (bit_vector);
    assert((1u64 >> 1) & 1 == 0) by (bit_vector);
    assert((1u64 >> 2) & 1 == 0) by (bit_vector);
    assert((1u64 >> 3) & 1 == 0) by (bit_vector);
}

/// Shifting a word down by one and setting its top bit is one clock of the
/// register that it stands for.
proof fn lemma_shift_down(x: u64, width: u64, tdi: bool)
    requires
        0 < width <= 32,
        x < 1u64 << width,
    ensures
        ((x & 1) != 0) == bit_of(x, 0),
        ({
            let y = if tdi { (x >> 1) | (1u64 << ((width - 1) as u64)) } else { x >> 1 };
            &&& y < 1u64 << width
            &&& bits_of(y, width as nat) =~= shifted(bits_of(x, width as nat), tdi)
        }),
{
    lemma_low_bit(x);
    let top = (width - 1) as u64;
    let y = if tdi { (x >> 1) | (1u64 << top) } else { x >> 1 };
    assert(y < 1u64 << width) by (bit_vector)
        requires
            0 < width <= 32,
            top == width - 1,
            x < 1u64 << width,
            y == (if tdi { (x >> 1) | (1u64 << top) } else { x >> 1 }),
    ;
    assert forall|i: int| 0 <= i < width implies #[trigger] bit_of(y, i) == (if i == top {
        tdi
    } else {
        bit_of(x, i + 1)
    }) by {
        let k = i as u64;
        let above = (k + 1) as u64;
        assert(((y >> k) & 1 == 1) == (if k == top { tdi } else { (x >> above) & 1 == 1 }))
            by (bit_vector)
            requires
                0 < width <= 32,
                k < width,
                above == k + 1,
                top == width - 1,
                x < 1u64 << width,
                y == (if tdi { (x >> 1) | (1u64 << top) } else { x >> 1 }),
        ;
    }
}

proof fn lemma_shift_ir_word(x: u32, tdi: bool)
    requires
        x < 16,
    ensures
        ((x & 1) != 0) == bit_of(x as u64, 0),
        ({
            let y = (if tdi { (x >> 1) | (1u32 << 3u8) } else { x >> 1 }) & 0xF;
            &&& y < 16
            &&& bits_of(y as u64, 4) =~= shifted(bits_of(x as u64, 4), tdi)
        }),
{
    let wide = x as u64;
    let y = (if tdi { (x >> 1) | (1u32 << 3u8) } else { x >> 1 }) & 0xF;
    assert(1u64 << 4 == 16) by (bit_vector);
    lemma_shift_down(wide, 4, tdi);
    assert(((x & 1) != 0) == ((wide & 1) != 0));
    assert(y < 16 && y as u64 == (if tdi { (wide >> 1) | (1u64 << 3) } else { wide >> 1 }))
        by (bit_vector)
        requires
            x < 16,
            wide == x as u64,
            y == (if tdi { (x >> 1) | (1u32 << 3u8) } else { x >> 1 }) & 0xF,
    ;
}

impl Tap {
    /// The fields stay within the widths of the registers that they stand for.
    pub closed spec fn wf(&self) -> bool {
        &&& self@.valid()
        &&& self.ir_shift < 16
        &&& self.dr_shift <= u32::MAX
    }

    /// A TAP that was made here and changed by the methods here is valid.
    pub proof fn law_valid(&self)
        requires
            self.wf(),
        ensures
            self@.valid(),
    {
    }

    /// A TAP in Test-Logic-Reset that reports `idcode`.
    pub fn new(idcode: u32) -> (tap: Self)
        ensures
            tap.wf(),
            tap@ == TapModel::power_up(idcode),
    {
        proof {
            lemma_zero_bits(4);
            lemma_zero_bits(32);
        }
        Self {
            state: TLR,
            last_tck: false,
            ir: IR_IDCODE,
            ir_shift: 0,
            idcode,
            dr_shift: 0,
            config_bits: Vec::new(),
            last_config: None,
            tdo: false,
        }
    }

    /// The level on TDO.
    pub fn tdo(&self) -> (level: bool)
        ensures
            level == self@.tdo,
    {
        self.tdo
    }

    /// The controller state.
    pub fn state(&self) -> (state: u8)
        ensures
            state == self@.state,
    {
        self.state
    }

    /// The instruction in force.
    pub fn ir(&self) -> (ir: u32)
        ensures
            ir == self@.ir,
    {
        self.ir
    }

    /// Take the most recently latched CONFIG bitstream (LSB-first bits in
    /// shift order). Cleared after read.
    pub fn take_last_config(&mut self) -> (taken: Option<Vec<bool>>)
        requires
            old(self).wf(),
        ensures
            final(self).wf(),
            final(self)@ == old(self)@.taken(),
            match (taken, old(self)@.last_config) {
                (Some(bits), Some(latched)) => bits@ == latched,
                (None, None) => true,
                _ => false,
            },
    {
        self.last_config.take()
    }

    /// Reset as the TRST pin does.
    pub fn trst(&mut self)
        requires
            old(self).wf(),
        ensures
            final(self).wf(),
            final(self)@ == old(self)@.reset(),
    {
        proof {
            lemma_zero_bits(4);
            lemma_zero_bits(32);
        }
        self.state = TLR;
        self.ir = IR_IDCODE;
        self.ir_shift = 0;
        self.dr_shift = 0;
        self.config_bits.clear();
        self.tdo = false;
    }

    /// All ones, as wide as the instruction register.
    fn ir_mask(&self) -> (mask: u32)
        ensures
            mask == 0xF,
    {
        assert(1u32 << 4u8 == 16) by (bit_vector);
        (1u32 << IR_WIDTH) - 1
    }

    fn capture_dr(&mut self)
        requires
            old(self).wf(),
        ensures
            final(self).wf(),
            final(self)@ == old(self)@.capture_dr(),
    {
        proof {
            lemma_zero_bits(32);
        }
        match self.ir {
            IR_IDCODE => self.dr_shift = self.idcode as u64,
            IR_BYPASS | IR_EXTEST => self.dr_shift = 0,
            IR_CONFIG => self.config_bits.clear(),
            _ => self.dr_shift = 0,
        }
    }

    fn shift_dr_bit(&mut self, tdi: bool)
        requires
            old(self).wf(),
            old(self)@.state == SDR,
        ensures
            final(self).wf(),
            final(self)@ == old(self)@.shift_dr(tdi),
    {
        match self.ir {
            IR_IDCODE => {
                proof {
                    assert(1u64 << 32 == 0x1_0000_0000) by (bit_vector);
                    lemma_shift_down(self.dr_shift, 32, tdi);
                }
                self.tdo = (self.dr_shift & 1) != 0;
                self.dr_shift = self.dr_shift >> 1;
                if tdi {
                    self.dr_shift = self.dr_shift | (1u64 << 31);
                }
            },
            IR_BYPASS | IR_EXTEST => {
                proof {
                    lemma_low_bit(self.dr_shift);
                    lemma_single_bit(tdi);
                }
                self.tdo = (self.dr_shift & 1) != 0;
                self.dr_shift = if tdi { 1 } else { 0 };
            },
            IR_CONFIG => {
                // The device drives TDO from its section chain; here TDI is
                // mirrored back so that a scan still reads a defined value.
                self.tdo = tdi;
                self.config_bits.push(tdi);
            },
            IR_USER => self.tdo = tdi,
            _ => self.tdo = tdi,
        }
    }

    fn update_dr(&mut self)
        requires
            old(self).wf(),
        ensures
            final(self).wf(),
            final(self)@ == old(self)@.update_dr(),
    {
        if self.ir == IR_CONFIG {
            let mut bits: Vec<bool> = Vec::new();
            std::mem::swap(&mut bits, &mut self.config_bits);
            self.last_config = Some(bits);
        }
    }

    fn capture_ir(&mut self)
        requires
            old(self).wf(),
        ensures
            final(self).wf(),
            final(self)@ == old(self)@.capture_ir(),
    {
        let mask: u32 = self.ir_mask();
        assert(0x1u32 & 0xF == 1) by (bit_vector);
        proof {
            lemma_one_bits();
        }
        // IEEE 1149.1 specifies the two LSBs of the captured IR shift
        // register to be `01` on entry to Capture-IR.
        self.ir_shift = 0x1 & mask;
    }

    /// One clock of the instruction shift register: its lowest bit goes to TDO
    /// and `tdi` comes in at the top. The instruction in force stays.
    pub fn shift_ir_bit(&mut self, tdi: bool)
        requires
            old(self).wf(),
        ensures
            final(self).wf(),
            final(self)@ == old(self)@.shift_ir(tdi),
    {
        let mask: u32 = self.ir_mask();
        proof {
            lemma_shift_ir_word(self.ir_shift, tdi);
        }
        self.tdo = (self.ir_shift & 1) != 0;
        self.ir_shift = self.ir_shift >> 1;
        if tdi {
            self.ir_shift = self.ir_shift | (1u32 << (IR_WIDTH - 1));
        }
        self.ir_shift = self.ir_shift & mask;
    }

    fn update_ir(&mut self)
        requires
            old(self).wf(),
            old(self)@.state == E1IR || old(self)@.state == E2IR,
        ensures
            final(self).wf(),
            final(self)@ == old(self)@.update_ir(),
    {
        let mask: u32 = self.ir_mask();
        proof {
            let word = self.ir_shift;
            assert(word & 0xF == word) by (bit_vector)
                requires
                    word < 16,
            ;
            lemma2_to64();
            lemma_value_of_bits_of(word as u64, 4);
        }
        self.ir = self.ir_shift & mask;
    }

    fn rising_edge(&mut self, tms: bool, tdi: bool)
        requires
            old(self).wf(),
        ensures
            final(self).wf(),
            final(self)@ == old(self)@.rising_edge(tms, tdi),
    {
        // IEEE 1149.1: shifting happens while the TAP is *in* Shift-DR/IR,
        // so it must reference the current state. Update/Capture/Reset are
        // entry actions on the new state.
        match self.state {
            SDR => self.shift_dr_bit(tdi),
            SIR => self.shift_ir_bit(tdi),
            _ => {},
        }
        let next: u8 = next_state(self.state, tms);
        match next {
            TLR => self.trst(),
            CDR => self.capture_dr(),
            UDR => self.update_dr(),
            CIR => self.capture_ir(),
            UIR => self.update_ir(),
            _ => {},
        }
        self.state = next;
    }

    /// Process one remote_bitbang clock byte where lower 3 bits are
    /// (TCK, TMS, TDI). Edge-triggered on the rising TCK transition.
    pub fn step(&mut self, byte: u8)
        requires
            old(self).wf(),
        ensures
            final(self).wf(),
            final(self)@ == old(self)@.step(byte),
    {
        proof {
            assert(((byte & 0b100) != 0) == ((byte as u64 >> 2) & 1 == 1)) by (bit_vector);
            assert(((byte & 0b010) != 0) == ((byte as u64 >> 1) & 1 == 1)) by (bit_vector);
            assert(((byte & 0b001) != 0) == ((byte as u64 >> 0) & 1 == 1)) by (bit_vector);
        }
        let tck: bool = (byte & 0b100) != 0;
        let tms: bool = (byte & 0b010) != 0;
        let tdi: bool = (byte & 0b001) != 0;
        if !self.last_tck && tck {
            self.rising_edge(tms, tdi);
        }
        self.last_tck = tck;
    }
}

/// The levels that a byte carries: TDI in the ones, TMS in the twos and TCK in
/// the fours.
proof fn lemma_pins(byte: u8)
    ensures
        bit_of(byte as u64, 2) == (byte / 4 % 2 == 1),
        bit_of(byte as u64, 1) == (byte / 2 % 2 == 1),
        bit_of(byte as u64, 0) == (byte % 2 == 1),
{
    assert(((byte as u64 >> 2) & 1 == 1) == (byte / 4 % 2 == 1)) by (bit_vector);
    assert(((byte as u64 >> 1) & 1 == 1) == (byte / 2 % 2 == 1)) by (bit_vector);
    assert(((byte as u64 >> 0) & 1 == 1) == (byte % 2 == 1)) by (bit_vector);
}

/// A byte whose fours are even brings TCK low, and one that comes when TCK is
/// high brings no edge: neither changes anything else.
pub proof fn law_no_edge(m: TapModel, byte: u8)
    requires
        m.last_tck || byte / 4 % 2 == 0,
    ensures
        m.step(byte) == (TapModel { last_tck: byte / 4 % 2 == 1, ..m }),
{
    lemma_pins(byte);
}

/// A byte that raises TCK moves the controller as TMS, in its twos, says.
pub proof fn law_edge_moves(m: TapModel, byte: u8)
    requires
        !m.last_tck,
        byte / 4 % 2 == 1,
    ensures
        m.step(byte).state == next(m.state, byte / 2 % 2 == 1),
        m.step(byte).last_tck,
        m.step(byte).idcode == m.idcode,
{
    lemma_pins(byte);
}

/// Entering Update-IR, by whatever way, puts the word in the instruction
/// register in force, its first bit weighing one. Entering Test-Logic-Reset
/// puts IDCODE in force. Nothing else changes the instruction.
pub proof fn law_edge_instruction(m: TapModel, byte: u8)
    requires
        m.valid(),
        !m.last_tck,
        byte / 4 % 2 == 1,
    ensures
        ({
            let n = m.step(byte);
            n.ir == if n.state == UIR {
                (if m.ir_shift[0] { 1int } else { 0 }) + (if m.ir_shift[1] { 2int } else { 0 }) + (
                if m.ir_shift[2] { 4int } else { 0 }) + (if m.ir_shift[3] { 8int } else { 0 })
            } else if n.state == TLR {
                1
            } else {
                m.ir as int
            }
        }),
{
    lemma_pins(byte);
    let r = m.ir_shift;
    reveal_with_fuel(value_of, 5);
    assert(r.drop_first()[0] == r[1]);
    assert(r.drop_first().drop_first()[0] == r[2]);
    assert(r.drop_first().drop_first().drop_first()[0] == r[3]);
}

/// A clock in Shift-IR moves the instruction register down by one and takes TDI,
/// in the ones of the byte, at the top. Entering Capture-IR loads 1, entering
/// Test-Logic-Reset loads 0, and nothing else changes the register.
pub proof fn law_edge_instruction_register(m: TapModel, byte: u8)
    requires
        m.valid(),
        !m.last_tck,
        byte / 4 % 2 == 1,
    ensures
        ({
            let n = m.step(byte);
            n.ir_shift == if m.state == SIR {
                seq![m.ir_shift[1], m.ir_shift[2], m.ir_shift[3], byte % 2 == 1]
            } else if n.state == CIR {
                seq![true, false, false, false]
            } else if n.state == TLR {
                seq![false, false, false, false]
            } else {
                m.ir_shift
            }
        }),
{
    lemma_pins(byte);
    let n = m.step(byte);
    assert(shifted(m.ir_shift, byte % 2 == 1) =~= seq![
        m.ir_shift[1],
        m.ir_shift[2],
        m.ir_shift[3],
        byte % 2 == 1,
    ]);
    assert(cleared(4) =~= seq![false, false, false, false]);
}

/// A clock in Shift-DR moves the data register down by one and takes TDI at the
/// top under IDCODE, and makes it the one bit on TDI under BYPASS and EXTEST.
/// Entering Capture-DR loads the identification code under IDCODE, and zero
/// under all others but CONFIG. Entering Test-Logic-Reset loads zero. Nothing
/// else changes the register.
pub proof fn law_edge_data_register(m: TapModel, byte: u8, i: int)
    requires
        m.valid(),
        !m.last_tck,
        byte / 4 % 2 == 1,
        0 <= i < 32,
    ensures
        ({
            let n = m.step(byte);
            &&& n.dr_shift.len() == 32
            &&& n.dr_shift[i] == if m.state == SDR && m.ir == 1 {
                if i < 31 {
                    m.dr_shift[i + 1]
                } else {
                    byte % 2 == 1
                }
            } else if m.state == SDR && (m.ir == 0 || m.ir == 15) {
                i == 0 && byte % 2 == 1
            } else if n.state == CDR && m.ir == 1 {
                m.idcode as nat / pow2(i as nat) % 2 == 1
            } else if n.state == CDR && m.ir != 2 || n.state == TLR {
                false
            } else {
                m.dr_shift[i]
            }
        }),
{
    lemma_pins(byte);
    law_bits_are_digits(m.idcode as u64, 32, i);
}

/// CONFIG gathers TDI in Shift-DR, each bit after those before it. What was
/// gathered is dropped where Capture-DR or Update-DR is entered under CONFIG and
/// where Test-Logic-Reset is entered, and else it stays.
pub proof fn law_edge_gathers(m: TapModel, byte: u8)
    requires
        m.valid(),
        !m.last_tck,
        byte / 4 % 2 == 1,
    ensures
        ({
            let n = m.step(byte);
            n.config_bits == if m.state == SDR && m.ir == 2 {
                m.config_bits + seq![byte % 2 == 1]
            } else if n.state == TLR || m.ir == 2 && (n.state == CDR || n.state == UDR) {
                Seq::empty()
            } else {
                m.config_bits
            }
        }),
{
    lemma_pins(byte);
    assert(m.config_bits.push(byte % 2 == 1) =~= m.config_bits + seq![byte % 2 == 1]);
}

/// Entering Update-DR under CONFIG latches what was gathered, however long and
/// whatever was latched before. Nothing else touches the latched bitstream.
pub proof fn law_edge_latches(m: TapModel, byte: u8)
    requires
        m.valid(),
        !m.last_tck,
        byte / 4 % 2 == 1,
    ensures
        ({
            let n = m.step(byte);
            n.last_config == if n.state == UDR && m.ir == 2 {
                Some(m.config_bits)
            } else {
                m.last_config
            }
        }),
{
    lemma_pins(byte);
}

/// TDO changes in the Shift states, and goes low where Test-Logic-Reset is
/// entered. In Shift-IR it is the lowest bit of the instruction register. In
/// Shift-DR it is the lowest bit of the data register under IDCODE, BYPASS and
/// EXTEST, and what is on TDI under all other instructions.
pub proof fn law_edge_tdo(m: TapModel, byte: u8)
    requires
        m.valid(),
        !m.last_tck,
        byte / 4 % 2 == 1,
    ensures
        ({
            let n = m.step(byte);
            n.tdo == if m.state == SIR {
                m.ir_shift[0]
            } else if m.state == SDR {
                if m.ir == 0 || m.ir == 1 || m.ir == 15 {
                    m.dr_shift[0]
                } else {
                    byte % 2 == 1
                }
            } else if n.state == TLR {
                false
            } else {
                m.tdo
            }
        }),
{
    lemma_pins(byte);
}

/// A TAP powers up in Test-Logic-Reset under IDCODE, with TCK and TDO low, both
/// shift registers zero, and nothing gathered or latched.
pub proof fn law_power_up(idcode: u32, i: int)
    requires
        0 <= i < 32,
    ensures
        ({
            let m = TapModel::power_up(idcode);
            &&& m.idcode == idcode
            &&& m.state == TLR
            &&& m.ir == 1
            &&& !m.last_tck && !m.tdo
            &&& m.ir_shift == seq![false, false, false, false]
            &&& m.dr_shift.len() == 32 && !m.dr_shift[i]
            &&& m.config_bits == Seq::<bool>::empty()
            &&& m.last_config is None
        }),
{
    assert(cleared(4) =~= seq![false, false, false, false]);
}

/// One clock of the instruction register changes the register and TDO alone.
pub proof fn law_shift_ir(m: TapModel, tdi: bool)
    requires
        m.ir_shift.len() == 4,
    ensures
        m.shift_ir(tdi) == (TapModel {
            ir_shift: seq![m.ir_shift[1], m.ir_shift[2], m.ir_shift[3], tdi],
            tdo: m.ir_shift[0],
            ..m
        }),
{
    assert(shifted(m.ir_shift, tdi) =~= seq![m.ir_shift[1], m.ir_shift[2], m.ir_shift[3], tdi]);
}

/// A new TAP is one that has powered up, and its levels are read from it.
pub proof fn law_new_called(idcode: u32, new: Tap, tap: &Tap, tdo: bool, state: u8, ir: u32)
    requires
        call_ensures(Tap::new, (idcode,), new),
        call_ensures(Tap::tdo, (tap,), tdo),
        call_ensures(Tap::state, (tap,), state),
        call_ensures(Tap::ir, (tap,), ir),
    ensures
        call_requires(Tap::new, (idcode,)),
        call_requires(Tap::tdo, (tap,)),
        call_requires(Tap::state, (tap,)),
        call_requires(Tap::ir, (tap,)),
        new.wf(),
        new@ == TapModel::power_up(idcode),
        tdo == tap@.tdo,
        state == tap@.state,
        ir == tap@.ir,
{
}

/// What the laws say of a step holds of the method, on any byte.
pub proof fn law_step_called(tap: &mut Tap, byte: u8)
    requires
        call_ensures(Tap::step, (tap, byte), ()),
    ensures
        old(tap).wf() ==> call_requires(Tap::step, (tap, byte)),
        final(tap).wf(),
        final(tap)@ == old(tap)@.step(byte),
{
}

/// What the laws say of a clock of the instruction register holds of the method.
pub proof fn law_shift_ir_called(tap: &mut Tap, tdi: bool)
    requires
        call_ensures(Tap::shift_ir_bit, (tap, tdi), ()),
    ensures
        old(tap).wf() ==> call_requires(Tap::shift_ir_bit, (tap, tdi)),
        final(tap).wf(),
        final(tap)@ == old(tap)@.shift_ir(tdi),
{
}

/// The reset pin leaves a TAP as it powers up, but that the level of TCK and a
/// latched bitstream stay.
pub proof fn law_trst_called(tap: &mut Tap)
    requires
        call_ensures(Tap::trst, (tap,), ()),
    ensures
        old(tap).wf() ==> call_requires(Tap::trst, (tap,)),
        final(tap).wf(),
        final(tap)@ == old(tap)@.reset(),
        final(tap)@ == (TapModel {
            last_tck: old(tap)@.last_tck,
            last_config: old(tap)@.last_config,
            ..TapModel::power_up(old(tap)@.idcode)
        }),
{
}

/// Taking the latched bitstream hands out its bits, and leaves the TAP without
/// it and otherwise as it was.
pub proof fn law_take_called(tap: &mut Tap, bits: Option<Vec<bool>>)
    requires
        call_ensures(Tap::take_last_config, (tap,), bits),
    ensures
        old(tap).wf() ==> call_requires(Tap::take_last_config, (tap,)),
        final(tap).wf(),
        final(tap)@ == old(tap)@.taken(),
        final(tap)@ == (TapModel { last_config: None, ..old(tap)@ }),
        match bits {
            Some(bits) => old(tap)@.last_config == Some(bits@),
            None => old(tap)@.last_config is None,
        },
{
}

} // verus!
