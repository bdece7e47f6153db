//! Scans as a remote_bitbang client sends them, end to end.

use vstd::prelude::*;
use crate::bits::{bits_of, packed};
use crate::jtag::{TapModel, IR_IDCODE};
use crate::rbb::{
    answer, command, image, law_chunks_join, law_quit_on_q, level_byte, served, Session, DIGIT_0, QUIT,
    READ,
};
use crate::scan::{
    clocked, law_idcode_read, law_upload_latches, pin_byte, ready, scan,
    to_shift_dr, trace, upload, Pulse, Route,
};

verus! {

/// The character that sets the pins.
pub open spec fn pin_char(tck: bool, p: Pulse) -> u8 {
    (DIGIT_0 + pin_byte(tck, p)) as u8
}

/// The characters that send a sequence of pulses.
pub open spec fn sent(pulses: Seq<Pulse>) -> Seq<u8>
    decreases pulses.len(),
{
    if pulses.len() == 0 {
        Seq::empty()
    } else {
        sent(pulses.drop_last()) + seq![
            pin_char(false, pulses.last()),
            pin_char(true, pulses.last()),
        ]
    }
}

/// The characters that send a sequence of pulses and read TDO after each.
pub open spec fn sent_reading(pulses: Seq<Pulse>) -> Seq<u8>
    decreases pulses.len(),
{
    if pulses.len() == 0 {
        Seq::empty()
    } else {
        sent_reading(pulses.drop_last()) + seq![
            pin_char(false, pulses.last()),
            pin_char(true, pulses.last()),
            READ,
        ]
    }
}

/// Levels as the characters that stand for them.
pub open spec fn level_bytes(levels: Seq<bool>) -> Seq<u8> {
    Seq::new(levels.len(), |i: int| level_byte(levels[i]))
}

/// Serving one more character.
proof fn lemma_served_push(m: TapModel, bytes: Seq<u8>, c: u8)
    requires
        !served(m, bytes).quit,
        c != QUIT,
    ensures
        served(m, bytes.push(c)) == (Session {
            tap: command(served(m, bytes).tap, c),
            response: served(m, bytes).response + answer(served(m, bytes).tap, c),
            quit: false,
        }),
{
    assert(bytes.push(c).drop_last() =~= bytes);
}

/// Pulses that are sent clock the TAP, and nothing comes back.
pub proof fn law_sent_pulses_clock(m: TapModel, pulses: Seq<Pulse>)
    ensures
        served(m, sent(pulses)) == (Session {
            tap: clocked(m, pulses),
            response: Seq::empty(),
            quit: false,
        }),
    decreases pulses.len(),
{
    if pulses.len() > 0 {
        let before = pulses.drop_last();
        let p = pulses.last();
        law_sent_pulses_clock(m, before);
        let low = sent(before).push(pin_char(false, p));
        lemma_served_push(m, sent(before), pin_char(false, p));
        lemma_served_push(m, low, pin_char(true, p));
        assert(sent(pulses) =~= low.push(pin_char(true, p)));
        assert(served(m, sent(pulses)).response =~= Seq::<u8>::empty());
    }
}

/// Pulses that are sent with a read after each clock the TAP, and the levels
/// that TDO took come back in order.
pub proof fn law_reads_give_trace(m: TapModel, pulses: Seq<Pulse>)
    ensures
        served(m, sent_reading(pulses)) == (Session {
            tap: clocked(m, pulses),
            response: level_bytes(trace(m, pulses)),
            quit: false,
        }),
    decreases pulses.len(),
{
    if pulses.len() == 0 {
        assert(level_bytes(trace(m, pulses)) =~= Seq::<u8>::empty());
    } else {
        let before = pulses.drop_last();
        let p = pulses.last();
        law_reads_give_trace(m, before);
        let low = sent_reading(before).push(pin_char(false, p));
        let high = low.push(pin_char(true, p));
        lemma_served_push(m, sent_reading(before), pin_char(false, p));
        lemma_served_push(m, low, pin_char(true, p));
        lemma_served_push(m, high, READ);
        assert(sent_reading(pulses) =~= high.push(READ));
        assert forall|i: int| 0 <= i < pulses.len() implies #[trigger] trace(m, pulses)[i] == (if i
            < before.len() {
            trace(m, before)[i]
        } else {
            clocked(m, pulses).tdo
        }) by {
            if i < before.len() {
                assert(pulses.take(i + 1) =~= before.take(i + 1));
            } else {
                assert(pulses.take(i + 1) =~= pulses);
            }
        }
        assert(served(m, sent_reading(pulses)).response =~= level_bytes(trace(m, pulses)));
    }
}

/// A client that reads 32 bits or more from the data register under IDCODE, as
/// is selected when it connects, gets the identification code, least
/// significant bit first.
pub proof fn law_client_reads_idcode(m: TapModel, route: Route, tdi: Seq<bool>)
    requires
        m.valid(),
        ready(m, route),
        m.ir == IR_IDCODE,
        tdi.len() >= 32,
    ensures
        ({
            let bytes = sent(to_shift_dr(route)) + sent_reading(scan(tdi));
            served(m, bytes).response.take(32) == level_bytes(bits_of(m.idcode as u64, 32))
        }),
{
    let enter = to_shift_dr(route);
    let bytes = sent(enter) + sent_reading(scan(tdi));
    law_sent_pulses_clock(m, enter);
    law_quit_on_q(m, sent(enter));
    law_chunks_join(m, sent(enter), sent_reading(scan(tdi)));
    law_reads_give_trace(clocked(m, enter), scan(tdi));
    law_idcode_read(m, route, tdi);
    assert(served(m, bytes).response.take(32) =~= level_bytes(bits_of(m.idcode as u64, 32)));
}

/// A client that uploads a bitstream has it latched bit for bit, and the output
/// file gets it packed.
pub proof fn law_client_uploads(m: TapModel, select: Route, load: Route, payload: Seq<bool>)
    requires
        m.valid(),
        ready(m, select),
        payload.len() > 0,
    ensures
        ({
            let after = served(m, sent(upload(select, load, payload)));
            &&& after.tap.last_config == Some(payload)
            &&& image(after.tap, true) == Some(packed(payload))
            &&& !after.quit
        }),
{
    law_sent_pulses_clock(m, upload(select, load, payload));
    law_upload_latches(m, select, load, payload);
}

} // verus!
