//! The remote_bitbang byte protocol, as Spike exposes it: what each byte from
//! the client does to the TAP and what is sent back.

use std::path::PathBuf;
use vstd::prelude::*;
use crate::bits::{pack_bits_lsb_first, packed};
use crate::jtag::{Tap, TapModel};
use crate::number::{decimal, to_decimal};

verus! {

/// `std::path::PathBuf`, of which nothing is claimed: the configuration only
/// carries it.
#[verifier::external_type_specification]
#[verifier::external_body]
pub struct ExPathBuf(PathBuf);

/// Configuration for the remote_bitbang server.
pub struct RbbConfig {
    /// Address to listen on.
    pub host: String,
    /// Port to listen on.
    pub port: u16,
    /// Identification code that the TAP reports.
    pub idcode: u32,
    /// File that receives the bitstream that CONFIG latched last, written anew
    /// after each read from the client that latched one.
    pub bitstream_out: Option<PathBuf>,
    /// Whether to stop after the first client.
    pub once: bool,
}

impl RbbConfig {
    /// The socket address to listen on, host and port.
    pub fn address(&self) -> (text: String)
        ensures
            text@ == self.host@ + ":"@ + decimal(self.port as nat),
    {
        let head: String = self.host.clone().concat(":");
        head.concat(to_decimal(self.port as u64).as_str())
    }
}

/// `0`: the lowest pin setting, and the answer for a low TDO.
pub const DIGIT_0: u8 = 0x30;

/// `1`: the answer for a high TDO.
pub const DIGIT_1: u8 = 0x31;

/// `7`: the highest pin setting.
pub const DIGIT_7: u8 = 0x37;

/// `R`: read TDO.
pub const READ: u8 = 0x52;

/// `Q`: quit.
pub const QUIT: u8 = 0x51;

/// `r`: both resets released.
pub const RESET_NONE: u8 = 0x72;

/// `s`: system reset asserted.
pub const RESET_SYSTEM: u8 = 0x73;

/// `t`: TAP reset asserted.
pub const RESET_TAP: u8 = 0x74;

/// `u`: both resets asserted.
pub const RESET_BOTH: u8 = 0x75;

/// What one byte from the client does to the TAP: a digit sets the pins, `r`,
/// `s`, `t` and `u` reset, every other byte leaves it alone.
pub open spec fn command(m: TapModel, c: u8) -> TapModel {
    if DIGIT_0 <= c <= DIGIT_7 {
        m.step((c - DIGIT_0) as u8)
    } else if c == RESET_NONE || c == RESET_SYSTEM || c == RESET_TAP || c == RESET_BOTH {
        m.reset()
    } else {
        m
    }
}

/// The character that stands for a level.
pub open spec fn level_byte(level: bool) -> u8 {
    if level {
        DIGIT_1
    } else {
        DIGIT_0
    }
}

/// What is sent back for one byte: the level on TDO for `R`, else nothing.
pub open spec fn answer(m: TapModel, c: u8) -> Seq<u8> {
    if c == READ {
        seq![level_byte(m.tdo)]
    } else {
        Seq::empty()
    }
}

/// How a conversation stands.
#[verifier::ext_equal]
pub struct Session {
    /// The TAP.
    pub tap: TapModel,
    /// All that was sent back.
    pub response: Seq<u8>,
    /// Whether the client has quit.
    pub quit: bool,
}

/// A conversation with a TAP from its first byte on. `Q` ends it, and what
/// follows is not read.
pub open spec fn served(m: TapModel, bytes: Seq<u8>) -> Session
    decreases bytes.len(),
{
    if bytes.len() == 0 {
        Session { tap: m, response: Seq::empty(), quit: false }
    } else {
        let before = served(m, bytes.drop_last());
        let c = bytes.last();
        if before.quit {
            before
        } else if c == QUIT {
            Session { quit: true, ..before }
        } else {
            Session {
                tap: command(before.tap, c),
                response: before.response + answer(before.tap, c),
                quit: false,
            }
        }
    }
}

/// What the server does after it has read a chunk of bytes.
pub struct Reply {
    /// Bytes to send back; where there are none, nothing is sent.
    pub response: Vec<u8>,
    /// Whether the client has quit.
    pub quit: bool,
}

/// A conversation that has ended does not change.
proof fn lemma_quit_stays(m: TapModel, bytes: Seq<u8>, k: int)
    requires
        0 <= k <= bytes.len(),
        served(m, bytes.take(k)).quit,
    ensures
        served(m, bytes) == served(m, bytes.take(k)),
    decreases bytes.len() - k,
{
    if k == bytes.len() {
        assert(bytes.take(k) =~= bytes);
    } else {
        assert(bytes.take(k + 1).drop_last() =~= bytes.take(k));
        lemma_quit_stays(m, bytes, k + 1);
    }
}

/// Run the bytes that one read from the client gave.
pub fn serve_chunk(tap: &mut Tap, chunk: &[u8]) -> (reply: Reply)
    requires
        old(tap).wf(),
    ensures
        final(tap).wf(),
        final(tap)@ == served(old(tap)@, chunk@).tap,
        reply.response@ == served(old(tap)@, chunk@).response,
        reply.quit == served(old(tap)@, chunk@).quit,
{
    let mut response: Vec<u8> = Vec::new();
    let ghost start = tap@;
    let n: usize = chunk.len();
    let mut i: usize = 0;
    while i < n
        invariant
            i <= n == chunk@.len(),
            tap.wf(),
            start == old(tap)@,
            served(start, chunk@.take(i as int)) == (Session {
                tap: tap@,
                response: response@,
                quit: false,
            }),
        decreases n - i,
    {
        let c: u8 = chunk[i];
        proof {
            assert(chunk@.take(i + 1).drop_last() =~= chunk@.take(i as int));
        }
        match c {
            DIGIT_0..=DIGIT_7 => tap.step(c - DIGIT_0),
            RESET_NONE | RESET_SYSTEM | RESET_TAP | RESET_BOTH => tap.trst(),
            READ => response.push(if tap.tdo() { DIGIT_1 } else { DIGIT_0 }),
            QUIT => {
                proof {
                    lemma_quit_stays(start, chunk@, i + 1);
                }
                return Reply { response, quit: true };
            },
            // LED/blink controls and anything unknown are ignored.
            _ => {},
        }
        i += 1;
        proof {
            let s = served(start, chunk@.take(i as int));
            assert(s.response =~= response@);
        }
    }
    proof {
        assert(chunk@.take(n as int) =~= chunk@);
    }
    Reply { response, quit: false }
}

/// What goes to the output file, where one is wanted.
pub open spec fn image(m: TapModel, wanted: bool) -> Option<Seq<u8>> {
    match m.last_config {
        Some(bits) => if wanted {
            Some(packed(bits))
        } else {
            None
        },
        None => None,
    }
}

/// Take the bitstream that the TAP latched last, if there is one, and pack it
/// for the output file where one is wanted. It is gone from the TAP either
/// way.
pub fn collect_image(tap: &mut Tap, wanted: bool) -> (octets: Option<Vec<u8>>)
    requires
        old(tap).wf(),
    ensures
        final(tap).wf(),
        final(tap)@ == old(tap)@.taken(),
        match octets {
            Some(octets) => image(old(tap)@, wanted) == Some(octets@),
            None => image(old(tap)@, wanted) is None,
        },
{
    match tap.take_last_config() {
        Some(bits) => {
            if wanted {
                Some(pack_bits_lsb_first(bits.as_slice()))
            } else {
                None
            }
        },
        None => None,
    }
}

/// The conversation ends exactly when the client sends `Q`.
pub proof fn law_quit_on_q(m: TapModel, bytes: Seq<u8>)
    ensures
        served(m, bytes).quit <==> bytes.contains(QUIT),
    decreases bytes.len(),
{
    if bytes.len() > 0 {
        let before = bytes.drop_last();
        law_quit_on_q(m, before);
        if before.contains(QUIT) {
            let k = choose|k: int| 0 <= k < before.len() && before[k] == QUIT;
            assert(bytes[k] == QUIT);
        } else if bytes.last() == QUIT {
            assert(bytes[bytes.len() - 1] == QUIT);
        } else {
            assert forall|k: int| 0 <= k < bytes.len() implies bytes[k] != QUIT by {
                if k < before.len() {
                    assert(before[k] == bytes[k]);
                }
            }
        }
    }
}

/// What the client sends after `Q` is not read.
pub proof fn law_nothing_after_quit(m: TapModel, before: Seq<u8>, after: Seq<u8>)
    requires
        before.contains(QUIT),
    ensures
        served(m, before + after) == served(m, before),
{
    law_quit_on_q(m, before);
    assert((before + after).take(before.len() as int) =~= before);
    lemma_quit_stays(m, before + after, before.len() as int);
}

/// It does not matter how the byte stream is cut into chunks: serving a
/// second chunk goes on where the first one stopped.
pub proof fn law_chunks_join(m: TapModel, a: Seq<u8>, b: Seq<u8>)
    requires
        !a.contains(QUIT),
    ensures
        ({
            let first = served(m, a);
            let second = served(first.tap, b);
            served(m, a + b) == (Session {
                tap: second.tap,
                response: first.response + second.response,
                quit: second.quit,
            })
        }),
    decreases b.len(),
{
    let first = served(m, a);
    let second = served(first.tap, b);
    law_quit_on_q(m, a);
    if b.len() == 0 {
        assert(a + b =~= a);
        assert(first.response + second.response =~= first.response);
    } else {
        assert((a + b).drop_last() =~= a + b.drop_last());
        law_chunks_join(m, a, b.drop_last());
        assert(served(m, a + b).response =~= first.response + second.response);
    }
}

/// Taking a latched bitstream between two chunks does not touch the
/// conversation. A bitstream that the rest of it latches replaces the one
/// that was taken; if the rest latches none, none is left.
pub proof fn law_taking_is_invisible(m: TapModel, bytes: Seq<u8>)
    ensures
        ({
            let kept = served(m, bytes);
            let taken = served(m.taken(), bytes);
            &&& taken.response == kept.response
            &&& taken.quit == kept.quit
            &&& taken.tap.taken() == kept.tap.taken()
            &&& kept.tap.last_config == match taken.tap.last_config {
                Some(bits) => Some(bits),
                None => m.last_config,
            }
        }),
    decreases bytes.len(),
{
    if bytes.len() > 0 {
        law_taking_is_invisible(m, bytes.drop_last());
    }
}

/// The bytes to which the protocol gives no meaning, the LED controls among
/// them, do nothing and are not answered.
pub proof fn law_other_bytes_ignored(m: TapModel, c: u8)
    requires
        !(DIGIT_0 <= c <= DIGIT_7),
        !(RESET_NONE <= c <= RESET_BOTH),
        c != READ,
        c != QUIT,
    ensures
        served(m, seq![c]) == (Session { tap: m, response: Seq::empty(), quit: false }),
{
    reveal_with_fuel(served, 2);
    assert(Seq::<u8>::empty() + Seq::<u8>::empty() =~= Seq::<u8>::empty());
}

/// What each byte does by itself: `0` to `7` set the pins to the number that
/// they spell, `r`, `s`, `t` and `u` reset the TAP, `R` is answered by `1` where
/// TDO is high and by `0` where it is low, `Q` ends the conversation, and every
/// other byte does nothing.
pub proof fn law_one_byte(m: TapModel, c: u8)
    ensures
        ({
            let s = served(m, seq![c]);
            &&& s.tap == if 0x30 <= c <= 0x37 {
                m.step((c - 0x30) as u8)
            } else if 0x72 <= c <= 0x75 {
                m.reset()
            } else {
                m
            }
            &&& s.response == if c == 0x52 {
                seq![if m.tdo { 0x31u8 } else { 0x30u8 }]
            } else {
                Seq::empty()
            }
            &&& s.quit == (c == 0x51)
        }),
        served(m, Seq::empty()) == (Session { tap: m, response: Seq::empty(), quit: false }),
{
    reveal_with_fuel(served, 2);
    assert(seq![c].drop_last() =~= Seq::<u8>::empty());
    let s = served(m, seq![c]);
    assert(s.response =~= if c == 0x52 {
        seq![if m.tdo { 0x31u8 } else { 0x30u8 }]
    } else {
        Seq::empty()
    });
}

/// What the laws say of a conversation holds of the function that serves one, on
/// any bytes.
pub proof fn law_chunk_called(tap: &mut Tap, chunk: &[u8], reply: Reply)
    requires
        call_ensures(serve_chunk, (tap, chunk), reply),
    ensures
        old(tap).wf() ==> call_requires(serve_chunk, (tap, chunk)),
        final(tap).wf(),
        ({
            let s = served(old(tap)@, chunk@);
            &&& final(tap)@ == s.tap
            &&& reply.response@ == s.response
            &&& reply.quit == s.quit
        }),
{
}

/// The output file is to hold the octets of the bitstream that was latched last.
/// There is nothing to write where none was latched or no file is wanted. The
/// bitstream leaves the TAP, which is otherwise not touched.
pub proof fn law_image(tap: &mut Tap, wanted: bool, octets: Option<Vec<u8>>)
    requires
        call_ensures(collect_image, (tap, wanted), octets),
    ensures
        old(tap).wf() ==> call_requires(collect_image, (tap, wanted)),
        final(tap).wf(),
        match old(tap)@.last_config {
            Some(bits) if wanted => octets matches Some(octets) && octets@ == packed(bits),
            _ => octets is None,
        },
        final(tap)@ == (TapModel { last_config: None, ..old(tap)@ }),
{
}

/// A client finds the server at the host, a colon and the port in decimal.
pub proof fn law_address(cfg: &RbbConfig, text: String)
    requires
        call_ensures(RbbConfig::address, (cfg,), text),
    ensures
        call_requires(RbbConfig::address, (cfg,)),
        text@ == cfg.host@ + seq![':'] + decimal(cfg.port as nat),
{
    reveal_strlit(":");
    assert(":"@ =~= seq![':']);
}

/// How many bytes of a conversation ask for an answer.
pub open spec fn reads(bytes: Seq<u8>) -> nat
    decreases bytes.len(),
{
    if bytes.len() == 0 {
        0
    } else {
        reads(bytes.drop_last()) + if bytes.last() == READ { 1nat } else { 0nat }
    }
}

/// The bytes that ask for an answer are the `R`s.
pub proof fn law_reads_counted(bytes: Seq<u8>)
    ensures
        reads(bytes) == bytes.to_multiset().count(0x52u8),
    decreases bytes.len(),
{
    broadcast use vstd::seq_lib::group_to_multiset_ensures;

    if bytes.len() > 0 {
        law_reads_counted(bytes.drop_last());
        assert(bytes.drop_last().push(bytes.last()) =~= bytes);
    } else {
        assert(bytes.to_multiset().len() == 0);
        assert(bytes.to_multiset().count(0x52u8) <= bytes.to_multiset().len());
    }
}

/// Every `R` is answered by one character, `0` or `1`, and nothing else is
/// ever sent.
pub proof fn law_one_answer_per_read(m: TapModel, bytes: Seq<u8>)
    requires
        !bytes.contains(QUIT),
    ensures
        served(m, bytes).response.len() == reads(bytes),
        forall|i: int|
            0 <= i < served(m, bytes).response.len() ==> {
                let c = #[trigger] served(m, bytes).response[i];
                c == DIGIT_0 || c == DIGIT_1
            },
    decreases bytes.len(),
{
    law_quit_on_q(m, bytes);
    if bytes.len() > 0 {
        let before = bytes.drop_last();
        assert forall|k: int| 0 <= k < before.len() implies before[k] != QUIT by {
            assert(before[k] == bytes[k]);
        }
        law_one_answer_per_read(m, before);
        law_quit_on_q(m, before);
        assert(bytes[bytes.len() - 1] != QUIT);
    }
}

/// Reading TDO does not disturb the TAP.
pub proof fn law_read_keeps_tap(m: TapModel)
    ensures
        served(m, seq![READ]).tap == m,
        served(m, seq![READ]).response == seq![level_byte(m.tdo)],
{
    reveal_with_fuel(served, 2);
    assert(Seq::<u8>::empty() + seq![level_byte(m.tdo)] =~= seq![level_byte(m.tdo)]);
}

} // verus!
