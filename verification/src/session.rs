//! What the remote_bitbang server does next: with a client, and between
//! clients. The caller performs each action and reports what came of it.

use vstd::prelude::*;
use crate::bits::packed;
use crate::jtag::{Tap, TapModel};
use crate::rbb::{
    collect_image, image, law_chunks_join, law_one_answer_per_read, law_quit_on_q,
    law_taking_is_invisible, reads, serve_chunk, served, RbbConfig, Reply, QUIT,
};
use crate::scan::{ready, upload, Route};
use crate::wire::{law_client_uploads, sent};

verus! {

/// What has happened in a session with a client.
#[derive(Debug, PartialEq, Eq)]
pub enum Event {
    /// The client sent these bytes.
    Received(Vec<u8>),
    /// The client closed the connection.
    Closed,
    /// The reply was sent.
    Sent,
    /// The output file was written.
    Saved,
    /// The last action failed.
    Failed,
}

/// What is to be done next in a session with a client.
#[derive(Debug, PartialEq, Eq)]
pub enum Action {
    /// Wait for bytes from the client.
    Receive,
    /// Send these bytes to the client.
    Send(Vec<u8>),
    /// Write these bytes to the output file.
    Save(Vec<u8>),
    /// End the session, which went well or not.
    Finish(bool),
}

/// What follows once the client has its reply: a latched bitstream is saved,
/// where a file is wanted. Without one the session ends if the client has
/// quit, and else waits for more.
pub open spec fn after_sent(m: TapModel, quit: bool, wanted: bool, a: Action) -> bool {
    match image(m, wanted) {
        Some(octets) => a matches Action::Save(v) && v@ == octets,
        None => a == after_saved(quit),
    }
}

/// The TAP once the client has its reply. A latched bitstream is taken, saved
/// or not, except where the client has quit and no file is wanted: then nobody
/// asks for it.
pub open spec fn settled(m: TapModel, quit: bool, wanted: bool) -> TapModel {
    if quit && !wanted {
        m
    } else {
        m.taken()
    }
}

/// What follows once nothing is left to save.
pub open spec fn after_saved(quit: bool) -> Action {
    if quit {
        Action::Finish(true)
    } else {
        Action::Receive
    }
}

/// How an event moves a session on, from the TAP `m` and what is known of the
/// client's quitting to the TAP `n`, `n_quit` and the action `a`.
pub open spec fn advanced(
    m: TapModel,
    quit: bool,
    wanted: bool,
    event: Event,
    n: TapModel,
    n_quit: bool,
    a: Action,
) -> bool {
    match event {
        Event::Received(chunk) => {
            let s = served(m, chunk@);
            &&& n_quit == s.quit
            &&& if s.response.len() > 0 {
                &&& n == s.tap
                &&& a matches Action::Send(v) && v@ == s.response
            } else {
                &&& n == settled(s.tap, s.quit, wanted)
                &&& after_sent(s.tap, s.quit, wanted, a)
            }
        },
        Event::Sent => {
            &&& n == settled(m, quit, wanted)
            &&& n_quit == quit
            &&& after_sent(m, quit, wanted, a)
        },
        Event::Saved => n == m && n_quit == quit && a == after_saved(quit),
        Event::Closed => n == m && n_quit == quit && a == Action::Finish(true),
        Event::Failed => n == m && n_quit == quit && a == Action::Finish(false),
    }
}

fn settle(tap: &mut Tap, quit: bool, wanted: bool) -> (a: Action)
    requires
        old(tap).wf(),
    ensures
        final(tap).wf(),
        final(tap)@ == settled(old(tap)@, quit, wanted),
        after_sent(old(tap)@, quit, wanted, a),
{
    if quit && !wanted {
        return Action::Finish(true);
    }
    match collect_image(tap, wanted) {
        Some(octets) => Action::Save(octets),
        None => go_on(quit),
    }
}

fn go_on(quit: bool) -> (a: Action)
    ensures
        a == after_saved(quit),
{
    if quit {
        Action::Finish(true)
    } else {
        Action::Receive
    }
}

/// Move a session on. `quit` remembers whether the client has quit, and
/// `wanted` says whether there is an output file.
pub fn advance(tap: &mut Tap, quit: &mut bool, wanted: bool, event: Event) -> (a: Action)
    requires
        old(tap).wf(),
    ensures
        final(tap).wf(),
        advanced(old(tap)@, *old(quit), wanted, event, final(tap)@, *final(quit), a),
{
    match event {
        Event::Received(chunk) => {
            let reply: Reply = serve_chunk(tap, chunk.as_slice());
            *quit = reply.quit;
            if reply.response.len() > 0 {
                Action::Send(reply.response)
            } else {
                settle(tap, reply.quit, wanted)
            }
        },
        Event::Sent => settle(tap, *quit, wanted),
        Event::Saved => go_on(*quit),
        Event::Closed => Action::Finish(true),
        Event::Failed => Action::Finish(false),
    }
}

/// What has happened to the server.
#[derive(Clone, Copy, Debug, PartialEq, Eq)]
pub enum ServerEvent {
    /// The server listens.
    Bound,
    /// A client has connected.
    Accepted,
    /// The session with a client is over, however it went.
    ClientDone,
    /// Listening or accepting failed.
    Failed,
}

/// What the server is to do next.
pub enum ServerAction {
    /// Wait for a client.
    Accept,
    /// Serve the client with this TAP.
    Serve(Tap),
    /// Stop, in good order or not.
    Finish(bool),
}

/// Decide what the server does next. It serves one client at a time, each with
/// a TAP of its own, and stops after the first one if it is to serve once.
pub fn server_step(cfg: &RbbConfig, event: ServerEvent) -> (a: ServerAction)
    ensures
        match event {
            ServerEvent::Bound => a is Accept,
            ServerEvent::Accepted => a matches ServerAction::Serve(t) && t.wf()
                && t@ == TapModel::power_up(cfg.idcode),
            ServerEvent::ClientDone => if cfg.once {
                a == ServerAction::Finish(true)
            } else {
                a is Accept
            },
            ServerEvent::Failed => a == ServerAction::Finish(false),
        },
{
    match event {
        ServerEvent::Bound => ServerAction::Accept,
        ServerEvent::Accepted => ServerAction::Serve(Tap::new(cfg.idcode)),
        ServerEvent::ClientDone => {
            if cfg.once {
                ServerAction::Finish(true)
            } else {
                ServerAction::Accept
            }
        },
        ServerEvent::Failed => ServerAction::Finish(false),
    }
}

/// What a read is answered: all the answers to it, in order, and nothing where
/// there is none. The TAP then stays as the read left it until the reply is
/// sent. A `Q` in the read is remembered.
pub proof fn law_reply_is_whole(
    m: TapModel,
    quit: bool,
    wanted: bool,
    chunk: Vec<u8>,
    n: TapModel,
    n_quit: bool,
    a: Action,
)
    requires
        advanced(m, quit, wanted, Event::Received(chunk), n, n_quit, a),
    ensures
        n_quit == chunk@.contains(0x51u8),
        a is Send <==> served(m, chunk@).response.len() > 0,
        a matches Action::Send(reply) ==> {
            &&& reply@ == served(m, chunk@).response
            &&& !chunk@.contains(0x51u8) ==> reply@.len() == reads(chunk@)
            &&& n == served(m, chunk@).tap
        },
{
    law_quit_on_q(m, chunk@);
    if !chunk@.contains(QUIT) {
        law_one_answer_per_read(m, chunk@);
    }
}

/// What follows a read without an answer, and a reply that was sent: where there
/// is an output file and a bitstream was latched, its octets are saved and it
/// leaves the TAP. Else the session ends if the client has quit, the TAP as it
/// was, and otherwise goes on, with nothing latched.
pub proof fn law_after_the_reply(
    m: TapModel,
    quit: bool,
    wanted: bool,
    event: Event,
    n: TapModel,
    n_quit: bool,
    a: Action,
)
    requires
        advanced(m, quit, wanted, event, n, n_quit, a),
        event is Received && a !is Send || event is Sent,
    ensures
        event is Sent ==> n_quit == quit,
        ({
            let before = match event {
                Event::Received(chunk) => served(m, chunk@).tap,
                _ => m,
            };
            let empty = TapModel { last_config: None, ..before };
            if wanted && before.last_config is Some {
                &&& a matches Action::Save(octets) && octets@ == packed(before.last_config->0)
                &&& n == empty
            } else if n_quit {
                &&& a == Action::Finish(true)
                &&& n == before
            } else {
                &&& a == Action::Receive
                &&& n == empty
            }
        }),
{
}

/// What follows a save, a closed connection and a failure. None of them touches
/// the TAP or what is known of the client's quitting.
pub proof fn law_after_other_events(
    m: TapModel,
    quit: bool,
    wanted: bool,
    event: Event,
    n: TapModel,
    n_quit: bool,
    a: Action,
)
    requires
        advanced(m, quit, wanted, event, n, n_quit, a),
        event is Saved || event is Closed || event is Failed,
    ensures
        n == m,
        n_quit == quit,
        event is Closed ==> a == Action::Finish(true),
        event is Failed ==> a == Action::Finish(false),
        event is Saved && quit ==> a == Action::Finish(true),
        event is Saved && !quit ==> a == Action::Receive,
{
}

/// What the laws say of a session holds of the function that moves it on, on any
/// event.
pub proof fn law_advance_called(tap: &mut Tap, quit: &mut bool, wanted: bool, event: Event, a: Action)
    requires
        call_ensures(advance, (tap, quit, wanted, event), a),
    ensures
        old(tap).wf() ==> call_requires(advance, (tap, quit, wanted, event)),
        final(tap).wf(),
        advanced(old(tap)@, *old(quit), wanted, event, final(tap)@, *final(quit), a),
{
}

/// The server waits for a client when it listens and when a client is done,
/// unless it serves once: then it stops in good order. Every client gets a TAP
/// that has just powered up. The server stops in bad order where it fails.
pub proof fn law_server(cfg: &RbbConfig, event: ServerEvent, a: ServerAction)
    requires
        call_ensures(server_step, (cfg, event), a),
    ensures
        call_requires(server_step, (cfg, event)),
        a is Accept <==> event is Bound || event is ClientDone && !cfg.once,
        a is Serve <==> event is Accepted,
        a matches ServerAction::Serve(tap) ==> tap.wf() && tap@ == TapModel::power_up(cfg.idcode),
        a == ServerAction::Finish(true) <==> event is ClientDone && cfg.once,
        a == ServerAction::Finish(false) <==> event is Failed,
{
}

/// Sending a reply does not change what follows a read: the TAP, whether the
/// client has quit and what is saved are as if there had been nothing to send.
pub proof fn law_reply_first(
    m: TapModel,
    quit: bool,
    wanted: bool,
    chunk: Vec<u8>,
    n: TapModel,
    n_quit: bool,
    reply: Action,
    after: TapModel,
    after_quit: bool,
    a: Action,
)
    requires
        advanced(m, quit, wanted, Event::Received(chunk), n, n_quit, reply),
        reply is Send,
        advanced(n, n_quit, wanted, Event::Sent, after, after_quit, a),
    ensures
        after == settled(served(m, chunk@).tap, served(m, chunk@).quit, wanted),
        after_quit == served(m, chunk@).quit,
        after_sent(served(m, chunk@).tap, served(m, chunk@).quit, wanted, a),
{
}

/// After a read, and once its reply is sent, nothing latched is left in the
/// TAP of a session that goes on or has an output file. Where the client has
/// quit and there is none, what is latched stays as the read left it.
pub proof fn law_nothing_left(
    m: TapModel,
    quit: bool,
    wanted: bool,
    event: Event,
    n: TapModel,
    n_quit: bool,
    a: Action,
)
    requires
        advanced(m, quit, wanted, event, n, n_quit, a),
        event is Received && a !is Send || event is Sent,
    ensures
        wanted || !n_quit ==> n.last_config is None,
        !wanted && n_quit ==> n.last_config == match event {
            Event::Received(chunk) => served(m, chunk@).tap.last_config,
            _ => m.last_config,
        },
{
}

/// A session ends in good order exactly when the client closes the connection,
/// or when it has quit and nothing is left to send or save.
pub proof fn law_good_end(
    m: TapModel,
    quit: bool,
    wanted: bool,
    event: Event,
    n: TapModel,
    n_quit: bool,
    a: Action,
)
    requires
        advanced(m, quit, wanted, event, n, n_quit, a),
    ensures
        a == Action::Finish(true) <==> match event {
            Event::Received(chunk) => {
                let s = served(m, chunk@);
                chunk@.contains(QUIT) && s.response.len() == 0 && image(s.tap, wanted) is None
            },
            Event::Closed => true,
            Event::Sent => quit && image(m, wanted) is None,
            Event::Saved => quit,
            Event::Failed => false,
        },
{
    if let Event::Received(chunk) = event {
        law_quit_on_q(m, chunk@);
    }
}

/// A failure ends the session and nothing else does so badly. Where the reply
/// failed, nothing is saved, and the bitstream stays in the TAP.
pub proof fn law_failure_ends(
    m: TapModel,
    quit: bool,
    wanted: bool,
    event: Event,
    n: TapModel,
    n_quit: bool,
    a: Action,
)
    requires
        advanced(m, quit, wanted, event, n, n_quit, a),
    ensures
        a == Action::Finish(false) <==> event is Failed,
        event is Failed ==> n == m,
        a is Send ==> n.last_config == served(m, event->Received_0@).tap.last_config,
{
}

/// How the byte stream is cut into reads does not show: what two reads do to
/// the TAP, what they answer and whether they end the session is what one read
/// of both does, though the bitstream of the first was taken in between.
pub proof fn law_reads_join(m: TapModel, a: Seq<u8>, b: Seq<u8>)
    requires
        !a.contains(QUIT),
    ensures
        ({
            let first = served(m, a);
            let second = served(first.tap.taken(), b);
            let both = served(m, a + b);
            &&& both.tap.taken() == second.tap.taken()
            &&& both.response == first.response + second.response
            &&& both.quit == second.quit
        }),
{
    law_chunks_join(m, a, b);
    law_taking_is_invisible(served(m, a).tap, b);
}

/// A bitstream that a client uploads is written to the output file in the turn
/// of the read that completes it, once a reply is sent where there is one.
/// `begun` is what earlier reads gave of the upload. What else stands in the
/// read does not matter, a `Q` included, as long as it latches no other
/// bitstream.
pub proof fn law_upload_saved(
    m: TapModel,
    select: Route,
    load: Route,
    payload: Seq<bool>,
    begun: Seq<u8>,
    completed: Seq<u8>,
    rest: Seq<u8>,
    chunk: Vec<u8>,
    quit: bool,
    n: TapModel,
    n_quit: bool,
    a: Action,
)
    requires
        m.valid(),
        ready(m, select),
        payload.len() > 0,
        begun + completed == sent(upload(select, load, payload)),
        chunk@ == completed + rest,
        served(
            served(m, sent(upload(select, load, payload))).tap.taken(),
            rest,
        ).tap.last_config is None,
        advanced(served(m, begun).tap, quit, true, Event::Received(chunk), n, n_quit, a),
    ensures
        n_quit == rest.contains(QUIT),
        if served(served(m, begun).tap, chunk@).response.len() == 0 {
            a matches Action::Save(octets) && octets@ == packed(payload)
        } else {
            &&& a is Send
            &&& forall|after: TapModel, after_quit: bool, next: Action| #[trigger]
                advanced(n, n_quit, true, Event::Sent, after, after_quit, next) ==> (
                next matches Action::Save(octets) && octets@ == packed(payload))
        },
{
    let bytes = sent(upload(select, load, payload));
    let started = served(m, begun).tap;
    let reached = served(m, bytes).tap;
    law_client_uploads(m, select, load, payload);
    law_quit_on_q(m, bytes);
    assert forall|i: int| 0 <= i < begun.len() implies begun[i] != QUIT by {
        assert(bytes[i] == begun[i]);
    }
    assert forall|i: int| 0 <= i < completed.len() implies completed[i] != QUIT by {
        assert(bytes[begun.len() + i] == completed[i]);
    }
    law_chunks_join(m, begun, completed);
    law_chunks_join(started, completed, rest);
    law_taking_is_invisible(reached, rest);
    law_quit_on_q(reached, rest);
}

/// A `Q` alone changes nothing in the TAP and has no reply, so a bitstream that
/// is complete when the client quits is saved where a file is wanted.
pub proof fn law_quit_latches_nothing(m: TapModel)
    ensures
        served(m, seq![QUIT]).tap == m,
        served(m, seq![QUIT]).response.len() == 0,
        served(m, seq![QUIT]).quit,
{
    assert(seq![QUIT].drop_last() =~= Seq::<u8>::empty());
    reveal_with_fuel(served, 2);
}

} // verus!
