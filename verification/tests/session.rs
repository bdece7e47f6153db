use aegis_harness::bits::pack_bits_lsb_first;
use aegis_harness::jtag::Tap;
use aegis_harness::rbb::RbbConfig;
use aegis_harness::session::{advance, server_step, Action, Event, ServerAction, ServerEvent};
use aegis_harness::states::TLR;
use std::path::PathBuf;

fn sent(tms: bool, tdi: bool) -> Vec<u8> {
    let pins: u8 = ((tms as u8) << 1) | tdi as u8;
    vec![b'0' + pins, b'4' + pins]
}

fn walk(tms: &[bool]) -> Vec<u8> {
    let mut out: Vec<u8> = Vec::new();
    for &level in tms {
        out.extend(sent(level, false));
    }
    out
}

fn scan(tdi: &[bool]) -> Vec<u8> {
    let mut out: Vec<u8> = Vec::new();
    for i in 0..tdi.len() {
        out.extend(sent(i + 1 == tdi.len(), tdi[i]));
    }
    out
}

/// Selects CONFIG, shifts the payload and stays in Update-DR.
fn upload(payload: &[bool]) -> Vec<u8> {
    let mut out = walk(&[false, true, true, false, false]);
    out.extend(scan(&[false, true, false, false]));
    out.extend(walk(&[true]));
    out.extend(walk(&[true, false, false]));
    out.extend(scan(payload));
    out.extend(walk(&[true]));
    out
}

fn config(once: bool) -> RbbConfig {
    RbbConfig {
        host: String::from("127.0.0.1"),
        port: 9824,
        idcode: 0x1357_9bdf,
        bitstream_out: Some(PathBuf::from("out.bin")),
        once,
    }
}

const PAYLOAD: [bool; 11] = [
    true, false, true, true, false, false, true, false, true, true, true,
];

#[test]
fn bitstream_latched_in_the_read_that_quits_is_saved() {
    let mut tap = Tap::new(1);
    let mut quit = false;
    let mut bytes = upload(&PAYLOAD);
    bytes.push(b'Q');
    let action = advance(&mut tap, &mut quit, true, Event::Received(bytes));
    assert_eq!(action, Action::Save(vec![0x4d, 0x07]));
    assert_eq!(pack_bits_lsb_first(&PAYLOAD), vec![0x4d, 0x07]);
    assert!(quit);
    let action = advance(&mut tap, &mut quit, true, Event::Saved);
    assert_eq!(action, Action::Finish(true));
    assert_eq!(tap.take_last_config(), None);
}

#[test]
fn reply_is_sent_before_the_bitstream_is_saved() {
    let mut tap = Tap::new(1);
    let mut quit = false;
    let mut bytes = upload(&PAYLOAD);
    bytes.extend(b"RQ");
    let action = advance(&mut tap, &mut quit, true, Event::Received(bytes));
    assert_eq!(action, Action::Send(vec![b'1']));
    assert!(quit);
    let action = advance(&mut tap, &mut quit, true, Event::Sent);
    assert_eq!(action, Action::Save(vec![0x4d, 0x07]));
    let action = advance(&mut tap, &mut quit, true, Event::Saved);
    assert_eq!(action, Action::Finish(true));
}

#[test]
fn session_goes_on_after_a_save() {
    let mut tap = Tap::new(1);
    let mut quit = false;
    for payload in [vec![true], vec![false, true]] {
        let action = advance(&mut tap, &mut quit, true, Event::Received(upload(&payload)));
        assert_eq!(action, Action::Save(pack_bits_lsb_first(&payload)));
        let action = advance(&mut tap, &mut quit, true, Event::Saved);
        assert_eq!(action, Action::Receive);
        // The next upload starts in Test-Logic-Reset.
        let action = advance(&mut tap, &mut quit, true, Event::Received(vec![b't']));
        assert_eq!(action, Action::Receive);
        assert_eq!(tap.state(), TLR);
    }
    assert!(!quit);
}

#[test]
fn upload_cut_into_reads_is_saved_when_complete() {
    let bytes = upload(&PAYLOAD);
    for cut in 0..bytes.len() {
        let mut tap = Tap::new(1);
        let mut quit = false;
        let first = Event::Received(bytes[..cut].to_vec());
        assert_eq!(advance(&mut tap, &mut quit, true, first), Action::Receive);
        let second = Event::Received(bytes[cut..].to_vec());
        assert_eq!(
            advance(&mut tap, &mut quit, true, second),
            Action::Save(vec![0x4d, 0x07])
        );
    }
}

#[test]
fn nothing_is_saved_where_no_file_is_wanted() {
    let mut tap = Tap::new(1);
    let mut quit = false;
    let action = advance(&mut tap, &mut quit, false, Event::Received(upload(&PAYLOAD)));
    assert_eq!(action, Action::Receive);
    assert_eq!(tap.take_last_config(), None);
    let mut bytes = upload(&[true]);
    bytes.insert(0, b'r');
    bytes.push(b'Q');
    let action = advance(&mut tap, &mut quit, false, Event::Received(bytes));
    assert_eq!(action, Action::Finish(true));
    assert_eq!(tap.take_last_config(), Some(vec![true]));
}

#[test]
fn quitting_client_leaves_the_bitstream_where_no_file_is_wanted() {
    let mut tap = Tap::new(1);
    let mut quit = false;
    let mut bytes = upload(&PAYLOAD);
    bytes.extend(b"RQ");
    let action = advance(&mut tap, &mut quit, false, Event::Received(bytes));
    assert_eq!(action, Action::Send(vec![b'1']));
    let action = advance(&mut tap, &mut quit, false, Event::Sent);
    assert_eq!(action, Action::Finish(true));
    assert_eq!(tap.take_last_config(), Some(PAYLOAD.to_vec()));

    let mut tap = Tap::new(1);
    let mut quit = false;
    let mut bytes = upload(&PAYLOAD);
    bytes.push(b'R');
    advance(&mut tap, &mut quit, false, Event::Received(bytes));
    let action = advance(&mut tap, &mut quit, false, Event::Sent);
    assert_eq!(action, Action::Receive);
    assert_eq!(tap.take_last_config(), None);
}

#[test]
fn quit_alone_ends_the_session() {
    let mut tap = Tap::new(1);
    let mut quit = false;
    let action = advance(&mut tap, &mut quit, true, Event::Received(b"Q7R".to_vec()));
    assert_eq!(action, Action::Finish(true));
    assert!(quit);
    assert_eq!(tap.state(), TLR);
}

#[test]
fn reply_without_a_bitstream() {
    let mut tap = Tap::new(1);
    let mut quit = false;
    let action = advance(&mut tap, &mut quit, true, Event::Received(b"RBR".to_vec()));
    assert_eq!(action, Action::Send(b"00".to_vec()));
    assert_eq!(advance(&mut tap, &mut quit, true, Event::Sent), Action::Receive);
    let action = advance(&mut tap, &mut quit, true, Event::Received(b"RQ".to_vec()));
    assert_eq!(action, Action::Send(b"0".to_vec()));
    assert_eq!(
        advance(&mut tap, &mut quit, true, Event::Sent),
        Action::Finish(true)
    );
}

#[test]
fn closed_connection_ends_the_session_well() {
    let mut tap = Tap::new(1);
    let mut quit = false;
    assert_eq!(
        advance(&mut tap, &mut quit, true, Event::Closed),
        Action::Finish(true)
    );
    assert!(!quit);
}

#[test]
fn failed_reply_leaves_the_bitstream_in_the_tap() {
    let mut tap = Tap::new(1);
    let mut quit = false;
    let mut bytes = upload(&PAYLOAD);
    bytes.push(b'R');
    let action = advance(&mut tap, &mut quit, true, Event::Received(bytes));
    assert_eq!(action, Action::Send(vec![b'1']));
    let action = advance(&mut tap, &mut quit, true, Event::Failed);
    assert_eq!(action, Action::Finish(false));
    assert_eq!(tap.take_last_config(), Some(PAYLOAD.to_vec()));
}

#[test]
fn failed_read_or_save_ends_the_session() {
    let mut tap = Tap::new(1);
    let mut quit = false;
    assert_eq!(
        advance(&mut tap, &mut quit, true, Event::Failed),
        Action::Finish(false)
    );
    advance(&mut tap, &mut quit, true, Event::Received(upload(&PAYLOAD)));
    assert_eq!(
        advance(&mut tap, &mut quit, true, Event::Failed),
        Action::Finish(false)
    );
}

#[test]
fn server_waits_for_clients() {
    for once in [false, true] {
        assert!(matches!(
            server_step(&config(once), ServerEvent::Bound),
            ServerAction::Accept
        ));
        assert!(matches!(
            server_step(&config(once), ServerEvent::Failed),
            ServerAction::Finish(false)
        ));
    }
}

#[test]
fn each_client_gets_a_new_tap() {
    let mut tap = match server_step(&config(false), ServerEvent::Accepted) {
        ServerAction::Serve(tap) => tap,
        _ => panic!("expected a TAP"),
    };
    assert_eq!(tap.state(), TLR);
    let mut quit = false;
    let mut bytes = walk(&[false, true, false, false]);
    for _ in 0..32 {
        bytes.extend(b"04R");
    }
    let reply = match advance(&mut tap, &mut quit, false, Event::Received(bytes)) {
        Action::Send(reply) => reply,
        _ => panic!("expected a reply"),
    };
    let mut code: u32 = 0;
    for i in 0..32 {
        if reply[i] == b'1' {
            code |= 1 << i;
        }
    }
    assert_eq!(code, 0x1357_9bdf);
}

#[test]
fn server_loops_unless_it_serves_once() {
    assert!(matches!(
        server_step(&config(false), ServerEvent::ClientDone),
        ServerAction::Accept
    ));
    assert!(matches!(
        server_step(&config(true), ServerEvent::ClientDone),
        ServerAction::Finish(true)
    ));
}
