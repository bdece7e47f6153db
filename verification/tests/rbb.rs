use aegis_harness::bits::pack_bits_lsb_first;
use aegis_harness::jtag::{Tap, IR_CONFIG, IR_IDCODE};
use aegis_harness::rbb::{collect_image, serve_chunk, RbbConfig};
use aegis_harness::states::{RTI, TLR};
use std::path::PathBuf;

fn sent(tms: bool, tdi: bool) -> Vec<u8> {
    let pins: u8 = ((tms as u8) << 1) | tdi as u8;
    vec![b'0' + pins, b'4' + pins]
}

fn walk(tms: &[bool]) -> Vec<u8> {
    let mut out: Vec<u8> = Vec::new();
    for &level in tms {
        out.extend(sent(level, false));
    }
    out
}

fn scan(tdi: &[bool], read: bool) -> Vec<u8> {
    let mut out: Vec<u8> = Vec::new();
    for i in 0..tdi.len() {
        out.extend(sent(i + 1 == tdi.len(), tdi[i]));
        if read {
            out.push(b'R');
        }
    }
    out
}

fn upload(payload: &[bool]) -> Vec<u8> {
    let mut out = walk(&[false, true, true, false, false]);
    out.extend(scan(&[false, true, false, false], false));
    out.extend(walk(&[true, false]));
    out.extend(walk(&[false, true, false, false]));
    out.extend(scan(payload, false));
    out.extend(walk(&[true, false]));
    out
}

#[test]
fn client_reads_idcode() {
    let mut tap = Tap::new(0x2468_ace1);
    let mut bytes = walk(&[false, true, false, false]);
    bytes.extend(scan(&[false; 32], true));
    let reply = serve_chunk(&mut tap, &bytes);
    assert!(!reply.quit);
    assert_eq!(reply.response.len(), 32);
    let mut got: u32 = 0;
    for i in 0..32 {
        assert!(reply.response[i] == b'0' || reply.response[i] == b'1');
        if reply.response[i] == b'1' {
            got |= 1 << i;
        }
    }
    assert_eq!(got, 0x2468_ace1);
}

#[test]
fn client_uploads_a_bitstream() {
    let payload: Vec<bool> = (0..21).map(|i| i % 4 == 1).collect();
    let mut tap = Tap::new(1);
    let reply = serve_chunk(&mut tap, &upload(&payload));
    assert_eq!(reply.response, Vec::<u8>::new());
    assert_eq!(tap.ir(), IR_CONFIG);
    assert_eq!(tap.state(), RTI);
    assert_eq!(
        collect_image(&mut tap, true),
        Some(pack_bits_lsb_first(&payload))
    );
    assert_eq!(collect_image(&mut tap, true), None);
}

#[test]
fn image_is_dropped_where_none_is_wanted() {
    let mut tap = Tap::new(1);
    serve_chunk(&mut tap, &upload(&[true, false, true]));
    assert_eq!(collect_image(&mut tap, false), None);
    assert_eq!(collect_image(&mut tap, true), None);
}

#[test]
fn chunks_join() {
    let mut bytes = walk(&[false, true, false, false]);
    bytes.extend(scan(&[true; 40], true));
    let mut whole = Tap::new(0xcafe_f00d);
    let expected = serve_chunk(&mut whole, &bytes).response;
    for cut in [0, 1, 7, 8, 9, 50, bytes.len()] {
        let mut tap = Tap::new(0xcafe_f00d);
        let mut got = serve_chunk(&mut tap, &bytes[..cut]).response;
        let _ = collect_image(&mut tap, true);
        got.extend(serve_chunk(&mut tap, &bytes[cut..]).response);
        assert_eq!(got, expected);
    }
}

#[test]
fn quit_ends_the_conversation() {
    let mut tap = Tap::new(1);
    let reply = serve_chunk(&mut tap, b"R04QR04");
    assert!(reply.quit);
    assert_eq!(reply.response, vec![b'0']);
    assert_eq!(tap.state(), RTI);
}

#[test]
fn resets_and_ignored_bytes() {
    for reset in [b'r', b's', b't', b'u'] {
        let mut tap = Tap::new(1);
        serve_chunk(&mut tap, b"04");
        assert_eq!(tap.state(), RTI);
        let reply = serve_chunk(&mut tap, &[reset]);
        assert_eq!(tap.state(), TLR);
        assert_eq!(tap.ir(), IR_IDCODE);
        assert_eq!(reply.response, Vec::<u8>::new());
    }
    let mut tap = Tap::new(1);
    serve_chunk(&mut tap, b"04");
    let reply = serve_chunk(&mut tap, b"BbOod89/vq \n\xff");
    assert_eq!(tap.state(), RTI);
    assert_eq!(reply.response, Vec::<u8>::new());
    assert!(!reply.quit);
}

#[test]
fn empty_chunk_changes_nothing() {
    let mut tap = Tap::new(1);
    let reply = serve_chunk(&mut tap, b"");
    assert_eq!(reply.response, Vec::<u8>::new());
    assert!(!reply.quit);
    assert_eq!(tap.state(), TLR);
}

#[test]
fn reads_see_the_level_of_tdo() {
    let mut tap = Tap::new(1);
    let mut bytes = b"R".to_vec();
    bytes.extend(walk(&[false, true, false, false]));
    bytes.extend(sent(false, false));
    bytes.extend(b"RR");
    assert_eq!(serve_chunk(&mut tap, &bytes).response, b"011".to_vec());
}

#[test]
fn address_joins_host_and_port() {
    let config = RbbConfig {
        host: "127.0.0.1".to_string(),
        port: 9824,
        idcode: 1,
        bitstream_out: Some(PathBuf::from("out.bin")),
        once: true,
    };
    assert_eq!(config.address(), "127.0.0.1:9824");
    assert_eq!(config.bitstream_out, Some(PathBuf::from("out.bin")));
    assert!(config.once);
}
