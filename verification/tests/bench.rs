use aegis_harness::number::NumberError;
use aegis_harness::pins::{
    active_pads, pad_count, resolve_clock, resolve_monitors, resolve_pin, shown_pads, PinError,
};
use aegis_harness::stimulus::{
    drive, is_held, parse_stimulus, resolve_stimuli, split_text, Stimulus, StimulusError,
};
use aegis_harness::waveform::{sample, signal_id, signal_name, WaveEvent, CLOCK_ID};

fn texts(list: &[&str]) -> Vec<String> {
    list.iter().map(|s| s.to_string()).collect()
}

#[test]
fn pins_are_numbered_from_north_to_west() {
    assert_eq!(resolve_pin("n0", 4, 3), Ok(0));
    assert_eq!(resolve_pin("N3", 4, 3), Ok(3));
    assert_eq!(resolve_pin("e0", 4, 3), Ok(4));
    assert_eq!(resolve_pin("E2", 4, 3), Ok(6));
    assert_eq!(resolve_pin("s0", 4, 3), Ok(7));
    assert_eq!(resolve_pin("S3", 4, 3), Ok(10));
    assert_eq!(resolve_pin("w0", 4, 3), Ok(11));
    assert_eq!(resolve_pin("W2", 4, 3), Ok(13));
    assert_eq!(pad_count(4, 3), 14);
}

#[test]
fn every_pad_has_one_name() {
    let (width, height): (usize, usize) = (5, 3);
    let mut seen: Vec<usize> = Vec::new();
    for (edge, length) in [("n", width), ("e", height), ("s", width), ("w", height)] {
        for position in 0..length {
            let name = format!("{edge}{position}");
            seen.push(resolve_pin(&name, width, height).unwrap());
        }
    }
    assert_eq!(seen, (0..pad_count(width, height)).collect::<Vec<usize>>());
}

#[test]
fn positions_past_the_edge_are_not_checked() {
    assert_eq!(resolve_pin("n9", 4, 3), Ok(9));
    assert_eq!(resolve_pin("w+1", 4, 3), Ok(12));
}

#[test]
fn each_pin_error() {
    assert_eq!(resolve_pin("", 4, 3), Err(PinError::NoEdge));
    assert_eq!(resolve_pin("\u{e9}1", 4, 3), Err(PinError::NoEdge));
    assert_eq!(
        resolve_pin("n", 4, 3),
        Err(PinError::Position(NumberError::Empty))
    );
    assert_eq!(
        resolve_pin("xy", 4, 3),
        Err(PinError::Position(NumberError::InvalidDigit))
    );
    assert_eq!(resolve_pin("x1", 4, 3), Err(PinError::UnknownEdge));
    assert_eq!(resolve_pin("11", 4, 3), Err(PinError::UnknownEdge));
    let last = format!("e{}", usize::MAX);
    assert_eq!(resolve_pin(&last, 4, 3), Err(PinError::Overflow));
    let north = format!("n{}", usize::MAX);
    assert_eq!(resolve_pin(&north, 4, 3), Ok(usize::MAX));
}

#[test]
fn monitors_come_from_numbers_and_names() {
    let monitors = resolve_monitors(&[8, 2], &texts(&["w0", "q1", "nx", "e1"]), 4, 3);
    assert_eq!(monitors.pads, vec![8, 2, 11, 5]);
    assert_eq!(
        monitors.outcomes,
        vec![
            Ok(11),
            Err(PinError::UnknownEdge),
            Err(PinError::Position(NumberError::InvalidDigit)),
            Ok(5),
        ]
    );
}

#[test]
fn monitors_stop_at_a_fatal_name() {
    let monitors = resolve_monitors(&[], &texts(&["w0", "", "e1"]), 4, 3);
    assert_eq!(monitors.pads, vec![11]);
    assert_eq!(monitors.outcomes, vec![Ok(11), Err(PinError::NoEdge)]);
}

#[test]
fn clock_number_goes_before_clock_name() {
    assert_eq!(resolve_clock(Some(6), Some("?"), 4, 3), Ok(Some(6)));
    assert_eq!(resolve_clock(None, Some("w0"), 4, 3), Ok(Some(11)));
    assert_eq!(resolve_clock(None, None, 4, 3), Ok(None));
    assert_eq!(
        resolve_clock(None, Some("x0"), 4, 3),
        Err(PinError::UnknownEdge)
    );
}

#[test]
fn stimulus_with_range() {
    assert_eq!(
        parse_stimulus("w1:0-9", 4, 3, 1000),
        Ok(Stimulus { pad: 12, start: 0, end: 9 })
    );
    assert_eq!(
        parse_stimulus("n2:5", 4, 3, 1000),
        Ok(Stimulus { pad: 2, start: 5, end: 1000 })
    );
    assert_eq!(
        parse_stimulus("n2:5-6-7", 4, 3, 1000),
        Ok(Stimulus { pad: 2, start: 5, end: 6 })
    );
}

#[test]
fn each_stimulus_error() {
    assert_eq!(parse_stimulus("w1", 4, 3, 9), Err(StimulusError::Format));
    assert_eq!(parse_stimulus("", 4, 3, 9), Err(StimulusError::Format));
    assert_eq!(parse_stimulus("w1:2:3", 4, 3, 9), Err(StimulusError::Format));
    assert_eq!(
        parse_stimulus("x1:2", 4, 3, 9),
        Err(StimulusError::Pin(PinError::UnknownEdge))
    );
    assert_eq!(
        parse_stimulus(":2", 4, 3, 9),
        Err(StimulusError::Pin(PinError::NoEdge))
    );
    assert_eq!(
        parse_stimulus("w1:", 4, 3, 9),
        Err(StimulusError::Start(NumberError::Empty))
    );
    assert_eq!(
        parse_stimulus("w1:a-2", 4, 3, 9),
        Err(StimulusError::Start(NumberError::InvalidDigit))
    );
    assert_eq!(
        parse_stimulus("w1:2-", 4, 3, 9),
        Err(StimulusError::End(NumberError::Empty))
    );
}

#[test]
fn stimuli_leave_out_what_cannot_be_placed() {
    let stimuli = resolve_stimuli(&texts(&["w1:0-9", "bad", "q1:3", "n0:2"]), 4, 3, 50);
    assert_eq!(
        stimuli.list,
        vec![
            Stimulus { pad: 12, start: 0, end: 9 },
            Stimulus { pad: 0, start: 2, end: 50 },
        ]
    );
    assert_eq!(stimuli.outcomes.len(), 4);
    assert_eq!(stimuli.outcomes[1], Err(StimulusError::Format));
}

#[test]
fn stimuli_stop_at_a_fatal_text() {
    let stimuli = resolve_stimuli(&texts(&["w1:0-9", "n:3", "n0:2"]), 4, 3, 50);
    assert_eq!(stimuli.list.len(), 1);
    assert_eq!(
        stimuli.outcomes[1],
        Err(StimulusError::Pin(PinError::Position(NumberError::Empty)))
    );
    assert_eq!(stimuli.outcomes.len(), 2);
}

#[test]
fn split_keeps_empty_pieces() {
    let text: Vec<char> = ":a::b".chars().collect();
    let pieces = split_text(&text, ':');
    let expected: Vec<Vec<char>> = vec![vec![], vec!['a'], vec![], vec!['b']];
    assert_eq!(pieces, expected);
    assert_eq!(split_text(&[], ':'), vec![Vec::<char>::new()]);
}

#[test]
fn drive_sets_clock_then_stimuli() {
    let stimuli = [
        Stimulus { pad: 7, start: 2, end: 3 },
        Stimulus { pad: 7, start: 9, end: 9 },
    ];
    assert_eq!(drive(0, Some(1), &stimuli), vec![(1, true), (7, false), (7, false)]);
    assert_eq!(drive(1, Some(1), &stimuli), vec![(1, false), (7, false), (7, false)]);
    assert_eq!(drive(2, None, &stimuli), vec![(7, true), (7, true)]);
    assert_eq!(drive(3, None, &stimuli), vec![(7, true), (7, true)]);
    assert_eq!(drive(4, None, &stimuli), vec![(7, false), (7, false)]);
    assert_eq!(drive(9, None, &stimuli), vec![(7, true), (7, true)]);
    assert_eq!(drive(9, None, &[]), Vec::<(usize, bool)>::new());
}

#[test]
fn pad_is_high_when_any_stimulus_covers_the_cycle() {
    let stimuli = [
        Stimulus { pad: 7, start: 0, end: 20 },
        Stimulus { pad: 5, start: 1, end: 1 },
        Stimulus { pad: 7, start: 4, end: 4 },
    ];
    let high: Vec<bool> = (0..6).map(|cycle| is_held(cycle, &stimuli, 7)).collect();
    assert_eq!(high, vec![true; 6]);
    assert!(is_held(20, &stimuli, 7));
    assert!(!is_held(21, &stimuli, 7));
    assert!(is_held(1, &stimuli, 5));
    assert!(!is_held(2, &stimuli, 5));
    assert!(!is_held(1, &stimuli, 6));
    assert_eq!(drive(1, None, &stimuli), vec![(7, true), (5, true), (7, true)]);
}

#[test]
fn wave_entries_of_a_cycle() {
    assert_eq!(
        sample(3, &[true, false]),
        vec![
            WaveEvent::Time(6),
            WaveEvent::Level('!', true),
            WaveEvent::Level('"', true),
            WaveEvent::Level('#', false),
            WaveEvent::Time(7),
            WaveEvent::Level('!', false),
        ]
    );
    assert_eq!(CLOCK_ID, '!');
    assert_eq!(signal_id(221), '\u{ff}');
}

#[test]
fn signals_are_named_after_pads() {
    assert_eq!(signal_name(0), "io_0");
    assert_eq!(signal_name(137), "io_137");
}

#[test]
fn active_pads_in_order() {
    assert_eq!(active_pads(&[true, false, true, true]), vec![0, 2, 3]);
    assert_eq!(active_pads(&[]), Vec::<usize>::new());
    let many = active_pads(&[true; 25]);
    assert_eq!(many.len(), 25);
    assert_eq!(shown_pads(&many).to_vec(), (0..20).collect::<Vec<usize>>());
    assert_eq!(shown_pads(&many[..3]).to_vec(), vec![0, 1, 2]);
}
