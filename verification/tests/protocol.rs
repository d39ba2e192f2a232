use etty::{
    bytes_to_uint, cus_pos_rpt, is_cus_pos_end, parse_cus_pos, ReadLoop, ReadStep, RecvEvent,
    C0, Idiom,
};

#[test]
fn cursor_position_report_swaps_to_column_row() {
    assert_eq!(parse_cus_pos(b"\x1b[24;80R"), Some((80, 24)));
}

#[test]
fn cursor_position_report_skips_leading_noise() {
    assert_eq!(parse_cus_pos(b"zz\x1b[1;2R"), Some((2, 1)));
}

#[test]
fn cursor_position_report_malformed() {
    assert_eq!(parse_cus_pos(b""), None);
    assert_eq!(parse_cus_pos(b"\x1b"), None);
    assert_eq!(parse_cus_pos(b"\x1bx24;80R"), None);
    assert_eq!(parse_cus_pos(b"\x1b[;80R"), None);
    assert_eq!(parse_cus_pos(b"\x1b[24;R"), None);
    assert_eq!(parse_cus_pos(b"\x1b[a4;80R"), None);
    assert_eq!(parse_cus_pos(b"\x1b[24:80R"), None);
    assert_eq!(parse_cus_pos(b"\x1b[70000;80R"), None);
    assert_eq!(parse_cus_pos(b"\x1b[24;80"), None);
}

#[test]
fn cursor_report_request_bytes() {
    let c = cus_pos_rpt();
    assert_eq!(c.as_bytes().as_slice(), &b"\x1b[6n"[..]);
}

#[test]
fn stop_predicate_matches_report_terminator() {
    assert!(is_cus_pos_end(b'R'));
    assert!(!is_cus_pos_end(b'x'));
    assert!(!is_cus_pos_end(0x1b));
}

#[test]
fn decimal_fields() {
    assert_eq!(bytes_to_uint(b"0"), Some(0));
    assert_eq!(bytes_to_uint(b"123"), Some(123));
    assert_eq!(bytes_to_uint(b"007"), Some(7));
    assert_eq!(bytes_to_uint(b"65535"), Some(65535));
    assert_eq!(bytes_to_uint(b"65536"), None);
    assert_eq!(bytes_to_uint(b"99999"), None);
    assert_eq!(bytes_to_uint(b""), None);
    assert_eq!(bytes_to_uint(b"12a"), None);
    assert_eq!(bytes_to_uint(b"-1"), None);
}

#[test]
fn read_loop_fills_to_capacity() {
    let mut rl = ReadLoop::begin(2);
    assert_eq!(rl.on_event(RecvEvent::Byte(10)), ReadStep::Continue);
    assert_eq!(rl.on_event(RecvEvent::Byte(11)), ReadStep::Done(2));
    assert_eq!(rl.into_bytes(), vec![10, 11]);
}

#[test]
fn read_loop_disconnect_ends_with_what_arrived() {
    let mut rl = ReadLoop::begin(4);
    assert_eq!(rl.on_event(RecvEvent::Byte(1)), ReadStep::Continue);
    assert_eq!(rl.on_event(RecvEvent::Disconnected), ReadStep::Done(1));
    assert_eq!(rl.into_bytes(), vec![1]);
}

#[test]
fn read_loop_disconnect_with_nothing_is_end_of_stream() {
    let mut rl = ReadLoop::begin(4);
    assert_eq!(rl.on_event(RecvEvent::Disconnected), ReadStep::Done(0));
    assert_eq!(rl.into_bytes(), Vec::<u8>::new());
}

#[test]
fn read_loop_forwards_read_errors() {
    let mut rl = ReadLoop::begin(4);
    assert_eq!(rl.on_event(RecvEvent::ReadErr), ReadStep::FailRead);
}

#[test]
fn read_loop_timeout_fails_while_sender_stays_usable() {
    let (tx, rx) = crossbeam::channel::unbounded::<u8>();
    let recv = |rx: &crossbeam::channel::Receiver<u8>| -> RecvEvent {
        match rx.recv_timeout(std::time::Duration::from_millis(50)) {
            Ok(b) => RecvEvent::Byte(b),
            Err(crossbeam::channel::RecvTimeoutError::Timeout) => RecvEvent::Timeout,
            Err(crossbeam::channel::RecvTimeoutError::Disconnected) => RecvEvent::Disconnected,
        }
    };
    let mut rl = ReadLoop::begin(1);
    assert_eq!(rl.on_event(recv(&rx)), ReadStep::FailTimeout);
    tx.send(0x52).unwrap();
    let mut rl2 = ReadLoop::begin(1);
    assert_eq!(rl2.on_event(recv(&rx)), ReadStep::Done(1));
    assert_eq!(rl2.into_bytes(), vec![0x52]);
}

#[test]
fn c0_idioms() {
    assert_eq!(C0::Soh.as_idiom(), Idiom::Ctrl('a'));
    assert_eq!(C0::Sub.as_idiom(), Idiom::Ctrl('z'));
    assert_eq!(C0::Ht.as_idiom(), Idiom::Char('\t'));
    assert_eq!(C0::Lf.as_idiom(), Idiom::Char('\n'));
    assert_eq!(C0::Cr.as_idiom(), Idiom::Char('\r'));
    assert_eq!(C0::Nul.as_idiom(), Idiom::Char('\0'));
    assert_eq!(C0::Sp.as_idiom(), Idiom::Char(' '));
    assert_eq!(C0::Esc.as_idiom(), Idiom::Esc);
    assert_eq!(C0::Del.as_idiom(), Idiom::Del);
}

#[test]
fn c0_from_byte_covers_exactly_the_control_bytes() {
    assert_eq!(C0::from_byte(0x1b), Some(C0::Esc));
    assert_eq!(C0::from_byte(0x00), Some(C0::Nul));
    assert_eq!(C0::from_byte(127), Some(C0::Del));
    assert_eq!(C0::from_byte(0x41), None);
    assert_eq!(C0::from_byte(126), None);
    for b in 0u8..=32u8 {
        assert!(C0::from_byte(b).is_some());
    }
    for b in 33u8..=126u8 {
        assert!(C0::from_byte(b).is_none());
    }
}

#[test]
fn c0_codes_round_trip() {
    assert_eq!(C0::Esc.code(), 0x1b);
    assert_eq!(C0::Bel.code(), 7);
    for b in 0u8..=32u8 {
        assert_eq!(C0::from_byte(b).unwrap().code(), b);
    }
}

#[test]
fn terminal_size_query_runs() {
    let _ = etty::term_size();
    let _ = etty::term_size_px();
}
