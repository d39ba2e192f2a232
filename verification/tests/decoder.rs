use etty::{decode_all, Decoder, Event, Key, Mouse, Nav, Window, C0};

#[test]
fn c0_controls_decode_one_byte_each() {
    let evs = decode_all(&[0x01, 0x0a, 0x7f, 0x20]);
    assert_eq!(evs.len(), 4);
    assert_eq!(evs[0].event, Event::Key(Key::C0(C0::Soh)));
    assert_eq!(evs[1].event, Event::Key(Key::C0(C0::Lf)));
    assert_eq!(evs[2].event, Event::Key(Key::C0(C0::Del)));
    assert_eq!(evs[3].event, Event::Key(Key::C0(C0::Sp)));
    assert_eq!(evs[0].raw, vec![0x01]);
}

#[test]
fn esc_alone_is_undefined_with_its_raw_byte() {
    let evs = decode_all(&[0x1b]);
    assert_eq!(evs.len(), 1);
    assert_eq!(evs[0].event, Event::Undefined);
    assert_eq!(evs[0].raw, vec![0x1b]);
}

#[test]
fn csi_arrow_up() {
    let evs = decode_all(&[0x1b, 0x5b, 0x41]);
    assert_eq!(evs.len(), 1);
    assert_eq!(evs[0].event, Event::Key(Key::Nav(Nav::Up)));
    assert_eq!(evs[0].raw, vec![0x1b, 0x5b, 0x41]);
}

#[test]
fn csi_single_letter_terminators() {
    assert_eq!(decode_all(b"\x1b[B")[0].event, Event::Key(Key::Nav(Nav::Dn)));
    assert_eq!(decode_all(b"\x1b[C")[0].event, Event::Key(Key::Nav(Nav::Rgt)));
    assert_eq!(decode_all(b"\x1b[D")[0].event, Event::Key(Key::Nav(Nav::Lft)));
    assert_eq!(decode_all(b"\x1b[F")[0].event, Event::Key(Key::Nav(Nav::End)));
    assert_eq!(decode_all(b"\x1b[H")[0].event, Event::Key(Key::Nav(Nav::Home)));
    assert_eq!(decode_all(b"\x1b[Z")[0].event, Event::Key(Key::Nav(Nav::BTab)));
    assert_eq!(decode_all(b"\x1b[I")[0].event, Event::Window(Window::FocusIn));
    assert_eq!(decode_all(b"\x1b[O")[0].event, Event::Window(Window::FocusOut));
}

#[test]
fn csi_tilde_nav_keys() {
    assert_eq!(decode_all(b"\x1b[1~")[0].event, Event::Key(Key::Nav(Nav::Home)));
    assert_eq!(decode_all(b"\x1b[2~")[0].event, Event::Key(Key::Nav(Nav::Ins)));
    assert_eq!(decode_all(b"\x1b[3~")[0].event, Event::Key(Key::Nav(Nav::Del)));
    assert_eq!(decode_all(b"\x1b[4~")[0].event, Event::Key(Key::Nav(Nav::End)));
    let evs = decode_all(b"\x1b[5~");
    assert_eq!(evs[0].event, Event::Key(Key::Nav(Nav::PgUp)));
    assert_eq!(evs[0].raw, b"\x1b[5~".to_vec());
    assert_eq!(decode_all(b"\x1b[6~")[0].event, Event::Key(Key::Nav(Nav::PgDn)));
}

#[test]
fn csi_tilde_function_keys() {
    assert_eq!(decode_all(b"\x1b[15~")[0].event, Event::Key(Key::F(5)));
    assert_eq!(decode_all(b"\x1b[17~")[0].event, Event::Key(Key::F(6)));
    assert_eq!(decode_all(b"\x1b[18~")[0].event, Event::Key(Key::F(7)));
    assert_eq!(decode_all(b"\x1b[19~")[0].event, Event::Key(Key::F(8)));
    assert_eq!(decode_all(b"\x1b[20~")[0].event, Event::Key(Key::F(9)));
    assert_eq!(decode_all(b"\x1b[21~")[0].event, Event::Key(Key::F(10)));
    let evs = decode_all(b"\x1b[24~");
    assert_eq!(evs[0].event, Event::Key(Key::F(12)));
    assert_eq!(evs[0].raw, b"\x1b[24~".to_vec());
}

#[test]
fn csi_tilde_unknown_shapes_are_undefined() {
    assert_eq!(decode_all(b"\x1b[7~")[0].event, Event::Undefined);
    assert_eq!(decode_all(b"\x1b[12~")[0].event, Event::Undefined);
    let evs = decode_all(b"\x1b[123~");
    assert_eq!(evs[0].event, Event::Undefined);
    assert_eq!(evs[0].raw, b"\x1b[123~".to_vec());
}

#[test]
fn csi_truncated_at_end_of_stream() {
    let evs = decode_all(&[0x1b, 0x5b]);
    assert_eq!(evs.len(), 1);
    assert_eq!(evs[0].event, Event::Undefined);
    assert_eq!(evs[0].raw, vec![0x1b, 0x5b]);
    let evs2 = decode_all(b"\x1b[12");
    assert_eq!(evs2.len(), 1);
    assert_eq!(evs2[0].event, Event::Undefined);
    assert_eq!(evs2[0].raw, b"\x1b[12".to_vec());
}

#[test]
fn csi_unknown_letter_is_undefined() {
    let evs = decode_all(b"\x1b[q");
    assert_eq!(evs[0].event, Event::Undefined);
    assert_eq!(evs[0].raw, b"\x1b[q".to_vec());
}

#[test]
fn ss3_function_keys() {
    assert_eq!(decode_all(b"\x1bOP")[0].event, Event::Key(Key::F(1)));
    assert_eq!(decode_all(b"\x1bOQ")[0].event, Event::Key(Key::F(2)));
    assert_eq!(decode_all(b"\x1bOR")[0].event, Event::Key(Key::F(3)));
    assert_eq!(decode_all(b"\x1bOS")[0].event, Event::Key(Key::F(4)));
    let evs = decode_all(b"\x1bOT");
    assert_eq!(evs[0].event, Event::Undefined);
    assert_eq!(evs[0].raw, b"\x1bOT".to_vec());
}

#[test]
fn ss3_truncated_at_end_of_stream() {
    let evs = decode_all(b"\x1bO");
    assert_eq!(evs.len(), 1);
    assert_eq!(evs[0].event, Event::Undefined);
    assert_eq!(evs[0].raw, b"\x1bO".to_vec());
}

#[test]
fn x10_mouse_press_left() {
    let evs = decode_all(&[0x1b, 0x5b, 0x4d, 0x20, 0x21, 0x21]);
    assert_eq!(evs.len(), 1);
    assert_eq!(evs[0].event, Event::Mouse(Mouse::PrssLft(1, 1)));
    assert_eq!(evs[0].raw, vec![0x1b, 0x5b, 0x4d, 0x20, 0x21, 0x21]);
}

#[test]
fn x10_mouse_table() {
    assert_eq!(
        decode_all(&[0x1b, 0x5b, 0x4d, 0x23, 0x21, 0x21])[0].event,
        Event::Mouse(Mouse::RlseBtn(1, 1))
    );
    assert_eq!(
        decode_all(&[0x1b, 0x5b, 0x4d, 0x40, 0x22, 0x23])[0].event,
        Event::Mouse(Mouse::DragLft(2, 3))
    );
    assert_eq!(
        decode_all(&[0x1b, 0x5b, 0x4d, 0x61, 0x21, 0x21])[0].event,
        Event::Mouse(Mouse::WheelUp(1, 1))
    );
}

#[test]
fn x10_mouse_unknown_button() {
    let evs = decode_all(&[0x1b, 0x5b, 0x4d, 131, 0x21, 0x22]);
    assert_eq!(evs[0].event, Event::Mouse(Mouse::UNIMPLEMENTED(99, 1, 2)));
}

#[test]
fn x10_mouse_truncated_at_end_of_stream() {
    let evs = decode_all(&[0x1b, 0x5b, 0x4d, 0x20]);
    assert_eq!(evs.len(), 1);
    assert_eq!(evs[0].event, Event::Undefined);
    assert_eq!(evs[0].raw, vec![0x1b, 0x5b, 0x4d, 0x20]);
}

#[test]
fn sgr_mouse_press_left() {
    let evs = decode_all(&[0x1b, 0x5b, 0x3c, 0x30, 0x3b, 0x35, 0x3b, 0x31, 0x30, 0x4d]);
    assert_eq!(evs.len(), 1);
    assert_eq!(evs[0].event, Event::Mouse(Mouse::PrssLft(5, 10)));
    assert_eq!(
        evs[0].raw,
        vec![0x1b, 0x5b, 0x3c, 0x30, 0x3b, 0x35, 0x3b, 0x31, 0x30, 0x4d]
    );
}

#[test]
fn sgr_mouse_release_and_motion() {
    assert_eq!(decode_all(b"\x1b[<0;5;10m")[0].event, Event::Mouse(Mouse::RlseLft(5, 10)));
    assert_eq!(decode_all(b"\x1b[<35;1;2M")[0].event, Event::Mouse(Mouse::Motion(1, 2)));
    assert_eq!(decode_all(b"\x1b[<42;7;8M")[0].event, Event::Mouse(Mouse::DragRgtAlt(7, 8)));
    assert_eq!(decode_all(b"\x1b[<64;1;1M")[0].event, Event::Mouse(Mouse::WheelDn(1, 1)));
}

#[test]
fn sgr_mouse_unknown_code() {
    assert_eq!(
        decode_all(b"\x1b[<99;4;5M")[0].event,
        Event::Mouse(Mouse::UNIMPLEMENTED(99, 4, 5))
    );
    assert_eq!(
        decode_all(b"\x1b[<35;1;2m")[0].event,
        Event::Mouse(Mouse::UNIMPLEMENTED(35, 1, 2))
    );
}

#[test]
fn sgr_mouse_wrong_field_count_is_undefined() {
    let evs = decode_all(b"\x1b[<0;5M");
    assert_eq!(evs.len(), 1);
    assert_eq!(evs[0].event, Event::Undefined);
    assert_eq!(evs[0].raw, b"\x1b[<0;5M".to_vec());
    assert_eq!(decode_all(b"\x1b[<0;5;6;7M")[0].event, Event::Undefined);
}

#[test]
fn sgr_mouse_bad_field_is_undefined() {
    assert_eq!(decode_all(b"\x1b[<0;x;10M")[0].event, Event::Undefined);
    assert_eq!(decode_all(b"\x1b[<0;;10M")[0].event, Event::Undefined);
    assert_eq!(decode_all(b"\x1b[<0;70000;10M")[0].event, Event::Undefined);
}

#[test]
fn sgr_mouse_truncated_at_end_of_stream() {
    let evs = decode_all(b"\x1b[<0;5;10");
    assert_eq!(evs.len(), 1);
    assert_eq!(evs[0].event, Event::Undefined);
    assert_eq!(evs[0].raw, b"\x1b[<0;5;10".to_vec());
}

#[test]
fn ascii_printable_is_utf8_key() {
    let evs = decode_all(b"a");
    assert_eq!(evs[0].event, Event::Key(Key::Utf8('a')));
    assert_eq!(evs[0].raw, b"a".to_vec());
}

#[test]
fn utf8_two_byte_character() {
    let evs = decode_all(&[0xc3, 0xa9]);
    assert_eq!(evs.len(), 1);
    assert_eq!(evs[0].event, Event::Key(Key::Utf8('\u{e9}')));
    assert_eq!(evs[0].raw, vec![0xc3, 0xa9]);
}

#[test]
fn utf8_pending_until_second_byte_arrives() {
    let mut d = Decoder::new();
    d.feed(0xc3);
    assert_eq!(d.next_event(), None);
    d.feed(0xa9);
    let ev = d.next_event().unwrap();
    assert_eq!(ev.event, Event::Key(Key::Utf8('\u{e9}')));
    assert_eq!(ev.raw, vec![0xc3, 0xa9]);
    assert_eq!(d.next_event(), None);
}

#[test]
fn utf8_three_and_four_byte_characters() {
    let evs = decode_all(&[0xe2, 0x82, 0xac]);
    assert_eq!(evs[0].event, Event::Key(Key::Utf8('\u{20ac}')));
    let evs4 = decode_all(&[0xf0, 0x9f, 0x98, 0x80]);
    assert_eq!(evs4[0].event, Event::Key(Key::Utf8('\u{1f600}')));
    assert_eq!(evs4[0].raw, vec![0xf0, 0x9f, 0x98, 0x80]);
}

#[test]
fn utf8_invalid_bytes_fold_to_undefined() {
    let evs = decode_all(&[0xff, 0x41, 0x42, 0x43, 0x44]);
    assert_eq!(evs.len(), 2);
    assert_eq!(evs[0].event, Event::Undefined);
    assert_eq!(evs[0].raw, vec![0xff, 0x41, 0x42, 0x43]);
    assert_eq!(evs[1].event, Event::Key(Key::Utf8('D')));
}

#[test]
fn utf8_overlong_encoding_is_undefined() {
    let evs = decode_all(&[0xc0, 0xaf, 0x41, 0x42]);
    assert_eq!(evs.len(), 1);
    assert_eq!(evs[0].event, Event::Undefined);
    assert_eq!(evs[0].raw, vec![0xc0, 0xaf, 0x41, 0x42]);
}

#[test]
fn utf8_surrogate_encoding_is_undefined() {
    let evs = decode_all(&[0xed, 0xa0, 0x80, 0x41]);
    assert_eq!(evs.len(), 1);
    assert_eq!(evs[0].event, Event::Undefined);
}

#[test]
fn utf8_truncated_at_end_of_stream() {
    let evs = decode_all(&[0xc3]);
    assert_eq!(evs.len(), 1);
    assert_eq!(evs[0].event, Event::Undefined);
    assert_eq!(evs[0].raw, vec![0xc3]);
}

#[test]
fn alt_keys() {
    assert_eq!(decode_all(b"\x1ba")[0].event, Event::Key(Key::Alt('a')));
    let evs = decode_all(&[0x1b, 0xc3, 0xa9]);
    assert_eq!(evs.len(), 1);
    assert_eq!(evs[0].event, Event::Key(Key::Alt('\u{e9}')));
    assert_eq!(evs[0].raw, vec![0x1b, 0xc3, 0xa9]);
}

#[test]
fn malformed_alt_sequence_folds_to_undefined() {
    let evs = decode_all(&[0x1b, 0xff, 0x01, 0x02, 0x03]);
    assert_eq!(evs.len(), 1);
    assert_eq!(evs[0].event, Event::Undefined);
    assert_eq!(evs[0].raw, vec![0x1b, 0xff, 0x01, 0x02, 0x03]);
}

fn mixed_buffer() -> Vec<u8> {
    let mut v: Vec<u8> = Vec::new();
    v.extend_from_slice(b"hi");
    v.extend_from_slice(&[0x1b, 0x5b, 0x41]);
    v.extend_from_slice(&[0xc3, 0xa9]);
    v.extend_from_slice(&[0x07]);
    v.extend_from_slice(&[0x1b, 0x5b, 0x4d, 0x20, 0x21, 0x21]);
    v.extend_from_slice(b"\x1b[<0;5;10M");
    v.extend_from_slice(b"\x1bOP");
    v.extend_from_slice(b"\x1b[5~");
    v.extend_from_slice(b"\x1ba");
    v.extend_from_slice(&[0xff, 0x41, 0x42, 0x43]);
    v.extend_from_slice(&[0x1b]);
    v
}

#[test]
fn raw_bytes_concatenate_to_input() {
    let input = mixed_buffer();
    let evs = decode_all(&input);
    let mut cat: Vec<u8> = Vec::new();
    for e in &evs {
        cat.extend_from_slice(&e.raw);
    }
    assert_eq!(cat, input);
}

#[test]
fn decoding_twice_yields_identical_events() {
    let input = mixed_buffer();
    assert_eq!(decode_all(&input), decode_all(&input));
}

#[test]
fn two_decoder_instances_agree() {
    let input = mixed_buffer();
    let mut d1 = Decoder::new();
    let mut d2 = Decoder::new();
    let mut evs1: Vec<etty::EventAndRaw> = Vec::new();
    let mut evs2: Vec<etty::EventAndRaw> = Vec::new();
    for &b in &input {
        d1.feed(b);
        while let Some(e) = d1.next_event() {
            evs1.push(e);
        }
    }
    d1.close();
    while let Some(e) = d1.next_event() {
        evs1.push(e);
    }
    d2.feed_slice(&input);
    d2.close();
    while let Some(e) = d2.next_event() {
        evs2.push(e);
    }
    assert_eq!(evs1, evs2);
    assert_eq!(evs1, decode_all(&input));
}
