use gensokio::input::{
    decode, encode, is_input_byte, InputIntent, INPUT_DOWN, INPUT_FIRE, INPUT_LEFT, INPUT_MASK,
    INPUT_RIGHT, INPUT_UP,
};
use gensokio::player::read_local_inputs;
use gensokio::wire::{collect_datagrams, encode_datagram, parse_datagram, Datagram, DATAGRAM_LEN};

fn intent(up: bool, down: bool, left: bool, right: bool, fire: bool) -> InputIntent {
    InputIntent { up, down, left, right, fire }
}

#[test]
fn bit_positions_are_fixed() {
    assert_eq!(INPUT_UP, 1 << 0);
    assert_eq!(INPUT_DOWN, 1 << 1);
    assert_eq!(INPUT_LEFT, 1 << 2);
    assert_eq!(INPUT_RIGHT, 1 << 3);
    assert_eq!(INPUT_FIRE, 1 << 4);
    assert_eq!(INPUT_MASK, 0b0001_1111);
}

#[test]
fn encode_sets_one_bit_per_control() {
    assert_eq!(encode(InputIntent::idle()), 0);
    assert_eq!(encode(intent(true, false, false, false, false)), 1);
    assert_eq!(encode(intent(false, true, false, false, false)), 2);
    assert_eq!(encode(intent(false, false, true, false, false)), 4);
    assert_eq!(encode(intent(false, false, false, true, false)), 8);
    assert_eq!(encode(intent(false, false, false, false, true)), 16);
    assert_eq!(encode(intent(true, false, false, false, true)), 17);
    assert_eq!(encode(intent(true, true, true, true, true)), 31);
}

#[test]
fn every_defined_byte_round_trips() {
    for byte in 0u8..32 {
        assert_eq!(encode(decode(byte)), byte);
        assert!(is_input_byte(byte));
    }
}

#[test]
fn every_intent_round_trips() {
    for bits in 0u8..32 {
        let i = intent(bits & 1 != 0, bits & 2 != 0, bits & 4 != 0, bits & 8 != 0, bits & 16 != 0);
        assert_eq!(decode(encode(i)), i);
    }
}

#[test]
fn reserved_bits_do_not_survive_decoding() {
    for byte in 0u8..=255 {
        let again = encode(decode(byte));
        assert_eq!(again & 0b1110_0000, 0);
        assert_eq!(again, byte & INPUT_MASK);
        assert_eq!(is_input_byte(byte), byte < 32);
    }
}

#[test]
fn decode_reads_each_control() {
    let i = decode(0b0001_0110);
    assert_eq!(i, intent(false, true, true, false, true));
}

#[test]
fn local_inputs_map_every_local_handle() {
    let pressed = intent(true, false, false, true, true);
    let map = read_local_inputs(pressed, &vec![0usize, 1usize]);
    assert_eq!(map.len(), 2);
    assert_eq!(map.get(&0usize), Some(&25u8));
    assert_eq!(map.get(&1usize), Some(&25u8));
    assert_eq!(map.get(&2usize), None);
}

#[test]
fn local_inputs_of_no_local_player_are_empty() {
    let map = read_local_inputs(InputIntent::idle(), &Vec::new());
    assert!(map.is_empty());
}

#[test]
fn local_inputs_of_a_repeated_handle_hold_it_once() {
    let map = read_local_inputs(intent(false, false, true, false, false), &vec![1usize, 1usize]);
    assert_eq!(map.len(), 1);
    assert_eq!(map.get(&1usize), Some(&4u8));
}

#[test]
fn datagram_bytes_are_frame_handle_input() {
    let d = Datagram { frame: 0x0403_0201, handle: 1, intent: intent(true, false, false, false, true) };
    assert_eq!(encode_datagram(&d), vec![1u8, 2, 3, 4, 1, 17]);
    assert_eq!(DATAGRAM_LEN, 6);
}

#[test]
fn datagram_round_trips() {
    for frame in [0u32, 1, 255, 256, 65_535, 65_536, 16_777_216, u32::MAX] {
        for handle in [0u8, 1, 200] {
            let d = Datagram { frame, handle, intent: intent(false, true, false, true, false) };
            let bytes = encode_datagram(&d);
            assert_eq!(bytes.len(), 6);
            assert_eq!(parse_datagram(&bytes), Some(d));
        }
    }
}

#[test]
fn datagram_of_wrong_length_is_refused() {
    assert_eq!(parse_datagram(&[]), None);
    assert_eq!(parse_datagram(&[0, 0, 0, 0, 1]), None);
    assert_eq!(parse_datagram(&[0, 0, 0, 0, 1, 0, 0]), None);
}

#[test]
fn datagram_with_reserved_bits_is_refused() {
    assert_eq!(parse_datagram(&[0, 0, 0, 0, 1, 32]), None);
    assert_eq!(parse_datagram(&[0, 0, 0, 0, 1, 255]), None);
    assert!(parse_datagram(&[0, 0, 0, 0, 1, 31]).is_some());
}

#[test]
fn datagram_parse_reads_little_endian_frame() {
    let d = parse_datagram(&[10, 1, 0, 0, 0, 16]).unwrap();
    assert_eq!(d.frame, 266);
    assert_eq!(d.handle, 0);
    assert_eq!(d.intent, intent(false, false, false, false, true));
}

#[test]
fn packets_that_are_no_datagram_are_dropped() {
    let first = Datagram { frame: 7, handle: 1, intent: intent(true, false, false, false, false) };
    let second = Datagram { frame: 6, handle: 0, intent: intent(false, false, false, false, true) };
    let packets = vec![
        vec![1u8, 2, 3],
        encode_datagram(&first),
        vec![0u8, 0, 0, 0, 1, 64],
        Vec::new(),
        encode_datagram(&second),
        vec![0u8; 7],
        encode_datagram(&first),
    ];
    assert_eq!(collect_datagrams(&packets), vec![first, second, first]);
    assert_eq!(collect_datagrams(&Vec::new()), Vec::new());
}
