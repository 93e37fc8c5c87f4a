//! The datagram that carries one input of one player for one frame.
//!
//! Six bytes: the frame index, least significant byte first, then the handle of
//! the player, then the input byte. Routing is left to the transport.

use crate::input::{
    decode, encode, is_input_byte, lemma_decode_encode, lemma_encode_decode, spec_decode,
    spec_encode, spec_is_input_byte, InputIntent,
};
use vstd::prelude::*;

verus! {

/// Length of a datagram on the wire.
pub const DATAGRAM_LEN: usize = 6;

/// The input of one player for one frame.
#[derive(Clone, Copy, Debug, PartialEq, Eq, Structural)]
pub struct Datagram {
    pub frame: u32,
    pub handle: u8,
    pub intent: InputIntent,
}

/// The six bytes of a datagram.
pub open spec fn spec_wire(d: Datagram) -> Seq<u8> {
    seq![
        (d.frame % 256) as u8,
        (d.frame / 256 % 256) as u8,
        (d.frame / 65536 % 256) as u8,
        (d.frame / 16777216) as u8,
        d.handle,
        spec_encode(d.intent),
    ]
}

/// Bytes form a datagram when there are exactly six of them and the input byte
/// has no reserved bit set.
pub open spec fn spec_is_datagram(bytes: Seq<u8>) -> bool {
    bytes.len() == DATAGRAM_LEN && spec_is_input_byte(bytes[5])
}

/// The datagram that well-formed bytes stand for.
pub open spec fn spec_parsed(bytes: Seq<u8>) -> Datagram
    recommends
        spec_is_datagram(bytes),
{
    Datagram {
        frame: (bytes[0] + 256 * bytes[1] + 65536 * bytes[2] + 16777216 * bytes[3]) as u32,
        handle: bytes[4],
        intent: spec_decode(bytes[5]),
    }
}

/// Writes a datagram in its wire form.
pub fn encode_datagram(d: &Datagram) -> (bytes: Vec<u8>)
    ensures
        bytes@ == spec_wire(*d),
        spec_is_datagram(bytes@),
{
    let mut bytes: Vec<u8> = Vec::new();
    bytes.push((d.frame % 256) as u8);
    bytes.push((d.frame / 256 % 256) as u8);
    bytes.push((d.frame / 65536 % 256) as u8);
    bytes.push((d.frame / 16777216) as u8);
    bytes.push(d.handle);
    bytes.push(encode(d.intent));
    assert(bytes@ =~= spec_wire(*d));
    bytes
}

/// Reads a datagram. Bytes of any other length, and bytes whose input has a
/// reserved bit set, are not a datagram and give `None`.
pub fn parse_datagram(bytes: &[u8]) -> (parsed: Option<Datagram>)
    ensures
        parsed is Some <==> spec_is_datagram(bytes@),
        parsed matches Some(d) ==> d == spec_parsed(bytes@),
{
    if bytes.len() != DATAGRAM_LEN {
        return None;
    }
    if !is_input_byte(bytes[5]) {
        return None;
    }
    let frame: u32 = (bytes[0] as u32) + 256 * (bytes[1] as u32) + 65536 * (bytes[2] as u32)
        + 16777216 * (bytes[3] as u32);
    Some(Datagram { frame, handle: bytes[4], intent: decode(bytes[5]) })
}

/// Every datagram survives the wire: parsing its bytes gives it back.
pub proof fn lemma_parse_wire(d: Datagram)
    ensures
        spec_is_datagram(spec_wire(d)),
        spec_parsed(spec_wire(d)) == d,
{
    lemma_decode_encode(d.intent);
    let frame = d.frame as int;
    let low = frame / 256;
    let mid = frame / 65536;
    assert(frame == 256 * low + frame % 256);
    assert(mid == low / 256);
    assert(low == 256 * mid + low % 256);
    assert(frame / 16777216 == mid / 256);
    assert(mid == 256 * (mid / 256) + mid % 256);
}

/// Well-formed bytes survive parsing: writing the datagram they stand for gives
/// the same bytes.
pub proof fn lemma_wire_parse(bytes: Seq<u8>)
    requires
        spec_is_datagram(bytes),
    ensures
        spec_wire(spec_parsed(bytes)) == bytes,
{
    lemma_encode_decode(bytes[5]);
    let b0 = bytes[0] as int;
    let b1 = bytes[1] as int;
    let b2 = bytes[2] as int;
    let b3 = bytes[3] as int;
    lemma_frame_bytes(b0, b1, b2, b3);
    let wire = spec_wire(spec_parsed(bytes));
    assert(wire[0] == bytes[0]);
    assert(wire[1] == bytes[1]);
    assert(wire[2] == bytes[2]);
    assert(wire[3] == bytes[3]);
    assert(wire[4] == bytes[4]);
    assert(wire[5] == bytes[5]);
    assert(wire =~= bytes);
}

proof fn lemma_frame_bytes(b0: int, b1: int, b2: int, b3: int)
    requires
        0 <= b0 < 256,
        0 <= b1 < 256,
        0 <= b2 < 256,
        0 <= b3 < 256,
    ensures
        0 <= b0 + 256 * b1 + 65536 * b2 + 16777216 * b3 < 0x1_0000_0000,
        (b0 + 256 * b1 + 65536 * b2 + 16777216 * b3) % 256 == b0,
        (b0 + 256 * b1 + 65536 * b2 + 16777216 * b3) / 256 % 256 == b1,
        (b0 + 256 * b1 + 65536 * b2 + 16777216 * b3) / 65536 % 256 == b2,
        (b0 + 256 * b1 + 65536 * b2 + 16777216 * b3) / 16777216 == b3,
{
    let frame = b0 + 256 * b1 + 65536 * b2 + 16777216 * b3;
    let high1 = b1 + 256 * b2 + 65536 * b3;
    let high2 = b2 + 256 * b3;
    assert(frame == 256 * high1 + b0);
    assert(frame / 256 == high1 && frame % 256 == b0);
    assert(frame == 65536 * high2 + (b0 + 256 * b1));
    assert(frame / 65536 == high2);
    assert(high1 == 256 * high2 + b1);
    assert(high1 % 256 == b1);
    assert(high2 == 256 * b3 + b2);
    assert(high2 % 256 == b2);
    assert(frame == 16777216 * b3 + (b0 + 256 * b1 + 65536 * b2));
    assert(frame / 16777216 == b3);
}

/// The test that tells datagrams from other packets.
pub open spec fn spec_well_formed() -> spec_fn(Vec<u8>) -> bool {
    |packet: Vec<u8>| spec_is_datagram(packet@)
}

/// The rule that reads a well-formed packet.
pub open spec fn spec_reading() -> spec_fn(Vec<u8>) -> Datagram {
    |packet: Vec<u8>| spec_parsed(packet@)
}

/// The datagrams among the packets, in the order of the packets.
pub open spec fn spec_collected(packets: Seq<Vec<u8>>) -> Seq<Datagram> {
    packets.filter(spec_well_formed()).map_values(spec_reading())
}

proof fn lemma_collected_push(packets: Seq<Vec<u8>>, packet: Vec<u8>)
    ensures
        spec_collected(packets.push(packet)) == if spec_is_datagram(packet@) {
            spec_collected(packets).push(spec_parsed(packet@))
        } else {
            spec_collected(packets)
        },
{
    reveal(Seq::filter);
    assert(packets.push(packet).drop_last() =~= packets);
    let kept = packets.filter(spec_well_formed());
    if spec_is_datagram(packet@) {
        assert(kept.push(packet).map_values(spec_reading()) =~= kept.map_values(
            spec_reading(),
        ).push(spec_parsed(packet@)));
    }
}

/// Reads what the transport delivered. Packets that are no datagram are
/// dropped; the others are read, in the order of their arrival.
pub fn collect_datagrams(packets: &Vec<Vec<u8>>) -> (datagrams: Vec<Datagram>)
    ensures
        datagrams@ == spec_collected(packets@),
{
    let mut datagrams: Vec<Datagram> = Vec::new();
    let mut i: usize = 0;
    assert(packets@.take(0) =~= Seq::<Vec<u8>>::empty());
    assert(spec_collected(Seq::<Vec<u8>>::empty()) =~= Seq::<Datagram>::empty()) by {
        reveal(Seq::filter);
    }
    while i < packets.len()
        invariant
            i <= packets.len(),
            datagrams@ == spec_collected(packets@.take(i as int)),
        decreases packets.len() - i,
    {
        proof {
            assert(packets@.take(i + 1) =~= packets@.take(i as int).push(packets[i as int]));
            lemma_collected_push(packets@.take(i as int), packets[i as int]);
        }
        match parse_datagram(packets[i].as_slice()) {
            Some(d) => {
                datagrams.push(d);
            },
            None => {},
        }
        i += 1;
    }
    assert(packets@.take(i as int) =~= packets@);
    datagrams
}

} // verus!
