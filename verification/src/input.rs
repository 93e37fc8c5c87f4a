//! Control intents and their one-byte wire form.

use vstd::prelude::*;

verus! {

/// Bit of the input byte that carries "up".
pub const INPUT_UP: u8 = 1;

/// Bit of the input byte that carries "down".
pub const INPUT_DOWN: u8 = 2;

/// Bit of the input byte that carries "left".
pub const INPUT_LEFT: u8 = 4;

/// Bit of the input byte that carries "right".
pub const INPUT_RIGHT: u8 = 8;

/// Bit of the input byte that carries "fire".
pub const INPUT_FIRE: u8 = 16;

/// The five defined bits together. The three bits above them are reserved.
pub const INPUT_MASK: u8 = 31;

/// What a player asks for during one frame.
#[derive(Clone, Copy, Debug, PartialEq, Eq, Structural)]
pub struct InputIntent {
    pub up: bool,
    pub down: bool,
    pub left: bool,
    pub right: bool,
    pub fire: bool,
}

/// The intent of a player who presses nothing.
pub open spec fn spec_idle() -> InputIntent {
    InputIntent { up: false, down: false, left: false, right: false, fire: false }
}

/// One bit per control at its fixed position, every other bit zero.
pub open spec fn spec_encode(intent: InputIntent) -> u8 {
    (if intent.up { INPUT_UP } else { 0u8 })
        | (if intent.down { INPUT_DOWN } else { 0u8 })
        | (if intent.left { INPUT_LEFT } else { 0u8 })
        | (if intent.right { INPUT_RIGHT } else { 0u8 })
        | (if intent.fire { INPUT_FIRE } else { 0u8 })
}

/// Each control is set exactly when its bit is; reserved bits are ignored.
pub open spec fn spec_decode(byte: u8) -> InputIntent {
    InputIntent {
        up: byte & INPUT_UP != 0,
        down: byte & INPUT_DOWN != 0,
        left: byte & INPUT_LEFT != 0,
        right: byte & INPUT_RIGHT != 0,
        fire: byte & INPUT_FIRE != 0,
    }
}

/// A byte is a well-formed input when none of its reserved bits is set.
pub open spec fn spec_is_input_byte(byte: u8) -> bool {
    byte <= INPUT_MASK
}

impl InputIntent {
    /// The intent of a player who presses nothing.
    pub fn idle() -> (intent: InputIntent)
        ensures
            intent == spec_idle(),
    {
        InputIntent { up: false, down: false, left: false, right: false, fire: false }
    }
}

/// Packs an intent into its wire byte.
pub fn encode(intent: InputIntent) -> (byte: u8)
    ensures
        byte == spec_encode(intent),
        spec_is_input_byte(byte),
{
    let up: u8 = if intent.up { INPUT_UP } else { 0 };
    let down: u8 = if intent.down { INPUT_DOWN } else { 0 };
    let left: u8 = if intent.left { INPUT_LEFT } else { 0 };
    let right: u8 = if intent.right { INPUT_RIGHT } else { 0 };
    let fire: u8 = if intent.fire { INPUT_FIRE } else { 0 };
    proof {
        lemma_flags_combine(up, down, left, right, fire);
    }
    up | down | left | right | fire
}

/// Unpacks a wire byte. Every byte decodes; reserved bits do not survive.
pub fn decode(byte: u8) -> (intent: InputIntent)
    ensures
        intent == spec_decode(byte),
{
    InputIntent {
        up: byte & INPUT_UP != 0,
        down: byte & INPUT_DOWN != 0,
        left: byte & INPUT_LEFT != 0,
        right: byte & INPUT_RIGHT != 0,
        fire: byte & INPUT_FIRE != 0,
    }
}

/// Tells whether a byte has only defined bits set.
pub fn is_input_byte(byte: u8) -> (ok: bool)
    ensures
        ok == spec_is_input_byte(byte),
{
    byte <= INPUT_MASK
}

proof fn lemma_flags_combine(up: u8, down: u8, left: u8, right: u8, fire: u8)
    requires
        up == 0 || up == 1,
        down == 0 || down == 2,
        left == 0 || left == 4,
        right == 0 || right == 8,
        fire == 0 || fire == 16,
    ensures
        ((up | down | left | right | fire) & 1 != 0) == (up != 0),
        ((up | down | left | right | fire) & 2 != 0) == (down != 0),
        ((up | down | left | right | fire) & 4 != 0) == (left != 0),
        ((up | down | left | right | fire) & 8 != 0) == (right != 0),
        ((up | down | left | right | fire) & 16 != 0) == (fire != 0),
        (up | down | left | right | fire) <= 31,
{
    assert(((up | down | left | right | fire) & 1 != 0) == (up != 0)
        && ((up | down | left | right | fire) & 2 != 0) == (down != 0)
        && ((up | down | left | right | fire) & 4 != 0) == (left != 0)
        && ((up | down | left | right | fire) & 8 != 0) == (right != 0)
        && ((up | down | left | right | fire) & 16 != 0) == (fire != 0)
        && (up | down | left | right | fire) <= 31) by (bit_vector)
        requires
            up == 0 || up == 1,
            down == 0 || down == 2,
            left == 0 || left == 4,
            right == 0 || right == 8,
            fire == 0 || fire == 16,
    ;
}

proof fn lemma_bits_rebuild(byte: u8)
    ensures
        ((if byte & 1 != 0 { 1u8 } else { 0u8 })
            | (if byte & 2 != 0 { 2u8 } else { 0u8 })
            | (if byte & 4 != 0 { 4u8 } else { 0u8 })
            | (if byte & 8 != 0 { 8u8 } else { 0u8 })
            | (if byte & 16 != 0 { 16u8 } else { 0u8 })) == byte & 31,
        byte & 31 <= 31,
        (byte & 31) & 224 == 0,
        byte <= 31 ==> byte & 31 == byte,
{
    assert(((if byte & 1 != 0 { 1u8 } else { 0u8 })
        | (if byte & 2 != 0 { 2u8 } else { 0u8 })
        | (if byte & 4 != 0 { 4u8 } else { 0u8 })
        | (if byte & 8 != 0 { 8u8 } else { 0u8 })
        | (if byte & 16 != 0 { 16u8 } else { 0u8 })) == byte & 31) by (bit_vector);
    assert(byte & 31 <= 31 && (byte & 31) & 224 == 0) by (bit_vector);
    assert(byte <= 31 ==> byte & 31 == byte) by (bit_vector);
}

/// Decoding undoes encoding: every intent survives the wire unchanged.
pub proof fn lemma_decode_encode(intent: InputIntent)
    ensures
        spec_decode(spec_encode(intent)) == intent,
        spec_is_input_byte(spec_encode(intent)),
{
    let up: u8 = if intent.up { INPUT_UP } else { 0u8 };
    let down: u8 = if intent.down { INPUT_DOWN } else { 0u8 };
    let left: u8 = if intent.left { INPUT_LEFT } else { 0u8 };
    let right: u8 = if intent.right { INPUT_RIGHT } else { 0u8 };
    let fire: u8 = if intent.fire { INPUT_FIRE } else { 0u8 };
    lemma_flags_combine(up, down, left, right, fire);
}

/// Encoding undoes decoding on every byte that has only defined bits set.
pub proof fn lemma_encode_decode(byte: u8)
    requires
        spec_is_input_byte(byte),
    ensures
        spec_encode(spec_decode(byte)) == byte,
{
    lemma_bits_rebuild(byte);
}

/// Whatever byte is decoded, encoding the result again keeps the five defined
/// bits and leaves every reserved bit zero.
pub proof fn lemma_reserved_bits_clear(byte: u8)
    ensures
        spec_encode(spec_decode(byte)) == byte & INPUT_MASK,
        spec_encode(spec_decode(byte)) & 224 == 0,
        spec_is_input_byte(spec_encode(spec_decode(byte))),
{
    lemma_bits_rebuild(byte);
}

} // verus!
