use vstd::prelude::*;

verus! {

/// Bit `0` of a button byte is `b0`, bit `1` is `b1`, bit `2` is `b2`.
pub open spec fn button_bits(b0: bool, b1: bool, b2: bool) -> u8 {
    ((if b0 { 1u8 } else { 0u8 }) + (if b1 { 2u8 } else { 0u8 }) + (if b2 { 4u8 } else { 0u8 })) as u8
}

/// Packs three flags into the low three bits of a byte.
pub fn pack_three_buttons(b0: bool, b1: bool, b2: bool) -> (r: u8)
    ensures
        r == button_bits(b0, b1, b2),
{
    let x = b0 as u8;
    let y = b1 as u8;
    let z = b2 as u8;
    assert(x <= 1 && y <= 1 && z <= 1 ==> (x | (y << 1u8) | (z << 2u8)) == x + 2 * y + 4 * z) by (bit_vector);
    x | (y << 1u8) | (z << 2u8)
}

pub struct KnobReport {
    pub button: u8,
    pub x: i8,
    pub y: i8,
    pub wheel: i8,
}

pub const KNOB_DESCRIPTOR: [u8; 70] = [
    0x05, 0x01, 0x09, 0x08, 0xA1, 0x01, 0x05, 0x09, 0x09, 0x01, 0x15, 0x00, 0x25, 0x01, 0x75,
    0x01, 0x95, 0x01, 0x81, 0x02, 0x05, 0x0c, 0x0a, 0x23, 0x02, 0x0a, 0x24, 0x02, 0x95, 0x02,
    0x81, 0x02, 0x95, 0x05, 0x81, 0x01, 0x05, 0x01, 0x09, 0x01, 0xA1, 0x00, 0x09, 0x30, 0x09,
    0x31, 0x15, 0x81, 0x25, 0x7f, 0x75, 0x08, 0x95, 0x02, 0x81, 0x02, 0xC0, 0x09, 0x38, 0x15,
    0x81, 0x25, 0x7f, 0x75, 0x08, 0x95, 0x01, 0x81, 0x06, 0xC0,
];

impl KnobReport {
    pub fn new(button: bool, home: bool, back: bool, x: i8, y: i8, wheel: i8) -> (r: Self)
        ensures
            r.button == button_bits(button, home, back),
            r.x == x,
            r.y == y,
            r.wheel == wheel,
    {
        KnobReport { button: pack_three_buttons(button, home, back), x, y, wheel }
    }

    pub fn to_bytes(&self) -> (r: [u8; 4])
        ensures
            r@ == seq![self.button, self.x as u8, self.y as u8, self.wheel as u8],
    {
        let r = [self.button, self.x as u8, self.y as u8, self.wheel as u8];
        assert(r@ =~= seq![self.button, self.x as u8, self.y as u8, self.wheel as u8]);
        r
    }

    pub fn descriptor() -> (r: [u8; 70])
        ensures
            r == KNOB_DESCRIPTOR,
    {
        KNOB_DESCRIPTOR
    }
}


pub struct KnobBasicReport {
    pub button: u8,
    pub wheel: i8,
}

pub const KNOB_BASIC_DESCRIPTOR: [u8; 51] = [
    0x05, 0x01, 0x09, 0x08, 0xA1, 0x01, 0x05, 0x09, 0x09, 0x01, 0x15, 0x00, 0x25, 0x01, 0x75,
    0x01, 0x95, 0x01, 0x81, 0x02, 0x05, 0x0c, 0x0a, 0x23, 0x02, 0x0a, 0x24, 0x02, 0x95, 0x02,
    0x81, 0x02, 0x95, 0x05, 0x81, 0x01, 0x05, 0x01, 0x09, 0x38, 0x15, 0x81, 0x25, 0x7f, 0x75,
    0x08, 0x95, 0x01, 0x81, 0x06, 0xC0,
];

impl KnobBasicReport {
    pub fn new(button: bool, home: bool, back: bool, wheel: i8) -> (r: Self)
        ensures
            r.button == button_bits(button, home, back),
            r.wheel == wheel,
    {
        KnobBasicReport { button: pack_three_buttons(button, home, back), wheel }
    }

    pub fn to_bytes(&self) -> (r: [u8; 2])
        ensures
            r@ == seq![self.button, self.wheel as u8],
    {
        let r = [self.button, self.wheel as u8];
        assert(r@ =~= seq![self.button, self.wheel as u8]);
        r
    }

    pub fn descriptor() -> (r: [u8; 51])
        ensures
            r == KNOB_BASIC_DESCRIPTOR,
    {
        KNOB_BASIC_DESCRIPTOR
    }
}

pub struct KnobMinimalReport {
    pub button: u8,
    pub wheel: i8,
}

pub const KNOB_MINIMAL_DESCRIPTOR: [u8; 39] = [
    0x05, 0x01, 0x09, 0x08, 0xA1, 0x01, 0x05, 0x09, 0x09, 0x01, 0x15, 0x00, 0x25, 0x01, 0x75,
    0x01, 0x95, 0x01, 0x81, 0x02, 0x95, 0x07, 0x81, 0x01, 0x05, 0x01, 0x09, 0x38, 0x15, 0x81,
    0x25, 0x7f, 0x75, 0x08, 0x95, 0x01, 0x81, 0x06, 0xC0,
];

impl KnobMinimalReport {
    pub fn new(button: bool, wheel: i8) -> (r: Self)
        ensures
            r.button == (if button { 1u8 } else { 0u8 }),
            r.wheel == wheel,
    {
        KnobMinimalReport { button: button as u8, wheel }
    }

    pub fn to_bytes(&self) -> (r: [u8; 2])
        ensures
            r@ == seq![self.button, self.wheel as u8],
    {
        let r = [self.button, self.wheel as u8];
        assert(r@ =~= seq![self.button, self.wheel as u8]);
        r
    }

    pub fn descriptor() -> (r: [u8; 39])
        ensures
            r == KNOB_MINIMAL_DESCRIPTOR,
    {
        KNOB_MINIMAL_DESCRIPTOR
    }
}

} // verus!
