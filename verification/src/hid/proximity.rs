use vstd::prelude::*;

verus! {

pub struct ProximityReport {
    pub presence: u8,
}

pub const PROXIMITY_DESCRIPTOR: [u8; 22] = [
    0x05, 0x20, 0x09, 0x11, 0xA1, 0x01, 0x05, 0x20, 0x0A, 0xB1, 0x04, 0x15, 0x00, 0x25, 0x01,
    0x75, 0x08, 0x95, 0x01, 0x81, 0x02, 0xC0,
];

impl ProximityReport {
    pub fn new(presence: bool) -> (r: Self)
        ensures
            r.presence == (if presence { 1u8 } else { 0u8 }),
    {
        ProximityReport { presence: presence as u8 }
    }

    pub fn to_bytes(&self) -> (r: [u8; 1])
        ensures
            r@ == seq![self.presence],
    {
        let r = [self.presence];
        assert(r@ =~= seq![self.presence]);
        r
    }

    pub fn descriptor() -> (r: [u8; 22])
        ensures
            r == PROXIMITY_DESCRIPTOR,
    {
        PROXIMITY_DESCRIPTOR
    }
}

} // verus!
