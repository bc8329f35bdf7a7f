use vstd::prelude::*;

verus! {

/// Low byte of a little-endian `u16`.
pub open spec fn lo_byte(v: u16) -> u8 {
    (v % 256) as u8
}

/// High byte of a little-endian `u16`.
pub open spec fn hi_byte(v: u16) -> u8 {
    (v / 256) as u8
}

pub fn u16_le_bytes(v: u16) -> (r: (u8, u8))
    ensures
        r.0 == lo_byte(v),
        r.1 == hi_byte(v),
{
    ((v % 256) as u8, (v / 256) as u8)
}

pub struct TouchScreenSingleReport {
    pub touch: u8,
    pub x: u16,
    pub y: u16,
}

pub const TOUCH_SCREEN_SINGLE_TEMPLATE: [u8; 62] = [
    0x05, 0x0D, 0x09, 0x04, 0xA1, 0x01, 0x05, 0x0D, 0x09, 0x22, 0xA1, 0x02, 0x05, 0x0D, 0x09,
    0x33, 0x15, 0x00, 0x25, 0x01, 0x75, 0x01, 0x95, 0x01, 0x81, 0x02, 0x75, 0x07, 0x95, 0x01,
    0x81, 0x01, 0x05, 0x01, 0x09, 0x30, 0x15, 0x00, 0x26, 0xff, 0x7f, 0x75, 0x10, 0x95, 0x01,
    0x81, 0x02, 0x09, 0x31, 0x15, 0x00, 0x26, 0xff, 0x7f, 0x75, 0x10, 0x95, 0x01, 0x81, 0x02,
    0xC0, 0xC0,
];

/// A 5-byte report: one flag byte, then two little-endian `u16`s.
pub open spec fn flag_and_point(flag: u8, x: u16, y: u16) -> Seq<u8> {
    seq![flag, lo_byte(x), hi_byte(x), lo_byte(y), hi_byte(y)]
}

fn flag_and_point_bytes(flag: u8, x: u16, y: u16) -> (r: [u8; 5])
    ensures
        r@ == flag_and_point(flag, x, y),
{
    let (x0, x1) = u16_le_bytes(x);
    let (y0, y1) = u16_le_bytes(y);
    let r = [flag, x0, x1, y0, y1];
    assert(r@ =~= flag_and_point(flag, x, y));
    r
}

impl TouchScreenSingleReport {
    pub fn new(touch: bool, x: u16, y: u16) -> (r: Self)
        ensures
            r.touch == (if touch { 1u8 } else { 0u8 }),
            r.x == x,
            r.y == y,
    {
        TouchScreenSingleReport { touch: touch as u8, x, y }
    }

    pub fn is_touched(&self) -> (r: bool)
        ensures
            r == (self.touch != 0),
    {
        self.touch != 0
    }

    pub fn to_bytes(&self) -> (r: [u8; 5])
        ensures
            r@ == flag_and_point(self.touch & 0x01, self.x, self.y),
    {
        flag_and_point_bytes(self.touch & 0x01, self.x, self.y)
    }

    /// The template with the logical maxima of X and Y replaced by `width` and `height`.
    pub fn descriptor(width: u16, height: u16) -> (r: [u8; 62])
        ensures
            r@ == TOUCH_SCREEN_SINGLE_TEMPLATE@.update(0x27, lo_byte(width)).update(0x28, hi_byte(width))
                .update(0x34, lo_byte(height)).update(0x35, hi_byte(height)),
    {
        let mut buf = TOUCH_SCREEN_SINGLE_TEMPLATE;
        let (w0, w1) = u16_le_bytes(width);
        let (h0, h1) = u16_le_bytes(height);
        buf[0x27] = w0;
        buf[0x28] = w1;
        buf[0x34] = h0;
        buf[0x35] = h1;
        buf
    }
}

pub struct TouchScreenSingleCancelReport {
    pub buttons: u8,
    pub x: u16,
    pub y: u16,
}

pub const TOUCH_SCREEN_SINGLE_CANCEL_TEMPLATE: [u8; 66] = [
    0x05, 0x0D, 0x09, 0x04, 0xA1, 0x01, 0x05, 0x0D, 0x09, 0x22, 0xA1, 0x02, 0x05, 0x0D, 0x09,
    0x33, 0x15, 0x00, 0x25, 0x01, 0x75, 0x01, 0x95, 0x01, 0x81, 0x02, 0x09, 0x34, 0x81, 0x06,
    0x75, 0x06, 0x95, 0x01, 0x81, 0x01, 0x05, 0x01, 0x09, 0x30, 0x15, 0x00, 0x26, 0xff, 0x7f,
    0x75, 0x10, 0x95, 0x01, 0x81, 0x02, 0x09, 0x31, 0x15, 0x00, 0x26, 0xff, 0x7f, 0x75, 0x10,
    0x95, 0x01, 0x81, 0x02, 0xC0, 0xC0,
];

impl TouchScreenSingleCancelReport {
    pub fn new(touch: bool, untouch: bool, x: u16, y: u16) -> (r: Self)
        ensures
            r.buttons == (if touch { 1u8 } else { 0u8 }) + (if untouch { 2u8 } else { 0u8 }),
            r.x == x,
            r.y == y,
    {
        let t = touch as u8;
        let u = untouch as u8;
        assert(t <= 1 && u <= 1 ==> (t | (u << 1u8)) == t + 2 * u) by (bit_vector);
        TouchScreenSingleCancelReport { buttons: t | (u << 1u8), x, y }
    }

    pub fn to_bytes(&self) -> (r: [u8; 5])
        ensures
            r@ == flag_and_point(self.buttons & 0x03, self.x, self.y),
    {
        flag_and_point_bytes(self.buttons & 0x03, self.x, self.y)
    }

    /// The template with the logical maxima of X and Y replaced by `width` and `height`.
    pub fn descriptor(width: u16, height: u16) -> (r: [u8; 66])
        ensures
            r@ == TOUCH_SCREEN_SINGLE_CANCEL_TEMPLATE@.update(0x2B, lo_byte(width)).update(0x2C, hi_byte(width))
                .update(0x38, lo_byte(height)).update(0x39, hi_byte(height)),
    {
        let mut buf = TOUCH_SCREEN_SINGLE_CANCEL_TEMPLATE;
        let (w0, w1) = u16_le_bytes(width);
        let (h0, h1) = u16_le_bytes(height);
        buf[0x2B] = w0;
        buf[0x2C] = w1;
        buf[0x38] = h0;
        buf[0x39] = h1;
        buf
    }
}

} // verus!
