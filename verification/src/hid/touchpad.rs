use vstd::prelude::*;
use crate::hid::touch_single::{lo_byte, hi_byte, u16_le_bytes, flag_and_point};

verus! {

pub struct TouchpadOnlyReport {
    pub transducer_state: u8,
    pub transducer_x: u16,
    pub transducer_y: u16,
}

pub const TOUCHPAD_ONLY_TEMPLATE: [u8; 80] = [
    0x05, 0x0D, 0x09, 0x05, 0xA1, 0x01, 0x05, 0x0D, 0x09, 0x22, 0xA1, 0x02, 0x05, 0x0D, 0x09,
    0x33, 0x15, 0x00, 0x25, 0x01, 0x75, 0x01, 0x95, 0x01, 0x81, 0x02, 0x75, 0x07, 0x95, 0x01,
    0x81, 0x01, 0x05, 0x01, 0x09, 0x30, 0x15, 0x00, 0x26, 0xFF, 0xFF, 0x35, 0x00, 0x46, 0xFF,
    0xFF, 0x55, 0x0F, 0x65, 0x11, 0x75, 0x10, 0x95, 0x01, 0x81, 0x02, 0x09, 0x31, 0x15, 0x00,
    0x26, 0xFF, 0xFF, 0x35, 0x00, 0x46, 0xFF, 0xFF, 0x55, 0x0F, 0x65, 0x11, 0x75, 0x10, 0x95,
    0x01, 0x81, 0x02, 0xC0, 0xC0,
];

/// A touchpad descriptor template with the logical and physical maxima filled in.
pub open spec fn touchpad_patched(template: Seq<u8>, width: u16, height: u16, width_mm: u16, height_mm: u16) -> Seq<u8> {
    template.update(39, lo_byte(width)).update(40, hi_byte(width))
        .update(44, lo_byte(width_mm)).update(45, hi_byte(width_mm))
        .update(61, lo_byte(height)).update(62, hi_byte(height))
        .update(66, lo_byte(height_mm)).update(67, hi_byte(height_mm))
}

impl TouchpadOnlyReport {
    pub fn new(transducer_state: u8, transducer_x: u16, transducer_y: u16) -> (r: Self)
        ensures
            r.transducer_state == transducer_state,
            r.transducer_x == transducer_x,
            r.transducer_y == transducer_y,
    {
        TouchpadOnlyReport { transducer_state, transducer_x, transducer_y }
    }

    pub fn to_bytes(&self) -> (r: [u8; 5])
        ensures
            r@ == flag_and_point(self.transducer_state, self.transducer_x, self.transducer_y),
    {
        let (x0, x1) = u16_le_bytes(self.transducer_x);
        let (y0, y1) = u16_le_bytes(self.transducer_y);
        let r = [self.transducer_state, x0, x1, y0, y1];
        assert(r@ =~= flag_and_point(self.transducer_state, self.transducer_x, self.transducer_y));
        r
    }

    pub fn descriptor(width: u16, height: u16, width_mm: u16, height_mm: u16) -> (r: [u8; 80])
        ensures
            r@ == touchpad_patched(TOUCHPAD_ONLY_TEMPLATE@, width, height, width_mm, height_mm),
    {
        let mut buf = TOUCHPAD_ONLY_TEMPLATE;
        let (w0, w1) = u16_le_bytes(width);
        let (wm0, wm1) = u16_le_bytes(width_mm);
        let (h0, h1) = u16_le_bytes(height);
        let (hm0, hm1) = u16_le_bytes(height_mm);
        buf[39] = w0;
        buf[40] = w1;
        buf[44] = wm0;
        buf[45] = wm1;
        buf[61] = h0;
        buf[62] = h1;
        buf[66] = hm0;
        buf[67] = hm1;
        buf
    }
}

pub struct TouchpadMultiCharacterReport {
    pub character1_length: u8,
    pub character1_data: [u8; 4],
    pub character1_quality: u8,
    pub character2_length: u8,
    pub character2_data: [u8; 4],
    pub character2_quality: u8,
    pub transducer_state: u8,
    pub transducer_x: u16,
    pub transducer_y: u16,
}

/// A character length clipped to the four bytes a report can carry.
pub open spec fn clip4(len: u8) -> u8 {
    if len < 4 { len } else { 4 }
}

/// The first `clip4(len)` bytes of `data`, padded with zeros to four bytes.
pub open spec fn padded_character(data: Seq<u8>, len: u8) -> Seq<u8> {
    Seq::new(4, |i: int| if i < clip4(len) { data[i] } else { 0u8 })
}

/// The 19-byte multi-character report.
pub open spec fn multi_character_bytes(r: TouchpadMultiCharacterReport) -> Seq<u8> {
    flag_and_point(r.transducer_state, r.transducer_x, r.transducer_y)
        + padded_character(r.character1_data@, r.character1_length)
        + seq![1u8, clip4(r.character1_length), r.character1_quality]
        + padded_character(r.character2_data@, r.character2_length)
        + seq![1u8, clip4(r.character2_length), r.character2_quality]
}

fn write_character(buf: &mut [u8; 19], at: usize, data: &[u8; 4], len: u8)
    requires
        at + 4 <= 19,
        forall|i: int| at <= i < at + 4 ==> old(buf)@[i] == 0,
    ensures
        final(buf)@.subrange(at as int, at + 4) == padded_character(data@, len),
        forall|i: int| 0 <= i < 19 && !(at <= i < at + 4) ==> final(buf)@[i] == old(buf)@[i],
{
    let n: u8 = if len < 4 { len } else { 4 };
    let mut i: usize = 0;
    while i < n as usize
        invariant
            n == clip4(len),
            i <= n,
            at + 4 <= 19,
            forall|k: int| at <= k < at + i ==> buf@[k] == data@[k - at],
            forall|k: int| at + i <= k < at + 4 ==> buf@[k] == 0,
            forall|j: int| 0 <= j < 19 && !(at <= j < at + 4) ==> buf@[j] == old(buf)@[j],
        decreases n - i,
    {
        buf[at + i] = data[i];
        i = i + 1;
    }
    assert(buf@.subrange(at as int, at + 4) =~= padded_character(data@, len));
}

pub const TOUCHPAD_MULTI_CHARACTER_TEMPLATE: [u8; 160] = [
    0x05, 0x0D, 0x09, 0x05, 0xA1, 0x01, 0x05, 0x0D, 0x09, 0x22, 0xA1, 0x02, 0x05, 0x0D, 0x09,
    0x33, 0x15, 0x00, 0x25, 0x01, 0x75, 0x01, 0x95, 0x01, 0x81, 0x02, 0x75, 0x07, 0x95, 0x01,
    0x81, 0x01, 0x05, 0x01, 0x09, 0x30, 0x15, 0x00, 0x26, 0xFF, 0xFF, 0x35, 0x00, 0x46, 0xFF,
    0xFF, 0x55, 0x0F, 0x65, 0x11, 0x75, 0x10, 0x95, 0x01, 0x81, 0x02, 0x09, 0x31, 0x15, 0x00,
    0x26, 0xFF, 0xFF, 0x35, 0x00, 0x46, 0xFF, 0xFF, 0x55, 0x0F, 0x65, 0x11, 0x75, 0x10, 0x95,
    0x01, 0x81, 0x02, 0xC0, 0x05, 0x0D, 0x09, 0x24, 0xA1, 0x02, 0x05, 0x0D, 0x09, 0x63, 0x75,
    0x20, 0x95, 0x01, 0x82, 0x02, 0x01, 0x09, 0x65, 0x09, 0x62, 0x75, 0x08, 0x95, 0x02, 0x81,
    0x02, 0x09, 0x61, 0x15, 0x00, 0x25, 0x64, 0x75, 0x08, 0x95, 0x01, 0x81, 0x02, 0xC0, 0x05,
    0x0D, 0x09, 0x24, 0xA1, 0x02, 0x05, 0x0D, 0x09, 0x63, 0x75, 0x20, 0x95, 0x01, 0x82, 0x02,
    0x01, 0x09, 0x65, 0x09, 0x62, 0x75, 0x08, 0x95, 0x02, 0x81, 0x02, 0x09, 0x61, 0x15, 0x00,
    0x25, 0x64, 0x75, 0x08, 0x95, 0x01, 0x81, 0x02, 0xC0, 0xC0,
];

impl TouchpadMultiCharacterReport {
    #[allow(clippy::too_many_arguments)]
    pub fn new(
        character1_length: u8,
        character1_data: [u8; 4],
        character1_quality: u8,
        character2_length: u8,
        character2_data: [u8; 4],
        character2_quality: u8,
        transducer_state: u8,
        transducer_x: u16,
        transducer_y: u16,
    ) -> (r: Self)
        ensures
            r == (TouchpadMultiCharacterReport {
                character1_length,
                character1_data,
                character1_quality,
                character2_length,
                character2_data,
                character2_quality,
                transducer_state,
                transducer_x,
                transducer_y,
            }),
    {
        TouchpadMultiCharacterReport {
            character1_length,
            character1_data,
            character1_quality,
            character2_length,
            character2_data,
            character2_quality,
            transducer_state,
            transducer_x,
            transducer_y,
        }
    }

    pub fn to_bytes(&self) -> (r: [u8; 19])
        ensures
            r@ == multi_character_bytes(*self),
    {
        let mut buf = [0u8; 19];
        let character1_length: u8 = if self.character1_length < 4 { self.character1_length } else { 4 };
        let character2_length: u8 = if self.character2_length < 4 { self.character2_length } else { 4 };
        let (x0, x1) = u16_le_bytes(self.transducer_x);
        let (y0, y1) = u16_le_bytes(self.transducer_y);
        buf[0] = self.transducer_state;
        buf[1] = x0;
        buf[2] = x1;
        buf[3] = y0;
        buf[4] = y1;
        write_character(&mut buf, 5, &self.character1_data, self.character1_length);
        buf[9] = 1;
        buf[10] = character1_length;
        buf[11] = self.character1_quality;
        write_character(&mut buf, 12, &self.character2_data, self.character2_length);
        buf[16] = 1;
        buf[17] = character2_length;
        buf[18] = self.character2_quality;
        assert(buf@ =~= multi_character_bytes(*self)) by {
            assert(buf@.subrange(5, 9) == padded_character(self.character1_data@, self.character1_length));
            assert(buf@.subrange(12, 16) == padded_character(self.character2_data@, self.character2_length));
        }
        buf
    }

    pub fn descriptor(width: u16, height: u16, width_mm: u16, height_mm: u16) -> (r: [u8; 160])
        ensures
            r@ == touchpad_patched(TOUCHPAD_MULTI_CHARACTER_TEMPLATE@, width, height, width_mm, height_mm),
    {
        let mut buf = TOUCHPAD_MULTI_CHARACTER_TEMPLATE;
        let (w0, w1) = u16_le_bytes(width);
        let (wm0, wm1) = u16_le_bytes(width_mm);
        let (h0, h1) = u16_le_bytes(height);
        let (hm0, hm1) = u16_le_bytes(height_mm);
        buf[39] = w0;
        buf[40] = w1;
        buf[44] = wm0;
        buf[45] = wm1;
        buf[61] = h0;
        buf[62] = h1;
        buf[66] = hm0;
        buf[67] = hm1;
        buf
    }
}

pub struct TouchpadButtonsReport {
    pub buttons: u8,
}

pub const TOUCHPAD_BUTTONS_DESCRIPTOR: [u8; 37] = [
    0x05, 0x0C, 0x09, 0x01, 0xA1, 0x01, 0x05, 0x09, 0x09, 0x01, 0x15, 0x00, 0x25, 0x01, 0x75,
    0x01, 0x95, 0x01, 0x81, 0x02, 0x05, 0x0c, 0x0a, 0x24, 0x02, 0x0a, 0x23, 0x02, 0x95, 0x02,
    0x81, 0x02, 0x95, 0x05, 0x81, 0x01, 0xC0,
];

impl TouchpadButtonsReport {
    pub fn new(select_button: bool, back_button: bool, home_button: bool) -> (r: Self)
        ensures
            r.buttons == crate::hid::knob::button_bits(select_button, back_button, home_button),
    {
        TouchpadButtonsReport { buttons: crate::hid::knob::pack_three_buttons(select_button, back_button, home_button) }
    }

    pub fn to_bytes(&self) -> (r: [u8; 1])
        ensures
            r@ == seq![self.buttons],
    {
        let r = [self.buttons];
        assert(r@ =~= seq![self.buttons]);
        r
    }

    pub fn descriptor() -> (r: [u8; 37])
        ensures
            r == TOUCHPAD_BUTTONS_DESCRIPTOR,
    {
        TOUCHPAD_BUTTONS_DESCRIPTOR
    }
}

} // verus!
