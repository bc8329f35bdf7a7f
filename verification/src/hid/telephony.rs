use vstd::prelude::*;
use vstd::std_specs::convert::FromSpecImpl;

verus! {

#[derive(Debug, Clone, Copy, PartialEq, Eq)]
pub enum TelephonyButton {
    Up,
    HookSwitch,
    Flash,
    Drop,
    Mute,
    PhoneKey0,
    PhoneKey1,
    PhoneKey2,
    PhoneKey3,
    PhoneKey4,
    PhoneKey5,
    PhoneKey6,
    PhoneKey7,
    PhoneKey8,
    PhoneKey9,
    PhoneKeyStar,
    PhoneKeyPound,
    Delete,
}

/// Position of a telephony button in the keypad usage array.
pub open spec fn telephony_button_code(b: TelephonyButton) -> u8 {
    match b {
        TelephonyButton::Up => 0,
        TelephonyButton::HookSwitch => 1,
        TelephonyButton::Flash => 2,
        TelephonyButton::Drop => 3,
        TelephonyButton::Mute => 4,
        TelephonyButton::PhoneKey0 => 5,
        TelephonyButton::PhoneKey1 => 6,
        TelephonyButton::PhoneKey2 => 7,
        TelephonyButton::PhoneKey3 => 8,
        TelephonyButton::PhoneKey4 => 9,
        TelephonyButton::PhoneKey5 => 10,
        TelephonyButton::PhoneKey6 => 11,
        TelephonyButton::PhoneKey7 => 12,
        TelephonyButton::PhoneKey8 => 13,
        TelephonyButton::PhoneKey9 => 14,
        TelephonyButton::PhoneKeyStar => 15,
        TelephonyButton::PhoneKeyPound => 16,
        TelephonyButton::Delete => 17,
    }
}

/// Button at a position of the keypad usage array; positions past the end fall back to `Up`.
pub open spec fn telephony_button_from_code(v: u8) -> TelephonyButton {
    if v == 1 {
        TelephonyButton::HookSwitch
    } else if v == 2 {
        TelephonyButton::Flash
    } else if v == 3 {
        TelephonyButton::Drop
    } else if v == 4 {
        TelephonyButton::Mute
    } else if v == 5 {
        TelephonyButton::PhoneKey0
    } else if v == 6 {
        TelephonyButton::PhoneKey1
    } else if v == 7 {
        TelephonyButton::PhoneKey2
    } else if v == 8 {
        TelephonyButton::PhoneKey3
    } else if v == 9 {
        TelephonyButton::PhoneKey4
    } else if v == 10 {
        TelephonyButton::PhoneKey5
    } else if v == 11 {
        TelephonyButton::PhoneKey6
    } else if v == 12 {
        TelephonyButton::PhoneKey7
    } else if v == 13 {
        TelephonyButton::PhoneKey8
    } else if v == 14 {
        TelephonyButton::PhoneKey9
    } else if v == 15 {
        TelephonyButton::PhoneKeyStar
    } else if v == 16 {
        TelephonyButton::PhoneKeyPound
    } else if v == 17 {
        TelephonyButton::Delete
    } else {
        TelephonyButton::Up
    }
}

impl From<TelephonyButton> for u8 {
    fn from(value: TelephonyButton) -> (r: u8) {
        match value {
            TelephonyButton::Up => 0,
            TelephonyButton::HookSwitch => 1,
            TelephonyButton::Flash => 2,
            TelephonyButton::Drop => 3,
            TelephonyButton::Mute => 4,
            TelephonyButton::PhoneKey0 => 5,
            TelephonyButton::PhoneKey1 => 6,
            TelephonyButton::PhoneKey2 => 7,
            TelephonyButton::PhoneKey3 => 8,
            TelephonyButton::PhoneKey4 => 9,
            TelephonyButton::PhoneKey5 => 10,
            TelephonyButton::PhoneKey6 => 11,
            TelephonyButton::PhoneKey7 => 12,
            TelephonyButton::PhoneKey8 => 13,
            TelephonyButton::PhoneKey9 => 14,
            TelephonyButton::PhoneKeyStar => 15,
            TelephonyButton::PhoneKeyPound => 16,
            TelephonyButton::Delete => 17,
        }
    }
}

impl FromSpecImpl<TelephonyButton> for u8 {
    open spec fn obeys_from_spec() -> bool {
        true
    }

    open spec fn from_spec(v: TelephonyButton) -> u8 {
        telephony_button_code(v)
    }
}

impl From<u8> for TelephonyButton {
    fn from(value: u8) -> (r: TelephonyButton) {
        match value {
            0 => TelephonyButton::Up,
            1 => TelephonyButton::HookSwitch,
            2 => TelephonyButton::Flash,
            3 => TelephonyButton::Drop,
            4 => TelephonyButton::Mute,
            5 => TelephonyButton::PhoneKey0,
            6 => TelephonyButton::PhoneKey1,
            7 => TelephonyButton::PhoneKey2,
            8 => TelephonyButton::PhoneKey3,
            9 => TelephonyButton::PhoneKey4,
            10 => TelephonyButton::PhoneKey5,
            11 => TelephonyButton::PhoneKey6,
            12 => TelephonyButton::PhoneKey7,
            13 => TelephonyButton::PhoneKey8,
            14 => TelephonyButton::PhoneKey9,
            15 => TelephonyButton::PhoneKeyStar,
            16 => TelephonyButton::PhoneKeyPound,
            17 => TelephonyButton::Delete,
            _ => TelephonyButton::Up,
        }
    }
}

impl FromSpecImpl<u8> for TelephonyButton {
    open spec fn obeys_from_spec() -> bool {
        true
    }

    open spec fn from_spec(v: u8) -> TelephonyButton {
        telephony_button_from_code(v)
    }
}

/// Decoding the code of any button gives that button back.
pub proof fn lemma_telephony_button_code_roundtrip(b: TelephonyButton)
    ensures
        telephony_button_from_code(telephony_button_code(b)) == b,
{
}

pub struct TelephonyButtonsReport {
    button: u8,
}

pub const TELEPHONY_BUTTONS_DESCRIPTOR: [u8; 57] = [
    0x05, 0x0B, 0x09, 0x07, 0xA1, 0x01, 0x15, 0x00, 0x25, 0x11, 0x05, 0x0B, 0x09, 0x00, 0x09,
    0x20, 0x09, 0x21, 0x09, 0x26, 0x09, 0x2F, 0x09, 0xB0, 0x09, 0xB1, 0x09, 0xB2, 0x09, 0xB3,
    0x09, 0xB4, 0x09, 0xB5, 0x09, 0xB6, 0x09, 0xB7, 0x09, 0xB8, 0x09, 0xB9, 0x09, 0xBA, 0x09,
    0xBB, 0x05, 0x07, 0x09, 0x2A, 0x75, 0x08, 0x95, 0x01, 0x81, 0x00, 0xC0,
];

impl TelephonyButtonsReport {
    pub closed spec fn code(&self) -> u8 {
        self.button
    }

    pub fn new(button: TelephonyButton) -> (r: Self)
        ensures
            r.code() == telephony_button_code(button),
    {
        TelephonyButtonsReport { button: button.into() }
    }

    pub fn to_bytes(&self) -> (r: [u8; 1])
        ensures
            r@ == seq![self.code()],
    {
        let r = [self.button];
        assert(r@ =~= seq![self.button]);
        r
    }

    pub fn descriptor() -> (r: [u8; 57])
        ensures
            r == TELEPHONY_BUTTONS_DESCRIPTOR,
    {
        TELEPHONY_BUTTONS_DESCRIPTOR
    }
}

} // verus!
