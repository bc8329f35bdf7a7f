use vstd::prelude::*;
use vstd::std_specs::convert::FromSpecImpl;

verus! {

#[derive(Debug, Clone, Copy, PartialEq, Eq)]
pub enum MediaButton {
    NoButton,
    Play,
    Pause,
    PlayPause,
    NextTrack,
    PrevTrack,
    ACNavigationGuidance,
}

/// Usage index of a media button within the consumer-control array.
pub open spec fn media_button_code(b: MediaButton) -> u8 {
    match b {
        MediaButton::NoButton => 0,
        MediaButton::Play => 1,
        MediaButton::Pause => 2,
        MediaButton::PlayPause => 3,
        MediaButton::NextTrack => 4,
        MediaButton::PrevTrack => 5,
        MediaButton::ACNavigationGuidance => 6,
    }
}

/// Button for a usage index; unknown indices mean no button.
pub open spec fn media_button_from_code(v: u8) -> MediaButton {
    if v == 1 {
        MediaButton::Play
    } else if v == 2 {
        MediaButton::Pause
    } else if v == 3 {
        MediaButton::PlayPause
    } else if v == 4 {
        MediaButton::NextTrack
    } else if v == 5 {
        MediaButton::PrevTrack
    } else if v == 6 {
        MediaButton::ACNavigationGuidance
    } else {
        MediaButton::NoButton
    }
}

impl From<MediaButton> for u8 {
    fn from(value: MediaButton) -> (r: u8) {
        match value {
            MediaButton::NoButton => 0,
            MediaButton::Play => 1,
            MediaButton::Pause => 2,
            MediaButton::PlayPause => 3,
            MediaButton::NextTrack => 4,
            MediaButton::PrevTrack => 5,
            MediaButton::ACNavigationGuidance => 6,
        }
    }
}

impl FromSpecImpl<MediaButton> for u8 {
    open spec fn obeys_from_spec() -> bool {
        true
    }

    open spec fn from_spec(v: MediaButton) -> u8 {
        media_button_code(v)
    }
}

impl From<u8> for MediaButton {
    fn from(value: u8) -> (r: MediaButton) {
        match value {
            1 => MediaButton::Play,
            2 => MediaButton::Pause,
            3 => MediaButton::PlayPause,
            4 => MediaButton::NextTrack,
            5 => MediaButton::PrevTrack,
            6 => MediaButton::ACNavigationGuidance,
            _ => MediaButton::NoButton,
        }
    }
}

impl FromSpecImpl<u8> for MediaButton {
    open spec fn obeys_from_spec() -> bool {
        true
    }

    open spec fn from_spec(v: u8) -> MediaButton {
        media_button_from_code(v)
    }
}

/// Decoding the code of any button gives that button back.
pub proof fn lemma_media_button_code_roundtrip(b: MediaButton)
    ensures
        media_button_from_code(media_button_code(b)) == b,
{
}

pub struct MediaButtonsReport {
    button: u8,
}

pub const MEDIA_BUTTONS_DESCRIPTOR: [u8; 40] = [
    0x05, 0x0C, 0x09, 0x01, 0xA1, 0x01, 0x15, 0x00, 0x25, 0x06, 0x05, 0x0C, 0x0A, 0x00, 0x00,
    0x0A, 0xB0, 0x00, 0x0A, 0xB1, 0x00, 0x0A, 0xCD, 0x00, 0x0A, 0xB5, 0x00, 0x0A, 0xB6, 0x00,
    0x0A, 0x9E, 0x02, 0x75, 0x08, 0x95, 0x01, 0x81, 0x00, 0xC0,
];

impl MediaButtonsReport {
    pub closed spec fn code(&self) -> u8 {
        self.button
    }

    pub fn new(button: MediaButton) -> (r: Self)
        ensures
            r.code() == media_button_code(button),
    {
        MediaButtonsReport { button: button.into() }
    }

    pub fn to_bytes(&self) -> (r: [u8; 1])
        ensures
            r@ == seq![self.code()],
    {
        let r = [self.button];
        assert(r@ =~= seq![self.button]);
        r
    }

    pub fn descriptor() -> (r: [u8; 40])
        ensures
            r == MEDIA_BUTTONS_DESCRIPTOR,
    {
        MEDIA_BUTTONS_DESCRIPTOR
    }
}

} // verus!
