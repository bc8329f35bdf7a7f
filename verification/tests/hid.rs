use catplay::hid::knob::{KnobBasicReport, KnobMinimalReport, KnobReport, KNOB_DESCRIPTOR};
use catplay::hid::media_buttons::{MediaButton, MediaButtonsReport};
use catplay::hid::proximity::ProximityReport;
use catplay::hid::telephony::{TelephonyButton, TelephonyButtonsReport};
use catplay::hid::touch_single::{TouchScreenSingleCancelReport, TouchScreenSingleReport};
use catplay::hid::touchpad::{TouchpadButtonsReport, TouchpadMultiCharacterReport, TouchpadOnlyReport};

#[test]
fn knob_reports_match_fill_report_layout() {
    assert_eq!(KnobReport::new(true, false, true, -1, 2, -3).to_bytes(), [0x05, 0xff, 0x02, 0xfd]);
    assert_eq!(KnobBasicReport::new(true, true, false, -2).to_bytes(), [0x03, 0xfe]);
    assert_eq!(KnobMinimalReport::new(true, -4).to_bytes(), [0x01, 0xfc]);
}

#[test]
fn proximity_and_button_reports_are_single_byte() {
    assert_eq!(ProximityReport::new(true).to_bytes(), [1]);
    assert_eq!(MediaButtonsReport::new(MediaButton::NextTrack).to_bytes(), [4]);
    assert_eq!(TelephonyButtonsReport::new(TelephonyButton::Mute).to_bytes(), [4]);
    assert_eq!(TouchpadButtonsReport::new(true, false, true).to_bytes(), [0x05]);
}

#[test]
fn descriptors_patch_dynamic_dimensions() {
    let touch = TouchScreenSingleReport::descriptor(0x1234, 0xabcd);
    assert_eq!(&touch[0x27..0x29], &[0x34, 0x12]);
    assert_eq!(&touch[0x34..0x36], &[0xcd, 0xab]);

    let touch_cancel = TouchScreenSingleCancelReport::descriptor(0x1234, 0xabcd);
    assert_eq!(&touch_cancel[0x2B..0x2D], &[0x34, 0x12]);
    assert_eq!(&touch_cancel[0x38..0x3A], &[0xcd, 0xab]);

    let touchpad = TouchpadOnlyReport::descriptor(0x1234, 0xabcd, 0x0201, 0x0403);
    assert_eq!(&touchpad[39..41], &[0x34, 0x12]);
    assert_eq!(&touchpad[44..46], &[0x01, 0x02]);
    assert_eq!(&touchpad[61..63], &[0xcd, 0xab]);
    assert_eq!(&touchpad[66..68], &[0x03, 0x04]);
}

#[test]
fn touchpad_multi_character_report_pads_candidates() {
    let report = TouchpadMultiCharacterReport::new(2, *b"abzz", 90, 5, *b"wxyz", 80, 1, 0x1234, 0xabcd);

    assert_eq!(
        report.to_bytes(),
        [
            0x01, 0x34, 0x12, 0xcd, 0xab, b'a', b'b', 0x00, 0x00, 0x01, 0x02, 0x5a, b'w', b'x', b'y', b'z', 0x01, 0x04, 0x50,
        ]
    );
}

#[test]
fn descriptors_keep_their_templates_elsewhere() {
    let touch = TouchScreenSingleReport::descriptor(0x1234, 0xabcd);
    assert_eq!(touch.len(), 62);
    assert_eq!(&touch[0..4], &[0x05, 0x0D, 0x09, 0x04]);
    assert_eq!(touch[0x29], 0x75);
    assert_eq!(KnobReport::descriptor(), KNOB_DESCRIPTOR);
    assert_eq!(KnobReport::descriptor().len(), 70);
    assert_eq!(KnobBasicReport::descriptor().len(), 51);
    assert_eq!(KnobMinimalReport::descriptor().len(), 39);
    assert_eq!(MediaButtonsReport::descriptor().len(), 40);
    assert_eq!(ProximityReport::descriptor().len(), 22);
    assert_eq!(TelephonyButtonsReport::descriptor().len(), 57);
    assert_eq!(TouchpadButtonsReport::descriptor().len(), 37);
    assert_eq!(TouchpadMultiCharacterReport::descriptor(1, 2, 3, 4).len(), 160);
}

#[test]
fn button_codes_roundtrip_through_u8() {
    for b in [
        MediaButton::NoButton,
        MediaButton::Play,
        MediaButton::Pause,
        MediaButton::PlayPause,
        MediaButton::NextTrack,
        MediaButton::PrevTrack,
        MediaButton::ACNavigationGuidance,
    ] {
        let code: u8 = b.into();
        assert_eq!(MediaButton::from(code), b);
    }
    assert_eq!(MediaButton::from(200u8), MediaButton::NoButton);
    let code: u8 = TelephonyButton::Delete.into();
    assert_eq!(code, 17);
    assert_eq!(TelephonyButton::from(17u8), TelephonyButton::Delete);
    assert_eq!(TelephonyButton::from(99u8), TelephonyButton::Up);
}

#[test]
fn touch_reports_mask_flags_and_encode_le() {
    let t = TouchScreenSingleReport::new(true, 0x0102, 0x0304);
    assert!(t.is_touched());
    assert_eq!(t.to_bytes(), [1, 0x02, 0x01, 0x04, 0x03]);
    assert!(!TouchScreenSingleReport::new(false, 0, 0).is_touched());
    let c = TouchScreenSingleCancelReport::new(false, true, 7, 8);
    assert_eq!(c.to_bytes(), [2, 7, 0, 8, 0]);
    let p = TouchpadOnlyReport::new(3, 0xffff, 1);
    assert_eq!(p.to_bytes(), [3, 0xff, 0xff, 1, 0]);
}

#[test]
fn consumer_button_pairs_are_counted_as_two_bits() {
    let knob = KnobBasicReport::descriptor();
    assert_eq!(&knob[28..30], &[0x95, 0x02]);
    let buttons = TouchpadButtonsReport::descriptor();
    assert_eq!(&buttons[28..30], &[0x95, 0x02]);
}
