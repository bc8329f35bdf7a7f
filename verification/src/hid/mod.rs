//! HID report layouts and descriptors used by the CarPlay accessory side.

pub mod knob;
pub mod media_buttons;
pub mod proximity;
pub mod telephony;
pub mod touch_single;
pub mod touchpad;
