//! Verified building blocks of a CarPlay stack: HID report encoders, a gap-aware
//! audio ring buffer, H.264/HEVC bitstream helpers, mDNS packet builders and parsers, and
//! the FairPlay SAP hash.

pub mod hid;
pub mod ring;
pub mod video;
pub mod bonjour;
pub mod gadget;
pub mod fairplay;
