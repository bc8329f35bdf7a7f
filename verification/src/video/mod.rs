pub mod bytes_buf;
pub mod golomb;
pub mod nal;
pub mod avcc;
pub mod hvcc;
pub mod annexb_iter;
pub mod annexb_builder;
pub mod annexb_converter;
pub mod video_frame;
pub mod roundtrip;
pub mod config_roundtrip;
pub mod pts;
