use bytes::BytesMut;
use catplay::video::annexb_converter::AnnexBConverter;
use catplay::video::annexb_iter::{chunk_payload_bounds, collect_chunks, read_length_prefixed_nal_len, AnnexBIter};
use catplay::video::avcc::{avcc_config_deserialize, avcc_config_serialize, AvccConfig};
use catplay::video::hvcc::{
    hvcc_config_deserialize, hvcc_config_serialize, hvcc_sample_entry_extract_codec_config,
    hvcc_write_stsd_atom_from_old_format, hvcc_write_stsd_atom_from_old_format_with_tags,
};
use catplay::video::nal::{get_frame_id, remove_emulation_prevention_bytes, HevcNalType, NalChunk, NalError, NalType};
use catplay::video::pts::PtsOffset;

fn sample_annexb() -> BytesMut {
    BytesMut::from(
        &[
            0x00, 0x00, 0x00, 0x01, // start
            0x67, 0x42, 0xE0, 0x1E, 0x89, 0x8B, // nal
            0x00, 0x00, 0x00, 0x01, // start
            0x68, 0xCE, // nal
        ][..],
    )
}

fn assert_roundtrip_with_cache_reuse(nal_size_len: usize) {
    let mut to_length = AnnexBConverter::new(nal_size_len);
    let annexb = sample_annexb();
    let avcc = to_length.convert(&mut annexb.clone(), true).expect("annexb->avcc failed");

    let mut to_annexb = AnnexBConverter::with_cache(nal_size_len, to_length.offsets_cache.clone());

    let annexb2 = to_annexb.convert(&mut avcc.clone(), false).expect("avcc->annexb failed");
    assert_eq!(annexb, annexb2);
}

#[test]
fn roundtrip_len4_with_cache_reuse() {
    assert_roundtrip_with_cache_reuse(4);
}

#[test]
fn roundtrip_len2_with_cache_reuse() {
    assert_roundtrip_with_cache_reuse(2);
}

#[test]
fn roundtrip_len3_with_cache_reuse() {
    assert_roundtrip_with_cache_reuse(3);
}

#[test]
fn conversion_without_cache_both_directions() {
    let annexb = sample_annexb();
    let mut to_avcc_no_cache = AnnexBConverter::new(4);
    let avcc = to_avcc_no_cache.convert(&mut annexb.clone(), true).expect("annexb->avcc without cache failed");
    assert!(!to_avcc_no_cache.offsets_cache.is_empty());

    let mut to_annexb_no_cache = AnnexBConverter::new(4);
    let annexb2 = to_annexb_no_cache.convert(&mut avcc.clone(), false).expect("avcc->annexb without cache failed");
    assert_eq!(annexb, annexb2);
    assert!(!to_annexb_no_cache.offsets_cache.is_empty());
}

#[test]
fn avcc_to_annexb_without_cache_explicit() {
    let annexb = sample_annexb();
    let mut to_avcc = AnnexBConverter::new(4);
    let avcc = to_avcc.convert(&mut annexb.clone(), true).expect("annexb->avcc failed");

    let mut fresh_decoder = AnnexBConverter::new(4);
    let annexb2 = fresh_decoder.convert(&mut avcc.clone(), false).expect("avcc->annexb without cache failed");
    assert_eq!(annexb, annexb2);
}

#[test]
fn annexb_to_avcc_without_cache_explicit() {
    let annexb = sample_annexb();
    let mut fresh_encoder = AnnexBConverter::new(4);
    let avcc = fresh_encoder.convert(&mut annexb.clone(), true).expect("annexb->avcc without cache failed");
    assert!(!avcc.is_empty());
}

#[test]
fn duplicate_conversion_with_cache_fails_verification_annexb() {
    let mut conv = AnnexBConverter::new(4);
    let annexb = sample_annexb();
    let avcc = conv.convert(&mut annexb.clone(), true).expect("annexb->avcc failed");

    let mut annexb2 = conv.convert(&mut avcc.clone(), false).expect("avcc->annexb failed");
    assert_eq!(annexb, annexb2);
    let err = conv.convert(&mut annexb2, false).unwrap_err();
    assert!(matches!(err, NalError::Param | NalError::Underrun));
}

#[test]
fn duplicate_conversion_with_cache_fails_verification_avcc() {
    let mut conv = AnnexBConverter::new(4);
    let annexb = sample_annexb();
    let avcc = conv.convert(&mut annexb.clone(), true).expect("annexb->avcc failed");
    let mut avcc2 = conv.convert(&mut annexb.clone(), true).expect("annexb->avcc (cached) failed");
    assert_eq!(avcc, avcc2);
    let err = conv.convert(&mut avcc2, true).unwrap_err();
    assert!(matches!(err, NalError::Param | NalError::Underrun));
}

#[test]
fn rejects_invalid_input() {
    let mut converter = AnnexBConverter::new(4);
    let mut invalid = BytesMut::from(&b"\x12\x34\x56\x78"[..]);
    let err = converter.convert(&mut invalid, true).unwrap_err();
    assert!(matches!(err, NalError::Param));
}

#[test]
fn test_avcc_config_annexb_roundtrip() {
    let avcc: Vec<u8> = vec![
        0x01, // version
        0x42, // profile (Baseline)
        0xE0, // compatibility
        0x1E, // level_idc
        0xFF, // reserved + nal_size_len (4 bytes)
        0xE1, // reserved + numOfSPS=1
        0x00, 0x06, // SPS length
        0x67, 0x42, 0xE0, 0x1E, 0x89, 0x8B, // SPS payload
        0x01, // numOfPPS
        0x00, 0x02, // PPS length
        0x68, 0xCE, // PPS payload
    ];

    let header1 = avcc_config_deserialize(&avcc).expect("avcc->annexb failed");
    println!("{header1:?}");

    let avcc2 = avcc_config_serialize(&header1).expect("annexb->avcc failed");

    let header2 = avcc_config_deserialize(&avcc2).expect("avcc2->annexb failed");
    println!("{header2:?}");

    assert_eq!(header1.nal_size_len, header2.nal_size_len);
    assert_eq!(header1.sps_pps, header2.sps_pps);
    assert_eq!(header1, header2);
    assert_eq!(
        header1,
        AvccConfig {
            nal_size_len: 4,
            sps_pps: vec![0x00, 0x00, 0x00, 0x01, 0x67, 0x42, 0xE0, 0x1E, 0x89, 0x8B, 0x00, 0x00, 0x00, 0x01, 0x68, 0xCE],
        }
    );
}

#[test]
fn test_write_stsd_atom_from_old_format_avcc() {
    let avcc = [1u8, 2, 3, 4, 5];
    let out = hvcc_write_stsd_atom_from_old_format(1920, 1080, &avcc);

    // idSize
    assert_eq!(u32::from_be_bytes(out[0..4].try_into().unwrap()) as usize, 86 + 8 + avcc.len());
    // cType
    assert_eq!(&out[4..8], b"avc1");
    // width/height offsets in ImageDescriptionBase
    assert_eq!(u16::from_be_bytes(out[32..34].try_into().unwrap()), 1920);
    assert_eq!(u16::from_be_bytes(out[34..36].try_into().unwrap()), 1080);
    // trailing atom
    assert_eq!(&out[86 + 4..86 + 8], b"avcC");
    assert_eq!(&out[86 + 8..], &avcc);
}

#[test]
fn test_hvcc_config_deserialize() {
    // minimal-ish hvcC with 3 arrays: VPS, SPS, PPS
    let hvcc: Vec<u8> = vec![
        0x01, // configurationVersion
        0x01, // profile/tier/idc
        0, 0, 0, 0, // profile_compatibility_flags
        0, 0, 0, 0, 0, 0, // constraint flags
        0x78, // level
        0xF0, 0x00, // min_spatial_segmentation_idc
        0xFC, // parallelismType
        0xFD, // chromaFormat
        0xF8, // bitDepthLumaMinus8
        0xF8, // bitDepthChromaMinus8
        0x00, 0x00, // avgFrameRate
        0xFF, // constantFrameRate/temporalIdNested/lengthSizeMinusOne => 4-byte NAL size
        0x03, // numOfArrays
        0x20, // VPS type(32)
        0x00, 0x01, // numNalus
        0x00, 0x02, 0x40, 0x01, // nal length + nal
        0x21, // SPS type(33)
        0x00, 0x01, // numNalus
        0x00, 0x03, 0x42, 0x01, 0x01, // nal length + nal
        0x22, // PPS type(34)
        0x00, 0x01, // numNalus
        0x00, 0x02, 0x44, 0x01, // nal length + nal
    ];

    let parsed = hvcc_config_deserialize(&hvcc).expect("hvcc should parse");
    assert_eq!(parsed.nal_size_len, 4);
    assert_eq!(
        parsed.vps_sps_pps,
        vec![
            0, 0, 0, 1, 0x40, 0x01, //
            0, 0, 0, 1, 0x42, 0x01, 0x01, //
            0, 0, 0, 1, 0x44, 0x01
        ]
    );
}

#[test]
fn test_sample_entry_extract_codec_config_hvcc() {
    let hvcc = vec![1u8, 2, 3, 4];
    let atom = hvcc_write_stsd_atom_from_old_format_with_tags(1280, 720, &hvcc, *b"hvc1", *b"hvcC");
    let (tag, payload) = hvcc_sample_entry_extract_codec_config(&atom).expect("should extract");
    assert_eq!(&tag, b"hvcC");
    assert_eq!(payload, hvcc);
}

#[test]
fn test_hvcc_config_serialize_roundtrip() {
    let cfg = AvccConfig {
        nal_size_len: 4,
        sps_pps: vec![
            0,
            0,
            0,
            1,
            32 << 1,
            0x01, // VPS
            0,
            0,
            0,
            1,
            33 << 1,
            0x02,
            0x03, // SPS
            0,
            0,
            0,
            1,
            34 << 1,
            0x04, // PPS
        ],
    };

    let hvcc = hvcc_config_serialize(&cfg).expect("hvcc should serialize");
    let parsed = hvcc_config_deserialize(&hvcc).expect("hvcc should parse");
    assert_eq!(parsed.nal_size_len, 4);
    assert_eq!(parsed.vps_sps_pps, cfg.sps_pps);
}

#[test]
fn test_remove_emulation_prevention_bytes() {
    let src = vec![0x00, 0x00, 0x01];
    let dst = remove_emulation_prevention_bytes(&src);
    assert_eq!(dst, src);

    let src = vec![0x00, 0x00, 0x03, 0x01];
    let dst = remove_emulation_prevention_bytes(&src);
    assert_eq!(dst, vec![0x00, 0x00, 0x01]);

    let src = vec![0x00, 0x00, 0x03, 0x00, 0x00, 0x03, 0x02];
    let dst = remove_emulation_prevention_bytes(&src);
    assert_eq!(dst, vec![0x00, 0x00, 0x00, 0x00, 0x02]);

    let src = vec![0x12, 0x34, 0x00, 0x03, 0x56];
    let dst = remove_emulation_prevention_bytes(&src);
    assert_eq!(dst, src);

    let src: Vec<u8> = vec![];
    let dst = remove_emulation_prevention_bytes(&src);
    assert_eq!(dst, src);
}

#[test]
fn test_hevc_nal_type_from_byte() {
    // type=32 (VPS): typ is in bits [1..6], so byte has to be (32 << 1)
    assert_eq!(HevcNalType::from_byte(32 << 1), HevcNalType::VpsNut);
    assert_eq!(HevcNalType::from_byte(33 << 1), HevcNalType::SpsNut);
    assert_eq!(HevcNalType::from_byte(34 << 1), HevcNalType::PpsNut);
    assert!(HevcNalType::from_byte(19 << 1).is_irap());
    assert!(!HevcNalType::from_byte(1 << 1).is_irap());
}

// ---- further cases ----

#[test]
fn nal_type_byte_roundtrip_and_keyframes() {
    for b in 0u8..32 {
        assert_eq!(NalType::from_byte(b).to_byte(), b);
    }
    assert_eq!(NalType::from_byte(0x65), NalType::from_byte(5));
    assert!(NalType::from_byte(5).is_keyframe());
    assert!(!NalType::from_byte(1).is_keyframe());
    assert_eq!(NalType::from_header(&[0x67, 0x42]), NalType::from_byte(7));
}

#[test]
fn annexb_iter_splits_on_start_codes() {
    let data = sample_annexb();
    let mut it = AnnexBIter::annexb(&data);
    let chunks = collect_chunks(&mut it).expect("scan");
    assert_eq!(chunks.len(), 2);
    assert_eq!(chunk_payload_bounds(&data, &chunks[0]), Ok((4, 10)));
    assert_eq!(chunk_payload_bounds(&data, &chunks[1]), Ok((14, 16)));
}

#[test]
fn length_prefixed_iter_reads_big_endian_lengths() {
    let data = [0u8, 2, 0xAA, 0xBB, 0, 1, 0xCC];
    let mut it = AnnexBIter::length_prefixed(&data, 2);
    let chunks = collect_chunks(&mut it).expect("scan");
    assert_eq!(chunks.len(), 2);
    assert_eq!(chunk_payload_bounds(&data, &chunks[1]), Ok((6, 7)));
    assert_eq!(read_length_prefixed_nal_len(&data, 0, 2), Ok((2, 2)));
    assert_eq!(read_length_prefixed_nal_len(&data, 6, 2).unwrap_err(), NalError::Underrun);
}

#[test]
fn scan_only_rejects_bad_prefix_size() {
    assert_eq!(AnnexBConverter::scan_only(&[0, 0, 0, 1, 9], 0, false).unwrap_err(), NalError::Param);
    assert_eq!(AnnexBConverter::scan_only(&[0, 0, 0, 1, 9], 5, true).unwrap_err(), NalError::Param);
    let chunks: Vec<NalChunk> = AnnexBConverter::scan_only(&[0, 0, 0, 1, 9], 4, false).unwrap();
    assert_eq!(chunks.len(), 1);
}

#[test]
fn get_frame_id_reads_non_idr_slices_only() {
    assert_eq!(get_frame_id(&[0x67, 0x42]), None);
}

#[test]
fn avcc_deserialize_rejects_short_input() {
    assert!(avcc_config_deserialize(&[1, 2, 3]).is_none());
    assert!(hvcc_config_deserialize(&[1, 2, 3]).is_none());
    assert!(hvcc_sample_entry_extract_codec_config(&[0, 1]).is_none());
}

#[test]
fn pts_offsets_split_past_and_future() {
    assert_eq!(PtsOffset::decode(100, 250), PtsOffset::Past(150));
    assert_eq!(PtsOffset::decode(250, 100), PtsOffset::Future(150));
    assert_eq!(PtsOffset::decode(7, 7), PtsOffset::Future(0));
    let p = PtsOffset::decode(100, 250);
    assert!(p.is_past());
    assert_eq!((p.delta(), p.past(), p.future()), (150, 150, 0));
    let f = PtsOffset::decode(250, 100);
    assert_eq!((f.delta(), f.past(), f.future()), (150, 0, 150));
}
