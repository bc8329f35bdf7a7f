use catplay::fairplay::{modified_md5_rust, sap_hash_rust};

fn counting_block() -> [u8; 64] {
    let mut block = [0u8; 64];
    for (i, b) in block.iter_mut().enumerate() {
        *b = i as u8;
    }
    block
}

fn counting_key() -> [u8; 16] {
    let mut key = [0u8; 16];
    for (i, b) in key.iter_mut().enumerate() {
        *b = (16 + i) as u8;
    }
    key
}

#[test]
fn modified_md5_of_zeros() {
    assert_eq!(
        modified_md5_rust(&[0u8; 64], &[0u8; 16]),
        [0x97, 0x1c, 0xcd, 0xf7, 0x81, 0x36, 0x48, 0xa5, 0x32, 0xd8, 0x68, 0x2b, 0x39, 0xa6, 0x0c, 0xf9]
    );
}

#[test]
fn modified_md5_of_counting_bytes() {
    assert_eq!(
        modified_md5_rust(&counting_block(), &counting_key()),
        [0x0b, 0xf4, 0x33, 0x9b, 0xab, 0x85, 0xe4, 0x18, 0xd2, 0xc7, 0x55, 0x7b, 0xa8, 0xcd, 0xb7, 0xe0]
    );
}

#[test]
fn modified_md5_depends_on_the_key() {
    assert_ne!(modified_md5_rust(&counting_block(), &counting_key()), modified_md5_rust(&counting_block(), &[0u8; 16]));
}

#[test]
fn sap_hash_ignores_the_key() {
    let block = counting_block();
    assert_eq!(sap_hash_rust(&block, &counting_key()), sap_hash_rust(&block, &[0u8; 16]));
}

#[test]
fn sap_hash_depends_on_the_block() {
    let key = counting_key();
    assert_ne!(sap_hash_rust(&counting_block(), &key), sap_hash_rust(&[0u8; 64], &key));
}
