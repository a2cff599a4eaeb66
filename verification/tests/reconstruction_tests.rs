use star_rail_metadata_reconstructor::reconstruction::types::decode_type_generic_containers;

#[test]
fn generic_container_indices_decode_sentinel_and_valid_values() {
    let mut body = vec![0u8; 140];
    body[60..62].copy_from_slice(&0xabfbu16.to_le_bytes());
    body[130..132].copy_from_slice(&0xabfcu16.to_le_bytes());
    assert_eq!(decode_type_generic_containers(&body, 0, 2), [-1, 0]);
}

use star_rail_metadata_reconstructor::reconstruction::strings::StringDecryptor;

fn encrypt_block(plain: &[u8; 8], offset: u64, block: u64) -> [u8; 8] {
    let key = offset
        .wrapping_mul(0x907C_4962_2D94_D21A)
        .wrapping_add(0x75B6_79DA_F67C_3F24)
        .wrapping_add(block.wrapping_mul(0x3E69_3CD2_3A41_FDEF));
    (u64::from_le_bytes(*plain) ^ key).to_le_bytes()
}

#[test]
fn positive_string_indices_hold_a_six_bit_length_and_a_25_bit_offset() {
    let mut body = vec![0u8; 64];
    body[24..32].copy_from_slice(&encrypt_block(b"Abc\0\0\0\0\0", 8, 0));
    let decryptor = StringDecryptor::new(&body, 16);
    let index = (3u32 << 25) | 8;
    assert_eq!(decryptor.decrypt_string(index), "Abc");
}

#[test]
fn negative_string_indices_hold_an_eight_bit_length_and_a_23_bit_offset() {
    let mut body = vec![0u8; 64];
    body[16..24].copy_from_slice(&encrypt_block(b"UnityEng", 16, 0));
    body[24..32].copy_from_slice(&encrypt_block(b"ine\0\0\0\0\0", 16, 1));
    let decryptor = StringDecryptor::new(&body, 0);
    let index = 0x8000_0000u32 | (11 << 23) | 16;
    assert_eq!(decryptor.decrypt_string(index), "UnityEngine");
}

#[test]
fn the_no_string_sentinel_and_unreadable_indices_give_empty_names() {
    let body = vec![0u8; 64];
    let decryptor = StringDecryptor::new(&body, 0);
    assert_eq!(decryptor.decrypt_string(u32::MAX), "");
    assert_eq!(decryptor.decrypt_string(0), "");
    assert_eq!(decryptor.decrypt_string((3u32 << 25) | 60), "");
}

use star_rail_metadata_reconstructor::discovery::mhy::MhyHeader;
use star_rail_metadata_reconstructor::reconstruction::literals::data_position;

#[test]
fn literal_position_uses_wrapping_runtime_arithmetic() {
    let mut body = vec![0u8; 16];
    let mixed = 0x001f_0fe2_59cf_0538_u64 >> 14;
    let mask = 604_527_770u64.wrapping_mul(mixed) >> 8;
    let data_base = 0xc3e2_b83d_u32.wrapping_add(854_233_332);
    let encoded = (mask as u32).wrapping_sub(data_base);
    body[..4].copy_from_slice(&encoded.to_le_bytes());
    let mut values = [0u32; 150];
    values[124] = 0x56c7_d20d;
    values[2] = 0xc3e2_b83d;
    let header = MhyHeader { values, file_offset: 0 };
    assert_eq!(data_position(&body, &header, 0), Some(0));
}

#[test]
fn moving_the_table_offset_into_the_body_keeps_the_strings() {
    let mut body = vec![0u8; 96];
    body[40..48].copy_from_slice(&encrypt_block(b"Abc\0\0\0\0\0", 8, 0));
    let index = (3u32 << 25) | 8;
    let at_table = StringDecryptor::new(&body, 32).decrypt_string(index);
    let cut = StringDecryptor::new(&body[32..], 0).decrypt_string(index);
    assert_eq!(at_table, "Abc");
    assert_eq!(at_table, cut);
}

use star_rail_metadata_reconstructor::reconstruction::images::decrypt_images_at;

#[test]
fn images_without_a_readable_name_are_numbered() {
    let startup = vec![0u8; 12 * 40];
    let empty: Vec<u8> = Vec::new();
    let decryptor = StringDecryptor::new(&empty, 0);
    let images = decrypt_images_at(&startup, 0, 12, &decryptor);
    assert_eq!(images.len(), 12);
    assert_eq!(images[0].name, "Image_0.dll");
    assert_eq!(images[11].name, "Image_11.dll");
}
