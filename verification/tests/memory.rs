use gbfr_logs::memory::{
    decode_u32, decode_u64, read_process_bytes, read_process_half_word, read_process_signed,
    read_process_word, to_signed, Memory,
};

/// Sixteen bytes at `0x1000`; reads over their end are cut short.
struct Short;

impl Memory for Short {
    fn read_memory(&self, address: u64, length: usize) -> Option<Vec<u8>> {
        assert!(address != 0 && length != 0);
        if !(0x1000..0x1010).contains(&address) {
            return None;
        }
        let from = address as u8;
        let left = (0x1010 - address) as usize;
        Some((0..length.min(left)).map(|i| from + i as u8 + 0xF0).collect())
    }
}

#[test]
fn reads_are_complete_or_nothing() {
    assert_eq!(read_process_bytes(&Short, 0x1000, 3), Some(vec![0xF0, 0xF1, 0xF2]));
    assert_eq!(read_process_bytes(&Short, 0x100E, 3), None);
    assert_eq!(read_process_bytes(&Short, 0x2000, 1), None);
    assert_eq!(read_process_bytes(&Short, 0, 1), None);
    assert_eq!(read_process_bytes(&Short, 0, 0), Some(Vec::new()));
    assert_eq!(read_process_bytes(&Short, 0x2000, 0), Some(Vec::new()));
}

#[test]
fn words_are_little_endian() {
    assert_eq!(read_process_word(&Short, 0x1000), Some(0xF7F6_F5F4_F3F2_F1F0));
    assert_eq!(read_process_half_word(&Short, 0x1004), Some(0xF7F6_F5F4));
    assert_eq!(read_process_signed(&Short, 0x1004), Some(0xF7F6_F5F4u32 as i32));
    assert_eq!(read_process_word(&Short, 0x1009), None);
    assert_eq!(read_process_half_word(&Short, 0x100D), None);
    assert_eq!(read_process_signed(&Short, 0), None);
}

#[test]
fn words_are_decoded_at_an_offset() {
    let bytes = [9, 1, 2, 3, 4, 5, 6, 7, 8];
    assert_eq!(decode_u32(&bytes, 1), 0x0403_0201);
    assert_eq!(decode_u64(&bytes, 1), 0x0807_0605_0403_0201);
    assert_eq!(to_signed(0x7FFF_FFFF), i32::MAX);
    assert_eq!(to_signed(0x8000_0000), i32::MIN);
    assert_eq!(to_signed(0xFFFF_FFFF), -1);
}
