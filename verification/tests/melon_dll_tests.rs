use cvr_melon_assistant::melon_dll::{read_compressed_uint, should_skip, extract_melon_info, extract_additional_deps};

#[test]
fn test_compressed_uint() {
    assert_eq!(read_compressed_uint(&[0x03], 0), (3, 1));
    assert_eq!(read_compressed_uint(&[0x81, 0x23], 0), (0x123, 2));
}

#[test]
fn melon_dll_test_compressed_uint() {
    assert_eq!(read_compressed_uint(&[0x03], 0), (3, 1));
    assert_eq!(read_compressed_uint(&[0x81, 0x23], 0), (0x123, 2));
}

#[test]
fn compressed_uint_four_bytes() {
    assert_eq!(read_compressed_uint(&[0xC0, 0x01, 0x02, 0x03], 0), (0x010203, 4));
}

#[test]
fn compressed_uint_past_end_reads_nothing() {
    assert_eq!(read_compressed_uint(&[0x03], 1), (0, 0));
    assert_eq!(read_compressed_uint(&[0x81], 0), (0, 0));
}

#[test]
fn compressed_uint_at_offset() {
    assert_eq!(read_compressed_uint(&[0xff, 0x7f], 1), (0x7f, 1));
}

#[test]
fn runtime_assemblies_are_skipped() {
    assert!(should_skip("mscorlib"));
    assert!(should_skip("UnityEngine.CoreModule"));
    assert!(should_skip("MelonLoader"));
    assert!(!should_skip("BTKUILib"));
}

#[test]
fn non_pe_bytes_have_no_melon_info() {
    let data = b"hello world, not a dll".to_vec();
    assert!(extract_melon_info(&data).is_none());
    assert!(extract_additional_deps(&data).is_empty());
}

fn put16(d: &mut [u8], at: usize, v: u16) {
    d[at..at + 2].copy_from_slice(&v.to_le_bytes());
}

fn put32(d: &mut [u8], at: usize, v: u32) {
    d[at..at + 4].copy_from_slice(&v.to_le_bytes());
}

/// A PE image whose CLI header points the metadata root past the end of the file.
fn image_with_root_past_end() -> Vec<u8> {
    let mut d = vec![0u8; 512];
    d[0] = b'M';
    d[1] = b'Z';
    put32(&mut d, 60, 64);
    d[64..68].copy_from_slice(b"PE\0\0");
    put16(&mut d, 68 + 2, 1);
    put16(&mut d, 68 + 16, 224);
    put16(&mut d, 88, 0x10B);
    put32(&mut d, 88 + 96 + 112, 0x2000);
    put32(&mut d, 88 + 96 + 112 + 4, 72);
    let sec = 68 + 20 + 224;
    put32(&mut d, sec + 8, 0x1000);
    put32(&mut d, sec + 12, 0x2000);
    put32(&mut d, sec + 20, 400);
    put32(&mut d, 400 + 8, 0x2F00);
    d
}

#[test]
fn metadata_root_past_end_gives_nothing() {
    let data = image_with_root_past_end();
    assert!(extract_melon_info(&data).is_none());
    assert!(extract_additional_deps(&data).is_empty());
}
