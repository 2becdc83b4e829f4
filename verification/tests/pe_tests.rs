use pyusp::pe::{
    bytes_match, find_all_sig_rvas, find_unique_sig, native_driver_rva, pe_lookup_rva_for_sig,
    rd_u16, rd_u32, size_of_image, verify_or_relocate, RelocError, DRIVER_REPLAY,
};
use pyusp::sigscan::{hex_decode, hex_to_bytes, scan_image_for_sig, HexError};

const SIG: [u8; 6] = [0x41, 0x57, 0x41, 0x56, 0x41, 0x55];

fn w16(img: &mut [u8], o: usize, v: u16) {
    img[o..o + 2].copy_from_slice(&v.to_le_bytes());
}

fn w32(img: &mut [u8], o: usize, v: u32) {
    img[o..o + 4].copy_from_slice(&v.to_le_bytes());
}

/// A mapped image: `.text` (executable) at 0x1000 and `.data` at 0x2000,
/// each 0x800 bytes; the signature at 0x1100, 0x1200 and (in data) 0x2100.
fn image() -> Vec<u8> {
    let mut img = vec![0u8; 0x3000];
    img[0] = b'M';
    img[1] = b'Z';
    let pe = 0x80;
    w32(&mut img, 0x3C, pe as u32);
    img[pe..pe + 4].copy_from_slice(b"PE\0\0");
    w16(&mut img, pe + 6, 2);
    w16(&mut img, pe + 20, 0xF0);
    w32(&mut img, pe + 80, 0x3000);
    let sections = pe + 24 + 0xF0;
    let text = sections;
    img[text..text + 5].copy_from_slice(b".text");
    w32(&mut img, text + 8, 0x800);
    w32(&mut img, text + 12, 0x1000);
    w32(&mut img, text + 36, 0x6000_0020);
    let data = sections + 40;
    img[data..data + 5].copy_from_slice(b".data");
    w32(&mut img, data + 8, 0x800);
    w32(&mut img, data + 12, 0x2000);
    w32(&mut img, data + 36, 0xC000_0040);
    for at in [0x1100, 0x1200, 0x2100] {
        img[at..at + SIG.len()].copy_from_slice(&SIG);
    }
    img
}

#[test]
fn little_endian_readers() {
    let d = [0x78, 0x56, 0x34, 0x12, 0xFF];
    assert_eq!(rd_u16(&d, 0), 0x5678);
    assert_eq!(rd_u32(&d, 0), 0x1234_5678);
    assert_eq!(rd_u32(&d, 1), 0xFF12_3456);
}

#[test]
fn byte_matches() {
    let img = image();
    assert!(bytes_match(&img, 0x1100, &SIG));
    assert!(!bytes_match(&img, 0x1101, &SIG));
    assert!(!bytes_match(&img, 0x2FFE, &SIG));
    assert!(!bytes_match(&img, 0x10_0000, &SIG));
    assert!(bytes_match(&img, 0x3000, &[]));
}

#[test]
fn finds_every_match_in_executable_sections_only() {
    let img = image();
    assert_eq!(find_all_sig_rvas(&img, &SIG), vec![0x1100, 0x1200]);
    assert_eq!(pe_lookup_rva_for_sig(&img, &SIG), Some(0x1100));
    assert_eq!(find_all_sig_rvas(&img, &[0xCC, 0xCC, 0xCC]), Vec::<u64>::new());
}

#[test]
fn signature_length_limits() {
    let img = image();
    assert!(find_all_sig_rvas(&img, &[]).is_empty());
    assert!(find_all_sig_rvas(&img, &[0u8; 65]).is_empty());
    // 64 zero bytes occur all over the zeroed text section
    assert!(!find_all_sig_rvas(&img, &[0u8; 64]).is_empty());
}

#[test]
fn not_a_pe_image() {
    let mut img = image();
    img[0] = b'X';
    assert!(find_all_sig_rvas(&img, &SIG).is_empty());
    let mut img = image();
    img[0x80] = b'Q';
    assert!(find_all_sig_rvas(&img, &SIG).is_empty());
    assert!(find_all_sig_rvas(&[b'M', b'Z'], &SIG).is_empty());
}

#[test]
fn expected_offset_is_kept_or_relocated() {
    let img = image();
    assert_eq!(verify_or_relocate(&img, 0x1200, &SIG), Ok(0x1200));
    assert_eq!(verify_or_relocate(&img, 0x1234, &SIG), Ok(0x1100));
    assert_eq!(verify_or_relocate(&img, 0, &SIG), Ok(0x1100));
    // a match outside the executable sections is still taken at its expected offset
    assert_eq!(verify_or_relocate(&img, 0x2100, &SIG), Ok(0x2100));
    assert_eq!(
        verify_or_relocate(&img, 0x1100, &[0xCC, 0xCC]),
        Err(RelocError::NotFound { sig: vec![0xCC, 0xCC] })
    );
}

#[test]
fn image_size_from_headers() {
    let img = image();
    assert_eq!(size_of_image(&img[..0x200]), Some(0x3000));
    assert_eq!(size_of_image(&img[..0x20]), None);
    assert_eq!(size_of_image(&img[..0x80 + 83]), None);
}

#[test]
fn unique_signature() {
    let blob = [1u8, 2, 9, 9, 3, 9, 9, 4];
    assert_eq!(find_unique_sig(&blob, 0, &[3]), Some(4));
    assert_eq!(find_unique_sig(&blob, 0, &[9, 9]), None);
    assert_eq!(find_unique_sig(&blob, 4, &[9, 9]), Some(5));
    assert_eq!(find_unique_sig(&blob, 0, &[7]), None);
    // overlapping repeats inside the first match do not count
    assert_eq!(find_unique_sig(&[5u8, 5, 5], 0, &[5, 5]), Some(0));
    assert_eq!(find_unique_sig(&[5u8, 5, 5, 5], 0, &[5, 5]), None);
    assert_eq!(find_unique_sig(&blob, 100, &[3]), None);
}

#[test]
fn hex_signatures() {
    assert_eq!(hex_to_bytes("41 57 41 56"), Ok(vec![0x41, 0x57, 0x41, 0x56]));
    assert_eq!(hex_to_bytes("4157,4156"), Ok(vec![0x41, 0x57, 0x41, 0x56]));
    assert_eq!(hex_to_bytes(" 4\t1\n57 "), Ok(vec![0x41, 0x57]));
    assert_eq!(hex_to_bytes("aBcD"), Ok(vec![0xAB, 0xCD]));
    assert_eq!(hex_to_bytes(""), Ok(vec![]));
}

#[test]
fn hex_signature_errors() {
    assert_eq!(hex_to_bytes("415"), Err(HexError::OddLength));
    assert_eq!(hex_to_bytes("41 5G"), Err(HexError::BadDigit { at: 1 }));
    assert_eq!(hex_to_bytes("-F"), Err(HexError::BadDigit { at: 0 }));
    assert_eq!(hex_to_bytes("+F"), Err(HexError::BadDigit { at: 0 }));
    assert_eq!(hex_to_bytes("41+a"), Err(HexError::BadDigit { at: 1 }));
    assert_eq!(hex_to_bytes("41é"), Err(HexError::BadDigit { at: 1 }));
    assert_eq!(hex_to_bytes("zz41"), Err(HexError::BadDigit { at: 0 }));
}

#[test]
fn hex_pieces_that_split_a_character() {
    // "4" then the first byte of a 2-byte character
    assert_eq!(hex_decode("4é4"), None);
    // a 3-byte character starting a piece
    assert_eq!(hex_decode("€4"), None);
    // a bad digit before the split is reported first
    assert_eq!(hex_decode("zz4é4"), Some(Err(HexError::BadDigit { at: 0 })));
    assert_eq!(hex_decode("4157"), Some(Ok(vec![0x41, 0x57])));
}

#[test]
fn scan_an_image_for_a_hex_signature() {
    let img = image();
    assert_eq!(scan_image_for_sig(&img, "41 57 41 56 41 55"), Ok(vec![0x1100, 0x1200]));
    assert_eq!(scan_image_for_sig(&img, "CC CC"), Ok(vec![]));
    assert_eq!(scan_image_for_sig(&img, "41 5"), Err(HexError::OddLength));
}

const DRIVER: [u8; 24] = [
    0x40, 0x55, 0x56, 0x41, 0x54, 0x41, 0x55, 0x41, 0x56, 0x41, 0x57, 0x48, 0x8D, 0xAC, 0x24, 0xE8,
    0xFD, 0xFF, 0xFF, 0x48, 0x81, 0xEC, 0x18, 0x03,
];

#[test]
fn native_driver_is_found_only_when_unique() {
    let mut img = vec![0u8; 0x4000];
    assert_eq!(native_driver_rva(&img), None);
    img[0x2650..0x2650 + 24].copy_from_slice(&DRIVER);
    assert_eq!(native_driver_rva(&img), Some(0x2650));
    // before 0x1000 it is not searched
    img[0x100..0x100 + 24].copy_from_slice(&DRIVER);
    assert_eq!(native_driver_rva(&img), Some(0x2650));
    img[0x3000..0x3000 + 24].copy_from_slice(&DRIVER);
    assert_eq!(native_driver_rva(&img), None);
    // the 13-byte push prefix alone is not the driver
    let mut other = vec![0u8; 0x2000];
    other[0x1500..0x1500 + 13].copy_from_slice(&DRIVER[..13]);
    assert_eq!(native_driver_rva(&other), None);
    assert_eq!(DRIVER_REPLAY, 5);
}
