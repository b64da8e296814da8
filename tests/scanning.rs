use verity_memory::error::AobScanError;
use verity_memory::image::{get_text_section, ImageError, TextRegion};
use verity_memory::pattern::{compute_lps, convert_pattern, kmp_search_all, kmp_search_unique, scan_all, scan_unique};

#[test]
fn converts_tokens() {
    assert_eq!(convert_pattern("48 8B ?? ?? 89"), Ok(vec![0x48, 0x8B, 0x00, 0x00, 0x89]));
    assert_eq!(convert_pattern("  ff\tA0\n"), Ok(vec![0xFF, 0xA0]));
}

#[test]
fn invalid_token_is_refused() {
    assert_eq!(convert_pattern("zz"), Err(AobScanError::InvalidPattern));
    assert_eq!(convert_pattern("4"), Err(AobScanError::InvalidPattern));
    assert_eq!(convert_pattern("488B"), Err(AobScanError::InvalidPattern));
    assert_eq!(convert_pattern("?"), Err(AobScanError::InvalidPattern));
    assert_eq!(convert_pattern(""), Err(AobScanError::InvalidPattern));
    assert_eq!(convert_pattern("   "), Err(AobScanError::InvalidPattern));
}

#[test]
fn wildcard_pattern_matches_at_zero() {
    let data = [0x48, 0x8B, 0x11, 0x22, 0x89, 0x00];
    let sig = convert_pattern("48 8B ?? ?? 89").unwrap();
    assert_eq!(kmp_search_unique(&data, &sig), Ok(0));
}

#[test]
fn first_match_is_lowest() {
    let data = [1, 2, 3, 1, 2, 3];
    assert_eq!(kmp_search_unique(&data, &[2, 3]), Ok(1));
    assert_eq!(kmp_search_unique(&data, &[3, 2]), Err(AobScanError::PatternNotFound));
    assert_eq!(kmp_search_unique(&data, &[]), Err(AobScanError::InvalidPattern));
}

#[test]
fn all_matches_overlap() {
    let data = [0xAA, 0xAA, 0xAA, 0xAA];
    assert_eq!(kmp_search_all(&data, &[0xAA, 0xAA]), Ok(vec![0, 1, 2]));
    assert_eq!(kmp_search_all(&[1, 2, 1, 2, 1], &[1, 2, 1]), Ok(vec![0, 2]));
    assert_eq!(kmp_search_all(&data, &[0xBB]), Err(AobScanError::PatternNotFound));
    assert_eq!(kmp_search_all(&data, &[]), Err(AobScanError::InvalidPattern));
}

#[test]
fn wildcard_matches_any_byte() {
    for b in [0x00u8, 0x01, 0x7F, 0xFF] {
        assert_eq!(kmp_search_unique(&[0x10, b, 0x20], &[0x10, 0x00, 0x20]), Ok(0));
    }
}

#[test]
fn failure_table_values() {
    assert_eq!(compute_lps(&[1, 2, 1, 2, 3]), vec![0, 0, 1, 2, 0]);
    assert_eq!(compute_lps(&[5, 5, 5]), vec![0, 1, 2]);
}

#[test]
fn scans_region_by_address() {
    let region = TextRegion { bytes: vec![0x90, 0x48, 0x8B, 0x05, 0x48, 0x8B], base: 0x1000 };
    assert_eq!(scan_unique(&region, "48 8B"), Ok(0x1001));
    assert_eq!(scan_all(&region, "48 8B"), Ok(vec![0x1001, 0x1004]));
    assert_eq!(scan_unique(&region, "CC"), Err(AobScanError::PatternNotFound));
    assert_eq!(scan_all(&region, "zz"), Err(AobScanError::InvalidPattern));
}

fn put_u16(img: &mut [u8], off: usize, v: u16) {
    img[off..off + 2].copy_from_slice(&v.to_le_bytes());
}

fn put_u32(img: &mut [u8], off: usize, v: u32) {
    img[off..off + 4].copy_from_slice(&v.to_le_bytes());
}

fn image(names: &[&[u8]]) -> Vec<u8> {
    let mut img = vec![0u8; 0x400];
    put_u16(&mut img, 0, 0x5A4D);
    put_u32(&mut img, 0x3C, 0x80);
    put_u32(&mut img, 0x80, 0x4550);
    put_u16(&mut img, 0x86, names.len() as u16);
    for (k, name) in names.iter().enumerate() {
        let h = 0x80 + 264 + 40 * k;
        img[h..h + name.len()].copy_from_slice(name);
        put_u32(&mut img, h + 12, 0x300 + 0x10 * k as u32);
        put_u32(&mut img, h + 16, 4);
    }
    for i in 0x300..0x340 {
        img[i] = i as u8;
    }
    img
}

#[test]
fn locates_text_section() {
    let img = image(&[b".data", b".text"]);
    let region = get_text_section(&img, 0x14000_0000).unwrap();
    assert_eq!(region.base, 0x14000_0310);
    assert_eq!(region.bytes, vec![0x10, 0x11, 0x12, 0x13]);
}

#[test]
fn image_errors() {
    let mut img = image(&[b".text"]);
    img[0] = 0;
    assert!(matches!(get_text_section(&img, 0x1000), Err(ImageError::InvalidDosSignature)));
    let mut img = image(&[b".text"]);
    img[0x80] = 0;
    assert!(matches!(get_text_section(&img, 0x1000), Err(ImageError::InvalidNtSignature)));
    let img = image(&[b".data", b".rdata"]);
    assert!(matches!(get_text_section(&img, 0x1000), Err(ImageError::TextSectionNotFound)));
    assert!(matches!(get_text_section(&[0x4D, 0x5A], 0x1000), Err(ImageError::Truncated)));
}

#[test]
fn fallback_finds_later_match() {
    assert_eq!(kmp_search_unique(&[1, 2, 1, 2, 1, 2, 3], &[1, 2, 1, 2, 3]), Ok(2));
    assert_eq!(kmp_search_all(&[1, 2, 1, 2, 1, 2, 3], &[1, 2, 1, 2, 3]), Ok(vec![2]));
}

#[test]
fn unicode_whitespace_separates_tokens() {
    assert_eq!(convert_pattern("48\u{0b}8B"), Ok(vec![0x48, 0x8B]));
    assert_eq!(convert_pattern("48\u{a0}8B\u{3000}??"), Ok(vec![0x48, 0x8B, 0x00]));
}

#[test]
fn malformed_tokens_are_refused() {
    for text in ["a", "+a", "0ab", "?0", "4g", "48 8", "é0"] {
        assert_eq!(convert_pattern(text), Err(AobScanError::InvalidPattern), "{}", text);
    }
}

#[test]
fn wildcard_match_after_restart() {
    assert_eq!(compute_lps(&[0x41, 0x00, 0x42]), vec![0, 1, 2]);
    assert_eq!(kmp_search_unique(&[0x41, 0x41, 0x43, 0x42], &[0x41, 0x00, 0x42]), Ok(1));
    assert_eq!(kmp_search_all(&[0x41, 0x41, 0x43, 0x42], &[0x41, 0x00, 0x42]), Ok(vec![1]));
}

#[test]
fn wildcard_scan_reports_every_match() {
    let data = [0x48, 0x8B, 0x11, 0x22, 0x89, 0x48, 0x8B, 0x33, 0x44, 0x89];
    let sig = convert_pattern("48 8B ?? ?? 89").unwrap();
    assert_eq!(kmp_search_all(&data, &sig), Ok(vec![0, 5]));
    let region = TextRegion { bytes: data.to_vec(), base: 0x2000 };
    assert_eq!(scan_unique(&region, "8B ?? ?? 89"), Ok(0x2001));
    assert_eq!(scan_all(&region, "?? 89"), Ok(vec![0x2003, 0x2008]));
}
