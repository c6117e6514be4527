use crc32fast::Hasher;
use modify_crc32::{
    calculate_new_bytes, check_suffix, checksum_in_chunks, crc32_update, finalize_crc32,
    parse_u32_hex, prepare_patch, verify_suffix, PatchError, StreamingChecksum,
};

fn forged_checksum(from: u32, bytes: &[u8]) -> u32 {
    let mut hasher = Hasher::new_with_initial(from);
    hasher.update(bytes);
    hasher.finalize()
}

#[test]
fn lib_calculates_new_bytes_correctly() {
    for _ in 0..1_000_000 {
        let (from, to) = (fastrand::u32(..), fastrand::u32(..));
        let new_bytes = calculate_new_bytes(from, to);
        assert_eq!(forged_checksum(from, &new_bytes), to);
    }
}

#[test]
fn main_calculates_new_bytes_correctly() {
    for _ in 0..1_000_000 {
        let (from, to) = (fastrand::u32(..), fastrand::u32(..));
        let new_bytes = calculate_new_bytes(from, to);
        assert_eq!(forged_checksum(from, &new_bytes), to);
    }
}

#[test]
fn round_trip_on_edge_values() {
    let values = [0u32, 1, 0x8000_0000, 0xFFFF_FFFF, 0xDEAD_BEEF, 0x1234_5678];
    for &from in values.iter() {
        for &to in values.iter() {
            let bytes = calculate_new_bytes(from, to);
            assert_eq!(forged_checksum(from, &bytes), to);
            let mut sum = StreamingChecksum::with_seed(from, 4);
            sum.update(&bytes);
            assert_eq!(sum.finalize(), to);
        }
    }
}

#[test]
fn forging_is_deterministic() {
    assert_eq!(calculate_new_bytes(0xCAFE_BABE, 7), calculate_new_bytes(0xCAFE_BABE, 7));
}

#[test]
fn forging_equal_checksums_still_gives_four_bytes() {
    let bytes = calculate_new_bytes(0x1234_5678, 0x1234_5678);
    assert_eq!(bytes.len(), 4);
    assert_eq!(forged_checksum(0x1234_5678, &bytes), 0x1234_5678);
}

#[test]
fn empty_file_forged_to_deadbeef() {
    let (old, _) = checksum_in_chunks(&[], 4096);
    assert_eq!(old, 0);
    let bytes = prepare_patch(old, 0xDEAD_BEEF).unwrap();
    let mut file: Vec<u8> = Vec::new();
    file.extend_from_slice(&bytes);
    assert_eq!(file.len(), 4);
    assert_eq!(crc32fast::hash(&file), 0xDEAD_BEEF);
    assert_eq!(checksum_in_chunks(&file, 4096).0, 0xDEAD_BEEF);
}

#[test]
fn equal_checksums_are_rejected() {
    assert_eq!(
        prepare_patch(0x1234_5678, 0x1234_5678),
        Err(PatchError::AlreadyMatches { crc32: 0x1234_5678 })
    );
}

#[test]
fn prepared_patch_is_the_forged_suffix() {
    assert_eq!(prepare_patch(0xCBF4_3926, 0), Ok(calculate_new_bytes(0xCBF4_3926, 0)));
}

#[test]
fn mismatching_recomputation_is_refused() {
    assert_eq!(
        check_suffix(5, [1, 2, 3, 4], 6),
        Err(PatchError::VerificationMismatch { got: 6, expected: 5 })
    );
    assert_eq!(check_suffix(5, [1, 2, 3, 4], 5), Ok([1, 2, 3, 4]));
}

#[test]
fn suffix_verification_uses_the_real_checksum() {
    let bytes = calculate_new_bytes(0x0BAD_F00D, 0x600D_F00D);
    assert!(verify_suffix(0x0BAD_F00D, &bytes, 0x600D_F00D));
    assert!(!verify_suffix(0x0BAD_F00D, &bytes, 0x0BAD_F00D));
    assert!(!verify_suffix(0x600D_F00D, &bytes, 0x600D_F00D));
}

#[test]
fn known_check_value() {
    let data = b"123456789";
    assert_eq!(checksum_in_chunks(data, 4096).0, 0xCBF4_3926);
    assert_eq!(finalize_crc32(crc32_update(0xFFFF_FFFF, data)), 0xCBF4_3926);
    let mut sum = StreamingChecksum::new(9);
    sum.update(&data[..4]);
    sum.update(&data[4..]);
    assert_eq!(sum.finalize(), 0xCBF4_3926);
}

#[test]
fn chunk_size_does_not_matter() {
    let data: Vec<u8> = (0..10_000u32).map(|i| (i * 31 % 251) as u8).collect();
    let expected = crc32fast::hash(&data);
    for &size in [1usize, 7, 4096, 20_000].iter() {
        assert_eq!(checksum_in_chunks(&data, size).0, expected);
    }
}

#[test]
fn progress_rises_to_one_hundred() {
    let data = vec![0xA5u8; 1000];
    let (_, reports) = checksum_in_chunks(&data, 300);
    assert_eq!(reports, vec![30, 60, 90, 100]);
    let (_, none) = checksum_in_chunks(&[], 300);
    assert!(none.is_empty());
    let mut sum = StreamingChecksum::new(0);
    assert_eq!(sum.progress(), 100);
    assert_eq!(sum.update(&[1, 2, 3]), 100);
    assert_eq!(sum.consumed(), 3);
}

#[test]
fn hex_checksums_are_parsed() {
    assert_eq!(parse_u32_hex("DEADBEEF"), Ok(0xDEAD_BEEF));
    assert_eq!(parse_u32_hex("deadbeef"), Ok(0xDEAD_BEEF));
    assert_eq!(parse_u32_hex("+1f"), Ok(0x1F));
    assert_eq!(parse_u32_hex("00000000"), Ok(0));
    assert!(parse_u32_hex("").is_err());
    assert!(parse_u32_hex("xyz").is_err());
    assert!(parse_u32_hex("100000000").is_err());
    assert!(parse_u32_hex("-1").is_err());
    assert!(parse_u32_hex(" 1").is_err());
}
