use drones::dvm::{encode_dvm, parse_dvm, sizes_fit, u32_le, MapAssetLoader, MapLoadError, HEADER_BYTES};
use drones::grid::GridDims;

fn dims(x: u32, y: u32, z: u32) -> GridDims {
    GridDims { x, y, z }
}

#[test]
fn u32_le_reads_little_endian() {
    assert_eq!(u32_le(&[0x78, 0x56, 0x34, 0x12]), 0x1234_5678);
    assert_eq!(u32_le(&[0xff, 0, 0, 0]), 255);
    assert_eq!(u32_le(&[0, 0, 0, 0x80]), 0x8000_0000);
}

#[test]
fn encode_writes_the_documented_layout() {
    let bytes = encode_dvm(dims(2, 3, 4), 1.0f32.to_bits(), &[0xdead_beef]);
    assert_eq!(bytes.len(), HEADER_BYTES + 4);
    assert_eq!(&bytes[0..4], b"DVM1");
    assert_eq!(&bytes[4..8], &2u32.to_le_bytes());
    assert_eq!(&bytes[8..12], &3u32.to_le_bytes());
    assert_eq!(&bytes[12..16], &4u32.to_le_bytes());
    assert_eq!(&bytes[16..20], &1.0f32.to_le_bytes());
    assert_eq!(&bytes[20..24], &1u32.to_le_bytes());
    assert_eq!(&bytes[24..28], &0xdead_beefu32.to_le_bytes());
}

#[test]
fn parse_inverts_encode() {
    let words = vec![0x0000_0001, 0xffff_ffff, 0x8000_0000];
    // 4 * 5 * 4 = 80 cells -> 3 words
    let bytes = encode_dvm(dims(4, 5, 4), 0.5f32.to_bits(), &words);
    let asset = parse_dvm(&bytes).expect("valid map");
    assert_eq!(asset.dims, dims(4, 5, 4));
    assert_eq!(f32::from_bits(asset.voxel_size_bits), 0.5);
    assert_eq!(asset.bitset, words);
}

#[test]
fn parse_of_empty_grid() {
    let bytes = encode_dvm(dims(0, 7, 9), 2.0f32.to_bits(), &[]);
    let asset = parse_dvm(&bytes).expect("valid map");
    assert_eq!(asset.dims, dims(0, 7, 9));
    assert!(asset.bitset.is_empty());
}

#[test]
fn short_header_is_truncated() {
    let bytes = encode_dvm(dims(1, 1, 1), 0, &[1]);
    assert!(matches!(parse_dvm(&bytes[..23]), Err(MapLoadError::Truncated)));
    assert!(matches!(parse_dvm(&[]), Err(MapLoadError::Truncated)));
}

#[test]
fn wrong_magic_is_refused() {
    let mut bytes = encode_dvm(dims(1, 1, 1), 0, &[1]);
    bytes[3] = b'2';
    assert!(matches!(parse_dvm(&bytes), Err(MapLoadError::BadMagic)));
}

#[test]
fn missing_payload_is_truncated() {
    let bytes = encode_dvm(dims(64, 1, 1), 0, &[1, 2]);
    assert!(matches!(parse_dvm(&bytes[..bytes.len() - 1]), Err(MapLoadError::Truncated)));
}

#[test]
fn wrong_bitset_length_is_reported() {
    // 33 cells need 2 words, the file declares 1.
    let bytes = encode_dvm(dims(33, 1, 1), 0, &[7]);
    match parse_dvm(&bytes) {
        Err(MapLoadError::BitsetLenMismatch { expected, found }) => {
            assert_eq!(expected, 2);
            assert_eq!(found, 1);
        }
        other => panic!("unexpected: {:?}", other.map(|a| a.dims)),
    }
}

#[test]
fn trailing_bytes_are_ignored() {
    let mut bytes = encode_dvm(dims(32, 1, 1), 0, &[5]);
    bytes.extend_from_slice(&[1, 2, 3]);
    let asset = parse_dvm(&bytes).expect("valid map");
    assert_eq!(asset.bitset, vec![5]);
}

#[test]
fn loader_claims_dvm_and_decodes() {
    let loader = MapAssetLoader::new();
    assert_eq!(loader.extensions(), vec!["dvm"]);
    let bytes = encode_dvm(dims(2, 2, 2), 1.0f32.to_bits(), &[0b1010_0101]);
    let asset = loader.load_bytes(&bytes).expect("valid map");
    assert_eq!(asset.bitset, vec![0b1010_0101]);
}

#[test]
fn io_errors_convert() {
    let e: MapLoadError = std::io::Error::new(std::io::ErrorKind::Other, "boom").into();
    assert!(matches!(e, MapLoadError::Io(_)));
}

#[test]
fn size_check_flags_headers_that_overflow() {
    assert!(sizes_fit(b"short"));
    assert!(sizes_fit(&encode_dvm(dims(2, 3, 4), 0, &[0])));
    let huge = encode_dvm(dims(u32::MAX, u32::MAX, u32::MAX), 0, &[]);
    let fits_usize = (u32::MAX as u128).pow(3) <= usize::MAX as u128;
    assert_eq!(sizes_fit(&huge), fits_usize);
    let mut unread = encode_dvm(dims(u32::MAX, u32::MAX, u32::MAX), 0, &[]);
    unread[20..24].copy_from_slice(&7u32.to_le_bytes());
    assert!(sizes_fit(&unread));
}

#[test]
fn load_errors_read_as_text() {
    assert_eq!(MapLoadError::BadMagic.message(), ".dvm bad magic (expected DVM1)");
    assert_eq!(MapLoadError::Truncated.message(), ".dvm truncated");
    assert_eq!(
        MapLoadError::BitsetLenMismatch { expected: 1200, found: 7 }.message(),
        ".dvm bitset len mismatch: header=7, dims-derived=1200"
    );
    assert_eq!(
        MapLoadError::BitsetLenMismatch { expected: 0, found: 10 }.message(),
        ".dvm bitset len mismatch: header=10, dims-derived=0"
    );
    let io = MapLoadError::Io(std::io::Error::new(std::io::ErrorKind::Other, "disk gone"));
    assert_eq!(io.message(), "io error: disk gone");
}
