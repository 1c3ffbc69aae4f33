use patchfs::patch::bps::{BpsError, BpsPatch};
use patchfs::patch::{ModTime, Patch, PatchError, PatchInput};
use patchfs::utils::{encode_signed_vlq, encode_vlq};

fn mod_time() -> ModTime {
    ModTime { secs: 1000, nanos: 42 }
}

/// Assemble a BPS patch file: header, commands, and the three digests.
fn bps_file(source_size: u64, target_size: u64, commands: &[u8], target_crc: u32, source_crc: u32) -> Vec<u8> {
    let mut p: Vec<u8> = Vec::new();
    p.extend_from_slice(&[0x42, 0x50, 0x53, 0x31]);
    p.extend(encode_vlq(source_size));
    p.extend(encode_vlq(target_size));
    p.extend(encode_vlq(0));
    p.extend_from_slice(commands);
    p.extend_from_slice(&source_crc.to_le_bytes());
    p.extend_from_slice(&target_crc.to_le_bytes());
    let pc = crc::crc32::checksum_ieee(&p);
    p.extend_from_slice(&pc.to_le_bytes());
    p
}

#[test]
fn identity_patch_by_source_read() {
    let source: Vec<u8> = vec![0x01, 0x02, 0x03, 0x04];
    let crc = crc::crc32::checksum_ieee(&source);
    assert_eq!(crc, 0xB63CFBCD);
    // One SourceRead command of length four: d = ((4 - 1) << 2) | 0.
    let patch = bps_file(4, 4, &[0x8c], crc, crc);
    let p = BpsPatch::new(b"identity.bps".to_vec(), &patch, mod_time()).unwrap();
    assert_eq!(p.source_size, 4);
    assert_eq!(p.target_size, 4);
    assert_eq!(p.source_checksum, crc);
    let out = p.materialise(&patch, mod_time(), &source).unwrap();
    assert_eq!(out, source);
}

#[test]
fn identity_patch_by_source_copy() {
    // A single source copy with relative offset zero and the whole length
    // reproduces the source.
    let source: Vec<u8> = vec![0x10, 0x20, 0x30, 0x40, 0x50];
    let crc = crc::crc32::checksum_ieee(&source);
    let mut commands = encode_vlq(((5 - 1) << 2) | 2);
    commands.extend(encode_signed_vlq(0));
    let patch = bps_file(5, 5, &commands, crc, crc);
    let p = BpsPatch::new(b"copy.bps".to_vec(), &patch, mod_time()).unwrap();
    let out = p.materialise(&patch, mod_time(), &source).unwrap();
    assert_eq!(out, source);
}

#[test]
fn target_copy_repeats_last_byte() {
    // Write one literal byte, then copy three bytes starting one position
    // behind the output cursor: a byte-wise run of the byte just written.
    let source: Vec<u8> = vec![0xAB];
    let source_crc = crc::crc32::checksum_ieee(&source);
    let expected: Vec<u8> = vec![0x55, 0x55, 0x55, 0x55];
    let target_crc = crc::crc32::checksum_ieee(&expected);
    let mut commands = encode_vlq(((1 - 1) << 2) | 1);
    commands.push(0x55);
    commands.extend(encode_vlq(((3 - 1) << 2) | 3));
    commands.extend(encode_signed_vlq(0));
    let patch = bps_file(1, 4, &commands, target_crc, source_crc);
    let p = BpsPatch::new(b"rle.bps".to_vec(), &patch, mod_time()).unwrap();
    let out = p.materialise(&patch, mod_time(), &source).unwrap();
    assert_eq!(out, expected);
}

#[test]
fn literal_and_copy_mix() {
    // TargetRead two bytes, then SourceCopy the middle of the source.
    let source: Vec<u8> = vec![9, 8, 7, 6];
    let source_crc = crc::crc32::checksum_ieee(&source);
    let expected: Vec<u8> = vec![0xAA, 0xBB, 8, 7];
    let target_crc = crc::crc32::checksum_ieee(&expected);
    let mut commands = encode_vlq(((2 - 1) << 2) | 1);
    commands.extend_from_slice(&[0xAA, 0xBB]);
    commands.extend(encode_vlq(((2 - 1) << 2) | 2));
    commands.extend(encode_signed_vlq(1));
    let patch = bps_file(4, 4, &commands, target_crc, source_crc);
    let p = BpsPatch::new(b"mix.bps".to_vec(), &patch, mod_time()).unwrap();
    let out = p.materialise(&patch, mod_time(), &source).unwrap();
    assert_eq!(out, expected);
}

#[test]
fn source_copy_with_negative_offset() {
    // Copy the back half of the source first, then jump back to its start.
    let source: Vec<u8> = vec![1, 2, 3, 4];
    let source_crc = crc::crc32::checksum_ieee(&source);
    let expected: Vec<u8> = vec![3, 4, 1, 2];
    let target_crc = crc::crc32::checksum_ieee(&expected);
    let mut commands = encode_vlq(((2 - 1) << 2) | 2);
    commands.extend(encode_signed_vlq(2));
    commands.extend(encode_vlq(((2 - 1) << 2) | 2));
    commands.extend(encode_signed_vlq(-4));
    let patch = bps_file(4, 4, &commands, target_crc, source_crc);
    let p = BpsPatch::new(b"swap.bps".to_vec(), &patch, mod_time()).unwrap();
    let out = p.materialise(&patch, mod_time(), &source).unwrap();
    assert_eq!(out, expected);
}

#[test]
fn target_checksum_mismatch() {
    let source: Vec<u8> = vec![0x01, 0x02, 0x03, 0x04];
    let crc = crc::crc32::checksum_ieee(&source);
    let patch = bps_file(4, 4, &[0x8c], crc ^ 1, crc);
    let p = BpsPatch::new(b"bad.bps".to_vec(), &patch, mod_time()).unwrap();
    assert_eq!(
        p.materialise(&patch, mod_time(), &source),
        Err(BpsError::TargetChecksum { expected: crc ^ 1, received: crc })
    );
}

#[test]
fn wrong_magic_is_rejected() {
    let source_crc = crc::crc32::checksum_ieee(&[0u8]);
    let mut patch = bps_file(1, 1, &[0x80], source_crc, source_crc);
    patch[0] = 0x58;
    patch[1] = 0x58;
    patch[2] = 0x58;
    patch[3] = 0x58;
    match BpsPatch::new(b"xxxx.bps".to_vec(), &patch, mod_time()) {
        Err(BpsError::FormatMarker { expected, received }) => {
            assert_eq!(expected, 0x3153_5042);
            assert_eq!(received, 0x5858_5858);
        },
        other => panic!("unexpected: {:?}", other.map(|_| ())),
    }
}

#[test]
fn outdated_cache_when_timestamp_moves() {
    let source: Vec<u8> = vec![0x01];
    let crc = crc::crc32::checksum_ieee(&source);
    let patch = bps_file(1, 1, &[0x80], crc, crc);
    let p = BpsPatch::new(b"old.bps".to_vec(), &patch, mod_time()).unwrap();
    let later = ModTime { secs: 2000, nanos: 0 };
    assert_eq!(p.materialise(&patch, later, &source), Err(BpsError::OutdatedCache));
}

#[test]
fn source_length_and_checksum_mismatches() {
    let source: Vec<u8> = vec![0x01, 0x02];
    let crc = crc::crc32::checksum_ieee(&source);
    let patch = bps_file(2, 2, &[0x84], crc, crc);
    let p = BpsPatch::new(b"s.bps".to_vec(), &patch, mod_time()).unwrap();

    let longer: Vec<u8> = vec![0x01, 0x02, 0x03];
    assert_eq!(
        p.materialise(&patch, mod_time(), &longer),
        Err(BpsError::SourceLength { expected: 2, received: 3 })
    );

    let other: Vec<u8> = vec![0x0A, 0x0B];
    let other_crc = crc::crc32::checksum_ieee(&other);
    assert_eq!(
        p.materialise(&patch, mod_time(), &other),
        Err(BpsError::SourceChecksum { expected: crc, received: other_crc })
    );
}

#[test]
fn patch_checksum_mismatch() {
    let source: Vec<u8> = vec![0x01];
    let crc = crc::crc32::checksum_ieee(&source);
    let mut patch = bps_file(1, 1, &[0x80], crc, crc);
    let p = BpsPatch::new(b"p.bps".to_vec(), &patch, mod_time()).unwrap();
    // Corrupt one command byte after the header was parsed.
    let cmd_at = patch.len() - 13;
    patch[cmd_at] ^= 0x01;
    match p.materialise(&patch, mod_time(), &source) {
        Err(BpsError::PatchChecksum { expected, received }) => {
            assert_eq!(expected, p.patch_checksum);
            assert_ne!(received, expected);
        },
        other => panic!("unexpected: {:?}", other),
    }
}

#[test]
fn truncated_literal_is_eof() {
    let source: Vec<u8> = vec![0x01];
    let crc = crc::crc32::checksum_ieee(&source);
    // TargetRead of four bytes with only two bytes of literal payload.
    let mut commands = encode_vlq(((4 - 1) << 2) | 1);
    commands.extend_from_slice(&[0x55, 0x66]);
    let patch = bps_file(1, 4, &commands, 0, crc);
    let p = BpsPatch::new(b"short.bps".to_vec(), &patch, mod_time()).unwrap();
    assert_eq!(p.materialise(&patch, mod_time(), &source), Err(BpsError::UnexpectedEof));
}

#[test]
fn read_past_source_is_out_of_range() {
    let source: Vec<u8> = vec![0x01, 0x02];
    let crc = crc::crc32::checksum_ieee(&source);
    // SourceRead of four bytes against a two-byte source.
    let patch = bps_file(2, 4, &[0x8c], 0, crc);
    let p = BpsPatch::new(b"far.bps".to_vec(), &patch, mod_time()).unwrap();
    assert_eq!(p.materialise(&patch, mod_time(), &source), Err(BpsError::IndexOutOfRange));
}

#[test]
fn short_output_is_length_mismatch() {
    let source: Vec<u8> = vec![0x01, 0x02];
    let crc = crc::crc32::checksum_ieee(&source);
    // One SourceRead of two bytes, but the declared target size is four.
    let patch = bps_file(2, 4, &[0x84], 0, crc);
    let p = BpsPatch::new(b"short-out.bps".to_vec(), &patch, mod_time()).unwrap();
    assert_eq!(
        p.materialise(&patch, mod_time(), &source),
        Err(BpsError::TargetLength { expected: 4, received: 2 })
    );
}

#[test]
fn metadata_is_retained() {
    let source: Vec<u8> = vec![0x01];
    let crc = crc::crc32::checksum_ieee(&source);
    let mut p: Vec<u8> = Vec::new();
    p.extend_from_slice(&[0x42, 0x50, 0x53, 0x31]);
    p.extend(encode_vlq(1));
    p.extend(encode_vlq(1));
    p.extend(encode_vlq(3));
    p.extend_from_slice(b"abc");
    p.push(0x80);
    p.extend_from_slice(&crc.to_le_bytes());
    p.extend_from_slice(&crc.to_le_bytes());
    let pc = crc::crc32::checksum_ieee(&p);
    p.extend_from_slice(&pc.to_le_bytes());
    let parsed = BpsPatch::new(b"meta.bps".to_vec(), &p, mod_time()).unwrap();
    assert_eq!(parsed.patch_metadata, b"abc".to_vec());
    assert_eq!(parsed.patch_offset, 10);
    let out = parsed.materialise(&p, mod_time(), &source).unwrap();
    assert_eq!(out, source);
}

#[test]
fn patched_rom_through_the_trait() {
    let source: Vec<u8> = vec![0x01, 0x02, 0x03, 0x04];
    let crc = crc::crc32::checksum_ieee(&source);
    let patch = bps_file(4, 4, &[0x8c], crc, crc);
    let p = BpsPatch::new(b"t.bps".to_vec(), &patch, mod_time()).unwrap();
    assert_eq!(p.target_size(), 4);
    let input = PatchInput {
        patch_data: patch.clone(),
        patch_modified: mod_time(),
        source_data: source.clone(),
    };
    assert_eq!(p.patched_rom(&input), Ok(source.clone()));
    let outdated = PatchInput {
        patch_data: patch,
        patch_modified: ModTime { secs: 0, nanos: 0 },
        source_data: source,
    };
    assert_eq!(p.patched_rom(&outdated), Err(PatchError::Bps(BpsError::OutdatedCache)));
}

#[test]
fn error_messages() {
    assert_eq!(BpsError::OutdatedCache.message(), "outdated cache");
    assert_eq!(
        BpsError::SourceChecksum { expected: 0xDEADBEEF, received: 0 }.message(),
        "invalid source checksum (expected: 0xDEADBEEF, received: 0x00000000)"
    );
    assert_eq!(
        BpsError::SourceLength { expected: 12, received: 7 }.message(),
        "source length mismatch (expected: 12, received: 7)"
    );
    assert_eq!(
        BpsError::TargetLength { expected: 1, received: 0 }.message(),
        "target length mismatch (expected: 1, received: 0)"
    );
    assert_eq!(
        BpsError::FormatMarker { expected: 0x3153_5042, received: 0 }.message(),
        "invalid format marker (expected: 0x31535042, received: 0x00000000)"
    );
}
