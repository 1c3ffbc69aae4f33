use patchfs::patch::ips::{IpsError, IpsPatch};
use patchfs::patch::{ModTime, Patch, PatchError, PatchInput};

fn mod_time() -> ModTime {
    ModTime { secs: 5, nanos: 0 }
}

#[test]
fn empty_patch_keeps_the_source() {
    let patch: Vec<u8> = b"PATCHEOF".to_vec();
    let source: Vec<u8> = vec![0xAA];
    let p = IpsPatch::new(b"empty.ips".to_vec(), b"s.bin".to_vec(), 1, &patch).unwrap();
    assert_eq!(p.target_size(), 1);
    assert_eq!(p.materialise(&patch, &source), Ok(source.clone()));
}

#[test]
fn rle_record_with_truncation() {
    // One run-length record of four 0xFF bytes at offset zero, then the end
    // marker and a truncation size of two.
    let mut patch: Vec<u8> = b"PATCH".to_vec();
    patch.extend_from_slice(&[0x00, 0x00, 0x00]);
    patch.extend_from_slice(&[0x00, 0x00]);
    patch.extend_from_slice(&[0x00, 0x04]);
    patch.push(0xFF);
    patch.extend_from_slice(b"EOF");
    patch.extend_from_slice(&[0x00, 0x00, 0x02]);
    let source: Vec<u8> = vec![0x00];
    let p = IpsPatch::new(b"rle.ips".to_vec(), b"s.bin".to_vec(), 1, &patch).unwrap();
    assert_eq!(p.target_size, 4);
    assert_eq!(p.truncated_size, Some(2));
    assert_eq!(p.target_size(), 2);
    assert_eq!(p.materialise(&patch, &source), Ok(vec![0xFF, 0xFF]));
}

#[test]
fn data_record_overwrites_and_extends() {
    let mut patch: Vec<u8> = b"PATCH".to_vec();
    patch.extend_from_slice(&[0x00, 0x00, 0x01]);
    patch.extend_from_slice(&[0x00, 0x02]);
    patch.extend_from_slice(&[0x09, 0x09]);
    patch.extend_from_slice(b"EOF");
    let source: Vec<u8> = vec![1, 2, 3, 4];
    let p = IpsPatch::new(b"d.ips".to_vec(), b"s.bin".to_vec(), 4, &patch).unwrap();
    assert_eq!(p.target_size(), 4);
    assert_eq!(p.materialise(&patch, &source), Ok(vec![1, 9, 9, 4]));

    let mut far: Vec<u8> = b"PATCH".to_vec();
    far.extend_from_slice(&[0x00, 0x00, 0x04]);
    far.extend_from_slice(&[0x00, 0x02]);
    far.extend_from_slice(&[0x07, 0x08]);
    far.extend_from_slice(b"EOF");
    let p = IpsPatch::new(b"far.ips".to_vec(), b"s.bin".to_vec(), 4, &far).unwrap();
    assert_eq!(p.target_size(), 6);
    assert_eq!(p.materialise(&far, &source), Ok(vec![1, 2, 3, 4, 7, 8]));
}

#[test]
fn short_trailer_is_no_truncation() {
    // Fewer than three bytes after the end marker leave the size alone.
    let mut patch: Vec<u8> = b"PATCHEOF".to_vec();
    patch.extend_from_slice(&[0x00, 0x07]);
    let source: Vec<u8> = vec![0xAA];
    let p = IpsPatch::new(b"t.ips".to_vec(), b"s.bin".to_vec(), 1, &patch).unwrap();
    assert_eq!(p.truncated_size, None);
    assert_eq!(p.target_size(), 1);
    assert_eq!(p.materialise(&patch, &source), Ok(source));
}

#[test]
fn wrong_marker_is_rejected() {
    let patch: Vec<u8> = b"XATCHEOF".to_vec();
    assert_eq!(
        IpsPatch::new(b"x.ips".to_vec(), b"s.bin".to_vec(), 1, &patch),
        Err(IpsError::FormatMarker)
    );
}

#[test]
fn truncated_record_is_eof() {
    let mut patch: Vec<u8> = b"PATCH".to_vec();
    patch.extend_from_slice(&[0x00, 0x00, 0x01]);
    patch.push(0x00);
    assert_eq!(
        IpsPatch::new(b"t.ips".to_vec(), b"s.bin".to_vec(), 1, &patch),
        Err(IpsError::UnexpectedEof)
    );
    let missing_end: Vec<u8> = b"PATCH".to_vec();
    assert_eq!(
        IpsPatch::new(b"m.ips".to_vec(), b"s.bin".to_vec(), 1, &missing_end),
        Err(IpsError::UnexpectedEof)
    );
}

#[test]
fn changed_patch_bytes_cannot_write_past_the_target() {
    // Parse a harmless patch, then materialise with bytes whose record
    // writes past the extent computed at parse time.
    let small: Vec<u8> = b"PATCHEOF".to_vec();
    let p = IpsPatch::new(b"c.ips".to_vec(), b"s.bin".to_vec(), 1, &small).unwrap();
    let mut grown: Vec<u8> = b"PATCH".to_vec();
    grown.extend_from_slice(&[0x00, 0x00, 0x02]);
    grown.extend_from_slice(&[0x00, 0x02]);
    grown.extend_from_slice(&[0x07, 0x08]);
    grown.extend_from_slice(b"EOF");
    let source: Vec<u8> = vec![0xAA];
    assert_eq!(p.materialise(&grown, &source), Err(IpsError::IndexOutOfRange));
}

#[test]
fn ips_patched_rom_through_the_trait() {
    let patch: Vec<u8> = b"PATCHEOF".to_vec();
    let source: Vec<u8> = vec![0xAA, 0xBB];
    let p = IpsPatch::new(b"t.ips".to_vec(), b"s.bin".to_vec(), 2, &patch).unwrap();
    let input = PatchInput {
        patch_data: patch,
        patch_modified: mod_time(),
        source_data: source.clone(),
    };
    assert_eq!(p.patched_rom(&input), Ok(source));
    let bad = PatchInput {
        patch_data: b"WRONG".to_vec(),
        patch_modified: mod_time(),
        source_data: vec![],
    };
    assert_eq!(p.patched_rom(&bad), Err(PatchError::Ips(IpsError::FormatMarker)));
}

#[test]
fn ips_error_messages() {
    assert_eq!(IpsError::FormatMarker.message(), "invalid format marker");
    assert_eq!(IpsError::UnexpectedEof.message(), "unexpected end of patch file");
    assert_eq!(IpsError::IndexOutOfRange.message(), "index out of range");
}
