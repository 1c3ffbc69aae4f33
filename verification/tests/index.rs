use patchfs::patch::{ModTime, Patch, PatchInput, RomPatch};
use patchfs::rom_filesystem::{FileKind, RomFilesystem, EIO, ENOENT};
use patchfs::rom_manager::{RomManager, ScanEntry};
use patchfs::rom_watcher::{should_refresh, WatchEvent};
use patchfs::utils::encode_vlq;

fn mod_time() -> ModTime {
    ModTime { secs: 7, nanos: 0 }
}

fn entry(name: &[u8], data: Vec<u8>) -> ScanEntry {
    ScanEntry { name: name.to_vec(), data, modified: mod_time() }
}

/// An identity BPS patch for the given source bytes.
fn identity_bps(source: &[u8]) -> Vec<u8> {
    let crc = crc::crc32::checksum_ieee(source);
    let mut p: Vec<u8> = Vec::new();
    p.extend_from_slice(&[0x42, 0x50, 0x53, 0x31]);
    p.extend(encode_vlq(source.len() as u64));
    p.extend(encode_vlq(source.len() as u64));
    p.extend(encode_vlq(0));
    p.extend(encode_vlq((((source.len() - 1) as u64) << 2) | 0));
    p.extend_from_slice(&crc.to_le_bytes());
    p.extend_from_slice(&crc.to_le_bytes());
    let pc = crc::crc32::checksum_ieee(&p);
    p.extend_from_slice(&pc.to_le_bytes());
    p
}

fn manager_with(entries: &Vec<ScanEntry>) -> RomManager {
    let mut m = RomManager::new(b"/roms".to_vec());
    m.refresh(entries);
    m
}

fn target_names(m: &RomManager) -> Vec<Vec<u8>> {
    m.target_roms.entries.iter().map(|e| e.0.clone()).collect()
}

#[test]
fn refresh_pairs_bps_by_digest() {
    let source: Vec<u8> = vec![1, 2, 3, 4];
    let entries = vec![
        entry(b"game.sfc", source.clone()),
        entry(b"hack.bps", identity_bps(&source)),
    ];
    let m = manager_with(&entries);
    assert_eq!(m.source_roms.entries.len(), 1);
    assert_eq!(m.source_roms.entries[0].0, 0xB63CFBCD);
    assert_eq!(m.source_roms.entries[0].1, b"game.sfc".to_vec());
    assert_eq!(target_names(&m), vec![b"hack.sfc".to_vec()]);
    match &m.target_roms.entries[0].1 {
        RomPatch::Bps(p) => {
            assert_eq!(p.source_path, Some(b"game.sfc".to_vec()));
            assert_eq!(p.target_size, 4);
        },
        other => panic!("unexpected patch kind: {:?}", other.target_size()),
    }
}

#[test]
fn refresh_skips_unpaired_or_broken_bps() {
    let source: Vec<u8> = vec![1, 2, 3, 4];
    let other: Vec<u8> = vec![9, 9, 9];
    let mut broken = identity_bps(&source);
    broken[0] = 0x58;
    let entries = vec![
        entry(b"game.sfc", source),
        entry(b"broken.bps", broken),
        entry(b"orphan.bps", identity_bps(&other)),
    ];
    let m = manager_with(&entries);
    assert_eq!(m.source_roms.entries.len(), 1);
    assert!(target_names(&m).is_empty());
}

#[test]
fn refresh_requires_a_lone_source_for_ips() {
    let ips: Vec<u8> = b"PATCHEOF".to_vec();
    let two_roms = vec![
        entry(b"one.nes", vec![1]),
        entry(b"two.nes", vec![2]),
        entry(b"mod.ips", ips.clone()),
    ];
    let m = manager_with(&two_roms);
    assert_eq!(m.source_roms.entries.len(), 2);
    assert!(target_names(&m).is_empty());
    let mut fs = RomFilesystem::new(m);
    let dh = fs.opendir(&b"/".to_vec(), 0, 0).unwrap();
    let names: Vec<Vec<u8>> = fs.readdir(dh).unwrap().iter().map(|d| d.name.clone()).collect();
    assert_eq!(names, vec![b".".to_vec(), b"..".to_vec()]);

    let one_rom = vec![entry(b"one.nes", vec![1]), entry(b"mod.ips", ips)];
    let m = manager_with(&one_rom);
    assert_eq!(target_names(&m), vec![b"mod.nes".to_vec()]);
}

#[test]
fn refresh_skips_empty_rom_files() {
    // A zero-length file, as one still being copied reads, is no source
    // ROM candidate; the remaining ROM is then the lone source.
    let entries = vec![
        entry(b"copying.nes", vec![]),
        entry(b"done.nes", vec![5]),
        entry(b"mod.ips", b"PATCHEOF".to_vec()),
    ];
    let m = manager_with(&entries);
    assert_eq!(m.source_roms.entries.len(), 1);
    assert_eq!(target_names(&m), vec![b"mod.nes".to_vec()]);
}

#[test]
fn refresh_lowers_extensions_and_keeps_last_digest() {
    let source: Vec<u8> = vec![1, 2, 3, 4];
    let entries = vec![
        entry(b"FIRST.SFC", source.clone()),
        entry(b"second.sfc", source.clone()),
        entry(b"hack.bps", identity_bps(&source)),
    ];
    let m = manager_with(&entries);
    // Both names carry the same digest: the later insertion wins.
    assert_eq!(m.source_roms.entries.len(), 1);
    assert_eq!(m.source_roms.entries[0].1, b"second.sfc".to_vec());
    assert_eq!(target_names(&m), vec![b"hack.sfc".to_vec()]);
}

#[test]
fn visible_name_keeps_sourceless_extension() {
    // A source ROM without an extension strips the patch's extension.
    let source: Vec<u8> = vec![1, 2, 3, 4];
    let entries = vec![
        entry(b"romfile", source.clone()),
        entry(b"hack.bps", identity_bps(&source)),
    ];
    // "romfile" has no ROM extension, so nothing is paired at all.
    let m = manager_with(&entries);
    assert!(target_names(&m).is_empty());
}

#[test]
fn filesystem_round_trip() {
    let source: Vec<u8> = vec![1, 2, 3, 4];
    let entries = vec![
        entry(b"game.sfc", source.clone()),
        entry(b"hack.bps", identity_bps(&source)),
    ];
    let mut fs = RomFilesystem::new(manager_with(&entries));
    assert_eq!(fs.init(), Ok(()));
    assert_eq!(fs.access(), Ok(()));

    // The root lists the dot entries and the one visible file.
    let dh = fs.opendir(&b"/".to_vec(), 1000, 1000).unwrap();
    assert_eq!(dh, 1);
    let listing = fs.readdir(dh).unwrap();
    let names: Vec<Vec<u8>> = listing.iter().map(|d| d.name.clone()).collect();
    assert_eq!(names, vec![b".".to_vec(), b"..".to_vec(), b"hack.sfc".to_vec()]);
    assert_eq!(listing[0].kind, FileKind::Directory);
    assert_eq!(listing[2].kind, FileKind::RegularFile);

    // Attributes by path.
    let root_attr = fs.getattr(&b"/".to_vec(), None, 1000, 1000).unwrap();
    assert_eq!(root_attr.kind, FileKind::Directory);
    assert_eq!(root_attr.perm, 0o444);
    let file_attr = fs.getattr(&b"/hack.sfc".to_vec(), None, 1000, 1000).unwrap();
    assert_eq!(file_attr.kind, FileKind::RegularFile);
    assert_eq!(file_attr.size, 4);
    assert_eq!(fs.getattr(&b"/missing".to_vec(), None, 1000, 1000), Err(ENOENT));

    // Open, materialise on first read, serve slices.
    let fh = fs.open(&b"/hack.sfc".to_vec(), 1000, 1000).unwrap();
    assert_eq!(fh, 2);
    let attr_by_handle = fs.getattr(&b"/hack.sfc".to_vec(), Some(fh), 1000, 1000).unwrap();
    assert_eq!(attr_by_handle.size, 4);
    assert_eq!(fs.read(fh, 0, 4), Err(EIO));
    let patch = fs.read_prepare(fh).unwrap().expect("first read needs the patch");
    let input = PatchInput {
        patch_data: identity_bps(&source),
        patch_modified: mod_time(),
        source_data: source.clone(),
    };
    let bytes = patch.patched_rom(&input).unwrap();
    assert_eq!(fs.store_data(fh, bytes), Ok(()));
    assert_eq!(fs.read_prepare(fh), Ok(None));

    assert_eq!(fs.read(fh, 0, 4), Ok(vec![1, 2, 3, 4]));
    assert_eq!(fs.read(fh, 1, 2), Ok(vec![2, 3]));
    assert_eq!(fs.read(fh, 2, 100), Ok(vec![3, 4]));
    assert_eq!(fs.read(fh, 4, 1), Ok(vec![]));
    assert_eq!(fs.read(fh, 100, 1), Ok(vec![]));

    // Dropping the patch from the snapshot does not touch the open handle.
    fs.manager.refresh(&Vec::new());
    assert_eq!(fs.read(fh, 0, 4), Ok(vec![1, 2, 3, 4]));
    assert_eq!(fs.open(&b"/hack.sfc".to_vec(), 1000, 1000), Err(ENOENT));

    // Releases, and the errors for unknown handles.
    assert_eq!(fs.release(dh), Err(ENOENT));
    assert_eq!(fs.releasedir(dh), Ok(()));
    assert_eq!(fs.releasedir(dh), Err(ENOENT));
    assert_eq!(fs.releasedir(fh), Err(ENOENT));
    assert_eq!(fs.release(fh), Ok(()));
    assert_eq!(fs.read(fh, 0, 1), Err(ENOENT));
    assert_eq!(fs.read(99, 0, 1), Err(ENOENT));
}

#[test]
fn opendir_rejects_other_paths() {
    let mut fs = RomFilesystem::new(RomManager::new(b"/roms".to_vec()));
    assert_eq!(fs.opendir(&b"/sub".to_vec(), 0, 0), Err(ENOENT));
    let dh = fs.opendir(&b"/".to_vec(), 0, 0).unwrap();
    let listing = fs.readdir(dh).unwrap();
    assert_eq!(listing.len(), 2);
}

#[test]
fn store_data_keeps_the_first_buffer() {
    let source: Vec<u8> = vec![1, 2, 3, 4];
    let entries = vec![
        entry(b"game.sfc", source.clone()),
        entry(b"hack.bps", identity_bps(&source)),
    ];
    let mut fs = RomFilesystem::new(manager_with(&entries));
    let fh = fs.open(&b"/hack.sfc".to_vec(), 0, 0).unwrap();
    assert_eq!(fs.store_data(fh, vec![1, 2, 3, 4]), Ok(()));
    // A racing second materialisation must not corrupt the published bytes.
    assert_eq!(fs.store_data(fh, vec![9, 9, 9, 9]), Ok(()));
    assert_eq!(fs.read(fh, 0, 4), Ok(vec![1, 2, 3, 4]));
    assert_eq!(fs.store_data(99, vec![]), Err(ENOENT));
}

#[test]
fn watcher_triggers() {
    let quiet = vec![
        WatchEvent { moved_from: false, moved_to: false, delete: false, close_write: false },
    ];
    assert!(!should_refresh(&quiet));
    assert!(!should_refresh(&Vec::new()));
    let mut busy = quiet.clone();
    busy.push(WatchEvent { moved_from: false, moved_to: false, delete: true, close_write: false });
    assert!(should_refresh(&busy));
    let close = vec![
        WatchEvent { moved_from: false, moved_to: false, delete: false, close_write: true },
    ];
    assert!(should_refresh(&close));
    let moved = vec![
        WatchEvent { moved_from: true, moved_to: false, delete: false, close_write: false },
        WatchEvent { moved_from: false, moved_to: true, delete: false, close_write: false },
    ];
    assert!(should_refresh(&moved));
}
