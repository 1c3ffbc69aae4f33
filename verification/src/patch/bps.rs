use crate::checksum::crc32_of;
use crate::text::ascii_chars;
use crate::text::dec_digits;
use crate::text::dec_string;
use crate::text::hex8_string;
use crate::text::hex_digits;
use crate::patch::ModTime;
use crate::utils::copy_into;
use crate::utils::copy_within;
use crate::utils::overwrite;
use crate::utils::rle_copy;
use crate::utils::svlq_val;
use crate::utils::le32_at;
use crate::utils::le32_of;
use crate::utils::vlq_at;
use crate::utils::vlq_enc;
use crate::utils::vlq_scan;
use crate::utils::vlq_val;
use crate::utils::ByteCursor;
use crate::utils::ReadError;
use crate::utils::ReadExt;
use vstd::pervasive::VecAdditionalExecFns;
use vstd::string::StringExecFns;
use vstd::prelude::*;

verus! {

/// The BPS format marker, the bytes `BPS1` read as a little-endian word.
pub const BPS_FORMAT_MARKER: u32 = 0x3153_5042;

/// Why a BPS patch could not be parsed or materialised.
#[derive(Clone, Copy, Debug, PartialEq, Eq)]
#[allow(inconsistent_fields)]
pub enum BpsError {
    /// The patch file changed on disk after its header was parsed.
    OutdatedCache,
    /// The file does not begin with the format marker; both words are the
    /// first four bytes read as a little-endian value.
    FormatMarker { expected: u32, received: u32 },
    /// The source ROM is not the length the patch declares.
    SourceLength { expected: u64, received: u64 },
    /// The command stream did not produce the declared target length.
    TargetLength { expected: u64, received: u64 },
    /// The source ROM's digest differs from the declared one.
    SourceChecksum { expected: u32, received: u32 },
    /// The produced target's digest differs from the declared one.
    TargetChecksum { expected: u32, received: u32 },
    /// The patch file's own digest differs from the declared one.
    PatchChecksum { expected: u32, received: u32 },
    /// The file ended in the middle of a header field or command.
    UnexpectedEof,
    /// A variable-length quantity does not fit in 64 bits.
    ValueOverflow,
    /// A command reads or writes outside its buffer.
    IndexOutOfRange,
}

/// A parsed BPS patch header, bound to a source ROM once one with the
/// declared digest is known.
#[derive(Debug, PartialEq, Eq)]
pub struct BpsPatch {
    pub source_path: Option<Vec<u8>>,
    pub source_size: u64,
    pub source_checksum: u32,
    pub target_size: u64,
    pub target_checksum: u32,
    pub patch_path: Vec<u8>,
    pub patch_offset: u64,
    pub patch_checksum: u32,
    pub patch_metadata: Vec<u8>,
    pub patch_modified: ModTime,
}

#[verifier::ext_equal]
pub ghost struct BpsPatchView {
    pub source_path: Option<Seq<u8>>,
    pub source_size: u64,
    pub source_checksum: u32,
    pub target_size: u64,
    pub target_checksum: u32,
    pub patch_path: Seq<u8>,
    pub patch_offset: u64,
    pub patch_checksum: u32,
    pub patch_metadata: Seq<u8>,
    pub patch_modified: ModTime,
}

impl View for BpsPatch {
    type V = BpsPatchView;

    open spec fn view(&self) -> BpsPatchView {
        BpsPatchView {
            source_path: match self.source_path {
                Some(p) => Some(p@),
                None => None,
            },
            source_size: self.source_size,
            source_checksum: self.source_checksum,
            target_size: self.target_size,
            target_checksum: self.target_checksum,
            patch_path: self.patch_path@,
            patch_offset: self.patch_offset,
            patch_checksum: self.patch_checksum,
            patch_metadata: self.patch_metadata@,
            patch_modified: self.patch_modified,
        }
    }
}

/// The parsed header of the whole patch file `d`: declared source size,
/// declared target size, metadata bytes, and the byte offset of the command
/// stream; or the reason the header is rejected.
pub open spec fn spec_bps_header(d: Seq<u8>) -> Result<(u64, u64, Seq<u8>, int), BpsError> {
    if d.len() < 4 {
        Err(BpsError::UnexpectedEof)
    } else if le32_at(d) != BPS_FORMAT_MARKER {
        Err(
            BpsError::FormatMarker {
                expected: BPS_FORMAT_MARKER,
                received: le32_at(d) as u32,
            },
        )
    } else {
        match vlq_at(d.skip(4)) {
            None => Err(BpsError::UnexpectedEof),
            Some((v1, n1)) => {
                if v1 > u64::MAX {
                    Err(BpsError::ValueOverflow)
                } else {
                    match vlq_at(d.skip(4 + n1)) {
                        None => Err(BpsError::UnexpectedEof),
                        Some((v2, n2)) => {
                            if v2 > u64::MAX {
                                Err(BpsError::ValueOverflow)
                            } else {
                                match vlq_at(d.skip(4 + n1 + n2)) {
                                    None => Err(BpsError::UnexpectedEof),
                                    Some((v3, n3)) => {
                                        if v3 > u64::MAX {
                                            Err(BpsError::ValueOverflow)
                                        } else {
                                            let off = 4 + n1 + n2 + n3;
                                            if off + v3 > d.len() {
                                                Err(BpsError::UnexpectedEof)
                                            } else {
                                                Ok(
                                                    (
                                                        v1 as u64,
                                                        v2 as u64,
                                                        d.subrange(off, off + v3),
                                                        off + v3,
                                                    ),
                                                )
                                            }
                                        }
                                    },
                                }
                            }
                        },
                    }
                }
            },
        }
    }
}

/// The three digests in the last twelve bytes of `d`: source, target, patch,
/// each little-endian.
pub open spec fn spec_bps_footer(d: Seq<u8>) -> (u32, u32, u32) {
    (
        le32_at(d.skip(d.len() - 12)) as u32,
        le32_at(d.skip(d.len() - 8)) as u32,
        le32_at(d.skip(d.len() - 4)) as u32,
    )
}

/// The result of parsing the patch file `d` found at `patch_path`, observed
/// with modification time `modified`.
pub open spec fn spec_bps_parse(patch_path: Seq<u8>, d: Seq<u8>, modified: ModTime) -> Result<
    BpsPatchView,
    BpsError,
> {
    match spec_bps_header(d) {
        Err(e) => Err(e),
        Ok((source_size, target_size, metadata, off)) => {
            if d.len() < 12 {
                Err(BpsError::UnexpectedEof)
            } else {
                let (source_checksum, target_checksum, patch_checksum) = spec_bps_footer(d);
                Ok(
                    BpsPatchView {
                        source_path: None,
                        source_size,
                        source_checksum,
                        target_size,
                        target_checksum,
                        patch_path,
                        patch_offset: off as u64,
                        patch_checksum,
                        patch_metadata: metadata,
                        patch_modified: modified,
                    },
                )
            }
        },
    }
}

/// One pass of the command stream `cmds` against the source bytes `src`:
/// the target bytes and the output cursor after every command has run, or
/// the reason interpretation stops.  `out`, `sr` and `tr` are the output,
/// source-relative and target-relative cursors.
pub open spec fn bps_run(
    cmds: Seq<u8>,
    src: Seq<u8>,
    target: Seq<u8>,
    out: nat,
    sr: nat,
    tr: nat,
) -> Result<(Seq<u8>, nat), BpsError>
    decreases cmds.len(),
    via bps_run_decreases
{
    if cmds.len() == 0 {
        Ok((target, out))
    } else {
        match vlq_at(cmds) {
            None => Err(BpsError::UnexpectedEof),
            Some((d, n)) => {
                if d > u64::MAX {
                    Err(BpsError::ValueOverflow)
                } else {
                    let op = d % 4;
                    let len = d / 4 + 1;
                    let rest = cmds.skip(n);
                    if op == 0 {
                        // SourceRead
                        if out + len > target.len() || out + len > src.len() {
                            Err(BpsError::IndexOutOfRange)
                        } else {
                            bps_run(
                                rest,
                                src,
                                overwrite(
                                    target,
                                    out as int,
                                    src.subrange(out as int, (out + len) as int),
                                ),
                                out + len,
                                sr,
                                tr,
                            )
                        }
                    } else if op == 1 {
                        // TargetRead
                        if out + len > target.len() {
                            Err(BpsError::IndexOutOfRange)
                        } else if len > rest.len() {
                            Err(BpsError::UnexpectedEof)
                        } else {
                            bps_run(
                                rest.skip(len as int),
                                src,
                                overwrite(target, out as int, rest.take(len as int)),
                                out + len,
                                sr,
                                tr,
                            )
                        }
                    } else if op == 2 {
                        // SourceCopy
                        match vlq_at(rest) {
                            None => Err(BpsError::UnexpectedEof),
                            Some((d2, n2)) => {
                                if d2 > u64::MAX {
                                    Err(BpsError::ValueOverflow)
                                } else {
                                    let s2 = sr + svlq_val(d2);
                                    if s2 < 0 || s2 + len > src.len() || out + len > target.len() {
                                        Err(BpsError::IndexOutOfRange)
                                    } else {
                                        bps_run(
                                            rest.skip(n2),
                                            src,
                                            overwrite(
                                                target,
                                                out as int,
                                                src.subrange(s2, s2 + len),
                                            ),
                                            out + len,
                                            (s2 + len) as nat,
                                            tr,
                                        )
                                    }
                                }
                            },
                        }
                    } else {
                        // TargetCopy
                        match vlq_at(rest) {
                            None => Err(BpsError::UnexpectedEof),
                            Some((d2, n2)) => {
                                if d2 > u64::MAX {
                                    Err(BpsError::ValueOverflow)
                                } else {
                                    let t2 = tr + svlq_val(d2);
                                    if t2 < 0 || t2 + len > target.len() || out + len
                                        > target.len() {
                                        Err(BpsError::IndexOutOfRange)
                                    } else {
                                        bps_run(
                                            rest.skip(n2),
                                            src,
                                            rle_copy(target, t2, out as int, len),
                                            out + len,
                                            sr,
                                            (t2 + len) as nat,
                                        )
                                    }
                                }
                            },
                        }
                    }
                }
            },
        }
    }
}

#[via_fn]
proof fn bps_run_decreases(cmds: Seq<u8>, src: Seq<u8>, target: Seq<u8>, out: nat, sr: nat, tr: nat) {
    crate::utils::lemma_vlq_scan_bounds(cmds);
    if cmds.len() > 0 {
        match vlq_scan(cmds) {
            Some(n) => {
                crate::utils::lemma_vlq_scan_bounds(cmds.skip(n));
            },
            None => {},
        }
    }
}

/// The result of materialising the patch `p` against the patch file bytes
/// `d` as they read now (observed at modification time `modified`) and the
/// source ROM bytes `source`.
pub open spec fn spec_bps_patched_rom(
    p: BpsPatchView,
    d: Seq<u8>,
    modified: ModTime,
    source: Seq<u8>,
) -> Result<Seq<u8>, BpsError> {
    if modified != p.patch_modified {
        Err(BpsError::OutdatedCache)
    } else if d.len() < 4 {
        Err(BpsError::IndexOutOfRange)
    } else if crc32_of(d.take(d.len() - 4)) != p.patch_checksum {
        Err(
            BpsError::PatchChecksum {
                expected: p.patch_checksum,
                received: crc32_of(d.take(d.len() - 4)),
            },
        )
    } else if p.patch_offset + 12 > d.len() {
        Err(BpsError::IndexOutOfRange)
    } else if source.len() != p.source_size {
        Err(BpsError::SourceLength { expected: p.source_size, received: source.len() as u64 })
    } else if crc32_of(source) != p.source_checksum {
        Err(BpsError::SourceChecksum { expected: p.source_checksum, received: crc32_of(source) })
    } else if p.target_size > usize::MAX {
        Err(BpsError::IndexOutOfRange)
    } else {
        let cmds = d.subrange(p.patch_offset as int, d.len() - 12);
        let t0 = Seq::new(p.target_size as nat, |i: int| 0u8);
        match bps_run(cmds, source, t0, 0, 0, 0) {
            Err(e) => Err(e),
            Ok((t, out)) => {
                if out != p.target_size {
                    Err(BpsError::TargetLength { expected: p.target_size, received: out as u64 })
                } else if crc32_of(t) != p.target_checksum {
                    Err(
                        BpsError::TargetChecksum {
                            expected: p.target_checksum,
                            received: crc32_of(t),
                        },
                    )
                } else {
                    Ok(t)
                }
            },
        }
    }
}

/// Interpret the single command at the head of the cursor's stream,
/// advancing the cursors and writing the target bytes it produces.
#[verifier::rlimit(50)]
fn bps_step<'a>(
    c: &mut ByteCursor<'a>,
    src: &Vec<u8>,
    target: &mut Vec<u8>,
    out: &mut usize,
    sr: &mut usize,
    tr: &mut usize,
) -> (r: Result<(), BpsError>)
    requires
        old(c).inv(),
        old(c).stream().len() > 0,
        *old(out) <= old(target)@.len(),
        *old(sr) <= src@.len(),
        *old(tr) <= old(target)@.len(),
        old(target)@.len() <= usize::MAX,
        src@.len() <= usize::MAX,
    ensures
        final(c).inv(),
        final(c).base() == old(c).base(),
        final(target)@.len() == old(target)@.len(),
        *final(out) <= final(target)@.len(),
        *final(sr) <= src@.len(),
        *final(tr) <= final(target)@.len(),
        match r {
            Ok(()) => final(c).stream().len() < old(c).stream().len() && bps_run(
                old(c).stream(),
                src@,
                old(target)@,
                *old(out) as nat,
                *old(sr) as nat,
                *old(tr) as nat,
            ) == bps_run(
                final(c).stream(),
                src@,
                final(target)@,
                *final(out) as nat,
                *final(sr) as nat,
                *final(tr) as nat,
            ),
            Err(e) => bps_run(
                old(c).stream(),
                src@,
                old(target)@,
                *old(out) as nat,
                *old(sr) as nat,
                *old(tr) as nat,
            ) == Err::<(Seq<u8>, nat), BpsError>(e),
        },
{
    let ghost stream0 = c.stream();
    let ghost pre_t = target@;
    let ghost pre_out = *out as nat;
    let ghost pre_sr = *sr as nat;
    let ghost pre_tr = *tr as nat;
    let d = match c.read_vlq() {
        Ok(d) => d,
        Err(ReadError::UnexpectedEof) => {
            return Err(BpsError::UnexpectedEof);
        },
        Err(ReadError::Overflow) => {
            return Err(BpsError::ValueOverflow);
        },
    };
    let ghost n = vlq_scan(stream0)->Some_0;
    proof {
        crate::utils::lemma_vlq_scan_bounds(stream0);
        assert(vlq_at(stream0) == Some((d as nat, n)));
    }
    let ghost rest = stream0.skip(n);
    proof {
        assert(d & 3 == d % 4 && (d >> 2) == d / 4) by (bit_vector);
    }
    let op = d & 3;
    let len64 = (d >> 2) + 1;
    let ghost len_s = (d / 4 + 1) as nat;
    if op == 0 {
        // SourceRead
        if *out > target.len() || len64 > (target.len() - *out) as u64 || *out > src.len() || len64
            > (src.len() - *out) as u64 {
            proof {
                assert(pre_out + len_s > pre_t.len() || pre_out + len_s > src@.len());
            }
            return Err(BpsError::IndexOutOfRange);
        }
        let len = len64 as usize;
        copy_into(target, *out, src.as_slice(), *out, len);
        *out = *out + len;
        proof {
            assert(bps_run(stream0, src@, pre_t, pre_out, pre_sr, pre_tr) == bps_run(
                rest,
                src@,
                overwrite(pre_t, pre_out as int, src@.subrange(pre_out as int, (pre_out + len_s) as int)),
                (pre_out + len_s) as nat,
                pre_sr,
                pre_tr,
            ));
        }
    } else if op == 1 {
        // TargetRead
        if *out > target.len() || len64 > (target.len() - *out) as u64 {
            return Err(BpsError::IndexOutOfRange);
        }
        let len = len64 as usize;
        let payload = match c.read_exact(len) {
            Ok(p) => p,
            Err(_) => {
                return Err(BpsError::UnexpectedEof);
            },
        };
        copy_into(target, *out, payload.as_slice(), 0, len);
        *out = *out + len;
        proof {
            assert(payload@.subrange(0, len_s as int) =~= rest.take((len_s) as int));
            assert(bps_run(stream0, src@, pre_t, pre_out, pre_sr, pre_tr) == bps_run(
                rest.skip(len_s as int),
                src@,
                overwrite(pre_t, pre_out as int, rest.take((len_s) as int)),
                (pre_out + len_s) as nat,
                pre_sr,
                pre_tr,
            ));
        }
    } else if op == 2 {
        // SourceCopy
        let delta = match c.read_signed_vlq() {
            Ok(v) => v,
            Err(ReadError::UnexpectedEof) => {
                return Err(BpsError::UnexpectedEof);
            },
            Err(ReadError::Overflow) => {
                return Err(BpsError::ValueOverflow);
            },
        };
        let ghost n2 = vlq_scan(rest)->Some_0;
        let ghost d2 = vlq_val(rest.take(n2));
        proof {
            crate::utils::lemma_vlq_scan_bounds(rest);
            assert(vlq_at(rest) == Some((d2, n2)));
            assert(delta as int == svlq_val(d2));
        }
        let s128: i128 = *sr as i128 + delta as i128;
        if s128 < 0 || s128 > (src.len() as i128) - (len64 as i128) || *out > target.len() || len64
            > (target.len() - *out) as u64 {
            proof {
                assert(pre_sr + svlq_val(d2) < 0 || pre_sr + svlq_val(d2) + len_s > src@.len()
                    || pre_out + len_s > pre_t.len());
            }
            return Err(BpsError::IndexOutOfRange);
        }
        let s2 = s128 as usize;
        let len = len64 as usize;
        copy_into(target, *out, src.as_slice(), s2, len);
        *sr = s2 + len;
        *out = *out + len;
        proof {
            assert(bps_run(stream0, src@, pre_t, pre_out, pre_sr, pre_tr) == bps_run(
                rest.skip(n2),
                src@,
                overwrite(pre_t, pre_out as int, src@.subrange(s2 as int, (s2 + len_s) as int)),
                (pre_out + len_s) as nat,
                (s2 + len_s) as nat,
                pre_tr,
            ));
        }
    } else {
        // TargetCopy
        let delta = match c.read_signed_vlq() {
            Ok(v) => v,
            Err(ReadError::UnexpectedEof) => {
                return Err(BpsError::UnexpectedEof);
            },
            Err(ReadError::Overflow) => {
                return Err(BpsError::ValueOverflow);
            },
        };
        let ghost n2 = vlq_scan(rest)->Some_0;
        let ghost d2 = vlq_val(rest.take(n2));
        proof {
            crate::utils::lemma_vlq_scan_bounds(rest);
            assert(vlq_at(rest) == Some((d2, n2)));
            assert(delta as int == svlq_val(d2));
        }
        let t128: i128 = *tr as i128 + delta as i128;
        if t128 < 0 || t128 > (target.len() as i128) - (len64 as i128) || *out > target.len()
            || len64 > (target.len() - *out) as u64 {
            proof {
                assert(pre_tr + svlq_val(d2) < 0 || pre_tr + svlq_val(d2) + len_s > pre_t.len()
                    || pre_out + len_s > pre_t.len());
            }
            return Err(BpsError::IndexOutOfRange);
        }
        let t2 = t128 as usize;
        let len = len64 as usize;
        copy_within(target, t2, *out, len);
        *tr = t2 + len;
        *out = *out + len;
        proof {
            crate::utils::lemma_rle_copy_len(pre_t, t2 as int, pre_out as int, len_s);
            assert(bps_run(stream0, src@, pre_t, pre_out, pre_sr, pre_tr) == bps_run(
                rest.skip(n2),
                src@,
                rle_copy(pre_t, t2 as int, pre_out as int, len_s),
                (pre_out + len_s) as nat,
                pre_sr,
                (t2 + len_s) as nat,
            ));
        }
    }
    Ok(())
}

impl BpsPatch {
    /// Parse the header and footer of a BPS patch file read from
    /// `patch_path` as the bytes `data`, last modified at `modified`.
    pub fn new(patch_path: Vec<u8>, data: &Vec<u8>, modified: ModTime) -> (r: Result<
        Self,
        BpsError,
    >)
        ensures
            match r {
                Ok(p) => spec_bps_parse(patch_path@, data@, modified) == Ok::<
                    BpsPatchView,
                    BpsError,
                >(p@),
                Err(e) => spec_bps_parse(patch_path@, data@, modified) == Err::<
                    BpsPatchView,
                    BpsError,
                >(e),
            },
    {
        let ghost d = data@;
        let mut c = ByteCursor::new(data.as_slice());
        proof {
            assert(d.skip(0) =~= d);
        }
        let marker = match c.read_u32_le() {
            Ok(m) => m,
            Err(_) => {
                return Err(BpsError::UnexpectedEof);
            },
        };
        if marker != BPS_FORMAT_MARKER {
            return Err(
                BpsError::FormatMarker { expected: BPS_FORMAT_MARKER, received: marker },
            );
        }
        assert(c.stream() == d.skip(4));
        let source_size = match c.read_vlq() {
            Ok(v) => v,
            Err(ReadError::UnexpectedEof) => {
                return Err(BpsError::UnexpectedEof);
            },
            Err(ReadError::Overflow) => {
                return Err(BpsError::ValueOverflow);
            },
        };
        let ghost n1 = vlq_scan(d.skip(4))->Some_0;
        proof {
            crate::utils::lemma_vlq_scan_bounds(d.skip(4));
            assert(d.skip(4).skip(n1) =~= d.skip(4 + n1));
        }
        let target_size = match c.read_vlq() {
            Ok(v) => v,
            Err(ReadError::UnexpectedEof) => {
                return Err(BpsError::UnexpectedEof);
            },
            Err(ReadError::Overflow) => {
                return Err(BpsError::ValueOverflow);
            },
        };
        let ghost n2 = vlq_scan(d.skip(4 + n1))->Some_0;
        proof {
            crate::utils::lemma_vlq_scan_bounds(d.skip(4 + n1));
            assert(d.skip(4 + n1).skip(n2) =~= d.skip(4 + n1 + n2));
        }
        let metadata_size = match c.read_vlq() {
            Ok(v) => v,
            Err(ReadError::UnexpectedEof) => {
                return Err(BpsError::UnexpectedEof);
            },
            Err(ReadError::Overflow) => {
                return Err(BpsError::ValueOverflow);
            },
        };
        let ghost n3 = vlq_scan(d.skip(4 + n1 + n2))->Some_0;
        proof {
            crate::utils::lemma_vlq_scan_bounds(d.skip(4 + n1 + n2));
            assert(d.skip(4 + n1 + n2).skip(n3) =~= d.skip(4 + n1 + n2 + n3));
        }
        let avail = c.remaining();
        if metadata_size > avail as u64 {
            return Err(BpsError::UnexpectedEof);
        }
        let patch_metadata = match c.read_exact(metadata_size as usize) {
            Ok(v) => v,
            Err(_) => {
                return Err(BpsError::UnexpectedEof);
            },
        };
        let patch_offset = c.position() as u64;
        proof {
            let off = 4 + n1 + n2 + n3;
            assert(c.stream() == d.skip(off).skip(metadata_size as int));
            assert(d.skip(off).skip(metadata_size as int) =~= d.skip(off + metadata_size));
            assert(c.stream().len() == d.len() - (off + metadata_size));
            assert(c.pos == off + metadata_size);
            assert(patch_metadata@ =~= d.subrange(off, off + metadata_size));
        }
        if data.len() < 12 {
            return Err(BpsError::UnexpectedEof);
        }
        let source_checksum = le32_of(data.as_slice(), data.len() - 12);
        let target_checksum = le32_of(data.as_slice(), data.len() - 8);
        let patch_checksum = le32_of(data.as_slice(), data.len() - 4);
        let p = BpsPatch {
            source_path: None,
            source_size,
            source_checksum,
            target_size,
            target_checksum,
            patch_path,
            patch_offset,
            patch_checksum,
            patch_metadata,
            patch_modified: modified,
        };
        proof {
            assert(spec_bps_parse(p.patch_path@, d, modified) matches Ok(v) && v =~= p@);
        }
        Ok(p)
    }

    /// Bind the source ROM this patch applies to.
    pub fn set_source_path(&mut self, source_path: &Vec<u8>)
        ensures
            final(self)@ == (BpsPatchView { source_path: Some(source_path@), ..old(self)@ }),
    {
        self.source_path = Some(crate::utils::clone_bytes(source_path));
    }

    /// The digest the source ROM must have.
    pub fn source_checksum(&self) -> (r: u32)
        ensures
            r == self@.source_checksum,
    {
        self.source_checksum
    }

    /// Materialise the target ROM from the patch file bytes as they read
    /// now (observed at `patch_modified`) and the source ROM bytes.
    #[verifier::loop_isolation(false)]
    pub fn materialise(&self, patch_data: &Vec<u8>, patch_modified: ModTime, source: &Vec<u8>) -> (r:
        Result<Vec<u8>, BpsError>)
        ensures
            match r {
                Ok(v) => spec_bps_patched_rom(self@, patch_data@, patch_modified, source@) == Ok::<
                    Seq<u8>,
                    BpsError,
                >(v@),
                Err(e) => spec_bps_patched_rom(self@, patch_data@, patch_modified, source@)
                    == Err::<Seq<u8>, BpsError>(e),
            },
    {
        let ghost dd = patch_data@;
        if patch_modified != self.patch_modified {
            return Err(BpsError::OutdatedCache);
        }
        if patch_data.len() < 4 {
            return Err(BpsError::IndexOutOfRange);
        }
        let pc = crate::checksum::crc32(&patch_data[0..patch_data.len() - 4]);
        proof {
            assert(dd.subrange(0, dd.len() - 4) =~= dd.take(dd.len() - 4));
        }
        if pc != self.patch_checksum {
            return Err(BpsError::PatchChecksum { expected: self.patch_checksum, received: pc });
        }
        if patch_data.len() < 12 || self.patch_offset > (patch_data.len() - 12) as u64 {
            return Err(BpsError::IndexOutOfRange);
        }
        if source.len() as u64 != self.source_size {
            return Err(
                BpsError::SourceLength {
                    expected: self.source_size,
                    received: source.len() as u64,
                },
            );
        }
        let sc = crate::checksum::crc32(source.as_slice());
        if sc != self.source_checksum {
            return Err(BpsError::SourceChecksum { expected: self.source_checksum, received: sc });
        }
        if self.target_size > usize::MAX as u64 {
            return Err(BpsError::IndexOutOfRange);
        }
        let mut target = crate::utils::zero_vec(self.target_size as usize);
        let ghost t0 = Seq::new(self.target_size as nat, |i: int| 0u8);
        let end = patch_data.len() - 12;
        let off = self.patch_offset as usize;
        let cmds: &[u8] = &patch_data[off..end];
        let ghost cmds0 = dd.subrange(self.patch_offset as int, dd.len() - 12);
        let mut c = ByteCursor::new(cmds);
        let ghost goal = bps_run(cmds0, source@, t0, 0, 0, 0);
        let mut out: usize = 0;
        let mut sr: usize = 0;
        let mut tr: usize = 0;
        proof {
            assert(cmds0.skip(0) =~= cmds0);
        }
        while c.remaining() > 0
            invariant
                c.inv(),
                c.base() == cmds0,
                target@.len() == self.target_size as nat,
                out <= target@.len(),
                sr <= source@.len(),
                tr <= target@.len(),
                goal == bps_run(c.stream(), source@, target@, out as nat, sr as nat, tr as nat),
            decreases c.stream().len(),
        {
            match bps_step(&mut c, source, &mut target, &mut out, &mut sr, &mut tr) {
                Ok(()) => {},
                Err(e) => {
                    return Err(e);
                },
            }
        }
        if out as u64 != self.target_size {
            return Err(
                BpsError::TargetLength { expected: self.target_size, received: out as u64 },
            );
        }
        let tc = crate::checksum::crc32(target.as_slice());
        if tc != self.target_checksum {
            return Err(BpsError::TargetChecksum { expected: self.target_checksum, received: tc });
        }
        Ok(target)
    }

    /// An identical copy.
    pub fn duplicate(&self) -> (r: Self)
        ensures
            r@ == self@,
    {
        BpsPatch {
            source_path: match &self.source_path {
                Some(p) => Some(crate::utils::clone_bytes(p)),
                None => None,
            },
            source_size: self.source_size,
            source_checksum: self.source_checksum,
            target_size: self.target_size,
            target_checksum: self.target_checksum,
            patch_path: crate::utils::clone_bytes(&self.patch_path),
            patch_offset: self.patch_offset,
            patch_checksum: self.patch_checksum,
            patch_metadata: crate::utils::clone_bytes(&self.patch_metadata),
            patch_modified: self.patch_modified,
        }
    }
}

impl crate::patch::Patch for BpsPatch {
    open spec fn spec_target_size(&self) -> u64 {
        self.target_size
    }

    open spec fn spec_patched_rom(&self, input: crate::patch::PatchInputView) -> Result<
        Seq<u8>,
        crate::patch::PatchError,
    > {
        match spec_bps_patched_rom(self@, input.patch_data, input.patch_modified, input.source_data) {
            Ok(t) => Ok(t),
            Err(e) => Err(crate::patch::PatchError::Bps(e)),
        }
    }

    fn target_size(&self) -> (r: u64) {
        self.target_size
    }

    fn patched_rom(&self, input: &crate::patch::PatchInput) -> (r: Result<
        Vec<u8>,
        crate::patch::PatchError,
    >) {
        match self.materialise(&input.patch_data, input.patch_modified, &input.source_data) {
            Ok(v) => Ok(v),
            Err(e) => Err(crate::patch::PatchError::Bps(e)),
        }
    }
}

/// The rendering of an error as one line of text.
pub open spec fn spec_bps_message(e: BpsError) -> Seq<char> {
    match e {
        BpsError::OutdatedCache => "outdated cache"@,
        BpsError::FormatMarker { expected, received } => "invalid format marker (expected: 0x"@
            + ascii_chars(hex_digits(expected as nat, 8)) + ", received: 0x"@ + ascii_chars(
            hex_digits(received as nat, 8),
        ) + ")"@,
        BpsError::SourceLength { expected, received } => "source length mismatch (expected: "@
            + ascii_chars(dec_digits(expected as nat)) + ", received: "@ + ascii_chars(
            dec_digits(received as nat),
        ) + ")"@,
        BpsError::TargetLength { expected, received } => "target length mismatch (expected: "@
            + ascii_chars(dec_digits(expected as nat)) + ", received: "@ + ascii_chars(
            dec_digits(received as nat),
        ) + ")"@,
        BpsError::SourceChecksum { expected, received } => "invalid source checksum (expected: 0x"@
            + ascii_chars(hex_digits(expected as nat, 8)) + ", received: 0x"@ + ascii_chars(
            hex_digits(received as nat, 8),
        ) + ")"@,
        BpsError::TargetChecksum { expected, received } => "invalid target checksum (expected: 0x"@
            + ascii_chars(hex_digits(expected as nat, 8)) + ", received: 0x"@ + ascii_chars(
            hex_digits(received as nat, 8),
        ) + ")"@,
        BpsError::PatchChecksum { expected, received } => "invalid patch checksum (expected: 0x"@
            + ascii_chars(hex_digits(expected as nat, 8)) + ", received: 0x"@ + ascii_chars(
            hex_digits(received as nat, 8),
        ) + ")"@,
        BpsError::UnexpectedEof => "unexpected end of patch file"@,
        BpsError::ValueOverflow => "value overflow"@,
        BpsError::IndexOutOfRange => "index out of range"@,
    }
}

impl BpsError {
    /// Render the error as one line of text.
    pub fn message(&self) -> (r: String)
        ensures
            r@ == spec_bps_message(*self),
    {
        match *self {
            BpsError::OutdatedCache => String::from_str("outdated cache"),
            BpsError::FormatMarker { expected, received } => {
                let mut m = String::from_str("invalid format marker (expected: 0x");
                m.append(hex8_string(expected).as_str());
                m.append(", received: 0x");
                m.append(hex8_string(received).as_str());
                m.append(")");
                m
            },
            BpsError::SourceLength { expected, received } => {
                let mut m = String::from_str("source length mismatch (expected: ");
                m.append(dec_string(expected).as_str());
                m.append(", received: ");
                m.append(dec_string(received).as_str());
                m.append(")");
                m
            },
            BpsError::TargetLength { expected, received } => {
                let mut m = String::from_str("target length mismatch (expected: ");
                m.append(dec_string(expected).as_str());
                m.append(", received: ");
                m.append(dec_string(received).as_str());
                m.append(")");
                m
            },
            BpsError::SourceChecksum { expected, received } => {
                let mut m = String::from_str("invalid source checksum (expected: 0x");
                m.append(hex8_string(expected).as_str());
                m.append(", received: 0x");
                m.append(hex8_string(received).as_str());
                m.append(")");
                m
            },
            BpsError::TargetChecksum { expected, received } => {
                let mut m = String::from_str("invalid target checksum (expected: 0x");
                m.append(hex8_string(expected).as_str());
                m.append(", received: 0x");
                m.append(hex8_string(received).as_str());
                m.append(")");
                m
            },
            BpsError::PatchChecksum { expected, received } => {
                let mut m = String::from_str("invalid patch checksum (expected: 0x");
                m.append(hex8_string(expected).as_str());
                m.append(", received: 0x");
                m.append(hex8_string(received).as_str());
                m.append(")");
                m
            },
            BpsError::UnexpectedEof => String::from_str("unexpected end of patch file"),
            BpsError::ValueOverflow => String::from_str("value overflow"),
            BpsError::IndexOutOfRange => String::from_str("index out of range"),
        }
    }
}

/// An interpreted command stream never changes the length of the target
/// buffer, and only moves the output cursor forward.
pub proof fn lemma_bps_run_len(cmds: Seq<u8>, src: Seq<u8>, target: Seq<u8>, out: nat, sr: nat, tr: nat)
    ensures
        bps_run(cmds, src, target, out, sr, tr) matches Ok(p) ==> p.0.len() == target.len() && p.1
            >= out,
    decreases cmds.len(),
{
    crate::utils::lemma_vlq_scan_bounds(cmds);
    if cmds.len() != 0 {
        match vlq_at(cmds) {
            None => {},
            Some((d, n)) => {
                if d <= u64::MAX {
                    let op = d % 4;
                    let len = d / 4 + 1;
                    let rest = cmds.skip(n);
                    crate::utils::lemma_vlq_scan_bounds(rest);
                    if op == 0 {
                        if out + len <= target.len() && out + len <= src.len() {
                            lemma_bps_run_len(
                                rest,
                                src,
                                overwrite(
                                    target,
                                    out as int,
                                    src.subrange(out as int, (out + len) as int),
                                ),
                                out + len,
                                sr,
                                tr,
                            );
                        }
                    } else if op == 1 {
                        if out + len <= target.len() && len <= rest.len() {
                            lemma_bps_run_len(
                                rest.skip(len as int),
                                src,
                                overwrite(target, out as int, rest.take(len as int)),
                                out + len,
                                sr,
                                tr,
                            );
                        }
                    } else if op == 2 {
                        match vlq_at(rest) {
                            None => {},
                            Some((d2, n2)) => {
                                if d2 <= u64::MAX {
                                    let s2 = sr + svlq_val(d2);
                                    if 0 <= s2 && s2 + len <= src.len() && out + len
                                        <= target.len() {
                                        lemma_bps_run_len(
                                            rest.skip(n2),
                                            src,
                                            overwrite(
                                                target,
                                                out as int,
                                                src.subrange(s2, s2 + len),
                                            ),
                                            out + len,
                                            (s2 + len) as nat,
                                            tr,
                                        );
                                    }
                                }
                            },
                        }
                    } else {
                        match vlq_at(rest) {
                            None => {},
                            Some((d2, n2)) => {
                                if d2 <= u64::MAX {
                                    let t2 = tr + svlq_val(d2);
                                    if 0 <= t2 && t2 + len <= target.len() && out + len
                                        <= target.len() {
                                        crate::utils::lemma_rle_copy_len(
                                            target,
                                            t2,
                                            out as int,
                                            len as nat,
                                        );
                                        lemma_bps_run_len(
                                            rest.skip(n2),
                                            src,
                                            rle_copy(target, t2, out as int, len as nat),
                                            out + len,
                                            sr,
                                            (t2 + len) as nat,
                                        );
                                    }
                                }
                            },
                        }
                    }
                }
            },
        }
    }
}

/// Law: a successful materialisation returns a buffer of the declared
/// target length whose digest equals the declared target digest.
pub proof fn lemma_bps_materialise_integrity(
    p: BpsPatchView,
    d: Seq<u8>,
    modified: ModTime,
    source: Seq<u8>,
)
    ensures
        spec_bps_patched_rom(p, d, modified, source) matches Ok(t) ==> t.len() == p.target_size
            && crc32_of(t) == p.target_checksum,
{
    if modified == p.patch_modified && d.len() >= 4 && crc32_of(d.take(d.len() - 4))
        == p.patch_checksum && p.patch_offset + 12 <= d.len() && source.len() == p.source_size
        && crc32_of(source) == p.source_checksum && p.target_size <= usize::MAX {
        let cmds = d.subrange(p.patch_offset as int, d.len() - 12);
        let t0 = Seq::new(p.target_size as nat, |i: int| 0u8);
        lemma_bps_run_len(cmds, source, t0, 0, 0, 0);
    }
}

/// Law: a single source-copy command with relative offset zero and length
/// equal to the whole source reproduces the source verbatim.
pub proof fn lemma_bps_source_copy_identity(src: Seq<u8>)
    requires
        1 <= src.len() <= 0x4000_0000_0000_0000,
    ensures
        ({
            let cmds = vlq_enc(((src.len() - 1) * 4 + 2) as nat) + vlq_enc(0);
            bps_run(cmds, src, Seq::new(src.len(), |i: int| 0u8), 0, 0, 0) == Ok::<
                (Seq<u8>, nat),
                BpsError,
            >((src, src.len()))
        }),
{
    let d = ((src.len() - 1) * 4 + 2) as nat;
    let e1 = vlq_enc(d);
    let e2 = vlq_enc(0);
    let cmds = e1 + e2;
    let t0 = Seq::new(src.len(), |i: int| 0u8);
    crate::utils::lemma_vlq_round_trip(d);
    crate::utils::lemma_vlq_round_trip(0);
    crate::utils::lemma_vlq_scan_concat(e1, e2);
    assert(vlq_at(cmds) == Some((d, e1.len() as int)));
    assert(d % 4 == 2 && d / 4 + 1 == src.len()) by (nonlinear_arith)
        requires
            d == (src.len() - 1) * 4 + 2,
            src.len() >= 1,
    ;
    let rest = cmds.skip(e1.len() as int);
    assert(rest =~= e2);
    assert(vlq_at(e2) == Some((0nat, 1int)));
    assert(svlq_val(0) == 0);
    let written = overwrite(t0, 0, src.subrange(0, src.len() as int));
    assert(written =~= src);
    assert(rest.skip(1) =~= Seq::<u8>::empty());
    assert(bps_run(rest.skip(1), src, src, src.len() as nat, src.len() as nat, 0nat) == Ok::<
        (Seq<u8>, nat),
        BpsError,
    >((src, src.len())));
}

/// Law: a target copy whose source begins one byte before the write cursor
/// repeats that byte over the whole copied range, and changes nothing else.
pub proof fn lemma_rle_copy_repeats(t: Seq<u8>, to: int, len: nat)
    requires
        1 <= to,
        to + len <= t.len(),
    ensures
        rle_copy(t, to - 1, to, len).len() == t.len(),
        forall|i: int| to <= i < to + len ==> #[trigger] rle_copy(t, to - 1, to, len)[i] == t[to
            - 1],
        forall|i: int|
            0 <= i < t.len() && !(to <= i < to + len) ==> #[trigger] rle_copy(t, to - 1, to, len)[i]
                == t[i],
    decreases len,
{
    if len > 0 {
        let t1 = t.update(to, t[to - 1]);
        lemma_rle_copy_repeats(t1, to + 1, (len - 1) as nat);
    }
}

} // verus!
