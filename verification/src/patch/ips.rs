use crate::utils::be16_at;
use crate::utils::clone_bytes;
use crate::utils::copy_into;
use crate::utils::fill_bytes;
use crate::utils::resize_bytes;
use crate::utils::be24_at;
use crate::utils::nat_max;
use crate::utils::overwrite;
use crate::utils::resize_seq;
use crate::utils::ByteCursor;
use crate::utils::ReadError;
use crate::utils::ReadExt;
use vstd::prelude::*;
use vstd::string::StringExecFns;

verus! {

/// The record offset that ends an IPS stream: the bytes `EOF` read
/// big-endian.
pub const IPS_EOF_MARKER: u32 = 0x45_4F46;

/// Why an IPS patch could not be parsed or materialised.
#[derive(Clone, Copy, Debug, PartialEq, Eq)]
pub enum IpsError {
    /// The file does not begin with the IPS format marker.
    FormatMarker,
    /// The file ended in the middle of a record.
    UnexpectedEof,
    /// A record writes outside the target buffer.
    IndexOutOfRange,
}

/// The rendering of an error as one line of text.
pub open spec fn spec_ips_message(e: IpsError) -> Seq<char> {
    match e {
        IpsError::FormatMarker => "invalid format marker"@,
        IpsError::UnexpectedEof => "unexpected end of patch file"@,
        IpsError::IndexOutOfRange => "index out of range"@,
    }
}

impl IpsError {
    /// Render the error as one line of text.
    pub fn message(&self) -> (r: String)
        ensures
            r@ == spec_ips_message(*self),
    {
        match *self {
            IpsError::FormatMarker => String::from_str("invalid format marker"),
            IpsError::UnexpectedEof => String::from_str("unexpected end of patch file"),
            IpsError::IndexOutOfRange => String::from_str("index out of range"),
        }
    }
}

/// `d` begins with the IPS format marker, the ASCII bytes `PATCH`.
pub open spec fn ips_marker_ok(d: Seq<u8>) -> bool {
    &&& d.len() >= 5
    &&& d[0] == 0x50
    &&& d[1] == 0x41
    &&& d[2] == 0x54
    &&& d[3] == 0x43
    &&& d[4] == 0x48
}

/// The size pass over the record stream `d`: the largest extent any record
/// writes, folded into `acc`, and the truncation size if one follows the
/// end marker.  A record whose payload runs past the end of the file is
/// skipped over, as a seek would, and the next read reports the end.
pub open spec fn ips_scan(d: Seq<u8>, acc: nat) -> Result<(nat, Option<nat>), IpsError>
    decreases d.len(),
{
    if d.len() < 3 {
        Err(IpsError::UnexpectedEof)
    } else {
        let off = be24_at(d);
        if off == IPS_EOF_MARKER {
            let rest = d.skip(3);
            if rest.len() >= 3 {
                Ok((acc, Some(be24_at(rest) as nat)))
            } else {
                Ok((acc, None))
            }
        } else if d.len() < 5 {
            Err(IpsError::UnexpectedEof)
        } else {
            let size = be16_at(d.skip(3));
            if size == 0 {
                if d.len() < 8 {
                    Err(IpsError::UnexpectedEof)
                } else {
                    let rle = be16_at(d.skip(5));
                    ips_scan(d.skip(8), nat_max(acc, (off + rle) as nat))
                }
            } else {
                let next = if 5 + size <= d.len() {
                    d.skip(5 + size)
                } else {
                    Seq::<u8>::empty()
                };
                ips_scan(next, nat_max(acc, (off + size) as nat))
            }
        }
    }
}

/// One record of an IPS stream: `size` bytes of `data` at `offset`, or, for
/// a run-length record, `size` copies of `value`.
pub ghost struct IpsRecordView {
    pub offset: nat,
    pub size: nat,
    pub rle: bool,
    pub value: u8,
    pub data: Seq<u8>,
}

/// The records of the stream `d` up to the end marker, and the truncation
/// size if one follows it.
pub open spec fn ips_records(d: Seq<u8>) -> Result<(Seq<IpsRecordView>, Option<nat>), IpsError>
    decreases d.len(),
{
    if d.len() < 3 {
        Err(IpsError::UnexpectedEof)
    } else {
        let off = be24_at(d);
        if off == IPS_EOF_MARKER {
            let rest = d.skip(3);
            if rest.len() >= 3 {
                Ok((Seq::empty(), Some(be24_at(rest) as nat)))
            } else {
                Ok((Seq::empty(), None))
            }
        } else if d.len() < 5 {
            Err(IpsError::UnexpectedEof)
        } else {
            let size = be16_at(d.skip(3));
            if size == 0 {
                if d.len() < 8 {
                    Err(IpsError::UnexpectedEof)
                } else {
                    let rle = be16_at(d.skip(5));
                    let rec = IpsRecordView {
                        offset: off as nat,
                        size: rle as nat,
                        rle: true,
                        value: d[7],
                        data: Seq::empty(),
                    };
                    match ips_records(d.skip(8)) {
                        Ok((rs, t)) => Ok((seq![rec] + rs, t)),
                        Err(e) => Err(e),
                    }
                }
            } else {
                let rec = IpsRecordView {
                    offset: off as nat,
                    size: size as nat,
                    rle: false,
                    value: 0,
                    data: if 5 + size <= d.len() {
                        d.subrange(5, 5 + size)
                    } else {
                        Seq::empty()
                    },
                };
                let next = if 5 + size <= d.len() {
                    d.skip(5 + size)
                } else {
                    Seq::<u8>::empty()
                };
                match ips_records(next) {
                    Ok((rs, t)) => Ok((seq![rec] + rs, t)),
                    Err(e) => Err(e),
                }
            }
        }
    }
}

/// The largest `offset + size` over the records `rs`; zero when there are
/// none.
pub open spec fn ips_records_extent(rs: Seq<IpsRecordView>) -> nat
    decreases rs.len(),
{
    if rs.len() == 0 {
        0
    } else {
        nat_max(rs[0].offset + rs[0].size, ips_records_extent(rs.skip(1)))
    }
}

/// The size pass computes exactly the largest record extent, folded with
/// its starting value.
pub proof fn lemma_ips_scan_records(d: Seq<u8>, acc: nat)
    ensures
        ips_scan(d, acc) is Ok <==> ips_records(d) is Ok,
        ips_scan(d, acc) matches Err(e) ==> ips_records(d) == Err::<
            (Seq<IpsRecordView>, Option<nat>),
            IpsError,
        >(e),
        ips_scan(d, acc) matches Ok(s) ==> (ips_records(d) matches Ok(r) && s.0 == nat_max(
            acc,
            ips_records_extent(r.0),
        ) && s.1 == r.1),
    decreases d.len(),
{
    if d.len() >= 3 {
        let off = be24_at(d);
        if off == IPS_EOF_MARKER {
        } else if d.len() >= 5 {
            let size = be16_at(d.skip(3));
            if size == 0 {
                if d.len() >= 8 {
                    let rle = be16_at(d.skip(5));
                    lemma_ips_scan_records(d.skip(8), nat_max(acc, (off + rle) as nat));
                    match ips_records(d.skip(8)) {
                        Ok((rs, t)) => {
                            let rec = IpsRecordView {
                                offset: off as nat,
                                size: rle as nat,
                                rle: true,
                                value: d[7],
                                data: Seq::empty(),
                            };
                            assert((seq![rec] + rs).skip(1) =~= rs);
                            assert((seq![rec] + rs)[0] == rec);
                        },
                        Err(_) => {},
                    }
                }
            } else {
                let next = if 5 + size <= d.len() {
                    d.skip(5 + size)
                } else {
                    Seq::<u8>::empty()
                };
                lemma_ips_scan_records(next, nat_max(acc, (off + size) as nat));
                match ips_records(next) {
                    Ok((rs, t)) => {
                        let rec = IpsRecordView {
                            offset: off as nat,
                            size: size as nat,
                            rle: false,
                            value: 0,
                            data: if 5 + size <= d.len() {
                                d.subrange(5, 5 + size)
                            } else {
                                Seq::empty()
                            },
                        };
                        assert((seq![rec] + rs).skip(1) =~= rs);
                        assert((seq![rec] + rs)[0] == rec);
                    },
                    Err(_) => {},
                }
            }
        }
    }
}

/// Record offsets are 24-bit and record sizes 16-bit, so no record extent
/// reaches the 25th bit.
pub proof fn lemma_ips_records_extent_bound(d: Seq<u8>)
    ensures
        ips_records(d) matches Ok(r) ==> ips_records_extent(r.0) < 0x200_0000,
    decreases d.len(),
{
    if d.len() >= 3 {
        let off = be24_at(d);
        if off == IPS_EOF_MARKER {
        } else if d.len() >= 5 {
            let size = be16_at(d.skip(3));
            if size == 0 {
                if d.len() >= 8 {
                    lemma_ips_records_extent_bound(d.skip(8));
                    match ips_records(d.skip(8)) {
                        Ok((rs, t)) => {
                            let rec = IpsRecordView {
                                offset: off as nat,
                                size: be16_at(d.skip(5)) as nat,
                                rle: true,
                                value: d[7],
                                data: Seq::empty(),
                            };
                            assert((seq![rec] + rs).skip(1) =~= rs);
                            assert((seq![rec] + rs)[0] == rec);
                        },
                        Err(_) => {},
                    }
                }
            } else {
                let next = if 5 + size <= d.len() {
                    d.skip(5 + size)
                } else {
                    Seq::<u8>::empty()
                };
                lemma_ips_records_extent_bound(next);
                match ips_records(next) {
                    Ok((rs, t)) => {
                        let rec = IpsRecordView {
                            offset: off as nat,
                            size: size as nat,
                            rle: false,
                            value: 0,
                            data: if 5 + size <= d.len() {
                                d.subrange(5, 5 + size)
                            } else {
                                Seq::empty()
                            },
                        };
                        assert((seq![rec] + rs).skip(1) =~= rs);
                        assert((seq![rec] + rs)[0] == rec);
                    },
                    Err(_) => {},
                }
            }
        }
    }
}

/// One pass of the record stream `d` over the target bytes `t`: each record
/// writes its bytes, and the stream ends at the end marker, whose trailing
/// truncation size the caller applies.
pub open spec fn ips_run(d: Seq<u8>, t: Seq<u8>) -> Result<Seq<u8>, IpsError>
    decreases d.len(),
{
    if d.len() < 3 {
        Err(IpsError::UnexpectedEof)
    } else {
        let off = be24_at(d);
        if off == IPS_EOF_MARKER {
            Ok(t)
        } else if d.len() < 5 {
            Err(IpsError::UnexpectedEof)
        } else {
            let size = be16_at(d.skip(3));
            if size == 0 {
                if d.len() < 8 {
                    Err(IpsError::UnexpectedEof)
                } else {
                    let rle = be16_at(d.skip(5));
                    if off + rle <= t.len() {
                        ips_run(
                            d.skip(8),
                            overwrite(t, off as int, Seq::new(rle as nat, |i: int| d[7])),
                        )
                    } else {
                        Err(IpsError::IndexOutOfRange)
                    }
                }
            } else {
                if off + size > t.len() {
                    Err(IpsError::IndexOutOfRange)
                } else if d.len() < 5 + size {
                    Err(IpsError::UnexpectedEof)
                } else {
                    ips_run(d.skip(5 + size), overwrite(t, off as int, d.subrange(5, 5 + size)))
                }
            }
        }
    }
}

/// A parsed IPS patch, bound to the one source ROM in its directory.
#[derive(Debug, PartialEq, Eq)]
pub struct IpsPatch {
    pub source_path: Vec<u8>,
    pub patch_path: Vec<u8>,
    pub target_size: u64,
    pub truncated_size: Option<u64>,
}

#[verifier::ext_equal]
pub ghost struct IpsPatchView {
    pub source_path: Seq<u8>,
    pub patch_path: Seq<u8>,
    pub target_size: u64,
    pub truncated_size: Option<u64>,
}

impl View for IpsPatch {
    type V = IpsPatchView;

    open spec fn view(&self) -> IpsPatchView {
        IpsPatchView {
            source_path: self.source_path@,
            patch_path: self.patch_path@,
            target_size: self.target_size,
            truncated_size: self.truncated_size,
        }
    }
}

/// The size a materialised target will have: the truncation override when
/// present, the computed extent otherwise.
pub open spec fn spec_ips_target_size(p: IpsPatchView) -> u64 {
    match p.truncated_size {
        Some(t) => t,
        None => p.target_size,
    }
}

/// The result of parsing the patch file `d` found at `patch_path`, bound to
/// the source ROM at `source_path` whose length is `source_len`.
pub open spec fn spec_ips_parse(
    patch_path: Seq<u8>,
    source_path: Seq<u8>,
    source_len: u64,
    d: Seq<u8>,
) -> Result<IpsPatchView, IpsError> {
    if d.len() < 5 {
        Err(IpsError::UnexpectedEof)
    } else if !ips_marker_ok(d) {
        Err(IpsError::FormatMarker)
    } else {
        match ips_scan(d.skip(5), source_len as nat) {
            Err(e) => Err(e),
            Ok((extent, trunc)) => Ok(
                IpsPatchView {
                    source_path,
                    patch_path,
                    target_size: extent as u64,
                    truncated_size: match trunc {
                        Some(t) => Some(t as u64),
                        None => None,
                    },
                },
            ),
        }
    }
}

/// The result of materialising the patch `p` against the patch file bytes
/// `d` as they read now and the source ROM bytes `source`.
pub open spec fn spec_ips_patched_rom(p: IpsPatchView, d: Seq<u8>, source: Seq<u8>) -> Result<
    Seq<u8>,
    IpsError,
> {
    if d.len() < 5 {
        Err(IpsError::UnexpectedEof)
    } else if !ips_marker_ok(d) {
        Err(IpsError::FormatMarker)
    } else if p.target_size > usize::MAX {
        Err(IpsError::IndexOutOfRange)
    } else {
        match ips_run(d.skip(5), resize_seq(source, p.target_size as nat)) {
            Err(e) => Err(e),
            Ok(t) => match p.truncated_size {
                Some(ts) => if ts > usize::MAX {
                    Err(IpsError::IndexOutOfRange)
                } else {
                    Ok(resize_seq(t, ts as nat))
                },
                None => Ok(t),
            },
        }
    }
}

impl IpsPatch {
    /// Parse an IPS patch file read from `patch_path` as the bytes `data`,
    /// bound to the source ROM at `source_path` whose length is
    /// `source_len`: check the marker and compute the target size.
    #[verifier::loop_isolation(false)]
    pub fn new(patch_path: Vec<u8>, source_path: Vec<u8>, source_len: u64, data: &Vec<u8>) -> (r:
        Result<Self, IpsError>)
        ensures
            match r {
                Ok(p) => spec_ips_parse(patch_path@, source_path@, source_len, data@) == Ok::<
                    IpsPatchView,
                    IpsError,
                >(p@),
                Err(e) => spec_ips_parse(patch_path@, source_path@, source_len, data@) == Err::<
                    IpsPatchView,
                    IpsError,
                >(e),
            },
    {
        let ghost d = data@;
        if data.len() < 5 {
            return Err(IpsError::UnexpectedEof);
        }
        if !(data[0] == 0x50 && data[1] == 0x41 && data[2] == 0x54 && data[3] == 0x43 && data[4]
            == 0x48) {
            return Err(IpsError::FormatMarker);
        }
        let mut c = ByteCursor::new(data.as_slice());
        c.advance(5);
        let ghost goal = ips_scan(d.skip(5), source_len as nat);
        let mut acc: u64 = source_len;
        let mut trunc: Option<u64> = None;
        let mut done = false;
        while !done
            invariant
                c.inv(),
                c.base() == d,
                !done ==> goal == ips_scan(c.stream(), acc as nat),
                done ==> goal == Ok::<(nat, Option<nat>), IpsError>(
                    (
                        acc as nat,
                        match trunc {
                            Some(t) => Some(t as nat),
                            None => None,
                        },
                    ),
                ),
            decreases (if done { 0int } else { 1int }), c.stream().len(),
        {
            let ghost s0 = c.stream();
            let off = match c.read_u24_be() {
                Ok(v) => v,
                Err(_) => {
                    return Err(IpsError::UnexpectedEof);
                },
            };
            if off == IPS_EOF_MARKER {
                trunc = match c.read_u24_be() {
                    Ok(t) => Some(t as u64),
                    Err(_) => None,
                };
                done = true;
                continue ;
            }
            let size = match c.read_u16_be() {
                Ok(v) => v,
                Err(_) => {
                    return Err(IpsError::UnexpectedEof);
                },
            };
            if size == 0 {
                let rle = match c.read_u16_be() {
                    Ok(v) => v,
                    Err(_) => {
                        return Err(IpsError::UnexpectedEof);
                    },
                };
                match c.read_u8() {
                    Ok(_) => {},
                    Err(_) => {
                        return Err(IpsError::UnexpectedEof);
                    },
                };
                proof {
                    assert(c.stream() =~= s0.skip(8));
                }
                let ext = off as u64 + rle as u64;
                if ext > acc {
                    acc = ext;
                }
            } else {
                c.advance(size as usize);
                proof {
                    if 5 + size as int <= s0.len() {
                        assert(c.stream() =~= s0.skip(5 + size as int));
                    }
                }
                let ext = off as u64 + size as u64;
                if ext > acc {
                    acc = ext;
                }
            }
        }
        let p = IpsPatch { source_path, patch_path, target_size: acc, truncated_size: trunc };
        proof {
            assert(spec_ips_parse(p.patch_path@, p.source_path@, source_len, d) matches Ok(v) && v
                =~= p@);
        }
        Ok(p)
    }

    /// Materialise the target ROM from the patch file bytes as they read
    /// now and the source ROM bytes.
    #[verifier::loop_isolation(false)]
    pub fn materialise(&self, patch_data: &Vec<u8>, source: &Vec<u8>) -> (r: Result<
        Vec<u8>,
        IpsError,
    >)
        ensures
            match r {
                Ok(v) => spec_ips_patched_rom(self@, patch_data@, source@) == Ok::<
                    Seq<u8>,
                    IpsError,
                >(v@),
                Err(e) => spec_ips_patched_rom(self@, patch_data@, source@) == Err::<
                    Seq<u8>,
                    IpsError,
                >(e),
            },
    {
        let ghost d = patch_data@;
        if patch_data.len() < 5 {
            return Err(IpsError::UnexpectedEof);
        }
        if !(patch_data[0] == 0x50 && patch_data[1] == 0x41 && patch_data[2] == 0x54
            && patch_data[3] == 0x43 && patch_data[4] == 0x48) {
            return Err(IpsError::FormatMarker);
        }
        if self.target_size > usize::MAX as u64 {
            return Err(IpsError::IndexOutOfRange);
        }
        let mut target = clone_bytes(source);
        resize_bytes(&mut target, self.target_size as usize);
        let ghost t0 = resize_seq(source@, self.target_size as nat);
        let mut c = ByteCursor::new(patch_data.as_slice());
        c.advance(5);
        let ghost goal = ips_run(d.skip(5), t0);
        let mut done = false;
        while !done
            invariant
                c.inv(),
                c.base() == d,
                target@.len() == self.target_size as nat,
                !done ==> goal == ips_run(c.stream(), target@),
                done ==> goal == Ok::<Seq<u8>, IpsError>(target@),
            decreases (if done { 0int } else { 1int }), c.stream().len(),
        {
            let ghost s0 = c.stream();
            let ghost t_pre = target@;
            let off32 = match c.read_u24_be() {
                Ok(v) => v,
                Err(_) => {
                    return Err(IpsError::UnexpectedEof);
                },
            };
            if off32 == IPS_EOF_MARKER {
                done = true;
                continue ;
            }
            let off = off32 as usize;
            let size = match c.read_u16_be() {
                Ok(v) => v,
                Err(_) => {
                    return Err(IpsError::UnexpectedEof);
                },
            };
            if size == 0 {
                let rle = match c.read_u16_be() {
                    Ok(v) => v,
                    Err(_) => {
                        return Err(IpsError::UnexpectedEof);
                    },
                };
                let value = match c.read_u8() {
                    Ok(v) => v,
                    Err(_) => {
                        return Err(IpsError::UnexpectedEof);
                    },
                };
                proof {
                    assert(c.stream() =~= s0.skip(8));
                    assert(value == s0[7]);
                }
                if off > target.len() || rle as usize > target.len() - off {
                    return Err(IpsError::IndexOutOfRange);
                }
                fill_bytes(&mut target, off, rle as usize, value);
                proof {
                    assert(Seq::new(rle as nat, |i: int| value) =~= Seq::new(
                        rle as nat,
                        |i: int| s0[7],
                    ));
                    assert(target@ == overwrite(
                        t_pre,
                        off as int,
                        Seq::new(rle as nat, |i: int| s0[7]),
                    ));
                    assert(goal == ips_run(c.stream(), target@));
                }
            } else {
                if off > target.len() || size as usize > target.len() - off {
                    return Err(IpsError::IndexOutOfRange);
                }
                let payload = match c.read_exact(size as usize) {
                    Ok(p) => p,
                    Err(_) => {
                        return Err(IpsError::UnexpectedEof);
                    },
                };
                proof {
                    assert(c.stream() =~= s0.skip(5 + size as int));
                    assert(payload@ =~= s0.subrange(5, 5 + size as int));
                }
                copy_into(&mut target, off, payload.as_slice(), 0, size as usize);
                proof {
                    assert(payload@.subrange(0, size as int) =~= s0.subrange(5, 5 + size as int));
                    assert(target@ == overwrite(
                        t_pre,
                        off as int,
                        s0.subrange(5, 5 + size as int),
                    ));
                    assert(goal == ips_run(c.stream(), target@));
                }
            }
        }
        match self.truncated_size {
            Some(ts) => {
                if ts > usize::MAX as u64 {
                    return Err(IpsError::IndexOutOfRange);
                }
                resize_bytes(&mut target, ts as usize);
                Ok(target)
            },
            None => Ok(target),
        }
    }

    /// An identical copy.
    pub fn duplicate(&self) -> (r: Self)
        ensures
            r@ == self@,
    {
        IpsPatch {
            source_path: clone_bytes(&self.source_path),
            patch_path: clone_bytes(&self.patch_path),
            target_size: self.target_size,
            truncated_size: self.truncated_size,
        }
    }
}

impl crate::patch::Patch for IpsPatch {
    open spec fn spec_target_size(&self) -> u64 {
        spec_ips_target_size(self@)
    }

    open spec fn spec_patched_rom(&self, input: crate::patch::PatchInputView) -> Result<
        Seq<u8>,
        crate::patch::PatchError,
    > {
        match spec_ips_patched_rom(self@, input.patch_data, input.source_data) {
            Ok(t) => Ok(t),
            Err(e) => Err(crate::patch::PatchError::Ips(e)),
        }
    }

    fn target_size(&self) -> (r: u64) {
        match self.truncated_size {
            Some(t) => t,
            None => self.target_size,
        }
    }

    fn patched_rom(&self, input: &crate::patch::PatchInput) -> (r: Result<
        Vec<u8>,
        crate::patch::PatchError,
    >) {
        match self.materialise(&input.patch_data, &input.source_data) {
            Ok(v) => Ok(v),
            Err(e) => Err(crate::patch::PatchError::Ips(e)),
        }
    }
}

/// Law: the declared target size is the truncation override when one is
/// present; otherwise it is the largest extent any record writes, but never
/// less than the source ROM's length.
pub proof fn lemma_ips_extent_law(
    patch_path: Seq<u8>,
    source_path: Seq<u8>,
    source_len: u64,
    d: Seq<u8>,
)
    ensures
        spec_ips_parse(patch_path, source_path, source_len, d) matches Ok(p) ==> (ips_records(
            d.skip(5),
        ) matches Ok(r) && spec_ips_target_size(p) as nat == match p.truncated_size {
            Some(t) => t as nat,
            None => nat_max(source_len as nat, ips_records_extent(r.0)),
        }),
{
    if d.len() >= 5 && ips_marker_ok(d) {
        lemma_ips_scan_records(d.skip(5), source_len as nat);
        lemma_ips_records_extent_bound(d.skip(5));
    }
}

} // verus!
