pub mod bps;
pub mod ips;

use crate::patch::bps::BpsError;
use crate::patch::bps::BpsPatch;
use crate::patch::bps::BpsPatchView;
use crate::patch::ips::IpsError;
use crate::patch::ips::IpsPatch;
use crate::patch::ips::IpsPatchView;
use vstd::prelude::*;

verus! {

/// A file modification timestamp: seconds and nanoseconds since the epoch.
#[derive(Clone, Copy, Debug, PartialEq, Eq, Structural)]
pub struct ModTime {
    pub secs: u64,
    pub nanos: u32,
}

/// What a patch needs to materialise its target: the patch file as it reads
/// now, the modification time observed with it, and the source ROM bytes.
pub struct PatchInput {
    pub patch_data: Vec<u8>,
    pub patch_modified: ModTime,
    pub source_data: Vec<u8>,
}

pub ghost struct PatchInputView {
    pub patch_data: Seq<u8>,
    pub patch_modified: ModTime,
    pub source_data: Seq<u8>,
}

impl View for PatchInput {
    type V = PatchInputView;

    open spec fn view(&self) -> PatchInputView {
        PatchInputView {
            patch_data: self.patch_data@,
            patch_modified: self.patch_modified,
            source_data: self.source_data@,
        }
    }
}

/// Why a patch could not be parsed or materialised.
#[derive(Clone, Copy, Debug, PartialEq, Eq)]
pub enum PatchError {
    Bps(BpsError),
    Ips(IpsError),
}

/// The uniform face of a patch: the size of the target it will produce, and
/// the production itself.
pub trait Patch {
    /// The size of the target ROM this patch yields.
    spec fn spec_target_size(&self) -> u64;

    /// What materialisation returns for the given inputs.
    spec fn spec_patched_rom(&self, input: PatchInputView) -> Result<Seq<u8>, PatchError>;

    fn target_size(&self) -> (r: u64)
        ensures
            r == self.spec_target_size(),
    ;

    fn patched_rom(&self, input: &PatchInput) -> (r: Result<Vec<u8>, PatchError>)
        ensures
            match r {
                Ok(v) => self.spec_patched_rom(input@) == Ok::<Seq<u8>, PatchError>(v@),
                Err(e) => self.spec_patched_rom(input@) == Err::<Seq<u8>, PatchError>(e),
            },
    ;
}

/// A patch of either supported format.
#[derive(Debug, PartialEq, Eq)]
pub enum RomPatch {
    Bps(BpsPatch),
    Ips(IpsPatch),
}

pub ghost enum RomPatchView {
    Bps(BpsPatchView),
    Ips(IpsPatchView),
}

impl View for RomPatch {
    type V = RomPatchView;

    open spec fn view(&self) -> RomPatchView {
        match self {
            RomPatch::Bps(p) => RomPatchView::Bps(p@),
            RomPatch::Ips(p) => RomPatchView::Ips(p@),
        }
    }
}

/// The size of the target a patch will produce, read off its view.
pub open spec fn spec_rom_patch_target_size(p: RomPatchView) -> u64 {
    match p {
        RomPatchView::Bps(b) => b.target_size,
        RomPatchView::Ips(i) => crate::patch::ips::spec_ips_target_size(i),
    }
}

impl RomPatch {
    /// An identical copy.
    pub fn duplicate(&self) -> (r: Self)
        ensures
            r@ == self@,
    {
        match self {
            RomPatch::Bps(p) => RomPatch::Bps(p.duplicate()),
            RomPatch::Ips(p) => RomPatch::Ips(p.duplicate()),
        }
    }
}

impl Patch for RomPatch {
    open spec fn spec_target_size(&self) -> u64 {
        spec_rom_patch_target_size(self@)
    }

    open spec fn spec_patched_rom(&self, input: PatchInputView) -> Result<Seq<u8>, PatchError> {
        match self {
            RomPatch::Bps(p) => p.spec_patched_rom(input),
            RomPatch::Ips(p) => p.spec_patched_rom(input),
        }
    }

    fn target_size(&self) -> (r: u64) {
        match self {
            RomPatch::Bps(p) => p.target_size(),
            RomPatch::Ips(p) => p.target_size(),
        }
    }

    fn patched_rom(&self, input: &PatchInput) -> (r: Result<Vec<u8>, PatchError>) {
        match self {
            RomPatch::Bps(p) => p.patched_rom(input),
            RomPatch::Ips(p) => p.patched_rom(input),
        }
    }
}

} // verus!
