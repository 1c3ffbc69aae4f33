use crate::patch::spec_rom_patch_target_size;
use crate::patch::Patch;
use crate::patch::RomPatch;
use crate::patch::RomPatchView;
use crate::rom_manager::RomManager;
use crate::utils::bytes_range;
use crate::utils::clone_bytes;
use vstd::prelude::*;

verus! {

/// No such file or directory, as POSIX numbers it.
pub const ENOENT: i32 = 2;

/// An input error, as POSIX numbers it.
pub const EIO: i32 = 5;

/// What kind of node a directory entry or attribute describes.
#[derive(Clone, Copy, Debug, PartialEq, Eq, Structural)]
pub enum FileKind {
    Directory,
    RegularFile,
}

/// A point in time, seconds and nanoseconds.
#[derive(Clone, Copy, Debug, PartialEq, Eq, Structural)]
pub struct TimeSpec {
    pub sec: i64,
    pub nsec: i32,
}

/// The attributes the filesystem reports for a node.
#[derive(Clone, Copy, Debug, PartialEq, Eq, Structural)]
pub struct FileAttr {
    pub size: u64,
    pub blocks: u64,
    pub atime: TimeSpec,
    pub mtime: TimeSpec,
    pub ctime: TimeSpec,
    pub crtime: TimeSpec,
    pub kind: FileKind,
    pub perm: u16,
    pub nlink: u32,
    pub uid: u32,
    pub gid: u32,
    pub rdev: u32,
    pub flags: u32,
}

pub open spec fn spec_epoch() -> TimeSpec {
    TimeSpec { sec: 0, nsec: 0 }
}

/// The attributes of the mount root: a read-only directory, timestamps at
/// the epoch, owned by the given user and group.
pub open spec fn spec_root_attr(uid: u32, gid: u32) -> FileAttr {
    FileAttr {
        size: 0,
        blocks: 0,
        atime: spec_epoch(),
        mtime: spec_epoch(),
        ctime: spec_epoch(),
        crtime: spec_epoch(),
        kind: FileKind::Directory,
        perm: 0o444,
        nlink: 1,
        uid,
        gid,
        rdev: 0,
        flags: 0,
    }
}

/// The attributes of a visible file: a read-only regular file as large as
/// the target the patch will produce.
pub open spec fn spec_file_attr(p: RomPatchView, uid: u32, gid: u32) -> FileAttr {
    FileAttr {
        size: spec_rom_patch_target_size(p),
        blocks: 0,
        atime: spec_epoch(),
        mtime: spec_epoch(),
        ctime: spec_epoch(),
        crtime: spec_epoch(),
        kind: FileKind::RegularFile,
        perm: 0o444,
        nlink: 1,
        uid,
        gid,
        rdev: 0,
        flags: 0,
    }
}

/// An open node: the mount root, or a visible file together with the patch
/// it was opened against and the target bytes once they are materialised.
pub enum Handle {
    Directory { attr: FileAttr },
    File { attr: FileAttr, patch: RomPatch, data: Option<Vec<u8>> },
}

pub ghost enum HandleView {
    Directory { attr: FileAttr },
    File { attr: FileAttr, patch: RomPatchView, data: Option<Seq<u8>> },
}

impl View for Handle {
    type V = HandleView;

    open spec fn view(&self) -> HandleView {
        match self {
            Handle::Directory { attr } => HandleView::Directory { attr: *attr },
            Handle::File { attr, patch, data } => HandleView::File {
                attr: *attr,
                patch: patch@,
                data: match data {
                    Some(d) => Some(d@),
                    None => None,
                },
            },
        }
    }
}

/// The attributes stored in a handle.
pub open spec fn handle_attr(h: HandleView) -> FileAttr {
    match h {
        HandleView::Directory { attr } => attr,
        HandleView::File { attr, .. } => attr,
    }
}

pub open spec fn handle_keys_unique(s: Seq<(u64, Handle)>) -> bool {
    forall|i: int, j: int| 0 <= i < j < s.len() ==> s[i].0 != s[j].0
}

/// The handles `s` holds, as a map from identifier to handle.
pub open spec fn map_of(s: Seq<(u64, Handle)>) -> Map<u64, HandleView>
    decreases s.len(),
{
    if s.len() == 0 {
        Map::empty()
    } else {
        map_of(s.drop_last()).insert(s.last().0, s.last().1@)
    }
}

proof fn lemma_map_of_present(s: Seq<(u64, Handle)>, i: int)
    requires
        0 <= i < s.len(),
    ensures
        map_of(s).contains_key(s[i].0),
    decreases s.len(),
{
    if i < s.len() - 1 {
        lemma_map_of_present(s.drop_last(), i);
    }
}

proof fn lemma_map_of_at(s: Seq<(u64, Handle)>, i: int)
    requires
        0 <= i < s.len(),
        handle_keys_unique(s),
        forall|j: int| i < j < s.len() ==> s[j].0 != s[i].0,
    ensures
        map_of(s).contains_key(s[i].0),
        map_of(s)[s[i].0] == s[i].1@,
    decreases s.len(),
{
    if i < s.len() - 1 {
        lemma_map_of_at(s.drop_last(), i);
    }
}

proof fn lemma_map_of_absent(s: Seq<(u64, Handle)>, k: u64)
    requires
        forall|i: int| 0 <= i < s.len() ==> s[i].0 != k,
    ensures
        !map_of(s).contains_key(k),
    decreases s.len(),
{
    if s.len() > 0 {
        lemma_map_of_absent(s.drop_last(), k);
    }
}

proof fn lemma_map_of_remove(s: Seq<(u64, Handle)>, i: int)
    requires
        0 <= i < s.len(),
        handle_keys_unique(s),
    ensures
        map_of(s.remove(i)) == map_of(s).remove(s[i].0),
    decreases s.len(),
{
    if i == s.len() - 1 {
        assert(s.remove(i) =~= s.drop_last());
        assert(forall|j: int| 0 <= j < s.len() - 1 ==> s[j].0 != s[i].0);
        lemma_map_of_absent(s.drop_last(), s[i].0);
        assert(map_of(s.drop_last()) =~= map_of(s.drop_last()).insert(
            s.last().0,
            s.last().1@,
        ).remove(s[i].0));
    } else {
        assert(s.remove(i).drop_last() =~= s.drop_last().remove(i));
        assert(s.remove(i).last() == s.last());
        lemma_map_of_remove(s.drop_last(), i);
        assert(s[i].0 != s.last().0);
        assert(map_of(s.drop_last()).remove(s[i].0).insert(s.last().0, s.last().1@) =~= map_of(
            s.drop_last(),
        ).insert(s.last().0, s.last().1@).remove(s[i].0));
        assert(map_of(s.remove(i)) == map_of(s.remove(i).drop_last()).insert(
            s.last().0,
            s.last().1@,
        ));
    }
}

/// The table of open handles, keyed by their identifiers.
pub struct HandleTable {
    pub entries: Vec<(u64, Handle)>,
}

impl View for HandleTable {
    type V = Map<u64, HandleView>;

    open spec fn view(&self) -> Map<u64, HandleView> {
        map_of(self.entries@)
    }
}

impl HandleTable {
    pub open spec fn wf(&self) -> bool {
        handle_keys_unique(self.entries@)
    }

    /// Every identifier in the table is below `bound`.
    pub open spec fn keys_below(&self, bound: u64) -> bool {
        forall|i: int| 0 <= i < self.entries@.len() ==> self.entries@[i].0 < bound
    }

    /// An empty table.
    pub fn new() -> (r: Self)
        ensures
            r@ == Map::<u64, HandleView>::empty(),
            r.wf(),
            r.entries@.len() == 0,
    {
        HandleTable { entries: Vec::new() }
    }

    /// Store a handle under a fresh identifier.
    pub fn insert(&mut self, k: u64, h: Handle)
        requires
            old(self).wf(),
            forall|i: int| 0 <= i < old(self).entries@.len() ==> old(self).entries@[i].0 != k,
        ensures
            final(self).wf(),
            final(self)@ == old(self)@.insert(k, h@),
            final(self).entries@ == old(self).entries@.push((k, h)),
    {
        let ghost hv = h@;
        let ghost pre = self.entries@;
        self.entries.push((k, h));
        proof {
            assert(self.entries@.drop_last() =~= pre);
        }
    }

    /// The handle stored under `k`, if one is.
    pub fn get(&self, k: u64) -> (r: Option<&Handle>)
        requires
            self.wf(),
        ensures
            match r {
                Some(h) => self@.contains_key(k) && self@[k] == h@,
                None => !self@.contains_key(k),
            },
    {
        let n = self.entries.len();
        let mut i: usize = 0;
        while i < n
            invariant
                i <= n,
                n == self.entries@.len(),
                self.wf(),
                forall|j: int| 0 <= j < i ==> self.entries@[j].0 != k,
            decreases n - i,
        {
            if self.entries[i].0 == k {
                proof {
                    lemma_map_of_at(self.entries@, i as int);
                }
                return Some(&self.entries[i].1);
            }
            i = i + 1;
        }
        proof {
            lemma_map_of_absent(self.entries@, k);
        }
        None
    }

    /// Take the handle stored under `k` out of the table.
    pub fn remove(&mut self, k: u64) -> (r: Option<Handle>)
        requires
            old(self).wf(),
        ensures
            final(self).wf(),
            final(self)@ == old(self)@.remove(k),
            match r {
                Some(h) => old(self)@.contains_key(k) && old(self)@[k] == h@ && final(self).entries@.len()
                    + 1 == old(self).entries@.len(),
                None => !old(self)@.contains_key(k) && final(self).entries@ == old(self).entries@,
            },
            forall|b: u64| old(self).keys_below(b) ==> final(self).keys_below(b),
            r is Some ==> forall|b: u64| old(self).keys_below(b) ==> k < b,
    {
        let n = self.entries.len();
        let mut i: usize = 0;
        while i < n
            invariant
                i <= n,
                n == self.entries@.len(),
                self == old(self),
                self.wf(),
                forall|j: int| 0 <= j < i ==> self.entries@[j].0 != k,
            decreases n - i,
        {
            if self.entries[i].0 == k {
                proof {
                    lemma_map_of_at(self.entries@, i as int);
                    lemma_map_of_remove(self.entries@, i as int);
                    assert forall|b: u64| old(self).keys_below(b) implies k < b by {
                        assert(old(self).entries@[i as int].0 == k);
                    }
                }
                let ghost pre = self.entries@;
                let (_, h) = self.entries.remove(i);
                proof {
                    assert(self.entries@ =~= pre.remove(i as int));
                }
                return Some(h);
            }
            i = i + 1;
        }
        proof {
            lemma_map_of_absent(self.entries@, k);
            assert(map_of(self.entries@) =~= map_of(self.entries@).remove(k));
        }
        None
    }
}

/// One entry a directory listing reports.
pub struct DirEntryOut {
    pub name: Vec<u8>,
    pub kind: FileKind,
}

#[verifier::ext_equal]
pub ghost struct DirEntryOutView {
    pub name: Seq<u8>,
    pub kind: FileKind,
}

impl View for DirEntryOut {
    type V = DirEntryOutView;

    open spec fn view(&self) -> DirEntryOutView {
        DirEntryOutView { name: self.name@, kind: self.kind }
    }
}

pub open spec fn dir_entries_view(v: Seq<DirEntryOut>) -> Seq<DirEntryOutView> {
    v.map_values(|d: DirEntryOut| d@)
}

/// A path as the kernel bridge hands it, with its leading slash removed.
pub open spec fn spec_strip_root(p: Seq<u8>) -> Seq<u8> {
    if p.len() > 0 && p[0] == 0x2f {
        p.skip(1)
    } else {
        p
    }
}

/// Strip the leading slash from a path.
pub fn strip_root(p: &Vec<u8>) -> (r: Vec<u8>)
    ensures
        r@ == spec_strip_root(p@),
{
    if p.len() > 0 && p[0] == 0x2f {
        bytes_range(p, 1, p.len())
    } else {
        clone_bytes(p)
    }
}

/// The read-only filesystem over the index: the current snapshot, the open
/// handles, and the next handle identifier to hand out.
pub struct RomFilesystem {
    pub manager: RomManager,
    pub handles: HandleTable,
    pub next_handle: u64,
}

/// What listing the root directory through the handle `fh` returns.
pub open spec fn spec_readdir(fs: RomFilesystem, fh: u64) -> Result<Seq<DirEntryOutView>, i32> {
    if fs.handles@.contains_key(fh) && fs.handles@[fh] is Directory {
        Ok(
            seq![
                DirEntryOutView { name: seq![0x2eu8], kind: FileKind::Directory },
                DirEntryOutView { name: seq![0x2eu8, 0x2eu8], kind: FileKind::Directory },
            ] + fs.manager.target_roms@.map_values(
                |p: (Seq<u8>, RomPatchView)| DirEntryOutView { name: p.0, kind: FileKind::RegularFile },
            ),
        )
    } else {
        Err(ENOENT)
    }
}

/// What reading `size` bytes at `offset` through the handle `fh` returns:
/// the slice of the materialised bytes clipped to their end, the empty
/// slice past it; an input error while the bytes are not there; no such
/// file for anything that is not an open file handle.
pub open spec fn spec_read(fs: RomFilesystem, fh: u64, offset: u64, size: u32) -> Result<
    Seq<u8>,
    i32,
> {
    if fs.handles@.contains_key(fh) && fs.handles@[fh] is File {
        match fs.handles@[fh]->File_data {
            Some(d) => Ok(
                if offset > d.len() {
                    Seq::empty()
                } else if offset + size <= d.len() {
                    d.subrange(offset as int, offset + size)
                } else {
                    d.subrange(offset as int, d.len() as int)
                },
            ),
            None => Err(EIO),
        }
    } else {
        Err(ENOENT)
    }
}

impl RomFilesystem {
    /// The handle table is consistent and every issued identifier is below
    /// the next one.
    pub open spec fn wf(&self) -> bool {
        &&& self.handles.wf()
        &&& self.handles.keys_below(self.next_handle)
    }

    /// A filesystem over the given index, with no open handles; handle
    /// identifiers start at one.
    pub fn new(manager: RomManager) -> (r: Self)
        ensures
            r.wf(),
            r.manager == manager,
            r.handles@ == Map::<u64, HandleView>::empty(),
            r.next_handle == 1u64,
    {
        RomFilesystem { manager, handles: HandleTable::new(), next_handle: 1 }
    }

    /// Mounting needs no work.
    pub fn init(&self) -> (r: Result<(), i32>)
        ensures
            r == Ok::<(), i32>(()),
    {
        Ok(())
    }

    /// Everything readable may be accessed.
    pub fn access(&self) -> (r: Result<(), i32>)
        ensures
            r == Ok::<(), i32>(()),
    {
        Ok(())
    }

    /// The attributes of the mount root.
    pub fn get_root_attr(&self, uid: u32, gid: u32) -> (r: FileAttr)
        ensures
            r == spec_root_attr(uid, gid),
    {
        FileAttr {
            size: 0,
            blocks: 0,
            atime: TimeSpec { sec: 0, nsec: 0 },
            mtime: TimeSpec { sec: 0, nsec: 0 },
            ctime: TimeSpec { sec: 0, nsec: 0 },
            crtime: TimeSpec { sec: 0, nsec: 0 },
            kind: FileKind::Directory,
            perm: 0o444,
            nlink: 1,
            uid,
            gid,
            rdev: 0,
            flags: 0,
        }
    }

    /// The attributes of a visible file.
    pub fn get_file_attr(&self, patch: &RomPatch, uid: u32, gid: u32) -> (r: FileAttr)
        ensures
            r == spec_file_attr(patch@, uid, gid),
    {
        FileAttr {
            size: patch.target_size(),
            blocks: 0,
            atime: TimeSpec { sec: 0, nsec: 0 },
            mtime: TimeSpec { sec: 0, nsec: 0 },
            ctime: TimeSpec { sec: 0, nsec: 0 },
            crtime: TimeSpec { sec: 0, nsec: 0 },
            kind: FileKind::RegularFile,
            perm: 0o444,
            nlink: 1,
            uid,
            gid,
            rdev: 0,
            flags: 0,
        }
    }

    /// Open the mount root; any other path has no directory.
    pub fn opendir(&mut self, path: &Vec<u8>, uid: u32, gid: u32) -> (r: Result<u64, i32>)
        requires
            old(self).wf(),
            old(self).next_handle < u64::MAX,
        ensures
            final(self).wf(),
            final(self).manager == old(self).manager,
            if spec_strip_root(path@).len() == 0 {
                &&& r == Ok::<u64, i32>(old(self).next_handle)
                &&& final(self).next_handle == old(self).next_handle + 1
                &&& final(self).handles@ == old(self).handles@.insert(
                    old(self).next_handle,
                    HandleView::Directory { attr: spec_root_attr(uid, gid) },
                )
            } else {
                &&& r == Err::<u64, i32>(ENOENT)
                &&& final(self).next_handle == old(self).next_handle
                &&& final(self).handles@ == old(self).handles@
            },
    {
        let stripped = strip_root(path);
        if stripped.len() == 0 {
            let fh = self.next_handle;
            self.next_handle = self.next_handle + 1;
            let attr = self.get_root_attr(uid, gid);
            self.handles.insert(fh, Handle::Directory { attr });
            Ok(fh)
        } else {
            Err(ENOENT)
        }
    }

    /// List the root directory: the dot entries and one regular file per
    /// visible name of the current snapshot, in publication order.
    pub fn readdir(&self, fh: u64) -> (r: Result<Vec<DirEntryOut>, i32>)
        requires
            self.wf(),
        ensures
            match r {
                Ok(v) => spec_readdir(*self, fh) == Ok::<Seq<DirEntryOutView>, i32>(
                    dir_entries_view(v@),
                ),
                Err(e) => spec_readdir(*self, fh) == Err::<Seq<DirEntryOutView>, i32>(e),
            },
    {
        let is_dir = match self.handles.get(fh) {
            Some(h) => match h {
                Handle::Directory { .. } => true,
                _ => false,
            },
            None => false,
        };
        if !is_dir {
            return Err(ENOENT);
        }
        let mut files: Vec<DirEntryOut> = Vec::new();
        let mut dot: Vec<u8> = Vec::new();
        dot.push(0x2e);
        let mut dotdot: Vec<u8> = Vec::new();
        dotdot.push(0x2e);
        dotdot.push(0x2e);
        proof {
            assert(dot@ =~= seq![0x2eu8]);
            assert(dotdot@ =~= seq![0x2eu8, 0x2eu8]);
        }
        files.push(DirEntryOut { name: dot, kind: FileKind::Directory });
        files.push(DirEntryOut { name: dotdot, kind: FileKind::Directory });
        let n = self.manager.target_roms.entries.len();
        let mut i: usize = 0;
        while i < n
            invariant
                i <= n,
                n == self.manager.target_roms@.len(),
                n == self.manager.target_roms.entries@.len(),
                dir_entries_view(files@).len() == 2 + i,
                dir_entries_view(files@)[0] == (DirEntryOutView {
                    name: seq![0x2eu8],
                    kind: FileKind::Directory,
                }),
                dir_entries_view(files@)[1] == (DirEntryOutView {
                    name: seq![0x2eu8, 0x2eu8],
                    kind: FileKind::Directory,
                }),
                forall|j: int|
                    0 <= j < i ==> dir_entries_view(files@)[2 + j] == (DirEntryOutView {
                        name: self.manager.target_roms@[j].0,
                        kind: FileKind::RegularFile,
                    }),
            decreases n - i,
        {
            let name = clone_bytes(&self.manager.target_roms.entries[i].0);
            files.push(DirEntryOut { name, kind: FileKind::RegularFile });
            i = i + 1;
        }
        proof {
            assert(dir_entries_view(files@) =~= spec_readdir(*self, fh)->Ok_0);
        }
        Ok(files)
    }

    /// Drop a directory handle.
    pub fn releasedir(&mut self, fh: u64) -> (r: Result<(), i32>)
        requires
            old(self).wf(),
        ensures
            final(self).wf(),
            final(self).manager == old(self).manager,
            final(self).next_handle == old(self).next_handle,
            if old(self).handles@.contains_key(fh) && old(self).handles@[fh] is Directory {
                r == Ok::<(), i32>(()) && final(self).handles@ == old(self).handles@.remove(fh)
            } else {
                r == Err::<(), i32>(ENOENT) && final(self).handles@ == old(self).handles@
            },
    {
        let is_dir = match self.handles.get(fh) {
            Some(h) => match h {
                Handle::Directory { .. } => true,
                _ => false,
            },
            None => false,
        };
        if is_dir {
            let _ = self.handles.remove(fh);
            Ok(())
        } else {
            Err(ENOENT)
        }
    }

    /// The attributes of the node a handle or a path names.
    pub fn getattr(&self, path: &Vec<u8>, fh: Option<u64>, uid: u32, gid: u32) -> (r: Result<
        FileAttr,
        i32,
    >)
        requires
            self.wf(),
        ensures
            match fh {
                Some(h) => if self.handles@.contains_key(h) {
                    r == Ok::<FileAttr, i32>(handle_attr(self.handles@[h]))
                } else {
                    r == Err::<FileAttr, i32>(ENOENT)
                },
                None => {
                    let stripped = spec_strip_root(path@);
                    if stripped.len() == 0 {
                        r == Ok::<FileAttr, i32>(spec_root_attr(uid, gid))
                    } else {
                        match crate::rom_manager::tgt_find(self.manager.target_roms@, stripped) {
                            Some(p) => r == Ok::<FileAttr, i32>(spec_file_attr(p, uid, gid)),
                            None => r == Err::<FileAttr, i32>(ENOENT),
                        }
                    }
                },
            },
    {
        match fh {
            Some(h) => match self.handles.get(h) {
                Some(handle) => match handle {
                    Handle::Directory { attr } => Ok(*attr),
                    Handle::File { attr, .. } => Ok(*attr),
                },
                None => Err(ENOENT),
            },
            None => {
                let stripped = strip_root(path);
                if stripped.len() == 0 {
                    Ok(self.get_root_attr(uid, gid))
                } else {
                    match self.manager.target_roms.get(&stripped) {
                        Some(p) => Ok(self.get_file_attr(p, uid, gid)),
                        None => Err(ENOENT),
                    }
                }
            },
        }
    }

    /// Open a visible file: capture the patch it is bound to, with no
    /// materialised bytes yet.
    pub fn open(&mut self, path: &Vec<u8>, uid: u32, gid: u32) -> (r: Result<u64, i32>)
        requires
            old(self).wf(),
            old(self).next_handle < u64::MAX,
        ensures
            final(self).wf(),
            final(self).manager == old(self).manager,
            match crate::rom_manager::tgt_find(
                old(self).manager.target_roms@,
                spec_strip_root(path@),
            ) {
                Some(p) => {
                    &&& r == Ok::<u64, i32>(old(self).next_handle)
                    &&& final(self).next_handle == old(self).next_handle + 1
                    &&& final(self).handles@ == old(self).handles@.insert(
                        old(self).next_handle,
                        HandleView::File {
                            attr: spec_file_attr(p, uid, gid),
                            patch: p,
                            data: None,
                        },
                    )
                },
                None => {
                    &&& r == Err::<u64, i32>(ENOENT)
                    &&& final(self).next_handle == old(self).next_handle
                    &&& final(self).handles@ == old(self).handles@
                },
            },
    {
        let stripped = strip_root(path);
        let found: Option<RomPatch> = match self.manager.target_roms.get(&stripped) {
            Some(p) => Some(p.duplicate()),
            None => None,
        };
        match found {
            Some(patch) => {
                let fh = self.next_handle;
                self.next_handle = self.next_handle + 1;
                let attr = self.get_file_attr(&patch, uid, gid);
                self.handles.insert(fh, Handle::File { attr, patch, data: None });
                Ok(fh)
            },
            None => Err(ENOENT),
        }
    }

    /// The patch to materialise before the first read through `fh` can be
    /// served: the bound patch while no bytes are stored, nothing once they
    /// are.
    pub fn read_prepare(&self, fh: u64) -> (r: Result<Option<RomPatch>, i32>)
        requires
            self.wf(),
        ensures
            if self.handles@.contains_key(fh) && self.handles@[fh] is File {
                match self.handles@[fh]->File_data {
                    Some(_) => r == Ok::<Option<RomPatch>, i32>(None),
                    None => r matches Ok(Some(p)) && p@ == self.handles@[fh]->File_patch,
                }
            } else {
                r == Err::<Option<RomPatch>, i32>(ENOENT)
            },
    {
        match self.handles.get(fh) {
            Some(h) => match h {
                Handle::File { patch, data, .. } => {
                    if data.is_none() {
                        Ok(Some(patch.duplicate()))
                    } else {
                        Ok(None)
                    }
                },
                _ => Err(ENOENT),
            },
            None => Err(ENOENT),
        }
    }

    /// Publish materialised bytes into the handle.  Bytes already stored
    /// stay: the first materialisation wins and later ones change nothing.
    pub fn store_data(&mut self, fh: u64, bytes: Vec<u8>) -> (r: Result<(), i32>)
        requires
            old(self).wf(),
        ensures
            final(self).wf(),
            final(self).manager == old(self).manager,
            final(self).next_handle == old(self).next_handle,
            if old(self).handles@.contains_key(fh) && old(self).handles@[fh] is File {
                &&& r == Ok::<(), i32>(())
                &&& final(self).handles@ == old(self).handles@.insert(
                    fh,
                    HandleView::File {
                        attr: old(self).handles@[fh]->File_attr,
                        patch: old(self).handles@[fh]->File_patch,
                        data: match old(self).handles@[fh]->File_data {
                            Some(d) => Some(d),
                            None => Some(bytes@),
                        },
                    },
                )
            } else {
                r == Err::<(), i32>(ENOENT) && final(self).handles@ == old(self).handles@
            },
    {
        let ghost pre = self.handles@;
        match self.handles.remove(fh) {
            Some(h) => match h {
                Handle::File { attr, patch, data } => {
                    let stored = match data {
                        Some(d) => Some(d),
                        None => Some(bytes),
                    };
                    proof {
                        assert forall|i: int|
                            0 <= i < self.handles.entries@.len() implies self.handles.entries@[i].0
                            != fh by {
                            if self.handles.entries@[i].0 == fh {
                                lemma_map_of_present(self.handles.entries@, i);
                            }
                        }
                    }
                    self.handles.insert(fh, Handle::File { attr, patch, data: stored });
                    proof {
                        assert(self.handles@ =~= pre.insert(
                            fh,
                            HandleView::File {
                                attr: pre[fh]->File_attr,
                                patch: pre[fh]->File_patch,
                                data: match pre[fh]->File_data {
                                    Some(d) => Some(d),
                                    None => Some(bytes@),
                                },
                            },
                        ));
                    }
                    Ok(())
                },
                other => {
                    proof {
                        assert forall|i: int|
                            0 <= i < self.handles.entries@.len() implies self.handles.entries@[i].0
                            != fh by {
                            if self.handles.entries@[i].0 == fh {
                                lemma_map_of_present(self.handles.entries@, i);
                            }
                        }
                    }
                    self.handles.insert(fh, other);
                    proof {
                        assert(self.handles@ =~= pre);
                    }
                    Err(ENOENT)
                },
            },
            None => Err(ENOENT),
        }
    }

    /// Serve a read through `fh` from the stored bytes.
    pub fn read(&self, fh: u64, offset: u64, size: u32) -> (r: Result<Vec<u8>, i32>)
        requires
            self.wf(),
        ensures
            match r {
                Ok(v) => spec_read(*self, fh, offset, size) == Ok::<Seq<u8>, i32>(v@),
                Err(e) => spec_read(*self, fh, offset, size) == Err::<Seq<u8>, i32>(e),
            },
    {
        match self.handles.get(fh) {
            Some(h) => match h {
                Handle::File { data: Some(d), .. } => {
                    if offset > d.len() as u64 {
                        Ok(Vec::new())
                    } else {
                        let off = offset as usize;
                        let end = if (d.len() - off) as u64 >= size as u64 {
                            off + size as usize
                        } else {
                            d.len()
                        };
                        Ok(bytes_range(d, off, end))
                    }
                },
                Handle::File { data: None, .. } => Err(EIO),
                _ => Err(ENOENT),
            },
            None => Err(ENOENT),
        }
    }

    /// Drop a file handle.
    pub fn release(&mut self, fh: u64) -> (r: Result<(), i32>)
        requires
            old(self).wf(),
        ensures
            final(self).wf(),
            final(self).manager == old(self).manager,
            final(self).next_handle == old(self).next_handle,
            if old(self).handles@.contains_key(fh) && old(self).handles@[fh] is File {
                r == Ok::<(), i32>(()) && final(self).handles@ == old(self).handles@.remove(fh)
            } else {
                r == Err::<(), i32>(ENOENT) && final(self).handles@ == old(self).handles@
            },
    {
        let is_file = match self.handles.get(fh) {
            Some(h) => match h {
                Handle::File { .. } => true,
                _ => false,
            },
            None => false,
        };
        if is_file {
            let _ = self.handles.remove(fh);
            Ok(())
        } else {
            Err(ENOENT)
        }
    }
}

/// Law: after a refresh published a snapshot, listing the root directory
/// returns the dot entries and exactly one regular file per key of that
/// snapshot, in order.
pub proof fn lemma_readdir_lists_snapshot(fs: RomFilesystem, fh: u64)
    requires
        fs.handles@.contains_key(fh),
        fs.handles@[fh] is Directory,
    ensures
        spec_readdir(fs, fh) matches Ok(v) && v.len() == 2 + fs.manager.target_roms@.len() && v[0]
            == (DirEntryOutView { name: seq![0x2eu8], kind: FileKind::Directory }) && v[1] == (
        DirEntryOutView { name: seq![0x2eu8, 0x2eu8], kind: FileKind::Directory }) && forall|i: int|
            0 <= i < fs.manager.target_roms@.len() ==> v[2 + i] == (DirEntryOutView {
                name: fs.manager.target_roms@[i].0,
                kind: FileKind::RegularFile,
            }),
{
}

/// Law: reads through an open handle serve the stored materialised bytes,
/// clipped to their end; a read past the end is empty, not an error.
pub proof fn lemma_read_serves_stored_bytes(fs: RomFilesystem, fh: u64, offset: u64, size: u32)
    requires
        fs.handles@.contains_key(fh),
        fs.handles@[fh] is File,
        fs.handles@[fh]->File_data is Some,
    ensures
        ({
            let d = fs.handles@[fh]->File_data->Some_0;
            spec_read(fs, fh, offset, size) == Ok::<Seq<u8>, i32>(
                if offset > d.len() {
                    Seq::<u8>::empty()
                } else if offset + size <= d.len() {
                    d.subrange(offset as int, offset + size)
                } else {
                    d.subrange(offset as int, d.len() as int)
                },
            )
        }),
{
}

/// Law: what a read through a handle returns depends on the handle table
/// alone; swapping the snapshot, as a refresh does, changes no read through
/// a handle that stays open.
pub proof fn lemma_read_ignores_snapshot(
    fs1: RomFilesystem,
    fs2: RomFilesystem,
    fh: u64,
    offset: u64,
    size: u32,
)
    requires
        fs1.handles@ == fs2.handles@,
    ensures
        spec_read(fs1, fh, offset, size) == spec_read(fs2, fh, offset, size),
{
}

} // verus!
