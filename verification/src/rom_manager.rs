use crate::checksum::crc32_of;
use crate::patch::bps::spec_bps_parse;
use crate::patch::bps::BpsPatch;
use crate::patch::bps::BpsPatchView;
use crate::patch::ips::spec_ips_parse;
use crate::patch::ips::IpsPatch;
use crate::patch::ModTime;
use crate::patch::RomPatch;
use crate::patch::RomPatchView;
use crate::utils::bytes_eq;
use crate::utils::bytes_range;
use crate::utils::clone_bytes;
use vstd::prelude::*;

verus! {

/// What a directory scan hands the index: one entry per regular file, with
/// its name relative to the base directory, its full contents, and its
/// modification time.
pub struct ScanEntry {
    pub name: Vec<u8>,
    pub data: Vec<u8>,
    pub modified: ModTime,
}

#[verifier::ext_equal]
pub ghost struct ScanEntryView {
    pub name: Seq<u8>,
    pub data: Seq<u8>,
    pub modified: ModTime,
}

impl View for ScanEntry {
    type V = ScanEntryView;

    open spec fn view(&self) -> ScanEntryView {
        ScanEntryView { name: self.name@, data: self.data@, modified: self.modified }
    }
}

/// The view of every entry, in scan order.
pub open spec fn entries_view(es: Seq<ScanEntry>) -> Seq<ScanEntryView> {
    es.map_values(|e: ScanEntry| e@)
}

/// The index of the last dot in `name`, if it holds one.
pub open spec fn last_dot(name: Seq<u8>) -> Option<int>
    decreases name.len(),
{
    if name.len() == 0 {
        None
    } else if name[name.len() - 1] == 0x2e {
        Some(name.len() - 1)
    } else {
        last_dot(name.take(name.len() - 1))
    }
}

/// The extension of a file name: what follows the last dot, unless that dot
/// begins the name.
pub open spec fn spec_ext(name: Seq<u8>) -> Option<Seq<u8>> {
    match last_dot(name) {
        Some(i) => if i > 0 {
            Some(name.skip(i + 1))
        } else {
            None
        },
        None => None,
    }
}

/// A file name with its extension (and the dot before it) cut off.
pub open spec fn spec_stem(name: Seq<u8>) -> Seq<u8> {
    match last_dot(name) {
        Some(i) => if i > 0 {
            name.take(i)
        } else {
            name
        },
        None => name,
    }
}

/// ASCII letters lowered; other bytes kept.
pub open spec fn to_lower(s: Seq<u8>) -> Seq<u8> {
    s.map_values(
        |b: u8|
            if 0x41 <= b <= 0x5a {
                (b + 0x20) as u8
            } else {
                b
            },
    )
}

/// The lowered extensions the scan treats as source ROM images.
pub open spec fn is_rom_ext(e: Seq<u8>) -> bool {
    ||| (e.len() == 2 && ((e[0] == 0x76 && e[1] == 0x62) || (e[0] == 0x67 && e[1] == 0x62)))
    ||| (e.len() == 3 && {
        let a = e[0];
        let b = e[1];
        let c = e[2];
        ||| (a == 0x62 && b == 0x69 && c == 0x6e)
        ||| (a == 0x72 && b == 0x6f && c == 0x6d)
        ||| (a == 0x63 && b == 0x72 && c == 0x74)
        ||| (a == 0x6e && b == 0x65 && c == 0x73)
        ||| (a == 0x66 && b == 0x64 && c == 0x73)
        ||| (a == 0x73 && b == 0x66 && c == 0x63)
        ||| (a == 0x73 && b == 0x6d && c == 0x63)
        ||| (a == 0x6e && b == 0x36 && c == 0x34)
        ||| (a == 0x76 && b == 0x36 && c == 0x34)
        ||| (a == 0x7a && b == 0x36 && c == 0x34)
        ||| (a == 0x67 && b == 0x62 && c == 0x63)
        ||| (a == 0x67 && b == 0x62 && c == 0x61)
        ||| (a == 0x61 && b == 0x67 && c == 0x62)
        ||| (a == 0x6e && b == 0x64 && c == 0x73)
        ||| (a == 0x33 && b == 0x64 && c == 0x73)
    })
}

proof fn lemma_last_dot_at(name: Seq<u8>, j: int)
    requires
        0 <= j < name.len(),
        name[j] == 0x2e,
        forall|k: int| j < k < name.len() ==> name[k] != 0x2e,
    ensures
        last_dot(name) == Some(j),
    decreases name.len(),
{
    if j < name.len() - 1 {
        let t = name.take(name.len() - 1);
        assert(forall|k: int| 0 <= k < t.len() ==> t[k] == name[k]);
        lemma_last_dot_at(t, j);
    }
}

proof fn lemma_last_dot_none(name: Seq<u8>)
    requires
        forall|k: int| 0 <= k < name.len() ==> name[k] != 0x2e,
    ensures
        last_dot(name) is None,
    decreases name.len(),
{
    if name.len() > 0 {
        let t = name.take(name.len() - 1);
        assert(forall|k: int| 0 <= k < t.len() ==> t[k] == name[k]);
        lemma_last_dot_none(t);
    }
}

/// The extension of `name`, as a fresh buffer.
pub fn extension(name: &Vec<u8>) -> (r: Option<Vec<u8>>)
    ensures
        match r {
            Some(e) => spec_ext(name@) == Some(e@),
            None => spec_ext(name@) is None,
        },
{
    let n = name.len();
    let mut i = n;
    while i > 0
        invariant
            i <= n,
            n == name@.len(),
            forall|k: int| i <= k < n ==> name@[k] != 0x2e,
        decreases i,
    {
        i = i - 1;
        if name[i] == 0x2e {
            proof {
                lemma_last_dot_at(name@, i as int);
            }
            if i > 0 {
                return Some(bytes_range(name, i + 1, n));
            } else {
                return None;
            }
        }
    }
    proof {
        lemma_last_dot_none(name@);
    }
    None
}

/// The stem of `name`, as a fresh buffer.
pub fn stem(name: &Vec<u8>) -> (r: Vec<u8>)
    ensures
        r@ == spec_stem(name@),
{
    let n = name.len();
    let mut i = n;
    while i > 0
        invariant
            i <= n,
            n == name@.len(),
            forall|k: int| i <= k < n ==> name@[k] != 0x2e,
        decreases i,
    {
        i = i - 1;
        if name[i] == 0x2e {
            proof {
                lemma_last_dot_at(name@, i as int);
            }
            if i > 0 {
                return bytes_range(name, 0, i);
            } else {
                return clone_bytes(name);
            }
        }
    }
    proof {
        lemma_last_dot_none(name@);
    }
    clone_bytes(name)
}

/// ASCII letters of `s` lowered, as a fresh buffer.
pub fn lower_bytes(s: &Vec<u8>) -> (r: Vec<u8>)
    ensures
        r@ == to_lower(s@),
{
    let n = s.len();
    let mut r: Vec<u8> = Vec::new();
    let mut i: usize = 0;
    while i < n
        invariant
            i <= n,
            n == s@.len(),
            r@.len() == i,
            forall|j: int| 0 <= j < i ==> r@[j] == to_lower(s@)[j],
        decreases n - i,
    {
        let b = s[i];
        if 0x41 <= b && b <= 0x5a {
            r.push(b + 0x20);
        } else {
            r.push(b);
        }
        i = i + 1;
    }
    assert(r@ =~= to_lower(s@));
    r
}

/// Whether the lowered extension `e` names a source ROM image.
pub fn is_rom_extension(e: &Vec<u8>) -> (r: bool)
    ensures
        r == is_rom_ext(e@),
{
    if e.len() == 2 {
        let a = e[0];
        let b = e[1];
        (a == 0x76 && b == 0x62) || (a == 0x67 && b == 0x62)
    } else if e.len() == 3 {
        let a = e[0];
        let b = e[1];
        let c = e[2];
        (a == 0x62 && b == 0x69 && c == 0x6e) || (a == 0x72 && b == 0x6f && c == 0x6d) || (a == 0x63
            && b == 0x72 && c == 0x74) || (a == 0x6e && b == 0x65 && c == 0x73) || (a == 0x66 && b
            == 0x64 && c == 0x73) || (a == 0x73 && b == 0x66 && c == 0x63) || (a == 0x73 && b
            == 0x6d && c == 0x63) || (a == 0x6e && b == 0x36 && c == 0x34) || (a == 0x76 && b
            == 0x36 && c == 0x34) || (a == 0x7a && b == 0x36 && c == 0x34) || (a == 0x67 && b
            == 0x62 && c == 0x63) || (a == 0x67 && b == 0x62 && c == 0x61) || (a == 0x61 && b
            == 0x67 && c == 0x62) || (a == 0x6e && b == 0x64 && c == 0x73) || (a == 0x33 && b
            == 0x64 && c == 0x73)
    } else {
        false
    }
}

/// The first value in `s` keyed by `k`.
pub open spec fn src_find(s: Seq<(u32, Seq<u8>)>, k: u32) -> Option<Seq<u8>>
    decreases s.len(),
{
    if s.len() == 0 {
        None
    } else if s[0].0 == k {
        Some(s[0].1)
    } else {
        src_find(s.skip(1), k)
    }
}

/// `s` with the first entry keyed by `k` replaced by `(k, v)`, or `(k, v)`
/// appended when no entry has that key.
pub open spec fn src_upsert(s: Seq<(u32, Seq<u8>)>, k: u32, v: Seq<u8>) -> Seq<(u32, Seq<u8>)>
    decreases s.len(),
{
    if s.len() == 0 {
        seq![(k, v)]
    } else if s[0].0 == k {
        seq![(k, v)] + s.skip(1)
    } else {
        seq![s[0]] + src_upsert(s.skip(1), k, v)
    }
}

proof fn lemma_src_upsert_at(s: Seq<(u32, Seq<u8>)>, k: u32, v: Seq<u8>, i: int)
    requires
        0 <= i < s.len(),
        s[i].0 == k,
        forall|j: int| 0 <= j < i ==> s[j].0 != k,
    ensures
        src_upsert(s, k, v) == s.update(i, (k, v)),
    decreases i,
{
    if i == 0 {
        assert(seq![(k, v)] + s.skip(1) =~= s.update(0, (k, v)));
    } else {
        assert(forall|j: int| 0 <= j < s.len() - 1 ==> s.skip(1)[j] == s[j + 1]);
        lemma_src_upsert_at(s.skip(1), k, v, i - 1);
        assert(seq![s[0]] + s.skip(1).update(i - 1, (k, v)) =~= s.update(i, (k, v)));
    }
}

proof fn lemma_src_upsert_missing(s: Seq<(u32, Seq<u8>)>, k: u32, v: Seq<u8>)
    requires
        forall|j: int| 0 <= j < s.len() ==> s[j].0 != k,
    ensures
        src_upsert(s, k, v) == s.push((k, v)),
    decreases s.len(),
{
    if s.len() == 0 {
        assert(seq![(k, v)] =~= s.push((k, v)));
    } else {
        assert(forall|j: int| 0 <= j < s.len() - 1 ==> s.skip(1)[j] == s[j + 1]);
        lemma_src_upsert_missing(s.skip(1), k, v);
        assert(seq![s[0]] + s.skip(1).push((k, v)) =~= s.push((k, v)));
    }
}

proof fn lemma_src_find_at(s: Seq<(u32, Seq<u8>)>, k: u32, i: int)
    requires
        0 <= i < s.len(),
        s[i].0 == k,
        forall|j: int| 0 <= j < i ==> s[j].0 != k,
    ensures
        src_find(s, k) == Some(s[i].1),
    decreases i,
{
    if i > 0 {
        assert(forall|j: int| 0 <= j < s.len() - 1 ==> s.skip(1)[j] == s[j + 1]);
        lemma_src_find_at(s.skip(1), k, i - 1);
    }
}

proof fn lemma_src_find_missing(s: Seq<(u32, Seq<u8>)>, k: u32)
    requires
        forall|j: int| 0 <= j < s.len() ==> s[j].0 != k,
    ensures
        src_find(s, k) is None,
    decreases s.len(),
{
    if s.len() > 0 {
        assert(forall|j: int| 0 <= j < s.len() - 1 ==> s.skip(1)[j] == s[j + 1]);
        lemma_src_find_missing(s.skip(1), k);
    }
}

/// The source ROMs the last scan saw, keyed by CRC-32 digest, in first-seen
/// order.
pub struct SourceTable {
    pub entries: Vec<(u32, Vec<u8>)>,
}

impl View for SourceTable {
    type V = Seq<(u32, Seq<u8>)>;

    open spec fn view(&self) -> Seq<(u32, Seq<u8>)> {
        self.entries@.map_values(|p: (u32, Vec<u8>)| (p.0, p.1@))
    }
}

impl SourceTable {
    /// An empty table.
    pub fn new() -> (r: Self)
        ensures
            r@ == Seq::<(u32, Seq<u8>)>::empty(),
    {
        let r = SourceTable { entries: Vec::new() };
        proof {
            assert(r@ =~= Seq::<(u32, Seq<u8>)>::empty());
        }
        r
    }

    /// Drop every entry.
    pub fn clear(&mut self)
        ensures
            final(self)@ == Seq::<(u32, Seq<u8>)>::empty(),
    {
        self.entries.clear();
        proof {
            assert(self@ =~= Seq::<(u32, Seq<u8>)>::empty());
        }
    }

    pub fn len(&self) -> (r: usize)
        ensures
            r == self@.len(),
    {
        self.entries.len()
    }

    /// Record that the ROM at `name` has digest `k`; a later ROM with the
    /// same digest replaces an earlier one.
    pub fn insert(&mut self, k: u32, name: Vec<u8>)
        ensures
            final(self)@ == src_upsert(old(self)@, k, name@),
    {
        let n = self.entries.len();
        let mut i: usize = 0;
        while i < n
            invariant
                i <= n,
                n == self.entries@.len(),
                self == old(self),
                forall|j: int| 0 <= j < i ==> self@[j].0 != k,
            decreases n - i,
        {
            if self.entries[i].0 == k {
                let ghost nv = name@;
                proof {
                    lemma_src_upsert_at(self@, k, nv, i as int);
                }
                let ghost pre = self@;
                self.entries.set(i, (k, name));
                proof {
                    assert(self@ =~= pre.update(i as int, (k, nv)));
                }
                return ;
            }
            i = i + 1;
        }
        let ghost nv = name@;
        proof {
            lemma_src_upsert_missing(self@, k, nv);
        }
        let ghost pre = self@;
        self.entries.push((k, name));
        proof {
            assert(self@ =~= pre.push((k, nv)));
        }
    }

    /// The path of the ROM with digest `k`, if one was seen.
    pub fn get(&self, k: u32) -> (r: Option<&Vec<u8>>)
        ensures
            match r {
                Some(name) => src_find(self@, k) == Some(name@),
                None => src_find(self@, k) is None,
            },
    {
        let n = self.entries.len();
        let mut i: usize = 0;
        while i < n
            invariant
                i <= n,
                n == self.entries@.len(),
                forall|j: int| 0 <= j < i ==> self@[j].0 != k,
            decreases n - i,
        {
            if self.entries[i].0 == k {
                proof {
                    lemma_src_find_at(self@, k, i as int);
                }
                return Some(&self.entries[i].1);
            }
            i = i + 1;
        }
        proof {
            lemma_src_find_missing(self@, k);
        }
        None
    }

    /// The path in the table's first entry.
    pub fn first_name(&self) -> (r: &Vec<u8>)
        requires
            self@.len() > 0,
        ensures
            r@ == self@[0].1,
    {
        &self.entries[0].1
    }
}

/// The first value in `s` keyed by the name `k`.
pub open spec fn tgt_find(s: Seq<(Seq<u8>, RomPatchView)>, k: Seq<u8>) -> Option<RomPatchView>
    decreases s.len(),
{
    if s.len() == 0 {
        None
    } else if s[0].0 == k {
        Some(s[0].1)
    } else {
        tgt_find(s.skip(1), k)
    }
}

/// `s` with the first entry named `k` replaced, or `(k, v)` appended.
pub open spec fn tgt_upsert(s: Seq<(Seq<u8>, RomPatchView)>, k: Seq<u8>, v: RomPatchView) -> Seq<
    (Seq<u8>, RomPatchView),
>
    decreases s.len(),
{
    if s.len() == 0 {
        seq![(k, v)]
    } else if s[0].0 == k {
        seq![(k, v)] + s.skip(1)
    } else {
        seq![s[0]] + tgt_upsert(s.skip(1), k, v)
    }
}

proof fn lemma_tgt_upsert_at(s: Seq<(Seq<u8>, RomPatchView)>, k: Seq<u8>, v: RomPatchView, i: int)
    requires
        0 <= i < s.len(),
        s[i].0 == k,
        forall|j: int| 0 <= j < i ==> s[j].0 != k,
    ensures
        tgt_upsert(s, k, v) == s.update(i, (k, v)),
    decreases i,
{
    if i == 0 {
        assert(seq![(k, v)] + s.skip(1) =~= s.update(0, (k, v)));
    } else {
        assert(forall|j: int| 0 <= j < s.len() - 1 ==> s.skip(1)[j] == s[j + 1]);
        lemma_tgt_upsert_at(s.skip(1), k, v, i - 1);
        assert(seq![s[0]] + s.skip(1).update(i - 1, (k, v)) =~= s.update(i, (k, v)));
    }
}

proof fn lemma_tgt_upsert_missing(s: Seq<(Seq<u8>, RomPatchView)>, k: Seq<u8>, v: RomPatchView)
    requires
        forall|j: int| 0 <= j < s.len() ==> s[j].0 != k,
    ensures
        tgt_upsert(s, k, v) == s.push((k, v)),
    decreases s.len(),
{
    if s.len() == 0 {
        assert(seq![(k, v)] =~= s.push((k, v)));
    } else {
        assert(forall|j: int| 0 <= j < s.len() - 1 ==> s.skip(1)[j] == s[j + 1]);
        lemma_tgt_upsert_missing(s.skip(1), k, v);
        assert(seq![s[0]] + s.skip(1).push((k, v)) =~= s.push((k, v)));
    }
}

proof fn lemma_tgt_find_at(s: Seq<(Seq<u8>, RomPatchView)>, k: Seq<u8>, i: int)
    requires
        0 <= i < s.len(),
        s[i].0 == k,
        forall|j: int| 0 <= j < i ==> s[j].0 != k,
    ensures
        tgt_find(s, k) == Some(s[i].1),
    decreases i,
{
    if i > 0 {
        assert(forall|j: int| 0 <= j < s.len() - 1 ==> s.skip(1)[j] == s[j + 1]);
        lemma_tgt_find_at(s.skip(1), k, i - 1);
    }
}

proof fn lemma_tgt_find_missing(s: Seq<(Seq<u8>, RomPatchView)>, k: Seq<u8>)
    requires
        forall|j: int| 0 <= j < s.len() ==> s[j].0 != k,
    ensures
        tgt_find(s, k) is None,
    decreases s.len(),
{
    if s.len() > 0 {
        assert(forall|j: int| 0 <= j < s.len() - 1 ==> s.skip(1)[j] == s[j + 1]);
        lemma_tgt_find_missing(s.skip(1), k);
    }
}

/// The published index: one patch per visible file name, in first-published
/// order.
pub struct TargetTable {
    pub entries: Vec<(Vec<u8>, RomPatch)>,
}

impl View for TargetTable {
    type V = Seq<(Seq<u8>, RomPatchView)>;

    open spec fn view(&self) -> Seq<(Seq<u8>, RomPatchView)> {
        self.entries@.map_values(|p: (Vec<u8>, RomPatch)| (p.0@, p.1@))
    }
}

impl TargetTable {
    /// An empty table.
    pub fn new() -> (r: Self)
        ensures
            r@ == Seq::<(Seq<u8>, RomPatchView)>::empty(),
    {
        let r = TargetTable { entries: Vec::new() };
        proof {
            assert(r@ =~= Seq::<(Seq<u8>, RomPatchView)>::empty());
        }
        r
    }

    /// Drop every entry.
    pub fn clear(&mut self)
        ensures
            final(self)@ == Seq::<(Seq<u8>, RomPatchView)>::empty(),
    {
        self.entries.clear();
        proof {
            assert(self@ =~= Seq::<(Seq<u8>, RomPatchView)>::empty());
        }
    }

    pub fn len(&self) -> (r: usize)
        ensures
            r == self@.len(),
    {
        self.entries.len()
    }

    /// Publish `patch` under the visible name `name`; a later patch with
    /// the same name replaces an earlier one.
    pub fn insert(&mut self, name: Vec<u8>, patch: RomPatch)
        ensures
            final(self)@ == tgt_upsert(old(self)@, name@, patch@),
    {
        let n = self.entries.len();
        let mut i: usize = 0;
        while i < n
            invariant
                i <= n,
                n == self.entries@.len(),
                self == old(self),
                forall|j: int| 0 <= j < i ==> self@[j].0 != name@,
            decreases n - i,
        {
            if bytes_eq(&self.entries[i].0, &name) {
                let ghost nv = name@;
                let ghost pv = patch@;
                proof {
                    lemma_tgt_upsert_at(self@, nv, pv, i as int);
                }
                let ghost pre = self@;
                self.entries.set(i, (name, patch));
                proof {
                    assert(self@ =~= pre.update(i as int, (nv, pv)));
                }
                return ;
            }
            i = i + 1;
        }
        let ghost nv = name@;
        let ghost pv = patch@;
        proof {
            lemma_tgt_upsert_missing(self@, nv, pv);
        }
        let ghost pre = self@;
        self.entries.push((name, patch));
        proof {
            assert(self@ =~= pre.push((nv, pv)));
        }
    }

    /// The patch published under `name`, if any.
    pub fn get(&self, name: &Vec<u8>) -> (r: Option<&RomPatch>)
        ensures
            match r {
                Some(p) => tgt_find(self@, name@) == Some(p@),
                None => tgt_find(self@, name@) is None,
            },
    {
        let n = self.entries.len();
        let mut i: usize = 0;
        while i < n
            invariant
                i <= n,
                n == self.entries@.len(),
                forall|j: int| 0 <= j < i ==> self@[j].0 != name@,
            decreases n - i,
        {
            if bytes_eq(&self.entries[i].0, name) {
                proof {
                    lemma_tgt_find_at(self@, name@, i as int);
                }
                return Some(&self.entries[i].1);
            }
            i = i + 1;
        }
        proof {
            lemma_tgt_find_missing(self@, name@);
        }
        None
    }
}

/// A scan entry that counts as a candidate source ROM: it is not empty (a
/// file still being copied reads as empty) and its lowered extension names
/// a ROM image.
pub open spec fn is_rom_entry(e: ScanEntryView) -> bool {
    &&& e.data.len() > 0
    &&& match spec_ext(e.name) {
        Some(x) => is_rom_ext(to_lower(x)),
        None => false,
    }
}

/// The entry's lowered extension is the three bytes `a`, `b`, `c`.
pub open spec fn ext_is3(e: ScanEntryView, a: u8, b: u8, c: u8) -> bool {
    match spec_ext(e.name) {
        Some(x) => {
            let l = to_lower(x);
            l.len() == 3 && l[0] == a && l[1] == b && l[2] == c
        },
        None => false,
    }
}

pub open spec fn is_bps_entry(e: ScanEntryView) -> bool {
    ext_is3(e, 0x62, 0x70, 0x73)
}

pub open spec fn is_ips_entry(e: ScanEntryView) -> bool {
    ext_is3(e, 0x69, 0x70, 0x73)
}

/// The digest table a scan of `es` publishes: every candidate source ROM
/// fingerprinted by CRC-32, later entries replacing earlier ones with the
/// same digest.
pub open spec fn spec_scan_sources(es: Seq<ScanEntryView>) -> Seq<(u32, Seq<u8>)>
    decreases es.len(),
{
    if es.len() == 0 {
        Seq::empty()
    } else {
        let prev = spec_scan_sources(es.drop_last());
        let e = es.last();
        if is_rom_entry(e) {
            src_upsert(prev, crc32_of(e.data), e.name)
        } else {
            prev
        }
    }
}

/// The visible name of a patch: its file name with the extension replaced
/// by the bound source ROM's extension.
pub open spec fn spec_visible_name(patch_name: Seq<u8>, source_name: Seq<u8>) -> Seq<u8> {
    let base = spec_stem(patch_name);
    match spec_ext(source_name) {
        Some(e) => if e.len() > 0 {
            base + seq![0x2eu8] + e
        } else {
            base
        },
        None => base,
    }
}

/// The patches the BPS pass of a scan of `es` publishes, given the digest
/// table `sources`: every BPS patch that parses and whose declared source
/// digest is known, bound to that source.
pub open spec fn spec_scan_bps(es: Seq<ScanEntryView>, sources: Seq<(u32, Seq<u8>)>) -> Seq<
    (Seq<u8>, RomPatchView),
>
    decreases es.len(),
{
    if es.len() == 0 {
        Seq::empty()
    } else {
        let prev = spec_scan_bps(es.drop_last(), sources);
        let e = es.last();
        if is_bps_entry(e) {
            match spec_bps_parse(e.name, e.data, e.modified) {
                Ok(p) => match src_find(sources, p.source_checksum) {
                    Some(source_name) => tgt_upsert(
                        prev,
                        spec_visible_name(e.name, source_name),
                        RomPatchView::Bps(
                            BpsPatchView { source_path: Some(source_name), ..p },
                        ),
                    ),
                    None => prev,
                },
                Err(_) => prev,
            }
        } else {
            prev
        }
    }
}

/// The contents of the last scan entry named `name`.
pub open spec fn entry_data(es: Seq<ScanEntryView>, name: Seq<u8>) -> Option<Seq<u8>>
    decreases es.len(),
{
    if es.len() == 0 {
        None
    } else if es.last().name == name {
        Some(es.last().data)
    } else {
        entry_data(es.drop_last(), name)
    }
}

/// The patches the IPS pass of a scan of `es` publishes on top of `acc`:
/// every IPS patch that parses, bound to the one source ROM — the pairing
/// is a heuristic, so it is skipped entirely when the digest table holds
/// more than one.
pub open spec fn spec_scan_ips(
    es: Seq<ScanEntryView>,
    all: Seq<ScanEntryView>,
    sources: Seq<(u32, Seq<u8>)>,
    acc: Seq<(Seq<u8>, RomPatchView)>,
) -> Seq<(Seq<u8>, RomPatchView)>
    decreases es.len(),
{
    if es.len() == 0 {
        acc
    } else {
        let prev = spec_scan_ips(es.drop_last(), all, sources, acc);
        let e = es.last();
        if is_ips_entry(e) && sources.len() == 1 {
            let source_name = sources[0].1;
            match entry_data(all, source_name) {
                Some(source_data) => match spec_ips_parse(
                    e.name,
                    source_name,
                    source_data.len() as u64,
                    e.data,
                ) {
                    Ok(p) => tgt_upsert(
                        prev,
                        spec_visible_name(e.name, source_name),
                        RomPatchView::Ips(p),
                    ),
                    Err(_) => prev,
                },
                None => prev,
            }
        } else {
            prev
        }
    }
}

/// The whole index a scan of `es` publishes.
pub open spec fn spec_scan_targets(es: Seq<ScanEntryView>) -> Seq<(Seq<u8>, RomPatchView)> {
    let sources = spec_scan_sources(es);
    spec_scan_ips(es, es, sources, spec_scan_bps(es, sources))
}

/// Build the visible name of a patch.
pub fn visible_name_of(patch_name: &Vec<u8>, source_name: &Vec<u8>) -> (r: Vec<u8>)
    ensures
        r@ == spec_visible_name(patch_name@, source_name@),
{
    let mut base = stem(patch_name);
    match extension(source_name) {
        Some(e) => {
            if e.len() > 0 {
                let ghost b0 = base@;
                base.push(0x2e);
                proof {
                    assert(base@ =~= b0 + seq![0x2eu8]);
                }
                let mut i: usize = 0;
                let n = e.len();
                let ghost b1 = base@;
                while i < n
                    invariant
                        i <= n,
                        n == e@.len(),
                        base@ == b1 + e@.subrange(0, i as int),
                    decreases n - i,
                {
                    let x = e[i];
                    base.push(x);
                    assert(base@ =~= b1 + e@.subrange(0, i + 1));
                    i = i + 1;
                }
                proof {
                    assert(base@ =~= (b0 + seq![0x2eu8]) + e@);
                }
                base
            } else {
                base
            }
        },
        None => base,
    }
}

/// Look up the contents of the last scan entry named `name`.
pub fn find_entry_data<'a>(entries: &'a Vec<ScanEntry>, name: &Vec<u8>) -> (r: Option<&'a Vec<u8>>)
    ensures
        match r {
            Some(d) => entry_data(entries_view(entries@), name@) == Some(d@),
            None => entry_data(entries_view(entries@), name@) is None,
        },
{
    let n = entries.len();
    let mut i = n;
    assert(entries_view(entries@).take(n as int) =~= entries_view(entries@));
    while i > 0
        invariant
            i <= n,
            n == entries@.len(),
            entry_data(entries_view(entries@), name@) == entry_data(
                entries_view(entries@).take(i as int),
                name@,
            ),
        decreases i,
    {
        let ghost evs = entries_view(entries@);
        i = i - 1;
        proof {
            assert(evs.take(i + 1).drop_last() =~= evs.take(i as int));
            assert(evs.take(i + 1).last() == entries@[i as int]@);
        }
        if bytes_eq(&entries[i].name, name) {
            return Some(&entries[i].data);
        }
    }
    proof {
        assert(entries_view(entries@).take(0) =~= Seq::<ScanEntryView>::empty());
    }
    None
}

/// The index of every target ROM the base directory offers: the source
/// ROMs it holds, by digest, and the patched targets, by visible name.
pub struct RomManager {
    pub base_directory: Vec<u8>,
    pub source_roms: SourceTable,
    pub target_roms: TargetTable,
}

impl RomManager {
    /// A manager rooted at `base_directory`, with an empty index until the
    /// first refresh.
    pub fn new(base_directory: Vec<u8>) -> (r: Self)
        ensures
            r.base_directory@ == base_directory@,
            r.source_roms@ == Seq::<(u32, Seq<u8>)>::empty(),
            r.target_roms@ == Seq::<(Seq<u8>, RomPatchView)>::empty(),
    {
        RomManager {
            base_directory,
            source_roms: SourceTable::new(),
            target_roms: TargetTable::new(),
        }
    }

    /// Rebuild the index from a fresh scan of the base directory's entries:
    /// fingerprint the source ROMs, then bind and publish every patch whose
    /// source can be found.
    #[verifier::loop_isolation(false)]
    pub fn refresh(&mut self, entries: &Vec<ScanEntry>)
        ensures
            final(self).base_directory@ == old(self).base_directory@,
            final(self).source_roms@ == spec_scan_sources(entries_view(entries@)),
            final(self).target_roms@ == spec_scan_targets(entries_view(entries@)),
    {
        let ghost evs = entries_view(entries@);
        self.source_roms.clear();
        self.target_roms.clear();
        let n = entries.len();
        // Fingerprint the candidate source ROMs.
        let mut i: usize = 0;
        while i < n
            invariant
                i <= n,
                self.source_roms@ == spec_scan_sources(evs.take(i as int)),
                self.target_roms@ == Seq::<(Seq<u8>, RomPatchView)>::empty(),
                self.base_directory@ == old(self).base_directory@,
            decreases n - i,
        {
            proof {
                assert(evs.take(i + 1).drop_last() =~= evs.take(i as int));
                assert(evs.take(i + 1).last() == entries@[i as int]@);
            }
            let e = &entries[i];
            if e.data.len() > 0 {
                match extension(&e.name) {
                    Some(x) => {
                        let low = lower_bytes(&x);
                        if is_rom_extension(&low) {
                            let digest = crate::checksum::crc32(e.data.as_slice());
                            self.source_roms.insert(digest, clone_bytes(&e.name));
                        }
                    },
                    None => {},
                }
            }
            i = i + 1;
        }
        assert(evs.take(n as int) =~= evs);
        // Nothing can be paired without a source ROM.
        if self.source_roms.len() == 0 {
            proof {
                lemma_scan_bps_empty_sources(evs, self.source_roms@);
                lemma_scan_ips_other_sources(evs, evs, self.source_roms@);
            }
            return ;
        }
        let ghost sources = self.source_roms@;
        // Bind and publish the BPS patches.
        let mut i: usize = 0;
        while i < n
            invariant
                i <= n,
                self.source_roms@ == sources,
                self.target_roms@ == spec_scan_bps(evs.take(i as int), sources),
                self.base_directory@ == old(self).base_directory@,
            decreases n - i,
        {
            proof {
                assert(evs.take(i + 1).drop_last() =~= evs.take(i as int));
                assert(evs.take(i + 1).last() == entries@[i as int]@);
            }
            let e = &entries[i];
            let is_bps = match extension(&e.name) {
                Some(x) => {
                    let low = lower_bytes(&x);
                    low.len() == 3 && low[0] == 0x62 && low[1] == 0x70 && low[2] == 0x73
                },
                None => false,
            };
            if is_bps {
                match BpsPatch::new(clone_bytes(&e.name), &e.data, e.modified) {
                    Ok(mut patch) => {
                        let digest = patch.source_checksum();
                        let found: Option<Vec<u8>> = match self.source_roms.get(digest) {
                            Some(p) => Some(clone_bytes(p)),
                            None => None,
                        };
                        match found {
                            Some(source_name) => {
                                patch.set_source_path(&source_name);
                                let visible = visible_name_of(&e.name, &source_name);
                                self.target_roms.insert(visible, RomPatch::Bps(patch));
                            },
                            None => {},
                        }
                    },
                    Err(_) => {},
                }
            }
            i = i + 1;
        }
        assert(evs.take(n as int) =~= evs);
        // Bind and publish the IPS patches.
        let ghost base = self.target_roms@;
        let mut i: usize = 0;
        while i < n
            invariant
                i <= n,
                self.source_roms@ == sources,
                self.target_roms@ == spec_scan_ips(evs.take(i as int), evs, sources, base),
                self.base_directory@ == old(self).base_directory@,
            decreases n - i,
        {
            proof {
                assert(evs.take(i + 1).drop_last() =~= evs.take(i as int));
                assert(evs.take(i + 1).last() == entries@[i as int]@);
            }
            let e = &entries[i];
            let is_ips = match extension(&e.name) {
                Some(x) => {
                    let low = lower_bytes(&x);
                    low.len() == 3 && low[0] == 0x69 && low[1] == 0x70 && low[2] == 0x73
                },
                None => false,
            };
            if is_ips && self.source_roms.len() == 1 {
                let source_name = clone_bytes(self.source_roms.first_name());
                match find_entry_data(entries, &source_name) {
                    Some(source_data) => {
                        let source_len = source_data.len() as u64;
                        match IpsPatch::new(
                            clone_bytes(&e.name),
                            clone_bytes(&source_name),
                            source_len,
                            &e.data,
                        ) {
                            Ok(patch) => {
                                let visible = visible_name_of(&e.name, &source_name);
                                self.target_roms.insert(visible, RomPatch::Ips(patch));
                            },
                            Err(_) => {},
                        }
                    },
                    None => {},
                }
            }
            i = i + 1;
        }
        assert(evs.take(n as int) =~= evs);
    }
}

/// With no source ROM fingerprinted, the BPS pass publishes nothing.
proof fn lemma_scan_bps_empty_sources(es: Seq<ScanEntryView>, sources: Seq<(u32, Seq<u8>)>)
    requires
        sources.len() == 0,
    ensures
        spec_scan_bps(es, sources) == Seq::<(Seq<u8>, RomPatchView)>::empty(),
    decreases es.len(),
{
    if es.len() > 0 {
        lemma_scan_bps_empty_sources(es.drop_last(), sources);
    }
}

/// The IPS pass publishes nothing unless exactly one source ROM was seen.
proof fn lemma_scan_ips_other_sources(
    es: Seq<ScanEntryView>,
    all: Seq<ScanEntryView>,
    sources: Seq<(u32, Seq<u8>)>,
)
    requires
        sources.len() != 1,
    ensures
        spec_scan_ips(es, all, sources, Seq::<(Seq<u8>, RomPatchView)>::empty()) == Seq::<
            (Seq<u8>, RomPatchView),
        >::empty(),
    decreases es.len(),
{
    if es.len() > 0 {
        lemma_scan_ips_other_sources(es.drop_last(), all, sources);
    }
}

} // verus!
