use vstd::pervasive::VecAdditionalExecFns;
use vstd::prelude::*;

verus! {

/// Errors that can arise while reading values out of an in-memory byte stream.
#[derive(Clone, Copy, Debug, PartialEq, Eq)]
pub enum ReadError {
    /// The stream ended before the value was complete.
    UnexpectedEof,
    /// A variable-length quantity does not fit in an unsigned 64-bit value.
    Overflow,
}

/// Number of bytes of the variable-length quantity at the head of `s`,
/// terminator included, or `None` if no terminator byte (high bit set) occurs.
pub open spec fn vlq_scan(s: Seq<u8>) -> Option<int>
    decreases s.len(),
{
    if s.len() == 0 {
        None
    } else if s[0] & 0x80 != 0 {
        Some(1)
    } else {
        match vlq_scan(s.skip(1)) {
            Some(n) => Some(n + 1),
            None => None,
        }
    }
}

/// The value encoded by the variable-length quantity `s`, where the last byte
/// of `s` is the terminator.  Each byte contributes its low seven bits at the
/// current weight; every continuation step additionally adds the next weight.
pub open spec fn vlq_val(s: Seq<u8>) -> nat
    decreases s.len(),
{
    if s.len() == 0 {
        0
    } else if s[0] & 0x80 != 0 {
        (s[0] & 0x7f) as nat
    } else {
        (s[0] & 0x7f) as nat + 128 * (1 + vlq_val(s.skip(1)))
    }
}

/// The canonical encoding of `v` as a variable-length quantity.
pub open spec fn vlq_enc(v: nat) -> Seq<u8>
    decreases v,
{
    if v < 128 {
        seq![(v + 128) as u8]
    } else {
        seq![(v % 128) as u8] + vlq_enc((v / 128 - 1) as nat)
    }
}

/// The signed reading of an unsigned quantity `d`: the low bit is the sign.
pub open spec fn svlq_val(d: nat) -> int {
    if d % 2 == 1 {
        -((d / 2) as int)
    } else {
        (d / 2) as int
    }
}

/// The encoding of a signed value: magnitude doubled, sign in the low bit.
pub open spec fn svlq_enc(v: int) -> Seq<u8> {
    if v < 0 {
        vlq_enc((2 * (-v) + 1) as nat)
    } else {
        vlq_enc((2 * v) as nat)
    }
}

proof fn lemma_u8_low7(b: u8)
    ensures
        (b & 0x7f) == b % 128,
        (b & 0x80 == 0) <==> (b < 128),
{
    assert((b & 0x7f) == b % 128) by (bit_vector);
    assert((b & 0x80 == 0) <==> (b < 128)) by (bit_vector);
}

/// A canonical encoding is well formed: its terminator is its last byte,
/// and decoding it yields the encoded value back.
pub proof fn lemma_vlq_round_trip(v: nat)
    ensures
        vlq_scan(vlq_enc(v)) == Some(vlq_enc(v).len() as int),
        vlq_val(vlq_enc(v)) == v,
        vlq_enc(v).len() >= 1,
    decreases v,
{
    if v < 128 {
        let b = (v + 128) as u8;
        lemma_u8_low7(b);
        assert(vlq_enc(v) =~= seq![b]);
        assert(b % 128 == v);
    } else {
        let b = (v % 128) as u8;
        let rest = vlq_enc((v / 128 - 1) as nat);
        lemma_u8_low7(b);
        assert(b < 128);
        lemma_vlq_round_trip((v / 128 - 1) as nat);
        let s = vlq_enc(v);
        assert(s =~= seq![b] + rest);
        assert(s.skip(1) =~= rest);
        assert(s[0] == b);
        assert(vlq_val(s) == (b & 0x7f) as nat + 128 * (1 + vlq_val(rest)));
        assert((b & 0x7f) as nat == v % 128);
        assert(vlq_val(s) == v % 128 + 128 * (v / 128));
        assert(v % 128 + 128 * (v / 128) == v) by (nonlinear_arith);
    }
}

/// Law: a signed variable-length quantity decodes to the value it was
/// encoded from, for every value in the signed 63-bit range.
pub proof fn lemma_signed_vlq_round_trip(v: int)
    requires
        -0x4000_0000_0000_0000 <= v < 0x4000_0000_0000_0000,
    ensures
        vlq_scan(svlq_enc(v)) == Some(svlq_enc(v).len() as int),
        svlq_val(vlq_val(svlq_enc(v))) == v,
{
    if v < 0 {
        let d = (2 * (-v) + 1) as nat;
        lemma_vlq_round_trip(d);
        assert(d % 2 == 1);
        assert(d / 2 == -v);
    } else {
        let d = (2 * v) as nat;
        lemma_vlq_round_trip(d);
        assert(d % 2 == 0);
        assert(d / 2 == v);
    }
}

proof fn lemma_vlq_scan_first(s: Seq<u8>, k: int)
    requires
        0 <= k < s.len(),
        s[k] & 0x80 != 0,
        forall|i: int| 0 <= i < k ==> s[i] & 0x80 == 0,
    ensures
        vlq_scan(s) == Some(k + 1),
    decreases k,
{
    if k > 0 {
        assert(forall|i: int| 0 <= i < k - 1 ==> s.skip(1)[i] == s[i + 1]);
        assert(s.skip(1)[k - 1] == s[k]);
        lemma_vlq_scan_first(s.skip(1), k - 1);
    }
}

proof fn lemma_vlq_scan_none(s: Seq<u8>)
    requires
        forall|i: int| 0 <= i < s.len() ==> s[i] & 0x80 == 0,
    ensures
        vlq_scan(s) is None,
    decreases s.len(),
{
    if s.len() > 0 {
        assert(forall|i: int| 0 <= i < s.len() - 1 ==> s.skip(1)[i] == s[i + 1]);
        lemma_vlq_scan_none(s.skip(1));
    }
}

/// Reading of the patch formats' variable-length quantities out of a byte
/// stream.
pub trait ReadExt {
    /// The whole underlying byte sequence.
    spec fn base(&self) -> Seq<u8>;

    /// The bytes not yet consumed (a suffix of `base`).
    spec fn stream(&self) -> Seq<u8>;

    /// The reader is at a consistent position.
    spec fn inv(&self) -> bool;

    /// Decode one unsigned variable-length quantity from the head of the
    /// stream.
    fn read_vlq(&mut self) -> (r: Result<u64, ReadError>)
        requires
            old(self).inv(),
        ensures
            final(self).inv(),
            final(self).base() == old(self).base(),
            match r {
                Ok(v) => vlq_scan(old(self).stream()) matches Some(n) && (v as nat
                    == vlq_val(old(self).stream().take(n)) && final(self).stream()
                    == old(self).stream().skip(n)),
                Err(ReadError::UnexpectedEof) => vlq_scan(old(self).stream()) is None
                    && final(self).stream().len() == 0,
                Err(ReadError::Overflow) => vlq_scan(old(self).stream()) matches Some(n) && (
                vlq_val(old(self).stream().take(n)) > u64::MAX && final(self).stream()
                    == old(self).stream().skip(n)),
            },
    ;

    /// Decode one signed variable-length quantity: magnitude in the high
    /// bits, sign in the lowest bit.
    fn read_signed_vlq(&mut self) -> (r: Result<i64, ReadError>)
        requires
            old(self).inv(),
        ensures
            final(self).inv(),
            final(self).base() == old(self).base(),
            match r {
                Ok(v) => vlq_scan(old(self).stream()) matches Some(n) && (v as int == svlq_val(
                    vlq_val(old(self).stream().take(n)),
                ) && vlq_val(old(self).stream().take(n)) <= u64::MAX && final(self).stream()
                    == old(self).stream().skip(n)),
                Err(ReadError::UnexpectedEof) => vlq_scan(old(self).stream()) is None
                    && final(self).stream().len() == 0,
                Err(ReadError::Overflow) => vlq_scan(old(self).stream()) matches Some(n) && (
                vlq_val(old(self).stream().take(n)) > u64::MAX && final(self).stream()
                    == old(self).stream().skip(n)),
            },
    ;
}

proof fn lemma_vlq_scan_char(s: Seq<u8>)
    ensures
        vlq_scan(s) matches Some(n) ==> (s[n - 1] & 0x80 != 0 && forall|i: int|
            0 <= i < n - 1 ==> s[i] & 0x80 == 0),
    decreases s.len(),
{
    lemma_vlq_scan_bounds(s);
    if s.len() > 0 && s[0] & 0x80 == 0 {
        lemma_vlq_scan_char(s.skip(1));
        lemma_vlq_scan_bounds(s.skip(1));
        match vlq_scan(s.skip(1)) {
            Some(m) => {
                assert(s.skip(1)[m - 1] == s[m]);
                assert(vlq_scan(s) == Some(m + 1));
                assert forall|i: int| 0 <= i < m implies s[i] & 0x80 == 0 by {
                    if i >= 1 {
                        assert(s.skip(1)[i - 1] & 0x80 == 0);
                        assert(s.skip(1)[i - 1] == s[i]);
                    }
                }
            },
            None => {},
        }
    }
}

/// A well-formed quantity keeps its reading when more bytes follow it.
pub proof fn lemma_vlq_scan_concat(a: Seq<u8>, b: Seq<u8>)
    requires
        vlq_scan(a) == Some(a.len() as int),
    ensures
        vlq_scan(a + b) == Some(a.len() as int),
        vlq_val((a + b).take(a.len() as int)) == vlq_val(a),
{
    lemma_vlq_scan_bounds(a);
    lemma_vlq_scan_char(a);
    let c = a + b;
    assert(forall|i: int| 0 <= i < a.len() ==> c[i] == a[i]);
    lemma_vlq_scan_first(c, a.len() - 1);
    assert(c.take(a.len() as int) =~= a);
}

/// The unsigned quantity at the head of `s`: its value and the number of
/// bytes it occupies, if `s` holds a terminator.
pub open spec fn vlq_at(s: Seq<u8>) -> Option<(nat, int)> {
    match vlq_scan(s) {
        Some(n) => Some((vlq_val(s.take(n)), n)),
        None => None,
    }
}

pub proof fn lemma_vlq_scan_bounds(s: Seq<u8>)
    ensures
        vlq_scan(s) matches Some(n) ==> 1 <= n <= s.len(),
    decreases s.len(),
{
    if s.len() > 0 && s[0] & 0x80 == 0 {
        lemma_vlq_scan_bounds(s.skip(1));
    }
}

/// `t` with the bytes of `b` written over positions `at .. at + b.len()`.
pub open spec fn overwrite(t: Seq<u8>, at: int, b: Seq<u8>) -> Seq<u8> {
    Seq::new(t.len(), |i: int| if at <= i < at + b.len() { b[i - at] } else { t[i] })
}

/// `t` after copying `len` bytes from `from` to `to`, one byte at a time in
/// ascending order, so that a source range overlapping the destination reads
/// bytes already written by the same copy.
pub open spec fn rle_copy(t: Seq<u8>, from: int, to: int, len: nat) -> Seq<u8>
    decreases len,
{
    if len == 0 {
        t
    } else {
        rle_copy(t.update(to, t[from]), from + 1, to + 1, (len - 1) as nat)
    }
}

pub proof fn lemma_rle_copy_len(t: Seq<u8>, from: int, to: int, len: nat)
    requires
        0 <= to,
        to + len <= t.len(),
    ensures
        rle_copy(t, from, to, len).len() == t.len(),
    decreases len,
{
    if len > 0 {
        lemma_rle_copy_len(t.update(to, t[from]), from + 1, to + 1, (len - 1) as nat)
    }
}

/// Copy a byte vector.
pub fn clone_bytes(v: &Vec<u8>) -> (r: Vec<u8>)
    ensures
        r@ == v@,
{
    let n = v.len();
    let mut r: Vec<u8> = Vec::new();
    let mut i: usize = 0;
    while i < n
        invariant
            i <= n,
            n == v@.len(),
            r@ == v@.subrange(0, i as int),
        decreases n - i,
    {
        let b = v[i];
        r.push(b);
        assert(r@ =~= v@.subrange(0, i + 1));
        i = i + 1;
    }
    assert(r@ =~= v@);
    r
}

/// The larger of two naturals.
pub open spec fn nat_max(a: nat, b: nat) -> nat {
    if a >= b {
        a
    } else {
        b
    }
}

/// `s` resized to length `n`: truncated, or padded with zero bytes.
pub open spec fn resize_seq(s: Seq<u8>, n: nat) -> Seq<u8> {
    if n <= s.len() {
        s.take(n as int)
    } else {
        s + Seq::new((n - s.len()) as nat, |i: int| 0u8)
    }
}

/// Resize `v` to length `n`, shortening it or padding it with zero bytes.
pub fn resize_bytes(v: &mut Vec<u8>, n: usize)
    ensures
        final(v)@ == resize_seq(old(v)@, n as nat),
{
    if n <= v.len() {
        v.truncate(n);
        assert(v@ =~= resize_seq(old(v)@, n as nat));
    } else {
        let ghost s0 = v@;
        let mut i = v.len();
        while i < n
            invariant
                s0.len() <= i <= n,
                n <= usize::MAX,
                v@.len() == i,
                v@.subrange(0, s0.len() as int) == s0,
                forall|j: int| s0.len() <= j < i ==> v@[j] == 0u8,
            decreases n - i,
        {
            v.push(0u8);
            assert(v@.subrange(0, s0.len() as int) =~= s0);
            i = i + 1;
        }
        assert(v@ =~= resize_seq(s0, n as nat));
    }
}

/// Byte-wise equality of two vectors.
pub fn bytes_eq(a: &Vec<u8>, b: &Vec<u8>) -> (r: bool)
    ensures
        r == (a@ == b@),
{
    let n = a.len();
    if n != b.len() {
        assert(a@ != b@);
        return false;
    }
    let mut i: usize = 0;
    while i < n
        invariant
            i <= n,
            n == a@.len() == b@.len(),
            forall|j: int| 0 <= j < i ==> a@[j] == b@[j],
        decreases n - i,
    {
        if a[i] != b[i] {
            return false;
        }
        i = i + 1;
    }
    proof {
        assert(a@ =~= b@);
    }
    true
}

/// The bytes of `v` from `a` up to `b`.
pub fn bytes_range(v: &Vec<u8>, a: usize, b: usize) -> (r: Vec<u8>)
    requires
        a <= b <= v@.len(),
    ensures
        r@ == v@.subrange(a as int, b as int),
{
    let vl = v.len();
    let mut r: Vec<u8> = Vec::new();
    let mut i = a;
    while i < b
        invariant
            a <= i <= b <= vl,
            vl == v@.len(),
            r@ == v@.subrange(a as int, i as int),
        decreases b - i,
    {
        let x = v[i];
        r.push(x);
        assert(r@ =~= v@.subrange(a as int, i + 1));
        i = i + 1;
    }
    r
}

/// Fill `len` bytes of `t`, starting at `at`, with `value`.
pub fn fill_bytes(t: &mut Vec<u8>, at: usize, len: usize, value: u8)
    requires
        at + len <= old(t).len(),
    ensures
        final(t)@ == overwrite(old(t)@, at as int, Seq::new(len as nat, |i: int| value)),
{
    let tl = t.len();
    let mut i: usize = 0;
    while i < len
        invariant
            i <= len,
            at + len <= t@.len(),
            tl == t@.len(),
            t@.len() == old(t)@.len(),
            forall|j: int|
                0 <= j < t@.len() ==> t@[j] == if at <= j < at + i {
                    value
                } else {
                    old(t)@[j]
                },
        decreases len - i,
    {
        t.set(at + i, value);
        i = i + 1;
    }
    assert(t@ =~= overwrite(old(t)@, at as int, Seq::new(len as nat, |i: int| value)));
}

/// Write `len` bytes of `src`, starting at `from`, over `target` starting
/// at `at`.
pub fn copy_into(target: &mut Vec<u8>, at: usize, src: &[u8], from: usize, len: usize)
    requires
        at + len <= old(target).len(),
        from + len <= src@.len(),
    ensures
        final(target)@ == overwrite(
            old(target)@,
            at as int,
            src@.subrange(from as int, (from + len) as int),
        ),
{
    let tl = target.len();
    let sl = src.len();
    let mut i: usize = 0;
    while i < len
        invariant
            i <= len,
            at + len <= target@.len(),
            from + len <= src@.len(),
            tl == target@.len(),
            sl == src@.len(),
            target@.len() == old(target)@.len(),
            forall|j: int|
                0 <= j < target@.len() ==> target@[j] == if at <= j < at + i {
                    src@[from + (j - at)]
                } else {
                    old(target)@[j]
                },
        decreases len - i,
    {
        let b = src[from + i];
        target.set(at + i, b);
        i = i + 1;
    }
    assert(target@ =~= overwrite(
        old(target)@,
        at as int,
        src@.subrange(from as int, (from + len) as int),
    ));
}

/// Copy `len` bytes inside `target` from `from` to `to`, one byte at a time
/// in ascending order, so the copy may read bytes it has just written.
pub fn copy_within(target: &mut Vec<u8>, from: usize, to: usize, len: usize)
    requires
        from + len <= old(target).len(),
        to + len <= old(target).len(),
    ensures
        final(target)@ == rle_copy(old(target)@, from as int, to as int, len as nat),
{
    let tl = target.len();
    let mut i: usize = 0;
    while i < len
        invariant
            i <= len,
            from + len <= target@.len(),
            to + len <= target@.len(),
            tl == target@.len(),
            target@.len() == old(target)@.len(),
            rle_copy(old(target)@, from as int, to as int, len as nat) == rle_copy(
                target@,
                from + i,
                to + i,
                (len - i) as nat,
            ),
        decreases len - i,
    {
        let b = target[from + i];
        target.set(to + i, b);
        i = i + 1;
    }
}

/// A zero-filled byte vector of length `n`.
pub fn zero_vec(n: usize) -> (r: Vec<u8>)
    ensures
        r@ == Seq::new(n as nat, |i: int| 0u8),
{
    let mut r: Vec<u8> = Vec::new();
    let mut i: usize = 0;
    while i < n
        invariant
            i <= n,
            r@.len() == i,
            forall|j: int| 0 <= j < i ==> r@[j] == 0u8,
        decreases n - i,
    {
        r.push(0u8);
        i = i + 1;
    }
    assert(r@ =~= Seq::new(n as nat, |i: int| 0u8));
    r
}

/// The 16-bit big-endian value formed by the first two bytes of `s`.
pub open spec fn be16_at(s: Seq<u8>) -> int {
    s[0] * 0x100 + s[1]
}

/// The 24-bit big-endian value formed by the first three bytes of `s`.
pub open spec fn be24_at(s: Seq<u8>) -> int {
    s[0] * 0x10000 + s[1] * 0x100 + s[2]
}

/// The 32-bit little-endian value formed by the first four bytes of `s`.
pub open spec fn le32_at(s: Seq<u8>) -> int {
    s[0] + s[1] * 0x100 + s[2] * 0x10000 + s[3] * 0x1000000
}

/// The little-endian 32-bit value at offset `i` of `d`.
pub fn le32_of(d: &[u8], i: usize) -> (r: u32)
    requires
        i + 4 <= d@.len(),
    ensures
        r as int == le32_at(d@.skip(i as int)),
{
    let b0 = d[i];
    let b1 = d[i + 1];
    let b2 = d[i + 2];
    let b3 = d[i + 3];
    (b0 as u32) + (b1 as u32) * 0x100 + (b2 as u32) * 0x10000 + (b3 as u32) * 0x1000000
}

/// Encode `v` as an unsigned variable-length quantity.
pub fn encode_vlq(v: u64) -> (r: Vec<u8>)
    ensures
        r@ == vlq_enc(v as nat),
{
    let mut out: Vec<u8> = Vec::new();
    let mut x = v;
    assert(vlq_enc(v as nat) =~= out@ + vlq_enc(v as nat));
    while x >= 128
        invariant
            vlq_enc(v as nat) == out@ + vlq_enc(x as nat),
        decreases x,
    {
        let b = (x % 128) as u8;
        let ghost prefix = out@;
        let ghost tail = vlq_enc((x as nat / 128 - 1) as nat);
        out.push(b);
        assert(x / 128 >= 1);
        proof {
            assert(vlq_enc(x as nat) == seq![b] + tail);
            assert((prefix + seq![b]) + tail =~= prefix + (seq![b] + tail));
        }
        x = x / 128 - 1;
    }
    let b = (x + 128) as u8;
    out.push(b);
    assert(vlq_enc(v as nat) =~= out@);
    out
}

/// Encode a signed value; the low bit of the unsigned form carries the sign.
pub fn encode_signed_vlq(v: i64) -> (r: Vec<u8>)
    requires
        v > i64::MIN,
    ensures
        r@ == svlq_enc(v as int),
{
    if v < 0 {
        let m = (-v) as u64;
        encode_vlq(2 * m + 1)
    } else {
        encode_vlq(2 * (v as u64))
    }
}

/// A read position over an in-memory byte buffer, standing in for a
/// seekable patch file.
pub struct ByteCursor<'a> {
    pub data: &'a [u8],
    pub pos: usize,
}

impl<'a> ByteCursor<'a> {
    pub fn new(data: &'a [u8]) -> (r: Self)
        ensures
            r.data@ == data@,
            r.pos == 0,
            r.inv(),
    {
        ByteCursor { data, pos: 0 }
    }

    pub fn position(&self) -> (r: usize)
        ensures
            r == self.pos,
    {
        self.pos
    }

    pub fn remaining(&self) -> (r: usize)
        requires
            self.inv(),
        ensures
            r == self.stream().len(),
    {
        self.data.len() - self.pos
    }

    /// Read a single byte.
    pub fn read_u8(&mut self) -> (r: Result<u8, ReadError>)
        requires
            old(self).inv(),
        ensures
            final(self).inv(),
            final(self).base() == old(self).base(),
            match r {
                Ok(b) => old(self).stream().len() > 0 && b == old(self).stream()[0]
                    && final(self).stream() == old(self).stream().skip(1),
                Err(e) => e == ReadError::UnexpectedEof && old(self).stream().len() == 0
                    && final(self).stream() == old(self).stream(),
            },
    {
        if self.pos < self.data.len() {
            let b = self.data[self.pos];
            self.pos = self.pos + 1;
            assert(self.data@.skip(self.pos as int) =~= old(self).stream().skip(1));
            Ok(b)
        } else {
            assert(old(self).stream().len() == 0);
            Err(ReadError::UnexpectedEof)
        }
    }

    /// Read exactly `n` bytes into a fresh buffer.
    pub fn read_exact(&mut self, n: usize) -> (r: Result<Vec<u8>, ReadError>)
        requires
            old(self).inv(),
        ensures
            final(self).inv(),
            final(self).base() == old(self).base(),
            match r {
                Ok(v) => n <= old(self).stream().len() && v@ == old(self).stream().take(n as int)
                    && final(self).stream() == old(self).stream().skip(n as int),
                Err(e) => e == ReadError::UnexpectedEof && n > old(self).stream().len()
                    && final(self).stream() == old(self).stream(),
            },
    {
        if n > self.data.len() - self.pos {
            return Err(ReadError::UnexpectedEof);
        }
        let mut v: Vec<u8> = Vec::new();
        let mut i: usize = 0;
        while i < n
            invariant
                i <= n,
                self == old(self),
                self.inv(),
                self.pos + n <= self.data@.len(),
                self.data@.len() <= usize::MAX,
                v@ == self.data@.subrange(self.pos as int, self.pos + i),
            decreases n - i,
        {
            let b = self.data[self.pos + i];
            v.push(b);
            assert(v@ =~= self.data@.subrange(self.pos as int, self.pos + i + 1));
            i = i + 1;
        }
        self.pos = self.pos + n;
        assert(v@ =~= old(self).stream().take(n as int));
        assert(self.data@.skip(self.pos as int) =~= old(self).stream().skip(n as int));
        Ok(v)
    }

    /// Move the read position `n` bytes forward, at most to the end, as a
    /// seek past the end of a file would.
    pub fn advance(&mut self, n: usize)
        requires
            old(self).inv(),
        ensures
            final(self).inv(),
            final(self).base() == old(self).base(),
            final(self).stream() == if n <= old(self).stream().len() {
                old(self).stream().skip(n as int)
            } else {
                Seq::<u8>::empty()
            },
    {
        if n > self.data.len() - self.pos {
            self.pos = self.data.len();
            assert(self.data@.skip(self.pos as int) =~= Seq::<u8>::empty());
        } else {
            self.pos = self.pos + n;
            assert(self.data@.skip(self.pos as int) =~= old(self).stream().skip(n as int));
        }
    }

    /// Read a 16-bit big-endian value.
    pub fn read_u16_be(&mut self) -> (r: Result<u16, ReadError>)
        requires
            old(self).inv(),
        ensures
            final(self).inv(),
            final(self).base() == old(self).base(),
            match r {
                Ok(v) => old(self).stream().len() >= 2 && v as int == be16_at(old(self).stream())
                    && final(self).stream() == old(self).stream().skip(2),
                Err(e) => e == ReadError::UnexpectedEof && old(self).stream().len() < 2 && final(self).stream()
                    == old(self).stream(),
            },
    {
        if self.data.len() - self.pos < 2 {
            return Err(ReadError::UnexpectedEof);
        }
        let b0 = self.data[self.pos];
        let b1 = self.data[self.pos + 1];
        self.pos = self.pos + 2;
        proof {
            assert(self.data@.skip(self.pos as int) =~= old(self).stream().skip(2));
        }
        Ok((b0 as u16) * 0x100 + (b1 as u16))
    }

    /// Read a 24-bit big-endian value.
    pub fn read_u24_be(&mut self) -> (r: Result<u32, ReadError>)
        requires
            old(self).inv(),
        ensures
            final(self).inv(),
            final(self).base() == old(self).base(),
            match r {
                Ok(v) => old(self).stream().len() >= 3 && v as int == be24_at(old(self).stream())
                    && final(self).stream() == old(self).stream().skip(3),
                Err(e) => e == ReadError::UnexpectedEof && old(self).stream().len() < 3 && final(self).stream()
                    == old(self).stream(),
            },
    {
        if self.data.len() - self.pos < 3 {
            return Err(ReadError::UnexpectedEof);
        }
        let b0 = self.data[self.pos];
        let b1 = self.data[self.pos + 1];
        let b2 = self.data[self.pos + 2];
        self.pos = self.pos + 3;
        proof {
            assert(self.data@.skip(self.pos as int) =~= old(self).stream().skip(3));
        }
        Ok((b0 as u32) * 0x10000 + (b1 as u32) * 0x100 + (b2 as u32))
    }

    /// Read a 32-bit little-endian value.
    pub fn read_u32_le(&mut self) -> (r: Result<u32, ReadError>)
        requires
            old(self).inv(),
        ensures
            final(self).inv(),
            final(self).base() == old(self).base(),
            match r {
                Ok(v) => old(self).stream().len() >= 4 && v as int == le32_at(old(self).stream())
                    && final(self).stream() == old(self).stream().skip(4),
                Err(e) => e == ReadError::UnexpectedEof && old(self).stream().len() < 4 && final(self).stream()
                    == old(self).stream(),
            },
    {
        if self.data.len() - self.pos < 4 {
            return Err(ReadError::UnexpectedEof);
        }
        let b0 = self.data[self.pos];
        let b1 = self.data[self.pos + 1];
        let b2 = self.data[self.pos + 2];
        let b3 = self.data[self.pos + 3];
        self.pos = self.pos + 4;
        proof {
            assert(self.data@.skip(self.pos as int) =~= old(self).stream().skip(4));
        }
        Ok((b0 as u32) + (b1 as u32) * 0x100 + (b2 as u32) * 0x10000 + (b3 as u32) * 0x1000000)
    }
}

impl<'a> ReadExt for ByteCursor<'a> {
    open spec fn base(&self) -> Seq<u8> {
        self.data@
    }

    open spec fn stream(&self) -> Seq<u8> {
        self.data@.skip(self.pos as int)
    }

    open spec fn inv(&self) -> bool {
        self.pos <= self.data@.len()
    }

    fn read_vlq(&mut self) -> (r: Result<u64, ReadError>) {
        let ghost s0 = self.stream();
        let ghost pos0 = self.pos as int;
        let len = self.data.len();
        // Find the terminator byte.
        let mut t: usize = self.pos;
        while t < len && self.data[t] & 0x80 == 0
            invariant
                self == old(self),
                self.inv(),
                self.pos <= t <= len,
                len == self.data@.len(),
                forall|i: int| self.pos <= i < t ==> self.data@[i] & 0x80 == 0,
            decreases len - t,
        {
            t = t + 1;
        }
        if t == len {
            proof {
                assert(forall|i: int| 0 <= i < s0.len() ==> s0[i] == self.data@[pos0 + i]);
                lemma_vlq_scan_none(s0);
            }
            self.pos = len;
            return Err(ReadError::UnexpectedEof);
        }
        let ghost k_end = t - pos0;
        let ghost n = k_end + 1;
        proof {
            assert(forall|i: int| 0 <= i < s0.len() ==> s0[i] == self.data@[pos0 + i]);
            lemma_vlq_scan_first(s0, k_end);
        }
        let ghost w = s0.take(n);
        let ghost total = vlq_val(w);
        assert(w.len() == n);
        assert(w.skip(0) =~= w);
        assert(forall|i: int| 0 <= i < n ==> w[i] == self.data@[pos0 + i]);
        // Accumulate the continuation bytes.
        let mut value: u64 = 0;
        let mut shift: u64 = 1;
        let mut j: usize = self.pos;
        let mut overflowed = false;
        while j < t
            invariant_except_break
                self == old(self),
                self.inv(),
                pos0 == self.pos as int,
                pos0 <= j <= t < len,
                len == self.data@.len(),
                s0 == self.stream(),
                forall|i: int| pos0 <= i < t ==> self.data@[i] & 0x80 == 0,
                self.data@[t as int] & 0x80 != 0,
                n == t - pos0 + 1,
                w == s0.take(n),
                total == vlq_val(w),
                forall|i: int| 0 <= i < n ==> w[i] == self.data@[pos0 + i],
                !overflowed,
                value + shift * vlq_val(w.skip(j - pos0)) == total,
                shift >= 1,
            ensures
                self == old(self),
                self.inv(),
                pos0 <= j <= t,
                if overflowed {
                    total > u64::MAX
                } else {
                    j == t && value + shift * vlq_val(w.skip(j - pos0)) == total && shift >= 1
                },
            decreases t - j,
        {
            let ghost k = j - pos0;
            let x = self.data[j];
            assert(x == w[k]);
            assert(x & 0x80 == 0);
            let x7 = (x & 0x7f) as u64;
            let ghost tail = vlq_val(w.skip(k + 1));
            proof {
                assert(w.skip(k).len() > 0);
                assert(w.skip(k)[0] == w[k]);
                assert(w.skip(k).skip(1) =~= w.skip(k + 1));
                assert(vlq_val(w.skip(k)) == (x & 0x7f) as nat + 128 * (1 + tail));
            }
            // total == value + shift * (x7 + 128 * (1 + tail))
            assert(total == value + shift * x7 + 128 * shift + 128 * shift * tail) by (nonlinear_arith)
                requires
                    total == value + shift * ((x7 + 128 * (1 + tail)) as nat),
                    shift >= 1,
            ;
            assert(x7 * shift >= 0 && shift * x7 >= 0 && 128 * shift * tail >= 0) by (nonlinear_arith);
            let m = match x7.checked_mul(shift) {
                Some(m) => m,
                None => {
                    proof {
                        assert(total >= x7 * shift);
                    }
                    overflowed = true;
                    break ;
                },
            };
            let v1 = match value.checked_add(m) {
                Some(v1) => v1,
                None => {
                    overflowed = true;
                    break ;
                },
            };
            let sh2 = match shift.checked_mul(128) {
                Some(s) => s,
                None => {
                    overflowed = true;
                    break ;
                },
            };
            let v2 = match v1.checked_add(sh2) {
                Some(v) => v,
                None => {
                    overflowed = true;
                    break ;
                },
            };
            proof {
                assert(v2 + sh2 * tail == total) by (nonlinear_arith)
                    requires
                        total == value + shift * x7 + 128 * shift + 128 * shift * tail,
                        v2 == value + shift * x7 + 128 * shift,
                        sh2 == 128 * shift,
                ;
            }
            value = v2;
            shift = sh2;
            j = j + 1;
            assert(value + shift * vlq_val(w.skip(j - pos0)) == total);
        }
        if overflowed {
            self.pos = t + 1;
            proof {
                assert(self.data@.skip(self.pos as int) =~= s0.skip(n));
            }
            return Err(ReadError::Overflow);
        }
        // The terminator byte itself.
        let ghost k = j - pos0;
        let x = self.data[t];
        assert(x == w[k]);
        assert(x & 0x80 != 0);
        let x7 = (x & 0x7f) as u64;
        proof {
            assert(w.skip(k).len() == 1);
            assert(w.skip(k)[0] == w[k]);
            assert(vlq_val(w.skip(k)) == (x & 0x7f) as nat);
            assert(x7 * shift >= 0 && shift * x7 == x7 * shift) by (nonlinear_arith);
        }
        let m = match x7.checked_mul(shift) {
            Some(m) => m,
            None => {
                proof {
                    assert(total == value + shift * x7);
                    assert(total >= x7 * shift);
                }
                self.pos = t + 1;
                proof {
                    assert(self.data@.skip(self.pos as int) =~= s0.skip(n));
                }
                return Err(ReadError::Overflow);
            },
        };
        let v = match value.checked_add(m) {
            Some(v) => v,
            None => {
                proof {
                    assert(total == value + shift * x7);
                }
                self.pos = t + 1;
                proof {
                    assert(self.data@.skip(self.pos as int) =~= s0.skip(n));
                }
                return Err(ReadError::Overflow);
            },
        };
        assert(v == total);
        self.pos = t + 1;
        proof {
            assert(self.data@.skip(self.pos as int) =~= s0.skip(n));
        }
        Ok(v)
    }

    fn read_signed_vlq(&mut self) -> (r: Result<i64, ReadError>) {
        let d = match self.read_vlq() {
            Ok(d) => d,
            Err(e) => {
                return Err(e);
            },
        };
        let magnitude = d >> 1u64;
        let negative = d & 1 != 0;
        proof {
            assert(d >> 1u64 == d / 2 && (d & 1 != 0) == (d % 2 == 1) && d / 2 < 0x8000_0000_0000_0000u64)
                by (bit_vector);
        }
        if negative {
            Ok(-(magnitude as i64))
        } else {
            Ok(magnitude as i64)
        }
    }
}

} // verus!
