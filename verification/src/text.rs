use vstd::prelude::*;

verus! {

/// The decimal digits of `v`, most significant first, as ASCII bytes.
pub open spec fn dec_digits(v: nat) -> Seq<u8>
    decreases v,
{
    if v < 10 {
        seq![(0x30 + v) as u8]
    } else {
        dec_digits(v / 10) + seq![(0x30 + v % 10) as u8]
    }
}

/// The low `count` hexadecimal digits of `v`, most significant first, as
/// upper-case ASCII bytes.
pub open spec fn hex_digits(v: nat, count: nat) -> Seq<u8>
    decreases count,
{
    if count == 0 {
        Seq::empty()
    } else {
        hex_digits(v / 16, (count - 1) as nat) + seq![hex_digit_of(v % 16)]
    }
}

/// The ASCII byte for one hexadecimal digit.
pub open spec fn hex_digit_of(d: nat) -> u8 {
    if d < 10 {
        (0x30 + d) as u8
    } else {
        (0x37 + d) as u8
    }
}

/// A byte sequence read as characters, one character per byte.
pub open spec fn ascii_chars(s: Seq<u8>) -> Seq<char> {
    s.map_values(|b: u8| b as char)
}

pub proof fn lemma_dec_digits_ascii(v: nat)
    ensures
        forall|i: int| 0 <= i < dec_digits(v).len() ==> dec_digits(v)[i] < 0x80,
        dec_digits(v).len() >= 1,
    decreases v,
{
    if v >= 10 {
        lemma_dec_digits_ascii(v / 10);
    }
}

pub proof fn lemma_hex_digits_ascii(v: nat, count: nat)
    ensures
        forall|i: int| 0 <= i < hex_digits(v, count).len() ==> hex_digits(v, count)[i] < 0x80,
        hex_digits(v, count).len() == count,
    decreases count,
{
    if count > 0 {
        lemma_hex_digits_ascii(v / 16, (count - 1) as nat);
    }
}

/// Append the decimal digits of `v` to `out`.
pub fn push_dec(out: &mut Vec<u8>, v: u64)
    ensures
        final(out)@ == old(out)@ + dec_digits(v as nat),
    decreases v,
{
    let ghost prefix = out@;
    if v >= 10 {
        push_dec(out, v / 10);
    }
    let b = 0x30 + (v % 10) as u8;
    out.push(b);
    proof {
        if v >= 10 {
            assert((prefix + dec_digits(v as nat / 10)) + seq![b] =~= prefix + (dec_digits(
                v as nat / 10,
            ) + seq![b]));
        } else {
            assert(prefix + seq![b] =~= prefix + dec_digits(v as nat));
        }
    }
}

/// Append the low `count` hexadecimal digits of `v` to `out`.
pub fn push_hex(out: &mut Vec<u8>, v: u32, count: u32)
    ensures
        final(out)@ == old(out)@ + hex_digits(v as nat, count as nat),
    decreases count,
{
    let ghost prefix = out@;
    if count == 0 {
        assert(prefix + hex_digits(v as nat, 0) =~= prefix);
        return ;
    }
    push_hex(out, v / 16, count - 1);
    let d = (v % 16) as u8;
    let b = if d < 10 {
        0x30 + d
    } else {
        0x37 + d
    };
    out.push(b);
    proof {
        assert(b == hex_digit_of(v as nat % 16));
        assert((prefix + hex_digits(v as nat / 16, (count - 1) as nat)) + seq![b] =~= prefix + (
        hex_digits(v as nat / 16, (count - 1) as nat) + seq![b]));
    }
}

/// Relies on String::from_utf8: bytes below 0x80 decode to exactly those
/// characters, one character per byte.
#[verifier::external_body]
pub(crate) fn ascii_to_string(bytes: &Vec<u8>) -> (r: String)
    requires
        forall|i: int| 0 <= i < bytes@.len() ==> bytes@[i] < 0x80,
    ensures
        r@ == ascii_chars(bytes@),
{
    String::from_utf8(bytes.clone()).unwrap_or_default()
}

/// The decimal rendering of `v`.
pub fn dec_string(v: u64) -> (r: String)
    ensures
        r@ == ascii_chars(dec_digits(v as nat)),
{
    let mut out: Vec<u8> = Vec::new();
    push_dec(&mut out, v);
    proof {
        lemma_dec_digits_ascii(v as nat);
        assert(out@ =~= dec_digits(v as nat));
    }
    ascii_to_string(&out)
}

/// The eight-digit upper-case hexadecimal rendering of `v`.
pub fn hex8_string(v: u32) -> (r: String)
    ensures
        r@ == ascii_chars(hex_digits(v as nat, 8)),
{
    let mut out: Vec<u8> = Vec::new();
    push_hex(&mut out, v, 8);
    proof {
        lemma_hex_digits_ascii(v as nat, 8);
        assert(out@ =~= hex_digits(v as nat, 8));
    }
    ascii_to_string(&out)
}

} // verus!
