//! Little-endian integers and NUL-padded names, read from byte sequences.
use vstd::prelude::*;

verus! {

/// The unsigned 16-bit integer stored little-endian at `b[i..i + 2]`.
pub open spec fn le_u16(b: Seq<u8>, i: int) -> u16 {
    (b[i] as int + 256 * b[i + 1] as int) as u16
}

/// The signed 16-bit integer (two's complement) stored little-endian at `b[i..i + 2]`.
pub open spec fn le_i16(b: Seq<u8>, i: int) -> i16 {
    le_u16(b, i) as i16
}

/// The unsigned 32-bit integer stored little-endian at `b[i..i + 4]`.
pub open spec fn le_u32(b: Seq<u8>, i: int) -> u32 {
    (b[i] as int + 0x100 * b[i + 1] as int + 0x1_0000 * b[i + 2] as int + 0x100_0000
        * b[i + 3] as int) as u32
}

/// The four bytes that store `x` little-endian.
pub open spec fn u32_le_bytes(x: u32) -> Seq<u8> {
    seq![
        (x % 0x100) as u8,
        (x / 0x100 % 0x100) as u8,
        (x / 0x1_0000 % 0x100) as u8,
        (x / 0x100_0000) as u8,
    ]
}

/// `s` without its trailing NUL bytes.
pub open spec fn trim_nul(s: Seq<u8>) -> Seq<u8>
    decreases s.len(),
{
    if s.len() > 0 && s.last() == 0 {
        trim_nul(s.drop_last())
    } else {
        s
    }
}

/// The text of a fixed-width, NUL-padded name: each byte of the name, trailing NULs removed,
/// read as the character of the same code.
pub open spec fn name_text(s: Seq<u8>) -> Seq<char> {
    trim_nul(s).map_values(|c: u8| c as char)
}

pub fn read_u16(b: &[u8], i: usize) -> (r: u16)
    requires
        i + 2 <= b@.len(),
    ensures
        r == le_u16(b@, i as int),
{
    b[i] as u16 + (b[i + 1] as u16) * 256
}

pub fn read_i16(b: &[u8], i: usize) -> (r: i16)
    requires
        i + 2 <= b@.len(),
    ensures
        r == le_i16(b@, i as int),
{
    read_u16(b, i) as i16
}

pub fn read_u32(b: &[u8], i: usize) -> (r: u32)
    requires
        i + 4 <= b@.len(),
    ensures
        r == le_u32(b@, i as int),
{
    b[i] as u32 + (b[i + 1] as u32) * 0x100 + (b[i + 2] as u32) * 0x1_0000 + (b[i + 3] as u32)
        * 0x100_0000
}

/// The eight bytes `b[i..i + 8]`, as a fixed name field.
pub fn read_name(b: &[u8], i: usize) -> (r: [u8; 8])
    requires
        i + 8 <= b@.len(),
    ensures
        r@ == b@.subrange(i as int, i + 8),
{
    let r = [b[i], b[i + 1], b[i + 2], b[i + 3], b[i + 4], b[i + 5], b[i + 6], b[i + 7]];
    assert(r@ =~= b@.subrange(i as int, i + 8));
    r
}

/// Appends the little-endian bytes of `x` to `out`.
pub fn write_u32(out: &mut Vec<u8>, x: u32)
    ensures
        final(out)@ == old(out)@ + u32_le_bytes(x),
{
    out.push((x % 0x100) as u8);
    out.push((x / 0x100 % 0x100) as u8);
    out.push((x / 0x1_0000 % 0x100) as u8);
    out.push((x / 0x100_0000) as u8);
    assert(out@ =~= old(out)@ + u32_le_bytes(x));
}

/// Reading back the bytes that store `x` gives `x`.
pub proof fn lemma_u32_round_trip(x: u32)
    ensures
        le_u32(u32_le_bytes(x), 0) == x,
{
    let b = u32_le_bytes(x);
    let x0 = x % 0x100;
    let x1 = x / 0x100 % 0x100;
    let x2 = x / 0x1_0000 % 0x100;
    let x3 = x / 0x100_0000;
    assert(x3 < 0x100);
    assert(b[0] == x0 && b[1] == x1 && b[2] == x2 && b[3] == x3);
    assert(x0 + 0x100 * x1 + 0x1_0000 * x2 + 0x100_0000 * x3 == x) by (nonlinear_arith)
        requires
            x0 == x % 0x100,
            x1 == x / 0x100 % 0x100,
            x2 == x / 0x1_0000 % 0x100,
            x3 == x / 0x100_0000,
            0 <= x < 0x1_0000_0000,
    ;
}

} // verus!
