//! The leading bytes of a PNG stream: its signature and its image header.
//!
//! A PNG stream opens with eight fixed bytes and continues with the `IHDR`
//! chunk, whose data begins with the image's width and height as big-endian
//! 32-bit numbers.

use vstd::prelude::*;

verus! {

/// Bytes up to and including the height field.
pub const HEADER_LEN: usize = 24;

/// The signature, then the length (13) and the name of the `IHDR` chunk.
pub open spec fn preamble() -> Seq<u8> {
    seq![137u8, 80u8, 78u8, 71u8, 13u8, 10u8, 26u8, 10u8, 0u8, 0u8, 0u8, 13u8, 73u8, 72u8, 68u8,
        82u8]
}

/// The big-endian number in the four bytes from `at` on.
pub open spec fn be32(bytes: Seq<u8>, at: int) -> int {
    bytes[at] * 0x100_0000 + bytes[at + 1] * 0x1_0000 + bytes[at + 2] * 0x100 + bytes[at + 3]
}

/// Whether `bytes` opens as a PNG stream does.
pub open spec fn has_header(bytes: Seq<u8>) -> bool {
    bytes.len() >= HEADER_LEN && bytes.subrange(0, 16) == preamble()
}

/// The width and height a PNG stream declares.
pub open spec fn declared_size(bytes: Seq<u8>) -> (int, int) {
    (be32(bytes, 16), be32(bytes, 20))
}

fn read_be32(bytes: &Vec<u8>, at: usize) -> (n: u32)
    requires
        at + 4 <= bytes@.len(),
    ensures
        n == be32(bytes@, at as int),
{
    let len: usize = bytes.len();
    assert(at + 4 <= len);
    let b0: u32 = bytes[at] as u32;
    let b1: u32 = bytes[at + 1] as u32;
    let b2: u32 = bytes[at + 2] as u32;
    let b3: u32 = bytes[at + 3] as u32;
    b0 * 0x100_0000 + b1 * 0x1_0000 + b2 * 0x100 + b3
}

/// Reads the declared width and height, or `None` where `bytes` does not
/// open with the signature and the `IHDR` chunk.
pub fn image_size(bytes: &Vec<u8>) -> (size: Option<(u32, u32)>)
    ensures
        match size {
            Some((w, h)) => has_header(bytes@) && declared_size(bytes@) == (w as int, h as int),
            None => !has_header(bytes@),
        },
{
    if bytes.len() < HEADER_LEN {
        return None;
    }
    let expect: [u8; 16] = [137, 80, 78, 71, 13, 10, 26, 10, 0, 0, 0, 13, 73, 72, 68, 82];
    assert(expect@ =~= preamble());
    let mut i: usize = 0;
    while i < 16
        invariant
            0 <= i <= 16,
            bytes@.len() >= HEADER_LEN,
            expect@ == preamble(),
            forall|k: int| 0 <= k < i ==> bytes@[k] == preamble()[k],
        decreases 16 - i,
    {
        if bytes[i] != expect[i] {
            assert(bytes@.subrange(0, 16)[i as int] != preamble()[i as int]);
            return None;
        }
        i += 1;
    }
    assert(bytes@.subrange(0, 16) =~= preamble());
    let w: u32 = read_be32(bytes, 16);
    let h: u32 = read_be32(bytes, 20);
    Some((w, h))
}

} // verus!
