//! The binary container: a length header, the data segment, the code segment.

use crate::error::{result_view, AsmError, AsmErrorView};
use vstd::prelude::*;

verus! {

/// The four bytes of `n`, least significant first.
pub open spec fn length_header(n: nat) -> Seq<u8> {
    seq![
        (n % 0x100) as u8,
        (n / 0x100 % 0x100) as u8,
        (n / 0x1_0000 % 0x100) as u8,
        (n / 0x100_0000 % 0x100) as u8,
    ]
}

/// The container for the two segments: the length of `data` as a 32-bit
/// little-endian number, then `data`, then `code`.
pub open spec fn image(data: Seq<u8>, code: Seq<u8>) -> Result<Seq<u8>, AsmErrorView> {
    if data.len() > u32::MAX {
        Err(AsmErrorView::Overflow)
    } else {
        Ok(length_header(data.len()) + data + code)
    }
}

/// Appends `bytes` to `out`.
pub(crate) fn append(out: &mut Vec<u8>, bytes: &[u8])
    ensures
        final(out)@ == old(out)@ + bytes@,
{
    let mut k: usize = 0;
    while k < bytes.len()
        invariant
            k <= bytes.len(),
            out@ == old(out)@ + bytes@.take(k as int),
        decreases bytes.len() - k,
    {
        out.push(bytes[k]);
        k += 1;
    }
}

/// Builds the binary container for a data segment and a code segment. The
/// header holds the length of the data segment, so a data segment of more
/// than `u32::MAX` bytes is refused.
pub fn binary_image(data: &[u8], code: &[u8]) -> (r: Result<Vec<u8>, AsmError>)
    ensures
        result_view(r) == image(data@, code@),
{
    if data.len() > u32::MAX as usize {
        return Err(AsmError::Overflow);
    }
    let n = data.len() as u32;
    let mut out: Vec<u8> = Vec::new();
    out.push((n % 0x100) as u8);
    out.push((n / 0x100 % 0x100) as u8);
    out.push((n / 0x1_0000 % 0x100) as u8);
    out.push((n / 0x100_0000 % 0x100) as u8);
    assert(out@ =~= length_header(data@.len()));
    append(&mut out, data);
    append(&mut out, code);
    Ok(out)
}

} // verus!
