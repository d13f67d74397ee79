//! The header of the `.flo` optical-flow file format: the tag `PIEH` (the
//! little-endian `float32` 202021.25), then the width and the height as
//! little-endian `int32`. Interleaved `(flow_x, flow_y)` `float32` pairs
//! follow, row by row.
use vstd::prelude::*;
use crate::types::EngineError;

verus! {

/// The four tag bytes.
pub open spec fn flo_tag() -> Seq<u8> {
    seq![0x50u8, 0x49u8, 0x45u8, 0x48u8]
}

/// The little-endian bytes of a non-negative 32-bit value.
pub open spec fn le_bytes(v: int) -> Seq<u8> {
    seq![(v % 256) as u8, ((v / 256) % 256) as u8, ((v / 65536) % 256) as u8, ((v / 16777216) % 256) as u8]
}

fn push_le(out: &mut Vec<u8>, v: u32)
    ensures
        final(out)@ == old(out)@ + le_bytes(v as int),
{
    out.push((v % 256) as u8);
    out.push(((v / 256) % 256) as u8);
    out.push(((v / 65536) % 256) as u8);
    out.push(((v / 16777216) % 256) as u8);
    assert(final(out)@ =~= old(out)@ + le_bytes(v as int));
}

/// The twelve header bytes for a `width` by `height` field. Fails with
/// `InvalidInput` when a dimension does not fit an `int32`.
pub fn flo_header(width: usize, height: usize) -> (r: Result<Vec<u8>, EngineError>)
    ensures
        r is Err <==> width > i32::MAX || height > i32::MAX,
        r matches Err(e) ==> e == EngineError::InvalidInput,
        r matches Ok(b) ==> b@ == flo_tag() + le_bytes(width as int) + le_bytes(height as int),
{
    if width > i32::MAX as usize || height > i32::MAX as usize {
        return Err(EngineError::InvalidInput);
    }
    let mut out: Vec<u8> = Vec::with_capacity(12);
    out.push(0x50);
    out.push(0x49);
    out.push(0x45);
    out.push(0x48);
    assert(out@ =~= flo_tag());
    push_le(&mut out, width as u32);
    push_le(&mut out, height as u32);
    Ok(out)
}

} // verus!
