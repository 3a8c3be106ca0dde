use vstd::prelude::*;

verus! {

/// A byte source made of contiguous chunks, read one chunk at a time.
pub struct MultiBuf {
    pub chunks: Vec<Vec<u8>>,
    pub pos: usize,
}

/// Returns the chunk at the current position (empty once all chunks have been
/// read) and advances the position by one, saturating at `usize::MAX`.
pub fn next_chunk(buf: &mut MultiBuf) -> (r: &[u8])
    ensures
        final(buf).chunks@ == old(buf).chunks@,
        final(buf).pos == if old(buf).pos < usize::MAX { old(buf).pos + 1 } else { old(buf).pos as int },
        old(buf).pos < old(buf).chunks@.len() ==> r@ == old(buf).chunks@[old(buf).pos as int]@,
        old(buf).pos >= old(buf).chunks@.len() ==> r@.len() == 0,
{
    let p = buf.pos;
    if p < usize::MAX {
        buf.pos = p + 1;
    }
    if p < buf.chunks.len() {
        buf.chunks[p].as_slice()
    } else {
        &[]
    }
}

} // verus!
