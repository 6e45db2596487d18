//! RGBA image buffers and the packing of strided pixel planes into them.
use vstd::prelude::*;

verus! {

/// A tightly packed RGBA image (4 bytes per pixel, row after row).
#[derive(Debug, Clone, PartialEq, Eq)]
pub struct RgbaImage {
    pub width: u32,
    pub height: u32,
    pub data: Vec<u8>,
}

/// The first `row_len` bytes of each of the first `rows` rows of a plane
/// whose rows start every `stride` bytes, concatenated. Rows that do not fit
/// in the plane are left out.
pub open spec fn packed_rows(plane: Seq<u8>, stride: nat, row_len: nat, rows: nat) -> Seq<u8>
    decreases rows,
{
    if rows == 0 {
        Seq::empty()
    } else {
        let y = (rows - 1) as nat;
        let start = y * stride;
        let prev = packed_rows(plane, stride, row_len, y);
        if start + row_len <= plane.len() {
            prev + plane.subrange(start as int, (start + row_len) as int)
        } else {
            prev
        }
    }
}

/// Pack the visible part of a strided plane: `rows` rows of `row_len`
/// bytes each, skipping rows that the plane does not hold completely.
pub fn pack_rows(plane: &[u8], stride: usize, row_len: usize, rows: usize) -> (r: Vec<u8>)
    ensures
        r@ == packed_rows(plane@, stride as nat, row_len as nat, rows as nat),
{
    let mut data: Vec<u8> = Vec::new();
    let plen: usize = plane.len();
    let mut y: usize = 0;
    while y < rows
        invariant
            y <= rows,
            plen == plane@.len(),
            data@ == packed_rows(plane@, stride as nat, row_len as nat, y as nat),
        decreases rows - y,
    {
        let fits = match y.checked_mul(stride) {
            Some(start) => match start.checked_add(row_len) {
                Some(end) => end <= plen,
                None => false,
            },
            None => false,
        };
        proof {
            let start = (y as nat) * (stride as nat);
            if !fits && start + row_len <= plane@.len() {
                assert(start <= usize::MAX);
            }
        }
        if fits {
            let start = y * stride;
            let mut i: usize = 0;
            let ghost before = data@;
            while i < row_len
                invariant
                    i <= row_len,
                    plen == plane@.len(),
                    start + row_len <= plen,
                    data@ == before + plane@.subrange(start as int, start + i),
                decreases row_len - i,
            {
                data.push(plane[start + i]);
                assert(plane@.subrange(start as int, start + i + 1) =~= plane@.subrange(
                    start as int,
                    start + i,
                ).push(plane@[start + i]));
                i = i + 1;
            }
        }
        y = y + 1;
    }
    data
}

} // verus!
