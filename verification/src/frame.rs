//! Frame-buffer row flipping.
//!
//! A raster capture arrives with the origin at the bottom-left; image files
//! put the origin at the top-left.  Saving a frame therefore reverses the
//! row order of the RGBA byte buffer while keeping each row intact.

use vstd::prelude::*;

verus! {

/// Byte `col` of row `row` in a buffer whose rows are `row_bytes` wide.
pub open spec fn row_byte(buf: Seq<u8>, row_bytes: int, row: int, col: int) -> u8 {
    buf[row * row_bytes + col]
}

/// Reverses the row order of an RGBA pixel buffer: row `row` of the output
/// is row `height - 1 - row` of the input, byte for byte.  The output has
/// exactly the input's size.
pub fn flip_vertical(pixels: &Vec<u8>, width: usize, height: usize) -> (r: Vec<u8>)
    requires
        width * height * 4 == pixels@.len(),
        width * 4 <= usize::MAX,
    ensures
        r@.len() == pixels@.len(),
        forall|row: int, col: int|
            0 <= row < height && 0 <= col < width * 4 ==> #[trigger] row_byte(
                r@,
                width * 4,
                row,
                col,
            ) == row_byte(pixels@, width * 4, height - 1 - row, col),
{
    let row_bytes = width * 4;
    let plen = pixels.len();
    proof {
        assert(height * row_bytes == pixels@.len()) by (nonlinear_arith)
            requires
                width * height * 4 == pixels@.len(),
                row_bytes == width * 4,
        ;
    }
    let mut out: Vec<u8> = Vec::new();
    let mut orow: usize = 0;
    while orow < height
        invariant
            orow <= height,
            plen == pixels@.len(),
            height * row_bytes == pixels@.len(),
            row_bytes == width * 4,
            out@.len() == orow * row_bytes,
            forall|o: int, c: int|
                0 <= o < orow && 0 <= c < row_bytes ==> #[trigger] row_byte(out@, row_bytes as int, o, c)
                    == row_byte(pixels@, row_bytes as int, height - 1 - o, c),
        decreases height - orow,
    {
        let src = height - 1 - orow;
        proof {
            assert(0 <= src * row_bytes && src * row_bytes + row_bytes <= height
                * row_bytes) by (nonlinear_arith)
                requires
                    0 <= src < height as int,
                    row_bytes >= 0,
            ;
            assert(0 <= orow * row_bytes && orow * row_bytes + row_bytes <= height
                * row_bytes) by (nonlinear_arith)
                requires
                    0 <= orow < height as int,
                    row_bytes >= 0,
            ;
        }
        let base = src * row_bytes;
        let mut c: usize = 0;
        while c < row_bytes
            invariant
                c <= row_bytes,
                base == (height - 1 - orow) * row_bytes,
                base + row_bytes <= pixels@.len(),
                orow < height,
                out@.len() == orow * row_bytes + c,
                orow * row_bytes + row_bytes <= height * row_bytes,
                forall|o: int, cc: int|
                    0 <= o < orow && 0 <= cc < row_bytes ==> #[trigger] row_byte(
                        out@,
                        row_bytes as int,
                        o,
                        cc,
                    ) == row_byte(pixels@, row_bytes as int, height - 1 - o, cc),
                forall|cc: int|
                    0 <= cc < c ==> #[trigger] row_byte(out@, row_bytes as int, orow as int, cc)
                        == row_byte(pixels@, row_bytes as int, height - 1 - orow, cc),
            decreases row_bytes - c,
        {
            let ghost pre = out@;
            out.push(pixels[base + c]);
            proof {
                let rb = row_bytes as int;
                assert forall|o: int, cc: int|
                    0 <= o < orow && 0 <= cc < row_bytes implies #[trigger] row_byte(
                    out@,
                    rb,
                    o,
                    cc,
                ) == row_byte(pixels@, rb, height - 1 - o, cc) by {
                    assert(row_byte(pre, rb, o, cc) == row_byte(pixels@, rb, height - 1 - o, cc));
                    assert(0 <= o * rb + cc < orow * rb + c) by (nonlinear_arith)
                        requires
                            0 <= o < orow as int,
                            0 <= cc < rb,
                            0 <= c,
                    ;
                    assert(out@[o * rb + cc] == pre[o * rb + cc]);
                }
                assert forall|cc: int|
                    0 <= cc < c + 1 implies #[trigger] row_byte(out@, rb, orow as int, cc)
                    == row_byte(pixels@, rb, height - 1 - orow, cc) by {
                    if cc < c {
                        assert(row_byte(pre, rb, orow as int, cc) == row_byte(
                            pixels@,
                            rb,
                            height - 1 - orow,
                            cc,
                        ));
                        assert(out@[orow as int * rb + cc] == pre[orow as int * rb + cc]);
                    } else {
                        assert(out@[orow as int * rb + cc] == pixels@[base + c]);
                    }
                }
            }
            c += 1;
        }
        proof {
            assert((orow + 1) * row_bytes == orow * row_bytes + row_bytes) by (nonlinear_arith);
        }
        orow += 1;
    }
    out
}

} // verus!
