//! Writing the pixels of newly placed sprites into the staging bytes of
//! their atlas, from which the atlas texture is then filled.
use vstd::prelude::*;
use crate::atlas::URect;
use crate::text_mesh::copy_row;

verus! {

/// `data` after the first `rows` rows of `src`, each `row_len` bytes long,
/// were copied to `data`, row `r` starting at `base + r * stride`.
pub open spec fn blit(data: Seq<u8>, base: int, stride: int, row_len: int, src: Seq<u8>, rows: nat) -> Seq<u8>
    decreases rows,
{
    if rows == 0 {
        data
    } else {
        let r = rows - 1;
        copy_row(
            blit(data, base, stride, row_len, src, r as nat),
            base + r * stride,
            src.subrange(r * row_len, (r + 1) * row_len),
        )
    }
}

/// Where the top left pixel of `rect` starts among the staging bytes of an
/// atlas `atlas_width` pixels wide with `block` bytes a pixel.
pub open spec fn rect_base(rect: URect, atlas_width: int, block: int) -> int {
    (rect.y * atlas_width + rect.x) * block
}

/// Copies the pixels of a sprite's image, `block` bytes each and row after
/// row, into the staging bytes of an atlas `atlas_width` pixels wide, at the
/// sprite's rectangle `rect`; a last row that is not complete is left out.
pub fn write_sprite_image(bytes: &mut Vec<u8>, atlas_width: u32, block: u32, rect: URect, image: &[u8])
    requires
        rect.width > 0,
        block > 0,
        rect.width * block <= usize::MAX,
        rect.y + image@.len() as int / (rect.width * block) <= usize::MAX,
        image@.len() as int / (rect.width * block) > 0 ==> rect_base(rect, atlas_width as int, block as int) + (
        image@.len() as int / (rect.width * block) - 1) * (atlas_width * block) + rect.width * block <= old(
            bytes,
        )@.len(),
    ensures
        final(bytes)@ == blit(
            old(bytes)@,
            rect_base(rect, atlas_width as int, block as int),
            atlas_width * block,
            rect.width * block,
            image@,
            (image@.len() as int / (rect.width * block)) as nat,
        ),
{
    assert(rect.width * block > 0) by (nonlinear_arith)
        requires
            rect.width > 0,
            block > 0,
    ;
    let row_len: usize = rect.width as usize * block as usize;
    let rows: usize = image.len() / row_len;
    let ghost d0 = bytes@;
    let ghost base: int = rect_base(rect, atlas_width as int, block as int);
    let ghost stride: int = atlas_width * block;
    assert(d0.len() == bytes.len());
    assert(image@.len() == image.len());
    let mut index: usize = 0;
    while index < rows
        invariant
            row_len == rect.width * block,
            row_len > 0,
            block > 0,
            base == rect_base(rect, atlas_width as int, block as int),
            stride == atlas_width * block,
            rows == image@.len() as int / (row_len as int),
            rect.y + rows <= usize::MAX,
            index <= rows,
            rows > 0 ==> base + (rows - 1) * stride + row_len <= d0.len(),
            bytes@.len() == d0.len(),
            d0.len() <= usize::MAX,
            image@.len() <= usize::MAX,
            bytes@ == blit(d0, base, stride, row_len as int, image@, index as nat),
        decreases rows - index,
    {
        let ghost prev = bytes@;
        proof {
            assert((index + 1) * row_len <= rows * row_len) by (nonlinear_arith)
                requires
                    index < rows,
            ;
            assert(rows * row_len <= image@.len()) by (nonlinear_arith)
                requires
                    rows == image@.len() as int / (row_len as int),
                    row_len > 0,
            ;
            assert(index * stride <= (rows - 1) * stride) by (nonlinear_arith)
                requires
                    index < rows,
                    stride >= 0,
            ;
            assert(index * row_len + row_len == (index + 1) * row_len) by (nonlinear_arith);
            assert((index + rect.y) * atlas_width * block + rect.x * block == base + index * stride)
                by (nonlinear_arith)
                requires
                    base == (rect.y * atlas_width + rect.x) * block,
                    stride == atlas_width * block,
            ;
            assert((index + rect.y) * atlas_width <= (index + rect.y) * atlas_width * block) by (nonlinear_arith)
                requires
                    block > 0,
            ;
            assert(0 <= (index + rect.y) * atlas_width) by (nonlinear_arith);
            assert(0 <= rect.x * block) by (nonlinear_arith);
            assert((index + rect.y) * atlas_width <= usize::MAX);
        }
        let row_y: usize = index + rect.y as usize;
        let line: usize = row_y * atlas_width as usize;
        let offset: usize = line * block as usize + rect.x as usize * block as usize;
        let start: usize = index * row_len;
        let mut c: usize = 0;
        while c < row_len
            invariant
                c <= row_len,
                offset + row_len <= prev.len(),
                prev.len() <= usize::MAX,
                image@.len() <= usize::MAX,
                start + row_len <= image@.len(),
                bytes@.len() == prev.len(),
                forall|k: int|
                    0 <= k < prev.len() ==> #[trigger] bytes@[k] == if offset <= k < offset + c {
                        image@[start + k - offset]
                    } else {
                        prev[k]
                    },
            decreases row_len - c,
        {
            bytes.set(offset + c, image[start + c]);
            c = c + 1;
        }
        proof {
            let row = image@.subrange(start as int, start + row_len);
            assert(bytes@ =~= copy_row(prev, offset as int, row));
        }
        index = index + 1;
    }
}

} // verus!
