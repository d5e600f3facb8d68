//! Integer parts of drawing meshes: copying rendered glyphs into the font
//! texture, the triangle indices of a text's quads, and the indices of
//! meshes merged into one draw call.
use vstd::prelude::*;

verus! {

/// The width and height of the font texture, in texels of one byte.
pub const FONT_TEXTURE_SIZE: usize = 1024;

/// A rectangle of the font texture, from `min` up to but not including
/// `max`, as x then y.
#[derive(Debug, Clone, Copy, PartialEq, Eq)]
pub struct FontRect {
    pub min: [u32; 2],
    pub max: [u32; 2],
}

/// `data` with `row` written over it from `offset` on.
pub open spec fn copy_row(data: Seq<u8>, offset: int, row: Seq<u8>) -> Seq<u8> {
    data.take(offset) + row + data.skip(offset + row.len())
}

/// The texture `data` after the first `rows` rows of a glyph `width` texels
/// wide, whose texels `bytes` holds row after row, were copied to the
/// rectangle whose top left texel is (`min_x`, `min_y`).
pub open spec fn blit_rows(data: Seq<u8>, min_x: int, min_y: int, width: int, bytes: Seq<u8>, rows: nat) -> Seq<u8>
    decreases rows,
{
    if rows == 0 {
        data
    } else {
        let r = rows - 1;
        copy_row(
            blit_rows(data, min_x, min_y, width, bytes, r as nat),
            (min_y + r) * FONT_TEXTURE_SIZE + min_x,
            bytes.subrange(r * width, (r + 1) * width),
        )
    }
}

/// Copies the texels of a rendered glyph, row after row, into the font
/// texture at `rect`; a last row that is not complete is left out.
pub fn write_font_texture(data: &mut Vec<u8>, rect: FontRect, bytes: &[u8])
    requires
        rect.min[0] < rect.max[0],
        bytes@.len() as int / ((rect.max[0] - rect.min[0]) as int) > 0 ==> (rect.min[1] + bytes@.len() as int / ((rect.max[0]
            - rect.min[0]) as int) - 1) * FONT_TEXTURE_SIZE + rect.min[0] + (rect.max[0] - rect.min[0]) <= old(
            data,
        )@.len(),
    ensures
        final(data)@ == blit_rows(
            old(data)@,
            rect.min[0] as int,
            rect.min[1] as int,
            (rect.max[0] - rect.min[0]) as int,
            bytes@,
            (bytes@.len() as int / ((rect.max[0] - rect.min[0]) as int)) as nat,
        ),
{
    let min_x = rect.min[0] as usize;
    let min_y = rect.min[1] as usize;
    let width = (rect.max[0] - rect.min[0]) as usize;
    let rows = bytes.len() / width;
    let ghost d0 = data@;
    assert(d0.len() == data.len());
    assert(bytes@.len() == bytes.len());
    let mut index: usize = 0;
    while index < rows
        invariant
            width > 0,
            rows == bytes@.len() as int / (width as int),
            index <= rows,
            rows > 0 ==> (min_y + rows - 1) * FONT_TEXTURE_SIZE + min_x + width <= d0.len(),
            data@.len() == d0.len(),
            d0.len() <= usize::MAX,
            bytes@.len() <= usize::MAX,
            data@ == blit_rows(d0, min_x as int, min_y as int, width as int, bytes@, index as nat),
        decreases rows - index,
    {
        let ghost prev = data@;
        proof {
            assert((index + 1) * width <= rows * width) by (nonlinear_arith)
                requires
                    index < rows,
            ;
            assert(rows * width <= bytes@.len()) by (nonlinear_arith)
                requires
                    rows == bytes@.len() as int / (width as int),
                    width > 0,
            ;
            assert((index + min_y) * FONT_TEXTURE_SIZE + min_x + width <= d0.len()) by (nonlinear_arith)
                requires
                    FONT_TEXTURE_SIZE == 1024,
                    index < rows,
                    (min_y + rows - 1) * FONT_TEXTURE_SIZE + min_x + width <= d0.len(),
            ;
            assert(index * width + width == (index + 1) * width) by (nonlinear_arith);
        }
        let offset = (index + min_y) * FONT_TEXTURE_SIZE + min_x;
        let start = index * width;
        let mut c: usize = 0;
        while c < width
            invariant
                c <= width,
                offset + width <= prev.len(),
                prev.len() <= usize::MAX,
                bytes@.len() <= usize::MAX,
                start + width <= bytes@.len(),
                data@.len() == prev.len(),
                forall|k: int|
                    0 <= k < prev.len() ==> #[trigger] data@[k] == if offset <= k < offset + c {
                        bytes@[start + k - offset]
                    } else {
                        prev[k]
                    },
            decreases width - c,
        {
            data.set(offset + c, bytes[start + c]);
            c = c + 1;
        }
        proof {
            let row = bytes@.subrange(start as int, start + width);
            assert(data@ =~= copy_row(prev, offset as int, row));
        }
        index = index + 1;
    }
}

/// Whether texel `k` of the texture lies in row `r` of a glyph `width`
/// texels wide whose top left texel is (`min_x`, `min_y`).
pub open spec fn in_glyph_row(min_x: int, min_y: int, width: int, r: int, k: int) -> bool {
    (min_y + r) * FONT_TEXTURE_SIZE + min_x <= k < (min_y + r) * FONT_TEXTURE_SIZE + min_x + width
}

/// Whether texel `k` lies in one of the first `rows` rows of the glyph.
pub open spec fn in_glyph(min_x: int, min_y: int, width: int, rows: int, k: int) -> bool {
    exists|r: int| 0 <= r < rows && #[trigger] in_glyph_row(min_x, min_y, width, r, k)
}

/// When a glyph's rows stay inside the texture's rows, each texel of the
/// rectangle gets the glyph's texel and every other texel of the texture
/// keeps its value.
pub proof fn lemma_blit_places_glyph(
    data: Seq<u8>,
    min_x: int,
    min_y: int,
    width: int,
    bytes: Seq<u8>,
    rows: nat,
)
    requires
        0 <= min_x,
        0 <= min_y,
        0 < width,
        min_x + width <= FONT_TEXTURE_SIZE,
        rows * width <= bytes.len(),
        rows > 0 ==> (min_y + rows - 1) * FONT_TEXTURE_SIZE + min_x + width <= data.len(),
    ensures
        blit_rows(data, min_x, min_y, width, bytes, rows).len() == data.len(),
        forall|r: int, c: int|
            0 <= r < rows && 0 <= c < width ==> #[trigger] blit_rows(data, min_x, min_y, width, bytes, rows)[(min_y
                + r) * FONT_TEXTURE_SIZE + min_x + c] == bytes[r * width + c],
        forall|k: int|
            0 <= k < data.len() && !in_glyph(min_x, min_y, width, rows as int, k) ==> #[trigger] blit_rows(
                data,
                min_x,
                min_y,
                width,
                bytes,
                rows,
            )[k] == data[k],
    decreases rows,
{
    if rows > 0 {
        let r0 = rows - 1;
        assert(r0 * width + width <= bytes.len()) by (nonlinear_arith)
            requires
                rows * width <= bytes.len(),
                r0 == rows - 1,
        ;
        assert(r0 > 0 ==> (min_y + r0 - 1) * FONT_TEXTURE_SIZE + min_x + width <= data.len()) by (nonlinear_arith)
            requires
                FONT_TEXTURE_SIZE == 1024,
                (min_y + rows - 1) * FONT_TEXTURE_SIZE + min_x + width <= data.len(),
                r0 == rows - 1,
        ;
        assert(r0 * width <= bytes.len()) by (nonlinear_arith)
            requires
                r0 * width + width <= bytes.len(),
                width > 0,
        ;
        lemma_blit_places_glyph(data, min_x, min_y, width, bytes, r0 as nat);
        let prev = blit_rows(data, min_x, min_y, width, bytes, r0 as nat);
        let offset = (min_y + r0) * FONT_TEXTURE_SIZE + min_x;
        let row = bytes.subrange(r0 * width, (r0 + 1) * width);
        assert((r0 + 1) * width == r0 * width + width) by (nonlinear_arith);
        let cur = blit_rows(data, min_x, min_y, width, bytes, rows);
        assert(cur == copy_row(prev, offset, row));
        assert forall|r: int, c: int| 0 <= r < rows && 0 <= c < width implies #[trigger] cur[(min_y + r)
            * FONT_TEXTURE_SIZE + min_x + c] == bytes[r * width + c] by {
            let k = (min_y + r) * FONT_TEXTURE_SIZE + min_x + c;
            if r == r0 {
                assert(cur[k] == row[c]);
            } else {
                assert(r < r0);
                assert(k < offset);
                assert(r * width + c < r0 * width) by (nonlinear_arith)
                    requires
                        r < r0,
                        c < width,
                        0 <= c,
                ;
                assert(0 <= r * width) by (nonlinear_arith)
                    requires
                        0 <= r,
                        0 < width,
                ;
                assert(cur[k] == prev[k]);
            }
        }
        assert forall|k: int| 0 <= k < data.len() && !in_glyph(min_x, min_y, width, rows as int, k) implies #[trigger] cur[k]
            == data[k] by {
            if !(offset <= k < offset + width) {
                assert(!in_glyph(min_x, min_y, width, r0, k)) by {
                    if in_glyph(min_x, min_y, width, r0, k) {
                        let r = choose|r: int| 0 <= r < r0 && #[trigger] in_glyph_row(min_x, min_y, width, r, k);
                        assert(in_glyph_row(min_x, min_y, width, r, k) && 0 <= r < rows);
                    }
                }
            } else {
                assert(in_glyph_row(min_x, min_y, width, r0, k));
            }
            assert(cur[k] == prev[k]);
        }
    }
}

/// The triangle indices of a text whose characters are drawn with meshes
/// of `lens` vertices each: two triangles per character over its first
/// four vertices, counted from where its vertices begin.
pub open spec fn text_indices(lens: Seq<usize>) -> Seq<u32>
    decreases lens.len(),
{
    if lens.len() == 0 {
        Seq::empty()
    } else {
        let o = vertex_offset(lens.drop_last());
        text_indices(lens.drop_last()) + seq![
            (o + 2) as u32,
            (o + 1) as u32,
            o as u32,
            (o + 2) as u32,
            (o + 3) as u32,
            (o + 1) as u32,
        ]
    }
}

/// Where the vertices of the character after `lens` begin: how many
/// vertices the characters before it have.
pub open spec fn vertex_offset(lens: Seq<usize>) -> int
    decreases lens.len(),
{
    if lens.len() == 0 {
        0
    } else {
        vertex_offset(lens.drop_last()) + lens.last()
    }
}

proof fn lemma_offset_grows(lens: Seq<usize>, i: int)
    requires
        0 <= i <= lens.len(),
    ensures
        0 <= vertex_offset(lens.take(i)) <= vertex_offset(lens),
    decreases lens.len(),
{
    if i < lens.len() {
        assert(lens.drop_last().take(i) =~= lens.take(i));
        lemma_offset_grows(lens.drop_last(), i);
    } else {
        assert(lens.take(i) =~= lens);
        if lens.len() > 0 {
            lemma_offset_grows(lens.drop_last(), 0);
        }
    }
}

/// The triangle indices of a text's quads, given how many vertices each
/// character's mesh has.
pub fn text_mesh_indices(lens: &Vec<usize>) -> (indexs: Vec<u32>)
    requires
        vertex_offset(lens@) + 3 <= u32::MAX,
    ensures
        indexs@ == text_indices(lens@),
{
    let mut indexs: Vec<u32> = Vec::new();
    let mut index_offset: usize = 0;
    let n = lens.len();
    let mut i: usize = 0;
    while i < n
        invariant
            n == lens.len(),
            i <= n,
            vertex_offset(lens@) + 3 <= u32::MAX,
            index_offset == vertex_offset(lens@.take(i as int)),
            indexs@ == text_indices(lens@.take(i as int)),
        decreases n - i,
    {
        proof {
            let t = lens@.take(i + 1);
            assert(t.drop_last() =~= lens@.take(i as int));
            assert(t.last() == lens@[i as int]);
            lemma_offset_grows(lens@, i + 1);
            lemma_offset_grows(lens@, i as int);
        }
        let o = index_offset as u32;
        indexs.push(o + 2);
        indexs.push(o + 1);
        indexs.push(o);
        indexs.push(o + 2);
        indexs.push(o + 3);
        indexs.push(o + 1);
        index_offset = index_offset + lens[i];
        proof {
            assert(indexs@ =~= text_indices(lens@.take(i + 1)));
        }
        i = i + 1;
    }
    proof {
        assert(lens@.take(n as int) =~= lens@);
    }
    indexs
}


/// How many vertices the meshes `meshes` (each its indices and vertex
/// count) have together.
pub open spec fn mesh_offset(meshes: Seq<(Vec<u32>, usize)>) -> int
    decreases meshes.len(),
{
    if meshes.len() == 0 {
        0
    } else {
        mesh_offset(meshes.drop_last()) + meshes.last().1
    }
}

/// The indices of meshes merged into one: each mesh's indices, moved past
/// the vertices of the meshes before it.
pub open spec fn merged_indices(meshes: Seq<(Vec<u32>, usize)>) -> Seq<u32>
    decreases meshes.len(),
{
    if meshes.len() == 0 {
        Seq::empty()
    } else {
        let o = mesh_offset(meshes.drop_last());
        merged_indices(meshes.drop_last()) + meshes.last().0@.map_values(|v: u32| (v + o) as u32)
    }
}

/// The merged indices fit a `u32`: every index moved past the vertices
/// before its mesh, and the count of all vertices.
pub open spec fn merge_fits(meshes: Seq<(Vec<u32>, usize)>) -> bool {
    &&& mesh_offset(meshes) <= u32::MAX
    &&& forall|k: int, j: int|
        0 <= k < meshes.len() && 0 <= j < meshes[k].0@.len() ==> #[trigger] meshes[k].0@[j] + mesh_offset(
            meshes.take(k),
        ) <= u32::MAX
}

proof fn lemma_mesh_offset_grows(meshes: Seq<(Vec<u32>, usize)>, i: int)
    requires
        0 <= i <= meshes.len(),
    ensures
        0 <= mesh_offset(meshes.take(i)) <= mesh_offset(meshes),
    decreases meshes.len(),
{
    if i < meshes.len() {
        assert(meshes.drop_last().take(i) =~= meshes.take(i));
        lemma_mesh_offset_grows(meshes.drop_last(), i);
    } else {
        assert(meshes.take(i) =~= meshes);
        if meshes.len() > 0 {
            lemma_mesh_offset_grows(meshes.drop_last(), 0);
        }
    }
}

/// The indices of meshes merged into one draw call, given each mesh's
/// indices and vertex count.
pub fn merge_mesh_indices(meshes: &Vec<(Vec<u32>, usize)>) -> (indexs: Vec<u32>)
    requires
        merge_fits(meshes@),
    ensures
        indexs@ == merged_indices(meshes@),
{
    let mut indexs: Vec<u32> = Vec::new();
    let mut index_offset: u32 = 0;
    let n = meshes.len();
    let mut i: usize = 0;
    while i < n
        invariant
            n == meshes.len(),
            i <= n,
            merge_fits(meshes@),
            index_offset == mesh_offset(meshes@.take(i as int)),
            indexs@ == merged_indices(meshes@.take(i as int)),
        decreases n - i,
    {
        let ghost before = indexs@;
        let mesh = &meshes[i];
        proof {
            let t = meshes@.take(i + 1);
            assert(t.drop_last() =~= meshes@.take(i as int));
            assert(t.last() == meshes@[i as int]);
            lemma_mesh_offset_grows(meshes@, i + 1);
        }
        let m = mesh.0.len();
        let mut j: usize = 0;
        while j < m
            invariant
                m == mesh.0.len(),
                j <= m,
                *mesh == meshes@[i as int],
                i < n == meshes.len(),
                merge_fits(meshes@),
                index_offset == mesh_offset(meshes@.take(i as int)),
                indexs@ == before + mesh.0@.take(j as int).map_values(|v: u32| (v + index_offset) as u32),
            decreases m - j,
        {
            proof {
                assert(meshes@[i as int].0@[j as int] + mesh_offset(meshes@.take(i as int)) <= u32::MAX);
            }
            indexs.push(mesh.0[j] + index_offset);
            proof {
                assert(mesh.0@.take(j + 1).map_values(|v: u32| (v + index_offset) as u32) =~= mesh.0@.take(
                    j as int,
                ).map_values(|v: u32| (v + index_offset) as u32).push((mesh.0@[j as int] + index_offset) as u32));
            }
            j = j + 1;
        }
        proof {
            assert(mesh.0@.take(m as int) =~= mesh.0@);
        }
        index_offset = index_offset + mesh.1 as u32;
        i = i + 1;
    }
    proof {
        assert(meshes@.take(n as int) =~= meshes@);
    }
    indexs
}

} // verus!
