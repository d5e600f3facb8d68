//! A dynamic texture atlas that packs sprites with the max-rects method: it
//! keeps the maximal free rectangles of the atlas and places each sprite at
//! the free position whose top edge is lowest.
use vstd::prelude::*;

verus! {

/// A rectangle: its corner and its size.
#[derive(Debug, Clone, Copy, Default)]
pub struct Rect<T> {
    pub x: T,
    pub y: T,
    pub width: T,
    pub height: T,
}

/// A rectangle of whole pixels.
pub type URect = Rect<u32>;

/// One past the last column of `r`.
pub open spec fn right(r: URect) -> int {
    r.x + r.width
}

/// One past the last row of `r`.
pub open spec fn bottom(r: URect) -> int {
    r.y + r.height
}

/// Whether the pixel `(px, py)` lies in `r`.
pub open spec fn has_point(r: URect, px: int, py: int) -> bool {
    r.x <= px < right(r) && r.y <= py < bottom(r)
}

/// Whether `a` lies within `b`.
pub open spec fn contained(a: URect, b: URect) -> bool {
    a.x >= b.x && a.y >= b.y && right(a) <= right(b) && bottom(a) <= bottom(b)
}

/// Whether `a` and `b` share area: neither lies wholly beside, above or below
/// the other.
pub open spec fn overlaps(a: URect, b: URect) -> bool {
    !(a.x >= right(b) || right(a) <= b.x || a.y >= bottom(b) || bottom(a) <= b.y)
}

/// Whether `r` lies within an atlas of the given size.
pub open spec fn in_bounds(r: URect, w: int, h: int) -> bool {
    right(r) <= w && bottom(r) <= h
}

/// Whether `r` is large enough for a `w` by `h` sprite.
pub open spec fn fits(r: URect, w: int, h: int) -> bool {
    r.width >= w && r.height >= h
}

/// The rectangle of size `w` by `h` at the corner of `r`.
pub open spec fn placed(r: URect, w: u32, h: u32) -> URect {
    Rect { x: r.x, y: r.y, width: w, height: h }
}

/// Whether `a` is placed strictly better than `b` for a sprite of height
/// `h`: its top edge is lower, or as low and further left.
pub open spec fn better(a: URect, b: URect, h: int) -> bool {
    a.y + h < b.y + h || (a.y + h == b.y + h && a.x < b.x)
}

/// The free rectangles at which a `w` by `h` sprite can go: those that fit
/// it with its top edge below `u32::MAX`.
pub open spec fn candidate(r: URect, w: int, h: int) -> bool {
    fits(r, w, h) && r.y + h < u32::MAX
}

/// The parts of `f` that remain free once `u`, which overlaps it, is used:
/// the parts above, below, left of and right of `u`, each as wide or as tall
/// as `f`, in that order, leaving out those that are empty.
pub open spec fn split_pieces(f: URect, u: URect) -> Seq<URect> {
    let top: Seq<URect> = if u.y > f.y && u.y < bottom(f) {
        seq![Rect { x: f.x, y: f.y, width: f.width, height: (u.y - f.y) as u32 }]
    } else {
        seq![]
    };
    let below: Seq<URect> = if bottom(u) < bottom(f) {
        seq![
            Rect {
                x: f.x,
                y: bottom(u) as u32,
                width: f.width,
                height: (bottom(f) - bottom(u)) as u32,
            },
        ]
    } else {
        seq![]
    };
    let left: Seq<URect> = if u.x > f.x && u.x < right(f) {
        seq![Rect { x: f.x, y: f.y, width: (u.x - f.x) as u32, height: f.height }]
    } else {
        seq![]
    };
    let right_part: Seq<URect> = if right(u) < right(f) {
        seq![
            Rect {
                x: right(u) as u32,
                y: f.y,
                width: (right(f) - right(u)) as u32,
                height: f.height,
            },
        ]
    } else {
        seq![]
    };
    top + below + left + right_part
}

/// Whether the rectangle of size fits in 32 bits on each axis.
pub open spec fn no_overflow(r: URect) -> bool {
    right(r) <= u32::MAX && bottom(r) <= u32::MAX
}

/// The pieces of a free rectangle lie within it, share no area with the
/// used rectangle, and cover every pixel of it that the used rectangle does
/// not.
pub proof fn lemma_split_pieces(f: URect, u: URect)
    requires
        overlaps(u, f),
        no_overflow(f),
        no_overflow(u),
    ensures
        forall|k: int| 0 <= k < split_pieces(f, u).len() ==> contained(#[trigger] split_pieces(f, u)[k], f),
        forall|k: int| 0 <= k < split_pieces(f, u).len() ==> !overlaps(#[trigger] split_pieces(f, u)[k], u),
        forall|px: int, py: int|
            has_point(f, px, py) && !has_point(u, px, py) ==> exists|k: int|
                0 <= k < split_pieces(f, u).len() && has_point(#[trigger] split_pieces(f, u)[k], px, py),
{
    let p = split_pieces(f, u);
    assert forall|px: int, py: int| has_point(f, px, py) && !has_point(u, px, py) implies exists|k: int|
        0 <= k < p.len() && has_point(#[trigger] p[k], px, py) by {
        let top: Seq<URect> = if u.y > f.y && u.y < bottom(f) {
            seq![Rect { x: f.x, y: f.y, width: f.width, height: (u.y - f.y) as u32 }]
        } else {
            seq![]
        };
        let below: Seq<URect> = if bottom(u) < bottom(f) {
            seq![
                Rect {
                    x: f.x,
                    y: bottom(u) as u32,
                    width: f.width,
                    height: (bottom(f) - bottom(u)) as u32,
                },
            ]
        } else {
            seq![]
        };
        let left: Seq<URect> = if u.x > f.x && u.x < right(f) {
            seq![Rect { x: f.x, y: f.y, width: (u.x - f.x) as u32, height: f.height }]
        } else {
            seq![]
        };
        if py < u.y {
            assert(has_point(p[0], px, py));
        } else if py >= bottom(u) {
            assert(has_point(p[top.len() as int], px, py));
        } else if px < u.x {
            assert(has_point(p[(top.len() + below.len()) as int], px, py));
        } else {
            assert(has_point(p[(top.len() + below.len() + left.len()) as int], px, py));
        }
    }
}

/// The pixels of an image: its size, the bytes of one pixel, and its bytes
/// row after row.
pub struct ImageInfo {
    pub width: u32,
    pub height: u32,
    pub pixel_bytes: u32,
    pub data: Vec<u8>,
}

/// A sprite placed in an atlas, with its image until that is uploaded.
pub struct SpriteInfo {
    pub rect: URect,
    pub image: Option<ImageInfo>,
}

/// A packed atlas of the given size: the sprites placed so far, in the
/// order they were placed, and the free rectangles.
pub struct DynamicAtlas {
    width: u32,
    height: u32,
    pub(crate) used_sprites: Vec<SpriteInfo>,
    free_rects: Vec<URect>,
}

/// The invariant of an atlas of size `w` by `h` with free rectangles `free`
/// and sprites `used`: every rectangle lies within the atlas; the sprites
/// share no area with each other or with any free rectangle; every pixel
/// that no sprite takes lies in a free rectangle.
pub open spec fn atlas_ok(free: Seq<URect>, used: Seq<URect>, w: int, h: int) -> bool {
    &&& forall|k: int| 0 <= k < free.len() ==> in_bounds(#[trigger] free[k], w, h)
    &&& forall|k: int| 0 <= k < used.len() ==> in_bounds(#[trigger] used[k], w, h)
    &&& forall|a: int, b: int|
        0 <= a < free.len() && 0 <= b < used.len() ==> !overlaps(#[trigger] free[a], #[trigger] used[b])
    &&& forall|a: int, b: int|
        0 <= a < used.len() && 0 <= b < used.len() && a != b ==> !overlaps(#[trigger] used[a], #[trigger] used[b])
    &&& forall|px: int, py: int|
        0 <= px < w && 0 <= py < h && !point_in(used, px, py) ==> point_in(free, px, py)
}

/// Whether the free rectangle at `i` is where a `w` by `h` sprite goes: it
/// fits the sprite, no fitting rectangle is placed better, and it is the
/// first of those placed as well.
pub open spec fn best_fit(free: Seq<URect>, i: int, w: u32, h: u32) -> bool {
    &&& 0 <= i < free.len()
    &&& candidate(free[i], w as int, h as int)
    &&& forall|j: int|
        0 <= j < free.len() && candidate(#[trigger] free[j], w as int, h as int) ==> !better(free[j], free[i], h as int)
    &&& forall|j: int|
        0 <= j < i && candidate(#[trigger] free[j], w as int, h as int) ==> better(free[i], free[j], h as int)
}

/// Whether `a` lies within some rectangle of `s`.
pub open spec fn covered_by(a: URect, s: Seq<URect>) -> bool {
    exists|k: int| 0 <= k < s.len() && contained(a, #[trigger] s[k])
}

/// Whether the pixel lies in some rectangle of `s`.
pub open spec fn point_in(s: Seq<URect>, px: int, py: int) -> bool {
    exists|k: int| 0 <= k < s.len() && has_point(#[trigger] s[k], px, py)
}

impl DynamicAtlas {
    /// The width of the atlas.
    pub closed spec fn atlas_width(&self) -> u32 {
        self.width
    }

    /// The height of the atlas.
    pub closed spec fn atlas_height(&self) -> u32 {
        self.height
    }

    /// The width of the atlas.
    pub fn width(&self) -> (w: u32)
        ensures
            w == self.atlas_width(),
    {
        self.width
    }

    /// The height of the atlas.
    pub fn height(&self) -> (h: u32)
        ensures
            h == self.atlas_height(),
    {
        self.height
    }

    /// The rectangles of the sprites placed so far.
    pub closed spec fn used(&self) -> Seq<URect> {
        self.used_sprites@.map_values(|s: SpriteInfo| s.rect)
    }

    /// The images of the sprites that wait to be uploaded, sprite by sprite.
    pub closed spec fn images(&self) -> Seq<Option<ImageInfo>> {
        self.used_sprites@.map_values(|s: SpriteInfo| s.image)
    }

    /// The free rectangles.
    pub closed spec fn free(&self) -> Seq<URect> {
        self.free_rects@
    }

    /// The atlas's invariant: it is sound (see [`atlas_ok`]) and no free
    /// rectangle lies within another.
    pub closed spec fn wf(&self) -> bool {
        &&& atlas_ok(self.free(), self.used(), self.width as int, self.height as int)
        &&& antichain(self.free())
    }

    /// An empty atlas of the given size: one free rectangle, the whole atlas.
    pub fn new(width: u32, height: u32) -> (a: Self)
        ensures
            a.wf(),
            a.atlas_width() == width,
            a.atlas_height() == height,
            a.used() == Seq::<URect>::empty(),
            a.images() == Seq::<Option<ImageInfo>>::empty(),
            a.free() == seq![Rect { x: 0u32, y: 0u32, width, height }],
    {
        let free_node = Rect { x: 0, y: 0, width, height };
        let a = DynamicAtlas {
            width,
            height,
            used_sprites: Vec::new(),
            free_rects: vec![free_node],
        };
        proof {
            assert(a.used() =~= Seq::<URect>::empty());
            assert(a.images() =~= Seq::<Option<ImageInfo>>::empty());
            assert forall|px: int, py: int|
                0 <= px < a.width && 0 <= py < a.height && !point_in(a.used(), px, py) implies point_in(a.free(), px, py) by {
                assert(has_point(a.free()[0], px, py));
            }
        }
        a
    }

    /// Whether `a` lies within `b`.
    pub fn is_contained_in(a: &URect, b: &URect) -> (r: bool)
        requires
            no_overflow(*a),
            no_overflow(*b),
        ensures
            r == contained(*a, *b),
    {
        a.x >= b.x && a.y >= b.y && a.x + a.width <= b.x + b.width && a.y + a.height <= b.y + b.height
    }

    /// Where a `width` by `height` sprite goes: at the corner of the free
    /// rectangle that fits it with the lowest top edge, the leftmost among
    /// those, the first among equals; `None` when no free rectangle fits it.
    fn find_bottom_left(&self, width: u32, height: u32) -> (r: Option<URect>)
        requires
            forall|k: int| 0 <= k < self.free().len() ==> no_overflow(#[trigger] self.free()[k]),
        ensures
            match r {
                Some(rect) => exists|i: int| best_fit(self.free(), i, width, height) && rect == placed(#[trigger] self.free()[i], width, height),
                None => forall|j: int|
                    0 <= j < self.free().len() ==> !candidate(#[trigger] self.free()[j], width as int, height as int),
            },
    {
        let mut best_node: Option<URect> = None;
        let mut best_x = 0u32;
        let mut best_y = u32::MAX;
        let ghost mut best_i: int = -1;
        let n = self.free_rects.len();
        let mut k: usize = 0;
        while k < n
            invariant
                n == self.free().len(),
                k <= n,
                forall|j: int| 0 <= j < n ==> no_overflow(#[trigger] self.free()[j]),
                best_node is None ==> best_i == -1 && best_y == u32::MAX && best_x == 0,
                best_node is None ==> forall|j: int|
                    0 <= j < k ==> !candidate(#[trigger] self.free()[j], width as int, height as int),
                best_node is Some ==> {
                    &&& 0 <= best_i < k
                    &&& candidate(self.free()[best_i], width as int, height as int)
                    &&& best_node == Some(placed(self.free()[best_i], width, height))
                    &&& best_y == self.free()[best_i].y + height
                    &&& best_x == self.free()[best_i].x
                    &&& forall|j: int|
                        0 <= j < k && candidate(#[trigger] self.free()[j], width as int, height as int)
                            ==> !better(self.free()[j], self.free()[best_i], height as int)
                    &&& forall|j: int|
                        0 <= j < best_i && candidate(#[trigger] self.free()[j], width as int, height as int)
                            ==> better(self.free()[best_i], self.free()[j], height as int)
                },
            decreases n - k,
        {
            let free_rect = &self.free_rects[k];
            if free_rect.width >= width && free_rect.height >= height {
                let top_side_y = free_rect.y + height;
                if top_side_y < best_y || (top_side_y == best_y && free_rect.x < best_x) {
                    best_node = Some(Rect { x: free_rect.x, y: free_rect.y, width, height });
                    best_y = top_side_y;
                    best_x = free_rect.x;
                    proof {
                        best_i = k as int;
                    }
                }
            }
            k = k + 1;
        }
        best_node
    }

    /// If `used_node` overlaps `free_node`, appends the pieces of
    /// `free_node` that remain free and returns true; otherwise changes
    /// nothing and returns false.
    fn split_free_node(&mut self, free_node: URect, used_node: &URect) -> (r: bool)
        requires
            no_overflow(free_node),
            no_overflow(*used_node),
        ensures
            r == overlaps(*used_node, free_node),
            final(self).free() == old(self).free() + if r { split_pieces(free_node, *used_node) } else { Seq::empty() },
            final(self).used() == old(self).used(),
            final(self).images() == old(self).images(),
            final(self).atlas_width() == old(self).atlas_width(),
            final(self).atlas_height() == old(self).atlas_height(),
    {
        let ghost f0 = self.free_rects@;
        if used_node.x >= free_node.x + free_node.width || used_node.x + used_node.width <= free_node.x
            || used_node.y >= free_node.y + free_node.height || used_node.y + used_node.height
            <= free_node.y {
            proof {
                assert(self.free() =~= f0 + Seq::<URect>::empty());
            }
            return false;
        }
        if used_node.x < free_node.x + free_node.width && used_node.x + used_node.width > free_node.x {
            if used_node.y > free_node.y && used_node.y < free_node.y + free_node.height {
                let new_rect = Rect {
                    x: free_node.x,
                    y: free_node.y,
                    width: free_node.width,
                    height: used_node.y - free_node.y,
                };
                self.free_rects.push(new_rect);
            }
            if used_node.y + used_node.height < free_node.y + free_node.height {
                let new_node = Rect {
                    x: free_node.x,
                    y: used_node.y + used_node.height,
                    width: free_node.width,
                    height: free_node.y + free_node.height - (used_node.y + used_node.height),
                };
                self.free_rects.push(new_node);
            }
        }
        if used_node.y < free_node.y + free_node.height && used_node.y + used_node.height > free_node.y {
            if used_node.x > free_node.x && used_node.x < free_node.x + free_node.width {
                let new_node = Rect {
                    x: free_node.x,
                    y: free_node.y,
                    width: used_node.x - free_node.x,
                    height: free_node.height,
                };
                self.free_rects.push(new_node);
            }
            if used_node.x + used_node.width < free_node.x + free_node.width {
                let new_node = Rect {
                    x: used_node.x + used_node.width,
                    y: free_node.y,
                    width: free_node.x + free_node.width - (used_node.x + used_node.width),
                    height: free_node.height,
                };
                self.free_rects.push(new_node);
            }
        }
        proof {
            assert(self.free() =~= f0 + split_pieces(free_node, *used_node));
        }
        true
    }
}


/// No rectangle of `s` lies within another of `s`.
pub open spec fn antichain(s: Seq<URect>) -> bool {
    forall|a: int, b: int| 0 <= a < s.len() && 0 <= b < s.len() && a != b ==> !contained(#[trigger] s[a], #[trigger] s[b])
}

/// The rectangle at `a` neither lies within another rectangle of `s` nor
/// holds one.
pub open spec fn settled(s: Seq<URect>, a: int) -> bool {
    forall|b: int| 0 <= b < s.len() && b != a ==> !contained(s[a], #[trigger] s[b]) && !contained(s[b], s[a])
}

/// Whether `s` is what pruning makes of `orig`: each of its rectangles is
/// one of `orig`, each rectangle of `orig` lies within one of it, and none
/// of it lies within another.
pub open spec fn pruned_from(s: Seq<URect>, orig: Seq<URect>) -> bool {
    &&& forall|k: int| 0 <= k < s.len() ==> orig.contains(#[trigger] s[k])
    &&& forall|m: int| 0 <= m < orig.len() ==> covered_by(#[trigger] orig[m], s)
    &&& antichain(s)
}

/// Removing a rectangle that lies within another one keeps every rectangle
/// of `orig` covered.
proof fn lemma_remove_covers(cur: Seq<URect>, r: int, keep: int, orig: Seq<URect>)
    requires
        0 <= r < cur.len(),
        0 <= keep < cur.len(),
        r != keep,
        contained(cur[r], cur[keep]),
        p_cover(cur, orig),
    ensures
        p_cover(cur.remove(r), orig),
{
    reveal(p_cover);
    let nw = cur.remove(r);
    assert forall|m: int| 0 <= m < orig.len() implies covered_by(#[trigger] orig[m], nw) by {
        assert(covered_by(orig[m], cur));
        let k = choose|k: int| 0 <= k < cur.len() && contained(orig[m], #[trigger] cur[k]);
        if k == r {
            let k2 = if keep < r { keep } else { keep - 1 };
            assert(nw[k2] == cur[keep]);
            assert(contained(orig[m], nw[k2]));
        } else {
            let k2 = if k < r { k } else { k - 1 };
            assert(nw[k2] == cur[k]);
            assert(contained(orig[m], nw[k2]));
        }
    }
}

/// Removing a rectangle keeps every remaining one a rectangle of `orig`.
proof fn lemma_remove_members(cur: Seq<URect>, r: int, orig: Seq<URect>)
    requires
        0 <= r < cur.len(),
        p_member(cur, orig),
    ensures
        p_member(cur.remove(r), orig),
{
    reveal(p_member);
    let nw = cur.remove(r);
    assert forall|k: int| 0 <= k < nw.len() implies orig.contains(#[trigger] nw[k]) by {
        if k < r {
            assert(nw[k] == cur[k]);
        } else {
            assert(nw[k] == cur[k + 1]);
        }
        assert(orig.contains(cur[if k < r { k } else { k + 1 }]));
    }
}

/// Removing a rectangle at or after `i` keeps the rectangles before `i`
/// settled.
proof fn lemma_remove_settled(cur: Seq<URect>, r: int, i: int)
    requires
        0 <= i <= r < cur.len(),
        p_settled(cur, i),
    ensures
        p_settled(cur.remove(r), i),
{
    reveal(p_settled);
    let nw = cur.remove(r);
    assert forall|a: int| 0 <= a < i implies settled(nw, a) by {
        assert(settled(cur, a));
        assert(nw[a] == cur[a]);
        assert forall|b: int| 0 <= b < nw.len() && b != a implies !contained(nw[a], #[trigger] nw[b]) && !contained(
            nw[b],
            nw[a],
        ) by {
            let b2 = if b < r { b } else { b + 1 };
            assert(nw[b] == cur[b2]);
            assert(b2 != a);
            assert(!contained(cur[a], cur[b2]) && !contained(cur[b2], cur[a]));
        }
    }
}

/// Every rectangle of `orig` lies within one of `cur`.
#[verifier::opaque]
pub open spec fn p_cover(cur: Seq<URect>, orig: Seq<URect>) -> bool {
    forall|m: int| 0 <= m < orig.len() ==> covered_by(#[trigger] orig[m], cur)
}

/// Every rectangle of `cur` is one of `orig`.
#[verifier::opaque]
pub open spec fn p_member(cur: Seq<URect>, orig: Seq<URect>) -> bool {
    forall|k: int| 0 <= k < cur.len() ==> orig.contains(#[trigger] cur[k])
}

/// Every rectangle of `cur` fits in 32 bits.
#[verifier::opaque]
pub open spec fn p_fits(cur: Seq<URect>) -> bool {
    forall|k: int| 0 <= k < cur.len() ==> no_overflow(#[trigger] cur[k])
}

/// The first `i` rectangles of `cur` are settled.
#[verifier::opaque]
pub open spec fn p_settled(cur: Seq<URect>, i: int) -> bool {
    forall|a: int| 0 <= a < i ==> settled(cur, a)
}

/// The state of pruning at rectangle `i`: the rectangles so far are
/// rectangles of `orig` that cover all of `orig`, fit in 32 bits, and the
/// first `i` are settled.
pub open spec fn prune_state(cur: Seq<URect>, orig: Seq<URect>, i: int) -> bool {
    &&& p_cover(cur, orig)
    &&& p_member(cur, orig)
    &&& p_fits(cur)
    &&& p_settled(cur, i)
}

proof fn lemma_prune_start(orig: Seq<URect>)
    requires
        forall|k: int| 0 <= k < orig.len() ==> no_overflow(#[trigger] orig[k]),
    ensures
        prune_state(orig, orig, 0),
{
    reveal(p_cover);
    reveal(p_member);
    reveal(p_fits);
    reveal(p_settled);
    assert forall|m: int| 0 <= m < orig.len() implies covered_by(#[trigger] orig[m], orig) by {
        assert(contained(orig[m], orig[m]));
    }
    assert forall|k: int| 0 <= k < orig.len() implies orig.contains(#[trigger] orig[k]) by {
    }
}

proof fn lemma_prune_fits(cur: Seq<URect>, orig: Seq<URect>, i: int, k: int)
    requires
        prune_state(cur, orig, i),
        0 <= k < cur.len(),
    ensures
        no_overflow(cur[k]),
{
    reveal(p_fits);
}

proof fn lemma_remove_fits(cur: Seq<URect>, r: int)
    requires
        0 <= r < cur.len(),
        p_fits(cur),
    ensures
        p_fits(cur.remove(r)),
{
    reveal(p_fits);
    let nw = cur.remove(r);
    assert forall|k: int| 0 <= k < nw.len() implies no_overflow(#[trigger] nw[k]) by {
        if k < r {
            assert(nw[k] == cur[k]);
        } else {
            assert(nw[k] == cur[k + 1]);
        }
    }
}

proof fn lemma_prune_remove(cur: Seq<URect>, orig: Seq<URect>, i: int, r: int, keep: int)
    requires
        prune_state(cur, orig, i),
        0 <= i <= r < cur.len(),
        0 <= keep < cur.len(),
        r != keep,
        contained(cur[r], cur[keep]),
    ensures
        prune_state(cur.remove(r), orig, i),
{
    lemma_remove_covers(cur, r, keep, orig);
    lemma_remove_members(cur, r, orig);
    lemma_remove_settled(cur, r, i);
    lemma_remove_fits(cur, r);
}

proof fn lemma_prune_advance(cur: Seq<URect>, orig: Seq<URect>, i: int)
    requires
        prune_state(cur, orig, i),
        0 <= i < cur.len(),
        forall|b: int| i < b < cur.len() ==> !contained(cur[i], #[trigger] cur[b]) && !contained(cur[b], cur[i]),
    ensures
        prune_state(cur, orig, i + 1),
{
    reveal(p_settled);
    assert forall|b: int| 0 <= b < cur.len() && b != i implies !contained(cur[i], #[trigger] cur[b])
        && !contained(cur[b], cur[i]) by {
        if b < i {
            assert(settled(cur, b));
        }
    }
    assert(settled(cur, i));
}

proof fn lemma_prune_done(cur: Seq<URect>, orig: Seq<URect>)
    requires
        prune_state(cur, orig, cur.len() as int),
    ensures
        pruned_from(cur, orig),
{
    reveal(p_cover);
    reveal(p_member);
    reveal(p_settled);
    assert forall|a: int, b: int| 0 <= a < cur.len() && 0 <= b < cur.len() && a != b implies !contained(
        #[trigger] cur[a],
        #[trigger] cur[b],
    ) by {
        assert(settled(cur, a));
    }
}

impl DynamicAtlas {
    /// Removes every free rectangle that lies within another, keeping one of
    /// each set of equal ones.
    fn prune_free_list(&mut self)
        requires
            forall|k: int| 0 <= k < old(self).free().len() ==> no_overflow(#[trigger] old(self).free()[k]),
        ensures
            pruned_from(final(self).free(), old(self).free()),
            final(self).used() == old(self).used(),
            final(self).images() == old(self).images(),
            final(self).atlas_width() == old(self).atlas_width(),
            final(self).atlas_height() == old(self).atlas_height(),
    {
        let ghost orig = self.free_rects@;
        let mut i: usize = 0;
        proof {
            assert(orig == old(self).free());
            lemma_prune_start(orig);
        }
        while i < self.free_rects.len()
            invariant
                i <= self.free_rects@.len(),
                self.used() == old(self).used(),
                self.images() == old(self).images(),
                self.atlas_width() == old(self).atlas_width(),
                self.atlas_height() == old(self).atlas_height(),
                orig == old(self).free(),
                prune_state(self.free_rects@, orig, i as int),
            decreases self.free_rects@.len() - i,
        {
            let mut j: usize = i + 1;
            let mut removed_i = false;
            let ghost outer_len = self.free_rects@.len();
            while j < self.free_rects.len()
                invariant_except_break
                    i < self.free_rects@.len(),
                    !removed_i,
                    forall|b: int| i < b < j ==> !contained(self.free_rects@[i as int], #[trigger] self.free_rects@[b])
                        && !contained(self.free_rects@[b], self.free_rects@[i as int]),
                invariant
                    i + 1 <= j,
                    j <= self.free_rects@.len() + 1,
                    self.free_rects@.len() <= outer_len,
                    self.used() == old(self).used(),
                    self.images() == old(self).images(),
                    self.atlas_width() == old(self).atlas_width(),
                    self.atlas_height() == old(self).atlas_height(),
                    orig == old(self).free(),
                    prune_state(self.free_rects@, orig, i as int),
                ensures
                    removed_i ==> i <= self.free_rects@.len() < outer_len,
                    !removed_i ==> i < self.free_rects@.len() && j >= self.free_rects@.len(),
                    !removed_i ==> forall|b: int| i < b < self.free_rects@.len() ==> !contained(self.free_rects@[i as int], #[trigger] self.free_rects@[b])
                        && !contained(self.free_rects@[b], self.free_rects@[i as int]),
                decreases self.free_rects@.len() - j,
            {
                let ghost cur = self.free_rects@;
                proof {
                    lemma_prune_fits(cur, orig, i as int, i as int);
                    lemma_prune_fits(cur, orig, i as int, j as int);
                }
                let ref_a = self.free_rects[i];
                let ref_b = self.free_rects[j];
                if Self::is_contained_in(&ref_a, &ref_b) {
                    proof {
                        lemma_prune_remove(cur, orig, i as int, i as int, j as int);
                    }
                    self.free_rects.remove(i);
                    removed_i = true;
                    break;
                }
                if Self::is_contained_in(&ref_b, &ref_a) {
                    proof {
                        lemma_prune_remove(cur, orig, i as int, j as int, i as int);
                        assert forall|b: int| i < b < j implies !contained(cur.remove(j as int)[i as int], #[trigger] cur.remove(j as int)[b])
                            && !contained(cur.remove(j as int)[b], cur.remove(j as int)[i as int]) by {
                            assert(cur.remove(j as int)[b] == cur[b]);
                            assert(cur.remove(j as int)[i as int] == cur[i as int]);
                        }
                    }
                    self.free_rects.remove(j);
                } else {
                    j = j + 1;
                }
            }
            if !removed_i {
                proof {
                    lemma_prune_advance(self.free_rects@, orig, i as int);
                }
                i = i + 1;
            }
        }
        proof {
            lemma_prune_done(self.free_rects@, orig);
        }
    }
}


/// Whether `r` is among the free rectangles left once `u` is used, counting
/// only the rectangles of `f` from index `k` on: such a rectangle that `u`
/// does not overlap, or a piece of one that it overlaps.
pub open spec fn in_split_from(f: Seq<URect>, u: URect, k: int, r: URect) -> bool {
    ||| exists|m: int| k <= m < f.len() && #[trigger] f[m] == r && !overlaps(u, f[m])
    ||| exists|m: int| k <= m < f.len() && overlaps(u, #[trigger] f[m]) && split_pieces(f[m], u).contains(r)
}

/// Whether `r` is among the free rectangles left once `u` is used: a free
/// rectangle of `f` that `u` does not overlap, or a piece of one that it
/// overlaps.
pub open spec fn in_split(f: Seq<URect>, u: URect, r: URect) -> bool {
    in_split_from(f, u, 0, r)
}

/// The state of the split pass at index `k`: the rectangles before `k` are
/// untouched, and the rest are exactly what the rectangles from `k` on leave
/// free.
pub open spec fn split_state(f: Seq<URect>, u: URect, k: int, cur: Seq<URect>, rest: Seq<URect>) -> bool {
    &&& 0 <= k <= f.len()
    &&& cur == f.take(k) + rest
    &&& forall|t: int| 0 <= t < rest.len() ==> in_split_from(f, u, k, #[trigger] rest[t])
    &&& forall|m: int| k <= m < f.len() && !overlaps(u, #[trigger] f[m]) ==> rest.contains(f[m])
    &&& forall|m: int, q: int|
        k <= m < f.len() && overlaps(u, #[trigger] f[m]) && 0 <= q < split_pieces(f[m], u).len()
            ==> rest.contains(#[trigger] split_pieces(f[m], u)[q])
}

proof fn lemma_split_step(f: Seq<URect>, u: URect, k: int, rest: Seq<URect>, ov: bool)
    requires
        0 < k <= f.len(),
        split_state(f, u, k, f.take(k) + rest, rest),
        ov == overlaps(u, f[k - 1]),
    ensures
        ov ==> split_state(
            f,
            u,
            k - 1,
            (f.take(k) + rest + split_pieces(f[k - 1], u)).remove(k - 1),
            rest + split_pieces(f[k - 1], u),
        ),
        !ov ==> split_state(f, u, k - 1, f.take(k) + rest, seq![f[k - 1]] + rest),
{
    let i = k - 1;
    if ov {
        let pcs = split_pieces(f[i], u);
        let nrest = rest + pcs;
        assert((f.take(k) + rest + pcs).remove(i) =~= f.take(i) + nrest);
        assert forall|t: int| 0 <= t < nrest.len() implies in_split_from(f, u, i, #[trigger] nrest[t]) by {
            if t < rest.len() {
                assert(nrest[t] == rest[t]);
                assert(in_split_from(f, u, k, rest[t]));
            } else {
                assert(nrest[t] == pcs[t - rest.len()]);
                assert(pcs.contains(nrest[t]));
            }
        }
        assert forall|m: int| i <= m < f.len() && !overlaps(u, #[trigger] f[m]) implies nrest.contains(f[m]) by {
            assert(rest.contains(f[m]));
            let t = choose|t: int| 0 <= t < rest.len() && rest[t] == f[m];
            assert(nrest[t] == f[m]);
        }
        assert forall|m: int, q: int|
            i <= m < f.len() && overlaps(u, #[trigger] f[m]) && 0 <= q < split_pieces(f[m], u).len()
                implies nrest.contains(#[trigger] split_pieces(f[m], u)[q]) by {
            if m == i {
                assert(nrest[rest.len() + q] == pcs[q]);
            } else {
                assert(rest.contains(split_pieces(f[m], u)[q]));
                let t = choose|t: int| 0 <= t < rest.len() && rest[t] == split_pieces(f[m], u)[q];
                assert(nrest[t] == rest[t]);
            }
        }
    } else {
        let nrest = seq![f[i]] + rest;
        assert(f.take(k) + rest =~= f.take(i) + nrest);
        assert forall|t: int| 0 <= t < nrest.len() implies in_split_from(f, u, i, #[trigger] nrest[t]) by {
            if t == 0 {
                assert(nrest[0] == f[i]);
            } else {
                assert(nrest[t] == rest[t - 1]);
                assert(in_split_from(f, u, k, rest[t - 1]));
            }
        }
        assert forall|m: int| i <= m < f.len() && !overlaps(u, #[trigger] f[m]) implies nrest.contains(f[m]) by {
            if m == i {
                assert(nrest[0] == f[m]);
            } else {
                assert(rest.contains(f[m]));
                let t = choose|t: int| 0 <= t < rest.len() && rest[t] == f[m];
                assert(nrest[t + 1] == f[m]);
            }
        }
        assert forall|m: int, q: int|
            i <= m < f.len() && overlaps(u, #[trigger] f[m]) && 0 <= q < split_pieces(f[m], u).len()
                implies nrest.contains(#[trigger] split_pieces(f[m], u)[q]) by {
            assert(m != i);
            assert(rest.contains(split_pieces(f[m], u)[q]));
            let t = choose|t: int| 0 <= t < rest.len() && rest[t] == split_pieces(f[m], u)[q];
            assert(nrest[t + 1] == rest[t]);
        }
    }
}

impl DynamicAtlas {
    /// Replaces each free rectangle that `rect` overlaps by its pieces, then
    /// prunes the free rectangles.
    fn place(&mut self, rect: URect)
        requires
            no_overflow(rect),
            forall|k: int| 0 <= k < old(self).free().len() ==> no_overflow(#[trigger] old(self).free()[k]),
        ensures
            final(self).used() == old(self).used(),
            final(self).images() == old(self).images(),
            final(self).atlas_width() == old(self).atlas_width(),
            final(self).atlas_height() == old(self).atlas_height(),
            forall|k: int| 0 <= k < final(self).free().len() ==> in_split(old(self).free(), rect, #[trigger] final(self).free()[k]),
            forall|r: URect| in_split(old(self).free(), rect, r) ==> covered_by(r, final(self).free()),
            antichain(final(self).free()),
    {
        let ghost f0 = self.free_rects@;
        let ghost mut rest: Seq<URect> = Seq::empty();
        let mut k: usize = self.free_rects.len();
        proof {
            assert(f0 == old(self).free());
            assert(f0.take(k as int) + rest =~= f0);
            assert(split_state(f0, rect, k as int, self.free_rects@, rest));
        }
        while k > 0
            invariant
                f0 == old(self).free(),
                no_overflow(rect),
                forall|j: int| 0 <= j < f0.len() ==> no_overflow(#[trigger] f0[j]),
                split_state(f0, rect, k as int, self.free_rects@, rest),
                self.used() == old(self).used(),
                self.images() == old(self).images(),
                self.atlas_width() == old(self).atlas_width(),
                self.atlas_height() == old(self).atlas_height(),
            decreases k,
        {
            let index = k - 1;
            proof {
                assert(self.free_rects@[index as int] == f0[index as int]);
            }
            let free_rect = self.free_rects[index];
            let ghost cur = self.free_rects@;
            let ov = self.split_free_node(free_rect, &rect);
            proof {
                lemma_split_step(f0, rect, k as int, rest, ov);
            }
            if ov {
                self.free_rects.remove(index);
                proof {
                    rest = rest + split_pieces(f0[index as int], rect);
                }
            } else {
                proof {
                    rest = seq![f0[index as int]] + rest;
                }
            }
            k = index;
        }
        proof {
            assert(self.free_rects@ =~= rest);
            assert forall|j: int| 0 <= j < rest.len() implies no_overflow(#[trigger] rest[j]) by {
                assert(in_split_from(f0, rect, 0, rest[j]));
                if exists|m: int| 0 <= m < f0.len() && overlaps(rect, #[trigger] f0[m]) && split_pieces(f0[m], rect).contains(rest[j]) {
                    let m = choose|m: int| 0 <= m < f0.len() && overlaps(rect, #[trigger] f0[m]) && split_pieces(f0[m], rect).contains(rest[j]);
                    lemma_split_pieces(f0[m], rect);
                    let q = choose|q: int| 0 <= q < split_pieces(f0[m], rect).len() && split_pieces(f0[m], rect)[q] == rest[j];
                    assert(contained(split_pieces(f0[m], rect)[q], f0[m]));
                }
            }
        }
        let ghost s = self.free_rects@;
        self.prune_free_list();
        proof {
            let fin = self.free_rects@;
            assert forall|r: URect| in_split(f0, rect, r) implies covered_by(r, fin) by {
                if exists|m: int| 0 <= m < f0.len() && #[trigger] f0[m] == r && !overlaps(rect, f0[m]) {
                    let m = choose|m: int| 0 <= m < f0.len() && #[trigger] f0[m] == r && !overlaps(rect, f0[m]);
                    assert(s.contains(f0[m]));
                    let t = choose|t: int| 0 <= t < s.len() && s[t] == f0[m];
                    assert(covered_by(s[t], fin));
                } else {
                    let m = choose|m: int| 0 <= m < f0.len() && overlaps(rect, #[trigger] f0[m]) && split_pieces(f0[m], rect).contains(r);
                    let q = choose|q: int| 0 <= q < split_pieces(f0[m], rect).len() && split_pieces(f0[m], rect)[q] == r;
                    assert(s.contains(split_pieces(f0[m], rect)[q]));
                    let t = choose|t: int| 0 <= t < s.len() && s[t] == r;
                    assert(covered_by(s[t], fin));
                }
            }
            assert forall|k2: int| 0 <= k2 < fin.len() implies in_split(f0, rect, #[trigger] fin[k2]) by {
                assert(s.contains(fin[k2]));
                let t = choose|t: int| 0 <= t < s.len() && s[t] == fin[k2];
                assert(in_split_from(f0, rect, 0, s[t]));
            }
        }
    }
}


/// A rectangle left free once `u` is used lies within one of the free
/// rectangles it came from and shares no area with `u`.
proof fn lemma_in_split(f: Seq<URect>, u: URect, r: URect)
    requires
        in_split(f, u, r),
        no_overflow(u),
        forall|j: int| 0 <= j < f.len() ==> no_overflow(#[trigger] f[j]),
    ensures
        exists|m: int| 0 <= m < f.len() && contained(r, #[trigger] f[m]),
        !overlaps(r, u),
{
    if exists|m: int| 0 <= m < f.len() && #[trigger] f[m] == r && !overlaps(u, f[m]) {
        let m = choose|m: int| 0 <= m < f.len() && #[trigger] f[m] == r && !overlaps(u, f[m]);
        assert(contained(r, f[m]));
    } else {
        let m = choose|m: int| 0 <= m < f.len() && overlaps(u, #[trigger] f[m]) && split_pieces(f[m], u).contains(r);
        lemma_split_pieces(f[m], u);
        let q = choose|q: int| 0 <= q < split_pieces(f[m], u).len() && split_pieces(f[m], u)[q] == r;
        assert(contained(split_pieces(f[m], u)[q], f[m]));
        assert(!overlaps(split_pieces(f[m], u)[q], u));
    }
}

/// Placing a sprite inside a free rectangle of a sound atlas, and keeping
/// as free rectangles what the split leaves (pruned), gives a sound atlas.
pub proof fn lemma_place_keeps_atlas_ok(
    free: Seq<URect>,
    used: Seq<URect>,
    w: int,
    h: int,
    u: URect,
    i: int,
    fin: Seq<URect>,
)
    requires
        atlas_ok(free, used, w, h),
        w <= u32::MAX,
        h <= u32::MAX,
        0 <= i < free.len(),
        contained(u, free[i]),
        forall|k: int| 0 <= k < fin.len() ==> in_split(free, u, #[trigger] fin[k]),
        forall|r: URect| #[trigger] in_split(free, u, r) ==> covered_by(r, fin),
    ensures
        atlas_ok(fin, used.push(u), w, h),
{
    let nu = used.push(u);
    assert forall|j: int| 0 <= j < free.len() implies no_overflow(#[trigger] free[j]) by {
        assert(in_bounds(free[j], w, h));
    }
    assert(in_bounds(free[i], w, h));
    assert forall|k: int| 0 <= k < fin.len() implies in_bounds(#[trigger] fin[k], w, h) && forall|b: int|
        0 <= b < nu.len() ==> !overlaps(fin[k], #[trigger] nu[b]) by {
        lemma_in_split(free, u, fin[k]);
        let m = choose|m: int| 0 <= m < free.len() && contained(fin[k], #[trigger] free[m]);
        assert(in_bounds(free[m], w, h));
        assert forall|b: int| 0 <= b < nu.len() implies !overlaps(fin[k], #[trigger] nu[b]) by {
            if b < used.len() {
                assert(nu[b] == used[b]);
                assert(!overlaps(free[m], used[b]));
            } else {
                assert(nu[b] == u);
            }
        }
    }
    assert forall|k: int| 0 <= k < nu.len() implies in_bounds(#[trigger] nu[k], w, h) by {
        if k < used.len() {
            assert(nu[k] == used[k]);
        }
    }
    assert forall|a: int, b: int|
        0 <= a < nu.len() && 0 <= b < nu.len() && a != b implies !overlaps(#[trigger] nu[a], #[trigger] nu[b]) by {
        if a < used.len() && b < used.len() {
            assert(nu[a] == used[a]);
            assert(nu[b] == used[b]);
        } else if a < used.len() {
            assert(nu[a] == used[a]);
            assert(nu[b] == u);
            assert(!overlaps(free[i], used[a]));
        } else {
            assert(nu[b] == used[b]);
            assert(nu[a] == u);
            assert(!overlaps(free[i], used[b]));
        }
    }
    assert forall|px: int, py: int| 0 <= px < w && 0 <= py < h && !point_in(nu, px, py) implies point_in(
        fin,
        px,
        py,
    ) by {
        assert(!point_in(used, px, py)) by {
            if point_in(used, px, py) {
                let k = choose|k: int| 0 <= k < used.len() && has_point(#[trigger] used[k], px, py);
                assert(nu[k] == used[k]);
            }
        }
        assert(!has_point(u, px, py)) by {
            if has_point(u, px, py) {
                assert(nu[used.len() as int] == u);
            }
        }
        let m = choose|m: int| 0 <= m < free.len() && has_point(#[trigger] free[m], px, py);
        if overlaps(u, free[m]) {
            lemma_split_pieces(free[m], u);
            let q = choose|q: int|
                0 <= q < split_pieces(free[m], u).len() && has_point(#[trigger] split_pieces(free[m], u)[q], px, py);
            let r = split_pieces(free[m], u)[q];
            assert(split_pieces(free[m], u).contains(r));
            assert(in_split(free, u, r));
            assert(covered_by(r, fin));
            let k = choose|k: int| 0 <= k < fin.len() && contained(r, #[trigger] fin[k]);
            assert(has_point(fin[k], px, py));
        } else {
            assert(in_split(free, u, free[m]));
            assert(covered_by(free[m], fin));
            let k = choose|k: int| 0 <= k < fin.len() && contained(free[m], #[trigger] fin[k]);
            assert(has_point(fin[k], px, py));
        }
    }
}

impl DynamicAtlas {
    /// Places a `w` by `h` sprite where [`best_fit`] says, if any free
    /// rectangle fits it, and returns its index among the sprites; the free
    /// rectangles it overlaps give way to their remaining pieces and are
    /// pruned. Returns `None`, changing nothing, when no free rectangle fits.
    pub fn insert(&mut self, w: u32, h: u32) -> (r: Option<usize>)
        requires
            old(self).wf(),
        ensures
            final(self).wf(),
            final(self).atlas_width() == old(self).atlas_width(),
            final(self).atlas_height() == old(self).atlas_height(),
            r is None ==> *final(self) == *old(self),
            match r {
                None => {
                    &&& final(self).used() == old(self).used()
                    &&& final(self).free() == old(self).free()
                    &&& forall|j: int|
                        0 <= j < old(self).free().len() ==> !candidate(#[trigger] old(self).free()[j], w as int, h as int)
                },
                Some(idx) => {
                    let u = final(self).used().last();
                    &&& idx == old(self).used().len()
                    &&& final(self).used() == old(self).used().push(u)
                    &&& final(self).images() == old(self).images().push(None)
                    &&& exists|i: int| best_fit(old(self).free(), i, w, h) && u == placed(#[trigger] old(self).free()[i], w, h)
                    &&& forall|k: int| 0 <= k < final(self).free().len() ==> in_split(old(self).free(), u, #[trigger] final(self).free()[k])
                    &&& forall|q: URect| in_split(old(self).free(), u, q) ==> covered_by(q, final(self).free())
                    &&& antichain(final(self).free())
                },
            },
    {
        proof {
            assert forall|j: int| 0 <= j < self.free().len() implies no_overflow(#[trigger] self.free()[j]) by {
                assert(in_bounds(self.free()[j], self.width as int, self.height as int));
            }
        }
        match self.find_bottom_left(w, h) {
            Some(rect) => {
                let ghost f0 = self.free();
                let ghost u0 = self.used();
                let ghost i = choose|i: int| best_fit(f0, i, w, h) && rect == placed(#[trigger] f0[i], w, h);
                proof {
                    assert(in_bounds(f0[i], self.width as int, self.height as int));
                    assert(contained(rect, f0[i]));
                }
                self.place(rect);
                proof {
                    lemma_place_keeps_atlas_ok(f0, u0, self.width as int, self.height as int, rect, i, self.free());
                }
                let ghost i0 = self.images();
                self.used_sprites.push(SpriteInfo { rect, image: None });
                proof {
                    assert(self.used() =~= u0.push(rect));
                    assert(self.images() =~= i0.push(None));
                }
                Some(self.used_sprites.len() - 1)
            },
            None => None,
        }
    }

    /// The number of sprites placed so far.
    pub fn sprite_count(&self) -> (n: usize)
        ensures
            n == self.used().len(),
    {
        self.used_sprites.len()
    }

    /// The rectangle of the sprite at `index`.
    pub fn sprite_rect(&self, index: usize) -> (r: URect)
        requires
            index < self.used().len(),
        ensures
            r == self.used()[index as int],
    {
        self.used_sprites[index].rect
    }

    /// The sprite at `index`: its rectangle and its image.
    pub fn sprite(&self, index: usize) -> (r: &SpriteInfo)
        requires
            index < self.used().len(),
        ensures
            r.rect == self.used()[index as int],
            r.image == self.images()[index as int],
    {
        &self.used_sprites[index]
    }

    /// Keeps `image` with the sprite at `index` until it is uploaded.
    pub fn set_image(&mut self, index: usize, image: ImageInfo)
        requires
            old(self).wf(),
            index < old(self).used().len(),
        ensures
            final(self).wf(),
            final(self).atlas_width() == old(self).atlas_width(),
            final(self).atlas_height() == old(self).atlas_height(),
            final(self).used() == old(self).used(),
            final(self).free() == old(self).free(),
            final(self).images() == old(self).images().update(index as int, Some(image)),
    {
        let rect = self.used_sprites[index].rect;
        let ghost u0 = self.used();
        let ghost i0 = self.images();
        self.used_sprites.set(index, SpriteInfo { rect, image: Some(image) });
        proof {
            assert(self.used() =~= u0);
            assert(self.images() =~= i0.update(index as int, Some(image)));
        }
    }

    /// Takes the image of the sprite at `index` for upload, leaving none.
    pub fn take_image(&mut self, index: usize) -> (r: Option<ImageInfo>)
        requires
            old(self).wf(),
            index < old(self).used().len(),
        ensures
            final(self).wf(),
            final(self).atlas_width() == old(self).atlas_width(),
            final(self).atlas_height() == old(self).atlas_height(),
            final(self).used() == old(self).used(),
            final(self).free() == old(self).free(),
            r == old(self).images()[index as int],
            final(self).images() == old(self).images().update(index as int, None),
    {
        let rect = self.used_sprites[index].rect;
        let ghost u0 = self.used();
        let ghost i0 = self.images();
        let mut old_sprite = SpriteInfo { rect, image: None };
        self.used_sprites.set_and_swap(index, &mut old_sprite);
        proof {
            assert(self.used() =~= u0);
            assert(self.images() =~= i0.update(index as int, None));
        }
        old_sprite.image
    }
}


impl DynamicAtlas {
    /// There is one image slot for each sprite.
    pub proof fn lemma_image_count(&self)
        ensures
            self.images().len() == self.used().len(),
    {
    }

    /// The sprites of an atlas lie within it and never share area with each
    /// other or with a free rectangle, and every pixel no sprite takes lies
    /// in a free rectangle; no free rectangle lies within another.
    pub proof fn lemma_atlas_sound(&self)
        requires
            self.wf(),
        ensures
            atlas_ok(self.free(), self.used(), self.atlas_width() as int, self.atlas_height() as int),
            antichain(self.free()),
    {
    }
}

} // verus!
