//! Sprite allocation over a growing list of atlases: each sprite gets a
//! fresh id and a place in the first atlas with room for it, or in a new
//! atlas.
use vstd::prelude::*;
use fnv::{FnvHashMap, FnvHasher};
use std::hash::BuildHasherDefault;
use crate::atlas::{DynamicAtlas, ImageInfo, Rect, SpriteInfo, URect, candidate, best_fit, placed};
use crate::ui_types::IndexInfo;

verus! {

#[verifier::external_type_specification]
#[verifier::external_body]
pub struct ExFnvHasher(FnvHasher);

#[verifier::external_type_specification]
#[verifier::external_body]
#[verifier::reject_recursive_types(H)]
pub struct ExBuildHasherDefault<H>(BuildHasherDefault<H>);

/// The map from sprite ids to their places.
pub type IdMap = FnvHashMap<u32, IndexInfo>;

/// The map with no sprite.
pub open spec fn no_ids() -> Map<u32, IndexInfo> {
    Map::empty()
}

/// `FnvHashMap::default()`: an empty map.
#[verifier::external_body]
fn id_map_new() -> (m: IdMap)
    ensures
        m@ == no_ids(),
{
    FnvHashMap::default()
}

/// `HashMap::insert` on an FNV-hashed map: afterwards `k` maps to `v` and
/// every other key keeps its entry. (FNV hashing is deterministic: the
/// hasher starts from a fixed basis.)
#[verifier::external_body]
fn id_map_insert(m: &mut IdMap, k: u32, v: IndexInfo)
    ensures
        final(m)@ == old(m)@.insert(k, v),
{
    m.insert(k, v);
}

/// `HashMap::get` on an FNV-hashed map: the entry of `k`, if any.
#[verifier::external_body]
fn id_map_get(m: &IdMap, k: u32) -> (r: Option<IndexInfo>)
    ensures
        r == (if m@.contains_key(k) { Some(m@[k]) } else { None::<IndexInfo> }),
{
    m.get(&k).copied()
}

/// Whether some free rectangle of `a` has room for a `w` by `h` sprite.
pub open spec fn has_room(a: DynamicAtlas, w: u32, h: u32) -> bool {
    exists|j: int| 0 <= j < a.free().len() && candidate(#[trigger] a.free()[j], w as int, h as int)
}

/// Whether `after` is `before` with one more sprite, placed where
/// [`best_fit`] says.
pub open spec fn placed_into(before: DynamicAtlas, after: DynamicAtlas, w: u32, h: u32) -> bool {
    let u = after.used().last();
    &&& after.used() == before.used().push(u)
    &&& exists|i: int| best_fit(before.free(), i, w, h) && u == placed(#[trigger] before.free()[i], w, h)
}

/// The side of each atlas made for new sprites.
pub const ATLAS_SIZE: u32 = 2048;

/// Why a sprite could not be allocated.
#[derive(Debug, Clone, Copy, PartialEq, Eq)]
pub enum AllocError {
    /// The sprite is larger than an atlas.
    TooLarge,
}

/// Allocates sprites in atlases of 2048 by 2048 pixels.
pub struct SpriteAllocator {
    id_map: IdMap,
    next_id: u32,
    atlas_list: Vec<DynamicAtlas>,
}

impl SpriteAllocator {
    /// The place of each sprite id.
    pub closed spec fn ids(&self) -> Map<u32, IndexInfo> {
        self.id_map@
    }

    /// The atlases.
    pub closed spec fn atlases(&self) -> Seq<DynamicAtlas> {
        self.atlas_list@
    }

    /// The id the next allocation takes.
    pub closed spec fn next_id(&self) -> u32 {
        self.next_id
    }

    /// Every atlas is sound and of the allocator's size; every id names a
    /// sprite that exists and is below the next id.
    pub closed spec fn wf(&self) -> bool {
        &&& forall|a: int| 0 <= a < self.atlas_list@.len() ==> (#[trigger] self.atlas_list@[a]).wf()
        &&& forall|a: int|
            0 <= a < self.atlas_list@.len() ==> (#[trigger] self.atlas_list@[a]).atlas_width() == ATLAS_SIZE
                && self.atlas_list@[a].atlas_height() == ATLAS_SIZE
        &&& forall|k: u32| #[trigger]
            self.id_map@.contains_key(k) ==> {
                &&& k < self.next_id
                &&& self.id_map@[k].atlas_index < self.atlas_list@.len()
                &&& self.id_map@[k].sprite_index < self.atlas_list@[self.id_map@[k].atlas_index as int].used().len()
            }
    }

    /// The rectangle of the sprite at `info`.
    pub open spec fn rect_at(&self, info: IndexInfo) -> URect {
        self.atlases()[info.atlas_index as int].used()[info.sprite_index as int]
    }

    /// Whether the sprite `id` of `after` went where an allocation from
    /// `before` puts a `w` by `h` sprite: into the first atlas with room for
    /// it, at its best-fit place, or, when no atlas has room, into a new
    /// atlas at its corner; every other atlas stays as it was.
    pub open spec fn placed_first_fit(before: &Self, after: &Self, id: u32, w: u32, h: u32) -> bool {
        let ai = after.ids()[id].atlas_index as int;
        let n = before.atlases().len();
        &&& ai <= n
        &&& forall|a: int| 0 <= a < ai ==> !has_room(#[trigger] before.atlases()[a], w, h)
        &&& forall|a: int| 0 <= a < n && a != ai ==> after.atlases()[a] == #[trigger] before.atlases()[a]
        &&& after.ids()[id].sprite_index == after.atlases()[ai].used().len() - 1
        &&& ai < n ==> after.atlases().len() == n && placed_into(before.atlases()[ai], after.atlases()[ai], w, h)
        &&& ai == n ==> after.atlases().len() == n + 1
            && after.atlases()[ai].used() == seq![Rect { x: 0u32, y: 0u32, width: w, height: h }]
    }

    /// The image kept with the sprite at `info` until it is uploaded.
    pub open spec fn image_at(&self, info: IndexInfo) -> Option<ImageInfo> {
        self.atlases()[info.atlas_index as int].images()[info.sprite_index as int]
    }

    /// An allocator with no atlas and no sprite.
    pub fn new() -> (a: Self)
        ensures
            a.wf(),
            a.ids() == Map::<u32, IndexInfo>::empty(),
            a.atlases().len() == 0,
            a.next_id() == 0,
    {
        SpriteAllocator { id_map: id_map_new(), next_id: 0, atlas_list: Vec::new() }
    }

    /// The number of atlases.
    pub fn atlas_count(&self) -> (n: usize)
        ensures
            n == self.atlases().len(),
    {
        self.atlas_list.len()
    }

    /// The id the next allocation will take.
    pub fn peek_next_id(&self) -> (n: u32)
        ensures
            n == self.next_id(),
    {
        self.next_id
    }

    /// Allocates a sprite the size of `image`, keeps the image with it until
    /// it is uploaded, and returns its id.
    pub fn alloc_sprite(&mut self, image: ImageInfo) -> (r: Result<u32, AllocError>)
        requires
            old(self).wf(),
            old(self).next_id() < u32::MAX,
        ensures
            final(self).wf(),
            final(self).next_id() == old(self).next_id() + 1,
            forall|k: u32|
                #[trigger] old(self).ids().contains_key(k) ==> final(self).rect_at(old(self).ids()[k]) == old(
                    self,
                ).rect_at(old(self).ids()[k]) && final(self).image_at(old(self).ids()[k]) == old(self).image_at(
                    old(self).ids()[k],
                ),
            match r {
                Ok(id) => {
                    &&& id == old(self).next_id()
                    &&& !old(self).ids().contains_key(id)
                    &&& final(self).ids() == old(self).ids().insert(id, final(self).ids()[id])
                    &&& final(self).rect_at(final(self).ids()[id]).width == image.width
                    &&& final(self).rect_at(final(self).ids()[id]).height == image.height
                    &&& image.width <= ATLAS_SIZE && image.height <= ATLAS_SIZE
                    &&& Self::placed_first_fit(old(self), final(self), id, image.width, image.height)
                    &&& final(self).image_at(final(self).ids()[id]) == Some(image)
                },
                Err(e) => {
                    &&& e == AllocError::TooLarge
                    &&& final(self).ids() == old(self).ids()
                    &&& final(self).atlases() == old(self).atlases()
                    &&& (image.width > ATLAS_SIZE || image.height > ATLAS_SIZE)
                },
            },
    {
        self.insert_image(image)
    }

    /// Places the sprite in the first atlas with room for it, else in a new
    /// atlas; an id is used up either way.
    fn insert_image(&mut self, image: ImageInfo) -> (r: Result<u32, AllocError>)
        requires
            old(self).wf(),
            old(self).next_id() < u32::MAX,
        ensures
            final(self).wf(),
            final(self).next_id() == old(self).next_id() + 1,
            forall|k: u32|
                #[trigger] old(self).ids().contains_key(k) ==> final(self).rect_at(old(self).ids()[k]) == old(
                    self,
                ).rect_at(old(self).ids()[k]) && final(self).image_at(old(self).ids()[k]) == old(self).image_at(
                    old(self).ids()[k],
                ),
            match r {
                Ok(id) => {
                    &&& id == old(self).next_id()
                    &&& !old(self).ids().contains_key(id)
                    &&& final(self).ids() == old(self).ids().insert(id, final(self).ids()[id])
                    &&& final(self).rect_at(final(self).ids()[id]).width == image.width
                    &&& final(self).rect_at(final(self).ids()[id]).height == image.height
                    &&& image.width <= ATLAS_SIZE && image.height <= ATLAS_SIZE
                    &&& Self::placed_first_fit(old(self), final(self), id, image.width, image.height)
                    &&& final(self).image_at(final(self).ids()[id]) == Some(image)
                },
                Err(e) => {
                    &&& e == AllocError::TooLarge
                    &&& final(self).ids() == old(self).ids()
                    &&& final(self).atlases() == old(self).atlases()
                    &&& (image.width > ATLAS_SIZE || image.height > ATLAS_SIZE)
                },
            },
    {
        let width = image.width;
        let height = image.height;
        let new_index = self.next_id;
        proof {
            assert forall|k: u32| self.id_map@.contains_key(k) implies k < new_index by {
                assert(old(self).id_map@.contains_key(k));
            }
        }
        self.next_id = self.next_id + 1;
        let n = self.atlas_list.len();
        let mut idx: usize = 0;
        while idx < n
            invariant
                n == self.atlas_list@.len(),
                idx <= n,
                self.wf(),
                self.next_id == new_index + 1,
                new_index == old(self).next_id,
                forall|k: u32| self.id_map@.contains_key(k) ==> k < new_index,
                self.id_map@ == old(self).id_map@,
                self.atlas_list@ == old(self).atlas_list@,
                forall|a: int| 0 <= a < idx ==> !has_room(#[trigger] old(self).atlas_list@[a], width, height),
                width == image.width,
                height == image.height,
            decreases n - idx,
        {
            let mut dyn_atlas = self.atlas_list.remove(idx);
            let ghost before = dyn_atlas;
            proof {
                assert(before.wf()) by {
                    assert(old(self).atlas_list@[idx as int] == before);
                }
            }
            let placed = dyn_atlas.insert(width, height);
            match placed {
                Some(index) => {
                    let ghost unfilled = dyn_atlas;
                    dyn_atlas.set_image(index, image);
                    proof {
                        before.lemma_image_count();
                        assert(dyn_atlas.images() =~= before.images().push(Some(image)));
                    }
                    self.atlas_list.insert(idx, dyn_atlas);
                    let sprite_index = IndexInfo { atlas_index: idx, sprite_index: index };
                    let ghost m0 = self.id_map@;
                    id_map_insert(&mut self.id_map, new_index, sprite_index);
                    proof {
                        assert forall|a: int| 0 <= a < self.atlas_list@.len() implies (#[trigger] self.atlas_list@[a]).wf() by {
                            if a != idx {
                                assert(self.atlas_list@[a] == old(self).atlas_list@[a]);
                            }
                        }
                        assert forall|k: u32| #[trigger] self.id_map@.contains_key(k) implies {
                            &&& k < self.next_id
                            &&& self.id_map@[k].atlas_index < self.atlas_list@.len()
                            &&& self.id_map@[k].sprite_index < self.atlas_list@[self.id_map@[k].atlas_index as int].used().len()
                        } by {
                            if k != new_index {
                                assert(m0.contains_key(k));
                                let ai = m0[k].atlas_index as int;
                                if ai == idx {
                                    assert(self.atlas_list@[ai].used().len() > before.used().len());
                                    assert(m0[k].sprite_index < before.used().len()) by {
                                        assert(old(self).atlas_list@[ai] == before);
                                    }
                                } else {
                                    assert(self.atlas_list@[ai] == old(self).atlas_list@[ai]);
                                }
                            }
                        }
                        assert(!m0.contains_key(new_index));
                        assert(self.id_map@ =~= m0.insert(new_index, self.id_map@[new_index]));
                        assert(self.atlas_list@[idx as int] == dyn_atlas);
                        assert(dyn_atlas.used().last() == dyn_atlas.used()[index as int]);
                        assert(dyn_atlas.used() == unfilled.used());
                        let i = choose|i: int| crate::atlas::best_fit(before.free(), i, width, height) && unfilled.used().last() == crate::atlas::placed(#[trigger] before.free()[i], width, height);
                        assert(dyn_atlas.used()[index as int].width == width);
                        assert(self.rect_at(self.id_map@[new_index]) == dyn_atlas.used()[index as int]);
                        assert(before.atlas_width() == ATLAS_SIZE && before.atlas_height() == ATLAS_SIZE) by {
                            assert(old(self).atlas_list@[idx as int] == before);
                        }
                        dyn_atlas.lemma_atlas_sound();
                        assert(crate::atlas::in_bounds(
                            dyn_atlas.used()[index as int],
                            ATLAS_SIZE as int,
                            ATLAS_SIZE as int,
                        ));
                        assert(placed_into(before, dyn_atlas, width, height));
                        assert(index == before.used().len());
                        assert(dyn_atlas.images()[index as int] == Some(image));
                        assert(self.image_at(self.id_map@[new_index]) == Some(image));
                        assert forall|a: int| 0 <= a < old(self).atlas_list@.len() && a != idx implies self.atlas_list@[a] == #[trigger] old(self).atlas_list@[a] by {}
                    }
                    return Ok(new_index);
                },
                None => {
                    self.atlas_list.insert(idx, dyn_atlas);
                    proof {
                        assert(self.atlas_list@ =~= old(self).atlas_list@);
                        assert(old(self).atlas_list@[idx as int] == before);
                    }
                },
            }
            idx = idx + 1;
        }
        proof {
            assert(!self.id_map@.contains_key(new_index));
        }
        let mut new_atlas = DynamicAtlas::new(ATLAS_SIZE, ATLAS_SIZE);
        let ghost fresh = new_atlas;
        let placed = new_atlas.insert(width, height);
        match placed {
            Some(index) => {
                new_atlas.set_image(index, image);
                proof {
                    assert(new_atlas.images() =~= seq![Some(image)]);
                }
                self.atlas_list.push(new_atlas);
                let sprite_index = IndexInfo { atlas_index: self.atlas_list.len() - 1, sprite_index: index };
                let ghost m0 = self.id_map@;
                id_map_insert(&mut self.id_map, new_index, sprite_index);
                proof {
                    let last = self.atlas_list@.len() - 1;
                    assert forall|a: int| 0 <= a < self.atlas_list@.len() implies (#[trigger] self.atlas_list@[a]).wf() by {
                        if a != last {
                            assert(self.atlas_list@[a] == old(self).atlas_list@[a]);
                        }
                    }
                    assert forall|k: u32| #[trigger] self.id_map@.contains_key(k) implies {
                        &&& k < self.next_id
                        &&& self.id_map@[k].atlas_index < self.atlas_list@.len()
                        &&& self.id_map@[k].sprite_index < self.atlas_list@[self.id_map@[k].atlas_index as int].used().len()
                    } by {
                        if k != new_index {
                            assert(m0.contains_key(k));
                            let ai = m0[k].atlas_index as int;
                            assert(self.atlas_list@[ai] == old(self).atlas_list@[ai]);
                        }
                    }
                    assert(!m0.contains_key(new_index));
                    assert(self.id_map@ =~= m0.insert(new_index, self.id_map@[new_index]));
                    assert(self.atlas_list@[last] == new_atlas);
                    assert(new_atlas.used().last() == new_atlas.used()[index as int]);
                    let i = choose|i: int| crate::atlas::best_fit(fresh.free(), i, width, height) && new_atlas.used().last() == crate::atlas::placed(#[trigger] fresh.free()[i], width, height);
                    assert(self.rect_at(self.id_map@[new_index]) == new_atlas.used()[index as int]);
                    assert(i == 0);
                    assert(new_atlas.used() =~= seq![Rect { x: 0u32, y: 0u32, width: width, height: height }]);
                    assert forall|a: int| 0 <= a < old(self).atlas_list@.len() implies self.atlas_list@[a] == #[trigger] old(self).atlas_list@[a] by {}
                }
                Ok(new_index)
            },
            None => {
                proof {
                    assert(fresh.free().len() == 1);
                    let r0 = fresh.free()[0];
                    assert(r0.width == ATLAS_SIZE && r0.height == ATLAS_SIZE && r0.y == 0);
                    assert(!candidate(r0, width as int, height as int));
                }
                Err(AllocError::TooLarge)
            },
        }
    }

    /// The sprite `key`, if there is one: its rectangle and the image kept
    /// with it.
    pub fn get_sprite_info(&self, key: u32) -> (r: Option<&SpriteInfo>)
        requires
            self.wf(),
        ensures
            r is Some <==> self.ids().contains_key(key),
            r is Some ==> r.unwrap().rect == self.rect_at(self.ids()[key]) && r.unwrap().image == self.image_at(
                self.ids()[key],
            ),
    {
        match id_map_get(&self.id_map, key) {
            Some(index) => Some(self.atlas_list[index.atlas_index].sprite(index.sprite_index)),
            None => None,
        }
    }
}

} // verus!
