use seija::atlas::{DynamicAtlas, ImageInfo, Rect};
use seija::sprite_alloc::{AllocError, SpriteAllocator};

fn img(width: u32, height: u32) -> ImageInfo {
    ImageInfo { width, height, pixel_bytes: 4, data: Vec::new() }
}

fn disjoint(a: &Rect<u32>, b: &Rect<u32>) -> bool {
    a.x >= b.x + b.width || a.x + a.width <= b.x || a.y >= b.y + b.height || a.y + a.height <= b.y
}

#[test]
fn atlas_places_at_lowest_top_edge() {
    let mut atlas = DynamicAtlas::new(100, 100);
    assert_eq!(atlas.width(), 100);
    assert_eq!(atlas.height(), 100);
    assert_eq!(atlas.insert(30, 20), Some(0));
    let r0 = atlas.sprite_rect(0);
    assert_eq!((r0.x, r0.y, r0.width, r0.height), (0, 0, 30, 20));
    assert_eq!(atlas.insert(50, 50), Some(1));
    let r1 = atlas.sprite_rect(1);
    assert_eq!((r1.x, r1.y, r1.width, r1.height), (30, 0, 50, 50));
    assert!(disjoint(&r0, &r1));
    assert_eq!(atlas.insert(200, 10), None);
    assert_eq!(atlas.sprite_count(), 2);
}

#[test]
fn atlas_sprites_never_overlap() {
    let mut atlas = DynamicAtlas::new(64, 64);
    let sizes = [(10, 7), (20, 5), (3, 30), (16, 16), (40, 10), (8, 8), (64, 1), (5, 5), (30, 30)];
    let mut placed = vec![];
    for (w, h) in sizes.iter() {
        if let Some(i) = atlas.insert(*w, *h) {
            placed.push(atlas.sprite_rect(i));
        }
    }
    assert!(placed.len() >= 6);
    for i in 0..placed.len() {
        let r = &placed[i];
        assert!(r.x + r.width <= 64 && r.y + r.height <= 64);
        for j in 0..i {
            assert!(disjoint(r, &placed[j]));
        }
    }
}

#[test]
fn whole_atlas_fits_once() {
    let mut atlas = DynamicAtlas::new(16, 8);
    assert_eq!(atlas.insert(16, 8), Some(0));
    assert_eq!(atlas.insert(1, 1), None);
}

#[test]
fn allocator_gives_fresh_ids() {
    let mut alloc = SpriteAllocator::new();
    assert_eq!(alloc.atlas_count(), 0);
    assert_eq!(alloc.alloc_sprite(img(10, 10)), Ok(0));
    assert_eq!(alloc.atlas_count(), 1);
    let r = alloc.get_sprite_info(0).unwrap().rect;
    assert_eq!((r.x, r.y, r.width, r.height), (0, 0, 10, 10));
    assert_eq!(alloc.alloc_sprite(img(3000, 10)), Err(AllocError::TooLarge));
    assert_eq!(alloc.peek_next_id(), 2);
    assert_eq!(alloc.alloc_sprite(img(5, 5)), Ok(2));
    let r2 = alloc.get_sprite_info(2).unwrap().rect;
    assert_eq!((r2.x, r2.y, r2.width, r2.height), (10, 0, 5, 5));
    assert!(alloc.get_sprite_info(1).is_none());
    assert_eq!(alloc.atlas_count(), 1);
}

#[test]
fn allocator_opens_a_new_atlas_when_full() {
    let mut alloc = SpriteAllocator::new();
    assert_eq!(alloc.alloc_sprite(img(2048, 2048)), Ok(0));
    assert_eq!(alloc.alloc_sprite(img(1, 1)), Ok(1));
    assert_eq!(alloc.atlas_count(), 2);
}

#[test]
fn allocation_keeps_earlier_sprites() {
    let mut alloc = SpriteAllocator::new();
    assert_eq!(alloc.alloc_sprite(img(100, 40)), Ok(0));
    let first = alloc.get_sprite_info(0).unwrap().rect;
    for k in 1..20u32 {
        assert_eq!(alloc.alloc_sprite(img(300, 300)), Ok(k));
    }
    let again = alloc.get_sprite_info(0).unwrap().rect;
    assert_eq!((first.x, first.y, first.width, first.height), (again.x, again.y, again.width, again.height));
    assert_eq!(alloc.alloc_sprite(img(2049, 1)), Err(AllocError::TooLarge));
    assert_eq!(alloc.alloc_sprite(img(1, 2049)), Err(AllocError::TooLarge));
}

#[test]
fn allocation_fills_the_first_atlas_with_room() {
    let mut alloc = SpriteAllocator::new();
    assert_eq!(alloc.alloc_sprite(img(2048, 1024)), Ok(0));
    assert_eq!(alloc.alloc_sprite(img(2048, 2048)), Ok(1));
    assert_eq!(alloc.atlas_count(), 2);
    let big = alloc.get_sprite_info(1).unwrap().rect;
    assert_eq!((big.x, big.y, big.width, big.height), (0, 0, 2048, 2048));
    // the first atlas still has the lower half free
    assert_eq!(alloc.alloc_sprite(img(10, 10)), Ok(2));
    assert_eq!(alloc.atlas_count(), 2);
    let small = alloc.get_sprite_info(2).unwrap().rect;
    assert_eq!((small.x, small.y, small.width, small.height), (0, 1024, 10, 10));
}

#[test]
fn allocated_sprite_keeps_its_image() {
    let mut alloc = SpriteAllocator::new();
    let data: Vec<u8> = (0..16).collect();
    assert_eq!(alloc.alloc_sprite(ImageInfo { width: 2, height: 2, pixel_bytes: 4, data: data.clone() }), Ok(0));
    assert_eq!(alloc.alloc_sprite(img(3, 3)), Ok(1));
    let first = alloc.get_sprite_info(0).unwrap();
    let image = first.image.as_ref().unwrap();
    assert_eq!((image.width, image.height, image.pixel_bytes), (2, 2, 4));
    assert_eq!(image.data, data);
    assert_eq!((first.rect.width, first.rect.height), (2, 2));
}

#[test]
fn atlas_image_waits_until_taken() {
    let mut atlas = DynamicAtlas::new(64, 64);
    let i = atlas.insert(2, 2).unwrap();
    assert!(atlas.sprite(i).image.is_none());
    atlas.set_image(i, ImageInfo { width: 2, height: 2, pixel_bytes: 1, data: vec![1, 2, 3, 4] });
    let taken = atlas.take_image(i).unwrap();
    assert_eq!(taken.data, vec![1, 2, 3, 4]);
    assert!(atlas.take_image(i).is_none());
    assert_eq!(atlas.sprite(i).rect.width, 2);
}
