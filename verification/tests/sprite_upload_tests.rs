use seija::atlas::Rect;
use seija::sprite_upload::write_sprite_image;

#[test]
fn sprite_image_lands_at_its_rectangle() {
    // a 4 by 4 atlas of 4-byte pixels
    let mut bytes = vec![0u8; 64];
    let rect = Rect { x: 1, y: 2, width: 2, height: 2 };
    let image: Vec<u8> = (1..=16).collect();
    write_sprite_image(&mut bytes, 4, 4, rect, &image);
    let mut expected = vec![0u8; 64];
    expected[36..44].copy_from_slice(&image[0..8]);
    expected[52..60].copy_from_slice(&image[8..16]);
    assert_eq!(bytes, expected);
}

#[test]
fn incomplete_last_row_is_left_out() {
    let mut bytes = vec![9u8; 16];
    let rect = Rect { x: 0, y: 0, width: 2, height: 2 };
    // one full row of two 2-byte pixels and half of the next
    write_sprite_image(&mut bytes, 4, 2, rect, &[1, 2, 3, 4, 5, 6]);
    let mut expected = vec![9u8; 16];
    expected[0..4].copy_from_slice(&[1, 2, 3, 4]);
    assert_eq!(bytes, expected);
}
