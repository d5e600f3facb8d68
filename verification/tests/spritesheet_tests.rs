use seija::spritesheet::{spritesheet_get_index, MetaData, SerdeSprite, SpriteSheet};

fn sprite(name: &str, x: u32, y: u32, width: u32, height: u32) -> SerdeSprite {
    SerdeSprite { height, width, x, y, name: name.to_string() }
}

fn sheet() -> SpriteSheet {
    let meta = MetaData { width: 256, height: 128, texture: "ui.png".to_string() };
    SpriteSheet::create(
        meta,
        vec![sprite("button", 0, 0, 32, 16), sprite("icon", 32, 0, 16, 16), sprite("button", 48, 0, 40, 20)],
    )
}

#[test]
fn sheet_keeps_rectangles_in_order() {
    let s = sheet();
    let rects = s.sprites();
    assert_eq!(rects.len(), 3);
    assert_eq!((rects[1].x, rects[1].y, rects[1].width, rects[1].height), (32, 0, 16, 16));
    assert_eq!((rects[2].x, rects[2].width, rects[2].height), (48, 40, 20));
    assert_eq!(s.meta().width, 256);
    assert_eq!(s.meta().texture, "ui.png");
}

#[test]
fn names_stand_for_last_sprite() {
    let s = sheet();
    assert_eq!(s.get_index("button"), Some(2));
    assert_eq!(s.get_index("icon"), Some(1));
    assert_eq!(s.get_index("missing"), None);
    assert_eq!(spritesheet_get_index(&s, "icon"), 1);
    assert_eq!(spritesheet_get_index(&s, "missing"), -1);
}

#[test]
fn name_list_holds_each_name_once() {
    let s = sheet();
    let (list, max_len) = s.name_list();
    assert_eq!(list.len(), 2);
    assert!(list.contains(&(2, "button".to_string())));
    assert!(list.contains(&(1, "icon".to_string())));
    assert_eq!(max_len, 6);
    let empty = SpriteSheet::create(MetaData { width: 1, height: 1, texture: String::new() }, vec![]);
    assert_eq!(empty.name_list(), (vec![], 0));
    let wide = SpriteSheet::create(MetaData { width: 1, height: 1, texture: String::new() }, vec![sprite("é", 0, 0, 1, 1)]);
    assert_eq!(wide.name_list().1, 2);
}
