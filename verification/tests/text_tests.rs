use seija::text::{char_is_control, char_is_whitespace};

#[test]
fn character_classes_agree_with_std() {
    for n in 0u32..0x110000 {
        if let Some(c) = char::from_u32(n) {
            assert_eq!(char_is_whitespace(c), c.is_whitespace(), "whitespace {:x}", n);
            assert_eq!(char_is_control(c), c.is_control(), "control {:x}", n);
        }
    }
}
