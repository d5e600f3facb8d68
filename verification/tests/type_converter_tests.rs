use seija::type_converter::{WgpuFrom, WgpuInto};

#[derive(Debug, PartialEq)]
struct BufferBits(u32);

impl WgpuFrom<u8> for BufferBits {
    fn from(val: u8) -> Self {
        BufferBits(val as u32 * 2)
    }
}

#[test]
fn into_uses_the_target_conversion() {
    let b: BufferBits = 3u8.wgpu_into();
    assert_eq!(b, BufferBits(6));
}
