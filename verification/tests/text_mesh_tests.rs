use seija::text_mesh::{text_mesh_indices, write_font_texture, FontRect, FONT_TEXTURE_SIZE};

#[test]
fn glyph_rows_copied_into_texture() {
    let mut data = vec![0u8; FONT_TEXTURE_SIZE * 3];
    let rect = FontRect { min: [2, 1], max: [5, 3] };
    let bytes = [1u8, 2, 3, 4, 5, 6, 7];
    write_font_texture(&mut data, rect, &bytes);
    assert_eq!(&data[1024 + 2..1024 + 5], &[1, 2, 3]);
    assert_eq!(&data[2048 + 2..2048 + 5], &[4, 5, 6]);
    let written: usize = data.iter().filter(|b| **b != 0).count();
    assert_eq!(written, 6);
    assert_eq!(data[2048 + 5], 0);
}

#[test]
fn empty_glyph_writes_nothing() {
    let mut data = vec![9u8; 16];
    write_font_texture(&mut data, FontRect { min: [0, 0], max: [4, 1] }, &[1, 2]);
    assert_eq!(data, vec![9u8; 16]);
}

#[test]
fn quad_indices_follow_vertex_offsets() {
    assert_eq!(text_mesh_indices(&vec![4, 4]), vec![2, 1, 0, 2, 3, 1, 6, 5, 4, 6, 7, 5]);
    assert_eq!(text_mesh_indices(&vec![4, 6, 4]).len(), 18);
    assert_eq!(text_mesh_indices(&vec![4, 6, 4])[12..], [12, 11, 10, 12, 13, 11]);
    assert!(text_mesh_indices(&vec![]).is_empty());
}

use seija::text_mesh::merge_mesh_indices;

#[test]
fn merged_indices_move_past_earlier_vertices() {
    let meshes = vec![(vec![0, 1, 2, 1, 3, 2], 4), (vec![0, 1, 2], 3), (vec![], 5), (vec![2, 0], 3)];
    assert_eq!(
        merge_mesh_indices(&meshes),
        vec![0, 1, 2, 1, 3, 2, 4, 5, 6, 14, 12]
    );
    assert!(merge_mesh_indices(&vec![]).is_empty());
}
