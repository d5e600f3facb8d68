use seija::draw_call::{draw_material, DrawMaterial, DrawRender, ScanDrawCall, ScanItem};

fn render(entity: u64, texture: Option<u64>) -> ScanItem {
    ScanItem::Render { entity, texture, active: true }
}

#[test]
fn draw_calls_split_on_texture_change_and_nested_canvas() {
    let items = vec![
        render(2, Some(1)),
        render(3, Some(2)),
        render(4, Some(2)),
        ScanItem::Canvas,
        render(5, Some(2)),
    ];
    let groups = ScanDrawCall::scan_entity_group(Some((1, Some(1))), &items);
    assert_eq!(groups, vec![vec![1, 2], vec![3, 4], vec![5]]);
}

#[test]
fn draw_calls_skip_inactive_elements() {
    let items = vec![
        ScanItem::Render { entity: 2, texture: Some(7), active: false },
        render(3, None),
    ];
    let groups = ScanDrawCall::scan_entity_group(Some((1, None)), &items);
    assert_eq!(groups, vec![vec![1, 3]]);
}

#[test]
fn draw_calls_of_empty_canvas() {
    let groups = ScanDrawCall::scan_entity_group(None, &vec![]);
    assert!(groups.is_empty());
    let groups = ScanDrawCall::scan_entity_group(None, &vec![ScanItem::Canvas, ScanItem::Canvas]);
    assert!(groups.is_empty());
}

#[test]
fn draw_calls_without_root_start_at_first_element() {
    let items = vec![render(4, None), render(5, Some(3)), ScanItem::Canvas, render(6, Some(3))];
    let groups = ScanDrawCall::scan_entity_group(None, &items);
    assert_eq!(groups, vec![vec![4], vec![5], vec![6]]);
}

#[test]
fn nested_canvas_splits_draw_calls_as_documented() {
    // Canvas; R1, R2; R3 is a canvas holding R30, R31; R4, R5, R6.
    let items = vec![
        render(1, Some(9)),
        render(2, Some(9)),
        ScanItem::Canvas,
        render(4, Some(9)),
        render(5, Some(9)),
        render(6, Some(9)),
    ];
    let groups = ScanDrawCall::scan_entity_group(None, &items);
    assert_eq!(groups, vec![vec![1, 2], vec![4, 5, 6]]);
}

use seija::draw_call::{PanelChild, PanelInfo};

#[test]
fn panel_draw_calls_as_documented() {
    // Panel0: Sprite0, Panel1 (dynamic) holding Sprite1, Sprite2,
    // Panel2 (static) holding Sprite3, Sprite4.
    let children = vec![
        PanelChild::Sprite(10),
        PanelChild::Panel { is_static: false, children: vec![PanelChild::Sprite(11)] },
        PanelChild::Sprite(12),
        PanelChild::Panel { is_static: true, children: vec![PanelChild::Sprite(13)] },
        PanelChild::Sprite(14),
    ];
    assert_eq!(PanelInfo::scan_drawcalls(&children), vec![vec![10], vec![12, 13, 14]]);
}

#[test]
fn panel_draw_calls_keep_empty_batches() {
    assert_eq!(PanelInfo::scan_drawcalls(&vec![]), vec![Vec::<u64>::new()]);
    let children = vec![
        PanelChild::Panel { is_static: false, children: vec![] },
        PanelChild::Other,
        PanelChild::Sprite(3),
    ];
    assert_eq!(PanelInfo::scan_drawcalls(&children), vec![vec![], vec![3]]);
}

#[test]
fn draw_call_material_is_the_last_custom_or_built_from_the_last() {
    let plain = |def: u64, tex: Option<u64>| Some(DrawRender { mat_def: def, texture: tex, custom_mat: None });
    let renders = vec![plain(1, Some(10)), None, plain(2, None)];
    assert_eq!(draw_material(&renders), DrawMaterial::Built { mat_def: 2, texture: None });
    let renders = vec![
        Some(DrawRender { mat_def: 1, texture: None, custom_mat: Some(7) }),
        Some(DrawRender { mat_def: 1, texture: None, custom_mat: Some(8) }),
        plain(3, Some(11)),
    ];
    assert_eq!(draw_material(&renders), DrawMaterial::Custom(8));
}
