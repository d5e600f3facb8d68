use seija::ui_types::{UIZOrder, ZOrder};
use seija::hierarchy::get_top_panel;
use seija::zorder::{panel_zorders, EntityTree};

fn t(entity: u64, children: Vec<EntityTree>) -> EntityTree {
    EntityTree { entity, children }
}

#[test]
fn canvas_children_numbered_in_tree_order() {
    let children = vec![t(2, vec![t(3, vec![]), t(4, vec![t(5, vec![])])]), t(6, vec![])];
    let z = ZOrder::update(10, &children);
    assert_eq!(z, vec![(2, 11), (3, 12), (4, 13), (5, 14), (6, 15)]);
    assert!(ZOrder::update(0, &vec![]).is_empty());
}

#[test]
fn panel_numbered_from_its_own_zorder() {
    let panel = t(1, vec![t(2, vec![]), t(3, vec![t(4, vec![])])]);
    assert_eq!(panel_zorders(&panel, Some(7)), vec![(1, 7), (2, 8), (3, 9), (4, 10)]);
    assert_eq!(panel_zorders(&panel, None), vec![(1, 1), (2, 2), (3, 3), (4, 4)]);
}

#[test]
fn renumbering_keeps_last_value() {
    let mut z = UIZOrder::first(3);
    assert_eq!((z.last, z.value), (-1, 3));
    z.renumber(8);
    assert_eq!((z.last, z.value), (3, 8));
}

#[test]
fn top_panel_is_outermost() {
    assert_eq!(get_top_panel(&vec![(2, true), (3, false), (4, true), (5, false)]), Some(4));
    assert_eq!(get_top_panel(&vec![(2, false), (3, false)]), None);
    assert_eq!(get_top_panel(&vec![]), None);
}

#[test]
fn canvas_zorders_as_documented() {
    // Canvas Z:0; R1 1, R2 2, R3 (a canvas) 3, its R30 4 and R31 5, R4 6, R5 7, R6 8.
    let children = vec![
        t(1, vec![]),
        t(2, vec![]),
        t(3, vec![t(30, vec![]), t(31, vec![])]),
        t(4, vec![]),
        t(5, vec![]),
        t(6, vec![]),
    ];
    let z = ZOrder::update(0, &children);
    assert_eq!(z, vec![(1, 1), (2, 2), (3, 3), (30, 4), (31, 5), (4, 6), (5, 7), (6, 8)]);
}
