use seija::hierarchy::{changed_top_canvases, collect_dirty, find_canvas, find_top_canvas, get_top_elem_dirty, DirtySource};

#[test]
fn nearest_and_outermost_canvas() {
    let chain = vec![(5, false), (4, true), (3, false), (2, true), (1, false)];
    assert_eq!(find_canvas(&chain), Some(4));
    assert_eq!(find_top_canvas(&chain), Some(2));
    assert_eq!(find_canvas(&vec![(5, true), (4, true)]), Some(5));
    assert_eq!(find_canvas(&vec![(5, false)]), None);
    assert_eq!(find_top_canvas(&vec![]), None);
}

#[test]
fn dirty_layout_goes_up_while_parents_depend() {
    // 10 is an element; its parent 11 depends on its children, 12 does not.
    let ancestors = vec![(11, Some(true)), (12, Some(false)), (13, Some(true))];
    assert_eq!(get_top_elem_dirty(10, true, &ancestors), 11);
    // every parent depends: the outermost element is redone.
    let ancestors = vec![(11, Some(true)), (12, None), (13, Some(true)), (14, None)];
    assert_eq!(get_top_elem_dirty(10, true, &ancestors), 13);
    // no element above: the element itself.
    assert_eq!(get_top_elem_dirty(10, true, &vec![(11, None)]), 10);
    // a parent element that does not depend on a non-element child.
    assert_eq!(get_top_elem_dirty(10, false, &vec![(11, Some(false)), (12, Some(false))]), 11);
}

#[test]
fn dirty_elements_collected_once() {
    let changed = vec![
        DirtySource { entity: 10, is_elem: true, ancestors: vec![(11, Some(true)), (12, Some(false))] },
        DirtySource { entity: 20, is_elem: true, ancestors: vec![(11, Some(true)), (12, Some(false))] },
        DirtySource { entity: 30, is_elem: true, ancestors: vec![] },
    ];
    let mut dirty = collect_dirty(false, &vec![1, 2], &changed);
    dirty.sort();
    assert_eq!(dirty, vec![11, 30]);
    // a resize redoes every child of a canvas, whatever changed
    let mut dirty = collect_dirty(true, &vec![2, 1, 2], &changed);
    dirty.sort();
    assert_eq!(dirty, vec![1, 2]);
}

#[test]
fn rebuilt_meshes_renumber_their_top_canvases() {
    let chains = vec![
        vec![(10, false), (2, true), (1, true)],
        vec![(11, false), (1, true)],
        vec![(12, false)],
        vec![(13, true)],
    ];
    let mut tops = changed_top_canvases(&chains);
    tops.sort();
    assert_eq!(tops, vec![1, 13]);
}
