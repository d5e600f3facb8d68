use seija::canvas_changes::{changed_canvases, record_drawn, CanvasChange, Visit};
use std::collections::HashMap;

#[test]
fn reparenting_marks_old_and_new_canvas() {
    // 7 was drawn by canvas 1 and now sits under canvas 2.
    let mut entity2canvas: HashMap<u64, u64> = HashMap::new();
    entity2canvas.insert(7, 1);
    entity2canvas.insert(8, 1);
    let changes = vec![CanvasChange::Reparented(vec![Visit {
        entity: 7,
        chain: vec![(7, false), (5, false), (2, true), (1, true)],
    }])];
    let mut r = changed_canvases(&mut entity2canvas, &changes);
    r.sort();
    assert_eq!(r, vec![1, 2]);
    assert_eq!(entity2canvas.get(&7), None);
    assert_eq!(entity2canvas.get(&8), Some(&1));
}

#[test]
fn deletion_and_edits_mark_each_canvas_once() {
    let mut entity2canvas: HashMap<u64, u64> = HashMap::new();
    entity2canvas.insert(20, 3);
    entity2canvas.insert(21, 3);
    let changes = vec![
        CanvasChange::Deleted(vec![20, 21, 22], vec![(20, false), (3, true)]),
        CanvasChange::Touched(vec![(30, false), (4, true)]),
        // a canvas that moves rebuilds nothing by itself
        CanvasChange::Transformed(vec![(6, true), (4, true)]),
        CanvasChange::Transformed(vec![(31, false)]),
    ];
    let mut r = changed_canvases(&mut entity2canvas, &changes);
    r.sort();
    assert_eq!(r, vec![3, 4]);
    assert!(entity2canvas.is_empty());
}

#[test]
fn drawn_elements_record_their_canvas() {
    let mut entity2canvas: HashMap<u64, u64> = HashMap::new();
    entity2canvas.insert(4, 9);
    entity2canvas.insert(5, 9);
    record_drawn(&mut entity2canvas, 1, &vec![vec![4, 6], vec![7]]);
    assert_eq!(entity2canvas.len(), 4);
    assert_eq!(entity2canvas[&4], 1);
    assert_eq!(entity2canvas[&5], 9);
    assert_eq!(entity2canvas[&6], 1);
    assert_eq!(entity2canvas[&7], 1);
}
