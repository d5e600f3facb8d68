use seija::ui_event::{
    bubble_event_node, capture_event_node, capture_ui_system, EventNode, EventTree, FiredEvent, NODE_TOUCH_IN,
    UI_EVENT_CLICK, UI_EVENT_TOUCH_END, UI_EVENT_TOUCH_START,
};

fn node(event_type: u32, use_capture: bool) -> EventNode {
    EventNode { state: 0, event_type, stop_capture: false, stop_bubble: false, use_capture }
}

fn leaf(entity: u64, hit: bool, node: Option<EventNode>) -> EventTree {
    EventTree { entity, hit, node, children: vec![] }
}

fn ev(entity: u64, event_type: u32) -> FiredEvent {
    FiredEvent { entity, event_type }
}

#[test]
fn press_is_captured_then_bubbled() {
    let all = UI_EVENT_TOUCH_START | UI_EVENT_TOUCH_END | UI_EVENT_CLICK;
    let tree = EventTree {
        entity: 1,
        hit: true,
        node: Some(node(all, true)),
        children: vec![leaf(2, true, Some(node(all, false))), leaf(3, false, Some(node(all, false)))],
    };
    let (events, touched) = capture_ui_system(&vec![tree], &vec![], UI_EVENT_TOUCH_START);
    assert_eq!(events, vec![ev(1, UI_EVENT_TOUCH_START), ev(2, UI_EVENT_TOUCH_START)]);
    assert_eq!(touched, vec![1, 2]);
}

#[test]
fn release_of_pressed_nodes_clicks() {
    let all = UI_EVENT_TOUCH_START | UI_EVENT_TOUCH_END | UI_EVENT_CLICK;
    let mut a = node(all, true);
    a.state = NODE_TOUCH_IN;
    let mut b = node(all, false);
    b.state = NODE_TOUCH_IN;
    let tree = EventTree { entity: 1, hit: true, node: Some(a), children: vec![leaf(2, true, Some(b))] };
    let (events, touched) = capture_ui_system(&vec![tree], &vec![], UI_EVENT_TOUCH_END);
    assert_eq!(
        events,
        vec![
            ev(1, UI_EVENT_TOUCH_END),
            ev(1, UI_EVENT_CLICK),
            ev(2, UI_EVENT_TOUCH_END),
            ev(2, UI_EVENT_CLICK)
        ]
    );
    assert!(touched.is_empty());
}

#[test]
fn stop_capture_silences_nodes_below() {
    let mut a = node(UI_EVENT_TOUCH_START, true);
    a.stop_capture = true;
    let tree = EventTree {
        entity: 1,
        hit: true,
        node: Some(a),
        children: vec![leaf(2, true, Some(node(UI_EVENT_TOUCH_START, true)))],
    };
    let mut events = vec![];
    let mut touched = vec![];
    let path = capture_event_node(&tree, UI_EVENT_TOUCH_START, false, &mut events, &mut touched);
    assert_eq!(events, vec![ev(1, UI_EVENT_TOUCH_START)]);
    assert_eq!(touched, vec![1, 2]);
    let path = path.unwrap();
    assert_eq!(path.len(), 2);
    assert_eq!(path[0].0, 2);
    assert_eq!(path[1].0, 1);
}

#[test]
fn stop_bubble_silences_nodes_above() {
    let mut c = node(UI_EVENT_TOUCH_END, false);
    c.stop_bubble = true;
    let path = vec![(3, Some(c)), (4, None), (2, Some(node(UI_EVENT_TOUCH_END, false)))];
    let mut events = vec![];
    bubble_event_node(&path, UI_EVENT_TOUCH_END, false, &mut events);
    assert_eq!(events, vec![ev(3, UI_EVENT_TOUCH_END)]);
}

#[test]
fn bubbling_reaches_the_system_and_above() {
    let tree = EventTree {
        entity: 5,
        hit: true,
        node: None,
        children: vec![leaf(6, true, None), leaf(7, true, Some(node(UI_EVENT_TOUCH_START, true)))],
    };
    let above = vec![(1, Some(node(UI_EVENT_TOUCH_START, false))), (0, None)];
    let (events, touched) = capture_ui_system(&vec![tree], &above, UI_EVENT_TOUCH_START);
    assert_eq!(events, vec![ev(7, UI_EVENT_TOUCH_START), ev(1, UI_EVENT_TOUCH_START)]);
    assert_eq!(touched, vec![7]);
}

#[test]
fn missed_tree_fires_nothing() {
    let tree = EventTree {
        entity: 1,
        hit: false,
        node: Some(node(UI_EVENT_TOUCH_START, true)),
        children: vec![leaf(2, true, Some(node(UI_EVENT_TOUCH_START, true)))],
    };
    let above = vec![(9, Some(node(UI_EVENT_TOUCH_START, false)))];
    let (events, touched) = capture_ui_system(&vec![tree], &above, UI_EVENT_TOUCH_START);
    assert!(events.is_empty());
    assert!(touched.is_empty());
}

use seija::ui_event::{
    ui_system_handle, MouseInput, NODE_DRAG_IN, NODE_MOVE_IN, UI_EVENT_BEGIN_DRAG, UI_EVENT_DRAG, UI_EVENT_END_DRAG,
    UI_EVENT_MOUSE_ENTER, UI_EVENT_MOUSE_LEAVE,
};

fn frame(down: bool, up: bool, moved: bool) -> MouseInput {
    MouseInput { mouse_down: down, mouse_up: up, mouse_move: moved }
}

#[test]
fn press_drag_release_frames() {
    let listens = UI_EVENT_TOUCH_START | UI_EVENT_BEGIN_DRAG | UI_EVENT_DRAG | UI_EVENT_END_DRAG;
    let mut nodes = vec![(1u64, node(listens, true))];
    let in_rect = vec![true];
    // press over the node
    let tree = vec![EventTree { entity: 1, hit: true, node: Some(nodes[0].1), children: vec![] }];
    let events = ui_system_handle(frame(true, false, false), &tree, &vec![], &mut nodes, &in_rect);
    assert_eq!(events, vec![ev(1, UI_EVENT_TOUCH_START)]);
    assert_eq!(nodes[0].1.state, NODE_TOUCH_IN);
    // move over it: the drag begins and moves
    let events = ui_system_handle(frame(false, false, true), &vec![], &vec![], &mut nodes, &in_rect);
    assert_eq!(events, vec![ev(1, UI_EVENT_BEGIN_DRAG), ev(1, UI_EVENT_DRAG)]);
    assert_eq!(nodes[0].1.state, NODE_TOUCH_IN | NODE_DRAG_IN);
    // release: the drag ends and the marks are cleared
    let tree = vec![EventTree { entity: 1, hit: true, node: Some(nodes[0].1), children: vec![] }];
    let events = ui_system_handle(frame(false, true, false), &tree, &vec![], &mut nodes, &in_rect);
    assert_eq!(events, vec![ev(1, UI_EVENT_END_DRAG)]);
    assert_eq!(nodes[0].1.state, 0);
}

#[test]
fn quiet_frame_changes_nothing() {
    let mut nodes = vec![(1u64, node(UI_EVENT_TOUCH_START, true)), (2u64, node(UI_EVENT_CLICK, false))];
    let events = ui_system_handle(frame(false, false, false), &vec![], &vec![], &mut nodes, &vec![true, false]);
    assert!(events.is_empty());
    assert_eq!(nodes[0].1.state, 0);
    assert_eq!(nodes[1].1.state, 0);
}

#[test]
fn move_frames_send_one_enter_or_leave() {
    let hover = UI_EVENT_MOUSE_ENTER | UI_EVENT_MOUSE_LEAVE;
    let mut nodes = vec![(1u64, node(hover, true)), (2u64, node(hover, true))];
    let events = ui_system_handle(frame(false, false, true), &vec![], &vec![], &mut nodes, &vec![true, false]);
    assert_eq!(events, vec![ev(1, UI_EVENT_MOUSE_ENTER)]);
    assert_eq!(nodes[0].1.state & NODE_MOVE_IN, NODE_MOVE_IN);
    let events = ui_system_handle(frame(false, false, true), &vec![], &vec![], &mut nodes, &vec![true, false]);
    assert!(events.is_empty());
    let events = ui_system_handle(frame(false, false, true), &vec![], &vec![], &mut nodes, &vec![false, true]);
    assert_eq!(events, vec![ev(1, UI_EVENT_MOUSE_LEAVE), ev(2, UI_EVENT_MOUSE_ENTER)]);
    assert_eq!(nodes[0].1.state & NODE_MOVE_IN, 0);
    assert_eq!(nodes[1].1.state & NODE_MOVE_IN, NODE_MOVE_IN);
}
