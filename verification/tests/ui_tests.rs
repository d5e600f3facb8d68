use seija::ui_event::{
    EventNode, NODE_DRAG_IN, NODE_MOVE_IN, NODE_TOUCH_IN, UI_EVENT_BEGIN_DRAG, UI_EVENT_CLICK, UI_EVENT_DRAG,
    UI_EVENT_END_DRAG, UI_EVENT_MOUSE_ENTER, UI_EVENT_MOUSE_LEAVE, UI_EVENT_TOUCH_END, UI_EVENT_TOUCH_START,
};
use seija::ui_types::{
    AnchorAlign, FlexDirection, FlexIter, FlexLayout, ImageFilledType, LayoutAlignment, Orientation, Panel, UIScaleMode,
};

#[test]
fn number_conversions() {
    assert_eq!(UIScaleMode::from_u8(0), UIScaleMode::WithScreenSize);
    assert_eq!(UIScaleMode::from_u8(7), UIScaleMode::ConstantPhysicalSize);
    assert_eq!(ImageFilledType::from_u32(2), ImageFilledType::VerticalTop);
    assert_eq!(ImageFilledType::from_u32(9), ImageFilledType::VerticalBottom);
    assert_eq!(Orientation::from_primitive(1), Orientation::Vertical);
    assert_eq!(Orientation::from_primitive(5), Orientation::Horizontal);
    assert_eq!(LayoutAlignment::from_primitive(3), LayoutAlignment::Stretch);
    assert_eq!(LayoutAlignment::from_primitive(4), LayoutAlignment::Start);
    assert_eq!(AnchorAlign::try_from_primitive(4), Some(AnchorAlign::Center));
    assert_eq!(AnchorAlign::try_from_primitive(9), None);
    for n in 0..=8u8 {
        assert_eq!(AnchorAlign::try_from_primitive(n).unwrap().into_primitive(), n);
    }
}

#[test]
fn flex_and_panel() {
    let mut layout = FlexLayout::default();
    assert!(layout.is_hor());
    layout.direction = FlexDirection::ColumnReverse;
    assert!(!layout.is_hor());
    layout.direction = FlexDirection::RowReverse;
    assert!(layout.is_hor());
    assert!(!Panel::new(false).is_static);
    assert!(Panel::default().is_static);
}

#[test]
fn mouse_up_ends_drag() {
    let mut node = EventNode::default();
    node.event_type = UI_EVENT_END_DRAG;
    node.state = NODE_TOUCH_IN | NODE_DRAG_IN | NODE_MOVE_IN;
    assert!(node.on_mouse_up());
    assert_eq!(node.state, NODE_MOVE_IN);
    assert!(!node.is_touch_in());
    assert!(!node.on_mouse_up());
}

#[test]
fn mouse_move_drags_enters_and_leaves() {
    let mut node = EventNode::default();
    node.event_type = UI_EVENT_BEGIN_DRAG | UI_EVENT_DRAG | UI_EVENT_MOUSE_ENTER | UI_EVENT_MOUSE_LEAVE;
    node.state = NODE_TOUCH_IN;
    let ev = node.on_mouse_move(true);
    assert!(ev.begin_drag && ev.drag && ev.mouse_enter && !ev.mouse_leave);
    assert_eq!(node.state, NODE_TOUCH_IN | NODE_DRAG_IN | NODE_MOVE_IN);
    let ev = node.on_mouse_move(false);
    assert!(!ev.begin_drag && ev.drag && !ev.mouse_enter && ev.mouse_leave);
    assert_eq!(node.state, NODE_TOUCH_IN | NODE_DRAG_IN);
    node.clear_mark();
    assert_eq!(node.state, 0);
}

#[test]
fn press_and_release_make_a_click() {
    let mut node = EventNode::default();
    node.event_type = UI_EVENT_TOUCH_START | UI_EVENT_CLICK;
    let ev = node.capture_step(UI_EVENT_TOUCH_START, false);
    assert!(ev.fire && !ev.click && !ev.stop);
    assert!(node.is_touch_in());
    let ev = node.capture_step(UI_EVENT_TOUCH_END, false);
    assert!(!ev.fire && ev.click);
    let ev = node.capture_step(UI_EVENT_TOUCH_END, true);
    assert!(!ev.fire && !ev.click && ev.stop);
    node.use_capture = false;
    node.stop_bubble = true;
    let ev = node.bubble_step(UI_EVENT_TOUCH_END, false);
    assert!(ev.click && ev.stop && !ev.fire);
    let ev = node.bubble_step(UI_EVENT_TOUCH_START, false);
    assert!(ev.fire && !ev.click);
}

use seija::ui_types::{HorizontalAlign, LineMode, VerticalAlign};

#[test]
fn anchors_align_text() {
    assert_eq!(AnchorAlign::TopLeft.text_align(), (HorizontalAlign::Left, VerticalAlign::Top));
    assert_eq!(AnchorAlign::Center.text_align(), (HorizontalAlign::Center, VerticalAlign::Center));
    assert_eq!(AnchorAlign::BottomRight.text_align(), (HorizontalAlign::Right, VerticalAlign::Bottom));
    assert_eq!(AnchorAlign::Left.text_align(), (HorizontalAlign::Left, VerticalAlign::Center));
}

#[test]
fn line_mode_numbers() {
    assert_eq!(LineMode::Wrap.into_primitive(), 1);
    assert_eq!(LineMode::try_from_primitive(0), Some(LineMode::Single));
    assert_eq!(LineMode::try_from_primitive(2), None);
}

#[test]
fn hover_mark_follows_the_pointer() {
    let mut node = EventNode::default();
    node.event_type = UI_EVENT_MOUSE_ENTER | UI_EVENT_MOUSE_LEAVE;
    let path = [true, true, false, false, true, false];
    let mut was_in = false;
    for &inside in path.iter() {
        let ev = node.on_mouse_move(inside);
        assert_eq!(ev.mouse_enter, !was_in && inside);
        assert_eq!(ev.mouse_leave, was_in && !inside);
        assert_eq!(node.state & NODE_MOVE_IN != 0, inside);
        was_in = inside;
    }
}

#[test]
fn flex_children_come_in_layout_order() {
    let children = vec![4u64, 5, 6];
    let mut it = FlexIter::new(Some(&children), FlexDirection::Row);
    assert_eq!((it.next(), it.next(), it.next(), it.next()), (Some(4), Some(5), Some(6), None));
    let mut it = FlexIter::new(Some(&children), FlexDirection::ColumnReverse);
    assert_eq!((it.next(), it.next(), it.next(), it.next()), (Some(6), Some(5), Some(4), None));
    let mut it = FlexIter::new(None, FlexDirection::RowReverse);
    assert_eq!(it.next(), None);
}
