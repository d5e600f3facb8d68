//! The rules by which UI event nodes react to the mouse: which events a
//! node fires and how its touch, hover and drag marks change, and how a
//! press or release is passed down the element tree to the node it hits and
//! back up from there. Hit testing and positions belong to the caller.
use vstd::prelude::*;

verus! {

/// Event kinds a node can listen to, as bits of a mask.
pub const UI_EVENT_NONE: u32 = 0x0;
pub const UI_EVENT_TOUCH_START: u32 = 0x1;
pub const UI_EVENT_TOUCH_END: u32 = 0x2;
pub const UI_EVENT_MOUSE_ENTER: u32 = 0x4;
pub const UI_EVENT_MOUSE_LEAVE: u32 = 0x8;
pub const UI_EVENT_CLICK: u32 = 0x10;
pub const UI_EVENT_BEGIN_DRAG: u32 = 0x20;
pub const UI_EVENT_DRAG: u32 = 0x40;
pub const UI_EVENT_END_DRAG: u32 = 0x80;

/// Marks a node carries, as bits of its state.
pub const NODE_STATE_NONE: u32 = 0x0;
/// A press began on the node and has not been released.
pub const NODE_TOUCH_IN: u32 = 0x1;
/// The mouse is over the node.
pub const NODE_MOVE_IN: u32 = 0x2;
/// The node is being dragged.
pub const NODE_DRAG_IN: u32 = 0x4;

/// Whether the bit `flag` is set in `bits`.
pub open spec fn flag_set(bits: u32, flag: u32) -> bool {
    bits & flag != 0
}

/// A node that receives UI events: its marks, the events it listens to, and
/// how it takes part in capturing and bubbling.
#[derive(Debug, Clone, Copy)]
pub struct EventNode {
    pub state: u32,
    pub event_type: u32,
    pub stop_capture: bool,
    pub stop_bubble: bool,
    /// Whether the node fires while the event is captured (walking down the
    /// tree) rather than while it bubbles (walking up).
    pub use_capture: bool,
}

impl Default for EventNode {
    fn default() -> (n: Self)
        ensures
            n.state == NODE_STATE_NONE,
            n.event_type == UI_EVENT_NONE,
            !n.stop_capture,
            !n.stop_bubble,
            n.use_capture,
    {
        EventNode {
            state: NODE_STATE_NONE,
            event_type: UI_EVENT_NONE,
            stop_capture: false,
            stop_bubble: false,
            use_capture: true,
        }
    }
}

/// The events a node fires when the mouse moves.
pub struct MoveEvents {
    pub begin_drag: bool,
    pub drag: bool,
    pub mouse_enter: bool,
    pub mouse_leave: bool,
}

/// The events a node fires when the mouse moves, over it (`in_rect`) or
/// not: see `EventNode::on_mouse_move`.
pub open spec fn spec_move_events(n: EventNode, in_rect: bool) -> MoveEvents {
    let begin_drag = flag_set(n.event_type, UI_EVENT_BEGIN_DRAG) && flag_set(n.state, NODE_TOUCH_IN) && in_rect
        && !flag_set(n.state, NODE_DRAG_IN);
    MoveEvents {
        begin_drag,
        drag: flag_set(n.event_type, UI_EVENT_DRAG) && (flag_set(n.state, NODE_DRAG_IN) || begin_drag),
        mouse_enter: flag_set(n.event_type, UI_EVENT_MOUSE_ENTER) && !flag_set(n.state, NODE_MOVE_IN) && in_rect,
        mouse_leave: flag_set(n.event_type, UI_EVENT_MOUSE_LEAVE) && flag_set(n.state, NODE_MOVE_IN) && !in_rect,
    }
}

/// The marks of a node after the mouse moved and it fired `ev`: dragged
/// once a drag begins, hovered on an enter, not hovered on a leave.
pub open spec fn move_state(s: u32, ev: MoveEvents) -> u32 {
    let s1 = if ev.begin_drag {
        s | NODE_DRAG_IN
    } else {
        s
    };
    let s2 = if ev.mouse_enter {
        s1 | NODE_MOVE_IN
    } else {
        s1
    };
    if ev.mouse_leave {
        s2 & !NODE_MOVE_IN
    } else {
        s2
    }
}

/// What a node does with a press or release as it is passed on: whether the
/// passing stops below or above it, and whether it fires the press or
/// release itself and a click.
pub struct PassEvents {
    pub stop: bool,
    pub fire: bool,
    pub click: bool,
}

impl EventNode {
    /// Clears every mark.
    pub fn clear_mark(&mut self)
        ensures
            final(self).state == NODE_STATE_NONE,
            final(self).event_type == old(self).event_type,
            final(self).stop_capture == old(self).stop_capture,
            final(self).stop_bubble == old(self).stop_bubble,
            final(self).use_capture == old(self).use_capture,
    {
        self.state = NODE_STATE_NONE;
    }

    /// Whether a press began on the node and has not been released.
    pub fn is_touch_in(&self) -> (r: bool)
        ensures
            r == flag_set(self.state, NODE_TOUCH_IN),
    {
        self.state & NODE_TOUCH_IN > 0
    }

    /// The mouse was released: the node is no longer pressed or dragged, and
    /// fires the end of a drag if it listens for one and was being dragged.
    pub fn on_mouse_up(&mut self) -> (end_drag: bool)
        ensures
            end_drag == (flag_set(old(self).event_type, UI_EVENT_END_DRAG) && flag_set(old(self).state, NODE_DRAG_IN)),
            !flag_set(final(self).state, NODE_TOUCH_IN),
            !flag_set(final(self).state, NODE_DRAG_IN),
            flag_set(final(self).state, NODE_MOVE_IN) == flag_set(old(self).state, NODE_MOVE_IN),
            final(self).state == old(self).state & !(NODE_TOUCH_IN | NODE_DRAG_IN),
            final(self).event_type == old(self).event_type,
            final(self).stop_capture == old(self).stop_capture,
            final(self).stop_bubble == old(self).stop_bubble,
            final(self).use_capture == old(self).use_capture,
    {
        let s0 = self.state;
        self.state = self.state & !NODE_TOUCH_IN;
        let end_drag = self.event_type & UI_EVENT_END_DRAG > 0 && self.state & NODE_DRAG_IN > 0;
        self.state = self.state & !NODE_DRAG_IN;
        proof {
            assert((s0 & !1u32) & 4u32 == s0 & 4u32) by (bit_vector);
            assert(((s0 & !1u32) & !4u32) == s0 & !(1u32 | 4u32)) by (bit_vector);
            assert((s0 & !(1u32 | 4u32)) & 1u32 == 0) by (bit_vector);
            assert((s0 & !(1u32 | 4u32)) & 4u32 == 0) by (bit_vector);
            assert((s0 & !(1u32 | 4u32)) & 2u32 == s0 & 2u32) by (bit_vector);
        }
        end_drag
    }

    /// The mouse moved, over the node or not. A pressed node that listens
    /// for drags and is not dragged yet starts being dragged once the mouse
    /// is over it; a dragged node that listens fires a drag; a node the
    /// mouse was not over fires an enter when it comes over it, and a node
    /// it was over fires a leave when it goes off it.
    pub fn on_mouse_move(&mut self, is_in_rect: bool) -> (ev: MoveEvents)
        ensures
            ev.begin_drag == (flag_set(old(self).event_type, UI_EVENT_BEGIN_DRAG) && flag_set(old(self).state, NODE_TOUCH_IN)
                && is_in_rect && !flag_set(old(self).state, NODE_DRAG_IN)),
            ev.drag == (flag_set(old(self).event_type, UI_EVENT_DRAG) && (flag_set(old(self).state, NODE_DRAG_IN)
                || ev.begin_drag)),
            ev.mouse_enter == (flag_set(old(self).event_type, UI_EVENT_MOUSE_ENTER) && !flag_set(old(self).state, NODE_MOVE_IN)
                && is_in_rect),
            ev.mouse_leave == (flag_set(old(self).event_type, UI_EVENT_MOUSE_LEAVE) && flag_set(old(self).state, NODE_MOVE_IN)
                && !is_in_rect),
            flag_set(final(self).state, NODE_TOUCH_IN) == flag_set(old(self).state, NODE_TOUCH_IN),
            flag_set(final(self).state, NODE_DRAG_IN) == (flag_set(old(self).state, NODE_DRAG_IN) || ev.begin_drag),
            flag_set(final(self).state, NODE_MOVE_IN) == (if ev.mouse_enter {
                true
            } else if ev.mouse_leave {
                false
            } else {
                flag_set(old(self).state, NODE_MOVE_IN)
            }),
            final(self).state & !(NODE_TOUCH_IN | NODE_MOVE_IN | NODE_DRAG_IN) == old(self).state & !(
            NODE_TOUCH_IN | NODE_MOVE_IN | NODE_DRAG_IN),
            ev == spec_move_events(*old(self), is_in_rect),
            final(self).state == move_state(old(self).state, ev),
            final(self).event_type == old(self).event_type,
            final(self).stop_capture == old(self).stop_capture,
            final(self).stop_bubble == old(self).stop_bubble,
            final(self).use_capture == old(self).use_capture,
    {
        let s0 = self.state;
        let et = self.event_type;
        let mut begin_drag = false;
        let mut drag = false;
        let mut mouse_enter = false;
        let mut mouse_leave = false;
        if et & UI_EVENT_BEGIN_DRAG != 0 {
            if self.state & NODE_TOUCH_IN > 0 && is_in_rect && self.state & NODE_DRAG_IN == 0 {
                self.state = self.state | NODE_DRAG_IN;
                begin_drag = true;
            }
        }
        let s1 = self.state;
        proof {
            assert((s0 | 4u32) & 4u32 != 0) by (bit_vector);
            assert((s0 | 4u32) & 1u32 == s0 & 1u32) by (bit_vector);
            assert((s0 | 4u32) & 2u32 == s0 & 2u32) by (bit_vector);
            assert((s0 | 4u32) & !(1u32 | 2u32 | 4u32) == s0 & !(1u32 | 2u32 | 4u32)) by (bit_vector);
        }
        if et & UI_EVENT_DRAG != 0 {
            if self.state & NODE_DRAG_IN > 0 {
                drag = true;
            }
        }
        if et & UI_EVENT_MOUSE_ENTER != 0 {
            if self.state & NODE_MOVE_IN == 0 {
                if is_in_rect {
                    self.state = self.state | NODE_MOVE_IN;
                    mouse_enter = true;
                }
            }
        }
        let s2 = self.state;
        proof {
            assert((s1 | 2u32) & 2u32 != 0) by (bit_vector);
            assert((s1 | 2u32) & 1u32 == s1 & 1u32) by (bit_vector);
            assert((s1 | 2u32) & 4u32 == s1 & 4u32) by (bit_vector);
            assert((s1 | 2u32) & !(1u32 | 2u32 | 4u32) == s1 & !(1u32 | 2u32 | 4u32)) by (bit_vector);
        }
        if et & UI_EVENT_MOUSE_LEAVE != 0 {
            if self.state & NODE_MOVE_IN != 0 {
                if !is_in_rect {
                    self.state = self.state & !NODE_MOVE_IN;
                    mouse_leave = true;
                }
            }
        }
        proof {
            assert((s2 & !2u32) & 2u32 == 0) by (bit_vector);
            assert((s2 & !2u32) & 1u32 == s2 & 1u32) by (bit_vector);
            assert((s2 & !2u32) & 4u32 == s2 & 4u32) by (bit_vector);
            assert((s2 & !2u32) & !(1u32 | 2u32 | 4u32) == s2 & !(1u32 | 2u32 | 4u32)) by (bit_vector);
        }
        MoveEvents { begin_drag, drag, mouse_enter, mouse_leave }
    }

    /// A press (`fire_type` is `UI_EVENT_TOUCH_START`) or release
    /// (`UI_EVENT_TOUCH_END`) reaches the node on the way down the tree. If
    /// capturing has not been stopped above it, the node stops it below
    /// itself if it says so, and, if it fires while capturing, fires the
    /// press or release if it listens for it and a click on a release of a
    /// press that began on it. A press marks the node as pressed either way.
    pub fn capture_step(&mut self, fire_type: u32, stop_capture: bool) -> (ev: PassEvents)
        ensures
            ev.stop == (stop_capture || old(self).stop_capture),
            ev.fire == (!stop_capture && old(self).use_capture && old(self).event_type & fire_type != 0),
            ev.click == (!stop_capture && old(self).use_capture && flag_set(old(self).event_type, UI_EVENT_CLICK)
                && fire_type == UI_EVENT_TOUCH_END && flag_set(old(self).state, NODE_TOUCH_IN)),
            fire_type == UI_EVENT_TOUCH_START ==> final(self).state == old(self).state | NODE_TOUCH_IN,
            fire_type == UI_EVENT_TOUCH_START ==> flag_set(final(self).state, NODE_TOUCH_IN),
            fire_type != UI_EVENT_TOUCH_START ==> final(self).state == old(self).state,
            final(self).event_type == old(self).event_type,
            final(self).stop_capture == old(self).stop_capture,
            final(self).stop_bubble == old(self).stop_bubble,
            final(self).use_capture == old(self).use_capture,
    {
        let mut stop = stop_capture;
        let mut fire = false;
        let mut click = false;
        if !stop_capture {
            if self.stop_capture {
                stop = true;
            }
            let is_click = (self.event_type & UI_EVENT_CLICK != 0) && fire_type == UI_EVENT_TOUCH_END
                && (self.state & NODE_TOUCH_IN != 0);
            let is_start_or_end = self.event_type & fire_type != 0;
            if self.use_capture {
                if is_start_or_end {
                    fire = true;
                }
                if is_click {
                    click = true;
                }
            }
        }
        if fire_type == UI_EVENT_TOUCH_START {
            let s0 = self.state;
            self.state = self.state | NODE_TOUCH_IN;
            proof {
                assert((s0 | 1u32) & 1u32 != 0) by (bit_vector);
            }
        }
        PassEvents { stop, fire, click }
    }

    /// A press or release passes the node on the way up from the node it hit.
    /// If bubbling has not been stopped below it, the node fires, if it fires
    /// while bubbling, the press or release if it listens for it and a click
    /// on a release of a press that began on it, and stops the bubbling above
    /// itself if it says so.
    pub fn bubble_step(&self, fire_type: u32, stop_bubble: bool) -> (ev: PassEvents)
        ensures
            ev.stop == (stop_bubble || self.stop_bubble),
            ev.fire == (!stop_bubble && !self.use_capture && self.event_type & fire_type != 0),
            ev.click == (!stop_bubble && !self.use_capture && flag_set(self.event_type, UI_EVENT_CLICK)
                && fire_type == UI_EVENT_TOUCH_END && flag_set(self.state, NODE_TOUCH_IN)),
    {
        let mut stop = stop_bubble;
        let mut fire = false;
        let mut click = false;
        if !stop_bubble {
            let is_click = (self.event_type & UI_EVENT_CLICK != 0) && fire_type == UI_EVENT_TOUCH_END
                && (self.state & NODE_TOUCH_IN != 0);
            let is_start_or_end = self.event_type & fire_type != 0;
            if !self.use_capture {
                if is_start_or_end {
                    fire = true;
                }
                if is_click {
                    click = true;
                }
            }
            if self.stop_bubble {
                stop = true;
            }
        }
        PassEvents { stop, fire, click }
    }
}

/// A node fires a press or release either while it is captured or while it
/// bubbles, never both: the two rules share no case.
pub proof fn lemma_capture_or_bubble(n: EventNode, fire_type: u32, stop_capture: bool, stop_bubble: bool)
    ensures
        !((!stop_capture && n.use_capture && n.event_type & fire_type != 0) && (!stop_bubble && !n.use_capture
            && n.event_type & fire_type != 0)),
{
}


/// An event a node fires: the node's entity and the kind of event.
#[derive(Debug, Clone, Copy, PartialEq, Eq)]
pub struct FiredEvent {
    pub entity: u64,
    pub event_type: u32,
}

/// An element of the tree under an event system, as a press or release
/// sees it: whether the mouse hit it (it has a rectangle, is active, and the
/// mouse lies in the rectangle), the event node it carries if any, and its
/// children in order.
pub struct EventTree {
    pub entity: u64,
    pub hit: bool,
    pub node: Option<EventNode>,
    pub children: Vec<EventTree>,
}

/// A step of the way back up the tree: an element and its event node, if
/// it has one.
pub type PathStep = (u64, Option<EventNode>);

/// What passing a press or release down a tree gives: the events fired on
/// the way, the nodes marked as pressed, and the way back up from the last
/// node hit (that node first, then its ancestors), if any node was hit.
pub struct CaptureOut {
    pub events: Seq<FiredEvent>,
    pub touched: Seq<u64>,
    pub path: Option<Seq<PathStep>>,
}

/// The events a node fires: the press or release itself, then a click.
pub open spec fn pass_events(entity: u64, fire_type: u32, fire: bool, click: bool) -> Seq<FiredEvent> {
    (if fire {
        seq![FiredEvent { entity, event_type: fire_type }]
    } else {
        Seq::empty()
    }) + (if click {
        seq![FiredEvent { entity, event_type: UI_EVENT_CLICK }]
    } else {
        Seq::empty()
    })
}

/// Whether a node fires the press or release while it is captured.
pub open spec fn capture_fires(n: EventNode, fire_type: u32, stop: bool) -> bool {
    !stop && n.use_capture && n.event_type & fire_type != 0
}

/// Whether a node fires a click while it is captured.
pub open spec fn capture_clicks(n: EventNode, fire_type: u32, stop: bool) -> bool {
    !stop && n.use_capture && flag_set(n.event_type, UI_EVENT_CLICK) && fire_type == UI_EVENT_TOUCH_END
        && flag_set(n.state, NODE_TOUCH_IN)
}

/// Whether a node fires the press or release while it bubbles.
pub open spec fn bubble_fires(n: EventNode, fire_type: u32, stop: bool) -> bool {
    !stop && !n.use_capture && n.event_type & fire_type != 0
}

/// Whether a node fires a click while it bubbles.
pub open spec fn bubble_clicks(n: EventNode, fire_type: u32, stop: bool) -> bool {
    !stop && !n.use_capture && flag_set(n.event_type, UI_EVENT_CLICK) && fire_type == UI_EVENT_TOUCH_END
        && flag_set(n.state, NODE_TOUCH_IN)
}

/// Nothing fired, nothing marked, nothing hit.
pub open spec fn capture_none() -> CaptureOut {
    CaptureOut { events: Seq::empty(), touched: Seq::empty(), path: None }
}

/// Passes a press or release down the tree `t`. An element the mouse did
/// not hit is passed over with all it holds. An element that was hit and
/// carries an event node fires by the capture rule, marks the node as
/// pressed on a press, and is the node hit so far; then its children are
/// visited in order, with capturing stopped below a node that stops it.
/// The node hit is the last one, in that order, that carries an event node.
pub open spec fn spec_capture(t: EventTree, fire_type: u32, stop: bool) -> CaptureOut
    decreases t,
{
    if !t.hit {
        capture_none()
    } else {
        let own = match t.node {
            Some(n) => CaptureOut {
                events: pass_events(
                    t.entity,
                    fire_type,
                    capture_fires(n, fire_type, stop),
                    capture_clicks(n, fire_type, stop),
                ),
                touched: if fire_type == UI_EVENT_TOUCH_START {
                    seq![t.entity]
                } else {
                    Seq::empty()
                },
                path: Some(seq![(t.entity, t.node)]),
            },
            None => capture_none(),
        };
        let below = match t.node {
            Some(n) => stop || n.stop_capture,
            None => stop,
        };
        let kids = spec_capture_all(t.children@, fire_type, below);
        CaptureOut {
            events: own.events + kids.events,
            touched: own.touched + kids.touched,
            path: match kids.path {
                Some(p) => Some(p.push((t.entity, t.node))),
                None => own.path,
            },
        }
    }
}

/// Passes a press or release down each tree of `ts` in turn; the node hit
/// is the one of the last tree that had one.
pub open spec fn spec_capture_all(ts: Seq<EventTree>, fire_type: u32, stop: bool) -> CaptureOut
    decreases ts,
{
    if ts.len() == 0 {
        capture_none()
    } else {
        let a = spec_capture_all(ts.subrange(0, ts.len() - 1), fire_type, stop);
        let b = spec_capture(ts[ts.len() - 1], fire_type, stop);
        CaptureOut {
            events: a.events + b.events,
            touched: a.touched + b.touched,
            path: if b.path is Some {
                b.path
            } else {
                a.path
            },
        }
    }
}

/// Passes a press or release up the way `path`: each element with an event
/// node fires by the bubble rule, and bubbling stops above a node that
/// stops it.
pub open spec fn spec_bubble(path: Seq<PathStep>, fire_type: u32, stop: bool) -> Seq<FiredEvent>
    decreases path.len(),
{
    if path.len() == 0 {
        Seq::empty()
    } else {
        let (entity, node) = path[0];
        match node {
            Some(n) => pass_events(entity, fire_type, bubble_fires(n, fire_type, stop), bubble_clicks(n, fire_type, stop))
                + spec_bubble(path.drop_first(), fire_type, stop || n.stop_bubble),
            None => spec_bubble(path.drop_first(), fire_type, stop),
        }
    }
}

/// The events of a press or release under an event system, and the nodes it
/// marks as pressed: each child tree of the system in turn is captured, and
/// if some node in it was hit the event bubbles from that node up through
/// its ancestors, the system, and the system's own ancestors (`above`,
/// nearest first).
pub open spec fn spec_system_capture(ts: Seq<EventTree>, above: Seq<PathStep>, fire_type: u32) -> (
    Seq<FiredEvent>,
    Seq<u64>,
)
    decreases ts.len(),
{
    if ts.len() == 0 {
        (Seq::empty(), Seq::empty())
    } else {
        let (ev, tc) = spec_system_capture(ts.drop_last(), above, fire_type);
        let c = spec_capture(ts.last(), fire_type, false);
        let up = match c.path {
            Some(p) => spec_bubble(p + above, fire_type, false),
            None => Seq::empty(),
        };
        (ev + c.events + up, tc + c.touched)
    }
}

/// Passes a press (`fire_type` is `UI_EVENT_TOUCH_START`) or release
/// (`UI_EVENT_TOUCH_END`) down the tree `t`, appending the events fired to
/// `events` and the nodes to mark as pressed to `touched`; returns the way
/// back up from the node hit, if any.
pub fn capture_event_node(
    t: &EventTree,
    fire_type: u32,
    stop: bool,
    events: &mut Vec<FiredEvent>,
    touched: &mut Vec<u64>,
) -> (path: Option<Vec<PathStep>>)
    ensures
        final(events)@ == old(events)@ + spec_capture(*t, fire_type, stop).events,
        final(touched)@ == old(touched)@ + spec_capture(*t, fire_type, stop).touched,
        match path {
            Some(p) => spec_capture(*t, fire_type, stop).path == Some(p@),
            None => spec_capture(*t, fire_type, stop).path is None,
        },
    decreases t,
{
    if !t.hit {
        proof {
            assert(old(events)@ + Seq::<FiredEvent>::empty() =~= old(events)@);
            assert(old(touched)@ + Seq::<u64>::empty() =~= old(touched)@);
        }
        return None;
    }
    let ghost ev0 = events@;
    let ghost tc0 = touched@;
    let mut below = stop;
    let mut path: Option<Vec<PathStep>> = None;
    match t.node {
        Some(n) => {
            let mut m = n;
            let pe = m.capture_step(fire_type, stop);
            if pe.fire {
                events.push(FiredEvent { entity: t.entity, event_type: fire_type });
            }
            if pe.click {
                events.push(FiredEvent { entity: t.entity, event_type: UI_EVENT_CLICK });
            }
            if fire_type == UI_EVENT_TOUCH_START {
                touched.push(t.entity);
            }
            below = pe.stop;
        },
        None => {},
    }
    let ghost own = spec_capture(*t, fire_type, stop);
    proof {
        let o = match t.node {
            Some(n) => pass_events(
                t.entity,
                fire_type,
                capture_fires(n, fire_type, stop),
                capture_clicks(n, fire_type, stop),
            ),
            None => Seq::empty(),
        };
        assert(events@ =~= ev0 + o);
    }
    let ghost ev1 = events@;
    let ghost tc1 = touched@;
    let n = t.children.len();
    let mut i: usize = 0;
    while i < n
        invariant
            n == t.children.len(),
            i <= n,
            events@ == ev1 + spec_capture_all(t.children@.subrange(0, i as int), fire_type, below).events,
            touched@ == tc1 + spec_capture_all(t.children@.subrange(0, i as int), fire_type, below).touched,
            match spec_capture_all(t.children@.subrange(0, i as int), fire_type, below).path {
                Some(p) => path is Some && path->0@ == p,
                None => path is None,
            },
        decreases n - i,
    {
        let ghost before = t.children@.subrange(0, i as int);
        let ghost evb = events@;
        let ghost tcb = touched@;
        let child_path = capture_event_node(&t.children[i], fire_type, below, events, touched);
        proof {
            let next = t.children@.subrange(0, i + 1);
            assert(next.subrange(0, next.len() - 1) =~= before);
            assert(next[next.len() - 1] == t.children@[i as int]);
            assert(events@ =~= ev1 + spec_capture_all(next, fire_type, below).events);
            assert(touched@ =~= tc1 + spec_capture_all(next, fire_type, below).touched);
        }
        if child_path.is_some() {
            path = child_path;
        }
        i = i + 1;
    }
    proof {
        assert(t.children@.subrange(0, n as int) =~= t.children@);
    }
    match path {
        Some(mut p) => {
            p.push((t.entity, t.node));
            Some(p)
        },
        None => {
            if t.node.is_some() {
                Some(vec![(t.entity, t.node)])
            } else {
                None
            }
        },
    }
}

/// Passes a press or release up the way `path`, appending the events fired
/// to `events`; `stop` says whether bubbling was stopped below the way.
pub fn bubble_event_node(path: &Vec<PathStep>, fire_type: u32, stop: bool, events: &mut Vec<FiredEvent>)
    ensures
        final(events)@ == old(events)@ + spec_bubble(path@, fire_type, stop),
{
    let ghost ev0 = events@;
    let mut stop = stop;
    let n = path.len();
    let mut i: usize = 0;
    proof {
        assert(path@.skip(0) =~= path@);
        assert(events@ + spec_bubble(path@.skip(0), fire_type, stop) =~= ev0 + spec_bubble(path@, fire_type, stop));
    }
    let ghost total = ev0 + spec_bubble(path@, fire_type, stop);
    while i < n
        invariant
            n == path.len(),
            i <= n,
            events@ + spec_bubble(path@.skip(i as int), fire_type, stop) == total,
        decreases n - i,
    {
        let ghost rest = path@.skip(i as int);
        let ghost evb = events@;
        let ghost stopb = stop;
        assert(rest.drop_first() =~= path@.skip(i + 1));
        let (entity, node) = path[i];
        match node {
            Some(n) => {
                let pe = n.bubble_step(fire_type, stop);
                if pe.fire {
                    events.push(FiredEvent { entity, event_type: fire_type });
                }
                if pe.click {
                    events.push(FiredEvent { entity, event_type: UI_EVENT_CLICK });
                }
                stop = pe.stop;
                proof {
                    assert(events@ =~= evb + pass_events(entity, fire_type, bubble_fires(n, fire_type, stopb), bubble_clicks(n, fire_type, stopb)));
                }
            },
            None => {},
        }
        proof {
            assert(events@ + spec_bubble(path@.skip(i + 1), fire_type, stop) =~= evb + spec_bubble(rest, fire_type, stopb));
        }
        i = i + 1;
    }
    proof {
        assert(path@.skip(n as int) =~= Seq::<PathStep>::empty());
        assert(events@ =~= events@ + spec_bubble(path@.skip(n as int), fire_type, stop));
    }
}

/// Handles a press (`fire_type` is `UI_EVENT_TOUCH_START`) or release
/// (`UI_EVENT_TOUCH_END`) under an event system whose child trees are
/// `trees` and whose own element and ancestors are `above`, nearest first:
/// returns the events fired, in order, and the nodes to mark as pressed.
pub fn capture_ui_system(trees: &Vec<EventTree>, above: &Vec<PathStep>, fire_type: u32) -> (r: (
    Vec<FiredEvent>,
    Vec<u64>,
))
    ensures
        (r.0@, r.1@) == spec_system_capture(trees@, above@, fire_type),
{
    let mut events: Vec<FiredEvent> = Vec::new();
    let mut touched: Vec<u64> = Vec::new();
    let n = trees.len();
    let mut i: usize = 0;
    proof {
        assert(trees@.subrange(0, 0) =~= Seq::<EventTree>::empty());
    }
    while i < n
        invariant
            n == trees.len(),
            i <= n,
            (events@, touched@) == spec_system_capture(trees@.subrange(0, i as int), above@, fire_type),
        decreases n - i,
    {
        let ghost prev = trees@.subrange(0, i as int);
        let ghost evp = events@;
        let ghost tcp = touched@;
        let path = capture_event_node(&trees[i], fire_type, false, &mut events, &mut touched);
        let ghost evc = events@;
        match path {
            Some(p) => {
                let mut full = p;
                let ghost p0 = full@;
                let m = above.len();
                let mut k: usize = 0;
                while k < m
                    invariant
                        m == above.len(),
                        k <= m,
                        full@ == p0 + above@.subrange(0, k as int),
                    decreases m - k,
                {
                    full.push(above[k]);
                    proof {
                        assert(above@.subrange(0, k + 1) =~= above@.subrange(0, k as int).push(above@[k as int]));
                    }
                    k = k + 1;
                }
                proof {
                    assert(above@.subrange(0, m as int) =~= above@);
                }
                bubble_event_node(&full, fire_type, false, &mut events);
            },
            None => {},
        }
        proof {
            let next = trees@.subrange(0, i + 1);
            assert(next.drop_last() =~= prev);
            assert(next.last() == trees@[i as int]);
            let c = spec_capture(trees@[i as int], fire_type, false);
            let up = match c.path {
                Some(q) => spec_bubble(q + above@, fire_type, false),
                None => Seq::empty(),
            };
            assert(events@ =~= evp + c.events + up);
        }
        i = i + 1;
    }
    proof {
        assert(trees@.subrange(0, n as int) =~= trees@);
    }
    (events, touched)
}

/// A release marks no node as pressed: passing a release down a tree only
/// fires events.
pub proof fn lemma_release_presses_nothing(t: EventTree, stop: bool)
    ensures
        spec_capture(t, UI_EVENT_TOUCH_END, stop).touched == Seq::<u64>::empty(),
    decreases t,
{
    if t.hit {
        let below = match t.node {
            Some(n) => stop || n.stop_capture,
            None => stop,
        };
        lemma_release_presses_nothing_all(t.children@, below);
        assert(spec_capture(t, UI_EVENT_TOUCH_END, stop).touched =~= Seq::<u64>::empty());
    }
}

/// A release marks no node of any of the trees `ts` as pressed.
pub proof fn lemma_release_presses_nothing_all(ts: Seq<EventTree>, stop: bool)
    ensures
        spec_capture_all(ts, UI_EVENT_TOUCH_END, stop).touched == Seq::<u64>::empty(),
    decreases ts,
{
    if ts.len() > 0 {
        lemma_release_presses_nothing_all(ts.subrange(0, ts.len() - 1), stop);
        lemma_release_presses_nothing(ts[ts.len() - 1], stop);
        assert(spec_capture_all(ts, UI_EVENT_TOUCH_END, stop).touched =~= Seq::<u64>::empty());
    }
}

/// Once capturing is stopped, passing the event on down fires nothing: the
/// nodes below fire only while the event bubbles.
pub proof fn lemma_stopped_capture_fires_nothing(t: EventTree, fire_type: u32)
    ensures
        spec_capture(t, fire_type, true).events == Seq::<FiredEvent>::empty(),
    decreases t,
{
    if t.hit {
        lemma_stopped_capture_fires_nothing_all(t.children@, fire_type);
        assert(spec_capture(t, fire_type, true).events =~= Seq::<FiredEvent>::empty());
    }
}

/// Once capturing is stopped, none of the trees `ts` fires while captured.
pub proof fn lemma_stopped_capture_fires_nothing_all(ts: Seq<EventTree>, fire_type: u32)
    ensures
        spec_capture_all(ts, fire_type, true).events == Seq::<FiredEvent>::empty(),
    decreases ts,
{
    if ts.len() > 0 {
        lemma_stopped_capture_fires_nothing_all(ts.subrange(0, ts.len() - 1), fire_type);
        lemma_stopped_capture_fires_nothing(ts[ts.len() - 1], fire_type);
        assert(spec_capture_all(ts, fire_type, true).events =~= Seq::<FiredEvent>::empty());
    }
}


/// What the mouse did in a frame: pressed a button, released one, moved.
#[derive(Debug, Clone, Copy, PartialEq, Eq)]
pub struct MouseInput {
    pub mouse_down: bool,
    pub mouse_up: bool,
    pub mouse_move: bool,
}

/// A node marked as pressed if the press reached it.
pub open spec fn touch_node(n: (u64, EventNode), touched: Seq<u64>) -> (u64, EventNode) {
    if touched.contains(n.0) {
        (n.0, EventNode { state: n.1.state | NODE_TOUCH_IN, ..n.1 })
    } else {
        n
    }
}

/// A node after the mouse was released: neither pressed nor dragged.
pub open spec fn up_node(n: (u64, EventNode)) -> (u64, EventNode) {
    (n.0, EventNode { state: n.1.state & !(NODE_TOUCH_IN | NODE_DRAG_IN), ..n.1 })
}

/// The ends of drags the release fires, node after node.
pub open spec fn up_events(nodes: Seq<(u64, EventNode)>) -> Seq<FiredEvent>
    decreases nodes.len(),
{
    if nodes.len() == 0 {
        Seq::empty()
    } else {
        let n = nodes.last();
        up_events(nodes.drop_last()) + if flag_set(n.1.event_type, UI_EVENT_END_DRAG) && flag_set(
            n.1.state,
            NODE_DRAG_IN,
        ) {
            seq![FiredEvent { entity: n.0, event_type: UI_EVENT_END_DRAG }]
        } else {
            Seq::empty()
        }
    }
}

/// A node after the mouse moved, over it or not.
pub open spec fn move_node(n: (u64, EventNode), in_rect: bool) -> (u64, EventNode) {
    (n.0, EventNode { state: move_state(n.1.state, spec_move_events(n.1, in_rect)), ..n.1 })
}

/// The events a node fires as the mouse moves, in order: the beginning of a
/// drag, a drag, an enter, a leave.
pub open spec fn move_fired(entity: u64, ev: MoveEvents) -> Seq<FiredEvent> {
    (if ev.begin_drag {
        seq![FiredEvent { entity, event_type: UI_EVENT_BEGIN_DRAG }]
    } else {
        Seq::empty()
    }) + (if ev.drag {
        seq![FiredEvent { entity, event_type: UI_EVENT_DRAG }]
    } else {
        Seq::empty()
    }) + (if ev.mouse_enter {
        seq![FiredEvent { entity, event_type: UI_EVENT_MOUSE_ENTER }]
    } else {
        Seq::empty()
    }) + (if ev.mouse_leave {
        seq![FiredEvent { entity, event_type: UI_EVENT_MOUSE_LEAVE }]
    } else {
        Seq::empty()
    })
}

/// The events the first `k` nodes fire as the mouse moves.
pub open spec fn move_events_upto(nodes: Seq<(u64, EventNode)>, in_rect: Seq<bool>, k: int) -> Seq<FiredEvent>
    decreases k,
{
    if k <= 0 {
        Seq::empty()
    } else {
        move_events_upto(nodes, in_rect, k - 1) + move_fired(
            nodes[k - 1].0,
            spec_move_events(nodes[k - 1].1, in_rect[k - 1]),
        )
    }
}

/// A frame of an event system: a press (taking precedence) or release is
/// passed down and up its trees and marks the nodes it reached as pressed;
/// a release then leaves every node neither pressed nor dragged, firing the
/// ends of drags; a move then updates every node (`in_rect` saying, node by
/// node, whether the mouse is over it). Returns the nodes and the events,
/// in order.
pub open spec fn spec_ui_system_handle(
    input: MouseInput,
    trees: Seq<EventTree>,
    above: Seq<PathStep>,
    nodes: Seq<(u64, EventNode)>,
    in_rect: Seq<bool>,
) -> (Seq<(u64, EventNode)>, Seq<FiredEvent>) {
    let pressed = input.mouse_down || input.mouse_up;
    let fire = if input.mouse_down {
        UI_EVENT_TOUCH_START
    } else {
        UI_EVENT_TOUCH_END
    };
    let cap = spec_system_capture(trees, above, fire);
    let n1 = if pressed {
        nodes.map_values(|n: (u64, EventNode)| touch_node(n, cap.1))
    } else {
        nodes
    };
    let released = pressed && input.mouse_up;
    let n2 = if released {
        n1.map_values(|n: (u64, EventNode)| up_node(n))
    } else {
        n1
    };
    let e1 = (if pressed {
        cap.0
    } else {
        Seq::empty()
    }) + (if released {
        up_events(n1)
    } else {
        Seq::empty()
    });
    if input.mouse_move {
        (
            Seq::new(n2.len(), |i: int| move_node(n2[i], in_rect[i])),
            e1 + move_events_upto(n2, in_rect, n2.len() as int),
        )
    } else {
        (n2, e1)
    }
}

/// Marks the nodes the press reached as pressed.
fn mark_touched(nodes: &mut Vec<(u64, EventNode)>, touched: &Vec<u64>)
    ensures
        final(nodes)@ == old(nodes)@.map_values(|n: (u64, EventNode)| touch_node(n, touched@)),
{
    let ghost n0 = nodes@;
    let n = nodes.len();
    let mut i: usize = 0;
    while i < n
        invariant
            n == nodes.len(),
            n0.len() == n,
            i <= n,
            forall|k: int| 0 <= k < i ==> #[trigger] nodes@[k] == touch_node(n0[k], touched@),
            forall|k: int| i <= k < n ==> #[trigger] nodes@[k] == n0[k],
        decreases n - i,
    {
        let (entity, node) = nodes[i];
        let m = touched.len();
        let mut j: usize = 0;
        let mut hit = false;
        while j < m
            invariant
                m == touched.len(),
                j <= m,
                hit == exists|t: int| 0 <= t < j && touched@[t] == entity,
            decreases m - j,
        {
            if touched[j] == entity {
                hit = true;
            }
            j = j + 1;
        }
        if hit {
            let mut marked = node;
            marked.state = node.state | NODE_TOUCH_IN;
            nodes.set(i, (entity, marked));
        }
        proof {
            assert(hit == touched@.contains(entity));
        }
        i = i + 1;
    }
    proof {
        assert(nodes@ =~= n0.map_values(|n: (u64, EventNode)| touch_node(n, touched@)));
    }
}

/// Applies a release to every node, appending the ends of drags it fires.
fn mouse_up_all(nodes: &mut Vec<(u64, EventNode)>, events: &mut Vec<FiredEvent>)
    ensures
        final(nodes)@ == old(nodes)@.map_values(|n: (u64, EventNode)| up_node(n)),
        final(events)@ == old(events)@ + up_events(old(nodes)@),
{
    let ghost n0 = nodes@;
    let ghost e0 = events@;
    let n = nodes.len();
    let mut i: usize = 0;
    while i < n
        invariant
            n == nodes.len(),
            n0.len() == n,
            i <= n,
            forall|k: int| 0 <= k < i ==> #[trigger] nodes@[k] == up_node(n0[k]),
            forall|k: int| i <= k < n ==> #[trigger] nodes@[k] == n0[k],
            events@ == e0 + up_events(n0.take(i as int)),
        decreases n - i,
    {
        let (entity, node) = nodes[i];
        let mut up = node;
        let end_drag = up.on_mouse_up();
        nodes.set(i, (entity, up));
        if end_drag {
            events.push(FiredEvent { entity, event_type: UI_EVENT_END_DRAG });
        }
        proof {
            let t = n0.take(i + 1);
            assert(t.drop_last() =~= n0.take(i as int));
            assert(t.last() == n0[i as int]);
            assert(events@ =~= e0 + up_events(t));
        }
        i = i + 1;
    }
    proof {
        assert(nodes@ =~= n0.map_values(|n: (u64, EventNode)| up_node(n)));
        assert(n0.take(n as int) =~= n0);
    }
}

/// Applies a move of the mouse to every node, appending the events fired.
fn mouse_move_all(nodes: &mut Vec<(u64, EventNode)>, in_rect: &Vec<bool>, events: &mut Vec<FiredEvent>)
    requires
        old(nodes)@.len() == in_rect@.len(),
    ensures
        final(nodes)@ == Seq::new(old(nodes)@.len(), |i: int| move_node(old(nodes)@[i], in_rect@[i])),
        final(events)@ == old(events)@ + move_events_upto(old(nodes)@, in_rect@, old(nodes)@.len() as int),
{
    let ghost n0 = nodes@;
    let ghost e0 = events@;
    let n = nodes.len();
    let mut i: usize = 0;
    while i < n
        invariant
            n == nodes.len(),
            n0.len() == n,
            in_rect@.len() == n,
            i <= n,
            forall|k: int| 0 <= k < i ==> #[trigger] nodes@[k] == move_node(n0[k], in_rect@[k]),
            forall|k: int| i <= k < n ==> #[trigger] nodes@[k] == n0[k],
            events@ == e0 + move_events_upto(n0, in_rect@, i as int),
        decreases n - i,
    {
        let (entity, node) = nodes[i];
        let mut moved = node;
        let ev = moved.on_mouse_move(in_rect[i]);
        nodes.set(i, (entity, moved));
        let ghost before = events@;
        if ev.begin_drag {
            events.push(FiredEvent { entity, event_type: UI_EVENT_BEGIN_DRAG });
        }
        if ev.drag {
            events.push(FiredEvent { entity, event_type: UI_EVENT_DRAG });
        }
        if ev.mouse_enter {
            events.push(FiredEvent { entity, event_type: UI_EVENT_MOUSE_ENTER });
        }
        if ev.mouse_leave {
            events.push(FiredEvent { entity, event_type: UI_EVENT_MOUSE_LEAVE });
        }
        proof {
            assert(events@ =~= before + move_fired(entity, ev));
        }
        i = i + 1;
    }
    proof {
        assert(nodes@ =~= Seq::new(n0.len(), |i: int| move_node(n0[i], in_rect@[i])));
    }
}

/// Handles a frame of an event system: see `spec_ui_system_handle`. The
/// nodes are the event nodes of the system's elements, each with its
/// element, and `in_rect` says, node by node, whether the mouse is over it.
pub fn ui_system_handle(
    input: MouseInput,
    trees: &Vec<EventTree>,
    above: &Vec<PathStep>,
    nodes: &mut Vec<(u64, EventNode)>,
    in_rect: &Vec<bool>,
) -> (events: Vec<FiredEvent>)
    requires
        old(nodes)@.len() == in_rect@.len(),
    ensures
        (final(nodes)@, events@) == spec_ui_system_handle(input, trees@, above@, old(nodes)@, in_rect@),
{
    let mut events: Vec<FiredEvent> = Vec::new();
    if input.mouse_down || input.mouse_up {
        let fire_type = if input.mouse_down {
            UI_EVENT_TOUCH_START
        } else {
            UI_EVENT_TOUCH_END
        };
        let (cev, touched) = capture_ui_system(trees, above, fire_type);
        events = cev;
        mark_touched(nodes, &touched);
        if input.mouse_up {
            mouse_up_all(nodes, &mut events);
        }
    }
    proof {
        if !(input.mouse_down || input.mouse_up) {
            assert(events@ =~= Seq::<FiredEvent>::empty() + Seq::<FiredEvent>::empty());
        } else if !input.mouse_up {
            assert(events@ =~= events@ + Seq::<FiredEvent>::empty());
        }
    }
    if input.mouse_move {
        mouse_move_all(nodes, in_rect, &mut events);
    }
    events
}

/// After a frame in which the mouse was released, no node is pressed or
/// dragged, whatever else happened in the frame.
pub proof fn lemma_release_clears_presses(
    input: MouseInput,
    trees: Seq<EventTree>,
    above: Seq<PathStep>,
    nodes: Seq<(u64, EventNode)>,
    in_rect: Seq<bool>,
)
    requires
        input.mouse_up,
        nodes.len() == in_rect.len(),
    ensures
        spec_ui_system_handle(input, trees, above, nodes, in_rect).0.len() == nodes.len(),
        forall|k: int|
            0 <= k < nodes.len() ==> !flag_set(
                (#[trigger] spec_ui_system_handle(input, trees, above, nodes, in_rect).0[k]).1.state,
                NODE_TOUCH_IN,
            ) && !flag_set(spec_ui_system_handle(input, trees, above, nodes, in_rect).0[k].1.state, NODE_DRAG_IN),
{
    let r = spec_ui_system_handle(input, trees, above, nodes, in_rect).0;
    let fire = if input.mouse_down {
        UI_EVENT_TOUCH_START
    } else {
        UI_EVENT_TOUCH_END
    };
    let cap = spec_system_capture(trees, above, fire);
    let n1 = nodes.map_values(|n: (u64, EventNode)| touch_node(n, cap.1));
    let n2 = n1.map_values(|n: (u64, EventNode)| up_node(n));
    assert forall|k: int| 0 <= k < nodes.len() implies !flag_set((#[trigger] r[k]).1.state, NODE_TOUCH_IN)
        && !flag_set(r[k].1.state, NODE_DRAG_IN) by {
        let s = n1[k].1.state;
        let s2 = s & !(NODE_TOUCH_IN | NODE_DRAG_IN);
        assert(n2[k].1.state == s2);
        assert(s2 & 1u32 == 0 && s2 & 4u32 == 0) by (bit_vector)
            requires
                s2 == s & !(1u32 | 4u32),
        ;
        if input.mouse_move {
            let ev = spec_move_events(n2[k].1, in_rect[k]);
            assert(!ev.begin_drag);
            let s3 = move_state(s2, ev);
            let enter = ev.mouse_enter;
            let leave = ev.mouse_leave;
            assert(r[k].1.state == s3);
            assert(s3 & 1u32 == 0 && s3 & 4u32 == 0) by (bit_vector)
                requires
                    s2 & 1u32 == 0,
                    s2 & 4u32 == 0,
                    s3 == (if leave {
                        (if enter {
                            s2 | 2u32
                        } else {
                            s2
                        }) & !2u32
                    } else {
                        if enter {
                            s2 | 2u32
                        } else {
                            s2
                        }
                    }),
            ;
        }
    }
}


/// With both enter and leave listened for, a node's hover mark follows the
/// pointer: after a move it is set exactly when the pointer is over the
/// node, an enter fires exactly when the pointer comes over a node it was
/// not over, and a leave exactly when it goes off a node it was over.
pub proof fn lemma_hover_follows_pointer(n: EventNode, in_rect: bool)
    requires
        flag_set(n.event_type, UI_EVENT_MOUSE_ENTER),
        flag_set(n.event_type, UI_EVENT_MOUSE_LEAVE),
    ensures
        flag_set(move_state(n.state, spec_move_events(n, in_rect)), NODE_MOVE_IN) == in_rect,
        spec_move_events(n, in_rect).mouse_enter == (!flag_set(n.state, NODE_MOVE_IN) && in_rect),
        spec_move_events(n, in_rect).mouse_leave == (flag_set(n.state, NODE_MOVE_IN) && !in_rect),
{
    let s = n.state;
    assert((s | 4u32) & 2u32 == s & 2u32) by (bit_vector);
    assert((s | 2u32) & 2u32 != 0) by (bit_vector);
    assert(((s | 4u32) | 2u32) & 2u32 != 0) by (bit_vector);
    assert((s & !2u32) & 2u32 == 0) by (bit_vector);
    assert(((s | 4u32) & !2u32) & 2u32 == 0) by (bit_vector);
}


/// How many times `e` occurs in `es`.
pub open spec fn count_of(es: Seq<FiredEvent>, e: FiredEvent) -> nat
    decreases es.len(),
{
    if es.len() == 0 {
        0
    } else {
        count_of(es.drop_last(), e) + if es.last() == e { 1nat } else { 0nat }
    }
}

proof fn lemma_count_concat(a: Seq<FiredEvent>, b: Seq<FiredEvent>, e: FiredEvent)
    ensures
        count_of(a + b, e) == count_of(a, e) + count_of(b, e),
    decreases b.len(),
{
    if b.len() > 0 {
        assert((a + b).drop_last() =~= a + b.drop_last());
        lemma_count_concat(a, b.drop_last(), e);
    } else {
        assert(a + b =~= a);
    }
}

proof fn lemma_count_single(x: FiredEvent, e: FiredEvent)
    ensures
        count_of(seq![x], e) == if x == e { 1nat } else { 0nat },
{
    assert(seq![x].drop_last() =~= Seq::<FiredEvent>::empty());
    assert(count_of(Seq::<FiredEvent>::empty(), e) == 0);
    assert(seq![x].last() == x);
}

proof fn lemma_count_opt(b: bool, x: FiredEvent, e: FiredEvent)
    ensures
        count_of(if b { seq![x] } else { Seq::<FiredEvent>::empty() }, e) == if b && x == e { 1nat } else { 0nat },
{
    lemma_count_single(x, e);
}

/// How many enters and leaves of `x` a node of `entity` fires on a move.
proof fn lemma_count_move_fired(entity: u64, ev: MoveEvents, x: u64)
    ensures
        count_of(move_fired(entity, ev), FiredEvent { entity: x, event_type: UI_EVENT_MOUSE_ENTER }) == if entity
            == x && ev.mouse_enter {
            1nat
        } else {
            0nat
        },
        count_of(move_fired(entity, ev), FiredEvent { entity: x, event_type: UI_EVENT_MOUSE_LEAVE }) == if entity
            == x && ev.mouse_leave {
            1nat
        } else {
            0nat
        },
{
    let a = if ev.begin_drag { seq![FiredEvent { entity, event_type: UI_EVENT_BEGIN_DRAG }] } else { Seq::empty() };
    let b = if ev.drag { seq![FiredEvent { entity, event_type: UI_EVENT_DRAG }] } else { Seq::empty() };
    let c = if ev.mouse_enter { seq![FiredEvent { entity, event_type: UI_EVENT_MOUSE_ENTER }] } else { Seq::empty() };
    let d = if ev.mouse_leave { seq![FiredEvent { entity, event_type: UI_EVENT_MOUSE_LEAVE }] } else { Seq::empty() };
    assert(move_fired(entity, ev) == a + b + c + d);
    let en = FiredEvent { entity: x, event_type: UI_EVENT_MOUSE_ENTER };
    let le = FiredEvent { entity: x, event_type: UI_EVENT_MOUSE_LEAVE };
    lemma_count_concat(a + b + c, d, en);
    lemma_count_concat(a + b, c, en);
    lemma_count_concat(a, b, en);
    lemma_count_concat(a + b + c, d, le);
    lemma_count_concat(a + b, c, le);
    lemma_count_concat(a, b, le);
    lemma_count_opt(ev.begin_drag, FiredEvent { entity, event_type: UI_EVENT_BEGIN_DRAG }, en);
    lemma_count_opt(ev.drag, FiredEvent { entity, event_type: UI_EVENT_DRAG }, en);
    lemma_count_opt(ev.mouse_enter, FiredEvent { entity, event_type: UI_EVENT_MOUSE_ENTER }, en);
    lemma_count_opt(ev.mouse_leave, FiredEvent { entity, event_type: UI_EVENT_MOUSE_LEAVE }, en);
    lemma_count_opt(ev.begin_drag, FiredEvent { entity, event_type: UI_EVENT_BEGIN_DRAG }, le);
    lemma_count_opt(ev.drag, FiredEvent { entity, event_type: UI_EVENT_DRAG }, le);
    lemma_count_opt(ev.mouse_enter, FiredEvent { entity, event_type: UI_EVENT_MOUSE_ENTER }, le);
    lemma_count_opt(ev.mouse_leave, FiredEvent { entity, event_type: UI_EVENT_MOUSE_LEAVE }, le);
}

/// Among the events the first `k` nodes fire on a move, node `j`'s enters
/// and leaves, when no two nodes share an entity.
proof fn lemma_count_move_upto(nodes: Seq<(u64, EventNode)>, in_rect: Seq<bool>, k: int, j: int)
    requires
        0 <= j < nodes.len(),
        k <= nodes.len(),
        nodes.len() == in_rect.len(),
        forall|a: int, b: int| 0 <= a < b < nodes.len() ==> #[trigger] nodes[a].0 != #[trigger] nodes[b].0,
    ensures
        count_of(move_events_upto(nodes, in_rect, k), FiredEvent { entity: nodes[j].0, event_type: UI_EVENT_MOUSE_ENTER })
            == if j < k && spec_move_events(nodes[j].1, in_rect[j]).mouse_enter {
            1nat
        } else {
            0nat
        },
        count_of(move_events_upto(nodes, in_rect, k), FiredEvent { entity: nodes[j].0, event_type: UI_EVENT_MOUSE_LEAVE })
            == if j < k && spec_move_events(nodes[j].1, in_rect[j]).mouse_leave {
            1nat
        } else {
            0nat
        },
    decreases k,
{
    if k > 0 {
        lemma_count_move_upto(nodes, in_rect, k - 1, j);
        let prev = move_events_upto(nodes, in_rect, k - 1);
        let last = move_fired(nodes[k - 1].0, spec_move_events(nodes[k - 1].1, in_rect[k - 1]));
        lemma_count_concat(prev, last, FiredEvent { entity: nodes[j].0, event_type: UI_EVENT_MOUSE_ENTER });
        lemma_count_concat(prev, last, FiredEvent { entity: nodes[j].0, event_type: UI_EVENT_MOUSE_LEAVE });
        lemma_count_move_fired(nodes[k - 1].0, spec_move_events(nodes[k - 1].1, in_rect[k - 1]), nodes[j].0);
        if k - 1 != j {
            if k - 1 < j {
                assert(nodes[k - 1].0 != nodes[j].0);
            } else {
                assert(nodes[j].0 != nodes[k - 1].0);
            }
        }
    }
}

/// On a move with no press or release, a node that listens for both enter
/// and leave ends hovered exactly when the pointer is over it, and the frame
/// sends it exactly one enter when the pointer came over it, exactly one
/// leave when the pointer went off it, and neither otherwise (no two nodes
/// share an entity).
pub proof fn lemma_move_sends_one_enter_or_leave(
    input: MouseInput,
    trees: Seq<EventTree>,
    above: Seq<PathStep>,
    nodes: Seq<(u64, EventNode)>,
    in_rect: Seq<bool>,
    k: int,
)
    requires
        input.mouse_move,
        !input.mouse_down,
        !input.mouse_up,
        nodes.len() == in_rect.len(),
        0 <= k < nodes.len(),
        forall|a: int, b: int| 0 <= a < b < nodes.len() ==> #[trigger] nodes[a].0 != #[trigger] nodes[b].0,
        flag_set(nodes[k].1.event_type, UI_EVENT_MOUSE_ENTER),
        flag_set(nodes[k].1.event_type, UI_EVENT_MOUSE_LEAVE),
    ensures
        flag_set(spec_ui_system_handle(input, trees, above, nodes, in_rect).0[k].1.state, NODE_MOVE_IN) == in_rect[k],
        count_of(
            spec_ui_system_handle(input, trees, above, nodes, in_rect).1,
            FiredEvent { entity: nodes[k].0, event_type: UI_EVENT_MOUSE_ENTER },
        ) == if !flag_set(nodes[k].1.state, NODE_MOVE_IN) && in_rect[k] {
            1nat
        } else {
            0nat
        },
        count_of(
            spec_ui_system_handle(input, trees, above, nodes, in_rect).1,
            FiredEvent { entity: nodes[k].0, event_type: UI_EVENT_MOUSE_LEAVE },
        ) == if flag_set(nodes[k].1.state, NODE_MOVE_IN) && !in_rect[k] {
            1nat
        } else {
            0nat
        },
{
    let r = spec_ui_system_handle(input, trees, above, nodes, in_rect);
    let moves = move_events_upto(nodes, in_rect, nodes.len() as int);
    assert(r.1 =~= Seq::<FiredEvent>::empty() + Seq::<FiredEvent>::empty() + moves);
    assert(Seq::<FiredEvent>::empty() + Seq::<FiredEvent>::empty() + moves =~= moves);
    assert(r.0[k] == move_node(nodes[k], in_rect[k]));
    lemma_hover_follows_pointer(nodes[k].1, in_rect[k]);
    lemma_count_move_upto(nodes, in_rect, nodes.len() as int, k);
}

} // verus!
