//! The plain types of the UI layer: layout settings, alignments, scale
//! modes, z-orders and panels, with their conversions from the numbers the
//! scripting layer passes.
use vstd::prelude::*;

verus! {

/// The draw order of a UI element.
#[derive(Debug, Default)]
pub struct ZOrder {
    pub value: u32,
}

/// The z-order of a UI element, with the value it had before.
pub struct UIZOrder {
    pub last: i32,
    pub value: i32,
}

/// Marks an element whose changes are tracked.
pub struct ElementTrack;

/// Marks the UI event root of a canvas.
pub struct UIEventSystem {}

impl Default for UIEventSystem {
    fn default() -> (s: Self) {
        UIEventSystem {  }
    }
}

/// A panel batches the meshes of its elements; a static panel is built once
/// and never changed.
pub struct Panel {
    pub is_static: bool,
}

impl Panel {
    /// A panel, static or not.
    pub fn new(is_static: bool) -> (p: Self)
        ensures
            p.is_static == is_static,
    {
        Panel { is_static }
    }
}

impl Default for Panel {
    fn default() -> (p: Self)
        ensures
            p.is_static,
    {
        Panel { is_static: true }
    }
}

/// How a canvas scales with the window.
#[derive(Debug, Clone, Copy, PartialEq, Eq)]
pub enum UIScaleMode {
    WithScreenSize,
    ConstantPhysicalSize,
}

impl UIScaleMode {
    /// The scale mode a number stands for: 0 scales with the screen, any
    /// other number keeps the physical size.
    pub fn from_u8(n: u8) -> (m: Self)
        ensures
            m == (if n == 0 { UIScaleMode::WithScreenSize } else { UIScaleMode::ConstantPhysicalSize }),
    {
        if n == 0 {
            UIScaleMode::WithScreenSize
        } else {
            UIScaleMode::ConstantPhysicalSize
        }
    }
}

impl Default for UIScaleMode {
    fn default() -> (m: Self)
        ensures
            m == UIScaleMode::ConstantPhysicalSize,
    {
        UIScaleMode::ConstantPhysicalSize
    }
}

/// A canvas: how it scales with the window.
pub struct UICanvas {
    pub scale_mode: UIScaleMode,
}

impl Default for UICanvas {
    fn default() -> (c: Self)
        ensures
            c.scale_mode == UIScaleMode::ConstantPhysicalSize,
    {
        UICanvas { scale_mode: UIScaleMode::default() }
    }
}

/// How an image is filled when it is drawn partly.
#[derive(Debug, Clone, Copy, PartialEq, Eq)]
pub enum ImageFilledType {
    HorizontalLeft,
    HorizontalRight,
    VerticalTop,
    VerticalBottom,
}

impl ImageFilledType {
    /// The fill a number stands for: 0, 1 and 2 name the first three fills,
    /// any other number fills from the bottom.
    pub fn from_u32(n: u32) -> (t: Self)
        ensures
            t == (if n == 0 {
                ImageFilledType::HorizontalLeft
            } else if n == 1 {
                ImageFilledType::HorizontalRight
            } else if n == 2 {
                ImageFilledType::VerticalTop
            } else {
                ImageFilledType::VerticalBottom
            }),
    {
        if n == 0 {
            ImageFilledType::HorizontalLeft
        } else if n == 1 {
            ImageFilledType::HorizontalRight
        } else if n == 2 {
            ImageFilledType::VerticalTop
        } else {
            ImageFilledType::VerticalBottom
        }
    }
}

/// The kinds of UI events a script can listen to.
#[derive(Debug, Clone, PartialEq, Eq, Hash)]
pub enum EventType {
    TouchStart,
    TouchEnd,
    Click,
    MouseMove,
    MouseEnter,
    MouseLeave,
    KeyBoard,
    RecvChar,
}

/// The direction a stack lays its children out in.
#[derive(Debug, Clone, Copy, PartialEq, Eq, Hash)]
pub enum Orientation {
    Horizontal,
    Vertical,
}

impl Orientation {
    /// The orientation a number stands for: 1 is vertical, any other number
    /// horizontal.
    pub fn from_primitive(n: u8) -> (o: Self)
        ensures
            o == (if n == 1 { Orientation::Vertical } else { Orientation::Horizontal }),
    {
        if n == 1 {
            Orientation::Vertical
        } else {
            Orientation::Horizontal
        }
    }
}

impl Default for Orientation {
    fn default() -> (o: Self)
        ensures
            o == Orientation::Horizontal,
    {
        Orientation::Horizontal
    }
}

/// The main axis of a flex layout and its direction.
#[derive(Debug, Clone, Copy, PartialEq, Eq, Hash)]
pub enum FlexDirection {
    Row,
    RowReverse,
    Column,
    ColumnReverse,
}

/// Whether a flex layout wraps its children onto several lines.
#[derive(Debug, Clone, Copy, PartialEq, Eq, Hash)]
pub enum FlexWrap {
    NoWrap,
    Wrap,
}

/// How a flex line places its children along the main axis.
#[derive(Debug, Clone, Copy, PartialEq, Eq, Hash)]
pub enum FlexJustify {
    Start,
    Center,
    End,
    SpaceBetween,
    SpaceAround,
}

/// How a flex line aligns its children across the main axis.
#[derive(Debug, Clone, Copy, PartialEq, Eq, Hash)]
pub enum FlexAlignItems {
    Stretch,
    Center,
    Start,
    End,
}

/// How the lines of a wrapping flex layout are placed across the main axis.
#[derive(Debug, Clone, Copy, PartialEq, Eq, Hash)]
pub enum FlexAlignContent {
    Stretch,
    Center,
    Start,
    End,
    SpaceBetween,
    SpaceAround,
}

/// How one flex item is aligned across the main axis.
#[derive(Clone, Copy, PartialEq, Eq, Hash)]
pub enum FlexAlignSelf {
    Auto,
    Stretch,
    Center,
    Start,
    End,
}

/// The settings of a flex layout.
#[derive(Debug, Clone, Copy)]
pub struct FlexLayout {
    pub direction: FlexDirection,
    pub warp: FlexWrap,
    pub justify: FlexJustify,
    pub align_items: FlexAlignItems,
    pub align_content: FlexAlignContent,
}

impl FlexLayout {
    /// Whether the main axis is horizontal: rows are, columns are not.
    pub fn is_hor(&self) -> (r: bool)
        ensures
            r == (self.direction == FlexDirection::Row || self.direction == FlexDirection::RowReverse),
    {
        match self.direction {
            FlexDirection::Column | FlexDirection::ColumnReverse => false,
            _ => true,
        }
    }
}

impl Default for FlexLayout {
    fn default() -> (l: Self)
        ensures
            l.direction == FlexDirection::Row,
            l.warp == FlexWrap::NoWrap,
            l.justify == FlexJustify::Start,
            l.align_items == FlexAlignItems::Stretch,
            l.align_content == FlexAlignContent::Stretch,
    {
        FlexLayout {
            direction: FlexDirection::Row,
            warp: FlexWrap::NoWrap,
            justify: FlexJustify::Start,
            align_items: FlexAlignItems::Stretch,
            align_content: FlexAlignContent::Stretch,
        }
    }
}

/// A tiled panel, known by its key.
pub struct TiledPanel {
    pub key: i32,
}

/// Whether a tile splits into a row, a column, or holds nothing.
pub enum TiledItemType {
    Row,
    Col,
    Empty,
}

/// How a layout aligns an element within the space it gets.
#[derive(Debug, Clone, Copy, PartialEq, Eq)]
pub enum LayoutAlignment {
    Start,
    Center,
    End,
    Stretch,
}

impl LayoutAlignment {
    /// The alignment a number stands for: 0 to 3 in the order above, any
    /// other number `Start`.
    pub fn from_primitive(n: u8) -> (a: Self)
        ensures
            a == (if n == 1 {
                LayoutAlignment::Center
            } else if n == 2 {
                LayoutAlignment::End
            } else if n == 3 {
                LayoutAlignment::Stretch
            } else {
                LayoutAlignment::Start
            }),
    {
        if n == 1 {
            LayoutAlignment::Center
        } else if n == 2 {
            LayoutAlignment::End
        } else if n == 3 {
            LayoutAlignment::Stretch
        } else {
            LayoutAlignment::Start
        }
    }
}

/// A layout that places its children where they say.
pub struct FreeLayout {}

/// Where an anchor sits on a rectangle.
#[derive(Debug, Clone, Copy, PartialEq, Eq)]
pub enum AnchorAlign {
    TopLeft,
    Top,
    TopRight,
    Left,
    Center,
    Right,
    BottomLeft,
    Bottom,
    BottomRight,
}

/// The number of an anchor: its place in the order above, from 0.
pub open spec fn anchor_code(a: AnchorAlign) -> u8 {
    match a {
        AnchorAlign::TopLeft => 0,
        AnchorAlign::Top => 1,
        AnchorAlign::TopRight => 2,
        AnchorAlign::Left => 3,
        AnchorAlign::Center => 4,
        AnchorAlign::Right => 5,
        AnchorAlign::BottomLeft => 6,
        AnchorAlign::Bottom => 7,
        AnchorAlign::BottomRight => 8,
    }
}

impl AnchorAlign {
    /// The number of the anchor.
    pub fn into_primitive(self) -> (n: u8)
        ensures
            n == anchor_code(self),
    {
        match self {
            AnchorAlign::TopLeft => 0,
            AnchorAlign::Top => 1,
            AnchorAlign::TopRight => 2,
            AnchorAlign::Left => 3,
            AnchorAlign::Center => 4,
            AnchorAlign::Right => 5,
            AnchorAlign::BottomLeft => 6,
            AnchorAlign::Bottom => 7,
            AnchorAlign::BottomRight => 8,
        }
    }

    /// The anchor a number stands for; numbers above 8 stand for none.
    pub fn try_from_primitive(n: u8) -> (a: Option<Self>)
        ensures
            n <= 8 ==> (a matches Some(x) && anchor_code(x) == n),
            n > 8 ==> a is None,
    {
        if n == 0 {
            Some(AnchorAlign::TopLeft)
        } else if n == 1 {
            Some(AnchorAlign::Top)
        } else if n == 2 {
            Some(AnchorAlign::TopRight)
        } else if n == 3 {
            Some(AnchorAlign::Left)
        } else if n == 4 {
            Some(AnchorAlign::Center)
        } else if n == 5 {
            Some(AnchorAlign::Right)
        } else if n == 6 {
            Some(AnchorAlign::BottomLeft)
        } else if n == 7 {
            Some(AnchorAlign::Bottom)
        } else if n == 8 {
            Some(AnchorAlign::BottomRight)
        } else {
            None
        }
    }
}

/// The number of an anchor names that anchor again, and each number up to 8
/// names the anchor whose number it is.
pub proof fn lemma_anchor_round_trip(a: AnchorAlign, n: u8)
    ensures
        anchor_code(a) <= 8,
        forall|b: AnchorAlign| anchor_code(b) == anchor_code(a) ==> b == a,
        n <= 8 ==> exists|b: AnchorAlign| anchor_code(b) == n,
{
    if n <= 8 {
        if n == 0 {
            assert(anchor_code(AnchorAlign::TopLeft) == n);
        } else if n == 1 {
            assert(anchor_code(AnchorAlign::Top) == n);
        } else if n == 2 {
            assert(anchor_code(AnchorAlign::TopRight) == n);
        } else if n == 3 {
            assert(anchor_code(AnchorAlign::Left) == n);
        } else if n == 4 {
            assert(anchor_code(AnchorAlign::Center) == n);
        } else if n == 5 {
            assert(anchor_code(AnchorAlign::Right) == n);
        } else if n == 6 {
            assert(anchor_code(AnchorAlign::BottomLeft) == n);
        } else if n == 7 {
            assert(anchor_code(AnchorAlign::Bottom) == n);
        } else {
            assert(anchor_code(AnchorAlign::BottomRight) == n);
        }
    }
}

/// How a text lays out across its box.
#[derive(Debug, Clone, Copy, PartialEq, Eq)]
pub enum HorizontalAlign {
    Left,
    Center,
    Right,
}

/// How a text lays out down its box.
#[derive(Debug, Clone, Copy, PartialEq, Eq)]
pub enum VerticalAlign {
    Top,
    Center,
    Bottom,
}

/// The column of an anchor: left, middle or right.
pub open spec fn anchor_column(a: AnchorAlign) -> HorizontalAlign {
    match a {
        AnchorAlign::TopLeft | AnchorAlign::Left | AnchorAlign::BottomLeft => HorizontalAlign::Left,
        AnchorAlign::Top | AnchorAlign::Center | AnchorAlign::Bottom => HorizontalAlign::Center,
        AnchorAlign::TopRight | AnchorAlign::Right | AnchorAlign::BottomRight => HorizontalAlign::Right,
    }
}

/// The row of an anchor: top, middle or bottom.
pub open spec fn anchor_row(a: AnchorAlign) -> VerticalAlign {
    match a {
        AnchorAlign::TopLeft | AnchorAlign::Top | AnchorAlign::TopRight => VerticalAlign::Top,
        AnchorAlign::Left | AnchorAlign::Center | AnchorAlign::Right => VerticalAlign::Center,
        AnchorAlign::BottomLeft | AnchorAlign::Bottom | AnchorAlign::BottomRight => VerticalAlign::Bottom,
    }
}

impl AnchorAlign {
    /// How a text anchored here lays out: by the anchor's column across and
    /// its row down.
    pub fn text_align(self) -> (r: (HorizontalAlign, VerticalAlign))
        ensures
            r == (anchor_column(self), anchor_row(self)),
    {
        match self {
            AnchorAlign::TopLeft => (HorizontalAlign::Left, VerticalAlign::Top),
            AnchorAlign::Top => (HorizontalAlign::Center, VerticalAlign::Top),
            AnchorAlign::TopRight => (HorizontalAlign::Right, VerticalAlign::Top),
            AnchorAlign::Left => (HorizontalAlign::Left, VerticalAlign::Center),
            AnchorAlign::Center => (HorizontalAlign::Center, VerticalAlign::Center),
            AnchorAlign::Right => (HorizontalAlign::Right, VerticalAlign::Center),
            AnchorAlign::BottomLeft => (HorizontalAlign::Left, VerticalAlign::Bottom),
            AnchorAlign::Bottom => (HorizontalAlign::Center, VerticalAlign::Bottom),
            AnchorAlign::BottomRight => (HorizontalAlign::Right, VerticalAlign::Bottom),
        }
    }
}

/// Each anchor lays a text out its own way: no two anchors share both a
/// column and a row, and every column and row pair is some anchor's.
pub proof fn lemma_text_align_one_to_one(a: AnchorAlign, b: AnchorAlign, h: HorizontalAlign, v: VerticalAlign)
    ensures
        anchor_column(a) == anchor_column(b) && anchor_row(a) == anchor_row(b) ==> a == b,
        exists|c: AnchorAlign| anchor_column(c) == h && anchor_row(c) == v,
{
    let c = match (h, v) {
        (HorizontalAlign::Left, VerticalAlign::Top) => AnchorAlign::TopLeft,
        (HorizontalAlign::Center, VerticalAlign::Top) => AnchorAlign::Top,
        (HorizontalAlign::Right, VerticalAlign::Top) => AnchorAlign::TopRight,
        (HorizontalAlign::Left, VerticalAlign::Center) => AnchorAlign::Left,
        (HorizontalAlign::Center, VerticalAlign::Center) => AnchorAlign::Center,
        (HorizontalAlign::Right, VerticalAlign::Center) => AnchorAlign::Right,
        (HorizontalAlign::Left, VerticalAlign::Bottom) => AnchorAlign::BottomLeft,
        (HorizontalAlign::Center, VerticalAlign::Bottom) => AnchorAlign::Bottom,
        (HorizontalAlign::Right, VerticalAlign::Bottom) => AnchorAlign::BottomRight,
    };
    assert(anchor_column(c) == h && anchor_row(c) == v);
}

/// The anchors are numbered row by row over a three by three grid, top row
/// first and left column first: a text anchored at the anchor numbered `n`
/// lays out in row `n / 3` (top, middle, bottom) and column `n % 3` (left,
/// middle, right). So the anchors named Top* lay out at the top, Left,
/// Center and Right in the middle, Bottom* at the bottom, and likewise for
/// the columns.
pub proof fn lemma_text_align_follows_grid(a: AnchorAlign)
    ensures
        anchor_row(a) == (if anchor_code(a) / 3 == 0 {
            VerticalAlign::Top
        } else if anchor_code(a) / 3 == 1 {
            VerticalAlign::Center
        } else {
            VerticalAlign::Bottom
        }),
        anchor_column(a) == (if anchor_code(a) % 3 == 0 {
            HorizontalAlign::Left
        } else if anchor_code(a) % 3 == 1 {
            HorizontalAlign::Center
        } else {
            HorizontalAlign::Right
        }),
        (a == AnchorAlign::TopLeft || a == AnchorAlign::Top || a == AnchorAlign::TopRight) <==> anchor_row(a)
            == VerticalAlign::Top,
        (a == AnchorAlign::Left || a == AnchorAlign::Center || a == AnchorAlign::Right) <==> anchor_row(a)
            == VerticalAlign::Center,
        (a == AnchorAlign::TopLeft || a == AnchorAlign::Left || a == AnchorAlign::BottomLeft) <==> anchor_column(a)
            == HorizontalAlign::Left,
        (a == AnchorAlign::TopRight || a == AnchorAlign::Right || a == AnchorAlign::BottomRight) <==> anchor_column(a)
            == HorizontalAlign::Right,
{
}

/// Whether a text stays on one line or wraps.
#[derive(Debug, Clone, Copy, PartialEq, Eq)]
pub enum LineMode {
    Single,
    Wrap,
}

impl LineMode {
    /// The number of the mode: 0 for one line, 1 for wrapping.
    pub fn into_primitive(self) -> (n: u8)
        ensures
            n == (if self == LineMode::Single {
                0u8
            } else {
                1u8
            }),
    {
        match self {
            LineMode::Single => 0,
            LineMode::Wrap => 1,
        }
    }

    /// The mode a number stands for; numbers above 1 stand for none.
    pub fn try_from_primitive(n: u8) -> (m: Option<Self>)
        ensures
            n == 0 ==> m == Some(LineMode::Single),
            n == 1 ==> m == Some(LineMode::Wrap),
            n > 1 ==> m is None,
    {
        if n == 0 {
            Some(LineMode::Single)
        } else if n == 1 {
            Some(LineMode::Wrap)
        } else {
            None
        }
    }
}

/// The settings the WGPU backend is made with.
#[derive(Clone)]
pub enum WGPUBackendType {
    Auto,
    Vulkan,
    Metal,
    Dx12,
    Dx11,
    Gl,
    BrowserWGPU,
}

impl Default for WGPUBackendType {
    fn default() -> (t: Self)
        ensures
            t is Vulkan,
    {
        WGPUBackendType::Vulkan
    }
}

/// The settings of the WGPU backend.
#[derive(Clone)]
pub struct WGPUConfig {
    pub backend: WGPUBackendType,
}

impl Default for WGPUConfig {
    fn default() -> (c: Self)
        ensures
            c.backend is Vulkan,
    {
        WGPUConfig { backend: WGPUBackendType::default() }
    }
}

/// Where a glTF export writes its templates, relative to the model.
pub struct ExportConfig {
    pub relative_export: String,
}

impl Default for ExportConfig {
    fn default() -> (c: Self)
        ensures
            c.relative_export@ == "../template"@,
    {
        ExportConfig { relative_export: String::from_str("../template") }
    }
}

/// The event sent when the window has been created.
#[derive(Debug, Clone, Copy)]
pub struct WindowCreated;

/// The indices of a sprite: its atlas and its place in that atlas.
#[derive(Debug, Clone, Copy)]
pub struct IndexInfo {
    pub atlas_index: usize,
    pub sprite_index: usize,
}


/// Whether a flex direction lays its children out from the end.
pub open spec fn is_reverse_dir(dir: FlexDirection) -> bool {
    dir == FlexDirection::RowReverse || dir == FlexDirection::ColumnReverse
}

/// The order in which a flex layout places `children`: as they are, or
/// from the last for a reverse direction.
pub open spec fn flex_order(children: Seq<u64>, dir: FlexDirection) -> Seq<u64> {
    if is_reverse_dir(dir) {
        children.reverse()
    } else {
        children
    }
}

/// Walks the children of a flex layout in the order it places them.
pub struct FlexIter {
    order: Vec<u64>,
    index: usize,
}

impl FlexIter {
    /// The children still to come.
    pub closed spec fn remaining(&self) -> Seq<u64> {
        self.order@.skip(self.index as int)
    }

    /// Whether the walk is over no more than its children.
    pub closed spec fn wf(&self) -> bool {
        self.index <= self.order@.len()
    }

    /// A walk over `children` (none if the element has no children) in the
    /// order a flex layout in direction `dir` places them.
    pub fn new(children: Option<&Vec<u64>>, dir: FlexDirection) -> (it: Self)
        ensures
            it.wf(),
            it.remaining() == match children {
                Some(c) => flex_order(c@, dir),
                None => Seq::<u64>::empty(),
            },
    {
        let mut order: Vec<u64> = Vec::new();
        match children {
            Some(c) => {
                let reverse = match dir {
                    FlexDirection::RowReverse | FlexDirection::ColumnReverse => true,
                    _ => false,
                };
                let n = c.len();
                let mut i: usize = 0;
                while i < n
                    invariant
                        n == c@.len(),
                        i <= n,
                        reverse == is_reverse_dir(dir),
                        order@.len() == i,
                        forall|k: int| 0 <= k < i ==> #[trigger] order@[k] == flex_order(c@, dir)[k],
                    decreases n - i,
                {
                    if reverse {
                        order.push(c[n - 1 - i]);
                    } else {
                        order.push(c[i]);
                    }
                    i = i + 1;
                }
                proof {
                    assert(order@ =~= flex_order(c@, dir));
                }
            },
            None => {},
        }
        let it = FlexIter { order, index: 0 };
        proof {
            assert(it.order@.skip(0) =~= it.order@);
        }
        it
    }

    /// The next child, if any is left.
    pub fn next(&mut self) -> (r: Option<u64>)
        requires
            old(self).wf(),
        ensures
            final(self).wf(),
            old(self).remaining().len() == 0 ==> r is None && final(self).remaining() == old(self).remaining(),
            old(self).remaining().len() > 0 ==> r == Some(old(self).remaining()[0]) && final(self).remaining()
                == old(self).remaining().drop_first(),
    {
        if self.index < self.order.len() {
            let c = self.order[self.index];
            proof {
                assert(self.order@.skip(self.index + 1) =~= self.order@.skip(self.index as int).drop_first());
            }
            self.index = self.index + 1;
            Some(c)
        } else {
            None
        }
    }
}

} // verus!
