//! How elements are batched into draw calls. A canvas walks its elements in
//! tree order: consecutive drawn elements that share a texture go into one
//! draw call; a new texture or a nested canvas starts a new one. A panel
//! walks its sprites: a dynamic panel among them starts a new draw call,
//! and the sprites of a static panel join the panel's own.
use vstd::prelude::*;

verus! {

/// One step of the walk over a canvas's elements, in tree order: an element
/// that may draw (with the texture it draws with and whether it is active),
/// or a nested canvas, whose elements the walk passes over.
#[derive(Debug, Clone, Copy, PartialEq, Eq)]
pub enum ScanItem {
    Render { entity: u64, texture: Option<u64>, active: bool },
    Canvas,
}

/// The state of the batching: the texture of the draw call being filled
/// (none before the first element), the finished draw calls, and the
/// elements of the one being filled.
pub struct ScanView {
    pub cur_texture: Option<Option<u64>>,
    pub groups: Seq<Seq<u64>>,
    pub cache: Seq<u64>,
}

/// Finishes the draw call being filled, if it has elements.
pub open spec fn spec_emit(v: ScanView) -> ScanView {
    if v.cache.len() > 0 {
        ScanView { groups: v.groups.push(v.cache), cache: Seq::empty(), ..v }
    } else {
        v
    }
}

/// One step of the batching.
pub open spec fn spec_scan_step(v: ScanView, item: ScanItem) -> ScanView {
    match item {
        ScanItem::Canvas => spec_emit(v),
        ScanItem::Render { entity, texture, active } => if !active {
            v
        } else {
            match v.cur_texture {
                None => ScanView { cur_texture: Some(texture), cache: v.cache.push(entity), ..v },
                Some(t) => if t != texture {
                    let v2 = spec_emit(v);
                    ScanView { cur_texture: Some(texture), cache: v2.cache.push(entity), ..v2 }
                } else {
                    ScanView { cache: v.cache.push(entity), ..v }
                },
            }
        },
    }
}

/// The batching after the steps `items`.
pub open spec fn spec_scan(v: ScanView, items: Seq<ScanItem>) -> ScanView
    decreases items.len(),
{
    if items.len() == 0 {
        v
    } else {
        spec_scan_step(spec_scan(v, items.drop_last()), items.last())
    }
}

/// The state at the canvas itself: it starts the first draw call if it
/// draws.
pub open spec fn spec_scan_start(root: Option<(u64, Option<u64>)>) -> ScanView {
    match root {
        Some((e, t)) => ScanView { cur_texture: Some(t), groups: Seq::empty(), cache: seq![e] },
        None => ScanView { cur_texture: None, groups: Seq::empty(), cache: Seq::empty() },
    }
}

/// The draw calls of a canvas: `root` is the canvas's own element and its
/// texture if it draws; `items` are the steps of the walk over its elements.
pub open spec fn spec_draw_groups(root: Option<(u64, Option<u64>)>, items: Seq<ScanItem>) -> Seq<Seq<u64>> {
    spec_emit(spec_scan(spec_scan_start(root), items)).groups
}

/// The elements drawn among `items`, in order.
pub open spec fn drawn(items: Seq<ScanItem>) -> Seq<u64>
    decreases items.len(),
{
    if items.len() == 0 {
        Seq::empty()
    } else {
        drawn(items.drop_last()) + match items.last() {
            ScanItem::Render { entity, texture, active } => if active { seq![entity] } else { Seq::empty() },
            ScanItem::Canvas => Seq::empty(),
        }
    }
}

/// The draw calls one after the other.
pub open spec fn flatten(g: Seq<Seq<u64>>) -> Seq<u64>
    decreases g.len(),
{
    if g.len() == 0 {
        Seq::empty()
    } else {
        flatten(g.drop_last()) + g.last()
    }
}

/// The canvas's own element, if it draws.
pub open spec fn root_entities(root: Option<(u64, Option<u64>)>) -> Seq<u64> {
    match root {
        Some((e, _)) => seq![e],
        None => Seq::empty(),
    }
}

proof fn lemma_scan_keeps_order(root: Option<(u64, Option<u64>)>, items: Seq<ScanItem>)
    ensures
        ({
            let v = spec_scan(spec_scan_start(root), items);
            &&& flatten(v.groups) + v.cache == root_entities(root) + drawn(items)
            &&& forall|k: int| 0 <= k < v.groups.len() ==> (#[trigger] v.groups[k]).len() > 0
        }),
    decreases items.len(),
{
    if items.len() == 0 {
        let v = spec_scan_start(root);
        assert(flatten(v.groups) + v.cache =~= root_entities(root) + drawn(items));
    } else {
        lemma_scan_keeps_order(root, items.drop_last());
        let v = spec_scan(spec_scan_start(root), items.drop_last());
        let e = spec_emit(v);
        if v.cache.len() > 0 {
            assert(e.groups.drop_last() =~= v.groups);
            assert(flatten(e.groups) + e.cache =~= flatten(v.groups) + v.cache);
            assert forall|k: int| 0 <= k < e.groups.len() implies (#[trigger] e.groups[k]).len() > 0 by {
                if k < v.groups.len() {
                    assert(e.groups[k] == v.groups[k]);
                }
            }
        }
        let w = spec_scan(spec_scan_start(root), items);
        match items.last() {
            ScanItem::Canvas => {
                assert(drawn(items) =~= drawn(items.drop_last()));
            },
            ScanItem::Render { entity, texture, active } => {
                if !active {
                    assert(drawn(items) =~= drawn(items.drop_last()));
                } else {
                    assert(drawn(items) =~= drawn(items.drop_last()).push(entity));
                    assert(flatten(e.groups) + e.cache == flatten(v.groups) + v.cache);
                    let base = match v.cur_texture {
                        Some(t) => if t != texture { e } else { v },
                        None => v,
                    };
                    assert(w.groups == base.groups && w.cache == base.cache.push(entity));
                    assert(flatten(base.groups) + base.cache.push(entity) =~= (flatten(base.groups)
                        + base.cache).push(entity));
                    assert(flatten(w.groups) + w.cache =~= root_entities(root) + drawn(items));
                }
            },
        }
    }
}

/// Every drawn element lands in exactly one draw call and the draw calls
/// keep the order of the walk: one after the other they are the canvas's
/// own element, if it draws, then the active elements of the walk. No draw
/// call is empty.
pub proof fn lemma_draw_groups_partition(root: Option<(u64, Option<u64>)>, items: Seq<ScanItem>)
    ensures
        flatten(spec_draw_groups(root, items)) == root_entities(root) + drawn(items),
        forall|k: int|
            0 <= k < spec_draw_groups(root, items).len() ==> (#[trigger] spec_draw_groups(root, items)[k]).len() > 0,
{
    lemma_scan_keeps_order(root, items);
    let v = spec_scan(spec_scan_start(root), items);
    let e = spec_emit(v);
    if v.cache.len() > 0 {
        assert(e.groups.drop_last() =~= v.groups);
        assert forall|k: int| 0 <= k < e.groups.len() implies (#[trigger] e.groups[k]).len() > 0 by {
            if k < v.groups.len() {
                assert(e.groups[k] == v.groups[k]);
            }
        }
    } else {
        assert(v.cache =~= Seq::<u64>::empty());
        assert(flatten(v.groups) + v.cache =~= flatten(v.groups));
    }
}

/// The batching of a canvas's elements into draw calls.
pub struct ScanDrawCall {
    cur_texture: Option<Option<u64>>,
    entity_group: Vec<Vec<u64>>,
    cache: Vec<u64>,
}

impl View for ScanDrawCall {
    type V = ScanView;

    closed spec fn view(&self) -> ScanView {
        ScanView {
            cur_texture: self.cur_texture,
            groups: self.entity_group@.map_values(|g: Vec<u64>| g@),
            cache: self.cache@,
        }
    }
}

impl ScanDrawCall {
    /// The draw calls of a canvas, given the canvas's own element and
    /// texture if it draws, and the walk over its elements in tree order.
    pub fn scan_entity_group(root: Option<(u64, Option<u64>)>, items: &Vec<ScanItem>) -> (groups: Vec<Vec<u64>>)
        ensures
            groups@.map_values(|g: Vec<u64>| g@) == spec_draw_groups(root, items@),
    {
        let mut scan = ScanDrawCall { entity_group: Vec::new(), cache: Vec::new(), cur_texture: None };
        if let Some((entity, texture)) = root {
            scan.cur_texture = Some(texture);
            scan.push(entity);
        }
        proof {
            assert(scan@.groups =~= Seq::<Seq<u64>>::empty());
            assert(scan@.cache =~= spec_scan_start(root).cache);
            assert(items@.take(0) =~= Seq::<ScanItem>::empty());
        }
        let n = items.len();
        let mut i: usize = 0;
        while i < n
            invariant
                n == items.len(),
                i <= n,
                scan@ == spec_scan(spec_scan_start(root), items@.take(i as int)),
            decreases n - i,
        {
            scan.scan_item(items[i]);
            proof {
                assert(items@.take(i + 1).drop_last() =~= items@.take(i as int));
            }
            i = i + 1;
        }
        proof {
            assert(items@.take(n as int) =~= items@);
        }
        scan.emit();
        scan.entity_group
    }

    /// Adds an element to the draw call being filled.
    fn push(&mut self, entity: u64)
        ensures
            final(self)@ == (ScanView { cache: old(self)@.cache.push(entity), ..old(self)@ }),
    {
        self.cache.push(entity);
    }

    /// Finishes the draw call being filled, if it has elements.
    fn emit(&mut self)
        ensures
            final(self)@ == spec_emit(old(self)@),
    {
        if self.cache.len() > 0 {
            let group = self.cache.clone();
            proof {
                assert(group@ =~= self.cache@);
            }
            let ghost g0 = self.entity_group@;
            self.entity_group.push(group);
            self.cache.clear();
            proof {
                assert(self.entity_group@.map_values(|g: Vec<u64>| g@) =~= g0.map_values(|g: Vec<u64>| g@).push(
                    group@,
                ));
            }
        }
    }

    /// One step of the walk.
    fn scan_item(&mut self, item: ScanItem)
        ensures
            final(self)@ == spec_scan_step(old(self)@, item),
    {
        match item {
            ScanItem::Canvas => {
                self.emit();
            },
            ScanItem::Render { entity, texture, active } => {
                if active {
                    match self.cur_texture {
                        None => self.cur_texture = Some(texture),
                        Some(id) => {
                            if id != texture {
                                self.emit();
                                self.cur_texture = Some(texture);
                            }
                        },
                    }
                    self.push(entity);
                }
            },
        }
    }
}


/// A child of a panel as its batching sees it: a sprite, a panel (static or
/// dynamic) with its own children, or anything else, which is passed over
/// with its children.
pub enum PanelChild {
    Sprite(u64),
    Panel { is_static: bool, children: Vec<PanelChild> },
    Other,
}

/// A step of a panel's batching: a sprite joins the draw call being
/// filled, or the draw call is finished (even if it is empty).
pub enum PanelStep {
    Push(u64),
    Emit,
}

/// The steps of one child: a sprite joins, a dynamic panel finishes the
/// draw call, a static panel's children are taken in.
pub open spec fn panel_steps(c: PanelChild) -> Seq<PanelStep>
    decreases c,
{
    match c {
        PanelChild::Sprite(e) => seq![PanelStep::Push(e)],
        PanelChild::Panel { is_static, children } => if is_static {
            panel_steps_all(children@)
        } else {
            seq![PanelStep::Emit]
        },
        PanelChild::Other => Seq::empty(),
    }
}

/// The steps of the children `cs`, one after the other.
pub open spec fn panel_steps_all(cs: Seq<PanelChild>) -> Seq<PanelStep>
    decreases cs,
{
    if cs.len() == 0 {
        Seq::empty()
    } else {
        panel_steps_all(cs.subrange(0, cs.len() - 1)) + panel_steps(cs[cs.len() - 1])
    }
}

/// The finished draw calls and the one being filled after the steps
/// `steps`, from the finished draw calls `g` and the one being filled `c`.
pub open spec fn run_steps(g: Seq<Seq<u64>>, c: Seq<u64>, steps: Seq<PanelStep>) -> (Seq<Seq<u64>>, Seq<u64>)
    decreases steps.len(),
{
    if steps.len() == 0 {
        (g, c)
    } else {
        let (g1, c1) = run_steps(g, c, steps.drop_last());
        match steps.last() {
            PanelStep::Push(e) => (g1, c1.push(e)),
            PanelStep::Emit => (g1.push(c1), Seq::empty()),
        }
    }
}

/// The draw calls of a panel whose children are `cs`: the steps of its
/// children, and a last draw call for what is left.
pub open spec fn spec_panel_drawcalls(cs: Seq<PanelChild>) -> Seq<Seq<u64>> {
    let (g, c) = run_steps(Seq::empty(), Seq::empty(), panel_steps_all(cs));
    g.push(c)
}

/// The sprites the steps push, in order.
pub open spec fn pushed(steps: Seq<PanelStep>) -> Seq<u64>
    decreases steps.len(),
{
    if steps.len() == 0 {
        Seq::empty()
    } else {
        pushed(steps.drop_last()) + match steps.last() {
            PanelStep::Push(e) => seq![e],
            PanelStep::Emit => Seq::empty(),
        }
    }
}

proof fn lemma_run_concat(g: Seq<Seq<u64>>, c: Seq<u64>, a: Seq<PanelStep>, b: Seq<PanelStep>)
    ensures
        run_steps(g, c, a + b) == run_steps(run_steps(g, c, a).0, run_steps(g, c, a).1, b),
    decreases b.len(),
{
    if b.len() == 0 {
        assert(a + b =~= a);
    } else {
        lemma_run_concat(g, c, a, b.drop_last());
        assert((a + b).drop_last() =~= a + b.drop_last());
        assert((a + b).last() == b.last());
    }
}

proof fn lemma_run_keeps_order(g: Seq<Seq<u64>>, c: Seq<u64>, steps: Seq<PanelStep>)
    ensures
        flatten(run_steps(g, c, steps).0) + run_steps(g, c, steps).1 == flatten(g) + c + pushed(steps),
    decreases steps.len(),
{
    if steps.len() == 0 {
        assert(flatten(g) + c + pushed(steps) =~= flatten(g) + c);
    } else {
        lemma_run_keeps_order(g, c, steps.drop_last());
        let (g1, c1) = run_steps(g, c, steps.drop_last());
        match steps.last() {
            PanelStep::Push(e) => {
                assert(flatten(g1) + c1.push(e) =~= (flatten(g1) + c1).push(e));
                assert(flatten(g) + c + pushed(steps) =~= (flatten(g) + c + pushed(steps.drop_last())).push(e));
            },
            PanelStep::Emit => {
                assert(g1.push(c1).drop_last() =~= g1);
                assert(flatten(g1.push(c1)) + Seq::<u64>::empty() =~= flatten(g1) + c1);
                assert(pushed(steps) =~= pushed(steps.drop_last()));
            },
        }
    }
}

/// Every sprite a panel's batching meets lands in exactly one of its draw
/// calls, in the order met: one after the other the draw calls are the
/// sprites of the panel's steps.
pub proof fn lemma_panel_drawcalls_partition(cs: Seq<PanelChild>)
    ensures
        flatten(spec_panel_drawcalls(cs)) == pushed(panel_steps_all(cs)),
{
    let steps = panel_steps_all(cs);
    lemma_run_keeps_order(Seq::empty(), Seq::empty(), steps);
    let (g, c) = run_steps(Seq::empty(), Seq::empty(), steps);
    assert(g.push(c).drop_last() =~= g);
    assert(flatten(Seq::<Seq<u64>>::empty()) + Seq::<u64>::empty() + pushed(steps) =~= pushed(steps));
}

/// A panel's batching in progress: the sprites of the draw call being
/// filled, and the finished draw calls.
pub struct PanelInfo {
    caches: Vec<u64>,
    dcs: Vec<Vec<u64>>,
}

impl PanelInfo {
    /// The draw calls of a panel whose children are `children`.
    pub fn scan_drawcalls(children: &Vec<PanelChild>) -> (dcs: Vec<Vec<u64>>)
        ensures
            dcs@.map_values(|g: Vec<u64>| g@) == spec_panel_drawcalls(children@),
    {
        let mut scan = PanelInfo { caches: Vec::new(), dcs: Vec::new() };
        proof {
            assert(scan.dcs@.map_values(|g: Vec<u64>| g@) =~= Seq::<Seq<u64>>::empty());
        }
        scan.visit_element(children);
        scan.emit();
        scan.dcs
    }

    fn visit_element(&mut self, children: &Vec<PanelChild>)
        ensures
            (final(self).dcs@.map_values(|g: Vec<u64>| g@), final(self).caches@) == run_steps(
                old(self).dcs@.map_values(|g: Vec<u64>| g@),
                old(self).caches@,
                panel_steps_all(children@),
            ),
        decreases children,
    {
        let ghost g0 = self.dcs@.map_values(|g: Vec<u64>| g@);
        let ghost c0 = self.caches@;
        let n = children.len();
        let mut i: usize = 0;
        proof {
            assert(children@.subrange(0, 0) =~= Seq::<PanelChild>::empty());
        }
        while i < n
            invariant
                n == children.len(),
                i <= n,
                (self.dcs@.map_values(|g: Vec<u64>| g@), self.caches@) == run_steps(
                    g0,
                    c0,
                    panel_steps_all(children@.subrange(0, i as int)),
                ),
            decreases n - i,
        {
            let ghost before = (self.dcs@.map_values(|g: Vec<u64>| g@), self.caches@);
            let ghost prefix = panel_steps_all(children@.subrange(0, i as int));
            let ghost child = children@[i as int];
            assert(run_steps(before.0, before.1, Seq::<PanelStep>::empty()) == before);
            match &children[i] {
                PanelChild::Sprite(e) => {
                    self.push(*e);
                    proof {
                        assert(seq![PanelStep::Push(*e)].drop_last() =~= Seq::<PanelStep>::empty());
                        assert(self.dcs@.map_values(|g: Vec<u64>| g@) =~= before.0);
                        assert((self.dcs@.map_values(|g: Vec<u64>| g@), self.caches@) == run_steps(
                            before.0,
                            before.1,
                            panel_steps(child),
                        ));
                    }
                },
                PanelChild::Panel { is_static, children: sub } => {
                    if !*is_static {
                        self.emit();
                        proof {
                            assert(seq![PanelStep::Emit].drop_last() =~= Seq::<PanelStep>::empty());
                            assert((self.dcs@.map_values(|g: Vec<u64>| g@), self.caches@) == run_steps(
                                before.0,
                                before.1,
                                panel_steps(child),
                            ));
                        }
                    } else {
                        self.visit_element(sub);
                    }
                },
                PanelChild::Other => {},
            }
            proof {
                assert((self.dcs@.map_values(|g: Vec<u64>| g@), self.caches@) == run_steps(
                    before.0,
                    before.1,
                    panel_steps(child),
                ));
                let next = children@.subrange(0, i + 1);
                assert(next.subrange(0, next.len() - 1) =~= children@.subrange(0, i as int));
                assert(next[next.len() - 1] == child);
                assert(panel_steps_all(next) == prefix + panel_steps(child));
                lemma_run_concat(g0, c0, prefix, panel_steps(child));
            }
            i = i + 1;
        }
        proof {
            assert(children@.subrange(0, n as int) =~= children@);
        }
    }

    fn push(&mut self, entity: u64)
        ensures
            final(self).caches@ == old(self).caches@.push(entity),
            final(self).dcs@ == old(self).dcs@,
    {
        self.caches.push(entity);
    }

    /// Finishes the draw call being filled, even if it is empty.
    fn emit(&mut self)
        ensures
            final(self).dcs@.map_values(|g: Vec<u64>| g@) == old(self).dcs@.map_values(|g: Vec<u64>| g@).push(
                old(self).caches@,
            ),
            final(self).caches@ == Seq::<u64>::empty(),
    {
        let take_list = self.caches.clone();
        proof {
            assert(take_list@ =~= self.caches@);
        }
        let ghost d0 = self.dcs@;
        self.dcs.push(take_list);
        self.caches.clear();
        proof {
            assert(self.dcs@.map_values(|g: Vec<u64>| g@) =~= d0.map_values(|g: Vec<u64>| g@).push(take_list@));
        }
    }
}


/// What an element of a draw call draws with: its material definition, its
/// texture and a material of its own, as ids.
#[derive(Debug, Clone, Copy, PartialEq, Eq)]
pub struct DrawRender {
    pub mat_def: u64,
    pub texture: Option<u64>,
    pub custom_mat: Option<u64>,
}

/// The material a draw call is drawn with: a material of its own, or one
/// built from a material definition with a texture set, if any.
#[derive(Debug, Clone, Copy, PartialEq, Eq)]
pub enum DrawMaterial {
    Custom(u64),
    Built { mat_def: u64, texture: Option<u64> },
}

/// The last element of `rs` that draws.
pub open spec fn last_render(rs: Seq<Option<DrawRender>>) -> Option<DrawRender>
    decreases rs.len(),
{
    if rs.len() == 0 {
        None
    } else if rs.last() is Some {
        rs.last()
    } else {
        last_render(rs.drop_last())
    }
}

/// The last material of its own among the elements of `rs` that draw.
pub open spec fn last_custom(rs: Seq<Option<DrawRender>>) -> Option<u64>
    decreases rs.len(),
{
    if rs.len() == 0 {
        None
    } else if rs.last() is Some && rs.last().unwrap().custom_mat is Some {
        rs.last().unwrap().custom_mat
    } else {
        last_custom(rs.drop_last())
    }
}

/// The material of a draw call over elements `rs` (`None` for an element
/// that does not draw): the last material of their own, if any; else one
/// built from the last element's definition with its texture.
pub open spec fn spec_draw_material(rs: Seq<Option<DrawRender>>) -> DrawMaterial {
    match last_custom(rs) {
        Some(m) => DrawMaterial::Custom(m),
        None => DrawMaterial::Built {
            mat_def: last_render(rs).unwrap().mat_def,
            texture: last_render(rs).unwrap().texture,
        },
    }
}

/// The material a draw call over `renders` is drawn with (see
/// [`spec_draw_material`]); at least one element draws.
pub fn draw_material(renders: &Vec<Option<DrawRender>>) -> (m: DrawMaterial)
    requires
        exists|k: int| 0 <= k < renders@.len() && (#[trigger] renders@[k]) is Some,
    ensures
        m == spec_draw_material(renders@),
{
    let mut last: Option<DrawRender> = None;
    let mut custom: Option<u64> = None;
    let mut i: usize = 0;
    while i < renders.len()
        invariant
            i <= renders.len(),
            last == last_render(renders@.take(i as int)),
            custom == last_custom(renders@.take(i as int)),
            last is None ==> forall|k: int| 0 <= k < i ==> (#[trigger] renders@[k]) is None,
        decreases renders.len() - i,
    {
        proof {
            assert(renders@.take(i + 1).drop_last() =~= renders@.take(i as int));
            assert(renders@.take(i + 1).last() == renders@[i as int]);
        }
        match renders[i] {
            Some(r) => {
                last = Some(r);
                if r.custom_mat.is_some() {
                    custom = r.custom_mat;
                }
            },
            None => {},
        }
        i = i + 1;
    }
    proof {
        assert(renders@.take(renders.len() as int) =~= renders@);
    }
    match custom {
        Some(c) => DrawMaterial::Custom(c),
        None => {
            let r = last.unwrap();
            DrawMaterial::Built { mat_def: r.mat_def, texture: r.texture }
        },
    }
}

} // verus!
