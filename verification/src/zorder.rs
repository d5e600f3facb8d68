//! Draw order of UI elements: the elements under a canvas or panel are
//! numbered one after the other in tree order (an element before its
//! children, children in order).
use vstd::prelude::*;
use crate::ui_types::{UIZOrder, ZOrder};

verus! {

/// An element and its children, in order.
pub struct EntityTree {
    pub entity: u64,
    pub children: Vec<EntityTree>,
}

/// The elements of a tree in tree order: the element, then the elements of
/// each child tree in turn.
pub open spec fn preorder(t: EntityTree) -> Seq<u64>
    decreases t,
{
    seq![t.entity] + preorder_all(t.children@)
}

/// The elements of the trees `ts` in tree order, one tree after the other.
pub open spec fn preorder_all(ts: Seq<EntityTree>) -> Seq<u64>
    decreases ts,
{
    if ts.len() == 0 {
        Seq::empty()
    } else {
        preorder_all(ts.subrange(0, ts.len() - 1)) + preorder(ts[ts.len() - 1])
    }
}

/// Appends the elements of `t` in tree order to `out`.
fn collect_preorder(t: &EntityTree, out: &mut Vec<u64>)
    ensures
        final(out)@ == old(out)@ + preorder(*t),
    decreases t,
{
    let ghost o0 = out@;
    out.push(t.entity);
    collect_preorder_all(&t.children, out);
    proof {
        assert(o0.push(t.entity) + preorder_all(t.children@) =~= o0 + preorder(*t));
    }
}

/// Appends the elements of the trees `ts` in tree order to `out`.
fn collect_preorder_all(ts: &Vec<EntityTree>, out: &mut Vec<u64>)
    ensures
        final(out)@ == old(out)@ + preorder_all(ts@),
    decreases ts,
{
    let ghost o0 = out@;
    let n = ts.len();
    let mut i: usize = 0;
    proof {
        assert(ts@.subrange(0, 0) =~= Seq::<EntityTree>::empty());
        assert(out@ =~= o0 + preorder_all(ts@.subrange(0, 0)));
    }
    while i < n
        invariant
            n == ts.len(),
            i <= n,
            out@ == o0 + preorder_all(ts@.subrange(0, i as int)),
        decreases n - i,
    {
        let ghost before = out@;
        collect_preorder(&ts[i], out);
        proof {
            let next = ts@.subrange(0, i + 1);
            assert(next.subrange(0, next.len() - 1) =~= ts@.subrange(0, i as int));
            assert(next[next.len() - 1] == ts@[i as int]);
            assert(out@ =~= o0 + preorder_all(next));
        }
        i = i + 1;
    }
    proof {
        assert(ts@.subrange(0, n as int) =~= ts@);
    }
}

impl ZOrder {
    /// Numbers the elements below a canvas whose z-order is `canvas_z` (0 if
    /// it has none): the elements of its child trees, in tree order, get
    /// `canvas_z + 1`, `canvas_z + 2`, and so on, after the canvas itself.
    /// Returns each element with its z-order.
    pub fn update(canvas_z: u32, children: &Vec<EntityTree>) -> (z: Vec<(u64, u32)>)
        requires
            canvas_z + preorder_all(children@).len() <= u32::MAX,
        ensures
            z@.len() == preorder_all(children@).len(),
            forall|k: int|
                0 <= k < z@.len() ==> #[trigger] z@[k] == (preorder_all(children@)[k], (canvas_z + 1 + k) as u32),
            forall|j: int, k: int| 0 <= j < k < z@.len() ==> z@[j].1 < z@[k].1,
    {
        let mut order: Vec<u64> = Vec::new();
        collect_preorder_all(children, &mut order);
        assert(order@ =~= preorder_all(children@));
        let n = order.len();
        let mut z: Vec<(u64, u32)> = Vec::new();
        let mut i: usize = 0;
        while i < n
            invariant
                n == order.len(),
                i <= n,
                canvas_z + n <= u32::MAX,
                z@.len() == i,
                forall|k: int| 0 <= k < i ==> #[trigger] z@[k] == (order@[k], (canvas_z + 1 + k) as u32),
            decreases n - i,
        {
            let z_index: u32 = canvas_z + 1 + i as u32;
            z.push((order[i], z_index));
            i = i + 1;
        }
        z
    }
}

impl UIZOrder {
    /// The z-order of an element numbered for the first time: it had none
    /// before.
    pub fn first(value: i32) -> (z: Self)
        ensures
            z.last == -1,
            z.value == value,
    {
        UIZOrder { last: -1, value }
    }

    /// Gives the element a new z-order, keeping the one it had as the last.
    pub fn renumber(&mut self, value: i32)
        ensures
            final(self).last == old(self).value,
            final(self).value == value,
    {
        self.last = self.value;
        self.value = value;
    }
}

/// Numbers a panel and the elements below it in tree order, the panel
/// first, from the panel's own z-order if it has one and from 1 if not.
/// Returns each element with its z-order.
pub fn panel_zorders(panel: &EntityTree, panel_zorder: Option<i32>) -> (z: Vec<(u64, i32)>)
    requires
        (match panel_zorder {
            Some(v) => v as int,
            None => 1,
        }) + preorder(*panel).len() <= i32::MAX,
    ensures
        z@.len() == preorder(*panel).len(),
        forall|k: int|
            0 <= k < z@.len() ==> #[trigger] z@[k] == (preorder(*panel)[k], (match panel_zorder {
                Some(v) => v as int,
                None => 1,
            } + k) as i32),
        forall|j: int, k: int| 0 <= j < k < z@.len() ==> z@[j].1 < z@[k].1,
{
    let start: i32 = match panel_zorder {
        Some(v) => v,
        None => 1,
    };
    let mut order: Vec<u64> = Vec::new();
    collect_preorder(panel, &mut order);
    assert(order@ =~= preorder(*panel));
    let n = order.len();
    let mut z: Vec<(u64, i32)> = Vec::new();
    let mut now_index = start;
    let mut i: usize = 0;
    while i < n
        invariant
            n == order.len(),
            i <= n,
            start + n <= i32::MAX,
            now_index == start + i,
            z@.len() == i,
            forall|k: int| 0 <= k < i ==> #[trigger] z@[k] == (order@[k], (start + k) as i32),
        decreases n - i,
    {
        z.push((order[i], now_index));
        now_index = now_index + 1;
        i = i + 1;
    }
    z
}

} // verus!
