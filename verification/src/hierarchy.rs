//! Queries up the element tree. The caller walks the parents of an element
//! and hands over the chain, nearest first, with what each element is.
use vstd::prelude::*;

verus! {

/// The outermost element of a chain (nearest first, each with whether it
/// has the property asked about) that has the property.
pub open spec fn outermost(chain: Seq<(u64, bool)>) -> Option<u64>
    decreases chain.len(),
{
    if chain.len() == 0 {
        None
    } else if chain.last().1 {
        Some(chain.last().0)
    } else {
        outermost(chain.drop_last())
    }
}

/// The nearest element of a chain that has the property asked about.
pub open spec fn nearest(chain: Seq<(u64, bool)>) -> Option<u64>
    decreases chain.len(),
{
    if chain.len() == 0 {
        None
    } else if chain[0].1 {
        Some(chain[0].0)
    } else {
        nearest(chain.drop_first())
    }
}

fn outermost_of(chain: &Vec<(u64, bool)>) -> (r: Option<u64>)
    ensures
        r == outermost(chain@),
        r is None <==> forall|k: int| 0 <= k < chain@.len() ==> !(#[trigger] chain@[k]).1,
{
    let mut top: Option<u64> = None;
    let n = chain.len();
    let mut i: usize = 0;
    while i < n
        invariant
            n == chain.len(),
            i <= n,
            top == outermost(chain@.subrange(0, i as int)),
            top is None <==> forall|k: int| 0 <= k < i ==> !(#[trigger] chain@[k]).1,
        decreases n - i,
    {
        let (entity, flag) = chain[i];
        proof {
            let next = chain@.subrange(0, i + 1);
            assert(next.drop_last() =~= chain@.subrange(0, i as int));
            assert(next.last() == chain@[i as int]);
        }
        if flag {
            top = Some(entity);
        }
        i = i + 1;
    }
    proof {
        assert(chain@.subrange(0, n as int) =~= chain@);
    }
    top
}

/// The outermost panel among the ancestors of an element (nearest first,
/// each with whether it is a panel), if any is a panel.
pub fn get_top_panel(ancestors: &Vec<(u64, bool)>) -> (r: Option<u64>)
    ensures
        r == outermost(ancestors@),
        r is None <==> forall|k: int| 0 <= k < ancestors@.len() ==> !(#[trigger] ancestors@[k]).1,
{
    outermost_of(ancestors)
}

/// The outermost canvas among an element and its ancestors (the element
/// first, then its ancestors nearest first, each with whether it is a
/// canvas), if any is a canvas.
pub fn find_top_canvas(chain: &Vec<(u64, bool)>) -> (r: Option<u64>)
    ensures
        r == outermost(chain@),
        r is None <==> forall|k: int| 0 <= k < chain@.len() ==> !(#[trigger] chain@[k]).1,
{
    outermost_of(chain)
}

/// The nearest canvas among an element and its ancestors (the element
/// first, then its ancestors nearest first, each with whether it is a
/// canvas), if any is a canvas.
pub fn find_canvas(chain: &Vec<(u64, bool)>) -> (r: Option<u64>)
    ensures
        r == nearest(chain@),
        r is None <==> forall|k: int| 0 <= k < chain@.len() ==> !(#[trigger] chain@[k]).1,
{
    let n = chain.len();
    let mut i: usize = 0;
    assert(chain@.skip(0) =~= chain@);
    while i < n
        invariant
            n == chain.len(),
            i <= n,
            nearest(chain@) == nearest(chain@.skip(i as int)),
            forall|k: int| 0 <= k < i ==> !(#[trigger] chain@[k]).1,
        decreases n - i,
    {
        proof {
            assert(chain@.skip(i as int).drop_first() =~= chain@.skip(i + 1));
            assert(chain@.skip(i as int)[0] == chain@[i as int]);
        }
        let (entity, flag) = chain[i];
        if flag {
            return Some(entity);
        }
        i = i + 1;
    }
    proof {
        assert(chain@.skip(n as int) =~= Seq::<(u64, bool)>::empty());
    }
    None
}

/// The element whose layout must be redone when the element `cur` changed:
/// going up from `cur` (`cur_elem` says whether it is a layout element)
/// through its ancestors (nearest first, each with `Some(invalidates)` if
/// it is a layout element, `invalidates` saying whether its measure depends
/// on its children's), the first layout element whose parent element does
/// not depend on it; if there is none, the outermost layout element met, or
/// `last` if none was met.
pub open spec fn top_dirty(cur: u64, cur_elem: bool, last: u64, ancestors: Seq<(u64, Option<bool>)>) -> u64
    decreases ancestors.len(),
{
    if ancestors.len() == 0 {
        last
    } else {
        let (p, pe) = ancestors[0];
        match pe {
            Some(invalidates) => if cur_elem && !invalidates {
                cur
            } else {
                top_dirty(p, true, p, ancestors.drop_first())
            },
            None => top_dirty(p, false, last, ancestors.drop_first()),
        }
    }
}

/// The element whose layout must be redone when `entity` changed; see
/// `top_dirty`.
pub fn get_top_elem_dirty(entity: u64, is_elem: bool, ancestors: &Vec<(u64, Option<bool>)>) -> (r: u64)
    ensures
        r == top_dirty(entity, is_elem, entity, ancestors@),
        r == entity || exists|k: int| 0 <= k < ancestors@.len() && (#[trigger] ancestors@[k]).0 == r,
        entity_or_elem_ancestor(entity, ancestors@, r),
{
    proof {
        lemma_top_dirty_is_element(entity, is_elem, ancestors@);
    }
    let mut cur = entity;
    let mut cur_elem = is_elem;
    let mut last = entity;
    let n = ancestors.len();
    let mut i: usize = 0;
    assert(ancestors@.skip(0) =~= ancestors@);
    while i < n
        invariant
            n == ancestors.len(),
            i <= n,
            top_dirty(entity, is_elem, entity, ancestors@) == top_dirty(cur, cur_elem, last, ancestors@.skip(i as int)),
            entity_or_elem_ancestor(entity, ancestors@, top_dirty(entity, is_elem, entity, ancestors@)),
            cur == entity || exists|k: int| 0 <= k < ancestors@.len() && (#[trigger] ancestors@[k]).0 == cur,
            last == entity || exists|k: int| 0 <= k < ancestors@.len() && (#[trigger] ancestors@[k]).0 == last,
        decreases n - i,
    {
        proof {
            assert(ancestors@.skip(i as int).drop_first() =~= ancestors@.skip(i + 1));
            assert(ancestors@.skip(i as int)[0] == ancestors@[i as int]);
        }
        let (p, pe) = ancestors[i];
        match pe {
            Some(invalidates) => {
                if cur_elem && !invalidates {
                    return cur;
                }
                last = p;
                cur_elem = true;
            },
            None => {
                cur_elem = false;
            },
        }
        cur = p;
        i = i + 1;
    }
    proof {
        assert(ancestors@.skip(n as int) =~= Seq::<(u64, Option<bool>)>::empty());
    }
    last
}


/// An element whose layout changed, or the parent of a deleted element, with
/// the ancestors above it as [`get_top_elem_dirty`] takes them.
pub struct DirtySource {
    pub entity: u64,
    pub is_elem: bool,
    pub ancestors: Vec<(u64, Option<bool>)>,
}

/// The element whose layout must be redone for `s`.
pub open spec fn dirty_of(s: DirtySource) -> u64 {
    top_dirty(s.entity, s.is_elem, s.entity, s.ancestors@)
}

/// Whether `v` holds `x`.
pub(crate) fn holds(v: &Vec<u64>, x: u64) -> (b: bool)
    ensures
        b == v@.contains(x),
{
    let mut i: usize = 0;
    while i < v.len()
        invariant
            i <= v.len(),
            forall|k: int| 0 <= k < i ==> v@[k] != x,
        decreases v.len() - i,
    {
        if v[i] == x {
            return true;
        }
        i = i + 1;
    }
    false
}

/// Appends `x` to `out` unless it is there already.
pub(crate) fn push_new(out: &mut Vec<u64>, x: u64)
    requires
        old(out)@.no_duplicates(),
    ensures
        final(out)@.no_duplicates(),
        final(out)@.to_set() == old(out)@.to_set().insert(x),
{
    proof {
        old(out)@.unique_seq_to_set();
    }
    if !holds(out, x) {
        out.push(x);
        proof {
            assert(out@.to_set() =~= old(out)@.to_set().insert(x)) by {
                assert forall|e: u64| out@.to_set().contains(e) <==> old(out)@.to_set().insert(x).contains(e) by {
                    if out@.contains(e) && e != x {
                        let k = choose|k: int| 0 <= k < out@.len() && out@[k] == e;
                        assert(old(out)@[k] == e);
                    }
                    if old(out)@.contains(e) {
                        let k = choose|k: int| 0 <= k < old(out)@.len() && old(out)@[k] == e;
                        assert(out@[k] == e);
                    }
                    if e == x {
                        assert(out@[out@.len() - 1] == x);
                    }
                }
            }
        }
    } else {
        proof {
            assert(old(out)@.to_set() =~= old(out)@.to_set().insert(x));
        }
    }
}

/// The elements whose layout must be redone, each once: when the window was
/// resized, every child of a canvas; else the element [`dirty_of`] each
/// changed element and each parent of a deleted element.
pub fn collect_dirty(resized: bool, canvas_children: &Vec<u64>, changed: &Vec<DirtySource>) -> (r: Vec<u64>)
    ensures
        r@.no_duplicates(),
        resized ==> r@.to_set() == canvas_children@.to_set(),
        !resized ==> r@.to_set() == Set::new(
            |e: u64| exists|k: int| 0 <= k < changed@.len() && e == dirty_of(#[trigger] changed@[k]),
        ),
{
    let mut out: Vec<u64> = Vec::new();
    if resized {
        let mut i: usize = 0;
        while i < canvas_children.len()
            invariant
                i <= canvas_children.len(),
                out@.no_duplicates(),
                out@.to_set() == canvas_children@.take(i as int).to_set(),
            decreases canvas_children.len() - i,
        {
            proof {
                assert(canvas_children@.take(i + 1) =~= canvas_children@.take(i as int).push(canvas_children@[i as int]));
                canvas_children@.take(i as int).lemma_push_to_set_commute(canvas_children@[i as int]);
            }
            push_new(&mut out, canvas_children[i]);
            i = i + 1;
        }
        proof {
            assert(canvas_children@.take(canvas_children.len() as int) =~= canvas_children@);
        }
        return out;
    }
    let mut i: usize = 0;
    while i < changed.len()
        invariant
            i <= changed.len(),
            out@.no_duplicates(),
            out@.to_set() == Set::new(|e: u64| exists|k: int| 0 <= k < i && e == dirty_of(#[trigger] changed@[k])),
        decreases changed.len() - i,
    {
        let s = &changed[i];
        let d = get_top_elem_dirty(s.entity, s.is_elem, &s.ancestors);
        let ghost before = out@.to_set();
        push_new(&mut out, d);
        proof {
            assert(out@.to_set() =~= Set::new(|e: u64| exists|k: int| 0 <= k < i + 1 && e == dirty_of(#[trigger] changed@[k]))) by {
                assert forall|e: u64| out@.to_set().contains(e) <==> (exists|k: int| 0 <= k < i + 1 && e == dirty_of(#[trigger] changed@[k])) by {
                    if e == d {
                        assert(dirty_of(changed@[i as int]) == d);
                    }
                    if exists|k: int| 0 <= k < i + 1 && e == dirty_of(#[trigger] changed@[k]) {
                        let k = choose|k: int| 0 <= k < i + 1 && e == dirty_of(#[trigger] changed@[k]);
                        if k < i {
                            assert(before.contains(e));
                        }
                    }
                }
            }
        }
        i = i + 1;
    }
    out
}


/// The outermost canvases of the chains `chs`.
pub open spec fn top_canvases_of(chs: Seq<Seq<(u64, bool)>>) -> Set<u64> {
    Set::new(|c: u64| exists|j: int| 0 <= j < chs.len() && outermost(#[trigger] chs[j]) == Some(c))
}

/// The outermost canvas of each element whose mesh was rebuilt (given by its
/// chain, as [`find_top_canvas`] takes it), each once: the canvases whose
/// z-orders are renumbered.
pub fn changed_top_canvases(chains: &Vec<Vec<(u64, bool)>>) -> (r: Vec<u64>)
    ensures
        r@.no_duplicates(),
        r@.to_set() == top_canvases_of(chains@.map_values(|c: Vec<(u64, bool)>| c@)),
{
    let ghost chs = chains@.map_values(|c: Vec<(u64, bool)>| c@);
    let mut out: Vec<u64> = Vec::new();
    let mut j: usize = 0;
    assert(top_canvases_of(chs.take(0)) =~= Set::<u64>::empty());
    assert(out@.to_set() =~= Set::<u64>::empty());
    while j < chains.len()
        invariant
            j <= chains.len(),
            chs == chains@.map_values(|c: Vec<(u64, bool)>| c@),
            out@.no_duplicates(),
            out@.to_set() == top_canvases_of(chs.take(j as int)),
        decreases chains.len() - j,
    {
        let ghost before = out@.to_set();
        let top = find_top_canvas(&chains[j]);
        match top {
            Some(c) => push_new(&mut out, c),
            None => {},
        }
        proof {
            let a = top_canvases_of(chs.take(j + 1));
            assert forall|c: u64| a.contains(c) <==> out@.to_set().contains(c) by {
                if a.contains(c) {
                    let t = choose|t: int| 0 <= t < chs.take(j + 1).len() && outermost(#[trigger] chs.take(j + 1)[t]) == Some(c);
                    if t < j {
                        assert(chs.take(j as int)[t] == chs[t]);
                        assert(before.contains(c));
                    }
                }
                if before.contains(c) {
                    let t = choose|t: int| 0 <= t < chs.take(j as int).len() && outermost(#[trigger] chs.take(j as int)[t]) == Some(c);
                    assert(chs.take(j + 1)[t] == chs[t]);
                }
                if top == Some(c) {
                    assert(chs.take(j + 1)[j as int] == chs[j as int]);
                }
            }
            assert(a =~= out@.to_set());
        }
        j = j + 1;
    }
    proof {
        assert(chs.take(chains.len() as int) =~= chs);
    }
    out
}


/// Whether `x` is `entity` or an ancestor in `ancestors` marked as a layout
/// element.
pub open spec fn entity_or_elem_ancestor(entity: u64, ancestors: Seq<(u64, Option<bool>)>, x: u64) -> bool {
    x == entity || exists|k: int| 0 <= k < ancestors.len() && (#[trigger] ancestors[k]).0 == x && ancestors[k].1 is Some
}

proof fn lemma_top_dirty_within(
    cur: u64,
    cur_elem: bool,
    last: u64,
    anc: Seq<(u64, Option<bool>)>,
    entity: u64,
    all: Seq<(u64, Option<bool>)>,
    i: int,
)
    requires
        0 <= i <= all.len(),
        anc == all.skip(i),
        cur_elem ==> entity_or_elem_ancestor(entity, all, cur),
        entity_or_elem_ancestor(entity, all, last),
    ensures
        entity_or_elem_ancestor(entity, all, top_dirty(cur, cur_elem, last, anc)),
    decreases anc.len(),
{
    if anc.len() > 0 {
        let (p, pe) = anc[0];
        assert(all[i] == anc[0]);
        assert(anc.drop_first() =~= all.skip(i + 1));
        match pe {
            Some(invalidates) => {
                if !(cur_elem && !invalidates) {
                    assert(entity_or_elem_ancestor(entity, all, p));
                    lemma_top_dirty_within(p, true, p, anc.drop_first(), entity, all, i + 1);
                }
            },
            None => {
                lemma_top_dirty_within(p, false, last, anc.drop_first(), entity, all, i + 1);
            },
        }
    }
}

/// The element whose layout is redone is never a plain entity above the
/// changed one: it is the changed entity itself or an ancestor that is a
/// layout element.
pub proof fn lemma_top_dirty_is_element(entity: u64, is_elem: bool, ancestors: Seq<(u64, Option<bool>)>)
    ensures
        entity_or_elem_ancestor(entity, ancestors, top_dirty(entity, is_elem, entity, ancestors)),
{
    assert(ancestors.skip(0) =~= ancestors);
    lemma_top_dirty_within(entity, is_elem, entity, ancestors, entity, ancestors, 0);
}

} // verus!
