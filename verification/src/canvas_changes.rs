//! Which canvases must rebuild their draw calls after the element tree
//! changed, and which elements leave the record of the canvas each element
//! was drawn by.
use vstd::prelude::*;
use std::collections::HashMap;
use crate::hierarchy::{find_canvas, nearest, push_new};

verus! {

broadcast use vstd::std_specs::hash::group_hash_axioms;

/// An element met by the canvas pass, with its chain: the element first,
/// then its ancestors nearest first, each with whether it is a canvas.
pub struct Visit {
    pub entity: u64,
    pub chain: Vec<(u64, bool)>,
}

/// A change of the element tree that the canvas pass looks at.
pub enum CanvasChange {
    /// An element got a new parent: it and every element below it.
    Reparented(Vec<Visit>),
    /// Elements were deleted: all of them, and the chain of the topmost.
    Deleted(Vec<u64>, Vec<(u64, bool)>),
    /// An element was shown or hidden, or its render changed: its chain.
    Touched(Vec<(u64, bool)>),
    /// An element was moved: its chain.
    Transformed(Vec<(u64, bool)>),
}

/// The elements whose record a change removes.
pub open spec fn removal_keys(c: CanvasChange) -> Seq<u64> {
    match c {
        CanvasChange::Reparented(v) => v@.map_values(|x: Visit| x.entity),
        CanvasChange::Deleted(d, _) => d@,
        _ => Seq::empty(),
    }
}

/// The chains whose nearest canvas a change marks: every element met, the
/// topmost deleted element, a touched element, and a moved element that is
/// not itself a canvas.
pub open spec fn lookup_chains(c: CanvasChange) -> Seq<Seq<(u64, bool)>> {
    match c {
        CanvasChange::Reparented(v) => v@.map_values(|x: Visit| x.chain@),
        CanvasChange::Deleted(_, ch) => seq![ch@],
        CanvasChange::Touched(ch) => seq![ch@],
        CanvasChange::Transformed(ch) => if ch@.len() > 0 && ch@[0].1 {
            Seq::empty()
        } else {
            seq![ch@]
        },
    }
}

/// The elements whose record the changes remove.
pub open spec fn keys_removed(changes: Seq<CanvasChange>) -> Set<u64> {
    Set::new(
        |k: u64|
            exists|i: int, j: int|
                0 <= i < changes.len() && 0 <= j < removal_keys(changes[i]).len() && #[trigger] removal_keys(
                    changes[i],
                )[j] == k,
    )
}

/// The canvases that the chains of the changes lead to.
pub open spec fn canvases_looked_up(changes: Seq<CanvasChange>) -> Set<u64> {
    Set::new(
        |c: u64|
            exists|i: int, j: int|
                0 <= i < changes.len() && 0 <= j < lookup_chains(changes[i]).len() && nearest(
                    #[trigger] lookup_chains(changes[i])[j],
                ) == Some(c),
    )
}

/// The canvases that `m` records for the elements of `keys`.
pub open spec fn vals_of(m: Map<u64, u64>, keys: Set<u64>) -> Set<u64> {
    Set::new(|c: u64| exists|k: u64| keys.contains(k) && m.contains_key(k) && #[trigger] m[k] == c)
}

/// The canvases to rebuild: those recorded for a removed element, and
/// those the chains lead to.
pub open spec fn changed_canvas_set(m: Map<u64, u64>, changes: Seq<CanvasChange>) -> Set<u64> {
    vals_of(m, keys_removed(changes)) + canvases_looked_up(changes)
}

/// Removes the record of `k` and marks the canvas it named.
fn take_record(
    map: &mut HashMap<u64, u64>,
    out: &mut Vec<u64>,
    k: u64,
    Ghost(m0): Ghost<Map<u64, u64>>,
    Ghost(ks): Ghost<Set<u64>>,
    Ghost(extra): Ghost<Set<u64>>,
)
    requires
        old(map)@ == m0.remove_keys(ks),
        old(out)@.no_duplicates(),
        old(out)@.to_set() == vals_of(m0, ks) + extra,
    ensures
        final(map)@ == m0.remove_keys(ks.insert(k)),
        final(out)@.no_duplicates(),
        final(out)@.to_set() == vals_of(m0, ks.insert(k)) + extra,
{
    let ghost before = out@.to_set();
    match map.remove(&k) {
        Some(c) => {
            push_new(out, c);
            proof {
                assert(m0.contains_key(k) && !ks.contains(k) && m0[k] == c);
                assert(vals_of(m0, ks.insert(k)) =~= vals_of(m0, ks).insert(c)) by {
                    assert forall|e: u64| vals_of(m0, ks.insert(k)).contains(e) implies vals_of(m0, ks).insert(c).contains(e) by {
                        let kk = choose|kk: u64| ks.insert(k).contains(kk) && m0.contains_key(kk) && #[trigger] m0[kk] == e;
                        if kk != k {
                            assert(ks.contains(kk) && m0.contains_key(kk) && m0[kk] == e);
                        }
                    }
                    assert forall|e: u64| vals_of(m0, ks).insert(c).contains(e) implies vals_of(m0, ks.insert(k)).contains(e) by {
                        if e == c {
                            assert(ks.insert(k).contains(k) && m0.contains_key(k) && m0[k] == e);
                        } else {
                            let kk = choose|kk: u64| ks.contains(kk) && m0.contains_key(kk) && #[trigger] m0[kk] == e;
                            assert(ks.insert(k).contains(kk));
                        }
                    }
                }
                assert(out@.to_set() =~= vals_of(m0, ks.insert(k)) + extra);
            }
        },
        None => {
            proof {
                assert(vals_of(m0, ks.insert(k)) =~= vals_of(m0, ks)) by {
                    assert forall|e: u64| vals_of(m0, ks.insert(k)).contains(e) implies vals_of(m0, ks).contains(e) by {
                        let kk = choose|kk: u64| ks.insert(k).contains(kk) && m0.contains_key(kk) && #[trigger] m0[kk] == e;
                        if kk == k {
                            assert(ks.contains(k));
                        }
                        assert(ks.contains(kk) && m0.contains_key(kk) && m0[kk] == e);
                    }
                    assert forall|e: u64| vals_of(m0, ks).contains(e) implies vals_of(m0, ks.insert(k)).contains(e) by {
                        let kk = choose|kk: u64| ks.contains(kk) && m0.contains_key(kk) && #[trigger] m0[kk] == e;
                        assert(ks.insert(k).contains(kk));
                    }
                }
            }
        },
    }
    proof {
        assert(map@ =~= m0.remove_keys(ks.insert(k)));
    }
}

/// Marks the nearest canvas of `chain`, if there is one.
fn mark_nearest(out: &mut Vec<u64>, chain: &Vec<(u64, bool)>)
    requires
        old(out)@.no_duplicates(),
    ensures
        final(out)@.no_duplicates(),
        final(out)@.to_set() == match nearest(chain@) {
            Some(c) => old(out)@.to_set().insert(c),
            None => old(out)@.to_set(),
        },
{
    match find_canvas(chain) {
        Some(c) => push_new(out, c),
        None => {},
    }
}


/// The canvases that the chains `chs` lead to.
pub open spec fn found(chs: Seq<Seq<(u64, bool)>>) -> Set<u64> {
    Set::new(|c: u64| exists|j: int| 0 <= j < chs.len() && nearest(#[trigger] chs[j]) == Some(c))
}

proof fn lemma_found_step(chs: Seq<Seq<(u64, bool)>>, j: int)
    requires
        0 <= j < chs.len(),
    ensures
        found(chs.take(j + 1)) == match nearest(chs[j]) {
            Some(c) => found(chs.take(j)).insert(c),
            None => found(chs.take(j)),
        },
{
    let a = found(chs.take(j + 1));
    let b = match nearest(chs[j]) {
        Some(c) => found(chs.take(j)).insert(c),
        None => found(chs.take(j)),
    };
    assert forall|c: u64| a.contains(c) <==> b.contains(c) by {
        if a.contains(c) {
            let t = choose|t: int| 0 <= t < chs.take(j + 1).len() && nearest(#[trigger] chs.take(j + 1)[t]) == Some(c);
            if t < j {
                assert(chs.take(j)[t] == chs[t]);
            }
        }
        if found(chs.take(j)).contains(c) {
            let t = choose|t: int| 0 <= t < chs.take(j).len() && nearest(#[trigger] chs.take(j)[t]) == Some(c);
            assert(chs.take(j + 1)[t] == chs[t]);
        }
        if nearest(chs[j]) == Some(c) {
            assert(chs.take(j + 1)[j] == chs[j]);
        }
    }
    assert(a =~= b);
}

/// Removes the records of `keys` and marks the canvases they named.
fn take_records(
    map: &mut HashMap<u64, u64>,
    out: &mut Vec<u64>,
    keys: &Vec<u64>,
    Ghost(m0): Ghost<Map<u64, u64>>,
    Ghost(ks): Ghost<Set<u64>>,
    Ghost(extra): Ghost<Set<u64>>,
)
    requires
        old(map)@ == m0.remove_keys(ks),
        old(out)@.no_duplicates(),
        old(out)@.to_set() == vals_of(m0, ks) + extra,
    ensures
        final(map)@ == m0.remove_keys(ks + keys@.to_set()),
        final(out)@.no_duplicates(),
        final(out)@.to_set() == vals_of(m0, ks + keys@.to_set()) + extra,
{
    let mut j: usize = 0;
    assert(ks + keys@.take(0).to_set() =~= ks);
    while j < keys.len()
        invariant
            j <= keys.len(),
            map@ == m0.remove_keys(ks + keys@.take(j as int).to_set()),
            out@.no_duplicates(),
            out@.to_set() == vals_of(m0, ks + keys@.take(j as int).to_set()) + extra,
        decreases keys.len() - j,
    {
        proof {
            assert(keys@.take(j + 1) =~= keys@.take(j as int).push(keys@[j as int]));
            keys@.take(j as int).lemma_push_to_set_commute(keys@[j as int]);
            assert(ks + keys@.take(j + 1).to_set() =~= (ks + keys@.take(j as int).to_set()).insert(keys@[j as int]));
        }
        take_record(map, out, keys[j], Ghost(m0), Ghost(ks + keys@.take(j as int).to_set()), Ghost(extra));
        j = j + 1;
    }
    proof {
        assert(keys@.take(keys.len() as int) =~= keys@);
    }
}

/// Removes the records of the elements met and marks the canvases they
/// named.
fn take_visit_records(
    map: &mut HashMap<u64, u64>,
    out: &mut Vec<u64>,
    visits: &Vec<Visit>,
    Ghost(m0): Ghost<Map<u64, u64>>,
    Ghost(ks): Ghost<Set<u64>>,
    Ghost(extra): Ghost<Set<u64>>,
)
    requires
        old(map)@ == m0.remove_keys(ks),
        old(out)@.no_duplicates(),
        old(out)@.to_set() == vals_of(m0, ks) + extra,
    ensures
        final(map)@ == m0.remove_keys(ks + visits@.map_values(|x: Visit| x.entity).to_set()),
        final(out)@.no_duplicates(),
        final(out)@.to_set() == vals_of(m0, ks + visits@.map_values(|x: Visit| x.entity).to_set()) + extra,
{
    let ghost keys = visits@.map_values(|x: Visit| x.entity);
    let mut j: usize = 0;
    assert(ks + keys.take(0).to_set() =~= ks);
    while j < visits.len()
        invariant
            j <= visits.len(),
            keys == visits@.map_values(|x: Visit| x.entity),
            map@ == m0.remove_keys(ks + keys.take(j as int).to_set()),
            out@.no_duplicates(),
            out@.to_set() == vals_of(m0, ks + keys.take(j as int).to_set()) + extra,
        decreases visits.len() - j,
    {
        proof {
            assert(keys.take(j + 1) =~= keys.take(j as int).push(keys[j as int]));
            keys.take(j as int).lemma_push_to_set_commute(keys[j as int]);
            assert(ks + keys.take(j + 1).to_set() =~= (ks + keys.take(j as int).to_set()).insert(keys[j as int]));
        }
        take_record(map, out, visits[j].entity, Ghost(m0), Ghost(ks + keys.take(j as int).to_set()), Ghost(extra));
        j = j + 1;
    }
    proof {
        assert(keys.take(visits.len() as int) =~= keys);
    }
}

/// Marks the nearest canvas of each element met.
fn mark_visits(out: &mut Vec<u64>, visits: &Vec<Visit>)
    requires
        old(out)@.no_duplicates(),
    ensures
        final(out)@.no_duplicates(),
        final(out)@.to_set() == old(out)@.to_set() + found(visits@.map_values(|x: Visit| x.chain@)),
{
    let ghost chs = visits@.map_values(|x: Visit| x.chain@);
    let ghost base = out@.to_set();
    let mut j: usize = 0;
    assert(found(chs.take(0)) =~= Set::<u64>::empty());
    assert(base + found(chs.take(0)) =~= base);
    while j < visits.len()
        invariant
            j <= visits.len(),
            chs == visits@.map_values(|x: Visit| x.chain@),
            out@.no_duplicates(),
            out@.to_set() == base + found(chs.take(j as int)),
        decreases visits.len() - j,
    {
        proof {
            lemma_found_step(chs, j as int);
        }
        mark_nearest(out, &visits[j].chain);
        proof {
            match nearest(chs[j as int]) {
                Some(c) => {
                    assert(out@.to_set() =~= base + found(chs.take(j + 1)));
                },
                None => {},
            }
        }
        j = j + 1;
    }
    proof {
        assert(chs.take(visits.len() as int) =~= chs);
    }
}

/// Applies one change: removes the records it names and marks the canvases
/// it leads to.
fn apply_change(
    map: &mut HashMap<u64, u64>,
    out: &mut Vec<u64>,
    ch: &CanvasChange,
    Ghost(m0): Ghost<Map<u64, u64>>,
    Ghost(ks): Ghost<Set<u64>>,
    Ghost(extra): Ghost<Set<u64>>,
)
    requires
        old(map)@ == m0.remove_keys(ks),
        old(out)@.no_duplicates(),
        old(out)@.to_set() == vals_of(m0, ks) + extra,
    ensures
        final(map)@ == m0.remove_keys(ks + removal_keys(*ch).to_set()),
        final(out)@.no_duplicates(),
        final(out)@.to_set() == vals_of(m0, ks + removal_keys(*ch).to_set()) + extra + found(lookup_chains(*ch)),
{
    match ch {
        CanvasChange::Reparented(v) => {
            take_visit_records(map, out, v, Ghost(m0), Ghost(ks), Ghost(extra));
            mark_visits(out, v);
        },
        CanvasChange::Deleted(d, chain) => {
            take_records(map, out, d, Ghost(m0), Ghost(ks), Ghost(extra));
            let ghost mid = out@.to_set();
            mark_nearest(out, chain);
            proof {
                lemma_found_one(chain@);
            }
        },
        CanvasChange::Touched(chain) => {
            proof {
                assert(removal_keys(*ch).to_set() =~= Set::<u64>::empty());
                assert(ks + Set::<u64>::empty() =~= ks);
            }
            mark_nearest(out, chain);
            proof {
                lemma_found_one(chain@);
            }
        },
        CanvasChange::Transformed(chain) => {
            proof {
                assert(removal_keys(*ch).to_set() =~= Set::<u64>::empty());
                assert(ks + Set::<u64>::empty() =~= ks);
            }
            if chain.len() > 0 && chain[0].1 {
                proof {
                    assert(found(Seq::<Seq<(u64, bool)>>::empty()) =~= Set::<u64>::empty());
                    assert(out@.to_set() + Set::<u64>::empty() =~= out@.to_set());
                }
            } else {
                mark_nearest(out, chain);
                proof {
                    lemma_found_one(chain@);
                }
            }
        },
    }
}

proof fn lemma_found_one(chain: Seq<(u64, bool)>)
    ensures
        found(seq![chain]) == match nearest(chain) {
            Some(c) => set![c],
            None => Set::<u64>::empty(),
        },
{
    let a = found(seq![chain]);
    assert forall|c: u64| a.contains(c) <==> (nearest(chain) == Some(c)) by {
        if nearest(chain) == Some(c) {
            assert(seq![chain][0] == chain);
        }
    }
    match nearest(chain) {
        Some(c) => assert(a =~= set![c]),
        None => assert(a =~= Set::<u64>::empty()),
    }
}


proof fn lemma_changes_step(changes: Seq<CanvasChange>, i: int)
    requires
        0 <= i < changes.len(),
    ensures
        keys_removed(changes.take(i + 1)) == keys_removed(changes.take(i)) + removal_keys(changes[i]).to_set(),
        canvases_looked_up(changes.take(i + 1)) == canvases_looked_up(changes.take(i)) + found(
            lookup_chains(changes[i]),
        ),
{
    let s1 = changes.take(i + 1);
    let s0 = changes.take(i);
    assert forall|k: u64| keys_removed(s1).contains(k) <==> (keys_removed(s0) + removal_keys(changes[i]).to_set()).contains(k) by {
        if keys_removed(s1).contains(k) {
            let (a, b) = choose|a: int, b: int|
                0 <= a < s1.len() && 0 <= b < removal_keys(s1[a]).len() && #[trigger] removal_keys(s1[a])[b] == k;
            if a < i {
                assert(s0[a] == s1[a]);
                assert(keys_removed(s0).contains(k));
            } else {
                assert(removal_keys(changes[i]).contains(k));
            }
        }
        if keys_removed(s0).contains(k) {
            let (a, b) = choose|a: int, b: int|
                0 <= a < s0.len() && 0 <= b < removal_keys(s0[a]).len() && #[trigger] removal_keys(s0[a])[b] == k;
            assert(s1[a] == s0[a]);
            assert(removal_keys(s1[a])[b] == k);
        }
        if removal_keys(changes[i]).to_set().contains(k) {
            let b = choose|b: int| 0 <= b < removal_keys(changes[i]).len() && removal_keys(changes[i])[b] == k;
            assert(s1[i] == changes[i]);
            assert(removal_keys(s1[i])[b] == k);
        }
    }
    assert(keys_removed(s1) =~= keys_removed(s0) + removal_keys(changes[i]).to_set());
    assert forall|c: u64| canvases_looked_up(s1).contains(c) <==> (canvases_looked_up(s0) + found(lookup_chains(changes[i]))).contains(c) by {
        if canvases_looked_up(s1).contains(c) {
            let (a, b) = choose|a: int, b: int|
                0 <= a < s1.len() && 0 <= b < lookup_chains(s1[a]).len() && nearest(#[trigger] lookup_chains(s1[a])[b]) == Some(c);
            if a < i {
                assert(s0[a] == s1[a]);
                assert(canvases_looked_up(s0).contains(c));
            } else {
                assert(found(lookup_chains(changes[i])).contains(c));
            }
        }
        if canvases_looked_up(s0).contains(c) {
            let (a, b) = choose|a: int, b: int|
                0 <= a < s0.len() && 0 <= b < lookup_chains(s0[a]).len() && nearest(#[trigger] lookup_chains(s0[a])[b]) == Some(c);
            assert(s1[a] == s0[a]);
            assert(nearest(lookup_chains(s1[a])[b]) == Some(c));
        }
        if found(lookup_chains(changes[i])).contains(c) {
            let b = choose|b: int| 0 <= b < lookup_chains(changes[i]).len() && nearest(#[trigger] lookup_chains(changes[i])[b]) == Some(c);
            assert(s1[i] == changes[i]);
            assert(nearest(lookup_chains(s1[i])[b]) == Some(c));
        }
    }
    assert(canvases_looked_up(s1) =~= canvases_looked_up(s0) + found(lookup_chains(changes[i])));
}

/// The canvases whose draw calls must be rebuilt after `changes`, each once:
/// the canvas that `entity2canvas` records for each element reparented or
/// deleted, whose record is removed, and the nearest canvas of each element
/// reparented, of the topmost deleted element, of each element touched, and
/// of each moved element that is not itself a canvas.
pub fn changed_canvases(entity2canvas: &mut HashMap<u64, u64>, changes: &Vec<CanvasChange>) -> (r: Vec<u64>)
    ensures
        final(entity2canvas)@ == old(entity2canvas)@.remove_keys(keys_removed(changes@)),
        r@.no_duplicates(),
        r@.to_set() == changed_canvas_set(old(entity2canvas)@, changes@),
{
    let ghost m0 = entity2canvas@;
    let mut out: Vec<u64> = Vec::new();
    let mut i: usize = 0;
    proof {
        assert(keys_removed(changes@.take(0)) =~= Set::<u64>::empty());
        assert(canvases_looked_up(changes@.take(0)) =~= Set::<u64>::empty());
        assert(m0.remove_keys(Set::<u64>::empty()) =~= m0);
        assert(vals_of(m0, Set::<u64>::empty()) =~= Set::<u64>::empty());
        assert(out@.to_set() =~= Set::<u64>::empty() + Set::<u64>::empty());
    }
    while i < changes.len()
        invariant
            i <= changes.len(),
            entity2canvas@ == m0.remove_keys(keys_removed(changes@.take(i as int))),
            out@.no_duplicates(),
            out@.to_set() == vals_of(m0, keys_removed(changes@.take(i as int))) + canvases_looked_up(
                changes@.take(i as int),
            ),
        decreases changes.len() - i,
    {
        proof {
            lemma_changes_step(changes@, i as int);
        }
        apply_change(
            entity2canvas,
            &mut out,
            &changes[i],
            Ghost(m0),
            Ghost(keys_removed(changes@.take(i as int))),
            Ghost(canvases_looked_up(changes@.take(i as int))),
        );
        proof {
            assert(out@.to_set() =~= vals_of(m0, keys_removed(changes@.take(i + 1))) + canvases_looked_up(
                changes@.take(i + 1),
            ));
        }
        i = i + 1;
    }
    proof {
        assert(changes@.take(changes.len() as int) =~= changes@);
    }
    out
}


/// Whether `e` is in one of the groups.
pub open spec fn in_groups(groups: Seq<Vec<u64>>, e: u64) -> bool {
    exists|g: int| 0 <= g < groups.len() && (#[trigger] groups[g])@.contains(e)
}

/// Records `canvas` as the canvas that draws every element of `groups`, the
/// draw-call groups just built for it; other records stay.
pub fn record_drawn(entity2canvas: &mut HashMap<u64, u64>, canvas: u64, groups: &Vec<Vec<u64>>)
    ensures
        forall|e: u64| #[trigger]
            final(entity2canvas)@.contains_key(e) <==> old(entity2canvas)@.contains_key(e) || in_groups(groups@, e),
        forall|e: u64|
            #[trigger] final(entity2canvas)@.contains_key(e) ==> final(entity2canvas)@[e] == if in_groups(groups@, e) {
                canvas
            } else {
                old(entity2canvas)@[e]
            },
{
    let ghost m0 = entity2canvas@;
    let mut g: usize = 0;
    while g < groups.len()
        invariant
            g <= groups.len(),
            forall|e: u64| #[trigger]
                entity2canvas@.contains_key(e) <==> m0.contains_key(e) || in_groups(groups@.take(g as int), e),
            forall|e: u64|
                #[trigger] entity2canvas@.contains_key(e) ==> entity2canvas@[e] == if in_groups(groups@.take(g as int), e) {
                    canvas
                } else {
                    m0[e]
                },
        decreases groups.len() - g,
    {
        let group = &groups[g];
        let ghost mg = entity2canvas@;
        let mut k: usize = 0;
        while k < group.len()
            invariant
                k <= group.len(),
                forall|e: u64| #[trigger]
                    entity2canvas@.contains_key(e) <==> mg.contains_key(e) || group@.take(k as int).contains(e),
                forall|e: u64|
                    #[trigger] entity2canvas@.contains_key(e) ==> entity2canvas@[e] == if group@.take(k as int).contains(e) {
                        canvas
                    } else {
                        mg[e]
                    },
            decreases group.len() - k,
        {
            entity2canvas.insert(group[k], canvas);
            proof {
                assert(group@.take(k + 1) =~= group@.take(k as int).push(group@[k as int]));
                assert forall|e: u64| group@.take(k + 1).contains(e) <==> (group@.take(k as int).contains(e) || e == group@[k as int]) by {
                    if group@.take(k as int).contains(e) {
                        let t = choose|t: int| 0 <= t < k && group@.take(k as int)[t] == e;
                        assert(group@.take(k + 1)[t] == e);
                    }
                    if e == group@[k as int] {
                        assert(group@.take(k + 1)[k as int] == e);
                    }
                }
            }
            k = k + 1;
        }
        proof {
            assert(group@.take(group.len() as int) =~= group@);
            assert(groups@.take(g + 1) =~= groups@.take(g as int).push(groups@[g as int]));
            assert forall|e: u64| in_groups(groups@.take(g + 1), e) <==> (in_groups(groups@.take(g as int), e) || group@.contains(e)) by {
                if in_groups(groups@.take(g + 1), e) {
                    let t = choose|t: int| 0 <= t < groups@.take(g + 1).len() && (#[trigger] groups@.take(g + 1)[t])@.contains(e);
                    if t < g {
                        assert(groups@.take(g as int)[t] == groups@.take(g + 1)[t]);
                    }
                }
                if in_groups(groups@.take(g as int), e) {
                    let t = choose|t: int| 0 <= t < groups@.take(g as int).len() && (#[trigger] groups@.take(g as int)[t])@.contains(e);
                    assert(groups@.take(g + 1)[t] == groups@.take(g as int)[t]);
                }
                if group@.contains(e) {
                    assert(groups@.take(g + 1)[g as int] == groups@[g as int]);
                }
            }
        }
        g = g + 1;
    }
    proof {
        assert(groups@.take(groups.len() as int) =~= groups@);
    }
}


/// An element that is reparented or deleted makes the canvas recorded as
/// drawing it rebuild, and loses its record.
pub proof fn lemma_removed_element_rebuilds_its_canvas(m: Map<u64, u64>, changes: Seq<CanvasChange>, i: int, j: int)
    requires
        0 <= i < changes.len(),
        0 <= j < removal_keys(changes[i]).len(),
        m.contains_key(removal_keys(changes[i])[j]),
    ensures
        changed_canvas_set(m, changes).contains(m[removal_keys(changes[i])[j]]),
        !m.remove_keys(keys_removed(changes)).contains_key(removal_keys(changes[i])[j]),
{
    let k = removal_keys(changes[i])[j];
    assert(keys_removed(changes).contains(k));
    assert(vals_of(m, keys_removed(changes)).contains(m[k]));
}

} // verus!
