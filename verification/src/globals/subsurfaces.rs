//! Requests that put surfaces under other surfaces and order them there.
use vstd::prelude::*;

use crate::error::Error;
use crate::globals::compositor::{
    no_state, CommittedMaskBit, SubsurfaceNode, SubsurfaceRole, SubsurfaceRoleV, SurfaceRole, SurfaceRoleV, SurfaceState,
    SurfaceStateV, SurfaceV,
};
use crate::globals::compositor_requests::{
    compositor_wf, lemma_acyclic_kept, Compositor, CompositorV, SubsurfaceRequest,
};
use crate::globals::surfaces::{
    acyclic, cache_applied, cache_changed, effective_is_sync, is_child, lemma_wf_but, list_wf, lists, ranked, same_links,
    surface_wf, surfaces_wf, up, Outcome, Ranking, Surfaces,
};
use crate::protocol::Action;

verus! {

/// The place of subsurface `c` in a list, or the length of the list if it is not there.
pub open spec fn node_index(nodes: Seq<SubsurfaceNode>, c: usize) -> int
    decreases nodes.len(),
{
    if nodes.len() == 0 {
        0
    } else if nodes[0].surface == c {
        0
    } else {
        1 + node_index(nodes.drop_first(), c)
    }
}

proof fn lemma_node_index(nodes: Seq<SubsurfaceNode>, c: usize)
    ensures
        0 <= node_index(nodes, c) <= nodes.len(),
        forall|k: int| 0 <= k < node_index(nodes, c) ==> (#[trigger] nodes[k]).surface != c,
        node_index(nodes, c) < nodes.len() ==> nodes[node_index(nodes, c)].surface == c,
        node_index(nodes, c) < nodes.len() <==> lists(nodes, c as int),
    decreases nodes.len(),
{
    if nodes.len() > 0 && nodes[0].surface != c {
        lemma_node_index(nodes.drop_first(), c);
        assert forall|k: int| 0 <= k < node_index(nodes, c) implies (#[trigger] nodes[k]).surface != c by {
            if k > 0 {
                assert(nodes.drop_first()[k - 1] == nodes[k]);
            }
        }
    }
}

/// The place of a subsurface in a list.
fn find_index(nodes: &Vec<SubsurfaceNode>, c: usize) -> (r: usize)
    ensures
        r == node_index(nodes@, c),
        r <= nodes@.len(),
        r < nodes@.len() <==> lists(nodes@, c as int),
{
    let mut k: usize = 0;
    assert(nodes@.skip(0) =~= nodes@);
    while k < nodes.len() && nodes[k].surface != c
        invariant
            k <= nodes.len(),
            node_index(nodes@, c) == k + node_index(nodes@.skip(k as int), c),
        decreases nodes.len() - k,
    {
        assert(nodes@.skip(k as int).drop_first() =~= nodes@.skip(k + 1));
        k = k + 1;
    }
    proof {
        lemma_node_index(nodes@, c);
    }
    k
}

/// A list without subsurface `c`.
pub open spec fn nodes_without(nodes: Seq<SubsurfaceNode>, c: usize) -> Seq<SubsurfaceNode>
    decreases nodes.len(),
{
    if nodes.len() == 0 {
        Seq::empty()
    } else {
        let before = nodes_without(nodes.drop_last(), c);
        if nodes.last().surface == c {
            before
        } else {
            before.push(nodes.last())
        }
    }
}

/// Takes a subsurface out of a list.
fn remove_node(nodes: &mut Vec<SubsurfaceNode>, c: usize)
    ensures
        final(nodes)@ == nodes_without(old(nodes)@, c),
{
    let mut kept: Vec<SubsurfaceNode> = Vec::new();
    let mut k: usize = 0;
    assert(nodes@.take(0) =~= Seq::<SubsurfaceNode>::empty());
    while k < nodes.len()
        invariant
            k <= nodes.len(),
            nodes@ == old(nodes)@,
            kept@ == nodes_without(nodes@.take(k as int), c),
        decreases nodes.len() - k,
    {
        assert(nodes@.take(k + 1).drop_last() =~= nodes@.take(k as int));
        if nodes[k].surface != c {
            kept.push(nodes[k]);
        }
        k = k + 1;
    }
    assert(nodes@.take(k as int) =~= nodes@);
    *nodes = kept;
}

proof fn lemma_nodes_without(nodes: Seq<SubsurfaceNode>, c: usize)
    ensures
        forall|j: int| #[trigger] lists(nodes_without(nodes, c), j) <==> lists(nodes, j) && j != c,
        (forall|k: int, l: int|
            0 <= k < l < nodes.len() ==> (#[trigger] nodes[k]).surface != (#[trigger] nodes[l]).surface) ==> (forall|
            k: int,
            l: int,
        |
            0 <= k < l < nodes_without(nodes, c).len() ==> (#[trigger] nodes_without(nodes, c)[k]).surface != (
            #[trigger] nodes_without(nodes, c)[l]).surface),
    decreases nodes.len(),
{
    let kept = nodes_without(nodes, c);
    if nodes.len() > 0 {
        let init = nodes.drop_last();
        let last = nodes.last();
        let before = nodes_without(init, c);
        lemma_nodes_without(init, c);
        assert forall|j: int| #[trigger] lists(kept, j) <==> lists(nodes, j) && j != c by {
            assert(lists(before, j) <==> lists(init, j) && j != c);
            if lists(nodes, j) {
                let k = choose|k: int| 0 <= k < nodes.len() && (#[trigger] nodes[k]).surface == j;
                if k < init.len() {
                    assert(init[k].surface == j);
                }
            }
            if lists(init, j) {
                let k = choose|k: int| 0 <= k < init.len() && (#[trigger] init[k]).surface == j;
                assert(nodes[k].surface == j);
            }
            if lists(before, j) {
                let k = choose|k: int| 0 <= k < before.len() && (#[trigger] before[k]).surface == j;
                assert(kept[k].surface == j);
            }
            if last.surface == j {
                assert(nodes[nodes.len() - 1].surface == j);
                if j != c {
                    assert(kept[kept.len() - 1].surface == j);
                }
            }
            if lists(kept, j) && !lists(before, j) {
                let k = choose|k: int| 0 <= k < kept.len() && (#[trigger] kept[k]).surface == j;
                if k < before.len() {
                    assert(before[k].surface == j);
                }
            }
        }
        if forall|k: int, l: int|
            0 <= k < l < nodes.len() ==> (#[trigger] nodes[k]).surface != (#[trigger] nodes[l]).surface {
            assert forall|k: int, l: int| 0 <= k < l < init.len() implies (#[trigger] init[k]).surface != (
            #[trigger] init[l]).surface by {
                assert(nodes[k] == init[k] && nodes[l] == init[l]);
            }
            assert forall|k: int, l: int| 0 <= k < l < kept.len() implies (#[trigger] kept[k]).surface != (
            #[trigger] kept[l]).surface by {
                if l < before.len() {
                    assert(before[k] == kept[k] && before[l] == kept[l]);
                } else {
                    assert(before[k] == kept[k]);
                    assert(lists(before, before[k].surface as int));
                    let m = choose|m: int| 0 <= m < init.len() && (#[trigger] init[m]).surface == before[k].surface;
                    assert(nodes[m].surface != nodes[nodes.len() - 1].surface);
                }
            }
        }
    }
}

/// A list with subsurface `c` directly above or below its sibling. Where the sibling is not in the
/// list, `c` is taken out and nothing else is done.
pub open spec fn placed(nodes: Seq<SubsurfaceNode>, c: usize, sibling: usize, above: bool) -> Result<
    Seq<SubsurfaceNode>,
    Seq<SubsurfaceNode>,
> {
    let at = node_index(nodes, c);
    let rest = nodes.remove(at);
    let k = node_index(rest, sibling);
    if k == rest.len() {
        Err(rest)
    } else {
        Ok(
            rest.insert(
                if above {
                    k + 1
                } else {
                    k
                },
                nodes[at],
            ),
        )
    }
}

/// Whether a list names `upper` right after `lower`.
pub open spec fn neighbours(nodes: Seq<SubsurfaceNode>, lower: usize, upper: usize) -> bool {
    exists|k: int| 0 <= k < nodes.len() - 1 && (#[trigger] nodes[k]).surface == lower && nodes[k + 1].surface == upper
}

/// A subsurface that was placed is the direct neighbour of its sibling, and the list names the same
/// subsurfaces as before.
pub proof fn law_placed(nodes: Seq<SubsurfaceNode>, c: usize, sibling: usize, above: bool)
    requires
        lists(nodes, c as int),
        forall|k: int, l: int| 0 <= k < l < nodes.len() ==> (#[trigger] nodes[k]).surface != (#[trigger] nodes[l]).surface,
    ensures
        placed(nodes, c, sibling, above) is Ok <==> lists(nodes, sibling as int) && sibling != c,
        placed(nodes, c, sibling, above) matches Ok(after) ==> {
            &&& after.len() == nodes.len()
            &&& forall|j: int| #[trigger] lists(after, j) <==> lists(nodes, j)
            &&& forall|k: int, l: int|
                0 <= k < l < after.len() ==> (#[trigger] after[k]).surface != (#[trigger] after[l]).surface
            &&& if above {
                neighbours(after, sibling, c)
            } else {
                neighbours(after, c, sibling)
            }
        },
{
    let at = node_index(nodes, c);
    let rest = nodes.remove(at);
    let k = node_index(rest, sibling);
    lemma_node_index(nodes, c);
    lemma_node_index(rest, sibling);
    assert forall|j: int| lists(rest, j) <==> lists(nodes, j) && j != c by {
        if lists(rest, j) {
            let m = choose|m: int| 0 <= m < rest.len() && (#[trigger] rest[m]).surface == j;
            if m < at {
                assert(nodes[m].surface == j);
                assert(nodes[at].surface == c);
            } else {
                assert(nodes[m + 1].surface == j);
                assert(nodes[at].surface == c);
            }
        }
        if lists(nodes, j) && j != c {
            let m = choose|m: int| 0 <= m < nodes.len() && (#[trigger] nodes[m]).surface == j;
            if m < at {
                assert(rest[m].surface == j);
            } else {
                assert(rest[m - 1].surface == j);
            }
        }
    }
    if k < rest.len() {
        let pos = if above {
            k + 1
        } else {
            k
        };
        let after = rest.insert(pos, nodes[at]);
        assert forall|j: int| #[trigger] lists(after, j) <==> lists(nodes, j) by {
            if lists(after, j) {
                let m = choose|m: int| 0 <= m < after.len() && (#[trigger] after[m]).surface == j;
                if m < pos {
                    assert(rest[m].surface == j);
                    assert(lists(rest, j));
                } else if m == pos {
                } else {
                    assert(rest[m - 1].surface == j);
                    assert(lists(rest, j));
                }
            }
            if lists(nodes, j) {
                if j == c {
                    assert(after[pos].surface == j);
                } else {
                    assert(lists(rest, j));
                    let m = choose|m: int| 0 <= m < rest.len() && (#[trigger] rest[m]).surface == j;
                    if m < pos {
                        assert(after[m].surface == j);
                    } else {
                        assert(after[m + 1].surface == j);
                    }
                }
            }
        }
        assert forall|a: int, b: int| 0 <= a < b < after.len() implies (#[trigger] after[a]).surface != (
        #[trigger] after[b]).surface by {
            let ra = if a < pos { a } else { a - 1 };
            let rb = if b < pos { b } else { b - 1 };
            if a == pos {
                assert(after[b] == rest[rb]);
                assert(lists(rest, rest[rb].surface as int));
            } else if b == pos {
                assert(after[a] == rest[ra]);
                assert(lists(rest, rest[ra].surface as int));
            } else {
                assert(after[a] == rest[ra] && after[b] == rest[rb]);
                let na = if ra < at { ra } else { ra + 1 };
                let nb = if rb < at { rb } else { rb + 1 };
                assert(nodes[na] == rest[ra] && nodes[nb] == rest[rb]);
            }
        }
        if above {
            assert(after[k].surface == sibling && after[k + 1].surface == c);
        } else {
            assert(after[k].surface == c && after[k + 1] == rest[k]);
        }
    }
}

/// The surface `n` levels above surface `j`, if there are so many.
pub open spec fn ancestor(s: Seq<SurfaceV>, j: int, n: nat) -> Option<int>
    decreases n,
{
    if n == 0 {
        Some(j)
    } else {
        match up(s, j) {
            None => None,
            Some(q) => ancestor(s, q, (n - 1) as nat),
        }
    }
}

/// Whether surface `j` is surface `i` or hangs under it, directly or not.
pub open spec fn below(s: Seq<SurfaceV>, j: int, i: int) -> bool {
    exists|n: nat| #[trigger] ancestor(s, j, n) == Some(i)
}

proof fn lemma_below_step(s: Seq<SurfaceV>, j: int, i: int)
    requires
        j != i,
    ensures
        below(s, j, i) <==> (up(s, j) matches Some(q) && below(s, q, i)),
{
    if below(s, j, i) {
        let n = choose|n: nat| #[trigger] ancestor(s, j, n) == Some(i);
        assert(n > 0);
        let q = up(s, j)->0;
        assert(ancestor(s, q, (n - 1) as nat) == Some(i));
    }
    if let Some(q) = up(s, j) {
        if below(s, q, i) {
            let n = choose|n: nat| #[trigger] ancestor(s, q, n) == Some(i);
            assert(ancestor(s, j, n + 1) == Some(i));
        }
    }
}

/// Hanging a surface, with all that is below it, under another surface that is not itself below it
/// leaves no surface under itself.
pub proof fn lemma_link_acyclic(s: Seq<SurfaceV>, t: Seq<SurfaceV>, i: int, p: int)
    requires
        acyclic(s),
        t.len() == s.len(),
        0 <= i < s.len(),
        0 <= p < s.len(),
        up(s, i) is None,
        up(t, i) == Some(p),
        forall|j: int| 0 <= j < s.len() && j != i ==> #[trigger] up(t, j) == up(s, j),
        !below(s, p, i),
    ensures
        acyclic(t),
{
    let r = choose|r: Ranking| ranked(s, r);
    let lift = r.of(p) + 1;
    let r2 = Ranking {
        rank: |j: int|
            if below(s, j, i) {
                r.of(j) + lift
            } else {
                r.of(j)
            },
        bound: r.bound + lift,
    };
    assert forall|j: int|
        #![trigger r2.of(j)]
        0 <= j < t.len() implies r2.of(j) <= r2.bound && (up(t, j) matches Some(q) ==> 0 <= q < t.len() && r2.of(q)
        < r2.of(j)) by {
        assert(r.of(j) <= r.bound);
        if j == i {
            assert(ancestor(s, i, 0) == Some(i));
            assert(below(s, i, i));
        } else {
            assert(up(t, j) == up(s, j));
            lemma_below_step(s, j, i);
            if let Some(q) = up(s, j) {
                assert(r.of(q) < r.of(j));
            }
        }
    }
    assert(ranked(t, r2));
}

/// Taking links away leaves no surface under itself.
pub proof fn lemma_unlink_acyclic(s: Seq<SurfaceV>, t: Seq<SurfaceV>)
    requires
        acyclic(s),
        t.len() == s.len(),
        forall|j: int| 0 <= j < s.len() ==> #[trigger] up(t, j) == up(s, j) || up(t, j) is None,
    ensures
        acyclic(t),
{
    let r = choose|r: Ranking| ranked(s, r);
    assert forall|j: int|
        #![trigger r.of(j)]
        0 <= j < t.len() implies r.of(j) <= r.bound && (up(t, j) matches Some(q) ==> 0 <= q < t.len() && r.of(q)
        < r.of(j)) by {
        assert(up(t, j) == up(s, j) || up(t, j) is None);
    }
    assert(ranked(t, r));
}

impl Surfaces {
    /// Whether surface `j` is surface `i` or hangs under it, directly or not.
    pub fn is_below(&self, j: usize, i: usize) -> (r: bool)
        requires
            surfaces_wf(self@),
            acyclic(self@),
            j < self@.len(),
            i < self@.len(),
        ensures
            r == below(self@, j as int, i as int),
    {
        let ghost rank = choose|r: Ranking| ranked(self@, r);
        let mut at: usize = j;
        while at != i
            invariant
                surfaces_wf(self@),
                ranked(self@, rank),
                at < self@.len(),
                below(self@, j as int, i as int) == below(self@, at as int, i as int),
            decreases rank.of(at as int),
        {
            proof {
                lemma_below_step(self@, at as int, i as int);
                assert(surface_wf(self@, at as int));
                assert(rank.of(at as int) <= rank.bound);
            }
            match self.parent(at) {
                None => return false,
                Some(p) => {
                    at = p;
                },
            }
        }
        assert(ancestor(self@, at as int, 0) == Some(i as int));
        true
    }

    /// The surface that a surface hangs under.
    fn parent(&self, i: usize) -> (r: Option<usize>)
        requires
            surfaces_wf(self@),
            i < self@.len(),
        ensures
            match r {
                Some(p) => up(self@, i as int) == Some(p as int) && p < self@.len(),
                None => up(self@, i as int) is None,
            },
    {
        let surface = self.get(i);
        assert(surface_wf(self@, i as int));
        match &surface.role {
            SurfaceRole::Subsurface(sub) => Some(sub.parent),
            SurfaceRole::Xdg(xdg) => match &xdg.specific {
                crate::globals::xdg_shell::SpecificRole::Popup(p) => Some(p.parent),
                _ => None,
            },
            _ => None,
        }
    }
}

/// The surfaces after `i` became a subsurface of `p`.
pub open spec fn linked(s: Seq<SurfaceV>, i: int, p: int) -> Seq<SurfaceV> {
    let t = s.update(
        i,
        SurfaceV {
            role: SurfaceRoleV::Subsurface(
                SubsurfaceRoleV { parent: p as usize, is_sync: true, cached_state: no_state() },
            ),
            ..s[i]
        },
    );
    t.update(
        p,
        SurfaceV {
            pending: SurfaceStateV {
                subsurfaces: t[p].pending.subsurfaces.push(SubsurfaceNode { surface: i as usize, position: (0, 0) }),
                mask: t[p].pending.mask.insert(CommittedMaskBit::Subsurfaces),
                ..t[p].pending
            },
            ..t[p]
        },
    )
}

proof fn lemma_linked(s: Seq<SurfaceV>, i: int, p: int)
    requires
        surfaces_wf(s),
        0 <= i < s.len() <= usize::MAX,
        0 <= p < s.len(),
        s[i].role is NoRole,
        s[i].wl.client == s[p].wl.client,
    ensures
        surfaces_wf(linked(s, i, p)),
        up(s, i) is None,
        up(linked(s, i, p), i) == Some(p),
        forall|j: int| 0 <= j < s.len() && j != i ==> #[trigger] up(linked(s, i, p), j) == up(s, j),
{
    let t = linked(s, i, p);
    assert(surface_wf(s, i));
    assert(surface_wf(s, p));
    assert forall|k: int, c: int| is_child(s, k, c) implies is_child(t, k, c) by {}
    let old_list = s[p].pending.subsurfaces;
    let new_list = t[p].pending.subsurfaces;
    assert(new_list == old_list.push(SubsurfaceNode { surface: i as usize, position: (0, 0) }));
    assert(list_wf(t, p, new_list)) by {
        assert forall|k: int| 0 <= k < new_list.len() implies is_child(t, p, (#[trigger] new_list[k]).surface as int) by {
            if k < old_list.len() {
                assert(is_child(s, p, old_list[k].surface as int));
            }
        }
        assert forall|k: int, l: int| 0 <= k < l < new_list.len() implies (#[trigger] new_list[k]).surface != (
        #[trigger] new_list[l]).surface by {
            assert(is_child(s, p, old_list[k].surface as int));
            if l < old_list.len() {
                assert(old_list[k].surface != old_list[l].surface);
            }
        }
    }
    assert(lists(new_list, i)) by {
        assert(new_list[old_list.len() as int].surface == i);
    }
    assert forall|j: int| 0 <= j < t.len() implies #[trigger] surface_wf(t, j) by {
        assert(surface_wf(s, j));
        if s[j].role is Subsurface {
            let q = s[j].role->Subsurface_0.parent as int;
            if q == p {
                let k = choose|k: int| 0 <= k < old_list.len() && (#[trigger] old_list[k]).surface == j;
                assert(new_list[k].surface == j);
                assert(lists(t[q].pending.subsurfaces, j));
            } else {
                assert(t[q].pending.subsurfaces == s[q].pending.subsurfaces);
            }
        }
        assert(list_wf(t, j, s[j].cur.subsurfaces));
        assert(list_wf(t, j, s[j].pending.subsurfaces));
    }
}

impl Compositor {
    /// Makes a surface a subsurface of another surface of the same client.
    pub fn get_subsurface(&mut self, surface: usize, parent: usize) -> (r: Result<(), Error>)
        requires
            compositor_wf(old(self)@),
            surface < old(self)@.surfaces.len(),
            parent < old(self)@.surfaces.len(),
            old(self)@.surfaces[surface as int].wl.client == old(self)@.surfaces[parent as int].wl.client,
        ensures
            if old(self)@.surfaces[surface as int].has_role() {
                r == Err::<(), Error>(Error::SurfaceHasRole) && final(self)@ == old(self)@
            } else {
                r is Ok && final(self)@ == (CompositorV {
                    surfaces: linked(old(self)@.surfaces, surface as int, parent as int),
                    ..old(self)@
                })
            },
            compositor_wf(final(self)@),
            acyclic(old(self)@.surfaces) && !below(old(self)@.surfaces, parent as int, surface as int) ==> acyclic(
                final(self)@.surfaces,
            ),
    {
        let ghost s = self@.surfaces;
        if self.surfaces.get(surface).has_role() {
            return Err(Error::SurfaceHasRole);
        }
        proof {
            assert(self.surfaces.list.len() == s.len());
            lemma_linked(s, surface as int, parent as int);
        }
        self.surfaces.list[surface].role = SurfaceRole::Subsurface(
            SubsurfaceRole { parent, is_sync: true, cached_state: SurfaceState::new() },
        );
        self.surfaces.list[parent].pending.subsurfaces.push(SubsurfaceNode { surface, position: (0, 0) });
        self.surfaces.list[parent].pending.mask.set(CommittedMaskBit::Subsurfaces);
        proof {
            let t = linked(s, surface as int, parent as int);
            assert(self@.surfaces =~= t);
            if acyclic(s) && !below(s, parent as int, surface as int) {
                lemma_link_acyclic(s, t, surface as int, parent as int);
            }
        }
        Ok(())
    }
}

/// Whether the surfaces have the same handles, and the same of them are toplevels that are shown.
pub open spec fn same_windows(a: Seq<SurfaceV>, b: Seq<SurfaceV>) -> bool {
    &&& a.len() == b.len()
    &&& forall|j: int| 0 <= j < a.len() ==> same_window(a[j], #[trigger] b[j])
}

/// Whether a surface has the same handle, and is shown as a toplevel if it was.
pub open spec fn same_window(a: SurfaceV, b: SurfaceV) -> bool {
    &&& b.wl == a.wl
    &&& b.mapped == a.mapped
    &&& a.mapped ==> b.is_toplevel() == a.is_toplevel()
}

/// Whether nothing changed of the surfaces of other clients.
pub open spec fn others_unchanged(a: Seq<SurfaceV>, b: Seq<SurfaceV>, client: crate::client::ClientId) -> bool {
    &&& a.len() == b.len()
    &&& forall|j: int| 0 <= j < a.len() && a[j].wl.client != client ==> #[trigger] b[j] == a[j]
}

impl SurfaceV {
    /// The surface with another list of subsurfaces to be committed.
    pub open spec fn with_pending_nodes(self, nodes: Seq<SubsurfaceNode>) -> SurfaceV {
        SurfaceV { pending: SurfaceStateV { subsurfaces: nodes, ..self.pending }, ..self }
    }

    /// The surface without subsurface `c` in any of its lists.
    pub open spec fn without_child(self, c: usize) -> SurfaceV {
        SurfaceV {
            cur: SurfaceStateV { subsurfaces: nodes_without(self.cur.subsurfaces, c), ..self.cur },
            pending: SurfaceStateV { subsurfaces: nodes_without(self.pending.subsurfaces, c), ..self.pending },
            role: match self.role {
                SurfaceRoleV::Subsurface(sub) => SurfaceRoleV::Subsurface(
                    SubsurfaceRoleV {
                        cached_state: SurfaceStateV {
                            subsurfaces: nodes_without(sub.cached_state.subsurfaces, c),
                            ..sub.cached_state
                        },
                        ..sub
                    },
                ),
                role => role,
            },
            ..self
        }
    }

    /// The subsurface with its synchronization switched.
    pub open spec fn with_sync(self, is_sync: bool) -> SurfaceV {
        match self.role {
            SurfaceRoleV::Subsurface(sub) => SurfaceV {
                role: SurfaceRoleV::Subsurface(SubsurfaceRoleV { is_sync, ..sub }),
                ..self
            },
            _ => self,
        }
    }
}

/// A list with subsurface `c` moved to a position on its parent.
pub open spec fn moved(nodes: Seq<SubsurfaceNode>, c: usize, position: (i32, i32)) -> Seq<SubsurfaceNode> {
    nodes.update(node_index(nodes, c), SubsurfaceNode { surface: c, position })
}

/// The surfaces after subsurface `i` became a surface of its own.
pub open spec fn unlinked(s: Seq<SurfaceV>, i: int) -> Seq<SurfaceV> {
    let p = s[i].role->Subsurface_0.parent as int;
    let t = s.update(i, SurfaceV { role: SurfaceRoleV::NoRole, ..s[i] });
    t.update(p, t[p].without_child(i as usize))
}

/// What comes of a request on subsurface `i`.
pub open spec fn subsurface_after(s: Seq<SurfaceV>, i: int, request: SubsurfaceRequest) -> Outcome {
    let p = s[i].role->Subsurface_0.parent as int;
    let nodes = s[p].pending.subsurfaces;
    match request {
        SubsurfaceRequest::Destroy => Outcome { surfaces: unlinked(s, i), actions: Seq::empty(), result: Ok(()) },
        SubsurfaceRequest::SetPosition { x, y } => Outcome {
            surfaces: s.update(
                p,
                SurfaceV {
                    pending: SurfaceStateV {
                        subsurfaces: moved(nodes, i as usize, (x, y)),
                        mask: s[p].pending.mask.insert(CommittedMaskBit::Subsurfaces),
                        ..s[p].pending
                    },
                    ..s[p]
                },
            ),
            actions: Seq::empty(),
            result: Ok(()),
        },
        SubsurfaceRequest::PlaceAbove(sibling) => match placed(nodes, i as usize, sibling, true) {
            Ok(after) => Outcome {
                surfaces: s.update(p, s[p].with_pending_nodes(after)),
                actions: Seq::empty(),
                result: Ok(()),
            },
            Err(rest) => Outcome {
                surfaces: s.update(p, s[p].with_pending_nodes(rest)),
                actions: Seq::empty(),
                result: Err(Error::NotASibling),
            },
        },
        SubsurfaceRequest::PlaceBelow(sibling) => match placed(nodes, i as usize, sibling, false) {
            Ok(after) => Outcome {
                surfaces: s.update(p, s[p].with_pending_nodes(after)),
                actions: Seq::empty(),
                result: Ok(()),
            },
            Err(rest) => Outcome {
                surfaces: s.update(p, s[p].with_pending_nodes(rest)),
                actions: Seq::empty(),
                result: Err(Error::NotASibling),
            },
        },
        SubsurfaceRequest::SetSync => Outcome {
            surfaces: s.update(i, s[i].with_sync(true)),
            actions: Seq::empty(),
            result: Ok(()),
        },
        SubsurfaceRequest::SetDesync => {
            let t = s.update(i, s[i].with_sync(false));
            if effective_is_sync(t, p) {
                cache_applied(t, i)
            } else {
                Outcome { surfaces: t, actions: Seq::empty(), result: Ok(()) }
            }
        },
    }
}

/// A list of subsurfaces to be committed can be replaced by another one that names the same.
proof fn lemma_pending_list(s: Seq<SurfaceV>, p: int, x: SurfaceV)
    requires
        surfaces_wf(s),
        0 <= p < s.len(),
        x == (SurfaceV { pending: x.pending, ..s[p] }),
        x.pending.buffer is None,
        list_wf(s, p, x.pending.subsurfaces),
        forall|j: int| #[trigger] lists(x.pending.subsurfaces, j) <==> lists(s[p].pending.subsurfaces, j),
    ensures
        surfaces_wf(s.update(p, x)),
        same_links(s, s.update(p, x)),
{
    let t = s.update(p, x);
    assert(surface_wf(s, p));
    assert forall|j: int| 0 <= j < t.len() implies #[trigger] surface_wf(t, j) by {
        assert(surface_wf(s, j));
        assert forall|k: int, c: int| is_child(s, k, c) implies is_child(t, k, c) by {}
        if s[j].role is Subsurface && s[j].role->Subsurface_0.parent == p {
            assert(lists(s[p].pending.subsurfaces, j));
            assert(lists(x.pending.subsurfaces, j));
        }
        assert(list_wf(t, j, s[j].cur.subsurfaces));
        assert(list_wf(t, j, s[j].pending.subsurfaces));
    }
    assert forall|j: int| 0 <= j < s.len() implies up(s, j) == #[trigger] up(t, j) by {}
}

proof fn lemma_list_of_same(s: Seq<SurfaceV>, p: int, nodes: Seq<SubsurfaceNode>, after: Seq<SubsurfaceNode>)
    requires
        list_wf(s, p, nodes),
        forall|j: int| #[trigger] lists(after, j) ==> lists(nodes, j),
        forall|k: int, l: int| 0 <= k < l < after.len() ==> (#[trigger] after[k]).surface != (#[trigger] after[l]).surface,
    ensures
        list_wf(s, p, after),
{
    assert forall|k: int| 0 <= k < after.len() implies is_child(s, p, (#[trigger] after[k]).surface as int) by {
        assert(lists(after, after[k].surface as int));
        let l = choose|l: int| 0 <= l < nodes.len() && (#[trigger] nodes[l]).surface == after[k].surface;
        assert(is_child(s, p, nodes[l].surface as int));
    }
}

proof fn lemma_moved(nodes: Seq<SubsurfaceNode>, c: usize, position: (i32, i32))
    requires
        lists(nodes, c as int),
        forall|k: int, l: int| 0 <= k < l < nodes.len() ==> (#[trigger] nodes[k]).surface != (#[trigger] nodes[l]).surface,
    ensures
        forall|j: int| #[trigger] lists(moved(nodes, c, position), j) <==> lists(nodes, j),
        forall|k: int, l: int|
            0 <= k < l < moved(nodes, c, position).len() ==> (#[trigger] moved(nodes, c, position)[k]).surface != (
            #[trigger] moved(nodes, c, position)[l]).surface,
{
    lemma_node_index(nodes, c);
    let after = moved(nodes, c, position);
    assert forall|k: int| 0 <= k < nodes.len() implies (#[trigger] after[k]).surface == nodes[k].surface by {}
    assert forall|j: int| #[trigger] lists(after, j) <==> lists(nodes, j) by {
        if lists(after, j) {
            let k = choose|k: int| 0 <= k < after.len() && (#[trigger] after[k]).surface == j;
            assert(nodes[k].surface == j);
        }
        if lists(nodes, j) {
            let k = choose|k: int| 0 <= k < nodes.len() && (#[trigger] nodes[k]).surface == j;
            assert(after[k].surface == j);
        }
    }
}

proof fn lemma_unlinked(s: Seq<SurfaceV>, i: int)
    requires
        surfaces_wf(s),
        0 <= i < s.len() <= usize::MAX,
        s[i].role is Subsurface,
    ensures
        surfaces_wf(unlinked(s, i)),
        unlinked(s, i).len() == s.len(),
        forall|j: int| 0 <= j < s.len() ==> #[trigger] up(unlinked(s, i), j) == up(s, j) || up(unlinked(s, i), j) is None,
        others_unchanged(s, unlinked(s, i), s[i].wl.client),
{
    let t = unlinked(s, i);
    let p = s[i].role->Subsurface_0.parent as int;
    assert(surface_wf(s, i));
    assert(surface_wf(s, p));
    assert forall|k: int, c: int| is_child(s, k, c) && c != i implies is_child(t, k, c) by {}
    assert forall|j: int, nodes: Seq<SubsurfaceNode>|
        0 <= j < s.len() && list_wf(s, j, nodes) && j != p implies #[trigger] list_wf(t, j, nodes) by {
        assert forall|k: int| 0 <= k < nodes.len() implies is_child(t, j, (#[trigger] nodes[k]).surface as int) by {
            assert(is_child(s, j, nodes[k].surface as int));
        }
    }
    assert forall|nodes: Seq<SubsurfaceNode>| list_wf(s, p, nodes) implies #[trigger] list_wf(
        t,
        p,
        nodes_without(nodes, i as usize),
    ) by {
        lemma_nodes_without(nodes, i as usize);
        let kept = nodes_without(nodes, i as usize);
        assert forall|k: int| 0 <= k < kept.len() implies is_child(t, p, (#[trigger] kept[k]).surface as int) by {
            assert(lists(kept, kept[k].surface as int));
            let l = choose|l: int| 0 <= l < nodes.len() && (#[trigger] nodes[l]).surface == kept[k].surface;
            assert(is_child(s, p, nodes[l].surface as int));
        }
    }
    lemma_nodes_without(s[p].pending.subsurfaces, i as usize);
    assert forall|j: int| 0 <= j < t.len() implies #[trigger] surface_wf(t, j) by {
        assert(surface_wf(s, j));
        if j == p {
            assert(list_wf(t, j, t[j].cur.subsurfaces));
            assert(list_wf(t, j, t[j].pending.subsurfaces));
        } else {
            assert(list_wf(t, j, s[j].cur.subsurfaces));
            assert(list_wf(t, j, s[j].pending.subsurfaces));
        }
        if t[j].role is Subsurface {
            let q = t[j].role->Subsurface_0.parent as int;
            assert(q == s[j].role->Subsurface_0.parent);
            assert(lists(s[q].pending.subsurfaces, j));
            if q == p {
                assert(lists(t[q].pending.subsurfaces, j));
            } else {
                assert(t[q].pending.subsurfaces == s[q].pending.subsurfaces);
            }
            if j == p {
                assert(list_wf(t, j, t[j].role->Subsurface_0.cached_state.subsurfaces));
            } else {
                assert(list_wf(t, j, s[j].role->Subsurface_0.cached_state.subsurfaces));
            }
        }
    }
}

proof fn lemma_with_sync(s: Seq<SurfaceV>, i: int, is_sync: bool)
    requires
        surfaces_wf(s),
        0 <= i < s.len(),
    ensures
        surfaces_wf(s.update(i, s[i].with_sync(is_sync))),
        same_links(s, s.update(i, s[i].with_sync(is_sync))),
{
    let t = s.update(i, s[i].with_sync(is_sync));
    assert forall|j: int| 0 <= j < t.len() implies #[trigger] surface_wf(t, j) by {
        assert(surface_wf(s, j));
        assert forall|k: int, c: int| is_child(s, k, c) implies is_child(t, k, c) by {}
    }
    assert forall|j: int| 0 <= j < s.len() implies up(s, j) == #[trigger] up(t, j) by {}
}

impl Compositor {
    /// Handles a request on a subsurface.
    pub fn wl_subsurface_cb(&mut self, i: usize, request: SubsurfaceRequest, actions: &mut Vec<Action>) -> (r: Result<
        (),
        Error,
    >)
        requires
            compositor_wf(old(self)@),
            i < old(self)@.surfaces.len(),
            old(self)@.surfaces[i as int].role is Subsurface,
            request is SetDesync ==> acyclic(old(self)@.surfaces),
        ensures
            ({
                let o = subsurface_after(old(self)@.surfaces, i as int, request);
                &&& final(self)@ == (CompositorV { surfaces: o.surfaces, ..old(self)@ })
                &&& final(actions)@ == old(actions)@ + o.actions
                &&& r == o.result
            }),
            r is Ok ==> compositor_wf(final(self)@),
            acyclic(old(self)@.surfaces) ==> acyclic(final(self)@.surfaces),
            others_unchanged(old(self)@.surfaces, final(self)@.surfaces, old(self)@.surfaces[i as int].wl.client),
            same_windows(old(self)@.surfaces, final(self)@.surfaces),
            r is Err ==> same_links(old(self)@.surfaces, final(self)@.surfaces),
    {
        let ghost s = self@.surfaces;
        let ghost a0 = actions@;
        let parent: usize = match self.surfaces.get(i).get_subsurface() {
            Some(sub) => sub.parent,
            None => {
                assert(false);
                return Ok(());
            },
        };
        let ghost p = parent as int;
        let ghost nodes = s[p].pending.subsurfaces;
        proof {
            assert(surface_wf(s, i as int));
            assert(surface_wf(s, p));
            assert(self.surfaces.list.len() == s.len());
            assert(a0 + Seq::<Action>::empty() =~= a0);
            lemma_node_index(nodes, i);
            assert(self.surfaces.list@[p]@ == s[p]);
        }
        match request {
            SubsurfaceRequest::Destroy => {
                proof {
                    lemma_unlinked(s, i as int);
                    if acyclic(s) {
                        lemma_unlink_acyclic(s, unlinked(s, i as int));
                    }
                }
                self.surfaces.list[i].role = SurfaceRole::NoRole;
                remove_node(&mut self.surfaces.list[parent].cur.subsurfaces, i);
                remove_node(&mut self.surfaces.list[parent].pending.subsurfaces, i);
                if let SurfaceRole::Subsurface(sub) = &mut self.surfaces.list[parent].role {
                    remove_node(&mut sub.cached_state.subsurfaces, i);
                }
                assert(self@.surfaces =~= unlinked(s, i as int));
            },
            SubsurfaceRequest::SetPosition { x, y } => {
                let at: usize = find_index(&self.surfaces.list[parent].pending.subsurfaces, i);
                self.surfaces.list[parent].pending.subsurfaces[at] = SubsurfaceNode { surface: i, position: (x, y) };
                self.surfaces.list[parent].pending.mask.set(CommittedMaskBit::Subsurfaces);
                proof {
                    let t = subsurface_after(s, i as int, request).surfaces;
                    assert(self@.surfaces =~= t);
                    lemma_moved(nodes, i, (x, y));
                    lemma_list_of_same(s, p, nodes, t[p].pending.subsurfaces);
                    lemma_pending_list(s, p, t[p]);
                    if acyclic(s) {
                        lemma_acyclic_kept(s, t);
                    }
                }
            },
            SubsurfaceRequest::PlaceAbove(sibling) => {
                return self.place(i, parent, sibling, true);
            },
            SubsurfaceRequest::PlaceBelow(sibling) => {
                return self.place(i, parent, sibling, false);
            },
            SubsurfaceRequest::SetSync => {
                if let SurfaceRole::Subsurface(sub) = &mut self.surfaces.list[i].role {
                    sub.is_sync = true;
                }
                proof {
                    lemma_with_sync(s, i as int, true);
                    assert(self@.surfaces =~= s.update(i as int, s[i as int].with_sync(true)));
                    if acyclic(s) {
                        lemma_acyclic_kept(s, self@.surfaces);
                    }
                }
            },
            SubsurfaceRequest::SetDesync => {
                if let SurfaceRole::Subsurface(sub) = &mut self.surfaces.list[i].role {
                    sub.is_sync = false;
                }
                let ghost t = s.update(i as int, s[i as int].with_sync(false));
                proof {
                    lemma_with_sync(s, i as int, false);
                    assert(self@.surfaces =~= t);
                    lemma_acyclic_kept(s, t);
                    lemma_wf_but(t, i as int);
                }
                if self.surfaces.effective_is_sync(parent) {
                    let r = self.surfaces.apply_cache(i, actions);
                    proof {
                        let u = self@.surfaces;
                        assert forall|j: int|
                            0 <= j < s.len() && s[j].wl.client != s[i as int].wl.client implies #[trigger] u[j] == s[j] by {
                            assert(t[j] == s[j]);
                            assert(cache_changed(t[j], u[j]));
                        }
                        assert forall|j: int| 0 <= j < s.len() implies same_window(s[j], #[trigger] u[j]) by {
                            assert(cache_changed(t[j], u[j]));
                        }
                        assert forall|j: int| 0 <= j < s.len() implies up(s, j) == #[trigger] up(u, j) by {
                            assert(cache_changed(t[j], u[j]));
                        }
                    }
                    return r;
                }
            },
        }
        Ok(())
    }

    fn place(&mut self, i: usize, parent: usize, sibling: usize, above: bool) -> (r: Result<(), Error>)
        requires
            compositor_wf(old(self)@),
            i < old(self)@.surfaces.len(),
            old(self)@.surfaces[i as int].role matches SurfaceRoleV::Subsurface(sub) && sub.parent == parent,
        ensures
            ({
                let s = old(self)@.surfaces;
                let p = parent as int;
                match placed(s[p].pending.subsurfaces, i, sibling, above) {
                    Ok(after) => r == Ok::<(), Error>(()) && final(self)@ == (CompositorV {
                        surfaces: s.update(p, s[p].with_pending_nodes(after)),
                        ..old(self)@
                    }),
                    Err(rest) => r == Err::<(), Error>(Error::NotASibling) && final(self)@ == (CompositorV {
                        surfaces: s.update(p, s[p].with_pending_nodes(rest)),
                        ..old(self)@
                    }),
                }
            }),
            r is Ok ==> compositor_wf(final(self)@),
            same_links(old(self)@.surfaces, final(self)@.surfaces),
            acyclic(old(self)@.surfaces) ==> acyclic(final(self)@.surfaces),
            others_unchanged(old(self)@.surfaces, final(self)@.surfaces, old(self)@.surfaces[i as int].wl.client),
            same_windows(old(self)@.surfaces, final(self)@.surfaces),
    {
        let ghost s = self@.surfaces;
        let ghost p = parent as int;
        let ghost nodes = s[p].pending.subsurfaces;
        proof {
            assert(surface_wf(s, i as int));
            assert(surface_wf(s, p));
            assert(self.surfaces.list@[p]@ == s[p]);
            lemma_node_index(nodes, i);
            law_placed(nodes, i, sibling, above);
        }
        let at: usize = find_index(&self.surfaces.list[parent].pending.subsurfaces, i);
        let node = self.surfaces.list[parent].pending.subsurfaces.remove(at);
        let ghost rest = nodes.remove(at as int);
        assert(self.surfaces.list@[p].pending.subsurfaces@ == rest);
        let k: usize = find_index(&self.surfaces.list[parent].pending.subsurfaces, sibling);
        proof {
            lemma_node_index(rest, sibling);
        }
        if k == self.surfaces.list[parent].pending.subsurfaces.len() {
            proof {
                let t = s.update(p, s[p].with_pending_nodes(rest));
                assert(self@.surfaces =~= t);
                assert forall|j: int| 0 <= j < s.len() implies up(s, j) == #[trigger] up(t, j) by {}
                if acyclic(s) {
                    lemma_acyclic_kept(s, t);
                }
            }
            return Err(Error::NotASibling);
        }
        if above {
            self.surfaces.list[parent].pending.subsurfaces.insert(k + 1, node);
        } else {
            self.surfaces.list[parent].pending.subsurfaces.insert(k, node);
        }
        proof {
            let after = placed(nodes, i, sibling, above)->Ok_0;
            let t = s.update(p, s[p].with_pending_nodes(after));
            assert(self@.surfaces =~= t);
            lemma_list_of_same(s, p, nodes, after);
            lemma_pending_list(s, p, t[p]);
            if acyclic(s) {
                lemma_acyclic_kept(s, t);
            }
        }
        Ok(())
    }
}

/// The subsurfaces that are left in a list when one is taken out are all others, in the order in which they were.
pub proof fn law_nodes_without(nodes: Seq<SubsurfaceNode>, c: usize)
    ensures
        nodes_without(nodes, c) == nodes.filter(|n: SubsurfaceNode| n.surface != c),
    decreases nodes.len(),
{
    reveal(Seq::filter);
    if nodes.len() > 0 {
        law_nodes_without(nodes.drop_last(), c);
    }
}

/// A subsurface that was placed above or below a sibling keeps its position, and all others stay in the order in
/// which they were.
pub proof fn law_placed_leaves_others_in_order(nodes: Seq<SubsurfaceNode>, c: usize, sibling: usize, above: bool)
    requires
        lists(nodes, c as int),
    ensures
        ({
            let after = match placed(nodes, c, sibling, above) {
                Ok(after) => after,
                Err(after) => after,
            };
            &&& nodes.filter(|n: SubsurfaceNode| n.surface != c) == after.filter(|n: SubsurfaceNode| n.surface != c)
            &&& placed(nodes, c, sibling, above) is Ok ==> after.contains(nodes[node_index(nodes, c)])
        }),
{
    let f = |n: SubsurfaceNode| n.surface != c;
    let at = node_index(nodes, c);
    lemma_node_index(nodes, c);
    let rest = nodes.remove(at);
    let k = node_index(rest, sibling);
    lemma_node_index(rest, sibling);
    let one = seq![nodes[at]];
    assert(one.filter(f) =~= Seq::empty()) by {
        reveal(Seq::filter);
        assert(one.drop_last() =~= Seq::empty());
        assert(one.drop_last().filter(f) =~= Seq::empty());
        assert(one.last() == nodes[at]);
        assert(!f(one.last()));
    }
    lemma_filter_around(nodes.take(at), one, nodes.skip(at + 1), f);
    assert(nodes =~= nodes.take(at) + one + nodes.skip(at + 1));
    assert(rest =~= nodes.take(at) + nodes.skip(at + 1));
    if k < rest.len() {
        let pos = if above {
            k + 1
        } else {
            k
        };
        let after = rest.insert(pos, nodes[at]);
        assert(after =~= rest.take(pos) + one + rest.skip(pos));
        assert(rest =~= rest.take(pos) + rest.skip(pos));
        lemma_filter_around(rest.take(pos), one, rest.skip(pos), f);
        assert(after[pos] == nodes[at]);
    }
}

proof fn lemma_filter_around<A>(a: Seq<A>, b: Seq<A>, c: Seq<A>, f: spec_fn(A) -> bool)
    requires
        b.filter(f) == Seq::<A>::empty(),
    ensures
        (a + b + c).filter(f) == (a + c).filter(f),
{
    Seq::filter_distributes_over_add(a + b, c, f);
    Seq::filter_distributes_over_add(a, b, f);
    Seq::filter_distributes_over_add(a, c, f);
    assert(a.filter(f) + b.filter(f) =~= a.filter(f));
}

/// A surface becomes a subsurface on top of all others of its parent, at the upper left corner of the parent, from the
/// next commit of the parent on. It is synchronized.
pub proof fn law_new_subsurface_is_on_top(s: Seq<SurfaceV>, i: int, p: int)
    requires
        0 <= i < s.len() <= usize::MAX,
        0 <= p < s.len(),
        i != p,
    ensures
        ({
            let t = linked(s, i, p);
            let nodes = t[p].pending_to_cur().cur.subsurfaces;
            &&& t.len() == s.len()
            &&& t[i].role matches SurfaceRoleV::Subsurface(sub) && sub.parent == p && sub.is_sync
                && sub.cached_state.mask == Set::<CommittedMaskBit>::empty()
            &&& nodes.len() == s[p].pending.subsurfaces.len() + 1
            &&& nodes[nodes.len() - 1] == (SubsurfaceNode { surface: i as usize, position: (0, 0) })
            &&& nodes.take(nodes.len() - 1) == s[p].pending.subsurfaces
            &&& t[p].cur == s[p].cur && t[i].cur == s[i].cur
            &&& forall|j: int| 0 <= j < s.len() && j != i && j != p ==> #[trigger] t[j] == s[j]
        }),
{
    let t = linked(s, i, p);
    let nodes = t[p].pending_to_cur().cur.subsurfaces;
    assert(nodes.take(nodes.len() - 1) =~= s[p].pending.subsurfaces);
}

/// A position that is set for a subsurface is its position on the parent from the next commit of the parent on. The
/// other subsurfaces, and the order of all, stay.
pub proof fn law_position_is_committed(s: Seq<SurfaceV>, i: int, x: i32, y: i32, k: int)
    requires
        0 <= i < s.len() <= usize::MAX,
        s[i].role matches SurfaceRoleV::Subsurface(sub) && sub.parent < s.len() && sub.parent != i,
        lists(s[s[i].role->Subsurface_0.parent as int].pending.subsurfaces, i),
        list_wf(s, s[i].role->Subsurface_0.parent as int, s[s[i].role->Subsurface_0.parent as int].pending.subsurfaces),
        0 <= k < s[s[i].role->Subsurface_0.parent as int].pending.subsurfaces.len(),
    ensures
        ({
            let o = subsurface_after(s, i, SubsurfaceRequest::SetPosition { x, y });
            let p = s[i].role->Subsurface_0.parent as int;
            let before = s[p].pending.subsurfaces;
            let after = o.surfaces[p].pending_to_cur().cur.subsurfaces;
            &&& o.result is Ok
            &&& after.len() == before.len()
            &&& after[k].surface == before[k].surface
            &&& after[k].position == if before[k].surface == i {
                (x, y)
            } else {
                before[k].position
            }
            &&& o.surfaces[p].cur == s[p].cur
        }),
{
    let p = s[i].role->Subsurface_0.parent as int;
    let before = s[p].pending.subsurfaces;
    lemma_node_index(before, i as usize);
    let at = node_index(before, i as usize);
    if before[k].surface == i && k != at {
        if k < at {
            assert(before[k].surface != i as usize);
        } else {
            assert(before[at].surface != before[k].surface);
        }
    }
}

/// A subsurface that is destroyed is no longer shown on its parent, at once, and can be used for something else.
pub proof fn law_destroyed_subsurface_is_gone(s: Seq<SurfaceV>, i: int)
    requires
        0 <= i < s.len() <= usize::MAX,
        s[i].role matches SurfaceRoleV::Subsurface(sub) && sub.parent < s.len() && sub.parent != i,
    ensures
        ({
            let o = subsurface_after(s, i, SubsurfaceRequest::Destroy);
            let p = s[i].role->Subsurface_0.parent as int;
            &&& o.result is Ok && o.actions.len() == 0
            &&& o.surfaces[i].role is NoRole
            &&& o.surfaces[p].cur.subsurfaces == s[p].cur.subsurfaces.filter(
                |n: SubsurfaceNode| n.surface != i as usize,
            )
            &&& o.surfaces[p].pending.subsurfaces == s[p].pending.subsurfaces.filter(
                |n: SubsurfaceNode| n.surface != i as usize,
            )
            &&& forall|j: int| 0 <= j < s.len() && j != i && j != p ==> #[trigger] o.surfaces[j] == s[j]
        }),
{
    let p = s[i].role->Subsurface_0.parent as int;
    law_nodes_without(s[p].cur.subsurfaces, i as usize);
    law_nodes_without(s[p].pending.subsurfaces, i as usize);
}

} // verus!
