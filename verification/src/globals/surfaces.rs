//! All surfaces, and how they hang together: subsurfaces under their parents, popups under theirs.
use vstd::prelude::*;

use crate::client::ClientId;
use crate::error::Error;
use crate::globals::compositor::{
    SubsurfaceNode, SubsurfaceRoleV, Surface, SurfaceRole, SurfaceRoleV, SurfaceV,
};
use crate::globals::xdg_shell::{Box32, SpecificRole};
use crate::protocol::{Action, Handle};

verus! {

/// All surfaces. A surface is known by its place in the list.
#[derive(Debug)]
pub struct Surfaces {
    pub list: Vec<Surface>,
}

impl View for Surfaces {
    type V = Seq<SurfaceV>;

    open spec fn view(&self) -> Seq<SurfaceV> {
        self.list@.map_values(|s: Surface| s@)
    }
}

/// The surface that a surface hangs under: the parent of a subsurface or of a popup.
pub open spec fn up(s: Seq<SurfaceV>, i: int) -> Option<int> {
    match s[i].role {
        SurfaceRoleV::Subsurface(sub) => Some(sub.parent as int),
        SurfaceRoleV::Xdg(xdg) => match xdg.specific {
            SpecificRole::Popup(p) => Some(p.parent as int),
            _ => None,
        },
        _ => None,
    }
}

/// Numbers for surfaces that grow from a parent to what hangs under it.
pub struct Ranking {
    pub rank: spec_fn(int) -> nat,
    pub bound: nat,
}

impl Ranking {
    /// The number of a surface.
    pub open spec fn of(self, i: int) -> nat {
        (self.rank)(i)
    }
}

/// Whether the numbers grow from every parent to what hangs under it.
pub open spec fn ranked(s: Seq<SurfaceV>, r: Ranking) -> bool {
    forall|i: int|
        #![trigger r.of(i)]
        0 <= i < s.len() ==> r.of(i) <= r.bound && (up(s, i) matches Some(p) ==> 0 <= p < s.len() && r.of(p) < r.of(
            i,
        ))
}

/// Whether no surface hangs under itself.
pub open spec fn acyclic(s: Seq<SurfaceV>) -> bool {
    exists|r: Ranking| ranked(s, r)
}

/// A number of levels that no chain of surfaces exceeds, where there is one.
pub open spec fn levels(s: Seq<SurfaceV>) -> nat {
    let r = choose|r: Ranking| ranked(s, r);
    r.bound + 1
}

/// Whether fewer than `depth` levels lie below surface `i`.
pub open spec fn levels_below(s: Seq<SurfaceV>, i: int, depth: nat) -> bool {
    exists|r: Ranking| #[trigger] ranked(s, r) && r.bound < depth + r.of(i)
}

/// Whether at most `depth` levels lie above surface `i`, `i` included.
pub open spec fn levels_above(s: Seq<SurfaceV>, i: int, depth: nat) -> bool {
    exists|r: Ranking| #[trigger] ranked(s, r) && r.of(i) < depth
}

/// Whether two states of all surfaces hang together in the same way.
pub open spec fn same_links(a: Seq<SurfaceV>, b: Seq<SurfaceV>) -> bool {
    &&& a.len() == b.len()
    &&& forall|i: int| 0 <= i < a.len() ==> up(a, i) == #[trigger] up(b, i)
}

pub proof fn lemma_same_links(a: Seq<SurfaceV>, b: Seq<SurfaceV>, r: Ranking)
    requires
        same_links(a, b),
        ranked(a, r),
    ensures
        ranked(b, r),
{
    assert forall|i: int|
        #![trigger r.of(i)]
        0 <= i < b.len() implies r.of(i) <= r.bound && (up(b, i) matches Some(p) ==> 0 <= p < b.len() && r.of(p)
        < r.of(i)) by {
        assert(up(a, i) == up(b, i));
    }
}

/// There are as many levels below every surface as there are levels at all.
pub proof fn lemma_levels(s: Seq<SurfaceV>, i: int)
    requires
        acyclic(s),
        0 <= i < s.len(),
    ensures
        levels_below(s, i, levels(s)),
        levels_above(s, i, levels(s)),
{
    let r = choose|r: Ranking| ranked(s, r);
    assert(ranked(s, r));
    assert(r.of(i) <= r.bound);
}

/// Whether a list names subsurfaces of `i` only, each once.
pub open spec fn list_wf(s: Seq<SurfaceV>, i: int, nodes: Seq<SubsurfaceNode>) -> bool {
    &&& forall|k: int| 0 <= k < nodes.len() ==> is_child(s, i, (#[trigger] nodes[k]).surface as int)
    &&& forall|k: int, l: int| 0 <= k < l < nodes.len() ==> (#[trigger] nodes[k]).surface != (#[trigger] nodes[l]).surface
}

/// Whether `c` is a subsurface of `i`.
pub open spec fn is_child(s: Seq<SurfaceV>, i: int, c: int) -> bool {
    &&& 0 <= c < s.len()
    &&& s[c].role matches SurfaceRoleV::Subsurface(sub) && sub.parent == i
}

/// Whether a list names `c`.
pub open spec fn lists(nodes: Seq<SubsurfaceNode>, c: int) -> bool {
    exists|k: int| 0 <= k < nodes.len() && (#[trigger] nodes[k]).surface == c
}

/// Whether the window that a popup was made for is still there.
pub open spec fn parent_alive(s: Seq<SurfaceV>, parent: int, parent_wl: Handle) -> bool {
    &&& 0 <= parent < s.len()
    &&& s[parent].role matches SurfaceRoleV::Xdg(xdg) && xdg.wl == parent_wl
}

/// Whether what a surface shows is laid out for the buffer that it holds.
pub open spec fn layout_wf(x: SurfaceV) -> bool {
    x.buf_transform matches Some(t) ==> (x.cur.buffer matches Some(b) && b.id == t.buf_id)
}

/// What holds of every surface at all times: the links to other surfaces lead somewhere.
pub open spec fn links_wf(s: Seq<SurfaceV>, i: int) -> bool {
    let x = s[i];
    &&& x.wl.key == i
    &&& list_wf(s, i, x.cur.subsurfaces)
    &&& list_wf(s, i, x.pending.subsurfaces)
    &&& x.pending.buffer is None
    &&& (x.mapped || x.configured ==> x.is_toplevel() || x.is_popup())
    &&& match x.role {
        SurfaceRoleV::Subsurface(sub) => {
            &&& sub.parent < s.len()
            &&& s[sub.parent as int].wl.client == x.wl.client
            &&& lists(s[sub.parent as int].pending.subsurfaces, i)
            &&& list_wf(s, i, sub.cached_state.subsurfaces)
        },
        SurfaceRoleV::Xdg(xdg) => {
            &&& xdg.wf()
            &&& (xdg.popup matches Some(p) ==> {
                &&& p < s.len()
                &&& s[p as int].role matches SurfaceRoleV::Xdg(px) && px.specific matches SpecificRole::Popup(pop)
                    && pop.parent == i && pop.parent_wl == xdg.wl
            })
            &&& (xdg.specific matches SpecificRole::Popup(pop) ==> pop.parent < s.len() && s[pop.parent as int].wl.client
                == x.wl.client)
        },
        _ => true,
    }
}

/// What holds of every surface between requests.
pub open spec fn surface_wf(s: Seq<SurfaceV>, i: int) -> bool {
    links_wf(s, i) && layout_wf(s[i])
}

/// What holds of all surfaces while surface `i` is being committed.
pub open spec fn surfaces_wf_but(s: Seq<SurfaceV>, i: int) -> bool {
    &&& forall|j: int| 0 <= j < s.len() ==> #[trigger] links_wf(s, j)
    &&& forall|j: int| 0 <= j < s.len() && j != i ==> #[trigger] layout_wf(s[j])
}

/// What holds of all surfaces between requests.
pub open spec fn surfaces_wf(s: Seq<SurfaceV>) -> bool {
    forall|i: int| 0 <= i < s.len() ==> #[trigger] surface_wf(s, i)
}

/// The box that surface `i` and its subsurfaces cover, `depth` levels down.
pub open spec fn box_down(s: Seq<SurfaceV>, i: int, depth: nat) -> Option<Box32>
    decreases depth, 0nat, 0nat,
{
    match s[i].buf_transform {
        Some(t) if depth > 0 => Some(
            boxes_down(
                s,
                s[i].cur.subsurfaces,
                Box32 { x1: 0, y1: 0, x2: t.dst_width as i32, y2: t.dst_height as i32 },
                (depth - 1) as nat,
            ),
        ),
        _ => None,
    }
}

/// The box `base` extended by those of the subsurfaces in a list.
pub open spec fn boxes_down(s: Seq<SurfaceV>, nodes: Seq<SubsurfaceNode>, base: Box32, depth: nat) -> Box32
    decreases depth, 1nat, nodes.len(),
{
    if nodes.len() == 0 {
        base
    } else {
        let before = boxes_down(s, nodes.drop_last(), base, depth);
        match box_down(s, nodes.last().surface as int, depth) {
            Some(b) => before.extended(b, nodes.last().position),
            None => before,
        }
    }
}

/// The box that a surface and its subsurfaces cover, relative to the surface. There is none for a
/// surface without a buffer.
pub open spec fn bounding_box(s: Seq<SurfaceV>, i: int) -> Option<Box32> {
    box_down(s, i, levels(s))
}

/// The place of subsurface `c` in a list of subsurfaces, if it is there.
pub open spec fn node_of(nodes: Seq<SubsurfaceNode>, c: int) -> Option<SubsurfaceNode>
    decreases nodes.len(),
{
    if nodes.len() == 0 {
        None
    } else if nodes[0].surface == c {
        Some(nodes[0])
    } else {
        node_of(nodes.drop_first(), c)
    }
}

/// Where surface `i` is on the screen, looking at most `depth` levels up.
pub open spec fn pos_up(s: Seq<SurfaceV>, i: int, depth: nat) -> Option<(i32, i32)>
    decreases depth,
{
    if depth == 0 {
        None
    } else {
        match s[i].role {
            SurfaceRoleV::Subsurface(sub) => match (
                node_of(s[sub.parent as int].cur.subsurfaces, i),
                pos_up(s, sub.parent as int, (depth - 1) as nat),
            ) {
                (Some(n), Some(p)) => Some((p.0.wrapping_add(n.position.0), p.1.wrapping_add(n.position.1))),
                _ => None,
            },
            SurfaceRoleV::Xdg(xdg) => match xdg.specific {
                SpecificRole::NoRole => None,
                SpecificRole::Toplevel(t) => match xdg.effective_window_geometry {
                    Some(g) => Some((t.x.wrapping_sub(g.x), t.y.wrapping_sub(g.y))),
                    None => None,
                },
                SpecificRole::Popup(p) => match (
                    pos_up(s, p.parent as int, (depth - 1) as nat),
                    s[p.parent as int].xdg()->0.effective_window_geometry,
                    xdg.effective_window_geometry,
                ) {
                    (Some(at), Some(pg), Some(g)) => Some(
                        (
                            at.0.wrapping_add(pg.x).wrapping_add(p.x).wrapping_sub(g.x),
                            at.1.wrapping_add(pg.y).wrapping_add(p.y).wrapping_sub(g.y),
                        ),
                    ),
                    _ => None,
                },
            },
            _ => None,
        }
    }
}

/// Where a surface is on the screen. There is no place for surfaces that are not part of a window.
pub open spec fn surface_pos(s: Seq<SurfaceV>, i: int) -> Option<(i32, i32)> {
    pos_up(s, i, levels(s))
}

/// Whether every popup on the way up from `i`, at most `depth` levels, still has its parent.
pub open spec fn alive_up(s: Seq<SurfaceV>, i: int, depth: nat) -> bool
    decreases depth,
{
    depth > 0 ==> match s[i].role {
        SurfaceRoleV::Subsurface(sub) => alive_up(s, sub.parent as int, (depth - 1) as nat),
        SurfaceRoleV::Xdg(xdg) => match xdg.specific {
            SpecificRole::Popup(p) => parent_alive(s, p.parent as int, p.parent_wl) && alive_up(
                s,
                p.parent as int,
                (depth - 1) as nat,
            ),
            _ => true,
        },
        _ => true,
    }
}

/// Whether every popup on the way up from a surface still has its parent.
pub open spec fn popups_alive(s: Seq<SurfaceV>, i: int) -> bool {
    alive_up(s, i, levels(s))
}

/// Whether surface `i` is a subsurface and it or a surface that it hangs under, at most `depth`
/// levels up and through subsurfaces only, is synchronized.
pub open spec fn sync_up(s: Seq<SurfaceV>, i: int, depth: nat) -> bool
    decreases depth,
{
    depth > 0 && (s[i].role matches SurfaceRoleV::Subsurface(sub) && (sub.is_sync || sync_up(
        s,
        sub.parent as int,
        (depth - 1) as nat,
    )))
}

/// Whether what is committed to a surface waits until its parent is committed.
pub open spec fn effective_is_sync(s: Seq<SurfaceV>, i: int) -> bool {
    sync_up(s, i, levels(s))
}

/// What came of a walk over surfaces.
#[verifier::ext_equal]
pub struct Outcome {
    pub surfaces: Seq<SurfaceV>,
    pub actions: Seq<Action>,
    pub result: Result<(), Error>,
}

/// What comes of letting the cached state of surface `i` and of its subsurfaces take effect,
/// `depth` levels down.
pub open spec fn cache_down(s: Seq<SurfaceV>, i: int, depth: nat) -> Outcome
    decreases depth, 0nat, 0nat,
{
    if depth == 0 {
        Outcome { surfaces: s, actions: Seq::empty(), result: Ok(()) }
    } else {
        let applied = s[i].cache_applied();
        match applied.new_buf_transform() {
            Err(e) => Outcome { surfaces: s.update(i, applied), actions: s[i].cache_unlocks(), result: Err(e) },
            Ok(t) => {
                let o = caches_down(
                    s.update(i, SurfaceV { buf_transform: t, ..applied }),
                    applied.cur.subsurfaces,
                    (depth - 1) as nat,
                );
                Outcome { surfaces: o.surfaces, actions: s[i].cache_unlocks() + o.actions, result: o.result }
            },
        }
    }
}

/// What comes of doing so for the subsurfaces in a list, up to the first error.
pub open spec fn caches_down(s: Seq<SurfaceV>, nodes: Seq<SubsurfaceNode>, depth: nat) -> Outcome
    decreases depth, 1nat, nodes.len(),
{
    if nodes.len() == 0 {
        Outcome { surfaces: s, actions: Seq::empty(), result: Ok(()) }
    } else {
        let o = caches_down(s, nodes.drop_last(), depth);
        if o.result is Err {
            o
        } else {
            let p = cache_down(o.surfaces, nodes.last().surface as int, depth);
            Outcome { surfaces: p.surfaces, actions: o.actions + p.actions, result: p.result }
        }
    }
}

/// What comes of letting the cached state of a surface and of everything below it take effect.
pub open spec fn cache_applied(s: Seq<SurfaceV>, i: int) -> Outcome {
    cache_down(s, i, levels(s))
}

/// An error in the first part of a list is what comes of the whole list.
proof fn lemma_error_stays(s: Seq<SurfaceV>, nodes: Seq<SubsurfaceNode>, k: int, depth: nat)
    requires
        0 <= k <= nodes.len(),
        caches_down(s, nodes.take(k), depth).result is Err,
    ensures
        caches_down(s, nodes, depth) == caches_down(s, nodes.take(k), depth),
    decreases nodes.len(),
{
    if k == nodes.len() {
        assert(nodes.take(k) =~= nodes);
    } else {
        assert(nodes.drop_last().take(k) =~= nodes.take(k));
        lemma_error_stays(s, nodes.drop_last(), k, depth);
    }
}


/// A surface is one level below the surface that it hangs under.
pub(crate) proof fn lemma_one_level_down(s: Seq<SurfaceV>, i: int, c: int, depth: nat)
    requires
        levels_below(s, i, depth),
        0 <= i < s.len(),
        0 <= c < s.len(),
        up(s, c) == Some(i),
    ensures
        depth >= 1,
        levels_below(s, c, (depth - 1) as nat),
{
    let r = choose|r: Ranking| #[trigger] ranked(s, r) && r.bound < depth + r.of(i);
    assert(r.of(c) <= r.bound);
    assert(r.of(i) <= r.bound);
    assert(r.of(i) < r.of(c));
    assert(r.bound < (depth - 1) + r.of(c));
}

pub(crate) proof fn lemma_some_level(s: Seq<SurfaceV>, i: int, depth: nat)
    requires
        levels_below(s, i, depth),
        0 <= i < s.len(),
    ensures
        depth >= 1,
{
    let r = choose|r: Ranking| #[trigger] ranked(s, r) && r.bound < depth + r.of(i);
    assert(r.of(i) <= r.bound);
}

/// A surface is one level above what hangs under it.
pub(crate) proof fn lemma_one_level_up(s: Seq<SurfaceV>, i: int, depth: nat)
    requires
        levels_above(s, i, depth),
        0 <= i < s.len(),
        up(s, i) is Some,
    ensures
        depth >= 2,
        0 <= up(s, i)->0 < s.len(),
        levels_above(s, up(s, i)->0, (depth - 1) as nat),
{
    let r = choose|r: Ranking| #[trigger] ranked(s, r) && r.of(i) < depth;
    let p = up(s, i)->0;
    assert(r.of(p) < r.of(i));
}

impl Surfaces {
    /// The number of surfaces.
    pub fn len(&self) -> (r: usize)
        ensures
            r == self@.len(),
    {
        self.list.len()
    }

    /// The surface in place `i`.
    pub fn get(&self, i: usize) -> (r: &Surface)
        requires
            i < self@.len(),
        ensures
            r@ == self@[i as int],
    {
        &self.list[i]
    }

    fn box_below(&self, i: usize, Ghost(depth): Ghost<nat>) -> (r: Option<Box32>)
        requires
            surfaces_wf(self@),
            i < self@.len(),
            levels_below(self@, i as int, depth),
        ensures
            r == box_down(self@, i as int, depth),
        decreases depth,
    {
        proof {
            lemma_some_level(self@, i as int, depth);
            assert(surface_wf(self@, i as int));
        }
        let surface = &self.list[i];
        assert(surface@ == self@[i as int]);
        let t = match surface.buf_transform {
            None => return None,
            Some(t) => t,
        };
        let ghost base = Box32 { x1: 0, y1: 0, x2: t.dst_width as i32, y2: t.dst_height as i32 };
        let mut bbox = Box32 { x1: 0, y1: 0, x2: t.dst_width() as i32, y2: t.dst_height() as i32 };
        let ghost nodes = surface.cur.subsurfaces@;
        let mut k: usize = 0;
        assert(nodes.take(0) =~= Seq::<SubsurfaceNode>::empty());
        while k < surface.cur.subsurfaces.len()
            invariant
                k <= surface.cur.subsurfaces.len(),
                nodes == surface.cur.subsurfaces@,
                surface@ == self@[i as int],
                i < self@.len(),
                surfaces_wf(self@),
                levels_below(self@, i as int, depth),
                depth >= 1,
                list_wf(self@, i as int, nodes),
                bbox == boxes_down(self@, nodes.take(k as int), base, (depth - 1) as nat),
            decreases surface.cur.subsurfaces.len() - k,
        {
            let node = surface.cur.subsurfaces[k];
            proof {
                assert(is_child(self@, i as int, nodes[k as int].surface as int));
                lemma_one_level_down(self@, i as int, node.surface as int, depth);
                assert(nodes.take(k + 1).drop_last() =~= nodes.take(k as int));
                assert(nodes.take(k + 1).last() == node);
            }
            if let Some(b) = self.box_below(node.surface, Ghost((depth - 1) as nat)) {
                bbox = bbox.extend(b, node.position);
            }
            k = k + 1;
        }
        assert(nodes.take(k as int) =~= nodes);
        Some(bbox)
    }

    /// The box that a surface and its subsurfaces cover, relative to the surface.
    pub fn get_bounding_box(&self, i: usize) -> (r: Option<Box32>)
        requires
            surfaces_wf(self@),
            acyclic(self@),
            i < self@.len(),
        ensures
            r == bounding_box(self@, i as int),
    {
        proof {
            lemma_levels(self@, i as int);
        }
        self.box_below(i, Ghost(levels(self@)))
    }

    fn pos_above(&self, i: usize, Ghost(depth): Ghost<nat>) -> (r: Option<(i32, i32)>)
        requires
            surfaces_wf(self@),
            i < self@.len(),
            levels_above(self@, i as int, depth),
            alive_up(self@, i as int, depth),
        ensures
            r == pos_up(self@, i as int, depth),
        decreases depth,
    {
        let surface = &self.list[i];
        assert(surface@ == self@[i as int]);
        assert(surface_wf(self@, i as int));
        match &surface.role {
            SurfaceRole::NoRole => None,
            SurfaceRole::Cursor => None,
            SurfaceRole::Subsurface(sub) => {
                proof {
                    lemma_one_level_up(self@, i as int, depth);
                }
                let parent = &self.list[sub.parent];
                assert(parent@ == self@[sub.parent as int]);
                match find_node(&parent.cur.subsurfaces, i) {
                    None => None,
                    Some(node) => match self.pos_above(sub.parent, Ghost((depth - 1) as nat)) {
                        None => None,
                        Some((x, y)) => Some((x.wrapping_add(node.position.0), y.wrapping_add(node.position.1))),
                    },
                }
            },
            SurfaceRole::Xdg(xdg) => match &xdg.specific {
                SpecificRole::NoRole => None,
                SpecificRole::Toplevel(t) => match xdg.get_window_geometry() {
                    None => None,
                    Some(g) => Some((t.x.wrapping_sub(g.x), t.y.wrapping_sub(g.y))),
                },
                SpecificRole::Popup(p) => {
                    proof {
                        lemma_one_level_up(self@, i as int, depth);
                    }
                    let parent = &self.list[p.parent];
                    assert(parent@ == self@[p.parent as int]);
                    match self.pos_above(p.parent, Ghost((depth - 1) as nat)) {
                        None => None,
                        Some((x, y)) => match parent.get_xdg_surface().unwrap().get_window_geometry() {
                            None => None,
                            Some(pg) => match xdg.get_window_geometry() {
                                None => None,
                                Some(g) => Some(
                                    (
                                        x.wrapping_add(pg.x).wrapping_add(p.x).wrapping_sub(g.x),
                                        y.wrapping_add(pg.y).wrapping_add(p.y).wrapping_sub(g.y),
                                    ),
                                ),
                            },
                        },
                    }
                },
            },
        }
    }

    /// Where a surface is on the screen.
    pub fn get_pos(&self, i: usize) -> (r: Option<(i32, i32)>)
        requires
            surfaces_wf(self@),
            acyclic(self@),
            i < self@.len(),
            popups_alive(self@, i as int),
        ensures
            r == surface_pos(self@, i as int),
    {
        proof {
            lemma_levels(self@, i as int);
        }
        self.pos_above(i, Ghost(levels(self@)))
    }

    fn sync_above(&self, i: usize, Ghost(depth): Ghost<nat>) -> (r: bool)
        requires
            surfaces_wf(self@),
            i < self@.len(),
            levels_above(self@, i as int, depth),
        ensures
            r == sync_up(self@, i as int, depth),
        decreases depth,
    {
        let surface = &self.list[i];
        assert(surface@ == self@[i as int]);
        match &surface.role {
            SurfaceRole::Subsurface(sub) => {
                proof {
                    lemma_one_level_up(self@, i as int, depth);
                }
                sub.is_sync || self.sync_above(sub.parent, Ghost((depth - 1) as nat))
            },
            _ => false,
        }
    }

    /// Whether what is committed to a surface waits until its parent is committed.
    pub fn effective_is_sync(&self, i: usize) -> (r: bool)
        requires
            surfaces_wf(self@),
            acyclic(self@),
            i < self@.len(),
        ensures
            r == effective_is_sync(self@, i as int),
    {
        proof {
            lemma_levels(self@, i as int);
        }
        self.sync_above(i, Ghost(levels(self@)))
    }
}

/// The node of subsurface `c` in a list.
fn find_node(nodes: &Vec<SubsurfaceNode>, c: usize) -> (r: Option<SubsurfaceNode>)
    ensures
        r == node_of(nodes@, c as int),
{
    let mut k: usize = 0;
    assert(nodes@.skip(0) =~= nodes@);
    while k < nodes.len()
        invariant
            k <= nodes.len(),
            node_of(nodes@, c as int) == node_of(nodes@.skip(k as int), c as int),
        decreases nodes.len() - k,
    {
        assert(nodes@.skip(k as int).drop_first() =~= nodes@.skip(k + 1));
        if nodes[k].surface == c {
            return Some(nodes[k]);
        }
        k = k + 1;
    }
    None
}


/// Whether a surface changed in nothing but what applying caches can change: the current state, the
/// cache, and the layout of the buffer.
pub open spec fn cache_changed(a: SurfaceV, b: SurfaceV) -> bool {
    &&& b == SurfaceV { cur: b.cur, buf_transform: b.buf_transform, role: b.role, ..a }
    &&& match (a.role, b.role) {
        (SurfaceRoleV::Subsurface(x), SurfaceRoleV::Subsurface(y)) => y == SubsurfaceRoleV {
            cached_state: y.cached_state,
            ..x
        },
        _ => a.role == b.role,
    }
}

/// Whether nothing else changed, and nothing at all of surfaces of other clients.
pub open spec fn caches_changed(a: Seq<SurfaceV>, b: Seq<SurfaceV>, client: ClientId) -> bool {
    &&& a.len() == b.len()
    &&& forall|j: int|
        0 <= j < a.len() ==> cache_changed(a[j], #[trigger] b[j]) && (a[j].wl.client != client ==> b[j] == a[j])
}

/// What holds between requests holds during a commit too.
pub proof fn lemma_wf_but(s: Seq<SurfaceV>, i: int)
    requires
        surfaces_wf(s),
    ensures
        surfaces_wf_but(s, i),
{
    assert forall|j: int| 0 <= j < s.len() implies #[trigger] links_wf(s, j) by {
        assert(surface_wf(s, j));
    }
    assert forall|j: int| 0 <= j < s.len() && j != i implies #[trigger] layout_wf(s[j]) by {
        assert(surface_wf(s, j));
    }
}

proof fn lemma_cache_one(s: Seq<SurfaceV>, i: int)
    requires
        surfaces_wf_but(s, i),
        0 <= i < s.len(),
    ensures
        caches_changed(s, s.update(i, s[i].cache_applied()), s[i].wl.client),
        s[i].cache_applied().new_buf_transform() matches Ok(t) ==> {
            let s2 = s.update(i, SurfaceV { buf_transform: t, ..s[i].cache_applied() });
            &&& caches_changed(s, s2, s[i].wl.client)
            &&& surfaces_wf(s2)
        },
{
    assert(links_wf(s, i));
    if let Ok(t) = s[i].cache_applied().new_buf_transform() {
        let s2 = s.update(i, SurfaceV { buf_transform: t, ..s[i].cache_applied() });
        assert forall|j: int| 0 <= j < s2.len() implies #[trigger] surface_wf(s2, j) by {
            assert(links_wf(s, j));
            assert forall|k: int, c: int| is_child(s, k, c) implies is_child(s2, k, c) by {}
            assert(list_wf(s2, j, s[j].cur.subsurfaces));
            assert(list_wf(s2, j, s2[j].cur.subsurfaces));
        }
    }
}

pub proof fn lemma_caches_changed_links(a: Seq<SurfaceV>, b: Seq<SurfaceV>, client: ClientId)
    requires
        caches_changed(a, b, client),
    ensures
        same_links(a, b),
{
    assert forall|i: int| 0 <= i < a.len() implies up(a, i) == #[trigger] up(b, i) by {
        assert(cache_changed(a[i], b[i]));
    }
}

proof fn lemma_levels_kept(a: Seq<SurfaceV>, b: Seq<SurfaceV>, i: int, depth: nat)
    requires
        same_links(a, b),
        levels_below(a, i, depth),
    ensures
        levels_below(b, i, depth),
{
    let r = choose|r: Ranking| #[trigger] ranked(a, r) && r.bound < depth + r.of(i);
    lemma_same_links(a, b, r);
}

/// Applying caches changes what it may change only, and keeps what holds between requests unless a
/// buffer breaks a rule.
pub proof fn lemma_cache_down(s: Seq<SurfaceV>, i: int, depth: nat)
    requires
        surfaces_wf_but(s, i),
        0 <= i < s.len(),
        levels_below(s, i, depth),
    ensures
        caches_changed(s, cache_down(s, i, depth).surfaces, s[i].wl.client),
        cache_down(s, i, depth).result is Ok ==> surfaces_wf(cache_down(s, i, depth).surfaces),
    decreases depth, 0nat, 0nat,
{
    lemma_some_level(s, i, depth);
    lemma_cache_one(s, i);
    assert(links_wf(s, i));
    let applied = s[i].cache_applied();
    if let Ok(t) = applied.new_buf_transform() {
        let s2 = s.update(i, SurfaceV { buf_transform: t, ..applied });
        lemma_caches_changed_links(s, s2, s[i].wl.client);
        lemma_levels_kept(s, s2, i, depth);
        assert(surface_wf(s2, i));
        lemma_caches_down(s2, i, applied.cur.subsurfaces, depth);
    }
}

/// The same for the subsurfaces of `i` in a list.
proof fn lemma_caches_down(s: Seq<SurfaceV>, i: int, nodes: Seq<SubsurfaceNode>, depth: nat)
    requires
        surfaces_wf(s),
        0 <= i < s.len(),
        levels_below(s, i, depth),
        depth >= 1,
        list_wf(s, i, nodes),
    ensures
        caches_changed(s, caches_down(s, nodes, (depth - 1) as nat).surfaces, s[i].wl.client),
        caches_down(s, nodes, (depth - 1) as nat).result is Ok ==> surfaces_wf(
            caches_down(s, nodes, (depth - 1) as nat).surfaces,
        ),
    decreases depth - 1, 1nat, nodes.len(),
{
    if nodes.len() > 0 {
        let client = s[i].wl.client;
        assert(list_wf(s, i, nodes.drop_last())) by {
            assert forall|k: int| 0 <= k < nodes.drop_last().len() implies is_child(
                s,
                i,
                (#[trigger] nodes.drop_last()[k]).surface as int,
            ) by {
                assert(nodes.drop_last()[k] == nodes[k]);
            }
            assert forall|k: int, l: int| 0 <= k < l < nodes.drop_last().len() implies (#[trigger] nodes.drop_last()[k]).surface
                != (#[trigger] nodes.drop_last()[l]).surface by {
                assert(nodes.drop_last()[k] == nodes[k] && nodes.drop_last()[l] == nodes[l]);
            }
        }
        lemma_caches_down(s, i, nodes.drop_last(), depth);
        let o = caches_down(s, nodes.drop_last(), (depth - 1) as nat);
        if o.result is Ok {
            let c = nodes[nodes.len() - 1].surface as int;
            assert(is_child(s, i, c));
            lemma_caches_changed_links(s, o.surfaces, client);
            lemma_levels_kept(s, o.surfaces, i, depth);
            assert(cache_changed(s[c], o.surfaces[c]));
            assert(surface_wf(s, c));
            lemma_one_level_down(o.surfaces, i, c, depth);
            lemma_wf_but(o.surfaces, c);
            lemma_cache_down(o.surfaces, c, (depth - 1) as nat);
            let p = cache_down(o.surfaces, c, (depth - 1) as nat);
            assert forall|j: int| 0 <= j < s.len() implies cache_changed(s[j], #[trigger] p.surfaces[j]) && (
            s[j].wl.client != client ==> p.surfaces[j] == s[j]) by {
                assert(cache_changed(s[j], o.surfaces[j]));
                assert(cache_changed(o.surfaces[j], p.surfaces[j]));
            }
        }
    }
}

/// What comes of applying caches does not depend on how far down they may be applied.
pub proof fn law_cache_depth(s: Seq<SurfaceV>, i: int, d: nat, e: nat)
    requires
        surfaces_wf_but(s, i),
        0 <= i < s.len(),
        levels_below(s, i, d),
        levels_below(s, i, e),
    ensures
        cache_down(s, i, d) == cache_down(s, i, e),
    decreases d, 0nat, 0nat,
{
    lemma_some_level(s, i, d);
    lemma_some_level(s, i, e);
    lemma_cache_one(s, i);
    assert(links_wf(s, i));
    let applied = s[i].cache_applied();
    if let Ok(t) = applied.new_buf_transform() {
        let s2 = s.update(i, SurfaceV { buf_transform: t, ..applied });
        lemma_caches_changed_links(s, s2, s[i].wl.client);
        lemma_levels_kept(s, s2, i, d);
        lemma_levels_kept(s, s2, i, e);
        assert(surface_wf(s2, i));
        lemma_caches_depth(s2, i, applied.cur.subsurfaces, d, e);
    }
}

proof fn lemma_caches_depth(s: Seq<SurfaceV>, i: int, nodes: Seq<SubsurfaceNode>, d: nat, e: nat)
    requires
        surfaces_wf(s),
        0 <= i < s.len(),
        levels_below(s, i, d),
        levels_below(s, i, e),
        d >= 1,
        e >= 1,
        list_wf(s, i, nodes),
    ensures
        caches_down(s, nodes, (d - 1) as nat) == caches_down(s, nodes, (e - 1) as nat),
    decreases d - 1, 1nat, nodes.len(),
{
    if nodes.len() > 0 {
        assert(list_wf(s, i, nodes.drop_last())) by {
            assert forall|k: int| 0 <= k < nodes.drop_last().len() implies is_child(
                s,
                i,
                (#[trigger] nodes.drop_last()[k]).surface as int,
            ) by {
                assert(nodes.drop_last()[k] == nodes[k]);
            }
            assert forall|k: int, l: int| 0 <= k < l < nodes.drop_last().len() implies (#[trigger] nodes.drop_last()[k]).surface
                != (#[trigger] nodes.drop_last()[l]).surface by {
                assert(nodes.drop_last()[k] == nodes[k] && nodes.drop_last()[l] == nodes[l]);
            }
        }
        lemma_caches_depth(s, i, nodes.drop_last(), d, e);
        lemma_caches_down(s, i, nodes.drop_last(), d);
        let o = caches_down(s, nodes.drop_last(), (d - 1) as nat);
        if o.result is Ok {
            let c = nodes[nodes.len() - 1].surface as int;
            assert(is_child(s, i, c));
            lemma_caches_changed_links(s, o.surfaces, s[i].wl.client);
            lemma_levels_kept(s, o.surfaces, i, d);
            lemma_levels_kept(s, o.surfaces, i, e);
            assert(cache_changed(s[c], o.surfaces[c]));
            lemma_one_level_down(o.surfaces, i, c, d);
            lemma_one_level_down(o.surfaces, i, c, e);
            lemma_wf_but(o.surfaces, c);
            law_cache_depth(o.surfaces, c, (d - 1) as nat, (e - 1) as nat);
        }
    }
}

impl Surfaces {
    fn cache_below(&mut self, i: usize, actions: &mut Vec<Action>, Ghost(depth): Ghost<nat>) -> (r: Result<(), Error>)
        requires
            surfaces_wf_but(old(self)@, i as int),
            i < old(self)@.len(),
            levels_below(old(self)@, i as int, depth),
        ensures
            final(self)@ == cache_down(old(self)@, i as int, depth).surfaces,
            final(actions)@ == old(actions)@ + cache_down(old(self)@, i as int, depth).actions,
            r == cache_down(old(self)@, i as int, depth).result,
        decreases depth,
    {
        let ghost s0 = self@;
        let ghost a0 = actions@;
        proof {
            lemma_some_level(s0, i as int, depth);
            lemma_cache_one(s0, i as int);
            assert(links_wf(s0, i as int));
        }
        self.list[i].apply_own_cache(actions);
        let ghost applied = s0[i as int].cache_applied();
        assert(self@ =~= s0.update(i as int, applied));
        let valid = self.list[i].validate_and_update_buf_transform();
        if let Err(e) = valid {
            assert(self@ =~= s0.update(i as int, applied));
            return Err(e);
        }
        let ghost s1 = self@;
        proof {
            assert(s1 =~= s0.update(
                i as int,
                SurfaceV { buf_transform: applied.new_buf_transform()->Ok_0, ..applied },
            ));
            lemma_caches_changed_links(s0, s1, s0[i as int].wl.client);
            lemma_levels_kept(s0, s1, i as int, depth);
            assert(surface_wf(s1, i as int));
        }
        let children = self.children(i);
        let ghost nodes = applied.cur.subsurfaces;
        let ghost a1 = actions@;
        let mut k: usize = 0;
        assert(nodes.take(0) =~= Seq::<SubsurfaceNode>::empty());
        assert(a1 =~= a1 + caches_down(s1, nodes.take(0), (depth - 1) as nat).actions);
        while k < children.len()
            invariant
                k <= children.len(),
                i < s1.len(),
                surfaces_wf(s1),
                depth >= 1,
                levels_below(s1, i as int, depth),
                list_wf(s1, i as int, nodes),
                nodes.len() == children.len(),
                forall|l: int| 0 <= l < nodes.len() ==> children[l] == (#[trigger] nodes[l]).surface,
                ({
                    let o = caches_down(s1, nodes.take(k as int), (depth - 1) as nat);
                    &&& o.result is Ok
                    &&& self@ == o.surfaces
                    &&& actions@ == a1 + o.actions
                }),
                a1 == a0 + s0[i as int].cache_unlocks(),
                a0 == old(actions)@,
                s0 == old(self)@,
                ({
                    let o = caches_down(s1, nodes, (depth - 1) as nat);
                    cache_down(s0, i as int, depth) == (Outcome {
                        surfaces: o.surfaces,
                        actions: s0[i as int].cache_unlocks() + o.actions,
                        result: o.result,
                    })
                }),
            decreases children.len() - k,
        {
            let ghost o = caches_down(s1, nodes.take(k as int), (depth - 1) as nat);
            let c: usize = children[k];
            proof {
                lemma_list_part(s1, i as int, nodes, k as int);
                lemma_caches_down(s1, i as int, nodes.take(k as int), depth);
                lemma_caches_changed_links(s1, o.surfaces, s1[i as int].wl.client);
                lemma_levels_kept(s1, o.surfaces, i as int, depth);
                assert(is_child(s1, i as int, nodes[k as int].surface as int));
                assert(cache_changed(s1[c as int], o.surfaces[c as int]));
                lemma_one_level_down(o.surfaces, i as int, c as int, depth);
                lemma_wf_but(o.surfaces, c as int);
                assert(nodes.take(k + 1).drop_last() =~= nodes.take(k as int));
                assert(nodes.take(k + 1).last() == nodes[k as int]);
            }
            let ghost p = cache_down(o.surfaces, c as int, (depth - 1) as nat);
            let ghost a2 = actions@;
            let r = self.cache_below(c, actions, Ghost((depth - 1) as nat));
            assert(a2 + p.actions =~= a1 + (o.actions + p.actions));
            if r.is_err() {
                proof {
                    lemma_error_stays(s1, nodes, k + 1, (depth - 1) as nat);
                    assert(actions@ =~= a0 + (s0[i as int].cache_unlocks() + (o.actions + p.actions)));
                }
                return r;
            }
            k = k + 1;
        }
        proof {
            assert(nodes.take(k as int) =~= nodes);
            let o = caches_down(s1, nodes, (depth - 1) as nat);
            assert(actions@ =~= a0 + (s0[i as int].cache_unlocks() + o.actions));
            assert(o.result->Ok_0 == ());
        }
        Ok(())
    }

    /// The subsurfaces that a surface shows, from the lowest up.
    fn children(&self, i: usize) -> (r: Vec<usize>)
        requires
            i < self@.len(),
        ensures
            r@.len() == self@[i as int].cur.subsurfaces.len(),
            forall|l: int| 0 <= l < r@.len() ==> #[trigger] r@[l] == self@[i as int].cur.subsurfaces[l].surface,
    {
        let surface = &self.list[i];
        assert(surface@ == self@[i as int]);
        let mut children: Vec<usize> = Vec::new();
        let mut k: usize = 0;
        while k < surface.cur.subsurfaces.len()
            invariant
                k <= surface.cur.subsurfaces.len(),
                children@.len() == k,
                forall|l: int| 0 <= l < k ==> #[trigger] children@[l] == surface.cur.subsurfaces@[l].surface,
            decreases surface.cur.subsurfaces.len() - k,
        {
            children.push(surface.cur.subsurfaces[k].surface);
            k = k + 1;
        }
        children
    }

    /// Lets the cached state of a surface and of everything below it take effect.
    pub fn apply_cache(&mut self, i: usize, actions: &mut Vec<Action>) -> (r: Result<(), Error>)
        requires
            surfaces_wf_but(old(self)@, i as int),
            acyclic(old(self)@),
            i < old(self)@.len(),
        ensures
            final(self)@ == cache_applied(old(self)@, i as int).surfaces,
            final(actions)@ == old(actions)@ + cache_applied(old(self)@, i as int).actions,
            r == cache_applied(old(self)@, i as int).result,
            caches_changed(old(self)@, final(self)@, old(self)@[i as int].wl.client),
            r is Ok ==> surfaces_wf(final(self)@),
            acyclic(final(self)@),
    {
        proof {
            lemma_levels(self@, i as int);
            lemma_cache_down(self@, i as int, levels(self@));
            let o = cache_applied(self@, i as int);
            lemma_caches_changed_links(self@, o.surfaces, self@[i as int].wl.client);
            let r = choose|r: Ranking| ranked(self@, r);
            lemma_same_links(self@, o.surfaces, r);
        }
        self.cache_below(i, actions, Ghost(levels(self@)))
    }
}

/// The first part of a list of subsurfaces names subsurfaces only, each once.
proof fn lemma_list_part(s: Seq<SurfaceV>, i: int, nodes: Seq<SubsurfaceNode>, k: int)
    requires
        list_wf(s, i, nodes),
        0 <= k <= nodes.len(),
    ensures
        list_wf(s, i, nodes.take(k)),
{
    assert forall|l: int| 0 <= l < k implies is_child(s, i, (#[trigger] nodes.take(k)[l]).surface as int) by {
        assert(nodes.take(k)[l] == nodes[l]);
    }
    assert forall|l: int, m: int| 0 <= l < m < k implies (#[trigger] nodes.take(k)[l]).surface != (#[trigger] nodes.take(
        k,
    )[m]).surface by {
        assert(nodes.take(k)[l] == nodes[l] && nodes.take(k)[m] == nodes[m]);
    }
}

} // verus!
