//! Which surface the pointer is on.
use vstd::prelude::*;
use crate::focus_stack::FocusStack;
use crate::globals::compositor::{SubsurfaceNode, SurfaceRole, SurfaceRoleV, SurfaceV};
use crate::globals::surfaces::{
    acyclic, is_child, lemma_levels, lemma_one_level_down, lemma_some_level, levels, levels_below, list_wf, surface_wf,
    surfaces_wf, Surfaces,
};
use crate::globals::xdg_shell::SpecificRole;
use crate::protocol::Fixed;
use crate::state::{focus_wf, shown_toplevel};

verus! {

/// A point on a surface, in units of 1/256 pixel.
#[derive(Debug, Clone, Copy, PartialEq, Eq, Structural)]
pub struct Hit {
    pub surf: usize,
    pub x: i64,
    pub y: i64,
}

/// The surface that the pointer is on.
#[derive(Debug, Clone, Copy, PartialEq, Eq, Structural)]
pub struct SurfaceUnderCursor {
    pub sx: i64,
    pub sy: i64,
    pub surf: usize,
    pub toplevel_idx: usize,
}

/// A coordinate relative to something that is `by` pixels further.
pub open spec fn shifted(x: i64, by: i32) -> i64 {
    x.wrapping_sub((by * 256) as i64)
}

fn shift(x: i64, by: i32) -> (r: i64)
    ensures
        r == shifted(x, by),
{
    x.wrapping_sub(by as i64 * 256)
}

/// The pixel that is nearest to a coordinate that is not negative.
pub open spec fn nearest_pixel(x: i64) -> i32 {
    let p = (x + 128) / 256;
    if p > i32::MAX {
        i32::MAX
    } else {
        p as i32
    }
}

fn to_pixel(x: i64) -> (r: i32)
    requires
        0 <= x < 0x100_0000_0000,
    ensures
        r == nearest_pixel(x),
{
    let p: i64 = (x + 128) / 256;
    if p > i32::MAX as i64 {
        i32::MAX
    } else {
        p as i32
    }
}

/// Whether a point is on a surface itself, in the part of it that takes input.
pub open spec fn takes_input_at(s: SurfaceV, x: i64, y: i64) -> bool {
    match s.buf_transform {
        None => false,
        Some(t) => {
            &&& 0 <= x < t.dst_width * 256
            &&& 0 <= y < t.dst_height * 256
            &&& s.cur.input_region matches Some(region) ==> region.contains(
                (nearest_pixel(x) as int, nearest_pixel(y) as int),
            )
        },
    }
}

/// How far a popup is from the window that it belongs to.
pub open spec fn popup_offset(s: Seq<SurfaceV>, i: int, p: int) -> (i32, i32) {
    let parent = s[i].xdg()->0.effective_window_geometry->0;
    let own = s[p].xdg()->0.effective_window_geometry->0;
    let popup = s[p].xdg()->0.specific->Popup_0;
    (popup.x.wrapping_add(parent.x).wrapping_sub(own.x), popup.y.wrapping_add(parent.y).wrapping_sub(own.y))
}

/// The popup that is shown for the window that surface `i` is.
pub open spec fn popup_of(s: Seq<SurfaceV>, i: int) -> Option<usize> {
    match s[i].role {
        SurfaceRoleV::Xdg(xdg) => xdg.popup,
        _ => None,
    }
}

/// What is at a point of surface `i`, `depth` levels down: first its popup, then its subsurfaces from
/// the top one down, then the surface itself.
pub open spec fn hit_down(s: Seq<SurfaceV>, i: int, x: i64, y: i64, depth: nat) -> Option<Hit>
    decreases depth, 0nat, 0nat,
{
    if depth == 0 {
        None
    } else {
        let on_popup = match popup_of(s, i) {
            None => None,
            Some(p) => {
                let by = popup_offset(s, i, p as int);
                hit_down(s, p as int, shifted(x, by.0), shifted(y, by.1), (depth - 1) as nat)
            },
        };
        if on_popup is Some {
            on_popup
        } else {
            let on_sub = hits_down(s, s[i].cur.subsurfaces, x, y, (depth - 1) as nat);
            if on_sub is Some {
                on_sub
            } else if takes_input_at(s[i], x, y) {
                Some(Hit { surf: i as usize, x, y })
            } else {
                None
            }
        }
    }
}

/// What is at a point of the subsurfaces in a list, from the last one down.
pub open spec fn hits_down(s: Seq<SurfaceV>, nodes: Seq<SubsurfaceNode>, x: i64, y: i64, depth: nat) -> Option<Hit>
    decreases depth, 1nat, nodes.len(),
{
    if nodes.len() == 0 {
        None
    } else {
        let n = nodes.last();
        let on_last = hit_down(s, n.surface as int, shifted(x, n.position.0), shifted(y, n.position.1), depth);
        if on_last is Some {
            on_last
        } else {
            hits_down(s, nodes.drop_last(), x, y, depth)
        }
    }
}

/// Whether every window that has a popup has a geometry, and the popup too.
pub open spec fn popups_placed(s: Seq<SurfaceV>) -> bool {
    forall|i: int| 0 <= i < s.len() && (#[trigger] popup_of(s, i)) is Some ==> popup_placed(s, i)
}

/// Whether the window that surface `i` is, and its popup, have geometries.
pub open spec fn popup_placed(s: Seq<SurfaceV>, i: int) -> bool {
    &&& s[i].xdg()->0.effective_window_geometry is Some
    &&& s[popup_of(s, i)->0 as int].xdg()->0.effective_window_geometry is Some
}

/// The window in a stack that is at a point of the screen, from the top one down, and what of it.
pub open spec fn stack_hit(stack: Seq<usize>, s: Seq<SurfaceV>, x: i64, y: i64) -> Option<SurfaceUnderCursor>
    decreases stack.len(),
{
    if stack.len() == 0 {
        None
    } else {
        let i = stack.last() as int;
        let xdg = s[i].xdg()->0;
        let t = xdg.specific->Toplevel_0;
        let on_top = match xdg.effective_window_geometry {
            None => None,
            Some(g) => hit_down(
                s,
                i,
                shifted(x, t.x.wrapping_sub(g.x)),
                shifted(y, t.y.wrapping_sub(g.y)),
                levels(s),
            ),
        };
        match on_top {
            Some(h) => Some(
                SurfaceUnderCursor { sx: h.x, sy: h.y, surf: h.surf, toplevel_idx: (stack.len() - 1) as usize },
            ),
            None => stack_hit(stack.drop_last(), s, x, y),
        }
    }
}

impl Surfaces {
    /// Whether every window that has a popup has a geometry, and the popup too.
    pub fn popups_have_places(&self) -> (r: bool)
        requires
            surfaces_wf(self@),
        ensures
            r == popups_placed(self@),
    {
        let n: usize = self.len();
        let mut i: usize = 0;
        while i < n
            invariant
                i <= n,
                n == self@.len(),
                surfaces_wf(self@),
                forall|j: int| 0 <= j < i && (#[trigger] popup_of(self@, j)) is Some ==> popup_placed(self@, j),
            decreases n - i,
        {
            assert(surface_wf(self@, i as int));
            assert(self.list@[i as int]@ == self@[i as int]);
            if let SurfaceRole::Xdg(xdg) = &self.list[i].role {
                if let Some(p) = xdg.popup {
                    let own = match self.get(p).get_xdg_surface() {
                        Some(popup_xdg) => popup_xdg.effective_window_geometry.is_some(),
                        None => false,
                    };
                    if xdg.effective_window_geometry.is_none() || !own {
                        assert(popup_of(self@, i as int) is Some);
                        assert(!popup_placed(self@, i as int));
                        return false;
                    }
                }
            }
            i = i + 1;
        }
        true
    }

    fn takes_input(&self, i: usize, x: i64, y: i64) -> (r: bool)
        requires
            i < self@.len(),
        ensures
            r == takes_input_at(self@[i as int], x, y),
    {
        let surface = self.get(i);
        match surface.buf_transform() {
            None => false,
            Some(t) => {
                if x < 0 || y < 0 || x >= t.dst_width() as i64 * 256 || y >= t.dst_height() as i64 * 256 {
                    return false;
                }
                match &surface.cur.input_region {
                    None => true,
                    Some(region) => region.contains_point(to_pixel(x), to_pixel(y)),
                }
            },
        }
    }

    fn hit_below(&self, i: usize, x: i64, y: i64, Ghost(depth): Ghost<nat>) -> (r: Option<Hit>)
        requires
            surfaces_wf(self@),
            popups_placed(self@),
            i < self@.len(),
            levels_below(self@, i as int, depth),
        ensures
            r == hit_down(self@, i as int, x, y, depth),
        decreases depth,
    {
        proof {
            lemma_some_level(self@, i as int, depth);
            assert(surface_wf(self@, i as int));
        }
        let surface = &self.list[i];
        assert(surface@ == self@[i as int]);
        if let SurfaceRole::Xdg(xdg) = &surface.role {
            if let Some(p) = xdg.popup {
                proof {
                    assert(popup_of(self@, i as int) == Some(p));
                    assert(popup_placed(self@, i as int));
                    lemma_one_level_down(self@, i as int, p as int, depth);
                    assert(self.list@[p as int]@ == self@[p as int]);
                }
                let parent_geom = xdg.effective_window_geometry.unwrap();
                if let SurfaceRole::Xdg(popup_xdg) = &self.list[p].role {
                    if let SpecificRole::Popup(popup) = &popup_xdg.specific {
                        let own = popup_xdg.effective_window_geometry.unwrap();
                        let dx: i32 = popup.x.wrapping_add(parent_geom.x).wrapping_sub(own.x);
                        let dy: i32 = popup.y.wrapping_add(parent_geom.y).wrapping_sub(own.y);
                        let h = self.hit_below(p, shift(x, dx), shift(y, dy), Ghost((depth - 1) as nat));
                        if h.is_some() {
                            return h;
                        }
                    }
                }
            }
        }
        let ghost nodes = surface.cur.subsurfaces@;
        let mut k: usize = surface.cur.subsurfaces.len();
        assert(nodes.take(k as int) =~= nodes);
        while k > 0
            invariant
                k <= nodes.len(),
                nodes == surface.cur.subsurfaces@,
                surfaces_wf(self@),
                popups_placed(self@),
                i < self@.len(),
                depth >= 1,
                levels_below(self@, i as int, depth),
                list_wf(self@, i as int, nodes),
                hits_down(self@, nodes, x, y, (depth - 1) as nat) == hits_down(
                    self@,
                    nodes.take(k as int),
                    x,
                    y,
                    (depth - 1) as nat,
                ),
                ({
                    let on_sub = hits_down(self@, nodes, x, y, (depth - 1) as nat);
                    hit_down(self@, i as int, x, y, depth) == if on_sub is Some {
                        on_sub
                    } else if takes_input_at(self@[i as int], x, y) {
                        Some(Hit { surf: i, x, y })
                    } else {
                        None
                    }
                }),
            decreases k,
        {
            proof {
                assert(nodes.take(k as int).drop_last() =~= nodes.take(k - 1));
                assert(nodes.take(k as int).last() == nodes[k - 1]);
                assert(is_child(self@, i as int, nodes[k - 1].surface as int));
                lemma_one_level_down(self@, i as int, nodes[k - 1].surface as int, depth);
            }
            k = k - 1;
            let node = surface.cur.subsurfaces[k];
            let h = self.hit_below(
                node.surface,
                shift(x, node.position.0),
                shift(y, node.position.1),
                Ghost((depth - 1) as nat),
            );
            if h.is_some() {
                return h;
            }
        }
        if self.takes_input(i, x, y) {
            Some(Hit { surf: i, x, y })
        } else {
            None
        }
    }
}

impl FocusStack {
    /// The surface at a point of the screen.
    pub fn surface_at(&self, surfaces: &Surfaces, x: Fixed, y: Fixed) -> (r: Option<SurfaceUnderCursor>)
        requires
            surfaces_wf(surfaces@),
            acyclic(surfaces@),
            popups_placed(surfaces@),
            focus_wf(self@, surfaces@),
        ensures
            r == stack_hit(self@, surfaces@, x.0 as i64, y.0 as i64),
    {
        let px: i64 = x.0 as i64;
        let py: i64 = y.0 as i64;
        let stack = self.inner();
        let ghost s = surfaces@;
        let mut k: usize = stack.len();
        assert(stack@.take(k as int) =~= stack@);
        while k > 0
            invariant
                k <= stack.len(),
                stack@ == self@,
                s == surfaces@,
                surfaces_wf(s),
                acyclic(s),
                popups_placed(s),
                focus_wf(self@, s),
                px == x.0,
                py == y.0,
                stack_hit(stack@, s, px, py) == stack_hit(stack@.take(k as int), s, px, py),
            decreases k,
        {
            proof {
                assert(stack@.take(k as int).drop_last() =~= stack@.take(k - 1));
                assert(stack@.take(k as int).last() == stack@[k - 1]);
                assert(shown_toplevel(s, stack@[k - 1] as int));
            }
            k = k - 1;
            let i: usize = stack[k];
            proof {
                lemma_levels(s, i as int);
                assert(surfaces.list@[i as int]@ == s[i as int]);
            }
            if let SurfaceRole::Xdg(xdg) = &surfaces.list[i].role {
                if let SpecificRole::Toplevel(t) = &xdg.specific {
                    if let Some(g) = xdg.effective_window_geometry {
                        let h = surfaces.hit_below(
                            i,
                            shift(px, t.x.wrapping_sub(g.x)),
                            shift(py, t.y.wrapping_sub(g.y)),
                            Ghost(levels(s)),
                        );
                        if let Some(h) = h {
                            return Some(SurfaceUnderCursor { sx: h.x, sy: h.y, surf: h.surf, toplevel_idx: k });
                        }
                    }
                }
            }
        }
        None
    }
}

/// A point that is found is on the surface that is found, in the part of it that takes input.
pub proof fn law_hit_takes_input(s: Seq<SurfaceV>, i: int, x: i64, y: i64, depth: nat)
    requires
        surfaces_wf(s),
        0 <= i < s.len() <= usize::MAX,
    ensures
        hit_down(s, i, x, y, depth) matches Some(h) ==> h.surf < s.len() && takes_input_at(s[h.surf as int], h.x, h.y),
    decreases depth, 0nat, 0nat,
{
    if depth > 0 {
        assert(surface_wf(s, i));
        if let Some(p) = popup_of(s, i) {
            let by = popup_offset(s, i, p as int);
            law_hit_takes_input(s, p as int, shifted(x, by.0), shifted(y, by.1), (depth - 1) as nat);
        }
        lemma_hits_take_input(s, i, s[i].cur.subsurfaces, x, y, (depth - 1) as nat);
    }
}

proof fn lemma_hits_take_input(s: Seq<SurfaceV>, i: int, nodes: Seq<SubsurfaceNode>, x: i64, y: i64, depth: nat)
    requires
        surfaces_wf(s),
        0 <= i < s.len() <= usize::MAX,
        forall|k: int| 0 <= k < nodes.len() ==> is_child(s, i, (#[trigger] nodes[k]).surface as int),
    ensures
        hits_down(s, nodes, x, y, depth) matches Some(h) ==> h.surf < s.len() && takes_input_at(
            s[h.surf as int],
            h.x,
            h.y,
        ),
    decreases depth, 1nat, nodes.len(),
{
    if nodes.len() > 0 {
        let n = nodes[nodes.len() - 1];
        assert(is_child(s, i, n.surface as int));
        law_hit_takes_input(s, n.surface as int, shifted(x, n.position.0), shifted(y, n.position.1), depth);
        assert forall|k: int| 0 <= k < nodes.drop_last().len() implies is_child(
            s,
            i,
            (#[trigger] nodes.drop_last()[k]).surface as int,
        ) by {
            assert(nodes.drop_last()[k] == nodes[k]);
        }
        lemma_hits_take_input(s, i, nodes.drop_last(), x, y, depth);
    }
}

} // verus!
