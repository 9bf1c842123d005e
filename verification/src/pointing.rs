//! What is in front where the pointer is.
use vstd::prelude::*;
use crate::depth::law_hit_depth;
use crate::globals::compositor::{SubsurfaceNode, SurfaceRoleV, SurfaceV};
use crate::globals::surfaces::{
    acyclic, is_child, lemma_levels, lemma_one_level_down, lemma_some_level, levels, levels_below, list_wf, surface_wf,
    surfaces_wf, up,
};
use crate::globals::xdg_shell::SpecificRole;
use crate::hit::{
    hit_down, hits_down, nearest_pixel, popup_of, popup_offset, popup_placed, popups_placed, shifted, stack_hit, takes_input_at, Hit,
};
use crate::state::{focus_wf, shown_toplevel};

verus! {

/// What is hit of surface `i` and of all that belongs to it, at a point that is given relative to something of
/// which surface `i` is `dx` pixels to the right and `dy` pixels down.
pub open spec fn hit_of(s: Seq<SurfaceV>, i: int, x: i64, y: i64, dx: i32, dy: i32) -> Option<Hit> {
    hit_down(s, i, x.wrapping_sub((dx * 256) as i64), y.wrapping_sub((dy * 256) as i64), levels(s))
}

/// What is hit of the popup of surface `i`, if there is one. The upper left corner of its geometry is as far from
/// that of its parent as the popup was placed.
pub open spec fn popup_hit(s: Seq<SurfaceV>, i: int, x: i64, y: i64) -> Option<Hit> {
    match s[i].role {
        SurfaceRoleV::Xdg(xdg) => match (xdg.popup, xdg.effective_window_geometry) {
            (Some(p), Some(parent)) => match s[p as int].role {
                SurfaceRoleV::Xdg(popup_xdg) => match (popup_xdg.specific, popup_xdg.effective_window_geometry) {
                    (SpecificRole::Popup(popup), Some(own)) => hit_of(
                        s,
                        p as int,
                        x,
                        y,
                        popup.x.wrapping_add(parent.x).wrapping_sub(own.x),
                        popup.y.wrapping_add(parent.y).wrapping_sub(own.y),
                    ),
                    _ => None,
                },
                _ => None,
            },
            _ => None,
        },
        _ => None,
    }
}

/// What is hit of the subsurface at a place of a list.
pub open spec fn node_hit(s: Seq<SurfaceV>, n: SubsurfaceNode, x: i64, y: i64) -> Option<Hit> {
    hit_of(s, n.surface as int, x, y, n.position.0, n.position.1)
}

/// What is hit of the window that surface `i` is, with all that belongs to it. The upper left corner of its
/// geometry is where the window is.
pub open spec fn window_hit(s: Seq<SurfaceV>, i: int, x: i64, y: i64) -> Option<Hit> {
    match s[i].role {
        SurfaceRoleV::Xdg(xdg) => match (xdg.specific, xdg.effective_window_geometry) {
            (SpecificRole::Toplevel(t), Some(g)) => hit_of(
                s,
                i,
                x,
                y,
                t.x.wrapping_sub(g.x),
                t.y.wrapping_sub(g.y),
            ),
            _ => None,
        },
        _ => None,
    }
}

/// The window that is found at a point is the topmost one that is hit there: of no window above it anything is
/// hit. Nothing is found only where no window is hit.
pub proof fn law_topmost_window_is_found(stack: Seq<usize>, s: Seq<SurfaceV>, x: i64, y: i64)
    requires
        surfaces_wf(s),
        focus_wf(stack, s),
        stack.len() <= usize::MAX,
    ensures
        match stack_hit(stack, s, x, y) {
            Some(found) => {
                &&& found.toplevel_idx < stack.len()
                &&& window_hit(s, stack[found.toplevel_idx as int] as int, x, y) == Some(
                    Hit { surf: found.surf, x: found.sx, y: found.sy },
                )
                &&& forall|k: int|
                    found.toplevel_idx < k < stack.len() ==> window_hit(s, #[trigger] stack[k] as int, x, y) is None
            },
            None => forall|k: int| 0 <= k < stack.len() ==> window_hit(s, #[trigger] stack[k] as int, x, y) is None,
        },
{
    assert(stack =~= stack.take(stack.len() as int));
    lemma_stack_hit_is_topmost(stack, stack, s, x, y);
}

proof fn lemma_stack_hit_is_topmost(part: Seq<usize>, stack: Seq<usize>, s: Seq<SurfaceV>, x: i64, y: i64)
    requires
        part.len() <= stack.len() <= usize::MAX,
        part == stack.take(part.len() as int),
        focus_wf(stack, s),
    ensures
        match stack_hit(part, s, x, y) {
            Some(found) => {
                &&& found.toplevel_idx < part.len()
                &&& window_hit(s, stack[found.toplevel_idx as int] as int, x, y) == Some(
                    Hit { surf: found.surf, x: found.sx, y: found.sy },
                )
                &&& forall|k: int|
                    found.toplevel_idx < k < part.len() ==> window_hit(s, #[trigger] stack[k] as int, x, y) is None
            },
            None => forall|k: int| 0 <= k < part.len() ==> window_hit(s, #[trigger] stack[k] as int, x, y) is None,
        },
    decreases part.len(),
{
    if part.len() > 0 {
        let k = part.len() - 1;
        assert(part.last() == stack[k]);
        assert(shown_toplevel(s, stack[k] as int));
        assert(part.drop_last() =~= stack.take(k));
        lemma_stack_hit_is_topmost(part.drop_last(), stack, s, x, y);
    }
}

/// Whether a point is on the buffer of a surface, where the surface takes input: if there is an input region, it
/// has the pixel nearest to the point.
pub open spec fn covers(s: SurfaceV, x: i64, y: i64) -> bool {
    &&& s.buf_transform matches Some(t) && 0 <= x < t.dst_width * 256 && 0 <= y < t.dst_height * 256
    &&& s.cur.input_region matches Some(region) ==> exists|px: int, py: int| #[trigger]
        region.contains((px, py)) && is_nearest(px, x as int) && is_nearest(py, y as int)
}

/// Whether a pixel is the one nearest to a coordinate, as far as there are pixels.
pub open spec fn is_nearest(p: int, x: int) -> bool {
    if x + 128 < 0x80_0000_0000 {
        -128 <= x - 256 * p < 128
    } else {
        p == i32::MAX
    }
}

/// In front of a surface and its subsurfaces is its popup.
pub proof fn law_popup_is_in_front(s: Seq<SurfaceV>, i: int, x: i64, y: i64)
    requires
        surfaces_wf(s),
        acyclic(s),
        popups_placed(s),
        0 <= i < s.len(),
        popup_hit(s, i, x, y) is Some,
    ensures
        hit_of(s, i, x, y, 0, 0) == popup_hit(s, i, x, y),
{
    lemma_popup_hit(s, i, x, y);
}

/// In front of a surface are its subsurfaces, the last of them in front of the others.
pub proof fn law_last_subsurface_is_in_front(s: Seq<SurfaceV>, i: int, k: int, x: i64, y: i64)
    requires
        surfaces_wf(s),
        acyclic(s),
        popups_placed(s),
        0 <= i < s.len(),
        popup_hit(s, i, x, y) is None,
        0 <= k < s[i].cur.subsurfaces.len(),
        node_hit(s, s[i].cur.subsurfaces[k], x, y) is Some,
        forall|j: int|
            k < j < s[i].cur.subsurfaces.len() ==> node_hit(s, #[trigger] s[i].cur.subsurfaces[j], x, y) is None,
    ensures
        hit_of(s, i, x, y, 0, 0) == node_hit(s, s[i].cur.subsurfaces[k], x, y),
{
    lemma_popup_hit(s, i, x, y);
    lemma_nodes_found_below(s, i, x, y);
    lemma_last_node_in_front(s, s[i].cur.subsurfaces, k, x, y);
}

/// Where nothing in front of a surface is hit, the surface itself is hit if it is there at all.
pub proof fn law_surface_is_hit_where_nothing_is_in_front(s: Seq<SurfaceV>, i: int, x: i64, y: i64)
    requires
        surfaces_wf(s),
        acyclic(s),
        popups_placed(s),
        0 <= i < s.len(),
        popup_hit(s, i, x, y) is None,
        forall|j: int|
            0 <= j < s[i].cur.subsurfaces.len() ==> node_hit(s, #[trigger] s[i].cur.subsurfaces[j], x, y) is None,
    ensures
        covers(s[i], x, y) ==> hit_of(s, i, x, y, 0, 0) == Some(Hit { surf: i as usize, x, y }),
        !covers(s[i], x, y) ==> hit_of(s, i, x, y, 0, 0) is None,
{
    lemma_popup_hit(s, i, x, y);
    lemma_nodes_found_below(s, i, x, y);
    lemma_last_node_in_front(s, s[i].cur.subsurfaces, -1, x, y);
    lemma_covers(s[i], x, y);
}

proof fn lemma_covers(s: SurfaceV, x: i64, y: i64)
    ensures
        covers(s, x, y) == takes_input_at(s, x, y),
{
    if let Some(region) = s.cur.input_region {
        if x >= 0 && y >= 0 {
            let px = nearest_pixel(x) as int;
            let py = nearest_pixel(y) as int;
            assert(is_nearest(px, x as int));
            assert(is_nearest(py, y as int));
            if takes_input_at(s, x, y) {
                assert(region.contains((px, py)));
            }
            if covers(s, x, y) {
                let (qx, qy) = choose|qx: int, qy: int| #[trigger]
                    region.contains((qx, qy)) && is_nearest(qx, x as int) && is_nearest(qy, y as int);
                assert(qx == px && qy == py);
            }
        }
    }
}

/// What is hit of a surface, by what is hit of what is in front of it.
proof fn lemma_popup_hit(s: Seq<SurfaceV>, i: int, x: i64, y: i64)
    requires
        surfaces_wf(s),
        acyclic(s),
        popups_placed(s),
        0 <= i < s.len(),
    ensures
        levels(s) >= 1,
        list_wf(s, i, s[i].cur.subsurfaces),
        levels_below(s, i, levels(s)),
        ({
            let on_sub = hits_down(s, s[i].cur.subsurfaces, x, y, (levels(s) - 1) as nat);
            hit_of(s, i, x, y, 0, 0) == if popup_hit(s, i, x, y) is Some {
                popup_hit(s, i, x, y)
            } else if on_sub is Some {
                on_sub
            } else if takes_input_at(s[i], x, y) {
                Some(Hit { surf: i as usize, x, y })
            } else {
                None
            }
        }),
{
    let d = levels(s);
    lemma_levels(s, i);
    lemma_some_level(s, i, d);
    assert(surface_wf(s, i));
    assert(x.wrapping_sub(0) == x && y.wrapping_sub(0) == y);
    if let Some(p) = popup_of(s, i) {
        assert(popup_placed(s, i));
        assert(up(s, p as int) == Some(i));
        lemma_one_level_down(s, i, p as int, d);
        lemma_levels(s, p as int);
        let by = popup_offset(s, i, p as int);
        law_hit_depth(s, p as int, shifted(x, by.0), shifted(y, by.1), (d - 1) as nat, d);
    }
}

/// Whether what is hit of a subsurface is found one level down.
spec fn found_below(s: Seq<SurfaceV>, n: SubsurfaceNode, x: i64, y: i64) -> bool {
    hit_down(s, n.surface as int, shifted(x, n.position.0), shifted(y, n.position.1), (levels(s) - 1) as nat) == node_hit(
        s,
        n,
        x,
        y,
    )
}

proof fn lemma_found_below(s: Seq<SurfaceV>, i: int, n: SubsurfaceNode, x: i64, y: i64)
    requires
        surfaces_wf(s),
        acyclic(s),
        0 <= i < s.len(),
        levels_below(s, i, levels(s)),
        is_child(s, i, n.surface as int),
    ensures
        found_below(s, n, x, y),
{
    let d = levels(s);
    let c = n.surface as int;
    lemma_one_level_down(s, i, c, d);
    lemma_levels(s, c);
    law_hit_depth(s, c, shifted(x, n.position.0), shifted(y, n.position.1), (d - 1) as nat, d);
}

/// What is hit of the subsurfaces in a list where the one at place `k` is hit and none after it; `k` is -1 where
/// none is hit.
proof fn lemma_last_node_in_front(s: Seq<SurfaceV>, nodes: Seq<SubsurfaceNode>, k: int, x: i64, y: i64)
    requires
        forall|j: int| 0 <= j < nodes.len() ==> found_below(s, #[trigger] nodes[j], x, y),
        -1 <= k < nodes.len(),
        k >= 0 ==> node_hit(s, nodes[k], x, y) is Some,
        forall|j: int| k < j < nodes.len() ==> node_hit(s, #[trigger] nodes[j], x, y) is None,
    ensures
        k >= 0 ==> hits_down(s, nodes, x, y, (levels(s) - 1) as nat) == node_hit(s, nodes[k], x, y),
        k < 0 ==> hits_down(s, nodes, x, y, (levels(s) - 1) as nat) is None,
    decreases nodes.len(),
{
    if nodes.len() > 0 {
        let rest = nodes.drop_last();
        let n = nodes[nodes.len() - 1];
        assert(found_below(s, n, x, y));
        if k < rest.len() {
            assert forall|j: int| 0 <= j < rest.len() implies found_below(s, #[trigger] rest[j], x, y) by {
                assert(rest[j] == nodes[j]);
            }
            assert forall|j: int| k < j < rest.len() implies node_hit(s, #[trigger] rest[j], x, y) is None by {
                assert(rest[j] == nodes[j]);
            }
            assert(node_hit(s, n, x, y) is None);
            lemma_last_node_in_front(s, rest, k, x, y);
        }
    }
}

proof fn lemma_nodes_found_below(s: Seq<SurfaceV>, i: int, x: i64, y: i64)
    requires
        surfaces_wf(s),
        acyclic(s),
        0 <= i < s.len(),
        levels_below(s, i, levels(s)),
    ensures
        forall|j: int| 0 <= j < s[i].cur.subsurfaces.len() ==> found_below(s, #[trigger] s[i].cur.subsurfaces[j], x, y),
{
    let nodes = s[i].cur.subsurfaces;
    assert(surface_wf(s, i));
    assert forall|j: int| 0 <= j < nodes.len() implies found_below(s, #[trigger] nodes[j], x, y) by {
        assert(is_child(s, i, nodes[j].surface as int));
        lemma_found_below(s, i, nodes[j], x, y);
    }
}

} // verus!
