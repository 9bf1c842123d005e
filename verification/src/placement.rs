//! Where surfaces and windows are, and how large.
use vstd::prelude::*;
use crate::depth::{law_box_depth, law_pos_depth, law_sync_depth};
use crate::globals::compositor::{SubsurfaceNode, SurfaceRoleV, SurfaceV};
use crate::globals::surfaces::{
    acyclic, bounding_box, boxes_down, effective_is_sync, is_child, lemma_levels, lemma_one_level_down,
    lemma_one_level_up, lemma_some_level, levels, levels_below, list_wf, node_of, ranked, surface_pos, surface_wf,
    surfaces_wf, up, Ranking,
};
use crate::globals::xdg_shell::{Box32, SpecificRole, WindowGeometry, XdgSurfaceRole};

verus! {

/// Whether a box has another one inside that is moved by some distance.
pub open spec fn box_holds(outer: Box32, inner: Box32, by: (i32, i32)) -> bool {
    &&& outer.x1 <= by.0.wrapping_add(inner.x1)
    &&& outer.y1 <= by.1.wrapping_add(inner.y1)
    &&& outer.x2 >= by.0.wrapping_add(inner.x2)
    &&& outer.y2 >= by.1.wrapping_add(inner.y2)
}

/// Whether a box has a surface of some size and all of its subsurfaces inside.
pub open spec fn box_holds_all(outer: Box32, s: Seq<SurfaceV>, base: Box32, nodes: Seq<SubsurfaceNode>) -> bool {
    &&& box_holds(outer, base, (0, 0))
    &&& forall|k: int|
        0 <= k < nodes.len() && bounding_box(s, (#[trigger] nodes[k]).surface as int) is Some ==> box_holds(
            outer,
            bounding_box(s, nodes[k].surface as int)->0,
            nodes[k].position,
        )
}

/// The box of a surface with a buffer is the smallest that holds the surface, from its upper left corner on, and the
/// boxes of all its subsurfaces where they are placed. A surface without a buffer has none.
pub proof fn law_box_is_the_smallest(s: Seq<SurfaceV>, i: int, other: Box32)
    requires
        surfaces_wf(s),
        acyclic(s),
        0 <= i < s.len(),
    ensures
        bounding_box(s, i) is Some == s[i].buf_transform is Some,
        s[i].buf_transform matches Some(t) ==> {
            let base = Box32 { x1: 0, y1: 0, x2: t.dst_width as i32, y2: t.dst_height as i32 };
            let nodes = s[i].cur.subsurfaces;
            &&& box_holds_all(bounding_box(s, i)->0, s, base, nodes)
            &&& box_holds_all(other, s, base, nodes) ==> box_holds(other, bounding_box(s, i)->0, (0, 0))
        },
{
    let d = levels(s);
    lemma_levels(s, i);
    lemma_some_level(s, i, d);
    assert(surface_wf(s, i));
    assert(list_wf(s, i, s[i].cur.subsurfaces));
    if let Some(t) = s[i].buf_transform {
        let base = Box32 { x1: 0, y1: 0, x2: t.dst_width as i32, y2: t.dst_height as i32 };
        lemma_smallest(s, i, s[i].cur.subsurfaces, base, other);
    }
}

proof fn lemma_smallest(s: Seq<SurfaceV>, i: int, nodes: Seq<SubsurfaceNode>, base: Box32, other: Box32)
    requires
        surfaces_wf(s),
        acyclic(s),
        0 <= i < s.len(),
        levels(s) >= 1,
        levels_below(s, i, levels(s)),
        forall|k: int| 0 <= k < nodes.len() ==> is_child(s, i, (#[trigger] nodes[k]).surface as int),
    ensures
        ({
            let b = boxes_down(s, nodes, base, (levels(s) - 1) as nat);
            &&& box_holds_all(b, s, base, nodes)
            &&& box_holds_all(other, s, base, nodes) ==> box_holds(other, b, (0, 0))
        }),
    decreases nodes.len(),
{
    if nodes.len() > 0 {
        let d = levels(s);
        let rest = nodes.drop_last();
        let n = nodes[nodes.len() - 1];
        let c = n.surface as int;
        assert(is_child(s, i, c));
        lemma_one_level_down(s, i, c, d);
        lemma_levels(s, c);
        law_box_depth(s, c, (d - 1) as nat, d);
        assert forall|k: int| 0 <= k < rest.len() implies is_child(s, i, (#[trigger] rest[k]).surface as int) by {
            assert(rest[k] == nodes[k]);
        }
        lemma_smallest(s, i, rest, base, other);
        let before = boxes_down(s, rest, base, (d - 1) as nat);
        let b = boxes_down(s, nodes, base, (d - 1) as nat);
        assert forall|k: int|
            0 <= k < nodes.len() && bounding_box(s, (#[trigger] nodes[k]).surface as int) is Some implies box_holds(
            b,
            bounding_box(s, nodes[k].surface as int)->0,
            nodes[k].position,
        ) by {
            if k < rest.len() {
                assert(rest[k] == nodes[k]);
            }
        }
        if box_holds_all(other, s, base, nodes) {
            assert forall|k: int|
                0 <= k < rest.len() && bounding_box(s, (#[trigger] rest[k]).surface as int) is Some implies box_holds(
                other,
                bounding_box(s, rest[k].surface as int)->0,
                rest[k].position,
            ) by {
                assert(rest[k] == nodes[k]);
            }
            assert(box_holds_all(other, s, base, rest));
            if bounding_box(s, c) is Some {
                assert(box_holds(other, bounding_box(s, c)->0, n.position));
            }
        }
    }
}

/// Where surfaces are on the screen: a toplevel so that the corner of its geometry is at its place, a subsurface as
/// far from its parent as it was placed, a popup so that the corners of the geometries are as far apart as it was
/// placed. Other surfaces are nowhere.
pub proof fn law_place_on_the_screen(s: Seq<SurfaceV>, i: int)
    requires
        acyclic(s),
        0 <= i < s.len(),
    ensures
        match s[i].role {
            SurfaceRoleV::Subsurface(sub) => forall|k: int|
                0 <= k < s[sub.parent as int].cur.subsurfaces.len() && (#[trigger] s[sub.parent as int].cur.subsurfaces[k]).surface
                    == i && (forall|j: int|
                    0 <= j < k ==> (#[trigger] s[sub.parent as int].cur.subsurfaces[j]).surface != i) ==> (
                match surface_pos(s, sub.parent as int) {
                    Some(p) => surface_pos(s, i) == Some(
                        (
                            p.0.wrapping_add(s[sub.parent as int].cur.subsurfaces[k].position.0),
                            p.1.wrapping_add(s[sub.parent as int].cur.subsurfaces[k].position.1),
                        ),
                    ),
                    None => surface_pos(s, i) is None,
                }),
            SurfaceRoleV::Xdg(xdg) => match (xdg.specific, xdg.effective_window_geometry) {
                (SpecificRole::Toplevel(t), Some(g)) => surface_pos(s, i) matches Some(p) && p.0.wrapping_add(g.x) == t.x
                    && p.1.wrapping_add(g.y) == t.y,
                (SpecificRole::Popup(pop), Some(g)) => match (
                    surface_pos(s, pop.parent as int),
                    s[pop.parent as int].xdg()->0.effective_window_geometry,
                ) {
                    (Some(p), Some(pg)) => surface_pos(s, i) matches Some(q) && q.0.wrapping_add(g.x).wrapping_sub(
                        p.0.wrapping_add(pg.x),
                    ) == pop.x && q.1.wrapping_add(g.y).wrapping_sub(p.1.wrapping_add(pg.y)) == pop.y,
                    _ => surface_pos(s, i) is None,
                },
                _ => surface_pos(s, i) is None,
            },
            _ => surface_pos(s, i) is None,
        },
{
    let d = levels(s);
    lemma_levels(s, i);
    if let Some(p) = up(s, i) {
        let r = choose|r: Ranking| ranked(s, r);
        assert(r.of(i) <= r.bound);
        lemma_one_level_up(s, i, d);
        lemma_levels(s, p);
        law_pos_depth(s, p, (d - 1) as nat, d);
    }
    if let SurfaceRoleV::Subsurface(sub) = s[i].role {
        let nodes = s[sub.parent as int].cur.subsurfaces;
        assert forall|k: int|
            0 <= k < nodes.len() && (#[trigger] nodes[k]).surface == i && (forall|j: int|
                0 <= j < k ==> (#[trigger] nodes[j]).surface != i) implies node_of(nodes, i)
            == Some(nodes[k]) by {
            lemma_first_node(nodes, i, k);
        }
    }
}

proof fn lemma_first_node(nodes: Seq<SubsurfaceNode>, c: int, k: int)
    requires
        0 <= k < nodes.len(),
        nodes[k].surface == c,
        forall|j: int| 0 <= j < k ==> (#[trigger] nodes[j]).surface != c,
    ensures
        node_of(nodes, c) == Some(nodes[k]),
    decreases k,
{
    if k > 0 {
        assert(nodes[0].surface != c);
        let rest = nodes.drop_first();
        assert forall|j: int| 0 <= j < k - 1 implies (#[trigger] rest[j]).surface != c by {
            assert(rest[j] == nodes[j + 1]);
        }
        assert(rest[k - 1] == nodes[k]);
        lemma_first_node(rest, c, k - 1);
    }
}

/// What is committed to a surface waits for its parent if the surface is a subsurface that is synchronized itself, or
/// whose parent waits for its own parent. All other surfaces do not wait.
pub proof fn law_who_waits_for_the_parent(s: Seq<SurfaceV>, i: int)
    requires
        acyclic(s),
        0 <= i < s.len(),
    ensures
        match s[i].role {
            SurfaceRoleV::Subsurface(sub) => effective_is_sync(s, i) == (sub.is_sync || effective_is_sync(
                s,
                sub.parent as int,
            )),
            _ => !effective_is_sync(s, i),
        },
{
    let d = levels(s);
    lemma_levels(s, i);
    if let SurfaceRoleV::Subsurface(sub) = s[i].role {
        let p = sub.parent as int;
        let r = choose|r: Ranking| ranked(s, r);
        assert(up(s, i) == Some(p));
        assert(r.of(i) <= r.bound);
        lemma_one_level_up(s, i, d);
        lemma_levels(s, p);
        law_sync_depth(s, p, (d - 1) as nat, d);
    }
}

/// Whether a point of a surface is in the part of it that counts as the window.
pub open spec fn in_window(g: Option<WindowGeometry>, x: int, y: int) -> bool {
    g matches Some(w) && w.x <= x < w.x + w.width && w.y <= y < w.y + w.height
}

/// Whether a point is in a box.
pub open spec fn in_box(b: Box32, x: int, y: int) -> bool {
    b.x1 <= x < b.x2 && b.y1 <= y < b.y2
}

/// With a commit, a geometry that the client has set becomes the window as far as it is inside of the box of the
/// surface. One that it has set before stays. As long as it has set none, the window is the whole box.
pub proof fn law_window_is_what_the_client_has_set(xdg: XdgSurfaceRole, bbox: Box32, x: int, y: int)
    requires
        xdg.pending.window_geometry matches Some(g) ==> g.x + g.width <= i32::MAX && g.y + g.height <= i32::MAX && g.x
            - bbox.x2 <= i32::MAX && bbox.x1 - g.x - g.width <= i32::MAX && g.y - bbox.y2 <= i32::MAX && bbox.y1 - g.y
            - g.height <= i32::MAX,
        0 <= bbox.x2 - bbox.x1 <= i32::MAX,
        0 <= bbox.y2 - bbox.y1 <= i32::MAX,
        xdg.wf(),
        xdg.geometry_fits(Some(bbox)),
    ensures
        ({
            let after = xdg.geometry_committed(Some(bbox));
            &&& match (xdg.pending.window_geometry, xdg.cur.window_geometry) {
                (Some(g), _) => in_window(after.effective_window_geometry, x, y) == (in_window(Some(g), x, y)
                    && in_box(bbox, x, y)),
                (None, Some(_)) => after.effective_window_geometry == xdg.effective_window_geometry,
                (None, None) => in_window(after.effective_window_geometry, x, y) == in_box(bbox, x, y),
            }
            &&& after.pending.window_geometry is None
            &&& after.cur.window_geometry == if xdg.pending.window_geometry is Some {
                after.effective_window_geometry
            } else {
                xdg.cur.window_geometry
            }
            &&& after.specific == xdg.specific && after.popup == xdg.popup && after.wl == xdg.wl
            &&& after.last_acked_configure == xdg.last_acked_configure
        }),
{
}

} // verus!
