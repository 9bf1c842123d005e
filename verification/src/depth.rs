//! How far a walk over the surfaces may go does not matter, as long as it may go far enough.
use vstd::prelude::*;
use crate::globals::compositor::{SubsurfaceNode, SurfaceRoleV, SurfaceV};
use crate::globals::surfaces::{
    alive_up, box_down, boxes_down, is_child, lemma_one_level_down, lemma_one_level_up, lemma_some_level, levels_above,
    levels_below, list_wf, pos_up, surface_wf, surfaces_wf, sync_up, up,
};
use crate::globals::xdg_shell::Box32;
use crate::hit::{hit_down, hits_down, popup_of, popup_offset, shifted};
use crate::surface_tree::tree_lines;

verus! {

/// Whether a surface is synchronized does not depend on how far up is looked.
pub proof fn law_sync_depth(s: Seq<SurfaceV>, i: int, d: nat, e: nat)
    requires
        0 <= i < s.len(),
        levels_above(s, i, d),
        levels_above(s, i, e),
    ensures
        sync_up(s, i, d) == sync_up(s, i, e),
    decreases d,
{
    if let SurfaceRoleV::Subsurface(sub) = s[i].role {
        lemma_one_level_up(s, i, d);
        lemma_one_level_up(s, i, e);
        law_sync_depth(s, sub.parent as int, (d - 1) as nat, (e - 1) as nat);
    }
}

/// Where a surface is on the screen does not depend on how far up is looked.
pub proof fn law_pos_depth(s: Seq<SurfaceV>, i: int, d: nat, e: nat)
    requires
        0 <= i < s.len(),
        levels_above(s, i, d),
        levels_above(s, i, e),
    ensures
        pos_up(s, i, d) == pos_up(s, i, e),
        alive_up(s, i, d) == alive_up(s, i, e),
    decreases d,
{
    if up(s, i) is Some {
        lemma_one_level_up(s, i, d);
        lemma_one_level_up(s, i, e);
        law_pos_depth(s, up(s, i)->0, (d - 1) as nat, (e - 1) as nat);
    } else {
        lemma_level_of_itself(s, i, d);
        lemma_level_of_itself(s, i, e);
    }
}

proof fn lemma_level_of_itself(s: Seq<SurfaceV>, i: int, d: nat)
    requires
        levels_above(s, i, d),
    ensures
        d >= 1,
{
}

/// The box around a surface and its subsurfaces does not depend on how far down is looked.
pub proof fn law_box_depth(s: Seq<SurfaceV>, i: int, d: nat, e: nat)
    requires
        surfaces_wf(s),
        0 <= i < s.len(),
        levels_below(s, i, d),
        levels_below(s, i, e),
    ensures
        box_down(s, i, d) == box_down(s, i, e),
    decreases d, 0nat, 0nat,
{
    lemma_some_level(s, i, d);
    lemma_some_level(s, i, e);
    assert(surface_wf(s, i));
    assert(list_wf(s, i, s[i].cur.subsurfaces));
    if let Some(t) = s[i].buf_transform {
        lemma_boxes_depth(
            s,
            i,
            s[i].cur.subsurfaces,
            Box32 { x1: 0, y1: 0, x2: t.dst_width as i32, y2: t.dst_height as i32 },
            d,
            e,
        );
    }
}

proof fn lemma_boxes_depth(s: Seq<SurfaceV>, i: int, nodes: Seq<SubsurfaceNode>, base: Box32, d: nat, e: nat)
    requires
        surfaces_wf(s),
        0 <= i < s.len(),
        levels_below(s, i, d),
        levels_below(s, i, e),
        d >= 1,
        e >= 1,
        forall|k: int| 0 <= k < nodes.len() ==> is_child(s, i, (#[trigger] nodes[k]).surface as int),
    ensures
        boxes_down(s, nodes, base, (d - 1) as nat) == boxes_down(s, nodes, base, (e - 1) as nat),
    decreases d - 1, 1nat, nodes.len(),
{
    if nodes.len() > 0 {
        let c = nodes[nodes.len() - 1].surface as int;
        assert(is_child(s, i, c));
        lemma_one_level_down(s, i, c, d);
        lemma_one_level_down(s, i, c, e);
        law_box_depth(s, c, (d - 1) as nat, (e - 1) as nat);
        assert forall|k: int| 0 <= k < nodes.drop_last().len() implies is_child(
            s,
            i,
            (#[trigger] nodes.drop_last()[k]).surface as int,
        ) by {
            assert(nodes.drop_last()[k] == nodes[k]);
        }
        lemma_boxes_depth(s, i, nodes.drop_last(), base, d, e);
    }
}

/// What is at a point does not depend on how far down is looked.
pub proof fn law_hit_depth(s: Seq<SurfaceV>, i: int, x: i64, y: i64, d: nat, e: nat)
    requires
        surfaces_wf(s),
        0 <= i < s.len(),
        levels_below(s, i, d),
        levels_below(s, i, e),
    ensures
        hit_down(s, i, x, y, d) == hit_down(s, i, x, y, e),
    decreases d, 0nat, 0nat,
{
    lemma_some_level(s, i, d);
    lemma_some_level(s, i, e);
    assert(surface_wf(s, i));
    assert(list_wf(s, i, s[i].cur.subsurfaces));
    if let Some(p) = popup_of(s, i) {
        let by = popup_offset(s, i, p as int);
        assert(up(s, p as int) == Some(i));
        lemma_one_level_down(s, i, p as int, d);
        lemma_one_level_down(s, i, p as int, e);
        law_hit_depth(s, p as int, shifted(x, by.0), shifted(y, by.1), (d - 1) as nat, (e - 1) as nat);
    }
    lemma_hits_depth(s, i, s[i].cur.subsurfaces, x, y, d, e);
}

proof fn lemma_hits_depth(s: Seq<SurfaceV>, i: int, nodes: Seq<SubsurfaceNode>, x: i64, y: i64, d: nat, e: nat)
    requires
        surfaces_wf(s),
        0 <= i < s.len(),
        levels_below(s, i, d),
        levels_below(s, i, e),
        d >= 1,
        e >= 1,
        forall|k: int| 0 <= k < nodes.len() ==> is_child(s, i, (#[trigger] nodes[k]).surface as int),
    ensures
        hits_down(s, nodes, x, y, (d - 1) as nat) == hits_down(s, nodes, x, y, (e - 1) as nat),
    decreases d - 1, 1nat, nodes.len(),
{
    if nodes.len() > 0 {
        let n = nodes[nodes.len() - 1];
        let c = n.surface as int;
        assert(is_child(s, i, c));
        lemma_one_level_down(s, i, c, d);
        lemma_one_level_down(s, i, c, e);
        law_hit_depth(s, c, shifted(x, n.position.0), shifted(y, n.position.1), (d - 1) as nat, (e - 1) as nat);
        assert forall|k: int| 0 <= k < nodes.drop_last().len() implies is_child(
            s,
            i,
            (#[trigger] nodes.drop_last()[k]).surface as int,
        ) by {
            assert(nodes.drop_last()[k] == nodes[k]);
        }
        lemma_hits_depth(s, i, nodes.drop_last(), x, y, d, e);
    }
}

/// The tree under a surface does not depend on how far down is looked.
pub proof fn law_tree_depth(s: Seq<SurfaceV>, i: int, nodes: Seq<SubsurfaceNode>, d: nat, e: nat)
    requires
        surfaces_wf(s),
        0 <= i < s.len(),
        levels_below(s, i, d),
        levels_below(s, i, e),
        forall|k: int| 0 <= k < nodes.len() ==> is_child(s, i, (#[trigger] nodes[k]).surface as int),
    ensures
        tree_lines(s, nodes, d) == tree_lines(s, nodes, e),
    decreases d, nodes.len(),
{
    lemma_some_level(s, i, d);
    lemma_some_level(s, i, e);
    if nodes.len() > 0 {
        let c = nodes[nodes.len() - 1].surface as int;
        assert(is_child(s, i, c));
        lemma_one_level_down(s, i, c, d);
        lemma_one_level_down(s, i, c, e);
        assert(surface_wf(s, c));
        assert(list_wf(s, c, s[c].cur.subsurfaces));
        law_tree_depth(s, c, s[c].cur.subsurfaces, (d - 1) as nat, (e - 1) as nat);
        assert forall|k: int| 0 <= k < nodes.drop_last().len() implies is_child(
            s,
            i,
            (#[trigger] nodes.drop_last()[k]).surface as int,
        ) by {
            assert(nodes.drop_last()[k] == nodes[k]);
        }
        law_tree_depth(s, i, nodes.drop_last(), d, e);
    }
}

} // verus!
