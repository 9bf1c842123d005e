//! What can be seen in a frame, and who hears of it.
use vstd::prelude::*;
use crate::cursor::Kind;
use crate::draw::{
    border_ops, done_events, draw_down, draw_windows, draws_down, law_draw_depth, lemma_depth_kept, lemma_draw_down,
    lemma_draws_down, lemma_frames_done, lemma_frames_done_trans, only_frames_done, DrawOp,
    ScreenRect,
};
use crate::gestures::in_pixels;
use crate::globals::compositor::{SubsurfaceNode, SurfaceRoleV, SurfaceStateV, SurfaceV};
use crate::globals::surfaces::{
    acyclic, is_child, lemma_levels, lemma_one_level_down, lemma_same_links, lemma_some_level, levels, levels_below,
    ranked, surface_wf, surfaces_wf, up, Ranking,
};
use crate::globals::xdg_shell::{SpecificRole, WindowGeometry};
use crate::protocol::{Action, Handle};
use crate::state::{shown_toplevel, state_wf, StateV};

verus! {

/// What is drawn of surface `i` and of all its subsurfaces at a point of the screen.
pub open spec fn picture(s: Seq<SurfaceV>, i: int, active: bool, x: i32, y: i32, time: u32) -> Seq<DrawOp> {
    draw_down(s, i, active, x, y, time, levels(s)).ops
}

/// Whether surfaces differ in nothing but who waits for a frame.
pub open spec fn look_alike(a: Seq<SurfaceV>, b: Seq<SurfaceV>) -> bool {
    &&& a.len() == b.len()
    &&& forall|j: int| 0 <= j < a.len() ==> (#[trigger] a[j]).frames_done() == b[j].frames_done()
}

proof fn lemma_done_looks_alike(a: Seq<SurfaceV>, b: Seq<SurfaceV>)
    requires
        only_frames_done(a, b),
    ensures
        look_alike(a, b),
{
    assert forall|j: int| 0 <= j < a.len() implies (#[trigger] a[j]).frames_done() == b[j].frames_done() by {
        assert(b[j] == a[j] || b[j] == a[j].frames_done());
    }
}

proof fn lemma_alike_trans(a: Seq<SurfaceV>, b: Seq<SurfaceV>, c: Seq<SurfaceV>, d: Seq<SurfaceV>)
    requires
        look_alike(a, b),
        look_alike(a, c),
        look_alike(b, d),
    ensures
        look_alike(c, d),
{
    assert forall|j: int| 0 <= j < c.len() implies (#[trigger] c[j]).frames_done() == d[j].frames_done() by {
        assert(a[j].frames_done() == b[j].frames_done());
        assert(a[j].frames_done() == c[j].frames_done());
        assert(b[j].frames_done() == d[j].frames_done());
    }
}

/// What is drawn of a surface does not depend on who waits for a frame.
proof fn lemma_alike_drawn(
    a: Seq<SurfaceV>,
    b: Seq<SurfaceV>,
    i: int,
    active: bool,
    x: i32,
    y: i32,
    time: u32,
    depth: nat,
)
    requires
        surfaces_wf(a),
        surfaces_wf(b),
        look_alike(a, b),
        0 <= i < a.len(),
        levels_below(a, i, depth),
        levels_below(b, i, depth),
    ensures
        draw_down(a, i, active, x, y, time, depth).ops == draw_down(b, i, active, x, y, time, depth).ops,
    decreases depth, 0nat, 0nat,
{
    lemma_some_level(a, i, depth);
    assert(a[i].frames_done() == b[i].frames_done());
    let t = a.update(i, a[i].frames_done());
    let u = b.update(i, b[i].frames_done());
    assert(only_frames_done(a, t));
    assert(only_frames_done(b, u));
    lemma_frames_done(a, t);
    lemma_frames_done(b, u);
    lemma_depth_kept(a, t, i, depth);
    lemma_depth_kept(b, u, i, depth);
    lemma_done_looks_alike(a, t);
    lemma_done_looks_alike(b, u);
    lemma_alike_trans(a, b, t, u);
    assert(surface_wf(t, i));
    assert(surface_wf(u, i));
    assert(a[i].frames_done().buf_transform == a[i].buf_transform);
    assert(b[i].frames_done().buf_transform == b[i].buf_transform);
    assert(a[i].frames_done().cur.subsurfaces == a[i].cur.subsurfaces);
    assert(b[i].frames_done().cur.subsurfaces == b[i].cur.subsurfaces);
    if a[i].buf_transform is Some {
        lemma_alike_nodes_drawn(t, u, i, a[i].cur.subsurfaces, active, x, y, time, depth);
    }
}

proof fn lemma_alike_nodes_drawn(
    a: Seq<SurfaceV>,
    b: Seq<SurfaceV>,
    i: int,
    nodes: Seq<SubsurfaceNode>,
    active: bool,
    x: i32,
    y: i32,
    time: u32,
    depth: nat,
)
    requires
        surfaces_wf(a),
        surfaces_wf(b),
        look_alike(a, b),
        0 <= i < a.len(),
        levels_below(a, i, depth),
        levels_below(b, i, depth),
        depth >= 1,
        forall|k: int| 0 <= k < nodes.len() ==> is_child(a, i, (#[trigger] nodes[k]).surface as int),
        forall|k: int| 0 <= k < nodes.len() ==> is_child(b, i, (#[trigger] nodes[k]).surface as int),
    ensures
        draws_down(a, nodes, active, x, y, time, (depth - 1) as nat).ops == draws_down(
            b,
            nodes,
            active,
            x,
            y,
            time,
            (depth - 1) as nat,
        ).ops,
    decreases depth - 1, 1nat, nodes.len(),
{
    if nodes.len() > 0 {
        let rest = nodes.drop_last();
        let d = (depth - 1) as nat;
        assert forall|k: int| 0 <= k < rest.len() implies is_child(a, i, (#[trigger] rest[k]).surface as int)
            && is_child(b, i, rest[k].surface as int) by {
            assert(rest[k] == nodes[k]);
        }
        lemma_alike_nodes_drawn(a, b, i, rest, active, x, y, time, depth);
        let n = nodes[nodes.len() - 1];
        let c = n.surface as int;
        let p = draws_down(a, rest, active, x, y, time, d).surfaces;
        let q = draws_down(b, rest, active, x, y, time, d).surfaces;
        lemma_nodes_before(a, i, nodes, active, x, y, time, depth);
        lemma_nodes_before(b, i, nodes, active, x, y, time, depth);
        lemma_done_looks_alike(a, p);
        lemma_done_looks_alike(b, q);
        lemma_alike_trans(a, b, p, q);
        lemma_alike_drawn(p, q, c, active, x.wrapping_add(n.position.0), y.wrapping_add(n.position.1), time, d);
    }
}

/// What holds before the last subsurface of a list is drawn.
proof fn lemma_nodes_before(
    s: Seq<SurfaceV>,
    i: int,
    nodes: Seq<SubsurfaceNode>,
    active: bool,
    x: i32,
    y: i32,
    time: u32,
    depth: nat,
)
    requires
        surfaces_wf(s),
        0 <= i < s.len(),
        levels_below(s, i, depth),
        depth >= 1,
        nodes.len() > 0,
        forall|k: int| 0 <= k < nodes.len() ==> is_child(s, i, (#[trigger] nodes[k]).surface as int),
    ensures
        ({
            let t = draws_down(s, nodes.drop_last(), active, x, y, time, (depth - 1) as nat).surfaces;
            let c = nodes[nodes.len() - 1].surface as int;
            &&& only_frames_done(s, t)
            &&& surfaces_wf(t)
            &&& 0 <= c < t.len()
            &&& levels_below(t, c, (depth - 1) as nat)
            &&& levels_below(s, c, (depth - 1) as nat)
            &&& levels_below(t, i, depth)
        }),
{
    let rest = nodes.drop_last();
    assert forall|k: int| 0 <= k < rest.len() implies is_child(s, i, (#[trigger] rest[k]).surface as int) by {
        assert(rest[k] == nodes[k]);
    }
    lemma_draws_down(s, i, rest, active, x, y, time, depth);
    let t = draws_down(s, rest, active, x, y, time, (depth - 1) as nat).surfaces;
    lemma_frames_done(s, t);
    lemma_depth_kept(s, t, i, depth);
    let c = nodes[nodes.len() - 1].surface as int;
    assert(is_child(s, i, c));
    assert(up(s, c) == up(t, c));
    lemma_one_level_down(t, i, c, depth);
    lemma_one_level_down(s, i, c, depth);
}

/// What is drawn of the subsurfaces in a list, each by itself, with their parent at a point of the screen.
pub open spec fn node_pictures(
    s: Seq<SurfaceV>,
    nodes: Seq<SubsurfaceNode>,
    active: bool,
    x: i32,
    y: i32,
    time: u32,
) -> Seq<Seq<DrawOp>> {
    Seq::new(
        nodes.len(),
        |k: int|
            picture(
                s,
                nodes[k].surface as int,
                active,
                x.wrapping_add(nodes[k].position.0),
                y.wrapping_add(nodes[k].position.1),
                time,
            ),
    )
}

/// A surface with a buffer is drawn first, and over it each of its subsurfaces as far from it as the subsurface was
/// placed, in the order of the list. Of a surface without a buffer nothing is drawn, nor of its subsurfaces.
pub proof fn law_subsurfaces_are_drawn_over_their_parent(
    s: Seq<SurfaceV>,
    i: int,
    active: bool,
    x: i32,
    y: i32,
    time: u32,
)
    requires
        surfaces_wf(s),
        acyclic(s),
        0 <= i < s.len(),
    ensures
        picture(s, i, active, x, y, time) == match s[i].buf_transform {
            None => Seq::empty(),
            Some(transform) => seq![DrawOp::Surface { surface: i as usize, active, transform, x, y }] + node_pictures(
                s,
                s[i].cur.subsurfaces,
                active,
                x,
                y,
                time,
            ).flatten(),
        },
{
    let d = levels(s);
    lemma_levels(s, i);
    lemma_some_level(s, i, d);
    assert(surface_wf(s, i));
    let t = s.update(i, s[i].frames_done());
    assert(only_frames_done(s, t));
    lemma_frames_done(s, t);
    lemma_depth_kept(s, t, i, d);
    assert(surface_wf(t, i));
    let nodes = s[i].cur.subsurfaces;
    if s[i].buf_transform is Some {
        lemma_nodes_drawn(s, t, i, nodes, active, x, y, time);
        node_pictures(s, nodes, active, x, y, time).lemma_flatten_and_flatten_alt_are_equivalent();
    }
}

proof fn lemma_nodes_drawn(
    s: Seq<SurfaceV>,
    t: Seq<SurfaceV>,
    i: int,
    nodes: Seq<SubsurfaceNode>,
    active: bool,
    x: i32,
    y: i32,
    time: u32,
)
    requires
        surfaces_wf(s),
        acyclic(s),
        surfaces_wf(t),
        only_frames_done(s, t),
        0 <= i < s.len(),
        levels(s) >= 1,
        levels_below(s, i, levels(s)),
        levels_below(t, i, levels(s)),
        forall|k: int| 0 <= k < nodes.len() ==> is_child(s, i, (#[trigger] nodes[k]).surface as int),
        forall|k: int| 0 <= k < nodes.len() ==> is_child(t, i, (#[trigger] nodes[k]).surface as int),
    ensures
        draws_down(t, nodes, active, x, y, time, (levels(s) - 1) as nat).ops == node_pictures(
            s,
            nodes,
            active,
            x,
            y,
            time,
        ).flatten_alt(),
    decreases nodes.len(),
{
    let all = node_pictures(s, nodes, active, x, y, time);
    if nodes.len() > 0 {
        let rest = nodes.drop_last();
        let d = (levels(s) - 1) as nat;
        assert forall|k: int| 0 <= k < rest.len() implies is_child(s, i, (#[trigger] rest[k]).surface as int)
            && is_child(t, i, rest[k].surface as int) by {
            assert(rest[k] == nodes[k]);
        }
        lemma_nodes_drawn(s, t, i, rest, active, x, y, time);
        let n = nodes[nodes.len() - 1];
        let c = n.surface as int;
        let nx = x.wrapping_add(n.position.0);
        let ny = y.wrapping_add(n.position.1);
        let p = draws_down(t, rest, active, x, y, time, d).surfaces;
        lemma_nodes_before(t, i, nodes, active, x, y, time, levels(s));
        lemma_frames_done_trans(s, t, p);
        lemma_done_looks_alike(s, p);
        assert(is_child(s, i, c));
        lemma_one_level_down(s, i, c, levels(s));
        lemma_alike_drawn(s, p, c, active, nx, ny, time, d);
        lemma_levels(s, c);
        law_draw_depth(s, c, active, nx, ny, time, d, levels(s));
        assert(all.last() == picture(s, c, active, nx, ny, time));
        assert(all.drop_last() =~= node_pictures(s, rest, active, x, y, time));
    } else {
        assert(all =~= Seq::empty());
    }
}

/// What is drawn of the window in place `k` of the stack: nothing if it has no geometry, else its border and, over
/// it, the window, placed so that its geometry is inside of the border. The window on top is the active one.
pub open spec fn window_picture(st: StateV, k: int, time: u32) -> Seq<DrawOp> {
    let s = st.compositor.surfaces;
    let i = st.focus_stack[k] as int;
    let active = k == st.focus_stack.len() - 1;
    match s[i].role {
        SurfaceRoleV::Xdg(xdg) => match (xdg.specific, xdg.effective_window_geometry) {
            (SpecificRole::Toplevel(t), Some(g)) => border_ops(t.x, t.y, g, active) + picture(
                s,
                i,
                active,
                t.x.wrapping_sub(g.x),
                t.y.wrapping_sub(g.y),
                time,
            ),
            _ => Seq::empty(),
        },
        _ => Seq::empty(),
    }
}

/// What is drawn of the windows of the stack, each by itself.
pub open spec fn window_pictures(st: StateV, time: u32) -> Seq<Seq<DrawOp>> {
    Seq::new(st.focus_stack.len(), |k: int| window_picture(st, k, time))
}

/// A frame is the background, over it all windows from the lowest of the stack to the one on top, each whole, and
/// over them the cursor.
pub proof fn law_frame_shows_all_windows(st: StateV, time: u32)
    requires
        state_wf(st),
        acyclic(st.compositor.surfaces),
    ensures
        st.frame_ops(time) == seq![DrawOp::Clear] + window_pictures(st, time).flatten() + st.cursor_ops(),
{
    let n = st.focus_stack.len() as int;
    assert(drawable(st)) by {
        reveal(drawable);
    }
    assert(st.focus_stack.take(n) =~= st.focus_stack);
    assert(window_pictures(st, time).take(n) =~= window_pictures(st, time));
    lemma_windows_drawn(st, n, time);
    window_pictures(st, time).lemma_flatten_and_flatten_alt_are_equivalent();
}

/// Whether a frame can be drawn.
#[verifier::opaque]
spec fn drawable(st: StateV) -> bool {
    state_wf(st) && acyclic(st.compositor.surfaces)
}

/// What comes of drawing the window in place `k` when only waiting callbacks differ from the state.
spec fn window_drawn(st: StateV, t: Seq<SurfaceV>, k: int, time: u32) -> bool {
    let s = st.compositor.surfaces;
    let i = st.focus_stack[k] as int;
    let xdg = t[i].xdg()->0;
    let w = xdg.specific->Toplevel_0;
    let active = k == st.focus_stack.len() - 1;
    &&& 0 <= i < s.len()
    &&& t[i].xdg() == s[i].xdg()
    &&& match xdg.effective_window_geometry {
        None => window_picture(st, k, time) == Seq::<DrawOp>::empty(),
        Some(g) => {
            let e = draw_down(t, i, active, w.x.wrapping_sub(g.x), w.y.wrapping_sub(g.y), time, levels(t));
            &&& only_frames_done(t, e.surfaces)
            &&& window_picture(st, k, time) == border_ops(w.x, w.y, g, active) + e.ops
            &&& were_told(t, e.surfaces, e.actions, time)
            &&& drawn_are_done(e.ops, e.surfaces)
            &&& e.surfaces[i].cur.frame_cbs.len() == 0
        },
    }
}

proof fn lemma_window_drawn(st: StateV, t: Seq<SurfaceV>, k: int, time: u32)
    requires
        drawable(st),
        only_frames_done(st.compositor.surfaces, t),
        0 <= k < st.focus_stack.len(),
    ensures
        window_drawn(st, t, k, time),
{
    reveal(drawable);
    let s = st.compositor.surfaces;
    let i = st.focus_stack[k] as int;
    assert(shown_toplevel(s, st.focus_stack[k] as int));
    lemma_frames_done(s, t);
    assert(t[i] == s[i] || t[i] == s[i].frames_done());
    let xdg = s[i].xdg()->0;
    let w = xdg.specific->Toplevel_0;
    assert(t[i].xdg()->0 == xdg);
    if let Some(g) = xdg.effective_window_geometry {
        let r = choose|r: Ranking| ranked(s, r);
        lemma_same_links(s, t, r);
        lemma_levels(s, i);
        lemma_levels(t, i);
        lemma_depth_kept(t, s, i, levels(t));
        let active = k == st.focus_stack.len() - 1;
        let x = w.x.wrapping_sub(g.x);
        let y = w.y.wrapping_sub(g.y);
        lemma_draw_down(t, i, active, x, y, time, levels(t));
        lemma_done_looks_alike(s, t);
        lemma_alike_drawn(s, t, i, active, x, y, time, levels(t));
        law_draw_depth(s, i, active, x, y, time, levels(t), levels(s));
        lemma_drawing_tells(t, i, active, x, y, time, levels(t));
    }
}

proof fn lemma_windows_drawn(st: StateV, k: int, time: u32)
    requires
        drawable(st),
        0 <= k <= st.focus_stack.len(),
    ensures
        ({
            let s = st.compositor.surfaces;
            let d = draw_windows(s, st.focus_stack.take(k), st.focus_stack.len() as int, time);
            &&& only_frames_done(s, d.surfaces)
            &&& d.ops == window_pictures(st, time).take(k).flatten_alt()
        }),
    decreases k,
{
    let s = st.compositor.surfaces;
    let stack = st.focus_stack;
    let n = stack.len() as int;
    let all = window_pictures(st, time);
    if k > 0 {
        lemma_windows_drawn(st, k - 1, time);
        let before = draw_windows(s, stack.take(k - 1), n, time);
        let t = before.surfaces;
        lemma_window_drawn(st, t, k - 1, time);
        assert(stack.take(k).drop_last() =~= stack.take(k - 1));
        assert(stack.take(k).last() == stack[k - 1]);
        assert(all.take(k).drop_last() =~= all.take(k - 1));
        assert(all.take(k).last() == window_picture(st, k - 1, time));
        let i = stack[k - 1] as int;
        let xdg = t[i].xdg()->0;
        let w = xdg.specific->Toplevel_0;
        let active = k == n;
        if let Some(g) = xdg.effective_window_geometry {
            let e = draw_down(t, i, active, w.x.wrapping_sub(g.x), w.y.wrapping_sub(g.y), time, levels(t));
            lemma_frames_done_trans(s, t, e.surfaces);
            let b = border_ops(w.x, w.y, g, active);
            assert(before.ops + b + e.ops =~= before.ops + (b + e.ops));
        } else {
            assert(before.ops + Seq::<DrawOp>::empty() =~= before.ops);
        }
    } else {
        assert(stack.take(0) =~= Seq::empty());
        assert(all.take(0) =~= Seq::empty());
        assert(only_frames_done(s, s));
    }
}

/// Where the items of one of several parts are when the parts are put one after the other.
proof fn lemma_part_placed<A>(parts: Seq<Seq<A>>, k: int, a: int)
    requires
        0 <= k < parts.len(),
        0 <= a < parts[k].len(),
    ensures
        parts.take(k).flatten_alt().len() + parts[k].len() <= parts.flatten_alt().len(),
        parts.flatten_alt()[parts.take(k).flatten_alt().len() + a] == parts[k][a],
    decreases parts.len(),
{
    let rest = parts.drop_last();
    if k < rest.len() {
        assert(rest[k] == parts[k]);
        assert(rest.take(k) =~= parts.take(k));
        lemma_part_placed(rest, k, a);
    } else {
        assert(parts.take(k) =~= rest);
    }
}

/// A later part is behind an earlier one.
proof fn lemma_parts_in_order<A>(parts: Seq<Seq<A>>, k: int, l: int)
    requires
        0 <= k < l <= parts.len(),
    ensures
        parts.take(k).flatten_alt().len() + parts[k].len() <= parts.take(l).flatten_alt().len(),
    decreases l - k,
{
    assert(parts.take(l).drop_last() =~= parts.take(l - 1));
    if k < l - 1 {
        lemma_parts_in_order(parts, k, l - 1);
    }
}

/// What is drawn for the window in place `k` of the stack itself, if it has a geometry and a buffer.
pub open spec fn own_op(st: StateV, k: int) -> Option<DrawOp> {
    let x = st.compositor.surfaces[st.focus_stack[k] as int];
    match (x.role, x.buf_transform) {
        (SurfaceRoleV::Xdg(xdg), Some(transform)) => match (xdg.specific, xdg.effective_window_geometry) {
            (SpecificRole::Toplevel(t), Some(g)) => Some(
                DrawOp::Surface {
                    surface: st.focus_stack[k],
                    active: k == st.focus_stack.len() - 1,
                    transform,
                    x: t.x.wrapping_sub(g.x),
                    y: t.y.wrapping_sub(g.y),
                },
            ),
            _ => None,
        },
        _ => None,
    }
}

/// All that is drawn of a window is drawn before anything of a window above it, and after the background, and the
/// cursor after all.
pub proof fn law_lower_windows_are_drawn_first(st: StateV, time: u32, k: int, l: int, a: int, b: int)
    requires
        state_wf(st),
        acyclic(st.compositor.surfaces),
        0 <= k < l < st.focus_stack.len(),
        0 <= a < window_picture(st, k, time).len(),
        0 <= b < window_picture(st, l, time).len(),
    ensures
        exists|c: int, d: int|
            0 < c < d < st.frame_ops(time).len() - st.cursor_ops().len() && #[trigger] st.frame_ops(time)[c]
                == window_picture(st, k, time)[a] && #[trigger] st.frame_ops(time)[d] == window_picture(st, l, time)[b],
{
    let all = window_pictures(st, time);
    law_frame_shows_all_windows(st, time);
    all.lemma_flatten_and_flatten_alt_are_equivalent();
    lemma_part_placed(all, k, a);
    lemma_part_placed(all, l, b);
    lemma_parts_in_order(all, k, l);
    let c = 1 + all.take(k).flatten_alt().len() + a;
    let d = 1 + all.take(l).flatten_alt().len() + b;
    assert(st.frame_ops(time)[c] == window_picture(st, k, time)[a]);
    assert(st.frame_ops(time)[d] == window_picture(st, l, time)[b]);
}

/// A window of the stack that has a geometry and a buffer is shown in every frame, whatever its place, at its place
/// on the screen: the upper left corner of its geometry is there.
pub proof fn law_window_is_shown(st: StateV, time: u32, k: int)
    requires
        state_wf(st),
        acyclic(st.compositor.surfaces),
        0 <= k < st.focus_stack.len(),
        own_op(st, k) is Some,
    ensures
        window_picture(st, k, time).len() >= 5,
        window_picture(st, k, time)[4] == own_op(st, k)->0,
        st.frame_ops(time).contains(own_op(st, k)->0),
{
    let s = st.compositor.surfaces;
    let i = st.focus_stack[k] as int;
    assert(shown_toplevel(s, st.focus_stack[k] as int));
    let active = k == st.focus_stack.len() - 1;
    let xdg = s[i].xdg()->0;
    let t = xdg.specific->Toplevel_0;
    let g = xdg.effective_window_geometry->0;
    law_subsurfaces_are_drawn_over_their_parent(s, i, active, t.x.wrapping_sub(g.x), t.y.wrapping_sub(g.y), time);
    let all = window_pictures(st, time);
    law_frame_shows_all_windows(st, time);
    all.lemma_flatten_and_flatten_alt_are_equivalent();
    lemma_part_placed(all, k, 4);
    let c = all.take(k).flatten_alt().len() + 5int;
    assert(st.frame_ops(time)[c] == own_op(st, k)->0);
}

/// Whether a rectangle has a pixel.
pub open spec fn has_pixel(r: ScreenRect, x: int, y: int) -> bool {
    r.x <= x < r.x + r.width && r.y <= y < r.y + r.height
}

/// The border of a window consists of the pixels around it that are at most two pixels away, all in the colour for
/// active windows or all in the other.
pub proof fn law_border_is_around_the_window(left: i32, top: i32, g: WindowGeometry, active: bool, x: int, y: int)
    requires
        g.wf(),
        i32::MIN + 2 <= left,
        i32::MIN + 2 <= top,
        left + g.width <= i32::MAX,
        top + g.height <= i32::MAX,
    ensures
        ({
            let ops = border_ops(left, top, g, active);
            let within = left <= x < left + g.width && top <= y < top + g.height;
            let near = left - 2 <= x < left + g.width + 2 && top - 2 <= y < top + g.height + 2;
            &&& ops.len() == 4
            &&& forall|k: int| 0 <= k < ops.len() ==> (#[trigger] ops[k] is Border && ops[k]->Border_active == active)
            &&& (exists|k: int| 0 <= k < ops.len() && has_pixel((#[trigger] ops[k])->Border_rect, x, y)) <==> near
                && !within
        }),
{
    let ops = border_ops(left, top, g, active);
    let within = left <= x < left + g.width && top <= y < top + g.height;
    let near = left - 2 <= x < left + g.width + 2 && top - 2 <= y < top + g.height + 2;
    if near && !within {
        if x < left {
            assert(has_pixel(ops[0]->Border_rect, x, y));
        } else if x >= left + g.width {
            assert(has_pixel(ops[1]->Border_rect, x, y));
        } else if y < top {
            assert(has_pixel(ops[2]->Border_rect, x, y));
        } else {
            assert(has_pixel(ops[3]->Border_rect, x, y));
        }
    }
}

/// The image of the cursor is drawn so that its hot spot is at the pixel that is nearest to the pointer. A surface is
/// drawn in the size that it is shown in, if it has a buffer, and nothing where the cursor is hidden.
pub proof fn law_cursor_is_at_the_pointer(st: StateV, n: i32, m: i32)
    requires
        in_pixels(n as int, st.seat.pointer.x.0 as int),
        in_pixels(m as int, st.seat.pointer.y.0 as int),
    ensures
        match st.cursor.kind {
            Kind::Hidden => st.cursor_ops().len() == 0,
            Kind::Texture(t) => {
                &&& st.cursor_ops().len() == 1
                &&& st.cursor_ops()[0] matches DrawOp::Cursor { buffer, x, y, width, height } && buffer == t.buffer_id
                    && x.wrapping_add(t.hx) == n && y.wrapping_add(t.hy) == m && width == t.w && height == t.h
            },
            Kind::Surface { surface, hx, hy } => match (
                st.compositor.surfaces[surface as int].cur.buffer,
                st.compositor.surfaces[surface as int].buf_transform,
            ) {
                (Some(b), Some(t)) => {
                    &&& st.cursor_ops().len() == 1
                    &&& st.cursor_ops()[0] matches DrawOp::Cursor { buffer, x, y, width, height } && buffer == b.id
                        && x.wrapping_add(hx) == n && y.wrapping_add(hy) == m && width == t.dst_width && height
                        == t.dst_height
                },
                _ => st.cursor_ops().len() == 0,
            },
        },
{
}

/// How many wait for a frame.
pub open spec fn waiting(s: Seq<SurfaceV>) -> nat
    decreases s.len(),
{
    if s.len() == 0 {
        0
    } else {
        waiting(s.drop_last()) + s.last().cur.frame_cbs.len()
    }
}

/// Whether a callback waits for a frame of surface `j`.
pub open spec fn waits(s: Seq<SurfaceV>, j: int, cb: Handle) -> bool {
    0 <= j < s.len() && s[j].cur.frame_cbs.contains(cb)
}

/// Whether between two states of the surfaces those who wait for a frame were told as actions say. Nothing changes
/// but who waits. Of each surface either all still wait, or all were told and none waits any more. Nobody else is
/// told, and nobody twice.
pub open spec fn were_told(a: Seq<SurfaceV>, b: Seq<SurfaceV>, actions: Seq<Action>, time: u32) -> bool {
    &&& a.len() == b.len()
    &&& forall|j: int|
        0 <= j < a.len() ==> #[trigger] b[j] == (SurfaceV {
            cur: SurfaceStateV { frame_cbs: b[j].cur.frame_cbs, ..a[j].cur },
            ..a[j]
        }) && (b[j].cur.frame_cbs == a[j].cur.frame_cbs || b[j].cur.frame_cbs.len() == 0)
    &&& forall|j: int, cb: Handle| #[trigger]
        waits(a, j, cb) && b[j].cur.frame_cbs.len() == 0 ==> actions.contains(
            Action::CallbackDone { callback: cb, data: time },
        )
    &&& forall|k: int|
        0 <= k < actions.len() ==> (#[trigger] actions[k] matches Action::CallbackDone { callback, data } && data == time
            && exists|j: int| #[trigger] waits(a, j, callback) && b[j].cur.frame_cbs.len() == 0)
    &&& waiting(a) == waiting(b) + actions.len()
}

proof fn lemma_told_further(
    a: Seq<SurfaceV>,
    b: Seq<SurfaceV>,
    c: Seq<SurfaceV>,
    first: Seq<Action>,
    second: Seq<Action>,
    time: u32,
)
    requires
        were_told(a, b, first, time),
        were_told(b, c, second, time),
    ensures
        were_told(a, c, first + second, time),
{
    let all = first + second;
    assert forall|j: int| 0 <= j < a.len() implies #[trigger] c[j] == (SurfaceV {
        cur: SurfaceStateV { frame_cbs: c[j].cur.frame_cbs, ..a[j].cur },
        ..a[j]
    }) && (c[j].cur.frame_cbs == a[j].cur.frame_cbs || c[j].cur.frame_cbs.len() == 0) by {
        assert(b[j] == (SurfaceV { cur: SurfaceStateV { frame_cbs: b[j].cur.frame_cbs, ..a[j].cur }, ..a[j] }));
        assert(b[j].cur.frame_cbs.len() == 0 ==> b[j].cur.frame_cbs =~= Seq::empty());
    }
    assert forall|j: int, cb: Handle| #[trigger] waits(a, j, cb) && c[j].cur.frame_cbs.len() == 0 implies all.contains(
        Action::CallbackDone { callback: cb, data: time },
    ) by {
        let done = Action::CallbackDone { callback: cb, data: time };
        assert(b[j].cur.frame_cbs == a[j].cur.frame_cbs || b[j].cur.frame_cbs.len() == 0);
        if b[j].cur.frame_cbs.len() == 0 {
            let k = choose|k: int| 0 <= k < first.len() && first[k] == done;
            assert(all[k] == done);
        } else {
            assert(waits(b, j, cb));
            let k = choose|k: int| 0 <= k < second.len() && second[k] == done;
            assert(all[first.len() + k] == done);
        }
    }
    assert forall|k: int| 0 <= k < all.len() implies (#[trigger] all[k] matches Action::CallbackDone { callback, data }
        && data == time && exists|j: int| #[trigger] waits(a, j, callback) && c[j].cur.frame_cbs.len() == 0) by {
        if k < first.len() {
            assert(all[k] == first[k]);
            let callback = first[k]->CallbackDone_callback;
            let j = choose|j: int| #[trigger] waits(a, j, callback) && b[j].cur.frame_cbs.len() == 0;
            assert(c[j].cur.frame_cbs == b[j].cur.frame_cbs || c[j].cur.frame_cbs.len() == 0);
            assert(waits(a, j, callback) && c[j].cur.frame_cbs.len() == 0);
        } else {
            assert(all[k] == second[k - first.len()]);
            let callback = second[k - first.len()]->CallbackDone_callback;
            let j = choose|j: int| #[trigger] waits(b, j, callback) && c[j].cur.frame_cbs.len() == 0;
            assert(b[j].cur.frame_cbs == a[j].cur.frame_cbs || b[j].cur.frame_cbs.len() == 0);
            assert(waits(a, j, callback) && c[j].cur.frame_cbs.len() == 0);
        }
    }
}

proof fn lemma_waiting_updated(s: Seq<SurfaceV>, i: int)
    requires
        0 <= i < s.len(),
    ensures
        waiting(s) == waiting(s.update(i, s[i].frames_done())) + s[i].cur.frame_cbs.len(),
    decreases s.len(),
{
    let t = s.update(i, s[i].frames_done());
    if i < s.len() - 1 {
        lemma_waiting_updated(s.drop_last(), i);
        assert(t.drop_last() =~= s.drop_last().update(i, s[i].frames_done()));
    } else {
        assert(t.drop_last() =~= s.drop_last());
    }
}

proof fn lemma_surface_told(s: Seq<SurfaceV>, i: int, time: u32)
    requires
        0 <= i < s.len(),
    ensures
        were_told(s, s.update(i, s[i].frames_done()), done_events(s[i].cur.frame_cbs, time), time),
{
    let t = s.update(i, s[i].frames_done());
    let told = done_events(s[i].cur.frame_cbs, time);
    lemma_waiting_updated(s, i);
    assert forall|j: int, cb: Handle| #[trigger] waits(s, j, cb) && t[j].cur.frame_cbs.len() == 0 implies told.contains(
        Action::CallbackDone { callback: cb, data: time },
    ) by {
        let k = choose|k: int| 0 <= k < s[j].cur.frame_cbs.len() && s[j].cur.frame_cbs[k] == cb;
        assert(told[k] == (Action::CallbackDone { callback: cb, data: time }));
    }
    assert forall|k: int| 0 <= k < told.len() implies (#[trigger] told[k] matches Action::CallbackDone {
        callback,
        data,
    } && data == time && exists|j: int| #[trigger] waits(s, j, callback) && t[j].cur.frame_cbs.len() == 0) by {
        let cb = s[i].cur.frame_cbs[k];
        assert(told[k] == (Action::CallbackDone { callback: cb, data: time }));
        assert(s[i].cur.frame_cbs.contains(cb));
        let callback = told[k]->CallbackDone_callback;
        assert(callback == cb);
        assert(waits(s, i, callback) && t[i].cur.frame_cbs.len() == 0);
        assert(exists|j: int| #[trigger] waits(s, j, callback) && t[j].cur.frame_cbs.len() == 0);
    }
}

proof fn lemma_nobody_told(s: Seq<SurfaceV>, time: u32)
    ensures
        were_told(s, s, Seq::empty(), time),
{
    assert forall|j: int, cb: Handle| #[trigger] waits(s, j, cb) && s[j].cur.frame_cbs.len() == 0 implies Seq::<
        Action,
    >::empty().contains(Action::CallbackDone { callback: cb, data: time }) by {}
}

/// Whether nobody waits for a frame of a surface that was drawn.
pub open spec fn drawn_are_done(ops: Seq<DrawOp>, s: Seq<SurfaceV>) -> bool {
    forall|k: int|
        0 <= k < ops.len() ==> (#[trigger] ops[k] matches DrawOp::Surface { surface, .. } ==> surface < s.len()
            && s[surface as int].cur.frame_cbs.len() == 0)
}

proof fn lemma_drawn_stay_done(ops: Seq<DrawOp>, more: Seq<DrawOp>, s: Seq<SurfaceV>, t: Seq<SurfaceV>)
    requires
        drawn_are_done(ops, s),
        drawn_are_done(more, t),
        only_frames_done(s, t),
    ensures
        drawn_are_done(ops + more, t),
{
    let all = ops + more;
    assert forall|k: int| 0 <= k < all.len() implies (#[trigger] all[k] matches DrawOp::Surface { surface, .. } ==> surface
        < t.len() && t[surface as int].cur.frame_cbs.len() == 0) by {
        if k < ops.len() {
            assert(all[k] == ops[k]);
            if let DrawOp::Surface { surface, .. } = ops[k] {
                let j = surface as int;
                assert(t[j] == s[j] || t[j] == s[j].frames_done());
            }
        } else {
            assert(all[k] == more[k - ops.len()]);
        }
    }
}

proof fn lemma_drawing_tells(s: Seq<SurfaceV>, i: int, active: bool, x: i32, y: i32, time: u32, depth: nat)
    requires
        surfaces_wf(s),
        0 <= i < s.len() <= usize::MAX,
        levels_below(s, i, depth),
    ensures
        ({
            let d = draw_down(s, i, active, x, y, time, depth);
            &&& were_told(s, d.surfaces, d.actions, time)
            &&& drawn_are_done(d.ops, d.surfaces)
            &&& d.surfaces[i].cur.frame_cbs.len() == 0
        }),
    decreases depth, 0nat, 0nat,
{
    lemma_some_level(s, i, depth);
    let t = s.update(i, s[i].frames_done());
    let told = done_events(s[i].cur.frame_cbs, time);
    lemma_surface_told(s, i, time);
    assert(only_frames_done(s, t));
    lemma_frames_done(s, t);
    lemma_depth_kept(s, t, i, depth);
    assert(surface_wf(t, i));
    let nodes = s[i].cur.subsurfaces;
    if let Some(transform) = s[i].buf_transform {
        let own = seq![DrawOp::Surface { surface: i as usize, active, transform, x, y }];
        let d = draws_down(t, nodes, active, x, y, time, (depth - 1) as nat);
        lemma_drawing_nodes_tells(t, i, nodes, active, x, y, time, depth);
        lemma_draws_down(t, i, nodes, active, x, y, time, depth);
        lemma_told_further(s, t, d.surfaces, told, d.actions, time);
        assert(drawn_are_done(own, t));
        lemma_drawn_stay_done(own, d.ops, t, d.surfaces);
        assert(d.surfaces[i] == t[i] || d.surfaces[i] == t[i].frames_done());
    }
}

proof fn lemma_drawing_nodes_tells(
    s: Seq<SurfaceV>,
    i: int,
    nodes: Seq<SubsurfaceNode>,
    active: bool,
    x: i32,
    y: i32,
    time: u32,
    depth: nat,
)
    requires
        surfaces_wf(s),
        0 <= i < s.len() <= usize::MAX,
        levels_below(s, i, depth),
        depth >= 1,
        forall|k: int| 0 <= k < nodes.len() ==> is_child(s, i, (#[trigger] nodes[k]).surface as int),
    ensures
        ({
            let d = draws_down(s, nodes, active, x, y, time, (depth - 1) as nat);
            &&& were_told(s, d.surfaces, d.actions, time)
            &&& drawn_are_done(d.ops, d.surfaces)
        }),
    decreases depth - 1, 1nat, nodes.len(),
{
    if nodes.len() > 0 {
        let rest = nodes.drop_last();
        let d = (depth - 1) as nat;
        assert forall|k: int| 0 <= k < rest.len() implies is_child(s, i, (#[trigger] rest[k]).surface as int) by {
            assert(rest[k] == nodes[k]);
        }
        lemma_drawing_nodes_tells(s, i, rest, active, x, y, time, depth);
        lemma_nodes_before(s, i, nodes, active, x, y, time, depth);
        let before = draws_down(s, rest, active, x, y, time, d);
        let n = nodes[nodes.len() - 1];
        let c = n.surface as int;
        let nx = x.wrapping_add(n.position.0);
        let ny = y.wrapping_add(n.position.1);
        let e = draw_down(before.surfaces, c, active, nx, ny, time, d);
        lemma_drawing_tells(before.surfaces, c, active, nx, ny, time, d);
        lemma_draw_down(before.surfaces, c, active, nx, ny, time, d);
        lemma_told_further(s, before.surfaces, e.surfaces, before.actions, e.actions, time);
        lemma_drawn_stay_done(before.ops, e.ops, before.surfaces, e.surfaces);
    } else {
        lemma_nobody_told(s, time);
    }
}

/// A frame tells all who wait for a frame of a surface that it shows, and of every window that has a geometry: each
/// callback is answered once, with the time of the frame, and waits no more. Nobody else is told.
pub proof fn law_frame_is_told(st: StateV, time: u32)
    requires
        state_wf(st),
        acyclic(st.compositor.surfaces),
    ensures
        ({
            let s = st.compositor.surfaces;
            let d = draw_windows(s, st.focus_stack, st.focus_stack.len() as int, time);
            &&& were_told(s, d.surfaces, d.actions, time)
            &&& drawn_are_done(st.frame_ops(time), d.surfaces)
            &&& forall|k: int|
                0 <= k < st.focus_stack.len() && s[#[trigger] st.focus_stack[k] as int].xdg()->0.effective_window_geometry is Some
                    ==> d.surfaces[st.focus_stack[k] as int].cur.frame_cbs.len() == 0
        }),
{
    let s = st.compositor.surfaces;
    let n = st.focus_stack.len() as int;
    assert(st.focus_stack.take(n) =~= st.focus_stack);
    assert(drawable(st)) by {
        reveal(drawable);
    }
    lemma_windows_told(st, n, time);
    let d = draw_windows(s, st.focus_stack, n, time);
    let clear = seq![DrawOp::Clear];
    assert(drawn_are_done(clear, d.surfaces));
    assert(drawn_are_done(st.cursor_ops(), d.surfaces));
    assert(only_frames_done(d.surfaces, d.surfaces));
    lemma_drawn_stay_done(clear, d.ops, d.surfaces, d.surfaces);
    lemma_drawn_stay_done(clear + d.ops, st.cursor_ops(), d.surfaces, d.surfaces);
    assert forall|k: int|
        0 <= k < st.focus_stack.len() && s[#[trigger] st.focus_stack[k] as int].xdg()->0.effective_window_geometry is Some implies d.surfaces[st.focus_stack[k] as int].cur.frame_cbs.len()
        == 0 by {
        assert(shown_toplevel(s, st.focus_stack[k] as int));
        assert(window_done(st, d.surfaces, k));
    }
}

proof fn lemma_windows_told(st: StateV, k: int, time: u32)
    requires
        drawable(st),
        0 <= k <= st.focus_stack.len(),
    ensures
        ({
            let s = st.compositor.surfaces;
            let d = draw_windows(s, st.focus_stack.take(k), st.focus_stack.len() as int, time);
            &&& only_frames_done(s, d.surfaces)
            &&& were_told(s, d.surfaces, d.actions, time)
            &&& drawn_are_done(d.ops, d.surfaces)
            &&& forall|l: int| 0 <= l < k ==> #[trigger] window_done(st, d.surfaces, l)
        }),
    decreases k,
{
    let s = st.compositor.surfaces;
    let stack = st.focus_stack;
    let n = stack.len() as int;
    if k > 0 {
        lemma_windows_told(st, k - 1, time);
        let before = draw_windows(s, stack.take(k - 1), n, time);
        let after = draw_windows(s, stack.take(k), n, time);
        let t = before.surfaces;
        lemma_window_drawn(st, t, k - 1, time);
        assert(stack.take(k).drop_last() =~= stack.take(k - 1));
        assert(stack.take(k).last() == stack[k - 1]);
        let i = stack[k - 1] as int;
        let xdg = t[i].xdg()->0;
        let w = xdg.specific->Toplevel_0;
        let active = k == n;
        if let Some(g) = xdg.effective_window_geometry {
            let e = draw_down(t, i, active, w.x.wrapping_sub(g.x), w.y.wrapping_sub(g.y), time, levels(t));
            let b = border_ops(w.x, w.y, g, active);
            lemma_frames_done_trans(s, t, e.surfaces);
            lemma_told_further(s, t, e.surfaces, before.actions, e.actions, time);
            assert(drawn_are_done(b, t));
            assert(only_frames_done(t, t));
            lemma_drawn_stay_done(before.ops, b, t, t);
            lemma_drawn_stay_done(before.ops + b, e.ops, t, e.surfaces);
            assert forall|l: int| 0 <= l < k implies #[trigger] window_done(st, after.surfaces, l) by {
                if l < k - 1 {
                    assert(window_done(st, t, l));
                    let j = stack[l] as int;
                    if 0 <= j < s.len() {
                        assert(e.surfaces[j] == t[j] || e.surfaces[j] == t[j].frames_done());
                    }
                }
            }
        } else {
            assert forall|l: int| 0 <= l < k implies #[trigger] window_done(st, after.surfaces, l) by {
                if l < k - 1 {
                    assert(window_done(st, t, l));
                }
            }
        }
    } else {
        assert(stack.take(0) =~= Seq::empty());
        assert(only_frames_done(s, s));
        lemma_nobody_told(s, time);
    }
}

/// Whether nobody waits for a frame of the window in place `l`, if it has a geometry.
spec fn window_done(st: StateV, t: Seq<SurfaceV>, l: int) -> bool {
    let s = st.compositor.surfaces;
    let i = st.focus_stack[l] as int;
    0 <= i < s.len() && s[i].xdg()->0.effective_window_geometry is Some ==> t[i].cur.frame_cbs.len() == 0
}

} // verus!
