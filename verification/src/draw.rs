//! What a frame shows, from the lowest layer up.
use vstd::prelude::*;
use crate::backend::BufferId;
use crate::buffer_transform::BufferTransform;
use crate::globals::compositor::{SubsurfaceNode, SurfaceRole, SurfaceRoleV, SurfaceStateV, SurfaceV};
use crate::globals::surfaces::{
    acyclic, is_child, lemma_levels, lemma_one_level_down, lemma_same_links, lemma_some_level, levels, levels_below,
    list_wf, ranked, same_links, surface_wf, surfaces_wf, up, Ranking, Surfaces,
};
use crate::globals::xdg_shell::{SpecificRole, WindowGeometry};
use crate::protocol::{Action, Handle};
use crate::state::{lemma_focus_kept, shown_toplevel, state_wf, State, StateV};

verus! {

/// A rectangle on the screen.
#[derive(Debug, Clone, Copy, PartialEq, Eq, Structural)]
pub struct ScreenRect {
    pub x: i32,
    pub y: i32,
    pub width: u32,
    pub height: u32,
}

/// One thing to draw. What belongs to the active window is drawn in full, the rest is faded.
#[derive(Debug, Clone, Copy, PartialEq, Eq, Structural)]
pub enum DrawOp {
    /// Fills the screen with the background.
    Clear,
    /// Draws a part of the border of a window.
    Border { active: bool, rect: ScreenRect },
    /// Draws the buffer of a surface.
    Surface { surface: usize, active: bool, transform: BufferTransform, x: i32, y: i32 },
    /// Draws the image at the pointer.
    Cursor { buffer: BufferId, x: i32, y: i32, width: u32, height: u32 },
}

/// What comes of drawing.
#[verifier::ext_equal]
pub struct Drawn {
    pub surfaces: Seq<SurfaceV>,
    pub ops: Seq<DrawOp>,
    pub actions: Seq<Action>,
}

/// The events that tell a client that a frame is being drawn.
pub open spec fn done_events(callbacks: Seq<Handle>, time: u32) -> Seq<Action> {
    callbacks.map_values(|cb: Handle| Action::CallbackDone { callback: cb, data: time })
}

impl SurfaceV {
    /// The surface after all who wait for a frame were told.
    pub open spec fn frames_done(self) -> SurfaceV {
        SurfaceV { cur: SurfaceStateV { frame_cbs: Seq::empty(), ..self.cur }, ..self }
    }
}

/// What comes of drawing surface `i` at a point of the screen, with its subsurfaces `depth` levels
/// down. Who waits for a frame of a surface is told even if the surface has nothing to show.
pub open spec fn draw_down(s: Seq<SurfaceV>, i: int, active: bool, x: i32, y: i32, time: u32, depth: nat) -> Drawn
    decreases depth, 0nat, 0nat,
{
    if depth == 0 {
        Drawn { surfaces: s, ops: Seq::empty(), actions: Seq::empty() }
    } else {
        let told = done_events(s[i].cur.frame_cbs, time);
        let t = s.update(i, s[i].frames_done());
        match s[i].buf_transform {
            None => Drawn { surfaces: t, ops: Seq::empty(), actions: told },
            Some(transform) => {
                let d = draws_down(t, s[i].cur.subsurfaces, active, x, y, time, (depth - 1) as nat);
                Drawn {
                    surfaces: d.surfaces,
                    ops: seq![DrawOp::Surface { surface: i as usize, active, transform, x, y }] + d.ops,
                    actions: told + d.actions,
                }
            },
        }
    }
}

/// What comes of drawing the subsurfaces in a list, from the lowest up.
pub open spec fn draws_down(
    s: Seq<SurfaceV>,
    nodes: Seq<SubsurfaceNode>,
    active: bool,
    x: i32,
    y: i32,
    time: u32,
    depth: nat,
) -> Drawn
    decreases depth, 1nat, nodes.len(),
{
    if nodes.len() == 0 {
        Drawn { surfaces: s, ops: Seq::empty(), actions: Seq::empty() }
    } else {
        let before = draws_down(s, nodes.drop_last(), active, x, y, time, depth);
        let n = nodes.last();
        let d = draw_down(
            before.surfaces,
            n.surface as int,
            active,
            x.wrapping_add(n.position.0),
            y.wrapping_add(n.position.1),
            time,
            depth,
        );
        Drawn { surfaces: d.surfaces, ops: before.ops + d.ops, actions: before.actions + d.actions }
    }
}

/// Whether surfaces differ in nothing but who waits for a frame.
pub open spec fn only_frames_done(a: Seq<SurfaceV>, b: Seq<SurfaceV>) -> bool {
    &&& a.len() == b.len()
    &&& forall|j: int| 0 <= j < a.len() ==> (#[trigger] b[j] == a[j] || b[j] == a[j].frames_done())
}

pub(crate) proof fn lemma_frames_done(a: Seq<SurfaceV>, b: Seq<SurfaceV>)
    requires
        only_frames_done(a, b),
    ensures
        same_links(a, b),
        surfaces_wf(a) ==> surfaces_wf(b),
        forall|j: int| 0 <= j < a.len() ==> #[trigger] shown_toplevel(b, j) == shown_toplevel(a, j),
{
    assert forall|j: int| 0 <= j < a.len() implies up(a, j) == #[trigger] up(b, j) by {
        assert(b[j] == a[j] || b[j] == a[j].frames_done());
    }
    assert forall|j: int| 0 <= j < a.len() implies #[trigger] shown_toplevel(b, j) == shown_toplevel(a, j) by {
        assert(b[j] == a[j] || b[j] == a[j].frames_done());
    }
    if surfaces_wf(a) {
        assert forall|k: int, c: int| is_child(a, k, c) implies is_child(b, k, c) by {
            assert(b[c] == a[c] || b[c] == a[c].frames_done());
        }
        assert forall|j: int| 0 <= j < b.len() implies #[trigger] surface_wf(b, j) by {
            assert(surface_wf(a, j));
            assert(b[j] == a[j] || b[j] == a[j].frames_done());
            assert(list_wf(b, j, a[j].cur.subsurfaces));
            assert(list_wf(b, j, a[j].pending.subsurfaces));
            match a[j].role {
                SurfaceRoleV::Subsurface(sub) => {
                    let q = sub.parent as int;
                    assert(b[q] == a[q] || b[q] == a[q].frames_done());
                },
                SurfaceRoleV::Xdg(xdg) => {
                    if let Some(p) = xdg.popup {
                        assert(b[p as int] == a[p as int] || b[p as int] == a[p as int].frames_done());
                    }
                    if let SpecificRole::Popup(pop) = xdg.specific {
                        let q = pop.parent as int;
                        assert(b[q] == a[q] || b[q] == a[q].frames_done());
                    }
                },
                _ => {},
            }
        }
    }
}

pub(crate) proof fn lemma_frames_done_trans(a: Seq<SurfaceV>, b: Seq<SurfaceV>, c: Seq<SurfaceV>)
    requires
        only_frames_done(a, b),
        only_frames_done(b, c),
    ensures
        only_frames_done(a, c),
{
    assert forall|j: int| 0 <= j < a.len() implies (#[trigger] c[j] == a[j] || c[j] == a[j].frames_done()) by {
        assert(b[j] == a[j] || b[j] == a[j].frames_done());
        assert(c[j] == b[j] || c[j] == b[j].frames_done());
    }
}

pub(crate) proof fn lemma_depth_kept(a: Seq<SurfaceV>, b: Seq<SurfaceV>, i: int, depth: nat)
    requires
        same_links(a, b),
        levels_below(a, i, depth),
    ensures
        levels_below(b, i, depth),
{
    let r = choose|r: Ranking| #[trigger] ranked(a, r) && r.bound < depth + r.of(i);
    lemma_same_links(a, b, r);
}

/// Drawing changes nothing but who waits for a frame.
pub(crate) proof fn lemma_draw_down(s: Seq<SurfaceV>, i: int, active: bool, x: i32, y: i32, time: u32, depth: nat)
    requires
        surfaces_wf(s),
        0 <= i < s.len(),
        levels_below(s, i, depth),
    ensures
        only_frames_done(s, draw_down(s, i, active, x, y, time, depth).surfaces),
    decreases depth, 0nat, 0nat,
{
    lemma_some_level(s, i, depth);
    let t = s.update(i, s[i].frames_done());
    assert(only_frames_done(s, t));
    lemma_frames_done(s, t);
    lemma_depth_kept(s, t, i, depth);
    assert(surface_wf(t, i));
    if s[i].buf_transform is Some {
        lemma_draws_down(t, i, s[i].cur.subsurfaces, active, x, y, time, depth);
        lemma_frames_done_trans(
            s,
            t,
            draws_down(t, s[i].cur.subsurfaces, active, x, y, time, (depth - 1) as nat).surfaces,
        );
    }
}

pub(crate) proof fn lemma_draws_down(
    s: Seq<SurfaceV>,
    i: int,
    nodes: Seq<SubsurfaceNode>,
    active: bool,
    x: i32,
    y: i32,
    time: u32,
    depth: nat,
)
    requires
        surfaces_wf(s),
        0 <= i < s.len(),
        levels_below(s, i, depth),
        depth >= 1,
        forall|k: int| 0 <= k < nodes.len() ==> is_child(s, i, (#[trigger] nodes[k]).surface as int),
    ensures
        only_frames_done(s, draws_down(s, nodes, active, x, y, time, (depth - 1) as nat).surfaces),
    decreases depth - 1, 1nat, nodes.len(),
{
    if nodes.len() > 0 {
        assert forall|k: int| 0 <= k < nodes.drop_last().len() implies is_child(
            s,
            i,
            (#[trigger] nodes.drop_last()[k]).surface as int,
        ) by {
            assert(nodes.drop_last()[k] == nodes[k]);
        }
        lemma_draws_down(s, i, nodes.drop_last(), active, x, y, time, depth);
        let before = draws_down(s, nodes.drop_last(), active, x, y, time, (depth - 1) as nat);
        lemma_frames_done(s, before.surfaces);
        lemma_depth_kept(s, before.surfaces, i, depth);
        let n = nodes[nodes.len() - 1];
        let c = n.surface as int;
        assert(is_child(s, i, c));
        assert(up(s, c) == up(before.surfaces, c));
        lemma_one_level_down(before.surfaces, i, c, depth);
        let nx = x.wrapping_add(n.position.0);
        let ny = y.wrapping_add(n.position.1);
        lemma_draw_down(before.surfaces, c, active, nx, ny, time, (depth - 1) as nat);
        lemma_frames_done_trans(
            s,
            before.surfaces,
            draw_down(before.surfaces, c, active, nx, ny, time, (depth - 1) as nat).surfaces,
        );
    }
}

/// What comes of drawing a surface does not depend on how far down is drawn.
pub proof fn law_draw_depth(s: Seq<SurfaceV>, i: int, active: bool, x: i32, y: i32, time: u32, d: nat, e: nat)
    requires
        surfaces_wf(s),
        0 <= i < s.len(),
        levels_below(s, i, d),
        levels_below(s, i, e),
    ensures
        draw_down(s, i, active, x, y, time, d) == draw_down(s, i, active, x, y, time, e),
    decreases d, 0nat, 0nat,
{
    lemma_some_level(s, i, d);
    lemma_some_level(s, i, e);
    let t = s.update(i, s[i].frames_done());
    assert(only_frames_done(s, t));
    lemma_frames_done(s, t);
    lemma_depth_kept(s, t, i, d);
    lemma_depth_kept(s, t, i, e);
    assert(surface_wf(t, i));
    if s[i].buf_transform is Some {
        lemma_draws_depth(t, i, s[i].cur.subsurfaces, active, x, y, time, d, e);
    }
}

proof fn lemma_draws_depth(
    s: Seq<SurfaceV>,
    i: int,
    nodes: Seq<SubsurfaceNode>,
    active: bool,
    x: i32,
    y: i32,
    time: u32,
    d: nat,
    e: nat,
)
    requires
        surfaces_wf(s),
        0 <= i < s.len(),
        levels_below(s, i, d),
        levels_below(s, i, e),
        d >= 1,
        e >= 1,
        forall|k: int| 0 <= k < nodes.len() ==> is_child(s, i, (#[trigger] nodes[k]).surface as int),
    ensures
        draws_down(s, nodes, active, x, y, time, (d - 1) as nat) == draws_down(
            s,
            nodes,
            active,
            x,
            y,
            time,
            (e - 1) as nat,
        ),
    decreases d - 1, 1nat, nodes.len(),
{
    if nodes.len() > 0 {
        assert forall|k: int| 0 <= k < nodes.drop_last().len() implies is_child(
            s,
            i,
            (#[trigger] nodes.drop_last()[k]).surface as int,
        ) by {
            assert(nodes.drop_last()[k] == nodes[k]);
        }
        lemma_draws_depth(s, i, nodes.drop_last(), active, x, y, time, d, e);
        lemma_draws_down(s, i, nodes.drop_last(), active, x, y, time, d);
        let before = draws_down(s, nodes.drop_last(), active, x, y, time, (d - 1) as nat);
        lemma_frames_done(s, before.surfaces);
        lemma_depth_kept(s, before.surfaces, i, d);
        lemma_depth_kept(s, before.surfaces, i, e);
        let n = nodes[nodes.len() - 1];
        let c = n.surface as int;
        assert(is_child(s, i, c));
        assert(up(s, c) == up(before.surfaces, c));
        lemma_one_level_down(before.surfaces, i, c, d);
        lemma_one_level_down(before.surfaces, i, c, e);
        law_draw_depth(
            before.surfaces,
            c,
            active,
            x.wrapping_add(n.position.0),
            y.wrapping_add(n.position.1),
            time,
            (d - 1) as nat,
            (e - 1) as nat,
        );
    }
}

impl Surfaces {
    /// Tells all who wait for a frame of a surface.
    fn finish_frames(&mut self, i: usize, time: u32, actions: &mut Vec<Action>)
        requires
            i < old(self)@.len(),
        ensures
            final(self)@ == old(self)@.update(i as int, old(self)@[i as int].frames_done()),
            final(actions)@ == old(actions)@ + done_events(old(self)@[i as int].cur.frame_cbs, time),
    {
        let ghost s = self@;
        let ghost a0 = actions@;
        let mut callbacks: Vec<Handle> = Vec::new();
        assert(self.list@[i as int]@ == s[i as int]);
        callbacks.append(&mut self.list[i].cur.frame_cbs);
        assert(callbacks@ =~= s[i as int].cur.frame_cbs);
        let mut k: usize = 0;
        assert(actions@ =~= a0 + done_events(callbacks@.take(0), time));
        while k < callbacks.len()
            invariant
                k <= callbacks.len(),
                actions@ == a0 + done_events(callbacks@.take(k as int), time),
            decreases callbacks.len() - k,
        {
            actions.push(Action::CallbackDone { callback: callbacks[k], data: time });
            k = k + 1;
            assert(actions@ =~= a0 + done_events(callbacks@.take(k as int), time));
        }
        assert(callbacks@.take(k as int) =~= callbacks@);
        assert(self@ =~= s.update(i as int, s[i as int].frames_done()));
    }

    fn draw_below(
        &mut self,
        i: usize,
        active: bool,
        x: i32,
        y: i32,
        time: u32,
        ops: &mut Vec<DrawOp>,
        actions: &mut Vec<Action>,
        Ghost(depth): Ghost<nat>,
    )
        requires
            surfaces_wf(old(self)@),
            i < old(self)@.len(),
            levels_below(old(self)@, i as int, depth),
        ensures
            ({
                let d = draw_down(old(self)@, i as int, active, x, y, time, depth);
                &&& final(self)@ == d.surfaces
                &&& final(ops)@ == old(ops)@ + d.ops
                &&& final(actions)@ == old(actions)@ + d.actions
            }),
        decreases depth,
    {
        let ghost s0 = self@;
        let ghost o0 = ops@;
        let ghost a0 = actions@;
        proof {
            lemma_some_level(s0, i as int, depth);
            assert(surface_wf(s0, i as int));
            assert(self.list@[i as int]@ == s0[i as int]);
        }
        self.finish_frames(i, time, actions);
        let ghost told = done_events(s0[i as int].cur.frame_cbs, time);
        let ghost s1 = self@;
        let ghost nodes = s0[i as int].cur.subsurfaces;
        proof {
            assert(only_frames_done(s0, s1));
            lemma_frames_done(s0, s1);
            lemma_depth_kept(s0, s1, i as int, depth);
            assert(surface_wf(s1, i as int));
            assert(self.list@[i as int]@ == s1[i as int]);
        }
        let transform = match self.list[i].buf_transform {
            None => {
                assert(ops@ =~= o0 + Seq::<DrawOp>::empty());
                return ;
            },
            Some(t) => t,
        };
        ops.push(DrawOp::Surface { surface: i, active, transform, x, y });
        let ghost own = seq![DrawOp::Surface { surface: i, active, transform, x, y }];
        let n: usize = self.list[i].cur.subsurfaces.len();
        let mut k: usize = 0;
        proof {
            assert(nodes.take(0) =~= Seq::<SubsurfaceNode>::empty());
            let d0 = draws_down(s1, nodes.take(0), active, x, y, time, (depth - 1) as nat);
            assert(ops@ =~= o0 + (own + d0.ops));
            assert(actions@ =~= a0 + (told + d0.actions));
        }
        while k < n
            invariant
                k <= n,
                n == nodes.len(),
                i < s1.len(),
                surfaces_wf(s1),
                depth >= 1,
                levels_below(s1, i as int, depth),
                list_wf(s1, i as int, nodes),
                s1[i as int].cur.subsurfaces == nodes,
                only_frames_done(s1, self@),
                ({
                    let d = draws_down(s1, nodes.take(k as int), active, x, y, time, (depth - 1) as nat);
                    &&& self@ == d.surfaces
                    &&& ops@ == o0 + (own + d.ops)
                    &&& actions@ == a0 + (told + d.actions)
                }),
            decreases n - k,
        {
            let ghost d = draws_down(s1, nodes.take(k as int), active, x, y, time, (depth - 1) as nat);
            let ghost s2 = self@;
            proof {
                lemma_frames_done(s1, s2);
                lemma_depth_kept(s1, s2, i as int, depth);
                assert(s2[i as int] == s1[i as int] || s2[i as int] == s1[i as int].frames_done());
                assert(self.list@[i as int]@ == s2[i as int]);
                assert(is_child(s1, i as int, nodes[k as int].surface as int));
                assert(up(s1, nodes[k as int].surface as int) == up(s2, nodes[k as int].surface as int));
                lemma_one_level_down(s2, i as int, nodes[k as int].surface as int, depth);
                assert(nodes.take(k + 1).drop_last() =~= nodes.take(k as int));
                assert(nodes.take(k + 1).last() == nodes[k as int]);
            }
            let node = self.list[i].cur.subsurfaces[k];
            let nx: i32 = x.wrapping_add(node.position.0);
            let ny: i32 = y.wrapping_add(node.position.1);
            let ghost e = draw_down(s2, node.surface as int, active, nx, ny, time, (depth - 1) as nat);
            proof {
                lemma_draw_down(s2, node.surface as int, active, nx, ny, time, (depth - 1) as nat);
                lemma_frames_done_trans(s1, s2, e.surfaces);
            }
            self.draw_below(node.surface, active, nx, ny, time, ops, actions, Ghost((depth - 1) as nat));
            proof {
                assert(ops@ =~= o0 + (own + (d.ops + e.ops)));
                assert(actions@ =~= a0 + (told + (d.actions + e.actions)));
            }
            k = k + 1;
        }
        assert(nodes.take(k as int) =~= nodes);
    }
}

/// The border of a window, two pixels wide: left, right, top, bottom.
pub open spec fn border_ops(x: i32, y: i32, g: WindowGeometry, active: bool) -> Seq<DrawOp> {
    seq![
        DrawOp::Border {
            active,
            rect: ScreenRect { x: x.wrapping_sub(2), y: y.wrapping_sub(2), width: 2, height: (g.height + 4) as u32 },
        },
        DrawOp::Border {
            active,
            rect: ScreenRect {
                x: x.wrapping_add(g.width as i32),
                y: y.wrapping_sub(2),
                width: 2,
                height: (g.height + 4) as u32,
            },
        },
        DrawOp::Border { active, rect: ScreenRect { x, y: y.wrapping_sub(2), width: g.width, height: 2 } },
        DrawOp::Border { active, rect: ScreenRect { x, y: y.wrapping_add(g.height as i32), width: g.width, height: 2 } },
    ]
}

/// Draws the border of a window.
fn draw_border(x: i32, y: i32, g: WindowGeometry, active: bool, ops: &mut Vec<DrawOp>)
    requires
        g.wf(),
    ensures
        final(ops)@ == old(ops)@ + border_ops(x, y, g, active),
{
    let ghost o0 = ops@;
    let height: u32 = g.height + 4;
    let top: i32 = y.wrapping_sub(2);
    ops.push(DrawOp::Border { active, rect: ScreenRect { x: x.wrapping_sub(2), y: top, width: 2, height } });
    ops.push(DrawOp::Border { active, rect: ScreenRect { x: x.wrapping_add(g.width as i32), y: top, width: 2, height } });
    ops.push(DrawOp::Border { active, rect: ScreenRect { x, y: top, width: g.width, height: 2 } });
    ops.push(
        DrawOp::Border { active, rect: ScreenRect { x, y: y.wrapping_add(g.height as i32), width: g.width, height: 2 } },
    );
    assert(ops@ =~= o0 + border_ops(x, y, g, active));
}

/// What comes of drawing the first windows of a stack of `n`. A window without a geometry is not drawn.
pub open spec fn draw_windows(s: Seq<SurfaceV>, stack: Seq<usize>, n: int, time: u32) -> Drawn
    decreases stack.len(),
{
    if stack.len() == 0 {
        Drawn { surfaces: s, ops: Seq::empty(), actions: Seq::empty() }
    } else {
        let before = draw_windows(s, stack.drop_last(), n, time);
        let i = stack.last() as int;
        let xdg = before.surfaces[i].xdg()->0;
        let t = xdg.specific->Toplevel_0;
        let active = stack.len() == n;
        match xdg.effective_window_geometry {
            None => before,
            Some(g) => {
                let d = draw_down(
                    before.surfaces,
                    i,
                    active,
                    t.x.wrapping_sub(g.x),
                    t.y.wrapping_sub(g.y),
                    time,
                    levels(before.surfaces),
                );
                Drawn {
                    surfaces: d.surfaces,
                    ops: before.ops + border_ops(t.x, t.y, g, active) + d.ops,
                    actions: before.actions + d.actions,
                }
            },
        }
    }
}

/// A length rounded to whole pixels, halves away from zero.
pub open spec fn rounded(x: int) -> i32 {
    if x >= 0 {
        ((x + 128) / 256) as i32
    } else {
        (-((-x + 128) / 256)) as i32
    }
}

/// Rounds a difference of two positions to whole pixels.
pub fn round_pixels(x: i64) -> (r: i32)
    requires
        -0x1_0000_0000 <= x <= 0x1_0000_0000,
    ensures
        r == rounded(x as int),
{
    if x >= 0 {
        ((x + 128) / 256) as i32
    } else {
        (-((-x + 128) / 256)) as i32
    }
}

impl StateV {
    /// What the image at the pointer adds to a frame.
    pub open spec fn cursor_ops(self) -> Seq<DrawOp> {
        match self.cursor.buffer(self.compositor.surfaces) {
            None => Seq::empty(),
            Some(b) => seq![
                DrawOp::Cursor {
                    buffer: b.0,
                    x: rounded(self.seat.pointer.x.0 as int).wrapping_sub(b.1),
                    y: rounded(self.seat.pointer.y.0 as int).wrapping_sub(b.2),
                    width: b.3,
                    height: b.4,
                },
            ],
        }
    }

    /// What a frame shows: the background, the windows in order, and the image at the pointer.
    pub open spec fn frame_ops(self, time: u32) -> Seq<DrawOp> {
        let d = draw_windows(self.compositor.surfaces, self.focus_stack, self.focus_stack.len() as int, time);
        seq![DrawOp::Clear] + d.ops + self.cursor_ops()
    }
}

impl State {
    /// Works out a frame, and tells all who wait for one.
    pub fn draw_frame(&mut self, time: u32, ops: &mut Vec<DrawOp>, actions: &mut Vec<Action>)
        requires
            state_wf(old(self)@),
            acyclic(old(self)@.compositor.surfaces),
        ensures
            ({
                let st = old(self)@;
                let d = draw_windows(st.compositor.surfaces, st.focus_stack, st.focus_stack.len() as int, time);
                &&& final(self)@ == st.with_surfaces(d.surfaces)
                &&& final(ops)@ == old(ops)@ + st.frame_ops(time)
                &&& final(actions)@ == old(actions)@ + d.actions
            }),
            state_wf(final(self)@),
            acyclic(final(self)@.compositor.surfaces),
            only_frames_done(old(self)@.compositor.surfaces, final(self)@.compositor.surfaces),
    {
        let ghost st = self@;
        let ghost s0 = st.compositor.surfaces;
        let ghost o0 = ops@;
        let ghost a0 = actions@;
        let n: usize = self.focus_stack.inner().len();
        ops.push(DrawOp::Clear);
        let ghost clear = seq![DrawOp::Clear];
        let mut k: usize = 0;
        proof {
            assert(st.focus_stack.take(0) =~= Seq::<usize>::empty());
            let d0 = draw_windows(s0, st.focus_stack.take(0), n as int, time);
            assert(ops@ =~= o0 + (clear + d0.ops));
            assert(actions@ =~= a0 + d0.actions);
            assert(only_frames_done(s0, s0));
        }
        while k < n
            invariant
                k <= n,
                n == st.focus_stack.len(),
                s0 == st.compositor.surfaces,
                state_wf(st),
                acyclic(s0),
                only_frames_done(s0, self@.compositor.surfaces),
                ({
                    let d = draw_windows(s0, st.focus_stack.take(k as int), n as int, time);
                    &&& self@ == st.with_surfaces(d.surfaces)
                    &&& ops@ == o0 + (clear + d.ops)
                    &&& actions@ == a0 + d.actions
                }),
            decreases n - k,
        {
            let ghost d = draw_windows(s0, st.focus_stack.take(k as int), n as int, time);
            let ghost s = self@.compositor.surfaces;
            let i: usize = self.focus_stack.inner()[k];
            proof {
                lemma_frames_done(s0, s);
                let r = choose|r: Ranking| ranked(s0, r);
                lemma_same_links(s0, s, r);
                lemma_levels(s, i as int);
                assert(st.focus_stack.take(k + 1).drop_last() =~= st.focus_stack.take(k as int));
                assert(st.focus_stack.take(k + 1).last() == i);
                assert(shown_toplevel(s0, st.focus_stack[k as int] as int));
                assert(shown_toplevel(s, i as int));
                assert(surface_wf(s, i as int));
                assert(self.compositor.surfaces.list@[i as int]@ == s[i as int]);
            }
            let mut place: Option<(i32, i32, WindowGeometry)> = None;
            if let SurfaceRole::Xdg(xdg) = &self.compositor.surfaces.list[i].role {
                if let SpecificRole::Toplevel(t) = &xdg.specific {
                    if let Some(g) = xdg.effective_window_geometry {
                        place = Some((t.x, t.y, g));
                    }
                }
            }
            if let Some((tx, ty, g)) = place {
                let active = k == n - 1;
                draw_border(tx, ty, g, active, ops);
                let x: i32 = tx.wrapping_sub(g.x);
                let y: i32 = ty.wrapping_sub(g.y);
                let ghost e = draw_down(s, i as int, active, x, y, time, levels(s));
                proof {
                    lemma_draw_down(s, i as int, active, x, y, time, levels(s));
                    lemma_frames_done_trans(s0, s, e.surfaces);
                }
                self.compositor.surfaces.draw_below(i, active, x, y, time, ops, actions, Ghost(levels(s)));
                proof {
                    assert(ops@ =~= o0 + (clear + (d.ops + border_ops(tx, ty, g, active) + e.ops)));
                    assert(actions@ =~= a0 + (d.actions + e.actions));
                }
            }
            k = k + 1;
        }
        proof {
            assert(st.focus_stack.take(k as int) =~= st.focus_stack);
            let s = self@.compositor.surfaces;
            lemma_frames_done(s0, s);
            let r = choose|r: Ranking| ranked(s0, r);
            lemma_same_links(s0, s, r);
            lemma_focus_kept(st.focus_stack, s0, s);
            if let crate::cursor::Kind::Surface { surface, .. } = st.cursor.kind {
                assert(s[surface as int] == s0[surface as int] || s[surface as int] == s0[surface as int].frames_done());
            }
        }
        if let Some((buffer, hx, hy, width, height)) = self.cursor.get_buffer(&self.compositor.surfaces) {
            let x: i32 = round_pixels(self.seat.pointer.x.0 as i64).wrapping_sub(hx);
            let y: i32 = round_pixels(self.seat.pointer.y.0 as i64).wrapping_sub(hy);
            ops.push(DrawOp::Cursor { buffer, x, y, width, height });
        }
        assert(ops@ =~= o0 + st.frame_ops(time));
    }
}

} // verus!
