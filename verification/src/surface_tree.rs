//! The surfaces of a client as a tree, for those who look for mistakes.
use vstd::prelude::*;

use crate::client::ClientId;
use crate::globals::compositor::{SubsurfaceNode, SurfaceRole, SurfaceRoleV, SurfaceV};
use crate::globals::surfaces::{
    acyclic, is_child, lemma_levels, lemma_one_level_down, lemma_some_level, levels, levels_below, list_wf, surface_wf,
    surfaces_wf, up, Surfaces,
};
use crate::protocol::Handle;

verus! {

/// What a surface is, and for a subsurface where it is.
#[derive(Debug, Clone, Copy, PartialEq, Eq, Structural)]
pub enum TreeRole {
    NoRole,
    Cursor,
    Xdg,
    Subsurface { x: i32, y: i32 },
}

/// One step in the drawing of the tree.
#[derive(Debug, Clone, Copy, PartialEq, Eq)]
pub enum TreeLine {
    /// A surface. One without a size is not shown.
    Surface { surface: Handle, role: TreeRole, size: Option<(u32, u32)> },
    /// What follows is one level further down.
    Down,
    /// What follows is one level further up.
    Up,
}

/// The size of the buffer of a surface.
pub open spec fn shown_size(x: SurfaceV) -> Option<(u32, u32)> {
    match x.cur.buffer {
        Some(b) => Some((b.width, b.height)),
        None => None,
    }
}

/// The lines of the subsurfaces in a list, `depth` levels down. What is under a surface that is not
/// shown is left out.
pub open spec fn tree_lines(s: Seq<SurfaceV>, nodes: Seq<SubsurfaceNode>, depth: nat) -> Seq<TreeLine>
    decreases depth, nodes.len(),
{
    if nodes.len() == 0 || depth == 0 {
        Seq::empty()
    } else {
        let n = nodes.last();
        let x = s[n.surface as int];
        let own = TreeLine::Surface {
            surface: x.wl,
            role: TreeRole::Subsurface { x: n.position.0, y: n.position.1 },
            size: shown_size(x),
        };
        let below = if x.cur.buffer is Some {
            seq![TreeLine::Down] + tree_lines(s, x.cur.subsurfaces, (depth - 1) as nat) + seq![TreeLine::Up]
        } else {
            Seq::empty()
        };
        tree_lines(s, nodes.drop_last(), depth) + (seq![own] + below)
    }
}

/// The lines of a surface that is not a subsurface, and of all under it.
pub open spec fn root_lines(s: Seq<SurfaceV>, i: int) -> Seq<TreeLine> {
    let x = s[i];
    let role = match x.role {
        SurfaceRoleV::Cursor => TreeRole::Cursor,
        SurfaceRoleV::Xdg(_) => TreeRole::Xdg,
        _ => TreeRole::NoRole,
    };
    let own = TreeLine::Surface { surface: x.wl, role, size: shown_size(x) };
    let below = if x.cur.buffer is Some {
        seq![TreeLine::Down] + tree_lines(s, x.cur.subsurfaces, levels(s)) + seq![TreeLine::Up]
    } else {
        Seq::empty()
    };
    seq![own] + below
}

/// The lines of the first `n` surfaces that belong to a client and are not subsurfaces, and of all
/// under them.
pub open spec fn client_lines(s: Seq<SurfaceV>, n: nat, client: ClientId) -> Seq<TreeLine>
    decreases n,
{
    if n == 0 {
        Seq::empty()
    } else {
        let before = client_lines(s, (n - 1) as nat, client);
        let x = s[n - 1];
        if x.wl.client == client && !(x.role is Subsurface) {
            before + root_lines(s, n - 1)
        } else {
            before
        }
    }
}

impl Surfaces {
    fn subtree(&self, i: usize, lines: &mut Vec<TreeLine>, Ghost(depth): Ghost<nat>)
        requires
            surfaces_wf(self@),
            i < self@.len(),
            levels_below(self@, i as int, depth),
        ensures
            final(lines)@ == old(lines)@ + tree_lines(self@, self@[i as int].cur.subsurfaces, depth),
        decreases depth,
    {
        let ghost s = self@;
        let ghost l0 = lines@;
        let ghost nodes = s[i as int].cur.subsurfaces;
        proof {
            lemma_some_level(s, i as int, depth);
            assert(surface_wf(s, i as int));
            assert(self.list@[i as int]@ == s[i as int]);
            assert(list_wf(s, i as int, nodes));
        }
        let n: usize = self.list[i].cur.subsurfaces.len();
        let mut k: usize = 0;
        assert(nodes.take(0) =~= Seq::<SubsurfaceNode>::empty());
        assert(l0 + tree_lines(s, nodes.take(0), depth) =~= l0);
        while k < n
            invariant
                k <= n,
                n == nodes.len(),
                s == self@,
                surfaces_wf(s),
                i < s.len(),
                levels_below(s, i as int, depth),
                depth >= 1,
                    list_wf(s, i as int, nodes),
                nodes == s[i as int].cur.subsurfaces,
                lines@ == l0 + tree_lines(s, nodes.take(k as int), depth),
            decreases n - k,
        {
            assert(self.list@[i as int]@ == s[i as int]);
            let node = self.list[i].cur.subsurfaces[k];
            let ghost c = node.surface as int;
            assert(node == nodes[k as int]);
            proof {
                assert(is_child(s, i as int, nodes[k as int].surface as int));
                assert(up(s, c) == Some(i as int));
                lemma_one_level_down(s, i as int, c, depth);
                assert(self.list@[c]@ == s[c]);
                assert(nodes.take(k + 1).drop_last() =~= nodes.take(k as int));
                assert(nodes.take(k + 1).last() == nodes[k as int]);
            }
            let sub = self.get(node.surface);
            let size = match &sub.cur.buffer {
                Some(b) => Some((b.width, b.height)),
                None => None,
            };
            let own = TreeLine::Surface {
                surface: sub.wl,
                role: TreeRole::Subsurface { x: node.position.0, y: node.position.1 },
                size,
            };
            let ghost l1 = lines@;
            lines.push(own);
            if size.is_some() {
                let ghost below = tree_lines(s, s[c].cur.subsurfaces, (depth - 1) as nat);
                lines.push(TreeLine::Down);
                self.subtree(node.surface, lines, Ghost((depth - 1) as nat));
                lines.push(TreeLine::Up);
                assert(lines@ =~= l1 + (seq![own] + (seq![TreeLine::Down] + below + seq![TreeLine::Up])));
            } else {
                assert(lines@ =~= l1 + (seq![own] + Seq::<TreeLine>::empty()));
            }
            assert(lines@ =~= l0 + tree_lines(s, nodes.take(k + 1), depth));
            k = k + 1;
        }
        assert(nodes.take(k as int) =~= nodes);
    }

    /// The surfaces of a client as a tree.
    pub fn client_surface_tree(&self, client: ClientId) -> (r: Vec<TreeLine>)
        requires
            surfaces_wf(self@),
            acyclic(self@),
        ensures
            r@ == client_lines(self@, self@.len(), client),
    {
        let ghost s = self@;
        let mut lines: Vec<TreeLine> = Vec::new();
        let n: usize = self.len();
        let mut i: usize = 0;
        while i < n
            invariant
                i <= n,
                n == s.len(),
                s == self@,
                surfaces_wf(s),
                acyclic(s),
                lines@ == client_lines(s, i as nat, client),
            decreases n - i,
        {
            let x = self.get(i);
            let role = match &x.role {
                SurfaceRole::NoRole => Some(TreeRole::NoRole),
                SurfaceRole::Cursor => Some(TreeRole::Cursor),
                SurfaceRole::Xdg(_) => Some(TreeRole::Xdg),
                SurfaceRole::Subsurface(_) => None,
            };
            if let Some(role) = role {
                if x.wl.client == client {
                    let size = match &x.cur.buffer {
                        Some(b) => Some((b.width, b.height)),
                        None => None,
                    };
                    let ghost l0 = lines@;
                    let own = TreeLine::Surface { surface: x.wl, role, size };
                    lines.push(own);
                    if size.is_some() {
                        proof {
                            lemma_levels(s, i as int);
                        }
                        let ghost below = tree_lines(s, s[i as int].cur.subsurfaces, levels(s));
                        lines.push(TreeLine::Down);
                        self.subtree(i, &mut lines, Ghost(levels(s)));
                        lines.push(TreeLine::Up);
                        assert(lines@ =~= l0 + (seq![own] + (seq![TreeLine::Down] + below + seq![TreeLine::Up])));
                    } else {
                        assert(lines@ =~= l0 + (seq![own] + Seq::<TreeLine>::empty()));
                    }
                }
            }
            i = i + 1;
        }
        lines
    }
}

} // verus!
