//! Every use of a buffer that begins with a commit ends once.
use vstd::prelude::*;

use crate::backend::BufferId;
use crate::client::ClientId;
use crate::globals::compositor::{
    CommittedBuffer, CommittedMaskBit, SubsurfaceNode, SurfaceRoleV, SurfaceStateV, SurfaceV,
};
use crate::globals::compositor_requests::state_committed;
use crate::globals::surfaces::{
    cache_applied, cache_down, caches_down, effective_is_sync, levels, list_wf, surface_wf, surfaces_wf,
};
use crate::protocol::Action;
use crate::server::{lemma_surfaces_released, surfaces_released};

verus! {

/// How many uses of a buffer the state of a surface stands for.
pub open spec fn state_holds(st: SurfaceStateV, id: BufferId) -> nat {
    if st.buffer matches Some(b) && b.id == id {
        1
    } else {
        0
    }
}

/// How many uses of a buffer a surface stands for.
pub open spec fn surface_holds(x: SurfaceV, id: BufferId) -> nat {
    state_holds(x.cur, id) + state_holds(x.pending, id) + match x.role {
        SurfaceRoleV::Subsurface(sub) => state_holds(sub.cached_state, id),
        _ => 0nat,
    }
}

/// How many uses of a buffer surfaces stand for.
pub open spec fn held(s: Seq<SurfaceV>, id: BufferId) -> nat
    decreases s.len(),
{
    if s.len() == 0 {
        0
    } else {
        held(s.drop_last(), id) + surface_holds(s.last(), id)
    }
}

/// How many times the renderer is told that a use of a buffer has ended.
pub open spec fn unlocks(actions: Seq<Action>, id: BufferId) -> nat
    decreases actions.len(),
{
    if actions.len() == 0 {
        0
    } else {
        unlocks(actions.drop_last(), id) + if actions.last() == (Action::UnlockBuffer { buffer: id }) {
            1nat
        } else {
            0nat
        }
    }
}

proof fn lemma_held_update(s: Seq<SurfaceV>, i: int, x: SurfaceV, id: BufferId)
    requires
        0 <= i < s.len(),
    ensures
        held(s.update(i, x), id) + surface_holds(s[i], id) == held(s, id) + surface_holds(x, id),
    decreases s.len(),
{
    let t = s.update(i, x);
    if i == s.len() - 1 {
        assert(t.drop_last() =~= s.drop_last());
    } else {
        assert(t.drop_last() =~= s.drop_last().update(i, x));
        lemma_held_update(s.drop_last(), i, x, id);
    }
}

proof fn lemma_unlocks_add(a: Seq<Action>, b: Seq<Action>, id: BufferId)
    ensures
        unlocks(a + b, id) == unlocks(a, id) + unlocks(b, id),
    decreases b.len(),
{
    if b.len() == 0 {
        assert(a + b =~= a);
    } else {
        assert((a + b).drop_last() =~= a + b.drop_last());
        lemma_unlocks_add(a, b.drop_last(), id);
    }
}

proof fn lemma_unlocks_one(action: Action, id: BufferId)
    ensures
        unlocks(seq![action], id) == if action == (Action::UnlockBuffer { buffer: id }) {
            1nat
        } else {
            0nat
        },
        unlocks(Seq::empty(), id) == 0,
{
    assert(seq![action].drop_last() =~= Seq::<Action>::empty());
    assert(unlocks(seq![action].drop_last(), id) == 0);
}

/// State that is applied to other state hands its buffer over, and the use of the buffer that it takes
/// the place of ends.
pub proof fn law_apply_keeps_uses(dst: SurfaceStateV, src: SurfaceStateV, id: BufferId)
    ensures
        state_holds(dst.with_applied(src), id) + state_holds(src.after_apply(), id) + unlocks(dst.unlocked_by(src), id)
            == state_holds(dst, id) + state_holds(src, id),
{
    if src.mask.contains(CommittedMaskBit::Buffer) && dst.buffer is Some {
        lemma_unlocks_one(Action::UnlockBuffer { buffer: dst.buffer->0.id }, id);
    }
}

/// Whether every subsurface that surfaces list is one of them.
pub open spec fn lists_in(s: Seq<SurfaceV>) -> bool {
    forall|j: int| 0 <= j < s.len() ==> surface_lists_in(#[trigger] s[j], s.len())
}

/// Whether every subsurface in a list is one of the first `n` surfaces.
pub open spec fn nodes_in(nodes: Seq<SubsurfaceNode>, n: nat) -> bool {
    forall|k: int| 0 <= k < nodes.len() ==> (#[trigger] nodes[k]).surface < n
}

/// Whether every subsurface that a surface lists is one of the first `n` surfaces.
pub open spec fn surface_lists_in(x: SurfaceV, n: nat) -> bool {
    &&& nodes_in(x.cur.subsurfaces, n)
    &&& nodes_in(x.pending.subsurfaces, n)
    &&& (x.role matches SurfaceRoleV::Subsurface(sub) ==> nodes_in(sub.cached_state.subsurfaces, n))
}

proof fn lemma_lists_in(s: Seq<SurfaceV>)
    requires
        surfaces_wf(s),
    ensures
        lists_in(s),
{
    assert forall|j: int| 0 <= j < s.len() implies surface_lists_in(#[trigger] s[j], s.len()) by {
        assert(surface_wf(s, j));
        assert(list_wf(s, j, s[j].cur.subsurfaces));
        assert(list_wf(s, j, s[j].pending.subsurfaces));
    }
}

proof fn lemma_cache_down_uses(s: Seq<SurfaceV>, i: int, depth: nat, id: BufferId)
    requires
        lists_in(s),
        0 <= i < s.len(),
    ensures
        ({
            let o = cache_down(s, i, depth);
            &&& o.surfaces.len() == s.len()
            &&& lists_in(o.surfaces)
            &&& held(o.surfaces, id) + unlocks(o.actions, id) == held(s, id)
        }),
    decreases depth, 0nat, 0nat,
{
    lemma_unlocks_one(Action::UnlockBuffer { buffer: id }, id);
    if depth > 0 {
        let applied = s[i].cache_applied();
        if let SurfaceRoleV::Subsurface(sub) = s[i].role {
            law_apply_keeps_uses(s[i].cur, sub.cached_state, id);
        }
        assert(surface_holds(applied, id) + unlocks(s[i].cache_unlocks(), id) == surface_holds(s[i], id));
        assert(surface_lists_in(s[i], s.len()));
        assert(surface_lists_in(applied, s.len()));
        match applied.new_buf_transform() {
            Err(_) => {
                lemma_held_update(s, i, applied, id);
                let t = s.update(i, applied);
                assert forall|j: int| 0 <= j < t.len() implies surface_lists_in(#[trigger] t[j], t.len()) by {
                    assert(surface_lists_in(s[j], s.len()));
                }
            },
            Ok(b) => {
                let x = SurfaceV { buf_transform: b, ..applied };
                let t = s.update(i, x);
                lemma_held_update(s, i, x, id);
                assert forall|j: int| 0 <= j < t.len() implies surface_lists_in(#[trigger] t[j], t.len()) by {
                    assert(surface_lists_in(s[j], s.len()));
                }
                lemma_caches_down_uses(t, applied.cur.subsurfaces, (depth - 1) as nat, id);
                lemma_unlocks_add(
                    s[i].cache_unlocks(),
                    caches_down(t, applied.cur.subsurfaces, (depth - 1) as nat).actions,
                    id,
                );
            },
        }
    }
}

proof fn lemma_caches_down_uses(s: Seq<SurfaceV>, nodes: Seq<SubsurfaceNode>, depth: nat, id: BufferId)
    requires
        lists_in(s),
        nodes_in(nodes, s.len()),
    ensures
        ({
            let o = caches_down(s, nodes, depth);
            &&& o.surfaces.len() == s.len()
            &&& lists_in(o.surfaces)
            &&& held(o.surfaces, id) + unlocks(o.actions, id) == held(s, id)
        }),
    decreases depth, 1nat, nodes.len(),
{
    lemma_unlocks_one(Action::UnlockBuffer { buffer: id }, id);
    if nodes.len() > 0 {
        assert(nodes[nodes.len() - 1].surface < s.len());
        assert forall|k: int| 0 <= k < nodes.drop_last().len() implies (#[trigger] nodes.drop_last()[k]).surface
            < s.len() by {
            assert(nodes.drop_last()[k] == nodes[k]);
        }
        let o = caches_down(s, nodes.drop_last(), depth);
        lemma_caches_down_uses(s, nodes.drop_last(), depth, id);
        if o.result is Ok {
            lemma_cache_down_uses(o.surfaces, nodes.last().surface as int, depth, id);
            lemma_unlocks_add(o.actions, cache_down(o.surfaces, nodes.last().surface as int, depth).actions, id);
        }
    }
}

/// A commit adds the use of the buffer that it brings, and every use that is no longer stood for ends
/// with it.
pub proof fn law_commit_keeps_uses(s: Seq<SurfaceV>, i: int, buffer: Option<CommittedBuffer>, id: BufferId)
    requires
        surfaces_wf(s),
        0 <= i < s.len(),
    ensures
        ({
            let o = state_committed(s, i, buffer);
            held(o.surfaces, id) + unlocks(o.actions, id) == held(s, id) + if s[i].pending.mask.contains(
                CommittedMaskBit::Buffer,
            ) && (buffer matches Some(b) && b.id == id) {
                1nat
            } else {
                0nat
            }
        }),
{
    let x = s[i].with_commit_buffer(buffer);
    lemma_unlocks_one(Action::UnlockBuffer { buffer: id }, id);
    lemma_lists_in(s);
    assert(surface_wf(s, i));
    assert(surface_lists_in(s[i], s.len()));
    if effective_is_sync(s, i) {
        if let SurfaceRoleV::Subsurface(sub) = x.role {
            law_apply_keeps_uses(sub.cached_state, x.pending, id);
        }
        lemma_held_update(s, i, x.pending_to_cache(), id);
    } else {
        law_apply_keeps_uses(x.cur, x.pending, id);
        let t = s.update(i, x.pending_to_cur());
        lemma_held_update(s, i, x.pending_to_cur(), id);
        assert forall|j: int| 0 <= j < t.len() implies surface_lists_in(#[trigger] t[j], t.len()) by {
            assert(surface_lists_in(s[j], s.len()));
        }
        lemma_cache_down_uses(t, i, levels(t), id);
        lemma_unlocks_add(x.cur.unlocked_by(x.pending), cache_applied(t, i).actions, id);
    }
}

/// When a client is gone, every use of a buffer that its surfaces stand for ends.
pub proof fn law_client_gone_ends_uses(s: Seq<SurfaceV>, n: nat, client: ClientId, id: BufferId)
    requires
        surfaces_wf(s),
        n <= s.len(),
    ensures
        ({
            let o = surfaces_released(s, n, client);
            held(o.surfaces, id) + unlocks(o.actions, id) == held(s, id)
        }),
    decreases n,
{
    lemma_unlocks_one(Action::UnlockBuffer { buffer: id }, id);
    if n > 0 {
        let i = n - 1;
        let before = surfaces_released(s, i as nat, client);
        law_client_gone_ends_uses(s, i as nat, client, id);
        lemma_surfaces_released(s, i as nat, client);
        assert(surface_wf(s, i));
        if s[i].wl.client == client {
            let x = SurfaceV::fresh(s[i].wl, s[i].version);
            assert(before.surfaces[i] == s[i]);
            lemma_held_update(before.surfaces, i, x, id);
            lemma_unlocks_add(before.actions, s[i].release_events(), id);
            let cached = match s[i].role {
                SurfaceRoleV::Subsurface(sub) => match sub.cached_state.buffer {
                    Some(b) => seq![Action::UnlockBuffer { buffer: b.id }],
                    None => Seq::empty(),
                },
                _ => Seq::empty(),
            };
            if cached.len() > 0 {
                lemma_unlocks_one(cached[0], id);
            }
            if let Some(b) = s[i].cur.buffer {
                assert(s[i].release_events().drop_last() =~= cached);
            }
        }
    }
}

} // verus!
