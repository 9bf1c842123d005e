//! The order of the toplevel windows, from the lowest to the one on top.
use vstd::prelude::*;

use crate::client::ClientId;
use crate::globals::compositor::SurfaceV;
use crate::globals::surfaces::Surfaces;

verus! {

/// The toplevel windows that are shown, each by its surface, from the lowest to the one on top.
#[derive(Debug)]
pub struct FocusStack {
    inner: Vec<usize>,
}

impl View for FocusStack {
    type V = Seq<usize>;

    closed spec fn view(&self) -> Seq<usize> {
        self.inner@
    }
}

/// The windows that are left when one is taken out.
pub open spec fn removed(stack: Seq<usize>, i: usize) -> Seq<usize>
    decreases stack.len(),
{
    if stack.len() == 0 {
        Seq::empty()
    } else {
        let before = removed(stack.drop_last(), i);
        if stack.last() == i {
            before
        } else {
            before.push(stack.last())
        }
    }
}

/// The windows that are left when those of a client are taken out.
pub open spec fn removed_client(stack: Seq<usize>, s: Seq<SurfaceV>, client: ClientId) -> Seq<usize>
    decreases stack.len(),
{
    if stack.len() == 0 {
        Seq::empty()
    } else {
        let before = removed_client(stack.drop_last(), s, client);
        if s[stack.last() as int].wl.client == client {
            before
        } else {
            before.push(stack.last())
        }
    }
}

/// The order after the window in place `k` was brought to the top.
pub open spec fn raised(stack: Seq<usize>, k: int) -> Seq<usize> {
    stack.remove(k).push(stack[k])
}

impl FocusStack {
    /// No windows.
    pub fn new() -> (r: Self)
        ensures
            r@ == Seq::<usize>::empty(),
    {
        Self { inner: Vec::new() }
    }

    /// The window on top.
    pub fn top(&self) -> (r: Option<usize>)
        ensures
            r == if self@.len() == 0 {
                None
            } else {
                Some(self@.last())
            },
    {
        if self.inner.len() == 0 {
            None
        } else {
            Some(self.inner[self.inner.len() - 1])
        }
    }

    /// Brings the window in place `k` to the top and says which one it is.
    pub fn raise(&mut self, k: usize) -> (r: usize)
        requires
            k < old(self)@.len(),
        ensures
            r == old(self)@[k as int],
            final(self)@ == raised(old(self)@, k as int),
    {
        let i: usize = self.inner.remove(k);
        self.inner.push(i);
        i
    }

    /// The window in place `k`.
    pub fn get_i(&self, k: usize) -> (r: Option<usize>)
        ensures
            r == if k < self@.len() {
                Some(self@[k as int])
            } else {
                None
            },
    {
        if k < self.inner.len() {
            Some(self.inner[k])
        } else {
            None
        }
    }

    /// Takes a window out.
    pub fn remove(&mut self, i: usize)
        ensures
            final(self)@ == removed(old(self)@, i),
    {
        let mut kept: Vec<usize> = Vec::new();
        let mut k: usize = 0;
        assert(self.inner@.take(0) =~= Seq::<usize>::empty());
        while k < self.inner.len()
            invariant
                k <= self.inner.len(),
                self.inner@ == old(self).inner@,
                kept@ == removed(self.inner@.take(k as int), i),
            decreases self.inner.len() - k,
        {
            assert(self.inner@.take(k + 1).drop_last() =~= self.inner@.take(k as int));
            if self.inner[k] != i {
                kept.push(self.inner[k]);
            }
            k = k + 1;
        }
        assert(self.inner@.take(k as int) =~= self.inner@);
        self.inner = kept;
    }

    /// Takes the windows of a client out.
    pub fn remove_client(&mut self, surfaces: &Surfaces, client: ClientId)
        requires
            forall|k: int| 0 <= k < old(self)@.len() ==> #[trigger] old(self)@[k] < surfaces@.len(),
        ensures
            final(self)@ == removed_client(old(self)@, surfaces@, client),
    {
        let mut kept: Vec<usize> = Vec::new();
        let mut k: usize = 0;
        assert(self.inner@.take(0) =~= Seq::<usize>::empty());
        while k < self.inner.len()
            invariant
                k <= self.inner.len(),
                self.inner@ == old(self).inner@,
                forall|k: int| 0 <= k < self@.len() ==> #[trigger] self@[k] < surfaces@.len(),
                kept@ == removed_client(self.inner@.take(k as int), surfaces@, client),
            decreases self.inner.len() - k,
        {
            assert(self.inner@.take(k + 1).drop_last() =~= self.inner@.take(k as int));
            let i: usize = self.inner[k];
            assert(self@[k as int] == i);
            if surfaces.get(i).wl.client != client {
                kept.push(i);
            }
            k = k + 1;
        }
        assert(self.inner@.take(k as int) =~= self.inner@);
        self.inner = kept;
    }

    /// Puts a window on top.
    pub fn push(&mut self, i: usize)
        ensures
            final(self)@ == old(self)@.push(i),
    {
        self.inner.push(i);
    }

    /// There are not more windows than a list can hold.
    pub(crate) proof fn lemma_len(&self)
        ensures
            self@.len() <= usize::MAX,
    {
        assert(self.inner.len() == self.inner@.len());
    }

    /// The windows in order.
    pub fn inner(&self) -> (r: &Vec<usize>)
        ensures
            r@ == self@,
    {
        &self.inner
    }
}

/// What is left are the windows other than the one that was taken out, in the same order.
pub proof fn lemma_removed(stack: Seq<usize>, i: usize)
    ensures
        forall|j: usize| #[trigger] removed(stack, i).contains(j) <==> stack.contains(j) && j != i,
        stack.no_duplicates() ==> removed(stack, i).no_duplicates(),
        !stack.contains(i) ==> removed(stack, i) == stack,
    decreases stack.len(),
{
    let kept = removed(stack, i);
    if stack.len() > 0 {
        let init = stack.drop_last();
        let before = removed(init, i);
        lemma_removed(init, i);
        assert(stack =~= init.push(stack.last()));
        assert forall|j: usize| #[trigger] kept.contains(j) <==> stack.contains(j) && j != i by {
            assert(before.contains(j) <==> init.contains(j) && j != i);
            if stack.contains(j) {
                let k = choose|k: int| 0 <= k < stack.len() && stack[k] == j;
                if k < init.len() {
                    assert(init[k] == j);
                }
            }
            if init.contains(j) {
                let k = choose|k: int| 0 <= k < init.len() && init[k] == j;
                assert(stack[k] == j);
            }
            if before.contains(j) {
                let k = choose|k: int| 0 <= k < before.len() && before[k] == j;
                assert(kept[k] == j);
            }
            if stack.last() == j && j != i {
                assert(kept[kept.len() - 1] == j);
                assert(stack[stack.len() - 1] == j);
            }
            if kept.contains(j) && !before.contains(j) {
                let k = choose|k: int| 0 <= k < kept.len() && kept[k] == j;
                if k < before.len() {
                    assert(before[k] == j);
                }
                assert(stack[stack.len() - 1] == j);
            }
        }
        if stack.no_duplicates() {
            assert(init.no_duplicates());
            if stack.last() != i {
                assert forall|a: int, b: int| 0 <= a < kept.len() && 0 <= b < kept.len() && a != b implies kept[a]
                    != kept[b] by {
                    if a < before.len() && b < before.len() {
                        assert(before[a] != before[b]);
                    } else if a < before.len() {
                        assert(before.contains(before[a]));
                        let k = choose|k: int| 0 <= k < init.len() && init[k] == before[a];
                        assert(stack[k] != stack[stack.len() - 1]);
                    } else {
                        assert(before.contains(before[b]));
                        let k = choose|k: int| 0 <= k < init.len() && init[k] == before[b];
                        assert(stack[k] != stack[stack.len() - 1]);
                    }
                }
            }
        }
        if !stack.contains(i) {
            if init.contains(i) {
                let k = choose|k: int| 0 <= k < init.len() && init[k] == i;
                assert(stack[k] == i);
            }
            assert(stack[stack.len() - 1] == stack.last());
            assert(kept =~= stack);
        }
    }
}

/// Bringing a window to the top keeps all windows, puts that one last, and leaves the others in their order.
pub proof fn law_raised(stack: Seq<usize>, k: int)
    requires
        0 <= k < stack.len(),
    ensures
        raised(stack, k).len() == stack.len(),
        raised(stack, k).last() == stack[k],
        forall|l: int| 0 <= l < k ==> #[trigger] raised(stack, k)[l] == stack[l],
        forall|l: int| k <= l < stack.len() - 1 ==> #[trigger] raised(stack, k)[l] == stack[l + 1],
        forall|j: usize| #[trigger] raised(stack, k).contains(j) <==> stack.contains(j),
        stack.no_duplicates() ==> raised(stack, k).no_duplicates(),
{
    let after = raised(stack, k);
    assert forall|j: usize| #[trigger] after.contains(j) <==> stack.contains(j) by {
        if stack.contains(j) {
            let l = choose|l: int| 0 <= l < stack.len() && stack[l] == j;
            if l < k {
                assert(after[l] == j);
            } else if l == k {
                assert(after[after.len() - 1] == j);
            } else {
                assert(after[l - 1] == j);
            }
        }
        if after.contains(j) {
            let l = choose|l: int| 0 <= l < after.len() && after[l] == j;
            if l < k {
                assert(stack[l] == j);
            } else if l == after.len() - 1 {
                assert(stack[k] == j);
            } else {
                assert(stack[l + 1] == j);
            }
        }
    }
}

/// The windows that are left when one is taken out are all others, in the order in which they were.
pub proof fn law_removed(stack: Seq<usize>, i: usize)
    ensures
        removed(stack, i) == stack.filter(|j: usize| j != i),
    decreases stack.len(),
{
    reveal(Seq::filter);
    if stack.len() > 0 {
        law_removed(stack.drop_last(), i);
    }
}

/// The windows that are left when those of a client are taken out are those of all others, in the order in which
/// they were.
pub proof fn law_removed_client(stack: Seq<usize>, s: Seq<SurfaceV>, client: ClientId)
    ensures
        removed_client(stack, s, client) == stack.filter(|j: usize| s[j as int].wl.client != client),
    decreases stack.len(),
{
    reveal(Seq::filter);
    if stack.len() > 0 {
        law_removed_client(stack.drop_last(), s, client);
    }
}

} // verus!
