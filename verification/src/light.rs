//! Packed per-cell light values and the deduplicating priority queue of
//! cells awaiting light recomputation.

use vstd::prelude::*;

use crate::math::GridPoint;

verus! {

/// The priority scalar carried by light update requests.
pub type PackedLightScalar = u8;

/// An RGB light intensity with 8-bit components.
#[derive(Clone, Copy, Debug, PartialEq, Eq, Hash, Structural)]
pub struct Rgb {
    pub red: u8,
    pub green: u8,
    pub blue: u8,
}

impl Rgb {
    /// A light color from its components.
    pub fn new(red: u8, green: u8, blue: u8) -> (r: Rgb)
        ensures
            r == (Rgb { red, green, blue }),
    {
        Rgb { red, green, blue }
    }

    /// No light at all.
    pub fn black() -> (r: Rgb)
        ensures
            r == (Rgb { red: 0, green: 0, blue: 0 }),
    {
        Rgb { red: 0, green: 0, blue: 0 }
    }
}

/// The lifecycle state of a cell's stored light value.
#[derive(Clone, Copy, Debug, PartialEq, Eq, Hash, Structural)]
pub enum LightStatus {
    /// The cell's light has never been computed.
    Uninitialized,
    /// The cell is known to be inside an opaque block and is permanently
    /// dark.
    Opaque,
    /// The cell holds a computed light value.
    Valued,
}

/// A compact fixed-size encoding of a cell's light: an RGB intensity plus a
/// status distinguishing "uninitialized", "known opaque (fully dark)" and
/// "valued" cells. Never holds partial or negative components.
#[derive(Clone, Copy, Debug, PartialEq, Eq, Hash, Structural)]
pub struct PackedLight {
    pub status: LightStatus,
    pub value: Rgb,
}

impl PackedLight {
    /// The constant dark value stored for cells inside opaque blocks.
    pub fn opaque() -> (r: PackedLight)
        ensures
            r == spec_opaque_light(),
    {
        PackedLight { status: LightStatus::Opaque, value: Rgb { red: 0, green: 0, blue: 0 } }
    }

    /// The value of a cell whose light has never been computed.
    pub fn uninitialized() -> (r: PackedLight)
        ensures
            r == spec_uninitialized_light(),
    {
        PackedLight {
            status: LightStatus::Uninitialized,
            value: Rgb { red: 0, green: 0, blue: 0 },
        }
    }

    /// A computed light value.
    pub fn valued(value: Rgb) -> (r: PackedLight)
        ensures
            r == (PackedLight { status: LightStatus::Valued, value }),
    {
        PackedLight { status: LightStatus::Valued, value }
    }
}

/// The constant dark value stored for cells inside opaque blocks.
pub open spec fn spec_opaque_light() -> PackedLight {
    PackedLight { status: LightStatus::Opaque, value: Rgb { red: 0, green: 0, blue: 0 } }
}

/// The value of a cell whose light has never been computed.
pub open spec fn spec_uninitialized_light() -> PackedLight {
    PackedLight { status: LightStatus::Uninitialized, value: Rgb { red: 0, green: 0, blue: 0 } }
}

/// One queued request to recompute the light of a cell, with the magnitude
/// of the expected change as its priority.
#[derive(Clone, Copy, Debug, PartialEq, Eq, Structural)]
pub struct LightUpdateRequest {
    /// Magnitude of the expected light change.
    pub priority: PackedLightScalar,
    /// The cell to recompute.
    pub cube: GridPoint,
}

/// A set of pending cell coordinates, each carrying a priority. Entries are
/// deduplicated by coordinate: inserting an already-queued coordinate may
/// only raise, never lower, its priority.
#[derive(Debug)]
pub struct LightUpdateQueue {
    /// The queued requests, in no particular order, one per cell.
    pub entries: Vec<LightUpdateRequest>,
}

impl View for LightUpdateQueue {
    type V = Seq<LightUpdateRequest>;

    open spec fn view(&self) -> Seq<LightUpdateRequest> {
        self.entries@
    }
}

impl LightUpdateQueue {
    /// No two entries name the same cell.
    pub open spec fn wf(self) -> bool {
        forall|i: int, j: int|
            0 <= i < j < self@.len() ==> self@[i].cube != self@[j].cube
    }

    /// Whether some entry names `cube`.
    pub open spec fn spec_contains(self, cube: GridPoint) -> bool {
        exists|i: int| 0 <= i < self@.len() && self@[i].cube == cube
    }

    /// An empty queue.
    pub fn new() -> (r: LightUpdateQueue)
        ensures
            r@ == Seq::<LightUpdateRequest>::empty(),
            r.wf(),
    {
        let r = LightUpdateQueue { entries: Vec::new() };
        proof {
            assert(r@ =~= Seq::<LightUpdateRequest>::empty());
        }
        r
    }

    /// The number of queued cells.
    pub fn len(&self) -> (r: usize)
        ensures
            r == self@.len(),
    {
        self.entries.len()
    }

    /// Remove every entry.
    pub fn clear(&mut self)
        ensures
            final(self)@ == Seq::<LightUpdateRequest>::empty(),
            final(self).wf(),
    {
        self.entries.clear();
        proof {
            assert(self@ =~= Seq::<LightUpdateRequest>::empty());
        }
    }

    /// The highest priority among the queued cells, or zero when the queue is
    /// empty.
    pub fn max_priority(&self) -> (r: PackedLightScalar)
        ensures
            forall|i: int| 0 <= i < self@.len() ==> self@[i].priority <= r,
            self@.len() == 0 ==> r == 0,
            self@.len() > 0 ==> exists|i: int| 0 <= i < self@.len() && self@[i].priority == r,
    {
        let mut best: PackedLightScalar = 0;
        let mut k: usize = 0;
        while k < self.entries.len()
            invariant
                k <= self@.len(),
                forall|i: int| 0 <= i < k ==> self@[i].priority <= best,
                best > 0 ==> exists|i: int| 0 <= i < k && self@[i].priority == best,
            decreases self@.len() - k,
        {
            if self.entries[k].priority > best {
                best = self.entries[k].priority;
                proof {
                    assert(self@[k as int].priority == best);
                }
            }
            k = k + 1;
        }
        proof {
            if self@.len() > 0 && best == 0 {
                assert(self@[0].priority == 0);
            }
        }
        best
    }

    /// Append an entry for a cell known not to be queued yet.
    pub fn push_new(&mut self, request: LightUpdateRequest)
        requires
            old(self).wf(),
            !old(self).spec_contains(request.cube),
        ensures
            final(self)@ == old(self)@.push(request),
            final(self).wf(),
    {
        self.entries.push(request);
        proof {
            assert forall|i: int, j: int|
                0 <= i < j < self@.len() implies self@[i].cube != self@[j].cube by {
                if j == self@.len() - 1 {
                    assert(old(self)@[i].cube != request.cube);
                }
            }
        }
    }

    /// Enqueue a cell, or raise the priority of its existing entry: an
    /// insert may only raise, never lower, a queued cell's priority.
    pub fn insert(&mut self, request: LightUpdateRequest)
        requires
            old(self).wf(),
        ensures
            final(self).wf(),
            final(self).spec_contains(request.cube),
            forall|c: GridPoint|
                final(self).spec_contains(c) == (old(self).spec_contains(c) || c == request.cube),
            forall|i: int|
                0 <= i < final(self)@.len() && final(self)@[i].cube != request.cube ==> exists|j: int|
                    0 <= j < old(self)@.len() && final(self)@[i] == old(self)@[j],
            forall|i: int|
                0 <= i < final(self)@.len() && final(self)@[i].cube == request.cube
                    ==> final(self)@[i].priority >= request.priority,
            forall|i: int, j: int|
                0 <= i < final(self)@.len() && 0 <= j < old(self)@.len() && final(self)@[i].cube
                    == request.cube && old(self)@[j].cube == request.cube
                    ==> final(self)@[i].priority >= old(self)@[j].priority,
    {
        let n = self.entries.len();
        let mut k: usize = 0;
        while k < n
            invariant
                k <= n,
                n == self@.len(),
                old(self).wf(),
                *self == *old(self),
                forall|i: int| 0 <= i < k ==> self@[i].cube != request.cube,
            decreases n - k,
        {
            if self.entries[k].cube == request.cube {
                if self.entries[k].priority < request.priority {
                    let cube = self.entries[k].cube;
                    self.entries.set(k, LightUpdateRequest { priority: request.priority, cube });
                }
                proof {
                    assert(forall|i: int|
                        0 <= i < self@.len() ==> #[trigger] self@[i].cube == old(self)@[i].cube);
                    assert(self@[k as int].cube == request.cube);
                    assert forall|c: GridPoint|
                        self.spec_contains(c) == (old(self).spec_contains(c) || c
                            == request.cube) by {
                        if old(self).spec_contains(c) {
                            let i = choose|i: int|
                                0 <= i < old(self)@.len() && old(self)@[i].cube == c;
                            assert(self@[i].cube == c);
                        }
                        if self.spec_contains(c) {
                            let i = choose|i: int| 0 <= i < self@.len() && self@[i].cube == c;
                            assert(old(self)@[i].cube == c);
                        }
                    }
                    assert forall|i: int|
                        0 <= i < self@.len() && self@[i].cube != request.cube implies exists|j: int|
                        0 <= j < old(self)@.len() && self@[i] == old(self)@[j] by {
                        assert(self@[i] == old(self)@[i]);
                    }
                }
                return ;
            }
            k = k + 1;
        }
        self.entries.push(request);
        proof {
            assert(self@ == old(self)@.push(request));
            assert(self@[self@.len() - 1].cube == request.cube);
            assert forall|c: GridPoint|
                self.spec_contains(c) == (old(self).spec_contains(c) || c == request.cube) by {
                if old(self).spec_contains(c) {
                    let i = choose|i: int| 0 <= i < old(self)@.len() && old(self)@[i].cube == c;
                    assert(self@[i].cube == c);
                }
                if self.spec_contains(c) && c != request.cube {
                    let i = choose|i: int| 0 <= i < self@.len() && self@[i].cube == c;
                    assert(old(self)@[i].cube == c);
                }
            }
            assert forall|i: int|
                0 <= i < self@.len() && self@[i].cube != request.cube implies exists|j: int|
                0 <= j < old(self)@.len() && self@[i] == old(self)@[j] by {
                assert(self@[i] == old(self)@[i]);
            }
        }
    }

    /// Remove and return an entry of maximal priority, or `None` when the
    /// queue is empty. The remaining entries are exactly the other entries.
    pub fn pop_max(&mut self) -> (r: Option<LightUpdateRequest>)
        requires
            old(self).wf(),
        ensures
            final(self).wf(),
            r is None ==> old(self)@.len() == 0 && final(self)@ == old(self)@,
            r is Some ==> {
                &&& old(self)@.len() > 0
                &&& final(self)@.len() == old(self)@.len() - 1
                &&& exists|i: int|
                    0 <= i < old(self)@.len() && old(self)@[i] == r->0 && final(self)@ == old(
                        self,
                    )@.remove(i)
                &&& forall|i: int| 0 <= i < old(self)@.len() ==> old(self)@[i].priority <= r->0.priority
                &&& !final(self).spec_contains(r->0.cube)
                &&& forall|c: GridPoint|
                    c != r->0.cube ==> final(self).spec_contains(c) == old(self).spec_contains(c)
            },
    {
        if self.entries.len() == 0 {
            return None;
        }
        let mut best_index: usize = 0;
        let mut k: usize = 1;
        while k < self.entries.len()
            invariant
                0 <= best_index < k <= self@.len(),
                forall|i: int| 0 <= i < k ==> self@[i].priority <= self@[best_index as int].priority,
            decreases self@.len() - k,
        {
            if self.entries[k].priority > self.entries[best_index].priority {
                best_index = k;
            }
            k = k + 1;
        }
        let r = self.entries.remove(best_index);
        proof {
            let removed = old(self)@[best_index as int];
            assert(forall|i: int|
                0 <= i < self@.len() ==> #[trigger] self@[i] == if i < best_index {
                    old(self)@[i]
                } else {
                    old(self)@[i + 1]
                });
            assert(!self.spec_contains(removed.cube)) by {
                if self.spec_contains(removed.cube) {
                    let i = choose|i: int|
                        0 <= i < self@.len() && self@[i].cube == removed.cube;
                }
            }
            assert forall|c: GridPoint|
                c != removed.cube implies self.spec_contains(c) == old(self).spec_contains(
                c,
            ) by {
                if old(self).spec_contains(c) {
                    let i = choose|i: int|
                        0 <= i < old(self)@.len() && old(self)@[i].cube == c;
                    if i < best_index {
                        assert(self@[i].cube == c);
                    } else {
                        assert(i > best_index);
                        assert(self@[i - 1].cube == c);
                    }
                }
                if self.spec_contains(c) {
                    let i = choose|i: int| 0 <= i < self@.len() && self@[i].cube == c;
                    if i < best_index {
                        assert(old(self)@[i].cube == c);
                    } else {
                        assert(old(self)@[i + 1].cube == c);
                    }
                }
            }
        }
        Some(r)
    }
}

/// Whether `post` extends `pre` only by entries at maximum priority: every
/// entry of `post` either carries priority 255 or is an untouched entry of
/// `pre`. This is how invalidation grows the queue: changed cells and their
/// affected neighbors are enqueued at maximum priority.
pub open spec fn queue_extended_max(
    pre: Seq<LightUpdateRequest>,
    post: Seq<LightUpdateRequest>,
) -> bool {
    forall|i: int|
        0 <= i < post.len() ==> (#[trigger] post[i]).priority == 255 || exists|j: int|
            0 <= j < pre.len() && pre[j] == post[i]
}

/// Maximum-priority extension is transitive.
pub proof fn lemma_queue_extended_max_trans(
    a: Seq<LightUpdateRequest>,
    b: Seq<LightUpdateRequest>,
    c: Seq<LightUpdateRequest>,
)
    requires
        queue_extended_max(a, b),
        queue_extended_max(b, c),
    ensures
        queue_extended_max(a, c),
{
    assert forall|i: int|
        0 <= i < c.len() implies (#[trigger] c[i]).priority == 255 || exists|j: int|
        0 <= j < a.len() && a[j] == c[i] by {
        if c[i].priority != 255 {
            let j = choose|j: int| 0 <= j < b.len() && b[j] == c[i];
            assert(b[j].priority != 255);
            let k = choose|k: int| 0 <= k < a.len() && a[k] == b[j];
        }
    }
}

/// Performance data about light updates; the statistics a `step` call
/// reports.
#[derive(Clone, Copy, Debug, Default, PartialEq, Eq, Hash, Structural)]
pub struct LightUpdatesInfo {
    /// Number of cells whose light was recomputed.
    pub update_count: usize,
    /// Number of cells that remain queued for recomputation.
    pub queue_count: usize,
    /// The highest priority remaining in the queue, or zero when it is empty.
    pub max_queue_priority: PackedLightScalar,
}

} // verus!
